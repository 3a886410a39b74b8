//! Adding several records in one call, stated over the bytes of the page.

use super::layout::{
    can_add, dir_end_of, free_end_of, free_space_of, put_bounds, put_bytes, put_slot,
    slot_count_of, slot_pos, with_record,
};
use crate::codec::{group_codec, put_u16};
use vstd::prelude::*;

verus! {

broadcast use group_codec;

/// The contents of each of the records.
pub open spec fn each_view(records: Seq<&[u8]>) -> Seq<Seq<u8>> {
    Seq::new(records.len(), |k: int| records[k]@)
}

/// The total length of the records.
pub open spec fn total_len(records: Seq<Seq<u8>>) -> nat
    decreases records.len(),
{
    if records.len() == 0 {
        0
    } else {
        total_len(records.drop_last()) + records.last().len()
    }
}

/// `b` after the records were added one after the other, each one that
/// does not fit at its turn being left out.
pub open spec fn with_records(b: Seq<u8>, records: Seq<Seq<u8>>) -> Seq<u8>
    decreases records.len(),
{
    if records.len() == 0 {
        b
    } else {
        let before = with_records(b, records.drop_last());
        if can_add(before, records.last().len() as int) {
            with_record(before, records.last())
        } else {
            before
        }
    }
}

/// The slot that record `k` gets when the records are added one after the
/// other; `None` where it does not fit at its turn.
pub open spec fn added_slot(b: Seq<u8>, records: Seq<Seq<u8>>, k: int) -> Option<usize> {
    let before = with_records(b, records.take(k));
    if can_add(before, records[k].len() as int) {
        Some(slot_count_of(before) as usize)
    } else {
        None
    }
}

/// How many of the first `k` records get a slot.
pub open spec fn added_below(b: Seq<u8>, records: Seq<Seq<u8>>, k: int) -> nat
    decreases k,
{
    if k <= 0 {
        0
    } else {
        let one: nat = if added_slot(b, records, k - 1) is Some {
            1
        } else {
            0
        };
        added_below(b, records, k - 1) + one
    }
}

/// None of the records is empty.
pub open spec fn none_empty(records: Seq<Seq<u8>>) -> bool {
    forall|k: int| 0 <= k < records.len() ==> (#[trigger] records[k]).len() > 0
}

/// The total length of the records of a batch that may be added under one
/// update of the header: none of them is empty, and together they are no
/// longer than a page. `None` for any other batch.
pub open spec fn batch_total(records: Seq<Seq<u8>>) -> Option<usize> {
    if none_empty(records) && total_len(records) <= 8192 {
        Some(total_len(records) as usize)
    } else {
        None
    }
}

/// None of the records is empty, and together with a slot for each they
/// fit into the free space.
pub open spec fn all_fit(b: Seq<u8>, records: Seq<Seq<u8>>) -> bool {
    &&& forall|k: int| 0 <= k < records.len() ==> (#[trigger] records[k]).len() > 0
    &&& free_space_of(b) >= total_len(records) + 4 * records.len()
}

/// Two pages agree in every byte but those of the three header fields
/// that an insertion moves.
pub open spec fn agree_but_bounds(a: Seq<u8>, b: Seq<u8>) -> bool {
    a.len() == b.len() && forall|x: int| 0 <= x < a.len() && !(6 <= x < 12) ==> a[x] == b[x]
}

/// The first records of a batch are no longer than the batch.
pub proof fn lemma_total_len_take(records: Seq<Seq<u8>>, k: int)
    requires
        0 <= k <= records.len(),
    ensures
        total_len(records.take(k)) <= total_len(records),
        k < records.len() ==> total_len(records.take(k + 1)) == total_len(records.take(k))
            + records[k].len(),
    decreases records.len(),
{
    if k < records.len() {
        assert(records.take(k + 1).drop_last() =~= records.take(k));
        assert(records.drop_last().take(k) =~= records.take(k));
        lemma_total_len_take(records.drop_last(), k);
    } else {
        assert(records.take(k) =~= records);
    }
}

/// What adding a record does to the header: one slot more, the record
/// heap lower by the record, the free space less by record and slot, and
/// the fields that an insertion does not move as they were.
pub proof fn lemma_with_record_bounds(b: Seq<u8>, record: Seq<u8>)
    requires
        b.len() == 8192,
        can_add(b, record.len() as int),
    ensures
        with_record(b, record).len() == 8192,
        slot_count_of(with_record(b, record)) == slot_count_of(b) + 1,
        free_end_of(with_record(b, record)) == free_end_of(b) - record.len(),
        free_space_of(with_record(b, record)) == free_space_of(b) - record.len() - 4,
        forall|x: int|
            0 <= x < 6 || 12 <= x < 32 ==> (#[trigger] with_record(b, record)[x]) == b[x],
{
}

/// Where all the records fit, each of the first `k` is added, and the
/// header moves by their lengths.
pub proof fn lemma_all_fit_prefix(b: Seq<u8>, records: Seq<Seq<u8>>, k: int)
    requires
        b.len() == 8192,
        all_fit(b, records),
        0 <= k <= records.len(),
    ensures
        slot_count_of(with_records(b, records.take(k))) == slot_count_of(b) + k,
        free_end_of(with_records(b, records.take(k))) == free_end_of(b) - total_len(
            records.take(k),
        ),
        free_space_of(with_records(b, records.take(k))) == free_space_of(b) - total_len(
            records.take(k),
        ) - 4 * k,
        with_records(b, records.take(k)).len() == 8192,
        k < records.len() ==> can_add(
            with_records(b, records.take(k)),
            records[k].len() as int,
        ),
    decreases k,
{
    lemma_total_len_take(records, k);
    if k == 0 {
        assert(records.take(0) =~= Seq::<Seq<u8>>::empty());
    } else {
        lemma_all_fit_prefix(b, records, k - 1);
        lemma_total_len_take(records, k - 1);
        assert(records.take(k).drop_last() =~= records.take(k - 1));
        assert(records.take(k).last() == records[k - 1]);
        let before = with_records(b, records.take(k - 1));
        lemma_with_record_bounds(before, records[k - 1]);
    }
    if k < records.len() {
        lemma_total_len_take(records, k + 1);
        assert(records[k].len() > 0);
    }
}

/// Placing a record and its slot in a page whose header fields lag behind
/// gives, byte for byte outside those fields, the page with the record
/// added.
pub proof fn lemma_place_agrees(cur: Seq<u8>, state: Seq<u8>, record: Seq<u8>)
    requires
        state.len() == 8192,
        agree_but_bounds(cur, state),
        can_add(state, record.len() as int),
    ensures
        agree_but_bounds(
            put_slot(
                put_bytes(cur, free_end_of(state) - record.len(), record),
                slot_count_of(state),
                (free_end_of(state) - record.len()) as u16,
                record.len() as u16,
            ),
            with_record(state, record),
        ),
{
    let n = slot_count_of(state);
    let start = free_end_of(state) - record.len();
    let placed_cur = put_slot(put_bytes(cur, start, record), n, start as u16, record.len() as u16);
    let placed = put_slot(put_bytes(state, start, record), n, start as u16, record.len() as u16);
    assert forall|x: int| 0 <= x < 8192 && !(6 <= x < 12) implies placed_cur[x] == placed[x] by {
        crate::codec::lemma_put_u16_agree(
            put_u16(put_bytes(cur, start, record), slot_pos(n), start as u16),
            put_u16(put_bytes(state, start, record), slot_pos(n), start as u16),
            slot_pos(n) + 2,
            record.len() as u16,
        );
        crate::codec::lemma_put_u16_agree(
            put_bytes(cur, start, record),
            put_bytes(state, start, record),
            slot_pos(n),
            start as u16,
        );
    }
}

/// Storing the header fields of the page with the records added in a page
/// that agrees with it elsewhere gives that page.
pub proof fn lemma_bounds_close(cur: Seq<u8>, state: Seq<u8>, record: Seq<u8>)
    requires
        state.len() == 8192,
        can_add(state, record.len() as int),
        agree_but_bounds(cur, with_record(state, record)),
    ensures
        put_bounds(
            cur,
            (dir_end_of(state) + 4) as u16,
            (free_end_of(state) - record.len()) as u16,
            (slot_count_of(state) + 1) as u16,
        ) == with_record(state, record),
{
    let n = slot_count_of(state);
    let start = free_end_of(state) - record.len();
    let placed = put_slot(put_bytes(state, start, record), n, start as u16, record.len() as u16);
    let a = (slot_pos(n + 1)) as u16;
    let s = start as u16;
    let c = (n + 1) as u16;
    let target = with_record(state, record);
    let closed = put_bounds(cur, a, s, c);
    crate::codec::lemma_put_u16_agree(cur, placed, 6, a);
    crate::codec::lemma_put_u16_agree(put_u16(cur, 6, a), put_u16(placed, 6, a), 8, s);
    crate::codec::lemma_put_u16_agree(
        put_u16(put_u16(cur, 6, a), 8, s),
        put_u16(put_u16(placed, 6, a), 8, s),
        10,
        c,
    );
    assert(closed =~= target);
}

} // verus!
