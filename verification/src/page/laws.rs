//! What holds of pages across calls: the laws of the slotted page.

use crate::checksum::{covered, crc32};
use crate::codec::{group_codec, put_u32};
use crate::error::StorageError;
use super::batch::{
    added_below, added_slot, all_fit, lemma_all_fit_prefix, lemma_with_record_bounds,
    with_records,
};
use super::compaction::{
    after_compact, compacted, is_compaction_of, is_packed, lemma_compacted,
    lemma_live_bytes_monotone, lemma_slot_facts, live_bytes_below, lowest_below, packed_offset,
};
use super::header::{empty_header, empty_page, lemma_put_header, PageType};
use super::layout::{
    can_add, checksum_of, deleted_count_of, dir_end_of, free_end_of, free_space_of, has_slot,
    is_live, page_id_of, parsed_page, record_at, record_bytes, should_compact_of, slot_count_of,
    slot_length, slot_offset, slot_pos, slots_in_page, tombstones_below, type_byte_of,
    used_space_of, valid_header, well_formed, with_record, with_tombstone, with_tombstones,
};
use vstd::prelude::*;

verus! {

broadcast use group_codec;

/// A new page whose id is not the reserved one is well-formed, has no
/// slot, and all the room behind the header is free.
pub proof fn lemma_empty_page(page_id: u32, page_type: PageType)
    ensures
        empty_page(page_id, page_type).len() == 8192,
        slot_count_of(empty_page(page_id, page_type)) == 0,
        free_end_of(empty_page(page_id, page_type)) == 8192,
        free_space_of(empty_page(page_id, page_type)) == 8192 - 32,
        checksum_of(empty_page(page_id, page_type)) == 0,
        page_id_of(empty_page(page_id, page_type)) == page_id,
        type_byte_of(empty_page(page_id, page_type)) == page_type.spec_to_byte(),
        page_id != 0xFFFF_FFFF ==> well_formed(empty_page(page_id, page_type)),
        slots_in_page(empty_page(page_id, page_type)),
{
    lemma_put_header(Seq::new(8192, |k: int| 0u8), empty_header(page_id, page_type));
}

/// A page survives the way through its bytes: the bytes of a well-formed
/// page are taken for a page again, and for the same one.
pub proof fn lemma_page_round_trip(b: Seq<u8>)
    requires
        well_formed(b),
    ensures
        parsed_page(b) == Ok::<Seq<u8>, StorageError>(b),
{
}

/// Used and free bytes add up to the page.
pub proof fn lemma_used_plus_free(b: Seq<u8>)
    requires
        valid_header(b),
    ensures
        used_space_of(b) + free_space_of(b) == 8192,
{
}

/// The stored checksum is that of the page, or the 0 that stands for
/// "never computed".
pub open spec fn checksum_holds(b: Seq<u8>) -> bool {
    checksum_of(b) == 0 || checksum_of(b) == crc32(covered(b, 24))
}

/// A page passes the check once its checksum was computed and stored:
/// the checksum does not cover the field that holds it.
pub proof fn lemma_checksum_after_update(b: Seq<u8>)
    requires
        b.len() == 8192,
    ensures
        checksum_holds(put_u32(b, 24, crc32(covered(b, 24)))),
        forall|v: u32| covered(#[trigger] put_u32(b, 24, v), 24) == covered(b, 24),
{
    assert forall|v: u32| covered(#[trigger] put_u32(b, 24, v), 24) == covered(b, 24) by {
        assert(covered(put_u32(b, 24, v), 24) =~= covered(b, 24));
    }
}

/// Adding a record to a well-formed page leaves it well-formed. The record
/// is found under the new slot, and every other slot keeps what it held.
pub proof fn lemma_add_record(b: Seq<u8>, record: Seq<u8>)
    requires
        well_formed(b),
        can_add(b, record.len() as int),
    ensures
        well_formed(with_record(b, record)),
        slots_in_page(b) ==> slots_in_page(with_record(b, record)),
        slot_count_of(with_record(b, record)) == slot_count_of(b) + 1,
        free_end_of(with_record(b, record)) == free_end_of(b) - record.len(),
        record_at(with_record(b, record), slot_count_of(b)) == Some(record),
        forall|i: int| 0 <= i < slot_count_of(b) ==> #[trigger] record_at(with_record(b, record), i)
            == record_at(b, i),
        forall|i: int|
            0 <= i < slot_count_of(b) ==> #[trigger] slot_length(with_record(b, record), i)
                == slot_length(b, i) && slot_offset(with_record(b, record), i) == slot_offset(b, i),
{
    let n = slot_count_of(b);
    let start = free_end_of(b) - record.len();
    let r = with_record(b, record);
    assert(r.len() == 8192);
    assert forall|x: int|
        0 <= x < 8192 && !(6 <= x < 12) && !(start <= x < free_end_of(b)) && !(slot_pos(n) <= x
            < slot_pos(n) + 4) implies r[x] == b[x] by {}
    assert forall|x: int| start <= x < free_end_of(b) implies r[x] == record[x - start] by {}
    assert(slot_count_of(r) == n + 1);
    assert(free_end_of(r) == start);
    assert(slot_length(r, n) == record.len());
    assert(slot_offset(r, n) == start);
    assert(record_bytes(r, n) =~= record);
    assert(is_live(r, n));
    assert forall|i: int| 0 <= i < n implies #[trigger] slot_length(r, i) == slot_length(b, i)
        && slot_offset(r, i) == slot_offset(b, i) && record_at(r, i) == record_at(b, i) && (is_live(
        r,
        i,
    ) <==> is_live(b, i)) by {
        lemma_slot_facts(b, i);
        if is_live(b, i) {
            assert(record_bytes(r, i) =~= record_bytes(b, i));
        }
    }
    assert forall|i: int| is_live(r, i) implies free_end_of(r) <= #[trigger] slot_offset(r, i) by {
        if i < n {
            lemma_slot_facts(b, i);
            assert(slot_length(r, i) == slot_length(b, i));
        }
    }
    assert forall|i: int, j: int| 0 <= i < j && is_live(r, i) && is_live(r, j) implies #[trigger] slot_offset(
        r,
        j,
    ) + slot_length(r, j) <= #[trigger] slot_offset(r, i) by {
        lemma_slot_facts(b, i);
        assert(slot_length(r, i) == slot_length(b, i));
        if j < n {
            lemma_slot_facts(b, j);
            assert(slot_length(r, j) == slot_length(b, j));
            assert(slot_offset(b, j) + slot_length(b, j) <= slot_offset(b, i));
        }
    }
    if slots_in_page(b) {
        assert forall|i: int| 0 <= i < slot_count_of(r) && slot_length(r, i) > 0 implies #[trigger] slot_offset(
            r,
            i,
        ) + slot_length(r, i) <= 8192 by {
            if i < n {
                assert(slot_length(r, i) == slot_length(b, i));
                assert(slot_offset(b, i) + slot_length(b, i) <= 8192);
            }
        }
    }
}

/// Deleting from a well-formed page leaves it well-formed. The slot holds
/// no record afterwards; every other slot keeps what it held, and no slot
/// changes its index.
pub proof fn lemma_delete_record(b: Seq<u8>, index: int)
    requires
        well_formed(b),
    ensures
        well_formed(with_tombstone(b, index)),
        slots_in_page(b) ==> slots_in_page(with_tombstone(b, index)),
        slot_count_of(with_tombstone(b, index)) == slot_count_of(b),
        free_end_of(with_tombstone(b, index)) == free_end_of(b),
        record_at(with_tombstone(b, index), index) is None,
        has_slot(b, index) ==> slot_length(with_tombstone(b, index), index) == 0,
        forall|i: int| i != index ==> #[trigger] record_at(with_tombstone(b, index), i) == record_at(
            b,
            i,
        ),
{
    if has_slot(b, index) {
        let r = with_tombstone(b, index);
        lemma_slot_facts(b, index);
        assert(r.len() == 8192);
        assert forall|x: int|
            0 <= x < 8192 && !(slot_pos(index) + 2 <= x < slot_pos(index) + 4) implies r[x]
            == b[x] by {}
        assert(slot_length(r, index) == 0);
        assert(slot_count_of(r) == slot_count_of(b));
        assert forall|i: int| i != index implies #[trigger] record_at(r, i) == record_at(b, i)
            && (is_live(b, i) ==> slot_length(r, i) == slot_length(b, i) && slot_offset(r, i)
            == slot_offset(b, i)) && (0 <= i < slot_count_of(b) ==> slot_length(r, i)
            == slot_length(b, i) && slot_offset(r, i) == slot_offset(b, i)) by {
            if 0 <= i < slot_count_of(b) {
                lemma_slot_facts(b, i);
                if is_live(b, i) {
                    assert(record_bytes(r, i) =~= record_bytes(b, i));
                }
            }
        }
        assert forall|i: int| is_live(r, i) implies free_end_of(r) <= #[trigger] slot_offset(
            r,
            i,
        ) by {
            assert(record_at(r, i) == record_at(b, i));
        }
        assert forall|i: int, j: int|
            0 <= i < j && is_live(r, i) && is_live(r, j) implies #[trigger] slot_offset(r, j)
            + slot_length(r, j) <= #[trigger] slot_offset(r, i) by {
            assert(record_at(r, i) == record_at(b, i));
            assert(record_at(r, j) == record_at(b, j));
            assert(slot_offset(b, j) + slot_length(b, j) <= slot_offset(b, i));
        }
        if slots_in_page(b) {
            assert forall|i: int|
                0 <= i < slot_count_of(r) && slot_length(r, i) > 0 implies #[trigger] slot_offset(
                r,
                i,
            ) + slot_length(r, i) <= 8192 by {
                assert(record_at(r, i) == record_at(b, i));
                assert(slot_offset(b, i) + slot_length(b, i) <= 8192);
            }
        }
    }
}

/// A batch of deletions leaves a well-formed page well-formed.
pub proof fn lemma_delete_records(b: Seq<u8>, indices: Seq<usize>)
    requires
        well_formed(b),
    ensures
        well_formed(with_tombstones(b, indices)),
        slot_count_of(with_tombstones(b, indices)) == slot_count_of(b),
        forall|i: int|
            0 <= i < slot_count_of(b) ==> #[trigger] record_at(with_tombstones(b, indices), i) == (
            if indices.contains(i as usize) {
                None
            } else {
                record_at(b, i)
            }),
    decreases indices.len(),
{
    if indices.len() > 0 {
        let rest = indices.drop_last();
        let last = indices.last();
        lemma_delete_records(b, rest);
        let before = with_tombstones(b, rest);
        lemma_delete_record(before, last as int);
        assert forall|i: int| 0 <= i < slot_count_of(b) implies #[trigger] record_at(
            with_tombstones(b, indices),
            i,
        ) == (if indices.contains(i as usize) {
            None
        } else {
            record_at(b, i)
        }) by {
            assert(record_at(before, i) == (if rest.contains(i as usize) {
                None
            } else {
                record_at(b, i)
            }));
            if i == last as int {
                assert(indices[indices.len() - 1] == last);
            } else {
                if rest.contains(i as usize) {
                    let w = choose|w: int| 0 <= w < rest.len() && rest[w] == i as usize;
                    assert(indices[w] == i as usize);
                }
                if indices.contains(i as usize) {
                    let w = choose|w: int| 0 <= w < indices.len() && indices[w] == i as usize;
                    assert(rest[w] == i as usize);
                }
            }
        }
    }
}

/// A batch of insertions leaves a well-formed page well-formed, and the
/// slots that were there keep what they held.
pub proof fn lemma_add_records(b: Seq<u8>, records: Seq<Seq<u8>>)
    requires
        well_formed(b),
    ensures
        well_formed(with_records(b, records)),
        slot_count_of(b) <= slot_count_of(with_records(b, records)),
        forall|i: int| 0 <= i < slot_count_of(b) ==> #[trigger] record_at(with_records(b, records), i)
            == record_at(b, i),
    decreases records.len(),
{
    if records.len() > 0 {
        lemma_add_records(b, records.drop_last());
        let before = with_records(b, records.drop_last());
        if can_add(before, records.last().len() as int) {
            lemma_add_record(before, records.last());
        }
    }
}

/// The slots that a batch hands out are consecutive and start at the slot
/// count that the page had before: each record that got a slot got the one
/// that follows the slots handed out before it.
pub proof fn lemma_added_slots_consecutive(b: Seq<u8>, records: Seq<Seq<u8>>, k: int)
    requires
        b.len() == 8192,
        0 <= k <= records.len(),
    ensures
        with_records(b, records.take(k)).len() == 8192,
        slot_count_of(with_records(b, records.take(k))) == slot_count_of(b) + added_below(
            b,
            records,
            k,
        ),
        k < records.len() && added_slot(b, records, k) is Some ==> added_slot(b, records, k)
            == Some((slot_count_of(b) + added_below(b, records, k)) as usize),
    decreases k,
{
    if k == 0 {
        assert(records.take(0) =~= Seq::<Seq<u8>>::empty());
    } else {
        lemma_added_slots_consecutive(b, records, k - 1);
        assert(records.take(k).drop_last() =~= records.take(k - 1));
        assert(records.take(k).last() == records[k - 1]);
        let before = with_records(b, records.take(k - 1));
        if can_add(before, records[k - 1].len() as int) {
            lemma_with_record_bounds(before, records[k - 1]);
        }
    }
}

/// Where all the records of a batch fit, each gets a slot, and the slots
/// count up from the slot count that the page had before.
pub proof fn lemma_all_fit_slots(b: Seq<u8>, records: Seq<Seq<u8>>, k: int)
    requires
        b.len() == 8192,
        all_fit(b, records),
        0 <= k < records.len(),
    ensures
        added_slot(b, records, k) == Some((slot_count_of(b) + k) as usize),
{
    lemma_all_fit_prefix(b, records, k);
}

/// Slot `i` has the same length in both pages and holds a record in both
/// or in neither.
spec fn same_slot_state(b: Seq<u8>, c: Seq<u8>, i: int) -> bool {
    slot_length(c, i) == slot_length(b, i) && (is_live(c, i) <==> is_live(b, i))
}

/// Two pages whose slots have the same lengths have the same tombstones.
proof fn lemma_tombstones_same(b: Seq<u8>, c: Seq<u8>, n: int)
    requires
        slot_count_of(b) == slot_count_of(c),
        forall|i: int| 0 <= i < n ==> #[trigger] same_slot_state(b, c, i),
    ensures
        tombstones_below(c, n) == tombstones_below(b, n),
    decreases n,
{
    if n > 0 {
        lemma_tombstones_same(b, c, n - 1);
        assert(same_slot_state(b, c, n - 1));
    }
}

/// The records below a slot take the same room in two pages whose slots
/// have the same lengths there and hold records in the same places.
proof fn lemma_live_bytes_same(b: Seq<u8>, c: Seq<u8>, n: int)
    requires
        forall|i: int| 0 <= i < n ==> #[trigger] same_slot_state(b, c, i),
    ensures
        live_bytes_below(c, n) == live_bytes_below(b, n),
    decreases n,
{
    if n > 0 {
        lemma_live_bytes_same(b, c, n - 1);
        assert(same_slot_state(b, c, n - 1));
    }
}

/// Compaction of a well-formed page gives a well-formed page that is
/// packed, that has the same tombstones, and that has no less free space.
/// Every slot holds the record it held before.
pub proof fn lemma_compaction(b: Seq<u8>, c: Seq<u8>)
    requires
        well_formed(b),
        is_compaction_of(c, b),
    ensures
        well_formed(c),
        slots_in_page(b) ==> slots_in_page(c),
        is_packed(c),
        slot_count_of(c) == slot_count_of(b),
        forall|i: int| #[trigger] record_at(c, i) == record_at(b, i),
        deleted_count_of(c) == deleted_count_of(b),
        should_compact_of(c) == should_compact_of(b),
        free_space_of(c) >= free_space_of(b),
{
    let n = slot_count_of(b);
    assert(slot_count_of(c) == n);
    assert(dir_end_of(c) == dir_end_of(b));
    lemma_live_bytes_monotone(b, 0, n);
    lemma_heap_holds_records(b, n);
    assert(free_end_of(c) >= free_end_of(b));
    assert(valid_header(c));
    assert forall|i: int| 0 <= i < n implies #[trigger] same_slot_state(b, c, i) && (is_live(b, i)
        ==> slot_offset(c, i) == packed_offset(b, i) && live_bytes_below(b, i + 1)
        == live_bytes_below(b, i) + slot_length(b, i)) && live_bytes_below(b, i) >= 0 by {
        lemma_slot_facts(b, i);
        assert(slot_length(c, i) == slot_length(b, i));
        lemma_live_bytes_monotone(b, i, i);
    }
    assert forall|i: int| #[trigger] record_at(c, i) == record_at(b, i) by {
        if 0 <= i < n {
            assert(slot_length(c, i) == slot_length(b, i));
        }
    }
    lemma_tombstones_same(b, c, n);
    assert forall|i: int| is_live(c, i) implies free_end_of(c) <= #[trigger] slot_offset(c, i) by {
        assert(slot_length(c, i) == slot_length(b, i));
        lemma_live_bytes_monotone(b, i + 1, n);
    }
    assert forall|i: int, j: int| 0 <= i < j && is_live(c, i) && is_live(c, j) implies #[trigger] slot_offset(
        c,
        j,
    ) + slot_length(c, j) <= #[trigger] slot_offset(c, i) by {
        assert(slot_length(c, i) == slot_length(b, i));
        assert(slot_length(c, j) == slot_length(b, j));
        lemma_live_bytes_monotone(b, i + 1, j);
    }
    assert(well_formed(c));
    assert forall|i: int| 0 <= i <= n implies live_bytes_below(c, i) == live_bytes_below(b, i) by {
        lemma_live_bytes_same(b, c, i);
    }
    assert forall|i: int| 0 <= i < n && is_live(c, i) implies #[trigger] slot_offset(c, i)
        == packed_offset(c, i) by {
        assert(slot_length(c, i) == slot_length(b, i));
        assert(live_bytes_below(c, i + 1) == live_bytes_below(b, i + 1));
    }
    assert(live_bytes_below(c, n) == live_bytes_below(b, n));
    if slots_in_page(b) {
        assert forall|i: int| 0 <= i < n && slot_length(c, i) > 0 implies #[trigger] slot_offset(
            c,
            i,
        ) + slot_length(c, i) <= 8192 by {
            lemma_slot_facts(b, i);
            assert(slot_length(c, i) == slot_length(b, i));
            assert(slot_offset(b, i) + slot_length(b, i) <= 8192);
            assert(is_live(c, i));
        }
    }
}

/// In a well-formed page the records of the slots below `n` lie between
/// the lowest of them and the end of the page, and all later records lie
/// below that.
proof fn lemma_heap_holds_records(b: Seq<u8>, n: int)
    requires
        well_formed(b),
        0 <= n <= slot_count_of(b),
    ensures
        free_end_of(b) <= lowest_below(b, n) <= 8192,
        live_bytes_below(b, n) <= 8192 - lowest_below(b, n),
        forall|j: int|
            n <= j && is_live(b, j) ==> #[trigger] slot_offset(b, j) + slot_length(b, j)
                <= lowest_below(b, n),
    decreases n,
{
    if n > 0 {
        lemma_heap_holds_records(b, n - 1);
        lemma_slot_facts(b, n - 1);
        if is_live(b, n - 1) {
            let at = slot_offset(b, n - 1);
            assert(at + slot_length(b, n - 1) <= lowest_below(b, n - 1));
            assert forall|j: int| n <= j && is_live(b, j) implies #[trigger] slot_offset(b, j)
                + slot_length(b, j) <= at by {
                assert(slot_offset(b, j) + slot_length(b, j) <= slot_offset(b, n - 1));
            }
        }
    }
}

/// Compacting twice is compacting once: what a second call makes of the
/// page is, byte for byte, what the first one made of it.
pub proof fn lemma_compact_idempotent(b: Seq<u8>)
    requires
        well_formed(b),
    ensures
        after_compact(after_compact(b)) == after_compact(b),
{
    if should_compact_of(b) {
        let once = compacted(b);
        lemma_compacted(b);
        lemma_compaction(b, once);
        lemma_compacted(once);
    }
}

/// Compaction keeps the records: on a well-formed page every slot holds
/// after `compact` what it held before.
pub proof fn lemma_compact_keeps_records(b: Seq<u8>, i: int)
    requires
        well_formed(b),
    ensures
        record_at(after_compact(b), i) == record_at(b, i),
        well_formed(after_compact(b)),
{
    if should_compact_of(b) {
        lemma_compacted(b);
        lemma_compaction(b, compacted(b));
    }
}

/// One call that changes the records of a page.
pub enum PageOp {
    /// `add_record` with these bytes.
    Add(Seq<u8>),
    /// `delete_record` with this slot index.
    Delete(int),
}

/// The page after the calls were made on it one after the other.
pub open spec fn after_ops(b: Seq<u8>, ops: Seq<PageOp>) -> Seq<u8>
    decreases ops.len(),
{
    if ops.len() == 0 {
        b
    } else {
        let before = after_ops(b, ops.drop_last());
        match ops.last() {
            PageOp::Add(record) => if can_add(before, record.len() as int) {
                with_record(before, record)
            } else {
                before
            },
            PageOp::Delete(index) => with_tombstone(before, index),
        }
    }
}

/// Every one of the calls, made one after the other, reports success: each
/// insertion returns a slot and each deletion returns true.
pub open spec fn ops_succeed(b: Seq<u8>, ops: Seq<PageOp>) -> bool
    decreases ops.len(),
{
    if ops.len() == 0 {
        true
    } else {
        let before = after_ops(b, ops.drop_last());
        &&& ops_succeed(b, ops.drop_last())
        &&& match ops.last() {
            PageOp::Add(record) => can_add(before, record.len() as int),
            PageOp::Delete(index) => has_slot(before, index),
        }
    }
}

/// What the slots are to hold after the calls: each insertion appends its
/// bytes, each deletion empties its slot.
pub open spec fn expected_records(ops: Seq<PageOp>) -> Seq<Option<Seq<u8>>>
    decreases ops.len(),
{
    if ops.len() == 0 {
        Seq::empty()
    } else {
        let before = expected_records(ops.drop_last());
        match ops.last() {
            PageOp::Add(record) => before.push(Some(record)),
            PageOp::Delete(index) => if 0 <= index < before.len() {
                before.update(index, None)
            } else {
                before
            },
        }
    }
}

/// After any run of insertions and deletions on a new page that all report
/// success, the page is well-formed and every slot that was not deleted
/// holds the bytes that were inserted under it; every deleted slot holds
/// none.
pub proof fn lemma_records_after_ops(page_id: u32, page_type: PageType, ops: Seq<PageOp>)
    requires
        page_id != 0xFFFF_FFFF,
        ops_succeed(empty_page(page_id, page_type), ops),
    ensures
        well_formed(after_ops(empty_page(page_id, page_type), ops)),
        slot_count_of(after_ops(empty_page(page_id, page_type), ops)) == expected_records(
            ops,
        ).len(),
        forall|i: int|
            0 <= i < expected_records(ops).len() ==> #[trigger] record_at(
                after_ops(empty_page(page_id, page_type), ops),
                i,
            ) == expected_records(ops)[i],
    decreases ops.len(),
{
    let b = empty_page(page_id, page_type);
    lemma_empty_page(page_id, page_type);
    if ops.len() > 0 {
        lemma_records_after_ops(page_id, page_type, ops.drop_last());
        let before = after_ops(b, ops.drop_last());
        match ops.last() {
            PageOp::Add(record) => {
                lemma_add_record(before, record);
            },
            PageOp::Delete(index) => {
                lemma_delete_record(before, index);
            },
        }
    }
}

} // verus!
