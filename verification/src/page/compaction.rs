//! What compaction does to a page, stated over its bytes.

use super::layout::{
    dir_end_of, free_end_of, has_slot, is_live, put_bytes, put_slot, record_at, record_bytes,
    should_compact_of, slot_count_of, slot_length, slot_offset, slot_pos, well_formed,
};
use crate::codec::{group_codec, put_u16};
use vstd::prelude::*;

verus! {

broadcast use group_codec;

/// The total length of the records in the slots below `n`.
pub open spec fn live_bytes_below(b: Seq<u8>, n: int) -> int
    decreases n,
{
    if n <= 0 {
        0
    } else {
        live_bytes_below(b, n - 1) + if is_live(b, n - 1) {
            slot_length(b, n - 1)
        } else {
            0
        }
    }
}

/// Where the record of slot `i` lies once the records are packed against
/// the end of the page in slot order.
pub open spec fn packed_offset(b: Seq<u8>, i: int) -> int {
    8192 - live_bytes_below(b, i + 1)
}

/// Where the record heap starts once the records are packed.
pub open spec fn packed_free_end(b: Seq<u8>) -> int {
    8192 - live_bytes_below(b, slot_count_of(b))
}

/// The records are packed against the end of the page, in slot order and
/// without gaps, and the record heap starts at the lowest of them.
pub open spec fn is_packed(b: Seq<u8>) -> bool {
    &&& free_end_of(b) == packed_free_end(b)
    &&& forall|i: int|
        0 <= i < slot_count_of(b) && is_live(b, i) ==> #[trigger] slot_offset(b, i)
            == packed_offset(b, i)
}

/// `c` is `b` compacted: the same header but for the start of the record
/// heap, the same slots and the same records under the same indices, each
/// record at its packed place. Tombstones stay tombstones. A page that is
/// packed already is left as it is, byte for byte.
pub open spec fn is_compaction_of(c: Seq<u8>, b: Seq<u8>) -> bool {
    &&& c.len() == b.len()
    &&& forall|k: int| 0 <= k < 32 && !(8 <= k < 10) ==> c[k] == b[k]
    &&& free_end_of(c) == packed_free_end(b)
    &&& forall|i: int|
        0 <= i < slot_count_of(b) ==> {
            &&& #[trigger] slot_length(c, i) == slot_length(b, i)
            &&& record_at(c, i) == record_at(b, i)
            &&& slot_offset(c, i) == if is_live(b, i) {
                packed_offset(b, i)
            } else {
                slot_offset(b, i)
            }
        }
    &&& is_packed(b) ==> c == b
}

/// The records below a later slot take at least the room of those below
/// an earlier one.
pub proof fn lemma_live_bytes_monotone(b: Seq<u8>, m: int, n: int)
    requires
        m <= n,
    ensures
        live_bytes_below(b, m) <= live_bytes_below(b, n),
        0 <= live_bytes_below(b, m),
    decreases n - m, n,
{
    if m < n {
        lemma_live_bytes_monotone(b, m, n - 1);
    } else if m > 0 {
        lemma_live_bytes_monotone(b, m - 1, m - 1);
    }
}

/// Slot `k` is in `cur` what it is in `b`.
pub open spec fn slot_kept(cur: Seq<u8>, b: Seq<u8>, k: int) -> bool {
    slot_length(cur, k) == slot_length(b, k) && slot_offset(cur, k) == slot_offset(b, k)
}

/// Slot `k` of `b` has its record, if it has one, at its packed place in
/// `cur`, and is otherwise in `cur` what it is in `b`.
pub open spec fn slot_packed(cur: Seq<u8>, b: Seq<u8>, k: int) -> bool {
    &&& slot_length(cur, k) == slot_length(b, k)
    &&& slot_offset(cur, k) == if is_live(b, k) {
        packed_offset(b, k)
    } else {
        slot_offset(b, k)
    }
    &&& is_live(b, k) ==> cur.subrange(packed_offset(b, k), packed_offset(b, k) + slot_length(b, k))
        == record_bytes(b, k)
}

/// The record of slot `k`, if it has one, ends at `top` or below.
pub open spec fn ends_below(b: Seq<u8>, k: int, top: int) -> bool {
    is_live(b, k) ==> slot_offset(b, k) + slot_length(b, k) <= top
}

/// Every record in the slots below `i` lies at its packed place.
pub open spec fn packed_below(b: Seq<u8>, i: int) -> bool {
    forall|k: int| 0 <= k < i && is_live(b, k) ==> #[trigger] slot_offset(b, k) == packed_offset(b, k)
}

/// The state of a compaction of `b` that has dealt with the slots below
/// `i`: `cur` holds their records packed down to `wp`, and below `top` the
/// record heap is still as it was in `b`.
pub open spec fn compacting(cur: Seq<u8>, b: Seq<u8>, i: int, wp: int, top: int) -> bool {
    &&& cur.len() == 8192
    &&& 0 <= i <= slot_count_of(b)
    &&& forall|k: int| 0 <= k < 32 ==> cur[k] == b[k]
    &&& wp == 8192 - live_bytes_below(b, i)
    &&& free_end_of(b) <= top <= wp <= 8192
    &&& forall|x: int| dir_end_of(b) <= x < top ==> cur[x] == b[x]
    &&& forall|k: int| i <= k < slot_count_of(b) ==> #[trigger] slot_kept(cur, b, k)
    &&& forall|k: int| i <= k < slot_count_of(b) ==> #[trigger] ends_below(b, k, top)
    &&& forall|k: int| 0 <= k < i ==> #[trigger] slot_packed(cur, b, k)
    &&& packed_below(b, i) ==> cur == b
}

/// In a well-formed page every slot lies inside the page, below the
/// record heap, and a slot holds a record exactly if its length is not 0
/// and it does not reach beyond the page; the record then lies in the
/// record heap.
pub proof fn lemma_slot_facts(b: Seq<u8>, i: int)
    requires
        well_formed(b),
        0 <= i < slot_count_of(b),
    ensures
        has_slot(b, i),
        slot_pos(i) + 4 <= dir_end_of(b) <= free_end_of(b) <= 8192,
        is_live(b, i) <==> slot_length(b, i) > 0 && slot_offset(b, i) + slot_length(b, i) <= 8192,
        is_live(b, i) ==> free_end_of(b) <= slot_offset(b, i),
        0 <= slot_length(b, i),
        0 <= slot_offset(b, i),
{
    let off = slot_offset(b, i);
}

/// A compaction starts with the page as it is.
pub proof fn lemma_compacting_start(b: Seq<u8>)
    requires
        well_formed(b),
    ensures
        compacting(b, b, 0, 8192, 8192),
{
    assert forall|k: int| 0 <= k < slot_count_of(b) implies #[trigger] ends_below(b, k, 8192) by {
        lemma_slot_facts(b, k);
    }
    assert forall|k: int| 0 <= k < slot_count_of(b) implies #[trigger] slot_kept(b, b, k) by {}
}

/// A tombstone is passed over.
pub proof fn lemma_compacting_skip(cur: Seq<u8>, b: Seq<u8>, i: int, wp: int, top: int)
    requires
        well_formed(b),
        compacting(cur, b, i, wp, top),
        i < slot_count_of(b),
        !is_live(b, i),
    ensures
        compacting(cur, b, i + 1, wp, top),
{
    assert(live_bytes_below(b, i + 1) == live_bytes_below(b, i));
    assert forall|k: int| 0 <= k < i + 1 implies #[trigger] slot_packed(cur, b, k) by {
        if k == i {
            assert(slot_kept(cur, b, i));
        }
    }
    if packed_below(b, i + 1) {
        assert(packed_below(b, i));
    }
}

/// A record that lies at its packed place already stays there.
pub proof fn lemma_compacting_stay(cur: Seq<u8>, b: Seq<u8>, i: int, wp: int, top: int)
    requires
        well_formed(b),
        compacting(cur, b, i, wp, top),
        i < slot_count_of(b),
        is_live(b, i),
        slot_offset(b, i) == wp - slot_length(b, i),
    ensures
        compacting(cur, b, i + 1, wp - slot_length(b, i), slot_offset(b, i)),
{
    let off = slot_offset(b, i);
    let len = slot_length(b, i);
    lemma_slot_facts(b, i);
    assert(ends_below(b, i, top));
    assert(live_bytes_below(b, i + 1) == live_bytes_below(b, i) + len);
    assert forall|k: int| i + 1 <= k < slot_count_of(b) implies #[trigger] ends_below(
        b,
        k,
        off,
    ) by {
        lemma_slot_facts(b, k);
        let ok = slot_offset(b, k);
    }
    assert forall|k: int| i + 1 <= k < slot_count_of(b) implies #[trigger] slot_kept(
        cur,
        b,
        k,
    ) by {
        assert(slot_kept(cur, b, k));
    }
    assert forall|k: int| 0 <= k < i + 1 implies #[trigger] slot_packed(cur, b, k) by {
        if k == i {
            assert(slot_kept(cur, b, i));
            assert(cur.subrange(off, off + len) =~= b.subrange(off, off + len));
        } else {
            assert(slot_packed(cur, b, k));
        }
    }
    if packed_below(b, i + 1) {
        assert(packed_below(b, i));
    }
}

/// A record is moved up to its packed place and its slot follows it.
pub proof fn lemma_compacting_move(cur: Seq<u8>, b: Seq<u8>, i: int, wp: int, top: int)
    requires
        well_formed(b),
        compacting(cur, b, i, wp, top),
        i < slot_count_of(b),
        is_live(b, i),
        slot_offset(b, i) != wp - slot_length(b, i),
    ensures
        compacting(
            put_slot(
                put_bytes(cur, wp - slot_length(b, i), record_bytes(cur, i)),
                i,
                (wp - slot_length(b, i)) as u16,
                slot_length(b, i) as u16,
            ),
            b,
            i + 1,
            wp - slot_length(b, i),
            slot_offset(b, i),
        ),
{
    let off = slot_offset(b, i);
    let len = slot_length(b, i);
    let to = wp - len;
    lemma_slot_facts(b, i);
    assert(ends_below(b, i, top));
    assert(slot_kept(cur, b, i));
    assert(live_bytes_below(b, i + 1) == live_bytes_below(b, i) + len);
    let record = record_bytes(cur, i);
    assert(record =~= b.subrange(off, off + len));
    let moved = put_bytes(cur, to, record);
    let next = put_slot(moved, i, to as u16, len as u16);
    assert(next.len() == 8192);
    assert forall|x: int| 0 <= x < 8192 && !(to <= x < wp) && !(slot_pos(i) <= x < slot_pos(i) + 4)
        implies next[x] == cur[x] by {}
    assert forall|x: int| to <= x < wp implies next[x] == b[off + (x - to)] by {}
    assert(slot_length(next, i) == len);
    assert(slot_offset(next, i) == to);
    assert forall|k: int| i + 1 <= k < slot_count_of(b) implies #[trigger] ends_below(
        b,
        k,
        off,
    ) by {
        lemma_slot_facts(b, k);
        let ok = slot_offset(b, k);
    }
    assert forall|k: int| i + 1 <= k < slot_count_of(b) implies #[trigger] slot_kept(
        next,
        b,
        k,
    ) by {
        lemma_slot_facts(b, k);
        assert(slot_kept(cur, b, k));
    }
    assert forall|k: int| 0 <= k < i + 1 implies #[trigger] slot_packed(next, b, k) by {
        lemma_slot_facts(b, k);
        if k == i {
            assert(next.subrange(to, to + len) =~= record);
        } else {
            assert(slot_packed(cur, b, k));
            lemma_live_bytes_monotone(b, k + 1, i);
            lemma_live_bytes_monotone(b, k, k);
            if is_live(b, k) {
                let at = packed_offset(b, k);
                let n = slot_length(b, k);
                assert(live_bytes_below(b, k + 1) == live_bytes_below(b, k) + n);
                assert(next.subrange(at, at + n) =~= cur.subrange(at, at + n));
            }
        }
    }
    assert(!packed_below(b, i + 1));
}

/// Once every slot is dealt with, moving the start of the record heap
/// completes the compaction.
pub proof fn lemma_compacting_end(cur: Seq<u8>, b: Seq<u8>, wp: int, top: int)
    requires
        well_formed(b),
        compacting(cur, b, slot_count_of(b), wp, top),
    ensures
        is_compaction_of(put_u16(cur, 8, wp as u16), b),
{
    let c = put_u16(cur, 8, wp as u16);
    lemma_live_bytes_monotone(b, 0, slot_count_of(b));
    assert(free_end_of(c) == wp);
    assert(slot_count_of(c) == slot_count_of(b));
    assert forall|i: int| 0 <= i < slot_count_of(b) implies {
        &&& #[trigger] slot_length(c, i) == slot_length(b, i)
        &&& record_at(c, i) == record_at(b, i)
        &&& slot_offset(c, i) == if is_live(b, i) {
            packed_offset(b, i)
        } else {
            slot_offset(b, i)
        }
    } by {
        lemma_slot_facts(b, i);
        assert(slot_packed(cur, b, i));
        assert(slot_length(c, i) == slot_length(cur, i));
        assert(slot_offset(c, i) == slot_offset(cur, i));
        if is_live(b, i) {
            let at = packed_offset(b, i);
            let n = slot_length(b, i);
            lemma_live_bytes_monotone(b, i, i);
            lemma_live_bytes_monotone(b, i + 1, slot_count_of(b));
            assert(live_bytes_below(b, i + 1) == live_bytes_below(b, i) + n);
            assert(c.subrange(at, at + n) =~= cur.subrange(at, at + n));
        }
    }
    if is_packed(b) {
        assert(packed_below(b, slot_count_of(b)));
        crate::codec::lemma_put_same_u16(b, 8);
    }
}

/// The offset of the last record in the slots below `n`; the end of the
/// page where they hold none.
pub open spec fn lowest_below(b: Seq<u8>, n: int) -> int
    decreases n,
{
    if n <= 0 {
        8192
    } else if is_live(b, n - 1) {
        slot_offset(b, n - 1)
    } else {
        lowest_below(b, n - 1)
    }
}

/// What compaction does with slot `i` of the page `cur` when the records
/// dealt with so far are packed down to `wp`: a record that ends at `wp` or
/// below is moved up to end at `wp`, unless it lies there already, and its
/// slot follows it. Any other slot is passed over. The result is the page
/// and the offset down to which the records are packed then.
pub open spec fn compact_step(cur: Seq<u8>, i: int, wp: int) -> (Seq<u8>, int) {
    let off = slot_offset(cur, i);
    let len = slot_length(cur, i);
    if has_slot(cur, i) && len > 0 && off + len <= wp {
        if wp - len != off {
            (
                put_slot(
                    put_bytes(cur, wp - len, cur.subrange(off, off + len)),
                    i,
                    (wp - len) as u16,
                    len as u16,
                ),
                wp - len,
            )
        } else {
            (cur, wp - len)
        }
    } else {
        (cur, wp)
    }
}

/// The page `b` after compaction has dealt with the slots below `n`, and
/// the offset down to which their records are packed.
pub open spec fn compact_upto(b: Seq<u8>, n: int) -> (Seq<u8>, int)
    decreases n,
{
    if n <= 0 {
        (b, 8192)
    } else {
        let before = compact_upto(b, n - 1);
        compact_step(before.0, n - 1, before.1)
    }
}

/// The page `b` after compaction has dealt with each of its slots and has
/// let the record heap start where the packed records start.
pub open spec fn compacted(b: Seq<u8>) -> Seq<u8> {
    let packed = compact_upto(b, slot_count_of(b));
    put_u16(packed.0, 8, packed.1 as u16)
}

/// What `compact` makes of the page `b`: the compacted page where
/// compaction is worth its cost, else the page as it is.
pub open spec fn after_compact(b: Seq<u8>) -> Seq<u8> {
    if should_compact_of(b) {
        compacted(b)
    } else {
        b
    }
}

/// On a well-formed page, dealing with the slots below `i` packs their
/// records and leaves the rest of the record heap as it was.
pub proof fn lemma_compact_upto(b: Seq<u8>, i: int)
    requires
        well_formed(b),
        0 <= i <= slot_count_of(b),
    ensures
        compacting(compact_upto(b, i).0, b, i, compact_upto(b, i).1, lowest_below(b, i)),
    decreases i,
{
    if i == 0 {
        lemma_compacting_start(b);
    } else {
        lemma_compact_upto(b, i - 1);
        let cur = compact_upto(b, i - 1).0;
        let wp = compact_upto(b, i - 1).1;
        let top = lowest_below(b, i - 1);
        lemma_slot_facts(b, i - 1);
        assert(slot_kept(cur, b, i - 1));
        assert(ends_below(b, i - 1, top));
        assert(slot_count_of(cur) == slot_count_of(b));
        assert(has_slot(cur, i - 1));
        if is_live(b, i - 1) {
            if slot_offset(b, i - 1) == wp - slot_length(b, i - 1) {
                lemma_compacting_stay(cur, b, i - 1, wp, top);
            } else {
                lemma_compacting_move(cur, b, i - 1, wp, top);
                assert(record_bytes(cur, i - 1) == cur.subrange(
                    slot_offset(cur, i - 1),
                    slot_offset(cur, i - 1) + slot_length(cur, i - 1),
                ));
            }
        } else {
            lemma_compacting_skip(cur, b, i - 1, wp, top);
        }
    }
}

/// Compaction of a well-formed page packs its records: the compacted page
/// has the same header but for the start of the record heap, the same
/// slots and the same records under the same indices, each record at its
/// packed place; tombstones and slots that reach beyond the page stay as
/// they are.
pub proof fn lemma_compacted(b: Seq<u8>)
    requires
        well_formed(b),
    ensures
        is_compaction_of(compacted(b), b),
{
    lemma_compact_upto(b, slot_count_of(b));
    let packed = compact_upto(b, slot_count_of(b));
    lemma_compacting_end(packed.0, b, packed.1, lowest_below(b, slot_count_of(b)));
}

} // verus!
