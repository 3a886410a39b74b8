//! Where the fields of a page lie, read off its bytes.

use crate::codec::{le_u16, le_u32, le_u64, put_u16};
use vstd::prelude::*;

verus! {

/// The id stored in the header.
pub open spec fn page_id_of(b: Seq<u8>) -> int {
    le_u32(b, 0)
}

/// The byte that names the page type.
pub open spec fn type_byte_of(b: Seq<u8>) -> u8 {
    b[4]
}

/// The stored offset of the first byte after the slot directory.
pub open spec fn free_start_of(b: Seq<u8>) -> int {
    le_u16(b, 6)
}

/// The offset at which the record heap starts.
pub open spec fn free_end_of(b: Seq<u8>) -> int {
    le_u16(b, 8)
}

/// The number of slots, tombstones included.
pub open spec fn slot_count_of(b: Seq<u8>) -> int {
    le_u16(b, 10)
}

/// The log sequence number stored in the header.
pub open spec fn lsn_of(b: Seq<u8>) -> int {
    le_u64(b, 16)
}

/// The stored checksum.
pub open spec fn checksum_of(b: Seq<u8>) -> int {
    le_u32(b, 24)
}

/// The offset of slot `i` in the directory.
pub open spec fn slot_pos(i: int) -> int {
    32 + 4 * i
}

/// The offset of the first byte after the slot directory.
pub open spec fn dir_end_of(b: Seq<u8>) -> int {
    slot_pos(slot_count_of(b))
}

/// Slot `i` exists and its four bytes lie inside the page.
pub open spec fn has_slot(b: Seq<u8>, i: int) -> bool {
    0 <= i < slot_count_of(b) && slot_pos(i) + 4 <= 8192
}

/// The record offset that slot `i` stores.
pub open spec fn slot_offset(b: Seq<u8>, i: int) -> int {
    le_u16(b, slot_pos(i))
}

/// The record length that slot `i` stores; 0 marks a tombstone.
pub open spec fn slot_length(b: Seq<u8>, i: int) -> int {
    le_u16(b, slot_pos(i) + 2)
}

/// Slot `i` names a record that lies inside the page.
pub open spec fn is_live(b: Seq<u8>, i: int) -> bool {
    has_slot(b, i) && slot_length(b, i) > 0 && slot_offset(b, i) + slot_length(b, i) <= 8192
}

/// The bytes that slot `i` points at.
pub open spec fn record_bytes(b: Seq<u8>, i: int) -> Seq<u8> {
    b.subrange(slot_offset(b, i), slot_offset(b, i) + slot_length(b, i))
}

/// The record in slot `i`, if the slot holds one.
pub open spec fn record_at(b: Seq<u8>, i: int) -> Option<Seq<u8>> {
    if is_live(b, i) {
        Some(record_bytes(b, i))
    } else {
        None
    }
}

/// The bytes between the slot directory and the record heap; 0 where the
/// header contradicts itself.
pub open spec fn free_space_of(b: Seq<u8>) -> int {
    if free_end_of(b) > 8192 || dir_end_of(b) > free_end_of(b) {
        0
    } else {
        free_end_of(b) - dir_end_of(b)
    }
}

/// What a parser asks of a header before it accepts a buffer as a page.
pub open spec fn valid_header(b: Seq<u8>) -> bool {
    &&& b.len() == 8192
    &&& page_id_of(b) != 0xFFFF_FFFF
    &&& free_end_of(b) <= 8192
    &&& dir_end_of(b) <= free_end_of(b)
    &&& type_byte_of(b) <= 3
}

/// The header is valid, and the records lie in the record heap, one below
/// the other in slot order. A slot that reaches beyond the page holds no
/// record and is tolerated.
pub open spec fn well_formed(b: Seq<u8>) -> bool {
    &&& valid_header(b)
    &&& forall|i: int| is_live(b, i) ==> free_end_of(b) <= #[trigger] slot_offset(b, i)
    &&& forall|i: int, j: int|
        0 <= i < j && is_live(b, i) && is_live(b, j) ==> #[trigger] slot_offset(b, j)
            + slot_length(b, j) <= #[trigger] slot_offset(b, i)
}

/// No slot reaches beyond the page: every slot is a tombstone or points at
/// bytes of the page.
pub open spec fn slots_in_page(b: Seq<u8>) -> bool {
    forall|i: int|
        0 <= i < slot_count_of(b) && slot_length(b, i) > 0 ==> #[trigger] slot_offset(b, i)
            + slot_length(b, i) <= 8192
}

/// `b` with `data` stored from offset `at` on.
pub open spec fn put_bytes(b: Seq<u8>, at: int, data: Seq<u8>) -> Seq<u8> {
    Seq::new(
        b.len(),
        |k: int|
            if at <= k < at + data.len() {
                data[k - at]
            } else {
                b[k]
            },
    )
}

/// `b` with slot `i` set to the given offset and length.
pub open spec fn put_slot(b: Seq<u8>, i: int, offset: u16, length: u16) -> Seq<u8> {
    put_u16(put_u16(b, slot_pos(i), offset), slot_pos(i) + 2, length)
}

/// `b` with the three header fields that an insertion moves.
pub open spec fn put_bounds(b: Seq<u8>, free_start: u16, free_end: u16, slot_count: u16) -> Seq<u8> {
    put_u16(put_u16(put_u16(b, 6, free_start), 8, free_end), 10, slot_count)
}

/// A record of `len` bytes and one more slot fit into the free space.
pub open spec fn can_add(b: Seq<u8>, len: int) -> bool {
    len > 0 && free_space_of(b) >= len + 4
}

/// `b` after the record was stored just below the record heap and a slot
/// for it was appended to the directory.
pub open spec fn with_record(b: Seq<u8>, record: Seq<u8>) -> Seq<u8> {
    let n = slot_count_of(b);
    let start = free_end_of(b) - record.len();
    put_bounds(
        put_slot(put_bytes(b, start, record), n, start as u16, record.len() as u16),
        (slot_pos(n + 1)) as u16,
        start as u16,
        (n + 1) as u16,
    )
}

/// `b` with slot `i` turned into a tombstone, if there is such a slot.
pub open spec fn with_tombstone(b: Seq<u8>, i: int) -> Seq<u8> {
    if has_slot(b, i) {
        put_u16(b, slot_pos(i) + 2, 0)
    } else {
        b
    }
}

/// The first check, in the order in which a parser makes them, that the
/// header of `b` fails; meaningful where the header is not valid.
pub open spec fn header_fault(b: Seq<u8>) -> crate::error::DataFault {
    if page_id_of(b) == 0xFFFF_FFFF {
        crate::error::DataFault::PageId
    } else if free_end_of(b) > 8192 {
        crate::error::DataFault::FreeSpaceEnd
    } else if dir_end_of(b) > 8192 {
        crate::error::DataFault::SlotDirectorySize
    } else if dir_end_of(b) > free_end_of(b) {
        crate::error::DataFault::SlotDirectoryOverlap
    } else {
        crate::error::DataFault::PageType
    }
}

/// What taking `b` for a page gives: its bytes, or the first fault of its
/// header.
pub open spec fn parsed_page(b: Seq<u8>) -> Result<Seq<u8>, crate::error::StorageError> {
    if valid_header(b) {
        Ok(b)
    } else {
        Err(crate::error::StorageError::InvalidData(header_fault(b)))
    }
}

/// The bytes in use: header, slot directory and record heap.
pub open spec fn used_space_of(b: Seq<u8>) -> int {
    dir_end_of(b) + (8192 - free_end_of(b))
}

/// `b` after each of the slots named in `indices` was turned into a
/// tombstone, one after the other.
pub open spec fn with_tombstones(b: Seq<u8>, indices: Seq<usize>) -> Seq<u8>
    decreases indices.len(),
{
    if indices.len() == 0 {
        b
    } else {
        with_tombstone(with_tombstones(b, indices.drop_last()), indices.last() as int)
    }
}

/// How many of the deletions named in `indices`, made one after the other,
/// hit a slot that was no tombstone yet.
pub open spec fn tombstoned_by(b: Seq<u8>, indices: Seq<usize>) -> nat
    decreases indices.len(),
{
    if indices.len() == 0 {
        0
    } else {
        let before = with_tombstones(b, indices.drop_last());
        let hit: nat = if has_slot(before, indices.last() as int) && slot_length(
            before,
            indices.last() as int,
        ) > 0 {
            1
        } else {
            0
        };
        tombstoned_by(b, indices.drop_last()) + hit
    }
}

/// The number of tombstones among the first `n` slots.
pub open spec fn tombstones_below(b: Seq<u8>, n: int) -> nat
    decreases n,
{
    if n <= 0 {
        0
    } else {
        let one: nat = if has_slot(b, n - 1) && slot_length(b, n - 1) == 0 {
            1
        } else {
            0
        };
        tombstones_below(b, n - 1) + one
    }
}

/// The number of tombstones in the page.
pub open spec fn deleted_count_of(b: Seq<u8>) -> nat {
    tombstones_below(b, slot_count_of(b))
}

/// More than one slot, at least two tombstones, and more than a fifth of
/// the slots are tombstones.
pub open spec fn should_compact_of(b: Seq<u8>) -> bool {
    &&& slot_count_of(b) > 1
    &&& deleted_count_of(b) >= 2
    &&& deleted_count_of(b) * 100 / (slot_count_of(b) as nat) > 20
}

/// Among `n` slots there are at most `n` tombstones.
pub proof fn lemma_tombstones_below_bound(b: Seq<u8>, n: int)
    requires
        0 <= n,
    ensures
        tombstones_below(b, n) <= n,
    decreases n,
{
    if n > 0 {
        lemma_tombstones_below_bound(b, n - 1);
    }
}

/// The indices of the slots below `n` that hold a record, in rising order.
pub open spec fn live_slots(b: Seq<u8>, n: int) -> Seq<int>
    decreases n,
{
    if n <= 0 {
        Seq::empty()
    } else if is_live(b, n - 1) {
        live_slots(b, n - 1).push(n - 1)
    } else {
        live_slots(b, n - 1)
    }
}

/// The first slot at `from` or after it that holds a record; the slot
/// count where there is none.
pub open spec fn next_live(b: Seq<u8>, from: int) -> int
    decreases slot_count_of(b) - from,
{
    if from >= slot_count_of(b) {
        slot_count_of(b)
    } else if is_live(b, from) {
        from
    } else {
        next_live(b, from + 1)
    }
}

} // verus!
