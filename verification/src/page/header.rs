//! The page header and the slot entry as values, and their place in the bytes.

use super::layout::{
    checksum_of, free_end_of, free_start_of, lsn_of, page_id_of, slot_count_of, type_byte_of,
};
use crate::codec::{group_codec, put_u16, put_u32, put_u64};
use vstd::prelude::*;

verus! {

broadcast use group_codec;

/// What a page is used for.
#[derive(Debug, Clone, Copy, PartialEq, Eq, Structural)]
pub enum PageType {
    Data,
    Index,
    Overflow,
    Free,
}

/// The header of a page: its first 32 bytes, decoded.
#[derive(Debug, Clone, Copy, PartialEq, Eq, Structural)]
pub struct PageHeader {
    /// The number of the page within its file.
    pub page_id: u32,
    pub page_type: PageType,
    /// The first byte after the slot directory.
    pub free_space_start: u16,
    /// The offset at which the record heap starts.
    pub free_space_end: u16,
    /// The number of slots, tombstones included.
    pub slot_count: u16,
    /// Kept for a recovery manager; not read here.
    pub lsn: u64,
    /// CRC-32 of the page without these four bytes; 0 before the first
    /// computation.
    pub checksum: u32,
}

/// One entry of the slot directory.
#[derive(Debug, Clone, Copy, PartialEq, Eq, Structural)]
pub struct SlotEntry {
    /// Where the record starts, counted from the start of the page.
    pub offset: u16,
    /// The length of the record; 0 marks a tombstone.
    pub length: u16,
}

impl PageType {
    /// The byte that stands for the type in a header.
    pub open spec fn spec_to_byte(self) -> u8 {
        match self {
            PageType::Data => 0,
            PageType::Index => 1,
            PageType::Overflow => 2,
            PageType::Free => 3,
        }
    }

    /// The type that a header byte stands for.
    pub open spec fn spec_from_byte(byte: u8) -> Option<PageType> {
        if byte == 0 {
            Some(PageType::Data)
        } else if byte == 1 {
            Some(PageType::Index)
        } else if byte == 2 {
            Some(PageType::Overflow)
        } else if byte == 3 {
            Some(PageType::Free)
        } else {
            None
        }
    }

    /// The byte that stands for the type in a header.
    pub fn to_byte(self) -> (byte: u8)
        ensures
            byte == self.spec_to_byte(),
            byte <= 3,
    {
        match self {
            PageType::Data => 0,
            PageType::Index => 1,
            PageType::Overflow => 2,
            PageType::Free => 3,
        }
    }

    /// The type that a header byte stands for; `None` for a byte above 3.
    pub fn from_byte(byte: u8) -> (page_type: Option<PageType>)
        ensures
            page_type == PageType::spec_from_byte(byte),
            page_type is Some <==> byte <= 3,
    {
        if byte == 0 {
            Some(PageType::Data)
        } else if byte == 1 {
            Some(PageType::Index)
        } else if byte == 2 {
            Some(PageType::Overflow)
        } else if byte == 3 {
            Some(PageType::Free)
        } else {
            None
        }
    }
}

/// The header that the first 32 bytes of `b` hold, if the type byte names a
/// page type.
pub open spec fn header_of(b: Seq<u8>) -> Option<PageHeader> {
    match PageType::spec_from_byte(type_byte_of(b)) {
        Some(page_type) => Some(
            PageHeader {
                page_id: page_id_of(b) as u32,
                page_type,
                free_space_start: free_start_of(b) as u16,
                free_space_end: free_end_of(b) as u16,
                slot_count: slot_count_of(b) as u16,
                lsn: lsn_of(b) as u64,
                checksum: checksum_of(b) as u32,
            },
        ),
        None => None,
    }
}

/// `b` with `h` stored in its first 32 bytes, the padding zeroed.
pub open spec fn put_header(b: Seq<u8>, h: PageHeader) -> Seq<u8> {
    let b = put_u32(b, 0, h.page_id);
    let b = b.update(4, h.page_type.spec_to_byte()).update(5, 0);
    let b = put_u16(b, 6, h.free_space_start);
    let b = put_u16(b, 8, h.free_space_end);
    let b = put_u16(b, 10, h.slot_count);
    let b = put_u32(b, 12, 0);
    let b = put_u64(b, 16, h.lsn);
    let b = put_u32(b, 24, h.checksum);
    put_u32(b, 28, 0)
}

/// The header of a page that holds no record yet.
pub open spec fn empty_header(page_id: u32, page_type: PageType) -> PageHeader {
    PageHeader {
        page_id,
        page_type,
        free_space_start: 32,
        free_space_end: 8192,
        slot_count: 0,
        lsn: 0,
        checksum: 0,
    }
}

/// The bytes of a page that holds no record yet: the header, then zeros.
pub open spec fn empty_page(page_id: u32, page_type: PageType) -> Seq<u8> {
    put_header(Seq::new(8192, |k: int| 0u8), empty_header(page_id, page_type))
}

/// A header that was stored reads back, and storing it touches the first 32
/// bytes only.
pub proof fn lemma_put_header(b: Seq<u8>, h: PageHeader)
    requires
        b.len() >= 32,
    ensures
        put_header(b, h).len() == b.len(),
        header_of(put_header(b, h)) == Some(h),
        forall|k: int| 32 <= k < b.len() ==> put_header(b, h)[k] == b[k],
        forall|k: int| 28 <= k < 32 || 12 <= k < 16 || k == 5 ==> put_header(b, h)[k] == 0,
{
    let r = put_header(b, h);
    assert(page_id_of(r) == h.page_id);
    assert(type_byte_of(r) == h.page_type.spec_to_byte());
    assert(free_start_of(r) == h.free_space_start);
    assert(free_end_of(r) == h.free_space_end);
    assert(slot_count_of(r) == h.slot_count);
    assert(lsn_of(r) == h.lsn);
    assert(checksum_of(r) == h.checksum);
}

} // verus!
