//! The errors of the storage layer.

use vstd::prelude::*;

verus! {

/// Why a buffer was refused as a page or as a file header.
#[derive(Debug, Clone, Copy, PartialEq, Eq, Structural)]
pub enum DataFault {
    /// The page id is the reserved value `0xFFFF_FFFF`.
    PageId,
    /// `free_space_end` lies beyond the end of the page.
    FreeSpaceEnd,
    /// The slot directory does not fit in the page.
    SlotDirectorySize,
    /// The slot directory reaches into the record heap.
    SlotDirectoryOverlap,
    /// The page type byte names none of the four page types.
    PageType,
    /// Fewer bytes than a file header has.
    HeaderLength,
    /// The file does not start with the magic bytes.
    Magic,
    /// The file was written in a later format version, the one named.
    Version(u32),
    /// The file was written with another page size, the one named.
    PageSize(u32),
    /// The stored header checksum is not the checksum of the header.
    HeaderChecksum,
}

/// What can go wrong in the storage layer short of an operating-system error.
#[derive(Debug, Clone, Copy, PartialEq, Eq, Structural)]
pub enum StorageError {
    /// The page lies beyond the pages the file holds.
    PageNotFound(u32),
    /// The page has no room left.
    PageFull(u32),
    /// The slot index is out of range for the page.
    InvalidSlot { page_id: u32, index: usize },
    /// The bytes are not a page, or not a file header.
    InvalidData(DataFault),
    /// Page 0 holds the file header and is neither read nor written as a page.
    ReservedPage,
    /// The page's stored checksum is not the checksum of its bytes.
    ChecksumMismatch(u32),
}

impl DataFault {
    /// A sentence for the fault.
    pub fn message(&self) -> (text: &'static str)
        ensures
            text@ == self.spec_message()@,
    {
        match self {
            DataFault::PageId => "Invalid page ID",
            DataFault::FreeSpaceEnd => "free_space_end exceeds page size",
            DataFault::SlotDirectorySize => "Slot array exceeds page size",
            DataFault::SlotDirectoryOverlap => "Slot array overlaps with records",
            DataFault::PageType => "Invalid page type",
            DataFault::HeaderLength => "Invalid file header size",
            DataFault::Magic => "Invalid database file: wrong magic number",
            DataFault::Version(_) => "Unsupported file version",
            DataFault::PageSize(_) => "Invalid page size",
            DataFault::HeaderChecksum => "File header checksum mismatch",
        }
    }

    /// The sentence for the fault.
    pub open spec fn spec_message(&self) -> &'static str {
        match self {
            DataFault::PageId => "Invalid page ID",
            DataFault::FreeSpaceEnd => "free_space_end exceeds page size",
            DataFault::SlotDirectorySize => "Slot array exceeds page size",
            DataFault::SlotDirectoryOverlap => "Slot array overlaps with records",
            DataFault::PageType => "Invalid page type",
            DataFault::HeaderLength => "Invalid file header size",
            DataFault::Magic => "Invalid database file: wrong magic number",
            DataFault::Version(_) => "Unsupported file version",
            DataFault::PageSize(_) => "Invalid page size",
            DataFault::HeaderChecksum => "File header checksum mismatch",
        }
    }
}

} // verus!
