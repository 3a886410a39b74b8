//! The header of a page file, and what the file layer decides around its
//! reads and writes: block 0 of the file holds the header, every later
//! block holds one page.

use crate::checksum::{checksum_without_field, covered, crc32};
use crate::codec::{group_codec, le_u32, le_u64, put_u32, put_u64};
use crate::codec::{read_u32, read_u64, write_u32, write_u64};
use crate::error::{DataFault, StorageError};
use crate::page::header::{empty_page, PageType};
use crate::page::laws::checksum_holds;
use crate::page::layout::{header_fault, page_id_of, valid_header};
use crate::page::{lemma_page_len, Page};
use vstd::prelude::*;

verus! {

broadcast use {
    vstd::slice::group_slice_axioms,
    vstd::array::group_array_axioms,
    group_codec,
    lemma_page_len,
};

/// The bytes that a page file starts with: "JDB1".
pub const DB_MAGIC: [u8; 4] = [0x4A, 0x44, 0x42, 0x31];

/// The newest file format that is understood.
pub const FILE_VERSION: u32 = 1;

/// The size of the file header in bytes.
pub const HEADER_SIZE: usize = 512;

/// The header of a page file.
#[derive(Debug, Clone, Copy)]
pub struct FileHeader {
    /// "JDB1" in a file of this format.
    pub magic: [u8; 4],
    /// The format version of the file.
    pub version: u32,
    /// The size of this header: 512.
    pub header_size: u32,
    /// The size of a page: 8192.
    pub page_size: u32,
    /// The number of blocks in the file, the header block included.
    pub page_count: u32,
    /// The first page of the free list; 0 where there is none.
    pub free_list_head: u32,
    /// The first page that holds user data; 0 where there is none.
    pub first_data_page: u32,
    /// The last page that holds user data; 0 where there is none.
    pub last_data_page: u32,
    /// When the file was created, in seconds since the Unix epoch.
    pub created_at: u64,
    /// When the file was last changed, in seconds since the Unix epoch.
    pub last_modified: u64,
    /// CRC-32 of the header without these four bytes.
    pub header_checksum: u32,
    /// Whether pages are checked against their checksums when read: 0 for
    /// no, anything else for yes.
    pub data_checksum_flag: u32,
    /// Kept for later use.
    pub reserved: [u8; 456],
}

/// The magic bytes as a sequence.
pub open spec fn magic_bytes() -> Seq<u8> {
    seq![0x4Au8, 0x44u8, 0x42u8, 0x31u8]
}

/// The numbers that `bytes` hold are those of `h`, and so are its magic
/// and reserved bytes.
pub open spec fn holds_header(bytes: Seq<u8>, h: FileHeader) -> bool {
    &&& bytes.len() >= 512
    &&& h.magic@ == bytes.subrange(0, 4)
    &&& h.version == le_u32(bytes, 4)
    &&& h.header_size == le_u32(bytes, 8)
    &&& h.page_size == le_u32(bytes, 12)
    &&& h.page_count == le_u32(bytes, 16)
    &&& h.free_list_head == le_u32(bytes, 20)
    &&& h.first_data_page == le_u32(bytes, 24)
    &&& h.last_data_page == le_u32(bytes, 28)
    &&& h.created_at == le_u64(bytes, 32)
    &&& h.last_modified == le_u64(bytes, 40)
    &&& h.header_checksum == le_u32(bytes, 48)
    &&& h.data_checksum_flag == le_u32(bytes, 52)
    &&& h.reserved@ == bytes.subrange(56, 512)
}

/// The header that `bytes` hold.
pub open spec fn header_in(bytes: Seq<u8>) -> FileHeader {
    choose|h: FileHeader| holds_header(bytes, h)
}

/// What reading a header off `bytes` gives: the header they hold, or the
/// first fault found.
pub open spec fn parsed_header(bytes: Seq<u8>) -> Result<FileHeader, StorageError> {
    if bytes.len() < 512 {
        Err(StorageError::InvalidData(DataFault::HeaderLength))
    } else {
        match format_fault(header_in(bytes)) {
            Some(fault) => Err(StorageError::InvalidData(fault)),
            None => Ok(header_in(bytes)),
        }
    }
}

/// What reading block 0 of a file gives: the header in its first 512
/// bytes if that passes the format checks and carries its own checksum.
pub open spec fn opened_header(block: Seq<u8>) -> Result<FileHeader, StorageError> {
    match parsed_header(block.subrange(0, 512)) {
        Err(e) => Err(e),
        Ok(header) => if header.header_checksum == header_crc(header) {
            Ok(header)
        } else {
            Err(StorageError::InvalidData(DataFault::HeaderChecksum))
        },
    }
}

/// `h` with its checksum computed and stored.
pub open spec fn sealed(h: FileHeader) -> FileHeader {
    FileHeader { header_checksum: header_crc(h), ..h }
}

/// The offset in the file at which page `page_id` starts.
pub open spec fn offset_of(page_id: u32) -> int {
    page_id * 8192
}

/// Where a page with the bytes `b` is to be written; page 0 is the
/// header's and is refused.
pub open spec fn located_write(b: Seq<u8>) -> Result<u64, StorageError> {
    if page_id_of(b) == 0 {
        Err(StorageError::ReservedPage)
    } else {
        Ok(offset_of(page_id_of(b) as u32) as u64)
    }
}

/// Where page `page_id` is to be read under header `h`; page 0 is the
/// header's and is refused, and so is a page beyond the blocks of the file.
pub open spec fn located_read(h: FileHeader, page_id: u32) -> Result<u64, StorageError> {
    if page_id == 0 {
        Err(StorageError::ReservedPage)
    } else if page_id >= h.page_count {
        Err(StorageError::PageNotFound(page_id))
    } else {
        Ok(offset_of(page_id) as u64)
    }
}

/// The header after page `page_id` was written at time `now`: a write
/// beyond the blocks counted so far lets the count reach to that page and
/// sets the time of the last change.
pub open spec fn noted_write(h: FileHeader, page_id: u32, now: u64) -> FileHeader {
    if page_id >= h.page_count {
        FileHeader { page_count: (page_id + 1) as u32, last_modified: now, ..h }
    } else {
        h
    }
}

/// The bytes of a page with its checksum computed and stored.
pub open spec fn sealed_page(b: Seq<u8>) -> Seq<u8> {
    put_u32(b, 24, crc32(covered(b, 24)))
}

/// The first fault found in checking a block that was read as page
/// `page_id` under header `h`; `None` where the block passes as a page.
pub open spec fn checked_page_fault(h: FileHeader, page_id: u32, block: Seq<u8>) -> Option<
    StorageError,
> {
    if !valid_header(block) {
        Some(StorageError::InvalidData(header_fault(block)))
    } else if h.data_checksum_flag != 0 && !checksum_holds(block) {
        Some(StorageError::ChecksumMismatch(page_id))
    } else {
        None
    }
}

/// The 512 bytes that stand for `h` in a file, but with zeros where its
/// checksum belongs.
pub open spec fn header_body(h: FileHeader) -> Seq<u8> {
    let b = Seq::new(
        512,
        |k: int|
            if k < 4 {
                h.magic@[k]
            } else if k >= 56 {
                h.reserved@[k - 56]
            } else {
                0u8
            },
    );
    let b = put_u32(b, 4, h.version);
    let b = put_u32(b, 8, h.header_size);
    let b = put_u32(b, 12, h.page_size);
    let b = put_u32(b, 16, h.page_count);
    let b = put_u32(b, 20, h.free_list_head);
    let b = put_u32(b, 24, h.first_data_page);
    let b = put_u32(b, 28, h.last_data_page);
    let b = put_u64(b, 32, h.created_at);
    let b = put_u64(b, 40, h.last_modified);
    put_u32(b, 52, h.data_checksum_flag)
}

/// The 512 bytes that stand for `h` in a file.
pub open spec fn header_bytes(h: FileHeader) -> Seq<u8> {
    put_u32(header_body(h), 48, h.header_checksum)
}

/// Block 0 of a file whose header is `h`: the header, then zeros.
pub open spec fn header_block(h: FileHeader) -> Seq<u8> {
    header_bytes(h) + Seq::new((8192 - 512) as nat, |k: int| 0u8)
}

/// The first check, in the order in which they are made, that a header
/// fails; `None` where it passes them all.
pub open spec fn format_fault(h: FileHeader) -> Option<DataFault> {
    if h.magic@ != magic_bytes() {
        Some(DataFault::Magic)
    } else if h.version > 1 {
        Some(DataFault::Version(h.version))
    } else if h.page_size != 8192 {
        Some(DataFault::PageSize(h.page_size))
    } else {
        None
    }
}

/// The checksum that belongs in the header: that of its bytes without
/// the checksum field.
pub open spec fn header_crc(h: FileHeader) -> u32 {
    crc32(covered(header_bytes(h), 48))
}

/// `h` is the header of a new file at time `now`: one block, the
/// header's own, page checksums switched on, and no checksum of the header
/// yet.
pub open spec fn is_new_header(h: FileHeader, now: u64) -> bool {
    &&& h.magic@ == magic_bytes()
    &&& h.version == 1
    &&& h.header_size == 512
    &&& h.page_size == 8192
    &&& h.page_count == 1
    &&& h.free_list_head == 0
    &&& h.first_data_page == 0
    &&& h.last_data_page == 0
    &&& h.created_at == now
    &&& h.last_modified == now
    &&& h.header_checksum == 0
    &&& h.data_checksum_flag == 1
    &&& h.reserved@ == Seq::new(456, |k: int| 0u8)
}

/// A header's bytes hold the header.
pub proof fn lemma_header_bytes(h: FileHeader)
    ensures
        header_bytes(h).len() == 512,
        holds_header(header_bytes(h), h),
{
    let b = header_bytes(h);
    assert(b.len() == 512);
    assert(h.magic@ =~= b.subrange(0, 4));
    assert(h.reserved@ =~= b.subrange(56, 512));
}

/// Two headers that the same bytes hold are one header.
pub proof fn lemma_holds_one_header(bytes: Seq<u8>, h: FileHeader, g: FileHeader)
    requires
        holds_header(bytes, h),
        holds_header(bytes, g),
    ensures
        h == g,
{
    assert(h.magic@ =~= g.magic@);
    assert(h.reserved@ =~= g.reserved@);
    assert(h.magic == g.magic);
    assert(h.reserved == g.reserved);
}

/// The checksum of a header does not depend on the checksum it stores.
pub proof fn lemma_header_crc_ignores_field(h: FileHeader, sum: u32)
    ensures
        header_crc(FileHeader { header_checksum: sum, ..h }) == header_crc(h),
{
    let g = FileHeader { header_checksum: sum, ..h };
    let body = header_body(h);
    assert(header_body(g) == body);
    assert(body.len() == 512);
    assert(covered(put_u32(body, 48, h.header_checksum), 48) =~= covered(body, 48));
    assert(covered(put_u32(body, 48, sum), 48) =~= covered(body, 48));
}

impl FileHeader {
    /// The header of a new file, created at `now` seconds since the Unix
    /// epoch: one block, the header's own, and page checksums switched on.
    /// The checksum of the header is not computed yet.
    pub fn new(now: u64) -> (header: FileHeader)
        ensures
            is_new_header(header, now),
            format_fault(header) is None,
    {
        let header = FileHeader {
            magic: DB_MAGIC,
            version: FILE_VERSION,
            header_size: 512,
            page_size: 8192,
            page_count: 1,
            free_list_head: 0,
            first_data_page: 0,
            last_data_page: 0,
            created_at: now,
            last_modified: now,
            header_checksum: 0,
            data_checksum_flag: 1,
            reserved: [0u8; 456],
        };
        assert(header.magic@ =~= magic_bytes());
        assert(header.reserved@ =~= Seq::new(456, |k: int| 0u8));
        header
    }

    /// Checks the magic bytes, the version and the page size, in this
    /// order.
    pub fn validate(&self) -> (checked: Result<(), StorageError>)
        ensures
            match checked {
                Ok(_) => format_fault(*self) is None,
                Err(e) => format_fault(*self) is Some && e == StorageError::InvalidData(
                    format_fault(*self).unwrap(),
                ),
            },
    {
        if self.magic[0] != 0x4A || self.magic[1] != 0x44 || self.magic[2] != 0x42
            || self.magic[3] != 0x31 {
            return Err(StorageError::InvalidData(DataFault::Magic));
        }
        assert(self.magic@ =~= magic_bytes());
        if self.version > FILE_VERSION {
            return Err(StorageError::InvalidData(DataFault::Version(self.version)));
        }
        if self.page_size != 8192 {
            return Err(StorageError::InvalidData(DataFault::PageSize(self.page_size)));
        }
        Ok(())
    }

    /// The 512 bytes that stand for the header in a file.
    pub fn to_bytes(&self) -> (bytes: [u8; 512])
        ensures
            bytes@ == header_bytes(*self),
    {
        let mut bytes = [0u8; 512];
        let mut k: usize = 0;
        while k < 4
            invariant
                k <= 4,
                forall|j: int| 0 <= j < k ==> bytes@[j] == self.magic@[j],
                forall|j: int| k <= j < 512 ==> bytes@[j] == 0,
            decreases 4 - k,
        {
            bytes[k] = self.magic[k];
            k += 1;
        }
        let mut k: usize = 0;
        while k < 456
            invariant
                k <= 456,
                forall|j: int| 0 <= j < 4 ==> bytes@[j] == self.magic@[j],
                forall|j: int| 4 <= j < 56 ==> bytes@[j] == 0,
                forall|j: int| 56 <= j < 56 + k ==> bytes@[j] == self.reserved@[j - 56],
                forall|j: int| 56 + k <= j < 512 ==> bytes@[j] == 0,
            decreases 456 - k,
        {
            bytes[56 + k] = self.reserved[k];
            k += 1;
        }
        assert(bytes@ =~= Seq::new(
            512,
            |k: int|
                if k < 4 {
                    self.magic@[k]
                } else if k >= 56 {
                    self.reserved@[k - 56]
                } else {
                    0u8
                },
        ));
        write_u32(&mut bytes, 4, self.version);
        write_u32(&mut bytes, 8, self.header_size);
        write_u32(&mut bytes, 12, self.page_size);
        write_u32(&mut bytes, 16, self.page_count);
        write_u32(&mut bytes, 20, self.free_list_head);
        write_u32(&mut bytes, 24, self.first_data_page);
        write_u32(&mut bytes, 28, self.last_data_page);
        write_u64(&mut bytes, 32, self.created_at);
        write_u64(&mut bytes, 40, self.last_modified);
        write_u32(&mut bytes, 52, self.data_checksum_flag);
        write_u32(&mut bytes, 48, self.header_checksum);
        bytes
    }

    /// Reads a header off the first 512 bytes and checks its magic bytes,
    /// version and page size. The checksum is not looked at.
    pub fn from_bytes(bytes: &[u8]) -> (parsed: Result<FileHeader, StorageError>)
        ensures
            parsed == parsed_header(bytes@),
            parsed matches Ok(header) ==> holds_header(bytes@, header),
    {
        if bytes.len() < HEADER_SIZE {
            return Err(StorageError::InvalidData(DataFault::HeaderLength));
        }
        let mut magic = [0u8; 4];
        let mut k: usize = 0;
        while k < 4
            invariant
                k <= 4,
                bytes@.len() >= 512,
                forall|j: int| 0 <= j < k ==> magic@[j] == bytes@[j],
            decreases 4 - k,
        {
            magic[k] = bytes[k];
            k += 1;
        }
        let mut reserved = [0u8; 456];
        let mut k: usize = 0;
        while k < 456
            invariant
                k <= 456,
                bytes@.len() >= 512,
                forall|j: int| 0 <= j < k ==> reserved@[j] == bytes@[56 + j],
            decreases 456 - k,
        {
            reserved[k] = bytes[56 + k];
            k += 1;
        }
        let header = FileHeader {
            magic,
            version: read_u32(bytes, 4),
            header_size: read_u32(bytes, 8),
            page_size: read_u32(bytes, 12),
            page_count: read_u32(bytes, 16),
            free_list_head: read_u32(bytes, 20),
            first_data_page: read_u32(bytes, 24),
            last_data_page: read_u32(bytes, 28),
            created_at: read_u64(bytes, 32),
            last_modified: read_u64(bytes, 40),
            header_checksum: read_u32(bytes, 48),
            data_checksum_flag: read_u32(bytes, 52),
            reserved,
        };
        proof {
            assert(header.magic@ =~= bytes@.subrange(0, 4));
            assert(header.reserved@ =~= bytes@.subrange(56, 512));
            assert(holds_header(bytes@, header));
            lemma_holds_one_header(bytes@, header_in(bytes@), header);
        }
        match header.validate() {
            Ok(_) => Ok(header),
            Err(e) => Err(e),
        }
    }

    /// The checksum of the header as it is: that of its bytes without the
    /// four bytes of the checksum field.
    fn calculate_checksum(&self) -> (sum: u32)
        ensures
            sum == header_crc(*self),
    {
        let mut unsigned = *self;
        unsigned.header_checksum = 0;
        proof {
            lemma_header_crc_ignores_field(*self, 0);
        }
        let bytes = unsigned.to_bytes();
        checksum_without_field(&bytes, 48)
    }

    /// Stores `sum` as the checksum of the header.
    pub fn set_checksum(&mut self, sum: u32)
        ensures
            *final(self) == (FileHeader { header_checksum: sum, ..*old(self) }),
    {
        self.header_checksum = sum;
    }

    /// Whether the stored checksum is `computed`.
    pub fn checksum_matches(&self, computed: u32) -> (good: bool)
        ensures
            good == (self.header_checksum == computed),
    {
        self.header_checksum == computed
    }

    /// Computes the checksum of the header and stores it.
    pub fn update_checksum(&mut self)
        ensures
            *final(self) == sealed(*old(self)),
            final(self).header_checksum == header_crc(*final(self)),
    {
        proof {
            lemma_header_crc_ignores_field(*self, header_crc(*self));
        }
        let sum = self.calculate_checksum();
        self.set_checksum(sum);
    }

    /// Whether the stored checksum is that of the header.
    pub fn verify_checksum(&self) -> (good: bool)
        ensures
            good == (self.header_checksum == header_crc(*self)),
    {
        let computed = self.calculate_checksum();
        self.checksum_matches(computed)
    }

    /// Block 0 of the file: the header, then zeros.
    pub fn to_block(&self) -> (block: [u8; 8192])
        ensures
            block@ == header_block(*self),
    {
        let bytes = self.to_bytes();
        let mut block = [0u8; 8192];
        let mut k: usize = 0;
        while k < 512
            invariant
                k <= 512,
                forall|j: int| 0 <= j < k ==> block@[j] == bytes@[j],
                forall|j: int| k <= j < 8192 ==> block@[j] == 0,
            decreases 512 - k,
        {
            block[k] = bytes[k];
            k += 1;
        }
        proof {
            lemma_header_bytes(*self);
            assert(block@ =~= header_block(*self));
        }
        block
    }

    /// Computes the checksum of the header, stores it, and returns block 0
    /// as it is to be written.
    pub fn seal_block(&mut self) -> (block: [u8; 8192])
        ensures
            *final(self) == sealed(*old(self)),
            block@ == header_block(*final(self)),
    {
        self.update_checksum();
        self.to_block()
    }

    /// Reads the header off block 0 of a file and checks it, its checksum
    /// included.
    pub fn open_block(block: &[u8; 8192]) -> (opened: Result<FileHeader, StorageError>)
        ensures
            opened == opened_header(block@),
    {
        match FileHeader::from_bytes(&block[0..512]) {
            Err(e) => Err(e),
            Ok(header) => {
                if !header.verify_checksum() {
                    return Err(StorageError::InvalidData(DataFault::HeaderChecksum));
                }
                Ok(header)
            },
        }
    }

    /// Where `page` is to be written. Page 0 is the header's and is
    /// refused.
    pub fn locate_write(&self, page: &Page) -> (offset: Result<u64, StorageError>)
        ensures
            offset == located_write(page@),
    {
        let page_id = page.page_id();
        if page_id == 0 {
            return Err(StorageError::ReservedPage);
        }
        Ok(page_offset(page_id))
    }

    /// Takes note that page `page_id` was written at time `now`. Where the
    /// page lies beyond the blocks counted so far, the file has grown: the
    /// count then reaches to that page, the time of the last change is
    /// `now`, and the header is to be written again, which the result says.
    pub fn note_write(&mut self, page_id: u32, now: u64) -> (grew: bool)
        requires
            page_id < u32::MAX,
        ensures
            grew == (page_id >= old(self).page_count),
            *final(self) == noted_write(*old(self), page_id, now),
    {
        if page_id >= self.page_count {
            self.page_count = page_id + 1;
            self.last_modified = now;
            true
        } else {
            false
        }
    }

    /// Where page `page_id` is to be read. Page 0 is the header's and is
    /// refused, and so is a page beyond the blocks of the file.
    pub fn locate_read(&self, page_id: u32) -> (offset: Result<u64, StorageError>)
        ensures
            offset == located_read(*self, page_id),
    {
        if page_id == 0 {
            return Err(StorageError::ReservedPage);
        }
        if page_id >= self.page_count {
            return Err(StorageError::PageNotFound(page_id));
        }
        Ok(page_offset(page_id))
    }

    /// Takes the block that was read as page `page_id` for a page: its
    /// header must be valid and, where the file checks pages, its checksum
    /// must hold.
    pub fn check_page(&self, page_id: u32, block: &[u8; 8192]) -> (checked: Result<
        Page,
        StorageError,
    >)
        ensures
            match checked {
                Ok(page) => checked_page_fault(*self, page_id, block@) is None && page@ == block@,
                Err(e) => checked_page_fault(*self, page_id, block@) == Some(e),
            },
    {
        match Page::from_bytes(block) {
            Err(e) => Err(e),
            Ok(page) => {
                if self.data_checksum_flag != 0 && !page.verify_checksum() {
                    return Err(StorageError::ChecksumMismatch(page_id));
                }
                Ok(page)
            },
        }
    }

    /// Appends a page to the file: the block count grows by one, and the
    /// page returned, a free page with the next id, is to be written at its
    /// place. It carries its checksum where the file checks pages.
    pub fn allocate(&mut self) -> (page: Page)
        requires
            old(self).page_count < u32::MAX,
        ensures
            *final(self) == (FileHeader {
                page_count: (old(self).page_count + 1) as u32,
                ..*old(self)
            }),
            page@ == (if old(self).data_checksum_flag != 0 {
                sealed_page(empty_page(old(self).page_count, PageType::Free))
            } else {
                empty_page(old(self).page_count, PageType::Free)
            }),
    {
        let page_id = self.page_count;
        self.page_count += 1;
        let mut page = Page::new(page_id, PageType::Free);
        if self.data_checksum_flag != 0 {
            page.update_checksum();
        }
        page
    }

    /// Sets the time of the last change.
    pub fn touch(&mut self, now: u64)
        ensures
            *final(self) == (FileHeader { last_modified: now, ..*old(self) }),
    {
        self.last_modified = now;
    }
}

/// The offset in the file at which page `page_id` starts.
pub fn page_offset(page_id: u32) -> (offset: u64)
    ensures
        offset == offset_of(page_id),
{
    page_id as u64 * 8192
}

/// A header that passes the format checks reads back from its bytes.
pub proof fn lemma_header_round_trip(h: FileHeader)
    requires
        format_fault(h) is None,
    ensures
        parsed_header(header_bytes(h)) == Ok::<FileHeader, StorageError>(h),
{
    lemma_header_bytes(h);
    lemma_holds_one_header(header_bytes(h), header_in(header_bytes(h)), h);
}

/// Block 0 as it is written opens as the header that was sealed into it.
pub proof fn lemma_sealed_block_opens(h: FileHeader)
    requires
        format_fault(h) is None,
    ensures
        opened_header(header_block(sealed(h))) == Ok::<FileHeader, StorageError>(sealed(h)),
{
    let s = sealed(h);
    lemma_header_bytes(s);
    lemma_header_crc_ignores_field(h, header_crc(h));
    assert(header_block(s).subrange(0, 512) =~= header_bytes(s));
    lemma_header_round_trip(s);
}

/// Four bytes that differ somewhere hold different numbers.
pub proof fn lemma_le_u32_differs(a: Seq<u8>, b: Seq<u8>, at: int)
    requires
        0 <= at,
        at + 4 <= a.len(),
        at + 4 <= b.len(),
        a.subrange(at, at + 4) != b.subrange(at, at + 4),
    ensures
        le_u32(a, at) != le_u32(b, at),
{
    if le_u32(a, at) == le_u32(b, at) {
        assert(a[at] == b[at]);
        assert(a[at + 1] == b[at + 1]);
        assert(a[at + 2] == b[at + 2]);
        assert(a[at + 3] == b[at + 3]);
        assert(a.subrange(at, at + 4) =~= b.subrange(at, at + 4));
    }
}

/// A file whose header had its checksum field changed does not open: the
/// block that differs from a written block 0 in the four bytes of the
/// checksum, and nowhere else, is refused, and the fault named is the
/// checksum.
pub proof fn lemma_corrupt_checksum_refused(h: FileHeader, block: Seq<u8>)
    requires
        format_fault(h) is None,
        block.len() == 8192,
        forall|k: int|
            0 <= k < 8192 && !(48 <= k < 52) ==> block[k] == header_block(sealed(h))[k],
        block.subrange(48, 52) != header_block(sealed(h)).subrange(48, 52),
    ensures
        opened_header(block) == Err::<FileHeader, StorageError>(
            StorageError::InvalidData(DataFault::HeaderChecksum),
        ),
{
    let s = sealed(h);
    let good = header_block(s);
    lemma_header_bytes(s);
    lemma_header_crc_ignores_field(h, header_crc(h));
    assert(good.subrange(0, 512) =~= header_bytes(s));
    lemma_le_u32_differs(block, good, 48);
    let bytes = block.subrange(0, 512);
    let stored = le_u32(bytes, 48);
    assert(le_u32(bytes, 48) == le_u32(block, 48));
    assert(le_u32(header_bytes(s), 48) == le_u32(good, 48));
    let g = FileHeader { header_checksum: stored as u32, ..s };
    assert(holds_header(bytes, g)) by {
        assert(holds_header(header_bytes(s), s));
        assert(g.magic@ =~= bytes.subrange(0, 4));
        assert(g.reserved@ =~= bytes.subrange(56, 512));
    }
    lemma_holds_one_header(bytes, header_in(bytes), g);
    lemma_header_crc_ignores_field(s, stored as u32);
    assert(format_fault(g) == format_fault(h));
}

/// What was written is read: once a page with a valid header that carries
/// its checksum was written and the write was noted, reading the page with
/// its id looks where the page was written, and the bytes found there, if
/// they are the bytes written, pass the check and give the page.
pub proof fn lemma_read_your_write(h: FileHeader, b: Seq<u8>, now: u64)
    requires
        valid_header(b),
        checksum_holds(b),
        page_id_of(b) != 0,
    ensures
        located_write(b) is Ok,
        located_read(noted_write(h, page_id_of(b) as u32, now), page_id_of(b) as u32)
            == located_write(b),
        checked_page_fault(noted_write(h, page_id_of(b) as u32, now), page_id_of(b) as u32, b)
            is None,
{
}

/// A page that was sealed and written reads back: a block that holds the
/// bytes of a page with a valid header and its checksum stored passes the
/// check made on reading, whatever the file's policy on checksums.
pub proof fn lemma_sealed_page_passes(h: FileHeader, page_id: u32, b: Seq<u8>)
    requires
        valid_header(b),
    ensures
        checked_page_fault(h, page_id, sealed_page(b)) is None,
{
    crate::page::laws::lemma_checksum_after_update(b);
    let s = sealed_page(b);
    assert(s.len() == 8192);
    assert(page_id_of(s) == page_id_of(b));
    assert(valid_header(s));
}

} // verus!
