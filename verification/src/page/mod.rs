//! The slotted page: a fixed block of 8192 bytes that holds a header, a slot
//! directory that grows towards the end, and records that grow towards the
//! start.

pub mod batch;
pub mod compaction;
pub mod header;
pub mod laws;
pub mod layout;

use batch::{
    added_below, added_slot, agree_but_bounds, all_fit, batch_total, each_view,
    lemma_all_fit_prefix, lemma_bounds_close, lemma_place_agrees, lemma_total_len_take,
    none_empty, total_len, with_records,
};
use compaction::{after_compact, compact_upto, compacted, is_compaction_of, lemma_compacted};
use crate::checksum::{checksum_without_field, covered, crc32};
use crate::codec::{
    group_codec, put_u16, put_u32, read_u16, read_u32, read_u64, write_u16, write_u32,
    write_u64,
};
use crate::error::{DataFault, StorageError};
pub use header::{PageHeader, PageType, SlotEntry};
use header::{empty_page, header_of, put_header};
use layout::{
    can_add, checksum_of, deleted_count_of, free_end_of, free_space_of, free_start_of, has_slot,
    is_live, live_slots, lsn_of, next_live, page_id_of, parsed_page, put_bytes,
    put_slot, record_at, record_bytes, should_compact_of, slot_count_of, slot_length,
    slot_offset, slot_pos, slots_in_page, tombstoned_by, tombstones_below, type_byte_of,
    used_space_of, valid_header, well_formed, with_record, with_tombstone, with_tombstones,
};
use vstd::prelude::*;

verus! {

broadcast use {vstd::slice::group_slice_axioms, vstd::array::group_array_axioms, group_codec};

/// The size of a page in bytes.
pub const PAGE_SIZE: usize = 8192;

/// A page: 8192 bytes, laid out as the module describes, and aligned to 8
/// bytes in memory.
pub struct Page {
    data: [u8; 8192],
    /// Takes no room; its element type gives the page its alignment.
    align: [u64; 0],
}

impl View for Page {
    type V = Seq<u8>;

    closed spec fn view(&self) -> Seq<u8> {
        self.data@
    }
}

/// Two pages that hold the same bytes are the same page.
pub proof fn lemma_same_bytes_same_page(p: Page, q: Page)
    requires
        p@ == q@,
    ensures
        p == q,
{
    assert(p.data@ =~= q.data@);
    assert(p.data == q.data);
    assert(p.align@ =~= q.align@);
    assert(p.align == q.align);
}

/// A page is 8192 bytes long.
pub broadcast proof fn lemma_page_len(page: Page)
    ensures
        (#[trigger] page@).len() == 8192,
{
}

impl Page {
    /// The size of the page header in bytes.
    pub const HEADER_SIZE: usize = 32;

    /// The size of a slot entry in bytes.
    pub const SLOT_SIZE: usize = 4;

    /// A page without records: the header, then zeros.
    pub fn new(page_id: u32, page_type: PageType) -> (page: Page)
        ensures
            page@ == empty_page(page_id, page_type),
            page_id_of(page@) == page_id,
            type_byte_of(page@) == page_type.spec_to_byte(),
            slot_count_of(page@) == 0,
            free_end_of(page@) == 8192,
            free_space_of(page@) == 8192 - 32,
            checksum_of(page@) == 0,
            page_id != 0xFFFF_FFFF ==> well_formed(page@),
            slots_in_page(page@),
    {
        proof {
            laws::lemma_empty_page(page_id, page_type);
        }
        let mut page = Page { data: [0u8; 8192], align: [] };
        assert(page@ =~= Seq::new(8192, |k: int| 0u8));
        let header = PageHeader {
            page_id,
            page_type,
            free_space_start: 32,
            free_space_end: 8192,
            slot_count: 0,
            lsn: 0,
            checksum: 0,
        };
        page.set_header(header);
        page
    }

    /// A page without records, as `new` makes it. Every byte behind the
    /// header is zero here too: a page holds no byte that was not written.
    pub fn new_uninit(page_id: u32, page_type: PageType) -> (page: Page)
        ensures
            page@ == empty_page(page_id, page_type),
            slot_count_of(page@) == 0,
            free_end_of(page@) == 8192,
            free_space_of(page@) == 8192 - 32,
            page_id != 0xFFFF_FFFF ==> well_formed(page@),
            slots_in_page(page@),
    {
        Page::new(page_id, page_type)
    }

    /// The bytes of the page.
    pub fn as_bytes(&self) -> (bytes: &[u8; 8192])
        ensures
            bytes@ == self@,
    {
        &self.data
    }

    /// The bytes of the page, to be changed in place. Nothing is checked:
    /// what is written may leave the page with a header that is not valid.
    pub fn as_bytes_mut(&mut self) -> (bytes: &mut [u8; 8192])
        ensures
            bytes@ == old(self)@,
            final(self)@ == final(bytes)@,
    {
        &mut self.data
    }

    /// Takes the buffer as a page if its header is valid. The checksum is
    /// not looked at.
    pub fn from_bytes(bytes: &[u8; 8192]) -> (parsed: Result<Page, StorageError>)
        ensures
            match parsed {
                Ok(page) => parsed_page(bytes@) == Ok::<Seq<u8>, StorageError>(page@),
                Err(e) => parsed_page(bytes@) == Err::<Seq<u8>, StorageError>(e),
            },
    {
        let page = Page { data: *bytes, align: [] };
        if page.page_id() == 0xFFFF_FFFF {
            return Err(StorageError::InvalidData(DataFault::PageId));
        }
        let free_end: usize = page.free_space_end() as usize;
        if free_end > PAGE_SIZE {
            return Err(StorageError::InvalidData(DataFault::FreeSpaceEnd));
        }
        let dir_end: usize = 32 + 4 * (page.slot_count() as usize);
        if dir_end > PAGE_SIZE {
            return Err(StorageError::InvalidData(DataFault::SlotDirectorySize));
        }
        if dir_end > free_end {
            return Err(StorageError::InvalidData(DataFault::SlotDirectoryOverlap));
        }
        if page.page_type().is_none() {
            return Err(StorageError::InvalidData(DataFault::PageType));
        }
        Ok(page)
    }

    /// Whether the page is well-formed: its header is valid, and the records
    /// lie in the record heap, one below the other in slot order. Pages made
    /// by `new` and changed through the operations of this type are; a
    /// buffer that `from_bytes` accepted need not be.
    pub fn is_well_formed(&self) -> (ok: bool)
        ensures
            ok == well_formed(self@),
    {
        let free_end: usize = self.free_space_end() as usize;
        let n: usize = self.slot_count() as usize;
        if self.page_id() == 0xFFFF_FFFF || free_end > PAGE_SIZE || 32 + 4 * n > free_end
            || self.page_type().is_none() {
            return false;
        }
        let mut low: usize = PAGE_SIZE;
        let ghost mut last: int = -1;
        let mut i: usize = 0;
        while i < n
            invariant
                i <= n,
                n == slot_count_of(self@),
                free_end == free_end_of(self@),
                valid_header(self@),
                low <= 8192,
                -1 <= last < i,
                last == -1 ==> low == 8192,
                last >= 0 ==> is_live(self@, last) && low == slot_offset(self@, last),
                forall|k: int|
                    0 <= k < i && is_live(self@, k) ==> low <= #[trigger] slot_offset(self@, k)
                        && free_end <= slot_offset(self@, k),
                forall|j: int, k: int|
                    0 <= j < k < i && is_live(self@, j) && is_live(self@, k) ==> #[trigger] slot_offset(
                        self@,
                        k,
                    ) + slot_length(self@, k) <= #[trigger] slot_offset(self@, j),
            decreases n - i,
        {
            match self.get_record(i) {
                Some(_) => {
                    let slot = self.get_slot(i).unwrap();
                    let start: usize = slot.offset as usize;
                    let end: usize = start + slot.length as usize;
                    if start < free_end || end > low {
                        proof {
                            if last >= 0 && start >= free_end {
                                assert(slot_offset(self@, i as int) + slot_length(self@, i as int)
                                    > slot_offset(self@, last));
                            }
                        }
                        return false;
                    }
                    low = start;
                    proof {
                        last = i as int;
                    }
                },
                None => {},
            }
            i += 1;
        }
        true
    }

    /// The id stored in the header.
    pub fn page_id(&self) -> (id: u32)
        ensures
            id == page_id_of(self@),
    {
        read_u32(&self.data, 0)
    }

    /// The page type stored in the header, if the byte names one.
    pub fn page_type(&self) -> (page_type: Option<PageType>)
        ensures
            page_type == PageType::spec_from_byte(type_byte_of(self@)),
    {
        PageType::from_byte(self.data[4])
    }

    /// The stored offset of the first byte after the slot directory.
    pub fn free_space_start(&self) -> (at: u16)
        ensures
            at == free_start_of(self@),
    {
        read_u16(&self.data, 6)
    }

    /// The offset at which the record heap starts.
    pub fn free_space_end(&self) -> (at: u16)
        ensures
            at == free_end_of(self@),
    {
        read_u16(&self.data, 8)
    }

    /// The number of slots, tombstones included.
    pub fn slot_count(&self) -> (n: u16)
        ensures
            n == slot_count_of(self@),
    {
        read_u16(&self.data, 10)
    }

    /// The log sequence number stored in the header.
    pub fn lsn(&self) -> (lsn: u64)
        ensures
            lsn == lsn_of(self@),
    {
        read_u64(&self.data, 16)
    }

    /// The stored checksum.
    pub fn checksum(&self) -> (sum: u32)
        ensures
            sum == checksum_of(self@),
    {
        read_u32(&self.data, 24)
    }

    /// The header, decoded; `None` where the type byte names no page type.
    pub fn header(&self) -> (header: Option<PageHeader>)
        ensures
            header == header_of(self@),
    {
        match self.page_type() {
            Some(page_type) => Some(
                PageHeader {
                    page_id: self.page_id(),
                    page_type,
                    free_space_start: self.free_space_start(),
                    free_space_end: self.free_space_end(),
                    slot_count: self.slot_count(),
                    lsn: self.lsn(),
                    checksum: self.checksum(),
                },
            ),
            None => None,
        }
    }

    /// Stores the header in the first 32 bytes and zeroes their padding.
    /// Nothing is checked: the header may contradict the rest of the page.
    pub fn set_header(&mut self, header: PageHeader)
        ensures
            final(self)@ == put_header(old(self)@, header),
            header_of(final(self)@) == Some(header),
    {
        proof {
            header::lemma_put_header(self@, header);
        }
        write_u32(&mut self.data, 0, header.page_id);
        self.data[4] = header.page_type.to_byte();
        self.data[5] = 0;
        write_u16(&mut self.data, 6, header.free_space_start);
        write_u16(&mut self.data, 8, header.free_space_end);
        write_u16(&mut self.data, 10, header.slot_count);
        write_u32(&mut self.data, 12, 0);
        write_u64(&mut self.data, 16, header.lsn);
        write_u32(&mut self.data, 24, header.checksum);
        write_u32(&mut self.data, 28, 0);
    }

    /// Slot `index` of the directory, if there is one and it lies inside the
    /// page.
    pub fn get_slot(&self, index: usize) -> (slot: Option<SlotEntry>)
        ensures
            slot == (if has_slot(self@, index as int) {
                Some(
                    SlotEntry {
                        offset: slot_offset(self@, index as int) as u16,
                        length: slot_length(self@, index as int) as u16,
                    },
                )
            } else {
                None
            }),
    {
        if index >= self.slot_count() as usize {
            return None;
        }
        let at: usize = 32 + 4 * index;
        if at + 4 > PAGE_SIZE {
            return None;
        }
        Some(SlotEntry { offset: read_u16(&self.data, at), length: read_u16(&self.data, at + 2) })
    }

    /// The bytes between the slot directory and the record heap; 0 where the
    /// header contradicts itself.
    pub fn free_space(&self) -> (free: usize)
        ensures
            free == free_space_of(self@),
    {
        let dir_end: usize = 32 + 4 * (self.slot_count() as usize);
        let free_end: usize = self.free_space_end() as usize;
        if free_end > PAGE_SIZE || dir_end > free_end {
            return 0;
        }
        free_end - dir_end
    }

    /// Whether a record of `record_size` bytes and its slot fit into the
    /// free space.
    pub fn has_space_for(&self, record_size: usize) -> (fits: bool)
        ensures
            fits == (free_space_of(self@) >= record_size + 4),
    {
        let free = self.free_space();
        free >= 4 && record_size <= free - 4
    }

    /// The record in slot `slot_index`; `None` for a slot that does not
    /// exist, a tombstone, and a slot that points beyond the page.
    pub fn get_record(&self, slot_index: usize) -> (record: Option<&[u8]>)
        ensures
            match record {
                Some(bytes) => record_at(self@, slot_index as int) == Some(bytes@),
                None => record_at(self@, slot_index as int) is None,
            },
    {
        match self.get_slot(slot_index) {
            None => None,
            Some(slot) => {
                if slot.length == 0 {
                    return None;
                }
                let start: usize = slot.offset as usize;
                let end: usize = start + slot.length as usize;
                if end <= PAGE_SIZE {
                    Some(&self.data[start..end])
                } else {
                    None
                }
            },
        }
    }

    /// The bytes in use: header, slot directory and record heap.
    pub fn used_space(&self) -> (used: usize)
        requires
            free_end_of(self@) <= 8192,
        ensures
            used == used_space_of(self@),
            valid_header(self@) ==> used + free_space_of(self@) == 8192,
    {
        let slots_size: usize = 4 * (self.slot_count() as usize);
        let records_size: usize = PAGE_SIZE - self.free_space_end() as usize;
        32 + slots_size + records_size
    }

    /// The checksum of the page as it is: that of its bytes without the
    /// four bytes of the checksum field.
    fn calculate_checksum(&self) -> (sum: u32)
        ensures
            sum == crc32(covered(self@, 24)),
    {
        checksum_without_field(&self.data, 24)
    }

    /// Stores `sum` in the checksum field of the header.
    pub fn set_checksum(&mut self, sum: u32)
        ensures
            final(self)@ == put_u32(old(self)@, 24, sum),
            checksum_of(final(self)@) == sum,
    {
        write_u32(&mut self.data, 24, sum);
    }

    /// Whether the stored checksum admits `computed` as the checksum of the
    /// page: it is `computed`, or it is the 0 that stands for "never
    /// computed".
    pub fn checksum_matches(&self, computed: u32) -> (good: bool)
        ensures
            good == (checksum_of(self@) == 0 || checksum_of(self@) == computed),
    {
        let stored = self.checksum();
        stored == 0 || stored == computed
    }

    /// Computes the checksum of the page and stores it in the header.
    pub fn update_checksum(&mut self)
        ensures
            final(self)@ == put_u32(old(self)@, 24, crc32(covered(old(self)@, 24))),
            laws::checksum_holds(final(self)@),
    {
        proof {
            laws::lemma_checksum_after_update(self@);
        }
        let sum = self.calculate_checksum();
        self.set_checksum(sum);
    }

    /// Whether the stored checksum is that of the page. A stored 0 stands
    /// for "never computed" and passes. The page is only read.
    pub fn verify_checksum(&self) -> (good: bool)
        ensures
            good == laws::checksum_holds(self@),
    {
        if self.checksum() == 0 {
            return true;
        }
        let computed = self.calculate_checksum();
        self.checksum_matches(computed)
    }

    /// Stores `data` from offset `at` on.
    fn write_bytes(&mut self, at: usize, data: &[u8])
        requires
            at + data.len() <= 8192,
        ensures
            final(self)@ == put_bytes(old(self)@, at as int, data@),
    {
        let n: usize = data.len();
        let mut k: usize = 0;
        while k < n
            invariant
                k <= n,
                n == data.len(),
                at + n <= 8192,
                self@ == put_bytes(old(self)@, at as int, data@.take(k as int)),
            decreases n - k,
        {
            self.data[at + k] = data[k];
            k += 1;
            assert(self@ =~= put_bytes(old(self)@, at as int, data@.take(k as int)));
        }
        assert(data@.take(n as int) =~= data@);
    }

    /// Stores `slot` as entry `index` of the directory.
    fn set_slot(&mut self, index: usize, slot: SlotEntry)
        requires
            slot_pos(index as int) + 4 <= 8192,
        ensures
            final(self)@ == put_slot(old(self)@, index as int, slot.offset, slot.length),
    {
        let at: usize = 32 + 4 * index;
        write_u16(&mut self.data, at, slot.offset);
        write_u16(&mut self.data, at + 2, slot.length);
    }

    /// Stores the record and appends a slot for it. Returns the index of
    /// the slot, or `None`, with the page unchanged, where the record is
    /// empty or does not fit together with its slot.
    pub fn add_record(&mut self, record: &[u8]) -> (slot: Option<usize>)
        ensures
            match slot {
                Some(index) => {
                    &&& can_add(old(self)@, record@.len() as int)
                    &&& index == slot_count_of(old(self)@)
                    &&& final(self)@ == with_record(old(self)@, record@)
                },
                None => !can_add(old(self)@, record@.len() as int) && final(self)@ == old(self)@,
            },
            slot is Some ==> {
                &&& slot_count_of(final(self)@) == slot_count_of(old(self)@) + 1
                &&& free_end_of(final(self)@) == free_end_of(old(self)@) - record@.len()
                &&& free_space_of(final(self)@) == free_space_of(old(self)@) - record@.len() - 4
            },
            well_formed(old(self)@) ==> well_formed(final(self)@),
            well_formed(old(self)@) && slots_in_page(old(self)@) ==> slots_in_page(final(self)@),
            well_formed(old(self)@) && slot is Some ==> record_at(final(self)@, slot.unwrap() as int)
                == Some(record@),
            well_formed(old(self)@) ==> forall|i: int|
                0 <= i < slot_count_of(old(self)@) ==> #[trigger] record_at(final(self)@, i)
                    == record_at(old(self)@, i),
    {
        proof {
            if can_add(self@, record@.len() as int) {
                batch::lemma_with_record_bounds(self@, record@);
                if well_formed(self@) {
                    laws::lemma_add_record(self@, record@);
                }
            }
        }
        let record_len: usize = record.len();
        if record_len == 0 || !self.has_space_for(record_len) {
            return None;
        }
        let slot_index: usize = self.slot_count() as usize;
        let boundary: usize = self.free_space_end() as usize;
        if boundary > PAGE_SIZE || record_len > boundary {
            return None;
        }
        let start: usize = boundary - record_len;
        let dir_end: usize = 32 + 4 * (slot_index + 1);
        if start < dir_end {
            return None;
        }
        self.write_bytes(start, record);
        self.set_slot(slot_index, SlotEntry { offset: start as u16, length: record_len as u16 });
        write_u16(&mut self.data, 6, dir_end as u16);
        write_u16(&mut self.data, 8, start as u16);
        write_u16(&mut self.data, 10, (slot_index + 1) as u16);
        Some(slot_index)
    }

    /// Turns slot `slot_index` into a tombstone and says whether there was
    /// such a slot. The record's bytes stay where they are, and no other slot
    /// changes its index.
    pub fn delete_record(&mut self, slot_index: usize) -> (deleted: bool)
        ensures
            deleted == has_slot(old(self)@, slot_index as int),
            final(self)@ == with_tombstone(old(self)@, slot_index as int),
            slot_count_of(final(self)@) == slot_count_of(old(self)@),
            free_end_of(final(self)@) == free_end_of(old(self)@),
            well_formed(old(self)@) ==> well_formed(final(self)@),
            well_formed(old(self)@) && slots_in_page(old(self)@) ==> slots_in_page(final(self)@),
            well_formed(old(self)@) ==> forall|i: int| #[trigger]
                record_at(final(self)@, i) == (if i == slot_index {
                    None
                } else {
                    record_at(old(self)@, i)
                }),
    {
        proof {
            if well_formed(self@) {
                laws::lemma_delete_record(self@, slot_index as int);
            }
        }
        match self.get_slot(slot_index) {
            Some(_) => {
                write_u16(&mut self.data, 32 + 4 * slot_index + 2, 0);
                true
            },
            None => false,
        }
    }

    /// Turns each of the named slots into a tombstone and returns how many
    /// of them held a record before.
    pub fn delete_records(&mut self, slot_indices: &[usize]) -> (deleted: usize)
        ensures
            final(self)@ == with_tombstones(old(self)@, slot_indices@),
            deleted == tombstoned_by(old(self)@, slot_indices@),
            well_formed(old(self)@) ==> well_formed(final(self)@),
            well_formed(old(self)@) ==> forall|i: int|
                0 <= i < slot_count_of(old(self)@) ==> #[trigger] record_at(final(self)@, i) == (
                if slot_indices@.contains(i as usize) {
                    None
                } else {
                    record_at(old(self)@, i)
                }),
    {
        proof {
            if well_formed(self@) {
                laws::lemma_delete_records(self@, slot_indices@);
            }
        }
        let n: usize = slot_indices.len();
        let mut deleted: usize = 0;
        let mut k: usize = 0;
        while k < n
            invariant
                k <= n,
                n == slot_indices.len(),
                deleted <= k,
                self@ == with_tombstones(old(self)@, slot_indices@.take(k as int)),
                deleted == tombstoned_by(old(self)@, slot_indices@.take(k as int)),
            decreases n - k,
        {
            let slot_index: usize = slot_indices[k];
            proof {
                assert(slot_indices@.take(k + 1).drop_last() =~= slot_indices@.take(k as int));
            }
            match self.get_slot(slot_index) {
                Some(slot) => {
                    if slot.length > 0 {
                        write_u16(&mut self.data, 32 + 4 * slot_index + 2, 0);
                        deleted += 1;
                    } else {
                        assert(put_u16(self@, slot_pos(slot_index as int) + 2, 0) =~= self@) by {
                            crate::codec::lemma_put_same_u16(
                                self@,
                                slot_pos(slot_index as int) + 2,
                            );
                        }
                    }
                },
                None => {},
            }
            k += 1;
        }
        assert(slot_indices@.take(n as int) =~= slot_indices@);
        deleted
    }

    /// The number of tombstones in the page.
    pub fn deleted_count(&self) -> (count: usize)
        ensures
            count == deleted_count_of(self@),
    {
        let n: usize = self.slot_count() as usize;
        let mut count: usize = 0;
        let mut i: usize = 0;
        while i < n
            invariant
                i <= n,
                n == slot_count_of(self@),
                count <= i,
                count == tombstones_below(self@, i as int),
            decreases n - i,
        {
            match self.get_slot(i) {
                Some(slot) => {
                    if slot.length == 0 {
                        count += 1;
                    }
                },
                None => {},
            }
            i += 1;
        }
        count
    }

    /// Whether compaction is worth its cost: more than one slot, at least
    /// two tombstones, and more than a fifth of the slots are tombstones.
    pub fn should_compact(&self) -> (worth: bool)
        ensures
            worth == should_compact_of(self@),
    {
        let total_slots: usize = self.slot_count() as usize;
        if total_slots <= 1 {
            return false;
        }
        let deleted: usize = self.deleted_count();
        assert(deleted <= total_slots) by {
            layout::lemma_tombstones_below_bound(self@, total_slots as int);
        }
        deleted >= 2 && (deleted * 100 / total_slots) > 20
    }

    /// Copies the `len` bytes at `from` to `to`, which lies at `from` or
    /// above it; the two ranges may overlap.
    fn move_up(&mut self, from: usize, to: usize, len: usize)
        requires
            from <= to,
            to + len <= 8192,
        ensures
            final(self)@ == put_bytes(
                old(self)@,
                to as int,
                old(self)@.subrange(from as int, from + len),
            ),
    {
        let ghost before = self@;
        let mut left: usize = len;
        while left > 0
            invariant
                left <= len,
                from <= to,
                to + len <= 8192,
                before == old(self)@,
                self@ == put_bytes(before, to + left, before.subrange(from + left, from + len)),
            decreases left,
        {
            left -= 1;
            self.data[to + left] = self.data[from + left];
            assert(self@ =~= put_bytes(
                before,
                to + left,
                before.subrange(from + left, from + len),
            ));
        }
        assert(self@ =~= put_bytes(before, to as int, before.subrange(from as int, from + len)));
    }

    /// Packs the records against the end of the page, in slot order, and
    /// lets the record heap start at the lowest of them; the page is left
    /// alone unless `should_compact` holds. Every record keeps its slot
    /// index, and tombstones stay. A slot that reaches beyond the page is
    /// passed over like a tombstone.
    ///
    /// On a page that is not well-formed the slots are dealt with in the
    /// same way, one after the other, but a record may then be moved over
    /// another that was not moved yet.
    pub fn compact(&mut self)
        ensures
            final(self)@ == after_compact(old(self)@),
            should_compact_of(old(self)@) && well_formed(old(self)@) ==> is_compaction_of(
                final(self)@,
                old(self)@,
            ),
            well_formed(old(self)@) ==> well_formed(final(self)@),
            well_formed(old(self)@) ==> slot_count_of(final(self)@) == slot_count_of(old(self)@),
            well_formed(old(self)@) && slots_in_page(old(self)@) ==> slots_in_page(final(self)@),
            well_formed(old(self)@) ==> forall|i: int| #[trigger]
                record_at(final(self)@, i) == record_at(old(self)@, i),
            well_formed(old(self)@) ==> free_space_of(final(self)@) >= free_space_of(old(self)@),
    {
        if !self.should_compact() {
            return ;
        }
        let ghost before = self@;
        let slot_count: usize = self.slot_count() as usize;
        let mut write_position: usize = PAGE_SIZE;
        let mut i: usize = 0;
        while i < slot_count
            invariant
                i <= slot_count,
                write_position <= 8192,
                slot_count == slot_count_of(before),
                before == old(self)@,
                self@ == compact_upto(before, i as int).0,
                write_position == compact_upto(before, i as int).1,
            decreases slot_count - i,
        {
            match self.get_slot(i) {
                Some(slot) => {
                    let record_len: usize = slot.length as usize;
                    let old_start: usize = slot.offset as usize;
                    if record_len > 0 && old_start + record_len <= write_position {
                        let new_start: usize = write_position - record_len;
                        if new_start != old_start {
                            self.move_up(old_start, new_start, record_len);
                            self.set_slot(
                                i,
                                SlotEntry { offset: new_start as u16, length: slot.length },
                            );
                        }
                        write_position = new_start;
                    }
                },
                None => {},
            }
            i += 1;
        }
        proof {
            if well_formed(before) {
                lemma_compacted(before);
                laws::lemma_compaction(before, compacted(before));
            }
        }
        write_u16(&mut self.data, 8, write_position as u16);
    }

    /// The total length of the records, if none of them is empty and the
    /// total is no more than a page; `None` for any other batch.
    fn batch_len(records: &[&[u8]]) -> (total: Option<usize>)
        ensures
            total == batch_total(each_view(records@)),
    {
        let ghost views = each_view(records@);
        let n: usize = records.len();
        let mut total: usize = 0;
        let mut k: usize = 0;
        while k < n
            invariant
                k <= n,
                n == records.len(),
                views == each_view(records@),
                total <= 8192,
                total == total_len(views.take(k as int)),
                forall|j: int| 0 <= j < k ==> (#[trigger] views[j]).len() > 0,
            decreases n - k,
        {
            let len: usize = records[k].len();
            proof {
                lemma_total_len_take(views, k as int);
                lemma_total_len_take(views, k + 1);
                assert(views[k as int].len() == len);
            }
            if len == 0 || len > PAGE_SIZE - total {
                assert(!none_empty(views) || total_len(views) > 8192);
                return None;
            }
            total += len;
            k += 1;
        }
        assert(views.take(n as int) =~= views);
        assert(none_empty(views));
        Some(total)
    }

    /// Adds the records one after the other.
    fn add_records_partial(&mut self, records: &[&[u8]]) -> (slots: Vec<Option<usize>>)
        ensures
            slots@.len() == records@.len(),
            forall|k: int|
                0 <= k < records@.len() ==> #[trigger] slots@[k] == added_slot(
                    old(self)@,
                    each_view(records@),
                    k,
                ),
            final(self)@ == with_records(old(self)@, each_view(records@)),
    {
        let ghost before = self@;
        let ghost views = each_view(records@);
        let n: usize = records.len();
        let mut slots: Vec<Option<usize>> = Vec::with_capacity(n);
        let mut i: usize = 0;
        while i < n
            invariant
                i <= n,
                n == records.len(),
                views == each_view(records@),
                before == old(self)@,
                slots@.len() == i,
                self@ == with_records(before, views.take(i as int)),
                forall|k: int| 0 <= k < i ==> #[trigger] slots@[k] == added_slot(before, views, k),
            decreases n - i,
        {
            proof {
                assert(views.take(i + 1).drop_last() =~= views.take(i as int));
                assert(views.take(i + 1).last() == views[i as int]);
            }
            let slot = self.add_record(records[i]);
            slots.push(slot);
            i += 1;
        }
        assert(views.take(n as int) =~= views);
        slots
    }

    /// Adds the records and returns, for each, the slot it got, or `None`
    /// where it did not fit at its turn. The outcome is that of adding them
    /// one after the other with `add_record`. Where all of them fit, the
    /// header is written once, after the last record.
    pub fn add_records(&mut self, records: &[&[u8]]) -> (slots: Vec<Option<usize>>)
        ensures
            slots@.len() == records@.len(),
            forall|k: int|
                0 <= k < records@.len() ==> #[trigger] slots@[k] == added_slot(
                    old(self)@,
                    each_view(records@),
                    k,
                ),
            final(self)@ == with_records(old(self)@, each_view(records@)),
            forall|k: int|
                0 <= k < records@.len() && (#[trigger] slots@[k]) is Some ==> slots@[k] == Some(
                    (slot_count_of(old(self)@) + added_below(
                        old(self)@,
                        each_view(records@),
                        k,
                    )) as usize,
                ),
            all_fit(old(self)@, each_view(records@)) ==> forall|k: int|
                0 <= k < records@.len() ==> #[trigger] slots@[k] == Some(
                    (slot_count_of(old(self)@) + k) as usize,
                ),
            well_formed(old(self)@) ==> well_formed(final(self)@),
            well_formed(old(self)@) ==> forall|i: int|
                0 <= i < slot_count_of(old(self)@) ==> #[trigger] record_at(final(self)@, i)
                    == record_at(old(self)@, i),
    {
        proof {
            let views = each_view(records@);
            if well_formed(self@) {
                laws::lemma_add_records(self@, views);
            }
            assert forall|k: int|
                0 <= k < views.len() && (#[trigger] added_slot(self@, views, k)) is Some implies added_slot(
                self@,
                views,
                k,
            ) == Some((slot_count_of(self@) + added_below(self@, views, k)) as usize) by {
                laws::lemma_added_slots_consecutive(self@, views, k);
            }
            if all_fit(self@, views) {
                assert forall|k: int| 0 <= k < views.len() implies #[trigger] added_slot(
                    self@,
                    views,
                    k,
                ) == Some((slot_count_of(self@) + k) as usize) by {
                    laws::lemma_all_fit_slots(self@, views, k);
                }
            }
        }
        let n: usize = records.len();
        if n == 0 {
            return Vec::new();
        }
        let free: usize = self.free_space();
        let total: usize = match Page::batch_len(records) {
            Some(total) => total,
            None => {
                return self.add_records_partial(records);
            },
        };
        if n > PAGE_SIZE || free < total + 4 * n {
            return self.add_records_partial(records);
        }
        let ghost before = self@;
        let ghost views = each_view(records@);
        assert(all_fit(before, views));
        let first_slot: usize = self.slot_count() as usize;
        let heap_start: usize = self.free_space_end() as usize;
        let mut slots: Vec<Option<usize>> = Vec::with_capacity(n);
        let mut current_slot: usize = first_slot;
        let mut boundary: usize = heap_start;
        proof {
            assert(views.take(0) =~= Seq::<Seq<u8>>::empty());
        }
        let mut i: usize = 0;
        while i < n
            invariant
                i <= n,
                n == records.len(),
                views == each_view(records@),
                before == old(self)@,
                all_fit(before, views),
                first_slot == slot_count_of(before),
                heap_start == free_end_of(before),
                current_slot == first_slot + i,
                boundary == heap_start - total_len(views.take(i as int)),
                agree_but_bounds(self@, with_records(before, views.take(i as int))),
                slots@.len() == i,
                forall|k: int| 0 <= k < i ==> #[trigger] slots@[k] == added_slot(before, views, k),
            decreases n - i,
        {
            let ghost state = with_records(before, views.take(i as int));
            proof {
                lemma_all_fit_prefix(before, views, i as int);
                lemma_total_len_take(views, i as int);
                lemma_place_agrees(self@, state, views[i as int]);
                assert(views.take(i + 1).drop_last() =~= views.take(i as int));
                assert(views.take(i + 1).last() == views[i as int]);
            }
            let record: &[u8] = records[i];
            let record_len: usize = record.len();
            let new_start: usize = boundary - record_len;
            self.write_bytes(new_start, record);
            self.set_slot(
                current_slot,
                SlotEntry { offset: new_start as u16, length: record_len as u16 },
            );
            slots.push(Some(current_slot));
            current_slot += 1;
            boundary = new_start;
            i += 1;
        }
        proof {
            let last = n - 1;
            let state = with_records(before, views.take(last));
            lemma_all_fit_prefix(before, views, last);
            lemma_total_len_take(views, last);
            assert(views.take(n as int) =~= views);
            assert(views.drop_last() =~= views.take(last));
            lemma_bounds_close(self@, state, views[last]);
        }
        write_u16(&mut self.data, 6, (32 + 4 * current_slot) as u16);
        write_u16(&mut self.data, 8, boundary as u16);
        write_u16(&mut self.data, 10, current_slot as u16);
        slots
    }

    /// The slots that hold a record, each with its record, in slot order.
    pub fn iter_with_slots(&self) -> (pairs: Vec<(usize, &[u8])>)
        ensures
            pairs@.len() == live_slots(self@, slot_count_of(self@)).len(),
            forall|k: int|
                0 <= k < pairs@.len() ==> {
                    &&& (#[trigger] pairs@[k]).0 == live_slots(self@, slot_count_of(self@))[k]
                    &&& pairs@[k].1@ == record_bytes(self@, pairs@[k].0 as int)
                },
    {
        let n: usize = self.slot_count() as usize;
        let mut pairs: Vec<(usize, &[u8])> = Vec::new();
        let mut i: usize = 0;
        while i < n
            invariant
                i <= n,
                n == slot_count_of(self@),
                pairs@.len() == live_slots(self@, i as int).len(),
                forall|k: int|
                    0 <= k < pairs@.len() ==> {
                        &&& (#[trigger] pairs@[k]).0 == live_slots(self@, i as int)[k]
                        &&& pairs@[k].1@ == record_bytes(self@, pairs@[k].0 as int)
                    },
            decreases n - i,
        {
            match self.get_record(i) {
                Some(record) => {
                    pairs.push((i, record));
                },
                None => {},
            }
            i += 1;
        }
        pairs
    }

    /// The number of slots that hold a record.
    pub fn active_records(&self) -> (count: usize)
        ensures
            count == live_slots(self@, slot_count_of(self@)).len(),
    {
        let n: usize = self.slot_count() as usize;
        let mut count: usize = 0;
        let mut i: usize = 0;
        while i < n
            invariant
                i <= n,
                n == slot_count_of(self@),
                count <= i,
                count == live_slots(self@, i as int).len(),
            decreases n - i,
        {
            if self.get_record(i).is_some() {
                count += 1;
            }
            i += 1;
        }
        count
    }

    /// A cursor over the records of the page, in slot order, that starts at
    /// the first slot.
    pub fn iter(&self) -> (cursor: PageIterator<'_>)
        ensures
            cursor.page_bytes() == self@,
            cursor.position() == 0,
    {
        PageIterator { page: self, current_slot: 0 }
    }
}

/// A cursor over the records of a page, in slot order; it passes over
/// tombstones.
pub struct PageIterator<'a> {
    page: &'a Page,
    current_slot: usize,
}

impl<'a> PageIterator<'a> {
    /// The bytes of the page that the cursor walks.
    pub closed spec fn page_bytes(&self) -> Seq<u8> {
        self.page@
    }

    /// The slot that the cursor looks at next.
    pub closed spec fn position(&self) -> int {
        self.current_slot as int
    }

    /// The next record at or after the cursor, which then stands behind it;
    /// `None`, with the cursor at the end, where no record is left.
    pub fn next(&mut self) -> (record: Option<&'a [u8]>)
        ensures
            final(self).page_bytes() == old(self).page_bytes(),
            ({
                let b = old(self).page_bytes();
                let found = next_live(b, old(self).position());
                match record {
                    Some(bytes) => {
                        &&& found < slot_count_of(b)
                        &&& bytes@ == record_bytes(b, found)
                        &&& final(self).position() == found + 1
                    },
                    None => {
                        &&& found >= slot_count_of(b)
                        &&& final(self).position() >= slot_count_of(b)
                    },
                }
            }),
    {
        let page: &'a Page = self.page;
        let n: usize = page.slot_count() as usize;
        while self.current_slot < n
            invariant
                page == self.page,
                self.page_bytes() == old(self).page_bytes(),
                n == slot_count_of(page@),
                old(self).position() <= self.position(),
                next_live(page@, self.position()) == next_live(page@, old(self).position()),
            decreases n - self.current_slot,
        {
            let slot_index: usize = self.current_slot;
            self.current_slot += 1;
            match page.get_record(slot_index) {
                Some(record) => {
                    return Some(record);
                },
                None => {},
            }
        }
        None
    }

    /// Bounds on the number of records still to come: none is promised, and
    /// there are no more than slots left.
    pub fn size_hint(&self) -> (bounds: (usize, Option<usize>))
        ensures
            bounds.0 == 0,
            bounds.1 == Some(
                if self.position() <= slot_count_of(self.page_bytes()) {
                    (slot_count_of(self.page_bytes()) - self.position()) as usize
                } else {
                    0usize
                },
            ),
    {
        let n: usize = self.page.slot_count() as usize;
        let remaining: usize = if self.current_slot <= n {
            n - self.current_slot
        } else {
            0
        };
        (0, Some(remaining))
    }
}

} // verus!
