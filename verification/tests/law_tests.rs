use jdb_storage::checksum::checksum_without_field;
use jdb_storage::{DataFault, Page, PageHeader, PageType, StorageError, PAGE_SIZE};

fn with_header(page: &mut Page, change: impl FnOnce(&mut PageHeader)) {
    let mut header = page.header().unwrap();
    change(&mut header);
    page.set_header(header);
}

fn record(seed: usize, len: usize) -> Vec<u8> {
    (0..len).map(|k| (seed * 31 + k * 7 + 1) as u8).collect()
}

fn crc_in_two_parts(head: &[u8], tail: &[u8]) -> u32 {
    let mut hasher = crc32fast::Hasher::new();
    hasher.update(head);
    hasher.update(tail);
    hasher.finalize()
}

#[test]
fn records_survive_adds_and_deletes() {
    let mut page = Page::new(7, PageType::Data);
    let mut expected: Vec<Option<Vec<u8>>> = Vec::new();
    for round in 0..40usize {
        let bytes = record(round, 1 + (round * 13) % 90);
        let slot = page.add_record(&bytes).unwrap();
        assert_eq!(slot, expected.len());
        expected.push(Some(bytes));
        if round % 3 == 2 {
            let victim = (round * 5) % expected.len();
            assert!(page.delete_record(victim));
            expected[victim] = None;
        }
        for (i, want) in expected.iter().enumerate() {
            assert_eq!(page.get_record(i).map(|r| r.to_vec()), *want);
        }
    }
    assert_eq!(page.slot_count() as usize, expected.len());
    assert!(!page.delete_record(expected.len()));
}

#[test]
fn page_round_trips_through_bytes() {
    let mut page = Page::new(9, PageType::Index);
    for i in 0..20 {
        page.add_record(&record(i, 10 + i)).unwrap();
    }
    page.delete_record(4);
    page.update_checksum();
    let parsed = Page::from_bytes(page.as_bytes()).unwrap();
    assert_eq!(parsed.as_bytes()[..], page.as_bytes()[..]);
    assert_eq!(parsed.header(), page.header());
    for i in 0..20 {
        assert_eq!(parsed.get_record(i), page.get_record(i));
    }
}

#[test]
fn checksum_holds_after_update_and_breaks_on_change() {
    let mut page = Page::new(3, PageType::Data);
    page.add_record(b"some bytes to protect").unwrap();
    page.update_checksum();
    assert!(page.verify_checksum());
    for at in [0usize, 4, 10, 23, 28, 31, 32, 35, 4000, 8170, 8191] {
        page.as_bytes_mut()[at] ^= 0x01;
        assert!(!page.verify_checksum(), "a change at {} went unseen", at);
        page.as_bytes_mut()[at] ^= 0x01;
        assert!(page.verify_checksum());
    }
}

#[test]
fn checksum_is_crc32_of_the_page_without_its_field() {
    let mut page = Page::new(11, PageType::Overflow);
    page.add_record(b"abc").unwrap();
    page.update_checksum();
    let bytes = page.as_bytes();
    let expected = crc_in_two_parts(&bytes[0..24], &bytes[28..]);
    assert_eq!(page.checksum(), expected);
    assert_eq!(page.header().unwrap().checksum, expected);
    assert_eq!(&bytes[24..28], &expected.to_le_bytes());
}

#[test]
fn checksum_without_field_matches_known_values() {
    // CRC-32 of "123456789" is 0xCBF43926.
    assert_eq!(checksum_without_field(b"12345\xAA\xBB\xCC\xDD6789", 5), 0xCBF4_3926);
    assert_eq!(checksum_without_field(b"\x01\x02\x03\x04123456789", 0), 0xCBF4_3926);
    assert_eq!(checksum_without_field(b"123456789\x00\x00\x00\x00", 9), 0xCBF4_3926);
    // CRC-32 of nothing is 0.
    assert_eq!(checksum_without_field(b"\x09\x09\x09\x09", 0), 0);
    // CRC-32 of "a" is 0xE8B7BE43.
    assert_eq!(checksum_without_field(b"a\x00\x00\x00\x00", 1), 0xE8B7_BE43);
}

#[test]
fn zero_checksum_counts_as_not_computed() {
    let mut page = Page::new(1, PageType::Data);
    page.add_record(b"never sealed").unwrap();
    assert_eq!(page.checksum(), 0);
    assert!(page.verify_checksum());
}

#[test]
fn compaction_keeps_records_and_is_idempotent() {
    let mut page = Page::new(5, PageType::Data);
    let mut expected: Vec<Option<Vec<u8>>> = Vec::new();
    for i in 0..30 {
        let bytes = record(i, 5 + (i * 11) % 60);
        page.add_record(&bytes).unwrap();
        expected.push(Some(bytes));
    }
    for victim in [0usize, 3, 4, 9, 17, 18, 19, 29] {
        assert!(page.delete_record(victim));
        expected[victim] = None;
    }
    assert!(page.should_compact());
    let free_before = page.free_space();
    let live: usize = expected.iter().flatten().map(|r| r.len()).sum();

    page.compact();

    assert_eq!(page.slot_count(), 30);
    assert_eq!(page.free_space_end() as usize, PAGE_SIZE - live);
    assert!(page.free_space() > free_before);
    let mut at = PAGE_SIZE;
    for (i, want) in expected.iter().enumerate() {
        assert_eq!(page.get_record(i).map(|r| r.to_vec()), *want);
        let slot = page.get_slot(i).unwrap();
        match want {
            Some(bytes) => {
                at -= bytes.len();
                assert_eq!(slot.offset as usize, at);
                assert_eq!(slot.length as usize, bytes.len());
            }
            None => assert_eq!(slot.length, 0),
        }
    }

    let once = *page.as_bytes();
    page.compact();
    assert_eq!(*page.as_bytes(), once);
}

#[test]
fn used_and_free_add_up_to_the_page() {
    let mut page = Page::new(2, PageType::Data);
    assert_eq!(page.used_space(), 32);
    assert_eq!(page.used_space() + page.free_space(), PAGE_SIZE);
    for i in 0..50 {
        page.add_record(&record(i, 1 + i)).unwrap();
        assert_eq!(page.used_space() + page.free_space(), PAGE_SIZE);
    }
    let records: usize = (0..50).map(|i| 1 + i).sum();
    assert_eq!(page.used_space(), 32 + 50 * 4 + records);
    page.delete_record(1);
    page.delete_record(2);
    page.delete_record(3);
    page.delete_record(4);
    page.delete_record(5);
    page.delete_record(6);
    page.delete_record(7);
    page.delete_record(8);
    page.delete_record(9);
    page.delete_record(10);
    page.delete_record(11);
    page.compact();
    assert_eq!(page.used_space() + page.free_space(), PAGE_SIZE);
    let gone: usize = (1..=11).map(|i| 1 + i).sum();
    assert_eq!(page.used_space(), 32 + 50 * 4 + records - gone);
}

#[test]
fn batch_hands_out_consecutive_slots() {
    let mut page = Page::new(1, PageType::Data);
    page.add_record(b"zero").unwrap();
    page.add_record(b"one").unwrap();
    let owned: Vec<Vec<u8>> = (0..25).map(|i| record(i, 3 + i)).collect();
    let refs: Vec<&[u8]> = owned.iter().map(|r| r.as_slice()).collect();
    let slots = page.add_records(&refs);
    let want: Vec<Option<usize>> = (0..25).map(|i| Some(2 + i)).collect();
    assert_eq!(slots, want);
    assert_eq!(page.slot_count(), 27);
    for (i, r) in owned.iter().enumerate() {
        assert_eq!(page.get_record(2 + i).unwrap(), r.as_slice());
    }
}

#[test]
fn batch_equals_adding_one_by_one() {
    let owned: Vec<Vec<u8>> = vec![
        record(1, 3000),
        record(2, 0),
        record(3, 3000),
        record(4, 3000),
        record(5, 100),
        record(6, 2000),
        record(7, 1),
    ];
    let refs: Vec<&[u8]> = owned.iter().map(|r| r.as_slice()).collect();

    let mut batched = Page::new(8, PageType::Data);
    let slots = batched.add_records(&refs);

    let mut single = Page::new(8, PageType::Data);
    let one_by_one: Vec<Option<usize>> = refs.iter().map(|r| single.add_record(r)).collect();

    assert_eq!(slots, one_by_one);
    assert_eq!(slots, vec![Some(0), None, Some(1), None, Some(2), Some(3), Some(4)]);
    assert_eq!(batched.as_bytes()[..], single.as_bytes()[..]);

    let fitting: Vec<&[u8]> = vec![b"a", b"bb", b"ccc"];
    let mut batched = Page::new(8, PageType::Data);
    let mut single = Page::new(8, PageType::Data);
    assert_eq!(batched.add_records(&fitting), vec![Some(0), Some(1), Some(2)]);
    for r in &fitting {
        single.add_record(r);
    }
    assert_eq!(batched.as_bytes()[..], single.as_bytes()[..]);
    assert!(batched.add_records(&[]).is_empty());
}

#[test]
fn empty_record_is_refused() {
    let mut page = Page::new(1, PageType::Data);
    let before = *page.as_bytes();
    assert_eq!(page.add_record(&[]), None);
    assert_eq!(*page.as_bytes(), before);
    assert_eq!(page.add_records(&[&[][..]]), vec![None]);
    assert_eq!(*page.as_bytes(), before);
}

#[test]
fn new_page_has_the_documented_bytes() {
    let page = Page::new(0x0403_0201, PageType::Overflow);
    let bytes = page.as_bytes();
    let mut want = [0u8; 32];
    want[0..4].copy_from_slice(&[0x01, 0x02, 0x03, 0x04]);
    want[4] = 2;
    want[6..8].copy_from_slice(&32u16.to_le_bytes());
    want[8..10].copy_from_slice(&8192u16.to_le_bytes());
    assert_eq!(&bytes[0..32], &want);
    assert!(bytes[32..].iter().all(|b| *b == 0));
    assert_eq!(Page::new(1, PageType::Data).as_bytes()[4], 0);
    assert_eq!(Page::new(1, PageType::Index).as_bytes()[4], 1);
    assert_eq!(Page::new(1, PageType::Free).as_bytes()[4], 3);
}

#[test]
fn add_record_writes_the_documented_bytes() {
    let mut page = Page::new(1, PageType::Data);
    assert_eq!(page.add_record(b"Hello"), Some(0));
    assert_eq!(page.add_record(b"World!"), Some(1));
    let bytes = page.as_bytes();
    assert_eq!(&bytes[8187..8192], b"Hello");
    assert_eq!(&bytes[8181..8187], b"World!");
    assert_eq!(&bytes[32..36], &[0xFB, 0x1F, 5, 0]);
    assert_eq!(&bytes[36..40], &[0xF5, 0x1F, 6, 0]);
    let header = page.header().unwrap();
    assert_eq!(header.free_space_start, 40);
    assert_eq!(header.free_space_end, 8181);
    assert_eq!(header.slot_count, 2);
    assert_eq!(page.free_space(), 8181 - 40);
    assert!(page.has_space_for(8181 - 40 - 4));
    assert!(!page.has_space_for(8181 - 40 - 3));
    assert!(!page.has_space_for(usize::MAX));
}

#[test]
fn header_round_trips_and_zeroes_padding() {
    let mut page = Page::new(1, PageType::Data);
    for b in page.as_bytes_mut()[0..32].iter_mut() {
        *b = 0xEE;
    }
    assert_eq!(page.header(), None);
    assert_eq!(page.page_type(), None);
    let header = PageHeader {
        page_id: 0xDEAD_BEEF,
        page_type: PageType::Index,
        free_space_start: 0x1234,
        free_space_end: 0x1FFF,
        slot_count: 0x0102,
        lsn: 0x0807_0605_0403_0201,
        checksum: 0xA1B2_C3D4,
    };
    page.set_header(header);
    assert_eq!(page.header(), Some(header));
    assert_eq!(page.lsn(), 0x0807_0605_0403_0201);
    let want: [u8; 32] = [
        0xEF, 0xBE, 0xAD, 0xDE, 1, 0, 0x34, 0x12, 0xFF, 0x1F, 0x02, 0x01, 0, 0, 0, 0, 1, 2, 3, 4,
        5, 6, 7, 8, 0xD4, 0xC3, 0xB2, 0xA1, 0, 0, 0, 0,
    ];
    assert_eq!(&page.as_bytes()[0..32], &want);
}

#[test]
fn from_bytes_names_the_first_fault() {
    let good = *Page::new(1, PageType::Data).as_bytes();
    assert!(Page::from_bytes(&good).is_ok());

    let fault = |change: &dyn Fn(&mut [u8; PAGE_SIZE])| {
        let mut bytes = good;
        change(&mut bytes);
        Page::from_bytes(&bytes).err()
    };
    assert_eq!(
        fault(&|b| b[0..4].copy_from_slice(&[0xFF; 4])),
        Some(StorageError::InvalidData(DataFault::PageId))
    );
    assert_eq!(
        fault(&|b| b[8..10].copy_from_slice(&8193u16.to_le_bytes())),
        Some(StorageError::InvalidData(DataFault::FreeSpaceEnd))
    );
    assert_eq!(
        fault(&|b| b[10..12].copy_from_slice(&2041u16.to_le_bytes())),
        Some(StorageError::InvalidData(DataFault::SlotDirectorySize))
    );
    assert_eq!(
        fault(&|b| {
            b[10..12].copy_from_slice(&10u16.to_le_bytes());
            b[8..10].copy_from_slice(&71u16.to_le_bytes());
        }),
        Some(StorageError::InvalidData(DataFault::SlotDirectoryOverlap))
    );
    assert_eq!(fault(&|b| b[4] = 4), Some(StorageError::InvalidData(DataFault::PageType)));
    assert_eq!(
        fault(&|b| {
            b[0..4].copy_from_slice(&[0xFF; 4]);
            b[4] = 9;
        }),
        Some(StorageError::InvalidData(DataFault::PageId))
    );
    // The boundary cases pass: a directory that ends where the heap starts,
    // and a full directory.
    assert_eq!(
        fault(&|b| {
            b[10..12].copy_from_slice(&10u16.to_le_bytes());
            b[8..10].copy_from_slice(&72u16.to_le_bytes());
        }),
        None
    );
    assert_eq!(fault(&|b| b[10..12].copy_from_slice(&2040u16.to_le_bytes())), None);
    assert_eq!(DataFault::PageId.message(), "Invalid page ID");
    assert_eq!(DataFault::PageType.message(), "Invalid page type");
}

#[test]
fn slot_that_leaves_the_page_is_passed_over() {
    let mut page = Page::new(1, PageType::Data);
    for i in 0..5 {
        page.add_record(&record(i, 20)).unwrap();
    }
    page.delete_record(0);
    page.delete_record(1);
    // Slot 2 is made to reach beyond the page: offset 8190, length 20.
    page.as_bytes_mut()[32 + 2 * 4..32 + 2 * 4 + 2].copy_from_slice(&8190u16.to_le_bytes());
    assert_eq!(page.get_slot(2).unwrap().offset, 8190);
    assert_eq!(page.get_slot(2).unwrap().length, 20);
    assert_eq!(page.get_record(2), None);
    assert!(page.is_well_formed());
    assert_eq!(page.active_records(), 2);
    assert_eq!(page.iter_with_slots().len(), 2);
    assert!(page.should_compact());
    page.compact();
    assert_eq!(page.get_record(2), None);
    assert_eq!(page.get_slot(2).unwrap().offset, 8190);
    assert_eq!(page.get_record(3).unwrap(), record(3, 20).as_slice());
    assert_eq!(page.get_record(4).unwrap(), record(4, 20).as_slice());
    assert_eq!(page.free_space_end(), 8192 - 40);
}

#[test]
fn delete_records_counts_only_records_it_removed() {
    let mut page = Page::new(1, PageType::Data);
    for i in 0..6 {
        page.add_record(&record(i, 4)).unwrap();
    }
    assert!(page.delete_record(2));
    assert!(page.delete_record(2));
    assert_eq!(page.delete_records(&[2, 0, 0, 99, 5, 6, usize::MAX]), 2);
    assert_eq!(page.deleted_count(), 3);
    assert_eq!(page.delete_records(&[]), 0);
    assert!(page.get_record(0).is_none());
    assert!(page.get_record(5).is_none());
    assert_eq!(page.get_record(1).unwrap(), record(1, 4).as_slice());
    assert_eq!(page.active_records(), 3);
}

#[test]
fn should_compact_follows_its_formula() {
    let build = |slots: usize, deleted: usize| {
        let mut page = Page::new(1, PageType::Data);
        for i in 0..slots {
            page.add_record(&record(i, 2)).unwrap();
        }
        for i in 0..deleted {
            page.delete_record(i);
        }
        page.should_compact()
    };
    assert!(!build(0, 0));
    assert!(!build(1, 1));
    assert!(build(2, 2));
    assert!(!build(5, 1));
    assert!(build(5, 2));
    assert!(build(9, 2));
    assert!(!build(10, 2));
    assert!(build(10, 3));
    assert!(!build(100, 20));
    assert!(build(100, 21));
}

#[test]
fn corrupt_headers_leave_no_room() {
    let mut page = Page::new(1, PageType::Data);
    with_header(&mut page, |h| h.free_space_end = 9000);
    assert_eq!(page.free_space(), 0);
    assert!(!page.has_space_for(0));
    assert_eq!(page.add_record(b"x"), None);
    with_header(&mut page, |h| {
        h.free_space_end = 100;
        h.slot_count = 18;
    });
    assert_eq!(page.free_space(), 0);
    with_header(&mut page, |h| h.slot_count = 17);
    assert_eq!(page.free_space(), 0);
    with_header(&mut page, |h| h.slot_count = 16);
    assert_eq!(page.free_space(), 4);
    assert_eq!(page.add_record(b"x"), None);
    with_header(&mut page, |h| h.slot_count = 15);
    assert_eq!(page.free_space(), 8);
    assert_eq!(page.add_record(b"abcde"), None);
    assert_eq!(page.add_record(b"abcd"), Some(15));
    assert_eq!(page.free_space(), 0);
}

#[test]
fn page_fills_to_the_last_byte() {
    let mut page = Page::new(1, PageType::Data);
    let big = vec![7u8; 8192 - 32 - 4];
    assert_eq!(page.add_record(&big), Some(0));
    assert_eq!(page.free_space(), 0);
    assert_eq!(page.used_space(), PAGE_SIZE);
    assert_eq!(page.get_record(0).unwrap(), big.as_slice());
    assert_eq!(page.add_record(b"x"), None);
    let mut page = Page::new(1, PageType::Data);
    assert_eq!(page.add_record(&vec![7u8; 8192 - 32 - 3]), None);
}

#[test]
fn well_formedness_is_checked() {
    let mut page = Page::new(1, PageType::Data);
    assert!(page.is_well_formed());
    for i in 0..12 {
        page.add_record(&record(i, 9)).unwrap();
    }
    page.delete_records(&[0, 5, 6, 11]);
    assert!(page.is_well_formed());
    page.compact();
    assert!(page.is_well_formed());
    assert!(!Page::new(u32::MAX, PageType::Data).is_well_formed());

    // Two records in rising order of offset: the parser takes the buffer,
    // but it is not well-formed, and compaction does not keep its records.
    let mut bytes = *Page::new(1, PageType::Data).as_bytes();
    bytes[10..12].copy_from_slice(&3u16.to_le_bytes());
    bytes[8..10].copy_from_slice(&100u16.to_le_bytes());
    bytes[32..36].copy_from_slice(&[100, 0, 10, 0]);
    bytes[36..40].copy_from_slice(&[0xF6, 0x1F, 10, 0]);
    for k in 0..10 {
        bytes[100 + k] = b'a';
        bytes[8182 + k] = b'b';
    }
    let mut parsed = Page::from_bytes(&bytes).unwrap();
    assert!(!parsed.is_well_formed());
    assert_eq!(parsed.get_record(0).unwrap(), b"aaaaaaaaaa");
    assert_eq!(parsed.get_record(1).unwrap(), b"bbbbbbbbbb");
    assert_eq!(parsed.get_record(2), None);
    assert!(!parsed.should_compact());
    parsed.as_bytes_mut()[10..12].copy_from_slice(&5u16.to_le_bytes());
    assert!(parsed.should_compact());
    parsed.compact();
    assert_eq!(parsed.get_record(0).unwrap(), b"aaaaaaaaaa");
    assert_eq!(parsed.get_record(1).unwrap(), b"aaaaaaaaaa");

    // A record below the start of the record heap, and one that overlaps
    // its neighbour.
    let mut page = Page::new(1, PageType::Data);
    page.add_record(b"0123456789").unwrap();
    page.add_record(b"abcdefghij").unwrap();
    assert!(page.is_well_formed());
    let good = *page.as_bytes();
    page.as_bytes_mut()[36..38].copy_from_slice(&8171u16.to_le_bytes());
    assert!(!page.is_well_formed());
    page.as_bytes_mut().copy_from_slice(&good);
    page.as_bytes_mut()[36..38].copy_from_slice(&8173u16.to_le_bytes());
    assert!(!page.is_well_formed());
    page.as_bytes_mut().copy_from_slice(&good);
    // A slot that reaches beyond the page holds no record and is tolerated.
    page.as_bytes_mut()[32..34].copy_from_slice(&8183u16.to_le_bytes());
    assert_eq!(page.get_record(0), None);
    assert!(page.is_well_formed());
    page.as_bytes_mut().copy_from_slice(&good);
    assert!(page.is_well_formed());
}

#[test]
fn checksum_is_stored_and_compared() {
    let mut page = Page::new(1, PageType::Data);
    page.add_record(b"abc").unwrap();
    assert!(page.checksum_matches(0));
    assert!(page.checksum_matches(0x1234_5678));
    let before = *page.as_bytes();
    page.set_checksum(0xA1B2_C3D4);
    assert_eq!(&page.as_bytes()[24..28], &[0xD4, 0xC3, 0xB2, 0xA1]);
    assert_eq!(page.as_bytes()[..24], before[..24]);
    assert_eq!(page.as_bytes()[28..], before[28..]);
    assert_eq!(page.checksum(), 0xA1B2_C3D4);
    assert!(page.checksum_matches(0xA1B2_C3D4));
    assert!(!page.checksum_matches(0xA1B2_C3D5));
    assert!(!page.checksum_matches(0));
    assert!(!page.verify_checksum());
    page.set_checksum(0);
    assert_eq!(*page.as_bytes(), before);
    assert!(page.verify_checksum());
}
