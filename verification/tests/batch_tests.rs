use jdb_storage::{Page, PageType};
use std::time::Instant;

#[test]
fn test_batch_add_records() {
    let mut page = Page::new(1, PageType::Data);

    let records = vec![
        b"First".as_slice(),
        b"Second".as_slice(),
        b"Third".as_slice(),
        b"Fourth".as_slice(),
    ];

    let results = page.add_records(&records);

    assert_eq!(results.len(), 4);
    assert!(results.iter().all(|r| r.is_some()));

    assert_eq!(page.get_record(0).unwrap(), b"First");
    assert_eq!(page.get_record(1).unwrap(), b"Second");
    assert_eq!(page.get_record(2).unwrap(), b"Third");
    assert_eq!(page.get_record(3).unwrap(), b"Fourth");

    assert_eq!(page.header().unwrap().slot_count, 4);
}

#[test]
fn test_batch_add_with_limited_space() {
    let mut page = Page::new(1, PageType::Data);

    let big_record = vec![b'X'; 4000];
    page.add_record(&big_record).unwrap();

    let vec_too_big = vec![b'Y'; 5000];

    let records = vec![
        b"Small1".as_slice(),
        b"Small2".as_slice(),
        vec_too_big.as_slice(),
        b"Small3".as_slice(),
    ];

    let results = page.add_records(&records);

    assert_eq!(results.len(), 4);
    assert!(results[0].is_some());
    assert!(results[1].is_some());
    assert!(results[2].is_none());
    assert!(results[3].is_some());
}

#[test]
fn test_batch_delete_records() {
    let mut page = Page::new(1, PageType::Data);

    let records = vec![
        b"A".as_slice(),
        b"B".as_slice(),
        b"C".as_slice(),
        b"D".as_slice(),
        b"E".as_slice(),
    ];
    page.add_records(&records);

    let to_delete = vec![1, 3];
    let deleted = page.delete_records(&to_delete);

    assert_eq!(deleted, 2);
    assert!(page.get_record(1).is_none());
    assert!(page.get_record(3).is_none());
    assert_eq!(page.get_record(0).unwrap(), b"A");
    assert_eq!(page.get_record(2).unwrap(), b"C");
    assert_eq!(page.get_record(4).unwrap(), b"E");
}

#[test]
fn test_batch_performance() {
    let owned_records: Vec<Vec<u8>> = (0..100)
        .map(|i| format!("Record{}", i).into_bytes())
        .collect();

    let records: Vec<&[u8]> = owned_records.iter().map(|v| v.as_slice()).collect();

    let mut page1 = Page::new(1, PageType::Data);
    let start = Instant::now();
    for record in &records {
        page1.add_record(record);
    }
    let individual_time = start.elapsed();

    let mut page2 = Page::new(2, PageType::Data);
    let start = Instant::now();
    page2.add_records(&records);
    let batch_time = start.elapsed();

    println!("Individual: {:?}, Batch: {:?}", individual_time, batch_time);

    for i in 0..100 {
        assert_eq!(page1.get_record(i), page2.get_record(i));
    }
}
