use deno_core::shared_queue::{SharedQueue, INDEX_RECORDS, MAX_RECORDS, RECOMMENDED_SIZE};

fn read_u32(b: &[u8], p: usize) -> u32 {
    u32::from_le_bytes([b[p], b[p + 1], b[p + 2], b[p + 3]])
}

#[test]
fn new_queue_is_empty_and_zeroed() {
    let q = SharedQueue::new(RECOMMENDED_SIZE);
    assert_eq!(q.size(), 0);
    assert_eq!(q.bytes().len(), 2 * 1024 * 1024);
    assert!(q.bytes().iter().all(|b| *b == 0));
}

#[test]
fn round_trip_in_order() {
    let mut q = SharedQueue::new(RECOMMENDED_SIZE);
    let records: Vec<(u32, Vec<u8>)> = vec![
        (1, vec![1, 2, 3, 4, 5, 6]),
        (2, vec![]),
        (3, vec![7, 8, 9, 10]),
        (7, vec![42]),
    ];
    for (id, bytes) in &records {
        assert!(q.push(*id, bytes));
    }
    assert_eq!(q.size(), 4);
    for (id, bytes) in &records {
        let (got_id, got) = q.shift().unwrap();
        assert_eq!(got_id, *id);
        assert_eq!(&got, bytes);
    }
    assert_eq!(q.size(), 0);
    assert!(q.shift().is_none());
}

#[test]
fn interleaved_push_and_shift() {
    let mut q = SharedQueue::new(RECOMMENDED_SIZE);
    assert!(q.push(1, &[1]));
    assert!(q.push(2, &[2, 2]));
    assert_eq!(q.shift(), Some((1, vec![1])));
    assert!(q.push(3, &[3, 3, 3]));
    assert_eq!(q.size(), 2);
    assert_eq!(q.shift(), Some((2, vec![2, 2])));
    assert_eq!(q.shift(), Some((3, vec![3, 3, 3])));
    assert_eq!(q.shift(), None);
}

#[test]
fn layout_of_header_and_records() {
    let mut q = SharedQueue::new(RECOMMENDED_SIZE);
    assert!(q.push(5, &[9, 8, 7]));
    assert!(q.push(6, &[1, 2, 3, 4, 5]));
    let b = q.bytes();
    assert_eq!(read_u32(b, 0), 2);
    assert_eq!(read_u32(b, 4), 0);
    // 4 + 4 bytes, then 4 + 8 bytes.
    assert_eq!(read_u32(b, 8), 20);
    assert_eq!(read_u32(b, 12), 8);
    assert_eq!(read_u32(b, 16), 20);
    assert_eq!(read_u32(b, INDEX_RECORDS), 5);
    assert_eq!(&b[INDEX_RECORDS + 4..INDEX_RECORDS + 8], &[9, 8, 7, 0]);
    assert_eq!(read_u32(b, INDEX_RECORDS + 8), 6);
    assert_eq!(&b[INDEX_RECORDS + 12..INDEX_RECORDS + 20], &[1, 2, 3, 4, 5, 0, 0, 0]);
}

#[test]
fn every_record_is_aligned() {
    let mut q = SharedQueue::new(RECOMMENDED_SIZE);
    for n in 0..9usize {
        let bytes: Vec<u8> = (0..n as u8).collect();
        assert!(q.push(n as u32, &bytes));
    }
    let b = q.bytes();
    let mut begin = 0u32;
    for i in 0..9usize {
        let end = read_u32(b, 12 + 4 * i);
        assert_eq!(end % 4, 0);
        assert_eq!(end - begin, 4 + ((i as u32 + 3) / 4) * 4);
        begin = end;
    }
}

#[test]
fn push_fails_when_full_and_keeps_records() {
    let mut q = SharedQueue::new(INDEX_RECORDS + 16);
    assert!(q.push(1, &[1, 1, 1]));
    assert!(q.push(2, &[2]));
    let before = q.bytes().clone();
    assert!(!q.push(3, &[3]));
    assert_eq!(q.bytes(), &before);
    assert_eq!(q.shift(), Some((1, vec![1, 1, 1])));
    assert_eq!(q.shift(), Some((2, vec![2])));
    assert_eq!(q.shift(), None);
}

#[test]
fn push_fails_after_max_records() {
    let mut q = SharedQueue::new(RECOMMENDED_SIZE);
    for i in 0..MAX_RECORDS {
        assert!(q.push(i as u32, &[i as u8]));
    }
    assert!(!q.push(1000, &[0]));
    assert_eq!(q.size(), MAX_RECORDS);
    for i in 0..MAX_RECORDS {
        assert_eq!(q.shift(), Some((i as u32, vec![i as u8])));
    }
    assert_eq!(q.size(), 0);
    assert!(q.push(1000, &[0]));
}

#[test]
fn reset_empties_the_queue() {
    let mut q = SharedQueue::new(RECOMMENDED_SIZE);
    assert!(q.push(1, &[1]));
    assert!(q.push(2, &[2]));
    q.reset();
    assert_eq!(q.size(), 0);
    assert_eq!(q.shift(), None);
    assert_eq!(read_u32(q.bytes(), 8), 0);
}

#[test]
fn draining_resets_head() {
    let mut q = SharedQueue::new(RECOMMENDED_SIZE);
    assert!(q.push(1, &[1, 2]));
    assert_eq!(q.shift(), Some((1, vec![1, 2])));
    let b = q.bytes();
    assert_eq!(read_u32(b, 0), 0);
    assert_eq!(read_u32(b, 4), 0);
    assert_eq!(read_u32(b, 8), 0);
}
