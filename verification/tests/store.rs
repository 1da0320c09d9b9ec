use event_store::filedb::{IterStep, StoreIterator, DB};
use std::path::PathBuf;

/// Runs one `next` of the iterator against an in-memory copy of the file.
fn next_step(file: &[u8], it: &mut StoreIterator) -> IterStep {
    let mut step = it.start_next();
    loop {
        match step {
            IterStep::ReadAt { pos, len } => {
                let bytes = file[pos as usize..(pos + len) as usize].to_vec();
                step = it.feed(bytes);
            }
            other => return other,
        }
    }
}

fn put_all(payloads: &[&[u8]]) -> Vec<u8> {
    let mut file = Vec::new();
    for p in payloads {
        file.extend_from_slice(&DB::frame_payload(p));
    }
    file
}

fn item(step: IterStep) -> Vec<u8> {
    match step {
        IterStep::Item(p) => p,
        _ => panic!("expected a payload"),
    }
}

#[test]
fn test_event_store_write() {
    let result = DB::frame_payload(b"test record");
    let mut expected = vec![0, 0, 0, 0, 0, 0, 0, 11];
    expected.extend_from_slice(b"test record");
    expected.extend_from_slice(&[0, 0, 0, 0, 0, 0, 0, 11]);
    assert_eq!(result, expected);
}

#[test]
fn test_event_store_read() {
    let file = put_all(&[b"test record"]);
    let mut iterator = DB::iterator_over(file.len() as u64);

    let item_step = next_step(&file, &mut iterator);

    assert!(matches!(item_step, IterStep::Item(_)));
    let value = item(item_step);
    assert_eq!(b"test record".to_vec(), value);
}

#[test]
fn test_event_store_empty() {
    let file: Vec<u8> = Vec::new();
    let mut iterator = DB::iterator_over(file.len() as u64);

    let item_step = next_step(&file, &mut iterator);

    assert!(matches!(item_step, IterStep::End));
}

#[test]
fn payloads_come_back_newest_first_then_end() {
    let file = put_all(&[b"first", b"", b"third one"]);
    let mut it = StoreIterator::new(file.len() as u64);
    assert_eq!(item(next_step(&file, &mut it)), b"third one".to_vec());
    assert_eq!(item(next_step(&file, &mut it)), Vec::<u8>::new());
    assert_eq!(item(next_step(&file, &mut it)), b"first".to_vec());
    assert!(matches!(next_step(&file, &mut it), IterStep::End));
    assert!(matches!(next_step(&file, &mut it), IterStep::End));
    assert_eq!(it.offset(), 0);
}

#[test]
fn reads_ask_for_the_trailing_length_then_the_payload() {
    let file = put_all(&[b"abc"]);
    let mut it = StoreIterator::new(file.len() as u64);
    assert_eq!(it.pending_read_len(), None);
    match it.start_next() {
        IterStep::ReadAt { pos, len } => assert_eq!((pos, len), (11, 8)),
        _ => panic!("expected a read"),
    }
    assert_eq!(it.pending_read_len(), Some(8));
    match it.feed(file[11..19].to_vec()) {
        IterStep::ReadAt { pos, len } => assert_eq!((pos, len), (8, 3)),
        _ => panic!("expected a read"),
    }
    assert_eq!(it.pending_read_len(), Some(3));
    assert_eq!(item(it.feed(b"abc".to_vec())), b"abc".to_vec());
    assert_eq!(it.offset(), 0);
}

#[test]
fn a_file_shorter_than_a_length_is_corrupted() {
    let file = vec![1u8, 2, 3, 4, 5];
    let mut it = StoreIterator::new(5);
    match next_step(&file, &mut it) {
        IterStep::Corrupted { offset, shift } => assert_eq!((offset, shift), (5, 8)),
        _ => panic!("expected corruption"),
    }
    assert!(matches!(it.start_next(), IterStep::Corrupted { .. }));
}

#[test]
fn a_length_past_the_start_is_corrupted() {
    let file = vec![0u8, 0, 0, 0, 0, 0, 0, 200];
    let mut it = StoreIterator::new(8);
    match next_step(&file, &mut it) {
        IterStep::Corrupted { offset, shift } => assert_eq!((offset, shift), (0, 200)),
        _ => panic!("expected corruption"),
    }
}

#[test]
fn a_missing_leading_length_is_corrupted() {
    let mut file = b"xy".to_vec();
    file.extend_from_slice(&[0, 0, 0, 0, 0, 0, 0, 2]);
    let mut it = StoreIterator::new(file.len() as u64);
    match next_step(&file, &mut it) {
        IterStep::Corrupted { offset, shift } => assert_eq!((offset, shift), (0, 8)),
        _ => panic!("expected corruption"),
    }
}

#[test]
fn the_store_keeps_its_path() {
    let db = DB::with_path(PathBuf::from("some/store-file"));
    assert_eq!(db.path(), &PathBuf::from("some/store-file"));
}
