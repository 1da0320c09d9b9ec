use event_store::custom_db::{FileDB, MakeRecord, Record, RecordStep};

fn next_step(file: &[u8], db: &mut FileDB) -> RecordStep {
    let mut step = db.start_next();
    loop {
        match step {
            RecordStep::ReadAt { pos, len } => {
                let bytes = file[pos as usize..(pos + len) as usize].to_vec();
                step = db.feed(bytes);
            }
            other => return other,
        }
    }
}

fn as_u32(r: &Record) -> u32 {
    match r {
        Record::U32(n) => *n,
        Record::STRING(_) => panic!("expected a number"),
    }
}

fn as_text(r: &Record) -> String {
    match r {
        Record::STRING(s) => s.clone(),
        Record::U32(_) => panic!("expected a string"),
    }
}

fn yielded(step: RecordStep) -> Record {
    match step {
        RecordStep::Yield(r) => r,
        _ => panic!("expected a record"),
    }
}

#[test]
fn a_number_record_frame() {
    let r = Record::from(0x0102_0304u32);
    assert_eq!(r.get_type_id(), 1);
    assert_eq!(r.val_to_bytes(), vec![1, 2, 3, 4]);
    assert_eq!(
        r.bytes_for_db(),
        vec![1, 0, 0, 0, 0, 0, 0, 0, 4, 1, 2, 3, 4, 0, 0, 0, 0, 0, 0, 0, 4]
    );
}

#[test]
fn a_string_record_frame_is_utf8() {
    let r = Record::from("hé".to_string());
    assert_eq!(r.get_type_id(), 2);
    assert_eq!(r.val_to_bytes(), vec![0x68, 0xc3, 0xa9]);
    assert_eq!(
        r.bytes_for_db(),
        vec![2, 0, 0, 0, 0, 0, 0, 0, 3, 0x68, 0xc3, 0xa9, 0, 0, 0, 0, 0, 0, 0, 3]
    );
}

#[test]
fn make_record_wraps_the_value() {
    assert_eq!(as_u32(&7u32.new_record()), 7);
    assert_eq!(as_text(&"seven".to_string().new_record()), "seven");
    assert_eq!(FileDB::frame_record(7u32), Record::from(7u32).bytes_for_db());
}

#[test]
fn convert_from_bytes_by_type() {
    assert_eq!(as_u32(&Record::convert_from_bytes(1, vec![0, 0, 1, 0, 9, 9])), 256);
    assert_eq!(as_text(&Record::convert_from_bytes(2, b"text".to_vec())), "text");
    assert_eq!(as_text(&Record::convert_from_bytes(7, vec![1, 2])), "not string");
    assert_eq!(as_text(&Record::convert_from_bytes(0, vec![])), "not string");
}

#[test]
fn try_convert_refuses_what_cannot_be_read() {
    assert!(Record::try_convert_from_bytes(1, vec![1, 2, 3]).is_none());
    assert!(Record::try_convert_from_bytes(2, vec![0xff, 0xfe]).is_none());
    assert!(Record::try_convert_from_bytes(2, vec![]).is_some());
    assert!(Record::try_convert_from_bytes(3, vec![0xff]).is_some());
}

#[test]
fn records_come_back_newest_first_then_end() {
    let mut file = Vec::new();
    file.extend_from_slice(&FileDB::frame_record(42u32));
    file.extend_from_slice(&FileDB::frame_record("forty-two".to_string()));
    file.extend_from_slice(&FileDB::frame_record(0u32));
    let mut db = FileDB::new(file.len() as u64);
    assert_eq!(as_u32(&yielded(next_step(&file, &mut db))), 0);
    assert_eq!(as_text(&yielded(next_step(&file, &mut db))), "forty-two");
    assert_eq!(as_u32(&yielded(next_step(&file, &mut db))), 42);
    assert!(matches!(next_step(&file, &mut db), RecordStep::End));
    assert_eq!(db.offset(), 0);
}

#[test]
fn the_reader_asks_for_length_value_then_type() {
    let file = FileDB::frame_record(5u32);
    let mut db = FileDB::new(file.len() as u64);
    match db.start_next() {
        RecordStep::ReadAt { pos, len } => assert_eq!((pos, len), (13, 8)),
        _ => panic!("expected a read"),
    }
    assert_eq!(db.pending_read_len(), Some(8));
    match db.feed(file[13..21].to_vec()) {
        RecordStep::ReadAt { pos, len } => assert_eq!((pos, len), (9, 4)),
        _ => panic!("expected a read"),
    }
    match db.feed(file[9..13].to_vec()) {
        RecordStep::ReadAt { pos, len } => assert_eq!((pos, len), (0, 1)),
        _ => panic!("expected a read"),
    }
    assert_eq!(as_u32(&yielded(db.feed(vec![1]))), 5);
    assert_eq!(db.pending_read_len(), None);
}

#[test]
fn fewer_than_eight_bytes_end_the_reading() {
    let file = vec![1u8, 2, 3];
    let mut db = FileDB::new(3);
    assert!(matches!(next_step(&file, &mut db), RecordStep::End));
    assert_eq!(db.offset(), 3);
}

#[test]
fn a_value_without_room_for_its_type_is_corrupted() {
    let mut file = vec![0u8, 0, 0, 0, 0, 0, 0, 0];
    file.extend_from_slice(&[0, 0, 0, 0, 0, 0, 0, 0]);
    let mut db = FileDB::new(file.len() as u64);
    assert!(matches!(next_step(&file, &mut db), RecordStep::Corrupted));
    assert!(matches!(db.start_next(), RecordStep::Corrupted));
}

#[test]
fn an_undecodable_value_is_corrupted() {
    let mut file = vec![2u8, 0, 0, 0, 0, 0, 0, 0, 1, 0xff];
    file.extend_from_slice(&[0, 0, 0, 0, 0, 0, 0, 1]);
    let mut db = FileDB::new(file.len() as u64);
    assert!(matches!(next_step(&file, &mut db), RecordStep::Corrupted));
}
