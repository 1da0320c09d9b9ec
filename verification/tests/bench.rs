use event_store::bench::Bench;

#[test]
fn a_bench_keeps_its_name_and_start() {
    let b = Bench::started_at("write", 1_000);
    assert_eq!(b.name(), "write");
    assert_eq!(b.timestamp(), 1_000);
    assert_eq!(b.elapsed_mils(1_250), 250);
    assert_eq!(b.elapsed_mils(1_000), 0);
}

#[test]
fn a_new_bench_starts_now() {
    let before = Bench::cur_timestamp_mils().unwrap();
    let b = Bench::new("read").unwrap();
    let after = Bench::cur_timestamp_mils().unwrap();
    assert_eq!(b.name(), "read");
    assert!(before <= b.timestamp() && b.timestamp() <= after);
    assert!(before > 1_500_000_000_000);
}
