use blockfetch::speed::SpeedMeter;

#[test]
fn slice_is_complete_after_its_time() {
    let mut meter = SpeedMeter::new(100, 3, 1000);
    assert!(!meter.add(5, 1050));
    assert!(!meter.add(6, 1099));
    assert_eq!(meter.totals(), Some((0, 0)));
    assert!(meter.add(7, 1100));
    assert_eq!(meter.get_speed_per_sec(), (18, 100));
    assert!(!meter.add(1, 1199));
    assert!(meter.add(1, 1250));
    assert_eq!(meter.get_speed_per_sec(), (20, 250));
}

#[test]
fn window_slides() {
    let mut meter = SpeedMeter::new(10, 2, 0);
    assert!(meter.add(1, 10));
    assert!(meter.add(2, 30));
    assert_eq!(meter.get_speed_per_sec(), (3, 30));
    assert!(meter.add(4, 60));
    assert_eq!(meter.get_speed_per_sec(), (6, 50));
    assert!(meter.add(8, 100));
    assert_eq!(meter.get_speed_per_sec(), (12, 70));
}

#[test]
fn window_of_no_length_shows_one_slice() {
    let mut meter = SpeedMeter::new(0, 0, 0);
    assert!(meter.add(1, 1));
    assert_eq!(meter.get_speed_per_sec(), (1, 1));
    assert!(meter.add(2, 3));
    assert_eq!(meter.get_speed_per_sec(), (2, 2));
}

#[test]
fn earlier_time_counts_as_no_time() {
    let mut meter = SpeedMeter::new(0, 4, 100);
    assert!(meter.add(3, 50));
    assert_eq!(meter.get_speed_per_sec(), (3, 0));
    let mut meter = SpeedMeter::new(1, 4, 100);
    assert!(!meter.add(3, 50));
}

#[test]
fn counter_has_its_limit() {
    let mut meter = SpeedMeter::new(10, 4, 0);
    assert!(meter.has_room(u64::MAX));
    assert!(!meter.add(u64::MAX - 1, 1));
    assert!(meter.has_room(1));
    assert!(!meter.has_room(2));
}

#[test]
fn sums_have_their_limit() {
    let mut meter = SpeedMeter::new(0, 4, 0);
    assert!(meter.add(u64::MAX, 1));
    assert_eq!(meter.totals(), Some((u64::MAX, 1)));
    assert!(meter.add(1, 2));
    assert_eq!(meter.totals(), None);
    let mut meter = SpeedMeter::new(0, 4, 0);
    assert!(meter.add(1, u128::MAX));
    assert!(meter.add(1, 0));
    assert!(meter.add(1, 1));
    assert_eq!(meter.totals(), None);
}
