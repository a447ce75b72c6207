use flowerid::systime::Duration;
use flowerid::systime::SystemTime;

#[test]
fn basic() {
    assert_eq!(SystemTime::from_millis(0).0, 0);

    let mut lock = SystemTime::lock(4096);
    let diff = lock
        .time()
        .duration_since(SystemTime::from_millis(2048))
        .unwrap();
    assert_eq!(diff.as_secs(), 2);
    assert_eq!(diff.subsec_nanos(), 48 * 1000 * 1000);

    let time = SystemTime::from_millis(1024 + 2048);
    let diff = lock.time().duration_since(time).unwrap();
    assert_eq!(diff.as_secs(), 1);
    assert_eq!(diff.subsec_nanos(), 24 * 1000 * 1000);

    let time = SystemTime::from_millis(2048 - 1004);
    let diff = lock.time().duration_since(time).unwrap();
    assert_eq!(diff.as_secs(), 3);
    assert_eq!(diff.subsec_nanos(), 52 * 1000 * 1000);

    lock.add(1234);
    let diff = lock
        .time()
        .duration_since(SystemTime::from_millis(0))
        .unwrap();
    assert_eq!(diff.as_secs(), 5);
    assert_eq!(diff.subsec_nanos(), 330 * 1000 * 1000);
}

#[test]
fn regressed_measurement() {
    let early = SystemTime::from_millis(100);
    let late = SystemTime::from_millis(250);
    assert_eq!(early.duration_since(late), Err(()));
    assert_eq!(late.duration_since(early).unwrap(), Duration::from_millis(150));
}

#[test]
fn wall_clock_reads() {
    // nothing is promised of a wall reading beyond being a measurement the
    // rest of the library can take
    let a = SystemTime::now();
    let b = SystemTime::now();
    assert!(b.duration_since(a).is_ok() || a.duration_since(b).is_ok());
}
