use flowerid::config::DEFAULT_TIMESTAMP_IN_SECONDS;
use flowerid::config::DEFAULT_TIMESTAMP_OFFSET;
use flowerid::config::DEFAULT_WAIT_SEQUENCE;
use flowerid::generator::FIDGenerator;
use flowerid::generator::FIDGeneratorBuilder;
use flowerid::systime::SystemTime;
use flowerid::Error;

const TIMESTAMP: u64 = 0x1f37b5bfdfa_u64;
const GENERATOR: u16 = 0x01cc_u16;

#[test]
fn builder() {
    let gen = FIDGeneratorBuilder::new(GENERATOR);
    assert_eq!(gen.0.generator, GENERATOR);
    assert_eq!(gen.0.sequence, 0);
    assert_eq!(gen.0.timestamp_last, 0);
    assert_eq!(gen.0.timestamp_offset, DEFAULT_TIMESTAMP_OFFSET);
    assert_eq!(gen.0.wait_sequence, DEFAULT_WAIT_SEQUENCE);
    assert_eq!(gen.0.timestamp_in_seconds, DEFAULT_TIMESTAMP_IN_SECONDS);
    let mut gen = FIDGeneratorBuilder::new(0)
        .sequence(GENERATOR / 2)
        .timestamp_last(TIMESTAMP / 2)
        .timestamp_offset(-1800)
        .wait_sequence(!DEFAULT_WAIT_SEQUENCE);
    if DEFAULT_TIMESTAMP_IN_SECONDS {
        gen = gen.timestamp_in_milliseconds();
    } else {
        gen = gen.timestamp_in_seconds();
    }
    assert_eq!(gen.0.generator, 0);
    assert_eq!(gen.0.sequence, GENERATOR / 2);
    assert_eq!(gen.0.timestamp_last, TIMESTAMP / 2);
    assert_eq!(gen.0.timestamp_offset, -1800);
    assert_eq!(gen.0.wait_sequence, !DEFAULT_WAIT_SEQUENCE);
    assert_eq!(gen.0.timestamp_in_seconds, !DEFAULT_TIMESTAMP_IN_SECONDS);
}

#[test]
fn new() {
    FIDGenerator::new(FIDGeneratorBuilder::new(GENERATOR)).unwrap();
    assert_eq!(
        FIDGenerator::new(FIDGeneratorBuilder::new(1 << 10)).unwrap_err(),
        Error::GeneratorOverflow(1 << 10)
    );
    assert_eq!(
        FIDGenerator::new(FIDGeneratorBuilder::new(GENERATOR).sequence(1 << 11)).unwrap_err(),
        Error::SequenceOverflow(1 << 11)
    );
    assert_eq!(
        FIDGenerator::new(FIDGeneratorBuilder::new(GENERATOR).timestamp_last(1 << 42))
            .unwrap_err(),
        Error::TimestampOverflow(1 << 42)
    );
}

#[test]
#[allow(non_snake_case)]
fn SysTimeIsInPast() {
    let mut lock_sys_time = SystemTime::lock((DEFAULT_TIMESTAMP_OFFSET.abs() - 1) * 1000);
    let mut gen =
        FIDGenerator::new(FIDGeneratorBuilder::new(GENERATOR).wait_sequence(false)).unwrap();
    assert_eq!(
        gen.next_at(lock_sys_time.time()).unwrap_err(),
        Error::SysTimeIsInPast
    );
    lock_sys_time.add(1001);
    assert_eq!(gen.next_at(lock_sys_time.time()).unwrap().timestamp(), 1);
    lock_sys_time.add(3);
    assert_eq!(gen.next_at(lock_sys_time.time()).unwrap().timestamp(), 4);
    lock_sys_time.add(-1);
    assert_eq!(
        gen.next_at(lock_sys_time.time()).unwrap_err(),
        Error::SysTimeIsInPast
    );
}

#[test]
#[allow(non_snake_case)]
fn TimestampOverflow() {
    let lock_sys_time =
        SystemTime::lock(DEFAULT_TIMESTAMP_OFFSET.abs() * 1000 + (1 << 42));
    let mut gen =
        FIDGenerator::new(FIDGeneratorBuilder::new(GENERATOR).wait_sequence(false)).unwrap();
    assert_eq!(
        gen.next_at(lock_sys_time.time()).unwrap_err(),
        Error::TimestampOverflow(1 << 42)
    );
    SystemTime::unlock(lock_sys_time);
}

#[test]
#[allow(non_snake_case)]
fn SequenceOverflow() {
    let lock_sys_time =
        SystemTime::lock(DEFAULT_TIMESTAMP_OFFSET.abs() * 1000 + TIMESTAMP as i64);
    let mut gen = FIDGenerator::new(
        FIDGeneratorBuilder::new(GENERATOR)
            .wait_sequence(false)
            .timestamp_in_seconds(),
    )
    .unwrap();
    for i in 0..(1u16 << 11) {
        let fid = gen.next_at(lock_sys_time.time()).unwrap();
        assert_eq!(fid.timestamp(), TIMESTAMP / 1000);
        assert_eq!(fid.generator(), GENERATOR);
        assert_eq!(fid.sequence(), i);
    }
    assert_eq!(
        gen.next_at(lock_sys_time.time()).unwrap_err(),
        Error::SequenceOverflow((1 << 11) - 1)
    );
    SystemTime::unlock(lock_sys_time);

    let mut lock_sys_time =
        SystemTime::lock(DEFAULT_TIMESTAMP_OFFSET.abs() * 1000 + TIMESTAMP as i64);
    let mut gen =
        FIDGenerator::new(FIDGeneratorBuilder::new(GENERATOR).wait_sequence(false)).unwrap();
    for i in 0..(1u16 << 11) {
        let fid = gen.next_at(lock_sys_time.time()).unwrap();
        assert_eq!(fid.timestamp(), TIMESTAMP);
        assert_eq!(fid.generator(), GENERATOR);
        assert_eq!(fid.sequence(), i);
    }
    assert_eq!(
        gen.next_at(lock_sys_time.time()).unwrap_err(),
        Error::SequenceOverflow((1 << 11) - 1)
    );
    lock_sys_time.add(1);
    for i in 0..(1u16 << 11) {
        let fid = gen.next_at(lock_sys_time.time()).unwrap();
        assert_eq!(fid.timestamp(), TIMESTAMP + 1);
        assert_eq!(fid.generator(), GENERATOR);
        assert_eq!(fid.sequence(), i);
    }
    assert_eq!(
        gen.next_at(lock_sys_time.time()).unwrap_err(),
        Error::SequenceOverflow((1 << 11) - 1)
    );
    SystemTime::unlock(lock_sys_time);
}

#[test]
fn next() {
    let lock_sys_time =
        SystemTime::lock(DEFAULT_TIMESTAMP_OFFSET.abs() * 1000 + TIMESTAMP as i64);
    let mut gen =
        FIDGenerator::new(FIDGeneratorBuilder::new(GENERATOR).wait_sequence(false)).unwrap();
    for i in 0..(1u16 << 11) - 1 {
        let fid = gen.next_at(lock_sys_time.time()).unwrap();
        assert_eq!(fid.timestamp(), TIMESTAMP);
        assert_eq!(fid.sequence(), i);
        assert_eq!(fid.generator(), GENERATOR);
    }
    SystemTime::unlock(lock_sys_time);
}

#[test]
fn strictly_increasing() {
    // successive identifiers grow as 64-bit words while the clock moves
    // forward, and all carry the generator identity
    let mut lock = SystemTime::lock(DEFAULT_TIMESTAMP_OFFSET.abs() * 1000 + 50_000);
    let mut gen = FIDGenerator::new(FIDGeneratorBuilder::new(0x249)).unwrap();
    let mut last: Option<u64> = None;
    for step in 0..4000u64 {
        let fid = gen.next_at(lock.time()).unwrap();
        let word = u64::from(fid.clone());
        if let Some(prev) = last {
            assert!(prev < word);
        }
        last = Some(word);
        assert_eq!(fid.generator(), 0x249);
        if step % 3 == 0 {
            lock.add(1);
        }
    }
    SystemTime::unlock(lock);
}

#[test]
fn frozen_tick_sequences() {
    // with the clock frozen at one millisecond tick, the sequence counts
    // 0..=2047 and the next call reports the spent sequence
    let lock = SystemTime::lock(DEFAULT_TIMESTAMP_OFFSET.abs() * 1000 + 2_073_867_450_856);
    let mut gen =
        FIDGenerator::new(FIDGeneratorBuilder::new(0x249).wait_sequence(false)).unwrap();
    for i in 0..=2047u16 {
        let fid = gen.next_at(lock.time()).unwrap();
        assert_eq!(fid.timestamp(), 2_073_867_450_856);
        assert_eq!(fid.generator(), 0x249);
        assert_eq!(fid.sequence(), i);
    }
    assert_eq!(
        gen.next_at(lock.time()).unwrap_err(),
        Error::SequenceOverflow(2047)
    );
    SystemTime::unlock(lock);
}

#[test]
fn wall_clock_next() {
    // the wall-clock entry point issues increasing identifiers as well
    let mut gen = FIDGenerator::new(FIDGeneratorBuilder::new(0x47)).unwrap();
    let a = u64::from(gen.next().unwrap());
    let b = u64::from(gen.next().unwrap());
    assert!(a < b);
}
