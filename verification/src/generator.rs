//! The generator: mutable state that issues successive identifiers sharing
//! one generator identity, strictly increasing under a non-decreasing clock.
//!
//! Each step reads one time measurement and decides: a newer timestamp
//! resets the sequence, the same timestamp advances it, an older one is a
//! clock regression and fails.  `next_at` takes the measurement as a value
//! and is deterministic; `next` reads the wall clock and, when the sequence
//! is spent and the policy says to wait, polls the clock until it moves on.

use vstd::prelude::*;

use crate::config;
use crate::id::fid_word;
use crate::id::lemma_word_fields;
use crate::id::lemma_word_order;
use crate::id::word_generator;
use crate::id::FID;
use crate::systime::SystemTime;
use crate::Error;

verus! {

/// Generator state.  The fields are public so that specifications can speak
/// about them; `well_formed` is the invariant that construction establishes
/// and every step preserves.
#[derive(Debug, Clone)]
pub struct FIDGenerator {
    /// The 10-bit generator identity, fixed after construction.
    pub generator: u16,
    /// Seconds subtracted from the UNIX epoch to obtain this generator's
    /// epoch; negative values shift the epoch forward.
    pub timestamp_offset: i64,
    /// The most recently issued timestamp, in the packed domain.
    pub timestamp_last: u64,
    /// The most recently issued sequence within `timestamp_last`.
    pub sequence: u16,
    /// On sequence exhaustion: wait for the next tick, or fail.
    pub wait_sequence: bool,
    /// Count elapsed seconds instead of milliseconds.
    pub timestamp_in_seconds: bool,
}

/// Generator configuration: the future generator state with every option at
/// its default until set.
#[derive(Debug, Clone)]
pub struct FIDGeneratorBuilder(pub FIDGenerator);

impl FIDGenerator {
    /// Every field within its width.
    pub open spec fn well_formed(&self) -> bool {
        &&& self.generator < 0x400
        &&& self.sequence < 0x800
        &&& self.timestamp_last < 0x400_0000_0000
    }

    /// The generator's epoch, in milliseconds since the UNIX epoch: the
    /// offset is subtracted, so a negative offset shifts the epoch forward.
    pub open spec fn epoch_millis(&self) -> int {
        -(self.timestamp_offset as int) * 1000
    }

    /// Whether the epoch is representable in a 64-bit millisecond count;
    /// the clock arithmetic needs this.
    pub open spec fn epoch_representable(&self) -> bool {
        i64::MIN <= self.epoch_millis() <= i64::MAX
    }

    /// The packed timestamp a measurement yields: elapsed milliseconds since
    /// the epoch, or elapsed whole seconds under the seconds policy.
    pub open spec fn packed_timestamp(&self, now: SystemTime) -> int {
        let d = now.0 - self.epoch_millis();
        if self.timestamp_in_seconds {
            d / 1000
        } else {
            d
        }
    }

    /// The word of the most recently issued identifier.
    pub open spec fn last_word(&self) -> u64 {
        fid_word(self.timestamp_last, self.sequence, self.generator)
    }

    /// Validate a configuration: the timestamp bound is checked first, then
    /// sequence, then generator.
    pub fn new(cfg: FIDGeneratorBuilder) -> (r: Result<FIDGenerator, Error>)
        ensures
            r == if cfg.0.timestamp_last >= 0x400_0000_0000 {
                Err::<FIDGenerator, Error>(Error::TimestampOverflow(cfg.0.timestamp_last))
            } else if cfg.0.sequence >= 0x800 {
                Err::<FIDGenerator, Error>(Error::SequenceOverflow(cfg.0.sequence))
            } else if cfg.0.generator >= 0x400 {
                Err::<FIDGenerator, Error>(Error::GeneratorOverflow(cfg.0.generator))
            } else {
                Ok::<FIDGenerator, Error>(cfg.0)
            },
            r matches Ok(g) ==> g.well_formed(),
    {
        proof {
            config::lemma_layout_values();
        }
        if cfg.0.timestamp_last >= 1u64 << config::TIMESTAMP_LENGTH {
            Err(Error::TimestampOverflow(cfg.0.timestamp_last))
        } else if cfg.0.sequence >= 1u16 << config::SEQUENCE_LENGTH {
            Err(Error::SequenceOverflow(cfg.0.sequence))
        } else if cfg.0.generator >= 1u16 << config::GENERATOR_LENGTH {
            Err(Error::GeneratorOverflow(cfg.0.generator))
        } else {
            Ok(cfg.0)
        }
    }

    /// The packed timestamp for one measurement: fails when the clock reads
    /// before the epoch, or when the count overflows 42 bits.
    fn new_timestamp(&self, now: SystemTime) -> (r: Result<u64, Error>)
        requires
            self.epoch_representable(),
        ensures
            now.0 < self.epoch_millis() ==> r == Err::<u64, Error>(Error::SysTimeIsInPast),
            now.0 >= self.epoch_millis() ==> {
                let t = self.packed_timestamp(now);
                if t >= 0x400_0000_0000 {
                    r == Err::<u64, Error>(Error::TimestampOverflow(t as u64))
                } else {
                    r == Ok::<u64, Error>(t as u64)
                }
            },
    {
        let epoch: i128 = -(self.timestamp_offset as i128) * 1000;
        let now_ms: i128 = now.0 as i128;
        if now_ms < epoch {
            return Err(Error::SysTimeIsInPast);
        }
        let d: i128 = now_ms - epoch;
        let t: i128 = if self.timestamp_in_seconds {
            d / 1000
        } else {
            d
        };
        proof {
            assert(0 <= t < 0x1_0000_0000_0000_0000);
        }
        if t >= 0x400_0000_0000 {
            Err(Error::TimestampOverflow(t as u64))
        } else {
            Ok(t as u64)
        }
    }

    /// Move to a newer timestamp: the sequence starts over at zero.
    fn next_timestamp(&mut self, timestamp: u64) -> (r: Result<FID, Error>)
        requires
            old(self).well_formed(),
            timestamp < 0x400_0000_0000,
        ensures
            *final(self) == (FIDGenerator { timestamp_last: timestamp, sequence: 0, ..*old(self) }),
            r == Ok::<FID, Error>(FID(fid_word(timestamp, 0, old(self).generator))),
    {
        self.timestamp_last = timestamp;
        self.sequence = 0;
        let r = FID::new(timestamp, 0, self.generator);
        proof {
            config::lemma_layout_values();
        }
        r
    }

    /// Stay in the same timestamp: advance the sequence, or report it spent.
    fn next_sequence(&mut self, timestamp: u64) -> (r: Result<FID, Error>)
        requires
            old(self).well_formed(),
            timestamp < 0x400_0000_0000,
        ensures
            old(self).sequence + 1 < 0x800 ==> *final(self) == (FIDGenerator {
                sequence: (old(self).sequence + 1) as u16,
                ..*old(self)
            }) && r == Ok::<FID, Error>(
                FID(fid_word(timestamp, (old(self).sequence + 1) as u16, old(self).generator)),
            ),
            old(self).sequence + 1 >= 0x800 ==> *final(self) == *old(self) && r == Err::<FID, Error>(
                Error::SequenceOverflow(old(self).sequence),
            ),
    {
        proof {
            config::lemma_layout_values();
        }
        if (self.sequence + 1) >= (1u16 << config::SEQUENCE_LENGTH) {
            return Err(Error::SequenceOverflow(self.sequence));
        }
        self.sequence = self.sequence + 1;
        FID::new(timestamp, self.sequence, self.generator)
    }

    /// One step of the generator at a given measurement: compute the packed
    /// timestamp, compare it with the last issued one, and either start the
    /// new timestamp, advance the sequence, or fail.  Errors leave the state
    /// unchanged; the waiting policy is `next`'s affair.
    pub fn next_at(&mut self, now: SystemTime) -> (r: Result<FID, Error>)
        requires
            old(self).well_formed(),
            old(self).epoch_representable(),
        ensures
            final(self).well_formed(),
            final(self).generator == old(self).generator,
            final(self).timestamp_offset == old(self).timestamp_offset,
            final(self).wait_sequence == old(self).wait_sequence,
            final(self).timestamp_in_seconds == old(self).timestamp_in_seconds,
            r is Err ==> *final(self) == *old(self),
            now.0 < old(self).epoch_millis() ==> r == Err::<FID, Error>(Error::SysTimeIsInPast),
            now.0 >= old(self).epoch_millis() ==> {
                let t = old(self).packed_timestamp(now);
                if t >= 0x400_0000_0000 {
                    r == Err::<FID, Error>(Error::TimestampOverflow(t as u64))
                } else if t < old(self).timestamp_last {
                    r == Err::<FID, Error>(Error::SysTimeIsInPast)
                } else if t > old(self).timestamp_last {
                    r == Ok::<FID, Error>(FID(fid_word(t as u64, 0, old(self).generator)))
                        && final(self).timestamp_last == t && final(self).sequence == 0
                } else if old(self).sequence + 1 < 0x800 {
                    r == Ok::<FID, Error>(
                        FID(
                            fid_word(
                                t as u64,
                                (old(self).sequence + 1) as u16,
                                old(self).generator,
                            ),
                        ),
                    ) && final(self).timestamp_last == t && final(self).sequence == old(
                        self,
                    ).sequence + 1
                } else {
                    r == Err::<FID, Error>(Error::SequenceOverflow(old(self).sequence))
                }
            },
            r matches Ok(f) ==> f@ == final(self).last_word() && f@ > old(self).last_word()
                && word_generator(f@) == old(self).generator,
    {
        let timestamp = match self.new_timestamp(now) {
            Ok(t) => t,
            Err(e) => {
                return Err(e);
            },
        };
        let r = if timestamp < self.timestamp_last {
            Err(Error::SysTimeIsInPast)
        } else if timestamp > self.timestamp_last {
            let ghost pre = *self;
            let r = self.next_timestamp(timestamp);
            proof {
                lemma_word_order(
                    pre.timestamp_last,
                    pre.sequence,
                    timestamp,
                    0,
                    pre.generator,
                );
                lemma_word_fields(timestamp, 0, pre.generator);
            }
            r
        } else {
            let ghost pre = *self;
            let r = self.next_sequence(timestamp);
            proof {
                if pre.sequence + 1 < 0x800 {
                    lemma_word_order(
                        pre.timestamp_last,
                        pre.sequence,
                        timestamp,
                        (pre.sequence + 1) as u16,
                        pre.generator,
                    );
                    lemma_word_fields(timestamp, (pre.sequence + 1) as u16, pre.generator);
                }
            }
            r
        };
        r
    }

    /// Issue the next identifier from the wall clock.  When the sequence is
    /// spent and the policy says to wait, the clock is polled until it moves
    /// to the next tick; the poll gives up only after exhausting a 64-bit
    /// retry counter, which no real clock leaves standing still.
    pub fn next(&mut self) -> (r: Result<FID, Error>)
        requires
            old(self).well_formed(),
            old(self).epoch_representable(),
        ensures
            final(self).well_formed(),
            final(self).generator == old(self).generator,
            final(self).timestamp_offset == old(self).timestamp_offset,
            final(self).wait_sequence == old(self).wait_sequence,
            final(self).timestamp_in_seconds == old(self).timestamp_in_seconds,
            r is Err ==> *final(self) == *old(self),
            r matches Ok(f) ==> f@ == final(self).last_word() && f@ > old(self).last_word()
                && word_generator(f@) == old(self).generator,
    {
        let mut tries: u64 = 0;
        loop
            invariant
                self.well_formed(),
                self.epoch_representable(),
                *self == *old(self),
            decreases u64::MAX - tries,
        {
            let now = SystemTime::now();
            let wait = self.wait_sequence;
            match self.next_at(now) {
                Ok(f) => {
                    return Ok(f);
                },
                Err(e) => {
                    let spent = match e {
                        Error::SequenceOverflow(_) => true,
                        _ => false,
                    };
                    if !(spent && wait && tries < u64::MAX) {
                        return Err(e);
                    }
                    tries = tries + 1;
                },
            }
        }
    }
}

impl FIDGeneratorBuilder {
    /// A configuration for the given generator identity, every other option
    /// at its default: epoch 2017-01-01, milliseconds, wait on exhaustion,
    /// sequence and last timestamp at zero.
    pub fn new(generator: u16) -> (r: FIDGeneratorBuilder)
        ensures
            r.0 == (FIDGenerator {
                generator,
                timestamp_offset: config::DEFAULT_TIMESTAMP_OFFSET,
                timestamp_last: 0,
                sequence: 0,
                wait_sequence: config::DEFAULT_WAIT_SEQUENCE,
                timestamp_in_seconds: config::DEFAULT_TIMESTAMP_IN_SECONDS,
            }),
    {
        FIDGeneratorBuilder(
            FIDGenerator {
                generator,
                timestamp_offset: config::DEFAULT_TIMESTAMP_OFFSET,
                timestamp_last: 0,
                sequence: 0,
                wait_sequence: config::DEFAULT_WAIT_SEQUENCE,
                timestamp_in_seconds: config::DEFAULT_TIMESTAMP_IN_SECONDS,
            },
        )
    }

    /// Seed the last issued timestamp.
    pub fn timestamp_last(self, val: u64) -> (r: FIDGeneratorBuilder)
        ensures
            r.0 == (FIDGenerator { timestamp_last: val, ..self.0 }),
    {
        let mut b = self;
        b.0.timestamp_last = val;
        b
    }

    /// Count elapsed seconds in the timestamp field.
    pub fn timestamp_in_seconds(self) -> (r: FIDGeneratorBuilder)
        ensures
            r.0 == (FIDGenerator { timestamp_in_seconds: true, ..self.0 }),
    {
        let mut b = self;
        b.0.timestamp_in_seconds = true;
        b
    }

    /// Count elapsed milliseconds in the timestamp field.
    pub fn timestamp_in_milliseconds(self) -> (r: FIDGeneratorBuilder)
        ensures
            r.0 == (FIDGenerator { timestamp_in_seconds: false, ..self.0 }),
    {
        let mut b = self;
        b.0.timestamp_in_seconds = false;
        b
    }

    /// Seed the sequence counter.
    pub fn sequence(self, val: u16) -> (r: FIDGeneratorBuilder)
        ensures
            r.0 == (FIDGenerator { sequence: val, ..self.0 }),
    {
        let mut b = self;
        b.0.sequence = val;
        b
    }

    /// Set the epoch offset in seconds.
    pub fn timestamp_offset(self, val: i64) -> (r: FIDGeneratorBuilder)
        ensures
            r.0 == (FIDGenerator { timestamp_offset: val, ..self.0 }),
    {
        let mut b = self;
        b.0.timestamp_offset = val;
        b
    }

    /// Choose the policy on sequence exhaustion: wait for the next tick, or
    /// fail with the spent sequence.
    pub fn wait_sequence(self, val: bool) -> (r: FIDGeneratorBuilder)
        ensures
            r.0 == (FIDGenerator { wait_sequence: val, ..self.0 }),
    {
        let mut b = self;
        b.0.wait_sequence = val;
        b
    }

    /// Validate the configuration and produce the generator.
    pub fn build(self) -> (r: Result<FIDGenerator, Error>)
        ensures
            r == if self.0.timestamp_last >= 0x400_0000_0000 {
                Err::<FIDGenerator, Error>(Error::TimestampOverflow(self.0.timestamp_last))
            } else if self.0.sequence >= 0x800 {
                Err::<FIDGenerator, Error>(Error::SequenceOverflow(self.0.sequence))
            } else if self.0.generator >= 0x400 {
                Err::<FIDGenerator, Error>(Error::GeneratorOverflow(self.0.generator))
            } else {
                Ok::<FIDGenerator, Error>(self.0)
            },
            r matches Ok(g) ==> g.well_formed(),
    {
        FIDGenerator::new(self)
    }
}

} // verus!
