//! Bit-layout constants of the identifier word.
//!
//! The three fields occupy the low 63 bits, most significant first:
//! timestamp (42 bits), sequence (11 bits), generator (10 bits).  Bit 63 is
//! reserved and always emitted as zero.  The masks are derived from the
//! widths, which are the single source of truth.

use vstd::prelude::*;

verus! {

/// Width of the generator field, in bits.
pub const GENERATOR_LENGTH: u16 = 10;

/// Width of the sequence field, in bits.
pub const SEQUENCE_LENGTH: u16 = 11;

/// Width of the timestamp field, in bits.
pub const TIMESTAMP_LENGTH: u64 = 42;

/// Default epoch shift in seconds: the epoch is 2017-01-01 00:00:00 UTC,
/// i.e. this many seconds *after* the UNIX epoch (the offset is subtracted).
pub const DEFAULT_TIMESTAMP_OFFSET: i64 = -1483228800;

/// By default the timestamp counts milliseconds, not seconds.
pub const DEFAULT_TIMESTAMP_IN_SECONDS: bool = false;

/// By default a generator waits for the next tick when the sequence is spent.
pub const DEFAULT_WAIT_SEQUENCE: bool = true;

/// Mask of the generator field within the identifier word.
pub const GENERATOR_MASK: u64 = 0x3ff;

/// Mask of the sequence field within the identifier word.
pub const SEQUENCE_MASK: u64 = 0x1f_fc00;

/// Mask of the timestamp field within the identifier word.
pub const TIMESTAMP_MASK: u64 = 0x7fff_ffff_ffe0_0000;

/// The masks and field bounds follow from the field widths: each mask is the
/// width's worth of set bits shifted to the field's position, and each bound
/// is two to the width.
pub proof fn lemma_layout_values()
    ensures
        (1u64 << TIMESTAMP_LENGTH) == 0x400_0000_0000,
        (1u16 << SEQUENCE_LENGTH) == 0x800,
        (1u16 << GENERATOR_LENGTH) == 0x400,
        TIMESTAMP_MASK == (((1u64 << TIMESTAMP_LENGTH) - 1) as u64) << (GENERATOR_LENGTH
            + SEQUENCE_LENGTH),
        SEQUENCE_MASK == (((1u64 << SEQUENCE_LENGTH) - 1) as u64) << GENERATOR_LENGTH,
        GENERATOR_MASK == (1u64 << GENERATOR_LENGTH) - 1,
        GENERATOR_LENGTH + SEQUENCE_LENGTH == 21,
{
    assert((1u64 << 42u64) == 0x400_0000_0000) by (bit_vector);
    assert((1u16 << 11u16) == 0x800) by (bit_vector);
    assert((1u16 << 10u16) == 0x400) by (bit_vector);
    assert((((1u64 << 42u64) - 1) as u64) << 21u16 == 0x7fff_ffff_ffe0_0000) by (bit_vector);
    assert((((1u64 << 11u16) - 1) as u64) << 10u16 == 0x1f_fc00) by (bit_vector);
    assert((1u64 << 10u16) - 1 == 0x3ff) by (bit_vector);
}

} // verus!
