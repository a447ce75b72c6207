//! The identifier value: a 64-bit word holding timestamp, sequence and
//! generator fields, with its 8-byte big-endian binary form and 11-character
//! URL-safe base64 text form.

use vstd::prelude::*;
use vstd::string::StringSliceAdditionalSpecFns;

use crate::base64;
use crate::config;
use crate::Error;

verus! {

/// The packed word for in-range fields: timestamp in bits 21..62, sequence in
/// bits 10..20, generator in bits 0..9.  Bit 63 stays zero.
pub open spec fn fid_word(timestamp: u64, sequence: u16, generator: u16) -> u64
    recommends
        timestamp < 0x400_0000_0000,
        sequence < 0x800,
        generator < 0x400,
{
    (timestamp << 21) | ((sequence as u64) << 10) | (generator as u64)
}

/// The timestamp field of a word: bits 21..62.  Total over all 64-bit words;
/// bit 63 is ignored.
pub open spec fn word_timestamp(word: u64) -> u64 {
    (word >> 21) & 0x3ff_ffff_ffff
}

/// The sequence field of a word: bits 10..20.
pub open spec fn word_sequence(word: u64) -> u16 {
    ((word >> 10) & 0x7ff) as u16
}

/// The generator field of a word: bits 0..9.
pub open spec fn word_generator(word: u64) -> u16 {
    (word & 0x3ff) as u16
}

/// The fields are recovered exactly from the packed word, and the packed word
/// keeps bit 63 clear.
pub proof fn lemma_word_fields(timestamp: u64, sequence: u16, generator: u16)
    requires
        timestamp < 0x400_0000_0000,
        sequence < 0x800,
        generator < 0x400,
    ensures
        word_timestamp(fid_word(timestamp, sequence, generator)) == timestamp,
        word_sequence(fid_word(timestamp, sequence, generator)) == sequence,
        word_generator(fid_word(timestamp, sequence, generator)) == generator,
        fid_word(timestamp, sequence, generator) < 0x8000_0000_0000_0000,
{
    let s64 = sequence as u64;
    let g64 = generator as u64;
    assert((((timestamp << 21) | (s64 << 10) | g64) >> 21) & 0x3ff_ffff_ffff == timestamp
        && (((timestamp << 21) | (s64 << 10) | g64) >> 10) & 0x7ff == s64
        && ((timestamp << 21) | (s64 << 10) | g64) & 0x3ff == g64
        && ((timestamp << 21) | (s64 << 10) | g64) < 0x8000_0000_0000_0000) by (bit_vector)
        requires
            timestamp < 0x400_0000_0000,
            s64 < 0x800,
            g64 < 0x400,
    ;
}

/// Words of one generator order by (timestamp, sequence): a later pair packs
/// to a strictly larger word.
pub proof fn lemma_word_order(t1: u64, s1: u16, t2: u64, s2: u16, generator: u16)
    requires
        t1 < 0x400_0000_0000,
        t2 < 0x400_0000_0000,
        s1 < 0x800,
        s2 < 0x800,
        generator < 0x400,
        t1 < t2 || (t1 == t2 && s1 < s2),
    ensures
        fid_word(t1, s1, generator) < fid_word(t2, s2, generator),
{
    let s164 = s1 as u64;
    let s264 = s2 as u64;
    let g64 = generator as u64;
    assert(((t1 << 21) | (s164 << 10) | g64) < ((t2 << 21) | (s264 << 10) | g64)) by (bit_vector)
        requires
            t1 < 0x400_0000_0000,
            t2 < 0x400_0000_0000,
            s164 < 0x800,
            s264 < 0x800,
            g64 < 0x400,
            t1 < t2 || (t1 == t2 && s164 < s264),
    ;
}

/// The big-endian bytes of a 64-bit word, most significant first.
pub open spec fn be_bytes(word: u64) -> Seq<u8> {
    seq![
        (word >> 56) as u8,
        (word >> 48) as u8,
        (word >> 40) as u8,
        (word >> 32) as u8,
        (word >> 24) as u8,
        (word >> 16) as u8,
        (word >> 8) as u8,
        word as u8,
    ]
}

/// The 64-bit word read from 8 big-endian bytes.
pub open spec fn be_word(bytes: Seq<u8>) -> u64
    recommends
        bytes.len() == 8,
{
    ((bytes[0] as u64) << 56) | ((bytes[1] as u64) << 48) | ((bytes[2] as u64) << 40)
        | ((bytes[3] as u64) << 32) | ((bytes[4] as u64) << 24) | ((bytes[5] as u64) << 16)
        | ((bytes[6] as u64) << 8) | (bytes[7] as u64)
}

/// Reading back the big-endian bytes of a word recovers the word.
pub proof fn lemma_be_roundtrip(word: u64)
    ensures
        be_word(be_bytes(word)) == word,
{
    let b0 = (word >> 56) as u8;
    let b1 = (word >> 48) as u8;
    let b2 = (word >> 40) as u8;
    let b3 = (word >> 32) as u8;
    let b4 = (word >> 24) as u8;
    let b5 = (word >> 16) as u8;
    let b6 = (word >> 8) as u8;
    let b7 = word as u8;
    assert(((b0 as u64) << 56) | ((b1 as u64) << 48) | ((b2 as u64) << 40) | ((b3 as u64) << 32)
        | ((b4 as u64) << 24) | ((b5 as u64) << 16) | ((b6 as u64) << 8) | (b7 as u64) == word)
        by (bit_vector)
        requires
            b0 == (word >> 56) as u8,
            b1 == (word >> 48) as u8,
            b2 == (word >> 40) as u8,
            b3 == (word >> 32) as u8,
            b4 == (word >> 24) as u8,
            b5 == (word >> 16) as u8,
            b6 == (word >> 8) as u8,
            b7 == word as u8,
    ;
}

/// Every byte the encoder emits is ASCII: the alphabets and `=` all sit
/// below 128.
pub proof fn lemma_encoded_ascii(data: Seq<u8>, padding: bool, urlsafe: bool)
    ensures
        forall|i: int|
            0 <= i < base64::b64_encoded(data, padding, urlsafe).len() ==> #[trigger] base64::b64_encoded(
                data,
                padding,
                urlsafe,
            )[i] < 128,
    decreases data.len(),
{
    let enc = base64::b64_encoded(data, padding, urlsafe);
    if data.len() >= 3 {
        lemma_encoded_ascii(data.skip(3), padding, urlsafe);
        let rest = base64::b64_encoded(data.skip(3), padding, urlsafe);
        assert forall|i: int| 0 <= i < enc.len() implies #[trigger] enc[i] < 128 by {
            if i >= 4 {
                assert(enc[i] == rest[i - 4]);
            } else {
                assert(enc[i] == base64::group3_syms(data[0], data[1], data[2], urlsafe)[i]);
            }
        }
    } else {
        assert forall|i: int| 0 <= i < enc.len() implies #[trigger] enc[i] < 128 by {
            assert(enc[i] == base64::b64_encoded(data, padding, urlsafe)[i]);
        }
    }
}

/// Relies on `str::from_utf8` and `str::to_owned`: bytes below 128 are valid
/// UTF-8, each one the character with the same code, so the unwrap cannot
/// fail and the characters of the result are the bytes.
#[verifier::external_body]
fn ascii_to_string(v: &[u8]) -> (r: String)
    requires
        forall|i: int| 0 <= i < v@.len() ==> v@[i] < 128,
    ensures
        r@ == v@.map_values(|b: u8| b as char),
{
    core::str::from_utf8(v).unwrap().to_owned()
}

/// The 11-character text of a word reads back to the same word: the decoder
/// returns exactly the 8 big-endian bytes, which carry the word.
pub proof fn lemma_text_roundtrip(word: u64)
    ensures
        base64::b64_decoded(base64::b64_encoded(be_bytes(word), false, true), true, false) == (
            be_bytes(word),
            None::<Error>,
        ),
        be_word(be_bytes(word)) == word,
        base64::b64_encoded(be_bytes(word), false, true).len() == 11,
{
    base64::lemma_decode_encode(be_bytes(word), false, true, true, false);
    lemma_be_roundtrip(word);
    base64::lemma_encoded_len(be_bytes(word), false, true);
}

/// The identifier: one 64-bit word laid out as in `fid_word`.  The word is
/// public so that specifications can speak about it directly; `FID::new` is
/// the checked way to build one, while wrapping a raw word is deliberately
/// open, since any 64-bit value is a readable identifier.
#[derive(Debug, Clone, Copy, PartialEq, Eq, Structural, PartialOrd)]
pub struct FID(pub u64);

impl View for FID {
    type V = u64;

    open spec fn view(&self) -> u64 {
        self.0
    }
}

impl FID {
    /// Pack the three fields, checking each against its width: the timestamp
    /// bound is checked first, then sequence, then generator.
    pub fn new(timestamp: u64, sequence: u16, generator: u16) -> (r: Result<FID, Error>)
        ensures
            r == if timestamp >= 0x400_0000_0000 {
                Err::<FID, Error>(Error::TimestampOverflow(timestamp))
            } else if sequence >= 0x800 {
                Err::<FID, Error>(Error::SequenceOverflow(sequence))
            } else if generator >= 0x400 {
                Err::<FID, Error>(Error::GeneratorOverflow(generator))
            } else {
                Ok::<FID, Error>(FID(fid_word(timestamp, sequence, generator)))
            },
    {
        proof {
            config::lemma_layout_values();
        }
        if timestamp >= 1u64 << config::TIMESTAMP_LENGTH {
            Err(Error::TimestampOverflow(timestamp))
        } else if sequence >= 1u16 << config::SEQUENCE_LENGTH {
            Err(Error::SequenceOverflow(sequence))
        } else if generator >= 1u16 << config::GENERATOR_LENGTH {
            Err(Error::GeneratorOverflow(generator))
        } else {
            Ok(FID((timestamp << 21) | ((sequence as u64) << 10) | (generator as u64)))
        }
    }

    /// Serialize to the 8-byte big-endian wire form.
    pub fn to_bytes(&self) -> (r: [u8; 8])
        ensures
            r@ == be_bytes(self@),
    {
        let r: [u8; 8] = [
            (self.0 >> 56) as u8,
            (self.0 >> 48) as u8,
            (self.0 >> 40) as u8,
            (self.0 >> 32) as u8,
            (self.0 >> 24) as u8,
            (self.0 >> 16) as u8,
            (self.0 >> 8) as u8,
            self.0 as u8,
        ];
        proof {
            assert(r@ =~= be_bytes(self@));
        }
        r
    }

    /// Deserialize from the 8-byte big-endian wire form; total.
    pub fn from_bytes(val: &[u8; 8]) -> (r: FID)
        ensures
            r@ == be_word(val@),
    {
        FID::from_slice(val.as_slice()).unwrap()
    }

    /// Deserialize from a byte slice, which must hold exactly 8 bytes.
    pub fn from_slice(val: &[u8]) -> (r: Result<FID, Error>)
        ensures
            r == if val@.len() != 8 {
                Err::<FID, Error>(Error::WrongSliceSize(val@.len() as usize))
            } else {
                Ok::<FID, Error>(FID(be_word(val@)))
            },
    {
        if val.len() != 8 {
            return Err(Error::WrongSliceSize(val.len()));
        }
        Ok(
            FID(
                ((val[0] as u64) << 56) | ((val[1] as u64) << 48) | ((val[2] as u64) << 40) | (
                (val[3] as u64) << 32) | ((val[4] as u64) << 24) | ((val[5] as u64) << 16) | (
                (val[6] as u64) << 8) | (val[7] as u64),
            ),
        )
    }

    /// Serialize to the 11-character URL-safe base64 text form, unpadded.
    pub fn to_b64(&self) -> (r: [u8; 11])
        ensures
            r@ == base64::b64_encoded(be_bytes(self@), false, true),
    {
        let bytes = self.to_bytes();
        let mut buffer: [u8; 11] = [0u8; 11];
        proof {
            base64::lemma_encoded_len(be_bytes(self@), false, true);
        }
        let res = base64::urlsafe_encode_without_pading_into(
            bytes.as_slice(),
            vstd::array::ref_mut_array_unsizing_coercion(&mut buffer),
        );
        proof {
            assert(buffer@ =~= base64::b64_encoded(be_bytes(self@), false, true));
        }
        buffer
    }

    /// Deserialize from base64 text.  Both alphabets are accepted and the
    /// single implicit pad may be absent; the decoded payload must be
    /// exactly 8 bytes.
    pub fn from_b64(val: &[u8]) -> (r: Result<FID, Error>)
        ensures
            ({
                let out = base64::b64_decoded(val@, true, false);
                if out.0.len() > 8 {
                    r == Err::<FID, Error>(Error::Base64BufferTooSmall)
                } else {
                    match out.1 {
                        Some(e) => r == Err::<FID, Error>(e),
                        None => if out.0.len() != 8 {
                            r == Err::<FID, Error>(Error::WrongSliceSize(out.0.len() as usize))
                        } else {
                            r == Ok::<FID, Error>(FID(be_word(out.0)))
                        },
                    }
                }
            }),
    {
        let mut buffer: [u8; 8] = [0u8; 8];
        let n = match base64::decode_into(
            val,
            Some(Error::Base64PaddingError),
            vstd::array::ref_mut_array_unsizing_coercion(&mut buffer),
        ) {
            Ok(n) => n,
            Err(e) => {
                return Err(e);
            },
        };
        if n != 8 {
            return Err(Error::WrongSliceSize(n));
        }
        proof {
            assert(buffer@ =~= base64::b64_decoded(val@, true, false).0);
        }
        Ok(FID::from_bytes(&buffer))
    }

    /// The text form as a `String` of 11 ASCII characters.
    pub fn to_string(&self) -> (r: String)
        ensures
            r@ == base64::b64_encoded(be_bytes(self@), false, true).map_values(|b: u8| b as char),
    {
        let b64 = self.to_b64();
        proof {
            lemma_encoded_ascii(be_bytes(self@), false, true);
        }
        ascii_to_string(b64.as_slice())
    }

    /// Deserialize from base64 text given as a string; the string's UTF-8
    /// bytes are decoded as `from_b64` does.
    pub fn from_string(val: &str) -> (r: Result<FID, Error>)
        ensures
            ({
                let out = base64::b64_decoded(val.spec_bytes(), true, false);
                if out.0.len() > 8 {
                    r == Err::<FID, Error>(Error::Base64BufferTooSmall)
                } else {
                    match out.1 {
                        Some(e) => r == Err::<FID, Error>(e),
                        None => if out.0.len() != 8 {
                            r == Err::<FID, Error>(Error::WrongSliceSize(out.0.len() as usize))
                        } else {
                            r == Ok::<FID, Error>(FID(be_word(out.0)))
                        },
                    }
                }
            }),
    {
        let bytes = val.as_bytes();
        FID::from_b64(bytes)
    }

    /// The timestamp field.
    pub fn timestamp(&self) -> (r: u64)
        ensures
            r == word_timestamp(self@),
    {
        proof {
            config::lemma_layout_values();
            let w = self.0;
            assert((w & 0x7fff_ffff_ffe0_0000) >> 21 == (w >> 21) & 0x3ff_ffff_ffff)
                by (bit_vector);
        }
        (self.0 & config::TIMESTAMP_MASK) >> (config::GENERATOR_LENGTH + config::SEQUENCE_LENGTH)
    }

    /// The sequence field.
    pub fn sequence(&self) -> (r: u16)
        ensures
            r == word_sequence(self@),
    {
        proof {
            config::lemma_layout_values();
            let w = self.0;
            assert((w & 0x1f_fc00) >> 10 == (w >> 10) & 0x7ff) by (bit_vector);
        }
        ((self.0 & config::SEQUENCE_MASK) >> config::GENERATOR_LENGTH) as u16
    }

    /// The generator field.
    pub fn generator(&self) -> (r: u16)
        ensures
            r == word_generator(self@),
    {
        proof {
            config::lemma_layout_values();
        }
        (self.0 & config::GENERATOR_MASK) as u16
    }
}

impl From<u64> for FID {
    /// Wrap a raw word without range checks; every word is readable.
    fn from(id: u64) -> (r: FID) {
        FID(id)
    }
}

impl vstd::std_specs::convert::FromSpecImpl<u64> for FID {
    open spec fn obeys_from_spec() -> bool {
        true
    }

    open spec fn from_spec(id: u64) -> FID {
        FID(id)
    }
}

impl From<FID> for u64 {
    /// The raw 64-bit word of the identifier.
    fn from(id: FID) -> (r: u64) {
        id.0
    }
}

impl vstd::std_specs::convert::FromSpecImpl<FID> for u64 {
    open spec fn obeys_from_spec() -> bool {
        true
    }

    open spec fn from_spec(id: FID) -> u64 {
        id.0
    }
}

} // verus!
