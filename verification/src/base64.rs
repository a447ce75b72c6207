//! Base64 encoder and decoder.
//!
//! Two alphabets share the first 62 symbols: the standard one ends in `+`,
//! `/`, the URL-safe one in `-`, `_`.  The encoder packs three input bytes
//! into four six-bit symbols and either pads a short final group with `=` or
//! truncates it.  The decoder accepts both alphabets at once, enforces the
//! 24-bit group discipline, and can be told to treat padding faults or alien
//! bytes as end of input instead of errors.

use vstd::prelude::*;

use crate::Error;

verus! {

/// Encode bytes with the standard alphabet and `=` padding.
pub fn encode(data: &[u8]) -> (r: Vec<u8>)
    requires
        4 * (data@.len() as int / 3 + 1) <= usize::MAX,
    ensures
        r@ == b64_encoded(data@, true, false),
{
    _encode(data, true, false)
}

/// Encode with the standard alphabet and padding into a caller-provided
/// buffer, returning how many bytes were written.
pub fn encode_into(data: &[u8], buffer: &mut [u8]) -> (r: Result<usize, Error>)
    ensures
        final(buffer)@.len() == old(buffer)@.len(),
        encoded_len(data@.len() as int, true) <= old(buffer)@.len() ==> ({
            let enc = b64_encoded(data@, true, false);
            &&& r == Ok::<usize, Error>(enc.len() as usize)
            &&& final(buffer)@ == enc + old(buffer)@.skip(enc.len() as int)
        }),
        encoded_len(data@.len() as int, true) > old(buffer)@.len() ==> r == Err::<usize, Error>(
            Error::Base64BufferTooSmall,
        ) && final(buffer)@ == old(buffer)@,
{
    _encode_into(data, true, false, buffer)
}

/// Encode bytes with the URL-safe alphabet and `=` padding.
pub fn urlsafe_encode(data: &[u8]) -> (r: Vec<u8>)
    requires
        4 * (data@.len() as int / 3 + 1) <= usize::MAX,
    ensures
        r@ == b64_encoded(data@, true, true),
{
    _encode(data, true, true)
}

/// Encode with the URL-safe alphabet and padding into a caller-provided
/// buffer, returning how many bytes were written.
pub fn urlsafe_encode_into(data: &[u8], buffer: &mut [u8]) -> (r: Result<usize, Error>)
    ensures
        final(buffer)@.len() == old(buffer)@.len(),
        encoded_len(data@.len() as int, true) <= old(buffer)@.len() ==> ({
            let enc = b64_encoded(data@, true, true);
            &&& r == Ok::<usize, Error>(enc.len() as usize)
            &&& final(buffer)@ == enc + old(buffer)@.skip(enc.len() as int)
        }),
        encoded_len(data@.len() as int, true) > old(buffer)@.len() ==> r == Err::<usize, Error>(
            Error::Base64BufferTooSmall,
        ) && final(buffer)@ == old(buffer)@,
{
    _encode_into(data, true, true, buffer)
}

/// Encode bytes with the standard alphabet, truncating the short final group
/// instead of padding it.
pub fn encode_without_pading(data: &[u8]) -> (r: Vec<u8>)
    requires
        4 * (data@.len() as int / 3 + 1) <= usize::MAX,
    ensures
        r@ == b64_encoded(data@, false, false),
{
    _encode(data, false, false)
}

/// Encode with the standard alphabet, unpadded, into a caller-provided
/// buffer, returning how many bytes were written.
pub fn encode_without_pading_into(data: &[u8], buffer: &mut [u8]) -> (r: Result<usize, Error>)
    ensures
        final(buffer)@.len() == old(buffer)@.len(),
        encoded_len(data@.len() as int, false) <= old(buffer)@.len() ==> ({
            let enc = b64_encoded(data@, false, false);
            &&& r == Ok::<usize, Error>(enc.len() as usize)
            &&& final(buffer)@ == enc + old(buffer)@.skip(enc.len() as int)
        }),
        encoded_len(data@.len() as int, false) > old(buffer)@.len() ==> r == Err::<usize, Error>(
            Error::Base64BufferTooSmall,
        ) && final(buffer)@ == old(buffer)@,
{
    _encode_into(data, false, false, buffer)
}

/// Encode bytes with the URL-safe alphabet, truncating the short final group
/// instead of padding it.
pub fn urlsafe_encode_without_pading(data: &[u8]) -> (r: Vec<u8>)
    requires
        4 * (data@.len() as int / 3 + 1) <= usize::MAX,
    ensures
        r@ == b64_encoded(data@, false, true),
{
    _encode(data, false, true)
}

/// Encode with the URL-safe alphabet, unpadded, into a caller-provided
/// buffer, returning how many bytes were written.
pub fn urlsafe_encode_without_pading_into(data: &[u8], buffer: &mut [u8]) -> (r: Result<
    usize,
    Error,
>)
    ensures
        final(buffer)@.len() == old(buffer)@.len(),
        encoded_len(data@.len() as int, false) <= old(buffer)@.len() ==> ({
            let enc = b64_encoded(data@, false, true);
            &&& r == Ok::<usize, Error>(enc.len() as usize)
            &&& final(buffer)@ == enc + old(buffer)@.skip(enc.len() as int)
        }),
        encoded_len(data@.len() as int, false) > old(buffer)@.len() ==> r == Err::<usize, Error>(
            Error::Base64BufferTooSmall,
        ) && final(buffer)@ == old(buffer)@,
{
    _encode_into(data, false, true, buffer)
}

/// The symbol for a six-bit value, in the chosen alphabet.
pub open spec fn sym_of(v: int, urlsafe: bool) -> u8
    recommends
        0 <= v < 64,
{
    if v < 26 {
        (v + 65) as u8  // 'A'..'Z'

    } else if v < 52 {
        (v - 26 + 97) as u8  // 'a'..'z'

    } else if v < 62 {
        (v - 52 + 48) as u8  // '0'..'9'

    } else if v == 62 {
        if urlsafe {
            45u8  // '-'

        } else {
            43u8  // '+'

        }
    } else {
        if urlsafe {
            95u8  // '_'

        } else {
            47u8  // '/'

        }
    }
}

/// Whether a byte is a symbol of either alphabet; `=` is not.
pub open spec fn is_sym(c: u8) -> bool {
    (65 <= c && c <= 90) || (97 <= c && c <= 122) || (48 <= c && c <= 57) || c == 45 || c == 43
        || c == 95 || c == 47
}

/// The six-bit value of a symbol of either alphabet; 0 for any other byte.
pub open spec fn sym_val(c: u8) -> int {
    if 65 <= c && c <= 90 {
        c - 65
    } else if 97 <= c && c <= 122 {
        c - 97 + 26
    } else if 48 <= c && c <= 57 {
        c - 48 + 52
    } else if c == 45 || c == 43 {
        62
    } else if c == 95 || c == 47 {
        63
    } else {
        0
    }
}

/// Decoding a symbol undoes encoding it, whichever alphabet wrote it.
pub proof fn lemma_sym_roundtrip(v: int, urlsafe: bool)
    requires
        0 <= v < 64,
    ensures
        is_sym(sym_of(v, urlsafe)),
        sym_val(sym_of(v, urlsafe)) == v,
        sym_of(v, urlsafe) != 61,
{
}

/// The four symbols of a full three-byte group, high six-bit chunks first.
pub open spec fn group3_syms(b0: u8, b1: u8, b2: u8, urlsafe: bool) -> Seq<u8> {
    seq![
        sym_of(b0 as int / 4, urlsafe),
        sym_of((b0 as int % 4) * 16 + b1 as int / 16, urlsafe),
        sym_of((b1 as int % 16) * 4 + b2 as int / 64, urlsafe),
        sym_of(b2 as int % 64, urlsafe),
    ]
}

/// How many bytes the encoder emits for `n` input bytes.
pub open spec fn encoded_len(n: int, padding: bool) -> int
    recommends
        0 <= n,
{
    if padding {
        4 * ((n + 2) / 3)
    } else if n % 3 == 0 {
        4 * (n / 3)
    } else if n % 3 == 1 {
        4 * (n / 3) + 2
    } else {
        4 * (n / 3) + 3
    }
}

/// The encoder's whole output: full groups of four symbols, then a short
/// final group, padded with `=` to four symbols or left short.
pub open spec fn b64_encoded(data: Seq<u8>, padding: bool, urlsafe: bool) -> Seq<u8>
    decreases data.len(),
{
    if data.len() >= 3 {
        group3_syms(data[0], data[1], data[2], urlsafe) + b64_encoded(
            data.skip(3),
            padding,
            urlsafe,
        )
    } else if data.len() == 2 {
        let syms = seq![
            sym_of(data[0] as int / 4, urlsafe),
            sym_of((data[0] as int % 4) * 16 + data[1] as int / 16, urlsafe),
            sym_of((data[1] as int % 16) * 4, urlsafe),
        ];
        if padding {
            syms.push(61u8)
        } else {
            syms
        }
    } else if data.len() == 1 {
        let syms = seq![
            sym_of(data[0] as int / 4, urlsafe),
            sym_of((data[0] as int % 4) * 16, urlsafe),
        ];
        if padding {
            syms.push(61u8).push(61u8)
        } else {
            syms
        }
    } else {
        Seq::empty()
    }
}

/// The encoder emits exactly `encoded_len` bytes.
pub proof fn lemma_encoded_len(data: Seq<u8>, padding: bool, urlsafe: bool)
    ensures
        b64_encoded(data, padding, urlsafe).len() == encoded_len(data.len() as int, padding),
    decreases data.len(),
{
    if data.len() >= 3 {
        lemma_encoded_len(data.skip(3), padding, urlsafe);
        let n = data.len() as int;
        assert((n + 2) / 3 == (n - 3 + 2) / 3 + 1);
        assert(n / 3 == (n - 3) / 3 + 1);
        assert(n % 3 == (n - 3) % 3);
    }
}

/// Whether the ignore selector relaxes padding errors.
pub open spec fn ignores_padding(ignore: Option<Error>) -> bool {
    ignore == Some(Error::Base64PaddingError) || ignore == Some(
        Error::Base64PaddingWrongSymbolError,
    )
}

/// Whether the ignore selector relaxes wrong-symbol errors.
pub open spec fn ignores_symbol(ignore: Option<Error>) -> bool {
    ignore == Some(Error::Base64WrongSymbolError) || ignore == Some(
        Error::Base64PaddingWrongSymbolError,
    )
}

/// How many leading bytes of the remaining input are alphabet symbols, up to
/// the group size of four.
pub open spec fn group_len(d: Seq<u8>) -> int {
    if d.len() < 1 || !is_sym(d[0]) {
        0
    } else if d.len() < 2 || !is_sym(d[1]) {
        1
    } else if d.len() < 3 || !is_sym(d[2]) {
        2
    } else if d.len() < 4 || !is_sym(d[3]) {
        3
    } else {
        4
    }
}

/// The bytes a group at the head of the remaining input yields once
/// complete: of the three bytes carried by four six-bit symbols, only those
/// whose bits were all present are kept.
pub open spec fn group_bytes(d: Seq<u8>) -> Seq<u8> {
    let k = group_len(d);
    let v0 = if k >= 1 {
        sym_val(d[0])
    } else {
        0
    };
    let v1 = if k >= 2 {
        sym_val(d[1])
    } else {
        0
    };
    let v2 = if k >= 3 {
        sym_val(d[2])
    } else {
        0
    };
    let v3 = if k >= 4 {
        sym_val(d[3])
    } else {
        0
    };
    let b0 = (v0 * 4 + v1 / 16) as u8;
    let b1 = ((v1 % 16) * 16 + v2 / 4) as u8;
    let b2 = ((v2 % 4) * 64 + v3) as u8;
    if k == 4 {
        seq![b0, b1, b2]
    } else if k == 3 {
        seq![b0, b1]
    } else if k == 2 {
        seq![b0]
    } else {
        Seq::empty()
    }
}

/// What the decoder yields and how it stops: the emitted bytes, and `None`
/// for a clean end or the error that cut decoding short.  A full group of
/// four symbols emits its three bytes and decoding continues.  A group cut
/// short by the end of the input, or completed to four with `=` at the very
/// end of the input, keeps `floor(6k/8)` bytes of its `k` symbols; any other
/// padding shape is a padding error, or, when padding errors are ignored,
/// ends the input at this group.  A byte outside the alphabet is a symbol
/// error, or, when those are ignored, ends the group and decoding goes on
/// after the alien byte.
pub open spec fn b64_decoded(d: Seq<u8>, ig_pad: bool, ig_sym: bool) -> (Seq<u8>, Option<Error>)
    decreases d.len(),
{
    if d.len() == 0 {
        (Seq::empty(), None)
    } else {
        let k = group_len(d);
        let bytes = group_bytes(d);
        if k == 4 {
            let rest = b64_decoded(d.skip(4), ig_pad, ig_sym);
            (bytes + rest.0, rest.1)
        } else if k == d.len() {
            // the input ends inside a group, no pad in sight
            if ig_pad && k >= 2 {
                (bytes, None)
            } else {
                (Seq::empty(), Some(Error::Base64PaddingError))
            }
        } else if d[k] == 61 {
            // a pad byte: it must complete a final four-byte group
            if 1 <= k && d.len() == 4 && (forall|i: int| k <= i < 4 ==> d[i] == 61) {
                (bytes, None)
            } else if ig_pad {
                (bytes, None)
            } else {
                (Seq::empty(), Some(Error::Base64PaddingError))
            }
        } else {
            // a byte outside the alphabet
            if ig_sym {
                let rest = b64_decoded(d.skip(k + 1), ig_pad, ig_sym);
                (bytes + rest.0, rest.1)
            } else {
                (Seq::empty(), Some(Error::Base64WrongSymbolError))
            }
        }
    }
}

/// Four output bytes never stand for more than three input bytes.
pub proof fn lemma_decoded_len(d: Seq<u8>, ig_pad: bool, ig_sym: bool)
    ensures
        4 * b64_decoded(d, ig_pad, ig_sym).0.len() <= 3 * d.len() + 3,
    decreases d.len(),
{
    if d.len() == 0 {
    } else {
        let k = group_len(d);
        if k == 4 {
            lemma_decoded_len(d.skip(4), ig_pad, ig_sym);
        } else if k == d.len() {
        } else if d[k] == 61 {
        } else {
            if ig_sym {
                lemma_decoded_len(d.skip(k + 1), ig_pad, ig_sym);
            }
        }
    }
}

/// The symbol for a six-bit value, executable form.
fn sym_char(v: u8, urlsafe: bool) -> (r: u8)
    requires
        v < 64,
    ensures
        r == sym_of(v as int, urlsafe),
{
    if v < 26 {
        v + 65
    } else if v < 52 {
        v - 26 + 97
    } else if v < 62 {
        v - 52 + 48
    } else if v == 62 {
        if urlsafe {
            45
        } else {
            43
        }
    } else {
        if urlsafe {
            95
        } else {
            47
        }
    }
}

/// What the encoder writes, the decoder reads back: decoding an encoding
/// yields the original bytes and no error, for every byte sequence and
/// either alphabet.  An unpadded encoding needs the decoder's padding
/// relaxation, since its short final group arrives without `=`.
pub proof fn lemma_decode_encode(
    data: Seq<u8>,
    padding: bool,
    urlsafe: bool,
    ig_pad: bool,
    ig_sym: bool,
)
    requires
        padding || ig_pad,
    ensures
        b64_decoded(b64_encoded(data, padding, urlsafe), ig_pad, ig_sym) == (data, None::<Error>),
    decreases data.len(),
{
    let enc = b64_encoded(data, padding, urlsafe);
    if data.len() == 0 {
        assert(enc =~= Seq::<u8>::empty());
        assert(b64_decoded(enc, ig_pad, ig_sym) == (data, None::<Error>));
    } else if data.len() >= 3 {
        let b0 = data[0];
        let b1 = data[1];
        let b2 = data[2];
        let v0 = b0 as int / 4;
        let v1 = (b0 as int % 4) * 16 + b1 as int / 16;
        let v2 = (b1 as int % 16) * 4 + b2 as int / 64;
        let v3 = b2 as int % 64;
        lemma_sym_roundtrip(v0, urlsafe);
        lemma_sym_roundtrip(v1, urlsafe);
        lemma_sym_roundtrip(v2, urlsafe);
        lemma_sym_roundtrip(v3, urlsafe);
        let rest_enc = b64_encoded(data.skip(3), padding, urlsafe);
        assert(enc == group3_syms(b0, b1, b2, urlsafe) + rest_enc);
        assert(enc[0] == sym_of(v0, urlsafe) && enc[1] == sym_of(v1, urlsafe) && enc[2] == sym_of(
            v2,
            urlsafe,
        ) && enc[3] == sym_of(v3, urlsafe));
        lemma_encoded_len(data, padding, urlsafe);
        assert(group_len(enc) == 4);
        assert(sym_val(enc[0]) == v0 && sym_val(enc[1]) == v1 && sym_val(enc[2]) == v2 && sym_val(
            enc[3],
        ) == v3);
        assert(v0 * 4 + v1 / 16 == b0);
        assert((v1 % 16) * 16 + v2 / 4 == b1);
        assert((v2 % 4) * 64 + v3 == b2);
        assert(group_bytes(enc) =~= seq![b0, b1, b2]);
        lemma_decode_encode(data.skip(3), padding, urlsafe, ig_pad, ig_sym);
        assert(enc.skip(4) =~= rest_enc);
        assert(b64_decoded(enc, ig_pad, ig_sym).0 =~= data);
    } else if data.len() == 2 {
        let b0 = data[0];
        let b1 = data[1];
        let v0 = b0 as int / 4;
        let v1 = (b0 as int % 4) * 16 + b1 as int / 16;
        let v2 = (b1 as int % 16) * 4;
        lemma_sym_roundtrip(v0, urlsafe);
        lemma_sym_roundtrip(v1, urlsafe);
        lemma_sym_roundtrip(v2, urlsafe);
        assert(enc[0] == sym_of(v0, urlsafe) && enc[1] == sym_of(v1, urlsafe) && enc[2] == sym_of(
            v2,
            urlsafe,
        ));
        if padding {
            assert(enc.len() == 4 && enc[3] == 61);
            assert(group_len(enc) == 3);
            assert(forall|i: int| 3 <= i < 4 ==> enc[i] == 61);
        } else {
            assert(enc.len() == 3);
            assert(group_len(enc) == 3);
        }
        assert(v0 * 4 + v1 / 16 == b0);
        assert((v1 % 16) * 16 + v2 / 4 == b1);
        assert(group_bytes(enc) =~= seq![b0, b1]);
        assert(b64_decoded(enc, ig_pad, ig_sym).0 =~= data);
    } else {
        let b0 = data[0];
        let v0 = b0 as int / 4;
        let v1 = (b0 as int % 4) * 16;
        lemma_sym_roundtrip(v0, urlsafe);
        lemma_sym_roundtrip(v1, urlsafe);
        assert(enc[0] == sym_of(v0, urlsafe) && enc[1] == sym_of(v1, urlsafe));
        if padding {
            assert(enc.len() == 4 && enc[2] == 61 && enc[3] == 61);
            assert(group_len(enc) == 2);
            assert(forall|i: int| 2 <= i < 4 ==> enc[i] == 61);
        } else {
            assert(enc.len() == 2);
            assert(group_len(enc) == 2);
        }
        assert(v0 * 4 + v1 / 16 == b0);
        assert(group_bytes(enc) =~= seq![b0]);
        assert(b64_decoded(enc, ig_pad, ig_sym).0 =~= data);
    }
}

/// The six-bit value of an input byte, or `None` for `=` and every other
/// byte outside both alphabets.
fn decode_char(x: u8) -> (r: Option<u8>)
    ensures
        r is Some <==> is_sym(x),
        r matches Some(v) ==> v == sym_val(x) && v < 64,
{
    if 65 <= x && x <= 90 {
        Some(x - 65)  // 'A'..'Z'

    } else if 97 <= x && x <= 122 {
        Some(x - 97 + 26)  // 'a'..'z'

    } else if 48 <= x && x <= 57 {
        Some(x - 48 + 26 * 2)  // '0'..'9'

    } else if 45 == x || 43 == x {
        Some(0x3e)  // '-' or '+'

    } else if 95 == x || 47 == x {
        Some(0x3f)  // '_' or '/'

    } else {
        None
    }
}

/// Append one byte at the end of what was emitted so far, or report that the
/// buffer is full.
fn emit_byte(
    buffer: &mut [u8],
    out_len: usize,
    b: u8,
    Ghost(emitted): Ghost<Seq<u8>>,
    Ghost(buf0): Ghost<Seq<u8>>,
) -> (r: Result<(), Error>)
    requires
        old(buffer)@.len() == buf0.len(),
        out_len == emitted.len(),
        old(buffer)@ == emitted + buf0.skip(out_len as int),
    ensures
        final(buffer)@.len() == old(buffer)@.len(),
        out_len < buf0.len() ==> r == Ok::<(), Error>(()) && final(buffer)@ == emitted.push(b)
            + buf0.skip(out_len as int + 1),
        out_len >= buf0.len() ==> r == Err::<(), Error>(Error::Base64BufferTooSmall)
            && final(buffer)@ == old(buffer)@,
{
    if out_len < buffer.len() {
        buffer[out_len] = b;
        proof {
            assert(buffer@ =~= emitted.push(b) + buf0.skip(out_len as int + 1));
        }
        Ok(())
    } else {
        Err(Error::Base64BufferTooSmall)
    }
}

/// Append up to three bytes of one group, stopping with an error at the end
/// of the buffer.  `total0` is the whole decoded output; what was emitted so
/// far is its prefix of length `out_len`, and the group's bytes come next.
fn emit_upto3(
    buffer: &mut [u8],
    out_len: usize,
    b0: u8,
    b1: u8,
    b2: u8,
    count: usize,
    Ghost(total0): Ghost<Seq<u8>>,
    Ghost(buf0): Ghost<Seq<u8>>,
) -> (r: Result<usize, Error>)
    requires
        count <= 3,
        buf0.len() <= usize::MAX,
        old(buffer)@.len() == buf0.len(),
        out_len <= buf0.len(),
        out_len + count <= total0.len(),
        old(buffer)@ == total0.take(out_len as int) + buf0.skip(out_len as int),
        count >= 1 ==> total0[out_len as int] == b0,
        count >= 2 ==> total0[out_len as int + 1] == b1,
        count >= 3 ==> total0[out_len as int + 2] == b2,
    ensures
        final(buffer)@.len() == old(buffer)@.len(),
        r matches Ok(n) ==> n == out_len + count && n <= buf0.len() && final(buffer)@
            == total0.take(n as int) + buf0.skip(n as int),
        r is Err ==> r == Err::<usize, Error>(Error::Base64BufferTooSmall) && total0.len()
            > buf0.len() && final(buffer)@ == total0.take(buf0.len() as int),
{
    let mut n = out_len;
    if count >= 1 {
        match emit_byte(buffer, n, b0, Ghost(total0.take(n as int)), Ghost(buf0)) {
            Ok(_) => {
                proof {
                    assert(total0.take(n as int).push(b0) =~= total0.take(n as int + 1));
                }
                n = n + 1;
            },
            Err(e) => {
                proof {
                    assert(buffer@ =~= total0.take(buf0.len() as int));
                }
                return Err(e);
            },
        }
    }
    if count >= 2 {
        match emit_byte(buffer, n, b1, Ghost(total0.take(n as int)), Ghost(buf0)) {
            Ok(_) => {
                proof {
                    assert(total0.take(n as int).push(b1) =~= total0.take(n as int + 1));
                }
                n = n + 1;
            },
            Err(e) => {
                proof {
                    assert(buffer@ =~= total0.take(buf0.len() as int));
                }
                return Err(e);
            },
        }
    }
    if count >= 3 {
        match emit_byte(buffer, n, b2, Ghost(total0.take(n as int)), Ghost(buf0)) {
            Ok(_) => {
                proof {
                    assert(total0.take(n as int).push(b2) =~= total0.take(n as int + 1));
                }
                n = n + 1;
            },
            Err(e) => {
                proof {
                    assert(buffer@ =~= total0.take(buf0.len() as int));
                }
                return Err(e);
            },
        }
    }
    Ok(n)
}

/// Decode into a caller-provided buffer, returning how many bytes were
/// written.  The optional `ignore_error` relaxes the named error kind as the
/// decoder's ignore mode describes; any other value ignores nothing.
#[verifier::rlimit(100)]
#[verifier::loop_isolation(false)]
pub fn decode_into(data: &[u8], ignore_error: Option<Error>, buffer: &mut [u8]) -> (r: Result<
    usize,
    Error,
>)
    ensures
        final(buffer)@.len() == old(buffer)@.len(),
        ({
            let out = b64_decoded(
                data@,
                ignores_padding(ignore_error),
                ignores_symbol(ignore_error),
            );
            if out.0.len() > old(buffer)@.len() {
                r == Err::<usize, Error>(Error::Base64BufferTooSmall) && final(buffer)@
                    == out.0.take(old(buffer)@.len() as int)
            } else {
                &&& final(buffer)@ == out.0 + old(buffer)@.skip(out.0.len() as int)
                &&& (out.1 is None ==> r == Ok::<usize, Error>(out.0.len() as usize))
                &&& (out.1 matches Some(e) ==> r == Err::<usize, Error>(e))
            }
        }),
{
    let ig_pad = match ignore_error {
        Some(Error::Base64PaddingError) => true,
        Some(Error::Base64PaddingWrongSymbolError) => true,
        _ => false,
    };
    let ig_sym = match ignore_error {
        Some(Error::Base64WrongSymbolError) => true,
        Some(Error::Base64PaddingWrongSymbolError) => true,
        _ => false,
    };
    let ghost total = b64_decoded(data@, ig_pad, ig_sym);
    let ghost buf0 = buffer@;
    let buffer_len = buffer.len();
    let mut pos: usize = 0;
    let mut out_len: usize = 0;
    proof {
        assert(data@.skip(0) =~= data@);
        assert(total.0.skip(0) =~= total.0);
        assert(buffer@ =~= total.0.take(0) + buf0.skip(0));
    }
    loop
        invariant
            pos <= data@.len(),
            out_len <= buf0.len(),
            out_len <= total.0.len(),
            buffer@.len() == buf0.len(),
            buffer_len == buf0.len(),
            total == b64_decoded(data@, ig_pad, ig_sym),
            ig_pad == ignores_padding(ignore_error),
            ig_sym == ignores_symbol(ignore_error),
            b64_decoded(data@.skip(pos as int), ig_pad, ig_sym).0 == total.0.skip(out_len as int),
            b64_decoded(data@.skip(pos as int), ig_pad, ig_sym).1 == total.1,
            buffer@ == total.0.take(out_len as int) + buf0.skip(out_len as int),
        decreases data@.len() - pos,
    {
        let ghost d = data@.skip(pos as int);
        if pos == data.len() {
            proof {
                assert(d =~= Seq::<u8>::empty());
                assert(total.0.skip(out_len as int) =~= Seq::<u8>::empty());
                assert(total.0.len() == out_len);
                assert(buffer@ =~= total.0 + buf0.skip(out_len as int));
            }
            return Ok(out_len);
        }
        // scan up to four symbols of the group that starts at pos
        let mut k: usize = 0;
        let mut vs: [u8; 4] = [0u8; 4];
        let mut term: u8 = 0;  // 0 four symbols; 1 input ended; 2 pad byte; 3 alien byte
        while k < 4 && term == 0
            invariant
                k <= 4,
                pos + k <= data@.len(),
                pos <= data@.len(),
                k >= 1 ==> is_sym(data@[pos as int]) && vs@[0] == sym_val(data@[pos as int]),
                k >= 2 ==> is_sym(data@[pos + 1]) && vs@[1] == sym_val(data@[pos + 1]),
                k >= 3 ==> is_sym(data@[pos + 2]) && vs@[2] == sym_val(data@[pos + 2]),
                k >= 4 ==> is_sym(data@[pos + 3]) && vs@[3] == sym_val(data@[pos + 3]),
                k < 1 ==> vs@[0] == 0,
                k < 2 ==> vs@[1] == 0,
                k < 3 ==> vs@[2] == 0,
                k < 4 ==> vs@[3] == 0,
                vs@[0] < 64 && vs@[1] < 64 && vs@[2] < 64 && vs@[3] < 64,
                term == 0 || term == 1 || term == 2 || term == 3,
                term != 0 ==> k < 4,
                term == 1 ==> pos + k == data@.len(),
                term == 2 ==> pos + k < data@.len() && !is_sym(data@[pos + k]) && data@[pos + k]
                    == 61,
                term == 3 ==> pos + k < data@.len() && !is_sym(data@[pos + k]) && data@[pos + k]
                    != 61,
            decreases 4 - k + if term == 0 {
                1int
            } else {
                0int
            },
        {
            if pos + k == data.len() {
                term = 1;
            } else {
                let c = data[pos + k];
                match decode_char(c) {
                    Some(v) => {
                        let ghost vs_pre = vs@;
                        vs[k] = v;
                        proof {
                            assert(vs@ =~= vs_pre.update(k as int, v));
                        }
                        k = k + 1;
                    },
                    None => {
                        if c == 61 {
                            term = 2;
                        } else {
                            term = 3;
                        }
                    },
                }
            }
        }
        proof {
            assert(d.len() == data@.len() - pos);
            if k >= 1 {
                assert(d[0] == data@[pos as int]);
            }
            if k >= 2 {
                assert(d[1] == data@[pos + 1]);
            }
            if k >= 3 {
                assert(d[2] == data@[pos + 2]);
            }
            if k >= 4 {
                assert(d[3] == data@[pos + 3]);
            }
            if term != 0 && (k as int) < d.len() {
                assert(d[k as int] == data@[pos + k]);
            }
            assert(group_len(d) == k);
        }
        let w0 = vs[0];
        let w1 = vs[1];
        let w2 = vs[2];
        let w3 = vs[3];
        let b0 = w0 * 4 + w1 / 16;
        let b1 = (w1 % 16) * 16 + w2 / 4;
        let b2 = (w2 % 4) * 64 + w3;
        let count: usize = if k == 4 {
            3
        } else if k == 3 {
            2
        } else if k == 2 {
            1
        } else {
            0
        };
        proof {
            if k == 4 {
                assert(group_bytes(d) =~= seq![b0, b1, b2]);
            } else if k == 3 {
                assert(group_bytes(d) =~= seq![b0, b1]);
            } else if k == 2 {
                assert(group_bytes(d) =~= seq![b0]);
            } else {
                assert(group_bytes(d) =~= Seq::<u8>::empty());
            }
        }
        if term == 0 {
            // a full group: emit its three bytes and continue
            proof {
                let rest = b64_decoded(d.skip(4), ig_pad, ig_sym);
                assert(b64_decoded(d, ig_pad, ig_sym).0 == group_bytes(d) + rest.0);
                assert(total.0.skip(out_len as int).len() >= 3);
                assert(total.0.len() >= out_len + 3);
                assert(total.0.skip(out_len as int)[0] == b0 && total.0.skip(out_len as int)[1]
                    == b1 && total.0.skip(out_len as int)[2] == b2);
                assert(total.0[out_len as int] == b0 && total.0[out_len as int + 1] == b1
                    && total.0[out_len as int + 2] == b2);
            }
            let n = match emit_upto3(buffer, out_len, b0, b1, b2, 3, Ghost(total.0), Ghost(buf0)) {
                Ok(n) => n,
                Err(e) => {
                    return Err(e);
                },
            };
            proof {
                let rest = b64_decoded(d.skip(4), ig_pad, ig_sym);
                assert(d.skip(4) =~= data@.skip(pos as int + 4));
                assert(rest.0 =~= total.0.skip(out_len as int).skip(3));
                assert(total.0.skip(out_len as int).skip(3) =~= total.0.skip(out_len as int + 3));
                assert(b64_decoded(d, ig_pad, ig_sym).1 == rest.1);
            }
            pos = pos + 4;
            out_len = n;
        } else if term == 1 {
            // the input ended inside the group
            if ig_pad && k >= 2 {
                proof {
                    assert(b64_decoded(d, ig_pad, ig_sym) == (group_bytes(d), None::<Error>));
                    assert(total.0.skip(out_len as int).len() == count);
                    assert(total.0.len() == out_len + count);
                    assert(count >= 1 ==> total.0[out_len as int] == total.0.skip(
                        out_len as int,
                    )[0]);
                    assert(count >= 2 ==> total.0[out_len as int + 1] == total.0.skip(
                        out_len as int,
                    )[1]);
                    assert(total.1 is None);
                }
                let n = match emit_upto3(
                    buffer,
                    out_len,
                    b0,
                    b1,
                    b2,
                    count,
                    Ghost(total.0),
                    Ghost(buf0),
                ) {
                    Ok(n) => n,
                    Err(e) => {
                        return Err(e);
                    },
                };
                proof {
                    assert(buffer@ =~= total.0 + buf0.skip(n as int));
                }
                return Ok(n);
            } else {
                proof {
                    assert(b64_decoded(d, ig_pad, ig_sym) == (
                        Seq::<u8>::empty(),
                        Some(Error::Base64PaddingError),
                    ));
                    assert(total.0.len() == out_len);
                    assert(total.1 == Some(Error::Base64PaddingError));
                    assert(buffer@ =~= total.0 + buf0.skip(out_len as int));
                }
                return Err(Error::Base64PaddingError);
            }
        } else if term == 2 {
            // a pad byte: the group must close a four-byte final unit
            let rem = data.len() - pos;
            let mut pads_ok = k >= 1 && rem == 4;
            let mut j = k;
            while j < 4 && pads_ok
                invariant
                    k <= j <= 4,
                    pos <= data@.len(),
                    pads_ok ==> k >= 1 && data@.len() - pos == 4,
                    pads_ok ==> forall|i: int| k <= i < j ==> #[trigger] data@[pos + i] == 61,
                    !pads_ok ==> !(1 <= k && data@.len() - pos == 4 && (forall|i: int|
                        k <= i < 4 ==> #[trigger] data@[pos + i] == 61)),
                decreases 4 - j + if pads_ok {
                    1int
                } else {
                    0int
                },
            {
                if data[pos + j] != 61 {
                    pads_ok = false;
                } else {
                    j = j + 1;
                }
            }
            proof {
                if pads_ok {
                    assert forall|i: int| k <= i < 4 implies #[trigger] d[i] == 61 by {
                        assert(data@[pos + i] == 61);
                        assert(d[i] == data@[pos + i]);
                    }
                    assert(1 <= k && d.len() == 4 && (forall|i: int| k <= i < 4 ==> d[i] == 61));
                    assert(b64_decoded(d, ig_pad, ig_sym) == (group_bytes(d), None::<Error>));
                } else {
                    if 1 <= k && d.len() == 4 {
                        assert(exists|i: int| k <= i < 4 && #[trigger] data@[pos + i] != 61);
                        let i0 = choose|i: int| k <= i < 4 && #[trigger] data@[pos + i] != 61;
                        assert(d[i0] != 61);
                        assert(!(forall|i: int| k <= i < 4 ==> d[i] == 61));
                    }
                    assert(!(1 <= k && d.len() == 4 && (forall|i: int|
                        k <= i < 4 ==> d[i] == 61)));
                }
            }
            if pads_ok || ig_pad {
                proof {
                    assert(b64_decoded(d, ig_pad, ig_sym) == (group_bytes(d), None::<Error>));
                    assert(total.0.skip(out_len as int).len() == count);
                    assert(total.0.len() == out_len + count);
                    assert(count >= 1 ==> total.0[out_len as int] == total.0.skip(
                        out_len as int,
                    )[0]);
                    assert(count >= 2 ==> total.0[out_len as int + 1] == total.0.skip(
                        out_len as int,
                    )[1]);
                    assert(count >= 3 ==> total.0[out_len as int + 2] == total.0.skip(
                        out_len as int,
                    )[2]);
                    assert(total.1 is None);
                }
                let n = match emit_upto3(
                    buffer,
                    out_len,
                    b0,
                    b1,
                    b2,
                    count,
                    Ghost(total.0),
                    Ghost(buf0),
                ) {
                    Ok(n) => n,
                    Err(e) => {
                        return Err(e);
                    },
                };
                proof {
                    assert(buffer@ =~= total.0 + buf0.skip(n as int));
                }
                return Ok(n);
            } else {
                proof {
                    assert(b64_decoded(d, ig_pad, ig_sym) == (
                        Seq::<u8>::empty(),
                        Some(Error::Base64PaddingError),
                    ));
                    assert(total.0.skip(out_len as int) =~= Seq::<u8>::empty());
                    assert(total.0.len() == out_len);
                    assert(total.1 == Some(Error::Base64PaddingError));
                    assert(buffer@ =~= total.0 + buf0.skip(out_len as int));
                }
                return Err(Error::Base64PaddingError);
            }
        } else {
            // a byte outside the alphabet
            if ig_sym {
                proof {
                    let rest = b64_decoded(d.skip(k as int + 1), ig_pad, ig_sym);
                    assert(b64_decoded(d, ig_pad, ig_sym).0 == group_bytes(d) + rest.0);
                    assert(total.0.skip(out_len as int).len() >= count);
                    assert(total.0.len() >= out_len + count);
                    assert(count >= 1 ==> total.0[out_len as int] == total.0.skip(
                        out_len as int,
                    )[0]);
                    assert(count >= 2 ==> total.0[out_len as int + 1] == total.0.skip(
                        out_len as int,
                    )[1]);
                    assert(count >= 3 ==> total.0[out_len as int + 2] == total.0.skip(
                        out_len as int,
                    )[2]);
                }
                let n = match emit_upto3(
                    buffer,
                    out_len,
                    b0,
                    b1,
                    b2,
                    count,
                    Ghost(total.0),
                    Ghost(buf0),
                ) {
                    Ok(n) => n,
                    Err(e) => {
                        return Err(e);
                    },
                };
                proof {
                    let rest = b64_decoded(d.skip(k as int + 1), ig_pad, ig_sym);
                    assert(d.skip(k as int + 1) =~= data@.skip(pos as int + k + 1));
                    assert(rest.0 =~= total.0.skip(out_len as int).skip(count as int));
                    assert(total.0.skip(out_len as int).skip(count as int) =~= total.0.skip(
                        out_len as int + count,
                    ));
                    assert(b64_decoded(d, ig_pad, ig_sym).1 == rest.1);
                }
                pos = pos + k + 1;
                out_len = n;
            } else {
                proof {
                    assert(b64_decoded(d, ig_pad, ig_sym) == (
                        Seq::<u8>::empty(),
                        Some(Error::Base64WrongSymbolError),
                    ));
                    assert(total.0.skip(out_len as int) =~= Seq::<u8>::empty());
                    assert(total.0.len() == out_len);
                    assert(total.1 == Some(Error::Base64WrongSymbolError));
                    assert(buffer@ =~= total.0 + buf0.skip(out_len as int));
                }
                return Err(Error::Base64WrongSymbolError);
            }
        }
    }
}

/// Decode into a fresh vector, which is always large enough; the vector is
/// cut down to what was decoded.
pub fn decode(data: &[u8], ignore_error: Option<Error>) -> (r: Result<Vec<u8>, Error>)
    requires
        3 * (data@.len() as int / 4 + 1) <= usize::MAX,
    ensures
        ({
            let out = b64_decoded(
                data@,
                ignores_padding(ignore_error),
                ignores_symbol(ignore_error),
            );
            &&& (out.1 is None ==> (r matches Ok(v) && v@ == out.0))
            &&& (out.1 matches Some(e) ==> r == Err::<Vec<u8>, Error>(e))
        }),
{
    let full_size = (data.len() / 4 + 1) * 3;
    let mut result: Vec<u8> = vec![0u8; full_size];
    let ghost igp = ignores_padding(ignore_error);
    let ghost igs = ignores_symbol(ignore_error);
    proof {
        lemma_decoded_len(data@, igp, igs);
        let n = data@.len() as int;
        assert(4 * (3 * (n / 4) + 3) >= 3 * n + 3) by {
            assert(n / 4 >= (n - 3) / 4);
            assert(4 * (n / 4) >= n - 3);
        };
        assert(b64_decoded(data@, igp, igs).0.len() <= full_size);
    }
    let real_size = match decode_into(data, ignore_error, result.as_mut_slice()) {
        Ok(n) => n,
        Err(e) => {
            return Err(e);
        },
    };
    result.truncate(real_size);
    proof {
        assert(result@ =~= b64_decoded(data@, igp, igs).0);
    }
    Ok(result)
}

/// How many bytes the encoder will emit, or `None` when that does not fit in
/// `usize`.
fn encoded_len_exec(n: usize, padding: bool) -> (r: Option<usize>)
    ensures
        r matches Some(m) ==> m == encoded_len(n as int, padding),
        r is None ==> encoded_len(n as int, padding) > usize::MAX,
{
    let groups = n / 3;
    let rem = n % 3;
    let tail: usize = if padding {
        if rem == 0 {
            0
        } else {
            4
        }
    } else {
        if rem == 0 {
            0
        } else if rem == 1 {
            2
        } else {
            3
        }
    };
    proof {
        if padding {
            assert((n as int + 2) / 3 == n as int / 3 + if n as int % 3 == 0 {
                0int
            } else {
                1int
            });
        }
    }
    match groups.checked_mul(4) {
        Some(full) => full.checked_add(tail),
        None => None,
    }
}

/// Encode into a fresh vector sized for the worst case, then cut it down to
/// what was written.
fn _encode(data: &[u8], padding: bool, urlsafe: bool) -> (r: Vec<u8>)
    requires
        4 * (data@.len() as int / 3 + 1) <= usize::MAX,
    ensures
        r@ == b64_encoded(data@, padding, urlsafe),
{
    let full_size = 4 * (data.len() / 3 + 1);
    let mut result: Vec<u8> = vec![0u8; full_size];
    proof {
        lemma_encoded_len(data@, padding, urlsafe);
        let n = data@.len() as int;
        assert((n + 2) / 3 <= n / 3 + 1);
        assert(encoded_len(n, false) <= encoded_len(n, true));
    }
    let written = match _encode_into(data, padding, urlsafe, result.as_mut_slice()) {
        Ok(n) => n,
        Err(_) => {
            proof {
                assert(false);
            }
            0
        },
    };
    result.truncate(written);
    proof {
        assert(result@ =~= b64_encoded(data@, padding, urlsafe));
    }
    result
}

/// Encode into a caller-provided buffer; the group loop writes four symbols
/// per three input bytes and the tail is padded or truncated.  Fails without
/// touching the buffer when the output does not fit.
#[verifier::rlimit(50)]
fn _encode_into(data: &[u8], padding: bool, urlsafe: bool, buffer: &mut [u8]) -> (r: Result<
    usize,
    Error,
>)
    ensures
        final(buffer)@.len() == old(buffer)@.len(),
        encoded_len(data@.len() as int, padding) <= old(buffer)@.len() ==> ({
            let enc = b64_encoded(data@, padding, urlsafe);
            &&& r == Ok::<usize, Error>(enc.len() as usize)
            &&& final(buffer)@ == enc + old(buffer)@.skip(enc.len() as int)
        }),
        encoded_len(data@.len() as int, padding) > old(buffer)@.len() ==> r == Err::<
            usize,
            Error,
        >(Error::Base64BufferTooSmall) && final(buffer)@ == old(buffer)@,
{
    proof {
        lemma_encoded_len(data@, padding, urlsafe);
    }
    let buffer_len = buffer.len();
    let needed = match encoded_len_exec(data.len(), padding) {
        Some(m) => m,
        None => {
            return Err(Error::Base64BufferTooSmall);
        },
    };
    if needed > buffer_len {
        return Err(Error::Base64BufferTooSmall);
    }
    let ghost buf0 = buffer@;
    let ghost enc = b64_encoded(data@, padding, urlsafe);
    let mut pos: usize = 0;
    let mut out: usize = 0;
    proof {
        assert(data@.skip(0) =~= data@);
        assert(enc.skip(0) =~= enc);
        assert(buffer@ =~= enc.take(0) + buf0.skip(0));
    }
    while data.len() - pos >= 3
        invariant
            pos <= data@.len(),
            out <= enc.len(),
            enc == b64_encoded(data@, padding, urlsafe),
            enc.len() == needed <= buffer@.len(),
            buffer@.len() == buf0.len(),
            buffer@ =~= enc.take(out as int) + buf0.skip(out as int),
            b64_encoded(data@.skip(pos as int), padding, urlsafe) =~= enc.skip(out as int),
        decreases data@.len() - pos,
    {
        let b0 = data[pos];
        let b1 = data[pos + 1];
        let b2 = data[pos + 2];
        let s0 = sym_char(b0 / 4, urlsafe);
        let s1 = sym_char((b0 % 4) * 16 + b1 / 16, urlsafe);
        let s2 = sym_char((b1 % 16) * 4 + b2 / 64, urlsafe);
        let s3 = sym_char(b2 % 64, urlsafe);
        proof {
            let tail = data@.skip(pos as int);
            let sk = enc.skip(out as int);
            assert(tail.len() >= 3);
            assert(tail[0] == b0 && tail[1] == b1 && tail[2] == b2);
            assert(b64_encoded(tail, padding, urlsafe) == group3_syms(b0, b1, b2, urlsafe)
                + b64_encoded(tail.skip(3), padding, urlsafe));
            assert(sk.len() == 4 + b64_encoded(tail.skip(3), padding, urlsafe).len());
            assert(out + 4 <= enc.len());
            assert(sk[0] == s0 && sk[1] == s1 && sk[2] == s2 && sk[3] == s3);
            assert(enc[out as int] == s0 && enc[out as int + 1] == s1 && enc[out as int + 2] == s2
                && enc[out as int + 3] == s3);
        }
        buffer[out] = s0;
        buffer[out + 1] = s1;
        buffer[out + 2] = s2;
        buffer[out + 3] = s3;
        proof {
            let tail = data@.skip(pos as int);
            let sk = enc.skip(out as int);
            assert(data@.skip(pos as int).skip(3) =~= data@.skip(pos as int + 3));
            assert(enc.skip(out as int).skip(4) =~= enc.skip(out as int + 4));
            assert(b64_encoded(tail.skip(3), padding, urlsafe) =~= sk.skip(4));
            assert(buffer@ =~= enc.take(out as int + 4) + buf0.skip(out as int + 4));
        }
        pos = pos + 3;
        out = out + 4;
    }
    let ghost tail = data@.skip(pos as int);
    proof {
        assert(tail.len() == data@.len() - pos);
        assert(tail.len() < 3);
    }
    if data.len() - pos == 1 {
        let b0 = data[pos];
        let s0 = sym_char(b0 / 4, urlsafe);
        let s1 = sym_char((b0 % 4) * 16, urlsafe);
        proof {
            let sk = enc.skip(out as int);
            assert(tail[0] == b0);
            if padding {
                assert(b64_encoded(tail, padding, urlsafe) =~= seq![s0, s1, 61u8, 61u8]);
            } else {
                assert(b64_encoded(tail, padding, urlsafe) =~= seq![s0, s1]);
            }
            assert(out + 2 <= enc.len());
            assert(enc[out as int] == sk[0] && enc[out as int + 1] == sk[1]);
        }
        buffer[out] = s0;
        buffer[out + 1] = s1;
        proof {
            assert(buffer@ =~= enc.take(out as int + 2) + buf0.skip(out as int + 2));
        }
        out = out + 2;
        if padding {
            proof {
                let sk = enc.skip(out as int - 2);
                assert(out + 2 <= enc.len());
                assert(enc[out as int] == sk[2] && enc[out as int + 1] == sk[3]);
            }
            buffer[out] = 61;
            buffer[out + 1] = 61;
            proof {
                assert(buffer@ =~= enc.take(out as int + 2) + buf0.skip(out as int + 2));
            }
            out = out + 2;
        }
    } else if data.len() - pos == 2 {
        let b0 = data[pos];
        let b1 = data[pos + 1];
        let s0 = sym_char(b0 / 4, urlsafe);
        let s1 = sym_char((b0 % 4) * 16 + b1 / 16, urlsafe);
        let s2 = sym_char((b1 % 16) * 4, urlsafe);
        proof {
            let sk = enc.skip(out as int);
            assert(tail[0] == b0 && tail[1] == b1);
            if padding {
                assert(b64_encoded(tail, padding, urlsafe) =~= seq![s0, s1, s2, 61u8]);
            } else {
                assert(b64_encoded(tail, padding, urlsafe) =~= seq![s0, s1, s2]);
            }
            assert(out + 3 <= enc.len());
            assert(enc[out as int] == sk[0] && enc[out as int + 1] == sk[1] && enc[out as int + 2]
                == sk[2]);
        }
        buffer[out] = s0;
        buffer[out + 1] = s1;
        buffer[out + 2] = s2;
        proof {
            assert(buffer@ =~= enc.take(out as int + 3) + buf0.skip(out as int + 3));
        }
        out = out + 3;
        if padding {
            proof {
                let sk = enc.skip(out as int - 3);
                assert(out + 1 <= enc.len());
                assert(enc[out as int] == sk[3]);
            }
            buffer[out] = 61;
            proof {
                assert(buffer@ =~= enc.take(out as int + 1) + buf0.skip(out as int + 1));
            }
            out = out + 1;
        }
    }
    proof {
        assert(out == enc.len());
        assert(enc.take(out as int) =~= enc);
        assert(buffer@ =~= enc + buf0.skip(out as int));
    }
    Ok(out)
}

} // verus!
