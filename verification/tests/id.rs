use flowerid::Error;
use flowerid::FID;

const TIMESTAMP: u64 = 0x1f37b5bfdfa_u64;
const SEQUENCE: u16 = 0x02f8_u16;
const GENERATOR: u16 = 0x01cc_u16;
const BIN: &[u8; 8] = b">ok\x7f\xbfK\xe1\xcc";
const B64: &[u8; 11] = b"Pm9rf79L4cw";

#[test]
fn new_getters() {
    let fid = FID::new(TIMESTAMP, SEQUENCE, GENERATOR).unwrap();
    assert_eq!(fid.timestamp(), TIMESTAMP);
    assert_eq!(fid.sequence(), SEQUENCE);
    assert_eq!(fid.generator(), GENERATOR);
    assert_eq!(
        FID::new(1 << 42, 0, 0).unwrap_err(),
        Error::TimestampOverflow(1 << 42)
    );
    assert_eq!(
        FID::new(0, 1 << 11, 0).unwrap_err(),
        Error::SequenceOverflow(1 << 11)
    );
    assert_eq!(
        FID::new(0, 0, 1 << 10).unwrap_err(),
        Error::GeneratorOverflow(1 << 10)
    );
}

#[test]
fn bytes() {
    let fid = FID::new(TIMESTAMP, SEQUENCE, GENERATOR).unwrap();
    let bytes = fid.to_bytes();
    let fid_from_bytes = FID::from_bytes(&bytes);
    let fid_from_slice = FID::from_slice(&bytes).unwrap();
    assert_eq!(&bytes, BIN);
    assert_eq!(fid, fid_from_bytes);
    assert_eq!(fid, fid_from_slice);
}

#[test]
fn base64() {
    let fid = FID::new(TIMESTAMP, SEQUENCE, GENERATOR).unwrap();
    assert_eq!(&fid.to_b64(), B64);
    assert_eq!(FID::from_b64(&fid.to_b64()).unwrap(), fid);
}

#[test]
fn fmt() {
    let fid = FID::new(TIMESTAMP, SEQUENCE, GENERATOR).unwrap();
    assert_eq!(fid.to_string(), String::from_utf8_lossy(B64));
    assert_eq!(FID::from_string(&fid.to_string()).unwrap(), fid);
}

#[test]
fn from() {
    let fid = FID::new(TIMESTAMP, SEQUENCE, GENERATOR).unwrap();
    let from_fid: u64 = From::from(fid.clone());
    let from_64: FID = From::from(from_fid);
    assert_eq!(from_64, fid);
}

#[test]
fn field_recovery() {
    // in-range triples construct successfully and the accessors recover them,
    // including every field at its extremes
    let timestamps: [u64; 4] = [0, 1, 0x1f37b5bfdfa, (1 << 42) - 1];
    let sequences: [u16; 4] = [0, 1, 0x2f8, (1 << 11) - 1];
    let generators: [u16; 4] = [0, 1, 0x1cc, (1 << 10) - 1];
    for &t in &timestamps {
        for &s in &sequences {
            for &g in &generators {
                let fid = FID::new(t, s, g).unwrap();
                assert_eq!(fid.timestamp(), t);
                assert_eq!(fid.sequence(), s);
                assert_eq!(fid.generator(), g);
            }
        }
    }
}

#[test]
fn wire_forms() {
    // two identifiers with every field given, against their exact binary and
    // text forms
    let a = FID::new(0x1f37b5bfdfa, 0x2f8, 0x1cc).unwrap();
    assert_eq!(&a.to_bytes(), b"\x3e\x6f\x6b\x7f\xbf\x4b\xe1\xcc");
    assert_eq!(a.to_string(), "Pm9rf79L4cw");
    let b = FID::new(0x204dc595637, 0x4ac, 0x12c).unwrap();
    assert_eq!(&b.to_bytes(), b"\x40\x9b\x8b\x2a\xc6\xf2\xb1\x2c");
    assert_eq!(b.to_string(), "QJuLKsbysSw");
    assert_eq!(FID::from_string("QJuLKsbysSw").unwrap(), b);
}

#[test]
fn binary_round_trip() {
    let words: [u64; 6] = [
        0,
        1,
        0x1f37b5bfdfa_u64 << 21 | (0x2f8_u64) << 10 | 0x1cc,
        u64::from(FID::new(0x204dc595637, 0x4ac, 0x12c).unwrap()),
        0x7fff_ffff_ffff_ffff,
        0xffff_ffff_ffff_ffff,
    ];
    for w in words {
        let fid = FID::from(w);
        assert_eq!(u64::from(FID::from_bytes(&fid.to_bytes())), w);
    }
}

#[test]
fn text_round_trip() {
    // the text codec recovers every word below 2^63, and tolerates both
    // alphabets on input
    let words: [u64; 4] = [0, 1, 0x3e6f6b7fbf4be1cc, 0x409b8b2ac6f2b12c];
    for w in words {
        let fid = FID::from(w);
        assert_eq!(FID::from_b64(&fid.to_b64()).unwrap(), fid);
        assert_eq!(FID::from_string(&fid.to_string()).unwrap(), fid);
    }
    // a standard-alphabet spelling of the same payload decodes too
    assert_eq!(
        u64::from(FID::from_b64(b"__________8").unwrap()),
        u64::from(FID::from_b64(b"//////////8").unwrap())
    );
}

#[test]
fn slice_sizes() {
    assert_eq!(FID::from_slice(b"123").unwrap_err(), Error::WrongSliceSize(3));
    assert_eq!(
        FID::from_slice(b"123456789").unwrap_err(),
        Error::WrongSliceSize(9)
    );
    // text that decodes to fewer than 8 bytes is rejected by length
    assert_eq!(FID::from_b64(b"AQ==").unwrap_err(), Error::WrongSliceSize(1));
    // and text with an alien byte is a symbol error
    assert_eq!(
        FID::from_b64(b"Pm9rf79L4c!").unwrap_err(),
        Error::Base64WrongSymbolError
    );
}
