use flowerid::base64::decode_into;
use flowerid::base64::encode_into;
use flowerid::base64::encode_without_pading;
use flowerid::base64::urlsafe_encode;
use flowerid::base64::urlsafe_encode_without_pading;
use flowerid::Error;

#[test]
fn encode() {
    let data_one = b"\x01";
    let data_two = b"\x01\x23";
    let data_three = b"\x01\x23\x45";
    let data_full = {
        let mut tmp = vec![0u8; 256];
        for (i, x) in tmp.iter_mut().enumerate() {
            *x = i as u8;
        }
        tmp
    };

    let data_full_assert: &[u8] = b"AAECAwQFBgcICQoLDA0ODxAREhMUFRYXGBkaGxwdHh8gI\
        SIjJCUmJygpKissLS4vMDEyMzQ1Njc4OTo7PD0+P0BBQkNERUZHSElKS0xNTk9QUVJTVFV\
        WV1hZWltcXV5fYGFiY2RlZmdoaWprbG1ub3BxcnN0dXZ3eHl6e3x9fn+AgYKDhIWGh4iJi\
        ouMjY6PkJGSk5SVlpeYmZqbnJ2en6ChoqOkpaanqKmqq6ytrq+wsbKztLW2t7i5uru8vb6\
        /wMHCw8TFxsfIycrLzM3Oz9DR0tPU1dbX2Nna29zd3t/g4eLj5OXm5+jp6uvs7e7v8PHy8\
        /T19vf4+fr7/P3+/w==";

    assert_eq!(flowerid::base64::encode(data_one), b"AQ==".to_vec());
    assert_eq!(encode_without_pading(data_one), b"AQ".to_vec());
    assert_eq!(flowerid::base64::encode(data_two), b"ASM=".to_vec());
    assert_eq!(encode_without_pading(data_two), b"ASM".to_vec());
    assert_eq!(flowerid::base64::encode(data_three), b"ASNF".to_vec());
    assert_eq!(flowerid::base64::encode(&data_full), data_full_assert.to_vec());
    assert_eq!(
        encode_without_pading(&data_full),
        data_full_assert[0..data_full_assert.len() - 2].to_vec()
    );
    assert_eq!(flowerid::base64::encode(b"\xfb\xef\xff"), b"++//".to_vec());
    assert_eq!(urlsafe_encode(b"\xfb\xef\xff"), b"--__".to_vec());
}

#[test]
fn decode() {
    let data_one_assert = b"\x01".to_vec();
    let data_two_assert = b"\x01\x23".to_vec();
    let data_three_assert = b"\x01\x23\x45".to_vec();
    let data_full_assert = {
        let mut tmp = vec![0u8; 256];
        for (i, x) in tmp.iter_mut().enumerate() {
            *x = i as u8;
        }
        tmp
    };
    let data_full: &[u8] = b"AAECAwQFBgcICQoLDA0ODxAREhMUFRYXGBkaGxwdHh8gI\
        SIjJCUmJygpKissLS4vMDEyMzQ1Njc4OTo7PD0+P0BBQkNERUZHSElKS0xNTk9QUVJTVFV\
        WV1hZWltcXV5fYGFiY2RlZmdoaWprbG1ub3BxcnN0dXZ3eHl6e3x9fn+AgYKDhIWGh4iJi\
        ouMjY6PkJGSk5SVlpeYmZqbnJ2en6ChoqOkpaanqKmqq6ytrq+wsbKztLW2t7i5uru8vb6\
        /wMHCw8TFxsfIycrLzM3Oz9DR0tPU1dbX2Nna29zd3t/g4eLj5OXm5+jp6uvs7e7v8PHy8\
        /T19vf4+fr7/P3+/w==";

    assert_eq!(flowerid::base64::decode(b"AQ==", None).unwrap(), data_one_assert);
    assert_eq!(flowerid::base64::decode(b"ASM=", None).unwrap(), data_two_assert);
    assert_eq!(flowerid::base64::decode(b"ASNF", None).unwrap(), data_three_assert);
    assert_eq!(flowerid::base64::decode(data_full, None).unwrap(), data_full_assert);
    assert_eq!(
        flowerid::base64::decode(b"AQ", Some(Error::Base64PaddingError)).unwrap(),
        data_one_assert
    );
    assert_eq!(
        flowerid::base64::decode(b"ASM", Some(Error::Base64PaddingError)).unwrap(),
        data_two_assert
    );
    assert_eq!(
        flowerid::base64::decode(b"ASM", None).unwrap_err(),
        Error::Base64PaddingError
    );
    assert_eq!(
        flowerid::base64::decode(b"ASM ", None).unwrap_err(),
        Error::Base64WrongSymbolError
    );
    assert_eq!(flowerid::base64::decode(b"++//", None).unwrap(), b"\xfb\xef\xff".to_vec());
    assert_eq!(flowerid::base64::decode(b"--__", None).unwrap(), b"\xfb\xef\xff".to_vec());
}

#[test]
fn padding_relaxation() {
    // a 10-symbol input: the final group is short, so strict decoding fails,
    // and the padding relaxation keeps the leading complete groups
    assert_eq!(flowerid::base64::decode(b"Zm9vIGJhcg", None).unwrap_err(), Error::Base64PaddingError);
    assert_eq!(
        flowerid::base64::decode(b"Zm9vIGJhcg", Some(Error::Base64PaddingError)).unwrap(),
        b"foo bar".to_vec()
    );
    // an explicit pad that leaves the group short of 24 bits is a padding
    // error; relaxed, the group's complete bytes are kept
    assert_eq!(
        flowerid::base64::decode(b"AQ=", None).unwrap_err(),
        Error::Base64PaddingError
    );
    assert_eq!(
        flowerid::base64::decode(b"AQ=", Some(Error::Base64PaddingError)).unwrap(),
        b"\x01".to_vec()
    );
}

#[test]
fn symbol_relaxation() {
    // a byte outside the alphabet: strict decoding fails, and the symbol
    // relaxation stops at the alien byte with what was accumulated
    assert_eq!(flowerid::base64::decode(b"Zm9vIGJh!", None).unwrap_err(), Error::Base64WrongSymbolError);
    assert_eq!(
        flowerid::base64::decode(b"Zm9vIGJh!", Some(Error::Base64WrongSymbolError)).unwrap(),
        b"foo ba".to_vec()
    );
    assert_eq!(
        flowerid::base64::decode(b"Zm9vIGJhcg!", Some(Error::Base64PaddingWrongSymbolError)).unwrap(),
        b"foo bar".to_vec()
    );
    // an ignored alien byte ends only its own group: decoding resumes after
    // it, so a well-formed tail still comes through
    assert_eq!(
        flowerid::base64::decode(b"Zm9vIGJh!cg==", Some(Error::Base64WrongSymbolError)).unwrap(),
        b"foo bar".to_vec()
    );
}

#[test]
fn padded_and_unpadded_forms() {
    assert_eq!(flowerid::base64::encode(b"foo bar"), b"Zm9vIGJhcg==".to_vec());
    assert_eq!(encode_without_pading(b"foo bar"), b"Zm9vIGJhcg".to_vec());
    assert_eq!(urlsafe_encode(b"\xfb\xef\xff"), b"--__".to_vec());
    assert_eq!(urlsafe_encode_without_pading(b"foo bar"), b"Zm9vIGJhcg".to_vec());
}

#[test]
fn round_trips() {
    let samples: Vec<Vec<u8>> = vec![
        b"".to_vec(),
        b"f".to_vec(),
        b"fo".to_vec(),
        b"foo".to_vec(),
        b"foo bar".to_vec(),
        b"\x00\xff\x80\x7f\x01".to_vec(),
        (0u8..=255).collect(),
    ];
    for sample in samples {
        assert_eq!(flowerid::base64::decode(&flowerid::base64::encode(&sample), None).unwrap(), sample);
        assert_eq!(flowerid::base64::decode(&urlsafe_encode(&sample), None).unwrap(), sample);
        assert_eq!(
            flowerid::base64::decode(
                &encode_without_pading(&sample),
                Some(Error::Base64PaddingError)
            )
            .unwrap(),
            sample
        );
    }
}

#[test]
fn fixed_buffers() {
    let mut buffer = [0u8; 12];
    assert_eq!(encode_into(b"foo bar", &mut buffer), Ok(12));
    assert_eq!(&buffer, b"Zm9vIGJhcg==");
    let mut small = [0u8; 11];
    assert_eq!(
        encode_into(b"foo bar", &mut small),
        Err(Error::Base64BufferTooSmall)
    );
    let mut out = [0u8; 7];
    assert_eq!(decode_into(b"Zm9vIGJhcg==", None, &mut out), Ok(7));
    assert_eq!(&out, b"foo bar");
    let mut tight = [0u8; 3];
    assert_eq!(
        decode_into(b"Zm9vIGJhcg==", None, &mut tight),
        Err(Error::Base64BufferTooSmall)
    );
}
