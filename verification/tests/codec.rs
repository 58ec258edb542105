use clup::encoding;
use clup::persistence;
use clup::serial::FormatError;

const K: u32 = 0xaddadada;
const N: usize = 32;

#[test]
fn persistence_feistel_test() {
    let tests = (0..25000).chain(u32::MAX - 25000..u32::MAX);
    for t in tests.into_iter() {
        let enc = persistence::feistel(t, 32, K);

        let dec = persistence::feistel(enc, 32, K);
        assert_eq!(t, dec);
    }
}

#[test]
fn persistence_encode_decode_test() {
    let tests = (0..25000).chain(i32::MAX - 25000..i32::MAX);
    for t in tests.into_iter() {
        let enc = persistence::encode_serial(t);

        let dec = persistence::decode_serial(&enc);
        assert_eq!(Ok(t), dec);
    }
}

#[test]
fn encoding_feistel_test() {
    let tests = (0..25000).chain(u32::MAX - 25000..u32::MAX);
    for t in tests.into_iter() {
        let enc = encoding::feistel_encrypt(t, N, K);

        let dec = encoding::feistel_decrypt(enc, N, K);
        assert_eq!(t, dec);
    }
}

#[test]
fn encoding_encode_decode_test() {
    let tests = (0..25000).chain(i32::MAX - 25000..i32::MAX);
    for t in tests.into_iter() {
        let enc = encoding::encode_serial(t);

        let dec = encoding::decode_serial(&enc);
        assert_eq!(Ok(t), dec);
    }
}

#[test]
fn encode_decode_negative_ids() {
    for t in [-1, -25000, i32::MIN, i32::MIN + 17] {
        let enc = encoding::encode_serial(t);
        assert_eq!(Ok(t), encoding::decode_serial(&enc));

        let enc = persistence::encode_serial(t);
        assert_eq!(Ok(t), persistence::decode_serial(&enc));
    }
}

#[test]
fn encoding_obfuscates() {
    // The whole point of the codec: the public form differs from the
    // plain hex rendering of the identifier.
    let enc = encoding::encode_serial(1234);
    assert_ne!(enc, format!("{:x}", 1234));
    let enc = persistence::encode_serial(1234);
    assert_ne!(enc, format!("{:x}", 1234));
}

#[test]
fn decode_accepts_leading_plus() {
    let enc = encoding::encode_serial(4242);
    let plus = format!("+{}", enc);
    assert_eq!(Ok(4242), encoding::decode_serial(&plus));
}

#[test]
fn decode_accepts_uppercase() {
    let enc = encoding::encode_serial(987654).to_uppercase();
    assert_eq!(Ok(987654), encoding::decode_serial(&enc));
}

#[test]
fn decode_rejects_malformed() {
    assert_eq!(Err(FormatError), encoding::decode_serial(""));
    assert_eq!(Err(FormatError), encoding::decode_serial("+"));
    assert_eq!(Err(FormatError), encoding::decode_serial("zzz"));
    assert_eq!(Err(FormatError), encoding::decode_serial("12 34"));
    assert_eq!(Err(FormatError), encoding::decode_serial("-1f"));
    // nine hex digits can no longer fit in 32 bits
    assert_eq!(Err(FormatError), encoding::decode_serial("fffffffff"));
    assert_eq!(Err(FormatError), persistence::decode_serial("0x1f"));
}

#[test]
fn decode_boundary_values() {
    // the largest value that still fits, with and without leading zeros
    let max = encoding::decode_serial("ffffffff");
    assert!(max.is_ok());
    assert_eq!(encoding::decode_serial("0000001f"), encoding::decode_serial("1f"));
}
