use random_pickfile::base64;
use random_pickfile::base64::DecodeError;

#[test]
fn encode() {
    assert!("aGVsbG8gd29ybGR+" == base64::encode(b"hello world~"));
}

#[test]
fn decode() {
    assert!(Ok(b"hello world~".to_vec()) == base64::decode(b"aGVsbG8gd29ybGR+"));
}

#[test]
fn encode_empty_and_padding() {
    assert_eq!(base64::encode(b""), "");
    assert_eq!(base64::encode(b"f"), "Zg==");
    assert_eq!(base64::encode(b"fo"), "Zm8=");
    assert_eq!(base64::encode(b"foo"), "Zm9v");
    assert_eq!(base64::encode(b"foob"), "Zm9vYg==");
    assert_eq!(base64::encode(b"fooba"), "Zm9vYmE=");
    assert_eq!(base64::encode(b"foobar"), "Zm9vYmFy");
    assert_eq!(base64::encode(&[0xfb, 0xff, 0xbf]), "+/+/");
}

#[test]
fn decode_padded_inputs() {
    assert_eq!(base64::decode(b""), Ok(vec![]));
    assert_eq!(base64::decode(b"Zg=="), Ok(b"f".to_vec()));
    assert_eq!(base64::decode(b"Zm8="), Ok(b"fo".to_vec()));
    assert_eq!(base64::decode(b"Zm9vYmFy"), Ok(b"foobar".to_vec()));
    assert_eq!(base64::decode(b"+/+/"), Ok(vec![0xfb, 0xff, 0xbf]));
}

#[test]
fn decode_invalid_length() {
    assert_eq!(base64::decode(b"Zg="), Err(DecodeError::InvalidLength));
    assert_eq!(base64::decode(b"Zm9vY"), Err(DecodeError::InvalidLength));
}

#[test]
fn decode_invalid_symbol() {
    assert_eq!(base64::decode(b"Zm9*"), Err(DecodeError::InvalidSymbol));
    // padding before the last group
    assert_eq!(base64::decode(b"Zg==Zm9v"), Err(DecodeError::InvalidSymbol));
    // padding that drops bits which are not zero
    assert_eq!(base64::decode(b"Zh=="), Err(DecodeError::InvalidSymbol));
    assert_eq!(base64::decode(b"Zm9="), Err(DecodeError::InvalidSymbol));
    // padding in the wrong place
    assert_eq!(base64::decode(b"Z=g="), Err(DecodeError::InvalidSymbol));
}

#[test]
fn base64_roundtrip_samples() {
    let samples: Vec<Vec<u8>> = vec![
        vec![],
        vec![0],
        vec![0, 1],
        vec![255, 254, 253, 252],
        (0u8..=255).collect(),
        b"hello world~".to_vec(),
    ];
    for s in samples {
        let text = base64::encode(&s);
        assert_eq!(text.len() % 4, 0);
        let back = base64::decode(text.as_bytes()).unwrap();
        assert_eq!(back, s);
        assert_eq!(base64::encode(&back), text);
    }
}
