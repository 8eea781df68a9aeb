use workshop::base64::{checked_decode_base64, decode_base64};

#[test]
fn decodes_text() {
    assert_eq!(decode_base64("aGVsbG8="), b"hello".to_vec());
    assert_eq!(decode_base64(""), Vec::<u8>::new());
    assert_eq!(decode_base64("AA=="), vec![0u8]);
    assert_eq!(decode_base64("//8="), vec![255u8, 255]);
    assert_eq!(decode_base64("+/+/"), vec![0xfb, 0xff, 0xbf]);
}

#[test]
fn decodes_a_recipe() {
    let decoded = decode_base64("eyJmbG91ciI6MTAwLCJjaG9jb2xhdGUgY2hpcHMiOjIwfQ==");
    assert_eq!(String::from_utf8(decoded).unwrap(), "{\"flour\":100,\"chocolate chips\":20}");
}

#[test]
fn checked_decoding_refuses_other_text() {
    assert_eq!(checked_decode_base64("aGVsbG8="), Some(b"hello".to_vec()));
    assert_eq!(checked_decode_base64(""), Some(Vec::new()));
    assert_eq!(checked_decode_base64("aGVsbG8"), None);
    assert_eq!(checked_decode_base64("aGVs bG8="), None);
    assert_eq!(checked_decode_base64("aGVsbG8=="), None);
    assert_eq!(checked_decode_base64("a"), None);
    assert_eq!(checked_decode_base64("-_-_"), None);
    assert_eq!(checked_decode_base64("aGVsbG9="), None);
    assert_eq!(checked_decode_base64("é==="), None);
}
