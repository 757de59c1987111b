use ngenrs::cdata::{
    cbytes_to_rust, cstr_to_rust, free, ngenrs_free_bytes, ngenrs_free_cstr, rust_to_cbytes,
    rust_to_cstr, CBuf, CText,
};

#[test]
fn text_round_trip() {
    let c = rust_to_cstr(String::from("hello"));
    match &c {
        CText::Bytes(v) => assert_eq!(v.as_slice(), b"hello"),
        CText::Null => panic!("representable text must not encode to null"),
    }
    let back = cstr_to_rust(&c);
    assert_eq!(back, Some(String::from("hello")));
    ngenrs_free_cstr(c);
}

#[test]
fn unicode_text_round_trip() {
    let c = rust_to_cstr(String::from("héllo ✓"));
    let back = cstr_to_rust(&c);
    assert_eq!(back, Some(String::from("héllo ✓")));
    ngenrs_free_cstr(c);
}

#[test]
fn null_text_decodes_absent() {
    assert_eq!(cstr_to_rust(&CText::Null), None);
}

#[test]
fn empty_text_round_trip() {
    let c = rust_to_cstr(String::new());
    match &c {
        CText::Bytes(v) => assert_eq!(v.len(), 0),
        CText::Null => panic!("empty text is representable"),
    }
    assert_eq!(cstr_to_rust(&c), Some(String::new()));
}

#[test]
fn interior_nul_cannot_be_represented() {
    let c = rust_to_cstr(String::from("a\u{0}b"));
    assert!(matches!(c, CText::Null));
}

#[test]
fn invalid_utf8_decodes_to_none() {
    let c = CText::Bytes(vec![0xff, 0xfe, 0x41]);
    assert_eq!(cstr_to_rust(&c), None);
}

#[test]
fn bytes_round_trip() {
    let (buf, len) = rust_to_cbytes(vec![1u8, 2, 3]);
    assert_eq!(len, 3);
    let back = cbytes_to_rust(&buf);
    assert_eq!(back, Some(vec![1u8, 2, 3]));
    ngenrs_free_bytes(buf, len);
}

#[test]
fn null_bytes_decode_absent() {
    assert_eq!(cbytes_to_rust(&CBuf::Null), None);
}

#[test]
fn free_consumes_a_value() {
    free(String::from("gone"));
    free(vec![1u8, 2, 3]);
}
