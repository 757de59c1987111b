use ngenrs::cdata::CText;
use ngenrs::mapping::{rust_map_from_c_arrays, rust_map_to_c_arrays, StringMap};

fn ctext(s: &str) -> CText {
    CText::Bytes(s.as_bytes().to_vec())
}

#[test]
fn insert_and_get() {
    let mut m = StringMap::new();
    m.insert(String::from("a"), String::from("1"));
    m.insert(String::from("b"), String::from("2"));
    assert_eq!(m.len(), 2);
    assert_eq!(m.get(&String::from("a")), Some(&String::from("1")));
    assert_eq!(m.get(&String::from("b")), Some(&String::from("2")));
    assert_eq!(m.get(&String::from("c")), None);
}

#[test]
fn insert_overwrites_earlier_binding() {
    let mut m = StringMap::new();
    m.insert(String::from("k"), String::from("old"));
    m.insert(String::from("k"), String::from("new"));
    assert_eq!(m.len(), 1);
    assert_eq!(m.get(&String::from("k")), Some(&String::from("new")));
}

#[test]
fn null_arrays_yield_no_mapping() {
    assert!(rust_map_from_c_arrays(&ngenrs::cdata::CArray::Null, &ngenrs::cdata::CArray::Null, 0)
        .is_none());
}

#[test]
fn decode_parallel_arrays() {
    let keys = ngenrs::cdata::CArray::Items(vec![ctext("x"), ctext("y")]);
    let values = ngenrs::cdata::CArray::Items(vec![ctext("1"), ctext("2")]);
    let m = rust_map_from_c_arrays(&keys, &values, 2).expect("non-null arrays decode");
    assert_eq!(m.len(), 2);
    assert_eq!(m.get(&String::from("x")), Some(&String::from("1")));
    assert_eq!(m.get(&String::from("y")), Some(&String::from("2")));
}

#[test]
fn malformed_entry_is_dropped_not_fatal() {
    let keys = ngenrs::cdata::CArray::Items(vec![
        ctext("good"),
        CText::Bytes(vec![0xff, 0xfe]),
        CText::Null,
    ]);
    let values = ngenrs::cdata::CArray::Items(vec![ctext("v1"), ctext("v2"), ctext("v3")]);
    let m = rust_map_from_c_arrays(&keys, &values, 3).expect("arrays are non-null");
    assert_eq!(m.len(), 1);
    assert_eq!(m.get(&String::from("good")), Some(&String::from("v1")));
}

#[test]
fn encode_decode_round_trip() {
    let mut m = StringMap::new();
    m.insert(String::from("alpha"), String::from("1"));
    m.insert(String::from("beta"), String::from("2"));
    let (ck, cv, n) = rust_map_to_c_arrays(&m);
    assert_eq!(n, 2);
    assert_eq!(ck.len(), 2);
    assert_eq!(cv.len(), 2);
    let keys = ngenrs::cdata::CArray::Items(ck);
    let values = ngenrs::cdata::CArray::Items(cv);
    let back = rust_map_from_c_arrays(&keys, &values, n).expect("encoded arrays are non-null");
    assert_eq!(back.len(), 2);
    assert_eq!(back.get(&String::from("alpha")), Some(&String::from("1")));
    assert_eq!(back.get(&String::from("beta")), Some(&String::from("2")));
}

#[test]
fn round_trip_drops_only_unrepresentable_entries() {
    let mut m = StringMap::new();
    m.insert(String::from("keep"), String::from("v"));
    m.insert(String::from("nul\u{0}key"), String::from("v"));
    m.insert(String::from("val"), String::from("nul\u{0}val"));
    let (ck, cv, n) = rust_map_to_c_arrays(&m);
    assert_eq!(n, 3);
    let back = rust_map_from_c_arrays(
        &ngenrs::cdata::CArray::Items(ck),
        &ngenrs::cdata::CArray::Items(cv),
        n,
    )
    .expect("encoded arrays are non-null");
    assert_eq!(back.len(), 1);
    assert_eq!(back.get(&String::from("keep")), Some(&String::from("v")));
    assert_eq!(back.get(&String::from("nul\u{0}key")), None);
    assert_eq!(back.get(&String::from("val")), None);
}

#[test]
fn encode_empty_mapping() {
    let m = StringMap::new();
    let (ck, cv, n) = rust_map_to_c_arrays(&m);
    assert_eq!(n, 0);
    assert!(ck.is_empty());
    assert!(cv.is_empty());
}
