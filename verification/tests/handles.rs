use ngenrs::handle::{box_into_raw_new, ngenrs_free_ptr, Arena};

#[test]
fn alloc_and_read() {
    let mut a: Arena<String> = Arena::new();
    let h = box_into_raw_new(&mut a, String::from("payload"));
    assert_ne!(h, 0);
    assert_eq!(a.get(h), &String::from("payload"));
    assert_eq!(a.get(h), &String::from("payload"));
}

#[test]
fn every_construction_has_a_matching_release() {
    // The allocation-tracking harness: the live census returns to zero when
    // each handle handed out is released exactly once.
    let mut a: Arena<u64> = Arena::new();
    assert_eq!(a.live_handles(), 0);
    let h1 = box_into_raw_new(&mut a, 10);
    let h2 = box_into_raw_new(&mut a, 20);
    let h3 = box_into_raw_new(&mut a, 30);
    assert_eq!(a.live_handles(), 3);
    assert_ne!(h1, h2);
    assert_ne!(h2, h3);
    assert_ne!(h1, h3);
    ngenrs_free_ptr(&mut a, h2);
    assert_eq!(a.live_handles(), 2);
    assert_eq!(a.get(h1), &10);
    assert_eq!(a.get(h3), &30);
    ngenrs_free_ptr(&mut a, h1);
    ngenrs_free_ptr(&mut a, h3);
    assert_eq!(a.live_handles(), 0);
}

#[test]
fn releasing_null_is_a_no_op() {
    let mut a: Arena<u64> = Arena::new();
    let h = box_into_raw_new(&mut a, 7);
    ngenrs_free_ptr(&mut a, 0);
    assert_eq!(a.live_handles(), 1);
    assert_eq!(a.get(h), &7);
}
