use robotdreams::digest::hash_string;
use robotdreams::naming::{stamp, user_name, Timestamp};

#[test]
fn stamp_is_zero_padded() {
    let t = Timestamp::new(987, 2, 3, 4, 5, 6).unwrap();
    assert_eq!(stamp(&t), "09870203040506");
}

#[test]
fn stamp_of_full_date() {
    let t = Timestamp::new(2023, 11, 28, 17, 45, 0).unwrap();
    assert_eq!(stamp(&t), "20231128174500");
}

#[test]
fn out_of_range_fields_are_refused() {
    assert!(Timestamp::new(10000, 1, 1, 0, 0, 0).is_none());
    assert!(Timestamp::new(-1, 1, 1, 0, 0, 0).is_none());
    assert!(Timestamp::new(2024, 13, 1, 0, 0, 0).is_none());
    assert!(Timestamp::new(2024, 1, 0, 0, 0, 0).is_none());
    assert!(Timestamp::new(2024, 1, 1, 24, 0, 0).is_none());
    assert!(Timestamp::new(2024, 1, 1, 0, 60, 0).is_none());
    assert!(Timestamp::new(2024, 1, 1, 0, 0, 60).is_none());
}

#[test]
fn now_is_well_formed() {
    let t = Timestamp::now().unwrap();
    assert!(t.year >= 2000 && t.year <= 9999);
    assert_eq!(stamp(&t).len(), 14);
}

#[test]
fn user_name_is_address_and_stamp() {
    let t = Timestamp::new(2024, 1, 5, 3, 4, 9).unwrap();
    assert_eq!(user_name("127.0.0.1", &t), "127.0.0.120240105030409");
}

#[test]
fn test_hash_string() {
    let input = "test_password";
    let hashed = hash_string(input);
    assert_eq!(hashed.len(), 64);
}

#[test]
fn hash_string_known_digests() {
    assert_eq!(
        hash_string(""),
        "e3b0c44298fc1c149afbf4c8996fb92427ae41e4649b934ca495991b7852b855"
    );
    assert_eq!(
        hash_string("abc"),
        "ba7816bf8f01cfea414140de5dae2223b00361a396177a9cb410ff61f20015ad"
    );
}
