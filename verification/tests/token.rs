use tunnel_control::ids::{id_text, new_id, parse_id};
use tunnel_control::token::{
    code_from_id, constant_time_eq, enrollment_code, generate_enroll_code, hash_token,
    is_enroll_code, new_device_token, normalize_code, ENROLL_CODE_LEN,
};

const ALPHABET: &[u8] = b"23456789ABCDEFGHJKMNPQRSTUVWXYZ";

#[test]
fn constant_time_eq_matches_and_rejects() {
    assert!(constant_time_eq("abc123", "abc123"));
    assert!(!constant_time_eq("abc123", "abc124"));
    assert!(!constant_time_eq("abc123", "abc12"));
}

#[test]
fn enroll_code_uses_alphabet_and_length() {
    for _ in 0..20 {
        let code = generate_enroll_code();
        assert_eq!(code.len(), ENROLL_CODE_LEN);
        assert!(code.bytes().all(|byte| ALPHABET.contains(&byte)));
    }
}

#[test]
fn codes_come_from_leading_bytes() {
    let id: u128 = 0x0001_1e1f_ff02_0304_0000_0000_0000_0000;
    assert_eq!(code_from_id(id), "23Z29456");
}

#[test]
fn codes_are_checked_and_normalized() {
    assert!(is_enroll_code("ABCD2345"));
    assert!(!is_enroll_code("ABCD234"));
    assert!(!is_enroll_code("ABCD2341"));
    assert!(!is_enroll_code("abcd2345"));
    assert_eq!(normalize_code(" abcd2345\n"), "ABCD2345");
    assert_eq!(normalize_code("straße"), "STRASSE");
}

#[test]
fn stored_codes_are_shown_again() {
    assert_eq!(enrollment_code(Some("XYZ12345")), ("XYZ12345".to_string(), false));
    let (code, fresh) = enrollment_code(Some("short"));
    assert!(fresh && is_enroll_code(&code));
    let (code, fresh) = enrollment_code(None);
    assert!(fresh && is_enroll_code(&code));
}

#[test]
fn tokens_are_hashed_with_sha256() {
    assert_eq!(
        hash_token("abc"),
        "ba7816bf8f01cfea414140de5dae2223b00361a396177a9cb410ff61f20015ad"
    );
    assert_eq!(
        hash_token(""),
        "e3b0c44298fc1c149afbf4c8996fb92427ae41e4649b934ca495991b7852b855"
    );
}

#[test]
fn new_tokens_are_random_hexadecimal() {
    let a = new_device_token();
    let b = new_device_token();
    assert_eq!(a.len(), 64);
    assert!(a.bytes().all(|byte| b"0123456789abcdef".contains(&byte)));
    assert_ne!(a, b);
}

#[test]
fn identifiers_round_trip() {
    let id: u128 = 0x0102_0304_0506_0708_090a_0b0c_0d0e_0f10;
    assert_eq!(id_text(id), "01020304-0506-0708-090a-0b0c0d0e0f10");
    assert_eq!(parse_id("01020304-0506-0708-090a-0b0c0d0e0f10"), Some(id));
    assert_eq!(parse_id("not an id"), None);
    let fresh = new_id();
    assert_eq!(parse_id(&id_text(fresh)), Some(fresh));
    assert_ne!(fresh, new_id());
    assert_eq!((fresh >> 76) & 15, 4);
    assert_eq!((fresh >> 62) & 3, 2);
}
