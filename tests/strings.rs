use assimp_rs::string::{MaterialPropertyStr, Str, StringError, MAXLEN};

#[test]
fn short_text_round_trips() {
    let s = Str::encode("root_node");
    assert_eq!(s.len(), 9);
    assert_eq!(s.decode(), "root_node");
}

#[test]
fn empty_text_round_trips() {
    let s = Str::encode("");
    assert_eq!(s.len(), 0);
    assert_eq!(s.decode(), "");
}

#[test]
fn text_of_exactly_capacity_is_kept() {
    let text = "x".repeat(1024);
    let s = Str::encode(&text);
    assert_eq!(s.len(), 1024);
    assert_eq!(s.decode(), text);
}

#[test]
fn long_text_is_truncated_to_capacity() {
    let text: String = (0..1500).map(|i| if i % 2 == 0 { 'a' } else { 'b' }).collect();
    let s = Str::encode(&text);
    assert_eq!(s.len(), MAXLEN);
    assert_eq!(s.decode(), text[..1024].to_string());
    let again = Str::encode(&s.decode());
    assert_eq!(again.len(), 1024);
    assert_eq!(again.decode(), s.decode());
}

#[test]
fn truncation_counts_characters_not_bytes() {
    let text = "é".repeat(1100);
    let s = Str::encode(&text);
    assert_eq!(s.len(), 1024);
    assert_eq!(s.decode(), "é".repeat(1024));
}

#[test]
fn declared_length_limits_the_text() {
    let s = Str::new(3, String::from("hello"));
    assert_eq!(s.decode(), "hel");
    let t = Str::new(50, String::from("hello"));
    assert_eq!(t.decode(), "hello");
}

#[test]
fn same_text_compares_exactly() {
    let a = Str::encode("Arm");
    assert!(a.same_text(&Str::encode("Arm")));
    assert!(!a.same_text(&Str::encode("arm")));
    assert!(!a.same_text(&Str::encode("Arm.L")));
    assert_eq!(a.duplicate().decode(), "Arm");
}

#[test]
fn material_property_string_keeps_four_byte_length() {
    let m = MaterialPropertyStr::encode("$clr.diffuse").unwrap();
    assert_eq!(m.length_u32(), 12);
    assert_eq!(m.decode(), "$clr.diffuse");
}

#[test]
fn material_property_string_truncates_to_capacity() {
    let text = "k".repeat(2000);
    let m = MaterialPropertyStr::encode(&text).unwrap();
    assert_eq!(m.length_u32(), 1024);
    assert_eq!(m.decode(), "k".repeat(1024));
}

#[test]
fn material_property_length_over_four_bytes_is_rejected() {
    let declared = (u32::MAX as usize).wrapping_add(1);
    if declared > u32::MAX as usize {
        let r = MaterialPropertyStr::new(declared, String::from("abc"));
        assert!(matches!(r, Err(StringError::LengthOverflow)));
    }
    let ok = MaterialPropertyStr::new(u32::MAX as usize, String::from("abc")).unwrap();
    assert_eq!(ok.length_u32(), 3);
}
