use anthropic_api_key_manager::text::{
    chars_of, copy_option, has_last_char, has_prefix, lower_hex,
};

#[test]
fn prefixes_are_recognised() {
    assert!(has_prefix("sk-ant-123", "sk-"));
    assert!(has_prefix("sk-", "sk-"));
    assert!(has_prefix("anything", ""));
    assert!(!has_prefix("sk", "sk-"));
    assert!(!has_prefix("xsk-", "sk-"));
    assert!(!has_prefix("", "sk-"));
}

#[test]
fn the_last_character_is_recognised() {
    assert!(has_last_char("2025-08-01T00:00:00Z", 'Z'));
    assert!(!has_last_char("2025-08-01T00:00:00+00:00", 'Z'));
    assert!(!has_last_char("", 'Z'));
    assert!(has_last_char("Z", 'Z'));
}

#[test]
fn the_characters_of_a_text_come_in_order() {
    assert_eq!(chars_of("aé日"), vec!['a', 'é', '日']);
    assert_eq!(chars_of(""), Vec::<char>::new());
}

#[test]
fn numbers_are_written_in_base_sixteen() {
    assert_eq!(lower_hex(0), "0");
    assert_eq!(lower_hex(9), "9");
    assert_eq!(lower_hex(10), "a");
    assert_eq!(lower_hex(15), "f");
    assert_eq!(lower_hex(16), "10");
    assert_eq!(lower_hex(255), "ff");
    assert_eq!(lower_hex(4096), "1000");
    assert_eq!(lower_hex(0xdead_beef), "deadbeef");
    assert_eq!(lower_hex(0x0123_4567_89ab_cdef), "123456789abcdef");
    assert_eq!(lower_hex(u128::MAX), "ffffffffffffffffffffffffffffffff");
}

#[test]
fn base_sixteen_agrees_with_the_formatter() {
    let mut n: u128 = 1;
    for _ in 0..130 {
        assert_eq!(lower_hex(n), format!("{:x}", n));
        assert_eq!(lower_hex(n - 1), format!("{:x}", n - 1));
        n = n.wrapping_mul(3).wrapping_add(7);
    }
}

#[test]
fn an_optional_text_is_copied() {
    assert_eq!(copy_option(&None), None);
    assert_eq!(copy_option(&Some("a".to_string())), Some("a".to_string()));
}
