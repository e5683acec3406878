use muse_core::id::{gen_id, to_base64_symbol};

#[test]
fn symbols_cover_the_alphabet_boundaries() {
    assert_eq!(to_base64_symbol(0), '0');
    assert_eq!(to_base64_symbol(9), '9');
    assert_eq!(to_base64_symbol(10), 'a');
    assert_eq!(to_base64_symbol(35), 'z');
    assert_eq!(to_base64_symbol(36), 'A');
    assert_eq!(to_base64_symbol(61), 'Z');
    assert_eq!(to_base64_symbol(62), '-');
    assert_eq!(to_base64_symbol(63), '_');
}

#[test]
fn symbols_are_distinct() {
    let mut seen = Vec::new();
    for num in 0..64u8 {
        let c = to_base64_symbol(num);
        assert!(!seen.contains(&c));
        seen.push(c);
    }
}

#[test]
fn generated_id_has_ten_symbols_from_the_alphabet() {
    let id = gen_id();
    assert_eq!(id.chars().count(), 10);
    for c in id.chars() {
        assert!(c.is_ascii_alphanumeric() || c == '-' || c == '_');
    }
}
