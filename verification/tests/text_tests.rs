use llama_agent::text::{char_is_whitespace, utf8_byte_len};

#[test]
fn white_space_agrees_with_std_on_every_char() {
    for u in 0u32..=0x10FFFF {
        if let Some(c) = char::from_u32(u) {
            assert_eq!(char_is_whitespace(c), c.is_whitespace(), "code point {:#x}", u);
        }
    }
}

#[test]
fn byte_length_counts_utf8_bytes() {
    assert_eq!(utf8_byte_len(""), 0);
    assert_eq!(utf8_byte_len("abc"), 3);
    assert_eq!(utf8_byte_len("é"), 2);
    assert_eq!(utf8_byte_len("日本"), 6);
    assert_eq!(utf8_byte_len("🦀"), 4);
}
