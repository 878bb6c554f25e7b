use tokitai_context::text::white_space;

#[test]
fn white_space_matches_unicode_white_space() {
    for u in 0u32..0x110000 {
        if let Some(c) = char::from_u32(u) {
            assert_eq!(white_space(c), c.is_whitespace(), "U+{:04X}", u);
        }
    }
}
