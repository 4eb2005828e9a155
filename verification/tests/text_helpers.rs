use kvcounter::text::{chars_of, is_whitespace, trim_bounds, Pattern};

#[test]
fn classifies_whitespace_as_char_does() {
    for u in 0u32..0x3100 {
        if let Some(c) = char::from_u32(u) {
            assert_eq!(is_whitespace(c), c.is_whitespace(), "{:?}", c);
        }
    }
}

#[test]
fn trims_like_str_trim() {
    for s in ["", " ", " a ", "\u{a0}b\u{3000}", "ab", "\n\tx y\r"] {
        let chars = chars_of(s);
        let (a, b) = trim_bounds(&chars, 0, chars.len(), Pattern::Whitespace);
        let got: String = chars[a..b].iter().collect();
        assert_eq!(got, s.trim());
    }
    for s in ["", "/", "//a//", "a/b", "/x"] {
        let chars = chars_of(s);
        let (a, b) = trim_bounds(&chars, 0, chars.len(), Pattern::Slash);
        let got: String = chars[a..b].iter().collect();
        assert_eq!(got, s.trim_matches('/'));
    }
}
