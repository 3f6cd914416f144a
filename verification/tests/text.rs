use xetop::text::{find_byte, parse_bounded, token_end, trim_range};

fn trimmed(s: &str) -> &[u8] {
    let b = s.as_bytes();
    let (a, e) = trim_range(b, 0, b.len());
    &b[a..e]
}

#[test]
fn trim_matches_std_trim() {
    let cases = [
        "",
        "   ",
        "  abc  ",
        "\t\n\r\x0b\x0cx\x0c",
        "\u{85}a\u{a0}",
        "\u{1680}\u{2000}\u{200a}b\u{2028}\u{2029}\u{202f}\u{205f}\u{3000}",
        "\u{200b}c\u{200b}",
        "é ",
        " 日本 ",
        "\u{2009}",
    ];
    for s in cases {
        assert_eq!(trimmed(s), s.trim().as_bytes(), "{s:?}");
    }
}

#[test]
fn token_matches_split_whitespace() {
    for s in ["377400 KiB", "12\u{a0}KiB", "abc", "", "a\u{3000}b c"] {
        let b = s.as_bytes();
        let e = token_end(b, 0, b.len());
        assert_eq!(&b[..e], s.split_whitespace().next().unwrap_or("").as_bytes(), "{s:?}");
    }
}

#[test]
fn find_and_parse() {
    assert_eq!(find_byte(b"ab:c:d", 0, 6, b':'), Some(2));
    assert_eq!(find_byte(b"ab:c:d", 3, 6, b':'), Some(4));
    assert_eq!(find_byte(b"abc", 0, 3, b':'), None);
    assert_eq!(parse_bounded(b"x255x", 1, 4, 255), Some(255));
    assert_eq!(parse_bounded(b"x256x", 1, 4, 255), None);
}
