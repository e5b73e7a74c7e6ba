//! Text operations, held against the standard library's.
use papr_sync::text;

const SAMPLES: [&str; 16] = [
    "",
    " ",
    "a",
    "  a b  ",
    "\t\nx\r\n",
    "\u{3000}全角\u{3000}",
    "\u{85}\u{a0}nbsp\u{a0}",
    "\u{200b}zero width\u{200b}",
    "/",
    "///",
    "https://a.example/",
    "https://a.example//",
    "user/-/state/com.google/read",
    "user/-user/-/x",
    "user/1/label/a/label/b",
    "Auth=x\nAuth=y",
];

#[test]
fn white_space_is_unicode_white_space() {
    for c in '\0'..=char::MAX {
        assert_eq!(text::is_whitespace(c), c.is_whitespace(), "{c:?}");
    }
}

#[test]
fn trimming_agrees_with_std() {
    for s in SAMPLES {
        assert_eq!(text::trim(s), s.trim());
        assert_eq!(text::trim_end_slashes(s), s.trim_end_matches('/'));
        assert_eq!(text::trim(text::trim(s)), text::trim(s));
        for p in ["user/-", "/", "a"] {
            assert_eq!(text::trim_start_all(s, p), s.trim_start_matches(p));
        }
    }
}

#[test]
fn searching_agrees_with_std() {
    for s in SAMPLES {
        for part in ["", "/", "//", "/label/", "user/-", "Auth=", "x", "全"] {
            assert_eq!(text::ends_with(s, part), s.ends_with(part), "{s:?} {part:?}");
            assert_eq!(text::contains(s, part), s.contains(part), "{s:?} {part:?}");
            assert_eq!(
                text::rest_after_last(s, part),
                s.rsplit_once(part).map(|(_, rest)| rest),
                "{s:?} {part:?}"
            );
            assert_eq!(text::same(s, part), s == part);
        }
    }
}

#[test]
fn case_is_ignored_for_ascii_only() {
    let words = ["Uncategorized", "UNCATEGORIZED", "uncategorised", "É", "é", "", "[", "{", "@", "`"];
    for a in words {
        for b in words {
            assert_eq!(text::eq_ignore_ascii_case(a, b), a.eq_ignore_ascii_case(b), "{a} {b}");
        }
    }
}

#[test]
fn lines_are_found_by_prefix() {
    assert_eq!(text::find_line("SID=1\nLSID=2\nAuth=abc\n", "Auth="), Some("abc"));
    assert_eq!(text::find_line("Auth=first\nAuth=second", "Auth="), Some("first"));
    assert_eq!(text::find_line("xAuth=no\n Auth=no", "Auth="), None);
    assert_eq!(text::find_line("", "Auth="), None);
    assert_eq!(text::find_line("a\n\nAuth=\n", "Auth="), Some(""));
}

#[test]
fn numbers_are_written_in_decimal() {
    for n in [0, 7, 10, 99, 100, 1000, u64::MAX] {
        assert_eq!(text::unsigned_text(n), n.to_string());
    }
    for n in [0, 5, -5, 42, -1000, i64::MAX, i64::MIN] {
        assert_eq!(text::signed_text(n), n.to_string());
    }
}

#[test]
fn numbers_are_read_as_std_reads_them() {
    let max = usize::MAX.to_string();
    let over = format!("{max}0");
    for s in [
        "0", "7", "007", "+7", "++7", "+", "", "-1", "1000", " 1", "1 ", "1.0", "1e3", "٣",
        max.as_str(), over.as_str(), "18446744073709551616",
    ] {
        assert_eq!(text::parse_usize(s), s.parse::<usize>().ok(), "{s:?}");
    }
}

#[test]
fn a_written_number_reads_back() {
    for n in [0usize, 9, 10, 500, 1000, usize::MAX] {
        assert_eq!(text::parse_usize(&text::unsigned_text(n as u64)), Some(n));
    }
}

#[test]
fn parts_are_joined() {
    assert_eq!(text::join("feed/", "x"), "feed/x");
    assert_eq!(text::join3("a", "/b/", "c"), "a/b/c");
}
