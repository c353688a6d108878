use acrf::text::{
    char_count, chars_of, concat3, contains, decimal_text, ends_with, plain, replace,
    split_at_first, split_text, starts_with, strip_prefix, trim, whitespace,
};

const SAMPLES: &[&str] = &[
    "",
    " ",
    "a",
    "  a  ",
    "\t\n a b \r\n",
    "\u{3000}知情同意\u{a0}",
    "\u{2003}x\u{2028}",
    "\u{200b}x\u{200b}",
    "\u{85}\u{1680}y\u{202f}\u{205f}",
    "AETERM = X when AECAT = Y",
    "a when b when c",
    " when ",
    "when",
    "a/b/c",
    "/a//b/",
    "===",
    "aaa",
    "aaaa",
    " / x / y / ",
    "é=ü",
];

const PATTERNS: &[&str] = &["=", "/", " when ", " / ", "aa", " in ", "é", "知", "\n", "a"];

#[test]
fn trimming_is_that_of_the_standard_library() {
    for s in SAMPLES {
        assert_eq!(trim(s), s.trim());
    }
    assert_eq!(trim("  AETERM \n"), "AETERM");
    assert_eq!(trim(" \t "), "");
}

#[test]
fn whitespace_is_that_of_the_standard_library() {
    let mut code: u32 = 0;
    while code <= 0x11000 {
        if let Some(c) = char::from_u32(code) {
            assert_eq!(whitespace(c), c.is_whitespace());
        }
        code += 1;
    }
    assert!(whitespace(' '));
    assert!(whitespace('\u{3000}'));
    assert!(!whitespace('\u{200b}'));
    assert!(!whitespace('a'));
}

#[test]
fn splitting_is_that_of_the_standard_library() {
    for s in SAMPLES {
        for p in PATTERNS {
            let want: Vec<&str> = s.split(p).collect();
            assert_eq!(split_text(s, p), want);
        }
    }
    assert_eq!(split_text("a=b=c", "="), vec!["a", "b", "c"]);
    assert_eq!(split_text("", "="), vec![""]);
    assert_eq!(split_text("aaa", "aa"), vec!["", "a"]);
}

#[test]
fn cutting_at_the_first_occurrence() {
    for s in SAMPLES {
        for p in PATTERNS {
            let got = split_at_first(s, p);
            match s.split_once(p) {
                Some((before, after)) => assert_eq!(got, (before, Some(after))),
                None => assert_eq!(got, (*s, None)),
            }
        }
    }
    assert_eq!(split_at_first("a when b when c", " when "), ("a", Some("b when c")));
    assert_eq!(split_at_first("a", " when "), ("a", None));
    assert_eq!(split_at_first("abc", ""), ("", Some("abc")));
}

#[test]
fn replacing_is_that_of_the_standard_library() {
    for s in SAMPLES {
        for p in PATTERNS {
            for with in ["", " ", "EQ", "=="] {
                assert_eq!(replace(s, p, with), s.replace(p, with));
            }
        }
    }
    assert_eq!(replace("A = B = C", "=", "EQ"), "A EQ B EQ C");
    assert_eq!(replace("a\r\nb", "\n", " "), "a\r b");
}

#[test]
fn finding_prefixes_suffixes_and_parts() {
    for s in SAMPLES {
        for p in PATTERNS {
            assert_eq!(starts_with(s, p), s.starts_with(p));
            assert_eq!(ends_with(s, p), s.ends_with(p));
            assert_eq!(contains(s, p), s.contains(p));
            assert_eq!(strip_prefix(s, p), s.strip_prefix(p).unwrap_or(s));
        }
        assert!(starts_with(s, ""));
        assert!(ends_with(s, ""));
        assert!(contains(s, ""));
    }
    assert!(starts_with("SUPPAE", "SUPP"));
    assert!(!starts_with("SUP", "SUPP"));
    assert!(ends_with("VSORRES", "ORRES"));
    assert!(!ends_with("VSORRESU", "ORRES"));
    assert!(contains("VSTESTCD = TEMP", "TESTCD"));
    assert_eq!(strip_prefix("Datepart of X", "Datepart of "), "X");
}

#[test]
fn characters_are_counted_not_bytes() {
    for s in SAMPLES {
        assert_eq!(char_count(s), s.chars().count());
        assert_eq!(chars_of(s), s.chars().collect::<Vec<char>>());
        assert_eq!(plain(s), s.is_ascii());
    }
    assert_eq!(char_count("知情"), 2);
    assert!(plain("\u{7f}"));
    assert!(!plain("\u{80}"));
}

#[test]
fn numbers_are_written_in_decimal() {
    for n in [0usize, 1, 9, 10, 11, 99, 100, 101, 12345, 9_999_999, usize::MAX] {
        assert_eq!(decimal_text(n), n.to_string());
    }
    assert_eq!(decimal_text(0), "0");
    assert_eq!(decimal_text(307), "307");
}

#[test]
fn texts_are_put_together() {
    assert_eq!(concat3("a", " = ", "b"), "a = b");
    assert_eq!(concat3("", "", ""), "");
    assert_eq!(concat3("知", "-", "情"), "知-情");
}
