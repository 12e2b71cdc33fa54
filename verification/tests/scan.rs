use task_var::scan;

fn chars(s: &str) -> Vec<char> {
    s.chars().collect()
}

fn text(v: &[char]) -> String {
    v.iter().collect()
}

#[test]
fn space_is_what_the_language_calls_white_space() {
    for c in (0..=0x10FFFFu32).filter_map(char::from_u32) {
        assert_eq!(scan::space(c), c.is_whitespace(), "{c:?}");
    }
}

const SAMPLES: [&str; 16] = [
    "", " ", "a", " a ", "\u{3000}a b\u{3000}", "a\nb\r\nc", "a\r", "a\r\n", "\n\n", "a,b,,c", ",",
    "a/b//", "//", "x\ty\t", "  two  words ", "\r\r\n",
];

#[test]
fn cutting_agrees_with_the_standard_library() {
    for s in SAMPLES {
        let v = chars(s);
        assert_eq!(text(scan::trim(&v)), s.trim(), "{s:?}");
        let lines: Vec<String> = scan::lines(&v).into_iter().map(text).collect();
        assert_eq!(lines, s.lines().collect::<Vec<_>>(), "{s:?}");
        let words: Vec<String> = scan::split_whitespace(&v).into_iter().map(text).collect();
        assert_eq!(words, s.split_whitespace().collect::<Vec<_>>(), "{s:?}");
        for c in [',', '/', '\t', ' '] {
            let parts: Vec<String> = scan::split(&v, c).into_iter().map(text).collect();
            assert_eq!(parts, s.split(c).collect::<Vec<_>>(), "{s:?}");
            let once = scan::split_once(&v, c).map(|(a, b)| (text(a), text(b)));
            let want = s.split_once(c).map(|(a, b)| (a.to_string(), b.to_string()));
            assert_eq!(once, want, "{s:?}");
            assert_eq!(text(scan::rsplit_first(&v, c)), s.rsplit(c).next().unwrap(), "{s:?}");
            assert_eq!(text(scan::trim_end_matches(&v, c)), s.trim_end_matches(c), "{s:?}");
        }
        for p in ["", "a", "a\n", "b", "//", "words"] {
            assert_eq!(scan::starts_with(&v, p), s.starts_with(p), "{s:?} {p:?}");
            assert_eq!(scan::contains(&v, p), s.contains(p), "{s:?} {p:?}");
            assert_eq!(scan::equals(&v, p), s == p, "{s:?} {p:?}");
        }
        assert_eq!(scan::chars_of(s), v);
        assert_eq!(scan::string_of(&v), s);
    }
}

#[test]
fn numbers_agree_with_the_standard_library() {
    let samples = [
        "", "0", "00", "7", "+7", "-7", "--7", "+", "-", " 7", "7 ", "255", "256", "2147483647",
        "2147483648", "-2147483648", "-2147483649", "4294967295", "4294967296",
        "9223372036854775807", "9223372036854775808", "-9223372036854775808",
        "-9223372036854775809", "99999999999999999999999", "1_0", "٣", "-0", "+-1", "0x1",
    ];
    for s in samples {
        let v = chars(s);
        assert_eq!(scan::parse_u8(&v), s.parse::<u8>().ok(), "{s:?}");
        assert_eq!(scan::parse_u32(&v), s.parse::<u32>().ok(), "{s:?}");
        assert_eq!(scan::parse_i32(&v), s.parse::<i32>().ok(), "{s:?}");
        assert_eq!(scan::parse_i64(&v), s.parse::<i64>().ok(), "{s:?}");
    }
}

#[test]
fn numbers_are_written_and_read_back() {
    for n in [0u32, 1, 9, 10, 11, 99, 100, 65535, 4294967295] {
        assert_eq!(scan::to_decimal(n), n.to_string());
        assert_eq!(scan::parse_u32(&chars(&scan::to_decimal(n))), Some(n));
    }
}
