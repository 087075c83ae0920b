use clup::text::{
    chars_of, char_is_white_space, contains_chars, lines_of, split_str, text_le_exec, trim_str,
    words_of,
};

#[test]
fn split_keeps_empty_pieces() {
    assert_eq!(split_str("a,,b,", ','), vec!["a", "", "b", ""]);
    assert_eq!(split_str("", ','), vec![""]);
    assert_eq!(split_str("abc", ','), vec!["abc"]);
}

#[test]
fn lines_follow_str_lines() {
    assert_eq!(lines_of("a\r\nb\n"), vec!["a", "b"]);
    assert_eq!(lines_of(""), Vec::<String>::new());
    assert_eq!(lines_of("x\n\ny"), vec!["x", "", "y"]);
    assert_eq!(lines_of("tail\r"), vec!["tail\r"]);
    let s = "one\r\ntwo\n\nthree\r";
    let expected: Vec<String> = s.lines().map(|l| l.to_string()).collect();
    assert_eq!(lines_of(s), expected);
}

#[test]
fn trim_removes_unicode_white_space() {
    assert_eq!(trim_str("  hi there \t\n"), "hi there");
    assert_eq!(trim_str("\u{3000}x\u{a0}"), "x");
    assert_eq!(trim_str("   "), "");
    assert_eq!(trim_str(&trim_str(" a ")), trim_str(" a "));
}

#[test]
fn white_space_matches_std() {
    for n in 0u32..0x3100 {
        if let Some(c) = char::from_u32(n) {
            assert_eq!(char_is_white_space(c), c.is_whitespace(), "{:?}", c);
        }
    }
}

#[test]
fn words_follow_split_whitespace() {
    let s = "  2: eth0    inet 10.0.0.5/24 brd   ";
    let expected: Vec<String> = s.split_whitespace().map(|w| w.to_string()).collect();
    assert_eq!(words_of(s), expected);
    assert_eq!(words_of(""), Vec::<String>::new());
}

#[test]
fn contains_finds_runs() {
    let hay = chars_of("fatal error here");
    assert!(contains_chars(&hay, &chars_of("error")));
    assert!(!contains_chars(&hay, &chars_of("errors")));
    assert!(contains_chars(&hay, &chars_of("")));
}

#[test]
fn text_order_is_string_order() {
    let names = ["node2", "node10", "a", "", "é", "z", "node1"];
    for a in names.iter() {
        for b in names.iter() {
            assert_eq!(text_le_exec(a, b), a.to_string() <= b.to_string(), "{} {}", a, b);
        }
    }
}

#[test]
fn split_then_join_gives_back_the_text() {
    for s in ["", "a", ",", "a,,b,", "x,y,z"] {
        let pieces = split_str(s, ',');
        assert_eq!(pieces.join(","), s);
        assert!(pieces.iter().all(|p| !p.contains(',')));
    }
}
