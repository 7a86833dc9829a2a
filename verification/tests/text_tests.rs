use code_intel::locate::{context_of, locate_call, locate_symbol, source_lines};
use code_intel::text::{
    byte_offset_of, chars_to_string, contains_chars, find_chars, is_whitespace_char, push_decimal,
    split_lines, starts_with_chars, to_chars, trimmed,
};

fn chars(s: &str) -> Vec<char> {
    s.chars().collect()
}

fn lines_as_strings(s: &str) -> Vec<String> {
    split_lines(&chars(s)).iter().map(|l| l.iter().collect()).collect()
}

#[test]
fn to_chars_keeps_every_character() {
    assert_eq!(to_chars("aé😀"), vec!['a', 'é', '😀']);
    assert_eq!(to_chars(""), Vec::<char>::new());
    assert_eq!(chars_to_string(&['x', 'ß']), "xß");
}

#[test]
fn lines_end_at_line_feeds() {
    assert_eq!(lines_as_strings("a\nb"), vec!["a", "b"]);
    assert_eq!(lines_as_strings("a\nb\n"), vec!["a", "b"]);
    assert_eq!(lines_as_strings("a\n\nb"), vec!["a", "", "b"]);
    assert_eq!(lines_as_strings("\n"), vec![""]);
    assert_eq!(lines_as_strings(""), Vec::<String>::new());
}

#[test]
fn carriage_return_leaves_only_before_a_line_feed() {
    assert_eq!(lines_as_strings("a\r\nb\r"), vec!["a", "b\r"]);
    assert_eq!(lines_as_strings("a\r\r\n"), vec!["a\r"]);
}

#[test]
fn lines_agree_with_str_lines() {
    for text in ["", "x", "x\n", "\n\nx\r\n\r\ny", "a\rb\nc", "é\n😀\r\n"] {
        let expected: Vec<String> = text.lines().map(|l| l.to_string()).collect();
        assert_eq!(lines_as_strings(text), expected, "{:?}", text);
    }
}

#[test]
fn trimming_takes_unicode_white_space_off() {
    assert_eq!(trimmed(&chars("  a b\t\n")), chars("a b"));
    assert_eq!(trimmed(&chars("\u{3000}\u{a0}x\u{2028}")), chars("x"));
    assert_eq!(trimmed(&chars("   ")), chars(""));
    assert_eq!(trimmed(&chars("")), chars(""));
    assert_eq!(trimmed(&chars("\u{200b}x")), chars("\u{200b}x"));
}

#[test]
fn white_space_agrees_with_char_is_whitespace() {
    let mut c = 0u32;
    while c <= 0x3100 {
        if let Some(ch) = char::from_u32(c) {
            assert_eq!(is_whitespace_char(ch), ch.is_whitespace(), "U+{:04X}", c);
        }
        c += 1;
    }
}

#[test]
fn find_gives_the_first_occurrence() {
    let hay = chars("abcabc");
    assert_eq!(find_chars(&hay, &chars("bc"), 0), Some(1));
    assert_eq!(find_chars(&hay, &chars("bc"), 2), Some(4));
    assert_eq!(find_chars(&hay, &chars("bc"), 5), None);
    assert_eq!(find_chars(&hay, &chars("x"), 0), None);
    assert_eq!(find_chars(&hay, &chars(""), 0), Some(0));
    assert_eq!(find_chars(&hay, &chars(""), 6), Some(6));
    assert_eq!(find_chars(&hay, &chars(""), 7), None);
    assert_eq!(find_chars(&chars(""), &chars(""), 0), Some(0));
    assert!(contains_chars(&hay, &chars("cab")));
    assert!(!contains_chars(&hay, &chars("cba")));
    assert!(starts_with_chars(&hay, &chars("abc")));
    assert!(!starts_with_chars(&hay, &chars("bc")));
    assert!(starts_with_chars(&hay, &chars("")));
}

#[test]
fn byte_offsets_count_utf8_bytes() {
    let line = chars("aé€😀z");
    assert_eq!(byte_offset_of(&line, 0), 0);
    assert_eq!(byte_offset_of(&line, 1), 1);
    assert_eq!(byte_offset_of(&line, 2), 3);
    assert_eq!(byte_offset_of(&line, 3), 6);
    assert_eq!(byte_offset_of(&line, 4), 10);
    assert_eq!(byte_offset_of(&line, 5), 11);
    assert_eq!("aé€😀z".len(), 11);
}

#[test]
fn decimal_digits_are_written_without_leading_zeros() {
    for (n, text) in [(0usize, "0"), (7, "7"), (10, "10"), (909, "909"), (1234567890, "1234567890")] {
        let mut s = String::from("n=");
        push_decimal(&mut s, n);
        assert_eq!(s, format!("n={}", text));
    }
    let mut s = String::new();
    push_decimal(&mut s, usize::MAX);
    assert_eq!(s, usize::MAX.to_string());
}

#[test]
fn symbol_location_is_the_first_declaring_line() {
    let lines = source_lines("// fn x\n  pub fn target(a: u8) {}\nfn target() {}\n");
    assert_eq!(locate_symbol(&lines, &chars("fn"), &chars("target")), (2, 9));
    assert_eq!(locate_symbol(&lines, &chars("fn"), &chars("x")), (1, 6));
}

#[test]
fn symbol_location_falls_back_to_line_one() {
    let lines = source_lines("struct A;\n");
    assert_eq!(locate_symbol(&lines, &chars("fn"), &chars("missing")), (1, 0));
    assert_eq!(locate_symbol(&lines, &chars("enum"), &chars("A")), (1, 0));
    assert_eq!(locate_symbol(&source_lines(""), &chars("fn"), &chars("f")), (1, 0));
}

#[test]
fn symbol_location_takes_a_longer_name_for_a_match() {
    let lines = source_lines("fn target_two() {}\nfn target() {}\n");
    assert_eq!(locate_symbol(&lines, &chars("fn"), &chars("target")), (1, 3));
}

#[test]
fn symbol_column_is_a_byte_offset() {
    let lines = source_lines("/* é */ fn f() {}\n");
    assert_eq!(locate_symbol(&lines, &chars("fn"), &chars("f")), (1, 9));
}

#[test]
fn call_location_scans_forward_from_the_start_line() {
    let lines = source_lines("fn a() { b(); }\nfn c() {\n    b();\n}\n");
    assert_eq!(locate_call(&lines, &chars("b"), 1), (1, 9));
    assert_eq!(locate_call(&lines, &chars("b"), 2), (3, 4));
    assert_eq!(locate_call(&lines, &chars("b"), 0), (1, 9));
    assert_eq!(locate_call(&lines, &chars("b"), 4), (4, 0));
    assert_eq!(locate_call(&lines, &chars("b"), 9), (9, 0));
    assert_eq!(locate_call(&lines, &chars("zz"), 2), (2, 0));
}

#[test]
fn call_location_takes_the_end_of_a_longer_name() {
    let lines = source_lines("fn a() {\n    grab(); b();\n}\n");
    assert_eq!(locate_call(&lines, &chars("b"), 1), (2, 7));
}

#[test]
fn line_context_is_the_trimmed_line() {
    let lines = source_lines("first\n   second line  \n");
    assert_eq!(context_of(&lines, 2), "second line");
    assert_eq!(context_of(&lines, 1), "first");
    assert_eq!(context_of(&lines, 0), "");
    assert_eq!(context_of(&lines, 3), "");
}
