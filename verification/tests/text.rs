use sovereign::number::{decimal_exec, parse_u32_exec};
use sovereign::split::{
    is_identifier_char_exec, join_exec, leading_identifier_exec, lines_exec, split_exec,
    split_once_exec, trim_exec, words_exec,
};
use sovereign::text::{
    chars_of, contains_exec, count_matches_exec, ends_with_exec, find_from_exec, first_chars_exec,
    is_white_space, starts_with_exec, string_of, strip_leading_exec, strip_prefix_exec,
    strip_trailing_exec,
};

fn c(s: &str) -> Vec<char> {
    chars_of(s)
}

fn s(v: &Vec<char>) -> String {
    string_of(v)
}

fn all(v: &Vec<Vec<char>>) -> Vec<String> {
    v.iter().map(|x| string_of(x)).collect()
}

#[test]
fn chars_and_back() {
    assert_eq!(c("héllo"), vec!['h', 'é', 'l', 'l', 'o']);
    assert_eq!(s(&c("日本語 text")), "日本語 text");
    assert_eq!(s(&c("")), "");
}

#[test]
fn searching() {
    assert!(starts_with_exec(&c("hello"), &c("he")));
    assert!(starts_with_exec(&c("hello"), &c("")));
    assert!(!starts_with_exec(&c("he"), &c("hello")));
    assert!(ends_with_exec(&c("hello"), &c("llo")));
    assert!(!ends_with_exec(&c("hello"), &c("hell")));
    assert!(ends_with_exec(&c(""), &c("")));
    assert_eq!(find_from_exec(&c("abcabc"), &c("bc"), 0), Some(1));
    assert_eq!(find_from_exec(&c("abcabc"), &c("bc"), 2), Some(4));
    assert_eq!(find_from_exec(&c("abcabc"), &c("bc"), 5), None);
    assert_eq!(find_from_exec(&c("abc"), &c(""), 3), Some(3));
    assert_eq!(find_from_exec(&c("abc"), &c(""), 4), None);
    assert!(contains_exec(&c("abc"), &c("c")));
    assert!(!contains_exec(&c("abc"), &c("d")));
    assert_eq!(count_matches_exec(&c("aaaa"), &c("aa")), 2);
    assert_eq!(count_matches_exec(&c("abcabca"), &c("a")), 3);
    assert_eq!(count_matches_exec(&c("abc"), &c("")), 4);
    assert_eq!(count_matches_exec(&c(""), &c("a")), 0);
}

#[test]
fn stripping() {
    assert_eq!(strip_prefix_exec(&c("@@ -1"), &c("@@ -")).map(|v| s(&v)), Some("1".to_string()));
    assert_eq!(strip_prefix_exec(&c("@ -1"), &c("@@ -")), None);
    assert_eq!(s(&strip_leading_exec(&c("``````code```"), &c("```"))), "code```");
    assert_eq!(s(&strip_trailing_exec(&c("code``````"), &c("```"))), "code");
    assert_eq!(s(&strip_trailing_exec(&c("``"), &c("```"))), "``");
    assert_eq!(s(&strip_leading_exec(&c("aaa"), &c(""))), "aaa");
    assert_eq!(s(&first_chars_exec(&c("日本語です"), 3)), "日本語");
    assert_eq!(s(&first_chars_exec(&c("ab"), 3)), "ab");
}

#[test]
fn lines_as_the_standard_library_cuts_them() {
    for text in ["", "a", "a\n", "a\nb", "a\r\nb\r\n", "\n", "\n\n", "a\r", "a\r\r\n", "\r\n", "x\n\ny\n", "a\rb\nc"] {
        let ours = all(&lines_exec(&c(text)));
        let theirs: Vec<String> = text.lines().map(|l| l.to_string()).collect();
        assert_eq!(ours, theirs, "lines of {:?}", text);
    }
}

#[test]
fn words_and_trimming_as_the_standard_library() {
    for text in ["", " ", "a", "  a  b\tc\n", "one", " \u{3000}wide\u{a0}space ", "a\u{2028}b"] {
        let ours = all(&words_exec(&c(text)));
        let theirs: Vec<String> = text.split_whitespace().map(|l| l.to_string()).collect();
        assert_eq!(ours, theirs, "words of {:?}", text);
        assert_eq!(s(&trim_exec(&c(text))), text.trim(), "trim of {:?}", text);
    }
}

#[test]
fn splitting_as_the_standard_library() {
    for (text, pat) in [("a,b,,c", ","), ("", ","), (",", ","), ("a b/c b/d", " b/"), ("aaa", "aa"), ("abc", "x"), ("x--y--", "--")] {
        let ours = all(&split_exec(&c(text), &c(pat)));
        let theirs: Vec<String> = text.split(pat).map(|l| l.to_string()).collect();
        assert_eq!(ours, theirs, "split of {:?} at {:?}", text, pat);
        let once = split_once_exec(&c(text), &c(pat)).map(|p| (s(&p.0), s(&p.1)));
        let std_once = text.split_once(pat).map(|p| (p.0.to_string(), p.1.to_string()));
        assert_eq!(once, std_once);
    }
}

#[test]
fn joining() {
    let parts = vec![c("a"), c("bc"), c(""), c("d")];
    assert_eq!(s(&join_exec(&parts, 0, 4, &c(", "))), "a, bc, , d");
    assert_eq!(s(&join_exec(&parts, 1, 2, &c(", "))), "bc");
    assert_eq!(s(&join_exec(&parts, 2, 2, &c(", "))), "");
    assert_eq!(s(&join_exec(&parts, 1, 4, &c("\n"))), "bc\n\nd");
}

#[test]
fn numbers() {
    for n in [0u64, 7, 10, 99, 100, 12345, 4294967295, 4294967296, u64::MAX] {
        assert_eq!(s(&decimal_exec(n)), n.to_string());
    }
    for text in ["0", "7", "+7", "007", "4294967295", "4294967296", "99999999999999999999999", "", "+", "-1", "1a", "a1", " 1", "1 ", "++1", "٣"] {
        assert_eq!(parse_u32_exec(&c(text)), text.parse::<u32>().ok(), "number {:?}", text);
    }
}

#[test]
fn searching_as_the_standard_library() {
    let texts = ["", "a", "aaa", "abcabc", "```x``````", "ääöäö", "a b  c", "--x--", "xx--xx--"];
    let patterns = ["", "a", "aa", "bc", "```", "ä", "äö", " ", "--", "x"];
    for text in texts {
        for pat in patterns {
            let (t, p) = (c(text), c(pat));
            assert_eq!(contains_exec(&t, &p), text.contains(pat), "{:?} holds {:?}", text, pat);
            assert_eq!(starts_with_exec(&t, &p), text.starts_with(pat));
            assert_eq!(ends_with_exec(&t, &p), text.ends_with(pat));
            assert_eq!(
                count_matches_exec(&t, &p),
                text.matches(pat).count() as u128,
                "{:?} in {:?}",
                pat,
                text
            );
            let found = find_from_exec(&t, &p, 0).map(|i| t[..i].iter().collect::<String>().len());
            assert_eq!(found, text.find(pat), "{:?} in {:?}", pat, text);
            if !pat.is_empty() {
                assert_eq!(s(&strip_leading_exec(&t, &p)), text.trim_start_matches(pat));
                assert_eq!(s(&strip_trailing_exec(&t, &p)), text.trim_end_matches(pat));
            }
        }
    }
}

#[test]
fn white_space_as_the_standard_library() {
    let mut count = 0;
    for n in 0..=0x10ffff_u32 {
        if let Some(ch) = char::from_u32(n) {
            assert_eq!(is_white_space(ch), ch.is_whitespace());
            if is_white_space(ch) {
                count += 1;
            }
        }
    }
    assert_eq!(count, 25);
    assert!(is_white_space('\u{3000}'));
    assert!(!is_white_space('\u{200b}'));
    assert_eq!(s(&trim_exec(&c("\u{2003}\ta\u{a0}b\u{85}\r\n"))), "a\u{a0}b");
}

#[test]
fn identifier_characters() {
    for n in 0..=0x10ffff_u32 {
        if let Some(ch) = char::from_u32(n) {
            assert_eq!(is_identifier_char_exec(ch), ch.is_ascii_alphanumeric() || ch == '_');
        }
    }
    assert_eq!(s(&leading_identifier_exec(&c("a_Z09\u{e9}x"))), "a_Z09");
    assert_eq!(s(&leading_identifier_exec(&c("\u{e9}"))), "");
    assert_eq!(s(&leading_identifier_exec(&c("_x y"))), "_x");
}
