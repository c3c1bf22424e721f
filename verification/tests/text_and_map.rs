use flyingv::strmap::StrMap;
use flyingv::text::{find_chars, lines_of, replace_chars, split_chars, trim_chars};

fn chars(s: &str) -> Vec<char> {
    s.chars().collect()
}

fn text(v: &[char]) -> String {
    v.iter().collect()
}

#[test]
fn trim_removes_white_space_at_both_ends() {
    assert_eq!(text(&trim_chars(&chars("  a b \t\n"))), "a b");
    assert_eq!(text(&trim_chars(&chars("\u{3000}x\u{a0}"))), "x");
    assert_eq!(text(&trim_chars(&chars("   "))), "");
}

#[test]
fn find_gives_first_occurrence() {
    assert_eq!(find_chars(&chars("ab\n\ncd\n\n"), &chars("\n\n")), Some(2));
    assert_eq!(find_chars(&chars("abc"), &chars("\n")), None);
    assert_eq!(find_chars(&chars("abc"), &chars("")), Some(0));
}

#[test]
fn lines_follow_str_lines() {
    let got: Vec<String> = lines_of(&chars("a\r\nb\n\nc")).iter().map(|l| text(l)).collect();
    assert_eq!(got, vec!["a", "b", "", "c"]);
    let got: Vec<String> = lines_of(&chars("x\n")).iter().map(|l| text(l)).collect();
    assert_eq!(got, vec!["x"]);
    let got: Vec<String> = lines_of(&chars("baz\r")).iter().map(|l| text(l)).collect();
    assert_eq!(got, vec!["baz\r"]);
    assert!(lines_of(&chars("")).is_empty());
}

#[test]
fn split_gives_one_more_piece_than_separators() {
    let got: Vec<String> = split_chars(&chars("a:b::c"), ':').iter().map(|l| text(l)).collect();
    assert_eq!(got, vec!["a", "b", "", "c"]);
}

#[test]
fn replace_follows_str_replace() {
    let cases = [
        ("/tmp/x/blog/index.html", "/tmp/x", "build"),
        ("aaa", "aa", "b"),
        ("ab", "", "x"),
        ("abc", "zz", "y"),
    ];
    for (s, p, t) in cases.iter() {
        assert_eq!(text(&replace_chars(&chars(s), &chars(p), &chars(t))), s.replace(p, t));
    }
}

#[test]
fn strmap_insert_overwrites_and_keeps_order() {
    let mut m = StrMap::new();
    assert!(m.is_empty());
    m.insert("title".to_string(), "A".to_string());
    m.insert("tags".to_string(), "x".to_string());
    m.insert("title".to_string(), "B".to_string());
    assert_eq!(m.len(), 2);
    assert_eq!(m.get("title").map(|s| s.as_str()), Some("B"));
    assert_eq!(m.get("tags").map(|s| s.as_str()), Some("x"));
    assert_eq!(m.get("missing"), None);
    let keys: Vec<&str> = m.entries().iter().map(|e| e.0.as_str()).collect();
    assert_eq!(keys, vec!["title", "tags"]);
    assert!(!m.is_empty());
}
