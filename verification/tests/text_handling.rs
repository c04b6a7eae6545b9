use mcp_wsl::text::{
    ascii_lowercase, contains_chars, from_chars, i64_text, join_strings, split_chars, split_lines, str_eq,
    to_chars, trim_chars, u64_text,
};

fn strings(v: Vec<Vec<char>>) -> Vec<String> {
    v.into_iter().map(|c| c.into_iter().collect()).collect()
}

const SAMPLES: &[&str] = &[
    "",
    "\n",
    "a",
    "a\n",
    "a\r\n",
    "a\rb",
    "x\r",
    "a\n\nb\n",
    "\r\n\r\n",
    "one\ntwo\r\nthree",
    "  padded \t\n",
    "\u{3000}wide\u{a0}",
    "ünïcödé:𝄞:end",
];

#[test]
fn lines_match_str_lines() {
    for s in SAMPLES {
        let got = strings(split_lines(&to_chars(s)));
        let want: Vec<String> = s.lines().map(String::from).collect();
        assert_eq!(got, want, "{s:?}");
    }
}

#[test]
fn splitting_matches_str_split() {
    for s in SAMPLES.iter().chain(["a::b", ":", "::", "root:x:0:0"].iter()) {
        let got = strings(split_chars(&to_chars(s), ':'));
        let want: Vec<String> = s.split(':').map(String::from).collect();
        assert_eq!(got, want, "{s:?}");
    }
}

#[test]
fn trimming_matches_str_trim() {
    for s in SAMPLES.iter().chain(["\u{85}x\u{2028}", "\u{200b}zero-width\u{200b}", "\u{1680}\u{2000}\u{200a}\u{202f}\u{205f}"].iter()) {
        let got: String = trim_chars(&to_chars(s)).into_iter().collect();
        assert_eq!(got, s.trim(), "{s:?}");
    }
}

#[test]
fn substrings_and_case() {
    let hay = to_chars("Microsoft-standard-WSL2");
    assert!(contains_chars(&hay, &to_chars("soft")));
    assert!(contains_chars(&hay, &to_chars("")));
    assert!(!contains_chars(&hay, &to_chars("microsoft")));
    assert!(contains_chars(&ascii_lowercase(&hay), &to_chars("microsoft")));
    assert!(!contains_chars(&to_chars("ab"), &to_chars("abc")));
    let mixed = "ÄBc-XYZ";
    assert_eq!(from_chars(&ascii_lowercase(&to_chars(mixed))), mixed.to_ascii_lowercase());
}

#[test]
fn numerals_and_equality() {
    assert_eq!(u64_text(0), "0");
    assert_eq!(u64_text(u64::MAX), u64::MAX.to_string());
    assert_eq!(i64_text(i64::MIN), i64::MIN.to_string());
    assert_eq!(i64_text(-7), "-7");
    assert!(str_eq("abc", "abc"));
    assert!(!str_eq("abc", "abd"));
    assert_eq!(join_strings(&vec!["a".to_string(), "b".to_string(), "".to_string()], ", "), "a, b, ");
    assert_eq!(join_strings(&vec![], "\n"), "");
}
