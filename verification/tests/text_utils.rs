use template_downloader::text::{
    chars_of, char_is_white_space, decimal_chars, eq_ignore_ascii_case, first_word_chars, lines,
    parse_i32_chars, replace_chars, same_text, split_chars, split_once_chars, string_from_chars,
    trim_chars, ends_with, starts_with,
};

fn c(s: &str) -> Vec<char> {
    s.chars().collect()
}

fn s(v: &[char]) -> String {
    v.iter().collect()
}

#[test]
fn chars_round_trip() {
    assert_eq!(chars_of("héllo"), c("héllo"));
    assert_eq!(string_from_chars(&c("VMID ✓")), "VMID ✓");
}

#[test]
fn trim_matches_std() {
    for text in ["  pve1 \n", "\t\u{a0}x y\u{3000}", "", "   ", "abc", "\u{85}a\u{2028}"] {
        assert_eq!(s(&trim_chars(&c(text))), text.trim());
    }
    assert!(char_is_white_space('\u{205f}'));
    assert!(!char_is_white_space('\u{200b}'));
}

#[test]
fn lines_match_std() {
    for text in ["a\nb", "a\r\nb\r\n", "a\n\nb\n", "", "\n", "x\r", "one line"] {
        let ours: Vec<String> = lines(&c(text)).iter().map(|l| s(l)).collect();
        let std: Vec<String> = text.lines().map(|l| l.to_string()).collect();
        assert_eq!(ours, std, "for {text:?}");
    }
}

#[test]
fn split_matches_std() {
    for text in ["1001,4001,6002", "", ",", "a,,b,", "single"] {
        let ours: Vec<String> = split_chars(&c(text), ',').iter().map(|p| s(p)).collect();
        let std: Vec<String> = text.split(',').map(|p| p.to_string()).collect();
        assert_eq!(ours, std, "for {text:?}");
    }
}

#[test]
fn first_word_matches_split_whitespace() {
    for text in ["local-lvm  lvmthin active", "   ", "", "  Name Type", "single"] {
        let ours = first_word_chars(&c(text)).map(|w| s(&w));
        let std = text.split_whitespace().next().map(|w| w.to_string());
        assert_eq!(ours, std, "for {text:?}");
    }
}

#[test]
fn split_once_matches_std() {
    for text in ["unused0: local-lvm:vm-1002-disk-0", "boot: order=scsi0", "no separator", "a: b: c", ":", ": "] {
        let ours = split_once_chars(&c(text), ':', ' ').map(|(a, b)| (s(&a), s(&b)));
        let std = text.split_once(": ").map(|(a, b)| (a.to_string(), b.to_string()));
        assert_eq!(ours, std, "for {text:?}");
    }
}

#[test]
fn prefix_and_suffix() {
    assert!(starts_with(&c("https://x"), &c("https://")));
    assert!(!starts_with(&c("http"), &c("https://")));
    assert!(ends_with(&c("images.json"), &c(".json")));
    assert!(!ends_with(&c("json"), &c(".json")));
    assert!(ends_with(&c("abc"), &c("")));
}

#[test]
fn replace_matches_std() {
    assert_eq!(s(&replace_chars(&c("ubuntu 24.04"), ' ', &c("-"))), "ubuntu-24.04");
    assert_eq!(s(&replace_chars(&c("ubuntu-24.04"), '.', &c(""))), "ubuntu-2404");
}

#[test]
fn decimal_matches_to_string() {
    for v in [0i64, 7, 10, 1002, -1, -1500, i64::MAX, i64::MIN, i32::MIN as i64] {
        assert_eq!(s(&decimal_chars(v)), v.to_string());
    }
}

#[test]
fn parse_i32_matches_std() {
    for text in [
        "1001", "+42", "-7", "", "+", "-", "12a", " 1", "2147483647", "2147483648", "-2147483648",
        "-2147483649", "0000000000000000000000012", "99999999999999999999", "1_000",
    ] {
        assert_eq!(parse_i32_chars(&c(text)), text.parse::<i32>().ok(), "for {text:?}");
    }
}

#[test]
fn ascii_case_insensitive_equality() {
    assert!(eq_ignore_ascii_case("PVE1", "pve1"));
    assert!(!eq_ignore_ascii_case("pve1", "pve2"));
    assert!(!eq_ignore_ascii_case("pve", "pve1"));
    assert!(!eq_ignore_ascii_case("É", "é"));
    assert!(same_text("a", "a"));
    assert!(!same_text("a", "b"));
}

#[test]
fn printed_vmids_parse_back() {
    for v in [0i32, 1002, -7, i32::MAX, i32::MIN] {
        assert_eq!(parse_i32_chars(&decimal_chars(v as i64)), Some(v));
    }
}
