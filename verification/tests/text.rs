use seam::text::{
    begins_with, chars_of, cut_at_last, cut_at_white, cut_once, decimal_text, ends, find, hex,
    holds, lines, lower_ascii, parse_number, requote, same, signed_text, split, starts, string_of,
    trim, unhex, without_prefix, without_suffix, words,
};

fn c(s: &str) -> Vec<char> {
    s.chars().collect()
}

fn s(v: &[char]) -> String {
    v.iter().collect()
}

fn all(v: Vec<Vec<char>>) -> Vec<String> {
    v.iter().map(|p| s(p)).collect()
}

#[test]
fn characters_come_and_go_unchanged() {
    for t in ["", "abc", "é😀ی"] {
        assert_eq!(chars_of(t), c(t));
        assert_eq!(string_of(&c(t)), t);
    }
    assert!(same("a", "a") && !same("a", "ab"));
    assert!(begins_with(&c("abc"), &c("ab")) && !begins_with(&c("a"), &c("ab")));
}

#[test]
fn numbers_read_back_as_they_were_written() {
    for n in [0, 9, 10, 65_535, u64::MAX] {
        let shown = decimal_text(n);
        assert_eq!(shown, n.to_string());
        assert_eq!(parse_number(&c(&shown), u64::MAX), Some(n));
    }
    assert_eq!(signed_text(-17), "-17");
    assert_eq!(signed_text(i64::MIN), i64::MIN.to_string());
    assert_eq!(parse_number(&c("+5"), 10), Some(5));
    assert_eq!(parse_number(&c("11"), 10), None);
    assert_eq!(parse_number(&c(""), 10), None);
    assert_eq!(parse_number(&c("18446744073709551616"), u64::MAX), None);
}

#[test]
fn bytes_read_back_from_hexadecimal() {
    assert_eq!(hex(&[0, 0xAB, 0x0F]), "00ab0f");
    assert_eq!(unhex("00AB0f"), Some(vec![0, 0xAB, 0x0F]));
    assert_eq!(unhex("0"), None);
}

#[test]
fn cutting_and_splitting_agree_with_std() {
    for t in ["", "a", "a/b", "/a//b/", "no"] {
        let expected: Vec<String> = t.split('/').map(String::from).collect();
        assert_eq!(all(split(&c(t), '/')), expected);
        assert_eq!(
            cut_once(&c(t), "/").map(|(a, b)| (s(&a), s(&b))),
            t.split_once('/').map(|(a, b)| (a.to_string(), b.to_string()))
        );
        assert_eq!(
            cut_at_last(&c(t), '/').map(|(a, b)| (s(&a), s(&b))),
            t.rsplit_once('/').map(|(a, b)| (a.to_string(), b.to_string()))
        );
    }
    for t in ["", " a  b\tc\n", "x\r\ny\n\nz", "one", "\n"] {
        assert_eq!(all(words(&c(t))), t.split_whitespace().map(String::from).collect::<Vec<_>>());
        assert_eq!(all(lines(&c(t))), t.lines().map(String::from).collect::<Vec<_>>());
        assert_eq!(s(&trim(&c(t))), t.trim());
    }
    assert_eq!(s(&cut_at_white(&c("ab cd e")).0), "ab");
}

#[test]
fn looking_for_text_agrees_with_std() {
    assert_eq!(find(&c("banana"), &c("ana"), 0), Some(1));
    assert_eq!(find(&c("banana"), &c("ana"), 2), Some(3));
    assert_eq!(find(&c("banana"), &c("x"), 0), None);
    assert!(holds(&c("banana"), "nan") && !holds(&c("banana"), "nab"));
    assert!(starts(&c("banana"), "ban") && ends(&c("banana"), "ana"));
    assert!(!starts(&c("b"), "ban") && !ends(&c("a"), "ana"));
    assert_eq!(s(&without_prefix(&c("banana"), "ban")), "ana");
    assert_eq!(s(&without_prefix(&c("banana"), "x")), "banana");
    assert_eq!(s(&without_suffix(&c("desk.local"), ".local")), "desk");
    assert_eq!(s(&lower_ascii(&c("ÄBC"))), "Äbc");
}

#[test]
fn requoted_text_stays_in_its_quotes() {
    let t = requote("say \"hi\" \\ now");
    assert!(!t.contains('"'), "{t}");
}

#[test]
fn only_two_digits_make_a_byte() {
    assert_eq!(unhex("0aFf"), Some(vec![0x0a, 0xff]));
    for bad in ["+f", "0a+f", "-1", "0 ", "f"] {
        assert_eq!(unhex(bad), None, "{bad:?}");
    }
}
