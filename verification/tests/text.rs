use openlogi_hid::text::{before_last_chars, join_chars, lower_chars, split_chars, string_of};

fn chars(s: &str) -> Vec<char> {
    s.chars().collect()
}

fn pieces(s: &str, sep: char) -> Vec<String> {
    split_chars(&chars(s), sep).into_iter().map(string_of).collect()
}

#[test]
fn splitting_keeps_empty_pieces() {
    assert_eq!(pieces("", '#'), vec![""]);
    assert_eq!(pieces("ab", '#'), vec!["ab"]);
    assert_eq!(pieces("#a##b#", '#'), vec!["", "a", "", "b", ""]);
}

#[test]
fn splitting_agrees_with_the_standard_library() {
    for s in ["", "&", "a&b", "&&a", "a&b&", "\u{e9}&x#y"] {
        let expected: Vec<String> = s.split('&').map(|p| p.to_string()).collect();
        assert_eq!(pieces(s, '&'), expected);
    }
}

#[test]
fn joining_undoes_splitting() {
    for s in ["", "#", "a#b", "##a#", "abc"] {
        let text = chars(s);
        assert_eq!(join_chars(&split_chars(&text, '#'), '#'), text);
    }
}

#[test]
fn splitting_undoes_joining() {
    let (a, b, c) = (chars("vid"), chars(""), chars("mi"));
    let parts: Vec<&[char]> = vec![&a, &b, &c];
    let joined = join_chars(&parts, '&');
    assert_eq!(string_of(&joined), "vid&&mi");
    assert_eq!(split_chars(&joined, '&'), parts);
    assert_eq!(join_chars(&Vec::new(), '&'), Vec::new());
}

#[test]
fn what_stands_before_the_last_separator() {
    assert_eq!(string_of(before_last_chars(&chars("7&34&0&0000"), '&')), "7&34&0");
    assert_eq!(string_of(before_last_chars(&chars("inst"), '&')), "inst");
    assert_eq!(string_of(before_last_chars(&chars("&"), '&')), "");
    assert_eq!(string_of(before_last_chars(&chars(""), '&')), "");
}

#[test]
fn lower_case_is_ascii_only() {
    assert_eq!(string_of(&lower_chars("AZaz@[09\u{c9}")), "azaz@[09\u{c9}");
}
