use psutil::text::{
    chars_of, find_first, find_first_either, find_last, split, split_either, string_of,
    trim_newline, Span,
};

fn chars(s: &str) -> Vec<char> {
    s.chars().collect()
}

fn parts(text: &str, spans: &[Span]) -> Vec<String> {
    let all = chars(text);
    spans.iter().map(|s| all[s.start..s.end].iter().collect()).collect()
}

#[test]
fn characters_of_a_string() {
    assert_eq!(chars_of(""), Vec::<char>::new());
    assert_eq!(chars_of("a b"), vec!['a', ' ', 'b']);
    assert_eq!(chars_of("é日本"), vec!['é', '日', '本']);
}

#[test]
fn string_of_characters() {
    assert_eq!(string_of(&[]), "");
    assert_eq!(string_of(&['a', 'b']), "ab");
    assert_eq!(string_of(&chars("weird (name) proc")), "weird (name) proc");
    assert_eq!(string_of(&chars_of("é日本")), "é日本");
}

#[test]
fn first_and_last_positions() {
    let text = chars("1 (a (b) c) S");
    assert_eq!(find_first(&text, ' '), 1);
    assert_eq!(find_first(&text, '('), 2);
    assert_eq!(find_first(&text, ')'), 7);
    assert_eq!(find_first(&text, 'x'), text.len());
    assert_eq!(find_last(&text, ')'), Some(10));
    assert_eq!(find_last(&text, '('), Some(5));
    assert_eq!(find_last(&text, '1'), Some(0));
    assert_eq!(find_last(&text, 'x'), None);
    assert_eq!(find_first(&[], ' '), 0);
    assert_eq!(find_last(&[], ' '), None);
    assert_eq!(find_first_either(&chars("ab\0c d"), '\0', ' '), 2);
    assert_eq!(find_first_either(&chars("ab c\0d"), '\0', ' '), 2);
    assert_eq!(find_first_either(&chars("abcd"), '\0', ' '), 4);
}

#[test]
fn splitting_at_single_separators() {
    assert_eq!(parts("a b c", &split(&chars("a b c"), ' ')), ["a", "b", "c"]);
    assert_eq!(parts("", &split(&chars(""), ' ')), [""]);
    assert_eq!(parts("abc", &split(&chars("abc"), ' ')), ["abc"]);
    assert_eq!(parts(" ", &split(&chars(" "), ' ')), ["", ""]);
    assert_eq!(parts("a  b", &split(&chars("a  b"), ' ')), ["a", "", "b"]);
    assert_eq!(parts(" a ", &split(&chars(" a "), ' ')), ["", "a", ""]);
    assert_eq!(
        parts("a\0b c\0", &split_either(&chars("a\0b c\0"), '\0', ' ')),
        ["a", "b", "c", ""]
    );
}

#[test]
fn one_newline_is_trimmed() {
    assert_eq!(trim_newline(&chars("abc\n")), &chars("abc")[..]);
    assert_eq!(trim_newline(&chars("abc")), &chars("abc")[..]);
    assert_eq!(trim_newline(&chars("abc\n\n")), &chars("abc\n")[..]);
    assert_eq!(trim_newline(&chars("abc \n")), &chars("abc ")[..]);
    assert_eq!(trim_newline(&chars("\n")), &chars("")[..]);
    assert_eq!(trim_newline(&chars("")), &chars("")[..]);
    assert_eq!(trim_newline(&chars("\nabc")), &chars("\nabc")[..]);
}
