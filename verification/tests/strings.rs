use quenya::strings::{
    chars_of, has_prefix, has_suffix, join_with, same, split_on, strip_suffix, trim, without,
};

#[test]
fn text_is_split_at_each_separator() {
    assert_eq!(split_on("a\tb\t\tc", '\t'), vec!["a", "b", "", "c"]);
    assert_eq!(split_on("", '\t'), vec![""]);
    assert_eq!(split_on("\t", '\t'), vec!["", ""]);
    assert_eq!(split_on("abc", '\t'), vec!["abc"]);
    assert_eq!(split_on("كتب كتاب", ' '), vec!["كتب", "كتاب"]);
    assert_eq!(join_with(&split_on(" a  b ", ' '), " "), " a  b ");
    assert_eq!(join_with(&vec![String::from("a"), String::from(""), String::from("b")], ", "), "a, , b");
    assert_eq!(join_with(&Vec::new(), ", "), "");
}

#[test]
fn ends_of_text_are_tested() {
    assert_eq!(chars_of("aé"), vec!['a', 'é']);
    assert_eq!(has_prefix("abc", "ab"), true);
    assert_eq!(has_prefix("abc", ""), true);
    assert_eq!(has_prefix("abc", "abcd"), false);
    assert_eq!(has_prefix("abc", "bc"), false);
    assert_eq!(has_suffix("abc", "bc"), true);
    assert_eq!(has_suffix("abc", ""), true);
    assert_eq!(has_suffix("abc", "ab"), false);
    assert_eq!(has_suffix("bc", "abc"), false);
    assert_eq!(strip_suffix("abc", "bc"), Some("a"));
    assert_eq!(strip_suffix("abc", "abc"), Some(""));
    assert_eq!(strip_suffix("abc", "b"), None);
    assert_eq!(same("abc", "abc"), true);
    assert_eq!(same("abc", "abd"), false);
    assert_eq!(same("abc", "ab"), false);
    assert_eq!(without("a-b--c", '-', '-'), "abc");
    assert_eq!(without("a1b22c", '0', '9'), "abc");
    assert_eq!(without("123", '0', '9'), "");
    assert_eq!(without("abc", 'z', 'a'), "abc");
}

#[test]
fn trim_takes_white_space_from_both_ends() {
    assert_eq!(trim(" \t a b \n"), "a b");
    assert_eq!(trim("a"), "a");
    assert_eq!(trim("   "), "");
    assert_eq!(trim(""), "");
    assert_eq!(trim("\u{2028}كتب\u{2003}"), "كتب");
}
