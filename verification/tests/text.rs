use reqaz::text::{
    chars_of, contains, cut, extend, find, includes_token, lower, matches_at, rfind_char, same,
    same_text, starts_with, string_of, to_lower,
};

fn chars(s: &str) -> Vec<char> {
    s.chars().collect()
}

#[test]
fn strings_and_characters() {
    assert_eq!(chars_of("añb"), vec!['a', 'ñ', 'b']);
    assert_eq!(string_of(&vec!['a', 'ñ', 'b']), "añb");
    assert_eq!(string_of(&Vec::new()), "");
}

#[test]
fn comparison() {
    assert!(same(&chars("abc"), &chars("abc")));
    assert!(!same(&chars("abc"), &chars("abd")));
    assert!(!same(&chars("abc"), &chars("ab")));
    assert!(same_text("", ""));
    assert!(!same_text("a", "A"));
}

#[test]
fn searching() {
    assert!(matches_at(&chars("hello"), &chars("ll"), 2));
    assert!(!matches_at(&chars("hello"), &chars("ll"), 3));
    assert!(!matches_at(&chars("hello"), &chars("lo!"), 3));
    assert!(matches_at(&chars("hello"), &chars(""), 5));
    assert!(!matches_at(&chars("hello"), &chars(""), 6));
    assert!(starts_with(&chars("javascript:x"), &chars("javascript:")));
    assert!(!starts_with(&chars("java"), &chars("javascript:")));
    assert_eq!(find(&chars("a://b://c"), &chars("://")), Some(1));
    assert_eq!(find(&chars("abc"), &chars("x")), None);
    assert_eq!(find(&chars("abc"), &chars("")), Some(0));
    assert!(contains(&chars("a://b"), &chars("://")));
    assert!(!contains(&chars("a:/b"), &chars("://")));
    assert_eq!(rfind_char(&chars("a/b/c"), '/'), Some(3));
    assert_eq!(rfind_char(&chars("abc"), '/'), None);
}

#[test]
fn cutting_and_extending() {
    assert_eq!(cut(&chars("hello"), 1, 3), chars("el"));
    assert_eq!(cut(&chars("hello"), 2, 2), chars(""));
    let mut head = chars("ab");
    extend(&mut head, &chars("cd"));
    assert_eq!(head, chars("abcd"));
}

#[test]
fn tokens() {
    assert!(includes_token(&chars("fetch"), &chars("fetch")));
    assert!(includes_token(&chars("a fetch b"), &chars("fetch")));
    assert!(includes_token(&chars("a\tfetch\nb"), &chars("fetch")));
    assert!(includes_token(&chars("  fetch"), &chars("fetch")));
    assert!(!includes_token(&chars("prefetch"), &chars("fetch")));
    assert!(!includes_token(&chars("fetching"), &chars("fetch")));
    assert!(!includes_token(&chars("Fetch"), &chars("fetch")));
    assert!(!includes_token(&chars(""), &chars("fetch")));
    assert!(!includes_token(&chars("a b"), &chars("")));
    assert!(!includes_token(&chars("a b"), &chars("a b")));
    assert!(includes_token(&chars("fetching fetch"), &chars("fetch")));
}

#[test]
fn lower_case() {
    assert_eq!(to_lower('A'), 'a');
    assert_eq!(to_lower('Z'), 'z');
    assert_eq!(to_lower('a'), 'a');
    assert_eq!(to_lower('['), '[');
    assert_eq!(to_lower('@'), '@');
    assert_eq!(to_lower('É'), 'É');
    assert_eq!(lower("Text/HTML; X"), "text/html; x");
}
