use ident_mash::hashing::hash_text;
use ident_mash::ident::{identifier_shape, raw_identifier, synthesize};
use ident_mash::text::{
    chars_of, ident_no_prefix, join, same_text, to_decimal, to_lower_case, to_upper_case,
};
use ident_mash::Token;
use std::hash::{DefaultHasher, Hash, Hasher};

fn std_hash(text: &str) -> u64 {
    let mut hasher = DefaultHasher::new();
    text.hash(&mut hasher);
    hasher.finish()
}

#[test]
fn raw_marker_is_stripped() {
    assert_eq!(ident_no_prefix("name"), "name");
    assert_eq!(ident_no_prefix("r#type"), "type");
    assert_eq!(ident_no_prefix("r#r#x"), "r#x");
    assert_eq!(ident_no_prefix("r#"), "");
    assert_eq!(ident_no_prefix("r"), "r");
    assert_eq!(ident_no_prefix("#r"), "#r");
    assert_eq!(ident_no_prefix("rx#"), "rx#");
    assert_eq!(ident_no_prefix(""), "");
    assert_eq!(ident_no_prefix("r#é"), "é");
}

#[test]
fn upper_case_folds_ascii_letters() {
    assert_eq!(to_upper_case("upper_case_test"), "UPPER_CASE_TEST");
    assert_eq!(to_upper_case("aZ09_-{}`@[]"), "AZ09_-{}`@[]");
    assert_eq!(to_upper_case("az"), "AZ");
    assert_eq!(to_upper_case(""), "");
    assert_eq!(to_upper_case("straße é"), "STRAßE é");
}

#[test]
fn lower_case_folds_ascii_letters() {
    assert_eq!(to_lower_case("LOWER_CASE"), "lower_case");
    assert_eq!(to_lower_case("aZ09_-{}`@[]"), "az09_-{}`@[]");
    assert_eq!(to_lower_case("AZ"), "az");
    assert_eq!(to_lower_case(""), "");
    assert_eq!(to_lower_case("ÀB"), "Àb");
}

#[test]
fn casing_twice_is_casing_once() {
    for text in ["mixedCase_09", "ALREADY", "straße", ""] {
        assert_eq!(to_upper_case(&to_upper_case(text)), to_upper_case(text));
        assert_eq!(to_lower_case(&to_lower_case(text)), to_lower_case(text));
    }
}

#[test]
fn casing_the_whole_is_casing_the_parts() {
    let (a, b) = ("fooBar", "bazQux");
    assert_eq!(to_upper_case(&join(a, b)), join(&to_upper_case(a), &to_upper_case(b)));
    assert_eq!(to_upper_case(&join(a, b)), "FOOBARBAZQUX");
}

#[test]
fn numbers_are_written_in_decimal() {
    assert_eq!(to_decimal(0), "0");
    assert_eq!(to_decimal(7), "7");
    assert_eq!(to_decimal(10), "10");
    assert_eq!(to_decimal(1_000_000), "1000000");
    assert_eq!(to_decimal(9401701821262753792), "9401701821262753792");
    assert_eq!(to_decimal(u64::MAX), "18446744073709551615");
    for n in [1u64, 9, 11, 99, 100, 101, 12345678901234567890] {
        assert_eq!(to_decimal(n), n.to_string());
    }
}

#[test]
fn hash_is_that_of_a_string() {
    for text in ["", "x", "MY_STATIC_NAME", "MY_OTHER_STATIC_NAME", "straße", "a longer text"] {
        assert_eq!(hash_text(text), std_hash(text));
    }
}

#[test]
fn hash_has_fixed_values() {
    assert_eq!(hash_text("MY_STATIC_NAME"), 9401701821262753792);
    assert_eq!(hash_text("MY_OTHER_STATIC_NAME"), 4765778322338405490);
    assert_eq!(hash_text(""), 3476900567878811119);
    assert_eq!(hash_text("MY_STATIC_NAME"), hash_text("MY_STATIC_NAME"));
    assert_ne!(hash_text("MY_STATIC_NAME"), hash_text("MY_STATIC_NAMF"));
}

#[test]
fn identifiers_are_synthesized() {
    assert_eq!(synthesize("name"), Some(Token::Ident("r#name".to_string())));
    assert_eq!(synthesize("type"), Some(Token::Ident("r#type".to_string())));
    assert_eq!(synthesize("match"), Some(Token::Ident("r#match".to_string())));
    assert_eq!(synthesize("_x"), Some(Token::Ident("r#_x".to_string())));
    assert_eq!(synthesize("__"), Some(Token::Ident("r#__".to_string())));
    assert_eq!(synthesize("x1"), Some(Token::Ident("r#x1".to_string())));
    assert_eq!(synthesize("été"), Some(Token::Ident("r#été".to_string())));
    assert_eq!(synthesize("TEST_42"), Some(Token::Ident("r#TEST_42".to_string())));
}

#[test]
fn invalid_texts_are_no_identifiers() {
    assert_eq!(synthesize(""), None);
    assert_eq!(synthesize("1x"), None);
    assert_eq!(synthesize("42"), None);
    assert_eq!(synthesize("a b"), None);
    assert_eq!(synthesize("a-b"), None);
    assert_eq!(synthesize("a.b"), None);
    assert_eq!(synthesize("$a"), None);
    assert_eq!(synthesize("r#a"), None);
    assert_eq!(synthesize(" a"), None);
    assert_eq!(synthesize("a "), None);
    assert_eq!(synthesize("_"), None);
    assert_eq!(synthesize("self"), None);
    assert_eq!(synthesize("Self"), None);
    assert_eq!(synthesize("super"), None);
    assert_eq!(synthesize("crate"), None);
}

#[test]
fn shape_and_reserved_names_decide() {
    assert!(identifier_shape("abc"));
    assert!(identifier_shape("_"));
    assert!(identifier_shape("self"));
    assert!(identifier_shape("a1_"));
    assert!(!identifier_shape(""));
    assert!(!identifier_shape("1a"));
    assert!(!identifier_shape("a b"));
    assert!(!identifier_shape("a+"));
    assert_eq!(raw_identifier("abc", true), Some(Token::Ident("r#abc".to_string())));
    assert_eq!(raw_identifier("abc", false), None);
    assert_eq!(raw_identifier("self", true), None);
    assert_eq!(raw_identifier("selfish", true), Some(Token::Ident("r#selfish".to_string())));
    assert_eq!(raw_identifier("_", true), None);
    assert_eq!(raw_identifier("crate", true), None);
    assert_eq!(raw_identifier("super", true), None);
    assert_eq!(raw_identifier("Self", true), None);
}

#[test]
fn synthesized_name_is_the_text() {
    for text in ["name", "type", "_x", "TEST_42"] {
        match synthesize(text) {
            Some(Token::Ident(spelling)) => assert_eq!(ident_no_prefix(&spelling), text),
            other => panic!("no identifier for {text}: {other:?}"),
        }
    }
}

#[test]
fn text_helpers() {
    assert_eq!(chars_of("añb"), vec!['a', 'ñ', 'b']);
    assert_eq!(chars_of(""), Vec::<char>::new());
    assert_eq!(join("ab", "cd"), "abcd");
    assert_eq!(join("", ""), "");
    assert!(same_text("abc", "abc"));
    assert!(!same_text("abc", "abd"));
    assert!(!same_text("abc", "ab"));
    assert!(same_text("", ""));
}
