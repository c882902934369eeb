use ident_mash::error::place_of;
use ident_mash::opened::{find, in_tree, open, rest};
use ident_mash::operation::evaluate_all;
use ident_mash::parse::{find_repeat, parse_metavars, parse_operations, reserved};
use ident_mash::substitute::ident_replace;
use ident_mash::{
    mash, Arguments, Delimiter, Expected, MashError, MetaVar, Operation, Plain, Spacing, Token,
    Transform,
};
use proc_macro2::{TokenStream, TokenTree};

fn convert(stream: TokenStream) -> Vec<Token> {
    let mut tokens = Vec::new();
    for tree in stream {
        tokens.push(match tree {
            TokenTree::Group(group) => {
                let delimiter = match group.delimiter() {
                    proc_macro2::Delimiter::Parenthesis => Delimiter::Parenthesis,
                    proc_macro2::Delimiter::Brace => Delimiter::Brace,
                    proc_macro2::Delimiter::Bracket => Delimiter::Bracket,
                    proc_macro2::Delimiter::None => Delimiter::Invisible,
                };
                Token::Group(delimiter, convert(group.stream()))
            }
            TokenTree::Ident(ident) => Token::Ident(ident.to_string()),
            TokenTree::Punct(punct) => {
                let spacing = match punct.spacing() {
                    proc_macro2::Spacing::Alone => Spacing::Alone,
                    proc_macro2::Spacing::Joint => Spacing::Joint,
                };
                Token::Punct(punct.as_char(), spacing)
            }
            TokenTree::Literal(literal) => {
                let contents = match syn::Lit::new(literal.clone()) {
                    syn::Lit::Str(string) => Some(string.value()),
                    _ => None,
                };
                Token::Literal(literal.to_string(), contents)
            }
        });
    }
    tokens
}

fn lex(source: &str) -> Vec<Token> {
    convert(source.parse::<TokenStream>().unwrap())
}

fn run(source: &str) -> Vec<Token> {
    mash(lex(source)).unwrap()
}

fn fails(source: &str) -> MashError {
    mash(lex(source)).unwrap_err()
}

fn ident(spelling: &str) -> Token {
    Token::Ident(spelling.to_string())
}

fn plain(spelling: &str) -> Operation {
    Operation::Plain(Plain::Ident(spelling.to_string()))
}

#[test]
fn case_main() {
    assert_eq!(
        run("name = :upper_case(upper + _ + case + _ + test) => static $name: usize = 42;"),
        lex("static r#UPPER_CASE_TEST: usize = 42;")
    );
    assert_eq!(
        run("name = test_ + :lower_case(LOWER_CASE) => mod $name { pub static VALUE: usize = 100; }"),
        lex("mod r#test_lower_case { pub static VALUE: usize = 100; }")
    );
    assert_eq!(
        run("name = :pascal_case(my_struct) => struct $name;"),
        lex("struct r#MyStruct;")
    );
    assert_eq!(
        run("name = :snake_case(SnakeMyCaseDown) => mod $name { pub static VALUE: usize = 200; } "),
        lex("mod r#snake_my_case_down { pub static VALUE: usize = 200; }")
    );
    assert_eq!(
        run("name = :upper_snake_case(SnakeMyCaseUp) => pub static $name: usize = 512; "),
        lex("pub static r#SNAKE_MY_CASE_UP: usize = 512;")
    );
}

#[test]
fn hash_main() {
    let declared1 = run("name = TEST_ + :hash(MY + _ + STATIC + _NAME) => static $name: usize = 42;");
    let declared2 =
        run("name = TEST_ + :hash(MY + _OTHER_ + STATIC + _NAME) => static $name: usize = 52;");
    let value1 = run("name = TEST_ + :hash(MY_STATIC + _ + NAME) => $name");
    let value2 = run("name = TE + ST_ + :hash(MY_OTHER + _STATIC + _ + NAME) => $name");

    assert_eq!(value1.len(), 1);
    assert_eq!(value2.len(), 1);
    let mut expected1 = vec![ident("static"), value1[0].clone()];
    expected1.extend(lex(": usize = 42;"));
    assert_eq!(declared1, expected1);
    let mut expected2 = vec![ident("static"), value2[0].clone()];
    expected2.extend(lex(": usize = 52;"));
    assert_eq!(declared2, expected2);
    assert_ne!(value1, value2);
}

#[test]
fn multi_main() {
    let out = run(
        "mod_name = :snake_case(\"my mod name\") &
         const_name = :upper_snake_case(\"my const name\") &
         struct_name = :pascal_case(\"my struct name\") =>
         mod $mod_name { pub const VALUE: usize = 15; }
         pub const $const_name: usize = 129;
         struct $struct_name;",
    );
    assert_eq!(
        out,
        lex("mod r#my_mod_name { pub const VALUE: usize = 15; }
             pub const r#MY_CONST_NAME: usize = 129;
             struct r#MyStructName;")
    );
}

#[test]
fn plain_main() {
    assert_eq!(
        run("name = my + _ + \"very_complicated\" + _name => mod $name { pub const VALUE: usize = 15; }"),
        lex("mod r#my_very_complicated_name { pub const VALUE: usize = 15; }")
    );
}

#[test]
fn simple_main() {
    assert_eq!(
        run("name = MY + _ + STATIC + _NAME => static $name: usize = 42;"),
        lex("static r#MY_STATIC_NAME: usize = 42;")
    );
}

#[test]
fn hash_names_are_stable() {
    assert_eq!(
        run("name = TEST_ + :hash(MY_STATIC_NAME) => $name"),
        vec![ident("r#TEST_9401701821262753792")]
    );
    assert_eq!(
        run("name = TEST_ + :hash(\"MY_STATIC_NAME\") => $name"),
        run("name = TEST_ + :hash(MY + _STATIC + _ + NAME) => $name")
    );
}

#[test]
fn same_invocation_same_output() {
    let source = "a = x + :hash(y) & b = :snake_case(FooBar) => $a ( $b [ $a ] ) $c";
    assert_eq!(mash(lex(source)), mash(lex(source)));
    let bad = "a = x & a = y => $a";
    assert_eq!(mash(lex(bad)), mash(lex(bad)));
}

#[test]
fn plain_fragments_concatenate() {
    assert_eq!(run("name = foo + _ + \"bar\" + _baz => $name"), vec![ident("r#foo_bar_baz")]);
}

#[test]
fn case_conversions() {
    assert_eq!(run("n = :pascal_case(my_struct) => $n"), vec![ident("r#MyStruct")]);
    assert_eq!(run("n = :snake_case(\"my mod name\") => $n"), vec![ident("r#my_mod_name")]);
    assert_eq!(
        run("n = :upper_snake_case(\"my const name\") => $n"),
        vec![ident("r#MY_CONST_NAME")]
    );
}

#[test]
fn transform_sees_the_whole_concatenation() {
    // `foo` and `Bar` meet at a case transition that neither has alone.
    assert_eq!(run("n = :snake_case(foo + Bar) => $n"), vec![ident("r#foo_bar")]);
    assert_eq!(run("n = :snake_case(foo) + :snake_case(Bar) => $n"), vec![ident("r#foobar")]);
    assert_eq!(run("n = :upper_case(a + B + c) => $n"), vec![ident("r#ABC")]);
    assert_eq!(run("n = :pascal_case(my + _ + value) => $n"), vec![ident("r#MyValue")]);
}

#[test]
fn transforms_nest() {
    assert_eq!(
        run("n = x + :upper_case(a + :lower_case(B + C) + :snake_case(DeF)) => $n"),
        vec![ident("r#xABCDE_F")]
    );
    assert_eq!(
        run("n = :upper_case(:upper_case(mixedCase)) => $n"),
        run("n = :upper_case(mixedCase) => $n")
    );
    assert_eq!(
        run("n = h + :hash(:upper_case(abc)) => $n"),
        run("n = h + :hash(ABC) => $n")
    );
}

#[test]
fn raw_identifiers_lose_their_marker() {
    assert_eq!(run("n = r#type => $n"), vec![ident("r#type")]);
    assert_eq!(run("n = my_ + r#type => $n"), vec![ident("r#my_type")]);
    assert_eq!(run("r#n = a => $n"), vec![ident("r#a")]);
    assert_eq!(run("n = a => $r#n"), vec![ident("r#a")]);
}

#[test]
fn keyword_results_are_escaped() {
    assert_eq!(run("n = \"type\" => let $n = 1;"), lex("let r#type = 1;"));
    assert_eq!(run("n = mat + ch => $n"), vec![ident("r#match")]);
}

#[test]
fn string_literals_are_decoded() {
    assert_eq!(run("n = \"bar\" => $n"), vec![ident("r#bar")]);
    assert_eq!(run("n = r\"raw_one\" => $n"), vec![ident("r#raw_one")]);
    assert_eq!(run("n = r#\"raw_two\"# => $n"), vec![ident("r#raw_two")]);
    assert_eq!(run("n = \"a\\u{62}c\" => $n"), vec![ident("r#abc")]);
    let parsed = Plain::parse(&lex("\"tab\\there\""), 0);
    assert_eq!(parsed, Some(Plain::LitStr("tab\there".to_string())));
}

#[test]
fn duplicate_names_are_rejected() {
    assert_eq!(
        fails("name = a & name = b => $name"),
        MashError::DuplicateName { at: vec![4], name: "name".to_string() }
    );
    assert_eq!(
        fails("name = a & r#name = b => $name"),
        MashError::DuplicateName { at: vec![4], name: "name".to_string() }
    );
    assert_eq!(
        fails("a = x & b = y & c = z & b = w & a = v => $a"),
        MashError::DuplicateName { at: vec![12], name: "b".to_string() }
    );
    assert!(mash(lex("name = a & names = b => $name")).is_ok());
}

#[test]
fn duplicates_come_after_grammar_errors() {
    assert_eq!(
        fails("name = a & name = b $name"),
        MashError::Grammar { at: vec![7], expected: Expected::Arrow }
    );
    // A duplicate is reported before any text is checked.
    assert_eq!(
        fails("a = \"1\" & a = b => $a"),
        MashError::DuplicateName { at: vec![4], name: "a".to_string() }
    );
}

#[test]
fn nested_groups_are_rewritten() {
    assert_eq!(
        run("name = my + _mod => mod $name { pub const VALUE: usize = 15; }"),
        lex("mod r#my_mod { pub const VALUE: usize = 15; }")
    );
    assert_eq!(
        run("name = x => a { b ( $name ) [ c { $name } ] } $name"),
        lex("a { b ( r#x ) [ c { r#x } ] } r#x")
    );
    assert_eq!(run("name = x => ((((($name)))))"), lex("(((((r#x)))))"));
}

#[test]
fn every_occurrence_is_replaced() {
    assert_eq!(run("n = x => $n $n ($n, $n) $n"), lex("r#x r#x (r#x, r#x) r#x"));
    assert_eq!(run("n = x => $n$n"), lex("r#x r#x"));
}

#[test]
fn other_dollar_sequences_are_kept() {
    let template = lex("$other $ ( $ ) $ 1 $ + n $");
    let mut input = lex("n = x =>");
    input.extend(template.clone());
    assert_eq!(mash(input), Ok(template));
}

#[test]
fn dollar_before_a_group_is_no_placeholder() {
    assert_eq!(run("n = x => $ ( $n ) n"), lex("$ ( r#x ) n"));
}

#[test]
fn a_dollar_in_front_is_kept() {
    assert_eq!(run("n = x => $ $n"), lex("$ r#x"));
    assert_eq!(run("n = x => $ $n $n"), lex("$ r#x r#x"));
    assert_eq!(run("n = x => $ $ $n"), lex("$ $ r#x"));
    assert_eq!(run("n = x => $ m $n"), lex("$ m r#x"));
    assert_eq!(run("n = x => $ 1 $n"), lex("$ 1 r#x"));
    assert_eq!(run("n = x => $ ( ) $n"), lex("$ ( ) r#x"));
    assert_eq!(run("n = x => $ ( $ ) n"), lex("$ ( $ ) n"));
    assert_eq!(run("n = x => $ n $ ( $ $n )"), lex("r#x $ ( $ r#x )"));
}

#[test]
fn binding_order_does_not_matter() {
    let template = "$a $b ( $b [ $a $ $a ] ) $ $b $c";
    let one_way = run(&format!("a = x & b = y => {template}"));
    let other_way = run(&format!("b = y & a = x => {template}"));
    assert_eq!(one_way, other_way);
    assert_eq!(one_way, lex("r#x r#y ( r#y [ r#x $ r#x ] ) $ r#y $c"));
    assert_eq!(
        run("x = one & y = two & z = three => $z $y $x"),
        run("z = three & x = one & y = two => $z $y $x")
    );
}

#[test]
fn a_replacement_spelled_like_a_name_is_found_by_a_later_binding() {
    assert_eq!(run("a = b & b = x => $ $a"), lex("r#x"));
    assert_eq!(run("b = x & a = b => $ $a"), lex("$ r#b"));
}

#[test]
fn unused_bindings_are_allowed() {
    assert_eq!(run("a = x & b = y => $a"), vec![ident("r#x")]);
    assert_eq!(run("a = x => fn main() {}"), lex("fn main() {}"));
    assert_eq!(run("a = x =>"), Vec::<Token>::new());
}

#[test]
fn bindings_apply_in_order() {
    assert_eq!(
        run("a = x & b = y & c = :upper_case(z) => $c $b $a { $b }"),
        lex("r#Z r#y r#x { r#y }")
    );
}

#[test]
fn spacing_is_kept() {
    let out = run("n = x => a::$n => b");
    assert_eq!(
        out,
        vec![
            ident("a"),
            Token::Punct(':', Spacing::Joint),
            Token::Punct(':', Spacing::Joint),
            ident("r#x"),
            Token::Punct('=', Spacing::Joint),
            Token::Punct('>', Spacing::Alone),
            ident("b"),
        ]
    );
}

#[test]
fn grammar_errors_name_the_place() {
    assert_eq!(fails(""), MashError::Grammar { at: vec![0], expected: Expected::Identifier });
    assert_eq!(fails("=> x"), MashError::Grammar { at: vec![0], expected: Expected::Identifier });
    assert_eq!(fails("name"), MashError::Grammar { at: vec![1], expected: Expected::Equals });
    assert_eq!(fails("name a"), MashError::Grammar { at: vec![1], expected: Expected::Equals });
    assert_eq!(fails("name ="), MashError::Grammar { at: vec![2], expected: Expected::Identifier });
    assert_eq!(
        fails("name = => x"),
        MashError::Grammar { at: vec![2], expected: Expected::Identifier }
    );
    assert_eq!(fails("name = a"), MashError::Grammar { at: vec![3], expected: Expected::Arrow });
    assert_eq!(fails("name = a b"), MashError::Grammar { at: vec![3], expected: Expected::Arrow });
    assert_eq!(
        fails("name = a = > b"),
        MashError::Grammar { at: vec![3], expected: Expected::Arrow }
    );
    assert_eq!(
        fails("name = a + => b"),
        MashError::Grammar { at: vec![4], expected: Expected::Identifier }
    );
    assert_eq!(
        fails("name = a & => b"),
        MashError::Grammar { at: vec![4], expected: Expected::Identifier }
    );
    assert_eq!(
        fails("name = 42 => b"),
        MashError::Grammar { at: vec![2], expected: Expected::Identifier }
    );
    assert_eq!(
        fails("name = (a) => b"),
        MashError::Grammar { at: vec![2], expected: Expected::Identifier }
    );
}

#[test]
fn keywords_are_no_identifiers() {
    assert_eq!(
        fails("type = a => $type"),
        MashError::Grammar { at: vec![0], expected: Expected::Identifier }
    );
    assert_eq!(
        fails("name = type => $name"),
        MashError::Grammar { at: vec![2], expected: Expected::Identifier }
    );
    assert_eq!(
        fails("_ = a => $name"),
        MashError::Grammar { at: vec![0], expected: Expected::Identifier }
    );
    assert_eq!(run("r#type = a => $type"), vec![ident("r#a")]);
}

#[test]
fn transform_errors_name_the_place() {
    assert_eq!(fails("n = :foo(a) => $n"), MashError::UnknownOperation { at: vec![2] });
    assert_eq!(fails("n = ::hash(a) => $n"), MashError::UnknownOperation { at: vec![2] });
    assert_eq!(fails("n = : => $n"), MashError::UnknownOperation { at: vec![2] });
    assert_eq!(fails("n = :"), MashError::UnknownOperation { at: vec![2] });
    assert_eq!(fails("n = :r#hash(a) => $n"), MashError::UnknownOperation { at: vec![2] });
    assert_eq!(fails("n = a + :Hash(a) => $n"), MashError::UnknownOperation { at: vec![4] });
    assert_eq!(
        fails("n = :hash a => $n"),
        MashError::Grammar { at: vec![4], expected: Expected::Parentheses }
    );
    assert_eq!(
        fails("n = :hash"),
        MashError::Grammar { at: vec![4], expected: Expected::Parentheses }
    );
    assert_eq!(
        fails("n = :hash[a] => $n"),
        MashError::Grammar { at: vec![4], expected: Expected::Parentheses }
    );
    assert_eq!(
        fails("n = :hash() => $n"),
        MashError::Grammar { at: vec![4, 0], expected: Expected::Identifier }
    );
    assert_eq!(
        fails("n = :hash(a b) => $n"),
        MashError::Grammar { at: vec![4, 1], expected: Expected::GroupEnd }
    );
    assert_eq!(
        fails("n = :hash(a +) => $n"),
        MashError::Grammar { at: vec![4, 2], expected: Expected::Identifier }
    );
    assert_eq!(
        fails("n = :hash(a + :lower_case(b + :nope(c))) => $n"),
        MashError::UnknownOperation { at: vec![4, 4, 2] }
    );
    assert_eq!(
        fails("n = x + :upper_case(a + :lower_case(b, c)) => $n"),
        MashError::Grammar { at: vec![6, 4, 1], expected: Expected::GroupEnd }
    );
}

#[test]
fn first_error_wins() {
    assert_eq!(fails("n = :foo(a b) & n"), MashError::UnknownOperation { at: vec![2] });
    assert_eq!(
        fails("n = :hash(a b) + :foo(c) => $n"),
        MashError::Grammar { at: vec![4, 1], expected: Expected::GroupEnd }
    );
}

#[test]
fn invalid_identifiers_are_rejected() {
    assert_eq!(
        fails("n = :hash(x) => $n"),
        MashError::InvalidIdentifier {
            at: vec![0],
            name: "n".to_string(),
            text: ident_mash::hashing::hash_text("x").to_string(),
        }
    );
    assert_eq!(
        fails("a = x & r#b = \"two words\" & c = \"\" => $a"),
        MashError::InvalidIdentifier {
            at: vec![4],
            name: "b".to_string(),
            text: "two words".to_string(),
        }
    );
    assert_eq!(
        fails("n = \"\" => $n"),
        MashError::InvalidIdentifier { at: vec![0], name: "n".to_string(), text: String::new() }
    );
    assert_eq!(
        fails("n = _ => $n"),
        MashError::InvalidIdentifier { at: vec![0], name: "n".to_string(), text: "_".to_string() }
    );
    assert_eq!(
        fails("n = \"self\" => x"),
        MashError::InvalidIdentifier {
            at: vec![0],
            name: "n".to_string(),
            text: "self".to_string(),
        }
    );
    assert_eq!(run("n = _ + _ => $n"), vec![ident("r#__")]);
}

#[test]
fn messages_read_well() {
    assert_eq!(fails("").message(), "expected identifier");
    assert_eq!(fails("n").message(), "expected `=`");
    assert_eq!(fails("n = a").message(), "expected `=>`");
    assert_eq!(fails("n = :hash").message(), "expected parentheses");
    assert_eq!(fails("n = :hash(a b) => c").message(), "unexpected token");
    assert_eq!(fails("n = :x(a) => c").message(), "unknown operation");
    assert_eq!(fails("n = a & n = a => c").message(), "meta-variable name defined twice");
    assert_eq!(
        fails("n = \"a b\" => c").message(),
        "synthesized identifier invalid: binding `n` evaluates to `a b`"
    );
}

#[test]
fn errors_move_outwards() {
    let inner = MashError::Grammar { at: vec![3], expected: Expected::GroupEnd };
    let outer = inner.within(7);
    assert_eq!(outer, MashError::Grammar { at: vec![7, 3], expected: Expected::GroupEnd });
    assert_eq!(outer.place(), &vec![7, 3]);
    assert_eq!(
        MashError::UnknownOperation { at: vec![] }.within(1),
        MashError::UnknownOperation { at: vec![1] }
    );
    assert_eq!(
        MashError::DuplicateName { at: vec![2], name: "n".to_string() }.within(0),
        MashError::DuplicateName { at: vec![0, 2], name: "n".to_string() }
    );
    assert_eq!(
        MashError::InvalidIdentifier { at: vec![2], name: "n".to_string(), text: "t".to_string() }
            .within(5)
            .place(),
        &vec![5, 2]
    );
    assert_eq!(place_of(9), vec![9]);
}

#[test]
fn fragments_are_read() {
    let tokens = lex("_ \"text\" word r#fn fn 12 'c' b\"bytes\" + (a)");
    assert_eq!(Plain::parse(&tokens, 0), Some(Plain::Underscore));
    assert_eq!(Plain::parse(&tokens, 1), Some(Plain::LitStr("text".to_string())));
    assert_eq!(Plain::parse(&tokens, 2), Some(Plain::Ident("word".to_string())));
    assert_eq!(Plain::parse(&tokens, 3), Some(Plain::Ident("r#fn".to_string())));
    assert_eq!(Plain::parse(&tokens, 4), None);
    assert_eq!(Plain::parse(&tokens, 5), None);
    assert_eq!(Plain::parse(&tokens, 6), None);
    assert_eq!(Plain::parse(&tokens, 7), None);
    assert_eq!(Plain::parse(&tokens, 8), None);
    assert_eq!(Plain::parse(&tokens, 9), None);
    assert_eq!(Plain::parse(&tokens, 10), None);
    assert_eq!(Plain::parse(&tokens, 100), None);
}

#[test]
fn reserved_words_are_those_of_syn() {
    let words = [
        "_", "abstract", "as", "async", "await", "become", "box", "break", "const", "continue",
        "crate", "do", "dyn", "else", "enum", "extern", "false", "final", "fn", "for", "if",
        "impl", "in", "let", "loop", "macro", "match", "mod", "move", "mut", "override", "priv",
        "pub", "ref", "return", "Self", "self", "static", "struct", "super", "trait", "true",
        "try", "type", "typeof", "unsafe", "unsized", "use", "virtual", "where", "while", "yield",
        "union", "auto", "default", "gen", "raw", "safe", "name", "hash", "Type", "selfish", "x",
    ];
    for word in words {
        let token = proc_macro2::Ident::new(word, proc_macro2::Span::call_site());
        let accepted = syn::parse2::<syn::Ident>(TokenStream::from(TokenTree::Ident(token)));
        assert_eq!(reserved(word), accepted.is_err(), "{word}");
    }
    let raw = proc_macro2::Ident::new_raw("type", proc_macro2::Span::call_site());
    assert_eq!(raw.to_string(), "r#type");
    assert!(syn::parse2::<syn::Ident>(TokenStream::from(TokenTree::Ident(raw))).is_ok());
    assert!(!reserved("r#type"));
}

#[test]
fn reserved_words_are_known() {
    for word in ["_", "type", "fn", "self", "Self", "crate", "super", "async", "yield", "typeof"] {
        assert!(reserved(word), "{word}");
    }
    for word in ["r#type", "typ", "types", "Type", "__", "hash", "union", "", "selfish", "a"] {
        assert!(!reserved(word), "{word}");
    }
}

#[test]
fn fragments_evaluate() {
    assert_eq!(Plain::Underscore.evaluate(), "_");
    assert_eq!(Plain::Ident("word".to_string()).evaluate(), "word");
    assert_eq!(Plain::Ident("r#fn".to_string()).evaluate(), "fn");
    assert_eq!(Plain::LitStr("some text".to_string()).evaluate(), "some text");
}

#[test]
fn keywords_name_transforms() {
    assert_eq!(Transform::named("hash"), Some(Transform::Hash));
    assert_eq!(Transform::named("lower_case"), Some(Transform::Lower));
    assert_eq!(Transform::named("upper_case"), Some(Transform::Upper));
    assert_eq!(Transform::named("snake_case"), Some(Transform::Snake));
    assert_eq!(Transform::named("pascal_case"), Some(Transform::Pascal));
    assert_eq!(Transform::named("upper_snake_case"), Some(Transform::ScreamingSnake));
    assert_eq!(Transform::named("screaming_snake_case"), None);
    assert_eq!(Transform::named("Hash"), None);
    assert_eq!(Transform::named(""), None);
}

#[test]
fn transforms_apply() {
    assert_eq!(Transform::Lower.apply("MiXed_09"), "mixed_09");
    assert_eq!(Transform::Upper.apply("MiXed_09"), "MIXED_09");
    assert_eq!(Transform::Snake.apply("SnakeMyCaseDown"), "snake_my_case_down");
    assert_eq!(Transform::Pascal.apply("my struct name"), "MyStructName");
    assert_eq!(Transform::ScreamingSnake.apply("SnakeMyCaseUp"), "SNAKE_MY_CASE_UP");
    assert_eq!(Transform::Snake.apply("HTTPRequest2go"), "http_request_2_go");
    assert_eq!(Transform::Hash.apply("MY_STATIC_NAME"), "9401701821262753792");
    assert_eq!(Transform::Snake.apply(""), "");
}

#[test]
fn terms_are_read() {
    let tokens = lex("a + :upper_case(b + \"c\") + _ => rest");
    assert_eq!(Operation::parse(&tokens, 0), Ok(plain("a")));
    let node = Operation::Apply(
        Transform::Upper,
        vec![plain("b"), Operation::Plain(Plain::LitStr("c".to_string()))],
    );
    assert_eq!(Operation::parse(&tokens, 2).as_ref(), Ok(&node));
    let (ops, end) = parse_operations(&tokens, 0).unwrap();
    assert_eq!(ops, vec![plain("a"), node, Operation::Plain(Plain::Underscore)]);
    assert_eq!(end, 7);
    assert_eq!(evaluate_all(&ops), "aBC_");
    assert_eq!(ops[1].evaluate(), "BC");
    assert_eq!(
        parse_operations(&tokens, 8),
        Err(MashError::Grammar { at: vec![8], expected: Expected::Identifier })
    );
    assert_eq!(parse_operations(&tokens, 9).map(|(ops, end)| (ops.len(), end)), Ok((1, 10)));
}

#[test]
fn bindings_are_read() {
    let tokens = lex("first = a + b & r#second = s + :hash(c) => $first");
    let (var, end) = MetaVar::parse(&tokens, 0).unwrap();
    assert_eq!(var, MetaVar { name: "first".to_string(), at: vec![0], ops: vec![plain("a"), plain("b")] });
    assert_eq!(end, 5);
    let (vars, end) = parse_metavars(&tokens, 0).unwrap();
    assert_eq!(end, 13);
    assert_eq!(vars.len(), 2);
    assert_eq!(vars[1].name, "r#second");
    assert_eq!(vars[1].at, vec![6]);
    assert_eq!(
        vars[1].ops,
        vec![plain("s"), Operation::Apply(Transform::Hash, vec![plain("c")])]
    );
    assert_eq!(find_repeat(&vars), None);

    let arguments = Arguments::parse(tokens).unwrap();
    assert_eq!(arguments.vars, vars);
    assert_eq!(arguments.tt, lex("$first"));
    assert_eq!(arguments.expand(), Ok(vec![ident("r#ab")]));
}

#[test]
fn repeats_are_found() {
    let (vars, _) = parse_metavars(&lex("a = x & b = x & r#a = x & b = x"), 0).unwrap();
    assert_eq!(find_repeat(&vars), Some(2));
    let (vars, _) = parse_metavars(&lex("a = x & b = x & c = x"), 0).unwrap();
    assert_eq!(find_repeat(&vars), None);
    assert_eq!(find_repeat(&Vec::new()), None);
}

#[test]
fn expansion_without_parsing() {
    let arguments = Arguments {
        vars: vec![
            MetaVar { name: "a".to_string(), at: vec![0], ops: vec![plain("x"), plain("y")] },
            MetaVar { name: "b".to_string(), at: vec![1], ops: vec![] },
        ],
        tt: lex("$a"),
    };
    assert_eq!(
        arguments.expand(),
        Err(MashError::InvalidIdentifier { at: vec![1], name: "b".to_string(), text: String::new() })
    );
}

#[test]
fn replacement_is_any_token() {
    let with = Token::Literal("7".to_string(), None);
    assert_eq!(ident_replace(&lex("a $n ($n) $m"), "n", &with), lex("a 7 (7) $m"));
    assert_eq!(ident_replace(&lex("a $n ($n) $m"), "r#n", &with), lex("a 7 (7) $m"));
    assert_eq!(ident_replace(&lex("$r#n"), "n", &with), lex("7"));
    assert_eq!(ident_replace(&lex("n $ n"), "m", &with), lex("n $ n"));
    assert_eq!(ident_replace(&Vec::new(), "n", &with), Vec::<Token>::new());
    let group = Token::Group(Delimiter::Bracket, lex("$n"));
    assert_eq!(ident_replace(&lex("{ $n }"), "n", &group), lex("{ [$n] }"));
}

#[test]
fn a_second_pass_finds_nothing() {
    let once = ident_replace(&lex("$n ( $n $ $n ) $ $n $m"), "n", &ident("r#x"));
    assert_eq!(once, lex("r#x ( r#x $ r#x ) $ r#x $m"));
    let twice = ident_replace(&once, "n", &ident("r#other"));
    assert_eq!(twice, once);
}

#[test]
fn passes_in_either_order() {
    let template = lex("$a $b ( $ $a $b ) $");
    let (x, y) = (ident("r#x"), ident("r#y"));
    let a_then_b = ident_replace(&ident_replace(&template, "a", &x), "b", &y);
    let b_then_a = ident_replace(&ident_replace(&template, "b", &y), "a", &x);
    assert_eq!(a_then_b, b_then_a);
    assert_eq!(a_then_b, lex("r#x r#y ( $ r#x r#y ) $"));
}

#[test]
fn a_placeholder_behind_a_dollar_is_replaced() {
    let with = ident("foo");
    assert_eq!(ident_replace(&lex("$ $name"), "name", &with), lex("$ foo"));
    assert_eq!(ident_replace(&lex("$ $name $name"), "name", &with), lex("$ foo foo"));
    assert_eq!(ident_replace(&lex("$ $other $name"), "name", &with), lex("$ $other foo"));
    assert_eq!(ident_replace(&lex("($ $name) $"), "name", &with), lex("($ foo) $"));
}

fn invisible(source: &str) -> Token {
    Token::Group(Delimiter::Invisible, lex(source))
}

fn sequence(parts: Vec<Vec<Token>>) -> Vec<Token> {
    parts.into_iter().flatten().collect()
}

#[test]
fn bindings_are_read_through_invisible_groups() {
    let input = sequence(vec![lex("n ="), vec![invisible("\"lit\"")], lex("+ x => $n")]);
    assert_eq!(mash(input), Ok(vec![ident("r#litx")]));
    let input = sequence(vec![vec![invisible("n = a + b")], lex("=> $n")]);
    assert_eq!(mash(input), Ok(vec![ident("r#ab")]));
    let nested = Token::Group(Delimiter::Invisible, vec![invisible(""), invisible("a"), invisible("")]);
    let input = sequence(vec![lex("n ="), vec![nested], lex("=> $n")]);
    assert_eq!(mash(input), Ok(vec![ident("r#a")]));
    let argument = Token::Group(Delimiter::Parenthesis, vec![invisible("a + B")]);
    let input = sequence(vec![lex("n = :lower_case"), vec![argument], lex("=> $n")]);
    assert_eq!(mash(input), Ok(vec![ident("r#ab")]));
}

#[test]
fn the_template_keeps_its_invisible_groups() {
    let input = sequence(vec![lex("n = x =>"), vec![invisible("$n + 1")], lex("* 2")]);
    assert_eq!(mash(input), Ok(sequence(vec![vec![invisible("r#x + 1")], lex("* 2")])));
    let input = sequence(vec![lex("n = x"), vec![invisible("=> a $n"), invisible("b")], lex("c")]);
    assert_eq!(mash(input), Ok(sequence(vec![lex("a r#x"), vec![invisible("b")], lex("c")])));
    let input = sequence(vec![lex("n = x"), vec![invisible("=>")], lex("$n")]);
    assert_eq!(mash(input), Ok(lex("r#x")));
}

#[test]
fn places_lead_through_invisible_groups() {
    let input = sequence(vec![lex("n ="), vec![invisible("a + 1")], lex("=> $n")]);
    assert_eq!(
        mash(input),
        Err(MashError::Grammar { at: vec![2, 2], expected: Expected::Identifier })
    );
    let input = sequence(vec![vec![invisible("n = a &")], vec![invisible("n = b")], lex("=> $n")]);
    assert_eq!(mash(input), Err(MashError::DuplicateName { at: vec![1, 0], name: "n".to_string() }));
    let input = sequence(vec![vec![invisible("")], vec![invisible("n = \"\"")], lex("=> $n")]);
    assert_eq!(
        mash(input),
        Err(MashError::InvalidIdentifier { at: vec![1, 0], name: "n".to_string(), text: String::new() })
    );
    let argument = Token::Group(Delimiter::Parenthesis, vec![invisible("a"), invisible("b")]);
    let input = sequence(vec![vec![invisible("n =")], lex(":hash"), vec![argument], lex("=> $n")]);
    assert_eq!(
        mash(input),
        Err(MashError::Grammar { at: vec![3, 1, 0], expected: Expected::GroupEnd })
    );
    let input = sequence(vec![lex("n = a"), vec![invisible("")]]);
    assert_eq!(mash(input), Err(MashError::Grammar { at: vec![4], expected: Expected::Arrow }));
}

#[test]
fn trees_are_opened_and_searched() {
    let tokens = sequence(vec![lex("a"), vec![invisible("b c")], lex("(d)"), vec![invisible("")]]);
    assert_eq!(open(&tokens), lex("a b c (d)"));
    assert_eq!(find(&tokens, 0), (vec![0], Some(&tokens[0])));
    assert_eq!(find(&tokens, 2).0, vec![1, 1]);
    assert_eq!(find(&tokens, 3), (vec![2], Some(&tokens[2])));
    assert_eq!(find(&tokens, 4), (vec![4], None));
    assert_eq!(rest(&tokens, 0), tokens);
    assert_eq!(rest(&tokens, 2), sequence(vec![lex("c (d)"), vec![invisible("")]]));
    assert_eq!(rest(&tokens, 3), sequence(vec![lex("(d)"), vec![invisible("")]]));
    assert_eq!(rest(&tokens, 4), vec![invisible("")]);
    assert_eq!(rest(&tokens, 9), Vec::<Token>::new());
    assert_eq!(in_tree(&tokens, &vec![2], 0), vec![1, 1]);
    assert_eq!(in_tree(&tokens, &vec![3, 0], 0), vec![2, 0]);
}

#[test]
fn tokens_are_cloned_deeply() {
    let tokens = lex("a ( b [ c { d } ] ) \"e\" 1 + =>");
    assert_eq!(ident_mash::token::clone_tokens(&tokens), tokens);
    assert_eq!(tokens[1].clone(), tokens[1]);
    assert!(ident_mash::token::token_is_punct(&tokens[4], '+'));
    assert!(!ident_mash::token::token_is_punct(&tokens[4], '-'));
    assert!(!ident_mash::token::token_is_punct(&tokens[0], 'a'));
}
