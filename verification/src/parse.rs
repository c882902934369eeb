//! Reading an invocation from a token tree, rule by rule of the grammar.

use crate::error::{outcome, outcome_at, place_of, Expected, MashError, MashErrorView};
use crate::grammar::{
    all_in_tree, distinct_names, first_repeat, is_first_repeat, is_repeat, is_reserved,
    lemma_bindings_shape, lemma_expression_shape, lemma_invocation_well_formed, metavar_at,
    metavars_at, operation_at, operations_at, parsed, plain_at, transform_named, Arguments, MetaVar,
};
use crate::opened::{in_tree, open, rest};
use crate::operation::{lemma_apply_view, Operation, Plain, Transform};
use crate::text::{chars_of, ident_no_prefix, same_text};
use crate::token::{lemma_group_view, token_is_punct, Delimiter, Spacing, Token, TokenView};
use vstd::prelude::*;

verus! {

impl Transform {
    /// The transform that a keyword names.
    pub fn named(word: &str) -> (kind: Option<Transform>)
        ensures
            kind == transform_named(word@),
    {
        if same_text(word, "hash") {
            Some(Transform::Hash)
        } else if same_text(word, "lower_case") {
            Some(Transform::Lower)
        } else if same_text(word, "upper_case") {
            Some(Transform::Upper)
        } else if same_text(word, "snake_case") {
            Some(Transform::Snake)
        } else if same_text(word, "pascal_case") {
            Some(Transform::Pascal)
        } else if same_text(word, "upper_snake_case") {
            Some(Transform::ScreamingSnake)
        } else {
            None
        }
    }
}

/// Whether the characters spell `word`.
fn spells(chars: &Vec<char>, word: &str) -> (yes: bool)
    ensures
        yes == (chars@ == word@),
{
    let mut i: usize = 0;
    for ch in it: word.chars()
        invariant
            it.seq() == word@,
            i == it.index(),
            i <= chars.len(),
            chars@.take(i as int) == it.seq().take(i as int),
    {
        if i >= chars.len() || chars[i] != ch {
            assert(chars@ != word@) by {
                if chars@ == word@ {
                    assert(chars@[i as int] == word@[i as int]);
                }
            }
            return false;
        }
        assert(chars@.take(i + 1) =~= chars@.take(i as int).push(chars@[i as int]));
        assert(word@.take(i + 1) =~= word@.take(i as int).push(word@[i as int]));
        i += 1;
    }
    assert(word@.take(word@.len() as int) =~= word@);
    if i == chars.len() {
        assert(chars@.take(i as int) =~= chars@);
        true
    } else {
        false
    }
}

/// Whether a word is reserved: `_` or a keyword, in use or set aside. An
/// identifier token that is spelled so is no identifier of the grammar.
pub fn reserved(word: &str) -> (yes: bool)
    ensures
        yes == is_reserved(word@),
{
    let chars = chars_of(word);
    spells(&chars, "_")
        || spells(&chars, "abstract")
        || spells(&chars, "as")
        || spells(&chars, "async")
        || spells(&chars, "await")
        || spells(&chars, "become")
        || spells(&chars, "box")
        || spells(&chars, "break")
        || spells(&chars, "const")
        || spells(&chars, "continue")
        || spells(&chars, "crate")
        || spells(&chars, "do")
        || spells(&chars, "dyn")
        || spells(&chars, "else")
        || spells(&chars, "enum")
        || spells(&chars, "extern")
        || spells(&chars, "false")
        || spells(&chars, "final")
        || spells(&chars, "fn")
        || spells(&chars, "for")
        || spells(&chars, "if")
        || spells(&chars, "impl")
        || spells(&chars, "in")
        || spells(&chars, "let")
        || spells(&chars, "loop")
        || spells(&chars, "macro")
        || spells(&chars, "match")
        || spells(&chars, "mod")
        || spells(&chars, "move")
        || spells(&chars, "mut")
        || spells(&chars, "override")
        || spells(&chars, "priv")
        || spells(&chars, "pub")
        || spells(&chars, "ref")
        || spells(&chars, "return")
        || spells(&chars, "Self")
        || spells(&chars, "self")
        || spells(&chars, "static")
        || spells(&chars, "struct")
        || spells(&chars, "super")
        || spells(&chars, "trait")
        || spells(&chars, "true")
        || spells(&chars, "try")
        || spells(&chars, "type")
        || spells(&chars, "typeof")
        || spells(&chars, "unsafe")
        || spells(&chars, "unsized")
        || spells(&chars, "use")
        || spells(&chars, "virtual")
        || spells(&chars, "where")
        || spells(&chars, "while")
        || spells(&chars, "yield")
}

impl Plain {
    /// Reads the fragment at `pos`: `_`, a string literal, which gives the
    /// contents it carries, or an identifier that is not reserved.
    pub fn parse(tokens: &Vec<Token>, pos: usize) -> (plain: Option<Plain>)
        ensures
            plain.deep_view() == plain_at(tokens.deep_view(), pos as int),
    {
        if pos >= tokens.len() {
            return None;
        }
        match &tokens[pos] {
            Token::Ident(spelling) => {
                if same_text(spelling.as_str(), "_") {
                    Some(Plain::Underscore)
                } else if reserved(spelling.as_str()) {
                    None
                } else {
                    Some(Plain::Ident(spelling.clone()))
                }
            },
            Token::Literal(_, Some(contents)) => Some(Plain::LitStr(contents.clone())),
            _ => None,
        }
    }
}

/// The result `rest`, with the items `done` put in front of its items.
spec fn after<T>(done: Seq<T>, rest: Result<(Seq<T>, int), MashErrorView>) -> Result<
    (Seq<T>, int),
    MashErrorView,
> {
    match rest {
        Ok((ops, end)) => Ok((done + ops, end)),
        Err(e) => Err(e),
    }
}

impl Operation {
    /// Reads the term at `pos`: a fragment, or `:`, a transform keyword and
    /// its parenthesized arguments.
    pub fn parse(tokens: &Vec<Token>, pos: usize) -> (result: Result<Operation, MashError>)
        ensures
            result matches Ok(op) ==> op@.well_formed(),
            outcome(result) == operation_at(tokens.deep_view(), pos as int),
        decreases tokens, tokens.len() - pos, 0nat,
    {
        proof {
            lemma_expression_shape(tokens.deep_view(), pos as int);
        }
        let len = tokens.len();
        if pos < len && token_is_punct(&tokens[pos], ':') {
            let kind = if pos + 1 < len {
                match &tokens[pos + 1] {
                    Token::Ident(word) => Transform::named(word.as_str()),
                    _ => None,
                }
            } else {
                None
            };
            match kind {
                None => Err(MashError::UnknownOperation { at: place_of(pos) }),
                Some(kind) => {
                    if pos + 2 < len {
                        match &tokens[pos + 2] {
                            Token::Group(Delimiter::Parenthesis, inner) => {
                                proof {
                                    lemma_group_view(Delimiter::Parenthesis, *inner);
                                }
                                match parse_operations(inner, 0) {
                                    Err(e) => Err(e.within(pos + 2)),
                                    Ok((children, end)) => {
                                        if end == inner.len() {
                                            proof {
                                                lemma_apply_view(kind, children);
                                            }
                                            Ok(Operation::Apply(kind, children))
                                        } else {
                                            let inside = MashError::Grammar {
                                                at: place_of(end),
                                                expected: Expected::GroupEnd,
                                            };
                                            Err(inside.within(pos + 2))
                                        }
                                    },
                                }
                            },
                            _ => Err(
                                MashError::Grammar {
                                    at: place_of(pos + 2),
                                    expected: Expected::Parentheses,
                                },
                            ),
                        }
                    } else {
                        Err(
                            MashError::Grammar {
                                at: place_of(pos + 2),
                                expected: Expected::Parentheses,
                            },
                        )
                    }
                },
            }
        } else {
            match Plain::parse(tokens, pos) {
                Some(plain) => Ok(Operation::Plain(plain)),
                None => Err(MashError::Grammar { at: place_of(pos), expected: Expected::Identifier }),
            }
        }
    }
}

/// Reads the expression at `pos`: one term, and one more after each `+`.
/// Gives the terms and the position after the last of them.
pub fn parse_operations(tokens: &Vec<Token>, pos: usize) -> (result: Result<
    (Vec<Operation>, usize),
    MashError,
>)
    ensures
        result matches Ok((ops, end)) ==> {
            &&& pos < end <= tokens.len()
            &&& ops.len() > 0
            &&& forall|i: int|
                0 <= i < ops.len() ==> (#[trigger] ops.deep_view()[i]).well_formed()
        },
        outcome_at(result) == operations_at(tokens.deep_view(), pos as int),
    decreases tokens, tokens.len() - pos, 1nat,
{
    let len = tokens.len();
    let mut ops: Vec<Operation> = Vec::new();
    let mut at: usize = pos;
    loop
        invariant
            len == tokens.len(),
            pos <= at,
            at == pos || at <= len,
            operations_at(tokens.deep_view(), pos as int) == after(
                ops.deep_view(),
                operations_at(tokens.deep_view(), at as int),
            ),
        decreases tokens.len() - at,
    {
        let ghost before = ops.deep_view();
        match Operation::parse(tokens, at) {
            Err(e) => {
                return Err(e);
            },
            Ok(op) => {
                let next = if token_is_punct(&tokens[at], ':') {
                    at + 3
                } else {
                    at + 1
                };
                ops.push(op);
                assert(ops.deep_view() =~= before + seq![op@]);
                if next < len && token_is_punct(&tokens[next], '+') {
                    proof {
                        let rest = operations_at(tokens.deep_view(), next + 1);
                        match rest {
                            Ok((more, end)) => {
                                assert(before + (seq![op@] + more) =~= ops.deep_view() + more);
                            },
                            Err(_) => {},
                        }
                    }
                    at = next + 1;
                } else {
                    assert(before + seq![op@] =~= ops.deep_view());
                    proof {
                        lemma_expression_shape(tokens.deep_view(), pos as int);
                    }
                    return Ok((ops, next));
                }
            },
        }
    }
}

impl MetaVar {
    /// Reads the binding at `pos`: a name, `=`, and an expression. Gives the
    /// binding and the position after its expression.
    pub fn parse(tokens: &Vec<Token>, pos: usize) -> (result: Result<(MetaVar, usize), MashError>)
        ensures
            result matches Ok((var, end)) ==> pos < end <= tokens.len() && var@.well_formed(),
            outcome_at(result) == metavar_at(tokens.deep_view(), pos as int),
    {
        let len = tokens.len();
        let name = if pos < len {
            match &tokens[pos] {
                Token::Ident(spelling) => {
                    if reserved(spelling.as_str()) {
                        None
                    } else {
                        Some(spelling.clone())
                    }
                },
                _ => None,
            }
        } else {
            None
        };
        match name {
            None => Err(MashError::Grammar { at: place_of(pos), expected: Expected::Identifier }),
            Some(name) => {
                if pos + 1 < len && token_is_punct(&tokens[pos + 1], '=') {
                    match parse_operations(tokens, pos + 2) {
                        Err(e) => Err(e),
                        Ok((ops, end)) => Ok((MetaVar { name, at: place_of(pos), ops }, end)),
                    }
                } else {
                    Err(MashError::Grammar { at: place_of(pos + 1), expected: Expected::Equals })
                }
            },
        }
    }
}

/// Reads the bindings at `pos`: one binding, and one more after each `&`.
/// Gives the bindings and the position after the last of them.
pub fn parse_metavars(tokens: &Vec<Token>, pos: usize) -> (result: Result<
    (Vec<MetaVar>, usize),
    MashError,
>)
    ensures
        result matches Ok((vars, end)) ==> {
            &&& pos < end <= tokens.len()
            &&& vars.len() > 0
            &&& forall|i: int|
                0 <= i < vars.len() ==> (#[trigger] vars.deep_view()[i]).well_formed()
        },
        outcome_at(result) == metavars_at(tokens.deep_view(), pos as int),
{
    let len = tokens.len();
    let mut vars: Vec<MetaVar> = Vec::new();
    let mut at: usize = pos;
    loop
        invariant
            len == tokens.len(),
            metavars_at(tokens.deep_view(), pos as int) == after(
                vars.deep_view(),
                metavars_at(tokens.deep_view(), at as int),
            ),
        decreases tokens.len() - at,
    {
        let ghost before = vars.deep_view();
        match MetaVar::parse(tokens, at) {
            Err(e) => {
                return Err(e);
            },
            Ok((var, next)) => {
                vars.push(var);
                assert(vars.deep_view() =~= before + seq![var@]);
                if next < len && token_is_punct(&tokens[next], '&') {
                    proof {
                        let rest = metavars_at(tokens.deep_view(), next + 1);
                        match rest {
                            Ok((more, end)) => {
                                assert(before + (seq![var@] + more) =~= vars.deep_view() + more);
                            },
                            Err(_) => {},
                        }
                    }
                    at = next + 1;
                } else {
                    assert(before + seq![var@] =~= vars.deep_view());
                    proof {
                        lemma_bindings_shape(tokens.deep_view(), pos as int);
                    }
                    return Ok((vars, next));
                }
            },
        }
    }
}

/// Finds the first binding whose name an earlier binding has.
pub fn find_repeat(vars: &Vec<MetaVar>) -> (found: Option<usize>)
    ensures
        match found {
            Some(j) => first_repeat(vars.deep_view()) == Some(j as int),
            None => first_repeat(vars.deep_view()) is None && distinct_names(vars.deep_view()),
        },
{
    let ghost views = vars.deep_view();
    let mut names: Vec<String> = Vec::new();
    let mut j: usize = 0;
    while j < vars.len()
        invariant
            j <= vars.len(),
            views == vars.deep_view(),
            names.len() == j,
            forall|i: int| 0 <= i < j ==> names[i]@ == (#[trigger] views[i]).bound_name(),
            forall|k: int| 0 <= k < j ==> !is_repeat(views, k),
        decreases vars.len() - j,
    {
        let name = ident_no_prefix(vars[j].name.as_str());
        let mut i: usize = 0;
        while i < j
            invariant
                i <= j < vars.len(),
                views == vars.deep_view(),
                names.len() == j,
                name@ == views[j as int].bound_name(),
                forall|i: int| 0 <= i < j ==> names[i]@ == (#[trigger] views[i]).bound_name(),
                forall|k: int| 0 <= k < j ==> !is_repeat(views, k),
                forall|k: int| 0 <= k < i ==> (#[trigger] views[k]).bound_name() != name@,
            decreases j - i,
        {
            if names[i] == name {
                assert(views[i as int].bound_name() == views[j as int].bound_name());
                assert(is_repeat(views, j as int));
                assert(is_first_repeat(views, j as int));
                return Some(j);
            }
            i += 1;
        }
        assert(!is_repeat(views, j as int));
        names.push(name);
        j += 1;
    }
    assert(forall|k: int| !is_repeat(views, k));
    assert(distinct_names(views)) by {
        assert forall|a: int, b: int| 0 <= a < b < views.len() implies (#[trigger] views[a]).bound_name()
            != (#[trigger] views[b]).bound_name() by {
            assert(!is_repeat(views, b));
        }
    }
    None
}

/// Turns the places of the bindings, which are places of the opened reading
/// of `tokens`, into places in the tree.
fn place_in_tree(tokens: &Vec<Token>, vars: Vec<MetaVar>) -> (placed: Vec<MetaVar>)
    ensures
        placed.deep_view() == all_in_tree(tokens.deep_view(), vars.deep_view()),
{
    let ghost read = vars.deep_view();
    let mut placed: Vec<MetaVar> = Vec::new();
    let mut left = vars;
    while left.len() > 0
        invariant
            placed.len() + left.len() == read.len(),
            forall|j: int|
                0 <= j < placed.len() ==> placed[j]@ == (#[trigger] read[j]).in_tree(
                    tokens.deep_view(),
                ),
            forall|j: int| 0 <= j < left.len() ==> left[j]@ == read[placed.len() + j],
        decreases left.len(),
    {
        let var = left.remove(0);
        let at = in_tree(tokens, &var.at, 0);
        placed.push(MetaVar { name: var.name, at, ops: var.ops });
    }
    assert(placed.deep_view() =~= all_in_tree(tokens.deep_view(), read));
    placed
}

impl Arguments {
    /// Reads a whole invocation: bindings separated by `&`, then `=>`, then
    /// the template, which is every token that follows. The bindings and
    /// `=>` are read through invisible groups; the template keeps its own.
    /// Rejects the tokens with the first error of the grammar, or, where the
    /// grammar is kept, with the first binding whose name was bound before.
    pub fn parse(tokens: Vec<Token>) -> (result: Result<Arguments, MashError>)
        ensures
            result matches Ok(arguments) ==> arguments@.well_formed(),
            outcome(result) == parsed(tokens.deep_view()),
    {
        proof {
            lemma_invocation_well_formed(tokens.deep_view());
        }
        let read = open(&tokens);
        let len = read.len();
        match parse_metavars(&read, 0) {
            Err(e) => {
                let at = in_tree(&tokens, e.place(), 0);
                Err(e.placed(at))
            },
            Ok((vars, end)) => {
                if end < len && end + 1 < len && token_is_joint_equals(&read[end])
                    && token_is_punct(&read[end + 1], '>') {
                    match find_repeat(&vars) {
                        Some(j) => {
                            let name = ident_no_prefix(vars[j].name.as_str());
                            let at = in_tree(&tokens, &vars[j].at, 0);
                            Err(MashError::DuplicateName { at, name })
                        },
                        None => {
                            let tt = rest(&tokens, end + 2);
                            let vars = place_in_tree(&tokens, vars);
                            Ok(Arguments { vars, tt })
                        },
                    }
                } else {
                    let at = in_tree(&tokens, &place_of(end), 0);
                    Err(MashError::Grammar { at, expected: Expected::Arrow })
                }
            },
        }
    }
}

/// Whether a token is a `=` that is joined to the punctuation after it.
fn token_is_joint_equals(token: &Token) -> (yes: bool)
    ensures
        yes == (token@ == TokenView::Punct('=', Spacing::Joint)),
{
    match token {
        Token::Punct(c, Spacing::Joint) => *c == '=',
        _ => false,
    }
}

} // verus!
