//! The binding grammar, as a reading of a token tree.
//!
//! ```text
//! invocation := binding ('&' binding)* '=>' template
//! binding    := name '=' expr
//! expr       := term ('+' term)*
//! term       := fragment | ':' transform '(' expr ')'
//! fragment   := identifier | '_' | string-literal
//! ```
//!
//! Each rule is a spec function that gives, for a position in a token
//! sequence, what stands there or the first error met while reading it. A
//! whole invocation is read through its invisible groups: the rules are
//! applied to the opened reading of the tree, and the places they give are
//! turned into places in the tree.

use crate::error::{place_view, Expected, MashErrorView};
use crate::opened::{opened, rest_from, tree_place};
use crate::operation::{concatenated, Operation, OperationView, PlainView, Transform};
use crate::text::without_raw_marker;
use crate::token::{is_punct, Delimiter, Spacing, Token, TokenView};
use vstd::prelude::*;

verus! {

/// One binding: a name and the expression bound to it.
#[derive(Debug, PartialEq, Eq)]
pub struct MetaVar {
    /// The name as it is spelled, with its `r#` if it has one.
    pub name: String,
    /// The place of the name: an index among the tokens that the binding
    /// was read from, or, in an invocation that was read as a whole, the
    /// place in its tree.
    pub at: Vec<usize>,
    /// The terms of the expression, which are concatenated.
    pub ops: Vec<Operation>,
}

/// The mathematical value of a [`MetaVar`].
pub struct MetaVarView {
    pub name: Seq<char>,
    pub at: Seq<int>,
    pub ops: Seq<OperationView>,
}

impl View for MetaVar {
    type V = MetaVarView;

    open spec fn view(&self) -> MetaVarView {
        MetaVarView { name: self.name@, at: place_view(self.at@), ops: self.ops.deep_view() }
    }
}

impl DeepView for MetaVar {
    type V = MetaVarView;

    open spec fn deep_view(&self) -> MetaVarView {
        self@
    }
}

impl MetaVarView {
    /// The name that the binding's placeholder is found by: the spelling
    /// without any `r#`.
    pub open spec fn bound_name(self) -> Seq<char> {
        without_raw_marker(self.name)
    }

    /// The binding has at least one term, and every transform in it has at
    /// least one child.
    pub open spec fn well_formed(self) -> bool {
        &&& self.ops.len() > 0
        &&& forall|i: int| 0 <= i < self.ops.len() ==> (#[trigger] self.ops[i]).well_formed()
    }

    /// The text that the binding evaluates to.
    pub open spec fn text(self) -> Seq<char> {
        concatenated(self.ops)
    }

    /// The error for a binding whose name was bound before.
    pub open spec fn bound_twice(self) -> MashErrorView {
        MashErrorView::DuplicateName { at: self.at, name: self.bound_name() }
    }

    /// The error for a binding whose text cannot name an identifier.
    pub open spec fn names_no_identifier(self) -> MashErrorView {
        MashErrorView::InvalidIdentifier {
            at: self.at,
            name: self.bound_name(),
            text: self.text(),
        }
    }

    /// The binding with its place, which is one of the opened reading of
    /// `tokens`, turned into the place in the tree.
    pub open spec fn in_tree(self, tokens: Seq<TokenView>) -> MetaVarView {
        MetaVarView { name: self.name, at: tree_place(tokens, self.at, 0), ops: self.ops }
    }
}

/// A whole invocation: the bindings, in the order they were declared, and the
/// template.
#[derive(Debug, PartialEq, Eq)]
pub struct Arguments {
    /// The bindings, in the order they were declared.
    pub vars: Vec<MetaVar>,
    /// The template: the token tree behind `=>`.
    pub tt: Vec<Token>,
}

/// The mathematical value of an [`Arguments`].
pub struct ArgumentsView {
    pub vars: Seq<MetaVarView>,
    pub tt: Seq<TokenView>,
}

impl View for Arguments {
    type V = ArgumentsView;

    open spec fn view(&self) -> ArgumentsView {
        ArgumentsView { vars: self.vars.deep_view(), tt: self.tt.deep_view() }
    }
}

impl DeepView for Arguments {
    type V = ArgumentsView;

    open spec fn deep_view(&self) -> ArgumentsView {
        self@
    }
}

/// Whether the binding at `j` has the name of an earlier binding.
pub open spec fn is_repeat(vars: Seq<MetaVarView>, j: int) -> bool {
    &&& 0 <= j < vars.len()
    &&& exists|i: int| 0 <= i < j && (#[trigger] vars[i]).bound_name() == vars[j].bound_name()
}

/// Whether the binding at `j` is the first one that has the name of an
/// earlier binding.
pub open spec fn is_first_repeat(vars: Seq<MetaVarView>, j: int) -> bool {
    &&& is_repeat(vars, j)
    &&& forall|k: int| 0 <= k < j ==> !is_repeat(vars, k)
}

/// The index of the first binding that has the name of an earlier one.
pub open spec fn first_repeat(vars: Seq<MetaVarView>) -> Option<int> {
    if exists|j: int| is_first_repeat(vars, j) {
        Some(choose|j: int| is_first_repeat(vars, j))
    } else {
        None
    }
}

/// No two bindings have the same name.
pub open spec fn distinct_names(vars: Seq<MetaVarView>) -> bool {
    forall|i: int, j: int|
        0 <= i < j < vars.len() ==> (#[trigger] vars[i]).bound_name() != (
        #[trigger] vars[j]).bound_name()
}

impl ArgumentsView {
    /// There is at least one binding, every binding is well formed, and no
    /// two bindings have the same name.
    pub open spec fn well_formed(self) -> bool {
        &&& self.vars.len() > 0
        &&& forall|i: int| 0 <= i < self.vars.len() ==> (#[trigger] self.vars[i]).well_formed()
        &&& distinct_names(self.vars)
    }
}

/// Whether `=>` stands at `pos`: a `=` joined to a `>` that follows it.
pub open spec fn is_arrow(tokens: Seq<TokenView>, pos: int) -> bool {
    &&& 0 <= pos
    &&& pos + 1 < tokens.len()
    &&& tokens[pos] == TokenView::Punct('=', Spacing::Joint)
    &&& is_punct(tokens, pos + 1, '>')
}

/// The transform that a keyword names.
pub open spec fn transform_named(word: Seq<char>) -> Option<Transform> {
    if word == "hash"@ {
        Some(Transform::Hash)
    } else if word == "lower_case"@ {
        Some(Transform::Lower)
    } else if word == "upper_case"@ {
        Some(Transform::Upper)
    } else if word == "snake_case"@ {
        Some(Transform::Snake)
    } else if word == "pascal_case"@ {
        Some(Transform::Pascal)
    } else if word == "upper_snake_case"@ {
        Some(Transform::ScreamingSnake)
    } else {
        None
    }
}

/// The transform whose keyword stands at `pos`, if one does.
pub open spec fn keyword_at(tokens: Seq<TokenView>, pos: int) -> Option<Transform> {
    if 0 <= pos < tokens.len() {
        match tokens[pos] {
            TokenView::Ident(word) => transform_named(word),
            _ => None,
        }
    } else {
        None
    }
}

/// The tokens inside the parenthesized group at `pos`, if one stands there.
pub open spec fn parenthesized_at(tokens: Seq<TokenView>, pos: int) -> Option<Seq<TokenView>> {
    if 0 <= pos < tokens.len() {
        match tokens[pos] {
            TokenView::Group(Delimiter::Parenthesis, inner) => Some(inner),
            _ => None,
        }
    } else {
        None
    }
}

/// Whether a word is reserved: `_` or a keyword, in use or set aside. An
/// identifier token with such a spelling is no identifier of the grammar. A
/// raw identifier is spelled with its `r#` and so is never reserved.
pub open spec fn is_reserved(word: Seq<char>) -> bool {
    ||| word == "_"@
    ||| word == "abstract"@
    ||| word == "as"@
    ||| word == "async"@
    ||| word == "await"@
    ||| word == "become"@
    ||| word == "box"@
    ||| word == "break"@
    ||| word == "const"@
    ||| word == "continue"@
    ||| word == "crate"@
    ||| word == "do"@
    ||| word == "dyn"@
    ||| word == "else"@
    ||| word == "enum"@
    ||| word == "extern"@
    ||| word == "false"@
    ||| word == "final"@
    ||| word == "fn"@
    ||| word == "for"@
    ||| word == "if"@
    ||| word == "impl"@
    ||| word == "in"@
    ||| word == "let"@
    ||| word == "loop"@
    ||| word == "macro"@
    ||| word == "match"@
    ||| word == "mod"@
    ||| word == "move"@
    ||| word == "mut"@
    ||| word == "override"@
    ||| word == "priv"@
    ||| word == "pub"@
    ||| word == "ref"@
    ||| word == "return"@
    ||| word == "Self"@
    ||| word == "self"@
    ||| word == "static"@
    ||| word == "struct"@
    ||| word == "super"@
    ||| word == "trait"@
    ||| word == "true"@
    ||| word == "try"@
    ||| word == "type"@
    ||| word == "typeof"@
    ||| word == "unsafe"@
    ||| word == "unsized"@
    ||| word == "use"@
    ||| word == "virtual"@
    ||| word == "where"@
    ||| word == "while"@
    ||| word == "yield"@
}

/// The spelling of the identifier at `pos`, where the token there is an
/// identifier that is not reserved.
pub open spec fn name_at(tokens: Seq<TokenView>, pos: int) -> Option<Seq<char>> {
    if 0 <= pos < tokens.len() {
        match tokens[pos] {
            TokenView::Ident(spelling) => if is_reserved(spelling) {
                None
            } else {
                Some(spelling)
            },
            _ => None,
        }
    } else {
        None
    }
}

/// The fragment at `pos`: the wildcard `_`, a string literal, by its
/// contents, or an identifier.
pub open spec fn plain_at(tokens: Seq<TokenView>, pos: int) -> Option<PlainView> {
    if 0 <= pos < tokens.len() {
        match tokens[pos] {
            TokenView::Ident(spelling) => if spelling == "_"@ {
                Some(PlainView::Underscore)
            } else if is_reserved(spelling) {
                None
            } else {
                Some(PlainView::Ident(spelling))
            },
            TokenView::Literal(_, Some(contents)) => Some(PlainView::LitStr(contents)),
            _ => None,
        }
    } else {
        None
    }
}

/// The number of tokens that a term starting at `pos` takes up: three for a
/// transform (`:`, keyword, group), one for a fragment.
pub open spec fn term_width(tokens: Seq<TokenView>, pos: int) -> int {
    if is_punct(tokens, pos, ':') {
        3
    } else {
        1
    }
}

/// A grammar error at one place of the current level.
pub open spec fn grammar_error(pos: int, expected: Expected) -> MashErrorView {
    MashErrorView::Grammar { at: seq![pos], expected }
}

/// The term that starts at `pos`, or the first error met while reading it.
pub open spec fn operation_at(tokens: Seq<TokenView>, pos: int) -> Result<
    OperationView,
    MashErrorView,
>
    decreases tokens, tokens.len() - pos, 0nat,
{
    if is_punct(tokens, pos, ':') {
        match keyword_at(tokens, pos + 1) {
            None => Err(MashErrorView::UnknownOperation { at: seq![pos] }),
            Some(kind) => match parenthesized_at(tokens, pos + 2) {
                None => Err(grammar_error(pos + 2, Expected::Parentheses)),
                Some(inner) => match operations_at(inner, 0) {
                    Err(e) => Err(e.within(pos + 2)),
                    Ok((children, end)) => if end == inner.len() {
                        Ok(OperationView::Apply(kind, children))
                    } else {
                        Err(grammar_error(end, Expected::GroupEnd).within(pos + 2))
                    },
                },
            },
        }
    } else {
        match plain_at(tokens, pos) {
            Some(plain) => Ok(OperationView::Plain(plain)),
            None => Err(grammar_error(pos, Expected::Identifier)),
        }
    }
}

/// The terms of the expression that starts at `pos`, with the position after
/// the last of them, or the first error met.
pub open spec fn operations_at(tokens: Seq<TokenView>, pos: int) -> Result<
    (Seq<OperationView>, int),
    MashErrorView,
>
    decreases tokens, tokens.len() - pos, 1nat,
{
    match operation_at(tokens, pos) {
        Err(e) => Err(e),
        Ok(first) => {
            let next = pos + term_width(tokens, pos);
            if is_punct(tokens, next, '+') {
                match operations_at(tokens, next + 1) {
                    Err(e) => Err(e),
                    Ok((rest, end)) => Ok((seq![first] + rest, end)),
                }
            } else {
                Ok((seq![first], next))
            }
        },
    }
}

/// A term that was read lies within the tokens and is well formed; an
/// expression that was read also ends after where it starts and has at least
/// one term.
pub proof fn lemma_expression_shape(tokens: Seq<TokenView>, pos: int)
    ensures
        operation_at(tokens, pos) matches Ok(op) ==> {
            &&& pos + term_width(tokens, pos) <= tokens.len()
            &&& op.well_formed()
        },
        operations_at(tokens, pos) matches Ok((ops, end)) ==> {
            &&& pos < end <= tokens.len()
            &&& ops.len() > 0
            &&& forall|i: int| 0 <= i < ops.len() ==> (#[trigger] ops[i]).well_formed()
        },
    decreases tokens, tokens.len() - pos,
{
    if is_punct(tokens, pos, ':') {
        if keyword_at(tokens, pos + 1) is Some {
            if let Some(inner) = parenthesized_at(tokens, pos + 2) {
                lemma_expression_shape(inner, 0);
            }
        }
    }
    if let Ok(first) = operation_at(tokens, pos) {
        let next = pos + term_width(tokens, pos);
        if is_punct(tokens, next, '+') {
            lemma_expression_shape(tokens, next + 1);
        }
    }
}

/// The binding that starts at `pos`, with the position after its expression,
/// or the first error met while reading it.
pub open spec fn metavar_at(tokens: Seq<TokenView>, pos: int) -> Result<
    (MetaVarView, int),
    MashErrorView,
> {
    match name_at(tokens, pos) {
        None => Err(grammar_error(pos, Expected::Identifier)),
        Some(name) => if is_punct(tokens, pos + 1, '=') {
            match operations_at(tokens, pos + 2) {
                Err(e) => Err(e),
                Ok((ops, end)) => Ok((MetaVarView { name, at: seq![pos], ops }, end)),
            }
        } else {
            Err(grammar_error(pos + 1, Expected::Equals))
        },
    }
}

/// The bindings that start at `pos`, one and one more after each `&`, with
/// the position after the last of them, or the first error met.
pub open spec fn metavars_at(tokens: Seq<TokenView>, pos: int) -> Result<
    (Seq<MetaVarView>, int),
    MashErrorView,
>
    decreases tokens.len() - pos,
{
    match metavar_at(tokens, pos) {
        Err(e) => Err(e),
        Ok((first, next)) => {
            if is_punct(tokens, next, '&') {
                proof {
                    lemma_expression_shape(tokens, pos + 2);
                }
                match metavars_at(tokens, next + 1) {
                    Err(e) => Err(e),
                    Ok((rest, end)) => Ok((seq![first] + rest, end)),
                }
            } else {
                Ok((seq![first], next))
            }
        },
    }
}

/// The bindings with their places turned into places in the tree.
pub open spec fn all_in_tree(tokens: Seq<TokenView>, vars: Seq<MetaVarView>) -> Seq<MetaVarView> {
    Seq::new(vars.len(), |i: int| vars[i].in_tree(tokens))
}

/// The invocation that a token tree spells, or the first error in it: an
/// error of the grammar if there is one, else the first binding whose name
/// was bound before. The bindings and `=>` are read through invisible
/// groups; the template is what is left of the tree behind `=>`. Every place
/// is a place in the tree.
pub open spec fn parsed(tokens: Seq<TokenView>) -> Result<ArgumentsView, MashErrorView> {
    let read = opened(tokens);
    match metavars_at(read, 0) {
        Err(e) => Err(e.placed(tree_place(tokens, e.place(), 0))),
        Ok((vars, end)) => if is_arrow(read, end) {
            match first_repeat(vars) {
                Some(j) => Err(vars[j].in_tree(tokens).bound_twice()),
                None => Ok(
                    ArgumentsView {
                        vars: all_in_tree(tokens, vars),
                        tt: rest_from(tokens, 0, end + 2),
                    },
                ),
            }
        } else {
            Err(grammar_error(end, Expected::Arrow).placed(tree_place(tokens, seq![end], 0)))
        },
    }
}

/// The bindings that were read are well formed, and the list of them lies
/// within the tokens and is not empty.
pub proof fn lemma_bindings_shape(tokens: Seq<TokenView>, pos: int)
    ensures
        metavars_at(tokens, pos) matches Ok((vars, end)) ==> {
            &&& pos < end <= tokens.len()
            &&& vars.len() > 0
            &&& forall|i: int| 0 <= i < vars.len() ==> (#[trigger] vars[i]).well_formed()
        },
    decreases tokens.len() - pos,
{
    lemma_expression_shape(tokens, pos + 2);
    if let Ok((first, next)) = metavar_at(tokens, pos) {
        if is_punct(tokens, next, '&') {
            lemma_bindings_shape(tokens, next + 1);
        }
    }
}

/// An invocation that was read is well formed: it has a binding, every
/// expression and every transform in it has a term, and no two bindings have
/// the same name.
pub proof fn lemma_invocation_well_formed(tokens: Seq<TokenView>)
    ensures
        parsed(tokens) matches Ok(arguments) ==> arguments.well_formed(),
{
    let read = opened(tokens);
    lemma_bindings_shape(read, 0);
    if let Ok(arguments) = parsed(tokens) {
        let (read_vars, end) = metavars_at(read, 0)->Ok_0;
        let vars = arguments.vars;
        assert(first_repeat(read_vars) is None);
        assert forall|i: int| 0 <= i < vars.len() implies (#[trigger] vars[i]).well_formed() by {
            assert(read_vars[i].well_formed());
            assert(vars[i].ops == read_vars[i].ops);
        }
        assert forall|i: int, j: int| 0 <= i < j < vars.len() implies (#[trigger] vars[i]).bound_name()
            != (#[trigger] vars[j]).bound_name() by {
            if read_vars[i].bound_name() == read_vars[j].bound_name() {
                assert(is_repeat(read_vars, j));
                lemma_some_repeat_is_first(read_vars, j);
            }
        }
    }
}

/// Where some binding repeats a name, some binding is the first to do so.
pub proof fn lemma_some_repeat_is_first(vars: Seq<MetaVarView>, j: int)
    requires
        is_repeat(vars, j),
    ensures
        exists|k: int| is_first_repeat(vars, k),
    decreases j,
{
    if exists|k: int| 0 <= k < j && is_repeat(vars, k) {
        let k = choose|k: int| 0 <= k < j && is_repeat(vars, k);
        lemma_some_repeat_is_first(vars, k);
    } else {
        assert(is_first_repeat(vars, j));
    }
}

} // verus!
