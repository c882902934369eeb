//! Laws of reading: an expression and a list of bindings are read from their
//! own tokens and the one token that follows them, whatever comes after; and
//! a tree without invisible groups is read as it stands.

use crate::error::{Expected, MashErrorView};
use crate::grammar::{
    all_in_tree, first_repeat, grammar_error, is_arrow, lemma_bindings_shape,
    lemma_expression_shape, metavar_at, metavars_at, operation_at, operations_at, parsed,
    term_width, ArgumentsView,
};
use crate::laws::places::{binding_places, is_read_place, tree_place_from_its_index};
use crate::opened::{
    opened, opened_from, opened_token, place_from, rest_from, token_from, tree_place,
};
use crate::token::{is_punct, Delimiter, TokenView};
use vstd::prelude::*;

verus! {

/// Whether two token sequences hold the same tokens before position `n`.
pub open spec fn agree_before(first: Seq<TokenView>, second: Seq<TokenView>, n: int) -> bool {
    &&& n <= first.len()
    &&& n <= second.len()
    &&& forall|i: int| 0 <= i < n ==> first[i] == second[i]
}

/// An expression is read from its own tokens and the one that follows it:
/// token sequences that agree up to that token give the same expression.
pub proof fn expression_is_read_from_its_tokens(
    first: Seq<TokenView>,
    second: Seq<TokenView>,
    pos: int,
    n: int,
)
    requires
        agree_before(first, second, n),
        operations_at(first, pos) matches Ok((ops, end)) && end < n,
    ensures
        operations_at(second, pos) == operations_at(first, pos),
    decreases first.len() - pos,
{
    lemma_expression_shape(first, pos);
    let next = pos + term_width(first, pos);
    if is_punct(first, next, '+') {
        lemma_expression_shape(first, next + 1);
        expression_is_read_from_its_tokens(first, second, next + 1, n);
    }
    assert(0 <= pos && next < n);
    assert(second[pos] == first[pos]);
    if next == pos + 3 {
        assert(second[pos + 1] == first[pos + 1]);
        assert(second[pos + 2] == first[pos + 2]);
    }
    assert(operation_at(second, pos) == operation_at(first, pos));
    assert(second[next] == first[next]);
}

/// The bindings are read from their own tokens and the one that follows
/// them: token sequences that agree up to that token give the same bindings.
pub proof fn bindings_are_read_from_their_tokens(
    first: Seq<TokenView>,
    second: Seq<TokenView>,
    pos: int,
    n: int,
)
    requires
        agree_before(first, second, n),
        metavars_at(first, pos) matches Ok((vars, end)) && end < n,
    ensures
        metavars_at(second, pos) == metavars_at(first, pos),
    decreases first.len() - pos,
{
    lemma_expression_shape(first, pos + 2);
    let (_, next) = metavar_at(first, pos)->Ok_0;
    if is_punct(first, next, '&') {
        lemma_bindings_shape(first, next + 1);
        bindings_are_read_from_their_tokens(first, second, next + 1, n);
    }
    expression_is_read_from_its_tokens(first, second, pos + 2, n);
}

/// Whether a token tree holds no invisible group where the bindings are
/// read: none among its tokens and none inside its parenthesized groups.
pub open spec fn is_ordinary(tokens: Seq<TokenView>) -> bool
    decreases tokens,
{
    forall|i: int|
        0 <= i < tokens.len() ==> match #[trigger] tokens[i] {
            TokenView::Group(Delimiter::Invisible, _) => false,
            TokenView::Group(Delimiter::Parenthesis, inner) => is_ordinary(inner),
            _ => true,
        }
}

/// What an ordinary token tree is read to, rule by rule, with nothing to
/// open: the bindings from its first token on, `=>`, and every token behind
/// it as the template.
pub open spec fn read_as_it_stands(tokens: Seq<TokenView>) -> Result<ArgumentsView, MashErrorView> {
    match metavars_at(tokens, 0) {
        Err(e) => Err(e),
        Ok((vars, end)) => if is_arrow(tokens, end) {
            match first_repeat(vars) {
                Some(j) => Err(vars[j].bound_twice()),
                None => Ok(ArgumentsView { vars, tt: tokens.skip(end + 2) }),
            }
        } else {
            Err(grammar_error(end, Expected::Arrow))
        },
    }
}

/// An ordinary token tree is read as it stands: its tokens are the tokens
/// read, every place is the index of a token, and the template is the rest
/// of the tokens.
pub proof fn ordinary_trees_are_read_as_they_stand(tokens: Seq<TokenView>)
    requires
        is_ordinary(tokens),
    ensures
        opened(tokens) == tokens,
        parsed(tokens) == read_as_it_stands(tokens),
{
    nothing_to_open(tokens, 0);
    assert(tokens.skip(0) =~= tokens);
    binding_places(tokens, 0);
    lemma_bindings_shape(tokens, 0);
    match metavars_at(tokens, 0) {
        Err(e) => {
            ordinary_place(tokens, e.place());
        },
        Ok((vars, end)) => {
            ordinary_place(tokens, seq![end]);
            if is_arrow(tokens, end) {
                ordinary_index(tokens, 0, end + 2);
            }
            assert forall|i: int| 0 <= i < vars.len() implies (#[trigger] vars[i]).in_tree(tokens)
                == vars[i] by {
                assert(vars[i].at =~= seq![vars[i].at[0]]);
                ordinary_place(tokens, vars[i].at);
            }
            assert(all_in_tree(tokens, vars) =~= vars);
        },
    }
}

/// The template is opaque: whatever follows `=>` is taken as it is and has
/// no say in how the invocation is read. Where an ordinary invocation is
/// read with `template` as its template, the same tokens with any other
/// template in its place are read to the same bindings and that other
/// template.
pub proof fn template_is_opaque(
    head: Seq<TokenView>,
    template: Seq<TokenView>,
    other: Seq<TokenView>,
)
    requires
        is_ordinary(head + template),
        is_ordinary(head + other),
        parsed(head + template) matches Ok(arguments) && arguments.tt == template,
    ensures
        parsed(head + other) == Ok::<ArgumentsView, MashErrorView>(
            ArgumentsView { vars: parsed(head + template)->Ok_0.vars, tt: other },
        ),
{
    let first = head + template;
    let second = head + other;
    ordinary_trees_are_read_as_they_stand(first);
    ordinary_trees_are_read_as_they_stand(second);
    let (vars, end) = metavars_at(first, 0)->Ok_0;
    lemma_bindings_shape(first, 0);
    assert(first.skip(end + 2).len() == template.len());
    assert(end + 2 == head.len());
    assert(agree_before(first, second, head.len() as int));
    bindings_are_read_from_their_tokens(first, second, 0, head.len() as int);
    assert(second[end] == first[end]);
    assert(second[end + 1] == first[end + 1]);
    assert(second.skip(end + 2) =~= other);
}

/// In an ordinary tree nothing is opened.
proof fn nothing_to_open(tokens: Seq<TokenView>, pos: int)
    requires
        is_ordinary(tokens),
        0 <= pos <= tokens.len(),
    ensures
        opened_from(tokens, pos) == tokens.skip(pos),
    decreases tokens, tokens.len() - pos,
{
    if pos < tokens.len() {
        nothing_to_open(tokens, pos + 1);
        match tokens[pos] {
            TokenView::Group(Delimiter::Parenthesis, inner) => {
                nothing_to_open(inner, 0);
                assert(inner.skip(0) =~= inner);
            },
            _ => {},
        }
        assert(opened_token(tokens[pos]) == seq![tokens[pos]]);
        assert(seq![tokens[pos]] + tokens.skip(pos + 1) =~= tokens.skip(pos));
    } else {
        assert(tokens.skip(pos) =~= Seq::<TokenView>::empty());
    }
}

/// In an ordinary tree the `k`-th token read from `pos` on is the token at
/// `pos + k`, and what is left behind it is the rest of the tokens.
proof fn ordinary_index(tokens: Seq<TokenView>, pos: int, k: int)
    requires
        is_ordinary(tokens),
        0 <= pos <= tokens.len(),
        0 <= k,
        pos + k <= tokens.len(),
    ensures
        place_from(tokens, pos, k) == seq![pos + k],
        token_from(tokens, pos, k) == if pos + k < tokens.len() {
            Some(tokens[pos + k])
        } else {
            None
        },
        rest_from(tokens, pos, k) == tokens.skip(pos + k),
    decreases tokens.len() - pos,
{
    if pos < tokens.len() {
        if k > 0 {
            ordinary_index(tokens, pos + 1, k - 1);
        }
    } else {
        assert(tokens.skip(pos + k) =~= Seq::<TokenView>::empty());
    }
}

/// In an ordinary tree a place of the reading is the place in the tree.
proof fn ordinary_place(tokens: Seq<TokenView>, place: Seq<int>)
    requires
        is_ordinary(tokens),
        opened(tokens) == tokens,
        is_read_place(tokens, place),
    ensures
        tree_place(tokens, place, 0) == place,
    decreases place.len(),
{
    let k = place[0];
    ordinary_index(tokens, 0, k);
    if place.len() > 1 {
        let inner = tokens[k]->Group_1;
        nothing_to_open(inner, 0);
        assert(inner.skip(0) =~= inner);
        ordinary_place(inner, place.skip(1));
        assert(place =~= seq![k] + place.skip(1));
        tree_place_from_its_index(inner, k, place.skip(1), 0);
        assert(tree_place(tokens, place, 0) == seq![k] + place.skip(1));
    } else {
        assert(place =~= seq![k]);
    }
}

} // verus!
