//! Laws of substitution: what rewriting one binding does to a token tree.

use crate::substitute::{
    is_named, is_placeholder, substituted, substituted_from, substituted_token,
};
use crate::token::{Delimiter, Spacing, TokenView};
use vstd::prelude::*;

verus! {

/// Whether a placeholder for `name` stands anywhere in the tokens from `pos`
/// on, at this level or inside a group.
pub open spec fn mentions_from(tokens: Seq<TokenView>, pos: int, name: Seq<char>) -> bool
    decreases tokens, tokens.len() - pos,
{
    if pos < 0 || pos >= tokens.len() {
        false
    } else {
        ||| is_placeholder(tokens, pos, name)
        ||| (tokens[pos] matches TokenView::Group(_, inner) && mentions_from(inner, 0, name))
        ||| mentions_from(tokens, pos + 1, name)
    }
}

/// Whether a placeholder for `name` stands anywhere in a token tree.
pub open spec fn mentions(tokens: Seq<TokenView>, name: Seq<char>) -> bool {
    mentions_from(tokens, 0, name)
}

/// A binding whose placeholder stands nowhere in a token tree leaves the
/// tree as it is.
pub proof fn unused_binding_changes_nothing(
    tokens: Seq<TokenView>,
    name: Seq<char>,
    replacement: TokenView,
)
    requires
        !mentions(tokens, name),
    ensures
        substituted(tokens, name, replacement) == tokens,
{
    unmentioned_from(tokens, 0, name, replacement);
    assert(tokens.skip(0) =~= tokens);
}

/// Where no placeholder for `name` stands from `pos` on, the tokens from
/// `pos` on are left as they are.
proof fn unmentioned_from(
    tokens: Seq<TokenView>,
    pos: int,
    name: Seq<char>,
    replacement: TokenView,
)
    requires
        0 <= pos <= tokens.len(),
        !mentions_from(tokens, pos, name),
    ensures
        substituted_from(tokens, pos, name, replacement) == tokens.skip(pos),
    decreases tokens, tokens.len() - pos,
{
    if pos >= tokens.len() {
        assert(tokens.skip(pos) =~= Seq::<TokenView>::empty());
    } else {
        unmentioned_from(tokens, pos + 1, name, replacement);
        match tokens[pos] {
            TokenView::Group(delimiter, inner) => {
                unmentioned_from(inner, 0, name, replacement);
                assert(inner.skip(0) =~= inner);
            },
            _ => {},
        }
        assert(substituted_token(tokens[pos], name, replacement) == tokens[pos]);
        assert(seq![tokens[pos]] + tokens.skip(pos + 1) =~= tokens.skip(pos));
    }
}

/// Substitution enters a group and keeps its delimiter.
pub proof fn substitution_enters_groups(
    delimiter: Delimiter,
    inner: Seq<TokenView>,
    name: Seq<char>,
    replacement: TokenView,
)
    ensures
        substituted(seq![TokenView::Group(delimiter, inner)], name, replacement) == seq![
            TokenView::Group(delimiter, substituted(inner, name, replacement)),
        ],
{
    let group = TokenView::Group(delimiter, inner);
    substitution_of_one(group, name, replacement);
}

/// A token on its own is rewritten on its own.
pub proof fn substitution_of_one(token: TokenView, name: Seq<char>, replacement: TokenView)
    ensures
        substituted(seq![token], name, replacement) == seq![
            substituted_token(token, name, replacement),
        ],
{
    let tokens = seq![token];
    assert(substituted_from(tokens, 1, name, replacement) =~= Seq::<TokenView>::empty());
    assert(substituted(tokens, name, replacement) =~= seq![
        substituted_token(token, name, replacement),
    ]);
}

/// A token that is not a group and stands on its own is kept as it is.
pub proof fn substitution_keeps_other_tokens(
    token: TokenView,
    name: Seq<char>,
    replacement: TokenView,
)
    requires
        !(token is Group),
    ensures
        substituted(seq![token], name, replacement) == seq![token],
{
    substitution_of_one(token, name, replacement);
}

/// A placeholder on its own gives way to the replacement.
pub proof fn substitution_replaces_a_placeholder(
    spacing: Spacing,
    spelling: Seq<char>,
    name: Seq<char>,
    replacement: TokenView,
)
    requires
        is_named(TokenView::Ident(spelling), name),
    ensures
        substituted(
            seq![TokenView::Punct('$', spacing), TokenView::Ident(spelling)],
            name,
            replacement,
        ) == seq![replacement],
{
    let tokens = seq![TokenView::Punct('$', spacing), TokenView::Ident(spelling)];
    assert(is_placeholder(tokens, 0, name));
    assert(substituted_from(tokens, 2, name, replacement) =~= Seq::<TokenView>::empty());
    assert(substituted(tokens, name, replacement) =~= seq![replacement]);
}

/// A `$` in front of a placeholder is kept, and the placeholder behind it
/// gives way to the replacement all the same.
pub proof fn substitution_behind_a_dollar(
    first: Spacing,
    second: Spacing,
    spelling: Seq<char>,
    name: Seq<char>,
    replacement: TokenView,
)
    requires
        is_named(TokenView::Ident(spelling), name),
    ensures
        substituted(
            seq![
                TokenView::Punct('$', first),
                TokenView::Punct('$', second),
                TokenView::Ident(spelling),
            ],
            name,
            replacement,
        ) == seq![TokenView::Punct('$', first), replacement],
{
    let tokens = seq![
        TokenView::Punct('$', first),
        TokenView::Punct('$', second),
        TokenView::Ident(spelling),
    ];
    assert(!is_placeholder(tokens, 0, name));
    assert(is_placeholder(tokens, 1, name));
    let behind = substituted_from(tokens, 1, name, replacement);
    assert(substituted_from(tokens, 3, name, replacement) =~= Seq::<TokenView>::empty());
    assert(behind == seq![replacement] + substituted_from(tokens, 3, name, replacement));
    assert(behind =~= seq![replacement]);
    assert(substituted_token(tokens[0], name, replacement) == tokens[0]);
    assert(substituted(tokens, name, replacement) == seq![tokens[0]] + behind);
    assert(substituted(tokens, name, replacement) =~= seq![
        TokenView::Punct('$', first),
        replacement,
    ]);
}

/// The tokens of `second` from `pos` on are rewritten alike whether or not
/// `first` stands in front of them.
pub proof fn substitution_ignores_what_came_before(
    first: Seq<TokenView>,
    second: Seq<TokenView>,
    pos: int,
    name: Seq<char>,
    replacement: TokenView,
)
    requires
        0 <= pos <= second.len(),
    ensures
        substituted_from(first + second, first.len() + pos, name, replacement)
            == substituted_from(second, pos, name, replacement),
    decreases second.len() - pos,
{
    let whole = first + second;
    if pos < second.len() {
        assert(whole[first.len() + pos] == second[pos]);
        if pos + 1 < second.len() {
            assert(whole[first.len() + pos + 1] == second[pos + 1]);
        }
        assert(is_placeholder(whole, first.len() + pos, name) == is_placeholder(
            second,
            pos,
            name,
        ));
        if is_placeholder(second, pos, name) {
            substitution_ignores_what_came_before(first, second, pos + 2, name, replacement);
        } else {
            substitution_ignores_what_came_before(first, second, pos + 1, name, replacement);
        }
    }
}

/// Where no placeholder lies across the seam, the tokens of `first` from
/// `pos` on are rewritten as they are without `second`, and `second` after
/// them as it is on its own.
proof fn substitution_of_parts_from(
    first: Seq<TokenView>,
    second: Seq<TokenView>,
    pos: int,
    name: Seq<char>,
    replacement: TokenView,
)
    requires
        0 <= pos <= first.len(),
        !is_placeholder(first + second, first.len() - 1, name),
    ensures
        substituted_from(first + second, pos, name, replacement) == substituted_from(
            first,
            pos,
            name,
            replacement,
        ) + substituted(second, name, replacement),
    decreases first.len() - pos,
{
    let whole = first + second;
    let tail = substituted(second, name, replacement);
    if pos < first.len() {
        assert(whole[pos] == first[pos]);
        if pos + 1 < first.len() {
            assert(whole[pos + 1] == first[pos + 1]);
        }
        assert(is_placeholder(whole, pos, name) == is_placeholder(first, pos, name));
        if is_placeholder(first, pos, name) {
            substitution_of_parts_from(first, second, pos + 2, name, replacement);
        } else {
            substitution_of_parts_from(first, second, pos + 1, name, replacement);
        }
        assert(substituted_from(whole, pos, name, replacement) =~= substituted_from(
            first,
            pos,
            name,
            replacement,
        ) + tail);
    } else {
        substitution_ignores_what_came_before(first, second, 0, name, replacement);
        assert(substituted_from(first, pos, name, replacement) + tail =~= tail);
    }
}

/// Substitution works part by part: where no placeholder lies across the
/// seam of two token sequences, rewriting the two together gives what
/// rewriting each alone gives, one after the other. So every token outside a
/// placeholder keeps its place and its neighbours.
pub proof fn substitution_of_parts(
    first: Seq<TokenView>,
    second: Seq<TokenView>,
    name: Seq<char>,
    replacement: TokenView,
)
    requires
        !is_placeholder(first + second, first.len() - 1, name),
    ensures
        substituted(first + second, name, replacement) == substituted(first, name, replacement)
            + substituted(second, name, replacement),
{
    substitution_of_parts_from(first, second, 0, name, replacement);
}

/// Every placeholder is replaced, wherever it stands: a placeholder between
/// any tokens gives way to the replacement, and the tokens in front of it
/// and behind it are rewritten as they are on their own.
pub proof fn every_placeholder_is_replaced(
    before: Seq<TokenView>,
    spacing: Spacing,
    spelling: Seq<char>,
    after: Seq<TokenView>,
    name: Seq<char>,
    replacement: TokenView,
)
    requires
        is_named(TokenView::Ident(spelling), name),
    ensures
        substituted(
            before + seq![TokenView::Punct('$', spacing), TokenView::Ident(spelling)] + after,
            name,
            replacement,
        ) == substituted(before, name, replacement) + seq![replacement] + substituted(
            after,
            name,
            replacement,
        ),
{
    let placeholder = seq![TokenView::Punct('$', spacing), TokenView::Ident(spelling)];
    let behind = placeholder + after;
    assert(before + placeholder + after =~= before + behind);
    assert((before + behind)[before.len() as int] == placeholder[0]);
    substitution_of_parts(before, behind, name, replacement);
    assert(behind[1] == placeholder[1]);
    substitution_of_parts(placeholder, after, name, replacement);
    substitution_replaces_a_placeholder(spacing, spelling, name, replacement);
    assert(substituted(before, name, replacement) + (seq![replacement] + substituted(
        after,
        name,
        replacement,
    )) =~= substituted(before, name, replacement) + seq![replacement] + substituted(
        after,
        name,
        replacement,
    ));
}

} // verus!
