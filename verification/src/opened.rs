//! Reading through invisible groups.
//!
//! A group without written brackets only keeps its tokens together. The
//! bindings are read as if such a group were not there: its tokens stand
//! where the group stands, at the top level and inside the parentheses of a
//! transform. The template keeps its invisible groups.

use crate::error::{place_of, place_view, place_within};
use crate::token::{lemma_group_view, Delimiter, Token, TokenView};
use vstd::prelude::*;

verus! {

/// What is read in place of one token: the opened contents of an invisible
/// group, a parenthesized group with its contents opened, or the token
/// itself.
pub open spec fn opened_token(token: TokenView) -> Seq<TokenView>
    decreases token, 0nat,
{
    match token {
        TokenView::Group(Delimiter::Invisible, inner) => opened_from(inner, 0),
        TokenView::Group(Delimiter::Parenthesis, inner) => seq![
            TokenView::Group(Delimiter::Parenthesis, opened_from(inner, 0)),
        ],
        other => seq![other],
    }
}

/// What is read in place of the tokens from `pos` on.
pub open spec fn opened_from(tokens: Seq<TokenView>, pos: int) -> Seq<TokenView>
    decreases tokens, tokens.len() - pos,
{
    if pos < 0 || pos >= tokens.len() {
        Seq::empty()
    } else {
        opened_token(tokens[pos]) + opened_from(tokens, pos + 1)
    }
}

/// A token sequence as the bindings are read from it: every invisible group
/// gives way to its tokens, at this level and inside parentheses.
pub open spec fn opened(tokens: Seq<TokenView>) -> Seq<TokenView> {
    opened_from(tokens, 0)
}

/// The place, in the tree, of the `k`-th token that is read from `pos` on:
/// a path through the invisible groups around it. Where fewer tokens are
/// read, the place is the end of the level.
pub open spec fn place_from(tokens: Seq<TokenView>, pos: int, k: int) -> Seq<int>
    decreases tokens, tokens.len() - pos,
{
    if pos < 0 || pos >= tokens.len() {
        seq![tokens.len() as int]
    } else {
        match tokens[pos] {
            TokenView::Group(Delimiter::Invisible, inner) => {
                let inside = opened(inner).len();
                if k < inside {
                    seq![pos] + place_from(inner, 0, k)
                } else {
                    place_from(tokens, pos + 1, k - inside)
                }
            },
            _ => if k <= 0 {
                seq![pos]
            } else {
                place_from(tokens, pos + 1, k - 1)
            },
        }
    }
}

/// The token of the tree that is the `k`-th token read from `pos` on.
pub open spec fn token_from(tokens: Seq<TokenView>, pos: int, k: int) -> Option<TokenView>
    decreases tokens, tokens.len() - pos,
{
    if pos < 0 || pos >= tokens.len() {
        None
    } else {
        match tokens[pos] {
            TokenView::Group(Delimiter::Invisible, inner) => {
                let inside = opened(inner).len();
                if k < inside {
                    token_from(inner, 0, k)
                } else {
                    token_from(tokens, pos + 1, k - inside)
                }
            },
            other => if k <= 0 {
                Some(other)
            } else {
                token_from(tokens, pos + 1, k - 1)
            },
        }
    }
}

/// The tokens of the tree that are left from `pos` on once `k` tokens were
/// read. An invisible group that was read in part gives its other tokens;
/// one that was not read at all is kept.
pub open spec fn rest_from(tokens: Seq<TokenView>, pos: int, k: int) -> Seq<TokenView>
    decreases tokens, tokens.len() - pos,
{
    if pos < 0 || pos >= tokens.len() {
        Seq::empty()
    } else if k <= 0 {
        tokens.skip(pos)
    } else {
        match tokens[pos] {
            TokenView::Group(Delimiter::Invisible, inner) => {
                let inside = opened(inner).len();
                if k < inside {
                    rest_from(inner, 0, k) + tokens.skip(pos + 1)
                } else {
                    rest_from(tokens, pos + 1, k - inside)
                }
            },
            _ => rest_from(tokens, pos + 1, k - 1),
        }
    }
}

/// The place, in the tree, that a place of the opened reading stands for.
/// The indices of `read` from `i` on are taken level by level: each is an
/// index among the tokens read at its level, and the next one belongs to the
/// group found there.
pub open spec fn tree_place(tokens: Seq<TokenView>, read: Seq<int>, i: int) -> Seq<int>
    decreases read.len() - i,
{
    if i < 0 || i >= read.len() {
        Seq::empty()
    } else {
        let here = place_from(tokens, 0, read[i]);
        if i + 1 < read.len() {
            match token_from(tokens, 0, read[i]) {
                Some(TokenView::Group(_, inner)) => here + tree_place(inner, read, i + 1),
                _ => here,
            }
        } else {
            here
        }
    }
}

/// Opens a token sequence: gives the tokens that the bindings are read from.
pub fn open(tokens: &Vec<Token>) -> (read: Vec<Token>)
    ensures
        read.deep_view() == opened(tokens.deep_view()),
    decreases tokens,
{
    let ghost all = tokens.deep_view();
    let mut read: Vec<Token> = Vec::new();
    let mut pos: usize = 0;
    while pos < tokens.len()
        invariant
            pos <= tokens.len(),
            all == tokens.deep_view(),
            opened(all) == read.deep_view() + opened_from(all, pos as int),
        decreases tokens.len() - pos,
    {
        let ghost before = read.deep_view();
        let ghost rest = opened_from(all, pos + 1);
        match &tokens[pos] {
            Token::Group(Delimiter::Invisible, inner) => {
                proof {
                    lemma_group_view(Delimiter::Invisible, *inner);
                }
                let mut inside = open(inner);
                let ghost added = inside.deep_view();
                read.append(&mut inside);
                assert(opened_token(all[pos as int]) == added);
                assert(read.deep_view() =~= before + added);
                assert(before + (added + rest) =~= read.deep_view() + rest);
            },
            Token::Group(Delimiter::Parenthesis, inner) => {
                proof {
                    lemma_group_view(Delimiter::Parenthesis, *inner);
                }
                let inside = open(inner);
                proof {
                    lemma_group_view(Delimiter::Parenthesis, inside);
                }
                read.push(Token::Group(Delimiter::Parenthesis, inside));
                let ghost added = seq![read.deep_view().last()];
                assert(opened_token(all[pos as int]) == added);
                assert(read.deep_view() =~= before + added);
                assert(before + (added + rest) =~= read.deep_view() + rest);
            },
            other => {
                read.push(other.clone());
                let ghost added = seq![all[pos as int]];
                assert(opened_token(all[pos as int]) == added);
                assert(read.deep_view() =~= before + added);
                assert(before + (added + rest) =~= read.deep_view() + rest);
            },
        }
        pos += 1;
    }
    assert(read.deep_view() + Seq::<TokenView>::empty() =~= read.deep_view());
    read
}

/// Finds the `k`-th token that is read from a tree: its place in the tree,
/// and the token if there is one.
pub fn find(tokens: &Vec<Token>, k: usize) -> (found: (Vec<usize>, Option<&Token>))
    ensures
        place_view(found.0@) == place_from(tokens.deep_view(), 0, k as int),
        found.1.deep_view() == token_from(tokens.deep_view(), 0, k as int),
    decreases tokens,
{
    let ghost all = tokens.deep_view();
    let mut pos: usize = 0;
    let mut left: usize = k;
    while pos < tokens.len()
        invariant
            pos <= tokens.len(),
            all == tokens.deep_view(),
            place_from(all, 0, k as int) == place_from(all, pos as int, left as int),
            token_from(all, 0, k as int) == token_from(all, pos as int, left as int),
        decreases tokens.len() - pos,
    {
        match &tokens[pos] {
            Token::Group(Delimiter::Invisible, inner) => {
                proof {
                    lemma_group_view(Delimiter::Invisible, *inner);
                }
                let inside = open(inner).len();
                if left < inside {
                    let (at, token) = find(inner, left);
                    return (place_within(at, pos), token);
                }
                left -= inside;
            },
            other => {
                if left == 0 {
                    return (place_of(pos), Some(other));
                }
                left -= 1;
            },
        }
        pos += 1;
    }
    (place_of(tokens.len()), None)
}

/// A copy of the tokens from `pos` on.
fn copy_from(tokens: &Vec<Token>, pos: usize) -> (copies: Vec<Token>)
    requires
        pos <= tokens.len(),
    ensures
        copies.deep_view() == tokens.deep_view().skip(pos as int),
{
    let mut copies: Vec<Token> = Vec::new();
    let mut i: usize = pos;
    while i < tokens.len()
        invariant
            pos <= i <= tokens.len(),
            copies.len() == i - pos,
            forall|j: int| 0 <= j < copies.len() ==> copies[j]@ == tokens[pos + j]@,
        decreases tokens.len() - i,
    {
        copies.push(tokens[i].clone());
        i += 1;
    }
    assert(copies.deep_view() =~= tokens.deep_view().skip(pos as int));
    copies
}

/// The tokens of a tree that are left once `k` tokens were read from it.
pub fn rest(tokens: &Vec<Token>, k: usize) -> (left: Vec<Token>)
    ensures
        left.deep_view() == rest_from(tokens.deep_view(), 0, k as int),
    decreases tokens,
{
    let ghost all = tokens.deep_view();
    let mut pos: usize = 0;
    let mut still: usize = k;
    while pos < tokens.len()
        invariant
            pos <= tokens.len(),
            all == tokens.deep_view(),
            rest_from(all, 0, k as int) == rest_from(all, pos as int, still as int),
        decreases tokens.len() - pos,
    {
        if still == 0 {
            return copy_from(tokens, pos);
        }
        match &tokens[pos] {
            Token::Group(Delimiter::Invisible, inner) => {
                proof {
                    lemma_group_view(Delimiter::Invisible, *inner);
                }
                let inside = open(inner).len();
                if still < inside {
                    let mut left = rest(inner, still);
                    let mut after = copy_from(tokens, pos + 1);
                    let ghost first = left.deep_view();
                    let ghost second = after.deep_view();
                    left.append(&mut after);
                    assert(left.deep_view() =~= first + second);
                    return left;
                }
                still -= inside;
            },
            _ => {
                still -= 1;
            },
        }
        pos += 1;
    }
    let left: Vec<Token> = Vec::new();
    assert(left.deep_view() =~= Seq::<TokenView>::empty());
    left
}

/// Turns a place of the opened reading into the place in the tree. The
/// indices of `read` from `i` on are taken level by level.
pub fn in_tree(tokens: &Vec<Token>, read: &Vec<usize>, i: usize) -> (at: Vec<usize>)
    ensures
        place_view(at@) == tree_place(tokens.deep_view(), place_view(read@), i as int),
    decreases read.len() - i,
{
    if i >= read.len() {
        let at: Vec<usize> = Vec::new();
        assert(place_view(at@) =~= Seq::<int>::empty());
        return at;
    }
    let (here, found) = find(tokens, read[i]);
    if i + 1 < read.len() {
        match found {
            Some(Token::Group(delimiter, inner)) => {
                proof {
                    lemma_group_view(*delimiter, *inner);
                }
                let mut at = here;
                let mut deeper = in_tree(inner, read, i + 1);
                let ghost first = place_view(at@);
                let ghost second = place_view(deeper@);
                at.append(&mut deeper);
                assert(place_view(at@) =~= first + second);
                at
            },
            _ => here,
        }
    } else {
        here
    }
}

} // verus!
