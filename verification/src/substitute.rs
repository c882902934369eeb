//! Replacing the placeholders of one binding throughout a token tree.
//!
//! A placeholder is a `$` that is immediately followed by the binding's
//! name. Every placeholder gives way to the replacement, at every depth;
//! every other token is kept, and a `$` that is followed by anything else
//! has no say in what follows it.

use crate::text::{ident_no_prefix, same_text, without_raw_marker};
use crate::token::{is_punct, lemma_group_view, token_is_punct, Token, TokenView};
use vstd::prelude::*;

verus! {

/// Whether a token is an identifier that, without any `r#`, is spelled
/// `name`.
pub open spec fn is_named(token: TokenView, name: Seq<char>) -> bool {
    token matches TokenView::Ident(spelling) && without_raw_marker(spelling) == name
}

/// Whether the placeholder for `name` stands at `pos`: a `$` immediately
/// followed by the identifier `name`.
pub open spec fn is_placeholder(tokens: Seq<TokenView>, pos: int, name: Seq<char>) -> bool {
    &&& is_punct(tokens, pos, '$')
    &&& pos + 1 < tokens.len()
    &&& is_named(tokens[pos + 1], name)
}

/// A token rewritten on its own: a group is rewritten inside and keeps its
/// delimiter, any other token stays as it is.
pub open spec fn substituted_token(token: TokenView, name: Seq<char>, replacement: TokenView)
    -> TokenView
    decreases token, 0nat,
{
    match token {
        TokenView::Group(delimiter, inner) => TokenView::Group(
            delimiter,
            substituted_from(inner, 0, name, replacement),
        ),
        other => other,
    }
}

/// The tokens from `pos` on, with every placeholder for `name` replaced by
/// `replacement`, at this level and inside every group.
pub open spec fn substituted_from(
    tokens: Seq<TokenView>,
    pos: int,
    name: Seq<char>,
    replacement: TokenView,
) -> Seq<TokenView>
    decreases tokens, tokens.len() - pos,
{
    if pos < 0 || pos >= tokens.len() {
        Seq::empty()
    } else if is_placeholder(tokens, pos, name) {
        seq![replacement] + substituted_from(tokens, pos + 2, name, replacement)
    } else {
        seq![substituted_token(tokens[pos], name, replacement)] + substituted_from(
            tokens,
            pos + 1,
            name,
            replacement,
        )
    }
}

/// A token tree with every placeholder for `name` replaced by `replacement`:
/// the two tokens of a placeholder give way to the one replacement, every
/// other token stays where it is, and groups keep their delimiters.
pub open spec fn substituted(tokens: Seq<TokenView>, name: Seq<char>, replacement: TokenView)
    -> Seq<TokenView> {
    substituted_from(tokens, 0, name, replacement)
}

/// Whether a token is an identifier that, without any `r#`, is spelled
/// `name`.
fn token_is_named(token: &Token, name: &str) -> (yes: bool)
    ensures
        yes == is_named(token@, name@),
{
    match token {
        Token::Ident(spelling) => {
            let bare = ident_no_prefix(spelling.as_str());
            same_text(bare.as_str(), name)
        },
        _ => false,
    }
}

/// Replaces every placeholder for `name`, which is spelled without `r#`.
fn replace_named(tokens: &Vec<Token>, name: &str, replace_with: &Token) -> (replaced: Vec<Token>)
    ensures
        replaced.deep_view() == substituted(tokens.deep_view(), name@, replace_with@),
    decreases tokens,
{
    let ghost all = tokens.deep_view();
    let len = tokens.len();
    let mut replaced: Vec<Token> = Vec::new();
    let mut pos: usize = 0;
    while pos < len
        invariant
            len == tokens.len(),
            all == tokens.deep_view(),
            pos <= len,
            substituted(all, name@, replace_with@) == replaced.deep_view() + substituted_from(
                all,
                pos as int,
                name@,
                replace_with@,
            ),
        decreases len - pos,
    {
        let ghost before = replaced.deep_view();
        if token_is_punct(&tokens[pos], '$') && pos + 1 < len && token_is_named(
            &tokens[pos + 1],
            name,
        ) {
            let ghost rest = substituted_from(all, pos + 2, name@, replace_with@);
            replaced.push(replace_with.clone());
            assert(replaced.deep_view() =~= before + seq![replace_with@]);
            assert(before + (seq![replace_with@] + rest) =~= replaced.deep_view() + rest);
            pos += 2;
        } else {
            let ghost rest = substituted_from(all, pos + 1, name@, replace_with@);
            match &tokens[pos] {
                Token::Group(delimiter, inner) => {
                    proof {
                        lemma_group_view(*delimiter, *inner);
                    }
                    let inside = replace_named(inner, name, replace_with);
                    proof {
                        lemma_group_view(*delimiter, inside);
                    }
                    replaced.push(Token::Group(*delimiter, inside));
                },
                other => {
                    replaced.push(other.clone());
                },
            }
            let ghost token = replaced.deep_view().last();
            assert(token == substituted_token(all[pos as int], name@, replace_with@));
            assert(replaced.deep_view() =~= before + seq![token]);
            assert(before + (seq![token] + rest) =~= replaced.deep_view() + rest);
            pos += 1;
        }
    }
    assert(replaced.deep_view() + Seq::<TokenView>::empty() =~= replaced.deep_view());
    replaced
}

/// Rewrites a token tree for one binding: every `$` that is immediately
/// followed by the binding's name gives way, together with the name, to a
/// copy of `replace_with`. Names are compared without their `r#`. Groups are
/// entered at every depth and keep their delimiters; all other tokens, a `$`
/// that is followed by anything else among them, are copied as they are. A
/// tree without the placeholder comes back unchanged.
pub fn ident_replace(tokens: &Vec<Token>, search_for: &str, replace_with: &Token) -> (replaced:
    Vec<Token>)
    ensures
        replaced.deep_view() == substituted(
            tokens.deep_view(),
            without_raw_marker(search_for@),
            replace_with@,
        ),
{
    let name = ident_no_prefix(search_for);
    replace_named(tokens, name.as_str(), replace_with)
}

} // verus!
