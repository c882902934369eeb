//! Token trees: the structured input and output of the engine.
//!
//! A token holds what the engine reads of it as plain values. Whoever makes
//! the tokens says what a literal decodes to; the engine lexes no text.

use vstd::prelude::*;

verus! {

/// Whether a punctuation character is immediately followed by another one.
#[derive(Clone, Copy, Debug, PartialEq, Eq, Structural)]
pub enum Spacing {
    /// The next token does not continue this punctuation.
    Alone,
    /// The next token is a punctuation character that follows without a gap,
    /// as the `>` in `=>`.
    Joint,
}

/// The brackets around a group.
#[derive(Clone, Copy, Debug, PartialEq, Eq, Structural)]
pub enum Delimiter {
    /// `( ... )`
    Parenthesis,
    /// `{ ... }`
    Brace,
    /// `[ ... ]`
    Bracket,
    /// No written brackets: a group that only keeps its tokens together.
    Invisible,
}

/// One token of a token tree.
#[derive(Debug, PartialEq, Eq)]
pub enum Token {
    /// An identifier, by its spelling; a raw identifier includes its `r#`.
    Ident(String),
    /// One punctuation character.
    Punct(char, Spacing),
    /// A literal, by its source text. A string literal also carries its
    /// contents, decoded; any other literal carries `None`.
    Literal(String, Option<String>),
    /// A delimited group with the token tree inside it.
    Group(Delimiter, Vec<Token>),
}

/// The mathematical value of a [`Token`].
pub enum TokenView {
    Ident(Seq<char>),
    Punct(char, Spacing),
    Literal(Seq<char>, Option<Seq<char>>),
    Group(Delimiter, Seq<TokenView>),
}

/// The value of a token; a group's value holds the values of its tokens.
pub open spec fn token_view(token: Token) -> TokenView
    decreases token,
{
    match token {
        Token::Ident(text) => TokenView::Ident(text@),
        Token::Punct(ch, spacing) => TokenView::Punct(ch, spacing),
        Token::Literal(text, contents) => TokenView::Literal(
            text@,
            match contents {
                Some(decoded) => Some(decoded@),
                None => None,
            },
        ),
        Token::Group(delimiter, inner) => TokenView::Group(
            delimiter,
            Seq::new(
                inner.len() as nat,
                |i: int|
                    if 0 <= i < inner.len() {
                        token_view(inner[i])
                    } else {
                        TokenView::Ident(Seq::empty())
                    },
            ),
        ),
    }
}

impl View for Token {
    type V = TokenView;

    open spec fn view(&self) -> TokenView {
        token_view(*self)
    }
}

impl DeepView for Token {
    type V = TokenView;

    open spec fn deep_view(&self) -> TokenView {
        token_view(*self)
    }
}

/// The value of a group is its delimiter with the values of its tokens.
pub proof fn lemma_group_view(delimiter: Delimiter, inner: Vec<Token>)
    ensures
        Token::Group(delimiter, inner)@ == TokenView::Group(delimiter, inner.deep_view()),
{
    assert(Token::Group(delimiter, inner)@->Group_1 =~= inner.deep_view());
}

/// Whether the token at `pos` is the punctuation character `ch`.
pub open spec fn is_punct(tokens: Seq<TokenView>, pos: int, ch: char) -> bool {
    &&& 0 <= pos < tokens.len()
    &&& tokens[pos] matches TokenView::Punct(c, _)
    &&& c == ch
}

/// Whether a place lies in a token tree: each of its indices but the last
/// names a group at its level, and the last one names a token of its level or
/// the end of that level.
pub open spec fn is_place(tokens: Seq<TokenView>, place: Seq<int>) -> bool
    decreases place.len(),
{
    if place.len() == 0 {
        false
    } else if place.len() == 1 {
        0 <= place[0] <= tokens.len()
    } else {
        &&& 0 <= place[0] < tokens.len()
        &&& tokens[place[0]] matches TokenView::Group(_, inner)
        &&& is_place(inner, place.skip(1))
    }
}

/// The token that a place names, if it names one.
pub open spec fn token_at(tokens: Seq<TokenView>, place: Seq<int>) -> Option<TokenView>
    decreases place.len(),
{
    if place.len() == 0 || !(0 <= place[0] < tokens.len()) {
        None
    } else if place.len() == 1 {
        Some(tokens[place[0]])
    } else {
        match tokens[place[0]] {
            TokenView::Group(_, inner) => token_at(inner, place.skip(1)),
            _ => None,
        }
    }
}

/// Whether a token is the punctuation character `ch`.
pub fn token_is_punct(token: &Token, ch: char) -> (yes: bool)
    ensures
        yes == (token@ matches TokenView::Punct(c, _) && c == ch),
{
    match token {
        Token::Punct(c, _) => *c == ch,
        _ => false,
    }
}

impl Clone for Token {
    fn clone(&self) -> (copy: Token)
        ensures
            copy@ == self@,
        decreases self,
    {
        match self {
            Token::Ident(text) => Token::Ident(text.clone()),
            Token::Punct(ch, spacing) => Token::Punct(*ch, *spacing),
            Token::Literal(text, contents) => Token::Literal(
                text.clone(),
                match contents {
                    Some(decoded) => Some(decoded.clone()),
                    None => None,
                },
            ),
            Token::Group(delimiter, inner) => {
                let copies = clone_tokens(inner);
                proof {
                    lemma_group_view(*delimiter, *inner);
                    lemma_group_view(*delimiter, copies);
                }
                Token::Group(*delimiter, copies)
            },
        }
    }
}

/// A copy of a token tree.
pub fn clone_tokens(tokens: &Vec<Token>) -> (copies: Vec<Token>)
    ensures
        copies.deep_view() == tokens.deep_view(),
    decreases tokens,
{
    let mut copies: Vec<Token> = Vec::new();
    let mut i: usize = 0;
    while i < tokens.len()
        invariant
            i <= tokens.len(),
            copies.len() == i,
            forall|j: int| 0 <= j < i ==> copies[j]@ == tokens[j]@,
        decreases tokens.len() - i,
    {
        copies.push(tokens[i].clone());
        i += 1;
    }
    assert(copies.deep_view() =~= tokens.deep_view());
    copies
}

} // verus!
