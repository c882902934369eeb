//! Making a fresh identifier out of an evaluated text.

use crate::text::{chars_of, join, raw_spelling, same_text};
use crate::token::{Token, TokenView};
use crate::trusted::{xid_continue, xid_start};
use vstd::prelude::*;

verus! {

/// Whether a character may start an identifier.
pub open spec fn is_ident_start(ch: char) -> bool {
    ch == '_' || xid_start(ch)
}

/// The names that are never identifiers, not even when written raw.
pub open spec fn cannot_be_raw(text: Seq<char>) -> bool {
    ||| text == "_"@
    ||| text == "super"@
    ||| text == "self"@
    ||| text == "Self"@
    ||| text == "crate"@
}

/// Whether a text has the shape of an identifier: it is not empty, its first
/// character may start an identifier and every later character may continue
/// one.
pub open spec fn has_identifier_shape(text: Seq<char>) -> bool {
    &&& text.len() > 0
    &&& is_ident_start(text[0])
    &&& forall|i: int| 1 <= i < text.len() ==> xid_continue(#[trigger] text[i])
}

/// Whether a text can be the name of a raw identifier: it has the shape of
/// an identifier and is none of the names that cannot be written raw.
pub open spec fn is_identifier_body(text: Seq<char>) -> bool {
    has_identifier_shape(text) && !cannot_be_raw(text)
}

/// Tests the shape of a text, character by character.
pub fn identifier_shape(text: &str) -> (shaped: bool)
    ensures
        shaped == has_identifier_shape(text@),
{
    let chars = chars_of(text);
    if chars.len() == 0 {
        return false;
    }
    if !(chars[0] == '_' || unicode_ident::is_xid_start(chars[0])) {
        return false;
    }
    let mut i: usize = 1;
    while i < chars.len()
        invariant
            1 <= i <= chars.len(),
            chars@ == text@,
            forall|k: int| 1 <= k < i ==> xid_continue(#[trigger] text@[k]),
        decreases chars.len() - i,
    {
        if !unicode_ident::is_xid_continue(chars[i]) {
            return false;
        }
        i += 1;
    }
    true
}

/// Makes the raw identifier named `text`, given whether the text has the
/// shape of an identifier: the token spelled `r#` and then the text, unless
/// the shape is wrong or the name is one that cannot be written raw.
pub fn raw_identifier(text: &str, shaped: bool) -> (ident: Option<Token>)
    ensures
        ident is Some <==> shaped && !cannot_be_raw(text@),
        ident matches Some(token) ==> token@ == TokenView::Ident(raw_spelling(text@)),
{
    if !shaped || same_text(text, "_") || same_text(text, "super") || same_text(text, "self")
        || same_text(text, "Self") || same_text(text, "crate") {
        return None;
    }
    proof {
        reveal_strlit("r#");
    }
    assert("r#"@ =~= seq!['r', '#']);
    Some(Token::Ident(join("r#", text)))
}

/// Makes the identifier token that is named `text`. The token is written
/// raw, as `r#` followed by the text, so that a text that reads like a
/// keyword still names an identifier. Gives `None` exactly where the text
/// cannot be the name of a raw identifier.
pub fn synthesize(text: &str) -> (ident: Option<Token>)
    ensures
        ident is Some <==> is_identifier_body(text@),
        ident matches Some(token) ==> token@ == TokenView::Ident(raw_spelling(text@)),
{
    let shaped = identifier_shape(text);
    raw_identifier(text, shaped)
}

} // verus!
