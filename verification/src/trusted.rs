//! Everything this crate takes on trust: contracts for functions of other
//! crates and of the standard library. Nothing in this file is proved; each
//! item says which function it stands for and what it claims of it.

use crate::operation::WordCase;
use convert_case::{Case, Casing};
use vstd::prelude::*;

verus! {

/// `String::push`: the character is appended at the end of the string and
/// nothing else changes.
pub assume_specification[ String::push ](text: &mut String, ch: char)
    ensures
        final(text)@ == old(text)@.push(ch),
;

/// The text that `convert_case::Casing::to_case` produces for `text` under
/// the convention `style`, with the crate's default word boundaries.
pub uninterp spec fn case_converted(text: Seq<char>, style: WordCase) -> Seq<char>;

/// Calls `convert_case::Casing::to_case` on `text` with the `Case` that
/// corresponds to `style`. The conversion looks at nothing but the text and
/// the case, so its result is named by [`case_converted`].
#[verifier::external_body]
pub(crate) fn convert_case(text: &str, style: WordCase) -> (converted: String)
    ensures
        converted@ == case_converted(text@, style),
{
    let case = match style {
        WordCase::Snake => Case::Snake,
        WordCase::Pascal => Case::Pascal,
        WordCase::ScreamingSnake => Case::ScreamingSnake,
    };
    text.to_case(case)
}

/// Whether `unicode_ident::is_xid_start` holds of a character.
pub uninterp spec fn xid_start(ch: char) -> bool;

/// Whether `unicode_ident::is_xid_continue` holds of a character.
pub uninterp spec fn xid_continue(ch: char) -> bool;

/// `unicode_ident::is_xid_start` is a table lookup on the character alone.
pub assume_specification[ unicode_ident::is_xid_start ](ch: char) -> (yes: bool)
    ensures
        yes == xid_start(ch),
;

/// `unicode_ident::is_xid_continue` is a table lookup on the character alone.
pub assume_specification[ unicode_ident::is_xid_continue ](ch: char) -> (yes: bool)
    ensures
        yes == xid_continue(ch),
;

} // verus!
