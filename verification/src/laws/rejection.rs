//! Laws of rejection: when an invocation is refused, and where its error
//! points.

use crate::error::MashErrorView;
use crate::grammar::{
    all_in_tree, distinct_names, first_repeat, is_arrow, is_first_repeat, is_repeat, keyword_at,
    lemma_expression_shape, lemma_some_repeat_is_first, metavar_at, metavars_at, operation_at,
    operations_at, parenthesized_at, term_width, ArgumentsView, MetaVarView,
};
use crate::ident::is_identifier_body;
use crate::opened::{opened, rest_from};
use crate::token::{is_punct, TokenView};
use crate::{applied, expanded, expanded_from, mashed};
use vstd::prelude::*;

verus! {

/// An invocation is rejected as a duplicate exactly where it keeps the
/// grammar and two of its bindings have the same name. It then gives no
/// output.
pub proof fn duplicate_names_are_rejected(tokens: Seq<TokenView>)
    ensures
        (mashed(tokens) matches Err(e) && e is DuplicateName) <==> (metavars_at(
            opened(tokens),
            0,
        ) matches Ok((vars, end)) && is_arrow(opened(tokens), end) && !distinct_names(vars)),
{
    let read = opened(tokens);
    reading_errors(read, 0);
    if let Ok((vars, end)) = metavars_at(read, 0) {
        if is_arrow(read, end) {
            if !distinct_names(vars) {
                let (i, j) = choose|i: int, j: int|
                    0 <= i < j < vars.len() && (#[trigger] vars[i]).bound_name() == (
                    #[trigger] vars[j]).bound_name();
                assert(is_repeat(vars, j));
                lemma_some_repeat_is_first(vars, j);
            }
            match first_repeat(vars) {
                Some(j) => {
                    assert(is_first_repeat(vars, j));
                    let i = choose|i: int|
                        0 <= i < j && (#[trigger] vars[i]).bound_name() == vars[j].bound_name();
                    assert(vars[i].bound_name() == vars[j].bound_name());
                },
                None => {
                    expansion_errors(all_in_tree(tokens, vars), 0, rest_from(tokens, 0, end + 2));
                },
            }
        }
    }
}

/// An error met while an expression or the bindings are read is an error of
/// the grammar or of an unknown transform.
proof fn reading_errors(tokens: Seq<TokenView>, pos: int)
    ensures
        operation_at(tokens, pos) matches Err(e) ==> e is Grammar || e is UnknownOperation,
        operations_at(tokens, pos) matches Err(e) ==> e is Grammar || e is UnknownOperation,
        metavar_at(tokens, pos) matches Err(e) ==> e is Grammar || e is UnknownOperation,
        metavars_at(tokens, pos) matches Err(e) ==> e is Grammar || e is UnknownOperation,
    decreases tokens, tokens.len() - pos,
{
    lemma_expression_shape(tokens, pos);
    if is_punct(tokens, pos, ':') {
        if keyword_at(tokens, pos + 1) is Some {
            if let Some(inner) = parenthesized_at(tokens, pos + 2) {
                reading_errors(inner, 0);
            }
        }
    }
    if operation_at(tokens, pos) is Ok {
        let next = pos + term_width(tokens, pos);
        if is_punct(tokens, next, '+') {
            reading_errors(tokens, next + 1);
        }
    }
    if is_punct(tokens, pos + 1, '=') && crate::grammar::name_at(tokens, pos) is Some {
        lemma_expression_shape(tokens, pos + 2);
        reading_errors(tokens, pos + 2);
        if let Ok((first, next)) = metavar_at(tokens, pos) {
            if is_punct(tokens, next, '&') {
                reading_errors(tokens, next + 1);
            }
        }
    }
}

/// Applying bindings fails only with an invalid identifier, at the place
/// and with the name of one of the bindings, whose text cannot name an
/// identifier.
pub proof fn expansion_errors(vars: Seq<MetaVarView>, k: int, tt: Seq<TokenView>)
    requires
        0 <= k,
    ensures
        expanded_from(vars, k, tt) matches Err(e) ==> exists|i: int|
            k <= i < vars.len() && e == (#[trigger] vars[i]).names_no_identifier()
                && !is_identifier_body(vars[i].text()),
    decreases vars.len() - k,
{
    if k < vars.len() {
        if is_identifier_body(vars[k].text()) {
            expansion_errors(vars, k + 1, applied(vars[k], tt));
        } else {
            assert(expanded_from(vars, k, tt) == Err::<Seq<TokenView>, MashErrorView>(
                vars[k].names_no_identifier(),
            ));
        }
    }
}

/// Whether a binding is used has no say in whether the bindings can be
/// applied: they can exactly where every binding's text can name an
/// identifier.
pub proof fn expansion_succeeds(arguments: ArgumentsView)
    ensures
        expanded(arguments) is Ok <==> forall|k: int|
            0 <= k < arguments.vars.len() ==> is_identifier_body(
                (#[trigger] arguments.vars[k]).text(),
            ),
{
    expansion_succeeds_from(arguments.vars, 0, arguments.tt);
}

/// The bindings from `from` on can be applied exactly where each of their
/// texts can name an identifier.
proof fn expansion_succeeds_from(vars: Seq<MetaVarView>, from: int, tt: Seq<TokenView>)
    requires
        0 <= from,
    ensures
        expanded_from(vars, from, tt) is Ok <==> forall|k: int|
            from <= k < vars.len() ==> is_identifier_body((#[trigger] vars[k]).text()),
    decreases vars.len() - from,
{
    if from < vars.len() {
        if is_identifier_body(vars[from].text()) {
            expansion_succeeds_from(vars, from + 1, applied(vars[from], tt));
        }
    }
}

} // verus!
