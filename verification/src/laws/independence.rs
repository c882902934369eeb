//! Laws of independence: once a binding was applied none of its placeholders
//! is left, and bindings with different names do not interact, so the order
//! in which they are declared has no say in the output. Both hold where no
//! replacement is itself spelled like a name that is looked for: a `$` that
//! stood in front of a placeholder stands in front of the replacement
//! afterwards.

use crate::grammar::{ArgumentsView, MetaVarView};
use crate::ident::is_identifier_body;
use crate::laws::substitution::substitution_ignores_what_came_before;
use crate::substitute::{
    is_named, is_placeholder, substituted, substituted_from, substituted_token,
};
use crate::text::raw_spelling;
use crate::token::TokenView;
use crate::{applied, expanded, expanded_from};
use vstd::prelude::*;

verus! {

/// Once a token tree was rewritten for a binding, none of the binding's
/// placeholders is left in it: rewriting it for the same name again, with
/// whatever replacement, changes nothing. This holds where the replacement
/// is not spelled like the name itself.
pub proof fn no_placeholder_is_left(
    tokens: Seq<TokenView>,
    name: Seq<char>,
    replacement: TokenView,
    other: TokenView,
)
    requires
        replacement is Ident,
        !is_named(replacement, name),
    ensures
        substituted(substituted(tokens, name, replacement), name, other) == substituted(
            tokens,
            name,
            replacement,
        ),
{
    one_after_the_other(tokens, 0, name, replacement, name, other);
    both_for_one_name(tokens, 0, name, replacement, other);
}

/// Bindings with different names do not interact: rewriting a token tree for
/// one and then for the other gives the same tree in either order, where
/// neither replacement is spelled like the name of the other binding.
pub proof fn bindings_do_not_interact(
    tokens: Seq<TokenView>,
    first_name: Seq<char>,
    first: TokenView,
    second_name: Seq<char>,
    second: TokenView,
)
    requires
        first_name != second_name,
        first is Ident,
        second is Ident,
        !is_named(first, second_name),
        !is_named(second, first_name),
    ensures
        substituted(substituted(tokens, first_name, first), second_name, second) == substituted(
            substituted(tokens, second_name, second),
            first_name,
            first,
        ),
{
    one_after_the_other(tokens, 0, first_name, first, second_name, second);
    one_after_the_other(tokens, 0, second_name, second, first_name, first);
    both_either_way(tokens, 0, first_name, first, second_name, second);
}

/// The bindings of `arguments` with those at `i` and `i + 1` in each other's
/// place.
pub open spec fn with_neighbours_swapped(arguments: ArgumentsView, i: int) -> ArgumentsView {
    ArgumentsView {
        vars: arguments.vars.update(i, arguments.vars[i + 1]).update(i + 1, arguments.vars[i]),
        tt: arguments.tt,
    }
}

/// The order in which bindings are declared has no say in the output: an
/// invocation with two neighbouring bindings in each other's place can be
/// expanded exactly if the invocation itself can, and then to the same
/// tokens, where the two have different names and neither evaluates to the
/// name of the other.
pub proof fn order_of_bindings_does_not_matter(arguments: ArgumentsView, i: int)
    requires
        0 <= i,
        i + 1 < arguments.vars.len(),
        arguments.vars[i].bound_name() != arguments.vars[i + 1].bound_name(),
        arguments.vars[i].text() != arguments.vars[i + 1].bound_name(),
        arguments.vars[i + 1].text() != arguments.vars[i].bound_name(),
    ensures
        expanded(arguments) is Ok <==> expanded(with_neighbours_swapped(arguments, i)) is Ok,
        expanded(arguments) is Ok ==> expanded(with_neighbours_swapped(arguments, i)) == expanded(
            arguments,
        ),
{
    swapped_from(arguments, i, 0, arguments.tt);
}

/// A token rewritten on its own for two bindings at once.
spec fn both_token(
    token: TokenView,
    first_name: Seq<char>,
    first: TokenView,
    second_name: Seq<char>,
    second: TokenView,
) -> TokenView
    decreases token, 0nat,
{
    match token {
        TokenView::Group(delimiter, inner) => TokenView::Group(
            delimiter,
            both_from(inner, 0, first_name, first, second_name, second),
        ),
        other => other,
    }
}

/// The tokens from `pos` on, rewritten for two bindings in one reading.
spec fn both_from(
    tokens: Seq<TokenView>,
    pos: int,
    first_name: Seq<char>,
    first: TokenView,
    second_name: Seq<char>,
    second: TokenView,
) -> Seq<TokenView>
    decreases tokens, tokens.len() - pos,
{
    if pos < 0 || pos >= tokens.len() {
        Seq::empty()
    } else if is_placeholder(tokens, pos, first_name) {
        seq![first] + both_from(tokens, pos + 2, first_name, first, second_name, second)
    } else if is_placeholder(tokens, pos, second_name) {
        seq![second] + both_from(tokens, pos + 2, first_name, first, second_name, second)
    } else {
        seq![both_token(tokens[pos], first_name, first, second_name, second)] + both_from(
            tokens,
            pos + 1,
            first_name,
            first,
            second_name,
            second,
        )
    }
}

/// Rewriting for one binding and then for another is rewriting for both in
/// one reading, where the first replacement is not spelled like the second
/// name.
proof fn one_after_the_other(
    tokens: Seq<TokenView>,
    pos: int,
    first_name: Seq<char>,
    first: TokenView,
    second_name: Seq<char>,
    second: TokenView,
)
    requires
        0 <= pos <= tokens.len(),
        first is Ident,
        !is_named(first, second_name),
    ensures
        substituted(substituted_from(tokens, pos, first_name, first), second_name, second)
            == both_from(tokens, pos, first_name, first, second_name, second),
    decreases tokens, tokens.len() - pos,
{
    let once = substituted_from(tokens, pos, first_name, first);
    let both = both_from(tokens, pos, first_name, first, second_name, second);
    if pos >= tokens.len() {
        assert(substituted(once, second_name, second) =~= both);
    } else if is_placeholder(tokens, pos, first_name) {
        let rest = substituted_from(tokens, pos + 2, first_name, first);
        one_after_the_other(tokens, pos + 2, first_name, first, second_name, second);
        let read = seq![first];
        assert(once == read + rest);
        assert(!is_placeholder(once, 0, second_name));
        substitution_ignores_what_came_before(read, rest, 0, second_name, second);
        assert(substituted_token(first, second_name, second) == first);
        assert(substituted(once, second_name, second) =~= both);
    } else if is_placeholder(tokens, pos, second_name) {
        let rest = substituted_from(tokens, pos + 2, first_name, first);
        one_after_the_other(tokens, pos + 2, first_name, first, second_name, second);
        let next = tokens[pos + 1];
        assert(!is_placeholder(tokens, pos + 1, first_name));
        assert(substituted_token(tokens[pos], first_name, first) == tokens[pos]);
        assert(substituted_token(next, first_name, first) == next);
        let after = substituted_from(tokens, pos + 1, first_name, first);
        assert(after == seq![next] + rest);
        let read = seq![tokens[pos], next];
        assert(once =~= read + rest);
        assert(is_placeholder(once, 0, second_name));
        substitution_ignores_what_came_before(read, rest, 0, second_name, second);
        assert(substituted(once, second_name, second) =~= both);
    } else {
        let rest = substituted_from(tokens, pos + 1, first_name, first);
        one_after_the_other(tokens, pos + 1, first_name, first, second_name, second);
        let token = substituted_token(tokens[pos], first_name, first);
        let read = seq![token];
        assert(once == read + rest);
        if pos + 1 < tokens.len() && is_punct_token(tokens[pos]) {
            if is_placeholder(tokens, pos + 1, first_name) {
                assert(rest[0] == first);
            } else {
                let kept = substituted_token(tokens[pos + 1], first_name, first);
                assert(rest == seq![kept] + substituted_from(tokens, pos + 2, first_name, first));
                assert(rest[0] == kept);
                assert(!is_named(kept, second_name));
            }
        }
        assert(!is_placeholder(once, 0, second_name));
        substitution_ignores_what_came_before(read, rest, 0, second_name, second);
        match tokens[pos] {
            TokenView::Group(delimiter, inner) => {
                one_after_the_other(inner, 0, first_name, first, second_name, second);
            },
            _ => {},
        }
        assert(substituted_token(token, second_name, second) == both_token(
            tokens[pos],
            first_name,
            first,
            second_name,
            second,
        ));
        assert(substituted(once, second_name, second) =~= both);
    }
}

/// Whether a token is a `$`.
spec fn is_punct_token(token: TokenView) -> bool {
    token matches TokenView::Punct(ch, _) && ch == '$'
}

/// Rewriting for two bindings with different names in one reading does not
/// depend on which of the two is looked for first.
proof fn both_either_way(
    tokens: Seq<TokenView>,
    pos: int,
    first_name: Seq<char>,
    first: TokenView,
    second_name: Seq<char>,
    second: TokenView,
)
    requires
        first_name != second_name,
    ensures
        both_from(tokens, pos, first_name, first, second_name, second) == both_from(
            tokens,
            pos,
            second_name,
            second,
            first_name,
            first,
        ),
    decreases tokens, tokens.len() - pos,
{
    if 0 <= pos < tokens.len() {
        if is_placeholder(tokens, pos, first_name) || is_placeholder(tokens, pos, second_name) {
            both_either_way(tokens, pos + 2, first_name, first, second_name, second);
        } else {
            both_either_way(tokens, pos + 1, first_name, first, second_name, second);
            match tokens[pos] {
                TokenView::Group(delimiter, inner) => {
                    both_either_way(inner, 0, first_name, first, second_name, second);
                },
                _ => {},
            }
            assert(both_token(tokens[pos], first_name, first, second_name, second) == both_token(
                tokens[pos],
                second_name,
                second,
                first_name,
                first,
            ));
        }
    }
}

/// Rewriting for one name twice in one reading is rewriting for it once.
proof fn both_for_one_name(
    tokens: Seq<TokenView>,
    pos: int,
    name: Seq<char>,
    replacement: TokenView,
    other: TokenView,
)
    ensures
        both_from(tokens, pos, name, replacement, name, other) == substituted_from(
            tokens,
            pos,
            name,
            replacement,
        ),
    decreases tokens, tokens.len() - pos,
{
    if 0 <= pos < tokens.len() {
        if is_placeholder(tokens, pos, name) {
            both_for_one_name(tokens, pos + 2, name, replacement, other);
        } else {
            both_for_one_name(tokens, pos + 1, name, replacement, other);
            match tokens[pos] {
                TokenView::Group(delimiter, inner) => {
                    both_for_one_name(inner, 0, name, replacement, other);
                },
                _ => {},
            }
            assert(both_token(tokens[pos], name, replacement, name, other) == substituted_token(
                tokens[pos],
                name,
                replacement,
            ));
        }
    }
}

/// Applying the bindings from `k` on looks at no binding before `k`.
proof fn expansion_reads_the_rest(
    vars: Seq<MetaVarView>,
    others: Seq<MetaVarView>,
    k: int,
    tt: Seq<TokenView>,
)
    requires
        0 <= k,
        vars.len() == others.len(),
        forall|j: int| k <= j < vars.len() ==> vars[j] == others[j],
    ensures
        expanded_from(vars, k, tt) == expanded_from(others, k, tt),
    decreases vars.len() - k,
{
    if k < vars.len() {
        if is_identifier_body(vars[k].text()) {
            expansion_reads_the_rest(vars, others, k + 1, applied(vars[k], tt));
        }
    }
}

/// From any binding up to the two that change places, the bindings can be
/// applied exactly if they can with the two in each other's place, and then
/// to the same tokens.
proof fn swapped_from(arguments: ArgumentsView, i: int, k: int, tt: Seq<TokenView>)
    requires
        0 <= k <= i,
        i + 1 < arguments.vars.len(),
        arguments.vars[i].bound_name() != arguments.vars[i + 1].bound_name(),
        arguments.vars[i].text() != arguments.vars[i + 1].bound_name(),
        arguments.vars[i + 1].text() != arguments.vars[i].bound_name(),
    ensures
        expanded_from(arguments.vars, k, tt) is Ok <==> expanded_from(
            with_neighbours_swapped(arguments, i).vars,
            k,
            tt,
        ) is Ok,
        expanded_from(arguments.vars, k, tt) is Ok ==> expanded_from(
            with_neighbours_swapped(arguments, i).vars,
            k,
            tt,
        ) == expanded_from(arguments.vars, k, tt),
    decreases i - k,
{
    let vars = arguments.vars;
    let others = with_neighbours_swapped(arguments, i).vars;
    if k < i {
        assert(others[k] == vars[k]);
        if is_identifier_body(vars[k].text()) {
            swapped_from(arguments, i, k + 1, applied(vars[k], tt));
        }
    } else {
        let a = vars[i];
        let b = vars[i + 1];
        assert(others[i] == b);
        assert(others[i + 1] == a);
        if is_identifier_body(a.text()) && is_identifier_body(b.text()) {
            assert(raw_spelling(a.text()).skip(2) =~= a.text());
            assert(raw_spelling(b.text()).skip(2) =~= b.text());
            bindings_do_not_interact(
                tt,
                a.bound_name(),
                TokenView::Ident(raw_spelling(a.text())),
                b.bound_name(),
                TokenView::Ident(raw_spelling(b.text())),
            );
            assert(expanded_from(vars, i, tt) == expanded_from(vars, i + 1, applied(a, tt)));
            assert(expanded_from(others, i, tt) == expanded_from(others, i + 1, applied(b, tt)));
            expansion_reads_the_rest(vars, others, i + 2, applied(b, applied(a, tt)));
        } else if is_identifier_body(a.text()) {
            assert(expanded_from(vars, i, tt) == expanded_from(vars, i + 1, applied(a, tt)));
        } else if is_identifier_body(b.text()) {
            assert(expanded_from(others, i, tt) == expanded_from(others, i + 1, applied(b, tt)));
        }
    }
}

} // verus!
