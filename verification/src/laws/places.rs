//! Laws of places: every error points at a place of the invocation, and at
//! the token it is about.

use crate::error::MashErrorView;
use crate::grammar::{
    all_in_tree, first_repeat, is_arrow, is_first_repeat, keyword_at, lemma_bindings_shape,
    lemma_expression_shape, metavar_at, metavars_at, operation_at, operations_at, parenthesized_at,
    term_width, MetaVarView,
};
use crate::ident::is_identifier_body;
use crate::laws::rejection::expansion_errors;
use crate::opened::{
    opened, opened_from, opened_token, place_from, rest_from, token_from, tree_place,
};
use crate::substitute::is_named;
use crate::token::{is_place, is_punct, token_at, Delimiter, TokenView};
use crate::{expanded_from, mashed};
use vstd::prelude::*;

verus! {

/// Whether a place names an identifier that, without any `r#`, is spelled
/// `name`.
pub open spec fn is_named_at(tokens: Seq<TokenView>, place: Seq<int>, name: Seq<char>) -> bool {
    token_at(tokens, place) matches Some(token) && is_named(token, name)
}

/// Every error points at a place of the invocation: an unknown transform at
/// its `:`, a name bound twice at an identifier that spells that name, and a
/// text that cannot name an identifier at the identifier that names its
/// binding. The places lead through invisible groups to the token itself.
pub proof fn errors_point_at_their_tokens(tokens: Seq<TokenView>)
    ensures
        mashed(tokens) matches Err(e) ==> {
            &&& is_place(tokens, e.place())
            &&& e is UnknownOperation ==> (token_at(tokens, e.place()) matches Some(
                TokenView::Punct(ch, _),
            ) && ch == ':')
            &&& e matches MashErrorView::DuplicateName { name, .. } ==> is_named_at(
                tokens,
                e.place(),
                name,
            )
            &&& e matches MashErrorView::InvalidIdentifier { name, text, .. } ==> is_named_at(
                tokens,
                e.place(),
                name,
            ) && !is_identifier_body(text)
        },
{
    let read = opened(tokens);
    binding_places(read, 0);
    lemma_bindings_shape(read, 0);
    match metavars_at(read, 0) {
        Err(e) => {
            place_in_the_tree(tokens, e.place());
            if e is UnknownOperation {
                let colon = token_at(read, e.place())->Some_0;
                read_as_itself(token_at(tokens, tree_place(tokens, e.place(), 0)), colon);
            }
        },
        Ok((vars, end)) => {
            if is_arrow(read, end) {
                match first_repeat(vars) {
                    Some(j) => {
                        assert(is_first_repeat(vars, j));
                        name_in_the_tree(tokens, vars[j]);
                    },
                    None => {
                        let placed = all_in_tree(tokens, vars);
                        let tt = rest_from(tokens, 0, end + 2);
                        expansion_errors(placed, 0, tt);
                        if let Err(e) = expanded_from(placed, 0, tt) {
                            let i = choose|i: int|
                                0 <= i < placed.len() && e == (
                                #[trigger] placed[i]).names_no_identifier()
                                    && !is_identifier_body(placed[i].text());
                            name_in_the_tree(tokens, vars[i]);
                        }
                    },
                }
            } else {
                place_in_the_tree(tokens, seq![end]);
            }
        },
    }
}

/// A binding that was read from the opened reading points, in the tree, at
/// the identifier that spells its name.
proof fn name_in_the_tree(tokens: Seq<TokenView>, var: MetaVarView)
    requires
        var.at.len() == 1,
        0 <= var.at[0] < opened(tokens).len(),
        opened(tokens)[var.at[0]] == TokenView::Ident(var.name),
    ensures
        is_place(tokens, var.in_tree(tokens).at),
        token_at(tokens, var.in_tree(tokens).at) == Some(TokenView::Ident(var.name)),
{
    assert(var.at =~= seq![var.at[0]]);
    place_in_the_tree(tokens, var.at);
    read_as_itself(token_at(tokens, var.in_tree(tokens).at), TokenView::Ident(var.name));
}

/// Whether a place lies in an opened reading: each of its indices but the
/// last names a parenthesized group, and the last one names a token of its
/// level or the end of that level.
pub open spec fn is_read_place(read: Seq<TokenView>, place: Seq<int>) -> bool
    decreases place.len(),
{
    if place.len() == 0 {
        false
    } else if place.len() == 1 {
        0 <= place[0] <= read.len()
    } else {
        &&& 0 <= place[0] < read.len()
        &&& read[place[0]] matches TokenView::Group(Delimiter::Parenthesis, inner)
        &&& is_read_place(inner, place.skip(1))
    }
}

/// Whether a token of the tree is read as the token `read`.
spec fn is_read_as(token: Option<TokenView>, read: Option<TokenView>) -> bool {
    match read {
        Some(read) => token matches Some(token) && opened_token(token) == seq![read]
            && !(token matches TokenView::Group(Delimiter::Invisible, _)),
        None => token is None,
    }
}

/// A token that is no group is read as itself.
proof fn read_as_itself(token: Option<TokenView>, read: TokenView)
    requires
        is_read_as(token, Some(read)),
        !(read is Group),
    ensures
        token == Some(read),
{
    let found = token->Some_0;
    assert(opened_token(found)[0] == read);
}

/// The `k`-th token read from `pos` on has a place in the tree, stands at
/// that place, and is read as the `k`-th token of the opened reading.
proof fn reading_finds_the_token(tokens: Seq<TokenView>, pos: int, k: int)
    requires
        0 <= pos <= tokens.len(),
        0 <= k,
    ensures
        is_place(tokens, place_from(tokens, pos, k)),
        token_at(tokens, place_from(tokens, pos, k)) == token_from(tokens, pos, k),
        is_read_as(
            token_from(tokens, pos, k),
            if k < opened_from(tokens, pos).len() {
                Some(opened_from(tokens, pos)[k])
            } else {
                None
            },
        ),
    decreases tokens, tokens.len() - pos,
{
    if pos < tokens.len() {
        let rest = opened_from(tokens, pos + 1);
        let first = opened_token(tokens[pos]);
        assert(opened_from(tokens, pos) == first + rest);
        match tokens[pos] {
            TokenView::Group(Delimiter::Invisible, inner) => {
                let inside = opened(inner).len();
                assert(first == opened(inner));
                if k < inside {
                    reading_finds_the_token(inner, 0, k);
                    let deeper = place_from(inner, 0, k);
                    let place = seq![pos] + deeper;
                    assert(place.skip(1) =~= deeper);
                    assert(place.len() >= 2);
                    assert(place[0] == pos);
                } else {
                    reading_finds_the_token(tokens, pos + 1, k - inside);
                }
            },
            _ => {
                assert(first.len() == 1);
                if k > 0 {
                    reading_finds_the_token(tokens, pos + 1, k - 1);
                } else {
                    assert(first =~= seq![opened_from(tokens, pos)[0]]);
                }
            },
        }
    }
}

/// A place behind a place: where `here` names a group of the tree and
/// `deeper` is a place in that group, `here` followed by `deeper` is a place
/// of the tree and names what `deeper` names in the group.
proof fn place_behind_a_place(
    tokens: Seq<TokenView>,
    here: Seq<int>,
    inner: Seq<TokenView>,
    deeper: Seq<int>,
)
    requires
        is_place(tokens, here),
        token_at(tokens, here) matches Some(TokenView::Group(_, found)) && found == inner,
        is_place(inner, deeper),
    ensures
        is_place(tokens, here + deeper),
        token_at(tokens, here + deeper) == token_at(inner, deeper),
    decreases here.len(),
{
    let whole = here + deeper;
    assert(whole[0] == here[0]);
    if here.len() == 1 {
        assert(whole.skip(1) =~= deeper);
    } else {
        let below = tokens[here[0]]->Group_1;
        place_behind_a_place(below, here.skip(1), inner, deeper);
        assert(whole.skip(1) =~= here.skip(1) + deeper);
    }
}

/// The place in the tree does not depend on the indices in front of `i`.
pub proof fn tree_place_from_its_index(
    tokens: Seq<TokenView>,
    index: int,
    place: Seq<int>,
    i: int,
)
    requires
        0 <= i,
    ensures
        tree_place(tokens, seq![index] + place, i + 1) == tree_place(tokens, place, i),
    decreases place.len() - i,
{
    let longer = seq![index] + place;
    if i < place.len() {
        assert(longer[i + 1] == place[i]);
        if i + 1 < place.len() {
            match token_from(tokens, 0, place[i]) {
                Some(TokenView::Group(_, inner)) => {
                    tree_place_from_its_index(inner, index, place, i + 1);
                },
                _ => {},
            }
        }
    }
}

/// A place of the opened reading stands for a place of the tree, and the
/// token of the tree there is read as the token of the reading.
proof fn place_in_the_tree(tokens: Seq<TokenView>, place: Seq<int>)
    requires
        is_read_place(opened(tokens), place),
    ensures
        is_place(tokens, tree_place(tokens, place, 0)),
        is_read_as(token_at(tokens, tree_place(tokens, place, 0)), token_at(opened(tokens), place)),
    decreases place.len(),
{
    let read = opened(tokens);
    let k = place[0];
    reading_finds_the_token(tokens, 0, k);
    let here = place_from(tokens, 0, k);
    if place.len() > 1 {
        let read_inner = read[k]->Group_1;
        let found = token_from(tokens, 0, k)->Some_0;
        assert(opened_token(found) == seq![read[k]]);
        assert(opened_token(found)[0] == read[k]);
        let inner = found->Group_1;
        assert(found is Group && found->Group_0 == Delimiter::Parenthesis);
        assert(read_inner == opened(inner));
        place_in_the_tree(inner, place.skip(1));
        let deeper = tree_place(inner, place.skip(1), 0);
        assert(place =~= seq![k] + place.skip(1));
        tree_place_from_its_index(inner, k, place.skip(1), 0);
        assert(tree_place(tokens, place, 0) == here + deeper);
        place_behind_a_place(tokens, here, inner, deeper);
    }
}

/// Whether a grammar-level error points where it should in the reading: at
/// a place of the reading, and, for an unknown transform, at a `:`.
pub open spec fn points_well(read: Seq<TokenView>, e: MashErrorView) -> bool {
    &&& is_read_place(read, e.place())
    &&& e is Grammar || e is UnknownOperation
    &&& e is UnknownOperation ==> (token_at(read, e.place()) matches Some(
        TokenView::Punct(ch, _),
    ) && ch == ':')
}

/// A place inside a parenthesized group is a place of the level that holds
/// the group, and names the same token there.
proof fn place_within_a_group(read: Seq<TokenView>, index: int, place: Seq<int>)
    requires
        0 <= index < read.len(),
        read[index] matches TokenView::Group(Delimiter::Parenthesis, _),
        is_read_place(read[index]->Group_1, place),
    ensures
        is_read_place(read, seq![index] + place),
        token_at(read, seq![index] + place) == token_at(read[index]->Group_1, place),
{
    let outer = seq![index] + place;
    assert(outer.skip(1) =~= place);
}

/// An error met while an expression is read points where it should.
proof fn expression_errors(read: Seq<TokenView>, pos: int)
    requires
        0 <= pos <= read.len(),
    ensures
        operation_at(read, pos) matches Err(e) ==> points_well(read, e),
        operations_at(read, pos) matches Err(e) ==> points_well(read, e),
    decreases read, read.len() - pos,
{
    lemma_expression_shape(read, pos);
    if is_punct(read, pos, ':') {
        if keyword_at(read, pos + 1) is Some {
            if let Some(inner) = parenthesized_at(read, pos + 2) {
                expression_errors(inner, 0);
                lemma_expression_shape(inner, 0);
                match operations_at(inner, 0) {
                    Err(e) => {
                        place_within_a_group(read, pos + 2, e.place());
                    },
                    Ok((children, end)) => {
                        place_within_a_group(read, pos + 2, seq![end]);
                    },
                }
            }
        }
    }
    if operation_at(read, pos) is Ok {
        let next = pos + term_width(read, pos);
        if is_punct(read, next, '+') {
            expression_errors(read, next + 1);
        }
    }
}

/// The bindings that were read carry the places and spellings of their
/// names; an error met while they are read points where it should.
pub proof fn binding_places(read: Seq<TokenView>, pos: int)
    requires
        0 <= pos <= read.len(),
    ensures
        metavars_at(read, pos) matches Err(e) ==> points_well(read, e),
        metavars_at(read, pos) matches Ok((vars, end)) ==> forall|i: int|
            0 <= i < vars.len() ==> (#[trigger] vars[i]).at.len() == 1 && 0 <= vars[i].at[0]
                < read.len() && read[vars[i].at[0]] == TokenView::Ident(vars[i].name),
    decreases read.len() - pos,
{
    if is_punct(read, pos + 1, '=') {
        expression_errors(read, pos + 2);
    }
    lemma_expression_shape(read, pos + 2);
    if let Ok((first, next)) = metavar_at(read, pos) {
        if is_punct(read, next, '&') {
            binding_places(read, next + 1);
            if let Ok((rest, end)) = metavars_at(read, next + 1) {
                let vars = seq![first] + rest;
                assert forall|i: int| 0 <= i < vars.len() implies (#[trigger] vars[i]).at.len() == 1
                    && 0 <= vars[i].at[0] < read.len() && read[vars[i].at[0]] == TokenView::Ident(
                    vars[i].name,
                ) by {
                    if i > 0 {
                        assert(vars[i] == rest[i - 1]);
                    }
                }
            }
        }
    }
}

} // verus!
