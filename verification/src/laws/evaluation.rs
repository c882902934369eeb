//! Laws of evaluation: determinism, concatenation before transformation,
//! and ASCII case folding.

use crate::error::{outcome, MashError};
use crate::hashing::hash_text;
use crate::mash;
use crate::operation::{concatenated, OperationView, Transform};
use crate::text::{decimal, lower_case, raw_spelling, upper_case, without_raw_marker};
use crate::token::Token;
use vstd::prelude::*;

verus! {

/// Evaluation is deterministic: whenever the engine runs twice on the same
/// tokens, both runs succeed with the same output or both fail with the same
/// error.
pub proof fn mash_is_deterministic(
    first: Vec<Token>,
    second: Vec<Token>,
    first_result: Result<Vec<Token>, MashError>,
    second_result: Result<Vec<Token>, MashError>,
)
    requires
        first.deep_view() == second.deep_view(),
        call_ensures(mash, (first,), first_result),
        call_ensures(mash, (second,), second_result),
    ensures
        outcome(first_result) == outcome(second_result),
{
}

/// Hashing is deterministic: whenever a text is hashed twice, both runs give
/// the same number, and so the same numeral.
pub proof fn hash_is_deterministic(first: &str, second: &str, first_hash: u64, second_hash: u64)
    requires
        first@ == second@,
        call_ensures(hash_text, (first,), first_hash),
        call_ensures(hash_text, (second,), second_hash),
    ensures
        first_hash == second_hash,
        decimal(first_hash as nat) == decimal(second_hash as nat),
{
}

/// The texts of two lists of expressions, concatenated, are the text of the
/// two lists put together.
pub proof fn concatenation_of_lists(first: Seq<OperationView>, second: Seq<OperationView>)
    ensures
        concatenated(first + second) == concatenated(first) + concatenated(second),
    decreases second.len(),
{
    if second.len() == 0 {
        assert(first + second =~= first);
        assert(concatenated(first) + concatenated(second) =~= concatenated(first));
    } else {
        let whole = first + second;
        assert(whole.drop_last() =~= first + second.drop_last());
        assert(whole.last() == second.last());
        concatenation_of_lists(first, second.drop_last());
        assert(concatenated(whole) =~= concatenated(first) + concatenated(second));
    }
}

/// One expression alone concatenates to its own text.
proof fn concatenation_of_one(a: OperationView)
    ensures
        concatenated(seq![a]) == a.text(),
{
    let one = seq![a];
    assert(one.drop_last() =~= Seq::<OperationView>::empty());
    assert(concatenated(one.drop_last()) =~= Seq::<char>::empty());
    assert(concatenated(one) =~= a.text());
}

/// A transform of two expressions is the transform of their concatenated
/// texts: the children are joined first and transformed as one text.
pub proof fn transform_applies_to_concatenation(
    kind: Transform,
    a: OperationView,
    b: OperationView,
)
    ensures
        OperationView::Apply(kind, seq![a, b]).text() == kind.applied(a.text() + b.text()),
{
    let children = seq![a, b];
    assert(children.drop_last() =~= seq![a]);
    concatenation_of_one(a);
    assert(concatenated(children) =~= a.text() + b.text());
}

/// Upper-casing the concatenation of two expressions is upper-casing the
/// text that the two evaluate to together.
pub proof fn upper_case_of_concatenation(a: OperationView, b: OperationView)
    ensures
        OperationView::Apply(Transform::Upper, seq![a, b]).text() == upper_case(
            a.text() + b.text(),
        ),
{
    transform_applies_to_concatenation(Transform::Upper, a, b);
}

/// ASCII case folding works character by character, so folding a
/// concatenation gives the concatenation of the folded parts.
pub proof fn case_folding_distributes(a: Seq<char>, b: Seq<char>)
    ensures
        upper_case(a + b) == upper_case(a) + upper_case(b),
        lower_case(a + b) == lower_case(a) + lower_case(b),
{
    assert(upper_case(a + b) =~= upper_case(a) + upper_case(b));
    assert(lower_case(a + b) =~= lower_case(a) + lower_case(b));
}

/// Folding a text to upper case twice gives what folding it once gives, and
/// likewise for lower case.
pub proof fn case_folding_is_idempotent(text: Seq<char>)
    ensures
        upper_case(upper_case(text)) == upper_case(text),
        lower_case(lower_case(text)) == lower_case(text),
{
    assert(upper_case(upper_case(text)) =~= upper_case(text));
    assert(lower_case(lower_case(text)) =~= lower_case(text));
}

/// Applying `:upper_case` to an `:upper_case` node changes nothing, and
/// likewise for `:lower_case`.
pub proof fn nested_case_folding_is_idempotent(children: Seq<OperationView>)
    ensures
        OperationView::Apply(
            Transform::Upper,
            seq![OperationView::Apply(Transform::Upper, children)],
        ).text() == OperationView::Apply(Transform::Upper, children).text(),
        OperationView::Apply(
            Transform::Lower,
            seq![OperationView::Apply(Transform::Lower, children)],
        ).text() == OperationView::Apply(Transform::Lower, children).text(),
{
    let upper = OperationView::Apply(Transform::Upper, children);
    let lower = OperationView::Apply(Transform::Lower, children);
    concatenation_of_one(upper);
    concatenation_of_one(lower);
    case_folding_is_idempotent(concatenated(children));
}

/// The raw spelling of a name stands for exactly that name.
pub proof fn raw_spelling_names_the_text(text: Seq<char>)
    ensures
        without_raw_marker(raw_spelling(text)) == text,
{
    assert(raw_spelling(text).skip(2) =~= text);
}

} // verus!
