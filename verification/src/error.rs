//! The ways an invocation can be rejected.

use crate::text::join;
use vstd::prelude::*;

verus! {

/// What the grammar asked for at the place where parsing stopped.
#[derive(Clone, Copy, Debug, PartialEq, Eq, Structural)]
pub enum Expected {
    /// A binding name or a fragment.
    Identifier,
    /// The `=` after a binding name.
    Equals,
    /// The `=>` between the bindings and the template.
    Arrow,
    /// The parenthesized arguments of a transform.
    Parentheses,
    /// The end of a transform's arguments.
    GroupEnd,
}

/// Why an invocation was rejected, and where.
///
/// A place is a path into the token tree: the index of a token at the top
/// level, followed, for a token inside groups, by the index within each group
/// on the way down. An index equal to the length of its level means the end
/// of that level.
#[derive(Debug, PartialEq, Eq)]
pub enum MashError {
    /// The tokens do not follow the binding grammar.
    Grammar { at: Vec<usize>, expected: Expected },
    /// A `:` is not followed by the name of a transform. The place is the `:`.
    UnknownOperation { at: Vec<usize> },
    /// A binding name was already bound. The place is the later name.
    DuplicateName { at: Vec<usize>, name: String },
    /// A binding evaluates to a text that cannot be an identifier. The place
    /// is the binding's name.
    InvalidIdentifier { at: Vec<usize>, name: String, text: String },
}

/// The mathematical value of a [`MashError`].
pub enum MashErrorView {
    Grammar { at: Seq<int>, expected: Expected },
    UnknownOperation { at: Seq<int> },
    DuplicateName { at: Seq<int>, name: Seq<char> },
    InvalidIdentifier { at: Seq<int>, name: Seq<char>, text: Seq<char> },
}

/// The mathematical value of a place: its indices as integers.
pub open spec fn place_view(at: Seq<usize>) -> Seq<int> {
    Seq::new(at.len(), |i: int| at[i] as int)
}

impl View for MashError {
    type V = MashErrorView;

    open spec fn view(&self) -> MashErrorView {
        match self {
            MashError::Grammar { at, expected } => MashErrorView::Grammar {
                at: place_view(at@),
                expected: *expected,
            },
            MashError::UnknownOperation { at } => MashErrorView::UnknownOperation {
                at: place_view(at@),
            },
            MashError::DuplicateName { at, name } => MashErrorView::DuplicateName {
                at: place_view(at@),
                name: name@,
            },
            MashError::InvalidIdentifier { at, name, text } => MashErrorView::InvalidIdentifier {
                at: place_view(at@),
                name: name@,
                text: text@,
            },
        }
    }
}

impl DeepView for MashError {
    type V = MashErrorView;

    open spec fn deep_view(&self) -> MashErrorView {
        self@
    }
}

/// The value of an outcome: the value of what was made, or that of the
/// error.
pub open spec fn outcome<T: DeepView>(result: Result<T, MashError>) -> Result<T::V, MashErrorView> {
    match result {
        Ok(made) => Ok(made.deep_view()),
        Err(e) => Err(e@),
    }
}

/// The value of an outcome that comes with a position: the value of what was
/// made and the position, or the value of the error.
pub open spec fn outcome_at<T: DeepView>(result: Result<(T, usize), MashError>) -> Result<
    (T::V, int),
    MashErrorView,
> {
    match result {
        Ok((made, end)) => Ok((made.deep_view(), end as int)),
        Err(e) => Err(e@),
    }
}

impl MashErrorView {
    /// The place the error points at.
    pub open spec fn place(self) -> Seq<int> {
        match self {
            MashErrorView::Grammar { at, .. } => at,
            MashErrorView::UnknownOperation { at } => at,
            MashErrorView::DuplicateName { at, .. } => at,
            MashErrorView::InvalidIdentifier { at, .. } => at,
        }
    }

    /// The same error at another place.
    pub open spec fn placed(self, at: Seq<int>) -> MashErrorView {
        match self {
            MashErrorView::Grammar { expected, .. } => MashErrorView::Grammar { at, expected },
            MashErrorView::UnknownOperation { .. } => MashErrorView::UnknownOperation { at },
            MashErrorView::DuplicateName { name, .. } => MashErrorView::DuplicateName { at, name },
            MashErrorView::InvalidIdentifier { name, text, .. } => MashErrorView::InvalidIdentifier {
                at,
                name,
                text,
            },
        }
    }

    /// The same error, seen from one level further out: the place is inside
    /// the group at `index`.
    pub open spec fn within(self, index: int) -> MashErrorView {
        match self {
            MashErrorView::Grammar { at, expected } => MashErrorView::Grammar {
                at: seq![index] + at,
                expected,
            },
            MashErrorView::UnknownOperation { at } => MashErrorView::UnknownOperation {
                at: seq![index] + at,
            },
            MashErrorView::DuplicateName { at, name } => MashErrorView::DuplicateName {
                at: seq![index] + at,
                name,
            },
            MashErrorView::InvalidIdentifier { at, name, text } => MashErrorView::InvalidIdentifier {
                at: seq![index] + at,
                name,
                text,
            },
        }
    }

    /// The message for a reader.
    pub open spec fn message(self) -> Seq<char> {
        match self {
            MashErrorView::Grammar { expected, .. } => match expected {
                Expected::Identifier => "expected identifier"@,
                Expected::Equals => "expected `=`"@,
                Expected::Arrow => "expected `=>`"@,
                Expected::Parentheses => "expected parentheses"@,
                Expected::GroupEnd => "unexpected token"@,
            },
            MashErrorView::UnknownOperation { .. } => "unknown operation"@,
            MashErrorView::DuplicateName { .. } => "meta-variable name defined twice"@,
            MashErrorView::InvalidIdentifier { name, text, .. } => {
                "synthesized identifier invalid: binding `"@ + name + "` evaluates to `"@ + text
                    + "`"@
            },
        }
    }
}

impl Clone for MashError {
    fn clone(&self) -> (copy: MashError)
        ensures
            copy@ == self@,
    {
        match self {
            MashError::Grammar { at, expected } => MashError::Grammar {
                at: at.clone(),
                expected: *expected,
            },
            MashError::UnknownOperation { at } => MashError::UnknownOperation { at: at.clone() },
            MashError::DuplicateName { at, name } => MashError::DuplicateName {
                at: at.clone(),
                name: name.clone(),
            },
            MashError::InvalidIdentifier { at, name, text } => MashError::InvalidIdentifier {
                at: at.clone(),
                name: name.clone(),
                text: text.clone(),
            },
        }
    }
}

/// The place of the token at `pos` of the top level.
pub fn place_of(pos: usize) -> (at: Vec<usize>)
    ensures
        at@ == seq![pos],
        place_view(at@) == seq![pos as int],
{
    let mut at: Vec<usize> = Vec::new();
    at.push(pos);
    assert(at@ =~= seq![pos]);
    assert(place_view(at@) =~= seq![pos as int]);
    at
}

/// A place one level further out: `index` comes before the indices of `at`.
pub(crate) fn place_within(at: Vec<usize>, index: usize) -> (outer: Vec<usize>)
    ensures
        outer@ == seq![index] + at@,
        place_view(outer@) == seq![index as int] + place_view(at@),
{
    let mut outer = at;
    outer.insert(0, index);
    assert(outer@ =~= seq![index] + at@);
    assert(place_view(outer@) =~= seq![index as int] + place_view(at@));
    outer
}

impl MashError {
    /// The place the error points at.
    pub fn place(&self) -> (at: &Vec<usize>)
        ensures
            place_view(at@) == self@.place(),
    {
        match self {
            MashError::Grammar { at, .. } => at,
            MashError::UnknownOperation { at } => at,
            MashError::DuplicateName { at, .. } => at,
            MashError::InvalidIdentifier { at, .. } => at,
        }
    }

    /// The same error at another place.
    pub fn placed(self, at: Vec<usize>) -> (moved: MashError)
        ensures
            moved@ == self@.placed(place_view(at@)),
    {
        match self {
            MashError::Grammar { expected, .. } => MashError::Grammar { at, expected },
            MashError::UnknownOperation { .. } => MashError::UnknownOperation { at },
            MashError::DuplicateName { name, .. } => MashError::DuplicateName { at, name },
            MashError::InvalidIdentifier { name, text, .. } => MashError::InvalidIdentifier {
                at,
                name,
                text,
            },
        }
    }

    /// The same error for the enclosing level, where the place found so far
    /// lies inside the group at `index`.
    pub fn within(self, index: usize) -> (outer: MashError)
        ensures
            outer@ == self@.within(index as int),
    {
        match self {
            MashError::Grammar { at, expected } => MashError::Grammar {
                at: place_within(at, index),
                expected,
            },
            MashError::UnknownOperation { at } => MashError::UnknownOperation {
                at: place_within(at, index),
            },
            MashError::DuplicateName { at, name } => MashError::DuplicateName {
                at: place_within(at, index),
                name,
            },
            MashError::InvalidIdentifier { at, name, text } => MashError::InvalidIdentifier {
                at: place_within(at, index),
                name,
                text,
            },
        }
    }

    /// The message for a reader.
    pub fn message(&self) -> (message: String)
        ensures
            message@ == self@.message(),
    {
        match self {
            MashError::Grammar { expected, .. } => match expected {
                Expected::Identifier => "expected identifier".to_owned(),
                Expected::Equals => "expected `=`".to_owned(),
                Expected::Arrow => "expected `=>`".to_owned(),
                Expected::Parentheses => "expected parentheses".to_owned(),
                Expected::GroupEnd => "unexpected token".to_owned(),
            },
            MashError::UnknownOperation { .. } => "unknown operation".to_owned(),
            MashError::DuplicateName { .. } => "meta-variable name defined twice".to_owned(),
            MashError::InvalidIdentifier { name, text, .. } => {
                let a = join("synthesized identifier invalid: binding `", name.as_str());
                let b = join(a.as_str(), "` evaluates to `");
                let c = join(b.as_str(), text.as_str());
                join(c.as_str(), "`")
            },
        }
    }
}

} // verus!
