//! The expression language of a binding, and its evaluation to a text.

use crate::hashing::{hash_of, hash_text};
use crate::text::{
    decimal, ident_no_prefix, lower_case, to_decimal, to_lower_case, to_upper_case, upper_case,
    without_raw_marker,
};
use crate::trusted::{case_converted, convert_case};
use vstd::prelude::*;
use vstd::string::StringExecFns;

verus! {

/// A leaf of an expression.
#[derive(Debug, PartialEq, Eq)]
pub enum Plain {
    /// An identifier, by its spelling.
    Ident(String),
    /// The wildcard `_`.
    Underscore,
    /// A string literal, by its decoded contents.
    LitStr(String),
}

/// The mathematical value of a [`Plain`].
pub enum PlainView {
    Ident(Seq<char>),
    Underscore,
    LitStr(Seq<char>),
}

impl View for Plain {
    type V = PlainView;

    open spec fn view(&self) -> PlainView {
        match self {
            Plain::Ident(spelling) => PlainView::Ident(spelling@),
            Plain::Underscore => PlainView::Underscore,
            Plain::LitStr(contents) => PlainView::LitStr(contents@),
        }
    }
}

impl DeepView for Plain {
    type V = PlainView;

    open spec fn deep_view(&self) -> PlainView {
        self@
    }
}

impl Clone for Plain {
    fn clone(&self) -> (copy: Plain)
        ensures
            copy@ == self@,
    {
        match self {
            Plain::Ident(spelling) => Plain::Ident(spelling.clone()),
            Plain::Underscore => Plain::Underscore,
            Plain::LitStr(contents) => Plain::LitStr(contents.clone()),
        }
    }
}

/// A naming convention that is applied word by word.
#[derive(Clone, Copy, Debug, PartialEq, Eq, Structural)]
pub enum WordCase {
    /// `words_like_this`
    Snake,
    /// `WordsLikeThis`
    Pascal,
    /// `WORDS_LIKE_THIS`
    ScreamingSnake,
}

/// What a transform node does to the concatenation of its children.
#[derive(Clone, Copy, Debug, PartialEq, Eq, Structural)]
pub enum Transform {
    /// `:hash(..)`, the decimal numeral of the text's hash.
    Hash,
    /// `:lower_case(..)`
    Lower,
    /// `:upper_case(..)`
    Upper,
    /// `:snake_case(..)`
    Snake,
    /// `:pascal_case(..)`
    Pascal,
    /// `:upper_snake_case(..)`
    ScreamingSnake,
}

/// An expression: a leaf, or a transform of the concatenation of its
/// children.
#[derive(Debug, PartialEq, Eq)]
pub enum Operation {
    /// A fragment, which stands for its own text.
    Plain(Plain),
    /// A transform and the expressions whose concatenated texts it is applied
    /// to.
    Apply(Transform, Vec<Operation>),
}

/// The mathematical value of an [`Operation`].
pub enum OperationView {
    Plain(PlainView),
    Apply(Transform, Seq<OperationView>),
}

/// The value of an expression; a node's value holds the values of its
/// children.
pub open spec fn operation_view(op: Operation) -> OperationView
    decreases op,
{
    match op {
        Operation::Plain(plain) => OperationView::Plain(plain@),
        Operation::Apply(kind, children) => OperationView::Apply(
            kind,
            Seq::new(
                children.len() as nat,
                |i: int|
                    if 0 <= i < children.len() {
                        operation_view(children[i])
                    } else {
                        OperationView::Plain(PlainView::Underscore)
                    },
            ),
        ),
    }
}

impl View for Operation {
    type V = OperationView;

    open spec fn view(&self) -> OperationView {
        operation_view(*self)
    }
}

impl DeepView for Operation {
    type V = OperationView;

    open spec fn deep_view(&self) -> OperationView {
        operation_view(*self)
    }
}

/// The value of a node is its transform with the values of its children.
pub proof fn lemma_apply_view(kind: Transform, children: Vec<Operation>)
    ensures
        Operation::Apply(kind, children)@ == OperationView::Apply(kind, children.deep_view()),
{
    assert(Operation::Apply(kind, children)@->Apply_1 =~= children.deep_view());
}

impl OperationView {
    /// Every transform node, at every depth, has at least one child.
    pub open spec fn well_formed(self) -> bool
        decreases self,
    {
        match self {
            OperationView::Plain(_) => true,
            OperationView::Apply(_, children) => {
                &&& children.len() > 0
                &&& forall|i: int|
                    0 <= i < children.len() ==> (#[trigger] children[i]).well_formed()
            },
        }
    }

    /// The text that the expression evaluates to.
    pub open spec fn text(self) -> Seq<char>
        decreases self, 0nat,
    {
        match self {
            OperationView::Plain(plain) => plain.text(),
            OperationView::Apply(kind, children) => kind.applied(concatenated(children)),
        }
    }
}

/// The texts of a list of expressions, one after the other.
pub open spec fn concatenated(ops: Seq<OperationView>) -> Seq<char>
    decreases ops, 1nat,
{
    if ops.len() == 0 {
        Seq::empty()
    } else {
        concatenated(ops.drop_last()) + ops.last().text()
    }
}

impl PlainView {
    /// The text of a leaf: an identifier's name without any `r#`, `_` for the
    /// wildcard, the contents of a string literal.
    pub open spec fn text(self) -> Seq<char> {
        match self {
            PlainView::Ident(spelling) => without_raw_marker(spelling),
            PlainView::Underscore => seq!['_'],
            PlainView::LitStr(contents) => contents,
        }
    }
}

impl Transform {
    /// The transform of a whole text.
    pub open spec fn applied(self, text: Seq<char>) -> Seq<char> {
        match self {
            Transform::Hash => decimal(hash_of(text) as nat),
            Transform::Lower => lower_case(text),
            Transform::Upper => upper_case(text),
            Transform::Snake => case_converted(text, WordCase::Snake),
            Transform::Pascal => case_converted(text, WordCase::Pascal),
            Transform::ScreamingSnake => case_converted(text, WordCase::ScreamingSnake),
        }
    }

    /// Applies the transform to a whole text.
    pub fn apply(self, text: &str) -> (out: String)
        ensures
            out@ == self.applied(text@),
    {
        match self {
            Transform::Hash => to_decimal(hash_text(text)),
            Transform::Lower => to_lower_case(text),
            Transform::Upper => to_upper_case(text),
            Transform::Snake => convert_case(text, WordCase::Snake),
            Transform::Pascal => convert_case(text, WordCase::Pascal),
            Transform::ScreamingSnake => convert_case(text, WordCase::ScreamingSnake),
        }
    }
}

impl Plain {
    /// The text of the leaf.
    pub fn evaluate(&self) -> (text: String)
        ensures
            text@ == self@.text(),
    {
        match self {
            Plain::Ident(spelling) => ident_no_prefix(spelling.as_str()),
            Plain::Underscore => {
                proof {
                    reveal_strlit("_");
                }
                assert("_"@ =~= seq!['_']);
                "_".to_owned()
            },
            Plain::LitStr(contents) => contents.clone(),
        }
    }
}

impl Operation {
    /// Evaluates the expression: a leaf gives its text; a node concatenates
    /// the texts of its children, left to right, and transforms the result as
    /// a whole.
    pub fn evaluate(&self) -> (text: String)
        ensures
            text@ == self@.text(),
        decreases self,
    {
        match self {
            Operation::Plain(plain) => plain.evaluate(),
            Operation::Apply(kind, children) => {
                proof {
                    lemma_apply_view(*kind, *children);
                }
                let joined = evaluate_all(children);
                kind.apply(joined.as_str())
            },
        }
    }
}

/// Evaluates a list of expressions and concatenates their texts.
pub fn evaluate_all(ops: &Vec<Operation>) -> (text: String)
    ensures
        text@ == concatenated(ops.deep_view()),
    decreases ops,
{
    let mut text = String::new();
    let mut i: usize = 0;
    while i < ops.len()
        invariant
            i <= ops.len(),
            text@ == concatenated(ops.deep_view().take(i as int)),
        decreases ops.len() - i,
    {
        let piece = ops[i].evaluate();
        proof {
            let upto = ops.deep_view().take(i + 1);
            assert(upto.drop_last() =~= ops.deep_view().take(i as int));
            assert(upto.last() == ops[i as int]@);
        }
        text.append(piece.as_str());
        i += 1;
    }
    assert(ops.deep_view().take(ops.len() as int) =~= ops.deep_view());
    text
}

} // verus!
