//! An identifier-synthesis engine.
//!
//! An invocation is a token tree of the form
//!
//! ```text
//! name = expr & name = expr ... => template
//! ```
//!
//! Every binding's expression is evaluated to a text, the text is made into
//! a fresh identifier, and every placeholder `$name` in the template gives
//! way to the identifier of the binding `name`. An expression concatenates
//! fragments (identifiers, `_`, string literals) and transforms of
//! expressions: `:hash(..)`, `:lower_case(..)`, `:upper_case(..)`,
//! `:snake_case(..)`, `:pascal_case(..)` and `:upper_snake_case(..)`.
//!
//! The engine works on token trees that hold plain values: whoever makes the
//! tokens says how each is spelled and what a string literal decodes to.
//! The bindings are read through groups without written brackets, such as
//! stand around a fragment that another macro passed on; the template keeps
//! such groups.
//!
//! [`mash`] runs the whole engine on a token tree. Its parts can be used on
//! their own: [`Arguments::parse`] reads an invocation,
//! [`Operation::evaluate`] evaluates an expression, [`ident::synthesize`]
//! makes an identifier and [`substitute::ident_replace`] rewrites a token
//! tree for one binding.
//!
//! Every function comes with a contract that says exactly what it returns,
//! over the values of its arguments; the module [`laws`] holds what follows
//! from the contracts for the engine as a whole. What is taken on trust from
//! other crates stands in [`trusted`].

use vstd::prelude::*;

pub mod error;
pub mod grammar;
pub mod hashing;
pub mod ident;
pub mod laws;
pub mod opened;
pub mod operation;
pub mod parse;
pub mod substitute;
pub mod text;
pub mod token;
pub mod trusted;

pub use crate::error::{Expected, MashError};
pub use crate::grammar::{Arguments, MetaVar};
pub use crate::operation::{Operation, Plain, Transform};
pub use crate::token::{Delimiter, Spacing, Token};

use crate::error::{outcome, MashErrorView};
use crate::grammar::{parsed, ArgumentsView, MetaVarView};
use crate::ident::{is_identifier_body, synthesize};
use crate::operation::evaluate_all;
use crate::substitute::{ident_replace, substituted};
use crate::text::{ident_no_prefix, raw_spelling};
use crate::token::TokenView;

verus! {

/// A token tree with one binding applied to it: every placeholder of the
/// binding gives way to the raw identifier that the binding's text names.
pub open spec fn applied(var: MetaVarView, tt: Seq<TokenView>) -> Seq<TokenView> {
    substituted(tt, var.bound_name(), TokenView::Ident(raw_spelling(var.text())))
}

/// The template after the bindings from index `k` on were applied to it, in
/// order, or the error for the first of them whose text cannot name an
/// identifier.
pub open spec fn expanded_from(vars: Seq<MetaVarView>, k: int, tt: Seq<TokenView>) -> Result<
    Seq<TokenView>,
    MashErrorView,
>
    decreases vars.len() - k,
{
    if k < 0 || k >= vars.len() {
        Ok(tt)
    } else {
        let var = vars[k];
        if is_identifier_body(var.text()) {
            expanded_from(vars, k + 1, applied(var, tt))
        } else {
            Err(var.names_no_identifier())
        }
    }
}

/// The template of an invocation with all its bindings applied.
pub open spec fn expanded(arguments: ArgumentsView) -> Result<Seq<TokenView>, MashErrorView> {
    expanded_from(arguments.vars, 0, arguments.tt)
}

/// What an invocation evaluates to: the first error found while it is read,
/// or else the outcome of applying its bindings to its template.
pub open spec fn mashed(tokens: Seq<TokenView>) -> Result<Seq<TokenView>, MashErrorView> {
    match parsed(tokens) {
        Err(e) => Err(e),
        Ok(arguments) => expanded(arguments),
    }
}

impl Arguments {
    /// Applies the bindings to the template, one after the other in the
    /// order they were declared. A binding's terms are evaluated and
    /// concatenated, the text is made into a raw identifier, and every
    /// placeholder of the binding gives way to it. A binding without a
    /// placeholder in the template changes nothing. The first binding whose
    /// text cannot name an identifier ends the expansion with an error at
    /// that binding's name.
    pub fn expand(self) -> (result: Result<Vec<Token>, MashError>)
        ensures
            outcome(result) == expanded(self@),
    {
        let ghost vars = self.vars.deep_view();
        let mut result = self.tt;
        let mut k: usize = 0;
        while k < self.vars.len()
            invariant
                k <= self.vars.len(),
                vars == self.vars.deep_view(),
                expanded(self@) == expanded_from(vars, k as int, result.deep_view()),
            decreases self.vars.len() - k,
        {
            let var = &self.vars[k];
            let processed = evaluate_all(&var.ops);
            match synthesize(processed.as_str()) {
                None => {
                    let name = ident_no_prefix(var.name.as_str());
                    return Err(
                        MashError::InvalidIdentifier {
                            at: var.at.clone(),
                            name,
                            text: processed,
                        },
                    );
                },
                Some(ident) => {
                    result = ident_replace(&result, var.name.as_str(), &ident);
                },
            }
            k += 1;
        }
        Ok(result)
    }
}

/// Evaluates an invocation.
///
/// The tokens are read as bindings, `=>` and a template. Each binding is
/// evaluated to a text and the text made into an identifier; the result is
/// the template with every placeholder `$name` replaced by the identifier of
/// the binding `name`. An invocation is rejected, with no output, by the
/// first error found: an error of the grammar, an unknown transform, a name
/// bound twice, or a text that cannot name an identifier, in that order of
/// precedence. The outcome depends on the tokens alone.
pub fn mash(input: Vec<Token>) -> (result: Result<Vec<Token>, MashError>)
    ensures
        outcome(result) == mashed(input.deep_view()),
{
    match Arguments::parse(input) {
        Err(e) => Err(e),
        Ok(arguments) => arguments.expand(),
    }
}

} // verus!
