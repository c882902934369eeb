//! What holds of the engine as a whole: laws that relate its functions, each
//! stated over the same spec functions that the contracts use.

pub mod evaluation;
pub mod independence;
pub mod places;
pub mod reading;
pub mod rejection;
pub mod substitution;
