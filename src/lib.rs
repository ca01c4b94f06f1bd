//! Drives an argumentation solver through a script of framework modifications: the answers of
//! the solver are read, checked against their grammar and printed, one per modification.
//!
//! The library holds the argumentation frameworks, the grammar of the solvers' answers, the
//! queries of the dynamic track and the decisions of the exchange with a solver.
use vstd::prelude::*;

pub mod text;
pub mod lines;
pub mod arguments;
pub mod framework;
pub mod aspartix;
pub mod grammar;
pub mod solutions;
pub mod query;
pub mod dynamics;
pub mod round_trip;

pub use crate::arguments::{Argument, ArgumentError, ArgumentSet};
pub use crate::aspartix::AspartixWriter;
pub use crate::framework::{format_attack, AAFramework, Attack};
pub use crate::grammar::{AnswerKind, SolutionError};
pub use crate::lines::LineReader;
pub use crate::query::{QueryError, QueryType};

verus! {

} // verus!
