//! Mamdani-style fuzzy inference over fixed-point numbers.
//!
//! Crisp values and membership degrees are [`Fixed`] numbers: signed integers
//! counted in units of one billionth, so that the degree `1` is the integer
//! [`ONE`]. Every operation is exact integer arithmetic with a stated rounding,
//! which lets each function carry a contract that pins its result down.
//!
//! The stages, leaf to root: membership shapes and operator families,
//! the uniform sampler, terms and variables, antecedent trees, rules with
//! their activation and implication, aggregation by pointwise maximum, and
//! centroid defuzzification, tied together by [`rulespace::RuleSpace`].

pub mod aggregate;
pub mod antecedent;
pub mod defuzz;
pub mod error;
pub mod fixed;
pub mod mamdani;
pub mod membership;
pub mod ops;
pub mod parser;
pub mod prelude;
pub mod rulespace;
pub mod sampler;
pub mod table;
pub mod term;
pub mod text;
pub mod variable;

pub use fixed::{Fixed, ONE};
