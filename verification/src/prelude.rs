//! The items that most users of the library need, in one import.

pub use crate::antecedent::{eval_antecedent, eval_antecedent_with, Antecedent, Inputs, Variables};
pub use crate::error::FuzzyError;
pub use crate::fixed::{Fixed, ONE};
pub use crate::mamdani::{Consequent, Rule, SampleMap};
pub use crate::membership::{Gaussian, MembershipFn, MembershipShape, Trapezoidal, Triangular};
pub use crate::ops::{FuzzyOps, Ops};
pub use crate::rulespace::RuleSpace;
pub use crate::sampler::UniformSampler;
pub use crate::table::Table;
pub use crate::term::Term;
pub use crate::variable::Variable;
