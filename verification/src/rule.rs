//! Rules: what a flag expects after itself.

use vstd::prelude::*;

verus! {

/// How many value tokens a flag takes.
#[derive(Clone, Copy, Debug, PartialEq, Eq, Structural)]
pub enum RuleType {
    /// The flag must be followed by a value.
    HasArg,
    /// The flag never takes a value.
    NoArg,
    /// The flag takes a value when one follows it.
    Maybe,
}

/// The mathematical content of one registered rule.
pub struct RuleSpec {
    pub rule_type: RuleType,
    pub default_value: Option<Seq<char>>,
}

impl RuleSpec {
    /// A rule that requires a value carries no default.
    pub open spec fn well_formed(self) -> bool {
        self.rule_type is HasArg ==> self.default_value is None
    }
}

} // verus!
