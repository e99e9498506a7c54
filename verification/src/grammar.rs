//! What parsing means: the walk of a cursor over the tokens, stated over
//! sequences of characters.

use vstd::prelude::*;
use crate::matches::OptSpec;
use crate::message::{
    EXPECTED_FLAG,
    NOTHING_TO_PARSE,
    UNRECOGNIZED,
    VALUE_LOOKS_LIKE_FLAG,
    VALUE_MISSING_AT_END,
};
use crate::rule::{RuleSpec, RuleType};
use crate::token::{flag_name, is_flag};

verus! {

/// The registered rules, keyed by flag name.
pub type Rules = Map<Seq<char>, RuleSpec>;

/// The flags that occurred, keyed by flag name.
pub type Found = Map<Seq<char>, OptSpec>;

/// What reading one flag yields.
pub struct Step {
    /// The name of the flag.
    pub name: Seq<char>,
    /// The occurrence to record under that name.
    pub opt: OptSpec,
    /// Where the cursor stands afterwards.
    pub next: int,
}

/// The token after position `at` exists and is no flag, so it can serve as
/// the value of the flag at `at`.
pub open spec fn value_follows(tokens: Seq<Seq<char>>, at: int) -> bool {
    at + 1 < tokens.len() && !is_flag(tokens[at + 1])
}

/// Reads the token at `at` as a flag, together with the value that its rule
/// makes it take.
///
/// A flag that takes no value leaves the next token alone. A flag that
/// requires one takes the next token, and fails where there is none or where
/// it is a flag. A flag that may take one takes the next token where that
/// can serve as a value.
pub open spec fn step_at(rules: Rules, tokens: Seq<Seq<char>>, at: int) -> Result<Step, Seq<char>>
    recommends
        0 <= at < tokens.len(),
{
    let name = flag_name(tokens[at]);
    if !is_flag(tokens[at]) {
        Err(EXPECTED_FLAG@)
    } else if !rules.contains_key(name) {
        Err(UNRECOGNIZED@)
    } else {
        let rule_type = rules[name].rule_type;
        let bare = Step { name, opt: OptSpec { argument: None, rule_type }, next: at + 1 };
        let valued = Step {
            name,
            opt: OptSpec { argument: Some(tokens[at + 1]), rule_type },
            next: at + 2,
        };
        match rule_type {
            RuleType::NoArg => Ok(bare),
            RuleType::HasArg => if value_follows(tokens, at) {
                Ok(valued)
            } else if at + 1 >= tokens.len() {
                Err(VALUE_MISSING_AT_END@)
            } else {
                Err(VALUE_LOOKS_LIKE_FLAG@)
            },
            RuleType::Maybe => if value_follows(tokens, at) {
                Ok(valued)
            } else {
                Ok(bare)
            },
        }
    }
}

/// Parses the tokens from position `at` on, after the flags in `seen` have
/// been read: each flag read replaces an earlier occurrence of its name, and
/// the first failure ends the parse.
pub open spec fn parse_from(rules: Rules, tokens: Seq<Seq<char>>, at: int, seen: Found) -> Result<
    Found,
    Seq<char>,
>
    decreases tokens.len() - at,
{
    if at >= tokens.len() {
        Ok(seen)
    } else {
        match step_at(rules, tokens, at) {
            Ok(step) => parse_from(rules, tokens, step.next, seen.insert(step.name, step.opt)),
            Err(reason) => Err(reason),
        }
    }
}

/// The outcome of parsing a whole argument vector, whose first token is the
/// program's name and is skipped.
pub open spec fn parse_outcome(rules: Rules, tokens: Seq<Seq<char>>) -> Result<Found, Seq<char>> {
    if tokens.len() < 2 {
        Err(NOTHING_TO_PARSE@)
    } else {
        parse_from(rules, tokens, 1, Map::empty())
    }
}

/// The cursor, standing at `from`, comes to stand at `to` as it reads flag
/// after flag. It stops at the end of the tokens and at the first failure.
pub open spec fn cursor_reaches(rules: Rules, tokens: Seq<Seq<char>>, from: int, to: int) -> bool
    decreases to - from,
{
    if from >= to {
        from == to
    } else if from >= tokens.len() {
        false
    } else {
        match step_at(rules, tokens, from) {
            Ok(step) => step.next <= to && cursor_reaches(rules, tokens, step.next, to),
            Err(_) => false,
        }
    }
}

/// The token at `at` is read as a flag when the whole vector is parsed.
pub open spec fn flag_position(rules: Rules, tokens: Seq<Seq<char>>, at: int) -> bool {
    1 <= at < tokens.len() && cursor_reaches(rules, tokens, 1, at)
}

/// The token at `at` is read as a flag, and it is a flag whose rule is
/// registered with the arity `rule_type`.
pub open spec fn flag_read_as(
    rules: Rules,
    tokens: Seq<Seq<char>>,
    at: int,
    rule_type: RuleType,
) -> bool {
    &&& flag_position(rules, tokens, at)
    &&& is_flag(tokens[at])
    &&& rules.contains_key(flag_name(tokens[at]))
    &&& rules[flag_name(tokens[at])].rule_type == rule_type
}

/// The flag read at `at` is not read again further on.
pub open spec fn last_occurrence(rules: Rules, tokens: Seq<Seq<char>>, at: int) -> bool {
    forall|later: int|
        at < later && #[trigger] flag_position(rules, tokens, later) ==> flag_name(tokens[later])
            != flag_name(tokens[at])
}

/// Each occurrence belongs to a registered rule and has that rule's arity;
/// it holds a value where the rule requires one and none where it takes none.
pub open spec fn found_follows_rules(rules: Rules, found: Found) -> bool {
    forall|name: Seq<char>| #[trigger]
        found.contains_key(name) ==> {
            &&& rules.contains_key(name)
            &&& found[name].rule_type == rules[name].rule_type
            &&& found[name].rule_type is NoArg ==> found[name].argument is None
            &&& found[name].rule_type is HasArg ==> found[name].argument is Some
        }
}

} // verus!
