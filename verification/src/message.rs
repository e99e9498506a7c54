//! The fixed messages in which the library states its outcomes.

use vstd::prelude::*;

verus! {

/// The argument vector holds nothing after the program name.
pub const NOTHING_TO_PARSE: &'static str = "No opt to parse!";

/// A token stands where a flag is expected and does not start with the prefix.
pub const EXPECTED_FLAG: &'static str = "The input contains no flag";

/// A flag names no registered rule.
pub const UNRECOGNIZED: &'static str = "Cannot recognize rule";

/// A flag that requires a value is the last token.
pub const VALUE_MISSING_AT_END: &'static str = "Need argument: Index out of bound";

/// A flag that requires a value is followed by another flag.
pub const VALUE_LOOKS_LIKE_FLAG: &'static str = "Need argument!";

/// The flag asked for did not occur in the parsed arguments.
pub const NOT_IN_MATCHES: &'static str = "No argument found";

/// A default was offered for a rule that requires a value.
pub const DEFAULT_MEANINGLESS: &'static str = "Default value is meaningless!";

/// A rule was registered.
pub const RULE_ADDED: &'static str = "Rule added";

/// The five messages of a failed parse are pairwise different, so a caller
/// can tell from the message which failure occurred.
pub proof fn law_parse_messages_differ()
    ensures
        NOTHING_TO_PARSE@ != EXPECTED_FLAG@,
        NOTHING_TO_PARSE@ != UNRECOGNIZED@,
        NOTHING_TO_PARSE@ != VALUE_MISSING_AT_END@,
        NOTHING_TO_PARSE@ != VALUE_LOOKS_LIKE_FLAG@,
        EXPECTED_FLAG@ != UNRECOGNIZED@,
        EXPECTED_FLAG@ != VALUE_MISSING_AT_END@,
        EXPECTED_FLAG@ != VALUE_LOOKS_LIKE_FLAG@,
        UNRECOGNIZED@ != VALUE_MISSING_AT_END@,
        UNRECOGNIZED@ != VALUE_LOOKS_LIKE_FLAG@,
        VALUE_MISSING_AT_END@ != VALUE_LOOKS_LIKE_FLAG@,
{
    reveal_strlit("No opt to parse!");
    reveal_strlit("The input contains no flag");
    reveal_strlit("Cannot recognize rule");
    reveal_strlit("Need argument: Index out of bound");
    reveal_strlit("Need argument!");
    assert(NOTHING_TO_PARSE@.len() == 16);
    assert(EXPECTED_FLAG@.len() == 26);
    assert(UNRECOGNIZED@.len() == 21);
    assert(VALUE_MISSING_AT_END@.len() == 33);
    assert(VALUE_LOOKS_LIKE_FLAG@.len() == 14);
}

} // verus!
