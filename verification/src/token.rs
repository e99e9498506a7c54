//! Tokens of an argument vector: which ones are flags, and what they name.

use vstd::prelude::*;
use vstd::string::StrSliceExecFns;

verus! {

/// The character that opens every flag.
pub const FLAG_PREFIX: char = '+';

/// A token is a flag when its first character is the prefix.
pub open spec fn is_flag(token: Seq<char>) -> bool {
    token.len() > 0 && token[0] == FLAG_PREFIX
}

/// The name of a flag: the token without its first character.
pub open spec fn flag_name(token: Seq<char>) -> Seq<char> {
    token.subrange(1, token.len() as int)
}

/// The characters of each token of an argument vector.
pub open spec fn token_views(args: Seq<String>) -> Seq<Seq<char>> {
    Seq::new(args.len(), |i: int| args[i]@)
}

/// Tells whether a token is a flag.
pub(crate) fn starts_flag(token: &str) -> (flag: bool)
    ensures
        flag == is_flag(token@),
{
    !token.is_empty() && token.get_char(0) == FLAG_PREFIX
}

/// Reads a token as a flag: its name if it is one, `None` otherwise.
pub(crate) fn flag_key<'t>(token: &'t str) -> (key: Option<&'t str>)
    ensures
        match key {
            Some(name) => is_flag(token@) && name@ == flag_name(token@),
            None => !is_flag(token@),
        },
{
    if starts_flag(token) {
        Some(token.substring_char(1, token.unicode_len()))
    } else {
        None
    }
}

} // verus!
