//! The result of a parse: the flags that occurred, each with its value.

use vstd::prelude::*;
use vstd::hash_map::StringHashMap;
use crate::message::NOT_IN_MATCHES;
use crate::rule::RuleType;

verus! {

/// The mathematical content of one occurrence of a flag.
pub struct OptSpec {
    /// The token that was taken as the flag's value, if one was.
    pub argument: Option<Seq<char>>,
    /// The arity of the rule that the flag matched.
    pub rule_type: RuleType,
}

/// One occurrence of a flag. The value borrows from the argument vector.
#[derive(Clone, Copy)]
struct Opt<'a> {
    argument: Option<&'a str>,
    rule_type: RuleType,
}

impl<'a> View for Opt<'a> {
    type V = OptSpec;

    closed spec fn view(&self) -> OptSpec {
        OptSpec { argument: text_view(self.argument), rule_type: self.rule_type }
    }
}

/// The characters of a string that may be absent.
pub open spec fn text_view(text: Option<&str>) -> Option<Seq<char>> {
    match text {
        Some(text) => Some(text@),
        None => None,
    }
}

/// What asking for `name` yields on the occurrences `found`: a failure when
/// the flag did not occur, no value when its rule takes none, and otherwise
/// the value recorded with it, which may be absent.
pub open spec fn lookup(found: Map<Seq<char>, OptSpec>, name: Seq<char>) -> Result<
    Option<Seq<char>>,
    Seq<char>,
> {
    if !found.contains_key(name) {
        Err(NOT_IN_MATCHES@)
    } else if found[name].rule_type is NoArg {
        Ok(None)
    } else {
        Ok(found[name].argument)
    }
}

/// The characters of an answer of [`Matches::get_opt`].
pub open spec fn answer_view(answer: Result<Option<&str>, &str>) -> Result<
    Option<Seq<char>>,
    Seq<char>,
> {
    match answer {
        Ok(value) => Ok(text_view(value)),
        Err(reason) => Err(reason@),
    }
}

/// The flags found by one parse, keyed by name.
pub struct Matches<'a> {
    opts: StringHashMap<Opt<'a>>,
}

impl<'a> View for Matches<'a> {
    type V = Map<Seq<char>, OptSpec>;

    closed spec fn view(&self) -> Map<Seq<char>, OptSpec> {
        self.opts@.map_values(|opt: Opt<'a>| opt@)
    }
}

impl<'a> Matches<'a> {
    /// A result in which no flag occurs.
    pub(crate) fn empty() -> (found: Self)
        ensures
            found@ == Map::<Seq<char>, OptSpec>::empty(),
    {
        let found = Matches { opts: StringHashMap::new() };
        assert(found@ =~= Map::<Seq<char>, OptSpec>::empty());
        found
    }

    /// Records an occurrence of the flag `name`, replacing an earlier one.
    pub(crate) fn record(&mut self, name: &str, argument: Option<&'a str>, rule_type: RuleType)
        ensures
            final(self)@ == old(self)@.insert(
                name@,
                OptSpec { argument: text_view(argument), rule_type },
            ),
    {
        let opt = Opt { argument, rule_type };
        self.opts.insert(name.to_owned(), opt);
        assert(self@ =~= old(self)@.insert(name@, opt@));
    }

    /// Looks up the flag `opt_str`.
    ///
    /// Fails when the flag did not occur. A flag whose rule takes no value
    /// yields `None` whatever was recorded with it; any other flag yields the
    /// value that followed it, or `None` where none did.
    pub fn get_opt(&self, opt_str: &str) -> (answer: Result<Option<&'a str>, &'static str>)
        ensures
            answer_view(answer) == lookup(self@, opt_str@),
    {
        match self.opts.get(opt_str) {
            Some(target_opt) => match target_opt.rule_type {
                RuleType::NoArg => Ok(None),
                _ => Ok(target_opt.argument),
            },
            None => Err(NOT_IN_MATCHES),
        }
    }
}

} // verus!
