//! The rule registry and the parser that reads an argument vector against it.

use vstd::prelude::*;
use vstd::hash_map::StringHashMap;
use crate::grammar::{parse_from, parse_outcome, Found, Rules};
use crate::matches::{text_view, Matches};
use crate::message::{
    DEFAULT_MEANINGLESS,
    EXPECTED_FLAG,
    NOTHING_TO_PARSE,
    RULE_ADDED,
    UNRECOGNIZED,
    VALUE_LOOKS_LIKE_FLAG,
    VALUE_MISSING_AT_END,
};
use crate::rule::{RuleSpec, RuleType};
use crate::token::{flag_key, starts_flag, token_views};

verus! {

/// One registered rule. The default borrows from the caller's string.
#[derive(Clone, Copy)]
struct Rule<'b> {
    rule_type: RuleType,
    /// Kept with the rule; no lookup shows it.
    #[allow(dead_code)]
    default_value: Option<&'b str>,
}

impl<'b> View for Rule<'b> {
    type V = RuleSpec;

    closed spec fn view(&self) -> RuleSpec {
        RuleSpec { rule_type: self.rule_type, default_value: text_view(self.default_value) }
    }
}

/// Every rule that requires a value is without a default.
pub open spec fn rules_well_formed(rules: Rules) -> bool {
    forall|name: Seq<char>| rules.contains_key(name) ==> (#[trigger] rules[name]).well_formed()
}

/// The characters of what [`CliParser::parse`] returns.
pub open spec fn outcome_view(outcome: Result<Matches, &str>) -> Result<Found, Seq<char>> {
    match outcome {
        Ok(found) => Ok(found@),
        Err(reason) => Err(reason@),
    }
}

/// The registry of rules, one for each recognised flag name.
pub struct CliParser<'b> {
    rules: StringHashMap<Rule<'b>>,
}

impl<'b> View for CliParser<'b> {
    type V = Rules;

    closed spec fn view(&self) -> Rules {
        self.rules@.map_values(|rule: Rule<'b>| rule@)
    }
}

impl<'b> CliParser<'b> {
    /// Held by every registry: no rule that requires a value has a default.
    #[verifier::type_invariant]
    spec fn well_formed(self) -> bool {
        rules_well_formed(self@)
    }

    /// A registry without rules.
    pub fn new() -> (parser: Self)
        ensures
            parser@ == Map::<Seq<char>, RuleSpec>::empty(),
            rules_well_formed(parser@),
    {
        let parser = CliParser { rules: StringHashMap::new() };
        assert(parser@ =~= Map::<Seq<char>, RuleSpec>::empty());
        parser
    }

    /// Registers `name` as a flag that takes no value, or that may take one,
    /// together with a default. A rule registered before under the same name
    /// is replaced.
    ///
    /// A flag that requires a value can have no default: for that arity the
    /// call fails, and the registry stays as it was.
    pub fn add_rule_with_default(
        &mut self,
        name: &str,
        rule_type: RuleType,
        default_value: &'b str,
    ) -> (added: Result<(), &'static str>)
        ensures
            rules_well_formed(final(self)@),
            rule_type is HasArg ==> final(self)@ == old(self)@ && (added matches Err(reason)
                && reason@ == DEFAULT_MEANINGLESS@),
            rule_type !is HasArg ==> added is Ok && final(self)@ == old(self)@.insert(
                name@,
                RuleSpec { rule_type, default_value: Some(default_value@) },
            ),
    {
        proof {
            use_type_invariant(&*self);
        }
        match rule_type {
            RuleType::Maybe => {
                self.insert_rule(
                    name,
                    Rule { rule_type: RuleType::Maybe, default_value: Some(default_value) },
                );
                Ok(())
            },
            RuleType::NoArg => {
                self.insert_rule(
                    name,
                    Rule { rule_type: RuleType::NoArg, default_value: Some(default_value) },
                );
                Ok(())
            },
            RuleType::HasArg => Err(DEFAULT_MEANINGLESS),
        }
    }

    /// Registers `name` as a flag that requires a value. A rule registered
    /// before under the same name is replaced.
    pub fn add_rule(&mut self, name: &str) -> (added: Result<&'static str, ()>)
        ensures
            rules_well_formed(final(self)@),
            added matches Ok(note) && note@ == RULE_ADDED@,
            final(self)@ == old(self)@.insert(
                name@,
                RuleSpec { rule_type: RuleType::HasArg, default_value: None },
            ),
    {
        self.insert_rule(name, Rule { rule_type: RuleType::HasArg, default_value: None });
        Ok(RULE_ADDED)
    }

    /// Puts `rule` under `name`.
    fn insert_rule(&mut self, name: &str, rule: Rule<'b>)
        requires
            rule@.well_formed(),
        ensures
            final(self)@ == old(self)@.insert(name@, rule@),
            rules_well_formed(final(self)@),
    {
        proof {
            use_type_invariant(&*self);
        }
        let mut rules = StringHashMap::new();
        std::mem::swap(&mut rules, &mut self.rules);
        rules.insert(name.to_owned(), rule);
        proof {
            let after = rules@.map_values(|rule: Rule<'b>| rule@);
            assert(after =~= old(self)@.insert(name@, rule@));
            assert(rules_well_formed(after));
        }
        self.rules = rules;
        assert(self@ =~= old(self)@.insert(name@, rule@));
    }

    /// Parses an argument vector whose first entry is the program's name.
    ///
    /// Every further token is read as a flag, followed by its value where the
    /// flag's rule makes it take one. The parse yields the flags that
    /// occurred, the last occurrence of each name winning, or the reason of
    /// the first failure.
    pub fn parse<'t>(&self, arg_list: &'t Vec<String>) -> (outcome: Result<
        Matches<'t>,
        &'static str,
    >)
        ensures
            outcome_view(outcome) == parse_outcome(self@, token_views(arg_list@)),
            arg_list@.len() < 2 ==> outcome_view(outcome) == Err::<Found, Seq<char>>(
                NOTHING_TO_PARSE@,
            ),
    {
        if arg_list.len() < 2 {
            return Err(NOTHING_TO_PARSE);
        }
        let ghost tokens = token_views(arg_list@);
        let mut found = Matches::empty();
        let mut index: usize = 1;
        while index < arg_list.len()
            invariant
                1 <= index <= arg_list.len(),
                tokens == token_views(arg_list@),
                parse_from(self@, tokens, index as int, found@) == parse_outcome(self@, tokens),
            decreases arg_list.len() - index,
        {
            let name = match flag_key(arg_list[index].as_str()) {
                Some(name) => name,
                None => {
                    return Err(EXPECTED_FLAG);
                },
            };
            let rule = match self.rules.get(name) {
                Some(rule) => rule,
                None => {
                    return Err(UNRECOGNIZED);
                },
            };
            match rule.rule_type {
                RuleType::NoArg => {
                    found.record(name, None, RuleType::NoArg);
                },
                RuleType::HasArg => {
                    if index + 1 >= arg_list.len() {
                        return Err(VALUE_MISSING_AT_END);
                    }
                    let value = arg_list[index + 1].as_str();
                    if starts_flag(value) {
                        return Err(VALUE_LOOKS_LIKE_FLAG);
                    }
                    found.record(name, Some(value), RuleType::HasArg);
                    index += 1;
                },
                RuleType::Maybe => {
                    if index + 1 >= arg_list.len() || starts_flag(arg_list[index + 1].as_str()) {
                        found.record(name, None, RuleType::Maybe);
                    } else {
                        found.record(name, Some(arg_list[index + 1].as_str()), RuleType::Maybe);
                        index += 1;
                    }
                },
            }
            index += 1;
        }
        Ok(found)
    }
}

} // verus!
