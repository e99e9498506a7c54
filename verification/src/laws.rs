//! What holds of every parse, proved from the definitions of the grammar.

use vstd::prelude::*;
use crate::grammar::{
    cursor_reaches,
    flag_position,
    flag_read_as,
    found_follows_rules,
    last_occurrence,
    parse_from,
    parse_outcome,
    step_at,
    value_follows,
    Found,
    Rules,
    Step,
};
use crate::matches::{answer_view, lookup, Matches, OptSpec};
use crate::rule::RuleType;
use crate::token::{flag_name, is_flag};

verus! {

/// A flag that requires a value and is followed by one takes it: its
/// occurrence holds the following token, the cursor goes on two tokens
/// further, and the token after the flag is not read as a flag.
pub proof fn law_required_value_is_taken(rules: Rules, tokens: Seq<Seq<char>>, at: int)
    requires
        flag_read_as(rules, tokens, at, RuleType::HasArg),
        value_follows(tokens, at),
    ensures
        step_at(rules, tokens, at) == Ok::<Step, Seq<char>>(
            Step {
                name: flag_name(tokens[at]),
                opt: OptSpec { argument: Some(tokens[at + 1]), rule_type: RuleType::HasArg },
                next: at + 2,
            },
        ),
        cursor_reaches(rules, tokens, 1, at + 2),
        !flag_position(rules, tokens, at + 1),
{
    lemma_cursor_goes_on(rules, tokens, 1, at);
    if flag_position(rules, tokens, at + 1) {
        lemma_cursor_line(rules, tokens, 1, at, at + 1);
    }
}

/// After a successful parse a flag that requires a value is found with the
/// token that followed it where it was read last.
pub proof fn law_required_value_is_found(
    rules: Rules,
    tokens: Seq<Seq<char>>,
    found: Found,
    at: int,
)
    requires
        parse_outcome(rules, tokens) == Ok::<Found, Seq<char>>(found),
        flag_read_as(rules, tokens, at, RuleType::HasArg),
        value_follows(tokens, at),
        last_occurrence(rules, tokens, at),
    ensures
        found.contains_key(flag_name(tokens[at])),
        found[flag_name(tokens[at])] == (OptSpec {
            argument: Some(tokens[at + 1]),
            rule_type: RuleType::HasArg,
        }),
        lookup(found, flag_name(tokens[at])) == Ok::<Option<Seq<char>>, Seq<char>>(
            Some(tokens[at + 1]),
        ),
{
    law_last_occurrence_is_found(rules, tokens, found, at);
}

/// A flag that takes no value leaves the next token alone, whatever it is:
/// its occurrence holds no value, and the cursor goes on to the very next
/// token, which is read as a flag in its turn.
pub proof fn law_no_value_leaves_next_token(rules: Rules, tokens: Seq<Seq<char>>, at: int)
    requires
        flag_read_as(rules, tokens, at, RuleType::NoArg),
    ensures
        step_at(rules, tokens, at) == Ok::<Step, Seq<char>>(
            Step {
                name: flag_name(tokens[at]),
                opt: OptSpec { argument: None, rule_type: RuleType::NoArg },
                next: at + 1,
            },
        ),
        cursor_reaches(rules, tokens, 1, at + 1),
{
    lemma_cursor_goes_on(rules, tokens, 1, at);
}

/// After a successful parse asking for a flag that takes no value yields no
/// value, whatever stood next to the flag and however often it was read.
pub proof fn law_no_value_is_found(rules: Rules, tokens: Seq<Seq<char>>, found: Found, at: int)
    requires
        parse_outcome(rules, tokens) == Ok::<Found, Seq<char>>(found),
        flag_read_as(rules, tokens, at, RuleType::NoArg),
    ensures
        found.contains_key(flag_name(tokens[at])),
        lookup(found, flag_name(tokens[at])) == Ok::<Option<Seq<char>>, Seq<char>>(None),
{
    lemma_read_flags_are_found(rules, tokens, 1, Map::empty(), at);
    law_found_follows_rules(rules, tokens, found);
}

/// After a successful parse a flag that may take a value, where it was read
/// last, is found without a value if it ended the tokens or stood before
/// another flag, and with the following token otherwise.
pub proof fn law_optional_value(rules: Rules, tokens: Seq<Seq<char>>, found: Found, at: int)
    requires
        parse_outcome(rules, tokens) == Ok::<Found, Seq<char>>(found),
        flag_read_as(rules, tokens, at, RuleType::Maybe),
        last_occurrence(rules, tokens, at),
    ensures
        found.contains_key(flag_name(tokens[at])),
        at + 1 == tokens.len() || is_flag(tokens[at + 1]) ==> lookup(
            found,
            flag_name(tokens[at]),
        ) == Ok::<Option<Seq<char>>, Seq<char>>(None),
        at + 1 < tokens.len() && !is_flag(tokens[at + 1]) ==> lookup(
            found,
            flag_name(tokens[at]),
        ) == Ok::<Option<Seq<char>>, Seq<char>>(Some(tokens[at + 1])),
{
    law_last_occurrence_is_found(rules, tokens, found, at);
}

/// After a successful parse, what is found under the name of a flag is what
/// the flag's step yielded where the flag was read last.
pub proof fn law_last_occurrence_is_found(
    rules: Rules,
    tokens: Seq<Seq<char>>,
    found: Found,
    at: int,
)
    requires
        parse_outcome(rules, tokens) == Ok::<Found, Seq<char>>(found),
        flag_position(rules, tokens, at),
        last_occurrence(rules, tokens, at),
    ensures
        step_at(rules, tokens, at) is Ok,
        found.contains_key(flag_name(tokens[at])),
        found[flag_name(tokens[at])] == step_at(rules, tokens, at)->Ok_0.opt,
{
    assert forall|later: int|
        at < later < tokens.len() && #[trigger] cursor_reaches(
            rules,
            tokens,
            1,
            later,
        ) implies flag_name(tokens[later]) != flag_name(tokens[at]) by {
        assert(flag_position(rules, tokens, later));
    }
    lemma_last_reading_decides(rules, tokens, 1, Map::empty(), at);
}

/// After a successful parse the names found are those of the flags that were
/// read, so asking fails for exactly the flags that were not given.
pub proof fn law_found_names_were_given(
    rules: Rules,
    tokens: Seq<Seq<char>>,
    found: Found,
    name: Seq<char>,
)
    requires
        parse_outcome(rules, tokens) == Ok::<Found, Seq<char>>(found),
    ensures
        found.contains_key(name) <==> exists|at: int| #[trigger]
            flag_position(rules, tokens, at) && flag_name(tokens[at]) == name,
        lookup(found, name) is Err <==> !found.contains_key(name),
{
    if found.contains_key(name) {
        lemma_found_flags_were_read(rules, tokens, 1, Map::empty(), name);
        let at: int = choose|at: int|
            1 <= at < tokens.len() && #[trigger] cursor_reaches(rules, tokens, 1, at) && flag_name(
                tokens[at],
            ) == name;
        assert(flag_position(rules, tokens, at));
    }
    if exists|at: int| #[trigger]
        flag_position(rules, tokens, at) && flag_name(tokens[at]) == name {
        let at: int = choose|at: int| #[trigger]
            flag_position(rules, tokens, at) && flag_name(tokens[at]) == name;
        lemma_read_flags_are_found(rules, tokens, 1, Map::empty(), at);
    }
}

/// After a successful parse every occurrence found belongs to a registered
/// rule and has its arity, with a value where the rule requires one and
/// without one where the rule takes none.
pub proof fn law_found_follows_rules(rules: Rules, tokens: Seq<Seq<char>>, found: Found)
    requires
        parse_outcome(rules, tokens) == Ok::<Found, Seq<char>>(found),
    ensures
        found_follows_rules(rules, found),
{
    lemma_parse_keeps_rules(rules, tokens, 1, Map::empty());
}

/// The parse succeeds exactly when there is a token after the program's name
/// and the step of every flag that the cursor reaches succeeds. Where a step
/// fails, the parse fails for that step's reason; and a parse of two tokens
/// or more fails for no other reason than that of such a step.
pub proof fn law_parse_fails_at_first_failure(rules: Rules, tokens: Seq<Seq<char>>)
    ensures
        parse_outcome(rules, tokens) is Ok <==> tokens.len() >= 2 && forall|at: int| #[trigger]
            flag_position(rules, tokens, at) ==> step_at(rules, tokens, at) is Ok,
        forall|at: int| #[trigger]
            flag_position(rules, tokens, at) && step_at(rules, tokens, at) is Err
                ==> parse_outcome(rules, tokens) == Err::<Found, Seq<char>>(
                step_at(rules, tokens, at)->Err_0,
            ),
        tokens.len() >= 2 && parse_outcome(rules, tokens) is Err ==> exists|at: int| #[trigger]
            flag_position(rules, tokens, at) && step_at(rules, tokens, at) == Err::<
                Step,
                Seq<char>,
            >(parse_outcome(rules, tokens)->Err_0),
{
    assert forall|at: int| #[trigger]
        flag_position(rules, tokens, at) && step_at(
            rules,
            tokens,
            at,
        ) is Err implies parse_outcome(rules, tokens) == Err::<Found, Seq<char>>(
        step_at(rules, tokens, at)->Err_0,
    ) by {
        lemma_failing_step_fails_parse(rules, tokens, 1, Map::empty(), at);
    }
    if tokens.len() >= 2 && parse_outcome(rules, tokens) is Err {
        lemma_failed_parse_has_failing_step(rules, tokens, 1, Map::empty());
        let at: int = choose|at: int|
            1 <= at < tokens.len() && #[trigger] cursor_reaches(rules, tokens, 1, at) && step_at(
                rules,
                tokens,
                at,
            ) == Err::<Step, Seq<char>>(parse_from(rules, tokens, 1, Map::empty())->Err_0);
        assert(flag_position(rules, tokens, at));
    }
}

/// Asking does not change what is found: any two answers of
/// [`Matches::get_opt`] for one name on one result are the same.
pub proof fn law_get_opt_repeatable(
    found: Matches,
    opt_str: &str,
    first: Result<Option<&str>, &str>,
    second: Result<Option<&str>, &str>,
)
    requires
        answer_view(first) == lookup(found@, opt_str@),
        answer_view(second) == lookup(found@, opt_str@),
    ensures
        answer_view(first) == answer_view(second),
{
}

/// Two positions on the cursor's way lie on one line: from the nearer one
/// the cursor goes on to the farther one.
proof fn lemma_cursor_line(rules: Rules, tokens: Seq<Seq<char>>, from: int, near: int, far: int)
    requires
        from <= near <= far,
        cursor_reaches(rules, tokens, from, near),
        cursor_reaches(rules, tokens, from, far),
    ensures
        cursor_reaches(rules, tokens, near, far),
    decreases near - from,
{
    if from < near {
        let step = step_at(rules, tokens, from)->Ok_0;
        lemma_cursor_line(rules, tokens, step.next, near, far);
    }
}

/// The cursor goes on from a flag that it reaches to where that flag's step
/// leaves it.
proof fn lemma_cursor_goes_on(rules: Rules, tokens: Seq<Seq<char>>, from: int, at: int)
    requires
        from <= at < tokens.len(),
        cursor_reaches(rules, tokens, from, at),
        step_at(rules, tokens, at) is Ok,
    ensures
        cursor_reaches(rules, tokens, from, step_at(rules, tokens, at)->Ok_0.next),
    decreases at - from,
{
    if from < at {
        let step = step_at(rules, tokens, from)->Ok_0;
        lemma_cursor_goes_on(rules, tokens, step.next, at);
    } else {
        let step = step_at(rules, tokens, at)->Ok_0;
        assert(cursor_reaches(rules, tokens, step.next, step.next));
    }
}

/// A successful parse keeps what was seen under every name that it does not
/// read again.
proof fn lemma_unread_names_keep(
    rules: Rules,
    tokens: Seq<Seq<char>>,
    from: int,
    seen: Found,
    name: Seq<char>,
)
    requires
        parse_from(rules, tokens, from, seen) is Ok,
        forall|at: int|
            from <= at < tokens.len() && #[trigger] cursor_reaches(rules, tokens, from, at)
                ==> flag_name(tokens[at]) != name,
    ensures
        ({
            let found = parse_from(rules, tokens, from, seen)->Ok_0;
            &&& found.contains_key(name) == seen.contains_key(name)
            &&& seen.contains_key(name) ==> found[name] == seen[name]
        }),
    decreases tokens.len() - from,
{
    if from < tokens.len() {
        let step = step_at(rules, tokens, from)->Ok_0;
        assert(cursor_reaches(rules, tokens, from, from));
        assert forall|at: int|
            step.next <= at < tokens.len() && #[trigger] cursor_reaches(
                rules,
                tokens,
                step.next,
                at,
            ) implies flag_name(tokens[at]) != name by {
            assert(cursor_reaches(rules, tokens, from, at));
        }
        lemma_unread_names_keep(
            rules,
            tokens,
            step.next,
            seen.insert(step.name, step.opt),
            name,
        );
    }
}

/// In a successful parse the last time that a flag is read decides what is
/// found under its name.
proof fn lemma_last_reading_decides(
    rules: Rules,
    tokens: Seq<Seq<char>>,
    from: int,
    seen: Found,
    at: int,
)
    requires
        parse_from(rules, tokens, from, seen) is Ok,
        from <= at < tokens.len(),
        cursor_reaches(rules, tokens, from, at),
        forall|later: int|
            at < later < tokens.len() && #[trigger] cursor_reaches(rules, tokens, from, later)
                ==> flag_name(tokens[later]) != flag_name(tokens[at]),
    ensures
        step_at(rules, tokens, at) is Ok,
        ({
            let found = parse_from(rules, tokens, from, seen)->Ok_0;
            let step = step_at(rules, tokens, at)->Ok_0;
            found.contains_key(step.name) && found[step.name] == step.opt
        }),
    decreases at - from,
{
    let step = step_at(rules, tokens, from)->Ok_0;
    let seen_next = seen.insert(step.name, step.opt);
    if from < at {
        assert forall|later: int|
            at < later < tokens.len() && #[trigger] cursor_reaches(
                rules,
                tokens,
                step.next,
                later,
            ) implies flag_name(tokens[later]) != flag_name(tokens[at]) by {
            assert(cursor_reaches(rules, tokens, from, later));
        }
        lemma_last_reading_decides(rules, tokens, step.next, seen_next, at);
    } else {
        assert forall|later: int|
            step.next <= later < tokens.len() && #[trigger] cursor_reaches(
                rules,
                tokens,
                step.next,
                later,
            ) implies flag_name(tokens[later]) != step.name by {
            assert(cursor_reaches(rules, tokens, from, later));
        }
        lemma_unread_names_keep(rules, tokens, step.next, seen_next, step.name);
    }
}

/// A successful parse adds to what was seen, and what it finds follows the
/// rules where what was seen did.
proof fn lemma_parse_keeps_rules(rules: Rules, tokens: Seq<Seq<char>>, from: int, seen: Found)
    requires
        parse_from(rules, tokens, from, seen) is Ok,
    ensures
        ({
            let found = parse_from(rules, tokens, from, seen)->Ok_0;
            &&& forall|name: Seq<char>| #[trigger]
                seen.contains_key(name) ==> found.contains_key(name)
            &&& found_follows_rules(rules, seen) ==> found_follows_rules(rules, found)
        }),
    decreases tokens.len() - from,
{
    if from < tokens.len() {
        let step = step_at(rules, tokens, from)->Ok_0;
        let seen_next = seen.insert(step.name, step.opt);
        lemma_parse_keeps_rules(rules, tokens, step.next, seen_next);
        assert forall|name: Seq<char>| #[trigger] seen.contains_key(name) implies seen_next.contains_key(
            name,
        ) by {}
    }
}

/// A successful parse finds every flag that it reads.
proof fn lemma_read_flags_are_found(
    rules: Rules,
    tokens: Seq<Seq<char>>,
    from: int,
    seen: Found,
    at: int,
)
    requires
        parse_from(rules, tokens, from, seen) is Ok,
        from <= at < tokens.len(),
        cursor_reaches(rules, tokens, from, at),
    ensures
        parse_from(rules, tokens, from, seen)->Ok_0.contains_key(flag_name(tokens[at])),
    decreases at - from,
{
    let step = step_at(rules, tokens, from)->Ok_0;
    let seen_next = seen.insert(step.name, step.opt);
    if from < at {
        lemma_read_flags_are_found(rules, tokens, step.next, seen_next, at);
    } else {
        lemma_parse_keeps_rules(rules, tokens, step.next, seen_next);
        assert(seen_next.contains_key(step.name));
    }
}

/// A successful parse finds no name beyond those seen before and those of
/// the flags that it reads.
proof fn lemma_found_flags_were_read(
    rules: Rules,
    tokens: Seq<Seq<char>>,
    from: int,
    seen: Found,
    name: Seq<char>,
)
    requires
        parse_from(rules, tokens, from, seen) is Ok,
        parse_from(rules, tokens, from, seen)->Ok_0.contains_key(name),
        !seen.contains_key(name),
    ensures
        exists|at: int|
            from <= at < tokens.len() && #[trigger] cursor_reaches(rules, tokens, from, at)
                && flag_name(tokens[at]) == name,
    decreases tokens.len() - from,
{
    if from < tokens.len() {
        let step = step_at(rules, tokens, from)->Ok_0;
        if step.name == name {
            assert(cursor_reaches(rules, tokens, from, from));
        } else {
            lemma_found_flags_were_read(
                rules,
                tokens,
                step.next,
                seen.insert(step.name, step.opt),
                name,
            );
            let at: int = choose|at: int|
                step.next <= at < tokens.len() && #[trigger] cursor_reaches(
                    rules,
                    tokens,
                    step.next,
                    at,
                ) && flag_name(tokens[at]) == name;
            assert(cursor_reaches(rules, tokens, from, at));
        }
    }
}

/// The parse fails at the first flag whose step fails, for that step's
/// reason.
proof fn lemma_failing_step_fails_parse(
    rules: Rules,
    tokens: Seq<Seq<char>>,
    from: int,
    seen: Found,
    at: int,
)
    requires
        from <= at < tokens.len(),
        cursor_reaches(rules, tokens, from, at),
        step_at(rules, tokens, at) is Err,
    ensures
        parse_from(rules, tokens, from, seen) == Err::<Found, Seq<char>>(
            step_at(rules, tokens, at)->Err_0,
        ),
    decreases at - from,
{
    if from < at {
        let step = step_at(rules, tokens, from)->Ok_0;
        lemma_failing_step_fails_parse(
            rules,
            tokens,
            step.next,
            seen.insert(step.name, step.opt),
            at,
        );
    }
}

/// A parse that fails does so at a flag that the cursor reaches, for the
/// reason of that flag's step.
proof fn lemma_failed_parse_has_failing_step(
    rules: Rules,
    tokens: Seq<Seq<char>>,
    from: int,
    seen: Found,
)
    requires
        parse_from(rules, tokens, from, seen) is Err,
    ensures
        exists|at: int|
            from <= at < tokens.len() && #[trigger] cursor_reaches(rules, tokens, from, at)
                && step_at(rules, tokens, at) == Err::<Step, Seq<char>>(
                parse_from(rules, tokens, from, seen)->Err_0,
            ),
    decreases tokens.len() - from,
{
    if from < tokens.len() {
        assert(cursor_reaches(rules, tokens, from, from));
        if let Ok(step) = step_at(rules, tokens, from) {
            let seen_next = seen.insert(step.name, step.opt);
            lemma_failed_parse_has_failing_step(rules, tokens, step.next, seen_next);
            let at: int = choose|at: int|
                step.next <= at < tokens.len() && #[trigger] cursor_reaches(
                    rules,
                    tokens,
                    step.next,
                    at,
                ) && step_at(rules, tokens, at) == Err::<Step, Seq<char>>(
                    parse_from(rules, tokens, step.next, seen_next)->Err_0,
                );
            assert(cursor_reaches(rules, tokens, from, at));
        }
    }
}

} // verus!
