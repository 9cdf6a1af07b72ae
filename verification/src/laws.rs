//! What holds of every evaluation.

use crate::eventually::{Eventuallable, Eventually};
use crate::resolve::{evaluate, evaluate_choice, evaluate_sequence, lemma_sequence_stops, Outcome};
use crate::rules::Rule;
use crate::symbols::{committed, registered_all, Cells};
use vstd::prelude::*;

verus! {

/// A rule without alternatives and without references to other variables
/// evaluates the same at every moment of every run: it is done at once,
/// refers to no name, and what it comes to depends on the pattern table
/// alone.
pub proof fn lemma_plain_rule_is_determined(
    patterns: Map<Seq<char>, Seq<char>>,
    first: Map<Seq<char>, Option<Seq<char>>>,
    second: Map<Seq<char>, Option<Seq<char>>>,
    rule: Rule,
)
    requires
        rule.is_plain(),
    ensures
        evaluate(patterns, first, rule) == evaluate(patterns, second, rule),
        evaluate(patterns, first, rule).outcome is Resolved,
        evaluate(patterns, first, rule).reached == Set::<Seq<char>>::empty(),
    decreases rule, 0nat,
{
    match rule {
        Rule::Metadata { rule: inner, .. } => {
            lemma_plain_rule_is_determined(patterns, first, second, *inner);
        },
        Rule::Repeat(inner) => {
            lemma_plain_rule_is_determined(patterns, first, second, *inner);
        },
        Rule::Sequence(rules) => {
            lemma_plain_sequence_is_determined(patterns, first, second, rules@, rules@.len());
        },
        _ => {},
    }
}

/// What [`lemma_plain_rule_is_determined`] says, of the first `count`
/// elements of a sequence of plain rules.
proof fn lemma_plain_sequence_is_determined(
    patterns: Map<Seq<char>, Seq<char>>,
    first: Map<Seq<char>, Option<Seq<char>>>,
    second: Map<Seq<char>, Option<Seq<char>>>,
    rules: Seq<Rule>,
    count: nat,
)
    requires
        count <= rules.len(),
        forall|i: int| 0 <= i < rules.len() ==> (#[trigger] rules[i]).is_plain(),
    ensures
        evaluate_sequence(patterns, first, rules, count) == evaluate_sequence(
            patterns,
            second,
            rules,
            count,
        ),
        evaluate_sequence(patterns, first, rules, count).outcome is Resolved,
        evaluate_sequence(patterns, first, rules, count).reached == Set::<Seq<char>>::empty(),
    decreases rules, count,
{
    if count > 0 {
        lemma_plain_sequence_is_determined(patterns, first, second, rules, (count - 1) as nat);
        lemma_plain_rule_is_determined(patterns, first, second, rules[count - 1]);
        let before = evaluate_sequence(patterns, first, rules, (count - 1) as nat);
        let element = evaluate(patterns, first, rules[count - 1]);
        assert(before.reached + element.reached =~= Set::<Seq<char>>::empty());
    }
}

/// A sequence never has a text where one of its elements has none, whatever
/// the other elements are. It then has no text, unless an element before
/// that one is suspended: a suspended element holds back all that follow it.
pub proof fn lemma_sequence_short_circuits(
    patterns: Map<Seq<char>, Seq<char>>,
    values: Map<Seq<char>, Option<Seq<char>>>,
    rules: Vec<Rule>,
    index: int,
)
    requires
        0 <= index < rules.len(),
        evaluate(patterns, values, rules[index]).outcome == Outcome::Resolved(None),
    ensures
        !(evaluate(patterns, values, Rule::Sequence(rules)).outcome matches Outcome::Resolved(
            Some(_),
        )),
        (forall|i: int|
            0 <= i < index ==> !(#[trigger] evaluate(patterns, values, rules[i]).outcome
                is Suspended)) ==> evaluate(patterns, values, Rule::Sequence(rules)).outcome
            == Outcome::Resolved(None),
{
    if evaluate(patterns, values, Rule::Sequence(rules)).outcome matches Outcome::Resolved(
        Some(_),
    ) {
        lemma_sequence_with_text(patterns, values, rules@, rules@.len(), index);
    }
    if forall|i: int|
        0 <= i < index ==> !(#[trigger] evaluate(patterns, values, rules[i]).outcome
            is Suspended) {
        lemma_sequence_without_text_before(patterns, values, rules@, index as nat);
        lemma_sequence_stops(patterns, values, rules@, (index + 1) as nat, rules@.len());
    }
}

/// Where the first `count` elements of a sequence come to a text, each of
/// them has a text.
proof fn lemma_sequence_with_text(
    patterns: Map<Seq<char>, Seq<char>>,
    values: Map<Seq<char>, Option<Seq<char>>>,
    rules: Seq<Rule>,
    count: nat,
    index: int,
)
    requires
        0 <= index < count <= rules.len(),
        evaluate_sequence(patterns, values, rules, count).outcome matches Outcome::Resolved(
            Some(_),
        ),
    ensures
        evaluate(patterns, values, rules[index]).outcome matches Outcome::Resolved(Some(_)),
    decreases count,
{
    if index < count - 1 {
        lemma_sequence_with_text(patterns, values, rules, (count - 1) as nat, index);
    }
}

/// Where no element before `count` is suspended, the first `count` elements
/// of a sequence are not suspended either, and an element without text
/// after them leaves the sequence without text.
proof fn lemma_sequence_without_text_before(
    patterns: Map<Seq<char>, Seq<char>>,
    values: Map<Seq<char>, Option<Seq<char>>>,
    rules: Seq<Rule>,
    count: nat,
)
    requires
        count < rules.len(),
        forall|i: int|
            0 <= i < count ==> !(#[trigger] evaluate(
                patterns,
                values,
                rules[i],
            ).outcome is Suspended),
    ensures
        !(evaluate_sequence(patterns, values, rules, count).outcome is Suspended),
        evaluate(patterns, values, rules[count as int]).outcome == Outcome::Resolved(None)
            ==> evaluate_sequence(patterns, values, rules, count + 1).outcome
            == Outcome::Resolved(None),
    decreases count,
{
    if count > 0 {
        lemma_sequence_without_text_before(patterns, values, rules, (count - 1) as nat);
        assert(!(evaluate(patterns, values, rules[count - 1]).outcome is Suspended));
    }
}

/// A sequence of plain rules has no text as soon as one of its elements has
/// none, whatever the other elements are.
pub proof fn lemma_plain_sequence_short_circuits(
    patterns: Map<Seq<char>, Seq<char>>,
    values: Map<Seq<char>, Option<Seq<char>>>,
    rules: Vec<Rule>,
    index: int,
)
    requires
        0 <= index < rules.len(),
        Rule::Sequence(rules).is_plain(),
        evaluate(patterns, values, rules[index]).outcome == Outcome::Resolved(None),
    ensures
        evaluate(patterns, values, Rule::Sequence(rules)).outcome == Outcome::Resolved(None),
{
    assert forall|i: int| 0 <= i < index implies !(#[trigger] evaluate(
        patterns,
        values,
        rules[i],
    ).outcome is Suspended) by {
        lemma_plain_rule_is_determined(patterns, values, values, rules[i]);
    }
    lemma_sequence_short_circuits(patterns, values, rules, index);
}

/// Whether the alternative at `index` has the text `text`.
pub open spec fn alternative_has_text(
    patterns: Map<Seq<char>, Seq<char>>,
    values: Map<Seq<char>, Option<Seq<char>>>,
    rules: Seq<Rule>,
    index: int,
    text: Seq<char>,
) -> bool {
    0 <= index < rules.len() && evaluate(patterns, values, rules[index]).outcome
        == Outcome::Resolved(Some(text))
}

/// A choice has a text exactly where one of its alternatives has one, and
/// its text is then that of one of them. It has no text exactly where every
/// alternative is done without one. An empty choice has no text.
pub proof fn lemma_choice_takes_an_alternative(
    patterns: Map<Seq<char>, Seq<char>>,
    values: Map<Seq<char>, Option<Seq<char>>>,
    rules: Vec<Rule>,
)
    ensures
        evaluate(patterns, values, Rule::Choice(rules)).outcome matches Outcome::Resolved(
            Some(text),
        ) ==> exists|i: int| alternative_has_text(patterns, values, rules@, i, text),
        (exists|i: int, text: Seq<char>| alternative_has_text(patterns, values, rules@, i, text))
            ==> evaluate(patterns, values, Rule::Choice(rules)).outcome matches Outcome::Resolved(
            Some(_),
        ),
        evaluate(patterns, values, Rule::Choice(rules)).outcome == Outcome::Resolved(None)
            <==> forall|i: int|
            0 <= i < rules.len() ==> (#[trigger] evaluate(patterns, values, rules[i])).outcome
                == Outcome::Resolved(None),
{
    lemma_choice_among(patterns, values, rules@, rules@.len());
}

/// What [`lemma_choice_takes_an_alternative`] says, of the first `count`
/// alternatives.
proof fn lemma_choice_among(
    patterns: Map<Seq<char>, Seq<char>>,
    values: Map<Seq<char>, Option<Seq<char>>>,
    rules: Seq<Rule>,
    count: nat,
)
    requires
        count <= rules.len(),
    ensures
        evaluate_choice(patterns, values, rules, count).outcome matches Outcome::Resolved(
            Some(text),
        ) ==> exists|i: int| i < count && alternative_has_text(patterns, values, rules, i, text),
        (exists|i: int, text: Seq<char>|
            i < count && alternative_has_text(patterns, values, rules, i, text))
            ==> evaluate_choice(patterns, values, rules, count).outcome matches Outcome::Resolved(
            Some(_),
        ),
        evaluate_choice(patterns, values, rules, count).outcome == Outcome::Resolved(None)
            <==> forall|i: int|
            0 <= i < count ==> (#[trigger] evaluate(patterns, values, rules[i])).outcome
                == Outcome::Resolved(None),
    decreases count,
{
    if count > 0 {
        lemma_choice_among(patterns, values, rules, (count - 1) as nat);
        let before = evaluate_choice(patterns, values, rules, (count - 1) as nat).outcome;
        let last = evaluate(patterns, values, rules[count - 1]).outcome;
        let now = evaluate_choice(patterns, values, rules, count).outcome;
        if let Outcome::Resolved(Some(text)) = now {
            if before == now {
                let i = choose|i: int|
                    i < count - 1 && alternative_has_text(patterns, values, rules, i, text);
                assert(i < count && alternative_has_text(patterns, values, rules, i, text));
            } else {
                assert(alternative_has_text(patterns, values, rules, count - 1, text));
            }
        }
        if exists|i: int, text: Seq<char>|
            i < count && alternative_has_text(patterns, values, rules, i, text) {
            let (i, text) = choose|i: int, text: Seq<char>|
                i < count && alternative_has_text(patterns, values, rules, i, text);
            if i < count - 1 {
                assert(i < count - 1 && alternative_has_text(patterns, values, rules, i, text));
            }
        }
        if now == Outcome::Resolved(None) {
            assert(before == Outcome::Resolved(None) && last == Outcome::Resolved(None));
        }
        if forall|i: int|
            0 <= i < count ==> (#[trigger] evaluate(patterns, values, rules[i])).outcome
                == Outcome::Resolved(None) {
            assert(evaluate(patterns, values, rules[count - 1]).outcome == Outcome::Resolved(
                None,
            ));
        }
    }
}

/// A rule that is suspended waits for at least one name, and each name that
/// it waits for has a cell after the evaluation, with nothing committed to
/// it.
pub proof fn lemma_suspended_rule_waits_for_cells(
    patterns: Map<Seq<char>, Seq<char>>,
    cells: Cells,
    rule: Rule,
)
    ensures
        evaluate(patterns, committed(cells), rule).outcome matches Outcome::Suspended(names) ==> {
            &&& names.len() > 0
            &&& forall|i: int|
                0 <= i < names.len() ==> {
                    &&& registered_all(
                        cells,
                        evaluate(patterns, committed(cells), rule).reached,
                    ).contains_key(#[trigger] names[i])
                    &&& !committed(cells).contains_key(names[i])
                }
        },
{
    lemma_suspended_names(patterns, committed(cells), rule);
}

/// Whether `names` is a list of at least one name, each of them among
/// `reached` and none of them with a committed resolution.
pub open spec fn waits_for(
    values: Map<Seq<char>, Option<Seq<char>>>,
    reached: Set<Seq<char>>,
    names: Seq<Seq<char>>,
) -> bool {
    &&& names.len() > 0
    &&& forall|i: int|
        0 <= i < names.len() ==> reached.contains(#[trigger] names[i]) && !values.contains_key(
            names[i],
        )
}

proof fn lemma_suspended_names(
    patterns: Map<Seq<char>, Seq<char>>,
    values: Map<Seq<char>, Option<Seq<char>>>,
    rule: Rule,
)
    ensures
        evaluate(patterns, values, rule).outcome matches Outcome::Suspended(names) ==> waits_for(
            values,
            evaluate(patterns, values, rule).reached,
            names,
        ),
    decreases rule, 0nat,
{
    match rule {
        Rule::Metadata { rule: inner, .. } => {
            lemma_suspended_names(patterns, values, *inner);
        },
        Rule::Repeat(inner) => {
            lemma_suspended_names(patterns, values, *inner);
        },
        Rule::Sequence(rules) => {
            lemma_suspended_names_of_sequence(patterns, values, rules@, rules@.len());
        },
        Rule::Choice(rules) => {
            lemma_suspended_names_of_choice(patterns, values, rules@, rules@.len());
        },
        _ => {},
    }
}

proof fn lemma_suspended_names_of_sequence(
    patterns: Map<Seq<char>, Seq<char>>,
    values: Map<Seq<char>, Option<Seq<char>>>,
    rules: Seq<Rule>,
    count: nat,
)
    requires
        count <= rules.len(),
    ensures
        evaluate_sequence(patterns, values, rules, count).outcome matches Outcome::Suspended(
            names,
        ) ==> waits_for(
            values,
            evaluate_sequence(patterns, values, rules, count).reached,
            names,
        ),
    decreases rules, count,
{
    if count > 0 {
        lemma_suspended_names_of_sequence(patterns, values, rules, (count - 1) as nat);
        lemma_suspended_names(patterns, values, rules[count - 1]);
    }
}

proof fn lemma_suspended_names_of_choice(
    patterns: Map<Seq<char>, Seq<char>>,
    values: Map<Seq<char>, Option<Seq<char>>>,
    rules: Seq<Rule>,
    count: nat,
)
    requires
        count <= rules.len(),
    ensures
        evaluate_choice(patterns, values, rules, count).outcome matches Outcome::Suspended(names)
            ==> waits_for(
            values,
            evaluate_choice(patterns, values, rules, count).reached,
            names,
        ),
    decreases rules, count,
{
    if count > 0 {
        lemma_suspended_names_of_choice(patterns, values, rules, (count - 1) as nat);
        lemma_suspended_names(patterns, values, rules[count - 1]);
    }
}

/// Whether a first commit to `name` leaves alone a rule that came to `before`
/// and now comes to `after`: a rule that was done is done as before, with a
/// text where it had one and with none where it had none, and a rule that
/// waits for other names than `name` waits for them still.
pub open spec fn left_alone(before: Outcome, after: Outcome, name: Seq<char>) -> bool {
    match before {
        Outcome::Resolved(Some(_)) => after matches Outcome::Resolved(Some(_)),
        Outcome::Resolved(None) => after == before,
        Outcome::Suspended(names) => !names.contains(name) ==> after == before,
    }
}

/// A task needs no round for a commit that it does not wait for: the first
/// commit to a name leaves alone every rule that does not wait for that
/// name.
pub proof fn lemma_commit_elsewhere_changes_nothing(
    patterns: Map<Seq<char>, Seq<char>>,
    values: Map<Seq<char>, Option<Seq<char>>>,
    name: Seq<char>,
    value: Option<Seq<char>>,
    rule: Rule,
)
    requires
        !values.contains_key(name),
    ensures
        left_alone(
            evaluate(patterns, values, rule).outcome,
            evaluate(patterns, values.insert(name, value), rule).outcome,
            name,
        ),
    decreases rule, 0nat,
{
    match rule {
        Rule::NamedSymbol(other) => {
            assert(seq![other@][0] == other@);
        },
        Rule::Metadata { rule: inner, .. } => {
            lemma_commit_elsewhere_changes_nothing(patterns, values, name, value, *inner);
        },
        Rule::Repeat(inner) => {
            lemma_commit_elsewhere_changes_nothing(patterns, values, name, value, *inner);
        },
        Rule::Sequence(rules) => {
            lemma_commit_elsewhere_in_sequence(
                patterns,
                values,
                name,
                value,
                rules@,
                rules@.len(),
            );
        },
        Rule::Choice(rules) => {
            lemma_commit_elsewhere_in_choice(patterns, values, name, value, rules@, rules@.len());
        },
        _ => {},
    }
}

proof fn lemma_commit_elsewhere_in_sequence(
    patterns: Map<Seq<char>, Seq<char>>,
    values: Map<Seq<char>, Option<Seq<char>>>,
    name: Seq<char>,
    value: Option<Seq<char>>,
    rules: Seq<Rule>,
    count: nat,
)
    requires
        !values.contains_key(name),
        count <= rules.len(),
    ensures
        left_alone(
            evaluate_sequence(patterns, values, rules, count).outcome,
            evaluate_sequence(patterns, values.insert(name, value), rules, count).outcome,
            name,
        ),
    decreases rules, count,
{
    if count > 0 {
        lemma_commit_elsewhere_in_sequence(
            patterns,
            values,
            name,
            value,
            rules,
            (count - 1) as nat,
        );
        lemma_commit_elsewhere_changes_nothing(patterns, values, name, value, rules[count - 1]);
    }
}

proof fn lemma_commit_elsewhere_in_choice(
    patterns: Map<Seq<char>, Seq<char>>,
    values: Map<Seq<char>, Option<Seq<char>>>,
    name: Seq<char>,
    value: Option<Seq<char>>,
    rules: Seq<Rule>,
    count: nat,
)
    requires
        !values.contains_key(name),
        count <= rules.len(),
    ensures
        left_alone(
            evaluate_choice(patterns, values, rules, count).outcome,
            evaluate_choice(patterns, values.insert(name, value), rules, count).outcome,
            name,
        ),
    decreases rules, count,
{
    if count > 0 {
        lemma_commit_elsewhere_in_choice(patterns, values, name, value, rules, (count - 1) as nat);
        lemma_commit_elsewhere_changes_nothing(patterns, values, name, value, rules[count - 1]);
        let before = evaluate_choice(patterns, values, rules, (count - 1) as nat).outcome;
        let alternative = evaluate(patterns, values, rules[count - 1]).outcome;
        if let (Outcome::Suspended(first), Outcome::Suspended(second)) = (before, alternative) {
            if !(first + second).contains(name) {
                assert forall|i: int| 0 <= i < first.len() implies first[i] != name by {
                    assert((first + second)[i] == first[i]);
                }
                assert forall|i: int| 0 <= i < second.len() implies second[i] != name by {
                    assert((first + second)[first.len() + i] == second[i]);
                }
            }
        }
    }
}

/// A reference to a variable comes to what has been committed for the
/// variable, whether the reference made the variable's cell before the
/// commit or the commit made it: the order in which the two tasks start
/// does not matter.
pub proof fn lemma_reference_sees_commit(
    patterns: Map<Seq<char>, Seq<char>>,
    cells: Cells,
    name: String,
    value: Option<Seq<char>>,
)
    ensures
        evaluate(
            patterns,
            committed(cells.insert(name@, Some(value))),
            Rule::NamedSymbol(name),
        ).outcome == Outcome::Resolved(value),
        evaluate(
            patterns,
            committed(
                registered_all(
                    cells,
                    evaluate(patterns, committed(cells), Rule::NamedSymbol(name)).reached,
                ).insert(name@, Some(value)),
            ),
            Rule::NamedSymbol(name),
        ).outcome == Outcome::Resolved(value),
{
}

/// A cell that nothing has been committed to makes its readers wait. Once a
/// value has been committed, every read gives a copy of the value committed
/// last.
pub proof fn lemma_read_follows_write<T: Eventuallable>(
    fresh: Eventually<T>,
    written: Eventually<T>,
    value: T,
    seen: Option<T>,
)
    requires
        fresh@ is None,
        written@ == Some(value),
    ensures
        fresh.reads(seen) ==> seen is None,
        written.reads(seen) ==> seen is Some && cloned(value, seen->0),
{
}

} // verus!
