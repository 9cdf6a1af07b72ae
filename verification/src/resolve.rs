//! Resolution of a rule tree against the cells of a run.
//!
//! A rule is evaluated in rounds. One round, [`resolve_rule`], never waits:
//! it reads what is committed at that moment and either is done or says
//! which cells the rule waits for. The task that owns the rule then waits
//! on the signals of those cells and runs another round after the next
//! commit. [`evaluate`] says what a round comes to.
//!
//! The elements of a sequence follow one another: an element that waits
//! holds back those after it. The alternatives of a choice run side by side:
//! all of them are evaluated in every round, and one that waits never holds
//! back one that has a text. Where several alternatives have a text in the
//! same round, the one declared first gives the choice its text.

use crate::patterns::{substitution, PatternTable};
use crate::rules::Rule;
use crate::symbols::{
    committed, lemma_registering_commits_nothing, lemma_registering_in_steps,
    lemma_registering_nothing, registered_all, Cells, SymbolTable,
};
use vstd::prelude::*;
use vstd::string::*;

verus! {

/// What a rule comes to at one moment of a run.
pub enum Outcome {
    /// The rule is done: with an example text, or with `None` where it has
    /// none.
    Resolved(Option<Seq<char>>),
    /// The rule waits for the cells of these names.
    Suspended(Seq<Seq<char>>),
}

/// What evaluating a rule at one moment of a run does.
pub struct Evaluation {
    /// What the rule comes to.
    pub outcome: Outcome,
    /// The names that the evaluation refers to, each of which gets a cell.
    pub reached: Set<Seq<char>>,
}

/// An evaluation that is done with `value` and refers to no name.
pub open spec fn done(value: Option<Seq<char>>) -> Evaluation {
    Evaluation { outcome: Outcome::Resolved(value), reached: Set::empty() }
}

/// What a sequence comes to whose elements so far gave `text`, and whose
/// next element comes to `element`.
pub open spec fn continued(text: Seq<char>, element: Outcome) -> Outcome {
    match element {
        Outcome::Resolved(Some(more)) => Outcome::Resolved(Some(text + more)),
        stopped => stopped,
    }
}

/// What a choice comes to whose alternatives so far come to `before`, and
/// whose next alternative comes to `alternative`.
pub open spec fn raced(before: Outcome, alternative: Outcome) -> Outcome {
    match (before, alternative) {
        (Outcome::Resolved(Some(text)), _) => Outcome::Resolved(Some(text)),
        (_, Outcome::Resolved(Some(text))) => Outcome::Resolved(Some(text)),
        (Outcome::Suspended(first), Outcome::Suspended(second)) => Outcome::Suspended(
            first + second,
        ),
        (Outcome::Suspended(first), _) => Outcome::Suspended(first),
        (_, later) => later,
    }
}

/// How `rule` evaluates with the pattern table `patterns`, at a moment when
/// `values` are the committed resolutions.
///
/// A literal is its own text and a blank the empty text. A pattern has the
/// text that the table gives for it, and none where the table does not know
/// it. A reference to a variable by name comes to what is committed for the
/// variable and waits where nothing is; a reference by position never has a
/// text. Metadata changes nothing, and a repetition is one occurrence of
/// what is repeated.
pub open spec fn evaluate(
    patterns: Map<Seq<char>, Seq<char>>,
    values: Map<Seq<char>, Option<Seq<char>>>,
    rule: Rule,
) -> Evaluation
    decreases rule, 0nat,
{
    match rule {
        Rule::Blank => done(Some(Seq::empty())),
        Rule::String(text) => done(Some(text@)),
        Rule::Pattern(pattern) => done(substitution(patterns, pattern@)),
        Rule::NamedSymbol(name) => Evaluation {
            outcome: if values.contains_key(name@) {
                Outcome::Resolved(values[name@])
            } else {
                Outcome::Suspended(seq![name@])
            },
            reached: set![name@],
        },
        Rule::Symbol(_) => done(None),
        Rule::Choice(rules) => evaluate_choice(patterns, values, rules@, rules@.len()),
        Rule::Metadata { rule, .. } => evaluate(patterns, values, *rule),
        Rule::Repeat(rule) => evaluate(patterns, values, *rule),
        Rule::Sequence(rules) => evaluate_sequence(patterns, values, rules@, rules@.len()),
    }
}

/// How the first `count` elements of a sequence evaluate, one after another.
///
/// The texts of the elements are joined up to the first element that has no
/// text; what that element comes to is what the sequence comes to, and no
/// later element is evaluated.
pub open spec fn evaluate_sequence(
    patterns: Map<Seq<char>, Seq<char>>,
    values: Map<Seq<char>, Option<Seq<char>>>,
    rules: Seq<Rule>,
    count: nat,
) -> Evaluation
    decreases rules, count,
{
    if count == 0 || count > rules.len() {
        done(Some(Seq::empty()))
    } else {
        let before = evaluate_sequence(patterns, values, rules, (count - 1) as nat);
        match before.outcome {
            Outcome::Resolved(Some(text)) => {
                let element = evaluate(patterns, values, rules[count - 1]);
                Evaluation {
                    outcome: continued(text, element.outcome),
                    reached: before.reached + element.reached,
                }
            },
            _ => before,
        }
    }
}

/// How the first `count` alternatives of a choice evaluate, side by side.
///
/// Every alternative is evaluated. Among those that have a text the one
/// declared first gives the choice its text. Without any, the choice waits
/// for what the suspended alternatives wait for, and has no text once no
/// alternative is suspended.
pub open spec fn evaluate_choice(
    patterns: Map<Seq<char>, Seq<char>>,
    values: Map<Seq<char>, Option<Seq<char>>>,
    rules: Seq<Rule>,
    count: nat,
) -> Evaluation
    decreases rules, count,
{
    if count == 0 || count > rules.len() {
        done(None)
    } else {
        let before = evaluate_choice(patterns, values, rules, (count - 1) as nat);
        let alternative = evaluate(patterns, values, rules[count - 1]);
        Evaluation {
            outcome: raced(before.outcome, alternative.outcome),
            reached: before.reached + alternative.reached,
        }
    }
}

/// What a rule comes to in one evaluation.
#[derive(Debug, PartialEq, Eq)]
pub enum Resolution {
    /// The rule is done: with an example text, or with `None` where it has
    /// none.
    Resolved(Option<String>),
    /// The rule waits for the cells of these names, and is to be evaluated
    /// again once one of them has been committed to.
    Suspended(Vec<String>),
}

impl View for Resolution {
    type V = Outcome;

    open spec fn view(&self) -> Outcome {
        match self {
            Resolution::Resolved(value) => Outcome::Resolved(value.deep_view()),
            Resolution::Suspended(names) => Outcome::Suspended(names.deep_view()),
        }
    }
}

/// A sequence that has stopped at one of its elements stays as it is,
/// whatever elements follow.
pub proof fn lemma_sequence_stops(
    patterns: Map<Seq<char>, Seq<char>>,
    values: Map<Seq<char>, Option<Seq<char>>>,
    rules: Seq<Rule>,
    stop: nat,
    count: nat,
)
    requires
        stop <= count <= rules.len(),
        !(evaluate_sequence(patterns, values, rules, stop).outcome matches Outcome::Resolved(
            Some(_),
        )),
    ensures
        evaluate_sequence(patterns, values, rules, count) == evaluate_sequence(
            patterns,
            values,
            rules,
            stop,
        ),
    decreases count,
{
    if count > stop {
        lemma_sequence_stops(patterns, values, rules, stop, (count - 1) as nat);
    }
}

/// Joins the text that a sequence has so far with what its next element
/// came to.
pub fn continue_sequence(text: String, element: Resolution) -> (resolution: Resolution)
    ensures
        resolution@ == continued(text@, element@),
{
    match element {
        Resolution::Resolved(Some(more)) => {
            let mut text = text;
            text.append(more.as_str());
            Resolution::Resolved(Some(text))
        },
        stopped => stopped,
    }
}

/// Settles a choice between what its alternatives so far came to and what
/// its next alternative came to.
pub fn race(before: Resolution, alternative: Resolution) -> (resolution: Resolution)
    ensures
        resolution@ == raced(before@, alternative@),
{
    match (before, alternative) {
        (Resolution::Resolved(Some(text)), _) => Resolution::Resolved(Some(text)),
        (_, Resolution::Resolved(Some(text))) => Resolution::Resolved(Some(text)),
        (Resolution::Suspended(first), Resolution::Suspended(second)) => {
            let mut names = first;
            let mut more = second;
            names.append(&mut more);
            assert(names.deep_view() =~= first.deep_view() + second.deep_view());
            Resolution::Suspended(names)
        },
        (Resolution::Suspended(first), _) => Resolution::Suspended(first),
        (_, later) => later,
    }
}

/// Runs one round on `rule`: evaluates it against the pattern table and
/// against what is committed in the cells at this moment.
///
/// Every name that the round refers to gets a cell, unless it has one.
/// Nothing is committed, and no cell is lost or replaced. Where the result
/// is [`Resolution::Suspended`], the rule waits for the same names as long
/// as every commit is the first one to a cell that is not among them.
#[verifier::loop_isolation(false)]
pub fn resolve_rule(
    pattern_matches: &PatternTable,
    symbol_resolutions: &mut SymbolTable,
    rule: &Rule,
) -> (resolution: Resolution)
    ensures
        resolution@ == evaluate(
            pattern_matches@,
            committed(old(symbol_resolutions)@),
            *rule,
        ).outcome,
        final(symbol_resolutions)@ == registered_all(
            old(symbol_resolutions)@,
            evaluate(pattern_matches@, committed(old(symbol_resolutions)@), *rule).reached,
        ),
        final(symbol_resolutions).keeps_cells_of(old(symbol_resolutions)),
    decreases rule,
{
    let ghost entry = *symbol_resolutions;
    let ghost values = committed(entry@);
    proof {
        lemma_registering_nothing(entry@);
    }
    match rule {
        Rule::Blank => Resolution::Resolved(Some(String::new())),
        Rule::String(text) => Resolution::Resolved(Some(text.clone())),
        Rule::Pattern(pattern) => Resolution::Resolved(pattern_matches.get(pattern.as_str())),
        Rule::NamedSymbol(name) => {
            symbol_resolutions.register(name.as_str());
            assert(symbol_resolutions@ =~= registered_all(entry@, set![name@]));
            match symbol_resolutions.read(name.as_str()) {
                Some(value) => Resolution::Resolved(value),
                None => {
                    let names = vec![name.clone()];
                    assert(names.deep_view() =~= seq![name@]);
                    Resolution::Suspended(names)
                },
            }
        },
        Rule::Symbol(_) => Resolution::Resolved(None),
        Rule::Choice(rules) => {
            let mut resolution = Resolution::Resolved(None);
            let mut i: usize = 0;
            while i < rules.len()
                invariant
                    i <= rules.len(),
                    symbol_resolutions.keeps_cells_of(&entry),
                    resolution@ == evaluate_choice(
                        pattern_matches@,
                        values,
                        rules@,
                        i as nat,
                    ).outcome,
                    symbol_resolutions@ == registered_all(
                        entry@,
                        evaluate_choice(pattern_matches@, values, rules@, i as nat).reached,
                    ),
                decreases rules.len() - i,
            {
                proof {
                    let reached = evaluate_choice(
                        pattern_matches@,
                        values,
                        rules@,
                        i as nat,
                    ).reached;
                    lemma_registering_commits_nothing(entry@, reached);
                    lemma_registering_in_steps(
                        entry@,
                        reached,
                        evaluate(pattern_matches@, values, rules@[i as int]).reached,
                    );
                }
                let alternative = resolve_rule(pattern_matches, symbol_resolutions, &rules[i]);
                resolution = race(resolution, alternative);
                i += 1;
            }
            resolution
        },
        Rule::Metadata { rule, .. } => resolve_rule(pattern_matches, symbol_resolutions, rule),
        Rule::Repeat(rule) => resolve_rule(pattern_matches, symbol_resolutions, rule),
        Rule::Sequence(rules) => {
            let mut resolution = Resolution::Resolved(Some(String::new()));
            let mut i: usize = 0;
            while i < rules.len()
                invariant
                    i <= rules.len(),
                    symbol_resolutions.keeps_cells_of(&entry),
                    resolution@ == evaluate_sequence(
                        pattern_matches@,
                        values,
                        rules@,
                        i as nat,
                    ).outcome,
                    symbol_resolutions@ == registered_all(
                        entry@,
                        evaluate_sequence(pattern_matches@, values, rules@, i as nat).reached,
                    ),
                decreases rules.len() - i,
            {
                match resolution {
                    Resolution::Resolved(Some(text)) => {
                        proof {
                            let reached = evaluate_sequence(
                                pattern_matches@,
                                values,
                                rules@,
                                i as nat,
                            ).reached;
                            lemma_registering_commits_nothing(entry@, reached);
                            lemma_registering_in_steps(
                                entry@,
                                reached,
                                evaluate(pattern_matches@, values, rules@[i as int]).reached,
                            );
                        }
                        let element = resolve_rule(
                            pattern_matches,
                            symbol_resolutions,
                            &rules[i],
                        );
                        resolution = continue_sequence(text, element);
                        i += 1;
                    },
                    stopped => {
                        proof {
                            lemma_sequence_stops(
                                pattern_matches@,
                                values,
                                rules@,
                                i as nat,
                                rules@.len(),
                            );
                        }
                        return stopped;
                    },
                }
            }
            resolution
        },
    }
}

/// What one round of a variable's task leaves in the cells: a cell for each
/// name that the evaluation referred to and, where the rule is done, its
/// resolution in the variable's own cell.
pub open spec fn after_round(
    cells: Cells,
    name: Seq<char>,
    evaluation: Evaluation,
) -> Cells {
    let with_cells = registered_all(cells, evaluation.reached);
    match evaluation.outcome {
        Outcome::Resolved(value) => with_cells.insert(name, Some(value)),
        Outcome::Suspended(_) => with_cells,
    }
}

/// Runs one round of the task of the variable `name`: evaluates its rule
/// and, where the rule is done, commits the resolution to the variable's own
/// cell, which wakes the rules that wait for it.
///
/// The task is over once the result is [`Resolution::Resolved`]. Until then
/// it runs another round whenever a cell that it waits for is committed to.
pub fn resolve_variable(
    pattern_matches: &PatternTable,
    symbol_resolutions: &mut SymbolTable,
    name: &str,
    rule: &Rule,
) -> (resolution: Resolution)
    ensures
        resolution@ == evaluate(
            pattern_matches@,
            committed(old(symbol_resolutions)@),
            *rule,
        ).outcome,
        final(symbol_resolutions)@ == after_round(
            old(symbol_resolutions)@,
            name@,
            evaluate(pattern_matches@, committed(old(symbol_resolutions)@), *rule),
        ),
        final(symbol_resolutions).keeps_cells_of(old(symbol_resolutions)),
{
    let resolution = resolve_rule(pattern_matches, symbol_resolutions, rule);
    match &resolution {
        Resolution::Resolved(value) => {
            symbol_resolutions.commit(name.to_owned(), value.clone());
        },
        Resolution::Suspended(_) => {},
    }
    resolution
}

} // verus!
