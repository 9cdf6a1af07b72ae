use std::future::Future;

use grammar_resolve::patterns::PatternTable;
use grammar_resolve::resolve::{
    continue_sequence, race, resolve_rule, resolve_variable, Resolution,
};
use grammar_resolve::rules::{MetadataParams, Rule};
use grammar_resolve::symbols::SymbolTable;

fn text(value: &str) -> Resolution {
    Resolution::Resolved(Some(String::from(value)))
}

fn no_text() -> Resolution {
    Resolution::Resolved(None)
}

fn waits_for(names: &[&str]) -> Resolution {
    Resolution::Suspended(names.iter().map(|name| String::from(*name)).collect())
}

fn literal(value: &str) -> Rule {
    Rule::String(String::from(value))
}

fn pattern(value: &str) -> Rule {
    Rule::Pattern(String::from(value))
}

fn named(name: &str) -> Rule {
    Rule::NamedSymbol(String::from(name))
}

fn digits() -> PatternTable {
    let mut table = PatternTable::new();
    table.insert(String::from("\\d+"), String::from("0"));
    table
}

fn resolve(patterns: &PatternTable, rule: &Rule) -> Resolution {
    resolve_rule(patterns, &mut SymbolTable::new(), rule)
}

#[test]
fn blank_resolves_to_the_empty_text() {
    assert_eq!(resolve(&PatternTable::new(), &Rule::Blank), text(""));
}

#[test]
fn a_literal_resolves_to_itself() {
    assert_eq!(resolve(&PatternTable::new(), &literal("let")), text("let"));
}

#[test]
fn a_known_pattern_resolves_to_its_substitution() {
    assert_eq!(resolve(&digits(), &pattern("\\d+")), text("0"));
}

#[test]
fn a_missing_pattern_has_no_text() {
    let mut table = PatternTable::new();
    table.insert(String::from("[0-7]+"), String::from("0"));
    assert_eq!(resolve(&table, &pattern("\\d+")), no_text());
}

#[test]
fn a_symbol_by_position_has_no_text() {
    assert_eq!(resolve(&digits(), &Rule::Symbol(0)), no_text());
    assert_eq!(resolve(&digits(), &Rule::Symbol(17)), no_text());
}

#[test]
fn metadata_resolves_as_the_rule_it_wraps() {
    let params = MetadataParams {
        precedence: Some(2),
        is_token: true,
        alias: None,
        field_name: Some(String::from("value")),
    };
    let rule = Rule::Metadata { params, rule: Box::new(pattern("\\d+")) };
    assert_eq!(resolve(&digits(), &rule), text("0"));
    let params = MetadataParams { precedence: None, is_token: false, alias: None, field_name: None };
    let rule = Rule::Metadata { params, rule: Box::new(pattern("missing")) };
    assert_eq!(resolve(&digits(), &rule), no_text());
}

#[test]
fn repeat_resolves_as_one_occurrence() {
    let rule = Rule::Repeat(Box::new(literal("ab")));
    assert_eq!(resolve(&PatternTable::new(), &rule), text("ab"));
}

#[test]
fn an_empty_sequence_resolves_to_the_empty_text() {
    assert_eq!(resolve(&PatternTable::new(), &Rule::Sequence(vec![])), text(""));
}

#[test]
fn a_sequence_joins_its_elements_in_order() {
    let rule = Rule::Sequence(vec![literal("v"), pattern("\\d+")]);
    assert_eq!(resolve(&digits(), &rule), text("v0"));
    let rule = Rule::Sequence(vec![pattern("\\d+"), literal("v"), Rule::Blank, literal("w")]);
    assert_eq!(resolve(&digits(), &rule), text("0vw"));
}

#[test]
fn a_sequence_with_an_element_without_text_has_no_text() {
    let first = Rule::Sequence(vec![pattern("missing"), literal("a"), literal("b")]);
    let middle = Rule::Sequence(vec![literal("a"), pattern("missing"), literal("b")]);
    let last = Rule::Sequence(vec![literal("a"), literal("b"), pattern("missing")]);
    assert_eq!(resolve(&digits(), &first), no_text());
    assert_eq!(resolve(&digits(), &middle), no_text());
    assert_eq!(resolve(&digits(), &last), no_text());
}

#[test]
fn a_sequence_stops_at_the_element_without_text() {
    let mut symbols = SymbolTable::new();
    let rule = Rule::Sequence(vec![named("before"), pattern("missing"), named("after")]);
    symbols.commit(String::from("before"), Some(String::from("b")));
    assert_eq!(resolve_rule(&digits(), &mut symbols, &rule), no_text());
    assert!(symbols.notifier("after").is_none());
}

#[test]
fn a_suspended_element_holds_back_the_elements_after_it() {
    let mut symbols = SymbolTable::new();
    let rule = Rule::Sequence(vec![literal("a"), named("never"), pattern("missing"), named("after")]);
    assert_eq!(resolve_rule(&digits(), &mut symbols, &rule), waits_for(&["never"]));
    assert!(symbols.notifier("never").is_some());
    assert!(symbols.notifier("after").is_none());
}

#[test]
fn an_empty_choice_has_no_text() {
    assert_eq!(resolve(&digits(), &Rule::Choice(vec![])), no_text());
}

#[test]
fn a_choice_skips_the_alternatives_without_text() {
    let rule = Rule::Choice(vec![pattern("missing"), literal("ok")]);
    assert_eq!(resolve(&PatternTable::new(), &rule), text("ok"));
    let rule = Rule::Choice(vec![literal("ok"), pattern("missing")]);
    assert_eq!(resolve(&PatternTable::new(), &rule), text("ok"));
}

#[test]
fn a_choice_without_any_text_has_no_text() {
    let rule = Rule::Choice(vec![pattern("missing"), Rule::Symbol(3), pattern("gone")]);
    assert_eq!(resolve(&digits(), &rule), no_text());
}

#[test]
fn a_choice_takes_the_text_of_one_of_its_alternatives() {
    let rule = Rule::Choice(vec![pattern("missing"), literal("a"), pattern("\\d+"), literal("b")]);
    let Resolution::Resolved(Some(chosen)) = resolve(&digits(), &rule) else {
        panic!("one alternative has a text");
    };
    assert!(["a", "0", "b"].contains(&chosen.as_str()));
}

#[test]
fn among_alternatives_with_text_the_one_declared_first_is_taken() {
    let rule = Rule::Choice(vec![pattern("missing"), literal("a"), pattern("\\d+"), literal("b")]);
    assert_eq!(resolve(&digits(), &rule), text("a"));
}

#[test]
fn a_suspended_alternative_does_not_hold_back_one_with_text() {
    let mut symbols = SymbolTable::new();
    let rule = Rule::Choice(vec![named("later"), literal("now")]);
    assert_eq!(resolve_rule(&digits(), &mut symbols, &rule), text("now"));
    assert!(symbols.notifier("later").is_some());
}

#[test]
fn every_alternative_is_evaluated() {
    let mut symbols = SymbolTable::new();
    let rule = Rule::Choice(vec![literal("now"), named("one"), pattern("missing"), named("two")]);
    assert_eq!(resolve_rule(&digits(), &mut symbols, &rule), text("now"));
    assert!(symbols.notifier("one").is_some());
    assert!(symbols.notifier("two").is_some());
}

#[test]
fn a_choice_without_text_waits_for_its_suspended_alternatives() {
    let mut symbols = SymbolTable::new();
    let rule = Rule::Choice(vec![named("one"), pattern("missing"), named("two")]);
    assert_eq!(resolve_rule(&digits(), &mut symbols, &rule), waits_for(&["one", "two"]));
    symbols.commit(String::from("two"), Some(String::from("2")));
    assert_eq!(resolve_rule(&digits(), &mut symbols, &rule), text("2"));
}

#[test]
fn a_choice_has_no_text_once_no_alternative_is_suspended() {
    let mut symbols = SymbolTable::new();
    let rule = Rule::Choice(vec![named("one"), pattern("missing")]);
    assert_eq!(resolve_rule(&digits(), &mut symbols, &rule), waits_for(&["one"]));
    symbols.commit(String::from("one"), None);
    assert_eq!(resolve_rule(&digits(), &mut symbols, &rule), no_text());
}

#[test]
fn a_reference_waits_for_the_cell_of_its_name() {
    let mut symbols = SymbolTable::new();
    assert!(symbols.notifier("B").is_none());
    assert_eq!(resolve_rule(&digits(), &mut symbols, &named("B")), waits_for(&["B"]));
    assert!(symbols.notifier("B").is_some());
    assert_eq!(symbols.read("B"), None);
}

#[test]
fn a_reference_resolves_to_what_was_committed() {
    let mut symbols = SymbolTable::new();
    symbols.commit(String::from("B"), Some(String::from("x")));
    symbols.commit(String::from("C"), None);
    assert_eq!(resolve_rule(&digits(), &mut symbols, &named("B")), text("x"));
    assert_eq!(resolve_rule(&digits(), &mut symbols, &named("C")), no_text());
}

#[test]
fn a_reference_keeps_the_cell_that_is_there() {
    let mut symbols = SymbolTable::new();
    symbols.register("B");
    let before = symbols.notifier("B").unwrap();
    assert_eq!(resolve_rule(&digits(), &mut symbols, &named("B")), waits_for(&["B"]));
    let after = symbols.notifier("B").unwrap();
    assert!(std::sync::Arc::ptr_eq(&before, &after));
}

#[test]
fn a_forward_reference_resolves_when_the_referring_task_starts_first() {
    let patterns = PatternTable::new();
    let mut symbols = SymbolTable::new();
    let a = named("B");
    let b = literal("x");
    assert_eq!(resolve_variable(&patterns, &mut symbols, "A", &a), waits_for(&["B"]));
    assert_eq!(symbols.read("A"), None);
    assert_eq!(resolve_variable(&patterns, &mut symbols, "B", &b), text("x"));
    assert_eq!(resolve_variable(&patterns, &mut symbols, "A", &a), text("x"));
    assert_eq!(symbols.read("A"), Some(Some(String::from("x"))));
    assert_eq!(symbols.read("B"), Some(Some(String::from("x"))));
}

#[test]
fn a_forward_reference_resolves_when_the_referred_task_starts_first() {
    let patterns = PatternTable::new();
    let mut symbols = SymbolTable::new();
    let a = named("B");
    let b = literal("x");
    assert_eq!(resolve_variable(&patterns, &mut symbols, "B", &b), text("x"));
    assert_eq!(resolve_variable(&patterns, &mut symbols, "A", &a), text("x"));
    assert_eq!(symbols.read("A"), Some(Some(String::from("x"))));
    assert_eq!(symbols.read("B"), Some(Some(String::from("x"))));
}

#[test]
fn the_commit_wakes_the_task_that_waits_for_it() {
    let patterns = PatternTable::new();
    let mut symbols = SymbolTable::new();
    assert_eq!(resolve_variable(&patterns, &mut symbols, "A", &named("B")), waits_for(&["B"]));
    let mut wait = Box::pin(symbols.notifier("B").unwrap().notified_owned());
    let mut context = std::task::Context::from_waker(std::task::Waker::noop());
    assert!(wait.as_mut().poll(&mut context).is_pending());
    assert_eq!(resolve_variable(&patterns, &mut symbols, "B", &literal("x")), text("x"));
    assert!(wait.as_mut().poll(&mut context).is_ready());
}

#[test]
fn a_variable_without_text_is_committed_as_unresolved() {
    let mut symbols = SymbolTable::new();
    assert_eq!(resolve_variable(&digits(), &mut symbols, "A", &pattern("missing")), no_text());
    assert_eq!(symbols.read("A"), Some(None));
    assert_eq!(resolve_variable(&digits(), &mut symbols, "B", &named("A")), no_text());
    assert_eq!(symbols.read("B"), Some(None));
}

#[test]
fn a_reference_to_a_name_that_no_one_commits_stays_suspended() {
    let patterns = PatternTable::new();
    let mut symbols = SymbolTable::new();
    let rule = Rule::Sequence(vec![literal("("), named("A"), literal(")")]);
    for _ in 0..3 {
        assert_eq!(resolve_variable(&patterns, &mut symbols, "A", &rule), waits_for(&["A"]));
        assert_eq!(symbols.read("A"), None);
    }
}

#[test]
fn a_rule_without_references_resolves_alike_every_time() {
    let patterns = digits();
    let rule = Rule::Sequence(vec![
        literal("v"),
        Rule::Repeat(Box::new(pattern("\\d+"))),
        Rule::Metadata {
            params: MetadataParams { precedence: None, is_token: true, alias: None, field_name: None },
            rule: Box::new(Rule::Sequence(vec![literal("."), pattern("\\d+"), Rule::Blank])),
        },
    ]);
    let mut used = SymbolTable::new();
    used.commit(String::from("v"), Some(String::from("other")));
    used.register("\\d+");
    assert_eq!(resolve(&patterns, &rule), text("v0.0"));
    assert_eq!(resolve(&patterns, &rule), text("v0.0"));
    assert_eq!(resolve_rule(&patterns, &mut used, &rule), text("v0.0"));
    assert!(used.notifier(".").is_none());
}

#[test]
fn a_rule_tree_resolves_from_the_leaves_up() {
    let mut symbols = SymbolTable::new();
    symbols.commit(String::from("key"), Some(String::from("\"k\"")));
    let value = Rule::Choice(vec![named("object"), pattern("\\d+"), literal("null")]);
    let pair = Rule::Sequence(vec![named("key"), literal(":"), value]);
    let object = Rule::Sequence(vec![
        literal("{"),
        Rule::Choice(vec![pair, Rule::Blank]),
        literal("}"),
    ]);
    assert_eq!(resolve_variable(&digits(), &mut symbols, "object", &object), text("{\"k\":0}"));
    assert_eq!(symbols.read("object"), Some(Some(String::from("{\"k\":0}"))));
}

#[test]
fn a_sequence_goes_on_with_the_text_of_its_next_element() {
    assert_eq!(continue_sequence(String::from("ab"), text("cd")), text("abcd"));
    assert_eq!(continue_sequence(String::new(), text("")), text(""));
}

#[test]
fn a_sequence_stops_with_what_its_next_element_came_to() {
    assert_eq!(continue_sequence(String::from("ab"), no_text()), no_text());
    assert_eq!(continue_sequence(String::from("ab"), waits_for(&["x"])), waits_for(&["x"]));
}

#[test]
fn the_first_text_settles_a_choice() {
    assert_eq!(race(text("a"), text("b")), text("a"));
    assert_eq!(race(text("a"), no_text()), text("a"));
    assert_eq!(race(text("a"), waits_for(&["x"])), text("a"));
    assert_eq!(race(no_text(), text("b")), text("b"));
    assert_eq!(race(waits_for(&["x"]), text("b")), text("b"));
}

#[test]
fn a_choice_without_text_waits_with_every_alternative_that_waits() {
    assert_eq!(race(waits_for(&["x"]), waits_for(&["y", "z"])), waits_for(&["x", "y", "z"]));
    assert_eq!(race(waits_for(&["x"]), no_text()), waits_for(&["x"]));
    assert_eq!(race(no_text(), waits_for(&["y"])), waits_for(&["y"]));
    assert_eq!(race(no_text(), no_text()), no_text());
}

#[test]
fn a_commit_that_a_rule_does_not_wait_for_leaves_it_as_it_is() {
    let mut symbols = SymbolTable::new();
    let rule = Rule::Sequence(vec![
        Rule::Choice(vec![named("early"), literal("a")]),
        named("awaited"),
    ]);
    assert_eq!(resolve_rule(&digits(), &mut symbols, &rule), waits_for(&["awaited"]));
    symbols.commit(String::from("early"), Some(String::from("e")));
    symbols.commit(String::from("elsewhere"), None);
    assert_eq!(resolve_rule(&digits(), &mut symbols, &rule), waits_for(&["awaited"]));
    symbols.commit(String::from("awaited"), Some(String::from("w")));
    assert_eq!(resolve_rule(&digits(), &mut symbols, &rule), text("ew"));
}

#[test]
fn the_worked_example_with_digits() {
    let mut table = PatternTable::new();
    table.insert(String::from("\\d+"), String::from("0"));
    let rule = Rule::Sequence(vec![
        Rule::String(String::from("v")),
        Rule::Pattern(String::from("\\d+")),
    ]);
    let resolution = resolve_rule(&table, &mut SymbolTable::new(), &rule);
    assert_eq!(resolution, Resolution::Resolved(Some(String::from("v0"))));
}

#[test]
fn the_worked_example_with_a_missing_alternative() {
    let rule = Rule::Choice(vec![
        Rule::Pattern(String::from("missing")),
        Rule::String(String::from("ok")),
    ]);
    let resolution = resolve_rule(&PatternTable::new(), &mut SymbolTable::new(), &rule);
    assert_eq!(resolution, Resolution::Resolved(Some(String::from("ok"))));
}

#[test]
fn variables_that_refer_to_each_other_stay_suspended() {
    let patterns = PatternTable::new();
    let mut symbols = SymbolTable::new();
    let a = Rule::Sequence(vec![literal("a"), named("B")]);
    let b = Rule::Sequence(vec![literal("b"), named("A")]);
    for _ in 0..3 {
        assert_eq!(resolve_variable(&patterns, &mut symbols, "A", &a), waits_for(&["B"]));
        assert_eq!(resolve_variable(&patterns, &mut symbols, "B", &b), waits_for(&["A"]));
    }
    assert_eq!(symbols.read("A"), None);
    assert_eq!(symbols.read("B"), None);
}

#[test]
fn a_choice_lets_a_variable_out_of_its_own_reference() {
    let patterns = PatternTable::new();
    let mut symbols = SymbolTable::new();
    let list = Rule::Choice(vec![
        Rule::Sequence(vec![literal("x"), named("list")]),
        literal("x"),
    ]);
    assert_eq!(resolve_variable(&patterns, &mut symbols, "list", &list), text("x"));
    assert_eq!(symbols.read("list"), Some(Some(String::from("x"))));
}
