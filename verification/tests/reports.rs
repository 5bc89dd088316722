use hulk_compiler::parser::engine::ParserDriver;
use hulk_compiler::parser::grammar::production::Production;
use hulk_compiler::parser::grammar::symbol::{NonTerminal, Symbol, Terminal};
use hulk_compiler::parser::grammar::Grammar;
use hulk_compiler::parser::lalr::automaton::Automaton;
use hulk_compiler::parser::lalr::parse_table::{Action, ParseTable};
use hulk_compiler::parser::lalr::FirstFollow;

#[test]
fn conflict_report_without_conflicts() {
    let t = ParseTable::new(3);
    assert_eq!(t.conflict_report(), vec!["Sin conflictos — gramática LALR(1) limpia.".to_string()]);
}

#[test]
fn conflict_report_lists_each_conflict() {
    let mut t = ParseTable::new(2);
    t.set_action(1, Terminal::Plus, Action::Reduce(4));
    t.set_action(1, Terminal::Plus, Action::Shift(0));
    t.set_action(0, Terminal::Semicolon, Action::Reduce(5));
    t.set_action(0, Terminal::Semicolon, Action::Reduce(3));
    let lines = t.conflict_report();
    assert_eq!(
        lines,
        vec![
            "2 conflicto(s):".to_string(),
            "  [S/R] Estado 1, token '+': Shift→0 vs Reduce(prod 4)".to_string(),
            "  [R/R] Estado 0, token ';': Reduce(5) vs Reduce(3)".to_string(),
        ]
    );
}

#[test]
fn grammar_listing_shows_each_production() {
    let mut g = Grammar::new(NonTerminal::Start);
    g.add(Production::new(NonTerminal::Start, vec![Symbol::NT(NonTerminal::Program), Symbol::T(Terminal::Eof)]));
    g.add(Production::epsilon(NonTerminal::ElifChain));
    assert_eq!(g.listing(), vec!["[0] Start → Program $".to_string(), "[1] ElifChain → ε".to_string()]);
}

#[test]
fn action_report_lists_cells_by_state_then_terminal_name() {
    let mut g = Grammar::new(NonTerminal::Start);
    g.add(Production::new(NonTerminal::Start, vec![Symbol::NT(NonTerminal::Program), Symbol::T(Terminal::Eof)]));
    g.add(Production::new(NonTerminal::Program, vec![Symbol::T(Terminal::Number)]));
    let mut t = ParseTable::new(2);
    t.set_action(0, Terminal::Semicolon, Action::Reduce(1));
    t.set_action(0, Terminal::Number, Action::Shift(1));
    t.set_action(1, Terminal::Eof, Action::Accept);
    let lines = t.action_report(&g);
    assert_eq!(
        lines,
        vec![
            "=== ACTION table (3 entradas) ===".to_string(),
            "  ACTION[0][NUMBER] = Shift(1)".to_string(),
            "  ACTION[0][;] = Reduce(1: Program → 1)".to_string(),
            "  ACTION[1][$] = Accept".to_string(),
        ]
    );
}

#[test]
fn driver_reports_agree_with_its_table() {
    let d = ParserDriver::new();
    let conflicts = d.conflict_report();
    assert!(conflicts[0].ends_with("conflicto(s):"));
    assert_eq!(conflicts.len(), d.table().conflicts.len() + 1);
    let actions = d.action_report();
    let filled: usize = d.table().action.iter().map(|row| row.iter().filter(|c| c.is_some()).count()).sum();
    assert_eq!(actions.len(), filled + 1);
    assert_eq!(actions[0], format!("=== ACTION table ({} entradas) ===", filled));
}

fn small_grammar() -> Grammar {
    let mut g = Grammar::new(NonTerminal::Start);
    g.add(Production::new(NonTerminal::Start, vec![Symbol::NT(NonTerminal::Expr), Symbol::T(Terminal::Eof)]));
    g.add(Production::new(
        NonTerminal::Expr,
        vec![Symbol::NT(NonTerminal::Expr), Symbol::T(Terminal::Plus), Symbol::NT(NonTerminal::MulExpr)],
    ));
    g.add(Production::new(NonTerminal::Expr, vec![Symbol::NT(NonTerminal::MulExpr)]));
    g.add(Production::new(NonTerminal::MulExpr, vec![Symbol::T(Terminal::Identifier)]));
    g.add(Production::epsilon(NonTerminal::ElifChain));
    g
}

#[test]
fn first_follow_report_lists_sorted_sets() {
    let g = small_grammar();
    let ff = FirstFollow::compute(&g);
    let lines = ff.report();
    assert_eq!(lines[0], "=== FIRST ===");
    let follow_at = lines.iter().position(|l| l == "=== FOLLOW ===").unwrap();
    assert_eq!(follow_at, 55);
    assert_eq!(lines.len(), 110);
    assert!(lines.contains(&"  FIRST(Expr) = { IDENTIFIER }".to_string()));
    assert!(lines.contains(&"  FIRST(ElifChain) = { ε }".to_string()));
    assert!(lines.contains(&"  FIRST(Program) = {  }".to_string()));
    assert!(lines.contains(&"  FOLLOW(Expr) = { $, + }".to_string()));
    assert!(lines.contains(&"  FOLLOW(MulExpr) = { $, + }".to_string()));
    // non-terminals come in name order
    let firsts: Vec<&String> = lines[1..follow_at].iter().collect();
    let mut sorted = firsts.clone();
    sorted.sort();
    assert_eq!(firsts, sorted);
}

#[test]
fn automaton_report_lists_states_items_and_edges() {
    let g = small_grammar();
    let ff = FirstFollow::compute(&g);
    let a = Automaton::build(&g, &ff);
    let lines = a.report(&g);
    assert_eq!(lines[0], "=== Estado 0 ===");
    assert_eq!(lines[1], "  [Start → • Expr $, Eof]");
    assert!(lines.contains(&"  [Expr → • Expr + MulExpr, Eof]".to_string()));
    assert!(lines.contains(&"  [MulExpr → IDENTIFIER •, Plus]".to_string()));
    assert!(lines.iter().any(|l| l.starts_with("  → 0  ──Expr──>  Estado ")));
    let headings = lines.iter().filter(|l| l.starts_with("=== Estado ")).count();
    assert_eq!(headings, a.num_states());
}
