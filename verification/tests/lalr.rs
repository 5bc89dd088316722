use hulk_compiler::parser::grammar::production::Production;
use hulk_compiler::parser::grammar::symbol::{NonTerminal, Symbol, Terminal};
use hulk_compiler::parser::grammar::Grammar;
use hulk_compiler::parser::lalr::automaton::Automaton;
use hulk_compiler::parser::lalr::item::{Item, ItemSet};
use hulk_compiler::parser::lalr::{Action, FirstFollow, TableBuilder};

fn mini_grammar() -> Grammar {
    let mut g = Grammar::new(NonTerminal::Start);
    g.add(Production::new(NonTerminal::Start, vec![Symbol::NT(NonTerminal::Expr), Symbol::T(Terminal::Eof)]));
    g.add(Production::new(
        NonTerminal::Expr,
        vec![Symbol::NT(NonTerminal::Expr), Symbol::T(Terminal::Plus), Symbol::NT(NonTerminal::MulExpr)],
    ));
    g.add(Production::new(NonTerminal::Expr, vec![Symbol::NT(NonTerminal::MulExpr)]));
    g.add(Production::new(
        NonTerminal::MulExpr,
        vec![Symbol::NT(NonTerminal::MulExpr), Symbol::T(Terminal::Multiply), Symbol::NT(NonTerminal::PrimaryExpr)],
    ));
    g.add(Production::new(NonTerminal::MulExpr, vec![Symbol::NT(NonTerminal::PrimaryExpr)]));
    g.add(Production::new(
        NonTerminal::PrimaryExpr,
        vec![Symbol::T(Terminal::LParen), Symbol::NT(NonTerminal::Expr), Symbol::T(Terminal::RParen)],
    ));
    g.add(Production::new(NonTerminal::PrimaryExpr, vec![Symbol::T(Terminal::Identifier)]));
    g
}

fn expr_grammar() -> Grammar {
    let mut g = Grammar::new(NonTerminal::Start);
    g.add(Production::new(NonTerminal::Start, vec![Symbol::NT(NonTerminal::Expr), Symbol::T(Terminal::Eof)]));
    g.add(Production::new(
        NonTerminal::Expr,
        vec![Symbol::NT(NonTerminal::Expr), Symbol::T(Terminal::Plus), Symbol::NT(NonTerminal::MulExpr)],
    ));
    g.add(Production::new(NonTerminal::Expr, vec![Symbol::NT(NonTerminal::MulExpr)]));
    g.add(Production::new(NonTerminal::MulExpr, vec![Symbol::T(Terminal::Identifier)]));
    g
}

#[test]
fn first_of_primary_expr() {
    let g = mini_grammar();
    let ff = FirstFollow::compute(&g);
    let first = ff.first_terminals(&NonTerminal::PrimaryExpr);
    assert!(first.contains(&Terminal::LParen));
    assert!(first.contains(&Terminal::Identifier));
    assert!(!ff.is_nullable(&NonTerminal::PrimaryExpr));
}

#[test]
fn first_of_expr() {
    let g = mini_grammar();
    let ff = FirstFollow::compute(&g);
    let first = ff.first_terminals(&NonTerminal::Expr);
    assert!(first.contains(&Terminal::LParen));
    assert!(first.contains(&Terminal::Identifier));
    assert!(!ff.is_nullable(&NonTerminal::Expr));
}

#[test]
fn follow_of_expr() {
    let g = mini_grammar();
    let ff = FirstFollow::compute(&g);
    let follow = ff.follow_of(&NonTerminal::Expr);
    assert!(follow.contains(&Terminal::Eof));
    assert!(follow.contains(&Terminal::RParen));
    assert!(follow.contains(&Terminal::Plus));
}

#[test]
fn follow_of_mul_expr() {
    let g = mini_grammar();
    let ff = FirstFollow::compute(&g);
    let follow = ff.follow_of(&NonTerminal::MulExpr);
    assert!(follow.contains(&Terminal::Eof));
    assert!(follow.contains(&Terminal::RParen));
    assert!(follow.contains(&Terminal::Plus));
    assert!(follow.contains(&Terminal::Multiply));
}

#[test]
fn nullable_nonterminal() {
    let mut g = Grammar::new(NonTerminal::Start);
    g.add(Production::new(NonTerminal::Start, vec![Symbol::NT(NonTerminal::Expr), Symbol::T(Terminal::Eof)]));
    g.add(Production::new(NonTerminal::Expr, vec![Symbol::NT(NonTerminal::MulExpr)]));
    g.add(Production::epsilon(NonTerminal::MulExpr));
    let ff = FirstFollow::compute(&g);
    assert!(ff.is_nullable(&NonTerminal::MulExpr));
    assert!(ff.is_nullable(&NonTerminal::Expr));
}

#[test]
fn first_of_str_with_lookahead() {
    let g = mini_grammar();
    let ff = FirstFollow::compute(&g);
    let syms = vec![Symbol::NT(NonTerminal::PrimaryExpr)];
    let result = ff.first_of_str_with_lookahead(&syms, &Terminal::Eof);
    assert!(result.contains(&Terminal::LParen));
    assert!(result.contains(&Terminal::Identifier));
    assert!(!result.contains(&Terminal::Eof));
}

#[test]
fn first_of_empty_str_includes_lookahead() {
    let g = mini_grammar();
    let ff = FirstFollow::compute(&g);
    let result = ff.first_of_str_with_lookahead(&[], &Terminal::Eof);
    assert!(result.contains(&Terminal::Eof));
}

#[test]
fn item_not_complete_at_start() {
    let g = expr_grammar();
    let item = Item::new(0, 0, Terminal::Eof);
    assert!(!item.is_complete(&g));
    assert_eq!(item.symbol_after_dot(&g), Some(&Symbol::NT(NonTerminal::Expr)));
}

#[test]
fn item_complete_at_end() {
    let g = expr_grammar();
    let item = Item::new(3, 1, Terminal::Eof);
    assert!(item.is_complete(&g));
    assert!(item.symbol_after_dot(&g).is_none());
}

#[test]
fn item_advance() {
    let g = expr_grammar();
    let item = Item::new(0, 0, Terminal::Eof);
    let adv = item.advance();
    assert_eq!(adv.dot, 1);
    assert_eq!(adv.symbol_after_dot(&g), Some(&Symbol::T(Terminal::Eof)));
}

#[test]
fn beta_lookahead_content() {
    let g = expr_grammar();
    let item = Item::new(1, 1, Terminal::Eof);
    let bl = item.beta_lookahead(&g);
    assert_eq!(bl.len(), 2);
    assert_eq!(bl[0], Symbol::NT(NonTerminal::MulExpr));
    assert_eq!(bl[1], Symbol::T(Terminal::Eof));
}

#[test]
fn item_set_core() {
    let items = vec![Item::new(0, 1, Terminal::Eof), Item::new(0, 1, Terminal::Plus), Item::new(1, 0, Terminal::Eof)];
    let set = ItemSet::new(0, items);
    let core = set.core_pairs();
    assert_eq!(core.len(), 2);
    assert!(core.contains(&(0, 1)));
    assert!(core.contains(&(1, 0)));
}

#[test]
fn transition_symbols() {
    let g = expr_grammar();
    let items = vec![Item::new(0, 0, Terminal::Eof), Item::new(1, 0, Terminal::Eof), Item::new(2, 0, Terminal::Eof)];
    let set = ItemSet::new(0, items);
    let syms = set.transition_symbols(&g);
    assert!(syms.contains(&Symbol::NT(NonTerminal::Expr)));
    assert!(syms.contains(&Symbol::NT(NonTerminal::MulExpr)));
    assert_eq!(syms.len(), 2);
}

#[test]
fn automaton_has_states() {
    let g = expr_grammar();
    let ff = FirstFollow::compute(&g);
    let auto = Automaton::build(&g, &ff);
    assert!(auto.num_states() > 0);
}

#[test]
fn initial_state_has_start_item() {
    let g = expr_grammar();
    let ff = FirstFollow::compute(&g);
    let auto = Automaton::build(&g, &ff);
    let state0 = &auto.states[0];
    let has_start = state0.items.iter().any(|item| item.prod_id == 0 && item.dot == 0);
    assert!(has_start);
}

#[test]
fn transitions_exist_from_initial() {
    let g = expr_grammar();
    let ff = FirstFollow::compute(&g);
    let auto = Automaton::build(&g, &ff);
    assert!(auto.get_transition(0, &Symbol::NT(NonTerminal::Expr)).is_some());
}

#[test]
fn accept_action_exists() {
    let g = expr_grammar();
    let table = TableBuilder::new(&g).build();
    let has_accept = table.action.iter().any(|row| row.iter().any(|a| *a == Some(Action::Accept)));
    assert!(has_accept);
}

#[test]
fn shift_on_identifier_from_initial() {
    let g = expr_grammar();
    let table = TableBuilder::new(&g).build();
    let action = table.get_action(0, &Terminal::Identifier);
    assert!(matches!(action, Some(Action::Shift(_))), "ACTION[0][IDENTIFIER] should be Shift, is {:?}", action);
}

#[test]
fn goto_on_expr_from_initial() {
    let g = expr_grammar();
    let table = TableBuilder::new(&g).build();
    assert!(table.get_goto(0, &NonTerminal::Expr).is_some());
}

#[test]
fn lalr_table_has_no_conflicts_for_expression_grammar() {
    let g = expr_grammar();
    let table = TableBuilder::new(&g).build();
    assert!(!table.has_conflicts());
}

#[test]
fn reductions_happen_only_on_follow_terminals() {
    let g = hulk_compiler::parser::grammar::hulk_grammar::build();
    let ff = FirstFollow::compute(&g);
    let table = TableBuilder::new(&g).build();
    let terminals = hulk_compiler::parser::grammar::symbol::terminals_by_name();
    for s in 0..table.num_states {
        for t in terminals.iter() {
            if let Some(Action::Reduce(p)) = table.get_action(s, t) {
                let head = g.production(*p).head;
                assert!(ff.follow_of(&head).contains(t), "state {} reduces {} on {:?}", s, p, t);
            }
        }
    }
}

#[test]
fn accept_replaced_by_reduce_is_a_conflict() {
    let mut t = hulk_compiler::parser::lalr::parse_table::ParseTable::new(1);
    t.set_action(0, Terminal::Eof, Action::Accept);
    t.set_action(0, Terminal::Eof, Action::Reduce(2));
    assert!(t.has_conflicts());
    assert_eq!(t.conflicts.len(), 1);
}
