//! The HULK grammar together with its LALR(1) table, ready to parse.
use vstd::prelude::*;
use crate::lexer::token::Token;
use crate::parser::grammar::{Grammar, hulk_grammar};
use crate::parser::grammar::hulk_grammar::{HULK_GRAMMAR_LEN, hulk_rules};
use crate::parser::lalr::first_follow::{FirstFollow, first_least, follow_least};
use crate::parser::grammar::production::Production;
use crate::parser::grammar::symbol::{NonTerminal, Terminal};
use crate::parser::grammar::token_translator::{TokenStream, ParserToken};
use crate::parser::lalr::automaton::{core_base, num_cells};
use crate::parser::lalr::parse_table::{ParseTable, ConflictKind, conflict_text, action_header, table_lines};
use crate::text::{decimal, texts};
use crate::parser::lalr::table_builder::{TableBuilder, table_valid, check_table, reduces_on_follow, lalr_table};
use crate::parser::lalr::automaton::Automaton;
use crate::parser::lalr::item::ItemSet;
use crate::parser::ast::Program;
use crate::parser::engine::error::ParseError;
use crate::parser::engine::parser::{Parser, lookahead_at, refused_at_start, refused, Config, run, action_at, topmost_program, stuck};
use crate::parser::lalr::parse_table::Action;
use crate::parser::ast::Span;

verus! {

/// A grammar and a table whose entries all refer to that grammar.
pub struct ParserDriver {
    grammar: Grammar,
    table: ParseTable,
}

/// With bodies of at most ten symbols, `p` productions take at most `11 p` cells.
pub proof fn lemma_core_base_small(prods: Seq<Production>, p: int)
    requires
        0 <= p <= prods.len(),
        forall|i: int| 0 <= i < prods.len() ==> (#[trigger] prods[i]).body@.len() <= 10,
    ensures
        core_base(prods, p) <= 11 * p,
    decreases p,
{
    if p > 0 {
        lemma_core_base_small(prods, p - 1);
    }
}

impl ParserDriver {
    /// Every entry of the table refers to the grammar.
    #[verifier::type_invariant]
    pub closed spec fn wf(&self) -> bool {
        table_valid(self.table, self.grammar.productions@)
    }

    pub closed spec fn spec_grammar(&self) -> Grammar {
        self.grammar
    }

    pub closed spec fn spec_table(&self) -> ParseTable {
        self.table
    }

    /// Builds the HULK grammar and its LALR(1) table.
    pub fn new() -> (d: Self)
        ensures
            d.wf(),
            d.spec_grammar().productions@.len() == HULK_GRAMMAR_LEN,
            d.spec_grammar().start == NonTerminal::Start,
            forall|i: int| 0 <= i < HULK_GRAMMAR_LEN ==> (#[trigger] d.spec_grammar().productions@[i]).head == hulk_rules()[i].0
                && d.spec_grammar().productions@[i].body@ == hulk_rules()[i].1,
            d.spec_table().num_states >= 1,
            exists|ff: FirstFollow, a: Automaton, remap: Seq<usize>, merged: Seq<ItemSet>, rows: Seq<Vec<Option<usize>>>| {
                &&& ff.wf()
                &&& ff.first_closed(d.spec_grammar().productions@)
                &&& ff.follow_closed(d.spec_grammar().productions@, d.spec_grammar().start)
                &&& first_least(ff.first@, ff.nullable@, d.spec_grammar().productions@)
                &&& follow_least(ff.first@, ff.nullable@, ff.follow@, d.spec_grammar().productions@, d.spec_grammar().start)
                &&& #[trigger] lalr_table(d.spec_table(), d.spec_grammar().productions@, ff, a, remap, merged, rows)
                &&& reduces_on_follow(d.spec_table(), d.spec_grammar().productions@, ff)
            },
    {
        let grammar = hulk_grammar::build();
        proof {
            lemma_core_base_small(grammar.productions@, HULK_GRAMMAR_LEN as int);
            assert(num_cells(grammar.productions@) <= usize::MAX);
        }
        let table = TableBuilder::new(&grammar).build();
        ParserDriver { grammar, table }
    }

    /// A driver from a grammar and a table built elsewhere (a cache), when
    /// every entry of the table refers to the grammar; `None` otherwise.
    pub fn from_parts(grammar: Grammar, table: ParseTable) -> (d: Option<Self>)
        ensures
            d is Some <==> table_valid(table, grammar.productions@),
            d matches Some(x) ==> x.wf() && x.spec_grammar() == grammar && x.spec_table() == table,
    {
        if check_table(&table, &grammar) {
            Some(ParserDriver { grammar, table })
        } else {
            None
        }
    }

    /// The grammar.
    pub fn grammar(&self) -> (g: &Grammar)
        ensures
            *g == self.spec_grammar(),
    {
        &self.grammar
    }

    /// The table.
    pub fn table(&self) -> (t: &ParseTable)
        ensures
            *t == self.spec_table(),
    {
        &self.table
    }

    /// Parses a token sequence.
    pub fn parse(&self, tokens: Vec<Token>) -> (r: Result<Program, ParseError>)
        ensures
            forall|t0: ParserToken| #[trigger] lookahead_at(tokens@, 0, t0)
                && self.spec_table().spec_action(0, t0.terminal) is None
                ==> (r matches Err(e) && refused_at_start(self.spec_table(), t0, e)),
            r matches Ok(p) ==> exists|tr: Seq<Config>|
                #[trigger] run(self.spec_table(), self.spec_grammar().productions@, tokens@, 0, tr)
                && action_at(self.spec_table(), tr.last()) == Some(Action::Accept)
                && topmost_program(tr.last().stack) == Some(p),
            r matches Err(e) ==> e.kind is UnexpectedToken || e.kind is UnexpectedEof || e.kind is InternalError,
            r matches Err(e) ==> (!(e.kind is InternalError) ==> exists|tr: Seq<Config>|
                #[trigger] run(self.spec_table(), self.spec_grammar().productions@, tokens@, 0, tr)
                && action_at(self.spec_table(), tr.last()) is None
                && refused(self.spec_table(), tr.last(), e)),
            r matches Err(e) ==> (e.kind is InternalError ==> exists|tr: Seq<Config>|
                #[trigger] run(self.spec_table(), self.spec_grammar().productions@, tokens@, 0, tr)
                && (tr.len() > usize::MAX || stuck(self.spec_table(), self.spec_grammar().productions@, tr.last()))),
    {
        proof { use_type_invariant(self); }
        let stream = TokenStream::new(tokens);
        let parser = Parser::new(&self.grammar, &self.table);
        let r = parser.parse(stream);
        proof {
            assert(*parser.table() == self.spec_table());
        }
        r
    }

    /// Number of LALR(1) states.
    pub fn num_states(&self) -> (n: usize)
        ensures
            n == self.spec_table().num_states,
    {
        self.table.num_states
    }

    /// The conflict report of the table (see `ParseTable::conflict_report`).
    pub fn conflict_report(&self) -> (lines: Vec<String>)
        ensures
            self.spec_table().conflicts@.len() == 0 ==> texts(lines@) == seq!["Sin conflictos — gramática LALR(1) limpia."@],
            self.spec_table().conflicts@.len() > 0 ==> texts(lines@) == seq![decimal(self.spec_table().conflicts@.len()) + " conflicto(s):"@]
                + self.spec_table().conflicts@.map_values(|c: ConflictKind| conflict_text(c)),
    {
        self.table.conflict_report()
    }

    /// The listing of the ACTION table (see `ParseTable::action_report`).
    pub fn action_report(&self) -> (lines: Vec<String>)
        ensures
            texts(lines@) == seq![action_header(table_lines(self.spec_table().action@, self.spec_grammar().productions@, self.spec_table().num_states as nat).len())]
                + table_lines(self.spec_table().action@, self.spec_grammar().productions@, self.spec_table().num_states as nat),
    {
        proof { use_type_invariant(self); }
        self.table.action_report(&self.grammar)
    }

    /// Whether building the table met a conflict.
    pub fn has_conflicts(&self) -> (b: bool)
        ensures
            b == (self.spec_table().conflicts@.len() > 0),
    {
        self.table.has_conflicts()
    }
}

} // verus!
