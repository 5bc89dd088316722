//! The LR parsing loop: shift, reduce by a semantic action, accept or report.
use vstd::prelude::*;
use crate::parser::grammar::Grammar;
use crate::parser::grammar::symbol::{Terminal, NUM_TERMINALS, terminal_index, lemma_terminal_at, lemma_terminal_index};
use crate::parser::grammar::token_translator::{ParserToken, TokenStream, visible, token_terminal};
use crate::lexer::token::Token;
use crate::parser::lalr::parse_table::{Action, ParseTable};
use crate::parser::lalr::table_builder::table_valid;
use crate::parser::lalr::first_follow::terminals_of_table;
use crate::parser::ast::{Program, Span, Expr};
use crate::parser::grammar::production::Production;
use crate::parser::engine::action_rules::built;
use crate::parser::engine::error::{ParseError, ParseErrorKind};
use crate::parser::engine::semantic_actions::{reduce, StackValue};

verus! {

/// The lookahead that a stream of `tokens` at `pos` hands the parser: its
/// first visible token from `pos` on, translated, or the end of input (at
/// line and column 0) when none is left.
pub open spec fn lookahead_at(tokens: Seq<Token>, pos: int, t: ParserToken) -> bool {
    ||| exists|k: int| #![trigger tokens[k]] pos <= k < tokens.len() && visible(tokens[k])
            && (forall|j: int| pos <= j < k ==> !visible(#[trigger] tokens[j]))
            && token_terminal(tokens[k].token_type) == Some(t.terminal)
            && t.lexeme@ == tokens[k].lexeme@ && t.line == tokens[k].line && t.column == tokens[k].column
    ||| (forall|j: int| pos <= j < tokens.len() ==> !visible(#[trigger] tokens[j]))
            && t.terminal == Terminal::Eof && t.lexeme@.len() == 0 && t.line == 0 && t.column == 0
}

/// A stream position has one lookahead, up to the lexeme's representation.
pub proof fn lemma_lookahead_unique(tokens: Seq<Token>, pos: int, a: ParserToken, b: ParserToken)
    requires
        lookahead_at(tokens, pos, a),
        lookahead_at(tokens, pos, b),
    ensures
        a.terminal == b.terminal,
        a.lexeme@ == b.lexeme@,
        a.line == b.line,
        a.column == b.column,
{
    if exists|k: int| #![trigger tokens[k]] pos <= k < tokens.len() && visible(tokens[k])
            && (forall|j: int| pos <= j < k ==> !visible(#[trigger] tokens[j])) {
        let k = choose|k: int| #![trigger tokens[k]] pos <= k < tokens.len() && visible(tokens[k])
            && (forall|j: int| pos <= j < k ==> !visible(#[trigger] tokens[j]));
        assert(!(forall|j: int| pos <= j < tokens.len() ==> !visible(#[trigger] tokens[j])));
        let ka = choose|ka: int| #![trigger tokens[ka]] pos <= ka < tokens.len() && visible(tokens[ka])
            && (forall|j: int| pos <= j < ka ==> !visible(#[trigger] tokens[j]))
            && token_terminal(tokens[ka].token_type) == Some(a.terminal)
            && a.lexeme@ == tokens[ka].lexeme@ && a.line == tokens[ka].line && a.column == tokens[ka].column;
        let kb = choose|kb: int| #![trigger tokens[kb]] pos <= kb < tokens.len() && visible(tokens[kb])
            && (forall|j: int| pos <= j < kb ==> !visible(#[trigger] tokens[j]))
            && token_terminal(tokens[kb].token_type) == Some(b.terminal)
            && b.lexeme@ == tokens[kb].lexeme@ && b.line == tokens[kb].line && b.column == tokens[kb].column;
        if ka < kb {
            assert(!visible(tokens[ka]));
        }
        if kb < ka {
            assert(!visible(tokens[kb]));
        }
    } else {
        if exists|ka: int| #![trigger tokens[ka]] pos <= ka < tokens.len() && visible(tokens[ka])
            && (forall|j: int| pos <= j < ka ==> !visible(#[trigger] tokens[j]))
            && token_terminal(tokens[ka].token_type) == Some(a.terminal) {
        }
        if exists|kb: int| #![trigger tokens[kb]] pos <= kb < tokens.len() && visible(tokens[kb])
            && (forall|j: int| pos <= j < kb ==> !visible(#[trigger] tokens[j]))
            && token_terminal(tokens[kb].token_type) == Some(b.terminal) {
        }
    }
}

/// The error owed when the table has no entry for the first lookahead `t0`
/// in the start state: end of input or the unexpected token, at the
/// token's position, with the terminals the start state accepts.
pub open spec fn refused_at_start(table: ParseTable, t0: ParserToken, e: ParseError) -> bool {
    &&& e.span == (Span { line: t0.line, column: t0.column })
    &&& t0.terminal == Terminal::Eof ==> (e.kind matches ParseErrorKind::UnexpectedEof { expected }
            && forall|t: Terminal| expected@.contains(t) <==> table.spec_action(0, t) is Some)
    &&& t0.terminal != Terminal::Eof ==> (e.kind matches ParseErrorKind::UnexpectedToken { found, lexeme, expected }
            && found == t0.terminal && lexeme@ == t0.lexeme@
            && forall|t: Terminal| expected@.contains(t) <==> table.spec_action(0, t) is Some)
}

/// The error owed where the configuration `c` finds no ACTION entry for
/// its lookahead: end of input or the unexpected token with its text, at
/// the token's position, with exactly the terminals that the state on top
/// of the stack accepts, and no context.
pub open spec fn refused(table: ParseTable, c: Config, e: ParseError) -> bool {
    let s = c.stack.last().0 as int;
    &&& e.span == (Span { line: c.la.line, column: c.la.column })
    &&& e.context is None
    &&& c.la.terminal == Terminal::Eof ==> (e.kind matches ParseErrorKind::UnexpectedEof { expected }
            && forall|t: Terminal| expected@.contains(t) <==> table.spec_action(s, t) is Some)
    &&& c.la.terminal != Terminal::Eof ==> (e.kind matches ParseErrorKind::UnexpectedToken { found, lexeme, expected }
            && found == c.la.terminal && lexeme@ == c.la.lexeme@
            && forall|t: Terminal| expected@.contains(t) <==> table.spec_action(s, t) is Some)
}

/// Where a stream of `tokens` read from `pos` stands after handing out its
/// next token: just past the first visible token from `pos` on, or at the
/// end when none is left.
pub open spec fn lookahead_end(tokens: Seq<Token>, pos: int, to: int) -> bool {
    ||| exists|k: int| #![trigger tokens[k]] pos <= k < tokens.len() && visible(tokens[k])
            && (forall|j: int| pos <= j < k ==> !visible(#[trigger] tokens[j])) && to == k + 1
    ||| (forall|j: int| pos <= j < tokens.len() ==> !visible(#[trigger] tokens[j])) && to == tokens.len()
}

/// Reading from `pos` hands out `t` and leaves the stream at `to`.
pub open spec fn reads(tokens: Seq<Token>, pos: int, t: ParserToken, to: int) -> bool {
    lookahead_at(tokens, pos, t) && lookahead_end(tokens, pos, to)
}

/// The value a shifted token puts on the stack.
pub open spec fn token_value(tok: ParserToken, v: StackValue) -> bool {
    let sp = Span { line: tok.line, column: tok.column };
    if tok.terminal == Terminal::True {
        v == StackValue::Bool(true, sp)
    } else if tok.terminal == Terminal::False {
        v == StackValue::Bool(false, sp)
    } else {
        v matches StackValue::Lexeme(s, p) && s@ == tok.lexeme@ && p == sp
    }
}

/// The values of the top `n` entries of the stack, bottom one first.
pub open spec fn stack_args(stack: Seq<(usize, StackValue)>, n: int) -> Seq<StackValue> {
    Seq::new(n as nat, |i: int| stack[stack.len() - n + i].1)
}

/// The position a reduction of the top `n` entries is reported at: that of
/// the first of them when it has one, otherwise line and column 0.
pub open spec fn stack_span(stack: Seq<(usize, StackValue)>, n: int) -> Span {
    if n > 0 {
        match stack[stack.len() - n].1 {
            StackValue::Lexeme(_, s) => s,
            StackValue::Bool(_, s) => s,
            StackValue::Expr(e) => e.span,
            _ => Span { line: 0, column: 0 },
        }
    } else {
        Span { line: 0, column: 0 }
    }
}

/// A reduced value `v` becomes `w` once numbered: an expression without an
/// id (id 0) takes the next id, which then moves on (up to the largest one).
pub open spec fn renumbered(v: StackValue, id: u32, w: StackValue, id2: u32) -> bool {
    if v matches StackValue::Expr(e) && e.id == 0 {
        &&& w == StackValue::Expr(Expr { id, kind: v->Expr_0.kind, span: v->Expr_0.span })
        &&& id2 == if id < u32::MAX { (id + 1) as u32 } else { id }
    } else {
        w == v && id2 == id
    }
}

/// A configuration of the LR run: the stack of states with their values,
/// where the stream stands, the lookahead, and the next node id.
pub ghost struct Config {
    pub stack: Seq<(usize, StackValue)>,
    pub read: int,
    pub la: ParserToken,
    pub next_id: u32,
}

/// The ACTION entry a configuration consults.
pub open spec fn action_at(table: ParseTable, c: Config) -> Option<Action> {
    table.spec_action(c.stack.last().0 as int, c.la.terminal)
}

/// One step of the LR run from `c` to `d`: a shift pushes the lookahead's
/// state and value and reads the next token; a reduction by `p` pops the
/// body's entries and pushes the GOTO state with the value the production
/// builds from them, numbered.
pub open spec fn step(table: ParseTable, prods: Seq<Production>, tokens: Seq<Token>, c: Config, d: Config) -> bool {
    &&& c.stack.len() >= 1
    &&& match action_at(table, c) {
        Some(Action::Shift(s)) => {
            &&& d.stack.len() == c.stack.len() + 1
            &&& d.stack.drop_last() == c.stack
            &&& d.stack.last().0 == s
            &&& token_value(c.la, d.stack.last().1)
            &&& reads(tokens, c.read, d.la, d.read)
            &&& d.next_id == c.next_id
        },
        Some(Action::Reduce(p)) => {
            let n = prods[p as int].body@.len() as int;
            let m = c.stack.len() - n;
            &&& n < c.stack.len()
            &&& exists|v: StackValue| #[trigger] built(prods[p as int], stack_args(c.stack, n), stack_span(c.stack, n), v)
                && renumbered(v, c.next_id, d.stack.last().1, d.next_id)
            &&& d.stack.len() == m + 1
            &&& d.stack.drop_last() == c.stack.take(m)
            &&& table.spec_goto(c.stack[m - 1].0 as int, prods[p as int].head) == Some(d.stack.last().0)
            &&& d.read == c.read
            &&& d.la == c.la
        },
        _ => false,
    }
}

/// `tr` is a run of the table over the tokens read from `pos0`: it starts
/// with state 0 and the first lookahead, and each configuration steps to
/// the next.
pub open spec fn run(table: ParseTable, prods: Seq<Production>, tokens: Seq<Token>, pos0: int, tr: Seq<Config>) -> bool {
    &&& tr.len() >= 1
    &&& tr[0].stack == seq![(0usize, StackValue::Empty)]
    &&& reads(tokens, pos0, tr[0].la, tr[0].read)
    &&& tr[0].next_id == 1
    &&& forall|i: int| 0 <= i < tr.len() - 1 ==> #[trigger] step(table, prods, tokens, tr[i], tr[i + 1])
}

/// The program nearest the top of the stack, if any.
pub open spec fn topmost_program(stack: Seq<(usize, StackValue)>) -> Option<Program>
    decreases stack.len(),
{
    if stack.len() == 0 {
        None
    } else if stack.last().1 is Program {
        Some(stack.last().1->Program_0)
    } else {
        topmost_program(stack.drop_last())
    }
}

/// A configuration the run cannot go on from: a reduction whose body is
/// longer than the stack, whose values build nothing, or with no GOTO
/// entry; or an acceptance with no program on the stack.
pub open spec fn stuck(table: ParseTable, prods: Seq<Production>, c: Config) -> bool {
    match action_at(table, c) {
        Some(Action::Reduce(p)) => {
            let n = prods[p as int].body@.len() as int;
            ||| n >= c.stack.len()
            ||| forall|v: StackValue| !#[trigger] built(prods[p as int], stack_args(c.stack, n), stack_span(c.stack, n), v)
            ||| table.spec_goto(c.stack[c.stack.len() - n - 1].0 as int, prods[p as int].head) is None
        },
        Some(Action::Accept) => topmost_program(c.stack) is None,
        _ => false,
    }
}

/// An LR parser over a grammar and its table.
pub struct Parser<'a> {
    grammar: &'a Grammar,
    table: &'a ParseTable,
}

impl<'a> Parser<'a> {
    pub fn new(grammar: &'a Grammar, table: &'a ParseTable) -> (p: Self)
        ensures
            p.grammar() == grammar,
            p.table() == table,
    {
        Parser { grammar, table }
    }

    pub closed spec fn grammar(&self) -> &'a Grammar {
        self.grammar
    }

    pub closed spec fn table(&self) -> &'a ParseTable {
        self.table
    }

    /// Parses the tokens of the stream into a program.
    ///
    /// An error reports the lookahead that no table entry accepts, with the
    /// terminals that would have been accepted in that state; at end of input
    /// the error is an unexpected end of file. A run that would need more
    /// steps than a machine word counts stops with an internal error.
    pub fn parse(&self, stream: TokenStream) -> (r: Result<Program, ParseError>)
        requires
            table_valid(*self.table(), self.grammar().productions@),
            stream.pos <= stream.tokens@.len(),
        ensures
            forall|t0: ParserToken| #[trigger] lookahead_at(stream.tokens@, stream.pos as int, t0)
                && self.table().spec_action(0, t0.terminal) is None
                ==> (r matches Err(e) && refused_at_start(*self.table(), t0, e)),
            r matches Ok(p) ==> exists|tr: Seq<Config>|
                #[trigger] run(*self.table(), self.grammar().productions@, stream.tokens@, stream.pos as int, tr)
                && action_at(*self.table(), tr.last()) == Some(Action::Accept)
                && topmost_program(tr.last().stack) == Some(p),
            r matches Err(e) ==> e.kind is UnexpectedToken || e.kind is UnexpectedEof || e.kind is InternalError,
            r matches Err(e) ==> (!(e.kind is InternalError) ==> exists|tr: Seq<Config>|
                #[trigger] run(*self.table(), self.grammar().productions@, stream.tokens@, stream.pos as int, tr)
                && action_at(*self.table(), tr.last()) is None
                && refused(*self.table(), tr.last(), e)),
            r matches Err(e) ==> (e.kind is InternalError ==> exists|tr: Seq<Config>|
                #[trigger] run(*self.table(), self.grammar().productions@, stream.tokens@, stream.pos as int, tr)
                && (tr.len() > usize::MAX || stuck(*self.table(), self.grammar().productions@, tr.last()))),
    {
        let ghost prods = self.grammar.productions@;
        let ghost table = *self.table;
        let ghost tokens = stream.tokens@;
        let ghost pos0 = stream.pos as int;
        let mut strm = stream;
        let mut stack: Vec<(usize, StackValue)> = Vec::new();
        stack.push((0, StackValue::Empty));
        let mut lookahead = next_token(&mut strm);
        let mut next_id: u32 = 1;
        let mut steps: usize = 0;
        let ghost mut tr: Seq<Config> = seq![Config { stack: stack@, read: strm.pos as int, la: lookahead, next_id }];
        proof {
            assert(stack@ =~= seq![(0usize, StackValue::Empty)]);
        }
        loop
            invariant
                table_valid(*self.table, self.grammar.productions@),
                prods == self.grammar.productions@,
                table == *self.table,
                tokens == stream.tokens@,
                pos0 == stream.pos as int,
                strm.pos <= strm.tokens@.len(),
                strm.tokens@ == stream.tokens@,
                stack@.len() >= 1,
                steps == 0 ==> stack@.len() == 1 && stack@[0].0 == 0 && lookahead_at(stream.tokens@, stream.pos as int, lookahead),
                forall|t0: ParserToken| #[trigger] lookahead_at(stream.tokens@, stream.pos as int, t0) && steps > 0
                    ==> self.table.spec_action(0, t0.terminal) is Some,
                run(table, prods, tokens, pos0, tr),
                tr.len() == steps + 1,
                tr.last() == (Config { stack: stack@, read: strm.pos as int, la: lookahead, next_id }),
            decreases usize::MAX - steps,
        {
            if steps == usize::MAX {
                return Err(ParseError::internal("demasiados pasos de análisis", Span::dummy()));
            }
            let ghost at_start = steps == 0;
            let ghost first = lookahead;
            let ghost c = tr.last();
            steps = steps + 1;
            let state = stack[stack.len() - 1].0;
            let got = self.table.get_action(state, &lookahead.terminal);
            proof {
                if at_start && got is Some {
                    assert forall|t0: ParserToken| #[trigger] lookahead_at(stream.tokens@, stream.pos as int, t0)
                        implies self.table.spec_action(0, t0.terminal) is Some by {
                        lemma_lookahead_unique(stream.tokens@, stream.pos as int, first, t0);
                    }
                }
                assert(action_at(table, c) == self.table.spec_action(state as int, lookahead.terminal));
            }
            match got {
                Some(Action::Shift(next_state)) => {
                    let val = token_to_value(&lookahead);
                    stack.push((*next_state, val));
                    lookahead = next_token(&mut strm);
                    proof {
                        let d = Config { stack: stack@, read: strm.pos as int, la: lookahead, next_id };
                        assert(d.stack.drop_last() =~= c.stack);
                        assert(step(table, prods, tokens, c, d));
                        let tr2 = tr.push(d);
                        assert forall|i: int| 0 <= i < tr2.len() - 1 implies #[trigger] step(table, prods, tokens, tr2[i], tr2[i + 1]) by {
                            if i < tr.len() - 1 {
                                assert(tr2[i] == tr[i] && tr2[i + 1] == tr[i + 1]);
                            } else {
                                assert(tr2[i] == c && tr2[i + 1] == d);
                            }
                        }
                        tr = tr2;
                    }
                }
                Some(Action::Reduce(prod_id)) => {
                    let prod_id = *prod_id;
                    let prod = self.grammar.production(prod_id);
                    let n = prod.body.len();
                    if n >= stack.len() {
                        return Err(ParseError::internal("pila demasiado corta para reducir", Span::dummy()));
                    }
                    let reduce_span = if n > 0 {
                        match span_of(&stack[stack.len() - n].1) {
                            Some(s) => s,
                            None => Span::dummy(),
                        }
                    } else {
                        Span::dummy()
                    };
                    let args = pop_values(&mut stack, n);
                    proof {
                        assert(args@ =~= stack_args(c.stack, n as int));
                        assert(reduce_span == stack_span(c.stack, n as int));
                    }
                    let reduced = reduce(prod_id, self.grammar, args, reduce_span);
                    let mut result = match reduced {
                        Ok(v) => v,
                        Err(e) => { return Err(e); }
                    };
                    let ghost v0 = result;
                    let ghost id0 = next_id;
                    if let StackValue::Expr(e) = &mut result {
                        if e.id == 0 {
                            e.id = next_id;
                            if next_id < u32::MAX {
                                next_id = next_id + 1;
                            }
                        }
                    }
                    proof {
                        assert(renumbered(v0, id0, result, next_id));
                    }
                    let top_state = stack[stack.len() - 1].0;
                    match self.table.get_goto(top_state, &prod.head) {
                        Some(goto_state) => {
                            stack.push((goto_state, result));
                            proof {
                                let m = c.stack.len() - n;
                                let d = Config { stack: stack@, read: strm.pos as int, la: lookahead, next_id };
                                assert(d.stack.drop_last() =~= c.stack.take(m));
                                assert(c.stack[m - 1] == d.stack.drop_last()[m - 1]);
                                assert(built(prods[prod_id as int], stack_args(c.stack, n as int), stack_span(c.stack, n as int), v0));
                                assert(step(table, prods, tokens, c, d));
                                let tr2 = tr.push(d);
                                assert forall|i: int| 0 <= i < tr2.len() - 1 implies #[trigger] step(table, prods, tokens, tr2[i], tr2[i + 1]) by {
                                    if i < tr.len() - 1 {
                                        assert(tr2[i] == tr[i] && tr2[i + 1] == tr[i + 1]);
                                    } else {
                                        assert(tr2[i] == c && tr2[i + 1] == d);
                                    }
                                }
                                tr = tr2;
                            }
                        }
                        None => {
                            proof {
                                let m = c.stack.len() - n;
                                assert(c.stack[m - 1].0 == top_state);
                            }
                            return Err(ParseError::internal("falta la entrada GOTO tras una reducción", reduce_span));
                        }
                    }
                }
                Some(Action::Accept) => {
                    return extract_program(&mut stack);
                }
                None => {
                    assert(self.table.spec_action(state as int, lookahead.terminal) is None);
                    let expected = self.expected_tokens(state);
                    let span = Span::new(lookahead.line, lookahead.column);
                    proof {
                        if at_start {
                            assert forall|t0: ParserToken| #[trigger] lookahead_at(stream.tokens@, stream.pos as int, t0)
                                implies t0.terminal == lookahead.terminal && t0.lexeme@ == lookahead.lexeme@
                                    && t0.line == lookahead.line && t0.column == lookahead.column by {
                                lemma_lookahead_unique(stream.tokens@, stream.pos as int, first, t0);
                            }
                        }
                    }
                    if lookahead.terminal == Terminal::Eof {
                        return Err(ParseError::unexpected_eof(expected, span));
                    } else {
                        return Err(ParseError::unexpected_token(lookahead.terminal, lookahead.lexeme, expected, span));
                    }
                }
            }
        }
    }

    /// The terminals that have an ACTION entry in `state`, in declaration order.
    pub fn expected_tokens(&self, state: usize) -> (ts: Vec<Terminal>)
        requires
            self.table().wf(),
        ensures
            forall|t: Terminal| ts@.contains(t) <==> self.table().spec_action(state as int, t) is Some,
    {
        let mut row: Vec<bool> = Vec::new();
        let mut k: usize = 0;
        while k < NUM_TERMINALS
            invariant
                self.table.wf(),
                k <= NUM_TERMINALS,
                row@.len() == k,
                forall|t: Terminal| terminal_index(t) < k ==>
                    row@[terminal_index(t) as int] == (self.table.spec_action(state as int, t) is Some),
            decreases NUM_TERMINALS - k,
        {
            let t = Terminal::from_index(k);
            let filled = match self.table.get_action(state, &t) {
                Some(_) => true,
                None => false,
            };
            row.push(filled);
            proof {
                lemma_terminal_at(k as nat);
                assert forall|u: Terminal| terminal_index(u) < k + 1 implies
                    row@[terminal_index(u) as int] == (self.table.spec_action(state as int, u) is Some) by {
                    lemma_terminal_index(u);
                    crate::parser::lalr::first_follow::lemma_terminal_index_eq(u, t);
                }
            }
            k = k + 1;
        }
        proof {
            assert forall|u: Terminal| row@[terminal_index(u) as int] == (self.table.spec_action(state as int, u) is Some) by {
                lemma_terminal_index(u);
            }
        }
        terminals_of_table(&row)
    }
}

/// The value a shifted token puts on the stack.
fn token_to_value(tok: &ParserToken) -> (v: StackValue)
    ensures
        tok.terminal == Terminal::True ==> v == StackValue::Bool(true, Span { line: tok.line, column: tok.column }),
        tok.terminal == Terminal::False ==> v == StackValue::Bool(false, Span { line: tok.line, column: tok.column }),
        tok.terminal != Terminal::True && tok.terminal != Terminal::False ==>
            (v matches StackValue::Lexeme(s, sp) && s@ == tok.lexeme@ && sp == Span { line: tok.line, column: tok.column }),
{
    let span = Span::new(tok.line, tok.column);
    match tok.terminal {
        Terminal::True => StackValue::Bool(true, span),
        Terminal::False => StackValue::Bool(false, span),
        _ => StackValue::Lexeme(tok.lexeme.clone(), span),
    }
}

/// The next token of the stream; end of input once the stream is exhausted.
fn next_token(stream: &mut TokenStream) -> (t: ParserToken)
    requires
        old(stream).pos <= old(stream).tokens@.len(),
    ensures
        final(stream).pos <= final(stream).tokens@.len(),
        final(stream).tokens@ == old(stream).tokens@,
        old(stream).pos <= final(stream).pos,
        lookahead_at(old(stream).tokens@, old(stream).pos as int, t),
        lookahead_end(old(stream).tokens@, old(stream).pos as int, final(stream).pos as int),
{
    proof { reveal_strlit(""); }
    match stream.next() {
        Some(t) => t,
        None => ParserToken { terminal: Terminal::Eof, lexeme: String::new(), line: 0, column: 0 },
    }
}

/// Takes the top `n` values off the stack, bottom one first.
fn pop_values(stack: &mut Vec<(usize, StackValue)>, n: usize) -> (args: Vec<StackValue>)
    requires
        n < old(stack)@.len(),
    ensures
        final(stack)@ == old(stack)@.subrange(0, old(stack)@.len() - n),
        args@.len() == n,
        forall|i: int| 0 <= i < n ==> #[trigger] args@[i] == old(stack)@[old(stack)@.len() - n + i].1,
{
    let ghost s0 = stack@;
    let len0 = stack.len();
    let mut rev: Vec<StackValue> = Vec::new();
    let mut k: usize = 0;
    while k < n
        invariant
            n < s0.len(),
            len0 == s0.len(),
            k <= n,
            stack@ == s0.subrange(0, s0.len() - k),
            rev@.len() == k,
            forall|i: int| 0 <= i < k ==> #[trigger] rev@[i] == s0[s0.len() - 1 - i].1,
        decreases n - k,
    {
        let (_, v) = stack.pop().unwrap();
        rev.push(v);
        proof {
            assert(stack@ =~= s0.subrange(0, s0.len() - (k + 1)));
        }
        k = k + 1;
    }
    let mut args: Vec<StackValue> = Vec::new();
    let mut j: usize = 0;
    while j < n
        invariant
            n < s0.len(),
            j <= n,
            rev@.len() == n - j,
            forall|i: int| 0 <= i < n - j ==> #[trigger] rev@[i] == s0[s0.len() - 1 - i].1,
            args@.len() == j,
            forall|i: int| 0 <= i < j ==> #[trigger] args@[i] == s0[s0.len() - n + i].1,
        decreases n - j,
    {
        let v = rev.pop().unwrap();
        args.push(v);
        j = j + 1;
    }
    args
}

/// The program on the stack when the table accepts.
fn extract_program(stack: &mut Vec<(usize, StackValue)>) -> (r: Result<Program, ParseError>)
    ensures
        r is Err ==> r->Err_0.kind is InternalError,
        r is Err <==> forall|i: int| 0 <= i < old(stack)@.len() ==> !(#[trigger] old(stack)@[i].1 is Program),
        r matches Ok(p) ==> exists|i: int| 0 <= i < old(stack)@.len()
            && #[trigger] old(stack)@[i].1 == StackValue::Program(p)
            && forall|j: int| i < j < old(stack)@.len() ==> !(#[trigger] old(stack)@[j].1 is Program),
        r matches Ok(p) ==> topmost_program(old(stack)@) == Some(p),
        r is Err <==> topmost_program(old(stack)@) is None,
{
    while stack.len() > 0
        invariant
            stack@.len() <= old(stack)@.len(),
            stack@ == old(stack)@.subrange(0, stack@.len() as int),
            forall|j: int| stack@.len() <= j < old(stack)@.len() ==> !(#[trigger] old(stack)@[j].1 is Program),
            topmost_program(old(stack)@) == topmost_program(stack@),
        decreases stack@.len(),
    {
        let ghost n = stack@.len();
        let ghost before = stack@;
        let (_, val) = stack.pop().unwrap();
        proof {
            assert(before[n - 1] == old(stack)@[n - 1]);
            assert(stack@ =~= old(stack)@.subrange(0, stack@.len() as int));
            assert(stack@ =~= before.drop_last());
        }
        if let StackValue::Program(p) = val {
            assert(old(stack)@[n - 1].1 == StackValue::Program(p));
            return Ok(p);
        }
    }
    Err(ParseError::internal("aceptación sin programa en la pila", Span::dummy()))
}

/// The position of a stack value, when it carries one.
fn span_of(v: &StackValue) -> (r: Option<Span>)
    ensures
        v matches StackValue::Lexeme(_, s) ==> r == Some(*s),
        v matches StackValue::Bool(_, s) ==> r == Some(*s),
        v matches StackValue::Expr(e) ==> r == Some(e.span),
        !(v is Lexeme || v is Bool || v is Expr) ==> r is None,
{
    match v {
        StackValue::Lexeme(_, s) => Some(*s),
        StackValue::Bool(_, s) => Some(*s),
        StackValue::Expr(e) => Some(e.span()),
        _ => None,
    }
}

} // verus!
