//! The table builder: walks the automaton states and produces the three flat
//! numeric tables that drive the generated parser.
//!
//! Every entry is one of: `0` (error), a positive `n` meaning "shift into
//! state `n - 1`", or a negative `-n` meaning "reduce with the production
//! whose reduction index is `n - 1`". Shift edges take priority over
//! reductions; among the reductions of a state, the first one (in
//! declaration order) whose lookahead set contains the token wins.

use crate::automaton::{assoc, automaton_wf, state_wf, Lookahead, State};
use crate::grammar::{lemma_reduce_index_bound, reduce_index, Grammar};
use vstd::prelude::*;

verus! {

/// The value of the reduction scan for one state and lookahead token: the
/// negative encoding of the first matching reduction, or `0` if none applies.
pub open spec fn reduce_entry(g: Grammar, s: State, tok: Lookahead) -> int {
    match s.first_reduction(tok) {
        Some(i) => {
            let r = s.reductions@[i];
            -(g.reduce_index(r.nonterminal as int, r.production as int) + 1)
        },
        None => 0,
    }
}

/// The ACTION entry for one state and terminal: a shift edge wins if
/// present, otherwise the reduction scan decides.
pub open spec fn action_entry(g: Grammar, s: State, t: int) -> int {
    match assoc(s.shifts@, t) {
        Some(target) => target + 1,
        None => reduce_entry(g, s, Lookahead::Terminal(t as usize)),
    }
}

/// The EOF_ACTION entry for one state: no shift is possible on EOF, so only
/// the reduction scan applies.
pub open spec fn eof_entry(g: Grammar, s: State) -> int {
    reduce_entry(g, s, Lookahead::Eof)
}

/// The GOTO entry for one state and nonterminal: the goto edge's target
/// state plus one, or `0` where the automaton has no edge.
pub open spec fn goto_entry(s: State, n: int) -> int {
    match assoc(s.gotos@, n) {
        Some(target) => target + 1,
        None => 0,
    }
}

/// The three numeric tables compiled from a grammar and its automaton,
/// with the dimensions they were built for. `action` is indexed by
/// `state * num_terminals + terminal`, `goto_edges` by
/// `state * num_nonterminals + nonterminal`, and `eof_action` by `state`.
#[derive(Clone, Debug)]
pub struct ParseTables {
    pub num_terminals: usize,
    pub num_nonterminals: usize,
    pub num_states: usize,
    pub action: Vec<i32>,
    pub eof_action: Vec<i32>,
    pub goto_edges: Vec<i32>,
}

/// What it means for a `ParseTables` value to be the compilation of a
/// grammar and automaton: the dimensions agree and every cell holds exactly
/// the entry the specification functions prescribe.
pub open spec fn tables_match(g: Grammar, states: Seq<State>, t: ParseTables) -> bool {
    &&& t.num_terminals == g.num_terminals()
    &&& t.num_nonterminals == g.num_nonterminals()
    &&& t.num_states == states.len()
    &&& t.action@.len() == states.len() * g.num_terminals()
    &&& forall|s: int, term: int|
        0 <= s < states.len() && 0 <= term < g.num_terminals()
            ==> t.action@[s * g.num_terminals() + term] == action_entry(g, states[s], term)
    &&& t.eof_action@.len() == states.len()
    &&& forall|s: int| 0 <= s < states.len() ==> t.eof_action@[s] == eof_entry(g, states[s])
    &&& t.goto_edges@.len() == states.len() * g.num_nonterminals()
    &&& forall|s: int, n: int|
        0 <= s < states.len() && 0 <= n < g.num_nonterminals()
            ==> t.goto_edges@[s * g.num_nonterminals() + n] == goto_entry(states[s], n)
}

/// Cells of earlier rows lie before the current row.
pub proof fn lemma_row_major_bound(w: int, s1: int, t1: int, s: int)
    by (nonlinear_arith)
    requires
        0 <= t1 < w,
        0 <= s1 < s,
    ensures
        0 <= s1 * w + t1 < s * w,
{
}

proof fn lemma_mul_le(a: int, b: int, c: int)
    by (nonlinear_arith)
    requires
        0 <= a <= b,
        0 <= c,
    ensures
        a * c <= b * c,
{
}

/// Computes the reduction-scan entry for one state and token.
fn reduce_entry_cell(g: &Grammar, s: &State, tok: Lookahead, Ghost(ns): Ghost<nat>) -> (r: i32)
    requires
        g.wf(),
        state_wf(*g, *s, ns),
    ensures
        r as int == reduce_entry(*g, *s, tok),
{
    match s.find_reduction(tok) {
        Some(ri) => {
            let red = &s.reductions[ri];
            proof {
                lemma_reduce_index_bound(*g, red.nonterminal as int, red.production as int);
            }
            let idx = reduce_index(g, red.nonterminal, red.production);
            -((idx + 1) as i32)
        },
        None => 0,
    }
}

/// Computes one ACTION cell.
fn action_cell(g: &Grammar, s: &State, t: usize, Ghost(ns): Ghost<nat>) -> (r: i32)
    requires
        g.wf(),
        state_wf(*g, *s, ns),
        ns + 1 <= i32::MAX,
    ensures
        r as int == action_entry(*g, *s, t as int),
{
    match crate::automaton::assoc_lookup(&s.shifts, t) {
        Some(target) => {
            proof {
                lemma_assoc_target_bound(s.shifts@, t as int, ns);
            }
            (target as i32) + 1
        },
        None => reduce_entry_cell(g, s, Lookahead::Terminal(t), Ghost(ns)),
    }
}

/// Computes one GOTO cell.
fn goto_cell(s: &State, n: usize, Ghost(g): Ghost<Grammar>, Ghost(ns): Ghost<nat>) -> (r: i32)
    requires
        state_wf(g, *s, ns),
        ns + 1 <= i32::MAX,
    ensures
        r as int == goto_entry(*s, n as int),
{
    match crate::automaton::assoc_lookup(&s.gotos, n) {
        Some(target) => {
            proof {
                lemma_assoc_target_bound(s.gotos@, n as int, ns);
            }
            (target as i32) + 1
        },
        None => 0,
    }
}

/// A successful association-list lookup returns one of the stored targets,
/// so its bound carries over.
proof fn lemma_assoc_target_bound(edges: Seq<(usize, usize)>, key: int, bound: nat)
    requires
        forall|i: int| 0 <= i < edges.len() ==> (#[trigger] edges[i]).1 < bound,
        assoc(edges, key) is Some,
    ensures
        assoc(edges, key)->Some_0 < bound,
    decreases edges.len(),
{
    if edges.len() > 0 && edges[0].0 != key {
        assert(forall|i: int|
            0 <= i < edges.drop_first().len() ==> (#[trigger] edges.drop_first()[i]).1 < bound);
        lemma_assoc_target_bound(edges.drop_first(), key, bound);
    }
}

/// Builds the flat ACTION table in row-major (state-major) order.
pub fn build_action(g: &Grammar, states: &Vec<State>) -> (r: Vec<i32>)
    requires
        g.wf(),
        automaton_wf(*g, states@),
        states@.len() * g.num_terminals() <= usize::MAX,
    ensures
        r@.len() == states@.len() * g.num_terminals(),
        forall|s: int, term: int|
            0 <= s < states@.len() && 0 <= term < g.num_terminals()
                ==> r@[s * g.num_terminals() + term] == action_entry(*g, states@[s], term),
{
    let ghost w = g.num_terminals() as int;
    let mut r: Vec<i32> = Vec::new();
    let mut s: usize = 0;
    while s < states.len()
        invariant
            g.wf(),
            automaton_wf(*g, states@),
            states@.len() * w <= usize::MAX,
            w == g.num_terminals(),
            s <= states@.len(),
            r@.len() == s * w,
            forall|s1: int, t1: int|
                0 <= s1 < s && 0 <= t1 < w ==> r@[s1 * w + t1] == action_entry(
                    *g,
                    states@[s1],
                    t1,
                ),
        decreases states@.len() - s,
    {
        let st = &states[s];
        let mut t: usize = 0;
        proof {
            lemma_mul_le(s as int + 1, states@.len() as int, w);
        }
        while t < g.terminals.len()
            invariant
                g.wf(),
                automaton_wf(*g, states@),
                w == g.num_terminals(),
                s < states@.len(),
                st == states@[s as int],
                t <= w,
                (s + 1) * w <= usize::MAX,
                r@.len() == s * w + t,
                forall|s1: int, t1: int|
                    0 <= s1 < s && 0 <= t1 < w ==> r@[s1 * w + t1] == action_entry(
                        *g,
                        states@[s1],
                        t1,
                    ),
                forall|t1: int|
                    0 <= t1 < t ==> r@[s * w + t1] == action_entry(*g, states@[s as int], t1),
            decreases w - t,
        {
            proof {
                assert((s + 1) * w == s * w + w) by (nonlinear_arith);
            }
            let cell = action_cell(g, st, t, Ghost(states@.len()));
            r.push(cell);
            proof {
                assert forall|s1: int, t1: int| 0 <= s1 < s && 0 <= t1 < w implies r@[s1 * w + t1]
                    == action_entry(*g, states@[s1], t1) by {
                    lemma_row_major_bound(w, s1, t1, s as int);
                }
            }
            t = t + 1;
        }
        proof {
            assert(s * w + w == (s + 1) * w) by (nonlinear_arith);
        }
        s = s + 1;
    }
    r
}

/// Builds the EOF_ACTION table, one entry per state.
pub fn build_eof_action(g: &Grammar, states: &Vec<State>) -> (r: Vec<i32>)
    requires
        g.wf(),
        automaton_wf(*g, states@),
    ensures
        r@.len() == states@.len(),
        forall|s: int| 0 <= s < states@.len() ==> r@[s] == eof_entry(*g, states@[s]),
{
    let mut r: Vec<i32> = Vec::new();
    let mut s: usize = 0;
    while s < states.len()
        invariant
            g.wf(),
            automaton_wf(*g, states@),
            s <= states@.len(),
            r@.len() == s,
            forall|s1: int| 0 <= s1 < s ==> r@[s1] == eof_entry(*g, states@[s1]),
        decreases states@.len() - s,
    {
        let cell = reduce_entry_cell(g, &states[s], Lookahead::Eof, Ghost(states@.len()));
        r.push(cell);
        s = s + 1;
    }
    r
}

/// Builds the flat GOTO table in row-major (state-major) order.
pub fn build_goto(g: &Grammar, states: &Vec<State>) -> (r: Vec<i32>)
    requires
        g.wf(),
        automaton_wf(*g, states@),
        states@.len() * g.num_nonterminals() <= usize::MAX,
    ensures
        r@.len() == states@.len() * g.num_nonterminals(),
        forall|s: int, n: int|
            0 <= s < states@.len() && 0 <= n < g.num_nonterminals()
                ==> r@[s * g.num_nonterminals() + n] == goto_entry(states@[s], n),
{
    let ghost w = g.num_nonterminals() as int;
    let mut r: Vec<i32> = Vec::new();
    let mut s: usize = 0;
    while s < states.len()
        invariant
            g.wf(),
            automaton_wf(*g, states@),
            states@.len() * w <= usize::MAX,
            w == g.num_nonterminals(),
            s <= states@.len(),
            r@.len() == s * w,
            forall|s1: int, n1: int|
                0 <= s1 < s && 0 <= n1 < w ==> r@[s1 * w + n1] == goto_entry(states@[s1], n1),
        decreases states@.len() - s,
    {
        let st = &states[s];
        let mut n: usize = 0;
        proof {
            lemma_mul_le(s as int + 1, states@.len() as int, w);
        }
        while n < g.nonterminals.len()
            invariant
                g.wf(),
                automaton_wf(*g, states@),
                w == g.num_nonterminals(),
                s < states@.len(),
                st == states@[s as int],
                n <= w,
                (s + 1) * w <= usize::MAX,
                r@.len() == s * w + n,
                forall|s1: int, n1: int|
                    0 <= s1 < s && 0 <= n1 < w ==> r@[s1 * w + n1] == goto_entry(states@[s1], n1),
                forall|n1: int| 0 <= n1 < n ==> r@[s * w + n1] == goto_entry(states@[s as int], n1),
            decreases w - n,
        {
            proof {
                assert((s + 1) * w == s * w + w) by (nonlinear_arith);
            }
            let cell = goto_cell(st, n, Ghost(*g), Ghost(states@.len()));
            r.push(cell);
            proof {
                assert forall|s1: int, n1: int| 0 <= s1 < s && 0 <= n1 < w implies r@[s1 * w + n1]
                    == goto_entry(states@[s1], n1) by {
                    lemma_row_major_bound(w, s1, n1, s as int);
                }
            }
            n = n + 1;
        }
        proof {
            assert(s * w + w == (s + 1) * w) by (nonlinear_arith);
        }
        s = s + 1;
    }
    r
}

/// Table shape: for `S` states, `T` terminals and `N` nonterminals, the
/// compiled ACTION table has exactly `S * T` entries, EOF_ACTION exactly
/// `S`, and GOTO exactly `S * N`.
pub proof fn lemma_table_shape(g: Grammar, states: Seq<State>, t: ParseTables)
    requires
        tables_match(g, states, t),
    ensures
        t.action@.len() == states.len() * g.num_terminals(),
        t.eof_action@.len() == states.len(),
        t.goto_edges@.len() == states.len() * g.num_nonterminals(),
{
}

/// Validity of one ACTION or EOF_ACTION entry: it is `0` (error), or
/// positive with `e - 1` an existing state (shift), or negative with
/// `-e - 1` an existing reduction index (reduce). The three cases exclude
/// each other by the sign of the entry, so exactly one interpretation
/// applies.
pub open spec fn entry_valid(g: Grammar, states: Seq<State>, e: int) -> bool {
    ||| e == 0
    ||| (e > 0 && e - 1 < states.len())
    ||| (e < 0 && -e - 1 < g.num_productions())
}

/// Encoding round-trip: every entry of the compiled tables decodes to
/// exactly one of error, a valid shift target, or a valid reduction index;
/// GOTO entries are never negative.
pub proof fn lemma_encoding_round_trip(g: Grammar, states: Seq<State>, t: ParseTables)
    requires
        g.wf(),
        automaton_wf(g, states),
        tables_match(g, states, t),
    ensures
        forall|s: int, term: int|
            0 <= s < states.len() && 0 <= term < g.num_terminals() ==> entry_valid(
                g,
                states,
                (#[trigger] t.action@[s * g.num_terminals() + term]) as int,
            ),
        forall|s: int| 0 <= s < states.len() ==> entry_valid(g, states, (#[trigger] t.eof_action@[s]) as int),
        forall|s: int, n: int|
            0 <= s < states.len() && 0 <= n < g.num_nonterminals() ==> {
                let e = #[trigger] t.goto_edges@[s * g.num_nonterminals() + n];
                e == 0 || (e > 0 && e - 1 < states.len())
            },
{
    assert forall|s: int, term: int|
        0 <= s < states.len() && 0 <= term < g.num_terminals() implies entry_valid(
        g,
        states,
        (#[trigger] t.action@[s * g.num_terminals() + term]) as int,
    ) by {
        lemma_entry_valid_action(g, states, s, term);
    }
    assert forall|s: int| 0 <= s < states.len() implies entry_valid(g, states, t.eof_action@[s] as int) by {
        lemma_reduce_entry_valid(g, states, s, Lookahead::Eof);
    }
    assert forall|s: int, n: int|
        0 <= s < states.len() && 0 <= n < g.num_nonterminals() implies {
        let e = #[trigger] t.goto_edges@[s * g.num_nonterminals() + n];
        e == 0 || (e > 0 && e - 1 < states.len())
    } by {
        assert(t.goto_edges@[s * g.num_nonterminals() + n] == goto_entry(states[s], n));
        if assoc(states[s].gotos@, n) is Some {
            lemma_assoc_target_bound(states[s].gotos@, n, states.len());
        }
    }
}

proof fn lemma_entry_valid_action(g: Grammar, states: Seq<State>, s: int, term: int)
    requires
        g.wf(),
        automaton_wf(g, states),
        0 <= s < states.len(),
        0 <= term < g.num_terminals(),
    ensures
        entry_valid(g, states, action_entry(g, states[s], term)),
{
    if assoc(states[s].shifts@, term) is Some {
        lemma_assoc_target_bound(states[s].shifts@, term, states.len());
    } else {
        lemma_reduce_entry_valid(g, states, s, Lookahead::Terminal(term as usize));
    }
}

proof fn lemma_reduce_entry_valid(g: Grammar, states: Seq<State>, s: int, tok: Lookahead)
    requires
        g.wf(),
        automaton_wf(g, states),
        0 <= s < states.len(),
    ensures
        entry_valid(g, states, reduce_entry(g, states[s], tok)),
{
    crate::automaton::lemma_first_reduction_spec(states[s], tok, 0);
    match states[s].first_reduction(tok) {
        Some(i) => {
            let r = states[s].reductions@[i];
            lemma_reduce_index_bound(g, r.nonterminal as int, r.production as int);
        },
        None => {},
    }
}

/// Shift priority: wherever a state has a shift edge for a terminal, the
/// ACTION entry is positive and names that edge's target, whatever
/// reductions the state also has for that terminal.
pub proof fn lemma_shift_priority(
    g: Grammar,
    states: Seq<State>,
    t: ParseTables,
    s: int,
    term: int,
)
    requires
        g.wf(),
        automaton_wf(g, states),
        tables_match(g, states, t),
        0 <= s < states.len(),
        0 <= term < g.num_terminals(),
        assoc(states[s].shifts@, term) is Some,
    ensures
        t.action@[s * g.num_terminals() + term] > 0,
        t.action@[s * g.num_terminals() + term] == assoc(states[s].shifts@, term)->Some_0 + 1,
{
    assert(t.action@[s * g.num_terminals() + term] == action_entry(g, states[s], term));
}

/// Reduce determinism: for a state and token with no shift edge, the table
/// entry is decided by the first reduction, in declaration order, whose
/// lookahead set contains the token — and is `0` when no reduction matches.
pub proof fn lemma_reduce_determinism(
    g: Grammar,
    states: Seq<State>,
    t: ParseTables,
    s: int,
    tok: Lookahead,
)
    requires
        g.wf(),
        automaton_wf(g, states),
        tables_match(g, states, t),
        0 <= s < states.len(),
        match tok {
            Lookahead::Terminal(term) => term < g.num_terminals() && assoc(
                states[s].shifts@,
                term as int,
            ) is None,
            Lookahead::Eof => true,
        },
    ensures
        ({
            let e = match tok {
                Lookahead::Terminal(term) => t.action@[s * g.num_terminals() + term],
                Lookahead::Eof => t.eof_action@[s],
            };
            match states[s].first_reduction(tok) {
                Some(i) => {
                    let r = states[s].reductions@[i];
                    &&& 0 <= i < states[s].reductions@.len()
                    &&& r.lookaheads.spec_contains(tok)
                    &&& forall|j: int|
                        0 <= j < i ==> !(
                        #[trigger] states[s].reductions@[j]).lookaheads.spec_contains(tok)
                    &&& e == -(g.reduce_index(r.nonterminal as int, r.production as int) + 1)
                },
                None => {
                    let e0 = match tok {
                        Lookahead::Terminal(term) => t.action@[s * g.num_terminals() + term],
                        Lookahead::Eof => t.eof_action@[s],
                    };
                    e0 == 0 && forall|j: int|
                        0 <= j < states[s].reductions@.len() ==> !(
                        #[trigger] states[s].reductions@[j]).lookaheads.spec_contains(tok)
                },
            }
        }),
{
    crate::automaton::lemma_first_reduction_spec(states[s], tok, 0);
    match tok {
        Lookahead::Terminal(term) => {
            assert(t.action@[s * g.num_terminals() + term] == action_entry(
                g,
                states[s],
                term as int,
            ));
        },
        Lookahead::Eof => {
            assert(t.eof_action@[s] == eof_entry(g, states[s]));
        },
    }
}

/// Compilation is deterministic: two table sets compiled from the same
/// grammar and automaton are identical, entry for entry.
pub proof fn lemma_tables_deterministic(
    g: Grammar,
    states: Seq<State>,
    t1: ParseTables,
    t2: ParseTables,
)
    requires
        tables_match(g, states, t1),
        tables_match(g, states, t2),
    ensures
        t1.action@ == t2.action@,
        t1.eof_action@ == t2.eof_action@,
        t1.goto_edges@ == t2.goto_edges@,
        t1.num_terminals == t2.num_terminals,
        t1.num_nonterminals == t2.num_nonterminals,
        t1.num_states == t2.num_states,
{
    let w = g.num_terminals() as int;
    assert forall|k: int| 0 <= k < t1.action@.len() implies t1.action@[k] == t2.action@[k] by {
        assert(w > 0) by (nonlinear_arith)
            requires
                w >= 0,
                0 <= k < states.len() * w,
        ;
        lemma_row_major_decompose(w, states.len() as int, k);
        let s = k / w;
        let term = k % w;
        assert(t1.action@[s * w + term] == action_entry(g, states[s], term));
        assert(t2.action@[s * w + term] == action_entry(g, states[s], term));
    }
    assert(t1.action@ =~= t2.action@);
    assert(t1.eof_action@ =~= t2.eof_action@);
    let wn = g.num_nonterminals() as int;
    assert forall|k: int| 0 <= k < t1.goto_edges@.len() implies t1.goto_edges@[k]
        == t2.goto_edges@[k] by {
        assert(wn > 0) by (nonlinear_arith)
            requires
                wn >= 0,
                0 <= k < states.len() * wn,
        ;
        lemma_row_major_decompose(wn, states.len() as int, k);
        let s = k / wn;
        let n = k % wn;
        assert(t1.goto_edges@[s * wn + n] == goto_entry(states[s], n));
        assert(t2.goto_edges@[s * wn + n] == goto_entry(states[s], n));
    }
    assert(t1.goto_edges@ =~= t2.goto_edges@);
}

/// Any flat index below `rows * w` splits into a row and an in-row offset.
proof fn lemma_row_major_decompose(w: int, rows: int, k: int)
    by (nonlinear_arith)
    requires
        w > 0,
        0 <= k < rows * w,
    ensures
        0 <= k / w < rows,
        0 <= k % w < w,
        k == (k / w) * w + (k % w),
{
}

/// The bounds the runtime driver relies on: the tables have their declared
/// dimensions, at least one state exists, ACTION and EOF_ACTION entries
/// decode to existing states or to reduction indices below `num_productions`,
/// and GOTO entries are never negative and decode to existing states.
pub open spec fn tables_ok(t: ParseTables, num_productions: nat) -> bool {
    &&& t.num_states >= 1
    &&& t.action@.len() == t.num_states * t.num_terminals
    &&& t.eof_action@.len() == t.num_states
    &&& t.goto_edges@.len() == t.num_states * t.num_nonterminals
    &&& forall|k: int|
        0 <= k < t.action@.len() ==> -(num_productions as int) <= #[trigger] t.action@[k] as int
            <= t.num_states
    &&& forall|k: int|
        0 <= k < t.eof_action@.len() ==> -(num_productions as int)
            <= #[trigger] t.eof_action@[k] as int <= t.num_states
    &&& forall|k: int|
        0 <= k < t.goto_edges@.len() ==> 0 <= #[trigger] t.goto_edges@[k] as int <= t.num_states
}

/// Tables compiled from a well-formed grammar and automaton satisfy the
/// bounds the driver relies on.
pub proof fn lemma_tables_ok(g: Grammar, states: Seq<State>, t: ParseTables)
    requires
        g.wf(),
        automaton_wf(g, states),
        tables_match(g, states, t),
    ensures
        tables_ok(t, g.num_productions()),
{
    lemma_encoding_round_trip(g, states, t);
    let w = g.num_terminals() as int;
    assert forall|k: int| 0 <= k < t.action@.len() implies -(g.num_productions() as int)
        <= #[trigger] t.action@[k] as int <= t.num_states by {
        assert(w > 0) by (nonlinear_arith)
            requires
                w >= 0,
                0 <= k < states.len() * w,
        ;
        lemma_row_major_decompose(w, states.len() as int, k);
        assert(entry_valid(g, states, t.action@[(k / w) * w + (k % w)] as int));
    }
    assert forall|k: int| 0 <= k < t.eof_action@.len() implies -(g.num_productions() as int)
        <= #[trigger] t.eof_action@[k] as int <= t.num_states by {
        assert(entry_valid(g, states, t.eof_action@[k] as int));
    }
    let wn = g.num_nonterminals() as int;
    assert forall|k: int| 0 <= k < t.goto_edges@.len() implies 0 <= #[trigger] t.goto_edges@[k] as int
        <= t.num_states by {
        assert(wn > 0) by (nonlinear_arith)
            requires
                wn >= 0,
                0 <= k < states.len() * wn,
        ;
        lemma_row_major_decompose(wn, states.len() as int, k);
        let e = t.goto_edges@[(k / wn) * wn + (k % wn)];
        assert(e == 0 || (e > 0 && e - 1 < states.len()));
    }
}

/// Builds all three tables for a well-formed grammar and automaton.
pub fn build_tables(g: &Grammar, states: &Vec<State>) -> (r: ParseTables)
    requires
        g.wf(),
        automaton_wf(*g, states@),
        states@.len() * g.num_terminals() <= usize::MAX,
        states@.len() * g.num_nonterminals() <= usize::MAX,
    ensures
        tables_match(*g, states@, r),
{
    ParseTables {
        num_terminals: g.terminals.len(),
        num_nonterminals: g.nonterminals.len(),
        num_states: states.len(),
        action: build_action(g, states),
        eof_action: build_eof_action(g, states),
        goto_edges: build_goto(g, states),
    }
}

} // verus!
