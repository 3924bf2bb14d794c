//! The table-driven runtime driver: the shift/reduce control loop that
//! executes the compiled tables over a token stream, the per-production
//! reduction step, and the narrowing accessor for the value stack.
//!
//! Locations, payloads and user errors are opaque to the driver and are
//! modeled as plain `u64` values; the "no location available" default is
//! `0`. Semantic actions are caller-supplied functions identified by index.

use crate::grammar::{reduce_list_ok, Grammar, Symbol};
use crate::tables::{lemma_row_major_bound, tables_ok, ParseTables};
use vstd::prelude::*;

verus! {

/// A runtime token: the display name of the terminal it instantiates
/// (used for classification) and its payload.
#[derive(Clone, Debug, PartialEq)]
pub struct Token {
    pub terminal: String,
    pub value: u64,
}

/// A token together with its source span.
#[derive(Clone, Debug, PartialEq)]
pub struct SpannedToken {
    pub start: u64,
    pub token: Token,
    pub end: u64,
}

/// One entry of the runtime value stack: a span, the tag naming which
/// terminal or nonterminal the value instantiates, and the payload.
#[derive(Clone, Copy, PartialEq, Eq, Structural, Debug)]
pub struct StackValue {
    pub start: u64,
    pub sym: Symbol,
    pub value: u64,
    pub end: u64,
}

/// How a parse fails. `UnrecognizedToken` and `UnrecognizedEof` are user
/// input errors; `User` wraps a token-stream or semantic-action error
/// verbatim; `Inconsistent` reports a defect in the tables or automaton
/// (a downcast tag mismatch, a stack underflow, a missing goto edge) that
/// adversarial input alone can never trigger.
#[derive(Clone, Debug, PartialEq)]
pub enum ParseError {
    UnrecognizedToken { token: SpannedToken },
    UnrecognizedEof,
    User { error: u64 },
    Inconsistent,
}

/// The index of the first terminal at or after `i` whose name is `name`.
pub open spec fn classify_from(g: Grammar, name: Seq<char>, i: int) -> Option<int>
    decreases g.num_terminals() - i,
{
    if i < 0 || i >= g.num_terminals() {
        None
    } else if g.terminals@[i].name@ == name {
        Some(i)
    } else {
        classify_from(g, name, i + 1)
    }
}

/// Classification of a token name: the index of the first terminal with
/// that display name, or `None` when no terminal matches (an unrecognized
/// token). For a well-formed grammar the names are unique, so "first" is
/// the only match.
pub open spec fn spec_classify(g: Grammar, name: Seq<char>) -> Option<int> {
    classify_from(g, name, 0)
}

/// Classifies a token into its terminal index.
pub fn classify(g: &Grammar, name: &String) -> (r: Option<usize>)
    ensures
        match r {
            Some(i) => i < g.num_terminals() && spec_classify(*g, name@) == Some(i as int),
            None => spec_classify(*g, name@) is None,
        },
{
    let mut i: usize = 0;
    while i < g.terminals.len()
        invariant
            i <= g.num_terminals(),
            spec_classify(*g, name@) == classify_from(*g, name@, i as int),
        decreases g.num_terminals() - i,
    {
        if g.terminals[i].name == *name {
            return Some(i);
        }
        i = i + 1;
    }
    None
}

/// The narrowing accessor for the value stack: pops the top entry after
/// checking that its tag is the expected symbol. `None` (an empty stack or
/// a tag mismatch) indicates a table/automaton inconsistency and leaves the
/// stack unchanged.
pub fn pop_expect(symbols: &mut Vec<StackValue>, expected: Symbol) -> (r: Option<StackValue>)
    ensures
        match r {
            Some(v) => old(symbols)@.len() > 0 && v == old(symbols)@.last() && v.sym == expected
                && final(symbols)@ == old(symbols)@.drop_last(),
            None => final(symbols)@ == old(symbols)@ && (old(symbols)@.len() == 0
                || old(symbols)@.last().sym != expected),
        },
{
    if symbols.len() == 0 {
        return None;
    }
    let top = symbols[symbols.len() - 1];
    if top.sym == expected {
        let v = symbols.pop().unwrap();
        Some(v)
    } else {
        None
    }
}

/// Whether the top of the value stack carries exactly the symbols of
/// production `pi` of nonterminal `nt`, in order. The stack discipline of a
/// consistent automaton guarantees this at every reduction.
pub open spec fn pops_match(g: Grammar, stack: Seq<StackValue>, nt: int, pi: int) -> bool {
    let prod = g.nonterminals@[nt].productions@[pi];
    let k = prod.symbols@.len() as int;
    stack.len() >= k && forall|i: int|
        0 <= i < k ==> stack[stack.len() - k + i].sym == (#[trigger] prod.symbols@[i])
}

/// The start location of a reduced span: the start of the first popped
/// symbol; for an empty production, the end of the value left on top of the
/// stack, or the default location `0` on an empty stack.
pub open spec fn spec_start_loc(stack: Seq<StackValue>, k: int) -> u64 {
    if k > 0 {
        stack[stack.len() - k].start
    } else if stack.len() > 0 {
        stack.last().end
    } else {
        0
    }
}

/// The end location of a reduced span: the end of the last popped symbol;
/// for an empty production, the lookahead's start location if available,
/// else the start location itself.
pub open spec fn spec_end_loc(stack: Seq<StackValue>, k: int, lookahead_start: Option<u64>) -> u64 {
    if k > 0 {
        stack.last().end
    } else {
        match lookahead_start {
            Some(l) => l,
            None => spec_start_loc(stack, k),
        }
    }
}

/// One completed, non-final reduction selected by the negative table entry
/// `act`: the production's symbols matched and were popped off the value
/// stack, the semantic action succeeded with some value, the tagged
/// nonterminal value with the merged span was pushed, and the GOTO successor
/// of the uncovered state was pushed onto the state stack — net one state
/// and one value for `k` popped from each stack.
pub open spec fn completed_reduction<F: Fn(usize, Vec<StackValue>, u64, u64) -> Result<u64, u64>>(
    g: Grammar,
    t: ParseTables,
    rl: Seq<(usize, usize)>,
    act: int,
    lookahead_start: Option<u64>,
    f: F,
    pre_states: Seq<usize>,
    pre_symbols: Seq<StackValue>,
    post_states: Seq<usize>,
    post_symbols: Seq<StackValue>,
) -> bool {
    let e = rl[-act - 1];
    let nt = e.0 as int;
    let prod = g.nonterminals@[nt].productions@[e.1 as int];
    let k = prod.symbols@.len() as int;
    let n0 = pre_symbols.len() as int;
    let m = pre_states.len() as int;
    let start0 = spec_start_loc(pre_symbols, k);
    let end0 = spec_end_loc(pre_symbols, k, lookahead_start);
    let gv = t.goto_edges@[pre_states[m - k - 1] * t.num_nonterminals + nt] as int;
    &&& pops_match(g, pre_symbols, nt, e.1 as int)
    &&& nt != g.start
    &&& m > k
    &&& gv > 0
    &&& post_states == pre_states.take(m - k).push((gv - 1) as usize)
    &&& post_states.len() == m - k + 1
    &&& post_symbols.len() == n0 - k + 1
    &&& exists|vv: Vec<StackValue>, av: u64|
        vv@ == pre_symbols.skip(n0 - k) && #[trigger] call_ensures(
            f,
            (prod.action, vv, start0, end0),
            Ok(av),
        ) && post_symbols == pre_symbols.take(n0 - k).push(
            StackValue { start: start0, sym: Symbol::Nonterminal(e.0), value: av, end: end0 },
        )
}

/// The start nonterminal's reduction: the symbols matched and were popped,
/// the semantic action produced `v`, and `v` became the overall result at
/// once — the state stack was not truncated and nothing was pushed back
/// onto either stack.
pub open spec fn accepted_reduction<F: Fn(usize, Vec<StackValue>, u64, u64) -> Result<u64, u64>>(
    g: Grammar,
    rl: Seq<(usize, usize)>,
    act: int,
    lookahead_start: Option<u64>,
    f: F,
    pre_states: Seq<usize>,
    pre_symbols: Seq<StackValue>,
    post_states: Seq<usize>,
    post_symbols: Seq<StackValue>,
    v: u64,
) -> bool {
    let e = rl[-act - 1];
    let nt = e.0 as int;
    let prod = g.nonterminals@[nt].productions@[e.1 as int];
    let k = prod.symbols@.len() as int;
    let n0 = pre_symbols.len() as int;
    let start0 = spec_start_loc(pre_symbols, k);
    let end0 = spec_end_loc(pre_symbols, k, lookahead_start);
    &&& pops_match(g, pre_symbols, nt, e.1 as int)
    &&& nt == g.start
    &&& post_states == pre_states
    &&& post_symbols == pre_symbols.take(n0 - k)
    &&& exists|vv: Vec<StackValue>|
        vv@ == pre_symbols.skip(n0 - k) && #[trigger] call_ensures(
            f,
            (prod.action, vv, start0, end0),
            Result::<u64, u64>::Ok(v),
        )
}

/// A reduction whose semantic action failed with the user error `err`: the
/// symbols were popped, the error became the overall result at once, and —
/// as for the accepting case — no goto happened and nothing was pushed.
pub open spec fn failed_reduction<F: Fn(usize, Vec<StackValue>, u64, u64) -> Result<u64, u64>>(
    g: Grammar,
    rl: Seq<(usize, usize)>,
    act: int,
    lookahead_start: Option<u64>,
    f: F,
    pre_states: Seq<usize>,
    pre_symbols: Seq<StackValue>,
    post_states: Seq<usize>,
    post_symbols: Seq<StackValue>,
    err: u64,
) -> bool {
    let e = rl[-act - 1];
    let nt = e.0 as int;
    let prod = g.nonterminals@[nt].productions@[e.1 as int];
    let k = prod.symbols@.len() as int;
    let n0 = pre_symbols.len() as int;
    let start0 = spec_start_loc(pre_symbols, k);
    let end0 = spec_end_loc(pre_symbols, k, lookahead_start);
    &&& pops_match(g, pre_symbols, nt, e.1 as int)
    &&& post_states == pre_states
    &&& post_symbols == pre_symbols.take(n0 - k)
    &&& exists|vv: Vec<StackValue>|
        vv@ == pre_symbols.skip(n0 - k) && #[trigger] call_ensures(
            f,
            (prod.action, vv, start0, end0),
            Result::<u64, u64>::Err(err),
        )
}

/// What licenses the fatal inconsistency report for a reduction: the value
/// stack does not carry the production's symbols, or (for a non-start
/// production) the state stack is too short to unwind, or the GOTO entry of
/// the uncovered state is an error.
pub open spec fn inconsistent_reduction(
    g: Grammar,
    t: ParseTables,
    rl: Seq<(usize, usize)>,
    act: int,
    pre_states: Seq<usize>,
    pre_symbols: Seq<StackValue>,
) -> bool {
    let e = rl[-act - 1];
    let nt = e.0 as int;
    let prod = g.nonterminals@[nt].productions@[e.1 as int];
    let k = prod.symbols@.len() as int;
    let m = pre_states.len() as int;
    let gv = t.goto_edges@[pre_states[m - k - 1] * t.num_nonterminals + nt] as int;
    !pops_match(g, pre_symbols, nt, e.1 as int) || (nt != g.start && (m <= k || gv <= 0))
}

/// Executes one reduction, given the negative ACTION entry that selected it.
///
/// Pops the production's symbols off the value stack in reverse declaration
/// order through the narrowing accessor, computes the merged span, invokes
/// the semantic action for the production, and then either returns the
/// overall result (for the start nonterminal, or a failed action) or pushes
/// the produced nonterminal value and the GOTO successor state. `None` means
/// the reduction completed and parsing continues; every outcome's effect on
/// the stacks is fixed by the reduction predicates above: a completed
/// reduction pops `k` entries and pushes one on each stack, while an
/// accepting or failing reduction returns with the symbols popped and
/// nothing pushed.
#[verifier::loop_isolation(false)]
#[verifier::rlimit(100)]
#[verifier::spinoff_prover]
pub fn reduce<F: Fn(usize, Vec<StackValue>, u64, u64) -> Result<u64, u64>>(
    g: &Grammar,
    tables: &ParseTables,
    reduce_list: &Vec<(usize, usize)>,
    action: i32,
    lookahead_start: Option<u64>,
    states: &mut Vec<usize>,
    symbols: &mut Vec<StackValue>,
    actions: &F,
) -> (r: Option<Result<u64, ParseError>>)
    requires
        g.wf(),
        reduce_list_ok(*g, reduce_list@),
        tables_ok(*tables, g.num_productions()),
        tables.num_nonterminals == g.num_nonterminals(),
        forall|i: int| 0 <= i < old(states)@.len() ==> #[trigger] old(states)@[i] < tables.num_states,
        -(g.num_productions() as int) <= action < 0,
        forall|args: (usize, Vec<StackValue>, u64, u64)| call_requires(*actions, args),
    ensures
        r is None ==> completed_reduction(
            *g,
            *tables,
            reduce_list@,
            action as int,
            lookahead_start,
            *actions,
            old(states)@,
            old(symbols)@,
            final(states)@,
            final(symbols)@,
        ),
        forall|v: u64|
            r == Some(Result::<u64, ParseError>::Ok(v)) ==> accepted_reduction(
                *g,
                reduce_list@,
                action as int,
                lookahead_start,
                *actions,
                old(states)@,
                old(symbols)@,
                final(states)@,
                final(symbols)@,
                v,
            ),
        forall|e: u64|
            r == Some(Result::<u64, ParseError>::Err(ParseError::User { error: e }))
                ==> failed_reduction(
                *g,
                reduce_list@,
                action as int,
                lookahead_start,
                *actions,
                old(states)@,
                old(symbols)@,
                final(states)@,
                final(symbols)@,
                e,
            ),
        r == Some(Result::<u64, ParseError>::Err(ParseError::Inconsistent))
            ==> inconsistent_reduction(
            *g,
            *tables,
            reduce_list@,
            action as int,
            old(states)@,
            old(symbols)@,
        ),
        !(r matches Some(Err(ParseError::UnrecognizedToken { token }))),
        r != Some(Result::<u64, ParseError>::Err(ParseError::UnrecognizedEof)),
{
    let p = ((-action) as usize) - 1;
    let (nt, pi) = reduce_list[p];
    proof {
        assert(reduce_list@[p as int] == (nt, pi));
    }
    let prod_syms_len = g.nonterminals[nt].productions[pi].symbols.len();
    let k = prod_syms_len;
    let ghost n0 = symbols@.len() as int;
    let ghost old_symbols = symbols@;
    let ghost old_states = states@;

    // Pop the production's symbols in reverse declaration order.
    let mut popped: Vec<StackValue> = Vec::new();
    let mut i: usize = k;
    while i > 0
        invariant
            g.wf(),
            g.prod_wf(nt as int, pi as int),
            k == g.nonterminals@[nt as int].productions@[pi as int].symbols@.len(),
            i <= k,
            k - i <= n0,
            n0 == old_symbols.len(),
            symbols@ == old_symbols.take(n0 - (k - i)),
            popped@ == old_symbols.skip(n0 - (k - i)),
            forall|j: int|
                i <= j < k ==> old_symbols[n0 - k + j].sym == (
                #[trigger] g.nonterminals@[nt as int].productions@[pi as int].symbols@[j]),
        decreases i,
    {
        i = i - 1;
        let sym = g.nonterminals[nt].productions[pi].symbols[i];
        match pop_expect(symbols, sym) {
            Some(v) => {
                popped.insert(0, v);
                proof {
                    assert(symbols@ =~= old_symbols.take(n0 - (k - i)));
                    assert(popped@ =~= old_symbols.skip(n0 - (k - i)));
                }
            },
            None => {
                proof {
                    assert(!pops_match(*g, old_symbols, nt as int, pi as int));
                }
                return Some(Err(ParseError::Inconsistent));
            },
        }
    }
    proof {
        assert(symbols@ =~= old_symbols.take(n0 - k));
        assert(popped@ =~= old_symbols.skip(n0 - k));
        assert(pops_match(*g, old_symbols, nt as int, pi as int));
    }

    // The merged source span of the reduced production.
    let start: u64 = if k > 0 {
        popped[0].start
    } else if symbols.len() > 0 {
        symbols[symbols.len() - 1].end
    } else {
        0
    };
    let end: u64 = if k > 0 {
        popped[k - 1].end
    } else {
        match lookahead_start {
            Some(l) => l,
            None => start,
        }
    };
    proof {
        assert(start == spec_start_loc(old_symbols, k as int));
        assert(end == spec_end_loc(old_symbols, k as int, lookahead_start));
    }

    // Invoke the semantic action for this production.
    let a_idx = g.nonterminals[nt].productions[pi].action;
    let ghost popped_snap = popped;
    let res = (*actions)(a_idx, popped, start, end);
    proof {
        assert(popped_snap@ == old_symbols.skip(n0 - k));
        assert(call_ensures(*actions, (a_idx, popped_snap, start, end), res));
    }
    let ghost prod_spec = g.nonterminals@[nt as int].productions@[pi as int];
    let ghost start0 = spec_start_loc(old_symbols, k as int);
    let ghost end0 = spec_end_loc(old_symbols, k as int, lookahead_start);
    proof {
        assert(a_idx == prod_spec.action);
        assert(call_ensures(*actions, (prod_spec.action, popped_snap, start0, end0), res));
    }
    let value = match res {
        Ok(v) => v,
        Err(e) => {
            proof {
                assert(exists|vv: Vec<StackValue>|
                    vv@ == old_symbols.skip(n0 - k) && #[trigger] call_ensures(
                        *actions,
                        (prod_spec.action, vv, start0, end0),
                        Result::<u64, u64>::Err(e),
                    ));
            }
            return Some(Err(ParseError::User { error: e }));
        },
    };
    proof {
        assert(exists|vv: Vec<StackValue>|
            vv@ == old_symbols.skip(n0 - k) && #[trigger] call_ensures(
                *actions,
                (prod_spec.action, vv, start0, end0),
                Result::<u64, u64>::Ok(value),
            ));
    }

    // The start nonterminal's reduction returns the overall result at once.
    if nt == g.start {
        return Some(Ok(value));
    }

    // Unwind the states pushed for the consumed symbols.
    if states.len() <= k {
        return Some(Err(ParseError::Inconsistent));
    }
    let new_len = states.len() - k;
    states.truncate(new_len);

    // Push the produced nonterminal value and the GOTO successor state.
    let top = states[states.len() - 1];
    proof {
        assert(old_states.take(new_len as int)[new_len - 1] == old_states[new_len - 1]);
        lemma_row_major_bound(
            tables.num_nonterminals as int,
            top as int,
            nt as int,
            tables.num_states as int,
        );
    }
    let glen = tables.goto_edges.len();
    proof {
        assert(top * tables.num_nonterminals + nt < glen);
    }
    let gv = tables.goto_edges[top * tables.num_nonterminals + nt];
    if gv <= 0 {
        return Some(Err(ParseError::Inconsistent));
    }
    symbols.push(
        StackValue { start, sym: Symbol::Nonterminal(nt), value, end },
    );
    states.push((gv - 1) as usize);
    None
}

/// Every entry of the state stack names an existing state.
pub open spec fn stack_ok(t: ParseTables, states: Seq<usize>) -> bool {
    forall|i: int| 0 <= i < states.len() ==> (#[trigger] states[i]) < t.num_states
}

/// The ACTION entry selecting what to do for the state on top of the stack
/// and the classified lookahead terminal.
pub open spec fn lookahead_entry(t: ParseTables, states: Seq<usize>, terminal: int) -> int {
    t.action@[states.last() * t.num_terminals + terminal] as int
}

/// The EOF_ACTION entry for the state on top of the stack.
pub open spec fn eof_entry_of(t: ParseTables, states: Seq<usize>) -> int {
    t.eof_action@[states.last() as int] as int
}

/// A completed reduction keeps every state-stack entry below the state
/// count: the unwound prefix was already bounded, and the pushed GOTO
/// successor decodes to an existing state.
proof fn lemma_stack_ok_after_reduce<F: Fn(usize, Vec<StackValue>, u64, u64) -> Result<u64, u64>>(
    g: Grammar,
    t: ParseTables,
    rl: Seq<(usize, usize)>,
    act: int,
    lookahead_start: Option<u64>,
    f: F,
    pre_states: Seq<usize>,
    pre_symbols: Seq<StackValue>,
    post_states: Seq<usize>,
    post_symbols: Seq<StackValue>,
)
    requires
        g.wf(),
        reduce_list_ok(g, rl),
        tables_ok(t, g.num_productions()),
        t.num_nonterminals == g.num_nonterminals(),
        stack_ok(t, pre_states),
        -(g.num_productions() as int) <= act < 0,
        completed_reduction(
            g,
            t,
            rl,
            act,
            lookahead_start,
            f,
            pre_states,
            pre_symbols,
            post_states,
            post_symbols,
        ),
    ensures
        stack_ok(t, post_states),
        post_states.len() >= 1,
{
    let e = rl[-act - 1];
    let nt = e.0 as int;
    let prod = g.nonterminals@[nt].productions@[e.1 as int];
    let k = prod.symbols@.len() as int;
    let m = pre_states.len() as int;
    assert(g.prod_wf(e.0 as int, e.1 as int));
    lemma_row_major_bound(
        t.num_nonterminals as int,
        pre_states[m - k - 1] as int,
        nt,
        t.num_states as int,
    );
    let gi = pre_states[m - k - 1] * t.num_nonterminals + nt;
    assert(t.goto_edges@[gi] as int <= t.num_states);
    assert forall|i: int| 0 <= i < post_states.len() implies (#[trigger] post_states[i])
        < t.num_states by {
        if i < post_states.len() - 1 {
            assert(post_states[i] == pre_states[i]);
        }
    }
}

/// The effect of one resolution step of the driver: the lookahead was
/// shifted, one reduction was applied (the table must be consulted again),
/// or the parse finished with its overall result.
#[derive(Debug, PartialEq)]
pub enum StepOutcome {
    Shifted,
    Reduced,
    Finished(Result<u64, ParseError>),
}

/// Resolves the current lookahead against ACTION once, from the state on
/// top of the stack — one transition of the driver's machine. A positive
/// entry shifts: the target state and the token's tagged value, with its
/// span, are pushed. A negative entry applies that reduction. A zero entry
/// finishes at once with the token reported as unrecognized; no recovery is
/// attempted.
#[verifier::loop_isolation(false)]
#[verifier::rlimit(100)]
#[verifier::spinoff_prover]
pub fn resolve_token<F: Fn(usize, Vec<StackValue>, u64, u64) -> Result<u64, u64>>(
    g: &Grammar,
    tables: &ParseTables,
    reduce_list: &Vec<(usize, usize)>,
    tok: &SpannedToken,
    terminal: usize,
    states: &mut Vec<usize>,
    symbols: &mut Vec<StackValue>,
    actions: &F,
) -> (r: StepOutcome)
    requires
        g.wf(),
        reduce_list_ok(*g, reduce_list@),
        tables_ok(*tables, g.num_productions()),
        tables.num_terminals == g.num_terminals(),
        tables.num_nonterminals == g.num_nonterminals(),
        terminal < g.num_terminals(),
        old(states)@.len() >= 1,
        stack_ok(*tables, old(states)@),
        forall|args: (usize, Vec<StackValue>, u64, u64)| call_requires(*actions, args),
    ensures
        lookahead_entry(*tables, old(states)@, terminal as int) > 0 ==> (r == StepOutcome::Shifted
            && final(states)@ == old(states)@.push(
            (lookahead_entry(*tables, old(states)@, terminal as int) - 1) as usize,
        ) && final(symbols)@ == old(symbols)@.push(
            StackValue {
                start: tok.start,
                sym: Symbol::Terminal(terminal),
                value: tok.token.value,
                end: tok.end,
            },
        )),
        lookahead_entry(*tables, old(states)@, terminal as int) == 0 ==> (r
            == StepOutcome::Finished(
            Result::<u64, ParseError>::Err(ParseError::UnrecognizedToken { token: *tok }),
        ) && final(states)@ == old(states)@ && final(symbols)@ == old(symbols)@),
        r == StepOutcome::Reduced ==> lookahead_entry(*tables, old(states)@, terminal as int) < 0
            && completed_reduction(
            *g,
            *tables,
            reduce_list@,
            lookahead_entry(*tables, old(states)@, terminal as int),
            Some(tok.start),
            *actions,
            old(states)@,
            old(symbols)@,
            final(states)@,
            final(symbols)@,
        ),
        forall|v: u64|
            r == StepOutcome::Finished(Result::<u64, ParseError>::Ok(v)) ==> lookahead_entry(
                *tables,
                old(states)@,
                terminal as int,
            ) < 0 && accepted_reduction(
                *g,
                reduce_list@,
                lookahead_entry(*tables, old(states)@, terminal as int),
                Some(tok.start),
                *actions,
                old(states)@,
                old(symbols)@,
                final(states)@,
                final(symbols)@,
                v,
            ),
        forall|e: u64|
            r == StepOutcome::Finished(
                Result::<u64, ParseError>::Err(ParseError::User { error: e }),
            ) ==> lookahead_entry(*tables, old(states)@, terminal as int) < 0 && failed_reduction(
                *g,
                reduce_list@,
                lookahead_entry(*tables, old(states)@, terminal as int),
                Some(tok.start),
                *actions,
                old(states)@,
                old(symbols)@,
                final(states)@,
                final(symbols)@,
                e,
            ),
        r == StepOutcome::Finished(Result::<u64, ParseError>::Err(ParseError::Inconsistent))
            ==> lookahead_entry(*tables, old(states)@, terminal as int) < 0
            && inconsistent_reduction(
            *g,
            *tables,
            reduce_list@,
            lookahead_entry(*tables, old(states)@, terminal as int),
            old(states)@,
            old(symbols)@,
        ),
        forall|tk: SpannedToken|
            r == StepOutcome::Finished(
                Result::<u64, ParseError>::Err(ParseError::UnrecognizedToken { token: tk }),
            ) ==> lookahead_entry(*tables, old(states)@, terminal as int) == 0 && tk == *tok,
        r != StepOutcome::Finished(Result::<u64, ParseError>::Err(ParseError::UnrecognizedEof)),
        (r == StepOutcome::Shifted || r == StepOutcome::Reduced) ==> final(states)@.len() >= 1
            && stack_ok(*tables, final(states)@),
{
    let state = states[states.len() - 1];
    let alen = tables.action.len();
    proof {
        assert(old(states)@.last() == state);
        lemma_row_major_bound(
            tables.num_terminals as int,
            state as int,
            terminal as int,
            tables.num_states as int,
        );
        assert(state * tables.num_terminals + terminal < alen);
    }
    let act = tables.action[state * tables.num_terminals + terminal];
    if act > 0 {
        // Shift: the ACTION entry names the successor state plus one.
        states.push((act - 1) as usize);
        symbols.push(
            StackValue {
                start: tok.start,
                sym: Symbol::Terminal(terminal),
                value: tok.token.value,
                end: tok.end,
            },
        );
        proof {
            assert forall|i: int| 0 <= i < states@.len() implies (#[trigger] states@[i])
                < tables.num_states by {
                if i < states@.len() - 1 {
                    assert(states@[i] == old(states)@[i]);
                }
            }
        }
        StepOutcome::Shifted
    } else if act < 0 {
        let ghost pre_states = states@;
        match reduce(g, tables, reduce_list, act, Some(tok.start), states, symbols, actions) {
            Some(res) => StepOutcome::Finished(res),
            None => {
                proof {
                    lemma_stack_ok_after_reduce(
                        *g,
                        *tables,
                        reduce_list@,
                        act as int,
                        Some(tok.start),
                        *actions,
                        pre_states,
                        old(symbols)@,
                        states@,
                        symbols@,
                    );
                }
                StepOutcome::Reduced
            },
        }
    } else {
        StepOutcome::Finished(
            Err(ParseError::UnrecognizedToken { token: copy_spanned_token(tok) }),
        )
    }
}

/// One step of the EOF-draining loop, entered once the input is exhausted:
/// applies EOF_ACTION for the state on top of the stack — a negative entry
/// applies that reduction with no lookahead, and any other entry finishes
/// at once with the end of input reported as unrecognized. The loop around
/// it exits only through a reduction's final result or that error.
#[verifier::loop_isolation(false)]
#[verifier::rlimit(100)]
#[verifier::spinoff_prover]
pub fn eof_step<F: Fn(usize, Vec<StackValue>, u64, u64) -> Result<u64, u64>>(
    g: &Grammar,
    tables: &ParseTables,
    reduce_list: &Vec<(usize, usize)>,
    states: &mut Vec<usize>,
    symbols: &mut Vec<StackValue>,
    actions: &F,
) -> (r: StepOutcome)
    requires
        g.wf(),
        reduce_list_ok(*g, reduce_list@),
        tables_ok(*tables, g.num_productions()),
        tables.num_nonterminals == g.num_nonterminals(),
        old(states)@.len() >= 1,
        stack_ok(*tables, old(states)@),
        forall|args: (usize, Vec<StackValue>, u64, u64)| call_requires(*actions, args),
    ensures
        eof_entry_of(*tables, old(states)@) >= 0 ==> (r == StepOutcome::Finished(
            Result::<u64, ParseError>::Err(ParseError::UnrecognizedEof),
        ) && final(states)@ == old(states)@ && final(symbols)@ == old(symbols)@),
        r == StepOutcome::Reduced ==> eof_entry_of(*tables, old(states)@) < 0
            && completed_reduction(
            *g,
            *tables,
            reduce_list@,
            eof_entry_of(*tables, old(states)@),
            None,
            *actions,
            old(states)@,
            old(symbols)@,
            final(states)@,
            final(symbols)@,
        ),
        forall|v: u64|
            r == StepOutcome::Finished(Result::<u64, ParseError>::Ok(v)) ==> eof_entry_of(
                *tables,
                old(states)@,
            ) < 0 && accepted_reduction(
                *g,
                reduce_list@,
                eof_entry_of(*tables, old(states)@),
                None,
                *actions,
                old(states)@,
                old(symbols)@,
                final(states)@,
                final(symbols)@,
                v,
            ),
        forall|e: u64|
            r == StepOutcome::Finished(
                Result::<u64, ParseError>::Err(ParseError::User { error: e }),
            ) ==> eof_entry_of(*tables, old(states)@) < 0 && failed_reduction(
                *g,
                reduce_list@,
                eof_entry_of(*tables, old(states)@),
                None,
                *actions,
                old(states)@,
                old(symbols)@,
                final(states)@,
                final(symbols)@,
                e,
            ),
        r == StepOutcome::Finished(Result::<u64, ParseError>::Err(ParseError::Inconsistent))
            ==> eof_entry_of(*tables, old(states)@) < 0 && inconsistent_reduction(
            *g,
            *tables,
            reduce_list@,
            eof_entry_of(*tables, old(states)@),
            old(states)@,
            old(symbols)@,
        ),
        !(r matches StepOutcome::Finished(
            Result::<u64, ParseError>::Err(ParseError::UnrecognizedToken { token }),
        )),
        r != StepOutcome::Shifted,
        r == StepOutcome::Reduced ==> final(states)@.len() >= 1 && stack_ok(
            *tables,
            final(states)@,
        ),
{
    let state = states[states.len() - 1];
    proof {
        assert(old(states)@.last() == state);
    }
    let act = tables.eof_action[state];
    if act < 0 {
        let ghost pre_states = states@;
        match reduce(g, tables, reduce_list, act, None, states, symbols, actions) {
            Some(res) => StepOutcome::Finished(res),
            None => {
                proof {
                    lemma_stack_ok_after_reduce(
                        *g,
                        *tables,
                        reduce_list@,
                        act as int,
                        None,
                        *actions,
                        pre_states,
                        old(symbols)@,
                        states@,
                        symbols@,
                    );
                }
                StepOutcome::Reduced
            },
        }
    } else {
        StepOutcome::Finished(Err(ParseError::UnrecognizedEof))
    }
}

/// Any accepting or action-failing outcome exhibits a semantic-action call
/// that produced the returned value or error.
proof fn lemma_finished_provenance<F: Fn(usize, Vec<StackValue>, u64, u64) -> Result<u64, u64>>(
    g: Grammar,
    rl: Seq<(usize, usize)>,
    act: int,
    lookahead_start: Option<u64>,
    f: F,
    pre_states: Seq<usize>,
    pre_symbols: Seq<StackValue>,
    post_states: Seq<usize>,
    post_symbols: Seq<StackValue>,
    res: Result<u64, ParseError>,
)
    requires
        forall|v: u64|
            res == Result::<u64, ParseError>::Ok(v) ==> accepted_reduction(
                g,
                rl,
                act,
                lookahead_start,
                f,
                pre_states,
                pre_symbols,
                post_states,
                post_symbols,
                v,
            ),
        forall|e: u64|
            res == Result::<u64, ParseError>::Err(ParseError::User { error: e })
                ==> failed_reduction(
                g,
                rl,
                act,
                lookahead_start,
                f,
                pre_states,
                pre_symbols,
                post_states,
                post_symbols,
                e,
            ),
    ensures
        forall|v: u64|
            res == Result::<u64, ParseError>::Ok(v) ==> exists|
                args: (usize, Vec<StackValue>, u64, u64),
            |
                #[trigger] call_ensures(f, args, Result::<u64, u64>::Ok(v)),
        forall|e: u64|
            res == Result::<u64, ParseError>::Err(ParseError::User { error: e }) ==> exists|
                args: (usize, Vec<StackValue>, u64, u64),
            |
                #[trigger] call_ensures(f, args, Result::<u64, u64>::Err(e)),
{
    let e0 = rl[-act - 1];
    let nt = e0.0 as int;
    let prod = g.nonterminals@[nt].productions@[e0.1 as int];
    let k = prod.symbols@.len() as int;
    let n0 = pre_symbols.len() as int;
    let start0 = spec_start_loc(pre_symbols, k);
    let end0 = spec_end_loc(pre_symbols, k, lookahead_start);
    match res {
        Ok(v) => {
            assert(res == Result::<u64, ParseError>::Ok(v));
            assert(accepted_reduction(
                g,
                rl,
                act,
                lookahead_start,
                f,
                pre_states,
                pre_symbols,
                post_states,
                post_symbols,
                v,
            ));
            let vv = choose|vv: Vec<StackValue>|
                vv@ == pre_symbols.skip(n0 - k) && #[trigger] call_ensures(
                    f,
                    (prod.action, vv, start0, end0),
                    Result::<u64, u64>::Ok(v),
                );
            assert(call_ensures(f, (prod.action, vv, start0, end0), Result::<u64, u64>::Ok(v)));
        },
        Err(ParseError::User { error }) => {
            assert(res == Result::<u64, ParseError>::Err(ParseError::User { error }));
            assert(failed_reduction(
                g,
                rl,
                act,
                lookahead_start,
                f,
                pre_states,
                pre_symbols,
                post_states,
                post_symbols,
                error,
            ));
            let vv = choose|vv: Vec<StackValue>|
                vv@ == pre_symbols.skip(n0 - k) && #[trigger] call_ensures(
                    f,
                    (prod.action, vv, start0, end0),
                    Result::<u64, u64>::Err(error),
                );
            assert(call_ensures(
                f,
                (prod.action, vv, start0, end0),
                Result::<u64, u64>::Err(error),
            ));
        },
        _ => {},
    }
}

/// The first token is well-formed and classified, yet the initial state's
/// ACTION entry for it is the error entry: the driver must reject it before
/// consuming anything further.
pub open spec fn first_action_is_error(
    g: Grammar,
    t: ParseTables,
    tokens: Seq<Result<SpannedToken, u64>>,
) -> bool {
    &&& tokens.len() > 0
    &&& tokens[0] matches Ok(tk) && (spec_classify(g, tk.token.terminal@) matches Some(i)
        && t.action@[0 * t.num_terminals + i] == 0)
}

/// The table-driven parsing entry point: consumes a token stream and drives
/// the shift/reduce machine over the compiled tables.
///
/// The outer loop pulls one token at a time, classifies it by terminal name,
/// and resolves it through `resolve_token` until it shifts; once the input
/// is exhausted, `eof_step` alone drives the remaining reductions. The only
/// successful exit is the start nonterminal's reduction. A stream error or
/// a failed semantic action aborts the parse immediately. The per-transition
/// semantics — what each table entry makes the machine do to the stacks —
/// is the contract of `resolve_token`, `eof_step` and `reduce`; this
/// function's own contract states the machine's start-up behaviour and what
/// every overall outcome implies. The step budget guards the reduction
/// loops: a consistent automaton never exhausts it, and a malformed table
/// is reported as `Inconsistent` instead of looping forever.
#[verifier::loop_isolation(false)]
#[verifier::rlimit(100)]
#[verifier::spinoff_prover]
pub fn parse<F: Fn(usize, Vec<StackValue>, u64, u64) -> Result<u64, u64>>(
    g: &Grammar,
    tables: &ParseTables,
    reduce_list: &Vec<(usize, usize)>,
    tokens: &Vec<Result<SpannedToken, u64>>,
    actions: &F,
) -> (r: Result<u64, ParseError>)
    requires
        g.wf(),
        reduce_list_ok(*g, reduce_list@),
        tables_ok(*tables, g.num_productions()),
        tables.num_terminals == g.num_terminals(),
        tables.num_nonterminals == g.num_nonterminals(),
        forall|args: (usize, Vec<StackValue>, u64, u64)| call_requires(*actions, args),
    ensures
        tokens@.len() == 0 && tables.eof_action@[0] == 0 ==> r == Result::<
            u64,
            ParseError,
        >::Err(ParseError::UnrecognizedEof),
        forall|e: u64|
            tokens@.len() > 0 && tokens@[0] == Result::<SpannedToken, u64>::Err(e) ==> r
                == Result::<u64, ParseError>::Err(ParseError::User { error: e }),
        forall|tk: SpannedToken|
            tokens@.len() > 0 && tokens@[0] == Result::<SpannedToken, u64>::Ok(tk)
                && spec_classify(*g, tk.token.terminal@) is None ==> r == Result::<
                u64,
                ParseError,
            >::Err(ParseError::UnrecognizedToken { token: tk }),
        first_action_is_error(*g, *tables, tokens@) ==> (tokens@[0] matches Ok(tk) && r
            == Result::<u64, ParseError>::Err(ParseError::UnrecognizedToken { token: tk })),
        forall|v: u64|
            r == Result::<u64, ParseError>::Ok(v) ==> exists|
                args: (usize, Vec<StackValue>, u64, u64),
            |
                #[trigger] call_ensures(*actions, args, Result::<u64, u64>::Ok(v)),
        forall|e: u64|
            r == Result::<u64, ParseError>::Err(ParseError::User { error: e }) ==> (exists|i: int|
                0 <= i < tokens@.len() && #[trigger] tokens@[i] == Result::<SpannedToken, u64>::Err(
                    e,
                )) || (exists|args: (usize, Vec<StackValue>, u64, u64)|
                #[trigger] call_ensures(*actions, args, Result::<u64, u64>::Err(e))),
{
    let mut states: Vec<usize> = Vec::new();
    states.push(0);
    let mut symbols: Vec<StackValue> = Vec::new();
    let mut budget: usize = usize::MAX;

    let mut idx: usize = 0;
    while idx < tokens.len()
        invariant
            states@.len() >= 1,
            stack_ok(*tables, states@),
            idx <= tokens@.len(),
            tokens@.len() == 0 ==> states@ == seq![0usize],
            first_action_is_error(*g, *tables, tokens@) ==> idx == 0 && states@ == seq![0usize]
                && budget == usize::MAX,
            idx > 0 && tokens@.len() > 0 ==> (tokens@[0] matches Ok(tk0) && spec_classify(
                *g,
                tk0.token.terminal@,
            ) is Some),
        decreases tokens@.len() - idx,
    {
        // Pull the next token; a stream error is fatal.
        let tok = match &tokens[idx] {
            Ok(t) => t,
            Err(e) => {
                proof {
                    assert(tokens@[idx as int] == Result::<SpannedToken, u64>::Err(*e));
                }
                return Err(ParseError::User { error: *e });
            },
        };

        // Classify the token into its terminal index.
        let integer = match classify(g, &tok.token.terminal) {
            Some(i) => i,
            None => {
                return Err(ParseError::UnrecognizedToken { token: copy_spanned_token(tok) });
            },
        };

        // Resolve: reduce until the token can be shifted, or fail.
        let mut shifted = false;
        while !shifted
            invariant
                states@.len() >= 1,
                stack_ok(*tables, states@),
                first_action_is_error(*g, *tables, tokens@) && idx == 0 ==> states@
                    == seq![0usize] && budget == usize::MAX,
                shifted ==> !(first_action_is_error(*g, *tables, tokens@) && idx == 0),
            decreases budget,
        {
            if budget == 0 {
                return Err(ParseError::Inconsistent);
            }
            budget = budget - 1;
            let ghost pre_states = states@;
            let ghost pre_symbols = symbols@;
            match resolve_token(
                g,
                tables,
                reduce_list,
                tok,
                integer,
                &mut states,
                &mut symbols,
                actions,
            ) {
                StepOutcome::Shifted => {
                    shifted = true;
                },
                StepOutcome::Reduced => {},
                StepOutcome::Finished(res) => {
                    proof {
                        lemma_finished_provenance(
                            *g,
                            reduce_list@,
                            lookahead_entry(*tables, pre_states, integer as int),
                            Some(tok.start),
                            *actions,
                            pre_states,
                            pre_symbols,
                            states@,
                            symbols@,
                            res,
                        );
                    }
                    return res;
                },
            }
        }
        idx = idx + 1;
    }

    // The input is exhausted: EOF_ACTION alone drives the remaining
    // reductions until the start production returns, or fails.
    loop
        invariant
            states@.len() >= 1,
            stack_ok(*tables, states@),
            tokens@.len() == 0 && tables.eof_action@[0] == 0 ==> states@ == seq![0usize],
        decreases budget,
    {
        let ghost pre_states = states@;
        let ghost pre_symbols = symbols@;
        match eof_step(g, tables, reduce_list, &mut states, &mut symbols, actions) {
            StepOutcome::Finished(res) => {
                proof {
                    lemma_finished_provenance(
                        *g,
                        reduce_list@,
                        eof_entry_of(*tables, pre_states),
                        None,
                        *actions,
                        pre_states,
                        pre_symbols,
                        states@,
                        symbols@,
                        res,
                    );
                }
                return res;
            },
            StepOutcome::Reduced => {
                if budget == 0 {
                    return Err(ParseError::Inconsistent);
                }
                budget = budget - 1;
            },
            StepOutcome::Shifted => {
                proof {
                    assert(false);
                }
                return Err(ParseError::Inconsistent);
            },
        }
    }
}

/// Rebuilds a spanned token, field for field.
fn copy_spanned_token(t: &SpannedToken) -> (r: SpannedToken)
    ensures
        r == *t,
{
    SpannedToken {
        start: t.start,
        token: Token { terminal: t.token.terminal.clone(), value: t.token.value },
        end: t.end,
    }
}

} // verus!
