//! The LR(1) automaton consumed by the table compiler: states with shift,
//! goto and reduce edges. The automaton is built upstream and is an opaque,
//! immutable input here; only the integer indices it stores matter.

use crate::grammar::Grammar;
use vstd::prelude::*;

verus! {

/// The lookahead alphabet used to guard reductions: a terminal, or the end
/// of the input. Disjoint from the symbol alphabet, which has no EOF.
#[derive(Clone, Copy, PartialEq, Eq, Structural, Debug)]
pub enum Lookahead {
    Terminal(usize),
    Eof,
}

/// The set of lookahead tokens under which one reduction applies: a list of
/// terminal indices plus an EOF flag.
#[derive(Clone, Debug)]
pub struct TokenSet {
    pub terminals: Vec<usize>,
    pub eof: bool,
}

impl TokenSet {
    /// Membership of a lookahead token in this set.
    pub open spec fn spec_contains(self, tok: Lookahead) -> bool {
        match tok {
            Lookahead::Terminal(t) => self.terminals@.contains(t),
            Lookahead::Eof => self.eof,
        }
    }

    /// Tests membership of a lookahead token.
    pub fn contains(&self, tok: Lookahead) -> (r: bool)
        ensures
            r == self.spec_contains(tok),
    {
        match tok {
            Lookahead::Eof => self.eof,
            Lookahead::Terminal(t) => {
                let mut i: usize = 0;
                while i < self.terminals.len()
                    invariant
                        tok == Lookahead::Terminal(t),
                        i <= self.terminals@.len(),
                        forall|j: int| 0 <= j < i ==> self.terminals@[j] != t,
                    decreases self.terminals@.len() - i,
                {
                    if self.terminals[i] == t {
                        assert(self.terminals@.contains(t)) by {
                            assert(self.terminals@[i as int] == t);
                        }
                        return true;
                    }
                    i = i + 1;
                }
                false
            },
        }
    }
}

/// One reduce edge of a state: the production `(nonterminal, production)`
/// applies whenever the lookahead lies in `lookaheads`.
#[derive(Clone, Debug)]
pub struct Reduction {
    pub lookaheads: TokenSet,
    pub nonterminal: usize,
    pub production: usize,
}

/// One LR(1) state: shift edges keyed by terminal, goto edges keyed by
/// nonterminal (both association lists with unique keys), and the reduce
/// edges in declaration order.
#[derive(Clone, Debug)]
pub struct State {
    pub shifts: Vec<(usize, usize)>,
    pub gotos: Vec<(usize, usize)>,
    pub reductions: Vec<Reduction>,
}

/// First-match lookup in an association list; with unique keys this is the
/// mapping the list represents.
pub open spec fn assoc(edges: Seq<(usize, usize)>, key: int) -> Option<usize>
    decreases edges.len(),
{
    if edges.len() == 0 {
        None
    } else if edges[0].0 == key {
        Some(edges[0].1)
    } else {
        assoc(edges.drop_first(), key)
    }
}

/// Looks a key up in an association list of edges.
pub fn assoc_lookup(edges: &Vec<(usize, usize)>, key: usize) -> (r: Option<usize>)
    ensures
        r == assoc(edges@, key as int),
{
    let mut i: usize = 0;
    proof {
        assert(edges@.skip(0) =~= edges@);
    }
    while i < edges.len()
        invariant
            i <= edges@.len(),
            assoc(edges@, key as int) == assoc(edges@.skip(i as int), key as int),
        decreases edges@.len() - i,
    {
        proof {
            assert(edges@.skip(i as int).drop_first() =~= edges@.skip(i as int + 1));
        }
        let e = edges[i];
        if e.0 == key {
            return Some(e.1);
        }
        i = i + 1;
    }
    proof {
        assert(edges@.skip(i as int).len() == 0);
    }
    None
}

impl State {
    /// The index of the first reduction, in declaration order, whose
    /// lookahead set contains `tok`; `None` if none matches. Reduce-reduce
    /// overlaps are resolved by this first-match rule.
    pub open spec fn first_reduction_from(self, tok: Lookahead, i: int) -> Option<int>
        decreases self.reductions@.len() - i,
    {
        if i < 0 || i >= self.reductions@.len() {
            None
        } else if self.reductions@[i].lookaheads.spec_contains(tok) {
            Some(i)
        } else {
            self.first_reduction_from(tok, i + 1)
        }
    }

    pub open spec fn first_reduction(self, tok: Lookahead) -> Option<int> {
        self.first_reduction_from(tok, 0)
    }

    /// Scans the reductions for the first whose lookahead set contains `tok`.
    pub fn find_reduction(&self, tok: Lookahead) -> (r: Option<usize>)
        ensures
            match r {
                Some(i) => i < self.reductions@.len() && self.first_reduction(tok) == Some(
                    i as int,
                ) && self.reductions@[i as int].lookaheads.spec_contains(tok),
                None => self.first_reduction(tok) is None,
            },
    {
        let mut i: usize = 0;
        while i < self.reductions.len()
            invariant
                i <= self.reductions@.len(),
                self.first_reduction(tok) == self.first_reduction_from(tok, i as int),
            decreases self.reductions@.len() - i,
        {
            if self.reductions[i].lookaheads.contains(tok) {
                return Some(i);
            }
            i = i + 1;
        }
        None
    }
}

/// What `first_reduction_from` returns: the first matching reduction at or
/// after `i`, with nothing before it matching.
pub proof fn lemma_first_reduction_spec(s: State, tok: Lookahead, i: int)
    requires
        0 <= i <= s.reductions@.len(),
    ensures
        match s.first_reduction_from(tok, i) {
            Some(k) => i <= k < s.reductions@.len()
                && s.reductions@[k].lookaheads.spec_contains(tok) && forall|j: int|
                i <= j < k ==> !(#[trigger] s.reductions@[j]).lookaheads.spec_contains(tok),
            None => forall|j: int|
                i <= j < s.reductions@.len() ==> !(
                #[trigger] s.reductions@[j]).lookaheads.spec_contains(tok),
        },
    decreases s.reductions@.len() - i,
{
    if i < s.reductions@.len() && !s.reductions@[i].lookaheads.spec_contains(tok) {
        lemma_first_reduction_spec(s, tok, i + 1);
    }
}

/// Well-formedness of an automaton of `num_states` states against a grammar:
/// every shift and goto edge references a declared symbol and an existing
/// target state, keys are unique within each edge list, and every reduction
/// names a production of the grammar over declared terminals.
pub open spec fn state_wf(g: Grammar, s: State, num_states: nat) -> bool {
    &&& forall|i: int|
        0 <= i < s.shifts@.len() ==> (#[trigger] s.shifts@[i]).0 < g.num_terminals()
            && s.shifts@[i].1 < num_states
    &&& forall|i: int, j: int|
        0 <= i < j < s.shifts@.len() ==> s.shifts@[i].0 != s.shifts@[j].0
    &&& forall|i: int|
        0 <= i < s.gotos@.len() ==> (#[trigger] s.gotos@[i]).0 < g.num_nonterminals()
            && s.gotos@[i].1 < num_states
    &&& forall|i: int, j: int|
        0 <= i < j < s.gotos@.len() ==> s.gotos@[i].0 != s.gotos@[j].0
    &&& forall|i: int|
        0 <= i < s.reductions@.len() ==> {
            let r = #[trigger] s.reductions@[i];
            g.prod_wf(r.nonterminal as int, r.production as int) && forall|j: int|
                0 <= j < r.lookaheads.terminals@.len()
                    ==> #[trigger] r.lookaheads.terminals@[j] < g.num_terminals()
        }
}

pub open spec fn automaton_wf(g: Grammar, states: Seq<State>) -> bool {
    &&& states.len() >= 1
    &&& states.len() + 1 <= i32::MAX
    &&& forall|i: int| 0 <= i < states.len() ==> state_wf(g, #[trigger] states[i], states.len())
}

/// Decides well-formedness of one state against a grammar and state count:
/// returns exactly `state_wf`.
pub fn check_state(g: &Grammar, s: &State, num_states: usize) -> (r: bool)
    ensures
        r == state_wf(*g, *s, num_states as nat),
{
    let mut i: usize = 0;
    while i < s.shifts.len()
        invariant
            i <= s.shifts@.len(),
            forall|j: int|
                0 <= j < i ==> (#[trigger] s.shifts@[j]).0 < g.num_terminals()
                    && s.shifts@[j].1 < num_states,
            forall|a: int, b: int|
                0 <= a < b < s.shifts@.len() && a < i ==> (#[trigger] s.shifts@[a]).0 != (
                #[trigger] s.shifts@[b]).0,
        decreases s.shifts@.len() - i,
    {
        let (key, target) = s.shifts[i];
        if key >= g.terminals.len() || target >= num_states {
            return false;
        }
        let mut j: usize = i + 1;
        while j < s.shifts.len()
            invariant
                i < s.shifts@.len(),
                key == s.shifts@[i as int].0,
                i < j <= s.shifts@.len() || j == i + 1,
                forall|j1: int| i < j1 < j ==> s.shifts@[i as int].0 != (#[trigger] s.shifts@[j1]).0,
            decreases s.shifts@.len() - j,
        {
            if s.shifts[j].0 == key {
                return false;
            }
            j = j + 1;
        }
        i = i + 1;
    }
    let mut i2: usize = 0;
    while i2 < s.gotos.len()
        invariant
            i2 <= s.gotos@.len(),
            forall|j: int|
                0 <= j < i2 ==> (#[trigger] s.gotos@[j]).0 < g.num_nonterminals()
                    && s.gotos@[j].1 < num_states,
            forall|a: int, b: int|
                0 <= a < b < s.gotos@.len() && a < i2 ==> (#[trigger] s.gotos@[a]).0 != (
                #[trigger] s.gotos@[b]).0,
            forall|a: int, b: int|
                0 <= a < b < s.shifts@.len() ==> s.shifts@[a].0 != s.shifts@[b].0,
            forall|a: int|
                0 <= a < s.shifts@.len() ==> (#[trigger] s.shifts@[a]).0 < g.num_terminals()
                    && s.shifts@[a].1 < num_states,
        decreases s.gotos@.len() - i2,
    {
        let (key, target) = s.gotos[i2];
        if key >= g.nonterminals.len() || target >= num_states {
            return false;
        }
        let mut j: usize = i2 + 1;
        while j < s.gotos.len()
            invariant
                i2 < s.gotos@.len(),
                key == s.gotos@[i2 as int].0,
                i2 < j <= s.gotos@.len() || j == i2 + 1,
                forall|j1: int| i2 < j1 < j ==> s.gotos@[i2 as int].0 != (#[trigger] s.gotos@[j1]).0,
            decreases s.gotos@.len() - j,
        {
            if s.gotos[j].0 == key {
                return false;
            }
            j = j + 1;
        }
        i2 = i2 + 1;
    }
    let mut ri: usize = 0;
    while ri < s.reductions.len()
        invariant
            ri <= s.reductions@.len(),
            forall|j: int|
                0 <= j < ri ==> {
                    let r = #[trigger] s.reductions@[j];
                    g.prod_wf(r.nonterminal as int, r.production as int) && forall|l: int|
                        0 <= l < r.lookaheads.terminals@.len()
                            ==> #[trigger] r.lookaheads.terminals@[l] < g.num_terminals()
                },
            forall|a: int, b: int|
                0 <= a < b < s.shifts@.len() ==> s.shifts@[a].0 != s.shifts@[b].0,
            forall|a: int|
                0 <= a < s.shifts@.len() ==> (#[trigger] s.shifts@[a]).0 < g.num_terminals()
                    && s.shifts@[a].1 < num_states,
            forall|a: int, b: int|
                0 <= a < b < s.gotos@.len() ==> s.gotos@[a].0 != s.gotos@[b].0,
            forall|a: int|
                0 <= a < s.gotos@.len() ==> (#[trigger] s.gotos@[a]).0 < g.num_nonterminals()
                    && s.gotos@[a].1 < num_states,
        decreases s.reductions@.len() - ri,
    {
        let red = &s.reductions[ri];
        if red.nonterminal >= g.nonterminals.len() {
            return false;
        }
        if red.production >= g.nonterminals[red.nonterminal].productions.len() {
            return false;
        }
        let mut l: usize = 0;
        while l < red.lookaheads.terminals.len()
            invariant
                ri < s.reductions@.len(),
                red == s.reductions@[ri as int],
                l <= red.lookaheads.terminals@.len(),
                forall|l1: int|
                    0 <= l1 < l ==> #[trigger] red.lookaheads.terminals@[l1] < g.num_terminals(),
            decreases red.lookaheads.terminals@.len() - l,
        {
            if red.lookaheads.terminals[l] >= g.terminals.len() {
                return false;
            }
            l = l + 1;
        }
        ri = ri + 1;
    }
    true
}

/// Decides well-formedness of a whole automaton against a grammar: returns
/// exactly `automaton_wf`, so a caller can establish the compiler's
/// precondition at run time for an untrusted automaton.
pub fn check_automaton(g: &Grammar, states: &Vec<State>) -> (r: bool)
    ensures
        r == automaton_wf(*g, states@),
{
    if states.len() == 0 {
        return false;
    }
    if states.len() > (i32::MAX - 1) as usize {
        return false;
    }
    let mut i: usize = 0;
    while i < states.len()
        invariant
            i <= states@.len(),
            forall|j: int| 0 <= j < i ==> state_wf(*g, #[trigger] states@[j], states@.len()),
        decreases states@.len() - i,
    {
        if !check_state(g, &states[i], states.len()) {
            return false;
        }
        i = i + 1;
    }
    true
}

} // verus!
