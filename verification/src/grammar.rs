//! The immutable grammar description consumed by the table compiler:
//! terminals, nonterminals, productions, payload-type information, and the
//! dense reduction indexing that the ACTION / EOF_ACTION tables encode.

use vstd::prelude::*;

verus! {

/// A reference to a grammar symbol, by index into the grammar's terminal or
/// nonterminal declarations.
#[derive(Clone, Copy, PartialEq, Eq, Structural, Debug)]
pub enum Symbol {
    Terminal(usize),
    Nonterminal(usize),
}

/// One production of a nonterminal: the ordered symbols it consumes, the
/// index of its semantic action in the external action table, and whether
/// that action may fail.
#[derive(Clone, Debug)]
pub struct Production {
    pub symbols: Vec<Symbol>,
    pub action: usize,
    pub fallible: bool,
}

/// A terminal declaration: its display name, its payload type (opaque type
/// text, carried through to the synthesized variant), and the indices of the
/// grammar type parameters that the payload type references (transitively).
#[derive(Clone, Debug)]
pub struct TerminalDef {
    pub name: String,
    pub payload: String,
    pub type_refs: Vec<usize>,
}

/// A nonterminal declaration: its display name, its payload type (opaque
/// type text), its productions in declaration order, and the type
/// parameters its payload type references.
#[derive(Clone, Debug)]
pub struct NonterminalDef {
    pub name: String,
    pub payload: String,
    pub productions: Vec<Production>,
    pub type_refs: Vec<usize>,
}

/// The grammar: ordered terminal and nonterminal declarations, the declared
/// type parameters, and the distinguished start nonterminal. Immutable for
/// the duration of a compilation.
#[derive(Clone, Debug)]
pub struct Grammar {
    pub terminals: Vec<TerminalDef>,
    pub nonterminals: Vec<NonterminalDef>,
    pub type_params: Vec<String>,
    pub start: usize,
}

impl Grammar {
    pub open spec fn num_terminals(self) -> nat {
        self.terminals@.len()
    }

    pub open spec fn num_nonterminals(self) -> nat {
        self.nonterminals@.len()
    }

    /// Number of productions declared by the nonterminals before index `nt`.
    pub open spec fn prods_before(self, nt: int) -> nat
        decreases nt,
    {
        if nt <= 0 {
            0
        } else {
            self.prods_before(nt - 1) + self.nonterminals@[nt - 1].productions@.len()
        }
    }

    /// Total number of productions in the grammar.
    pub open spec fn num_productions(self) -> nat {
        self.prods_before(self.num_nonterminals() as int)
    }

    /// The dense reduction index of production `pi` of nonterminal `nt`:
    /// productions are numbered in declaration order, nonterminal-major.
    /// Its value plus one is the magnitude of the negative reduce entries in
    /// the ACTION and EOF_ACTION tables.
    pub open spec fn reduce_index(self, nt: int, pi: int) -> int {
        self.prods_before(nt) + pi
    }

    /// Whether `(nt, pi)` names a production of this grammar.
    pub open spec fn prod_wf(self, nt: int, pi: int) -> bool {
        0 <= nt < self.num_nonterminals() && 0 <= pi
            < self.nonterminals@[nt].productions@.len()
    }

    /// Whether a symbol reference stays inside this grammar.
    pub open spec fn sym_wf(self, s: Symbol) -> bool {
        match s {
            Symbol::Terminal(t) => t < self.num_terminals(),
            Symbol::Nonterminal(n) => n < self.num_nonterminals(),
        }
    }

    /// Well-formedness of the grammar description: the start symbol exists,
    /// every production references only declared symbols, every payload type
    /// references only declared type parameters, display names are unique
    /// within each kind, and the counts fit the numeric table encoding.
    pub open spec fn wf(self) -> bool {
        &&& self.start < self.num_nonterminals()
        &&& forall|nt: int, pi: int|
            self.prod_wf(nt, pi) ==> {
                let p = self.nonterminals@[nt].productions@[pi];
                forall|i: int|
                    0 <= i < p.symbols@.len() ==> self.sym_wf(#[trigger] p.symbols@[i])
            }
        &&& forall|t: int|
            0 <= t < self.num_terminals() ==> {
                let refs = #[trigger] self.terminals@[t].type_refs@;
                forall|i: int| 0 <= i < refs.len() ==> #[trigger] refs[i] < self.type_params@.len()
            }
        &&& forall|n: int|
            0 <= n < self.num_nonterminals() ==> {
                let refs = #[trigger] self.nonterminals@[n].type_refs@;
                forall|i: int| 0 <= i < refs.len() ==> #[trigger] refs[i] < self.type_params@.len()
            }
        &&& forall|i: int, j: int|
            0 <= i < j < self.num_terminals() ==> self.terminals@[i].name@
                != self.terminals@[j].name@
        &&& forall|i: int, j: int|
            0 <= i < j < self.num_nonterminals() ==> self.nonterminals@[i].name@
                != self.nonterminals@[j].name@
        &&& self.num_productions() <= usize::MAX
        &&& self.num_productions() + 1 <= i32::MAX
    }
}

/// `prods_before` grows monotonically with the nonterminal index.
pub proof fn lemma_prods_before_monotone(g: Grammar, a: int, b: int)
    requires
        0 <= a <= b,
    ensures
        g.prods_before(a) <= g.prods_before(b),
    decreases b - a,
{
    if a < b {
        lemma_prods_before_monotone(g, a, b - 1);
    }
}

/// Every production's reduction index lies below the total production count.
pub proof fn lemma_reduce_index_bound(g: Grammar, nt: int, pi: int)
    requires
        g.prod_wf(nt, pi),
    ensures
        0 <= g.reduce_index(nt, pi) < g.num_productions(),
{
    assert(g.prods_before(nt + 1) == g.prods_before(nt)
        + g.nonterminals@[nt].productions@.len());
    lemma_prods_before_monotone(g, nt + 1, g.num_nonterminals() as int);
}

/// The reduction indexing is injective: distinct productions get distinct
/// indices.
pub proof fn lemma_reduce_index_injective(g: Grammar, nt1: int, pi1: int, nt2: int, pi2: int)
    requires
        g.prod_wf(nt1, pi1),
        g.prod_wf(nt2, pi2),
        g.reduce_index(nt1, pi1) == g.reduce_index(nt2, pi2),
    ensures
        nt1 == nt2 && pi1 == pi2,
{
    if nt1 < nt2 {
        assert(g.prods_before(nt1 + 1) == g.prods_before(nt1)
            + g.nonterminals@[nt1].productions@.len());
        lemma_prods_before_monotone(g, nt1 + 1, nt2);
    } else if nt2 < nt1 {
        assert(g.prods_before(nt2 + 1) == g.prods_before(nt2)
            + g.nonterminals@[nt2].productions@.len());
        lemma_prods_before_monotone(g, nt2 + 1, nt1);
    }
}

/// Computes the dense reduction index of production `pi` of nonterminal
/// `nt`: the number of productions declared before it, in declaration order.
pub fn reduce_index(g: &Grammar, nt: usize, pi: usize) -> (r: usize)
    requires
        g.wf(),
        g.prod_wf(nt as int, pi as int),
    ensures
        r == g.reduce_index(nt as int, pi as int),
{
    proof {
        lemma_reduce_index_bound(*g, nt as int, pi as int);
    }
    let mut sum: usize = 0;
    let mut i: usize = 0;
    while i < nt
        invariant
            g.wf(),
            g.prod_wf(nt as int, pi as int),
            i <= nt,
            sum == g.prods_before(i as int),
            g.reduce_index(nt as int, pi as int) < g.num_productions() <= usize::MAX,
        decreases nt - i,
    {
        proof {
            lemma_prods_before_monotone(*g, i as int + 1, nt as int);
        }
        sum = sum + g.nonterminals[i].productions.len();
        i = i + 1;
    }
    sum + pi
}

/// Decides well-formedness of a grammar description: returns exactly
/// `Grammar::wf`, so a caller can establish the compiler's precondition at
/// run time for an untrusted grammar.
pub fn check_grammar(g: &Grammar) -> (r: bool)
    ensures
        r == g.wf(),
{
    if g.start >= g.nonterminals.len() {
        return false;
    }

    // Every production references only declared symbols.
    let mut nt: usize = 0;
    while nt < g.nonterminals.len()
        invariant
            nt <= g.num_nonterminals(),
            forall|a: int, b: int|
                g.prod_wf(a, b) && a < nt ==> {
                    let p = g.nonterminals@[a].productions@[b];
                    forall|i: int|
                        0 <= i < p.symbols@.len() ==> g.sym_wf(#[trigger] p.symbols@[i])
                },
        decreases g.num_nonterminals() - nt,
    {
        let mut pi: usize = 0;
        while pi < g.nonterminals[nt].productions.len()
            invariant
                nt < g.num_nonterminals(),
                pi <= g.nonterminals@[nt as int].productions@.len(),
                forall|a: int, b: int|
                    g.prod_wf(a, b) && a < nt ==> {
                        let p = g.nonterminals@[a].productions@[b];
                        forall|i: int|
                            0 <= i < p.symbols@.len() ==> g.sym_wf(#[trigger] p.symbols@[i])
                    },
                forall|b: int|
                    0 <= b < pi ==> {
                        let p = #[trigger] g.nonterminals@[nt as int].productions@[b];
                        forall|i: int|
                            0 <= i < p.symbols@.len() ==> g.sym_wf(#[trigger] p.symbols@[i])
                    },
            decreases g.nonterminals@[nt as int].productions@.len() - pi,
        {
            let mut i: usize = 0;
            while i < g.nonterminals[nt].productions[pi].symbols.len()
                invariant
                    nt < g.num_nonterminals(),
                    pi < g.nonterminals@[nt as int].productions@.len(),
                    i <= g.nonterminals@[nt as int].productions@[pi as int].symbols@.len(),
                    forall|j: int|
                        0 <= j < i ==> g.sym_wf(
                            #[trigger] g.nonterminals@[nt as int].productions@[pi as int].symbols@[j],
                        ),
                decreases g.nonterminals@[nt as int].productions@[pi as int].symbols@.len() - i,
            {
                let ok = match g.nonterminals[nt].productions[pi].symbols[i] {
                    Symbol::Terminal(t) => t < g.terminals.len(),
                    Symbol::Nonterminal(n) => n < g.nonterminals.len(),
                };
                if !ok {
                    proof {
                        assert(g.prod_wf(nt as int, pi as int));
                        assert(!g.sym_wf(
                            g.nonterminals@[nt as int].productions@[pi as int].symbols@[i as int],
                        ));
                        assert(!g.wf());
                    }
                    return false;
                }
                i = i + 1;
            }
            pi = pi + 1;
        }
        nt = nt + 1;
    }

    // Every payload type references only declared type parameters.
    let mut t: usize = 0;
    while t < g.terminals.len()
        invariant
            t <= g.num_terminals(),
            forall|a: int|
                0 <= a < t ==> {
                    let refs = (#[trigger] g.terminals@[a]).type_refs@;
                    forall|i: int| 0 <= i < refs.len() ==> #[trigger] refs[i] < g.type_params@.len()
                },
        decreases g.num_terminals() - t,
    {
        let mut i: usize = 0;
        while i < g.terminals[t].type_refs.len()
            invariant
                t < g.num_terminals(),
                i <= g.terminals@[t as int].type_refs@.len(),
                forall|j: int|
                    0 <= j < i ==> #[trigger] g.terminals@[t as int].type_refs@[j]
                        < g.type_params@.len(),
            decreases g.terminals@[t as int].type_refs@.len() - i,
        {
            if g.terminals[t].type_refs[i] >= g.type_params.len() {
                return false;
            }
            i = i + 1;
        }
        t = t + 1;
    }
    let mut n: usize = 0;
    while n < g.nonterminals.len()
        invariant
            n <= g.num_nonterminals(),
            forall|a: int|
                0 <= a < n ==> {
                    let refs = (#[trigger] g.nonterminals@[a]).type_refs@;
                    forall|i: int| 0 <= i < refs.len() ==> #[trigger] refs[i] < g.type_params@.len()
                },
        decreases g.num_nonterminals() - n,
    {
        let mut i: usize = 0;
        while i < g.nonterminals[n].type_refs.len()
            invariant
                n < g.num_nonterminals(),
                i <= g.nonterminals@[n as int].type_refs@.len(),
                forall|j: int|
                    0 <= j < i ==> #[trigger] g.nonterminals@[n as int].type_refs@[j]
                        < g.type_params@.len(),
            decreases g.nonterminals@[n as int].type_refs@.len() - i,
        {
            if g.nonterminals[n].type_refs[i] >= g.type_params.len() {
                return false;
            }
            i = i + 1;
        }
        n = n + 1;
    }

    // Display names are unique within each kind.
    let mut a: usize = 0;
    while a < g.terminals.len()
        invariant
            a <= g.num_terminals(),
            forall|i: int, j: int|
                0 <= i < j < g.num_terminals() && i < a ==> g.terminals@[i].name@
                    != g.terminals@[j].name@,
        decreases g.num_terminals() - a,
    {
        let mut b: usize = a + 1;
        while b < g.terminals.len()
            invariant
                a < b <= g.num_terminals() || (a >= g.num_terminals() && b == a + 1),
                forall|j: int|
                    a < j < b ==> g.terminals@[a as int].name@ != g.terminals@[j].name@,
            decreases g.num_terminals() - b,
        {
            if g.terminals[a].name == g.terminals[b].name {
                return false;
            }
            b = b + 1;
        }
        a = a + 1;
    }
    let mut a2: usize = 0;
    while a2 < g.nonterminals.len()
        invariant
            a2 <= g.num_nonterminals(),
            forall|i: int, j: int|
                0 <= i < j < g.num_nonterminals() && i < a2 ==> g.nonterminals@[i].name@
                    != g.nonterminals@[j].name@,
        decreases g.num_nonterminals() - a2,
    {
        let mut b: usize = a2 + 1;
        while b < g.nonterminals.len()
            invariant
                a2 < b <= g.num_nonterminals() || (a2 >= g.num_nonterminals() && b == a2 + 1),
                forall|j: int|
                    a2 < j < b ==> g.nonterminals@[a2 as int].name@ != g.nonterminals@[j].name@,
            decreases g.num_nonterminals() - b,
        {
            if g.nonterminals[a2].name == g.nonterminals[b].name {
                return false;
            }
            b = b + 1;
        }
        a2 = a2 + 1;
    }

    // The production count fits the numeric encoding.
    let mut total: usize = 0;
    let mut i: usize = 0;
    while i < g.nonterminals.len()
        invariant
            i <= g.num_nonterminals(),
            total == g.prods_before(i as int),
        decreases g.num_nonterminals() - i,
    {
        let len = g.nonterminals[i].productions.len();
        if len > usize::MAX - total {
            proof {
                lemma_prods_before_monotone(*g, i as int + 1, g.num_nonterminals() as int);
            }
            return false;
        }
        total = total + len;
        i = i + 1;
    }
    if total > (i32::MAX - 1) as usize {
        return false;
    }
    true
}

/// What the runtime driver needs of the flat production list: entry `p`
/// names the production whose reduction index is `p`.
pub open spec fn reduce_list_ok(g: Grammar, rl: Seq<(usize, usize)>) -> bool {
    &&& rl.len() == g.num_productions()
    &&& forall|p: int|
        0 <= p < rl.len() ==> {
            let e = #[trigger] rl[p];
            g.prod_wf(e.0 as int, e.1 as int) && g.reduce_index(e.0 as int, e.1 as int) == p
        }
}

/// Computes the flat list of all productions in reduction-index order: entry
/// `p` names the production `(nonterminal, production)` whose reduction index
/// is `p`. This is the inverse of `Grammar::reduce_index`, computed once and
/// used read-only by the table builder and the runtime driver.
pub fn build_reduce_list(g: &Grammar) -> (r: Vec<(usize, usize)>)
    requires
        g.wf(),
    ensures
        reduce_list_ok(*g, r@),
{
    let mut r: Vec<(usize, usize)> = Vec::new();
    let mut nt: usize = 0;
    while nt < g.nonterminals.len()
        invariant
            g.wf(),
            nt <= g.num_nonterminals(),
            r@.len() == g.prods_before(nt as int),
            forall|p: int|
                0 <= p < r@.len() ==> {
                    let e = #[trigger] r@[p];
                    g.prod_wf(e.0 as int, e.1 as int) && g.reduce_index(e.0 as int, e.1 as int)
                        == p
                },
        decreases g.num_nonterminals() - nt,
    {
        let prods = g.nonterminals[nt].productions.len();
        let mut pi: usize = 0;
        proof {
            lemma_prods_before_monotone(*g, nt as int + 1, g.num_nonterminals() as int);
        }
        while pi < prods
            invariant
                g.wf(),
                nt < g.num_nonterminals(),
                prods == g.nonterminals@[nt as int].productions@.len(),
                pi <= prods,
                g.prods_before(nt as int) + prods <= g.num_productions(),
                r@.len() == g.reduce_index(nt as int, pi as int),
                forall|p: int|
                    0 <= p < r@.len() ==> {
                        let e = #[trigger] r@[p];
                        g.prod_wf(e.0 as int, e.1 as int) && g.reduce_index(
                            e.0 as int,
                            e.1 as int,
                        ) == p
                    },
            decreases prods - pi,
        {
            r.push((nt, pi));
            pi = pi + 1;
        }
        assert(g.prods_before(nt as int + 1) == g.prods_before(nt as int) + prods);
        nt = nt + 1;
    }
    r
}

} // verus!
