//! Backend of an LR(1) parser generator: compiles a finished LR(1) automaton
//! into flat numeric ACTION / EOF_ACTION / GOTO tables, derives the
//! tagged-union symbol type that the runtime value stack carries, and provides
//! the table-driven shift/reduce driver that executes those tables over a
//! token stream.

pub mod automaton;
pub mod driver;
pub mod grammar;
pub mod synth;
pub mod tables;

use crate::automaton::{automaton_wf, State};
use crate::grammar::{lemma_reduce_index_injective, reduce_list_ok, Grammar};
use crate::synth::{spec_symbol_type_params, spec_variant_names, spec_variant_types};
use crate::tables::{lemma_tables_deterministic, tables_match, ParseTables};
use vstd::prelude::*;

verus! {

/// Everything the compiler produces for one grammar and automaton: the
/// three numeric tables, the flat production list that the reducer
/// dispatches over, and the synthesized symbol type's minimal
/// type-parameter list, variant names, and per-variant payload types
/// (`variant_types[i]` is the type the variant `variant_names[i]` holds).
#[derive(Clone, Debug)]
pub struct CompiledParser {
    pub tables: ParseTables,
    pub reduce_list: Vec<(usize, usize)>,
    pub symbol_type_params: Vec<usize>,
    pub variant_names: Vec<String>,
    pub variant_types: Vec<String>,
}

/// What it means for a `CompiledParser` to be the compilation of a grammar
/// and automaton: the tables hold exactly the prescribed entries, the
/// production list inverts the reduction indexing, and the synthesized
/// type-parameter list, variant names and payload types are the prescribed ones.
pub open spec fn is_compilation_of(g: Grammar, states: Seq<State>, c: CompiledParser) -> bool {
    &&& tables_match(g, states, c.tables)
    &&& reduce_list_ok(g, c.reduce_list@)
    &&& c.symbol_type_params@ == spec_symbol_type_params(g)
    &&& c.variant_names@.len() == spec_variant_names(g).len()
    &&& forall|i: int|
        0 <= i < c.variant_names@.len() ==> (#[trigger] c.variant_names@[i])@
            == spec_variant_names(g)[i]
    &&& c.variant_types@.len() == spec_variant_types(g).len()
    &&& forall|i: int|
        0 <= i < c.variant_types@.len() ==> (#[trigger] c.variant_types@[i])@
            == spec_variant_types(g)[i]
}

/// Compiles a grammar and its LR(1) automaton into the table-driven parser:
/// the three numeric tables, the flat production list the reducer dispatches
/// over, and the synthesized symbol type's minimal type-parameter list,
/// variant names and payload types.
pub fn compile(g: &Grammar, states: &Vec<State>) -> (r: CompiledParser)
    requires
        g.wf(),
        automaton_wf(*g, states@),
        states@.len() * g.num_terminals() <= usize::MAX,
        states@.len() * g.num_nonterminals() <= usize::MAX,
        g.num_terminals() + g.num_nonterminals() <= usize::MAX,
    ensures
        is_compilation_of(*g, states@, r),
        crate::tables::tables_ok(r.tables, g.num_productions()),
{
    let r = CompiledParser {
        tables: crate::tables::build_tables(g, states),
        reduce_list: crate::grammar::build_reduce_list(g),
        symbol_type_params: crate::synth::symbol_type_params(g),
        variant_names: crate::synth::variant_names(g),
        variant_types: crate::synth::variant_types(g),
    };
    proof {
        crate::tables::lemma_tables_ok(*g, states@, r.tables);
    }
    r
}

/// Compiles an untrusted grammar and automaton, deciding the compiler's
/// preconditions at run time: returns `Some` exactly when the grammar and
/// automaton are well-formed and the tables fit the address space, and
/// `None` otherwise.
pub fn compile_checked(g: &Grammar, states: &Vec<State>) -> (r: Option<CompiledParser>)
    ensures
        r is Some <==> (g.wf() && automaton_wf(*g, states@) && states@.len() * g.num_terminals()
            <= usize::MAX && states@.len() * g.num_nonterminals() <= usize::MAX
            && g.num_terminals() + g.num_nonterminals() <= usize::MAX),
        r matches Some(c) ==> is_compilation_of(*g, states@, c) && crate::tables::tables_ok(
            c.tables,
            g.num_productions(),
        ),
{
    if !crate::grammar::check_grammar(g) {
        return None;
    }
    if !crate::automaton::check_automaton(g, states) {
        return None;
    }
    if states.len().checked_mul(g.terminals.len()).is_none() {
        return None;
    }
    if states.len().checked_mul(g.nonterminals.len()).is_none() {
        return None;
    }
    if g.terminals.len().checked_add(g.nonterminals.len()).is_none() {
        return None;
    }
    Some(compile(g, states))
}

/// Compilation is deterministic: any two compilations of the same grammar
/// and automaton agree entry for entry on every table, on the production
/// list, on the type-parameter list, and character for character on every
/// variant name and payload type.
pub proof fn lemma_compile_deterministic(
    g: Grammar,
    states: Seq<State>,
    c1: CompiledParser,
    c2: CompiledParser,
)
    requires
        g.wf(),
        is_compilation_of(g, states, c1),
        is_compilation_of(g, states, c2),
    ensures
        c1.tables.action@ == c2.tables.action@,
        c1.tables.eof_action@ == c2.tables.eof_action@,
        c1.tables.goto_edges@ == c2.tables.goto_edges@,
        c1.reduce_list@ == c2.reduce_list@,
        c1.symbol_type_params@ == c2.symbol_type_params@,
        c1.variant_names@.len() == c2.variant_names@.len(),
        forall|i: int|
            0 <= i < c1.variant_names@.len() ==> (#[trigger] c1.variant_names@[i])@
                == (c2.variant_names@[i])@,
        c1.variant_types@.len() == c2.variant_types@.len(),
        forall|i: int|
            0 <= i < c1.variant_types@.len() ==> (#[trigger] c1.variant_types@[i])@
                == (c2.variant_types@[i])@,
{
    lemma_tables_deterministic(g, states, c1.tables, c2.tables);
    assert forall|p: int| 0 <= p < c1.reduce_list@.len() implies c1.reduce_list@[p]
        == c2.reduce_list@[p] by {
        let e1 = c1.reduce_list@[p];
        let e2 = c2.reduce_list@[p];
        lemma_reduce_index_injective(g, e1.0 as int, e1.1 as int, e2.0 as int, e2.1 as int);
    }
    assert(c1.reduce_list@ =~= c2.reduce_list@);
}

} // verus!
