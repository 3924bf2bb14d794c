use parse_table::automaton::{Reduction, State, TokenSet};
use parse_table::compile;
use parse_table::driver::{parse, ParseError, SpannedToken, StackValue, Token};
use parse_table::grammar::{Grammar, NonterminalDef, Production, Symbol, TerminalDef};

fn term(name: &str) -> TerminalDef {
    TerminalDef { name: name.to_string(), payload: "Tok".to_string(), type_refs: Vec::new() }
}

fn prod(symbols: Vec<Symbol>, action: usize) -> Production {
    Production { symbols, action, fallible: false }
}

fn nonterm(name: &str, productions: Vec<Production>) -> NonterminalDef {
    NonterminalDef {
        name: name.to_string(),
        payload: "u64".to_string(),
        productions,
        type_refs: Vec::new(),
    }
}

fn eof_set() -> TokenSet {
    TokenSet { terminals: Vec::new(), eof: true }
}

fn empty_state() -> State {
    State { shifts: Vec::new(), gotos: Vec::new(), reductions: Vec::new() }
}

/// The one-terminal grammar `S = "a"` with `S` as the start symbol.
fn grammar_a() -> Grammar {
    Grammar {
        terminals: vec![term("a")],
        nonterminals: vec![nonterm("S", vec![prod(vec![Symbol::Terminal(0)], 0)])],
        type_params: Vec::new(),
        start: 0,
    }
}

/// Its two-state automaton: state 0 shifts "a" into state 1; state 1
/// reduces `S -> "a"` on EOF.
fn automaton_a() -> Vec<State> {
    let s0 = State { shifts: vec![(0, 1)], gotos: Vec::new(), reductions: Vec::new() };
    let s1 = State {
        shifts: Vec::new(),
        gotos: Vec::new(),
        reductions: vec![Reduction { lookaheads: eof_set(), nonterminal: 0, production: 0 }],
    };
    vec![s0, s1]
}

fn tok(name: &str, value: u64, start: u64, end: u64) -> Result<SpannedToken, u64> {
    Ok(SpannedToken {
        start,
        token: Token { terminal: name.to_string(), value },
        end,
    })
}

/// The semantic action table for `grammar_a`: action 0 passes the payload
/// of the consumed terminal through.
fn actions_a(idx: usize, args: Vec<StackValue>, _start: u64, _end: u64) -> Result<u64, u64> {
    assert_eq!(idx, 0);
    Ok(args[0].value)
}

#[test]
fn table_shape() {
    let g = grammar_a();
    let states = automaton_a();
    let c = compile(&g, &states);
    assert_eq!(c.tables.action.len(), 2 * 1);
    assert_eq!(c.tables.eof_action.len(), 2);
    assert_eq!(c.tables.goto_edges.len(), 2 * 1);
    assert_eq!(c.tables.num_states, 2);
    assert_eq!(c.tables.num_terminals, 1);
    assert_eq!(c.tables.num_nonterminals, 1);
}

#[test]
fn scenario_tables() {
    let g = grammar_a();
    let states = automaton_a();
    let c = compile(&g, &states);
    // State 0 shifts "a" into state 1, encoded as 1 + 1; state 1 has no
    // action on "a"; only state 1 reduces on EOF, with production index 0
    // encoded as -(0 + 1).
    assert_eq!(c.tables.action, vec![2, 0]);
    assert_eq!(c.tables.eof_action, vec![0, -1]);
    assert_eq!(c.tables.goto_edges, vec![0, 0]);
    assert_eq!(c.reduce_list, vec![(0, 0)]);
}

#[test]
fn scenario_parse_accepts() {
    let g = grammar_a();
    let states = automaton_a();
    let c = compile(&g, &states);
    let tokens = vec![tok("a", 7, 10, 11)];
    let r = parse(&g, &c.tables, &c.reduce_list, &tokens, &actions_a);
    assert_eq!(r, Ok(7));
}

#[test]
fn scenario_parse_empty_input() {
    let g = grammar_a();
    let states = automaton_a();
    let c = compile(&g, &states);
    let tokens = Vec::new();
    let r = parse(&g, &c.tables, &c.reduce_list, &tokens, &actions_a);
    assert_eq!(r, Err(ParseError::UnrecognizedEof));
}

#[test]
fn scenario_parse_unknown_token() {
    let g = grammar_a();
    let states = automaton_a();
    let c = compile(&g, &states);
    let tokens = vec![tok("b", 1, 0, 1)];
    let r = parse(&g, &c.tables, &c.reduce_list, &tokens, &actions_a);
    match r {
        Err(ParseError::UnrecognizedToken { token }) => {
            assert_eq!(token.token.terminal, "b");
            assert_eq!(token.start, 0);
            assert_eq!(token.end, 1);
        }
        other => panic!("expected an unrecognized token, got {:?}", other),
    }
}

#[test]
fn stream_error_is_fatal() {
    let g = grammar_a();
    let states = automaton_a();
    let c = compile(&g, &states);
    let tokens = vec![Err(5), tok("a", 7, 0, 1)];
    let r = parse(&g, &c.tables, &c.reduce_list, &tokens, &actions_a);
    assert_eq!(r, Err(ParseError::User { error: 5 }));
}

#[test]
fn failed_action_is_fatal() {
    let g = grammar_a();
    let states = automaton_a();
    let c = compile(&g, &states);
    let tokens = vec![tok("a", 7, 0, 1)];
    let failing = |_idx: usize, _args: Vec<StackValue>, _s: u64, _e: u64| -> Result<u64, u64> {
        Err(9)
    };
    let r = parse(&g, &c.tables, &c.reduce_list, &tokens, &failing);
    assert_eq!(r, Err(ParseError::User { error: 9 }));
}

#[test]
fn compilation_is_deterministic() {
    let g = grammar_a();
    let states = automaton_a();
    let c1 = compile(&g, &states);
    let c2 = compile(&g, &states);
    assert_eq!(c1.tables.action, c2.tables.action);
    assert_eq!(c1.tables.eof_action, c2.tables.eof_action);
    assert_eq!(c1.tables.goto_edges, c2.tables.goto_edges);
    assert_eq!(c1.reduce_list, c2.reduce_list);
    assert_eq!(c1.symbol_type_params, c2.symbol_type_params);
    assert_eq!(c1.variant_names, c2.variant_names);
    assert_eq!(c1.variant_types, c2.variant_types);
}

#[test]
fn shift_beats_reduce() {
    // State 0 both shifts "a" and holds a reduction whose lookahead set
    // contains "a": the shift must win.
    let g = Grammar {
        terminals: vec![term("a")],
        nonterminals: vec![
            nonterm("S", vec![prod(vec![Symbol::Nonterminal(1)], 0)]),
            nonterm("E", vec![prod(vec![], 1), prod(vec![Symbol::Terminal(0)], 2)]),
        ],
        type_params: Vec::new(),
        start: 0,
    };
    let s0 = State {
        shifts: vec![(0, 1)],
        gotos: vec![(1, 1)],
        reductions: vec![Reduction {
            lookaheads: TokenSet { terminals: vec![0], eof: false },
            nonterminal: 1,
            production: 0,
        }],
    };
    let states = vec![s0, empty_state()];
    let c = compile(&g, &states);
    assert_eq!(c.tables.action[0], 2);
}

#[test]
fn first_matching_reduction_wins() {
    // Two reductions both applicable on EOF: the one declared first in the
    // state is selected.
    let g = Grammar {
        terminals: vec![term("a")],
        nonterminals: vec![nonterm(
            "S",
            vec![prod(vec![], 0), prod(vec![Symbol::Terminal(0)], 1)],
        )],
        type_params: Vec::new(),
        start: 0,
    };
    let s0 = State {
        shifts: Vec::new(),
        gotos: Vec::new(),
        reductions: vec![
            Reduction { lookaheads: eof_set(), nonterminal: 0, production: 1 },
            Reduction { lookaheads: eof_set(), nonterminal: 0, production: 0 },
        ],
    };
    let states = vec![s0];
    let c = compile(&g, &states);
    // The first declared reduction names production 1, whose reduction
    // index is 1, encoded as -(1 + 1).
    assert_eq!(c.tables.eof_action[0], -2);
}

#[test]
fn reduce_indices_are_dense() {
    let g = Grammar {
        terminals: vec![term("x")],
        nonterminals: vec![
            nonterm("A", vec![prod(vec![], 0), prod(vec![], 1)]),
            nonterm("B", vec![prod(vec![], 2)]),
            nonterm("C", vec![prod(vec![], 3), prod(vec![], 4)]),
        ],
        type_params: Vec::new(),
        start: 0,
    };
    let rl = parse_table::grammar::build_reduce_list(&g);
    assert_eq!(rl, vec![(0, 0), (0, 1), (1, 0), (2, 0), (2, 1)]);
    assert_eq!(parse_table::grammar::reduce_index(&g, 2, 1), 4);
}

#[test]
fn variant_names_use_kind_prefixes() {
    let g = Grammar {
        terminals: vec![term("a"), term("+")],
        nonterminals: vec![nonterm("S", vec![prod(vec![], 0)])],
        type_params: Vec::new(),
        start: 0,
    };
    let names = parse_table::synth::variant_names(&g);
    // '+' is code point 43 and is escaped; alphanumeric names pass through.
    assert_eq!(names, vec!["Terma", "Term_43_", "NtS"]);
}

#[test]
fn variant_name_escapes_spaces() {
    let g = Grammar {
        terminals: vec![term("a b")],
        nonterminals: vec![nonterm("S2", vec![prod(vec![], 0)])],
        type_params: Vec::new(),
        start: 0,
    };
    let names = parse_table::synth::variant_names(&g);
    assert_eq!(names, vec!["Terma_32_b", "NtS2"]);
}

#[test]
fn variant_types_carry_the_payloads() {
    let g = grammar_a();
    let states = automaton_a();
    let c = compile(&g, &states);
    assert_eq!(c.variant_names, vec!["Terma", "NtS"]);
    assert_eq!(c.variant_types, vec!["Tok", "u64"]);
}

#[test]
fn symbol_type_params_are_minimal() {
    // Three declared type parameters; only the second is referenced by any
    // payload type, through a nonterminal.
    let g = Grammar {
        terminals: vec![TerminalDef {
            name: "a".to_string(),
            payload: "Tok".to_string(),
            type_refs: Vec::new(),
        }],
        nonterminals: vec![NonterminalDef {
            name: "S".to_string(),
            payload: "Vec<T>".to_string(),
            productions: vec![prod(vec![], 0)],
            type_refs: vec![1],
        }],
        type_params: vec!["L".to_string(), "T".to_string(), "E".to_string()],
        start: 0,
    };
    assert_eq!(parse_table::synth::symbol_type_params(&g), vec![1]);
}

#[test]
fn classify_picks_first_matching_terminal() {
    let g = Grammar {
        terminals: vec![term("plus"), term("minus")],
        nonterminals: vec![nonterm("S", vec![prod(vec![], 0)])],
        type_params: Vec::new(),
        start: 0,
    };
    assert_eq!(parse_table::driver::classify(&g, &"minus".to_string()), Some(1));
    assert_eq!(parse_table::driver::classify(&g, &"times".to_string()), None);
}

#[test]
fn reduction_balances_the_stacks() {
    // Reducing `E -> "a"` (not the start symbol) pops one entry from each
    // stack and pushes one back: net one state and one value.
    let g = Grammar {
        terminals: vec![term("a")],
        nonterminals: vec![
            nonterm("S", vec![prod(vec![Symbol::Nonterminal(1)], 0)]),
            nonterm("E", vec![prod(vec![Symbol::Terminal(0)], 1)]),
        ],
        type_params: Vec::new(),
        start: 0,
    };
    let s0 = State { shifts: vec![(0, 1)], gotos: vec![(1, 2)], reductions: Vec::new() };
    let states = vec![s0, empty_state(), empty_state()];
    let c = compile(&g, &states);
    let mut state_stack: Vec<usize> = vec![0, 1];
    let mut value_stack = vec![StackValue {
        start: 3,
        sym: Symbol::Terminal(0),
        value: 7,
        end: 4,
    }];
    let acts = |_idx: usize, args: Vec<StackValue>, _s: u64, _e: u64| -> Result<u64, u64> {
        Ok(args[0].value + 1)
    };
    // `E -> "a"` has reduction index 1, encoded as -2.
    let r = parse_table::driver::reduce(
        &g,
        &c.tables,
        &c.reduce_list,
        -2,
        None,
        &mut state_stack,
        &mut value_stack,
        &acts,
    );
    assert!(r.is_none());
    assert_eq!(state_stack, vec![0, 2]); // popped state 1, pushed goto target 2
    assert_eq!(value_stack.len(), 1);
    assert_eq!(value_stack[0].sym, Symbol::Nonterminal(1));
    assert_eq!(value_stack[0].value, 8);
    assert_eq!(value_stack[0].start, 3);
    assert_eq!(value_stack[0].end, 4);
}

#[test]
fn downcast_detects_tag_mismatch() {
    let mut stack = vec![StackValue { start: 0, sym: Symbol::Terminal(0), value: 1, end: 1 }];
    let r = parse_table::driver::pop_expect(&mut stack, Symbol::Nonterminal(0));
    assert!(r.is_none());
    assert_eq!(stack.len(), 1);
    let r2 = parse_table::driver::pop_expect(&mut stack, Symbol::Terminal(0));
    assert!(r2.is_some());
    assert!(stack.is_empty());
}

#[test]
fn encoding_of_every_entry_decodes() {
    let g = grammar_a();
    let states = automaton_a();
    let c = compile(&g, &states);
    for &e in c.tables.action.iter().chain(c.tables.eof_action.iter()) {
        if e > 0 {
            assert!(((e - 1) as usize) < states.len());
        } else if e < 0 {
            assert!(((-e - 1) as usize) < c.reduce_list.len());
        }
    }
    for &e in c.tables.goto_edges.iter() {
        assert!(e >= 0);
        if e > 0 {
            assert!(((e - 1) as usize) < states.len());
        }
    }
}

#[test]
fn empty_production_spans_come_from_context() {
    // `E ->` (empty) reduced with a lookahead: the span starts at the end
    // of the value below the popped region and ends at the lookahead start.
    let g = Grammar {
        terminals: vec![term("a")],
        nonterminals: vec![
            nonterm("S", vec![prod(vec![Symbol::Nonterminal(1)], 0)]),
            nonterm("E", vec![prod(vec![], 1)]),
        ],
        type_params: Vec::new(),
        start: 0,
    };
    let s0 = State { shifts: Vec::new(), gotos: vec![(1, 1)], reductions: Vec::new() };
    let states = vec![s0, empty_state()];
    let c = compile(&g, &states);
    let mut state_stack: Vec<usize> = vec![0];
    let mut value_stack = vec![StackValue {
        start: 1,
        sym: Symbol::Terminal(0),
        value: 0,
        end: 2,
    }];
    let acts = |_idx: usize, _args: Vec<StackValue>, s: u64, e: u64| -> Result<u64, u64> {
        Ok(s * 100 + e)
    };
    let r = parse_table::driver::reduce(
        &g,
        &c.tables,
        &c.reduce_list,
        -2,
        Some(9),
        &mut state_stack,
        &mut value_stack,
        &acts,
    );
    assert!(r.is_none());
    // The action saw start 2 (end of the value below) and end 9 (lookahead),
    // and the pushed nonterminal value carries that span.
    let pushed = value_stack[value_stack.len() - 1];
    assert_eq!(pushed.value, 209);
    assert_eq!(pushed.start, 2);
    assert_eq!(pushed.end, 9);
}

#[test]
fn grammar_checker_accepts_and_rejects() {
    let g = grammar_a();
    assert!(parse_table::grammar::check_grammar(&g));
    let mut bad_start = grammar_a();
    bad_start.start = 1;
    assert!(!parse_table::grammar::check_grammar(&bad_start));
    let mut bad_symbol = grammar_a();
    bad_symbol.nonterminals[0].productions[0].symbols = vec![Symbol::Terminal(3)];
    assert!(!parse_table::grammar::check_grammar(&bad_symbol));
    let mut dup_names = grammar_a();
    dup_names.terminals = vec![term("a"), term("a")];
    assert!(!parse_table::grammar::check_grammar(&dup_names));
}

#[test]
fn automaton_checker_accepts_and_rejects() {
    let g = grammar_a();
    let states = automaton_a();
    assert!(parse_table::automaton::check_automaton(&g, &states));
    assert!(!parse_table::automaton::check_automaton(&g, &Vec::new()));
    let mut bad_shift = automaton_a();
    bad_shift[0].shifts = vec![(0, 9)];
    assert!(!parse_table::automaton::check_automaton(&g, &bad_shift));
    let mut dup_keys = automaton_a();
    dup_keys[0].shifts = vec![(0, 1), (0, 1)];
    assert!(!parse_table::automaton::check_automaton(&g, &dup_keys));
    let mut bad_reduction = automaton_a();
    bad_reduction[1].reductions[0].production = 4;
    assert!(!parse_table::automaton::check_automaton(&g, &bad_reduction));
}

/// Grammar `S = E; E = "a"`: parsing exercises the full reduce/goto path,
/// not only the start production's early return.
fn grammar_nested() -> Grammar {
    Grammar {
        terminals: vec![term("a")],
        nonterminals: vec![
            nonterm("S", vec![prod(vec![Symbol::Nonterminal(1)], 0)]),
            nonterm("E", vec![prod(vec![Symbol::Terminal(0)], 1)]),
        ],
        type_params: Vec::new(),
        start: 0,
    }
}

#[test]
fn nested_reduction_through_goto() {
    let g = grammar_nested();
    // State 0 shifts "a" into state 1 and moves to state 2 on E; state 1
    // reduces E -> "a" on EOF; state 2 reduces S -> E on EOF.
    let s0 = State { shifts: vec![(0, 1)], gotos: vec![(1, 2)], reductions: Vec::new() };
    let s1 = State {
        shifts: Vec::new(),
        gotos: Vec::new(),
        reductions: vec![Reduction { lookaheads: eof_set(), nonterminal: 1, production: 0 }],
    };
    let s2 = State {
        shifts: Vec::new(),
        gotos: Vec::new(),
        reductions: vec![Reduction { lookaheads: eof_set(), nonterminal: 0, production: 0 }],
    };
    let states = vec![s0, s1, s2];
    let c = compile(&g, &states);
    let acts = |idx: usize, args: Vec<StackValue>, _s: u64, _e: u64| -> Result<u64, u64> {
        match idx {
            0 => Ok(args[0].value),     // S -> E
            1 => Ok(args[0].value * 2), // E -> "a"
            _ => Err(0),
        }
    };
    let tokens = vec![tok("a", 7, 0, 1)];
    let r = parse(&g, &c.tables, &c.reduce_list, &tokens, &acts);
    assert_eq!(r, Ok(14));
}

#[test]
fn missing_goto_is_reported_as_inconsistency() {
    let g = grammar_nested();
    // As above, but state 0 lacks the goto edge for E: the reduction of
    // `E -> "a"` cannot continue, which is a table defect, not a user error.
    let s0 = State { shifts: vec![(0, 1)], gotos: Vec::new(), reductions: Vec::new() };
    let s1 = State {
        shifts: Vec::new(),
        gotos: Vec::new(),
        reductions: vec![Reduction { lookaheads: eof_set(), nonterminal: 1, production: 0 }],
    };
    let states = vec![s0, s1];
    let c = compile(&g, &states);
    let acts = |_idx: usize, args: Vec<StackValue>, _s: u64, _e: u64| -> Result<u64, u64> {
        Ok(args[0].value)
    };
    let tokens = vec![tok("a", 7, 0, 1)];
    let r = parse(&g, &c.tables, &c.reduce_list, &tokens, &acts);
    assert_eq!(r, Err(ParseError::Inconsistent));
}

#[test]
fn checked_compilation_decides_its_inputs() {
    let g = grammar_a();
    let states = automaton_a();
    let c = parse_table::compile_checked(&g, &states).expect("well-formed inputs");
    assert_eq!(c.tables.action, vec![2, 0]);
    let mut bad = grammar_a();
    bad.start = 7;
    assert!(parse_table::compile_checked(&bad, &states).is_none());
    assert!(parse_table::compile_checked(&g, &Vec::new()).is_none());
}

#[test]
fn resolve_token_rejects_on_error_entry() {
    let g = grammar_a();
    let states = automaton_a();
    let c = compile(&g, &states);
    // State 1 has no ACTION entry for "a": resolving it there finishes with
    // the token reported as unrecognized, and the stacks are untouched.
    let mut state_stack: Vec<usize> = vec![0, 1];
    let mut value_stack: Vec<StackValue> = Vec::new();
    let spanned = SpannedToken {
        start: 4,
        token: Token { terminal: "a".to_string(), value: 3 },
        end: 5,
    };
    let r = parse_table::driver::resolve_token(
        &g,
        &c.tables,
        &c.reduce_list,
        &spanned,
        0,
        &mut state_stack,
        &mut value_stack,
        &actions_a,
    );
    match r {
        parse_table::driver::StepOutcome::Finished(Err(ParseError::UnrecognizedToken {
            token,
        })) => {
            assert_eq!(token, spanned);
        }
        other => panic!("expected an unrecognized token, got {:?}", other),
    }
    assert_eq!(state_stack, vec![0, 1]);
    assert!(value_stack.is_empty());
}

#[test]
fn resolve_token_shifts_on_positive_entry() {
    let g = grammar_a();
    let states = automaton_a();
    let c = compile(&g, &states);
    let mut state_stack: Vec<usize> = vec![0];
    let mut value_stack: Vec<StackValue> = Vec::new();
    let spanned = SpannedToken {
        start: 4,
        token: Token { terminal: "a".to_string(), value: 3 },
        end: 5,
    };
    let r = parse_table::driver::resolve_token(
        &g,
        &c.tables,
        &c.reduce_list,
        &spanned,
        0,
        &mut state_stack,
        &mut value_stack,
        &actions_a,
    );
    assert_eq!(r, parse_table::driver::StepOutcome::Shifted);
    assert_eq!(state_stack, vec![0, 1]);
    assert_eq!(
        value_stack,
        vec![StackValue { start: 4, sym: Symbol::Terminal(0), value: 3, end: 5 }]
    );
}

#[test]
fn eof_step_reports_unrecognized_eof() {
    let g = grammar_a();
    let states = automaton_a();
    let c = compile(&g, &states);
    // State 0 has no EOF reduction: the EOF step finishes with the end of
    // input reported as unrecognized.
    let mut state_stack: Vec<usize> = vec![0];
    let mut value_stack: Vec<StackValue> = Vec::new();
    let r = parse_table::driver::eof_step(
        &g,
        &c.tables,
        &c.reduce_list,
        &mut state_stack,
        &mut value_stack,
        &actions_a,
    );
    assert_eq!(
        r,
        parse_table::driver::StepOutcome::Finished(Err(ParseError::UnrecognizedEof))
    );
    assert_eq!(state_stack, vec![0]);
}
