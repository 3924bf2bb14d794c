//! The value-type synthesizer: derives the tagged-union symbol type that the
//! runtime value stack carries. It computes the minimal set of grammar type
//! parameters referenced by any payload type, and one variant name per
//! terminal and nonterminal, derived deterministically from the symbol's
//! display name with a fixed prefix per kind so the two kinds never collide.

use crate::grammar::{Grammar, Symbol};
use vstd::prelude::*;

verus! {

/// Whether any terminal or nonterminal payload type references type
/// parameter `p`.
pub open spec fn param_referenced(g: Grammar, p: usize) -> bool {
    ||| exists|t: int|
        0 <= t < g.num_terminals() && (#[trigger] g.terminals@[t]).type_refs@.contains(p)
    ||| exists|n: int|
        0 <= n < g.num_nonterminals() && (#[trigger] g.nonterminals@[n]).type_refs@.contains(p)
}

/// The referenced type parameters among the first `n` declared ones, in
/// declaration order.
pub open spec fn referenced_params_upto(g: Grammar, n: int) -> Seq<usize>
    decreases n,
{
    if n <= 0 {
        Seq::empty()
    } else if param_referenced(g, (n - 1) as usize) {
        referenced_params_upto(g, n - 1).push((n - 1) as usize)
    } else {
        referenced_params_upto(g, n - 1)
    }
}

/// The minimal list of type parameters the symbol type must carry: those
/// referenced by some payload type, in declaration order.
pub open spec fn spec_symbol_type_params(g: Grammar) -> Seq<usize> {
    referenced_params_upto(g, g.type_params@.len() as int)
}

fn contains_usize(v: &Vec<usize>, x: usize) -> (r: bool)
    ensures
        r == v@.contains(x),
{
    let mut i: usize = 0;
    while i < v.len()
        invariant
            i <= v@.len(),
            forall|j: int| 0 <= j < i ==> v@[j] != x,
        decreases v@.len() - i,
    {
        if v[i] == x {
            assert(v@.contains(x)) by {
                assert(v@[i as int] == x);
            }
            return true;
        }
        i = i + 1;
    }
    false
}

/// Decides whether any payload type references type parameter `p`.
fn param_is_referenced(g: &Grammar, p: usize) -> (r: bool)
    ensures
        r == param_referenced(*g, p),
{
    let mut t: usize = 0;
    while t < g.terminals.len()
        invariant
            t <= g.num_terminals(),
            forall|j: int| 0 <= j < t ==> !(#[trigger] g.terminals@[j]).type_refs@.contains(p),
        decreases g.num_terminals() - t,
    {
        if contains_usize(&g.terminals[t].type_refs, p) {
            return true;
        }
        t = t + 1;
    }
    let mut n: usize = 0;
    while n < g.nonterminals.len()
        invariant
            n <= g.num_nonterminals(),
            forall|j: int| 0 <= j < n ==> !(#[trigger] g.nonterminals@[j]).type_refs@.contains(p),
            forall|j: int|
                0 <= j < g.num_terminals() ==> !(#[trigger] g.terminals@[j]).type_refs@.contains(p),
        decreases g.num_nonterminals() - n,
    {
        if contains_usize(&g.nonterminals[n].type_refs, p) {
            return true;
        }
        n = n + 1;
    }
    false
}

/// Computes the minimal type-parameter list for the symbol type: exactly
/// the declared parameters that some terminal or nonterminal payload type
/// references, kept in declaration order.
pub fn symbol_type_params(g: &Grammar) -> (r: Vec<usize>)
    ensures
        r@ == spec_symbol_type_params(*g),
{
    let mut r: Vec<usize> = Vec::new();
    let mut p: usize = 0;
    while p < g.type_params.len()
        invariant
            p <= g.type_params@.len(),
            r@ == referenced_params_upto(*g, p as int),
        decreases g.type_params@.len() - p,
    {
        if param_is_referenced(g, p) {
            r.push(p);
        }
        p = p + 1;
    }
    r
}

proof fn lemma_referenced_params_membership(g: Grammar, n: int, p: usize)
    requires
        0 <= n <= usize::MAX,
    ensures
        referenced_params_upto(g, n).contains(p) <==> (p < n && param_referenced(g, p)),
        forall|i: int, j: int|
            0 <= i < j < referenced_params_upto(g, n).len() ==> referenced_params_upto(g, n)[i]
                < referenced_params_upto(g, n)[j],
        forall|i: int|
            0 <= i < referenced_params_upto(g, n).len() ==> (#[trigger] referenced_params_upto(
                g,
                n,
            )[i]) < n,
    decreases n,
{
    if n > 0 {
        lemma_referenced_params_membership(g, n - 1, p);
        let prev = referenced_params_upto(g, n - 1);
        if param_referenced(g, (n - 1) as usize) {
            let cur = prev.push((n - 1) as usize);
            assert(cur[prev.len() as int] == (n - 1) as usize);
            assert(forall|i: int| 0 <= i < prev.len() ==> cur[i] == prev[i]);
            if p < n && param_referenced(g, p) {
                if p < n - 1 {
                    let i = choose|i: int| 0 <= i < prev.len() && prev[i] == p;
                    assert(cur[i] == p);
                } else {
                    assert(cur[prev.len() as int] == p);
                }
                assert(cur.contains(p));
            }
            if cur.contains(p) {
                let i = choose|i: int| 0 <= i < cur.len() && cur[i] == p;
                if i < prev.len() {
                    assert(prev.contains(p));
                }
            }
            assert forall|i: int, j: int| 0 <= i < j < cur.len() implies cur[i] < cur[j] by {
                if j < prev.len() {
                    assert(cur[i] == prev[i] && cur[j] == prev[j]);
                } else {
                    assert(cur[i] == prev[i] && cur[j] == (n - 1) as usize);
                    assert((prev[i] as int) < n - 1);
                }
            }
        } else {
            assert(referenced_params_upto(g, n) == prev);
        }
    }
}

/// The synthesized type-parameter list is exactly the minimal set the
/// value type needs: it contains a declared parameter if and only if some
/// payload type references it, each parameter at most once, in declaration
/// order.
pub proof fn lemma_symbol_type_params_minimal(g: Grammar)
    ensures
        forall|p: usize|
            #[trigger] spec_symbol_type_params(g).contains(p) <==> (p < g.type_params@.len()
                && param_referenced(g, p)),
        forall|i: int, j: int|
            0 <= i < j < spec_symbol_type_params(g).len() ==> spec_symbol_type_params(g)[i]
                < spec_symbol_type_params(g)[j],
{
    assert(g.type_params@.len() <= usize::MAX) by {
        vstd::std_specs::vec::axiom_spec_len(&g.type_params);
    }
    assert forall|p: usize|
        #[trigger] spec_symbol_type_params(g).contains(p) <==> (p < g.type_params@.len()
            && param_referenced(g, p)) by {
        lemma_referenced_params_membership(g, g.type_params@.len() as int, p);
    }
    lemma_referenced_params_membership(g, g.type_params@.len() as int, 0);
}

/// Whether a character may stand unescaped in a variant name: ASCII
/// alphanumeric characters pass through, everything else is escaped.
pub open spec fn is_name_char(c: char) -> bool {
    (48 <= c as u32 <= 57) || (65 <= c as u32 <= 90) || (97 <= c as u32 <= 122)
}

/// The character for one decimal digit.
pub open spec fn spec_digit_char(d: int) -> char {
    if d == 0 {
        '0'
    } else if d == 1 {
        '1'
    } else if d == 2 {
        '2'
    } else if d == 3 {
        '3'
    } else if d == 4 {
        '4'
    } else if d == 5 {
        '5'
    } else if d == 6 {
        '6'
    } else if d == 7 {
        '7'
    } else if d == 8 {
        '8'
    } else {
        '9'
    }
}

/// The decimal digits of `n`, most significant first.
pub open spec fn dec_digits(n: nat) -> Seq<char>
    decreases n,
{
    if n < 10 {
        seq![spec_digit_char(n as int)]
    } else {
        dec_digits(n / 10).push(spec_digit_char((n % 10) as int))
    }
}

/// The escaping of one character: alphanumeric characters stand as
/// themselves; any other character becomes `_`, its decimal code, `_`.
pub open spec fn escape_char(c: char) -> Seq<char> {
    if is_name_char(c) {
        seq![c]
    } else {
        seq!['_'] + dec_digits(c as nat) + seq!['_']
    }
}

/// The escaping of a whole name, character by character.
pub open spec fn escape(s: Seq<char>) -> Seq<char>
    decreases s.len(),
{
    if s.len() == 0 {
        Seq::empty()
    } else {
        escape_char(s[0]) + escape(s.drop_first())
    }
}

/// The variant name the synthesized symbol type uses for a grammar symbol:
/// a fixed prefix per kind (`Term` for terminals, `Nt` for nonterminals)
/// followed by the escaped display name.
pub open spec fn spec_variant_name(g: Grammar, s: Symbol) -> Seq<char> {
    match s {
        Symbol::Terminal(t) => seq!['T', 'e', 'r', 'm'] + escape(g.terminals@[t as int].name@),
        Symbol::Nonterminal(n) => seq!['N', 't'] + escape(g.nonterminals@[n as int].name@),
    }
}

/// Relies on std's `String::push`: appends exactly the given character to
/// the end of the string.
#[verifier::external_body]
fn push_char(s: &mut String, c: char)
    ensures
        final(s)@ == old(s)@.push(c),
{
    s.push(c)
}

fn digit_char(d: u32) -> (c: char)
    requires
        d < 10,
    ensures
        c == spec_digit_char(d as int),
{
    if d == 0 {
        '0'
    } else if d == 1 {
        '1'
    } else if d == 2 {
        '2'
    } else if d == 3 {
        '3'
    } else if d == 4 {
        '4'
    } else if d == 5 {
        '5'
    } else if d == 6 {
        '6'
    } else if d == 7 {
        '7'
    } else if d == 8 {
        '8'
    } else {
        '9'
    }
}

/// Appends the decimal rendering of `n`.
fn push_decimal(s: &mut String, n: u32)
    ensures
        final(s)@ == old(s)@ + dec_digits(n as nat),
    decreases n,
{
    if n < 10 {
        push_char(s, digit_char(n));
        assert(final(s)@ =~= old(s)@ + dec_digits(n as nat));
    } else {
        push_decimal(s, n / 10);
        push_char(s, digit_char(n % 10));
        assert(final(s)@ =~= old(s)@ + dec_digits(n as nat));
    }
}

/// Appends the escaped form of `name`.
fn push_escaped(s: &mut String, name: &str)
    ensures
        final(s)@ == old(s)@ + escape(name@),
{
    let len = name.unicode_len();
    let mut i: usize = 0;
    while i < len
        invariant
            len == name@.len(),
            i <= len,
            s@ == old(s)@ + escape(name@.take(i as int)),
        decreases len - i,
    {
        let c = name.get_char(i);
        let code = c as u32;
        if (48 <= code && code <= 57) || (65 <= code && code <= 90) || (97 <= code && code <= 122)
        {
            push_char(s, c);
        } else {
            push_char(s, '_');
            push_decimal(s, code);
            push_char(s, '_');
        }
        proof {
            lemma_escape_snoc(name@, i as int);
        }
        i = i + 1;
    }
    proof {
        assert(name@.take(len as int) =~= name@);
    }
}

/// Escaping a sequence extended by one character appends that character's
/// escaping.
proof fn lemma_escape_snoc(s: Seq<char>, i: int)
    requires
        0 <= i < s.len(),
    ensures
        escape(s.take(i + 1)) == escape(s.take(i)) + escape_char(s[i]),
{
    lemma_escape_concat(s.take(i), seq![s[i]]);
    assert(s.take(i + 1) =~= s.take(i) + seq![s[i]]);
    assert(escape(seq![s[i]]) =~= escape_char(s[i])) by {
        let u = seq![s[i]];
        assert(u.len() == 1 && u[0] == s[i]);
        assert(u.drop_first() =~= Seq::<char>::empty());
        assert(escape(u.drop_first()).len() == 0);
        assert(escape(u) == escape_char(s[i]) + escape(u.drop_first()));
    }
    assert(escape(s.take(i)) + escape(seq![s[i]]) =~= escape(s.take(i)) + escape_char(s[i]));
}

/// Escaping distributes over concatenation.
proof fn lemma_escape_concat(a: Seq<char>, b: Seq<char>)
    ensures
        escape(a + b) == escape(a) + escape(b),
    decreases a.len(),
{
    if a.len() == 0 {
        assert(a + b =~= b);
        assert(escape(a) + escape(b) =~= escape(b));
    } else {
        lemma_escape_concat(a.drop_first(), b);
        assert((a + b).drop_first() =~= a.drop_first() + b);
        assert(escape(a + b) =~= escape_char(a[0]) + (escape(a.drop_first()) + escape(b)));
        assert(escape(a) + escape(b) =~= escape_char(a[0]) + (escape(a.drop_first()) + escape(b)));
    }
}

/// Builds the variant name for one grammar symbol.
pub fn variant_name_for_symbol(g: &Grammar, s: Symbol) -> (r: String)
    requires
        g.sym_wf(s),
    ensures
        r@ == spec_variant_name(*g, s),
{
    match s {
        Symbol::Terminal(t) => {
            let mut r = String::new();
            push_char(&mut r, 'T');
            push_char(&mut r, 'e');
            push_char(&mut r, 'r');
            push_char(&mut r, 'm');
            assert(r@ =~= seq!['T', 'e', 'r', 'm']);
            push_escaped(&mut r, g.terminals[t].name.as_str());
            r
        },
        Symbol::Nonterminal(n) => {
            let mut r = String::new();
            push_char(&mut r, 'N');
            push_char(&mut r, 't');
            assert(r@ =~= seq!['N', 't']);
            push_escaped(&mut r, g.nonterminals[n].name.as_str());
            r
        },
    }
}

/// The names of all variants of the synthesized symbol type: one per
/// terminal, then one per nonterminal, in declaration order.
pub open spec fn spec_variant_names(g: Grammar) -> Seq<Seq<char>> {
    Seq::new(
        g.num_terminals() + g.num_nonterminals(),
        |i: int|
            if i < g.num_terminals() {
                spec_variant_name(g, Symbol::Terminal(i as usize))
            } else {
                spec_variant_name(g, Symbol::Nonterminal((i - g.num_terminals()) as usize))
            },
    )
}

/// Builds the full variant-name list of the synthesized symbol type.
pub fn variant_names(g: &Grammar) -> (r: Vec<String>)
    requires
        g.num_terminals() + g.num_nonterminals() <= usize::MAX,
    ensures
        r@.len() == g.num_terminals() + g.num_nonterminals(),
        forall|i: int| 0 <= i < r@.len() ==> (#[trigger] r@[i])@ == spec_variant_names(*g)[i],
{
    let mut r: Vec<String> = Vec::new();
    let mut t: usize = 0;
    while t < g.terminals.len()
        invariant
            t <= g.num_terminals(),
            r@.len() == t,
            forall|i: int| 0 <= i < r@.len() ==> (#[trigger] r@[i])@ == spec_variant_names(*g)[i],
        decreases g.num_terminals() - t,
    {
        let name = variant_name_for_symbol(g, Symbol::Terminal(t));
        r.push(name);
        t = t + 1;
    }
    let mut n: usize = 0;
    while n < g.nonterminals.len()
        invariant
            n <= g.num_nonterminals(),
            r@.len() == g.num_terminals() + n,
            forall|i: int| 0 <= i < r@.len() ==> (#[trigger] r@[i])@ == spec_variant_names(*g)[i],
        decreases g.num_nonterminals() - n,
    {
        let name = variant_name_for_symbol(g, Symbol::Nonterminal(n));
        r.push(name);
        n = n + 1;
    }
    r
}

/// Decimal digit characters are digits, never `_`.
proof fn lemma_dec_digits_are_digits(n: nat)
    ensures
        dec_digits(n).len() >= 1,
        forall|i: int| 0 <= i < dec_digits(n).len() ==> 48 <= (#[trigger] dec_digits(n)[i]) as u32 <= 57,
    decreases n,
{
    if n >= 10 {
        lemma_dec_digits_are_digits(n / 10);
    }
}

/// The decimal rendering is injective.
proof fn lemma_dec_digits_injective(m: nat, n: nat)
    requires
        dec_digits(m) == dec_digits(n),
    ensures
        m == n,
    decreases m,
{
    if m < 10 && n < 10 {
        assert(dec_digits(m)[0] == spec_digit_char(m as int));
        assert(dec_digits(n)[0] == spec_digit_char(n as int));
    } else if m < 10 && n >= 10 {
        lemma_dec_digits_are_digits(n / 10);
        assert(dec_digits(n).len() >= 2);
    } else if m >= 10 && n < 10 {
        lemma_dec_digits_are_digits(m / 10);
        assert(dec_digits(m).len() >= 2);
    } else {
        let a = dec_digits(m / 10);
        let b = dec_digits(n / 10);
        assert(dec_digits(m) == a.push(spec_digit_char((m % 10) as int)));
        assert(dec_digits(n) == b.push(spec_digit_char((n % 10) as int)));
        lemma_dec_digits_are_digits(m / 10);
        lemma_dec_digits_are_digits(n / 10);
        assert(dec_digits(m).last() == spec_digit_char((m % 10) as int));
        assert(dec_digits(n).last() == spec_digit_char((n % 10) as int));
        assert(m % 10 == n % 10);
        assert(a.len() == dec_digits(m).len() - 1);
        assert(b.len() == dec_digits(n).len() - 1);
        assert(a =~= b) by {
            assert(forall|i: int| 0 <= i < a.len() ==> a[i] == dec_digits(m)[i]);
            assert(forall|i: int| 0 <= i < b.len() ==> b[i] == dec_digits(n)[i]);
        }
        lemma_dec_digits_injective(m / 10, n / 10);
    }
}

/// Left cancellation for sequence concatenation.
proof fn lemma_concat_cancel_left(a: Seq<char>, x: Seq<char>, y: Seq<char>)
    requires
        a + x == a + y,
    ensures
        x == y,
{
    assert((a + x).len() == a.len() + x.len());
    assert((a + y).len() == a.len() + y.len());
    assert(x.len() == y.len());
    assert forall|i: int| 0 <= i < x.len() implies x[i] == y[i] by {
        assert((a + x)[a.len() + i] == x[i]);
        assert((a + y)[a.len() + i] == y[i]);
    }
    assert(x =~= y);
}

/// A character's escaping determines the character, even as the prefix of a
/// longer sequence: the escaping is prefix-unambiguous.
proof fn lemma_escape_char_prefix(a: char, b: char, x: Seq<char>, y: Seq<char>)
    requires
        escape_char(a) + x == escape_char(b) + y,
    ensures
        a == b,
        x == y,
{
    let l = escape_char(a) + x;
    if is_name_char(a) && is_name_char(b) {
        assert(l[0] == a && l[0] == b);
        lemma_concat_cancel_left(escape_char(a), x, y);
    } else if is_name_char(a) && !is_name_char(b) {
        assert(l[0] == a && l[0] == '_');
        assert(('_' as u32) == 95);
        assert(false);
    } else if !is_name_char(a) && is_name_char(b) {
        assert(l[0] == '_' && l[0] == b);
        assert(('_' as u32) == 95);
        assert(false);
    } else {
        let da = dec_digits(a as nat);
        let db = dec_digits(b as nat);
        lemma_dec_digits_are_digits(a as nat);
        lemma_dec_digits_are_digits(b as nat);
        assert(l == seq!['_'] + da + seq!['_'] + x);
        assert(l == seq!['_'] + db + seq!['_'] + y);
        if da.len() < db.len() {
            // The `_` closing a's code would have to be a digit of b's code.
            assert(l[1 + da.len() as int] == '_');
            assert(l[1 + da.len() as int] == db[da.len() as int]);
            assert(('_' as u32) == 95);
            assert(false);
        } else if db.len() < da.len() {
            assert(l[1 + db.len() as int] == '_');
            assert(l[1 + db.len() as int] == da[db.len() as int]);
            assert(('_' as u32) == 95);
            assert(false);
        } else {
            assert(da =~= db) by {
                assert(forall|i: int| 0 <= i < da.len() ==> da[i] == l[1 + i] && db[i] == l[1 + i]);
            }
            lemma_dec_digits_injective(a as nat, b as nat);
            assert(a as nat == b as nat);
            assert(a == b) by {
                assert(a as nat == a as u32 && b as nat == b as u32);
            }
            lemma_concat_cancel_left(escape_char(a), x, y);
        }
    }
}

/// The escaping of a whole name is injective.
proof fn lemma_escape_injective(s1: Seq<char>, s2: Seq<char>)
    requires
        escape(s1) == escape(s2),
    ensures
        s1 == s2,
    decreases s1.len(),
{
    if s1.len() == 0 && s2.len() == 0 {
        assert(s1 =~= s2);
    } else if s1.len() == 0 && s2.len() > 0 {
        lemma_escape_char_nonempty(s2[0]);
        assert(escape(s2).len() >= escape_char(s2[0]).len());
        assert(false);
    } else if s1.len() > 0 && s2.len() == 0 {
        lemma_escape_char_nonempty(s1[0]);
        assert(escape(s1).len() >= escape_char(s1[0]).len());
        assert(false);
    } else {
        lemma_escape_char_prefix(s1[0], s2[0], escape(s1.drop_first()), escape(s2.drop_first()));
        lemma_escape_injective(s1.drop_first(), s2.drop_first());
        assert(s1 =~= s2) by {
            assert(forall|i: int|
                1 <= i < s1.len() ==> s1[i] == s1.drop_first()[i - 1] && s2[i]
                    == s2.drop_first()[i - 1]);
        }
    }
}

proof fn lemma_escape_char_nonempty(c: char)
    ensures
        escape_char(c).len() >= 1,
{
    if !is_name_char(c) {
        lemma_dec_digits_are_digits(c as nat);
    }
}

/// Variant naming is injective: distinct symbols of a well-formed grammar
/// are always given distinct variant names. Within one kind this rests on
/// the unique display names and the injective escaping; across kinds, on
/// the distinct fixed prefixes.
pub proof fn lemma_variant_names_injective(g: Grammar, s1: Symbol, s2: Symbol)
    requires
        g.wf(),
        g.sym_wf(s1),
        g.sym_wf(s2),
        s1 != s2,
    ensures
        spec_variant_name(g, s1) != spec_variant_name(g, s2),
{
    match (s1, s2) {
        (Symbol::Terminal(t1), Symbol::Terminal(t2)) => {
            if spec_variant_name(g, s1) == spec_variant_name(g, s2) {
                lemma_concat_cancel_left(
                    seq!['T', 'e', 'r', 'm'],
                    escape(g.terminals@[t1 as int].name@),
                    escape(g.terminals@[t2 as int].name@),
                );
                lemma_escape_injective(
                    g.terminals@[t1 as int].name@,
                    g.terminals@[t2 as int].name@,
                );
                assert(false);
            }
        },
        (Symbol::Nonterminal(n1), Symbol::Nonterminal(n2)) => {
            if spec_variant_name(g, s1) == spec_variant_name(g, s2) {
                lemma_concat_cancel_left(
                    seq!['N', 't'],
                    escape(g.nonterminals@[n1 as int].name@),
                    escape(g.nonterminals@[n2 as int].name@),
                );
                lemma_escape_injective(
                    g.nonterminals@[n1 as int].name@,
                    g.nonterminals@[n2 as int].name@,
                );
                assert(false);
            }
        },
        (Symbol::Terminal(t), Symbol::Nonterminal(n)) => {
            lemma_variant_kinds_distinct(g, t, n);
        },
        (Symbol::Nonterminal(n), Symbol::Terminal(t)) => {
            lemma_variant_kinds_distinct(g, t, n);
        },
    }
}

/// The payload types of all variants of the synthesized symbol type, in the
/// same order as `spec_variant_names`: each variant holds exactly its
/// symbol's payload type.
pub open spec fn spec_variant_types(g: Grammar) -> Seq<Seq<char>> {
    Seq::new(
        g.num_terminals() + g.num_nonterminals(),
        |i: int|
            if i < g.num_terminals() {
                g.terminals@[i].payload@
            } else {
                g.nonterminals@[i - g.num_terminals()].payload@
            },
    )
}

/// Builds the payload-type list of the synthesized symbol type, pairing
/// each variant name with the type its variant holds.
pub fn variant_types(g: &Grammar) -> (r: Vec<String>)
    requires
        g.num_terminals() + g.num_nonterminals() <= usize::MAX,
    ensures
        r@.len() == g.num_terminals() + g.num_nonterminals(),
        forall|i: int| 0 <= i < r@.len() ==> (#[trigger] r@[i])@ == spec_variant_types(*g)[i],
{
    let mut r: Vec<String> = Vec::new();
    let mut t: usize = 0;
    while t < g.terminals.len()
        invariant
            t <= g.num_terminals(),
            r@.len() == t,
            forall|i: int| 0 <= i < r@.len() ==> (#[trigger] r@[i])@ == spec_variant_types(*g)[i],
        decreases g.num_terminals() - t,
    {
        r.push(g.terminals[t].payload.clone());
        t = t + 1;
    }
    let mut n: usize = 0;
    while n < g.nonterminals.len()
        invariant
            n <= g.num_nonterminals(),
            r@.len() == g.num_terminals() + n,
            forall|i: int| 0 <= i < r@.len() ==> (#[trigger] r@[i])@ == spec_variant_types(*g)[i],
        decreases g.num_nonterminals() - n,
    {
        r.push(g.nonterminals[n].payload.clone());
        n = n + 1;
    }
    r
}

/// Terminal variants and nonterminal variants can never collide: their
/// fixed prefixes differ in the first character.
pub proof fn lemma_variant_kinds_distinct(g: Grammar, t: usize, n: usize)
    requires
        t < g.num_terminals(),
        n < g.num_nonterminals(),
    ensures
        spec_variant_name(g, Symbol::Terminal(t)) != spec_variant_name(g, Symbol::Nonterminal(n)),
{
    let a = spec_variant_name(g, Symbol::Terminal(t));
    let b = spec_variant_name(g, Symbol::Nonterminal(n));
    assert(a[0] == 'T');
    assert(b[0] == 'N');
}

} // verus!
