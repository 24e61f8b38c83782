//! The laws of the pipeline: determinism, the program-counter invariant
//! of labels, macro expansion's agreement with hand-inlining, and the
//! tag-width round trip of hex literals.
use vstd::prelude::*;

use crate::ast::{AsmError, OperandV, StatementV, TypeTag};
use crate::compiler::{
    count_ops, expand_stmt, expand_stmts, label_map, process_asm_spec,
};
use crate::instruction::hinted_op_bytes;
use crate::utils::{
    be_bytes, be_val, byte_len_of, hex_val, lemma_be_val_be_bytes,
    lemma_pow2_strictly_increases_or_equal, strip_hex_prefix,
};

verus! {

broadcast use vstd::std_specs::vec::group_vec_axioms, vstd::seq::group_seq_axioms;

use vstd::arithmetic::power2::pow2;

/// Law: compilation is deterministic.  The whole pipeline is one
/// mathematical function of the statement sequence, so compiling the
/// same sequence twice yields byte-identical hex output.
pub proof fn lemma_compile_deterministic(s1: Seq<StatementV>, s2: Seq<StatementV>)
    requires
        s1 == s2,
    ensures
        process_asm_spec(s1) == process_asm_spec(s2),
{
}

/// Law: the resolved program counter of a label equals the number of
/// opcode statements strictly before its defining occurrence in the
/// macro-expanded sequence (its last occurrence, when a name repeats).
pub proof fn lemma_label_pc(s: Seq<StatementV>, i: int, n: Seq<char>)
    requires
        0 <= i < s.len(),
        s[i] == StatementV::Label(n),
        forall|j: int| i < j < s.len() ==> s[j] != StatementV::Label(n),
    ensures
        label_map(s).contains_key(n),
        label_map(s)[n] == count_ops(s.take(i)) as u64,
    decreases s.len(),
{
    if i == s.len() - 1 {
        assert(s.drop_last() =~= s.take(i));
    } else {
        assert(s.drop_last().take(i) =~= s.take(i));
        assert(s.drop_last()[i] == s[i]);
        lemma_label_pc(s.drop_last(), i, n);
        assert(s.last() != StatementV::Label(n));
    }
}

/// Expansion distributes over concatenation: the two halves expand
/// independently, the first failure winning.
pub proof fn lemma_expand_concat(
    a: Seq<StatementV>,
    b: Seq<StatementV>,
    defs: Map<Seq<char>, Seq<StatementV>>,
    k: nat,
)
    ensures
        expand_stmts(a + b, defs, k) == (match expand_stmts(a, defs, k) {
            Err(e) => Err::<Seq<StatementV>, AsmError>(e),
            Ok(ea) => match expand_stmts(b, defs, k) {
                Err(e) => Err::<Seq<StatementV>, AsmError>(e),
                Ok(eb) => Ok::<Seq<StatementV>, AsmError>(ea + eb),
            },
        }),
    decreases a.len(),
{
    if a.len() == 0 {
        assert(a + b =~= b);
        match expand_stmts(b, defs, k) {
            Ok(eb) => {
                assert(Seq::<StatementV>::empty() + eb =~= eb);
            },
            Err(_) => {},
        }
    } else {
        assert((a + b)[0] == a[0]);
        assert((a + b).len() > 0);
        assert((a + b).skip(1) =~= a.skip(1) + b);
        lemma_expand_concat(a.skip(1), b, defs, k);
        match expand_stmt(a[0], defs, k) {
            Err(_) => {},
            Ok(first) => {
                match expand_stmts(a.skip(1), defs, k) {
                    Err(_) => {},
                    Ok(ea1) => {
                        match expand_stmts(b, defs, k) {
                            Err(_) => {},
                            Ok(eb) => {
                                assert(first + (ea1 + eb) =~= (first + ea1) + eb);
                            },
                        }
                    },
                }
            },
        }
    }
}

/// A successful expansion stays successful, with the same result, under
/// any larger nesting budget.
pub proof fn lemma_expand_stmt_budget(
    st: StatementV,
    defs: Map<Seq<char>, Seq<StatementV>>,
    k1: nat,
    k2: nat,
)
    requires
        k1 <= k2,
        expand_stmt(st, defs, k1) is Ok,
    ensures
        expand_stmt(st, defs, k2) == expand_stmt(st, defs, k1),
    decreases k1, 0nat, 0nat,
{
    match st {
        StatementV::MacroInvocation(n) => {
            lemma_expand_stmts_budget(defs[n], defs, (k1 - 1) as nat, (k2 - 1) as nat);
        },
        _ => {},
    }
}

pub proof fn lemma_expand_stmts_budget(
    l: Seq<StatementV>,
    defs: Map<Seq<char>, Seq<StatementV>>,
    k1: nat,
    k2: nat,
)
    requires
        k1 <= k2,
        expand_stmts(l, defs, k1) is Ok,
    ensures
        expand_stmts(l, defs, k2) == expand_stmts(l, defs, k1),
    decreases k1, l.len(), 1nat,
{
    if l.len() > 0 {
        lemma_expand_stmt_budget(l[0], defs, k1, k2);
        lemma_expand_stmts_budget(l.skip(1), defs, k1, k2);
    }
}

/// Law: expanding a program that invokes a defined macro yields exactly
/// what expanding the program with the macro's body hand-inlined at the
/// invocation site yields, whatever the nesting depth.  Since every
/// later stage is a function of the expanded sequence, the two programs
/// compile to the same instruction list and the same bytecode.
pub proof fn lemma_macro_inlining(
    w1: Seq<StatementV>,
    w2: Seq<StatementV>,
    name: Seq<char>,
    defs: Map<Seq<char>, Seq<StatementV>>,
    k: nat,
    out: Seq<StatementV>,
)
    requires
        defs.contains_key(name),
        expand_stmts(w1 + seq![StatementV::MacroInvocation(name)] + w2, defs, k) == Ok::<
            Seq<StatementV>,
            AsmError,
        >(out),
    ensures
        expand_stmts(w1 + defs[name] + w2, defs, k) == Ok::<Seq<StatementV>, AsmError>(out),
{
    let inv = seq![StatementV::MacroInvocation(name)];
    let body = defs[name];
    assert((w1 + inv + w2) =~= w1 + (inv + w2));
    lemma_expand_concat(w1, inv + w2, defs, k);
    lemma_expand_concat(inv, w2, defs, k);
    // the whole expansion succeeded, so each part did
    let e1 = expand_stmts(w1, defs, k)->Ok_0;
    let ei = expand_stmts(inv, defs, k)->Ok_0;
    let e3 = expand_stmts(w2, defs, k)->Ok_0;
    assert(out == e1 + (ei + e3));
    // one invocation expands to its body at one budget less
    assert(inv[0] == StatementV::MacroInvocation(name));
    assert(inv.skip(1) =~= Seq::<StatementV>::empty());
    assert(k > 0);
    let eb = expand_stmt(inv[0], defs, k)->Ok_0;
    assert(expand_stmts(body, defs, (k - 1) as nat) == Ok::<Seq<StatementV>, AsmError>(eb));
    assert(expand_stmts(Seq::<StatementV>::empty(), defs, k) == Ok::<Seq<StatementV>, AsmError>(
        Seq::empty(),
    ));
    assert(ei == eb + Seq::<StatementV>::empty());
    assert(ei =~= eb);
    // the hand-inlined body expands the same way at the full budget
    lemma_expand_stmts_budget(body, defs, (k - 1) as nat, k);
    lemma_expand_concat(body, w2, defs, k);
    lemma_expand_concat(w1, body + w2, defs, k);
    assert((w1 + body + w2) =~= w1 + (body + w2));
    assert(e1 + (eb + e3) =~= e1 + (ei + e3));
}

/// Law: for every type tag, a hex literal whose value fits the tag's bit
/// width is encoded, under that tag's hint, as a byte string that decodes
/// big-endian to exactly the literal's value.
pub proof fn lemma_tag_width_round_trip(s: Seq<char>, t: TypeTag)
    requires
        hex_val(strip_hex_prefix(s)) < pow2(t.spec_bits() as nat),
    ensures
        hinted_op_bytes(OperandV::Hex(s), t) == Ok::<Seq<u8>, AsmError>(
            be_bytes(hex_val(strip_hex_prefix(s)), byte_len_of(t.spec_bits() as nat)),
        ),
        be_val(hinted_op_bytes(OperandV::Hex(s), t)->Ok_0) == hex_val(strip_hex_prefix(s)),
{
    let v = hex_val(strip_hex_prefix(s));
    let bits = t.spec_bits() as nat;
    let bl = byte_len_of(bits);
    assert(bits <= 8 * bl) by (nonlinear_arith)
        requires
            bl == (bits + 7) / 8,
    ;
    lemma_pow2_strictly_increases_or_equal(bits, 8 * bl);
    lemma_be_val_be_bytes(v, bl);
}

} // verus!
