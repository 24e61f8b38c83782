//! The multi-pass pipeline over one statement sequence: constant
//! substitution, macro expansion, label resolution, instruction building,
//! and the final encoding to a hex string.
use vstd::prelude::*;

use crate::ast::{
    clone_operands, clone_statement, clone_statements, stmt_seq_dv, AsmError, Operand, OperandV,
    Statement, StatementV,
};
use crate::codegen::{generate_code, spec_generate_code, wf_instructions};
use crate::instruction::{wf_instruction, wf_operand, Instruction, InstructionV};

verus! {

broadcast use vstd::std_specs::vec::group_vec_axioms, vstd::seq::group_seq_axioms, crate::ast::lemma_stmt_seq_dv;

// ---------------------------------------------------------------------
// well-formedness: every hex literal in a statement is a digit string
// ---------------------------------------------------------------------
pub open spec fn wf_statement(st: StatementV) -> bool
    decreases st,
{
    match st {
        StatementV::Op(_, _, ops, _) => forall|j: int|
            0 <= j < ops.len() ==> wf_operand(#[trigger] ops[j]),
        StatementV::ConstantDef(_, v) => wf_operand(v),
        StatementV::MacroDef(_, body) => wf_stmt_seq(body),
        _ => true,
    }
}

pub open spec fn wf_stmt_seq(s: Seq<StatementV>) -> bool
    decreases s,
{
    forall|i: int| 0 <= i < s.len() ==> wf_statement(#[trigger] s[i])
}

// ---------------------------------------------------------------------
// stage-local symbol tables, as association lists with last-write-wins
// ---------------------------------------------------------------------
/// The map that an association list denotes; a later entry overwrites an
/// earlier one of the same name.
pub open spec fn assoc_map<V>(entries: Seq<(Seq<char>, V)>) -> Map<Seq<char>, V>
    decreases entries.len(),
{
    if entries.len() == 0 {
        Map::empty()
    } else {
        assoc_map(entries.drop_last()).insert(entries.last().0, entries.last().1)
    }
}

/// Finds the value of the most recent entry under `name`, if any.
fn assoc_lookup<'a, T: DeepView>(table: &'a Vec<(String, T)>, name: &String) -> (r: Option<&'a T>)
    ensures
        match r {
            Some(v) => assoc_map(table.deep_view()).contains_key(name@) && v.deep_view()
                == assoc_map(table.deep_view())[name@],
            None => !assoc_map(table.deep_view()).contains_key(name@),
        },
{
    let ghost full = table.deep_view();
    let mut i: usize = table.len();
    proof {
        assert(full.take(table@.len() as int) =~= full);
    }
    while i > 0
        invariant
            i <= table@.len(),
            full == table.deep_view(),
            full.len() == table@.len(),
            assoc_map(full).contains_key(name@) == assoc_map(full.take(i as int)).contains_key(
                name@,
            ),
            assoc_map(full).contains_key(name@) ==> assoc_map(full)[name@] == assoc_map(
                full.take(i as int),
            )[name@],
        decreases i,
    {
        proof {
            assert(full.take(i as int).drop_last() =~= full.take(i - 1));
            assert(full.take(i as int).last() == full[i - 1]);
            assert(full[i - 1] == (table@[i - 1].0@, table@[i - 1].1.deep_view()));
        }
        if table[i - 1].0 == *name {
            return Some(&table[i - 1].1);
        }
        i -= 1;
    }
    proof {
        assert(full.take(0int) =~= Seq::<(Seq<char>, T::V)>::empty());
    }
    None
}

// ---------------------------------------------------------------------
// constant resolution
// ---------------------------------------------------------------------
/// The constant table of a statement sequence: every top-level constant
/// definition, later definitions of a name overwriting earlier ones.
pub open spec fn const_map(s: Seq<StatementV>) -> Map<Seq<char>, OperandV>
    decreases s.len(),
{
    if s.len() == 0 {
        Map::empty()
    } else {
        let m = const_map(s.drop_last());
        match s.last() {
            StatementV::ConstantDef(n, v) => m.insert(n, v),
            _ => m,
        }
    }
}

/// A variable operand with a matching constant becomes that constant's
/// literal; everything else is untouched.
pub open spec fn subst_operand(consts: Map<Seq<char>, OperandV>, o: OperandV) -> OperandV {
    match o {
        OperandV::Variable(n) => if consts.contains_key(n) {
            consts[n]
        } else {
            o
        },
        _ => o,
    }
}

/// Constant substitution rewrites only the operand lists of top-level
/// opcode statements; macro bodies are not visited.
pub open spec fn subst_statement(consts: Map<Seq<char>, OperandV>, st: StatementV) -> StatementV {
    match st {
        StatementV::Op(op, ind, ops, lbl) => StatementV::Op(
            op,
            ind,
            ops.map_values(|o: OperandV| subst_operand(consts, o)),
            lbl,
        ),
        _ => st,
    }
}

/// What constant resolution does to the whole sequence.
pub open spec fn resolve_constants_spec(s: Seq<StatementV>) -> Seq<StatementV> {
    s.map_values(|st: StatementV| subst_statement(const_map(s), st))
}

/// Replaces every variable operand of a top-level opcode statement that
/// names a defined constant with that constant's literal value; a
/// variable with no matching constant is left unchanged, and constant
/// definitions stay in the sequence, inert.
pub fn resolve_constants(parsed: &mut Vec<Statement>)
    ensures
        stmt_seq_dv(final(parsed)@) == resolve_constants_spec(stmt_seq_dv(old(parsed)@)),
{
    let ghost dv = stmt_seq_dv(parsed@);
    let n = parsed.len();
    // pass 1: collect the constant definitions
    let mut table: Vec<(String, Operand)> = Vec::new();
    let mut i: usize = 0;
    proof {
        assert(dv.take(0int) =~= Seq::<StatementV>::empty());
        assert(table.deep_view() =~= Seq::<(Seq<char>, OperandV)>::empty());
    }
    while i < n
        invariant
            i <= n,
            n == parsed@.len(),
            dv == stmt_seq_dv(parsed@),
            dv.len() == n,
            assoc_map(table.deep_view()) == const_map(dv.take(i as int)),
        decreases n - i,
    {
        proof {
            assert(dv.take(i + 1).drop_last() =~= dv.take(i as int));
            assert(dv.take(i + 1).last() == dv[i as int]);
            assert(dv[i as int] == parsed@[i as int].deep_view());
        }
        match &parsed[i] {
            Statement::ConstantDefinition(name, value) => {
                let ghost t0 = table.deep_view();
                table.push((name.clone(), value.clone()));
                proof {
                    assert(table.deep_view().drop_last() =~= t0);
                    assert(table.deep_view().last() == (name@, value.deep_view()));
                }
            },
            _ => {},
        }
        i += 1;
    }
    proof {
        assert(dv.take(n as int) =~= dv);
    }
    // pass 2: rewrite the operand lists of top-level opcode statements
    let ghost cm = const_map(dv);
    let mut out: Vec<Statement> = Vec::new();
    let mut j: usize = 0;
    while j < n
        invariant
            j <= n,
            n == parsed@.len(),
            dv == stmt_seq_dv(parsed@),
            dv.len() == n,
            cm == const_map(dv),
            assoc_map(table.deep_view()) == cm,
            out@.len() == j,
            forall|p: int|
                0 <= p < j ==> out@[p].deep_view() == subst_statement(cm, #[trigger] dv[p]),
        decreases n - j,
    {
        proof {
            assert(dv[j as int] == parsed@[j as int].deep_view());
        }
        match &parsed[j] {
            Statement::OpcodeStatement(op, ind, ops, lbl) => {
                let ghost ov = ops.deep_view();
                let m = ops.len();
                let mut newops: Vec<Operand> = Vec::new();
                let mut k: usize = 0;
                while k < m
                    invariant
                        k <= m,
                        m == ops@.len(),
                        ov == ops.deep_view(),
                        assoc_map(table.deep_view()) == cm,
                        newops@.len() == k,
                        forall|q: int|
                            0 <= q < k ==> newops@[q].deep_view() == subst_operand(
                                cm,
                                #[trigger] ov[q],
                            ),
                    decreases m - k,
                {
                    proof {
                        assert(ov[k as int] == ops@[k as int].deep_view());
                    }
                    match &ops[k] {
                        Operand::Variable(name) => match assoc_lookup(&table, name) {
                            Some(c) => {
                                newops.push(c.clone());
                            },
                            None => {
                                newops.push(Operand::Variable(name.clone()));
                            },
                        },
                        other => {
                            newops.push(other.clone());
                        },
                    }
                    k += 1;
                }
                let newlbl: Option<String> = match lbl {
                    Some(l) => Some(l.clone()),
                    None => None,
                };
                let st = Statement::OpcodeStatement(*op, *ind, newops, newlbl);
                proof {
                    assert(st.deep_view()->Op_2 =~= ov.map_values(
                        |o: OperandV| subst_operand(cm, o),
                    ));
                }
                out.push(st);
            },
            other => {
                out.push(clone_statement(other));
            },
        }
        j += 1;
    }
    proof {
        assert(stmt_seq_dv(out@) =~= resolve_constants_spec(dv));
    }
    *parsed = out;
}

// ---------------------------------------------------------------------
// macro expansion
// ---------------------------------------------------------------------
/// The macro table of a statement sequence: every top-level macro
/// definition, later definitions of a name overwriting earlier ones.
pub open spec fn macro_map(s: Seq<StatementV>) -> Map<Seq<char>, Seq<StatementV>>
    decreases s.len(),
{
    if s.len() == 0 {
        Map::empty()
    } else {
        let m = macro_map(s.drop_last());
        match s.last() {
            StatementV::MacroDef(n, body) => m.insert(n, body),
            _ => m,
        }
    }
}

/// How many top-level macro definitions the sequence holds; expansion
/// chains deeper than this can only come from a cycle among definitions.
pub open spec fn count_macro_defs(s: Seq<StatementV>) -> nat
    decreases s.len(),
{
    if s.len() == 0 {
        0
    } else {
        count_macro_defs(s.drop_last()) + (if s.last() is MacroDef {
            1nat
        } else {
            0nat
        })
    }
}

/// The top-level sequence with macro definitions removed; what expansion
/// actually walks.
pub open spec fn drop_macro_defs(s: Seq<StatementV>) -> Seq<StatementV>
    decreases s.len(),
{
    if s.len() == 0 {
        Seq::empty()
    } else {
        let r = drop_macro_defs(s.drop_last());
        if s.last() is MacroDef {
            r
        } else {
            r.push(s.last())
        }
    }
}

/// What one statement expands to: an invocation becomes its macro's body,
/// recursively, with `k` bounding the invocation chain; anything else
/// stands for itself.
pub open spec fn expand_stmt(
    st: StatementV,
    defs: Map<Seq<char>, Seq<StatementV>>,
    k: nat,
) -> Result<Seq<StatementV>, AsmError>
    decreases k, 0nat, 0nat,
{
    match st {
        StatementV::MacroInvocation(n) => if !defs.contains_key(n) {
            Err(AsmError::UnresolvedReference)
        } else if k == 0 {
            Err(AsmError::MacroNestingTooDeep)
        } else {
            expand_stmts(defs[n], defs, (k - 1) as nat)
        },
        _ => Ok(seq![st]),
    }
}

/// What a statement sequence expands to, depth-first and
/// order-preserving; the first failure aborts.
pub open spec fn expand_stmts(
    l: Seq<StatementV>,
    defs: Map<Seq<char>, Seq<StatementV>>,
    k: nat,
) -> Result<Seq<StatementV>, AsmError>
    decreases k, l.len(), 1nat,
{
    if l.len() == 0 {
        Ok(Seq::empty())
    } else {
        match expand_stmt(l[0], defs, k) {
            Err(e) => Err(e),
            Ok(first) => match expand_stmts(l.skip(1), defs, k) {
                Ok(rest) => Ok(first + rest),
                Err(e) => Err(e),
            },
        }
    }
}

/// What macro resolution does to the whole sequence.
pub open spec fn resolve_macros_spec(s: Seq<StatementV>) -> Result<Seq<StatementV>, AsmError> {
    expand_stmts(drop_macro_defs(s), macro_map(s), count_macro_defs(s))
}

/// Collects the top-level macro definitions into a table; a later
/// definition of a name overrides an earlier one for all invocations.
pub fn collect_macro_definitions(parsed: &Vec<Statement>) -> (r: Vec<(String, Vec<Statement>)>)
    ensures
        assoc_map(r.deep_view()) == macro_map(stmt_seq_dv(parsed@)),
        r@.len() == count_macro_defs(stmt_seq_dv(parsed@)),
{
    let ghost dv = stmt_seq_dv(parsed@);
    let n = parsed.len();
    let mut table: Vec<(String, Vec<Statement>)> = Vec::new();
    let mut i: usize = 0;
    proof {
        assert(dv.take(0int) =~= Seq::<StatementV>::empty());
        assert(table.deep_view() =~= Seq::<(Seq<char>, Seq<StatementV>)>::empty());
    }
    while i < n
        invariant
            i <= n,
            n == parsed@.len(),
            dv == stmt_seq_dv(parsed@),
            dv.len() == n,
            assoc_map(table.deep_view()) == macro_map(dv.take(i as int)),
            table@.len() == count_macro_defs(dv.take(i as int)),
        decreases n - i,
    {
        proof {
            assert(dv.take(i + 1).drop_last() =~= dv.take(i as int));
            assert(dv.take(i + 1).last() == dv[i as int]);
            assert(dv[i as int] == parsed@[i as int].deep_view());
        }
        match &parsed[i] {
            Statement::MacroStatement(name, body) => {
                let ghost t0 = table.deep_view();
                table.push((name.clone(), clone_statements(body)));
                proof {
                    assert(table.deep_view().drop_last() =~= t0);
                    assert(table.deep_view().last() == (
                        name@,
                        stmt_seq_dv(body@),
                    ));
                }
            },
            _ => {},
        }
        i += 1;
    }
    proof {
        assert(dv.take(n as int) =~= dv);
    }
    table
}

/// Expands one statement into `out`.
fn expand_one(
    st: Statement,
    defs: &Vec<(String, Vec<Statement>)>,
    budget: usize,
    out: &mut Vec<Statement>,
) -> (r: Result<(), AsmError>)
    ensures
        match expand_stmt(st.deep_view(), assoc_map(defs.deep_view()), budget as nat) {
            Ok(es) => r is Ok && stmt_seq_dv(final(out)@) == stmt_seq_dv(old(out)@) + es,
            Err(e) => r == Err::<(), AsmError>(e),
        },
        old(out)@.len() <= final(out)@.len(),
        stmt_seq_dv(final(out)@).take(old(out)@.len() as int) == stmt_seq_dv(old(out)@),
    decreases budget, 0nat,
{
    match st {
        Statement::MacroInvocation(name) => match assoc_lookup(defs, &name) {
            None => Err(AsmError::UnresolvedReference),
            Some(body) => {
                if budget == 0 {
                    return Err(AsmError::MacroNestingTooDeep);
                }
                proof {
                    crate::ast::lemma_stmt_seq_dv_is_deep_view(*body);
                }
                expand_list(body, defs, budget - 1, out)
            },
        },
        other => {
            let ghost o0 = stmt_seq_dv(out@);
            let ghost ov = other.deep_view();
            out.push(other);
            proof {
                assert(stmt_seq_dv(out@) =~= o0 + seq![ov]);
            }
            Ok(())
        },
    }
}

/// Expands each statement of `l`, in order, into `out`.
fn expand_list(
    l: &Vec<Statement>,
    defs: &Vec<(String, Vec<Statement>)>,
    budget: usize,
    out: &mut Vec<Statement>,
) -> (r: Result<(), AsmError>)
    ensures
        match expand_stmts(stmt_seq_dv(l@), assoc_map(defs.deep_view()), budget as nat) {
            Ok(es) => r is Ok && stmt_seq_dv(final(out)@) == stmt_seq_dv(old(out)@) + es,
            Err(e) => r == Err::<(), AsmError>(e),
        },
        old(out)@.len() <= final(out)@.len(),
        stmt_seq_dv(final(out)@).take(old(out)@.len() as int) == stmt_seq_dv(old(out)@),
    decreases budget, 1nat,
{
    let ghost lv = stmt_seq_dv(l@);
    let ghost dm = assoc_map(defs.deep_view());
    let ghost o0 = stmt_seq_dv(out@);
    let n = l.len();
    let mut i: usize = 0;
    proof {
        assert(lv.skip(0int) =~= lv);
        assert(o0 + Seq::<StatementV>::empty() =~= o0);
    }
    while i < n
        invariant
            i <= n,
            n == l@.len(),
            lv == stmt_seq_dv(l@),
            lv.len() == n,
            dm == assoc_map(defs.deep_view()),
            o0 == stmt_seq_dv(old(out)@),
            o0.len() == old(out)@.len(),
            o0.len() <= stmt_seq_dv(out@).len(),
            stmt_seq_dv(out@).take(o0.len() as int) == o0,
            (match expand_stmts(lv.skip(i as int), dm, budget as nat) {
                Ok(rest) => expand_stmts(lv, dm, budget as nat) == Ok::<Seq<StatementV>, AsmError>(
                    stmt_seq_dv(out@).skip(o0.len() as int) + rest,
                ),
                Err(e) => expand_stmts(lv, dm, budget as nat) == Err::<Seq<StatementV>, AsmError>(
                    e,
                ),
            }),
        decreases n - i,
    {
        proof {
            assert(lv.skip(i as int)[0] == lv[i as int]);
            assert(lv.skip(i as int).skip(1) =~= lv.skip(i + 1));
            assert(lv[i as int] == l@[i as int].deep_view());
        }
        let st = clone_statement(&l[i]);
        let ghost done0 = stmt_seq_dv(out@).skip(o0.len() as int);
        let ghost pre_all = stmt_seq_dv(out@);
        let res = expand_one(st, defs, budget, out);
        proof {
            assert(stmt_seq_dv(out@).take(pre_all.len() as int).take(o0.len() as int)
                =~= stmt_seq_dv(out@).take(o0.len() as int));
        }
        match res {
            Ok(_) => {},
            Err(e) => {
                proof {
                    assert(expand_stmts(lv.skip(i as int), dm, budget as nat) == Err::<
                        Seq<StatementV>,
                        AsmError,
                    >(e));
                }
                return Err(e);
            },
        }
        proof {
            let es = expand_stmt(lv[i as int], dm, budget as nat)->Ok_0;
            assert(stmt_seq_dv(out@).skip(o0.len() as int) =~= done0 + es);
            assert(stmt_seq_dv(out@).take(o0.len() as int) =~= o0);
            match expand_stmts(lv.skip(i + 1), dm, budget as nat) {
                Ok(rest) => {
                    assert(expand_stmts(lv.skip(i as int), dm, budget as nat) == Ok::<
                        Seq<StatementV>,
                        AsmError,
                    >(es + rest));
                    assert(done0 + (es + rest) =~= (done0 + es) + rest);
                },
                Err(e) => {
                    assert(expand_stmts(lv.skip(i as int), dm, budget as nat) == Err::<
                        Seq<StatementV>,
                        AsmError,
                    >(e));
                },
            }
        }
        i += 1;
    }
    proof {
        assert(lv.skip(n as int) =~= Seq::<StatementV>::empty());
        assert(expand_stmts(lv.skip(n as int), dm, budget as nat) == Ok::<
            Seq<StatementV>,
            AsmError,
        >(Seq::empty()));
        assert(stmt_seq_dv(out@).skip(o0.len() as int) + Seq::<StatementV>::empty() =~= stmt_seq_dv(
            out@,
        ).skip(o0.len() as int));
        assert(o0 + stmt_seq_dv(out@).skip(o0.len() as int) =~= stmt_seq_dv(out@));
    }
    Ok(())
}

/// Inlines every macro invocation, depth-first and order-preserving, with
/// nested invocations expanding transitively.  Invoking an undefined
/// macro is fatal.  Because chains of invocations deeper than the number
/// of definitions can only arise from a cycle among definitions, which
/// could never finish expanding, such a chain is fatal too.  That cap
/// also bounds the recursion depth of `expand_one`, so even
/// pathologically nested definitions cannot overrun the call stack.
pub fn expand_macros(
    parsed: Vec<Statement>,
    macro_definitions: &Vec<(String, Vec<Statement>)>,
) -> (r: Result<Vec<Statement>, AsmError>)
    ensures
        match expand_stmts(
            drop_macro_defs(stmt_seq_dv(parsed@)),
            assoc_map(macro_definitions.deep_view()),
            macro_definitions@.len() as nat,
        ) {
            Ok(es) => r is Ok && stmt_seq_dv(r->Ok_0@) == es,
            Err(e) => r == Err::<Vec<Statement>, AsmError>(e),
        },
{
    let ghost dv = stmt_seq_dv(parsed@);
    let n = parsed.len();
    // keep everything but the macro definitions themselves
    let mut work: Vec<Statement> = Vec::new();
    let mut i: usize = 0;
    proof {
        assert(dv.take(0int) =~= Seq::<StatementV>::empty());
        assert(stmt_seq_dv(work@) =~= Seq::<StatementV>::empty());
    }
    while i < n
        invariant
            i <= n,
            n == parsed@.len(),
            dv == stmt_seq_dv(parsed@),
            dv.len() == n,
            stmt_seq_dv(work@) == drop_macro_defs(dv.take(i as int)),
        decreases n - i,
    {
        proof {
            assert(dv.take(i + 1).drop_last() =~= dv.take(i as int));
            assert(dv.take(i + 1).last() == dv[i as int]);
            assert(dv[i as int] == parsed@[i as int].deep_view());
        }
        match &parsed[i] {
            Statement::MacroStatement(_, _) => {},
            other => {
                let ghost w0 = stmt_seq_dv(work@);
                work.push(clone_statement(other));
                proof {
                    assert(stmt_seq_dv(work@) =~= w0.push(dv[i as int]));
                }
            },
        }
        i += 1;
    }
    proof {
        assert(dv.take(n as int) =~= dv);
    }
    let mut resolved: Vec<Statement> = Vec::new();
    let budget = macro_definitions.len();
    let res = expand_list(&work, macro_definitions, budget, &mut resolved);
    match res {
        Ok(_) => {
            proof {
                assert(Seq::<StatementV>::empty() + stmt_seq_dv(resolved@) =~= stmt_seq_dv(
                    resolved@,
                ));
            }
            Ok(resolved)
        },
        Err(e) => Err(e),
    }
}

/// Collects the macro table, then expands every invocation.
pub fn resolve_macros(parsed: Vec<Statement>) -> (r: Result<Vec<Statement>, AsmError>)
    ensures
        match resolve_macros_spec(stmt_seq_dv(parsed@)) {
            Ok(es) => r is Ok && stmt_seq_dv(r->Ok_0@) == es,
            Err(e) => r == Err::<Vec<Statement>, AsmError>(e),
        },
{
    let macro_definitions = collect_macro_definitions(&parsed);
    expand_macros(parsed, &macro_definitions)
}

// ---------------------------------------------------------------------
// label resolution
// ---------------------------------------------------------------------
/// How many opcode statements the sequence holds; labels and inert
/// statements never advance the program counter.
pub open spec fn count_ops(s: Seq<StatementV>) -> nat
    decreases s.len(),
{
    if s.len() == 0 {
        0
    } else {
        count_ops(s.drop_last()) + (if s.last() is Op {
            1nat
        } else {
            0nat
        })
    }
}

/// The label table: each label maps to the number of opcode statements
/// strictly before it; a later occurrence of a name overwrites an
/// earlier one.
pub open spec fn label_map(s: Seq<StatementV>) -> Map<Seq<char>, u64>
    decreases s.len(),
{
    if s.len() == 0 {
        Map::empty()
    } else {
        let m = label_map(s.drop_last());
        match s.last() {
            StatementV::Label(n) => m.insert(n, count_ops(s.drop_last()) as u64),
            _ => m,
        }
    }
}

/// A macro definition or invocation surviving into label resolution
/// signals a pipeline-ordering bug.
pub open spec fn has_structural_violation(s: Seq<StatementV>) -> bool {
    exists|i: int| 0 <= i < s.len() && ((#[trigger] s[i]) is MacroDef || s[i] is MacroInvocation)
}

/// Backpatching one statement: an opcode statement carrying a jump label
/// gets the label's resolved program counter inserted as its first
/// operand and the label cleared; everything else is untouched.
pub open spec fn backpatch_stmt(st: StatementV, lm: Map<Seq<char>, u64>) -> Result<
    StatementV,
    AsmError,
> {
    match st {
        StatementV::Op(op, ind, ops, lbl) => match lbl {
            Some(l) => if lm.contains_key(l) {
                Ok(StatementV::Op(op, ind, seq![OperandV::Decimal(lm[l])] + ops, None))
            } else {
                Err(AsmError::UnresolvedReference)
            },
            None => Ok(st),
        },
        _ => Ok(st),
    }
}

pub open spec fn backpatch_stmts(s: Seq<StatementV>, lm: Map<Seq<char>, u64>) -> Result<
    Seq<StatementV>,
    AsmError,
>
    decreases s.len(),
{
    if s.len() == 0 {
        Ok(Seq::empty())
    } else {
        match backpatch_stmt(s[0], lm) {
            Err(e) => Err(e),
            Ok(st) => match backpatch_stmts(s.skip(1), lm) {
                Ok(rest) => Ok(seq![st] + rest),
                Err(e) => Err(e),
            },
        }
    }
}

/// What label resolution does to the macro-expanded sequence.
pub open spec fn resolve_labels_spec(s: Seq<StatementV>) -> Result<Seq<StatementV>, AsmError> {
    if has_structural_violation(s) {
        Err(AsmError::StructuralInvariantViolation)
    } else {
        backpatch_stmts(s, label_map(s))
    }
}

/// Two passes over the macro-expanded sequence: first each label is
/// recorded at the program counter of its position, then every opcode
/// statement carrying a jump label gets the resolved counter inserted as
/// its first operand.  An undefined label is fatal, and so is a macro
/// definition or invocation that survived this far.
pub fn resolve_labels(parsed: &mut Vec<Statement>) -> (r: Result<(), AsmError>)
    ensures
        match resolve_labels_spec(stmt_seq_dv(old(parsed)@)) {
            Ok(out) => r is Ok && stmt_seq_dv(final(parsed)@) == out,
            Err(e) => r == Err::<(), AsmError>(e),
        },
{
    let ghost dv = stmt_seq_dv(parsed@);
    let n = parsed.len();
    // pass 1: label collection
    let mut table: Vec<(String, u64)> = Vec::new();
    let mut pc: u64 = 0;
    let mut i: usize = 0;
    proof {
        assert(dv.take(0int) =~= Seq::<StatementV>::empty());
        assert(table.deep_view() =~= Seq::<(Seq<char>, u64)>::empty());
    }
    while i < n
        invariant
            i <= n,
            n == parsed@.len(),
            dv == stmt_seq_dv(parsed@),
            dv.len() == n,
            pc <= i,
            pc == count_ops(dv.take(i as int)),
            assoc_map(table.deep_view()) == label_map(dv.take(i as int)),
            !has_structural_violation(dv.take(i as int)),
        decreases n - i,
    {
        proof {
            assert(dv.take(i + 1).drop_last() =~= dv.take(i as int));
            assert(dv.take(i + 1).last() == dv[i as int]);
            assert(dv[i as int] == parsed@[i as int].deep_view());
            assert(forall|p: int|
                0 <= p < i + 1 ==> dv.take(i + 1)[p] == #[trigger] dv.take(i as int).push(
                    dv[i as int],
                )[p]);
        }
        match &parsed[i] {
            Statement::Label(name) => {
                let ghost t0 = table.deep_view();
                table.push((name.clone(), pc));
                proof {
                    assert(table.deep_view().drop_last() =~= t0);
                    assert(table.deep_view().last() == (name@, pc));
                }
            },
            Statement::OpcodeStatement(_, _, _, _) => {
                pc = pc + 1;
            },
            Statement::MacroStatement(_, _) | Statement::MacroInvocation(_) => {
                proof {
                    assert(dv[i as int] is MacroDef || dv[i as int] is MacroInvocation);
                    assert(has_structural_violation(dv));
                }
                return Err(AsmError::StructuralInvariantViolation);
            },
            _ => {},
        }
        i += 1;
        proof {
            assert(!has_structural_violation(dv.take(i as int))) by {
                assert(forall|p: int|
                    0 <= p < i - 1 ==> dv.take(i as int)[p] == #[trigger] dv.take(i - 1)[p]);
            }
        }
    }
    proof {
        assert(dv.take(n as int) =~= dv);
    }
    let ghost lm = label_map(dv);
    // pass 2: backpatch
    let mut out: Vec<Statement> = Vec::new();
    let mut j: usize = 0;
    proof {
        assert(dv.skip(0int) =~= dv);
        assert(Seq::<StatementV>::empty() + backpatch_stmts(dv, lm)->Ok_0 =~= backpatch_stmts(
            dv,
            lm,
        )->Ok_0);
    }
    while j < n
        invariant
            j <= n,
            n == parsed@.len(),
            dv == stmt_seq_dv(parsed@),
            dv.len() == n,
            lm == label_map(dv),
            assoc_map(table.deep_view()) == lm,
            !has_structural_violation(dv),
            (match backpatch_stmts(dv.skip(j as int), lm) {
                Ok(rest) => backpatch_stmts(dv, lm) == Ok::<Seq<StatementV>, AsmError>(
                    stmt_seq_dv(out@) + rest,
                ),
                Err(e) => backpatch_stmts(dv, lm) == Err::<Seq<StatementV>, AsmError>(e),
            }),
        decreases n - j,
    {
        proof {
            assert(dv.skip(j as int)[0] == dv[j as int]);
            assert(dv.skip(j as int).skip(1) =~= dv.skip(j + 1));
            assert(dv[j as int] == parsed@[j as int].deep_view());
        }
        let ghost o0 = stmt_seq_dv(out@);
        match &parsed[j] {
            Statement::OpcodeStatement(op, ind, ops, lbl) => match lbl {
                Some(l) => match assoc_lookup(&table, l) {
                    None => {
                        proof {
                            assert(backpatch_stmt(dv[j as int], lm) == Err::<StatementV, AsmError>(
                                AsmError::UnresolvedReference,
                            ));
                            assert(backpatch_stmts(dv.skip(j as int), lm) == Err::<
                                Seq<StatementV>,
                                AsmError,
                            >(AsmError::UnresolvedReference));
                        }
                        return Err(AsmError::UnresolvedReference);
                    },
                    Some(pcv) => {
                        let mut newops: Vec<Operand> = Vec::new();
                        newops.push(Operand::Decimal(*pcv));
                        let mut k: usize = 0;
                        let m = ops.len();
                        while k < m
                            invariant
                                k <= m,
                                m == ops@.len(),
                                newops@.len() == k + 1,
                                newops@[0].deep_view() == OperandV::Decimal(lm[l@]),
                                forall|q: int|
                                    0 <= q < k ==> newops@[q + 1].deep_view()
                                        == #[trigger] ops@[q].deep_view(),
                                lm.contains_key(l@),
                                lm == label_map(dv),
                            decreases m - k,
                        {
                            newops.push(ops[k].clone());
                            k += 1;
                        }
                        let st = Statement::OpcodeStatement(*op, *ind, newops, None);
                        proof {
                            assert(st.deep_view()->Op_2 =~= seq![OperandV::Decimal(lm[l@])]
                                + ops.deep_view());
                            assert(backpatch_stmt(dv[j as int], lm) == Ok::<StatementV, AsmError>(
                                st.deep_view(),
                            ));
                        }
                        out.push(st);
                    },
                },
                None => {
                    out.push(clone_statement(&parsed[j]));
                },
            },
            _ => {
                out.push(clone_statement(&parsed[j]));
            },
        }
        proof {
            let st = backpatch_stmt(dv[j as int], lm)->Ok_0;
            assert(stmt_seq_dv(out@) =~= o0.push(st));
            match backpatch_stmts(dv.skip(j + 1), lm) {
                Ok(rest) => {
                    assert(backpatch_stmts(dv.skip(j as int), lm) == Ok::<Seq<StatementV>, AsmError>(
                        seq![st] + rest,
                    ));
                    assert(o0 + (seq![st] + rest) =~= o0.push(st) + rest);
                },
                Err(e) => {
                    assert(backpatch_stmts(dv.skip(j as int), lm) == Err::<
                        Seq<StatementV>,
                        AsmError,
                    >(e));
                },
            }
        }
        j += 1;
    }
    proof {
        assert(dv.skip(n as int) =~= Seq::<StatementV>::empty());
        assert(backpatch_stmts(dv.skip(n as int), lm) == Ok::<Seq<StatementV>, AsmError>(
            Seq::empty(),
        ));
        assert(stmt_seq_dv(out@) + Seq::<StatementV>::empty() =~= stmt_seq_dv(out@));
    }
    *parsed = out;
    Ok(())
}

// ---------------------------------------------------------------------
// instruction building
// ---------------------------------------------------------------------
/// The instruction list that a fully resolved sequence denotes: the
/// opcode statements in order, labels and inert statements dropped.
pub open spec fn instructions_of(s: Seq<StatementV>) -> Seq<InstructionV>
    decreases s.len(),
{
    if s.len() == 0 {
        Seq::empty()
    } else {
        let rest = instructions_of(s.skip(1));
        match s[0] {
            StatementV::Op(op, ind, ops, _) => seq![
                InstructionV { opcode: op, indirect: ind, operands: ops },
            ] + rest,
            _ => rest,
        }
    }
}

/// Projects the resolved sequence into the instruction list, dropping
/// labels and inert statements.
pub fn temporary_to_instruction_vector(parsed: Vec<Statement>) -> (r: Vec<Instruction>)
    ensures
        r.deep_view() == instructions_of(stmt_seq_dv(parsed@)),
{
    let ghost dv = stmt_seq_dv(parsed@);
    let n = parsed.len();
    let mut instructions: Vec<Instruction> = Vec::new();
    let mut i: usize = 0;
    proof {
        assert(dv.skip(0int) =~= dv);
        assert(Seq::<InstructionV>::empty() + instructions_of(dv) =~= instructions_of(dv));
    }
    while i < n
        invariant
            i <= n,
            n == parsed@.len(),
            dv == stmt_seq_dv(parsed@),
            dv.len() == n,
            instructions_of(dv) == instructions.deep_view() + instructions_of(dv.skip(i as int)),
        decreases n - i,
    {
        proof {
            assert(dv.skip(i as int)[0] == dv[i as int]);
            assert(dv.skip(i as int).skip(1) =~= dv.skip(i + 1));
            assert(dv[i as int] == parsed@[i as int].deep_view());
        }
        let ghost d0 = instructions.deep_view();
        match &parsed[i] {
            Statement::OpcodeStatement(op, ind, ops, _) => {
                let instr = Instruction::new(*op, *ind, clone_operands(ops));
                let ghost ivx = instr.deep_view();
                instructions.push(instr);
                proof {
                    assert(instructions.deep_view() =~= d0.push(ivx));
                    assert(seq![ivx] + instructions_of(dv.skip(i + 1)) =~= instructions_of(
                        dv.skip(i as int),
                    ));
                    assert(d0 + (seq![ivx] + instructions_of(dv.skip(i + 1))) =~= d0.push(ivx)
                        + instructions_of(dv.skip(i + 1)));
                }
            },
            _ => {},
        }
        i += 1;
    }
    proof {
        assert(dv.skip(n as int) =~= Seq::<StatementV>::empty());
        assert(instructions.deep_view() + Seq::<InstructionV>::empty() =~= instructions.deep_view());
    }
    instructions
}

// ---------------------------------------------------------------------
// well-formedness is preserved by every stage
// ---------------------------------------------------------------------
pub open spec fn wf_defs(defs: Map<Seq<char>, Seq<StatementV>>) -> bool {
    forall|n: Seq<char>| #[trigger] defs.contains_key(n) ==> wf_stmt_seq(defs[n])
}

proof fn lemma_wf_const_map(s: Seq<StatementV>)
    requires
        wf_stmt_seq(s),
    ensures
        forall|n: Seq<char>| #[trigger]
            const_map(s).contains_key(n) ==> wf_operand(const_map(s)[n]),
    decreases s.len(),
{
    if s.len() > 0 {
        assert(wf_stmt_seq(s.drop_last())) by {
            assert(forall|i: int| 0 <= i < s.len() - 1 ==> s.drop_last()[i] == #[trigger] s[i]);
        }
        lemma_wf_const_map(s.drop_last());
        assert(wf_statement(s[s.len() - 1]));
        match s.last() {
            StatementV::ConstantDef(nm, v) => {
                assert(wf_operand(v));
                assert(const_map(s) == const_map(s.drop_last()).insert(nm, v));
                assert forall|n: Seq<char>| #[trigger]
                    const_map(s).contains_key(n) implies wf_operand(const_map(s)[n]) by {
                    if n != nm {
                        assert(const_map(s.drop_last()).contains_key(n));
                    }
                };
            },
            _ => {
                assert(const_map(s) == const_map(s.drop_last()));
            },
        }
    }
}

proof fn lemma_wf_resolve_constants(s: Seq<StatementV>)
    requires
        wf_stmt_seq(s),
    ensures
        wf_stmt_seq(resolve_constants_spec(s)),
{
    lemma_wf_const_map(s);
    let cm = const_map(s);
    let out = resolve_constants_spec(s);
    assert forall|i: int| 0 <= i < out.len() implies wf_statement(#[trigger] out[i]) by {
        assert(wf_statement(s[i]));
        assert(out[i] == subst_statement(cm, s[i]));
        match s[i] {
            StatementV::Op(op, ind, ops, lbl) => {
                let nops = ops.map_values(|o: OperandV| subst_operand(cm, o));
                assert forall|j: int| 0 <= j < nops.len() implies wf_operand(
                    #[trigger] nops[j],
                ) by {
                    assert(wf_operand(ops[j]));
                    assert(nops[j] == subst_operand(cm, ops[j]));
                };
            },
            _ => {},
        }
    };
}

proof fn lemma_wf_macro_map(s: Seq<StatementV>)
    requires
        wf_stmt_seq(s),
    ensures
        wf_defs(macro_map(s)),
    decreases s.len(),
{
    if s.len() > 0 {
        assert(wf_stmt_seq(s.drop_last())) by {
            assert(forall|i: int| 0 <= i < s.len() - 1 ==> s.drop_last()[i] == #[trigger] s[i]);
        }
        lemma_wf_macro_map(s.drop_last());
        assert(wf_statement(s[s.len() - 1]));
    }
}

proof fn lemma_wf_drop_macro_defs(s: Seq<StatementV>)
    requires
        wf_stmt_seq(s),
    ensures
        wf_stmt_seq(drop_macro_defs(s)),
    decreases s.len(),
{
    if s.len() > 0 {
        assert(wf_stmt_seq(s.drop_last())) by {
            assert(forall|i: int| 0 <= i < s.len() - 1 ==> s.drop_last()[i] == #[trigger] s[i]);
        }
        lemma_wf_drop_macro_defs(s.drop_last());
        assert(wf_statement(s[s.len() - 1]));
        let r = drop_macro_defs(s.drop_last());
        if !(s.last() is MacroDef) {
            assert forall|i: int| 0 <= i < r.push(s.last()).len() implies wf_statement(
                #[trigger] r.push(s.last())[i],
            ) by {
                if i < r.len() {
                    assert(wf_statement(r[i]));
                }
            };
        }
    }
}

proof fn lemma_wf_expand_stmt(st: StatementV, defs: Map<Seq<char>, Seq<StatementV>>, k: nat)
    requires
        wf_statement(st),
        wf_defs(defs),
        expand_stmt(st, defs, k) is Ok,
    ensures
        wf_stmt_seq(expand_stmt(st, defs, k)->Ok_0),
    decreases k, 0nat, 0nat,
{
    match st {
        StatementV::MacroInvocation(n) => {
            lemma_wf_expand_stmts(defs[n], defs, (k - 1) as nat);
        },
        _ => {
            let out = expand_stmt(st, defs, k)->Ok_0;
            assert(out == seq![st]);
            assert forall|i: int| 0 <= i < out.len() implies wf_statement(#[trigger] out[i]) by {
                assert(out[i] == st);
            };
        },
    }
}

proof fn lemma_wf_expand_stmts(l: Seq<StatementV>, defs: Map<Seq<char>, Seq<StatementV>>, k: nat)
    requires
        wf_stmt_seq(l),
        wf_defs(defs),
        expand_stmts(l, defs, k) is Ok,
    ensures
        wf_stmt_seq(expand_stmts(l, defs, k)->Ok_0),
    decreases k, l.len(), 1nat,
{
    if l.len() > 0 {
        assert(wf_statement(l[0]));
        lemma_wf_expand_stmt(l[0], defs, k);
        assert(wf_stmt_seq(l.skip(1))) by {
            assert(forall|i: int| 0 <= i < l.len() - 1 ==> l.skip(1)[i] == #[trigger] l[i + 1]);
            assert(forall|i: int|
                0 <= i < l.len() - 1 ==> wf_statement(#[trigger] l.skip(1)[i]));
        }
        lemma_wf_expand_stmts(l.skip(1), defs, k);
        let first = expand_stmt(l[0], defs, k)->Ok_0;
        let rest = expand_stmts(l.skip(1), defs, k)->Ok_0;
        assert forall|i: int| 0 <= i < (first + rest).len() implies wf_statement(
            #[trigger] (first + rest)[i],
        ) by {
            if i < first.len() {
                assert(wf_statement(first[i]));
            } else {
                assert(wf_statement(rest[i - first.len()]));
            }
        };
    }
}

proof fn lemma_wf_backpatch(s: Seq<StatementV>, lm: Map<Seq<char>, u64>)
    requires
        wf_stmt_seq(s),
        backpatch_stmts(s, lm) is Ok,
    ensures
        wf_stmt_seq(backpatch_stmts(s, lm)->Ok_0),
    decreases s.len(),
{
    if s.len() > 0 {
        assert(wf_statement(s[0]));
        let st = backpatch_stmt(s[0], lm)->Ok_0;
        assert(wf_statement(st)) by {
            match s[0] {
                StatementV::Op(op, ind, ops, lbl) => {
                    if lbl is Some {
                        let nops = seq![OperandV::Decimal(lm[lbl->0])] + ops;
                        assert forall|j: int| 0 <= j < nops.len() implies wf_operand(
                            #[trigger] nops[j],
                        ) by {
                            if j > 0 {
                                assert(wf_operand(ops[j - 1]));
                            }
                        };
                    }
                },
                _ => {},
            }
        }
        assert(wf_stmt_seq(s.skip(1))) by {
            assert(forall|i: int| 0 <= i < s.len() - 1 ==> s.skip(1)[i] == #[trigger] s[i + 1]);
            assert(forall|i: int|
                0 <= i < s.len() - 1 ==> wf_statement(#[trigger] s.skip(1)[i]));
        }
        lemma_wf_backpatch(s.skip(1), lm);
        let rest = backpatch_stmts(s.skip(1), lm)->Ok_0;
        assert forall|i: int| 0 <= i < (seq![st] + rest).len() implies wf_statement(
            #[trigger] (seq![st] + rest)[i],
        ) by {
            if i > 0 {
                assert(wf_statement(rest[i - 1]));
            }
        };
    }
}

proof fn lemma_wf_instructions_of(s: Seq<StatementV>)
    requires
        wf_stmt_seq(s),
    ensures
        wf_instructions(instructions_of(s)),
    decreases s.len(),
{
    if s.len() > 0 {
        assert(wf_statement(s[0]));
        assert(wf_stmt_seq(s.skip(1))) by {
            assert(forall|i: int| 0 <= i < s.len() - 1 ==> s.skip(1)[i] == #[trigger] s[i + 1]);
            assert(forall|i: int|
                0 <= i < s.len() - 1 ==> wf_statement(#[trigger] s.skip(1)[i]));
        }
        lemma_wf_instructions_of(s.skip(1));
        let rest = instructions_of(s.skip(1));
        match s[0] {
            StatementV::Op(op, ind, ops, _) => {
                let iv = InstructionV { opcode: op, indirect: ind, operands: ops };
                assert(wf_instruction(iv));
                assert forall|i: int| 0 <= i < (seq![iv] + rest).len() implies wf_instruction(
                    #[trigger] (seq![iv] + rest)[i],
                ) by {
                    if i > 0 {
                        assert(wf_instruction(rest[i - 1]));
                    }
                };
            },
            _ => {},
        }
    }
}

// ---------------------------------------------------------------------
// the pipeline driver
// ---------------------------------------------------------------------
/// What the whole pipeline computes from a parsed statement sequence:
/// constant substitution, then macro expansion, then label resolution,
/// then the byte encoding rendered as hex.
pub open spec fn process_asm_spec(s0: Seq<StatementV>) -> Result<Seq<char>, AsmError> {
    let s1 = resolve_constants_spec(s0);
    match resolve_macros_spec(s1) {
        Err(e) => Err(e),
        Ok(s2) => match resolve_labels_spec(s2) {
            Err(e) => Err(e),
            Ok(s3) => spec_generate_code(instructions_of(s3)),
        },
    }
}

/// Runs the full pipeline over one parsed statement sequence and emits
/// the bytecode image as one upper-case hex string, or the first fatal
/// error.
pub fn process_asm(parsed: Vec<Statement>) -> (r: Result<String, AsmError>)
    requires
        wf_stmt_seq(stmt_seq_dv(parsed@)),
    ensures
        match process_asm_spec(stmt_seq_dv(parsed@)) {
            Ok(cs) => r is Ok && r->Ok_0@ == cs,
            Err(e) => r == Err::<String, AsmError>(e),
        },
{
    let ghost s0 = stmt_seq_dv(parsed@);
    let mut parsed = parsed;

    // Resolve all constants
    resolve_constants(&mut parsed);
    proof {
        lemma_wf_resolve_constants(s0);
    }

    // Resolve all macros
    let parsed = match resolve_macros(parsed) {
        Ok(p) => p,
        Err(e) => {
            return Err(e);
        },
    };
    proof {
        let s1 = resolve_constants_spec(s0);
        lemma_wf_macro_map(s1);
        lemma_wf_drop_macro_defs(s1);
        lemma_wf_expand_stmts(drop_macro_defs(s1), macro_map(s1), count_macro_defs(s1));
    }

    // Resolve all static labels
    let mut parsed = parsed;
    match resolve_labels(&mut parsed) {
        Ok(_) => {},
        Err(e) => {
            return Err(e);
        },
    }
    proof {
        let s1 = resolve_constants_spec(s0);
        let s2 = resolve_macros_spec(s1)->Ok_0;
        lemma_wf_backpatch(s2, label_map(s2));
    }

    // Before the code generator runs, all that remains of the program is
    // its instruction list
    let instructions = temporary_to_instruction_vector(parsed);
    proof {
        let s1 = resolve_constants_spec(s0);
        let s2 = resolve_macros_spec(s1)->Ok_0;
        let s3 = resolve_labels_spec(s2)->Ok_0;
        lemma_wf_instructions_of(s3);
    }
    generate_code(instructions)
}

/// What compiling one source text yields: the parse, then the pipeline.
pub open spec fn spec_compile_asm(cs: Seq<char>) -> Result<Seq<char>, AsmError> {
    match crate::parser::spec_parse_asm(cs) {
        Err(e) => Err(e),
        Ok(stmts) => process_asm_spec(stmts),
    }
}

/// Parses one assembly source text and runs the full pipeline over it,
/// emitting the bytecode image as one upper-case hex string or the first
/// fatal error.
pub fn compile_asm(input: String) -> (r: Result<String, AsmError>)
    ensures
        match spec_compile_asm(input@) {
            Ok(out) => r is Ok && r->Ok_0@ == out,
            Err(e) => r == Err::<String, AsmError>(e),
        },
{
    let parsed = match crate::parser::parse_asm(input) {
        Ok(p) => p,
        Err(e) => {
            return Err(e);
        },
    };
    process_asm(parsed)
}

/// Decides whether one operand is well formed.
pub fn operand_is_wf(o: &Operand) -> (r: bool)
    ensures
        r == wf_operand(o.deep_view()),
{
    match o {
        Operand::Hex(s) => crate::utils::is_wf_hex_literal(s.as_str()),
        _ => true,
    }
}

/// Decides whether one statement is well formed.
pub fn statement_is_wf(st: &Statement) -> (r: bool)
    ensures
        r == wf_statement(st.deep_view()),
    decreases st,
{
    match st {
        Statement::OpcodeStatement(_, _, ops, _) => {
            let n = ops.len();
            let mut i: usize = 0;
            while i < n
                invariant
                    i <= n,
                    n == ops@.len(),
                    st.deep_view() is Op,
                    st.deep_view()->Op_2 == ops.deep_view(),
                    forall|q: int| 0 <= q < i ==> wf_operand(#[trigger] ops@[q].deep_view()),
                decreases n - i,
            {
                if !operand_is_wf(&ops[i]) {
                    proof {
                        assert(ops.deep_view()[i as int] == ops@[i as int].deep_view());
                        assert(!wf_operand(st.deep_view()->Op_2[i as int]));
                        assert(!wf_statement(st.deep_view()));
                    }
                    return false;
                }
                i += 1;
            }
            proof {
                let opsv = st.deep_view()->Op_2;
                assert forall|q: int| 0 <= q < opsv.len() implies wf_operand(
                    #[trigger] opsv[q],
                ) by {
                    assert(opsv[q] == ops@[q].deep_view());
                };
            }
            true
        },
        Statement::ConstantDefinition(_, v) => operand_is_wf(v),
        Statement::MacroStatement(_, body) => statements_are_wf(body),
        _ => true,
    }
}

/// Decides whether every statement of a sequence is well formed; an
/// unverified caller can test `process_asm`'s precondition with this.
pub fn statements_are_wf(v: &Vec<Statement>) -> (r: bool)
    ensures
        r == wf_stmt_seq(stmt_seq_dv(v@)),
    decreases v,
{
    let n = v.len();
    let mut i: usize = 0;
    while i < n
        invariant
            i <= n,
            n == v@.len(),
            forall|q: int| 0 <= q < i ==> wf_statement(#[trigger] stmt_seq_dv(v@)[q]),
        decreases n - i,
    {
        proof {
            assert(stmt_seq_dv(v@)[i as int] == v@[i as int].deep_view());
        }
        if !statement_is_wf(&v[i]) {
            return false;
        }
        i += 1;
    }
    true
}

} // verus!
