//! The statement and operand model that every pipeline stage consumes,
//! together with its mathematical (deep) view.
use vstd::prelude::*;

use crate::opcodes::{lower_seq, str_eq_ci, Opcode};

verus! {

broadcast use vstd::std_specs::vec::group_vec_axioms, vstd::seq::group_seq_axioms;

/// A type-width tag carried by tag-bearing opcodes; each tag names a
/// canonical bit width and a one-byte wire ordinal.
#[derive(Clone, Copy, Debug, PartialEq, Eq, Structural)]
pub enum TypeTag {
    U8,
    U16,
    U32,
    U64,
    U128,
    FF,
}

impl TypeTag {
    /// The one-byte ordinal used on the wire for this tag.
    pub fn ordinal(&self) -> (r: u8)
        ensures
            r == self.spec_ordinal(),
    {
        match self {
            TypeTag::U8 => 0,
            TypeTag::U16 => 1,
            TypeTag::U32 => 2,
            TypeTag::U64 => 3,
            TypeTag::U128 => 4,
            TypeTag::FF => 5,
        }
    }

    pub open spec fn spec_ordinal(&self) -> u8 {
        match self {
            TypeTag::U8 => 0,
            TypeTag::U16 => 1,
            TypeTag::U32 => 2,
            TypeTag::U64 => 3,
            TypeTag::U128 => 4,
            TypeTag::FF => 5,
        }
    }

    /// The canonical bit width named by this tag.
    pub fn bits(&self) -> (r: usize)
        ensures
            r == self.spec_bits(),
    {
        match self {
            TypeTag::U8 => 8,
            TypeTag::U16 => 16,
            TypeTag::U32 => 32,
            TypeTag::U64 => 64,
            TypeTag::U128 => 128,
            TypeTag::FF => 256,
        }
    }

    pub open spec fn spec_bits(&self) -> usize {
        match self {
            TypeTag::U8 => 8,
            TypeTag::U16 => 16,
            TypeTag::U32 => 32,
            TypeTag::U64 => 64,
            TypeTag::U128 => 128,
            TypeTag::FF => 256,
        }
    }

    /// The tag whose wire ordinal is `value`, if any.
    pub fn from_ordinal(value: u8) -> (r: Option<TypeTag>)
        ensures
            value <= 5 ==> r == Some(TypeTag::spec_from_ordinal(value)),
            value > 5 ==> r is None,
    {
        match value {
            0 => Some(TypeTag::U8),
            1 => Some(TypeTag::U16),
            2 => Some(TypeTag::U32),
            3 => Some(TypeTag::U64),
            4 => Some(TypeTag::U128),
            5 => Some(TypeTag::FF),
            _ => None,
        }
    }

    pub open spec fn spec_from_ordinal(value: u8) -> TypeTag {
        if value == 0 {
            TypeTag::U8
        } else if value == 1 {
            TypeTag::U16
        } else if value == 2 {
            TypeTag::U32
        } else if value == 3 {
            TypeTag::U64
        } else if value == 4 {
            TypeTag::U128
        } else {
            TypeTag::FF
        }
    }
}

/// The tag keyword matching `s` up to ASCII case, if any.
pub open spec fn spec_tag_from_name(s: Seq<char>) -> Option<TypeTag> {
    if lower_seq(s) == lower_seq("u8"@) {
        Some(TypeTag::U8)
    } else if lower_seq(s) == lower_seq("u16"@) {
        Some(TypeTag::U16)
    } else if lower_seq(s) == lower_seq("u32"@) {
        Some(TypeTag::U32)
    } else if lower_seq(s) == lower_seq("u64"@) {
        Some(TypeTag::U64)
    } else if lower_seq(s) == lower_seq("u128"@) {
        Some(TypeTag::U128)
    } else if lower_seq(s) == lower_seq("ff"@) {
        Some(TypeTag::FF)
    } else {
        None
    }
}

/// Recognizes a type-width keyword, case-insensitively.
pub fn tag_from_name(s: &str) -> (r: Option<TypeTag>)
    ensures
        r == spec_tag_from_name(s@),
{
    if str_eq_ci(s, "u8") {
        Some(TypeTag::U8)
    } else if str_eq_ci(s, "u16") {
        Some(TypeTag::U16)
    } else if str_eq_ci(s, "u32") {
        Some(TypeTag::U32)
    } else if str_eq_ci(s, "u64") {
        Some(TypeTag::U64)
    } else if str_eq_ci(s, "u128") {
        Some(TypeTag::U128)
    } else if str_eq_ci(s, "ff") {
        Some(TypeTag::FF)
    } else {
        None
    }
}

/// One operand of an instruction.  Only `Decimal`, `Hex` and `Tag` may
/// appear in a fully resolved instruction; `Variable` is a constant
/// reference that constant resolution substitutes away.
#[derive(Debug)]
pub enum Operand {
    Decimal(u64),
    Hex(String),
    Tag(TypeTag),
    Variable(String),
}

/// The mathematical view of an `Operand`.
pub enum OperandV {
    Decimal(u64),
    Hex(Seq<char>),
    Tag(TypeTag),
    Variable(Seq<char>),
}

impl DeepView for Operand {
    type V = OperandV;

    open spec fn deep_view(&self) -> OperandV {
        match self {
            Operand::Decimal(v) => OperandV::Decimal(*v),
            Operand::Hex(s) => OperandV::Hex(s@),
            Operand::Tag(t) => OperandV::Tag(*t),
            Operand::Variable(n) => OperandV::Variable(n@),
        }
    }
}

impl Clone for Operand {
    fn clone(&self) -> (r: Self)
        ensures
            r.deep_view() == self.deep_view(),
    {
        match self {
            Operand::Decimal(v) => Operand::Decimal(*v),
            Operand::Hex(s) => Operand::Hex(s.clone()),
            Operand::Tag(t) => Operand::Tag(*t),
            Operand::Variable(n) => Operand::Variable(n.clone()),
        }
    }
}

/// One statement of the abstract program that the parser hands to the
/// pipeline.
#[derive(Debug)]
pub enum Statement {
    IncludeStatement(String),
    MacroStatement(String, Vec<Statement>),
    MacroInvocation(String),
    OpcodeStatement(Opcode, bool, Vec<Operand>, Option<String>),
    ConstantDefinition(String, Operand),
    Label(String),
}

/// The mathematical view of a `Statement`.
pub enum StatementV {
    Include(Seq<char>),
    MacroDef(Seq<char>, Seq<StatementV>),
    MacroInvocation(Seq<char>),
    Op(Opcode, bool, Seq<OperandV>, Option<Seq<char>>),
    ConstantDef(Seq<char>, OperandV),
    Label(Seq<char>),
}

/// The deep view of a statement sequence; mutually recursive with
/// `Statement::deep_view`.  Contracts throughout the crate speak of
/// statement sequences through this function.
pub open spec fn stmt_seq_dv(v: Seq<Statement>) -> Seq<StatementV>
    decreases v,
{
    Seq::new(
        v.len(),
        |i: int|
            if 0 <= i < v.len() {
                v[i].deep_view()
            } else {
                StatementV::Label(Seq::empty())
            },
    )
}

impl DeepView for Statement {
    type V = StatementV;

    open spec fn deep_view(&self) -> StatementV
        decreases self,
    {
        match self {
            Statement::IncludeStatement(p) => StatementV::Include(p@),
            Statement::MacroStatement(n, body) => StatementV::MacroDef(n@, stmt_seq_dv(body@)),
            Statement::MacroInvocation(n) => StatementV::MacroInvocation(n@),
            Statement::OpcodeStatement(op, ind, ops, lbl) => StatementV::Op(
                *op,
                *ind,
                ops.deep_view(),
                match lbl {
                    Some(l) => Some(l@),
                    None => None,
                },
            ),
            Statement::ConstantDefinition(n, v) => StatementV::ConstantDef(n@, v.deep_view()),
            Statement::Label(n) => StatementV::Label(n@),
        }
    }
}

/// `stmt_seq_dv` agrees pointwise with the element views and with
/// `Vec::deep_view`.
pub broadcast proof fn lemma_stmt_seq_dv(v: Seq<Statement>)
    ensures
        #[trigger] stmt_seq_dv(v).len() == v.len(),
        forall|i: int| 0 <= i < v.len() ==> stmt_seq_dv(v)[i] == #[trigger] v[i].deep_view(),
{
}

/// `stmt_seq_dv` and `Vec::deep_view` agree.
pub proof fn lemma_stmt_seq_dv_is_deep_view(v: Vec<Statement>)
    ensures
        stmt_seq_dv(v@) == v.deep_view(),
{
    lemma_stmt_seq_dv(v@);
    assert forall|q: int| 0 <= q < v@.len() implies stmt_seq_dv(v@)[q] == v.deep_view()[q] by {
        assert(stmt_seq_dv(v@)[q] == v@[q].deep_view());
    };
    assert(stmt_seq_dv(v@) =~= v.deep_view());
}

/// A deep copy of one statement.
pub fn clone_statement(s: &Statement) -> (r: Statement)
    ensures
        r.deep_view() == s.deep_view(),
    decreases s,
{
    match s {
        Statement::IncludeStatement(p) => Statement::IncludeStatement(p.clone()),
        Statement::MacroStatement(n, body) => Statement::MacroStatement(
            n.clone(),
            clone_statements(body),
        ),
        Statement::MacroInvocation(n) => Statement::MacroInvocation(n.clone()),
        Statement::OpcodeStatement(op, ind, ops, lbl) => Statement::OpcodeStatement(
            *op,
            *ind,
            clone_operands(ops),
            match lbl {
                Some(l) => Some(l.clone()),
                None => None,
            },
        ),
        Statement::ConstantDefinition(n, v) => Statement::ConstantDefinition(n.clone(), v.clone()),
        Statement::Label(n) => Statement::Label(n.clone()),
    }
}

/// A deep copy of a statement sequence.
pub fn clone_statements(v: &Vec<Statement>) -> (r: Vec<Statement>)
    ensures
        stmt_seq_dv(r@) == stmt_seq_dv(v@),
        r@.len() == v@.len(),
    decreases v,
{
    let mut out: Vec<Statement> = Vec::new();
    let mut i: usize = 0;
    while i < v.len()
        invariant
            i <= v@.len(),
            out@.len() == i,
            forall|j: int| 0 <= j < i ==> out@[j].deep_view() == #[trigger] v@[j].deep_view(),
        decreases v@.len() - i,
    {
        out.push(clone_statement(&v[i]));
        i += 1;
    }
    proof {
        lemma_stmt_seq_dv(out@);
        lemma_stmt_seq_dv(v@);
        assert forall|j: int| 0 <= j < v@.len() implies stmt_seq_dv(out@)[j] == stmt_seq_dv(
            v@,
        )[j] by {
            assert(out@[j].deep_view() == v@[j].deep_view());
        };
        assert(stmt_seq_dv(out@) =~= stmt_seq_dv(v@));
    }
    out
}

/// A deep copy of an operand sequence.
pub fn clone_operands(v: &Vec<Operand>) -> (r: Vec<Operand>)
    ensures
        r.deep_view() == v.deep_view(),
        r@.len() == v@.len(),
{
    let mut out: Vec<Operand> = Vec::new();
    let mut i: usize = 0;
    while i < v.len()
        invariant
            i <= v@.len(),
            out@.len() == i,
            forall|j: int| 0 <= j < i ==> out@[j].deep_view() == #[trigger] v@[j].deep_view(),
        decreases v@.len() - i,
    {
        out.push(v[i].clone());
        i += 1;
    }
    proof {
        assert(out.deep_view() =~= v.deep_view());
    }
    out
}

impl Clone for Statement {
    fn clone(&self) -> (r: Self)
        ensures
            r.deep_view() == self.deep_view(),
    {
        clone_statement(self)
    }
}

/// The fatal error kinds of the pipeline.  Every error aborts the whole
/// compilation; no bytecode is emitted.
#[derive(Clone, Copy, Debug, PartialEq, Eq, Structural)]
pub enum AsmError {
    /// The source text does not follow the assembly grammar.
    SyntaxError,
    /// A macro invocation or a jump label has no matching definition.
    UnresolvedReference,
    /// The operand in tag position of a tag-bearing opcode is neither a
    /// tag keyword nor a small integer.
    MalformedTagOperand,
    /// A hex literal's value needs more bits than its tag-implied or
    /// default width allows.
    LiteralOverflow,
    /// A statement or operand kind reached a stage that should only see
    /// kinds already eliminated by an earlier stage.
    StructuralInvariantViolation,
    /// Macro invocation chains nest deeper than the number of macro
    /// definitions, which only a cycle among definitions can cause; such
    /// an expansion could never finish.
    MacroNestingTooDeep,
}

} // verus!
