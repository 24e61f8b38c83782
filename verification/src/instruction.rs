//! A resolved instruction and its byte-level wire format: one opcode
//! byte, one indirect byte, then the operands, whose width the type tag
//! of a tag-bearing opcode controls.
use vstd::prelude::*;

use crate::ast::{AsmError, Operand, OperandV, TypeTag};
use crate::opcodes::Opcode;
use crate::utils::{
    be_bytes, byte_len_of, hex_to_bytes, hex_val, strip_hex_prefix, u64_be_bytes, wf_hex_literal,
};

verus! {

broadcast use vstd::std_specs::vec::group_vec_axioms, vstd::seq::group_seq_axioms;

use vstd::arithmetic::power2::pow2;

/// An operand whose hex literal, if any, is a well-formed digit string.
pub open spec fn wf_operand(o: OperandV) -> bool {
    match o {
        OperandV::Hex(s) => wf_hex_literal(s),
        _ => true,
    }
}

/// An instruction is a pairing of an opcode with its operands.
#[derive(Debug)]
pub struct Instruction {
    pub opcode: Opcode,
    pub indirect: bool,
    pub operands: Vec<Operand>,
}

/// The mathematical view of an `Instruction`.
pub struct InstructionV {
    pub opcode: Opcode,
    pub indirect: bool,
    pub operands: Seq<OperandV>,
}

impl DeepView for Instruction {
    type V = InstructionV;

    open spec fn deep_view(&self) -> InstructionV {
        InstructionV { opcode: self.opcode, indirect: self.indirect, operands: self.operands.deep_view() }
    }
}

pub open spec fn wf_instruction(i: InstructionV) -> bool {
    forall|j: int| 0 <= j < i.operands.len() ==> wf_operand(#[trigger] i.operands[j])
}

/// The bytes of one operand at the default fixed width: 8 bytes,
/// big-endian, for numeric values; the bare ordinal byte for a tag.  A
/// variable must not reach the encoder at all.
pub open spec fn default_op_bytes(o: OperandV) -> Result<Seq<u8>, AsmError> {
    match o {
        OperandV::Decimal(v) => Ok(be_bytes(v as nat, 8)),
        OperandV::Hex(s) => if hex_val(strip_hex_prefix(s)) < pow2(64) {
            Ok(be_bytes(hex_val(strip_hex_prefix(s)), 8))
        } else {
            Err(AsmError::LiteralOverflow)
        },
        OperandV::Tag(t) => Ok(seq![t.spec_ordinal()]),
        OperandV::Variable(_) => Err(AsmError::StructuralInvariantViolation),
    }
}

/// The bytes of a value operand under a tag hint: a hex literal takes
/// exactly the tag's bit width; anything else keeps the default width.
pub open spec fn hinted_op_bytes(o: OperandV, t: TypeTag) -> Result<Seq<u8>, AsmError> {
    match o {
        OperandV::Hex(s) => if hex_val(strip_hex_prefix(s)) < pow2(t.spec_bits() as nat) {
            Ok(be_bytes(hex_val(strip_hex_prefix(s)), byte_len_of(t.spec_bits() as nat)))
        } else {
            Err(AsmError::LiteralOverflow)
        },
        _ => default_op_bytes(o),
    }
}

/// The tag byte of a tag-bearing instruction's first operand, and the
/// width hint it carries: a symbolic tag hints its width, a raw decimal
/// contributes its low byte and hints nothing.
pub open spec fn tag_byte_of(o: OperandV) -> Result<(u8, Option<TypeTag>), AsmError> {
    match o {
        OperandV::Tag(t) => Ok((t.spec_ordinal(), Some(t))),
        OperandV::Decimal(v) => Ok(((v % 256) as u8, None)),
        _ => Err(AsmError::MalformedTagOperand),
    }
}

/// The concatenated default-width bytes of an operand list; the first
/// failing operand aborts the encoding.
pub open spec fn encode_tail(ops: Seq<OperandV>) -> Result<Seq<u8>, AsmError>
    decreases ops.len(),
{
    if ops.len() == 0 {
        Ok(Seq::empty())
    } else {
        match default_op_bytes(ops[0]) {
            Ok(b) => match encode_tail(ops.skip(1)) {
                Ok(rest) => Ok(b + rest),
                Err(e) => Err(e),
            },
            Err(e) => Err(e),
        }
    }
}

/// The full wire format of one instruction.
pub open spec fn encode_instruction(i: InstructionV) -> Result<Seq<u8>, AsmError> {
    let head = seq![i.opcode.spec_wire_byte(), if i.indirect { 1u8 } else { 0u8 }];
    if i.opcode.spec_has_tag() {
        if i.operands.len() == 0 {
            Err(AsmError::MalformedTagOperand)
        } else {
            match tag_byte_of(i.operands[0]) {
                Err(e) => Err(e),
                Ok((tb, hint)) => if i.operands.len() == 1 {
                    Ok(head.push(tb))
                } else {
                    let vb = match hint {
                        Some(t) => hinted_op_bytes(i.operands[1], t),
                        None => default_op_bytes(i.operands[1]),
                    };
                    match vb {
                        Err(e) => Err(e),
                        Ok(b) => match encode_tail(i.operands.skip(2)) {
                            Err(e) => Err(e),
                            Ok(rest) => Ok(head.push(tb) + b + rest),
                        },
                    }
                },
            }
        }
    } else {
        match encode_tail(i.operands) {
            Ok(b) => Ok(head + b),
            Err(e) => Err(e),
        }
    }
}

impl Operand {
    /// This operand at the default fixed width of 8 big-endian bytes.
    pub fn to_be_bytes(&self) -> (r: Result<Vec<u8>, AsmError>)
        requires
            wf_operand(self.deep_view()),
        ensures
            match default_op_bytes(self.deep_view()) {
                Ok(b) => r is Ok && r->Ok_0@ == b,
                Err(e) => r == Err::<Vec<u8>, AsmError>(e),
            },
    {
        match self {
            Operand::Decimal(v) => Ok(u64_be_bytes(*v)),
            Operand::Hex(s) => {
                proof {
                    assert(byte_len_of(64) == 8);
                }
                match hex_to_bytes(s.as_str(), 64) {
                    Ok(b) => Ok(b),
                    Err(e) => Err(e),
                }
            },
            Operand::Tag(t) => {
                let mut v: Vec<u8> = Vec::new();
                v.push(t.ordinal());
                proof {
                    assert(v@ =~= seq![t.spec_ordinal()]);
                }
                Ok(v)
            },
            Operand::Variable(_) => Err(AsmError::StructuralInvariantViolation),
        }
    }

    /// This operand under a tag-width hint: a hex literal is encoded at
    /// exactly the hinted width, anything else at the default width.
    pub fn to_be_bytes_with_hint(&self, tag_hint: TypeTag) -> (r: Result<Vec<u8>, AsmError>)
        requires
            wf_operand(self.deep_view()),
        ensures
            match hinted_op_bytes(self.deep_view(), tag_hint) {
                Ok(b) => r is Ok && r->Ok_0@ == b,
                Err(e) => r == Err::<Vec<u8>, AsmError>(e),
            },
    {
        match self {
            Operand::Hex(s) => {
                let bits = tag_hint.bits();
                match hex_to_bytes(s.as_str(), bits) {
                    Ok(b) => Ok(b),
                    Err(e) => Err(e),
                }
            },
            _ => self.to_be_bytes(),
        }
    }
}

impl Instruction {
    pub fn new(opcode: Opcode, indirect: bool, operands: Vec<Operand>) -> (r: Self)
        ensures
            r.deep_view().opcode == opcode,
            r.deep_view().indirect == indirect,
            r.deep_view().operands == operands.deep_view(),
    {
        Instruction { opcode, indirect, operands }
    }

    /// Appends the wire format of this instruction to `buffer`; a failed
    /// encoding reports its error and leaves `buffer` unchanged.
    pub fn append_to_buffer(&self, buffer: &mut Vec<u8>) -> (r: Result<(), AsmError>)
        requires
            wf_instruction(self.deep_view()),
        ensures
            match encode_instruction(self.deep_view()) {
                Ok(b) => r is Ok && final(buffer)@ == old(buffer)@ + b,
                Err(e) => r == Err::<(), AsmError>(e) && final(buffer)@ == old(buffer)@,
            },
    {
        let ghost iv = self.deep_view();
        let mut local: Vec<u8> = Vec::new();
        local.push(self.opcode.wire_byte());
        local.push(if self.indirect {
            1
        } else {
            0
        });
        let ghost head = seq![iv.opcode.spec_wire_byte(), if iv.indirect { 1u8 } else { 0u8 }];
        proof {
            assert(local@ =~= head);
        }
        let start: usize;
        if self.opcode.has_tag() {
            if self.operands.len() == 0 {
                return Err(AsmError::MalformedTagOperand);
            }
            let (tb, hint): (u8, Option<TypeTag>) = match &self.operands[0] {
                Operand::Tag(t) => (t.ordinal(), Some(*t)),
                Operand::Decimal(v) => ((*v % 256) as u8, None),
                _ => {
                    return Err(AsmError::MalformedTagOperand);
                },
            };
            local.push(tb);
            proof {
                assert(tag_byte_of(iv.operands[0]) == Ok::<_, AsmError>((tb, hint)));
                assert(local@ =~= head.push(tb));
            }
            if self.operands.len() >= 2 {
                let vb = match hint {
                    Some(t) => self.operands[1].to_be_bytes_with_hint(t),
                    None => self.operands[1].to_be_bytes(),
                };
                let mut vbytes = match vb {
                    Ok(b) => b,
                    Err(e) => {
                        return Err(e);
                    },
                };
                let ghost vbs = vbytes@;
                local.append(&mut vbytes);
                proof {
                    assert(local@ == head.push(tb) + vbs);
                }
                start = 2;
            } else {
                proof {
                    assert(encode_instruction(iv) == Ok::<Seq<u8>, AsmError>(head.push(tb)));
                }
                buffer.append(&mut local);
                return Ok(());
            }
        } else {
            start = 0;
        }
        // the remaining operands, each at the default width
        let ghost fixed = local@;
        proof {
            assert(iv.operands.skip(0int) =~= iv.operands);
            match encode_tail(iv.operands.skip(start as int)) {
                Ok(rest) => {
                    assert(encode_instruction(iv) == Ok::<Seq<u8>, AsmError>(fixed + rest));
                },
                Err(e) => {
                    assert(encode_instruction(iv) == Err::<Seq<u8>, AsmError>(e));
                },
            }
        }
        let n = self.operands.len();
        let mut i: usize = start;
        proof {
            assert(fixed + Seq::<u8>::empty() =~= fixed);
        }
        while i < n
            invariant
                start <= i <= n,
                n == iv.operands.len(),
                self.deep_view() == iv,
                wf_instruction(iv),
                buffer@ == old(buffer)@,
                fixed.len() <= local@.len(),
                local@.take(fixed.len() as int) == fixed,
                (match encode_tail(iv.operands.skip(start as int)) {
                    Ok(rest) => encode_instruction(iv) == Ok::<Seq<u8>, AsmError>(fixed + rest),
                    Err(e) => encode_instruction(iv) == Err::<Seq<u8>, AsmError>(e),
                }),
                (match encode_tail(iv.operands.skip(i as int)) {
                    Ok(rest) => encode_tail(iv.operands.skip(start as int)) == Ok::<
                        Seq<u8>,
                        AsmError,
                    >(local@.skip(fixed.len() as int) + rest),
                    Err(e) => encode_tail(iv.operands.skip(start as int)) == Err::<
                        Seq<u8>,
                        AsmError,
                    >(e),
                }),
            decreases n - i,
        {
            let ob = self.operands[i].to_be_bytes();
            let mut obytes = match ob {
                Ok(b) => b,
                Err(e) => {
                    proof {
                        assert(iv.operands.skip(i as int)[0] == iv.operands[i as int]);
                        assert(encode_tail(iv.operands.skip(i as int)) == Err::<Seq<u8>, AsmError>(
                            e,
                        ));
                    }
                    return Err(e);
                },
            };
            let ghost obs = obytes@;
            let ghost done0 = local@.skip(fixed.len() as int);
            proof {
                assert(iv.operands.skip(i as int)[0] == iv.operands[i as int]);
                assert(iv.operands.skip(i as int).skip(1) =~= iv.operands.skip(i + 1));
            }
            local.append(&mut obytes);
            proof {
                assert(local@.skip(fixed.len() as int) =~= done0 + obs);
                assert(local@.take(fixed.len() as int) =~= fixed);
                match encode_tail(iv.operands.skip(i + 1)) {
                    Ok(rest) => {
                        assert(encode_tail(iv.operands.skip(i as int)) == Ok::<Seq<u8>, AsmError>(
                            obs + rest,
                        ));
                        assert(done0 + (obs + rest) =~= (done0 + obs) + rest);
                    },
                    Err(e) => {
                        assert(encode_tail(iv.operands.skip(i as int)) == Err::<Seq<u8>, AsmError>(
                            e,
                        ));
                    },
                }
            }
            i += 1;
        }
        proof {
            assert(iv.operands.skip(n as int) =~= Seq::<OperandV>::empty());
            assert(encode_tail(iv.operands.skip(n as int)) == Ok::<Seq<u8>, AsmError>(Seq::empty()));
            assert(local@.skip(fixed.len() as int) + Seq::<u8>::empty() =~= local@.skip(
                fixed.len() as int,
            ));
            assert(encode_tail(iv.operands.skip(start as int)) == Ok::<Seq<u8>, AsmError>(
                local@.skip(fixed.len() as int),
            ));
            assert(fixed + local@.skip(fixed.len() as int) =~= local@);
        }
        buffer.append(&mut local);
        Ok(())
    }
}

impl Default for Instruction {
    fn default() -> (r: Self)
        ensures
            r.opcode == Opcode::ADD,
            r.indirect == false,
            r.operands@.len() == 0,
    {
        Instruction { opcode: Opcode::ADD, indirect: false, operands: Vec::new() }
    }
}

} // verus!
