//! The final stage: serializes a finished instruction list to bytes and
//! renders them as one upper-case hex string.
use vstd::prelude::*;

use crate::ast::AsmError;
use crate::instruction::{encode_instruction, wf_instruction, Instruction, InstructionV};
use crate::utils::{bytes_to_hex_string, hex_of_bytes};

verus! {

broadcast use vstd::std_specs::vec::group_vec_axioms, vstd::seq::group_seq_axioms;

/// The concatenated wire formats of an instruction list; the first
/// failing instruction aborts the encoding.
pub open spec fn encode_instructions(l: Seq<InstructionV>) -> Result<Seq<u8>, AsmError>
    decreases l.len(),
{
    if l.len() == 0 {
        Ok(Seq::empty())
    } else {
        match encode_instruction(l[0]) {
            Ok(b) => match encode_instructions(l.skip(1)) {
                Ok(rest) => Ok(b + rest),
                Err(e) => Err(e),
            },
            Err(e) => Err(e),
        }
    }
}

pub open spec fn wf_instructions(l: Seq<InstructionV>) -> bool {
    forall|i: int| 0 <= i < l.len() ==> wf_instruction(#[trigger] l[i])
}

/// What `generate_code` returns: the hex rendering of the concatenated
/// instruction encodings, or the first encoding error.
pub open spec fn spec_generate_code(l: Seq<InstructionV>) -> Result<Seq<char>, AsmError> {
    match encode_instructions(l) {
        Ok(b) => Ok(hex_of_bytes(b)),
        Err(e) => Err(e),
    }
}

/// Serializes the instruction list to a byte buffer and renders it as an
/// upper-case hexadecimal string, two characters per byte.
pub fn generate_code(instructions: Vec<Instruction>) -> (r: Result<String, AsmError>)
    requires
        wf_instructions(instructions.deep_view()),
    ensures
        match spec_generate_code(instructions.deep_view()) {
            Ok(cs) => r is Ok && r->Ok_0@ == cs,
            Err(e) => r == Err::<String, AsmError>(e),
        },
{
    let ghost lv = instructions.deep_view();
    let mut buffer: Vec<u8> = Vec::new();
    let n = instructions.len();
    let mut i: usize = 0;
    proof {
        assert(lv.skip(0int) =~= lv);
        if encode_instructions(lv) is Ok {
            assert(Seq::<u8>::empty() + encode_instructions(lv)->Ok_0 =~= encode_instructions(
                lv,
            )->Ok_0);
        }
    }
    while i < n
        invariant
            i <= n,
            n == lv.len(),
            instructions.deep_view() == lv,
            wf_instructions(lv),
            (match encode_instructions(lv.skip(i as int)) {
                Ok(rest) => encode_instructions(lv) == Ok::<Seq<u8>, AsmError>(buffer@ + rest),
                Err(e) => encode_instructions(lv) == Err::<Seq<u8>, AsmError>(e),
            }),
        decreases n - i,
    {
        proof {
            assert(lv[i as int] == instructions@[i as int].deep_view());
            assert(lv.skip(i as int)[0] == lv[i as int]);
            assert(lv.skip(i as int).skip(1) =~= lv.skip(i + 1));
        }
        let ghost b0 = buffer@;
        let res = instructions[i].append_to_buffer(&mut buffer);
        match res {
            Ok(_) => {},
            Err(e) => {
                return Err(e);
            },
        }
        proof {
            let b = encode_instruction(lv[i as int])->Ok_0;
            match encode_instructions(lv.skip(i + 1)) {
                Ok(rest) => {
                    assert(encode_instructions(lv.skip(i as int)) == Ok::<Seq<u8>, AsmError>(
                        b + rest,
                    ));
                    assert(b0 + (b + rest) =~= (b0 + b) + rest);
                },
                Err(e) => {
                    assert(encode_instructions(lv.skip(i as int)) == Err::<Seq<u8>, AsmError>(e));
                },
            }
        }
        i += 1;
    }
    proof {
        assert(lv.skip(n as int) =~= Seq::<InstructionV>::empty());
        assert(encode_instructions(lv.skip(n as int)) == Ok::<Seq<u8>, AsmError>(Seq::empty()));
        assert(buffer@ + Seq::<u8>::empty() =~= buffer@);
    }
    Ok(bytes_to_hex_string(buffer.as_slice()))
}

} // verus!
