//! End-to-end tests of the compilation pipeline.
use avm_asm::ast::Operand;
use avm_asm::codegen::generate_code;
use avm_asm::compiler::compile_asm;
use avm_asm::instruction::Instruction;
use avm_asm::opcodes::Opcode;

#[test]
fn simple_test() {
    let input = "
            // Comment
            add 1 2 3;
            sub! 1 2 3;
        "
    .to_owned();

    let bytecode = compile_asm(input).unwrap();

    assert_eq!(bytecode, "00000000000000000001000000000000000200000000000000030101000000000000000100000000000000020000000000000003");
}

#[test]
fn simple_label_test() {
    let input = "
            add 1 2 3;
            jump @label;
            sub 1 2 3;
        label:
            add 1 2 3;

        "
    .to_owned();

    let expected_instructions = vec![
        Instruction::new(
            Opcode::ADD,
            false,
            vec![Operand::Decimal(1), Operand::Decimal(2), Operand::Decimal(3)],
        ),
        Instruction::new(Opcode::JUMP, false, vec![Operand::Decimal(3)]),
        Instruction::new(
            Opcode::SUB,
            false,
            vec![Operand::Decimal(1), Operand::Decimal(2), Operand::Decimal(3)],
        ),
        Instruction::new(
            Opcode::ADD,
            false,
            vec![Operand::Decimal(1), Operand::Decimal(2), Operand::Decimal(3)],
        ),
    ];
    let expected_bytecode = generate_code(expected_instructions).unwrap();

    let bytecode = compile_asm(input).unwrap();
    assert_eq!(bytecode, expected_bytecode);
}

#[test]
fn simple_macro() {
    let input = "
            .macro test {
                add 1 2 3;
                sub 1 2 3;
            };

            $test;
        "
    .to_owned();

    let expected_instructions = vec![
        Instruction::new(
            Opcode::ADD,
            false,
            vec![Operand::Decimal(1), Operand::Decimal(2), Operand::Decimal(3)],
        ),
        Instruction::new(
            Opcode::SUB,
            false,
            vec![Operand::Decimal(1), Operand::Decimal(2), Operand::Decimal(3)],
        ),
    ];
    let expected_bytecode = generate_code(expected_instructions).unwrap();

    let bytecode = compile_asm(input).unwrap();
    assert_eq!(bytecode, expected_bytecode);
}

#[test]
fn nested_macros() {
    let input = "
            .macro test {
                add 1 2 3;
                sub 1 2 3;
            };

            .macro test2 {
                $test;
                add 1 2 3;
            };

            $test2;
        "
    .to_owned();

    let expected_instructions = vec![
        Instruction::new(
            Opcode::ADD,
            false,
            vec![Operand::Decimal(1), Operand::Decimal(2), Operand::Decimal(3)],
        ),
        Instruction::new(
            Opcode::SUB,
            false,
            vec![Operand::Decimal(1), Operand::Decimal(2), Operand::Decimal(3)],
        ),
        Instruction::new(
            Opcode::ADD,
            false,
            vec![Operand::Decimal(1), Operand::Decimal(2), Operand::Decimal(3)],
        ),
    ];
    let expected_bytecode = generate_code(expected_instructions).unwrap();

    let bytecode = compile_asm(input).unwrap();
    assert_eq!(bytecode, expected_bytecode);
}

#[test]
fn macros_jumping_outside() {
    let input = "
            .macro test {
                add 1 2 3;
                jumpi @label 0;
                sub! 1 2 3;
            };

            $test;
        label:
            add 1 2 3;
        "
    .to_owned();

    let expected_instructions = vec![
        Instruction::new(
            Opcode::ADD,
            false,
            vec![Operand::Decimal(1), Operand::Decimal(2), Operand::Decimal(3)],
        ),
        Instruction::new(
            Opcode::JUMPI,
            false,
            vec![Operand::Decimal(3), Operand::Decimal(0)],
        ),
        Instruction::new(
            Opcode::SUB,
            true,
            vec![Operand::Decimal(1), Operand::Decimal(2), Operand::Decimal(3)],
        ),
        Instruction::new(
            Opcode::ADD,
            false,
            vec![Operand::Decimal(1), Operand::Decimal(2), Operand::Decimal(3)],
        ),
    ];

    let expected_bytecode = generate_code(expected_instructions).unwrap();
    let bytecode = compile_asm(input).unwrap();
    assert_eq!(bytecode, expected_bytecode);
}

#[test]
fn tagged_opcodes() {
    let inputs = "
        cast 1 2 3;
        "
    .to_owned();

    let bytecode = compile_asm(inputs).unwrap();
    let expected_bytecode = "0E000100000000000000020000000000000003";
    assert_eq!(bytecode, expected_bytecode);
}

#[test]
fn tagged_opcodes_as_utypes() {
    let inputs = "
        cast u16 2 3;
        "
    .to_owned();

    let bytecode = compile_asm(inputs).unwrap();
    let expected_bytecode = "0E000100000000000000020000000000000003";
    assert_eq!(bytecode, expected_bytecode);
}

#[test]
fn set_with_hex_literals() {
    let inputs = "
        set u16 0x1234 2;
        "
    .to_owned();

    let bytecode = compile_asm(inputs).unwrap();
    let expected_bytecode = "24000112340000000000000002";
    assert_eq!(bytecode, expected_bytecode);
}

#[test]
fn set_with_ff_literal() {
    let inputs = "
        set ff 0x30644e72e131a029b85045b68181585d97816a916871ca8d3c208c16d87cfd46 2;
        "
    .to_owned();

    let bytecode = compile_asm(inputs).unwrap();
    let expected_bytecode = "24000530644E72E131A029B85045B68181585D97816A916871CA8D3C208C16D87CFD460000000000000002";
    assert_eq!(bytecode, expected_bytecode);
}

#[test]
fn test_constants() {
    let inputs = "
        .const c = 0x1234;
        add $c $c $c;
        "
    .to_owned();

    let bytecode = compile_asm(inputs).unwrap();
    let expected_bytecode = "0000000000000000123400000000000012340000000000001234";
    assert_eq!(bytecode, expected_bytecode);
}
