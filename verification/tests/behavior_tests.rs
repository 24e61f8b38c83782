//! Tests of the pipeline's laws on concrete programs, of each error
//! kind, and of the helper functions.
use avm_asm::ast::{AsmError, Operand, Statement, TypeTag};
use avm_asm::compiler::{compile_asm, process_asm, statements_are_wf};
use avm_asm::fm::FileManager;
use avm_asm::opcodes::Opcode;
use avm_asm::parser::parse_asm;
use avm_asm::utils::{bytes_to_hex_string, hex_to_bytes, unescape_string};

#[test]
fn process_asm_accepts_a_constructed_sequence() {
    let parsed = vec![
        Statement::Label("entry".to_owned()),
        Statement::OpcodeStatement(
            Opcode::ADD,
            false,
            vec![Operand::Decimal(1), Operand::Hex("0x02".to_owned())],
            None,
        ),
    ];
    assert!(statements_are_wf(&parsed));
    assert_eq!(
        process_asm(parsed).unwrap(),
        "000000000000000000010000000000000002"
    );
}

#[test]
fn ill_formed_hex_operands_are_detectable() {
    let parsed = vec![Statement::OpcodeStatement(
        Opcode::ADD,
        false,
        vec![Operand::Hex("0xZZ".to_owned())],
        None,
    )];
    assert!(!statements_are_wf(&parsed));
}

#[test]
fn plain_add_sub_sequence() {
    let bytecode = compile_asm("add 1 2 3; sub 1 2 3;".to_owned()).unwrap();
    let expected = "00000000000000000001000000000000000200000000000000030100000000000000000100000000000000020000000000000003";
    assert_eq!(bytecode, expected);
}

#[test]
fn compiling_twice_is_deterministic() {
    let src = "
        .const c = 0x42;
        add $c 2 3;
        jump @end;
        sub 1 2 3;
    end:
        set u16 0x1234 2;
    ";
    let first = compile_asm(src.to_owned()).unwrap();
    let second = compile_asm(src.to_owned()).unwrap();
    assert_eq!(first, second);
}

#[test]
fn label_pc_counts_only_opcode_statements() {
    // labels, constant definitions and macro definitions never advance
    // the program counter: the jump target here is instruction 1
    let src = "
        .const c = 1;
        add 1 2 3;
    skipped:
        jump @target;
    target:
        sub 1 2 3;
    ";
    let bytecode = compile_asm(src.to_owned()).unwrap();
    let mut expected = String::new();
    expected.push_str("0000000000000000000100000000000000020000000000000003");
    expected.push_str("20000000000000000002");
    expected.push_str("0100000000000000000100000000000000020000000000000003");
    assert_eq!(bytecode, expected);
}

#[test]
fn duplicate_label_last_occurrence_wins() {
    let src = "
        jump @l;
    l:
        add 1 1 1;
    l:
        sub 1 1 1;
    ";
    let bytecode = compile_asm(src.to_owned()).unwrap();
    let expected = "2000000000000000000200000000000000000001000000000000000100000000000000010100000000000000000100000000000000010000000000000001";
    assert_eq!(bytecode, expected);
}

#[test]
fn macro_expansion_matches_hand_inlining() {
    let with_macro = "
        .macro twice {
            add 1 2 3;
            add 1 2 3;
        };
        .macro outer {
            $twice;
            sub 1 2 3;
        };
        $outer;
        mov 4 5;
    ";
    let hand_inlined = "
        add 1 2 3;
        add 1 2 3;
        sub 1 2 3;
        mov 4 5;
    ";
    assert_eq!(
        compile_asm(with_macro.to_owned()).unwrap(),
        compile_asm(hand_inlined.to_owned()).unwrap()
    );
}

#[test]
fn tag_width_round_trips() {
    // each tag width renders a literal that exactly fits it at exactly
    // that many bytes
    assert_eq!(
        compile_asm("set u8 0xAB 2;".to_owned()).unwrap(),
        "240000AB0000000000000002"
    );
    assert_eq!(
        compile_asm("set u32 0xDEADBEEF 2;".to_owned()).unwrap(),
        "240002DEADBEEF0000000000000002"
    );
    assert_eq!(
        compile_asm("set u64 0x1122334455667788 2;".to_owned()).unwrap(),
        "24000311223344556677880000000000000002"
    );
    assert_eq!(
        compile_asm("set u128 0x0102030405060708090A0B0C0D0E0F10 2;".to_owned()).unwrap(),
        "2400040102030405060708090A0B0C0D0E0F100000000000000002"
    );
}

#[test]
fn empty_source_compiles_to_empty_bytecode() {
    assert_eq!(compile_asm("".to_owned()).unwrap(), "");
    assert_eq!(compile_asm("  // only a comment\n".to_owned()).unwrap(), "");
}

#[test]
fn mnemonics_are_case_insensitive() {
    assert_eq!(
        compile_asm("ADD 1 2 3;".to_owned()).unwrap(),
        "0000000000000000000100000000000000020000000000000003"
    );
    assert_eq!(
        compile_asm("Set U16 0x1234 2;".to_owned()).unwrap(),
        "24000112340000000000000002"
    );
}

#[test]
fn hex_literal_at_default_width() {
    assert_eq!(
        compile_asm("add 0x1234;".to_owned()).unwrap(),
        "00000000000000001234"
    );
}

#[test]
fn duplicate_constant_last_definition_wins() {
    let src = "
        .const c = 1;
        .const c = 2;
        add $c 0 0;
    ";
    assert_eq!(
        compile_asm(src.to_owned()).unwrap(),
        "0000000000000000000200000000000000000000000000000000"
    );
}

#[test]
fn constant_defined_after_use_still_applies() {
    // the constant table is collected over the whole sequence before any
    // substitution happens
    let src = "
        add $c 0 0;
        .const c = 7;
    ";
    assert_eq!(
        compile_asm(src.to_owned()).unwrap(),
        "0000000000000000000700000000000000000000000000000000"
    );
}

#[test]
fn macro_redefinition_applies_to_earlier_invocations() {
    let src = "
        .macro m { add 1 1 1; };
        $m;
        .macro m { sub 1 1 1; };
    ";
    assert_eq!(
        compile_asm(src.to_owned()).unwrap(),
        "0100000000000000000100000000000000010000000000000001"
    );
}

#[test]
fn undefined_macro_is_fatal() {
    assert_eq!(
        compile_asm("$nothing;".to_owned()),
        Err(AsmError::UnresolvedReference)
    );
}

#[test]
fn undefined_label_is_fatal() {
    assert_eq!(
        compile_asm("jump @nowhere;".to_owned()),
        Err(AsmError::UnresolvedReference)
    );
}

#[test]
fn malformed_tag_operand_is_fatal() {
    // a hex literal cannot stand in tag position
    assert_eq!(
        compile_asm("set 0x12 1 2;".to_owned()),
        Err(AsmError::MalformedTagOperand)
    );
    // neither can nothing at all
    assert_eq!(
        compile_asm("set;".to_owned()),
        Err(AsmError::MalformedTagOperand)
    );
}

#[test]
fn hex_literal_over_tag_width_is_fatal() {
    assert_eq!(
        compile_asm("set u8 0x1FF 2;".to_owned()),
        Err(AsmError::LiteralOverflow)
    );
}

#[test]
fn hex_literal_over_default_width_is_fatal() {
    assert_eq!(
        compile_asm("add 0x10000000000000000;".to_owned()),
        Err(AsmError::LiteralOverflow)
    );
}

#[test]
fn unresolved_constant_reference_fails_at_encoding() {
    // a variable with no matching constant is left in place by constant
    // resolution and only rejected once the encoder meets it
    assert_eq!(
        compile_asm("add $missing 1 2;".to_owned()),
        Err(AsmError::StructuralInvariantViolation)
    );
}

#[test]
fn constants_inside_macro_bodies_are_not_substituted() {
    // constant resolution walks only the top-level sequence, so a
    // reference that lives inside a macro body survives it and the
    // encoder then rejects the leftover variable
    let src = "
        .const c = 5;
        .macro m { add $c 1 2; };
        $m;
    ";
    assert_eq!(
        compile_asm(src.to_owned()),
        Err(AsmError::StructuralInvariantViolation)
    );
}

#[test]
fn macro_definition_inside_a_body_is_a_structural_violation() {
    let src = "
        .macro outer { .macro inner { add 1 2 3; }; };
        $outer;
    ";
    assert_eq!(
        compile_asm(src.to_owned()),
        Err(AsmError::StructuralInvariantViolation)
    );
}

#[test]
fn self_invoking_macro_is_fatal() {
    let src = "
        .macro m { $m; };
        $m;
    ";
    assert_eq!(
        compile_asm(src.to_owned()),
        Err(AsmError::MacroNestingTooDeep)
    );
}

#[test]
fn stray_characters_are_syntax_errors() {
    assert_eq!(compile_asm("add # 2;".to_owned()), Err(AsmError::SyntaxError));
    assert_eq!(compile_asm("add 1 2 3".to_owned()), Err(AsmError::SyntaxError));
    assert_eq!(compile_asm("notanopcode 1;".to_owned()), Err(AsmError::SyntaxError));
}

#[test]
fn test_parser() {
    let input = "
        add 1 2 3;
    some_label:
        sub 1 2 3;
    "
    .to_owned();

    parse_asm(input).unwrap();
}

#[test]
fn parser_handles_every_statement_form() {
    let input = "
        .include \"lib.avm\";
        .const c = 0x10;
        .macro m { add $c 1 2; };
    here:
        $m;
        jump @here;
    "
    .to_owned();
    let statements = parse_asm(input).unwrap();
    assert_eq!(statements.len(), 6);
    assert!(matches!(statements[0], Statement::IncludeStatement(_)));
    assert!(matches!(statements[1], Statement::ConstantDefinition(_, _)));
    assert!(matches!(statements[2], Statement::MacroStatement(_, _)));
    assert!(matches!(statements[3], Statement::Label(_)));
    assert!(matches!(statements[4], Statement::MacroInvocation(_)));
    assert!(matches!(statements[5], Statement::OpcodeStatement(_, _, _, _)));
}

#[test]
fn bytes_render_as_uppercase_hex_pairs() {
    assert_eq!(bytes_to_hex_string(&[]), "");
    assert_eq!(bytes_to_hex_string(&[0u8, 255u8, 16u8]), "00FF10");
}

#[test]
fn hex_to_bytes_pads_and_rejects() {
    assert_eq!(hex_to_bytes("0x1234", 16).unwrap(), vec![0x12u8, 0x34u8]);
    assert_eq!(hex_to_bytes("0x12", 32).unwrap(), vec![0u8, 0u8, 0u8, 0x12u8]);
    assert_eq!(hex_to_bytes("ff", 8).unwrap(), vec![0xffu8]);
    assert_eq!(hex_to_bytes("0x000", 8).unwrap(), vec![0u8]);
    assert_eq!(hex_to_bytes("0x1234", 8), Err(AsmError::LiteralOverflow));
}

#[test]
fn unescape_resolves_backslash_escapes() {
    assert_eq!(unescape_string("\"plain\""), "plain");
    assert_eq!(unescape_string("\"a\\nb\\tc\""), "a\nb\tc");
    assert_eq!(unescape_string("\"q\\\"q\""), "q\"q");
}

#[test]
fn opcode_names_and_tags() {
    assert_eq!(Opcode::ADD.name(), "ADD");
    assert_eq!(Opcode::TORADIXLE.name(), "TORADIXLE");
    assert!(Opcode::CAST.has_tag());
    assert!(Opcode::SET.has_tag());
    assert!(!Opcode::JUMP.has_tag());
    assert_eq!(Opcode::ADD.wire_byte(), 0);
    assert_eq!(Opcode::CAST.wire_byte(), 14);
    assert_eq!(Opcode::SET.wire_byte(), 36);
}

#[test]
fn type_tags_carry_their_widths() {
    assert_eq!(TypeTag::U8.ordinal(), 0);
    assert_eq!(TypeTag::FF.ordinal(), 5);
    assert_eq!(TypeTag::U16.bits(), 16);
    assert_eq!(TypeTag::FF.bits(), 256);
    assert_eq!(TypeTag::from_ordinal(1), Some(TypeTag::U16));
    assert_eq!(TypeTag::from_ordinal(9), None);
}

#[test]
fn file_manager_queues_includes_in_reverse() {
    let mut fm = FileManager::new();
    assert!(fm.is_empty());
    let parsed = parse_asm(".include \"a\";\n.include \"b\";\nadd 1 2 3;".to_owned()).unwrap();
    fm.extend_file_stack(&parsed);
    assert!(!fm.is_empty());
    assert_eq!(fm.next_file(), Some("b".to_owned()));
    assert_eq!(fm.next_file(), Some("a".to_owned()));
    assert!(fm.is_empty());
    assert_eq!(fm.next_file(), None);
}
