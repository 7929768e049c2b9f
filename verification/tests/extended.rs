use script_asm::assembly::{assemble, extract, jump};
use script_asm::consts::Format;
use script_asm::error::AssembleError;
use script_asm::pass::Assembler;
use script_asm::table::SymbolTable;
use script_asm::text::{to_chars, tokenize};

fn none() -> Vec<Option<u64>> {
    Vec::new()
}

fn header(entry: u32, table: u32, globals: u32) -> Vec<u8> {
    let mut out = Vec::new();
    out.extend(entry.to_le_bytes());
    out.extend(table.to_le_bytes());
    out.extend(globals.to_le_bytes());
    out
}

#[test]
fn extended_header_has_twelve_bytes() {
    let module = assemble("@main END".to_string(), false, &none());
    let mut expected = header(12, 0, 0);
    expected.push(1);
    assert_eq!(module, Ok(expected));
}

#[test]
fn used_builtin_is_called_by_id() {
    let module = assemble(".use GIT_ADD_ALL @main CALL GIT_ADD_ALL END".to_string(), false, &none());
    let mut expected = header(12, 0, 0);
    expected.extend([15, 64, 128, 0, 0, 0, 1]);
    assert_eq!(module, Ok(expected));
}

#[test]
fn builtin_call_leaves_no_placeholder() {
    let tokens = tokenize(&to_chars(".use GIT_ADD_ALL @main CALL GIT_ADD_ALL END"));
    let usages = vec![to_chars("GIT_ADD_ALL")];
    let mut assembler = Assembler::new(Format::Extended, false, Vec::new(), usages).unwrap();
    assert_eq!(assembler.run(&tokens, &none(), 0), Ok(()));
    assert_eq!(assembler.pending_calls(), 0);
    assert_eq!(assembler.pending_jumps(), 0);
    assert_eq!(assembler.len(), 12 + 7);
}

#[test]
fn function_call_leaves_one_placeholder() {
    let tokens = tokenize(&to_chars("@main CALL helper END"));
    let mut assembler = Assembler::new(Format::Extended, false, Vec::new(), Vec::new()).unwrap();
    assert_eq!(assembler.run(&tokens, &none(), 0), Ok(()));
    assert_eq!(assembler.pending_calls(), 1);
}

#[test]
fn builtin_that_is_not_used_is_a_function() {
    let module = assemble("@main CALL GIT_ADD_ALL END".to_string(), false, &none());
    // The function GIT_ADD_ALL gets id 1 and is never defined.
    assert_eq!(module, Err(AssembleError::UnresolvedAddress));
}

#[test]
fn global_declared_twice_is_refused() {
    let module = assemble(".global x .global x @main END".to_string(), false, &none());
    assert_eq!(module, Err(AssembleError::DuplicateSymbol));
    assert_eq!(extract(".global x .global x").err(), Some(AssembleError::DuplicateSymbol));
}

#[test]
fn unknown_builtin_is_refused() {
    let module = assemble(".use NOPE @main END".to_string(), false, &none());
    assert_eq!(module, Err(AssembleError::UnknownBuiltin));
}

#[test]
fn directive_without_name_is_refused() {
    assert_eq!(extract("@main END .global").err(), Some(AssembleError::Syntax));
    assert_eq!(extract(".use").err(), Some(AssembleError::Syntax));
    assert_eq!(extract(".extern").err(), Some(AssembleError::Syntax));
}

#[test]
fn label_has_to_begin_like_a_name() {
    assert_eq!(extract(".1abc").err(), Some(AssembleError::Syntax));
    assert_eq!(extract(".").err(), Some(AssembleError::Syntax));
    assert!(extract("._ok").is_ok());
}

#[test]
fn extract_sorts_globals_and_usages() {
    let found = extract(
        ".global zeta .use git_push .global alpha .extern io .use GIT_ADD .use GIT_PUSH .loop: .end @main .named",
    )
    .unwrap();
    assert_eq!(found.globals, vec!["alpha".to_string(), "zeta".to_string()]);
    assert_eq!(found.usages, vec!["GIT_ADD".to_string(), "GIT_PUSH".to_string()]);
    assert_eq!(found.externs, vec!["io".to_string()]);
    assert_eq!(found.labels, vec!["loop".to_string(), "end".to_string()]);
}

#[test]
fn extract_of_nothing_is_empty() {
    let found = extract("").unwrap();
    assert!(found.globals.is_empty());
    assert!(found.usages.is_empty());
    assert!(found.externs.is_empty());
    assert!(found.labels.is_empty());
}

#[test]
fn global_slot_is_its_sorted_place_in_every_function() {
    let source = ".named .global zeta .global alpha @f MOV $zeta 1 MOV $alpha 2 RET @main MOV $zeta 3 MOV $local 4 END";
    let module = assemble(source.to_string(), false, &none()).unwrap();
    let mut expected = header(12 + 29, 0, 2);
    // f
    expected.extend([2, 1, 0, 0, 0, 0x69, 1, 0, 0, 0, 0, 0, 0, 0]);
    expected.extend([2, 0, 0, 0, 0, 0x69, 2, 0, 0, 0, 0, 0, 0, 0]);
    expected.push(16);
    // main
    expected.extend([2, 1, 0, 0, 0, 0x69, 3, 0, 0, 0, 0, 0, 0, 0]);
    expected.extend([2, 2, 0, 0, 0, 0x69, 4, 0, 0, 0, 0, 0, 0, 0]);
    expected.push(1);
    assert_eq!(module, expected);
}

#[test]
fn same_local_name_in_two_functions_gets_two_slots() {
    let source = ".named @f MOV $x 1 MOV $x 2 RET @main MOV $x 3 MOV $x 4 END";
    let module = assemble(source.to_string(), false, &none()).unwrap();
    let mut expected = header(12 + 29, 0, 0);
    expected.extend([2, 0, 0, 0, 0, 0x69, 1, 0, 0, 0, 0, 0, 0, 0]);
    expected.extend([2, 0, 0, 0, 0, 0x69, 2, 0, 0, 0, 0, 0, 0, 0]);
    expected.push(16);
    expected.extend([2, 1, 0, 0, 0, 0x69, 3, 0, 0, 0, 0, 0, 0, 0]);
    expected.extend([2, 1, 0, 0, 0, 0x69, 4, 0, 0, 0, 0, 0, 0, 0]);
    expected.push(1);
    assert_eq!(module, expected);
}

#[test]
fn numeric_mode_refuses_a_name() {
    let module = assemble("@main MOV $x 1 END".to_string(), false, &none());
    assert_eq!(module, Err(AssembleError::Syntax));
}

#[test]
fn computed_jump_appends_the_address_table() {
    let module = assemble("@main NOP JMP $7 END".to_string(), false, &none()).unwrap();
    // NOP at 12, JMP at 13 with a variable operand of 5 bytes, END at 19.
    let mut expected = header(12, 20, 0);
    expected.extend([0, 3, 36, 7, 0, 0, 0, 1]);
    expected.extend(12u32.to_le_bytes());
    expected.extend(13u32.to_le_bytes());
    expected.extend(19u32.to_le_bytes());
    assert_eq!(module, expected);
}

#[test]
fn relative_and_absolute_jumps_are_patched() {
    let module = assemble("@main NOP JMP -1 JMP +1 JMP 0 END".to_string(), false, &none()).unwrap();
    // NOP 12, JMP 13, JMP 18, JMP 23, END 28.
    let mut expected = header(12, 0, 0);
    expected.push(0);
    expected.push(3);
    expected.extend(12u32.to_le_bytes());
    expected.push(3);
    expected.extend(23u32.to_le_bytes());
    expected.push(3);
    expected.extend(12u32.to_le_bytes());
    expected.push(1);
    assert_eq!(module, expected);
}

#[test]
fn conditional_jump_takes_a_value_and_a_target() {
    let module = assemble("@main JNZ true .end .end END".to_string(), false, &none()).unwrap();
    let mut expected = header(12, 0, 0);
    expected.extend([5, 1]);
    expected.extend(18u32.to_le_bytes());
    expected.push(1);
    assert_eq!(module, expected);
}

#[test]
fn jump_out_of_the_program_is_refused() {
    let module = assemble("@main JMP +5 END".to_string(), false, &none());
    assert_eq!(module, Err(AssembleError::UnresolvedAddress));
    let module = assemble("@main JMP -1 END".to_string(), false, &none());
    assert_eq!(module, Err(AssembleError::UnresolvedAddress));
}

#[test]
fn label_behind_the_last_instruction_is_out_of_range() {
    let module = assemble("@main JMP .end END .end".to_string(), false, &none());
    assert_eq!(module, Err(AssembleError::UnresolvedAddress));
}

#[test]
fn label_that_is_never_defined_goes_to_the_start() {
    let module = assemble("@main NOP JMP .nowhere END".to_string(), false, &none()).unwrap();
    let mut expected = header(12, 0, 0);
    expected.extend([0, 3]);
    expected.extend(12u32.to_le_bytes());
    expected.push(1);
    assert_eq!(module, expected);
}

#[test]
fn call_is_patched_with_the_function_offset() {
    let module = assemble("@main CALL f END @f: RET".to_string(), false, &none()).unwrap();
    let mut expected = header(12, 0, 0);
    expected.push(15);
    expected.extend(18u32.to_le_bytes());
    expected.extend([1, 16]);
    assert_eq!(module, expected);
}

#[test]
fn call_of_a_function_that_is_never_defined_is_refused() {
    // g gets id 1, f id 2; defining f makes the table three long.
    let module = assemble("@main CALL g CALL f END @f RET".to_string(), false, &none());
    assert_eq!(module, Err(AssembleError::UnresolvedSymbol));
    // Here the table ends before the id of g.
    let module = assemble("@main CALL g END".to_string(), false, &none());
    assert_eq!(module, Err(AssembleError::UnresolvedAddress));
}

#[test]
fn instruction_outside_a_function_is_refused() {
    assert_eq!(assemble("NOP @main END".to_string(), false, &none()), Err(AssembleError::Syntax));
}

#[test]
fn unknown_mnemonic_is_refused() {
    assert_eq!(
        assemble("@main FROB END".to_string(), false, &none()),
        Err(AssembleError::UnknownInstruction)
    );
}

#[test]
fn mnemonics_are_read_in_any_case() {
    let module = assemble("@main nop End".to_string(), false, &none()).unwrap();
    let mut expected = header(12, 0, 0);
    expected.extend([0, 1]);
    assert_eq!(module, expected);
}

#[test]
fn missing_operand_is_refused() {
    assert_eq!(assemble("@main MOV 0".to_string(), false, &none()), Err(AssembleError::Syntax));
    assert_eq!(assemble("@main CALL".to_string(), false, &none()), Err(AssembleError::Syntax));
}

#[test]
fn string_is_no_number_and_boolean_is_no_number() {
    assert_eq!(
        assemble("@main ADD 0 #text END".to_string(), false, &none()),
        Err(AssembleError::TypeConstraint)
    );
    assert_eq!(
        assemble("@main ADD 0 true END".to_string(), false, &none()),
        Err(AssembleError::TypeConstraint)
    );
    assert_eq!(
        assemble("@main AND 0 #text END".to_string(), false, &none()),
        Err(AssembleError::TypeConstraint)
    );
    assert!(assemble("@main AND 0 true END".to_string(), false, &none()).is_ok());
    assert_eq!(
        assemble("@main PRINT 5 END".to_string(), false, &none()),
        Err(AssembleError::TypeConstraint)
    );
}

#[test]
fn every_mnemonic_has_its_opcode() {
    let cases: Vec<(&str, u8, usize)> = vec![
        ("NOP", 0, 0),
        ("MOV 0 1", 2, 13),
        ("JMP 0", 3, 4),
        ("JZ 1 0", 4, 13),
        ("JNZ 1 0", 5, 13),
        ("JN 1 0", 6, 13),
        ("JNN 1 0", 7, 13),
        ("CMP 1 2", 8, 18),
        ("JE 0", 9, 4),
        ("JNE 0", 10, 4),
        ("JG 0", 11, 4),
        ("JGE 0", 12, 4),
        ("JL 0", 13, 4),
        ("JLE 0", 14, 4),
        ("RET", 16, 0),
        ("INC 0", 17, 4),
        ("DEC 0", 18, 4),
        ("ADD 0 1", 19, 13),
        ("SUB 0 1", 20, 13),
        ("MUL 0 1", 21, 13),
        ("DIV 0 1", 22, 13),
        ("MOD 0 1", 23, 13),
        ("AND 0 1", 24, 13),
        ("OR 0 1", 25, 13),
        ("NOT 0", 26, 4),
        ("NEG 0", 27, 4),
        ("XOR 0 1", 28, 13),
        ("SHL 0 1", 29, 13),
        ("SHR 0 1", 30, 13),
        ("SAR 0 1", 31, 13),
        ("PUSH 1", 32, 9),
        ("POP 0", 33, 4),
        ("PRINT #a", 34, 6),
        ("SH #a", 35, 6),
        ("PUSH_RET 1", 36, 9),
        ("POP_RET 0", 37, 4),
        ("CPY 0 1", 38, 13),
    ];
    for (text, opcode, operands) in cases {
        let source = format!("@main {} END", text);
        let module = assemble(source, false, &none()).unwrap();
        assert_eq!(module[12], opcode);
        assert_eq!(module.len(), 12 + 1 + operands + 1);
        assert_eq!(module[module.len() - 1], 1);
    }
}

#[test]
fn target_with_star_is_a_dereference() {
    let module = assemble("@main MOV $*3 1 END".to_string(), false, &none()).unwrap();
    let mut expected = header(12, 0, 0);
    expected.extend([2, 42, 3, 0, 0, 0, 0x69, 1, 0, 0, 0, 0, 0, 0, 0, 1]);
    assert_eq!(module, expected);
}

#[test]
fn jump_gives_a_label_one_slot() {
    let mut labels = SymbolTable::new();
    let mut slots: Vec<u32> = Vec::new();
    assert_eq!(jump(".loop", 4, &mut labels, &mut slots), Ok(0));
    assert_eq!(jump("+2", 4, &mut labels, &mut slots), Ok(1));
    assert_eq!(jump("loop", 9, &mut labels, &mut slots), Ok(0));
    assert_eq!(jump(".other", 9, &mut labels, &mut slots), Ok(2));
    assert_eq!(slots, vec![0, 6, 0]);
    assert_eq!(labels.get("loop"), Some(0));
    assert_eq!(labels.get("other"), Some(2));
    assert_eq!(labels.get("+2"), None);
}

#[test]
fn jump_refuses_what_is_no_number() {
    let mut labels = SymbolTable::new();
    let mut slots: Vec<u32> = Vec::new();
    assert_eq!(jump("+x", 4, &mut labels, &mut slots), Err(AssembleError::Syntax));
    assert_eq!(jump("1x", 4, &mut labels, &mut slots), Err(AssembleError::Syntax));
    assert_eq!(jump("", 4, &mut labels, &mut slots), Err(AssembleError::Syntax));
    assert_eq!(jump("-5", 4, &mut labels, &mut slots), Err(AssembleError::UnresolvedAddress));
    assert_eq!(
        jump("+4294967295", 1, &mut labels, &mut slots),
        Err(AssembleError::UnresolvedAddress)
    );
    assert!(slots.is_empty());
}

#[test]
fn same_source_and_mode_give_the_same_module() {
    let source = ".named .global g @f MOV $a 1 RET @main CALL f JMP .x .x: MOV $g 2 END";
    let first = assemble(source.to_string(), false, &none());
    let second = assemble(source.to_string(), false, &none());
    assert!(first.is_ok());
    assert_eq!(first, second);
}

#[test]
fn error_messages_name_the_failure() {
    assert_eq!(AssembleError::MissingEntryPoint.message(), "No main function found");
    assert_eq!(AssembleError::UnknownInstruction.message(), "Unknown instruction");
    assert_eq!(AssembleError::Syntax.message(), "Malformed or missing token");
    assert_eq!(AssembleError::DuplicateSymbol.message(), "Duplicate global variable");
    assert_eq!(AssembleError::UnknownBuiltin.message(), "Unknown builtin function");
    assert_eq!(
        AssembleError::TypeConstraint.message(),
        "Argument of a type that is not allowed here"
    );
    assert_eq!(AssembleError::UnresolvedAddress.message(), "Invalid jump or call address");
    assert_eq!(
        AssembleError::UnresolvedSymbol.message(),
        "Call of a function that is not defined"
    );
    assert_eq!(AssembleError::TooLarge.message(), "Module too large");
}
