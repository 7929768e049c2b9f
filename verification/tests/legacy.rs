use script_asm::assembler::{assemble, assemble_source, builtin, jump, source_text};
use script_asm::error::AssembleError;
use script_asm::table::SymbolTable;

fn no_floats() -> Vec<Option<u64>> {
    Vec::new()
}

#[test]
fn end_alone_gives_header_and_opcode() {
    let module = assemble("@main END".to_string(), false, &no_floats());
    assert_eq!(module, Ok(vec![4, 0, 0, 0, 1]));
}

#[test]
fn mov_writes_slot_and_integer() {
    let module = assemble("@main MOV 0 5 END".to_string(), false, &no_floats());
    assert_eq!(
        module,
        Ok(vec![4, 0, 0, 0, 2, 0, 0, 0, 0, 0x69, 5, 0, 0, 0, 0, 0, 0, 0, 1])
    );
}

#[test]
fn forward_label_skips_the_nop() {
    let module = assemble("@main JMP .skip NOP .skip: END".to_string(), false, &no_floats());
    // JMP at 4, its operand at 5..9, NOP at 9, END at 10.
    assert_eq!(module, Ok(vec![4, 0, 0, 0, 3, 10, 0, 0, 0, 0, 1]));
}

#[test]
fn backward_label_goes_to_its_instruction() {
    let module = assemble("@main .top NOP JMP .top END".to_string(), false, &no_floats());
    assert_eq!(module, Ok(vec![4, 0, 0, 0, 0, 3, 4, 0, 0, 0, 1]));
}

#[test]
fn quotes_and_blanks_around_the_source_are_taken_off() {
    let module = assemble("  \"@main\" END \n".to_string(), false, &no_floats());
    assert_eq!(module, Ok(vec![4, 0, 0, 0, 1]));
}

#[test]
fn quoted_string_keeps_its_blank() {
    let module = assemble("@main PRINT #\"a b\" END".to_string(), false, &no_floats());
    assert_eq!(module, Ok(vec![4, 0, 0, 0, 34, 35, 3, 0, 0, 0, b'a', b' ', b'b', 1]));
}

#[test]
fn source_in_quotes_is_one_token() {
    let module = assemble("\"@main END\"".to_string(), false, &no_floats());
    assert_eq!(module, Err(AssembleError::MissingEntryPoint));
}

#[test]
fn source_text_replaces_blanks_between_quotes() {
    assert_eq!(source_text("PRINT #\"a b\""), "PRINT #a\\sb".to_string());
}

#[test]
fn missing_main_is_refused() {
    let module = assemble("@start END".to_string(), false, &no_floats());
    assert_eq!(module, Err(AssembleError::MissingEntryPoint));
}

#[test]
fn main_that_is_only_called_is_missing() {
    let module = assemble("@start CALL main END".to_string(), false, &no_floats());
    assert_eq!(module, Err(AssembleError::MissingEntryPoint));
}

#[test]
fn empty_source_has_no_main() {
    assert_eq!(assemble(String::new(), false, &no_floats()), Err(AssembleError::MissingEntryPoint));
}

#[test]
fn legacy_knows_no_jnz() {
    let module = assemble("@main JNZ 0 +1 END".to_string(), false, &no_floats());
    assert_eq!(module, Err(AssembleError::UnknownInstruction));
}

#[test]
fn legacy_calls_any_builtin() {
    let module = assemble("@main CALL git_push END".to_string(), false, &no_floats());
    assert_eq!(module, Ok(vec![4, 0, 0, 0, 15, 64, 133, 0, 0, 0, 1]));
}

#[test]
fn legacy_call_is_patched_with_the_function_offset() {
    let module = assemble("@f RET @main CALL f END".to_string(), false, &no_floats());
    // f at 4 (RET), main at 5: CALL at 5, its operand at 6..10, END at 10.
    assert_eq!(module, Ok(vec![5, 0, 0, 0, 16, 15, 4, 0, 0, 0, 1]));
}

#[test]
fn function_has_to_end_before_the_next_begins() {
    let module = assemble("@f NOP @main END".to_string(), false, &no_floats());
    assert_eq!(module, Err(AssembleError::Syntax));
}

#[test]
fn legacy_named_mode_gives_slots_in_order() {
    let module = assemble(".named @main MOV a 1 MOV $b 2 MOV a 3 END".to_string(), false, &no_floats());
    let mut expected = vec![4, 0, 0, 0];
    expected.extend([2, 0, 0, 0, 0, 0x69, 1, 0, 0, 0, 0, 0, 0, 0]);
    expected.extend([2, 1, 0, 0, 0, 0x69, 2, 0, 0, 0, 0, 0, 0, 0]);
    expected.extend([2, 0, 0, 0, 0, 0x69, 3, 0, 0, 0, 0, 0, 0, 0]);
    expected.push(1);
    assert_eq!(module, Ok(expected));
}

#[test]
fn named_setting_works_without_the_directive() {
    let with_flag = assemble_source("@main MOV a 1 END", true, &no_floats());
    let with_directive = assemble_source(".named @main MOV a 1 END", false, &no_floats());
    assert!(with_flag.is_ok());
    assert_eq!(with_flag, with_directive);
}

#[test]
fn legacy_argument_is_refused() {
    let module = assemble("@main PUSH %1 END".to_string(), false, &no_floats());
    assert_eq!(module, Err(AssembleError::Syntax));
}

#[test]
fn legacy_float_takes_the_given_image() {
    let floats = vec![None, None, Some(1.5f64.to_bits()), None];
    let module = assemble("@main PUSH 1.5 END".to_string(), false, &floats);
    let mut expected = vec![4, 0, 0, 0, 32, 0x66];
    expected.extend(1.5f64.to_le_bytes());
    expected.push(1);
    assert_eq!(module, Ok(expected));
}

#[test]
fn float_without_image_is_refused() {
    let module = assemble("@main PUSH 1.5 END".to_string(), false, &no_floats());
    assert_eq!(module, Err(AssembleError::Syntax));
}

#[test]
fn assembling_twice_gives_the_same_module() {
    let source = "@f RET @main JMP .l CALL f .l: END";
    let first = assemble(source.to_string(), false, &no_floats());
    let second = assemble(source.to_string(), false, &no_floats());
    assert!(first.is_ok());
    assert_eq!(first, second);
}

#[test]
fn builtin_ids_are_fixed() {
    assert_eq!(builtin("GIT_ADD_ALL"), 128);
    assert_eq!(builtin("GIT_ADD"), 129);
    assert_eq!(builtin("GIT_COMMIT_DEFAULT"), 130);
    assert_eq!(builtin("GIT_COMMIT"), 131);
    assert_eq!(builtin("GIT_PUSH_UPSTREAM"), 132);
    assert_eq!(builtin("GIT_PUSH"), 133);
    assert_eq!(builtin("git_push"), 0);
    assert_eq!(builtin("NOPE"), 0);
}

#[test]
fn legacy_jump_counts_from_the_index() {
    let mut labels = SymbolTable::new();
    let mut slots: Vec<u32> = Vec::new();
    assert_eq!(jump("-2", 5, &mut labels, &mut slots), Ok(0));
    assert_eq!(jump("+3", 5, &mut labels, &mut slots), Ok(1));
    assert_eq!(jump("7", 5, &mut labels, &mut slots), Ok(2));
    assert_eq!(slots, vec![3, 8, 7]);
}
