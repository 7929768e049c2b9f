use script_asm::buffer::Output;
use script_asm::error::AssembleError;
use script_asm::names::Scope;
use script_asm::operand::{push_num_val, push_prim_val, push_str_var, push_val};
use script_asm::table::SymbolTable;
use script_asm::text::{read_i64, read_u16, read_u32, to_chars, to_text, tokenize};

fn numeric() -> Scope {
    Scope::new(false, Vec::new()).unwrap()
}

fn named(globals: &[&str]) -> Scope {
    Scope::new(true, globals.iter().map(|g| to_chars(g)).collect()).unwrap()
}

fn value(token: &str) -> Result<Vec<u8>, AssembleError> {
    let mut out = Output::new();
    let mut scope = numeric();
    let count = push_val(&mut out, token, None, &mut scope, "main")?;
    let bytes = out.into_vec();
    assert_eq!(count as usize, bytes.len());
    Ok(bytes)
}

#[test]
fn integer_has_eight_bytes() {
    assert_eq!(value("5"), Ok(vec![0x69, 5, 0, 0, 0, 0, 0, 0, 0]));
    assert_eq!(value("-1"), Ok(vec![0x69, 255, 255, 255, 255, 255, 255, 255, 255]));
    assert_eq!(value("+258"), Ok(vec![0x69, 2, 1, 0, 0, 0, 0, 0, 0]));
    assert_eq!(
        value("-9223372036854775808"),
        Ok(vec![0x69, 0, 0, 0, 0, 0, 0, 0, 128])
    );
    assert_eq!(value("9223372036854775808"), Err(AssembleError::Syntax));
    assert_eq!(value("12a"), Err(AssembleError::Syntax));
}

#[test]
fn booleans_and_null_are_one_byte() {
    assert_eq!(value("true"), Ok(vec![1]));
    assert_eq!(value("false"), Ok(vec![0]));
    assert_eq!(value("null"), Ok(vec![110]));
}

#[test]
fn variable_reference_and_dereference() {
    assert_eq!(value("$7"), Ok(vec![36, 7, 0, 0, 0]));
    assert_eq!(value("&258"), Ok(vec![38, 2, 1, 0, 0]));
    assert_eq!(value("*1"), Ok(vec![42, 1, 0, 0, 0]));
    assert_eq!(value("$x"), Err(AssembleError::Syntax));
    assert_eq!(value("$4294967296"), Err(AssembleError::Syntax));
}

#[test]
fn argument_by_index_and_by_variable() {
    assert_eq!(value("%3"), Ok(vec![37, 0, 3, 0]));
    assert_eq!(value("%$9"), Ok(vec![37, 36, 9, 0, 0, 0]));
    assert_eq!(value("%65536"), Err(AssembleError::Syntax));
    assert_eq!(value("%"), Err(AssembleError::Syntax));
}

#[test]
fn characters() {
    assert_eq!(value("'a'"), Ok(vec![99, 97, 0, 0, 0]));
    assert_eq!(value("'\\n'"), Ok(vec![99, 10, 0, 0, 0]));
    assert_eq!(value("'\\s'"), Ok(vec![99, 32, 0, 0, 0]));
    assert_eq!(value("'\\\\'"), Ok(vec![99, 92, 0, 0, 0]));
    assert_eq!(value("65c"), Ok(vec![99, 65, 0, 0, 0]));
    assert_eq!(value("'ab'"), Err(AssembleError::Syntax));
    assert_eq!(value("''"), Err(AssembleError::Syntax));
    assert_eq!(value("'\\q'"), Err(AssembleError::Syntax));
    assert_eq!(value("xc"), Err(AssembleError::Syntax));
}

#[test]
fn string_has_its_length_before_it() {
    assert_eq!(value("#hi"), Ok(vec![35, 2, 0, 0, 0, b'h', b'i']));
    assert_eq!(value("#"), Ok(vec![35, 0, 0, 0, 0]));
    // Two bytes in UTF-8.
    assert_eq!(value("#\u{e9}"), Ok(vec![35, 2, 0, 0, 0, 0xC3, 0xA9]));
}

#[test]
fn escapes_in_a_string_are_resolved() {
    assert_eq!(value("#a\\sb"), Ok(vec![35, 3, 0, 0, 0, b'a', b' ', b'b']));
    assert_eq!(value("#\\n\\t\\0\\\\"), Ok(vec![35, 4, 0, 0, 0, 10, 9, 0, 92]));
    assert_eq!(value("#\\x"), Ok(vec![35, 1, 0, 0, 0, b'x']));
    assert_eq!(value("#a\\"), Err(AssembleError::Syntax));
}

#[test]
fn float_takes_the_image_it_is_given() {
    let mut out = Output::new();
    let mut scope = numeric();
    let image = 2.25f64.to_bits();
    assert_eq!(push_val(&mut out, "2.25", Some(image), &mut scope, "main"), Ok(9));
    let mut expected = vec![0x66];
    expected.extend(2.25f64.to_le_bytes());
    assert_eq!(out.into_vec(), expected);
}

#[test]
fn empty_token_is_refused() {
    assert_eq!(value(""), Err(AssembleError::Syntax));
}

#[test]
fn primitive_refuses_a_string() {
    let mut out = Output::new();
    let mut scope = numeric();
    assert_eq!(
        push_prim_val(&mut out, "#text", None, &mut scope, "main"),
        Err(AssembleError::TypeConstraint)
    );
    assert_eq!(push_prim_val(&mut out, "true", None, &mut scope, "main"), Ok(1));
    assert_eq!(push_prim_val(&mut out, "7", None, &mut scope, "main"), Ok(9));
    assert_eq!(out.len(), 10);
}

#[test]
fn number_refuses_a_string_and_a_boolean() {
    let mut out = Output::new();
    let mut scope = numeric();
    assert_eq!(
        push_num_val(&mut out, "#text", None, &mut scope, "main"),
        Err(AssembleError::TypeConstraint)
    );
    assert_eq!(
        push_num_val(&mut out, "true", None, &mut scope, "main"),
        Err(AssembleError::TypeConstraint)
    );
    assert_eq!(
        push_num_val(&mut out, "false", None, &mut scope, "main"),
        Err(AssembleError::TypeConstraint)
    );
    assert_eq!(push_num_val(&mut out, "null", None, &mut scope, "main"), Ok(1));
    assert_eq!(push_num_val(&mut out, "$1", None, &mut scope, "main"), Ok(5));
    assert_eq!(out.into_vec(), vec![110, 36, 1, 0, 0, 0]);
}

#[test]
fn text_takes_strings_variables_arguments_and_null() {
    let mut out = Output::new();
    let mut scope = numeric();
    assert_eq!(push_str_var(&mut out, "#ok", &mut scope, "main"), Ok(7));
    assert_eq!(push_str_var(&mut out, "$2", &mut scope, "main"), Ok(5));
    assert_eq!(push_str_var(&mut out, "%1", &mut scope, "main"), Ok(4));
    assert_eq!(push_str_var(&mut out, "null", &mut scope, "main"), Ok(1));
    assert_eq!(
        push_str_var(&mut out, "5", &mut scope, "main"),
        Err(AssembleError::TypeConstraint)
    );
    assert_eq!(
        push_str_var(&mut out, "'a'", &mut scope, "main"),
        Err(AssembleError::TypeConstraint)
    );
    assert_eq!(
        push_str_var(&mut out, "true", &mut scope, "main"),
        Err(AssembleError::TypeConstraint)
    );
    assert_eq!(out.len(), 17);
}

#[test]
fn scope_gives_globals_their_sorted_place() {
    let mut scope = named(&["alpha", "beta", "zeta"]);
    assert_eq!(scope.global_count(), 3);
    assert!(scope.is_named());
    assert_eq!(scope.resolve(&to_chars("f"), &to_chars("zeta")), Ok(2));
    assert_eq!(scope.resolve(&to_chars("g"), &to_chars("zeta")), Ok(2));
    assert_eq!(scope.resolve(&to_chars("g"), &to_chars("alpha")), Ok(0));
    assert_eq!(scope.resolve(&to_chars("g"), &to_chars("beta")), Ok(1));
}

#[test]
fn scope_gives_locals_slots_behind_the_globals() {
    let mut scope = named(&["alpha", "beta"]);
    assert_eq!(scope.resolve(&to_chars("f"), &to_chars("x")), Ok(2));
    assert_eq!(scope.resolve(&to_chars("g"), &to_chars("x")), Ok(3));
    assert_eq!(scope.resolve(&to_chars("f"), &to_chars("y")), Ok(4));
    assert_eq!(scope.resolve(&to_chars("f"), &to_chars("x")), Ok(2));
    assert_eq!(scope.resolve(&to_chars("g"), &to_chars("x")), Ok(3));
    assert_eq!(scope.resolve(&to_chars("g"), &to_chars("alpha")), Ok(0));
}

#[test]
fn numeric_scope_reads_the_slot() {
    let mut scope = numeric();
    assert_eq!(scope.resolve(&to_chars("f"), &to_chars("12")), Ok(12));
    assert_eq!(scope.resolve(&to_chars("f"), &to_chars("+12")), Ok(12));
    assert_eq!(scope.resolve(&to_chars("f"), &to_chars("x")), Err(AssembleError::Syntax));
    assert_eq!(scope.resolve(&to_chars("f"), &to_chars("")), Err(AssembleError::Syntax));
    assert_eq!(scope.resolve(&to_chars("f"), &to_chars("-1")), Err(AssembleError::Syntax));
}

#[test]
fn table_keeps_what_was_entered() {
    let mut table = SymbolTable::new();
    assert_eq!(table.get("a"), None);
    table.insert("a".to_string(), 7);
    table.insert("b".to_string(), 9);
    assert_eq!(table.get("a"), Some(7));
    assert_eq!(table.get("b"), Some(9));
    table.insert("a".to_string(), 1);
    assert_eq!(table.get("a"), Some(1));
    assert_eq!(table.find(&to_chars("b")), Some(9));
    table.enter(&to_chars("c"), 3);
    assert_eq!(table.get("c"), Some(3));
}

#[test]
fn output_appends_and_patches() {
    let mut out = Output::new();
    out.put_u8(0xAA);
    out.put_u16(0x0102);
    out.put_u32(0x03040506);
    out.put_u64(0x0708090A0B0C0D0E);
    out.put_i64(-2);
    out.put_string("z\u{e9}");
    assert_eq!(out.len(), 1 + 2 + 4 + 8 + 8 + 4 + 3);
    out.patch_u32(1, 0xFFEEDDCC);
    out.put_u8(0xBB);
    let bytes = out.into_vec();
    let mut expected = vec![0xAA, 0xCC, 0xDD, 0xEE, 0xFF, 0x04, 0x03];
    expected.extend([0x0E, 0x0D, 0x0C, 0x0B, 0x0A, 0x09, 0x08, 0x07]);
    expected.extend([0xFE, 0xFF, 0xFF, 0xFF, 0xFF, 0xFF, 0xFF, 0xFF]);
    expected.extend([3, 0, 0, 0, b'z', 0xC3, 0xA9]);
    expected.push(0xBB);
    assert_eq!(bytes, expected);
}

#[test]
fn words_are_split_at_any_white_space() {
    let tokens = tokenize(&to_chars("  a\tbc\n\u{a0}d\u{3000}e  "));
    let words: Vec<String> = tokens.iter().map(to_text).collect();
    assert_eq!(words, vec!["a", "bc", "d", "e"]);
    assert!(tokenize(&to_chars("   ")).is_empty());
    assert!(tokenize(&to_chars("")).is_empty());
}

#[test]
fn numbers_are_read_as_the_standard_library_reads_them() {
    for text in ["0", "7", "+7", "007", "65535", "65536", "4294967295", "4294967296", "", "+", "-", "-0", "1_0", " 1", "٣"] {
        let chars = to_chars(text);
        assert_eq!(read_u16(&chars), text.parse::<u16>().ok(), "{:?}", text);
        assert_eq!(read_u32(&chars), text.parse::<u32>().ok(), "{:?}", text);
        assert_eq!(read_i64(&chars), text.parse::<i64>().ok(), "{:?}", text);
    }
    for text in ["-5", "+-5", "9223372036854775807", "-9223372036854775808", "-9223372036854775809", "99999999999999999999999999"] {
        let chars = to_chars(text);
        assert_eq!(read_i64(&chars), text.parse::<i64>().ok(), "{:?}", text);
        assert_eq!(read_u32(&chars), text.parse::<u32>().ok(), "{:?}", text);
    }
}
