//! The numbers of the module format: opcodes, operand tags and builtin ids.

use crate::text::is_word;
use vstd::prelude::*;

verus! {

pub const NOOP: u8 = 0;

pub const END: u8 = 1;

pub const MOV: u8 = 2;

pub const JMP: u8 = 3;

pub const JZ: u8 = 4;

pub const JNZ: u8 = 5;

pub const JN: u8 = 6;

pub const JNN: u8 = 7;

pub const CMP: u8 = 8;

pub const JE: u8 = 9;

pub const JNE: u8 = 10;

pub const JG: u8 = 11;

pub const JGE: u8 = 12;

pub const JL: u8 = 13;

pub const JLE: u8 = 14;

pub const CALL: u8 = 15;

pub const RET: u8 = 16;

pub const INC: u8 = 17;

pub const DEC: u8 = 18;

pub const ADD: u8 = 19;

pub const SUB: u8 = 20;

pub const MUL: u8 = 21;

pub const DIV: u8 = 22;

pub const MOD: u8 = 23;

pub const AND: u8 = 24;

pub const OR: u8 = 25;

pub const NOT: u8 = 26;

pub const NEG: u8 = 27;

pub const XOR: u8 = 28;

pub const SHL: u8 = 29;

pub const SHR: u8 = 30;

pub const SAR: u8 = 31;

pub const PUSH: u8 = 32;

pub const POP: u8 = 33;

pub const PRINT: u8 = 34;

pub const SH: u8 = 35;

pub const PUSH_RET: u8 = 36;

pub const POP_RET: u8 = 37;

pub const CPY: u8 = 38;

/// Operand tags. Those of strings, variables, references, dereferences and
/// arguments are the codes of the characters that mark them in a source.
pub const BUILTIN: u8 = 64;

pub const LITERAL: u8 = 35;

pub const ARGUMENT: u8 = 37;

pub const VARIABLE: u8 = 36;

pub const REFERENCE: u8 = 38;

pub const DEREF: u8 = 42;

pub const INTEGER: u8 = 105;

pub const FLOAT: u8 = 102;

pub const CHAR: u8 = 99;

pub const NULL: u8 = 110;

pub const BOOLEAN_TRUE: u8 = 1;

pub const BOOLEAN_FALSE: u8 = 0;

pub const BUILTIN_UNKNOWN: u32 = 0;

pub const BUILTIN_GIT_ADD_ALL: u32 = 128;

pub const BUILTIN_GIT_ADD: u32 = 129;

pub const BUILTIN_GIT_COMMIT_DEFAULT: u32 = 130;

pub const BUILTIN_GIT_COMMIT: u32 = 131;

pub const BUILTIN_GIT_PUSH_UPSTREAM: u32 = 132;

pub const BUILTIN_GIT_PUSH: u32 = 133;

/// The two layouts of a module.
#[derive(Clone, Copy, Debug, PartialEq, Eq, Structural)]
pub enum Format {
    /// A header of four bytes: the entry offset.
    Legacy,
    /// A header of twelve bytes: the entry offset, the offset of the address
    /// table and the number of globals.
    Extended,
}

impl Format {
    pub open spec fn header_len(self) -> nat {
        match self {
            Format::Legacy => 4,
            Format::Extended => 12,
        }
    }
}

/// The id of a builtin, given its name in upper case; 0 for any other name.
pub open spec fn builtin_id(name: Seq<char>) -> u32 {
    if name == "GIT_ADD_ALL"@ {
        BUILTIN_GIT_ADD_ALL
    } else if name == "GIT_ADD"@ {
        BUILTIN_GIT_ADD
    } else if name == "GIT_COMMIT_DEFAULT"@ {
        BUILTIN_GIT_COMMIT_DEFAULT
    } else if name == "GIT_COMMIT"@ {
        BUILTIN_GIT_COMMIT
    } else if name == "GIT_PUSH_UPSTREAM"@ {
        BUILTIN_GIT_PUSH_UPSTREAM
    } else if name == "GIT_PUSH"@ {
        BUILTIN_GIT_PUSH
    } else {
        BUILTIN_UNKNOWN
    }
}

/// Whether the registry holds a builtin of this name.
pub open spec fn is_builtin(name: Seq<char>) -> bool {
    builtin_id(name) != BUILTIN_UNKNOWN
}

pub fn builtin_of(name: &Vec<char>) -> (id: u32)
    ensures
        id == builtin_id(name@),
{
    if is_word(name, "GIT_ADD_ALL") {
        BUILTIN_GIT_ADD_ALL
    } else if is_word(name, "GIT_ADD") {
        BUILTIN_GIT_ADD
    } else if is_word(name, "GIT_COMMIT_DEFAULT") {
        BUILTIN_GIT_COMMIT_DEFAULT
    } else if is_word(name, "GIT_COMMIT") {
        BUILTIN_GIT_COMMIT
    } else if is_word(name, "GIT_PUSH_UPSTREAM") {
        BUILTIN_GIT_PUSH_UPSTREAM
    } else if is_word(name, "GIT_PUSH") {
        BUILTIN_GIT_PUSH
    } else {
        BUILTIN_UNKNOWN
    }
}

/// The kinds of operand position that an instruction can have.
#[derive(Clone, Copy, Debug, PartialEq, Eq, Structural)]
pub enum Slot {
    /// The variable that the instruction writes to.
    Target,
    /// Any value.
    Value,
    /// Any value but a string.
    Primitive,
    /// Any value but a string or a boolean.
    Number,
    /// A string, a variable or an argument.
    Text,
    /// Where a jump goes.
    Jump,
    /// What a call calls.
    Callee,
}

/// The opcode of a mnemonic, given in upper case. The legacy format lacks
/// three of the conditional jumps.
pub open spec fn opcode_of(format: Format, mnemonic: Seq<char>) -> Option<u8> {
    if mnemonic == "NOP"@ {
        Some(NOOP)
    } else if mnemonic == "END"@ {
        Some(END)
    } else if mnemonic == "MOV"@ {
        Some(MOV)
    } else if mnemonic == "JMP"@ {
        Some(JMP)
    } else if mnemonic == "JZ"@ {
        Some(JZ)
    } else if format == Format::Extended && mnemonic == "JNZ"@ {
        Some(JNZ)
    } else if format == Format::Extended && mnemonic == "JN"@ {
        Some(JN)
    } else if format == Format::Extended && mnemonic == "JNN"@ {
        Some(JNN)
    } else if mnemonic == "CMP"@ {
        Some(CMP)
    } else if mnemonic == "JE"@ {
        Some(JE)
    } else if mnemonic == "JNE"@ {
        Some(JNE)
    } else if mnemonic == "JG"@ {
        Some(JG)
    } else if mnemonic == "JGE"@ {
        Some(JGE)
    } else if mnemonic == "JL"@ {
        Some(JL)
    } else if mnemonic == "JLE"@ {
        Some(JLE)
    } else if mnemonic == "CALL"@ {
        Some(CALL)
    } else if mnemonic == "RET"@ {
        Some(RET)
    } else if mnemonic == "INC"@ {
        Some(INC)
    } else if mnemonic == "DEC"@ {
        Some(DEC)
    } else if mnemonic == "ADD"@ {
        Some(ADD)
    } else if mnemonic == "SUB"@ {
        Some(SUB)
    } else if mnemonic == "MUL"@ {
        Some(MUL)
    } else if mnemonic == "DIV"@ {
        Some(DIV)
    } else if mnemonic == "MOD"@ {
        Some(MOD)
    } else if mnemonic == "AND"@ {
        Some(AND)
    } else if mnemonic == "OR"@ {
        Some(OR)
    } else if mnemonic == "NOT"@ {
        Some(NOT)
    } else if mnemonic == "NEG"@ {
        Some(NEG)
    } else if mnemonic == "XOR"@ {
        Some(XOR)
    } else if mnemonic == "SHL"@ {
        Some(SHL)
    } else if mnemonic == "SHR"@ {
        Some(SHR)
    } else if mnemonic == "SAR"@ {
        Some(SAR)
    } else if mnemonic == "PUSH"@ {
        Some(PUSH)
    } else if mnemonic == "POP"@ {
        Some(POP)
    } else if mnemonic == "PRINT"@ {
        Some(PRINT)
    } else if mnemonic == "SH"@ {
        Some(SH)
    } else if mnemonic == "PUSH_RET"@ {
        Some(PUSH_RET)
    } else if mnemonic == "POP_RET"@ {
        Some(POP_RET)
    } else if mnemonic == "CPY"@ {
        Some(CPY)
    } else {
        None
    }
}

pub fn opcode(format: Format, mnemonic: &Vec<char>) -> (code: Option<u8>)
    ensures
        code == opcode_of(format, mnemonic@),
{
    if is_word(mnemonic, "NOP") {
        Some(NOOP)
    } else if is_word(mnemonic, "END") {
        Some(END)
    } else if is_word(mnemonic, "MOV") {
        Some(MOV)
    } else if is_word(mnemonic, "JMP") {
        Some(JMP)
    } else if is_word(mnemonic, "JZ") {
        Some(JZ)
    } else if format == Format::Extended && is_word(mnemonic, "JNZ") {
        Some(JNZ)
    } else if format == Format::Extended && is_word(mnemonic, "JN") {
        Some(JN)
    } else if format == Format::Extended && is_word(mnemonic, "JNN") {
        Some(JNN)
    } else if is_word(mnemonic, "CMP") {
        Some(CMP)
    } else if is_word(mnemonic, "JE") {
        Some(JE)
    } else if is_word(mnemonic, "JNE") {
        Some(JNE)
    } else if is_word(mnemonic, "JG") {
        Some(JG)
    } else if is_word(mnemonic, "JGE") {
        Some(JGE)
    } else if is_word(mnemonic, "JL") {
        Some(JL)
    } else if is_word(mnemonic, "JLE") {
        Some(JLE)
    } else if is_word(mnemonic, "CALL") {
        Some(CALL)
    } else if is_word(mnemonic, "RET") {
        Some(RET)
    } else if is_word(mnemonic, "INC") {
        Some(INC)
    } else if is_word(mnemonic, "DEC") {
        Some(DEC)
    } else if is_word(mnemonic, "ADD") {
        Some(ADD)
    } else if is_word(mnemonic, "SUB") {
        Some(SUB)
    } else if is_word(mnemonic, "MUL") {
        Some(MUL)
    } else if is_word(mnemonic, "DIV") {
        Some(DIV)
    } else if is_word(mnemonic, "MOD") {
        Some(MOD)
    } else if is_word(mnemonic, "AND") {
        Some(AND)
    } else if is_word(mnemonic, "OR") {
        Some(OR)
    } else if is_word(mnemonic, "NOT") {
        Some(NOT)
    } else if is_word(mnemonic, "NEG") {
        Some(NEG)
    } else if is_word(mnemonic, "XOR") {
        Some(XOR)
    } else if is_word(mnemonic, "SHL") {
        Some(SHL)
    } else if is_word(mnemonic, "SHR") {
        Some(SHR)
    } else if is_word(mnemonic, "SAR") {
        Some(SAR)
    } else if is_word(mnemonic, "PUSH") {
        Some(PUSH)
    } else if is_word(mnemonic, "POP") {
        Some(POP)
    } else if is_word(mnemonic, "PRINT") {
        Some(PRINT)
    } else if is_word(mnemonic, "SH") {
        Some(SH)
    } else if is_word(mnemonic, "PUSH_RET") {
        Some(PUSH_RET)
    } else if is_word(mnemonic, "POP_RET") {
        Some(POP_RET)
    } else if is_word(mnemonic, "CPY") {
        Some(CPY)
    } else {
        None
    }
}

/// The first operand position of an instruction, if it has one.
pub open spec fn first_slot(code: u8) -> Option<Slot> {
    if code == MOV || code == INC || code == DEC || code == ADD || code == SUB || code == MUL || code == DIV || code == MOD || code == AND || code == OR || code == NOT || code == NEG || code == XOR || code == SHL || code == SHR || code == SAR || code == POP || code == POP_RET || code == CPY {
        Some(Slot::Target)
    } else if code == JMP || code == JE || code == JNE || code == JG || code == JGE || code == JL || code == JLE {
        Some(Slot::Jump)
    } else if code == JZ || code == JNZ || code == JN || code == JNN || code == CMP || code == PUSH || code == PUSH_RET {
        Some(Slot::Value)
    } else if code == CALL {
        Some(Slot::Callee)
    } else if code == PRINT || code == SH {
        Some(Slot::Text)
    } else {
        None
    }
}

pub fn first_operand(code: u8) -> (slot: Option<Slot>)
    ensures
        slot == first_slot(code),
{
    if code == MOV || code == INC || code == DEC || code == ADD || code == SUB || code == MUL || code == DIV || code == MOD || code == AND || code == OR || code == NOT || code == NEG || code == XOR || code == SHL || code == SHR || code == SAR || code == POP || code == POP_RET || code == CPY {
        Some(Slot::Target)
    } else if code == JMP || code == JE || code == JNE || code == JG || code == JGE || code == JL || code == JLE {
        Some(Slot::Jump)
    } else if code == JZ || code == JNZ || code == JN || code == JNN || code == CMP || code == PUSH || code == PUSH_RET {
        Some(Slot::Value)
    } else if code == CALL {
        Some(Slot::Callee)
    } else if code == PRINT || code == SH {
        Some(Slot::Text)
    } else {
        None
    }
}

/// The second operand position of an instruction, if it has one.
pub open spec fn second_slot(code: u8) -> Option<Slot> {
    if code == MOV || code == CMP || code == CPY {
        Some(Slot::Value)
    } else if code == JZ || code == JNZ || code == JN || code == JNN {
        Some(Slot::Jump)
    } else if code == ADD || code == SUB || code == MUL || code == DIV || code == MOD || code == SHL || code == SHR || code == SAR {
        Some(Slot::Number)
    } else if code == AND || code == OR || code == XOR {
        Some(Slot::Primitive)
    } else {
        None
    }
}

pub fn second_operand(code: u8) -> (slot: Option<Slot>)
    ensures
        slot == second_slot(code),
{
    if code == MOV || code == CMP || code == CPY {
        Some(Slot::Value)
    } else if code == JZ || code == JNZ || code == JN || code == JNN {
        Some(Slot::Jump)
    } else if code == ADD || code == SUB || code == MUL || code == DIV || code == MOD || code == SHL || code == SHR || code == SAR {
        Some(Slot::Number)
    } else if code == AND || code == OR || code == XOR {
        Some(Slot::Primitive)
    } else {
        None
    }
}

/// Whether an instruction ends the function that it stands in.
pub open spec fn ends_function(code: u8) -> bool {
    code == END || code == RET
}

} // verus!
