//! The last pass: the header is filled in, the address table is appended
//! where the module needs it, and every placeholder gets its address.

use crate::buffer::{le_bytes, lemma_le_bytes_len, overwrite};
use crate::consts::{ends_function, first_slot, opcode_of, second_slot, Format, Slot};
use crate::error::AssembleError;
use crate::machine::{is_directive, left, trailing, Machine, Reloc, Setup};
use crate::operand::lemma_encoding_len;
use crate::text::uppercase;
use vstd::prelude::*;

verus! {

/// `code` with the four bytes at `at` replaced by `value`.
pub open spec fn patched(code: Seq<u8>, at: int, value: u32) -> Seq<u8> {
    overwrite(code, at, le_bytes(value as nat, 4))
}

/// The address table of a module: the offset of each instruction, in four
/// bytes each.
pub open spec fn address_table(addresses: Seq<u32>) -> Seq<u8>
    decreases addresses.len(),
{
    if addresses.len() == 0 {
        Seq::empty()
    } else {
        address_table(addresses.drop_last()) + le_bytes(addresses.last() as nat, 4)
    }
}

/// The offset of the function `main`, if the source defines it.
pub open spec fn entry_of(m: Machine) -> Option<u32> {
    let main = "main"@;
    if m.idents.contains_key(main) && m.idents[main] < m.functions.len()
        && m.functions[m.idents[main] as int] != 0 {
        Some(m.functions[m.idents[main] as int])
    } else {
        None
    }
}

/// The offset of the instruction that a label slot points to.
pub open spec fn jump_address(m: Machine, slot: u32) -> Option<u32> {
    if slot < m.slots.len() && m.slots[slot as int] < m.addresses.len() {
        Some(m.addresses[m.slots[slot as int] as int])
    } else {
        None
    }
}

/// The offset of the function with the given id. An id outside the
/// function table is refused, and so is one whose function the source never
/// defines: the table holds 0 for it, where no function can begin.
pub open spec fn call_address(m: Machine, id: u32) -> Result<u32, AssembleError> {
    if id >= m.functions.len() {
        Err(AssembleError::UnresolvedAddress)
    } else if m.functions[id as int] == 0 {
        Err(AssembleError::UnresolvedSymbol)
    } else {
        Ok(m.functions[id as int])
    }
}

/// The code with its header filled in: the offset of `main` at 0 and, where
/// the module needs its address table, the offset of the table at 4 and the
/// table at the end.
pub open spec fn headed(m: Machine) -> Result<Seq<u8>, AssembleError> {
    match entry_of(m) {
        None => Err(AssembleError::MissingEntryPoint),
        Some(entry) => if !m.table {
            Ok(patched(m.code, 0, entry))
        } else if m.code.len() > u32::MAX {
            Err(AssembleError::TooLarge)
        } else {
            Ok(
                patched(patched(m.code, 0, entry), 4, m.code.len() as u32) + address_table(
                    m.addresses,
                ),
            )
        },
    }
}

/// `code` with the first `count` jump placeholders filled in.
pub open spec fn resolved_jumps(code: Seq<u8>, m: Machine, count: nat) -> Result<
    Seq<u8>,
    AssembleError,
>
    decreases count,
{
    if count == 0 {
        Ok(code)
    } else {
        match resolved_jumps(code, m, (count - 1) as nat) {
            Err(e) => Err(e),
            Ok(done) => match jump_address(m, m.jumps[count - 1].id) {
                None => Err(AssembleError::UnresolvedAddress),
                Some(address) => Ok(patched(done, m.jumps[count - 1].at as int, address)),
            },
        }
    }
}

/// `code` with the first `count` call placeholders filled in.
pub open spec fn resolved_calls(code: Seq<u8>, m: Machine, count: nat) -> Result<
    Seq<u8>,
    AssembleError,
>
    decreases count,
{
    if count == 0 {
        Ok(code)
    } else {
        match resolved_calls(code, m, (count - 1) as nat) {
            Err(e) => Err(e),
            Ok(done) => match call_address(m, m.calls[count - 1].id) {
                Err(e) => Err(e),
                Ok(address) => Ok(patched(done, m.calls[count - 1].at as int, address)),
            },
        }
    }
}

/// The module that a machine stands for when the whole source has been read.
pub open spec fn link(m: Machine) -> Result<Seq<u8>, AssembleError> {
    match headed(m) {
        Err(e) => Err(e),
        Ok(code) => match resolved_jumps(code, m, m.jumps.len()) {
            Err(e) => Err(e),
            Ok(jumped) => resolved_calls(jumped, m, m.calls.len()),
        },
    }
}

/// Whether two placeholders keep clear of each other.
pub open spec fn apart(a: Reloc, b: Reloc) -> bool {
    a.at + 4 <= b.at || b.at + 4 <= a.at
}

/// Whether a placeholder lies in the code, behind the header.
pub open spec fn placed(r: Reloc, format: Format, code: Seq<u8>) -> bool {
    format.header_len() <= r.at && r.at + 4 <= code.len()
}

/// What the main pass keeps true of the code and its placeholders: the
/// header is there, only the extended format asks for an address table,
/// and the placeholders lie in the code, behind the header and clear of
/// each other.
pub open spec fn sound(m: Machine, format: Format) -> bool {
    &&& m.code.len() >= format.header_len()
    &&& m.table ==> format == Format::Extended
    &&& forall|i: int| 0 <= i < m.jumps.len() ==> placed(#[trigger] m.jumps[i], format, m.code)
    &&& forall|i: int| 0 <= i < m.calls.len() ==> placed(#[trigger] m.calls[i], format, m.code)
    &&& forall|i: int, j: int|
        0 <= i < j < m.jumps.len() ==> apart(#[trigger] m.jumps[i], #[trigger] m.jumps[j])
    &&& forall|i: int, j: int|
        0 <= i < j < m.calls.len() ==> apart(#[trigger] m.calls[i], #[trigger] m.calls[j])
    &&& forall|i: int, j: int|
        0 <= i < m.jumps.len() && 0 <= j < m.calls.len() ==> apart(
            #[trigger] m.jumps[i],
            #[trigger] m.calls[j],
        )
}

pub proof fn lemma_patched(code: Seq<u8>, at: int, value: u32)
    requires
        0 <= at,
        at + 4 <= code.len(),
    ensures
        patched(code, at, value).len() == code.len(),
        patched(code, at, value).subrange(at, at + 4) == le_bytes(value as nat, 4),
        forall|i: int|
            0 <= i < code.len() && (i < at || at + 4 <= i) ==> #[trigger] patched(
                code,
                at,
                value,
            )[i] == code[i],
{
    lemma_le_bytes_len(value as nat, 4);
    assert(patched(code, at, value).subrange(at, at + 4) =~= le_bytes(value as nat, 4));
}

/// An operand keeps the code and its placeholders sound.
pub proof fn lemma_operand_sound(
    m: Machine,
    setup: Setup,
    slot: Slot,
    tokens: Seq<Seq<char>>,
    floats: Seq<Option<u64>>,
    pos: int,
)
    requires
        sound(m, setup.format),
        m.put_operand(setup, slot, tokens, floats, pos) is Ok,
    ensures
        sound(m.put_operand(setup, slot, tokens, floats, pos)->Ok_0, setup.format),
{
    let after = m.put_operand(setup, slot, tokens, floats, pos)->Ok_0;
    let format = setup.format;
    lemma_le_bytes_len(after.jumps.last().id as nat, 4);
    lemma_le_bytes_len(after.calls.last().id as nat, 4);
    assert(after.code.len() >= m.code.len());
    assert forall|i: int| 0 <= i < after.jumps.len() implies placed(
        #[trigger] after.jumps[i],
        format,
        after.code,
    ) by {
        if i < m.jumps.len() {
            assert(placed(m.jumps[i], format, m.code));
        }
    }
    assert forall|i: int| 0 <= i < after.calls.len() implies placed(
        #[trigger] after.calls[i],
        format,
        after.code,
    ) by {
        if i < m.calls.len() {
            assert(placed(m.calls[i], format, m.code));
        }
    }
    assert forall|i: int, j: int| 0 <= i < j < after.jumps.len() implies apart(
        #[trigger] after.jumps[i],
        #[trigger] after.jumps[j],
    ) by {
        assert(placed(m.jumps[i], format, m.code));
    }
    assert forall|i: int, j: int| 0 <= i < j < after.calls.len() implies apart(
        #[trigger] after.calls[i],
        #[trigger] after.calls[j],
    ) by {
        assert(placed(m.calls[i], format, m.code));
    }
    assert forall|i: int, j: int|
        0 <= i < after.jumps.len() && 0 <= j < after.calls.len() implies apart(
        #[trigger] after.jumps[i],
        #[trigger] after.calls[j],
    ) by {
        if i < m.jumps.len() {
            assert(placed(m.jumps[i], format, m.code));
        }
        if j < m.calls.len() {
            assert(placed(m.calls[j], format, m.code));
        }
    }
}

/// A token keeps the code and its placeholders sound.
pub proof fn lemma_step_sound(
    m: Machine,
    setup: Setup,
    tokens: Seq<Seq<char>>,
    floats: Seq<Option<u64>>,
    pos: int,
)
    requires
        sound(m, setup.format),
        m.step(setup, tokens, floats, pos) is Ok,
    ensures
        sound(m.step(setup, tokens, floats, pos)->Ok_0, setup.format),
{
    reveal(Machine::step);
    reveal(Machine::instruction);
    let token = tokens[pos];
    let format = setup.format;
    if is_directive(format, token) {
    } else if token.len() > 0 && token[0] == '@' {
    } else if token.len() > 0 && token[0] == '.' {
    } else {
        let code = opcode_of(format, uppercase(token))->Some_0;
        let begun = Machine {
            addresses: m.addresses.push(m.code.len() as u32),
            code: m.code.push(code),
            returned: m.returned || ends_function(code),
            ..m
        };
        assert(sound(begun, format)) by {
            assert forall|i: int| 0 <= i < begun.jumps.len() implies placed(
                #[trigger] begun.jumps[i],
                format,
                begun.code,
            ) by {
                assert(placed(m.jumps[i], format, m.code));
            }
            assert forall|i: int| 0 <= i < begun.calls.len() implies placed(
                #[trigger] begun.calls[i],
                format,
                begun.code,
            ) by {
                assert(placed(m.calls[i], format, m.code));
            }
        }
        if first_slot(code) is Some {
            lemma_operand_sound(begun, setup, first_slot(code)->Some_0, tokens, floats, pos + 1);
            let half = begun.put_operand(setup, first_slot(code)->Some_0, tokens, floats, pos + 1)->Ok_0;
            if second_slot(code) is Some {
                lemma_operand_sound(half, setup, second_slot(code)->Some_0, tokens, floats, pos + 2);
            }
        }
    }
}

/// The main pass keeps the code and its placeholders sound.
pub proof fn lemma_run_sound(
    m: Machine,
    setup: Setup,
    tokens: Seq<Seq<char>>,
    floats: Seq<Option<u64>>,
    pos: int,
)
    requires
        sound(m, setup.format),
        m.run(setup, tokens, floats, pos) is Ok,
    ensures
        sound(m.run(setup, tokens, floats, pos)->Ok_0, setup.format),
    decreases left(tokens, pos),
{
    if 0 <= pos < tokens.len() {
        lemma_step_sound(m, setup, tokens, floats, pos);
        lemma_run_sound(
            m.step(setup, tokens, floats, pos)->Ok_0,
            setup,
            tokens,
            floats,
            pos + 1 + trailing(setup.format, tokens[pos]),
        );
    }
}

/// The machine before the first token is sound.
pub proof fn lemma_initial_sound(format: Format, named: bool, globals: Seq<Seq<char>>)
    ensures
        sound(Machine::initial(format, named, globals), format),
{
    lemma_le_bytes_len(0, 4);
    lemma_le_bytes_len(globals.len(), 4);
}

} // verus!
