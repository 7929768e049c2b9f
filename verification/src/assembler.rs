//! The assembler of the legacy format: a header of four bytes, no
//! directives, and every builtin of the registry callable.

use crate::assembly::starts_named;
use crate::consts::{builtin_id, builtin_of, Format};
use crate::error::AssembleError;
use crate::link::link;
use crate::machine::{jump_slot, Machine, Setup};
use crate::pass::{jump_target, Assembler};
use crate::table::SymbolTable;
use crate::text::{is_space, is_whitespace, texts, to_chars, to_text, tokenize, words};
use vstd::prelude::*;

verus! {

/// A text without the separators at its start.
pub open spec fn trim_start(s: Seq<char>) -> Seq<char>
    decreases s.len(),
{
    if s.len() > 0 && is_space(s[0]) {
        trim_start(s.skip(1))
    } else {
        s
    }
}

/// A text without the separators at its end.
pub open spec fn trim_end(s: Seq<char>) -> Seq<char>
    decreases s.len(),
{
    if s.len() > 0 && is_space(s.last()) {
        trim_end(s.drop_last())
    } else {
        s
    }
}

/// A text without the separators at its start and at its end.
pub open spec fn trimmed(s: Seq<char>) -> Seq<char> {
    trim_end(trim_start(s))
}

pub fn trim(s: &Vec<char>) -> (out: Vec<char>)
    ensures
        out@ == trimmed(s@),
{
    let mut from: usize = 0;
    assert(s@.skip(0) == s@);
    while from < s.len() && is_whitespace(s[from])
        invariant
            from <= s.len(),
            trim_start(s@) == trim_start(s@.skip(from as int)),
        decreases s.len() - from,
    {
        assert(s@.skip(from as int).skip(1) == s@.skip(from + 1));
        from += 1;
    }
    let mut to: usize = s.len();
    let ghost rest = s@.skip(from as int);
    assert(trim_start(s@) == rest);
    assert(rest == s@.subrange(from as int, to as int));
    while to > from && is_whitespace(s[to - 1])
        invariant
            from <= to <= s.len(),
            trim_end(rest) == trim_end(s@.subrange(from as int, to as int)),
        decreases to,
    {
        assert(s@.subrange(from as int, to as int).drop_last() == s@.subrange(
            from as int,
            to - 1,
        ));
        to -= 1;
    }
    let mut out: Vec<char> = Vec::new();
    let mut i: usize = from;
    while i < to
        invariant
            from <= i <= to <= s.len(),
            out@ == s@.subrange(from as int, i as int),
        decreases to - i,
    {
        out.push(s[i]);
        i += 1;
        assert(out@ == s@.subrange(from as int, i as int));
    }
    out
}

/// A source with its quotes taken off, as `remove_quotes` of mvutils takes
/// them off: the double quotes go, and a blank inside a quoted part becomes
/// `\s`, so that a quoted string stays one token.
pub uninterp spec fn unquoted(input: Seq<char>) -> Seq<char>;

/// `remove_quotes` of mvutils. What it returns depends on the text alone
/// and goes by the name `unquoted`; nothing more is claimed of it.
#[verifier::external_body]
fn remove_quotes(input: &str) -> (output: String)
    ensures
        output@ == unquoted(input@),
{
    mvutils::utils::remove_quotes(input)
}

/// The machine after the main pass over a source without quotes around it.
/// `named` turns named mode on for a source that does not ask for it
/// itself; `floats` holds, for each token that writes a floating-point
/// number, its binary64 image at the token's position.
pub open spec fn passed(text: Seq<char>, named: bool, floats: Seq<Option<u64>>) -> Result<
    Machine,
    AssembleError,
> {
    Machine::initial(Format::Legacy, named || starts_named(text), Seq::empty()).run(
        Setup { format: Format::Legacy, usages: Seq::empty() },
        words(text),
        floats,
        if starts_named(text) {
            1
        } else {
            0
        },
    )
}

/// The module that a source without quotes around it assembles to.
pub open spec fn assembled_source(text: Seq<char>, named: bool, floats: Seq<Option<u64>>) -> Result<
    Seq<u8>,
    AssembleError,
> {
    match passed(text, named, floats) {
        Err(e) => Err(e),
        Ok(m) => link(m),
    }
}

/// The module that a source assembles to: the separators around it and its
/// quotes are taken off first.
pub open spec fn assembled(input: Seq<char>, named: bool, floats: Seq<Option<u64>>) -> Result<
    Seq<u8>,
    AssembleError,
> {
    assembled_source(unquoted(trimmed(input)), named, floats)
}

/// Assembles a source that has no quotes around it into a module of the
/// legacy format.
pub fn assemble_source(text: &str, named: bool, floats: &Vec<Option<u64>>) -> (module: Result<
    Vec<u8>,
    AssembleError,
>)
    ensures
        match module {
            Ok(bytes) => assembled_source(text@, named, floats@) == Ok::<Seq<u8>, AssembleError>(
                bytes@,
            ),
            Err(e) => assembled_source(text@, named, floats@) == Err::<Seq<u8>, AssembleError>(e),
        },
{
    let chars = to_chars(text);
    let tokens = tokenize(&chars);
    let asks = crate::assembly::is_named_source(&chars);
    let globals: Vec<Vec<char>> = Vec::new();
    let usages: Vec<Vec<char>> = Vec::new();
    assert(texts(globals@) =~= Seq::<Seq<char>>::empty());
    assert(texts(usages@) =~= Seq::<Seq<char>>::empty());
    let mut assembler = match Assembler::new(Format::Legacy, named || asks, globals, usages) {
        Ok(assembler) => assembler,
        Err(e) => {
            return Err(e);
        },
    };
    let from: usize = if asks {
        1
    } else {
        0
    };
    match assembler.run(&tokens, floats, from) {
        Ok(_) => assembler.finish(),
        Err(e) => Err(e),
    }
}

/// The source as the assembler reads it: without the separators and the
/// quotes around it.
pub fn source_text(input: &str) -> (text: String)
    ensures
        text@ == unquoted(trimmed(input@)),
{
    let chars = to_chars(input);
    let inner = trim(&chars);
    let plain = to_text(&inner);
    remove_quotes(plain.as_str())
}

/// Assembles a source into a module of the legacy format: a header of four
/// bytes and the code. The separators and the quotes around the source are
/// taken off first.
///
/// `named` turns named mode on; a source that begins with `.named` turns it
/// on for itself. `floats` holds at the position of each token of
/// `source_text(input)` that writes a floating-point number the binary64
/// image of that number; a token whose image is missing is refused.
pub fn assemble(input: String, named: bool, floats: &Vec<Option<u64>>) -> (module: Result<
    Vec<u8>,
    AssembleError,
>)
    ensures
        match module {
            Ok(bytes) => assembled(input@, named, floats@) == Ok::<Seq<u8>, AssembleError>(bytes@),
            Err(e) => assembled(input@, named, floats@) == Err::<Seq<u8>, AssembleError>(e),
        },
{
    let text = source_text(input.as_str());
    assemble_source(text.as_str(), named, floats)
}

/// The label slot of a jump target: for `-n`, `+n` or `n` a new slot that
/// holds the instruction index counted from `index` or from the start, for
/// a label its slot, which is made, holding 0, where the label is new.
/// `calls` holds the slots.
pub fn jump(token: &str, index: u32, labels: &mut SymbolTable, calls: &mut Vec<u32>) -> (slot: Result<
    u32,
    AssembleError,
>)
    ensures
        match slot {
            Ok(id) => jump_slot(token@, index, old(labels)@, old(calls)@) == Ok::<
                _,
                AssembleError,
            >((id, final(labels)@, final(calls)@)),
            Err(e) => jump_slot(token@, index, old(labels)@, old(calls)@) == Err::<
                (u32, Map<Seq<char>, u32>, Seq<u32>),
                _,
            >(e) && final(labels)@ == old(labels)@ && final(calls)@ == old(calls)@,
        },
{
    let chars = to_chars(token);
    jump_target(&chars, index, labels, calls)
}

/// The id of a builtin, given its name in upper case; 0 for a name that the
/// registry does not hold.
pub fn builtin(name: &str) -> (id: u32)
    ensures
        id == builtin_id(name@),
{
    let chars = to_chars(name);
    builtin_of(&chars)
}

} // verus!
