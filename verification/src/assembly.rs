//! The assembler of the extended format: directives, globals, builtins in
//! use, and a header of twelve bytes.

use crate::consts::Format;
use crate::directives::{declared, lemma_sorted_names, scan, sorted_names, Declared};
use crate::error::AssembleError;
use crate::link::link;
use crate::machine::{jump_slot, Machine, Setup};
use crate::pass::{jump_target, Assembler};
use crate::table::SymbolTable;
use crate::text::{head, is_word, texts, to_chars, to_text, tokenize, words};
use vstd::prelude::*;

verus! {

/// Whether a source asks for named mode: it begins with `.named`.
pub open spec fn starts_named(input: Seq<char>) -> bool {
    input.len() >= 6 && input.take(6) == ".named"@
}

pub fn is_named_source(input: &Vec<char>) -> (named: bool)
    ensures
        named == starts_named(input@),
{
    if input.len() < 6 {
        return false;
    }
    let start = head(input, 6);
    is_word(&start, ".named")
}

/// The machine after the main pass over a source. `named` turns named mode
/// on for a source that does not ask for it itself; `floats` holds, for each
/// token that writes a floating-point number, its binary64 image at the
/// token's position.
pub open spec fn passed(input: Seq<char>, named: bool, floats: Seq<Option<u64>>) -> Result<
    Machine,
    AssembleError,
> {
    let tokens = words(input);
    match declared(tokens) {
        Err(e) => Err(e),
        Ok(found) => if sorted_names(found.globals).len() > u32::MAX {
            Err(AssembleError::TooLarge)
        } else {
            Machine::initial(
                Format::Extended,
                named || starts_named(input),
                sorted_names(found.globals),
            ).run(
                Setup { format: Format::Extended, usages: sorted_names(found.usages) },
                tokens,
                floats,
                if starts_named(input) {
                    1
                } else {
                    0
                },
            )
        },
    }
}

/// The module that a source assembles to.
pub open spec fn assembled(input: Seq<char>, named: bool, floats: Seq<Option<u64>>) -> Result<
    Seq<u8>,
    AssembleError,
> {
    match passed(input, named, floats) {
        Err(e) => Err(e),
        Ok(m) => link(m),
    }
}

/// Assembles a source into a module of the extended format: a header of
/// twelve bytes, the code, and the address table where a jump goes by a
/// variable.
///
/// `named` turns named mode on; a source that begins with `.named` turns it
/// on for itself. `floats` holds at the position of each token that writes a
/// floating-point number the binary64 image of that number; a token whose
/// image is missing is refused. The first failure ends the assembly.
pub fn assemble(input: String, named: bool, floats: &Vec<Option<u64>>) -> (module: Result<
    Vec<u8>,
    AssembleError,
>)
    ensures
        match module {
            Ok(bytes) => assembled(input@, named, floats@) == Ok::<Seq<u8>, AssembleError>(bytes@),
            Err(e) => assembled(input@, named, floats@) == Err::<Seq<u8>, AssembleError>(e),
        },
{
    let chars = to_chars(input.as_str());
    let tokens = tokenize(&chars);
    let found = match scan(&tokens) {
        Ok(found) => found,
        Err(e) => {
            return Err(e);
        },
    };
    proof {
        let all = declared(texts(tokens@))->Ok_0;
        lemma_sorted_names(texts(found.globals@), all.globals);
        lemma_sorted_names(texts(found.usages@), all.usages);
    }
    let asks = is_named_source(&chars);
    let mut assembler = match Assembler::new(
        Format::Extended,
        named || asks,
        found.globals,
        found.usages,
    ) {
        Ok(assembler) => assembler,
        Err(e) => {
            return Err(e);
        },
    };
    let from: usize = if asks {
        1
    } else {
        0
    };
    match assembler.run(&tokens, floats, from) {
        Ok(_) => assembler.finish(),
        Err(e) => Err(e),
    }
}

/// The label slot of a jump target: for `-n`, `+n` or `n` a new slot that
/// holds the instruction index counted from `index` or from the start, for
/// a label its slot, which is made, holding 0, where the label is new.
/// `calls` holds the slots.
pub fn jump(token: &str, index: u32, labels: &mut SymbolTable, calls: &mut Vec<u32>) -> (slot: Result<
    u32,
    AssembleError,
>)
    ensures
        match slot {
            Ok(id) => jump_slot(token@, index, old(labels)@, old(calls)@) == Ok::<
                _,
                AssembleError,
            >((id, final(labels)@, final(calls)@)),
            Err(e) => jump_slot(token@, index, old(labels)@, old(calls)@) == Err::<
                (u32, Map<Seq<char>, u32>, Seq<u32>),
                _,
            >(e) && final(labels)@ == old(labels)@ && final(calls)@ == old(calls)@,
        },
{
    let chars = to_chars(token);
    jump_target(&chars, index, labels, calls)
}

/// The character sequences that a vector of strings holds.
pub open spec fn strings(list: Seq<String>) -> Seq<Seq<char>> {
    Seq::new(list.len(), |i: int| list[i]@)
}

/// The directives of a source.
pub struct Directives {
    /// The global names in dictionary order; the place of a name is its
    /// slot.
    pub globals: Vec<String>,
    /// The builtins in use, in upper case and dictionary order, each once.
    pub usages: Vec<String>,
    /// The outside modules, in the order of the source.
    pub externs: Vec<String>,
    /// The labels, in the order of the source.
    pub labels: Vec<String>,
}

fn to_strings(list: &Vec<Vec<char>>) -> (out: Vec<String>)
    ensures
        strings(out@) == texts(list@),
{
    let mut out: Vec<String> = Vec::new();
    let mut i: usize = 0;
    while i < list.len()
        invariant
            i <= list.len(),
            out.len() == i,
            strings(out@) == texts(list@).take(i as int),
        decreases list.len() - i,
    {
        let ghost before = out@;
        let text = to_text(&list[i]);
        out.push(text);
        i += 1;
        assert forall|k: int| 0 <= k < i implies strings(out@)[k] == texts(list@).take(i as int)[k] by {
            if k < i - 1 {
                assert(strings(before)[k] == texts(list@).take(i - 1)[k]);
            }
        }
        assert(strings(out@) =~= texts(list@).take(i as int));
    }
    assert(texts(list@).take(i as int) == texts(list@));
    out
}

/// Reads the directives of a source: `.global`, `.use` and `.extern`, each
/// with the name behind it, and the labels. A global declared twice, a
/// builtin that the registry does not hold, a directive without its name
/// and a label that does not begin like a name are refused.
pub fn extract(s: &str) -> (r: Result<Directives, AssembleError>)
    ensures
        match r {
            Ok(found) => {
                let all = declared(words(s@));
                &&& all is Ok
                &&& strings(found.globals@) == sorted_names(all->Ok_0.globals)
                &&& strings(found.usages@) == sorted_names(all->Ok_0.usages)
                &&& strings(found.externs@) == all->Ok_0.externs
                &&& strings(found.labels@) == all->Ok_0.labels
            },
            Err(e) => declared(words(s@)) == Err::<Declared, AssembleError>(e),
        },
{
    let chars = to_chars(s);
    let tokens = tokenize(&chars);
    match scan(&tokens) {
        Ok(found) => {
            proof {
                let all = declared(texts(tokens@))->Ok_0;
                lemma_sorted_names(texts(found.globals@), all.globals);
                lemma_sorted_names(texts(found.usages@), all.usages);
            }
            Ok(
                Directives {
                    globals: to_strings(&found.globals),
                    usages: to_strings(&found.usages),
                    externs: to_strings(&found.externs),
                    labels: to_strings(&found.labels),
                },
            )
        },
        Err(e) => Err(e),
    }
}

} // verus!
