//! What holds of every source: laws of the slots, of the entry point and of
//! the addresses that the last pass fills in.

use crate::buffer::le_bytes;
use crate::consts::Format;
use crate::error::AssembleError;
use crate::link::{
    apart, call_address, headed, jump_address, lemma_patched, link, patched, placed,
    resolved_calls, resolved_jumps, sound,
};
use crate::assembly::starts_named;
use crate::consts::{ends_function, first_slot, opcode_of, second_slot, Slot};
use crate::directives::{declared, sorted_names};
use crate::link::{address_table, entry_of, lemma_initial_sound, lemma_run_sound};
use crate::machine::{defined_name, intern, is_directive, left, trailing, Machine, Setup};
use crate::text::{uppercase, words};
use crate::names::{
    lemma_keys_apart, lemma_resolve_keeps, local_key, sorted, sorted_listing, ScopeView,
};
use crate::text::{lemma_lex_total, lemma_lex_transitive, lex_lt};
use vstd::prelude::*;

verus! {

/// Whether position `i` lies outside the first `count` of the given
/// placeholders.
pub open spec fn clear_of(relocs: Seq<crate::machine::Reloc>, count: nat, i: int) -> bool {
    forall|k: int| 0 <= k < count ==> i < (#[trigger] relocs[k]).at || i >= relocs[k].at + 4
}

/// When the first `count` jumps are resolved, each of their placeholders
/// holds its address, and the code around them is as it was.
pub proof fn lemma_jumps_resolved(code: Seq<u8>, m: Machine, format: Format, count: nat)
    requires
        sound(m, format),
        code.len() >= m.code.len(),
        count <= m.jumps.len(),
        resolved_jumps(code, m, count) is Ok,
    ensures
        resolved_jumps(code, m, count)->Ok_0.len() == code.len(),
        forall|k: int|
            0 <= k < count ==> (#[trigger] jump_address(m, m.jumps[k].id)) is Some
                && resolved_jumps(code, m, count)->Ok_0.subrange(
                m.jumps[k].at as int,
                m.jumps[k].at + 4,
            ) == le_bytes(jump_address(m, m.jumps[k].id)->Some_0 as nat, 4),
        forall|i: int|
            0 <= i < code.len() && clear_of(m.jumps, count, i) ==> #[trigger] resolved_jumps(
                code,
                m,
                count,
            )->Ok_0[i] == code[i],
    decreases count,
{
    if count > 0 {
        let before = (count - 1) as nat;
        lemma_jumps_resolved(code, m, format, before);
        let done = resolved_jumps(code, m, before)->Ok_0;
        let r = m.jumps[count - 1];
        let address = jump_address(m, r.id)->Some_0;
        let after = resolved_jumps(code, m, count)->Ok_0;
        assert(placed(r, format, m.code));
        lemma_patched(done, r.at as int, address);
        assert(after == patched(done, r.at as int, address));
        assert forall|k: int| 0 <= k < count implies (#[trigger] jump_address(m, m.jumps[k].id))
            is Some && after.subrange(m.jumps[k].at as int, m.jumps[k].at + 4) == le_bytes(
            jump_address(m, m.jumps[k].id)->Some_0 as nat,
            4,
        ) by {
            if k < count - 1 {
                let q = m.jumps[k];
                assert(placed(q, format, m.code));
                assert(apart(q, r));
                assert(after.subrange(q.at as int, q.at + 4) =~= done.subrange(
                    q.at as int,
                    q.at + 4,
                ));
            }
        }
        assert forall|i: int| 0 <= i < code.len() && clear_of(m.jumps, count, i) implies after[i]
            == code[i] by {
            assert(i < m.jumps[count - 1].at || i >= m.jumps[count - 1].at + 4);
            assert(clear_of(m.jumps, before, i));
        }
    }
}

/// When the first `count` calls are resolved, each of their placeholders
/// holds its address, and the code around them is as it was.
pub proof fn lemma_calls_resolved(code: Seq<u8>, m: Machine, format: Format, count: nat)
    requires
        sound(m, format),
        code.len() >= m.code.len(),
        count <= m.calls.len(),
        resolved_calls(code, m, count) is Ok,
    ensures
        resolved_calls(code, m, count)->Ok_0.len() == code.len(),
        forall|k: int|
            0 <= k < count ==> (#[trigger] call_address(m, m.calls[k].id)) is Ok
                && resolved_calls(code, m, count)->Ok_0.subrange(
                m.calls[k].at as int,
                m.calls[k].at + 4,
            ) == le_bytes(call_address(m, m.calls[k].id)->Ok_0 as nat, 4),
        forall|i: int|
            0 <= i < code.len() && clear_of(m.calls, count, i) ==> #[trigger] resolved_calls(
                code,
                m,
                count,
            )->Ok_0[i] == code[i],
    decreases count,
{
    if count > 0 {
        let before = (count - 1) as nat;
        lemma_calls_resolved(code, m, format, before);
        let done = resolved_calls(code, m, before)->Ok_0;
        let r = m.calls[count - 1];
        let address = call_address(m, r.id)->Ok_0;
        let after = resolved_calls(code, m, count)->Ok_0;
        assert(placed(r, format, m.code));
        lemma_patched(done, r.at as int, address);
        assert(after == patched(done, r.at as int, address));
        assert forall|k: int| 0 <= k < count implies (#[trigger] call_address(m, m.calls[k].id))
            is Ok && after.subrange(m.calls[k].at as int, m.calls[k].at + 4) == le_bytes(
            call_address(m, m.calls[k].id)->Ok_0 as nat,
            4,
        ) by {
            if k < count - 1 {
                let q = m.calls[k];
                assert(placed(q, format, m.code));
                assert(apart(q, r));
                assert(after.subrange(q.at as int, q.at + 4) =~= done.subrange(
                    q.at as int,
                    q.at + 4,
                ));
            }
        }
        assert forall|i: int| 0 <= i < code.len() && clear_of(m.calls, count, i) implies after[i]
            == code[i] by {
            assert(i < m.calls[count - 1].at || i >= m.calls[count - 1].at + 4);
            assert(clear_of(m.calls, before, i));
        }
    }
}

/// The header is filled in without a change of the code's length before
/// the address table.
pub proof fn lemma_headed_len(m: Machine, format: Format)
    requires
        sound(m, format),
        headed(m) is Ok,
    ensures
        headed(m)->Ok_0.len() >= m.code.len(),
{
    let entry = crate::link::entry_of(m)->Some_0;
    lemma_patched(m.code, 0, entry);
    if m.table {
        lemma_patched(patched(m.code, 0, entry), 4, m.code.len() as u32);
    }
}

/// In a module, the placeholder of every jump holds the offset of the
/// instruction that the jump goes to: the one whose index the jump's label
/// slot holds.
pub proof fn law_jumps_patched(m: Machine, format: Format, k: int)
    requires
        sound(m, format),
        link(m) is Ok,
        0 <= k < m.jumps.len(),
    ensures
        m.jumps[k].id < m.slots.len(),
        m.slots[m.jumps[k].id as int] < m.addresses.len(),
        link(m)->Ok_0.subrange(m.jumps[k].at as int, m.jumps[k].at + 4) == le_bytes(
            m.addresses[m.slots[m.jumps[k].id as int] as int] as nat,
            4,
        ),
{
    let head = headed(m)->Ok_0;
    lemma_headed_len(m, format);
    lemma_jumps_resolved(head, m, format, m.jumps.len());
    let jumped = resolved_jumps(head, m, m.jumps.len())->Ok_0;
    lemma_calls_resolved(jumped, m, format, m.calls.len());
    let module = link(m)->Ok_0;
    let r = m.jumps[k];
    assert(jump_address(m, r.id) is Some);
    assert(placed(r, format, m.code));
    assert forall|i: int| r.at <= i < r.at + 4 implies module[i] == jumped[i] by {
        assert forall|c: int| 0 <= c < m.calls.len() implies i < (#[trigger] m.calls[c]).at || i
            >= m.calls[c].at + 4 by {
            assert(apart(r, m.calls[c]));
        }
        assert(clear_of(m.calls, m.calls.len(), i));
    }
    assert(module.subrange(r.at as int, r.at + 4) =~= jumped.subrange(r.at as int, r.at + 4));
}

/// In a module, the placeholder of every call holds the offset of the
/// function that is called: the one that the function table holds for the
/// call's function id, which is the offset of a function that the source
/// defines.
pub proof fn law_calls_patched(m: Machine, format: Format, k: int)
    requires
        sound(m, format),
        link(m) is Ok,
        0 <= k < m.calls.len(),
    ensures
        m.calls[k].id < m.functions.len(),
        m.functions[m.calls[k].id as int] != 0,
        link(m)->Ok_0.subrange(m.calls[k].at as int, m.calls[k].at + 4) == le_bytes(
            m.functions[m.calls[k].id as int] as nat,
            4,
        ),
{
    let head = headed(m)->Ok_0;
    lemma_headed_len(m, format);
    lemma_jumps_resolved(head, m, format, m.jumps.len());
    let jumped = resolved_jumps(head, m, m.jumps.len())->Ok_0;
    lemma_calls_resolved(jumped, m, format, m.calls.len());
    assert(call_address(m, m.calls[k].id) is Ok);
}

/// A global has the slot of its place in the sorted list of the globals,
/// whatever function uses it, and the use changes nothing.
pub proof fn law_global_slots(
    scope: ScopeView,
    all: Seq<Seq<char>>,
    f: Seq<char>,
    g: Seq<char>,
    name: Seq<char>,
)
    requires
        scope.named,
        scope.globals == sorted_names(all),
        scope.globals.len() <= u32::MAX,
        all.contains(name),
    ensures
        sorted_listing(scope.globals, all),
        0 <= scope.globals.index_of(name) < scope.globals.len(),
        scope.globals[scope.globals.index_of(name)] == name,
        scope.resolve(f, name) == Ok::<_, AssembleError>(
            (scope.globals.index_of(name) as u32, scope),
        ),
        scope.resolve(g, name) == scope.resolve(f, name),
{
    lemma_listing_exists(all);
    assert(scope.globals.contains(name));
}

/// The number of names at the start of a list that come before `name`.
pub open spec fn rank(list: Seq<Seq<char>>, name: Seq<char>) -> nat
    decreases list.len(),
{
    if list.len() > 0 && lex_lt(list[0], name) {
        1 + rank(list.skip(1), name)
    } else {
        0
    }
}

proof fn lemma_rank(list: Seq<Seq<char>>, name: Seq<char>)
    requires
        sorted(list),
        !list.contains(name),
    ensures
        rank(list, name) <= list.len(),
        forall|k: int| 0 <= k < rank(list, name) ==> lex_lt(#[trigger] list[k], name),
        forall|k: int| rank(list, name) <= k < list.len() ==> lex_lt(name, #[trigger] list[k]),
    decreases list.len(),
{
    if list.len() > 0 {
        let rest = list.skip(1);
        assert forall|i: int, j: int| 0 <= i < j < rest.len() implies lex_lt(
            #[trigger] rest[i],
            #[trigger] rest[j],
        ) by {
            assert(lex_lt(list[i + 1], list[j + 1]));
        }
        if rest.contains(name) {
            let k = choose|k: int| 0 <= k < rest.len() && rest[k] == name;
            assert(list[k + 1] == name);
        }
        if lex_lt(list[0], name) {
            lemma_rank(rest, name);
            assert forall|k: int| 0 <= k < rank(list, name) implies lex_lt(
                #[trigger] list[k],
                name,
            ) by {
                if k > 0 {
                    assert(list[k] == rest[k - 1]);
                }
            }
            assert forall|k: int| rank(list, name) <= k < list.len() implies lex_lt(
                name,
                #[trigger] list[k],
            ) by {
                assert(list[k] == rest[k - 1]);
            }
        } else {
            assert(list.contains(list[0]));
            lemma_lex_total(list[0], name);
            assert forall|k: int| 0 <= k < list.len() implies lex_lt(name, #[trigger] list[k]) by {
                if k > 0 {
                    lemma_lex_transitive(name, list[0], list[k]);
                }
            }
        }
    }
}

/// Every list of names has a sorted list of its names, so that
/// `sorted_names` is one.
pub proof fn lemma_listing_exists(all: Seq<Seq<char>>)
    ensures
        sorted_listing(sorted_names(all), all),
    decreases all.len(),
{
    if all.len() == 0 {
        let list = Seq::<Seq<char>>::empty();
        assert(sorted_listing(list, all));
    } else {
        let fewer = all.drop_last();
        let name = all.last();
        lemma_listing_exists(fewer);
        let list = sorted_names(fewer);
        assert forall|other: Seq<char>|
            all.contains(other) <==> (other == name || fewer.contains(other)) by {
            if all.contains(other) {
                let k = choose|k: int| 0 <= k < all.len() && all[k] == other;
                if k < fewer.len() {
                    assert(fewer[k] == other);
                }
            }
            if other == name {
                assert(all[all.len() - 1] == other);
            }
            if fewer.contains(other) {
                let k = choose|k: int| 0 <= k < fewer.len() && fewer[k] == other;
                assert(all[k] == other);
            }
        }
        if list.contains(name) {
            assert(sorted_listing(list, all));
        } else {
            lemma_rank(list, name);
            let at = rank(list, name) as int;
            let more = list.insert(at, name);
            assert forall|i: int, j: int| 0 <= i < j < more.len() implies lex_lt(
                #[trigger] more[i],
                #[trigger] more[j],
            ) by {
                if j < at {
                    assert(more[i] == list[i] && more[j] == list[j]);
                } else if j == at {
                    assert(more[i] == list[i]);
                } else if i < at {
                    assert(more[i] == list[i] && more[j] == list[j - 1]);
                } else if i == at {
                    assert(more[j] == list[j - 1]);
                } else {
                    assert(more[i] == list[i - 1] && more[j] == list[j - 1]);
                }
            }
            assert forall|other: Seq<char>| more.contains(other) <==> all.contains(other) by {
                if more.contains(other) {
                    let k = choose|k: int| 0 <= k < more.len() && more[k] == other;
                    if k < at {
                        assert(list[k] == other);
                        assert(list.contains(other));
                    } else if k > at {
                        assert(list[k - 1] == other);
                        assert(list.contains(other));
                    }
                }
                if other == name {
                    assert(more[at] == other);
                }
                if list.contains(other) {
                    let k = choose|k: int| 0 <= k < list.len() && list[k] == other;
                    if k < at {
                        assert(more[k] == other);
                    } else {
                        assert(more[k + 1] == other);
                    }
                }
            }
            assert(sorted_listing(more, all));
        }
    }
}

/// In named mode a name that is no global gets, in two functions, two
/// slots; both lie above the slots of the globals, and each function finds
/// its own slot again.
pub proof fn law_locals_apart(scope: ScopeView, f: Seq<char>, g: Seq<char>, name: Seq<char>)
    requires
        scope.wf(),
        scope.named,
        !scope.globals.contains(name),
        f != g,
        scope.resolve(f, name) is Ok,
        scope.resolve(f, name)->Ok_0.1.resolve(g, name) is Ok,
    ensures
        ({
            let first = scope.resolve(f, name)->Ok_0;
            let second = first.1.resolve(g, name)->Ok_0;
            &&& first.0 != second.0
            &&& first.0 >= scope.globals.len()
            &&& second.0 >= scope.globals.len()
            &&& second.1.resolve(f, name) == Ok::<_, AssembleError>((first.0, second.1))
            &&& second.1.resolve(g, name) == Ok::<_, AssembleError>((second.0, second.1))
        }),
{
    lemma_keys_apart(f, g, name);
    lemma_resolve_keeps(scope, f, name);
    let first = scope.resolve(f, name)->Ok_0;
    lemma_resolve_keeps(first.1, g, name);
    assert(first.1.locals.contains_key(local_key(f, name)));
}

/// The slot that a name has in a function stays its slot, whatever names
/// are used after it.
pub proof fn law_slot_stable(
    scope: ScopeView,
    f: Seq<char>,
    name: Seq<char>,
    g: Seq<char>,
    other: Seq<char>,
)
    requires
        scope.wf(),
        scope.resolve(f, name) is Ok,
        scope.resolve(f, name)->Ok_0.1.resolve(g, other) is Ok,
    ensures
        ({
            let first = scope.resolve(f, name)->Ok_0;
            let second = first.1.resolve(g, other)->Ok_0;
            &&& first.1.resolve(f, name) == Ok::<_, AssembleError>((first.0, first.1))
            &&& second.1.resolve(f, name) == Ok::<_, AssembleError>((first.0, second.1))
        }),
{
    lemma_resolve_keeps(scope, f, name);
    let first = scope.resolve(f, name)->Ok_0;
    lemma_resolve_keeps(first.1, g, other);
    if scope.named && !scope.globals.contains(name) {
        assert(first.1.locals.contains_key(local_key(f, name)));
    }
}

/// The same source, mode and float images give the same module.
pub proof fn law_deterministic(
    input: Seq<char>,
    again: Seq<char>,
    named: bool,
    floats: Seq<Option<u64>>,
)
    requires
        input == again,
    ensures
        crate::assembly::assembled(input, named, floats) == crate::assembly::assembled(
            again,
            named,
            floats,
        ),
        crate::assembler::assembled(input, named, floats) == crate::assembler::assembled(
            again,
            named,
            floats,
        ),
{
}

/// Whether a token defines the function `name`.
pub open spec fn defines(format: Format, token: Seq<char>, name: Seq<char>) -> bool {
    token.len() > 0 && token[0] == '@' && defined_name(format, token) == Some(name)
}

/// Whether no token of a source defines the function `main`.
pub open spec fn lacks_main(format: Format, tokens: Seq<Seq<char>>) -> bool {
    forall|k: int| 0 <= k < tokens.len() ==> !defines(format, #[trigger] tokens[k], "main"@)
}

/// Function ids are given out in order: each name has its own, below the
/// next free one, and the function table is no longer than they reach.
pub open spec fn ids_in_order(m: Machine) -> bool {
    &&& m.functions.len() <= m.next_fn
    &&& forall|a: Seq<char>| #[trigger] m.idents.contains_key(a) ==> m.idents[a] < m.next_fn
    &&& forall|a: Seq<char>, b: Seq<char>|
        #![trigger m.idents[a], m.idents[b]]
        m.idents.contains_key(a) && m.idents.contains_key(b) && a != b ==> m.idents[a]
            != m.idents[b]
}

proof fn lemma_operand_entry(
    m: Machine,
    setup: Setup,
    slot: Slot,
    tokens: Seq<Seq<char>>,
    floats: Seq<Option<u64>>,
    pos: int,
)
    requires
        ids_in_order(m),
        entry_of(m) is None,
        m.put_operand(setup, slot, tokens, floats, pos) is Ok,
    ensures
        ids_in_order(m.put_operand(setup, slot, tokens, floats, pos)->Ok_0),
        entry_of(m.put_operand(setup, slot, tokens, floats, pos)->Ok_0) is None,
{
}

proof fn lemma_step_entry(
    m: Machine,
    setup: Setup,
    tokens: Seq<Seq<char>>,
    floats: Seq<Option<u64>>,
    pos: int,
)
    requires
        ids_in_order(m),
        entry_of(m) is None,
        0 <= pos < tokens.len(),
        !defines(setup.format, tokens[pos], "main"@),
        m.step(setup, tokens, floats, pos) is Ok,
    ensures
        ids_in_order(m.step(setup, tokens, floats, pos)->Ok_0),
        entry_of(m.step(setup, tokens, floats, pos)->Ok_0) is None,
{
    reveal(Machine::step);
    reveal(Machine::instruction);
    let token = tokens[pos];
    let format = setup.format;
    let main = "main"@;
    if is_directive(format, token) {
    } else if token.len() > 0 && token[0] == '@' {
        let name = defined_name(format, token)->Some_0;
        let after = m.define_function(format, token)->Ok_0;
        let id = intern(m.idents, m.next_fn, name)->Ok_0.0;
        assert(name != main);
        if after.idents.contains_key(main) {
            assert(m.idents.contains_key(main));
            assert(after.idents.contains_key(name));
            assert(after.idents[main] != after.idents[name]);
        }
    } else if token.len() > 0 && token[0] == '.' {
    } else {
        let code = opcode_of(format, uppercase(token))->Some_0;
        let begun = Machine {
            addresses: m.addresses.push(m.code.len() as u32),
            code: m.code.push(code),
            returned: m.returned || ends_function(code),
            ..m
        };
        assert(entry_of(begun) is None);
        if first_slot(code) is Some {
            lemma_operand_entry(begun, setup, first_slot(code)->Some_0, tokens, floats, pos + 1);
            let half = begun.put_operand(setup, first_slot(code)->Some_0, tokens, floats, pos + 1)->Ok_0;
            if second_slot(code) is Some {
                lemma_operand_entry(half, setup, second_slot(code)->Some_0, tokens, floats, pos + 2);
            }
        }
    }
}

/// A main pass over tokens of which none defines `main` leaves a machine
/// without an entry point.
pub proof fn lemma_run_entry(
    m: Machine,
    setup: Setup,
    tokens: Seq<Seq<char>>,
    floats: Seq<Option<u64>>,
    pos: int,
)
    requires
        ids_in_order(m),
        entry_of(m) is None,
        lacks_main(setup.format, tokens),
        m.run(setup, tokens, floats, pos) is Ok,
    ensures
        entry_of(m.run(setup, tokens, floats, pos)->Ok_0) is None,
    decreases left(tokens, pos),
{
    if 0 <= pos < tokens.len() {
        lemma_step_entry(m, setup, tokens, floats, pos);
        lemma_run_entry(
            m.step(setup, tokens, floats, pos)->Ok_0,
            setup,
            tokens,
            floats,
            pos + 1 + trailing(setup.format, tokens[pos]),
        );
    }
}

/// A source of the extended format in which no token defines the function
/// `main` is not assembled: where nothing else is wrong with it, the entry
/// point is found missing.
pub proof fn law_entry_point(input: Seq<char>, named: bool, floats: Seq<Option<u64>>)
    requires
        lacks_main(Format::Extended, words(input)),
    ensures
        crate::assembly::assembled(input, named, floats) is Err,
        crate::assembly::passed(input, named, floats) is Ok ==> crate::assembly::assembled(
            input,
            named,
            floats,
        ) == Err::<Seq<u8>, AssembleError>(AssembleError::MissingEntryPoint),
{
    let tokens = words(input);
    if crate::assembly::passed(input, named, floats) is Ok {
        let found = declared(tokens)->Ok_0;
        let first = Machine::initial(
            Format::Extended,
            named || starts_named(input),
            sorted_names(found.globals),
        );
        let setup = Setup { format: Format::Extended, usages: sorted_names(found.usages) };
        let from: int = if starts_named(input) {
            1
        } else {
            0
        };
        lemma_run_entry(first, setup, tokens, floats, from);
    }
}

/// A source of the legacy format in which no token defines the function
/// `main` is not assembled: where nothing else is wrong with it, the entry
/// point is found missing.
pub proof fn law_entry_point_legacy(text: Seq<char>, named: bool, floats: Seq<Option<u64>>)
    requires
        lacks_main(Format::Legacy, words(text)),
    ensures
        crate::assembler::assembled_source(text, named, floats) is Err,
        crate::assembler::passed(text, named, floats) is Ok
            ==> crate::assembler::assembled_source(text, named, floats) == Err::<
            Seq<u8>,
            AssembleError,
        >(AssembleError::MissingEntryPoint),
{
    if crate::assembler::passed(text, named, floats) is Ok {
        let first = Machine::initial(Format::Legacy, named || starts_named(text), Seq::empty());
        let setup = Setup { format: Format::Legacy, usages: Seq::empty() };
        let from: int = if starts_named(text) {
            1
        } else {
            0
        };
        lemma_run_entry(first, setup, words(text), floats, from);
    }
}

/// The main pass leaves the code and its placeholders sound, so that the
/// laws of the placeholders hold of every module.
pub proof fn law_passed_sound(input: Seq<char>, named: bool, floats: Seq<Option<u64>>)
    ensures
        crate::assembly::passed(input, named, floats) is Ok ==> sound(
            crate::assembly::passed(input, named, floats)->Ok_0,
            Format::Extended,
        ),
        crate::assembler::passed(input, named, floats) is Ok ==> sound(
            crate::assembler::passed(input, named, floats)->Ok_0,
            Format::Legacy,
        ),
{
    if crate::assembly::passed(input, named, floats) is Ok {
        let tokens = words(input);
        let found = declared(tokens)->Ok_0;
        let globals = sorted_names(found.globals);
        let setup = Setup { format: Format::Extended, usages: sorted_names(found.usages) };
        lemma_initial_sound(Format::Extended, named || starts_named(input), globals);
        lemma_run_sound(
            Machine::initial(Format::Extended, named || starts_named(input), globals),
            setup,
            tokens,
            floats,
            if starts_named(input) {
                1
            } else {
                0
            },
        );
    }
    if crate::assembler::passed(input, named, floats) is Ok {
        let setup = Setup { format: Format::Legacy, usages: Seq::empty() };
        lemma_initial_sound(Format::Legacy, named || starts_named(input), Seq::empty());
        lemma_run_sound(
            Machine::initial(Format::Legacy, named || starts_named(input), Seq::empty()),
            setup,
            words(input),
            floats,
            if starts_named(input) {
                1
            } else {
                0
            },
        );
    }
}

proof fn lemma_operand_scope(
    m: Machine,
    setup: Setup,
    slot: Slot,
    tokens: Seq<Seq<char>>,
    floats: Seq<Option<u64>>,
    pos: int,
)
    requires
        m.put_operand(setup, slot, tokens, floats, pos) is Ok,
    ensures
        m.put_operand(setup, slot, tokens, floats, pos)->Ok_0.scope.globals == m.scope.globals,
        m.put_operand(setup, slot, tokens, floats, pos)->Ok_0.scope.named == m.scope.named,
{
}

/// The main pass leaves the mode and the globals as they were before it:
/// the slot of a global is fixed before the first instruction is read.
pub proof fn law_globals_fixed(
    m: Machine,
    setup: Setup,
    tokens: Seq<Seq<char>>,
    floats: Seq<Option<u64>>,
    pos: int,
)
    requires
        m.run(setup, tokens, floats, pos) is Ok,
    ensures
        m.run(setup, tokens, floats, pos)->Ok_0.scope.globals == m.scope.globals,
        m.run(setup, tokens, floats, pos)->Ok_0.scope.named == m.scope.named,
    decreases left(tokens, pos),
{
    if 0 <= pos < tokens.len() {
        reveal(Machine::step);
        reveal(Machine::instruction);
        let token = tokens[pos];
        let next = m.step(setup, tokens, floats, pos)->Ok_0;
        if !is_directive(setup.format, token) && !(token.len() > 0 && (token[0] == '@'
            || token[0] == '.')) {
            let code = opcode_of(setup.format, uppercase(token))->Some_0;
            let begun = Machine {
                addresses: m.addresses.push(m.code.len() as u32),
                code: m.code.push(code),
                returned: m.returned || ends_function(code),
                ..m
            };
            if first_slot(code) is Some {
                lemma_operand_scope(begun, setup, first_slot(code)->Some_0, tokens, floats, pos + 1);
                let half = begun.put_operand(setup, first_slot(code)->Some_0, tokens, floats, pos + 1)->Ok_0;
                if second_slot(code) is Some {
                    lemma_operand_scope(half, setup, second_slot(code)->Some_0, tokens, floats, pos + 2);
                }
            }
        }
        assert(next.scope.globals == m.scope.globals && next.scope.named == m.scope.named);
        law_globals_fixed(next, setup, tokens, floats, pos + 1 + trailing(setup.format, token));
    }
}

/// Whether a position lies outside every placeholder of a machine.
pub open spec fn outside_placeholders(m: Machine, i: int) -> bool {
    clear_of(m.jumps, m.jumps.len(), i) && clear_of(m.calls, m.calls.len(), i)
}

/// The last pass changes the code in its placeholders and in the header
/// fields that it fills, and nowhere else: every other byte of the code
/// stands in the module where it stood.
pub proof fn law_code_kept(m: Machine, format: Format, i: int)
    requires
        sound(m, format),
        link(m) is Ok,
        (if m.table {
            8
        } else {
            4int
        }) <= i < m.code.len(),
        outside_placeholders(m, i),
    ensures
        link(m)->Ok_0.len() >= m.code.len(),
        link(m)->Ok_0[i] == m.code[i],
{
    let head = headed(m)->Ok_0;
    let entry = entry_of(m)->Some_0;
    lemma_headed_len(m, format);
    lemma_patched(m.code, 0, entry);
    if m.table {
        lemma_patched(patched(m.code, 0, entry), 4, m.code.len() as u32);
    }
    assert(head[i] == m.code[i]);
    lemma_jumps_resolved(head, m, format, m.jumps.len());
    let jumped = resolved_jumps(head, m, m.jumps.len())->Ok_0;
    lemma_calls_resolved(jumped, m, format, m.calls.len());
}

/// The header of a module holds the offset of `main` in its first four
/// bytes. Where the module needs its address table, the next four bytes
/// hold the length of the code, and behind the code stands the table: the
/// offset of each instruction in four bytes. Where it needs none, the
/// module is as long as the code.
pub proof fn law_header(m: Machine, format: Format)
    requires
        sound(m, format),
        link(m) is Ok,
    ensures
        entry_of(m) is Some,
        link(m)->Ok_0.len() >= m.code.len(),
        link(m)->Ok_0.subrange(0, 4) == le_bytes(entry_of(m)->Some_0 as nat, 4),
        m.table ==> link(m)->Ok_0.subrange(4, 8) == le_bytes(m.code.len(), 4),
        m.table ==> link(m)->Ok_0.skip(m.code.len() as int) == address_table(m.addresses),
        !m.table ==> link(m)->Ok_0.len() == m.code.len(),
{
    let head = headed(m)->Ok_0;
    let entry = entry_of(m)->Some_0;
    lemma_headed_len(m, format);
    lemma_patched(m.code, 0, entry);
    let first = patched(m.code, 0, entry);
    if m.table {
        lemma_patched(first, 4, m.code.len() as u32);
    }
    lemma_jumps_resolved(head, m, format, m.jumps.len());
    let jumped = resolved_jumps(head, m, m.jumps.len())->Ok_0;
    lemma_calls_resolved(jumped, m, format, m.calls.len());
    let module = link(m)->Ok_0;
    assert forall|i: int| 0 <= i < head.len() && (i < format.header_len() || i >= m.code.len())
        implies module[i] == head[i] by {
        assert forall|k: int| 0 <= k < m.jumps.len() implies i < (#[trigger] m.jumps[k]).at || i
            >= m.jumps[k].at + 4 by {
            assert(placed(m.jumps[k], format, m.code));
        }
        assert forall|k: int| 0 <= k < m.calls.len() implies i < (#[trigger] m.calls[k]).at || i
            >= m.calls[k].at + 4 by {
            assert(placed(m.calls[k], format, m.code));
        }
        assert(clear_of(m.jumps, m.jumps.len(), i));
        assert(clear_of(m.calls, m.calls.len(), i));
    }
    assert(module.subrange(0, 4) =~= head.subrange(0, 4));
    assert(head.subrange(0, 4) =~= first.subrange(0, 4));
    if m.table {
        let second = patched(first, 4, m.code.len() as u32);
        assert(module.subrange(4, 8) =~= head.subrange(4, 8));
        assert(head.subrange(4, 8) =~= second.subrange(4, 8));
        assert(module.skip(m.code.len() as int) =~= head.skip(m.code.len() as int));
        assert(head.skip(m.code.len() as int) =~= address_table(m.addresses));
    }
}

/// Whether the tables of a machine point into its code: the offsets of the
/// instructions rise and lie behind the header, and the offset of every
/// function that is defined lies behind the header and not behind the code.
pub open spec fn lined_up(m: Machine, format: Format) -> bool {
    &&& forall|i: int|
        0 <= i < m.addresses.len() ==> format.header_len() <= (#[trigger] m.addresses[i])
            < m.code.len()
    &&& forall|i: int, j: int|
        0 <= i < j < m.addresses.len() ==> (#[trigger] m.addresses[i]) < (
        #[trigger] m.addresses[j])
    &&& forall|id: int|
        0 <= id < m.functions.len() ==> (#[trigger] m.functions[id]) == 0
            || format.header_len() <= m.functions[id] <= m.code.len()
}

proof fn lemma_operand_lined_up(
    m: Machine,
    setup: Setup,
    slot: Slot,
    tokens: Seq<Seq<char>>,
    floats: Seq<Option<u64>>,
    pos: int,
)
    requires
        lined_up(m, setup.format),
        m.put_operand(setup, slot, tokens, floats, pos) is Ok,
    ensures
        lined_up(m.put_operand(setup, slot, tokens, floats, pos)->Ok_0, setup.format),
{
    let after = m.put_operand(setup, slot, tokens, floats, pos)->Ok_0;
    assert(after.code.len() >= m.code.len());
    assert(after.addresses == m.addresses);
    assert(after.functions == m.functions);
}

proof fn lemma_step_lined_up(
    m: Machine,
    setup: Setup,
    tokens: Seq<Seq<char>>,
    floats: Seq<Option<u64>>,
    pos: int,
)
    requires
        lined_up(m, setup.format),
        m.code.len() >= setup.format.header_len(),
        m.step(setup, tokens, floats, pos) is Ok,
    ensures
        lined_up(m.step(setup, tokens, floats, pos)->Ok_0, setup.format),
{
    reveal(Machine::step);
    reveal(Machine::instruction);
    let token = tokens[pos];
    let format = setup.format;
    if is_directive(format, token) {
    } else if token.len() > 0 && token[0] == '@' {
        let after = m.define_function(format, token)->Ok_0;
        assert(after.addresses == m.addresses);
        assert(after.code == m.code);
    } else if token.len() > 0 && token[0] == '.' {
    } else {
        let code = opcode_of(format, uppercase(token))->Some_0;
        let begun = Machine {
            addresses: m.addresses.push(m.code.len() as u32),
            code: m.code.push(code),
            returned: m.returned || ends_function(code),
            ..m
        };
        assert(lined_up(begun, format)) by {
            assert forall|i: int| 0 <= i < begun.addresses.len() implies format.header_len() <= (
            #[trigger] begun.addresses[i]) < begun.code.len() by {
                if i < m.addresses.len() {
                    assert(begun.addresses[i] == m.addresses[i]);
                }
            }
            assert forall|i: int, j: int| 0 <= i < j < begun.addresses.len() implies (
            #[trigger] begun.addresses[i]) < (#[trigger] begun.addresses[j]) by {
                assert(begun.addresses[i] == m.addresses[i]);
                if j < m.addresses.len() {
                    assert(begun.addresses[j] == m.addresses[j]);
                }
            }
        }
        if first_slot(code) is Some {
            lemma_operand_lined_up(
                begun,
                setup,
                first_slot(code)->Some_0,
                tokens,
                floats,
                pos + 1,
            );
            let half = begun.put_operand(setup, first_slot(code)->Some_0, tokens, floats, pos + 1)->Ok_0;
            if second_slot(code) is Some {
                lemma_operand_lined_up(
                    half,
                    setup,
                    second_slot(code)->Some_0,
                    tokens,
                    floats,
                    pos + 2,
                );
            }
        }
    }
}

/// The main pass keeps the tables of a machine pointing into its code.
pub proof fn lemma_run_lined_up(
    m: Machine,
    setup: Setup,
    tokens: Seq<Seq<char>>,
    floats: Seq<Option<u64>>,
    pos: int,
)
    requires
        lined_up(m, setup.format),
        sound(m, setup.format),
        m.run(setup, tokens, floats, pos) is Ok,
    ensures
        lined_up(m.run(setup, tokens, floats, pos)->Ok_0, setup.format),
    decreases left(tokens, pos),
{
    if 0 <= pos < tokens.len() {
        lemma_step_lined_up(m, setup, tokens, floats, pos);
        crate::link::lemma_step_sound(m, setup, tokens, floats, pos);
        lemma_run_lined_up(
            m.step(setup, tokens, floats, pos)->Ok_0,
            setup,
            tokens,
            floats,
            pos + 1 + trailing(setup.format, tokens[pos]),
        );
    }
}

/// After the main pass over a source, every instruction has its own offset
/// in the code, in rising order, and every function that is defined begins
/// in the code or at its end.
pub proof fn law_tables_lined_up(input: Seq<char>, named: bool, floats: Seq<Option<u64>>)
    ensures
        crate::assembly::passed(input, named, floats) is Ok ==> lined_up(
            crate::assembly::passed(input, named, floats)->Ok_0,
            Format::Extended,
        ),
        crate::assembler::passed(input, named, floats) is Ok ==> lined_up(
            crate::assembler::passed(input, named, floats)->Ok_0,
            Format::Legacy,
        ),
{
    if crate::assembly::passed(input, named, floats) is Ok {
        let tokens = words(input);
        let found = declared(tokens)->Ok_0;
        let globals = sorted_names(found.globals);
        let setup = Setup { format: Format::Extended, usages: sorted_names(found.usages) };
        lemma_initial_sound(Format::Extended, named || starts_named(input), globals);
        lemma_run_lined_up(
            Machine::initial(Format::Extended, named || starts_named(input), globals),
            setup,
            tokens,
            floats,
            if starts_named(input) {
                1
            } else {
                0
            },
        );
    }
    if crate::assembler::passed(input, named, floats) is Ok {
        let setup = Setup { format: Format::Legacy, usages: Seq::empty() };
        lemma_initial_sound(Format::Legacy, named || starts_named(input), Seq::empty());
        lemma_run_lined_up(
            Machine::initial(Format::Legacy, named || starts_named(input), Seq::empty()),
            setup,
            words(input),
            floats,
            if starts_named(input) {
                1
            } else {
                0
            },
        );
    }
}

/// Whether every slot that `before` gave out is still given out by `after`,
/// to the same function and name.
pub open spec fn slots_kept(before: ScopeView, after: ScopeView) -> bool {
    forall|key: Seq<char>| #[trigger]
        before.locals.contains_key(key) ==> after.locals.contains_key(key) && after.locals[key]
            == before.locals[key]
}

proof fn lemma_operand_slots(
    m: Machine,
    setup: Setup,
    slot: Slot,
    tokens: Seq<Seq<char>>,
    floats: Seq<Option<u64>>,
    pos: int,
)
    requires
        m.scope.wf(),
        m.put_operand(setup, slot, tokens, floats, pos) is Ok,
    ensures
        m.put_operand(setup, slot, tokens, floats, pos)->Ok_0.scope.wf(),
        slots_kept(m.scope, m.put_operand(setup, slot, tokens, floats, pos)->Ok_0.scope),
{
}

/// The main pass keeps the slots of variables in order: a slot that was
/// given to a name in a function stays with it to the end of the source.
pub proof fn law_slots_kept(
    m: Machine,
    setup: Setup,
    tokens: Seq<Seq<char>>,
    floats: Seq<Option<u64>>,
    pos: int,
)
    requires
        m.scope.wf(),
        m.run(setup, tokens, floats, pos) is Ok,
    ensures
        m.run(setup, tokens, floats, pos)->Ok_0.scope.wf(),
        slots_kept(m.scope, m.run(setup, tokens, floats, pos)->Ok_0.scope),
    decreases left(tokens, pos),
{
    if 0 <= pos < tokens.len() {
        reveal(Machine::step);
        reveal(Machine::instruction);
        let token = tokens[pos];
        let next = m.step(setup, tokens, floats, pos)->Ok_0;
        if !is_directive(setup.format, token) && !(token.len() > 0 && (token[0] == '@'
            || token[0] == '.')) {
            let code = opcode_of(setup.format, uppercase(token))->Some_0;
            let begun = Machine {
                addresses: m.addresses.push(m.code.len() as u32),
                code: m.code.push(code),
                returned: m.returned || ends_function(code),
                ..m
            };
            if first_slot(code) is Some {
                lemma_operand_slots(begun, setup, first_slot(code)->Some_0, tokens, floats, pos + 1);
                let half = begun.put_operand(setup, first_slot(code)->Some_0, tokens, floats, pos + 1)->Ok_0;
                if second_slot(code) is Some {
                    lemma_operand_slots(half, setup, second_slot(code)->Some_0, tokens, floats, pos + 2);
                }
            }
        }
        assert(next.scope.wf() && slots_kept(m.scope, next.scope));
        law_slots_kept(next, setup, tokens, floats, pos + 1 + trailing(setup.format, token));
    }
}

} // verus!
