//! The assembler at work: the machine of the main pass, kept in a byte
//! buffer and in symbol tables.

use crate::buffer::Output;
use crate::consts::{
    builtin_of, first_operand, opcode, second_operand, Format, Slot, BUILTIN, DEREF, END, RET,
    VARIABLE,
};
use crate::error::AssembleError;
use crate::link::{
    address_table, headed, lemma_initial_sound, lemma_run_sound, link, placed, resolved_calls,
    resolved_jumps, sound,
};
use crate::machine::{
    defined_name, grown, intern, jump_slot, numbered_target, trailing, Machine, Reloc, Setup,
};
use crate::names::{search, sorted, Scope};
use crate::operand::push_operand;
use crate::table::SymbolTable;
use crate::text::{
    head, is_ascii_digit, is_name_start, is_word, read_u32, tail, texts, to_chars, to_uppercase,
};
use vstd::prelude::*;

verus! {

/// Whether the outcome of an operation is the one that its description
/// gives, `after` being the machine that the operation left.
pub open spec fn agrees(
    outcome: Result<(), AssembleError>,
    described: Result<Machine, AssembleError>,
    after: Machine,
) -> bool {
    match outcome {
        Ok(_) => described == Ok::<Machine, AssembleError>(after),
        Err(e) => described == Err::<Machine, AssembleError>(e),
    }
}

/// The name of a label or function definition.
pub fn name_of(format: Format, token: &Vec<char>) -> (name: Option<Vec<char>>)
    ensures
        match name {
            Some(n) => defined_name(format, token@) == Some(n@),
            None => defined_name(format, token@) is None,
        },
{
    let from: usize = if token.len() > 0 {
        1
    } else {
        0
    };
    let body = tail(token, from);
    if format == Format::Extended && (body.len() == 0 || !is_name_start(body[0])) {
        None
    } else if body.len() > 0 && body[body.len() - 1] == ':' {
        let name = head(&body, body.len() - 1);
        assert(name@ == body@.drop_last());
        Some(name)
    } else {
        Some(body)
    }
}

/// The id of a function name; a name that has none gets the next free one.
pub fn intern_name(idents: &mut SymbolTable, next_fn: &mut u32, name: &Vec<char>) -> (id: Result<
    u32,
    AssembleError,
>)
    ensures
        match id {
            Ok(id) => intern(old(idents)@, *old(next_fn), name@) == Ok::<_, AssembleError>(
                (id, final(idents)@, *final(next_fn)),
            ),
            Err(e) => intern(old(idents)@, *old(next_fn), name@) == Err::<
                (u32, Map<Seq<char>, u32>, u32),
                _,
            >(e) && final(idents)@ == old(idents)@ && *final(next_fn) == *old(next_fn),
        },
{
    match idents.find(name) {
        Some(id) => Ok(id),
        None => {
            if *next_fn == 0xFFFF_FFFF {
                return Err(AssembleError::TooLarge);
            }
            let id = *next_fn;
            idents.enter(name, id);
            *next_fn = id + 1;
            Ok(id)
        },
    }
}

/// Lengthens a function table until it holds the given id.
fn grow(functions: &mut Vec<u32>, id: u32)
    ensures
        final(functions)@ == grown(old(functions)@, id),
{
    while functions.len() <= id as usize
        invariant
            functions@.len() <= id + 1 || functions@ == old(functions)@,
            functions@.len() >= old(functions)@.len(),
            functions@ =~= old(functions)@ + Seq::new(
                (functions@.len() - old(functions)@.len()) as nat,
                |i: int| 0u32,
            ),
        decreases id + 1 - functions.len(),
    {
        functions.push(0);
    }
    assert(functions@ =~= grown(old(functions)@, id));
}

/// The instruction index that a jump by number names.
fn target_by_number(token: &Vec<char>, index: u32) -> (target: Result<u32, AssembleError>)
    requires
        token.len() > 0,
    ensures
        target == numbered_target(token@, index),
{
    if token[0] == '-' {
        let rest = tail(token, 1);
        match read_u32(&rest) {
            Some(back) => if back > index {
                Err(AssembleError::UnresolvedAddress)
            } else {
                Ok(index - back)
            },
            None => Err(AssembleError::Syntax),
        }
    } else if token[0] == '+' {
        let rest = tail(token, 1);
        match read_u32(&rest) {
            Some(ahead) => if ahead > 0xFFFF_FFFF - index {
                Err(AssembleError::UnresolvedAddress)
            } else {
                Ok(index + ahead)
            },
            None => Err(AssembleError::Syntax),
        }
    } else {
        match read_u32(token) {
            Some(target) => Ok(target),
            None => Err(AssembleError::Syntax),
        }
    }
}

/// The label slot of a jump target. See `jump_slot`.
pub fn jump_target(
    token: &Vec<char>,
    index: u32,
    labels: &mut SymbolTable,
    slots: &mut Vec<u32>,
) -> (slot: Result<u32, AssembleError>)
    ensures
        match slot {
            Ok(id) => jump_slot(token@, index, old(labels)@, old(slots)@) == Ok::<
                _,
                AssembleError,
            >((id, final(labels)@, final(slots)@)),
            Err(e) => jump_slot(token@, index, old(labels)@, old(slots)@) == Err::<
                (u32, Map<Seq<char>, u32>, Seq<u32>),
                _,
            >(e) && final(labels)@ == old(labels)@ && final(slots)@ == old(slots)@,
        },
{
    if token.len() == 0 {
        return Err(AssembleError::Syntax);
    }
    let first = token[0];
    if first == '-' || first == '+' || is_ascii_digit(first) {
        let target = match target_by_number(token, index) {
            Ok(target) => target,
            Err(e) => {
                return Err(e);
            },
        };
        if slots.len() >= 0xFFFF_FFFF {
            return Err(AssembleError::TooLarge);
        }
        let id = slots.len() as u32;
        slots.push(target);
        Ok(id)
    } else {
        let from: usize = if first == '.' {
            1
        } else {
            0
        };
        let name = tail(token, from);
        assert(token@.skip(0) == token@);
        match labels.find(&name) {
            Some(id) => Ok(id),
            None => {
                if slots.len() >= 0xFFFF_FFFF {
                    return Err(AssembleError::TooLarge);
                }
                let id = slots.len() as u32;
                slots.push(0);
                labels.enter(&name, id);
                Ok(id)
            },
        }
    }
}

/// A module while it is assembled.
pub struct Assembler {
    format: Format,
    usages: Vec<Vec<char>>,
    out: Output,
    scope: Scope,
    func: Vec<char>,
    labels: SymbolTable,
    slots: Vec<u32>,
    addresses: Vec<u32>,
    jumps: Vec<Reloc>,
    calls: Vec<Reloc>,
    idents: SymbolTable,
    functions: Vec<u32>,
    next_fn: u32,
    returned: bool,
    table: bool,
}

impl View for Assembler {
    type V = Machine;

    closed spec fn view(&self) -> Machine {
        Machine {
            code: self.out@,
            scope: self.scope@,
            func: self.func@,
            labels: self.labels@,
            slots: self.slots@,
            addresses: self.addresses@,
            jumps: self.jumps@,
            calls: self.calls@,
            idents: self.idents@,
            functions: self.functions@,
            next_fn: self.next_fn,
            returned: self.returned,
            table: self.table,
        }
    }
}

impl Assembler {
    /// What the assembler was set up with.
    pub closed spec fn setup(&self) -> Setup {
        Setup { format: self.format, usages: texts(self.usages@) }
    }

    pub closed spec fn wf(&self) -> bool {
        &&& self.out.wf()
        &&& self@.wf()
        &&& sorted(texts(self.usages@))
    }

    /// An assembler that has written the header and nothing else.
    pub fn new(format: Format, named: bool, globals: Vec<Vec<char>>, usages: Vec<Vec<char>>) -> (made:
        Result<Assembler, AssembleError>)
        requires
            sorted(texts(globals@)),
            sorted(texts(usages@)),
        ensures
            match made {
                Ok(a) => {
                    &&& a.wf()
                    &&& a.sound()
                    &&& a@ == Machine::initial(format, named, texts(globals@))
                    &&& a.setup() == (Setup { format, usages: texts(usages@) })
                    &&& globals.len() <= u32::MAX
                },
                Err(e) => e == AssembleError::TooLarge && globals.len() > u32::MAX,
            },
    {
        let count = globals.len();
        let scope = match Scope::new(named, globals) {
            Some(scope) => scope,
            None => {
                return Err(AssembleError::TooLarge);
            },
        };
        let mut out = Output::new();
        out.put_u32(0);
        match format {
            Format::Legacy => {},
            Format::Extended => {
                out.put_u32(0);
                out.put_u32(count as u32);
            },
        }
        let made = Assembler {
            format,
            usages,
            out,
            scope,
            func: Vec::new(),
            labels: SymbolTable::new(),
            slots: Vec::new(),
            addresses: Vec::new(),
            jumps: Vec::new(),
            calls: Vec::new(),
            idents: SymbolTable::new(),
            functions: Vec::new(),
            next_fn: 0,
            returned: true,
            table: false,
        };
        assert(made@ =~= Machine::initial(format, named, texts(globals@)));
        proof {
            lemma_initial_sound(format, named, texts(globals@));
        }
        Ok(made)
    }

    /// `@name`: a function begins.
    pub fn define_function(&mut self, token: &Vec<char>) -> (done: Result<(), AssembleError>)
        requires
            old(self).wf(),
        ensures
            final(self).wf(),
            final(self).setup() == old(self).setup(),
            agrees(done, old(self)@.define_function(old(self).setup().format, token@), final(self)@),
    {
        if !self.returned {
            return Err(AssembleError::Syntax);
        }
        let name = match name_of(self.format, token) {
            Some(name) => name,
            None => {
                return Err(AssembleError::Syntax);
            },
        };
        let ghost before = self@;
        let ghost described = intern(before.idents, before.next_fn, name@);
        if self.idents.find(&name).is_none() && self.next_fn == 0xFFFF_FFFF {
            return Err(AssembleError::TooLarge);
        }
        let at = self.out.len();
        if at > 0xFFFF_FFFF {
            return Err(AssembleError::TooLarge);
        }
        let id = match intern_name(&mut self.idents, &mut self.next_fn, &name) {
            Ok(id) => id,
            Err(e) => {
                return Err(e);
            },
        };
        grow(&mut self.functions, id);
        self.functions[id as usize] = at as u32;
        self.func = name;
        self.returned = false;
        assert(self@ =~= before.define_function(self.format, token@)->Ok_0);
        Ok(())
    }

    /// `.name`: a label stands before the next instruction.
    pub fn define_label(&mut self, token: &Vec<char>) -> (done: Result<(), AssembleError>)
        requires
            old(self).wf(),
        ensures
            final(self).wf(),
            final(self).setup() == old(self).setup(),
            agrees(done, old(self)@.define_label(old(self).setup().format, token@), final(self)@),
    {
        let name = match name_of(self.format, token) {
            Some(name) => name,
            None => {
                return Err(AssembleError::Syntax);
            },
        };
        let ghost before = self@;
        let index = self.addresses.len() as u32;
        match self.labels.find(&name) {
            Some(slot) => {
                self.slots[slot as usize] = index;
            },
            None => {
                if self.slots.len() >= 0xFFFF_FFFF {
                    return Err(AssembleError::TooLarge);
                }
                let slot = self.slots.len() as u32;
                self.slots.push(index);
                self.labels.enter(&name, slot);
            },
        }
        assert(self@ =~= before.define_label(self.format, token@)->Ok_0);
        Ok(())
    }

    /// The variable that an instruction writes to.
    pub fn put_target(&mut self, token: &Vec<char>) -> (done: Result<(), AssembleError>)
        requires
            old(self).wf(),
        ensures
            final(self).wf(),
            final(self).setup() == old(self).setup(),
            agrees(done, old(self)@.put_target(old(self).setup().format, token@), final(self)@),
    {
        let ghost before = self@;
        let from: usize = if token.len() > 0 && token[0] == '$' {
            1
        } else {
            0
        };
        let plain = tail(token, from);
        assert(token@.skip(0) == token@);
        let deref = self.format == Format::Extended && plain.len() > 0 && plain[0] == '*';
        let skip: usize = if deref {
            1
        } else {
            0
        };
        let name = tail(&plain, skip);
        assert(plain@.skip(0) == plain@);
        let id = match self.scope.resolve(&self.func, &name) {
            Ok(id) => id,
            Err(e) => {
                return Err(e);
            },
        };
        if deref {
            self.out.put_u8(DEREF);
        }
        self.out.put_u32(id);
        assert(self@ =~= before.put_target(self.format, token@)->Ok_0);
        Ok(())
    }

    /// A value in an operand position.
    pub fn put_value(&mut self, slot: Slot, token: &Vec<char>, float: Option<u64>) -> (done: Result<
        (),
        AssembleError,
    >)
        requires
            old(self).wf(),
        ensures
            final(self).wf(),
            final(self).setup() == old(self).setup(),
            agrees(
                done,
                old(self)@.put_value(old(self).setup().format, slot, token@, float),
                final(self)@,
            ),
    {
        let ghost before = self@;
        match push_operand(
            self.format,
            slot,
            &mut self.out,
            token,
            float,
            &mut self.scope,
            &self.func,
        ) {
            Ok(_) => {
                assert(self@ =~= before.put_value(self.format, slot, token@, float)->Ok_0);
                Ok(())
            },
            Err(e) => Err(e),
        }
    }

    /// Where a jump goes.
    pub fn put_jump(&mut self, token: &Vec<char>) -> (done: Result<(), AssembleError>)
        requires
            old(self).wf(),
        ensures
            final(self).wf(),
            final(self).setup() == old(self).setup(),
            agrees(done, old(self)@.put_jump(old(self).setup().format, token@), final(self)@),
    {
        let ghost before = self@;
        if self.format == Format::Extended && token.len() > 0 && token[0] == '$' {
            let name = tail(token, 1);
            let id = match self.scope.resolve(&self.func, &name) {
                Ok(id) => id,
                Err(e) => {
                    return Err(e);
                },
            };
            self.out.put_u8(VARIABLE);
            self.out.put_u32(id);
            self.table = true;
            assert(self@ =~= before.put_jump(self.format, token@)->Ok_0);
            return Ok(());
        }
        let at = self.out.len();
        if at > 0xFFFF_FFFF || self.addresses.len() == 0 {
            return Err(AssembleError::TooLarge);
        }
        let index = (self.addresses.len() - 1) as u32;
        let id = match jump_target(token, index, &mut self.labels, &mut self.slots) {
            Ok(id) => id,
            Err(e) => {
                return Err(e);
            },
        };
        self.jumps.push(Reloc { at: at as u32, id });
        self.out.put_u32(id);
        assert(self@ =~= before.put_jump(self.format, token@)->Ok_0);
        Ok(())
    }

    /// What a call calls.
    pub fn put_callee(&mut self, token: &Vec<char>) -> (done: Result<(), AssembleError>)
        requires
            old(self).wf(),
        ensures
            final(self).wf(),
            final(self).setup() == old(self).setup(),
            agrees(done, old(self)@.put_callee(old(self).setup(), token@), final(self)@),
    {
        let ghost before = self@;
        if self.format == Format::Extended && (token.len() == 0 || !is_name_start(token[0])) {
            return Err(AssembleError::Syntax);
        }
        let upper = to_uppercase(token);
        let id = builtin_of(&upper);
        let is_builtin = match self.format {
            Format::Legacy => id != 0,
            Format::Extended => {
                match search(&self.usages, &upper) {
                    Ok(i) => {
                        assert(texts(self.usages@)[i as int] == upper@);
                        true
                    },
                    Err(_) => false,
                }
            },
        };
        if is_builtin {
            self.out.put_u8(BUILTIN);
            self.out.put_u32(id);
            assert(self@ =~= before.put_callee(self.setup(), token@)->Ok_0);
            return Ok(());
        }
        let at = self.out.len();
        if self.idents.find(token).is_none() && self.next_fn == 0xFFFF_FFFF {
            return Err(AssembleError::TooLarge);
        }
        if at > 0xFFFF_FFFF {
            return Err(AssembleError::TooLarge);
        }
        let id = match intern_name(&mut self.idents, &mut self.next_fn, token) {
            Ok(id) => id,
            Err(e) => {
                return Err(e);
            },
        };
        self.calls.push(Reloc { at: at as u32, id });
        self.out.put_u32(id);
        assert(self@ =~= before.put_callee(self.setup(), token@)->Ok_0);
        Ok(())
    }

    /// The operand in position `slot`, read from the token at `pos`.
    pub fn put_operand(
        &mut self,
        slot: Slot,
        tokens: &Vec<Vec<char>>,
        floats: &Vec<Option<u64>>,
        pos: usize,
    ) -> (done: Result<(), AssembleError>)
        requires
            old(self).wf(),
        ensures
            final(self).wf(),
            final(self).setup() == old(self).setup(),
            agrees(
                done,
                old(self)@.put_operand(old(self).setup(), slot, texts(tokens@), floats@, pos as int),
                final(self)@,
            ),
    {
        if pos >= tokens.len() {
            return Err(AssembleError::Syntax);
        }
        let token = &tokens[pos];
        assert(texts(tokens@)[pos as int] == token@);
        match slot {
            Slot::Target => self.put_target(token),
            Slot::Jump => self.put_jump(token),
            Slot::Callee => self.put_callee(token),
            _ => {
                let float = if pos < floats.len() {
                    floats[pos]
                } else {
                    None
                };
                self.put_value(slot, token, float)
            },
        }
    }

    /// The instruction whose mnemonic stands at `pos`.
    pub fn instruction(&mut self, tokens: &Vec<Vec<char>>, floats: &Vec<Option<u64>>, pos: usize) -> (done:
        Result<(), AssembleError>)
        requires
            old(self).wf(),
            pos < tokens.len(),
        ensures
            final(self).wf(),
            final(self).setup() == old(self).setup(),
            agrees(
                done,
                old(self)@.instruction(old(self).setup(), texts(tokens@), floats@, pos as int),
                final(self)@,
            ),
    {
        let ghost before = self@;
        let ghost setup = self.setup();
        reveal(Machine::instruction);
        if self.format == Format::Extended && self.func.len() == 0 {
            return Err(AssembleError::Syntax);
        }
        let at = self.out.len();
        if at > 0xFFFF_FFFF || self.addresses.len() >= 0xFFFF_FFFF {
            return Err(AssembleError::TooLarge);
        }
        assert(texts(tokens@)[pos as int] == tokens[pos as int]@);
        let mnemonic = to_uppercase(&tokens[pos]);
        let code = match opcode(self.format, &mnemonic) {
            Some(code) => code,
            None => {
                return Err(AssembleError::UnknownInstruction);
            },
        };
        self.addresses.push(at as u32);
        self.out.put_u8(code);
        if code == END || code == RET {
            self.returned = true;
        }
        let ghost begun = self@;
        assert(begun =~= (Machine {
            addresses: before.addresses.push(before.code.len() as u32),
            code: before.code.push(code),
            returned: before.returned || crate::consts::ends_function(code),
            ..before
        }));
        match first_operand(code) {
            None => Ok(()),
            Some(first) => {
                match self.put_operand(first, tokens, floats, pos + 1) {
                    Err(e) => Err(e),
                    Ok(_) => match second_operand(code) {
                        None => Ok(()),
                        Some(second) => self.put_operand(second, tokens, floats, pos + 2),
                    },
                }
            },
        }
    }

    /// What the token at `pos` does.
    pub fn step(&mut self, tokens: &Vec<Vec<char>>, floats: &Vec<Option<u64>>, pos: usize) -> (done:
        Result<usize, AssembleError>)
        requires
            old(self).wf(),
            pos < tokens.len(),
        ensures
            final(self).wf(),
            final(self).setup() == old(self).setup(),
            match done {
                Ok(count) => old(self)@.step(old(self).setup(), texts(tokens@), floats@, pos as int)
                    == Ok::<Machine, AssembleError>(final(self)@) && count == 1 + trailing(
                    old(self).setup().format,
                    tokens[pos as int]@,
                ),
                Err(e) => old(self)@.step(old(self).setup(), texts(tokens@), floats@, pos as int)
                    == Err::<Machine, AssembleError>(e),
            },
    {
        let token = &tokens[pos];
        assert(texts(tokens@)[pos as int] == token@);
        reveal(Machine::step);
        proof {
            reveal_strlit(".global");
            reveal_strlit(".use");
            reveal_strlit(".extern");
            reveal_strlit(".named");
        }
        if self.format == Format::Extended {
            if is_word(token, ".global") || is_word(token, ".use") || is_word(token, ".extern") {
                return Ok(2);
            }
            if is_word(token, ".named") {
                return Ok(1);
            }
        }
        if token.len() > 0 && token[0] == '@' {
            match self.define_function(token) {
                Ok(_) => Ok(1),
                Err(e) => Err(e),
            }
        } else if token.len() > 0 && token[0] == '.' {
            match self.define_label(token) {
                Ok(_) => Ok(1),
                Err(e) => Err(e),
            }
        } else {
            let mnemonic = to_uppercase(token);
            let code = opcode(self.format, &mnemonic);
            reveal(Machine::instruction);
            match self.instruction(tokens, floats, pos) {
                Ok(_) => {
                    let first: usize = if first_operand(code.unwrap()).is_some() {
                        1
                    } else {
                        0
                    };
                    let second: usize = if second_operand(code.unwrap()).is_some() {
                        1
                    } else {
                        0
                    };
                    Ok(1 + first + second)
                },
                Err(e) => Err(e),
            }
        }
    }

    /// Reads the tokens from `from` on.
    pub fn run(&mut self, tokens: &Vec<Vec<char>>, floats: &Vec<Option<u64>>, from: usize) -> (done:
        Result<(), AssembleError>)
        requires
            old(self).wf(),
        ensures
            final(self).wf(),
            final(self).setup() == old(self).setup(),
            agrees(
                done,
                old(self)@.run(old(self).setup(), texts(tokens@), floats@, from as int),
                final(self)@,
            ),
            old(self).sound() && done is Ok ==> final(self).sound(),
    {
        let mut pos: usize = from;
        while pos < tokens.len()
            invariant
                self.wf(),
                self.setup() == old(self).setup(),
                old(self)@.run(old(self).setup(), texts(tokens@), floats@, from as int) == self@.run(
                    self.setup(),
                    texts(tokens@),
                    floats@,
                    pos as int,
                ),
            decreases tokens.len() - pos,
        {
            assert(texts(tokens@)[pos as int] == tokens[pos as int]@);
            let ghost here = self@;
            match self.step(tokens, floats, pos) {
                Ok(count) => {
                    assert(here.run(self.setup(), texts(tokens@), floats@, pos as int)
                        == self@.run(self.setup(), texts(tokens@), floats@, pos + count));
                    if count >= tokens.len() - pos {
                        pos = tokens.len();
                    } else {
                        pos = pos + count;
                    }
                },
                Err(e) => {
                    return Err(e);
                },
            }
        }
        proof {
            if old(self).sound() {
                lemma_run_sound(old(self)@, self.setup(), texts(tokens@), floats@, from as int);
            }
        }
        Ok(())
    }

    /// The number of jump placeholders that wait for their addresses.
    pub fn pending_jumps(&self) -> (count: usize)
        ensures
            count == self@.jumps.len(),
    {
        self.jumps.len()
    }

    /// The number of call placeholders that wait for their addresses.
    pub fn pending_calls(&self) -> (count: usize)
        ensures
            count == self@.calls.len(),
    {
        self.calls.len()
    }

    /// The number of bytes written so far, the header among them.
    pub fn len(&self) -> (count: usize)
        ensures
            count == self@.code.len(),
    {
        self.out.len()
    }

    /// Whether the code and its placeholders are as the main pass keeps
    /// them.
    pub closed spec fn sound(&self) -> bool {
        sound(self@, self.format)
    }

    /// The module: the code with its header filled in, its address table
    /// appended where it is needed, and its placeholders resolved.
    pub fn finish(self) -> (module: Result<Vec<u8>, AssembleError>)
        requires
            self.wf(),
            self.sound(),
        ensures
            match module {
                Ok(bytes) => link(self@) == Ok::<Seq<u8>, AssembleError>(bytes@),
                Err(e) => link(self@) == Err::<Seq<u8>, AssembleError>(e),
            },
    {
        let ghost m = self@;
        let ghost format = self.format;
        let Assembler { out, jumps, calls, slots, addresses, functions, idents, table, .. } = self;
        let mut out = out;
        let main = to_chars("main");
        let entry = match idents.find(&main) {
            Some(id) => {
                if (id as usize) < functions.len() && functions[id as usize] != 0 {
                    functions[id as usize]
                } else {
                    return Err(AssembleError::MissingEntryPoint);
                }
            },
            None => {
                return Err(AssembleError::MissingEntryPoint);
            },
        };
        out.patch_u32(0, entry);
        if table {
            let len = out.len();
            if len > 0xFFFF_FFFF {
                return Err(AssembleError::TooLarge);
            }
            out.patch_u32(4, len as u32);
            let ghost base = out@;
            let mut i: usize = 0;
            assert(addresses@.take(0) == Seq::<u32>::empty());
            assert(base + address_table(addresses@.take(0)) == base);
            while i < addresses.len()
                invariant
                    i <= addresses.len(),
                    out.wf(),
                    out@ == base + address_table(addresses@.take(i as int)),
                decreases addresses.len() - i,
            {
                out.put_u32(addresses[i]);
                proof {
                    assert(addresses@.take(i + 1).drop_last() == addresses@.take(i as int));
                    assert(out@ =~= base + address_table(addresses@.take(i + 1)));
                }
                i += 1;
            }
            assert(addresses@.take(i as int) == addresses@);
        }
        let ghost head = out@;
        assert(headed(m) == Ok::<Seq<u8>, AssembleError>(head));
        let mut j: usize = 0;
        while j < jumps.len()
            invariant
                j <= jumps.len(),
                out.wf(),
                out@.len() == head.len(),
                head.len() >= m.code.len(),
                jumps@ == m.jumps,
                slots@ == m.slots,
                addresses@ == m.addresses,
                sound(m, format),
                m == self@,
                headed(m) == Ok::<Seq<u8>, AssembleError>(head),
                resolved_jumps(head, m, j as nat) == Ok::<Seq<u8>, AssembleError>(out@),
            decreases jumps.len() - j,
        {
            let r = jumps[j];
            assert(placed(m.jumps[j as int], format, m.code));
            let slot = r.id as usize;
            if slot >= slots.len() || slots[slot] as usize >= addresses.len() {
                proof {
                    lemma_jumps_fail(head, m, (j + 1) as nat, jumps.len() as nat);
                }
                return Err(AssembleError::UnresolvedAddress);
            }
            out.patch_u32(r.at as usize, addresses[slots[slot] as usize]);
            j += 1;
        }
        let ghost jumped = out@;
        let mut k: usize = 0;
        while k < calls.len()
            invariant
                k <= calls.len(),
                out.wf(),
                out@.len() == head.len(),
                head.len() >= m.code.len(),
                calls@ == m.calls,
                functions@ == m.functions,
                sound(m, format),
                m == self@,
                headed(m) == Ok::<Seq<u8>, AssembleError>(head),
                resolved_jumps(head, m, m.jumps.len()) == Ok::<Seq<u8>, AssembleError>(jumped),
                resolved_calls(jumped, m, k as nat) == Ok::<Seq<u8>, AssembleError>(out@),
            decreases calls.len() - k,
        {
            let r = calls[k];
            assert(placed(m.calls[k as int], format, m.code));
            let id = r.id as usize;
            if id >= functions.len() {
                proof {
                    lemma_calls_fail(jumped, m, (k + 1) as nat, calls.len() as nat);
                }
                return Err(AssembleError::UnresolvedAddress);
            }
            if functions[id] == 0 {
                proof {
                    lemma_calls_fail(jumped, m, (k + 1) as nat, calls.len() as nat);
                }
                return Err(AssembleError::UnresolvedSymbol);
            }
            out.patch_u32(r.at as usize, functions[id]);
            k += 1;
        }
        Ok(out.into_vec())
    }
}

/// Once a jump cannot be resolved, no later count of jumps can.
proof fn lemma_jumps_fail(code: Seq<u8>, m: Machine, failed: nat, count: nat)
    requires
        failed <= count,
        resolved_jumps(code, m, failed) is Err,
    ensures
        resolved_jumps(code, m, count) == resolved_jumps(code, m, failed),
    decreases count,
{
    if failed < count {
        lemma_jumps_fail(code, m, failed, (count - 1) as nat);
    }
}

/// Once a call cannot be resolved, no later count of calls can.
proof fn lemma_calls_fail(code: Seq<u8>, m: Machine, failed: nat, count: nat)
    requires
        failed <= count,
        resolved_calls(code, m, failed) is Err,
    ensures
        resolved_calls(code, m, count) == resolved_calls(code, m, failed),
    decreases count,
{
    if failed < count {
        lemma_calls_fail(code, m, failed, (count - 1) as nat);
    }
}

} // verus!
