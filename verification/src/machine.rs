//! The main pass: what the tokens of a source do, one after the other, to a
//! module that is being assembled.

use crate::buffer::le_bytes;
use crate::consts::{
    builtin_id, ends_function, first_slot, is_builtin, opcode_of, second_slot, Format, Slot, DEREF,
};
use crate::error::AssembleError;
use crate::names::ScopeView;
use crate::operand::{encoding, operand_of, Operand};
use crate::text::{is_digit, parse_unsigned, starts_name, uppercase};
use vstd::prelude::*;

verus! {

/// A placeholder of four bytes that is filled in when the whole source has
/// been read.
#[derive(Clone, Copy, Debug, PartialEq, Eq, Structural)]
pub struct Reloc {
    /// Where in the module the placeholder stands.
    pub at: u32,
    /// The label slot or function id whose address belongs there.
    pub id: u32,
}

/// What does not change while a source is assembled.
#[verifier::ext_equal]
pub struct Setup {
    pub format: Format,
    /// The builtins that the source declares with `.use`, in upper case.
    pub usages: Seq<Seq<char>>,
}

/// A module in the making.
#[verifier::ext_equal]
pub struct Machine {
    /// The bytes so far: the header, then the instructions.
    pub code: Seq<u8>,
    /// The slots of variables.
    pub scope: ScopeView,
    /// The name of the function that is being read.
    pub func: Seq<char>,
    /// The slot of each label that was met.
    pub labels: Map<Seq<char>, u32>,
    /// For each label slot, the index of the instruction it stands before.
    pub slots: Seq<u32>,
    /// For each instruction, the offset of its opcode.
    pub addresses: Seq<u32>,
    /// The placeholders of jumps; their ids are label slots.
    pub jumps: Seq<Reloc>,
    /// The placeholders of calls; their ids are function ids.
    pub calls: Seq<Reloc>,
    /// The id of each function that was met.
    pub idents: Map<Seq<char>, u32>,
    /// For each function id, the offset of the function; 0 until it is
    /// defined.
    pub functions: Seq<u32>,
    /// The next free function id.
    pub next_fn: u32,
    /// Whether the last function has ended.
    pub returned: bool,
    /// Whether a jump goes where a variable says, so that the module needs
    /// its address table.
    pub table: bool,
}

/// The name that a label or a function definition gives: what follows the
/// first character, without a colon at the end. In the extended format it has
/// to begin like a name.
pub open spec fn defined_name(format: Format, token: Seq<char>) -> Option<Seq<char>> {
    let body = if token.len() > 0 {
        token.skip(1)
    } else {
        token
    };
    if format == Format::Extended && (body.len() == 0 || !starts_name(body[0])) {
        None
    } else if body.len() > 0 && body.last() == ':' {
        Some(body.drop_last())
    } else {
        Some(body)
    }
}

/// The id of a function name: the one it has, or the next free one.
pub open spec fn intern(idents: Map<Seq<char>, u32>, next_fn: u32, name: Seq<char>) -> Result<
    (u32, Map<Seq<char>, u32>, u32),
    AssembleError,
> {
    if idents.contains_key(name) {
        Ok((idents[name], idents, next_fn))
    } else if next_fn == u32::MAX {
        Err(AssembleError::TooLarge)
    } else {
        Ok((next_fn, idents.insert(name, next_fn), (next_fn + 1) as u32))
    }
}

/// A function table made long enough to hold the given id.
pub open spec fn grown(functions: Seq<u32>, id: u32) -> Seq<u32> {
    if functions.len() <= id {
        functions + Seq::new((id + 1 - functions.len()) as nat, |i: int| 0u32)
    } else {
        functions
    }
}

/// The instruction index that a jump by number names: `-n` and `+n` count
/// from the jump itself, a plain number from the start.
pub open spec fn numbered_target(token: Seq<char>, index: u32) -> Result<u32, AssembleError>
    recommends
        token.len() > 0,
{
    if token[0] == '-' {
        match parse_unsigned(token.skip(1), u32::MAX as nat) {
            Some(back) => if back > index {
                Err(AssembleError::UnresolvedAddress)
            } else {
                Ok((index - back) as u32)
            },
            None => Err(AssembleError::Syntax),
        }
    } else if token[0] == '+' {
        match parse_unsigned(token.skip(1), u32::MAX as nat) {
            Some(ahead) => if index + ahead > u32::MAX {
                Err(AssembleError::UnresolvedAddress)
            } else {
                Ok((index + ahead) as u32)
            },
            None => Err(AssembleError::Syntax),
        }
    } else {
        match parse_unsigned(token, u32::MAX as nat) {
            Some(target) => Ok(target as u32),
            None => Err(AssembleError::Syntax),
        }
    }
}

/// The label that a jump target names: the target without a `.` before it.
pub open spec fn label_of(token: Seq<char>) -> Seq<char> {
    if token.len() > 0 && token[0] == '.' {
        token.skip(1)
    } else {
        token
    }
}

/// The label slot that a jump target stands for, with the label table and
/// the slots after the jump was read. A target given by number gets a slot
/// of its own. A label has one slot; where it is met before its definition
/// the slot holds 0 until then.
pub open spec fn jump_slot(
    token: Seq<char>,
    index: u32,
    labels: Map<Seq<char>, u32>,
    slots: Seq<u32>,
) -> Result<(u32, Map<Seq<char>, u32>, Seq<u32>), AssembleError> {
    if token.len() == 0 {
        Err(AssembleError::Syntax)
    } else if token[0] == '-' || token[0] == '+' || is_digit(token[0]) {
        match numbered_target(token, index) {
            Ok(target) => if slots.len() >= u32::MAX {
                Err(AssembleError::TooLarge)
            } else {
                Ok((slots.len() as u32, labels, slots.push(target)))
            },
            Err(e) => Err(e),
        }
    } else if labels.contains_key(label_of(token)) {
        Ok((labels[label_of(token)], labels, slots))
    } else if slots.len() >= u32::MAX {
        Err(AssembleError::TooLarge)
    } else {
        Ok(
            (
                slots.len() as u32,
                labels.insert(label_of(token), slots.len() as u32),
                slots.push(0),
            ),
        )
    }
}

/// The float image that belongs to the token at `pos`.
pub open spec fn float_at(floats: Seq<Option<u64>>, pos: int) -> Option<u64> {
    if 0 <= pos < floats.len() {
        floats[pos]
    } else {
        None
    }
}

impl Machine {
    /// Every label has a slot that exists.
    pub open spec fn wf(self) -> bool {
        &&& self.scope.wf()
        &&& self.addresses.len() <= u32::MAX
        &&& forall|name: Seq<char>| #[trigger]
            self.labels.contains_key(name) ==> self.labels[name] < self.slots.len()
    }

    /// The machine before the first token: the header with its fields at 0,
    /// but for the number of globals.
    pub open spec fn initial(format: Format, named: bool, globals: Seq<Seq<char>>) -> Machine {
        Machine {
            code: match format {
                Format::Legacy => le_bytes(0, 4),
                Format::Extended => le_bytes(0, 4) + le_bytes(0, 4) + le_bytes(globals.len(), 4),
            },
            scope: ScopeView {
                named,
                globals,
                locals: Map::empty(),
                next_var: globals.len() as u32,
            },
            func: Seq::empty(),
            labels: Map::empty(),
            slots: Seq::empty(),
            addresses: Seq::empty(),
            jumps: Seq::empty(),
            calls: Seq::empty(),
            idents: Map::empty(),
            functions: Seq::empty(),
            next_fn: 0,
            returned: true,
            table: false,
        }
    }

    /// `@name`: the function `name` begins at the end of the code. The
    /// function before it has to have ended.
    pub open spec fn define_function(self, format: Format, token: Seq<char>) -> Result<
        Machine,
        AssembleError,
    > {
        if !self.returned {
            Err(AssembleError::Syntax)
        } else {
            match defined_name(format, token) {
                None => Err(AssembleError::Syntax),
                Some(name) => match intern(self.idents, self.next_fn, name) {
                    Err(e) => Err(e),
                    Ok((id, idents, next_fn)) => if self.code.len() > u32::MAX {
                        Err(AssembleError::TooLarge)
                    } else {
                        Ok(
                            Machine {
                                idents,
                                next_fn,
                                functions: grown(self.functions, id).update(
                                    id as int,
                                    self.code.len() as u32,
                                ),
                                func: name,
                                returned: false,
                                ..self
                            },
                        )
                    },
                },
            }
        }
    }

    /// `.name`: the label `name` stands before the next instruction.
    pub open spec fn define_label(self, format: Format, token: Seq<char>) -> Result<
        Machine,
        AssembleError,
    > {
        match defined_name(format, token) {
            None => Err(AssembleError::Syntax),
            Some(name) => if self.labels.contains_key(name) {
                Ok(
                    Machine {
                        slots: self.slots.update(
                            self.labels[name] as int,
                            self.addresses.len() as u32,
                        ),
                        ..self
                    },
                )
            } else if self.slots.len() >= u32::MAX {
                Err(AssembleError::TooLarge)
            } else {
                Ok(
                    Machine {
                        labels: self.labels.insert(name, self.slots.len() as u32),
                        slots: self.slots.push(self.addresses.len() as u32),
                        ..self
                    },
                )
            },
        }
    }

    /// The variable that an instruction writes to: a name with or without
    /// `$` before it, in the extended format also `*name` for what the
    /// variable refers to.
    pub open spec fn put_target(self, format: Format, token: Seq<char>) -> Result<
        Machine,
        AssembleError,
    > {
        let plain = if token.len() > 0 && token[0] == '$' {
            token.skip(1)
        } else {
            token
        };
        let deref = format == Format::Extended && plain.len() > 0 && plain[0] == '*';
        let name = if deref {
            plain.skip(1)
        } else {
            plain
        };
        match self.scope.resolve(self.func, name) {
            Err(e) => Err(e),
            Ok((id, scope)) => Ok(
                Machine {
                    code: self.code + (if deref {
                        seq![DEREF]
                    } else {
                        Seq::empty()
                    }) + le_bytes(id as nat, 4),
                    scope,
                    ..self
                },
            ),
        }
    }

    /// A value in an operand position.
    pub open spec fn put_value(
        self,
        format: Format,
        slot: Slot,
        token: Seq<char>,
        float: Option<u64>,
    ) -> Result<Machine, AssembleError> {
        match operand_of(format, slot, token, float, self.scope, self.func) {
            Err(e) => Err(e),
            Ok((operand, scope)) => Ok(
                Machine { code: self.code + encoding(operand), scope, ..self },
            ),
        }
    }

    /// Where a jump goes. In the extended format `$name` has the variable
    /// say it when the module runs. Any other target leaves a placeholder
    /// that holds its label slot.
    pub open spec fn put_jump(self, format: Format, token: Seq<char>) -> Result<
        Machine,
        AssembleError,
    > {
        if format == Format::Extended && token.len() > 0 && token[0] == '$' {
            match self.scope.resolve(self.func, token.skip(1)) {
                Err(e) => Err(e),
                Ok((id, scope)) => Ok(
                    Machine {
                        code: self.code + encoding(Operand::Variable(id)),
                        scope,
                        table: true,
                        ..self
                    },
                ),
            }
        } else if self.code.len() > u32::MAX || self.addresses.len() == 0 {
            Err(AssembleError::TooLarge)
        } else {
            match jump_slot(
                token,
                (self.addresses.len() - 1) as u32,
                self.labels,
                self.slots,
            ) {
                Err(e) => Err(e),
                Ok((id, labels, slots)) => Ok(
                    Machine {
                        code: self.code + le_bytes(id as nat, 4),
                        labels,
                        slots,
                        jumps: self.jumps.push(Reloc { at: self.code.len() as u32, id }),
                        ..self
                    },
                ),
            }
        }
    }

    /// Whether a call goes to a builtin: in the extended format to one that
    /// the source declares, in the legacy format to any in the registry.
    pub open spec fn calls_builtin(setup: Setup, token: Seq<char>) -> bool {
        match setup.format {
            Format::Legacy => is_builtin(uppercase(token)),
            Format::Extended => setup.usages.contains(uppercase(token)),
        }
    }

    /// What a call calls: a builtin by its id, or a function, which leaves a
    /// placeholder that holds its function id.
    pub open spec fn put_callee(self, setup: Setup, token: Seq<char>) -> Result<
        Machine,
        AssembleError,
    > {
        if setup.format == Format::Extended && (token.len() == 0 || !starts_name(token[0])) {
            Err(AssembleError::Syntax)
        } else if Self::calls_builtin(setup, token) {
            Ok(
                Machine {
                    code: self.code + encoding(Operand::Builtin(builtin_id(uppercase(token)))),
                    ..self
                },
            )
        } else {
            match intern(self.idents, self.next_fn, token) {
                Err(e) => Err(e),
                Ok((id, idents, next_fn)) => if self.code.len() > u32::MAX {
                    Err(AssembleError::TooLarge)
                } else {
                    Ok(
                        Machine {
                            code: self.code + le_bytes(id as nat, 4),
                            idents,
                            next_fn,
                            calls: self.calls.push(Reloc { at: self.code.len() as u32, id }),
                            ..self
                        },
                    )
                },
            }
        }
    }

    /// The operand in position `slot`, read from the token at `pos`.
    pub open spec fn put_operand(
        self,
        setup: Setup,
        slot: Slot,
        tokens: Seq<Seq<char>>,
        floats: Seq<Option<u64>>,
        pos: int,
    ) -> Result<Machine, AssembleError> {
        if pos >= tokens.len() {
            Err(AssembleError::Syntax)
        } else {
            match slot {
                Slot::Target => self.put_target(setup.format, tokens[pos]),
                Slot::Jump => self.put_jump(setup.format, tokens[pos]),
                Slot::Callee => self.put_callee(setup, tokens[pos]),
                _ => self.put_value(setup.format, slot, tokens[pos], float_at(floats, pos)),
            }
        }
    }

    /// The instruction whose mnemonic stands at `pos`: its address is
    /// recorded, then come its opcode and its operands.
    #[verifier::opaque]
    pub open spec fn instruction(
        self,
        setup: Setup,
        tokens: Seq<Seq<char>>,
        floats: Seq<Option<u64>>,
        pos: int,
    ) -> Result<Machine, AssembleError> {
        if setup.format == Format::Extended && self.func.len() == 0 {
            Err(AssembleError::Syntax)
        } else if self.code.len() > u32::MAX || self.addresses.len() >= u32::MAX {
            Err(AssembleError::TooLarge)
        } else {
            match opcode_of(setup.format, uppercase(tokens[pos])) {
                None => Err(AssembleError::UnknownInstruction),
                Some(code) => {
                    let begun = Machine {
                        addresses: self.addresses.push(self.code.len() as u32),
                        code: self.code.push(code),
                        returned: self.returned || ends_function(code),
                        ..self
                    };
                    match first_slot(code) {
                        None => Ok(begun),
                        Some(first) => match begun.put_operand(
                            setup,
                            first,
                            tokens,
                            floats,
                            pos + 1,
                        ) {
                            Err(e) => Err(e),
                            Ok(half) => match second_slot(code) {
                                None => Ok(half),
                                Some(second) => half.put_operand(
                                    setup,
                                    second,
                                    tokens,
                                    floats,
                                    pos + 2,
                                ),
                            },
                        },
                    }
                },
            }
        }
    }

    /// What the token at `pos` does.
    #[verifier::opaque]
    pub open spec fn step(
        self,
        setup: Setup,
        tokens: Seq<Seq<char>>,
        floats: Seq<Option<u64>>,
        pos: int,
    ) -> Result<Machine, AssembleError> {
        let token = tokens[pos];
        if is_directive(setup.format, token) {
            Ok(self)
        } else if token.len() > 0 && token[0] == '@' {
            self.define_function(setup.format, token)
        } else if token.len() > 0 && token[0] == '.' {
            self.define_label(setup.format, token)
        } else {
            self.instruction(setup, tokens, floats, pos)
        }
    }

    /// The machine after the tokens from `pos` on.
    pub open spec fn run(
        self,
        setup: Setup,
        tokens: Seq<Seq<char>>,
        floats: Seq<Option<u64>>,
        pos: int,
    ) -> Result<Machine, AssembleError>
        decreases left(tokens, pos),
    {
        if pos < 0 || pos >= tokens.len() {
            Ok(self)
        } else {
            match self.step(setup, tokens, floats, pos) {
                Err(e) => Err(e),
                Ok(next) => next.run(
                    setup,
                    tokens,
                    floats,
                    pos + 1 + trailing(setup.format, tokens[pos]),
                ),
            }
        }
    }
}

/// The number of tokens from `pos` on.
pub open spec fn left(tokens: Seq<Seq<char>>, pos: int) -> nat {
    if pos < tokens.len() {
        (tokens.len() - pos) as nat
    } else {
        0
    }
}

/// Whether the main pass passes over a token: the directives of the extended
/// format were read before it.
pub open spec fn is_directive(format: Format, token: Seq<char>) -> bool {
    format == Format::Extended && (token == ".global"@ || token == ".use"@ || token
        == ".extern"@ || token == ".named"@)
}

/// The number of operands of an instruction.
pub open spec fn arity(code: u8) -> nat {
    (if first_slot(code) is Some {
        1nat
    } else {
        0nat
    }) + (if second_slot(code) is Some {
        1nat
    } else {
        0nat
    })
}

/// The number of tokens behind `token` that belong to it: the name of a
/// directive, or the operands of an instruction.
pub open spec fn trailing(format: Format, token: Seq<char>) -> nat {
    if is_directive(format, token) {
        if token == ".named"@ {
            0
        } else {
            1
        }
    } else if token.len() > 0 && (token[0] == '@' || token[0] == '.') {
        0
    } else {
        match opcode_of(format, uppercase(token)) {
            None => 0,
            Some(code) => arity(code),
        }
    }
}

} // verus!
