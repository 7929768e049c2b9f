//! Operands: what a token in an operand position means and the bytes that
//! stand for it in a module.

use crate::buffer::{le_bytes, lemma_le_bytes_len, string_bytes, twos_complement, Output};
use crate::consts::{
    Format, Slot, ARGUMENT, BOOLEAN_FALSE, BOOLEAN_TRUE, BUILTIN, CHAR, DEREF, FLOAT, INTEGER,
    LITERAL, NULL, REFERENCE, VARIABLE,
};
use crate::error::AssembleError;
use crate::names::{Scope, ScopeView};
use crate::text::{
    has_char, head, is_word, parse_signed, parse_unsigned, read_i64, read_u16, read_u32, tail,
    to_chars, to_text, utf8_len,
};
use vstd::prelude::*;

verus! {

/// What an operand is, as the module format knows it.
pub enum Operand {
    /// A string, its escapes resolved.
    Literal(Seq<char>),
    /// The variable in a slot.
    Variable(u32),
    /// A reference to the variable in a slot.
    Reference(u32),
    /// What the variable in a slot refers to.
    Dereference(u32),
    /// The argument with a given index.
    ArgumentIndex(u16),
    /// The argument whose index the variable in a slot holds.
    ArgumentSlot(u32),
    /// A character, by its code point.
    Char(u32),
    Integer(i64),
    /// A floating-point number, by its IEEE 754 binary64 image.
    Float(u64),
    Bool(bool),
    Null,
    /// A builtin, by its id.
    Builtin(u32),
}

/// The bytes of an operand: its tag, then its payload.
pub open spec fn encoding(operand: Operand) -> Seq<u8> {
    match operand {
        Operand::Literal(text) => seq![LITERAL] + string_bytes(text),
        Operand::Variable(slot) => seq![VARIABLE] + le_bytes(slot as nat, 4),
        Operand::Reference(slot) => seq![REFERENCE] + le_bytes(slot as nat, 4),
        Operand::Dereference(slot) => seq![DEREF] + le_bytes(slot as nat, 4),
        Operand::ArgumentIndex(index) => seq![ARGUMENT, 0u8] + le_bytes(index as nat, 2),
        Operand::ArgumentSlot(slot) => seq![ARGUMENT, VARIABLE] + le_bytes(slot as nat, 4),
        Operand::Char(code) => seq![CHAR] + le_bytes(code as nat, 4),
        Operand::Integer(value) => seq![INTEGER] + le_bytes(twos_complement(value), 8),
        Operand::Float(image) => seq![FLOAT] + le_bytes(image as nat, 8),
        Operand::Bool(value) => seq![if value { BOOLEAN_TRUE } else { BOOLEAN_FALSE }],
        Operand::Null => seq![NULL],
        Operand::Builtin(id) => seq![BUILTIN] + le_bytes(id as nat, 4),
    }
}

/// The forms that a token in an operand position can have.
#[derive(Clone, Copy, Debug, PartialEq, Eq, Structural)]
pub enum Kind {
    /// `#text`
    Literal,
    /// `$name`
    Variable,
    /// `&name`
    Reference,
    /// `*name`
    Dereference,
    /// `%n` or `%$name`
    Argument,
    /// `'c'`
    Quoted,
    True,
    False,
    Null,
    /// A code point in decimal digits, followed by `c`.
    CharCode,
    /// Digits with a `.`
    Float,
    /// Anything else: it has to be an integer.
    Integer,
}

/// The form of a token, which its first character decides, and for a token
/// without a sigil, its text. The legacy format knows neither dereferences
/// nor characters nor null.
pub open spec fn kind_of(format: Format, token: Seq<char>) -> Kind
    recommends
        token.len() > 0,
{
    if token[0] == '#' {
        Kind::Literal
    } else if token[0] == '$' {
        Kind::Variable
    } else if token[0] == '&' {
        Kind::Reference
    } else if token[0] == '%' {
        Kind::Argument
    } else if format == Format::Extended && token[0] == '*' {
        Kind::Dereference
    } else if format == Format::Extended && token[0] == '\'' {
        Kind::Quoted
    } else if token == "true"@ {
        Kind::True
    } else if token == "false"@ {
        Kind::False
    } else if format == Format::Extended && token == "null"@ {
        Kind::Null
    } else if format == Format::Extended && token.last() == 'c' {
        Kind::CharCode
    } else if token.contains('.') {
        Kind::Float
    } else {
        Kind::Integer
    }
}

pub fn classify(format: Format, token: &Vec<char>) -> (kind: Kind)
    requires
        token.len() > 0,
    ensures
        kind == kind_of(format, token@),
{
    let first = token[0];
    if first == '#' {
        Kind::Literal
    } else if first == '$' {
        Kind::Variable
    } else if first == '&' {
        Kind::Reference
    } else if first == '%' {
        Kind::Argument
    } else if format == Format::Extended && first == '*' {
        Kind::Dereference
    } else if format == Format::Extended && first == '\'' {
        Kind::Quoted
    } else if is_word(token, "true") {
        Kind::True
    } else if is_word(token, "false") {
        Kind::False
    } else if format == Format::Extended && is_word(token, "null") {
        Kind::Null
    } else if format == Format::Extended && token[token.len() - 1] == 'c' {
        Kind::CharCode
    } else if has_char(token, '.') {
        Kind::Float
    } else {
        Kind::Integer
    }
}

/// Whether an operand position takes a token of the given form. A string is
/// no primitive, a boolean is no number, and where text is wanted only a
/// string, a variable, an argument or null will do.
pub open spec fn allowed(slot: Slot, kind: Kind) -> bool {
    match slot {
        Slot::Primitive => kind != Kind::Literal,
        Slot::Number => kind != Kind::Literal && kind != Kind::True && kind != Kind::False,
        Slot::Text => kind == Kind::Literal || kind == Kind::Variable || kind == Kind::Reference
            || kind == Kind::Dereference || kind == Kind::Argument || kind == Kind::Null,
        _ => true,
    }
}

pub fn is_allowed(slot: Slot, kind: Kind) -> (r: bool)
    ensures
        r == allowed(slot, kind),
{
    match slot {
        Slot::Primitive => kind != Kind::Literal,
        Slot::Number => kind != Kind::Literal && kind != Kind::True && kind != Kind::False,
        Slot::Text => kind == Kind::Literal || kind == Kind::Variable || kind == Kind::Reference
            || kind == Kind::Dereference || kind == Kind::Argument || kind == Kind::Null,
        _ => true,
    }
}

/// The character that stands behind a backslash for the given one.
pub open spec fn escape_value(c: char) -> char {
    if c == 'f' {
        '\x0C'
    } else if c == 'b' {
        '\x08'
    } else if c == 's' {
        ' '
    } else if c == 'r' {
        '\r'
    } else if c == 'n' {
        '\n'
    } else if c == 't' {
        '\t'
    } else if c == '0' {
        '\0'
    } else {
        c
    }
}

/// Whether every backslash of a text has a character behind it.
pub open spec fn well_escaped(s: Seq<char>) -> bool
    decreases s.len(),
{
    if s.len() == 0 {
        true
    } else if s[0] == '\\' {
        s.len() >= 2 && well_escaped(s.skip(2))
    } else {
        well_escaped(s.skip(1))
    }
}

/// A text with its escapes resolved: each backslash and the character behind
/// it become one character.
pub open spec fn unescape(s: Seq<char>) -> Seq<char>
    decreases s.len(),
{
    if s.len() == 0 {
        Seq::empty()
    } else if s[0] == '\\' {
        if s.len() >= 2 {
            seq![escape_value(s[1])] + unescape(s.skip(2))
        } else {
            Seq::empty()
        }
    } else {
        seq![s[0]] + unescape(s.skip(1))
    }
}

/// `format_escaped` of mvutils: the text with each backslash and the
/// character behind it replaced by the character they stand for. It panics
/// on a backslash at the very end.
#[verifier::external_body]
fn format_escaped(input: &str) -> (output: String)
    requires
        well_escaped(input@),
    ensures
        output@ == unescape(input@),
{
    mvutils::utils::format_escaped(input)
}

pub fn is_well_escaped(s: &Vec<char>) -> (r: bool)
    ensures
        r == well_escaped(s@),
{
    let mut i: usize = 0;
    assert(s@.skip(0) == s@);
    while i < s.len()
        invariant
            i <= s.len(),
            well_escaped(s@) == well_escaped(s@.skip(i as int)),
        decreases s.len() - i,
    {
        let ghost rest = s@.skip(i as int);
        assert(rest[0] == s@[i as int]);
        if s[i] == '\\' {
            if s.len() - i < 2 {
                return false;
            }
            assert(rest.skip(2) == s@.skip(i + 2));
            i += 2;
        } else {
            assert(rest.skip(1) == s@.skip(i + 1));
            i += 1;
        }
    }
    true
}

/// A text without its single quotes.
pub open spec fn unquote(s: Seq<char>) -> Seq<char>
    decreases s.len(),
{
    if s.len() == 0 {
        Seq::empty()
    } else if s.last() == '\'' {
        unquote(s.drop_last())
    } else {
        unquote(s.drop_last()).push(s.last())
    }
}

/// The escapes that a character literal may hold.
pub open spec fn known_escape(c: char) -> bool {
    c == 'f' || c == 'b' || c == 's' || c == 'r' || c == 'n' || c == 't' || c == '0' || c == '\\'
}

/// The character that a quoted token writes: between the quotes stands one
/// character that is no backslash, or a backslash and the letter of a known
/// escape.
pub open spec fn char_literal(token: Seq<char>) -> Option<char> {
    let body = unquote(token);
    if body.len() == 1 && body[0] != '\\' {
        Some(body[0])
    } else if body.len() == 2 && body[0] == '\\' && known_escape(body[1]) {
        Some(escape_value(body[1]))
    } else {
        None
    }
}

pub fn parse_char(token: &Vec<char>) -> (c: Option<char>)
    ensures
        c == char_literal(token@),
{
    let mut body: Vec<char> = Vec::new();
    let mut i: usize = 0;
    assert(token@.take(0) == Seq::<char>::empty());
    while i < token.len()
        invariant
            i <= token.len(),
            body@ == unquote(token@.take(i as int)),
        decreases token.len() - i,
    {
        assert(token@.take(i + 1).drop_last() == token@.take(i as int));
        if token[i] != '\'' {
            body.push(token[i]);
        }
        i += 1;
    }
    assert(token@.take(i as int) == token@);
    if body.len() == 1 && body[0] != '\\' {
        Some(body[0])
    } else if body.len() == 2 && body[0] == '\\' {
        let c = body[1];
        if c == 'f' {
            Some('\x0C')
        } else if c == 'b' {
            Some('\x08')
        } else if c == 's' {
            Some(' ')
        } else if c == 'r' {
            Some('\r')
        } else if c == 'n' {
            Some('\n')
        } else if c == 't' {
            Some('\t')
        } else if c == '0' {
            Some('\0')
        } else if c == '\\' {
            Some('\\')
        } else {
            None
        }
    } else {
        None
    }
}

/// Whether a character marks a variable, a reference or a dereference.
pub open spec fn marks_variable(c: char) -> bool {
    c == '$' || c == '&' || c == '*'
}

/// The longest string that fits a module: its length and the five bytes
/// around it have to fit 32 bits.
pub open spec fn fits(text: Seq<char>) -> bool {
    vstd::utf8::encode_utf8(text).len() + 5 <= u32::MAX
}

/// What a token means in an operand position, and the scope after it was
/// read. `float` is the binary64 image of the token where the token writes a
/// floating-point number.
pub open spec fn operand_of(
    format: Format,
    slot: Slot,
    token: Seq<char>,
    float: Option<u64>,
    scope: ScopeView,
    func: Seq<char>,
) -> Result<(Operand, ScopeView), AssembleError> {
    if token.len() == 0 {
        Err(AssembleError::Syntax)
    } else if !allowed(slot, kind_of(format, token)) {
        Err(AssembleError::TypeConstraint)
    } else {
        match kind_of(format, token) {
            Kind::Literal => if !well_escaped(token.skip(1)) {
                Err(AssembleError::Syntax)
            } else if !fits(unescape(token.skip(1))) {
                Err(AssembleError::TooLarge)
            } else {
                Ok((Operand::Literal(unescape(token.skip(1))), scope))
            },
            Kind::Variable => match scope.resolve(func, token.skip(1)) {
                Ok((id, after)) => Ok((Operand::Variable(id), after)),
                Err(e) => Err(e),
            },
            Kind::Reference => match scope.resolve(func, token.skip(1)) {
                Ok((id, after)) => Ok((Operand::Reference(id), after)),
                Err(e) => Err(e),
            },
            Kind::Dereference => match scope.resolve(func, token.skip(1)) {
                Ok((id, after)) => Ok((Operand::Dereference(id), after)),
                Err(e) => Err(e),
            },
            Kind::Argument => if format == Format::Legacy {
                Err(AssembleError::Syntax)
            } else if token.len() >= 2 && marks_variable(token[1]) {
                match scope.resolve(func, token.skip(2)) {
                    Ok((id, after)) => Ok((Operand::ArgumentSlot(id), after)),
                    Err(e) => Err(e),
                }
            } else {
                match parse_unsigned(token.skip(1), u16::MAX as nat) {
                    Some(index) => Ok((Operand::ArgumentIndex(index as u16), scope)),
                    None => Err(AssembleError::Syntax),
                }
            },
            Kind::Quoted => match char_literal(token) {
                Some(c) => Ok((Operand::Char(c as u32), scope)),
                None => Err(AssembleError::Syntax),
            },
            Kind::True => Ok((Operand::Bool(true), scope)),
            Kind::False => Ok((Operand::Bool(false), scope)),
            Kind::Null => Ok((Operand::Null, scope)),
            Kind::CharCode => match parse_unsigned(token.drop_last(), u32::MAX as nat) {
                Some(code) => Ok((Operand::Char(code as u32), scope)),
                None => Err(AssembleError::Syntax),
            },
            Kind::Float => match float {
                Some(image) => Ok((Operand::Float(image), scope)),
                None => Err(AssembleError::Syntax),
            },
            Kind::Integer => match parse_signed(token) {
                Some(value) => Ok((Operand::Integer(value as i64), scope)),
                None => Err(AssembleError::Syntax),
            },
        }
    }
}

pub proof fn lemma_encoding_len(operand: Operand)
    ensures
        encoding(operand).len() == (match operand {
            Operand::Literal(text) => 5 + vstd::utf8::encode_utf8(text).len(),
            Operand::ArgumentIndex(_) => 4,
            Operand::ArgumentSlot(_) => 6,
            Operand::Integer(_) => 9,
            Operand::Float(_) => 9,
            Operand::Bool(_) => 1,
            Operand::Null => 1,
            _ => 5,
        }),
{
    match operand {
        Operand::Literal(text) => {
            lemma_le_bytes_len(vstd::utf8::encode_utf8(text).len(), 4);
        },
        Operand::Variable(slot) => lemma_le_bytes_len(slot as nat, 4),
        Operand::Reference(slot) => lemma_le_bytes_len(slot as nat, 4),
        Operand::Dereference(slot) => lemma_le_bytes_len(slot as nat, 4),
        Operand::ArgumentIndex(index) => lemma_le_bytes_len(index as nat, 2),
        Operand::ArgumentSlot(slot) => lemma_le_bytes_len(slot as nat, 4),
        Operand::Char(code) => lemma_le_bytes_len(code as nat, 4),
        Operand::Integer(value) => lemma_le_bytes_len(twos_complement(value), 8),
        Operand::Float(image) => lemma_le_bytes_len(image as nat, 8),
        Operand::Bool(_) => {},
        Operand::Null => {},
        Operand::Builtin(id) => lemma_le_bytes_len(id as nat, 4),
    }
}

/// Reads the token in an operand position and appends the bytes of the
/// operand. Returns the number of bytes appended.
pub fn push_operand(
    format: Format,
    slot: Slot,
    buffer: &mut Output,
    token: &Vec<char>,
    float: Option<u64>,
    scope: &mut Scope,
    func: &Vec<char>,
) -> (written: Result<u32, AssembleError>)
    requires
        old(buffer).wf(),
        old(scope)@.wf(),
    ensures
        final(buffer).wf(),
        final(scope)@.wf(),
        match written {
            Ok(count) => {
                let read = operand_of(format, slot, token@, float, old(scope)@, func@);
                &&& read is Ok
                &&& final(scope)@ == read->Ok_0.1
                &&& final(buffer)@ == old(buffer)@ + encoding(read->Ok_0.0)
                &&& count == encoding(read->Ok_0.0).len()
            },
            Err(e) => operand_of(format, slot, token@, float, old(scope)@, func@) == Err::<
                (Operand, ScopeView),
                _,
            >(e),
        },
{
    if token.len() == 0 {
        return Err(AssembleError::Syntax);
    }
    let kind = classify(format, token);
    if !is_allowed(slot, kind) {
        return Err(AssembleError::TypeConstraint);
    }
    let ghost read = operand_of(format, slot, token@, float, scope@, func@);
    proof {
        if read is Ok {
            lemma_encoding_len(read->Ok_0.0);
        }
    }
    match kind {
        Kind::Literal => {
            let rest = tail(token, 1);
            if !is_well_escaped(&rest) {
                return Err(AssembleError::Syntax);
            }
            let raw = to_text(&rest);
            let text = format_escaped(raw.as_str());
            let len = utf8_len(text.as_str());
            if len > 0xFFFF_FFFA {
                return Err(AssembleError::TooLarge);
            }
            buffer.put_u8(LITERAL);
            buffer.put_string(text.as_str());
            assert(buffer@ =~= old(buffer)@ + encoding(read->Ok_0.0));
            Ok((len + 5) as u32)
        },
        Kind::Variable | Kind::Reference | Kind::Dereference => {
            let rest = tail(token, 1);
            let id = match scope.resolve(func, &rest) {
                Ok(id) => id,
                Err(e) => {
                    return Err(e);
                },
            };
            let tag = match kind {
                Kind::Variable => VARIABLE,
                Kind::Reference => REFERENCE,
                _ => DEREF,
            };
            buffer.put_u8(tag);
            buffer.put_u32(id);
            assert(buffer@ =~= old(buffer)@ + encoding(read->Ok_0.0));
            Ok(5)
        },
        Kind::Argument => {
            if format == Format::Legacy {
                return Err(AssembleError::Syntax);
            }
            if token.len() >= 2 && (token[1] == '$' || token[1] == '&' || token[1] == '*') {
                let rest = tail(token, 2);
                let id = match scope.resolve(func, &rest) {
                    Ok(id) => id,
                    Err(e) => {
                        return Err(e);
                    },
                };
                buffer.put_u8(ARGUMENT);
                buffer.put_u8(VARIABLE);
                buffer.put_u32(id);
                assert(buffer@ =~= old(buffer)@ + encoding(read->Ok_0.0));
                Ok(6)
            } else {
                let rest = tail(token, 1);
                let index = match read_u16(&rest) {
                    Some(index) => index,
                    None => {
                        return Err(AssembleError::Syntax);
                    },
                };
                buffer.put_u8(ARGUMENT);
                buffer.put_u8(0);
                buffer.put_u16(index);
                assert(buffer@ =~= old(buffer)@ + encoding(read->Ok_0.0));
                Ok(4)
            }
        },
        Kind::Quoted => {
            let c = match parse_char(token) {
                Some(c) => c,
                None => {
                    return Err(AssembleError::Syntax);
                },
            };
            buffer.put_u8(CHAR);
            buffer.put_u32(c as u32);
            assert(buffer@ =~= old(buffer)@ + encoding(read->Ok_0.0));
            Ok(5)
        },
        Kind::True => {
            buffer.put_u8(BOOLEAN_TRUE);
            assert(buffer@ =~= old(buffer)@ + encoding(read->Ok_0.0));
            Ok(1)
        },
        Kind::False => {
            buffer.put_u8(BOOLEAN_FALSE);
            assert(buffer@ =~= old(buffer)@ + encoding(read->Ok_0.0));
            Ok(1)
        },
        Kind::Null => {
            buffer.put_u8(NULL);
            assert(buffer@ =~= old(buffer)@ + encoding(read->Ok_0.0));
            Ok(1)
        },
        Kind::CharCode => {
            let digits = head(token, token.len() - 1);
            assert(digits@ == token@.drop_last());
            let code = match read_u32(&digits) {
                Some(code) => code,
                None => {
                    return Err(AssembleError::Syntax);
                },
            };
            buffer.put_u8(CHAR);
            buffer.put_u32(code);
            assert(buffer@ =~= old(buffer)@ + encoding(read->Ok_0.0));
            Ok(5)
        },
        Kind::Float => {
            let image = match float {
                Some(image) => image,
                None => {
                    return Err(AssembleError::Syntax);
                },
            };
            buffer.put_u8(FLOAT);
            buffer.put_u64(image);
            assert(buffer@ =~= old(buffer)@ + encoding(read->Ok_0.0));
            Ok(9)
        },
        Kind::Integer => {
            let value = match read_i64(token) {
                Some(value) => value,
                None => {
                    return Err(AssembleError::Syntax);
                },
            };
            buffer.put_u8(INTEGER);
            buffer.put_i64(value);
            assert(buffer@ =~= old(buffer)@ + encoding(read->Ok_0.0));
            Ok(9)
        },
    }
}

/// Whether `written` is what reading `token` in position `slot` gives:
/// the count of the bytes that were appended to `before`, or the refusal.
pub open spec fn pushed(
    written: Result<u32, AssembleError>,
    format: Format,
    slot: Slot,
    token: Seq<char>,
    float: Option<u64>,
    func: Seq<char>,
    before: (Seq<u8>, ScopeView),
    after: (Seq<u8>, ScopeView),
) -> bool {
    let read = operand_of(format, slot, token, float, before.1, func);
    match written {
        Ok(count) => {
            &&& read is Ok
            &&& after.1 == read->Ok_0.1
            &&& after.0 == before.0 + encoding(read->Ok_0.0)
            &&& count == encoding(read->Ok_0.0).len()
        },
        Err(e) => read == Err::<(Operand, ScopeView), _>(e),
    }
}

/// Appends a value of any kind, read from `token`. Returns the number of
/// bytes appended.
pub fn push_val(
    buffer: &mut Output,
    token: &str,
    float: Option<u64>,
    scope: &mut Scope,
    func: &str,
) -> (written: Result<u32, AssembleError>)
    requires
        old(buffer).wf(),
        old(scope)@.wf(),
    ensures
        final(buffer).wf(),
        final(scope)@.wf(),
        pushed(
            written,
            Format::Extended,
            Slot::Value,
            token@,
            float,
            func@,
            (old(buffer)@, old(scope)@),
            (final(buffer)@, final(scope)@),
        ),
{
    let token = to_chars(token);
    let func = to_chars(func);
    push_operand(Format::Extended, Slot::Value, buffer, &token, float, scope, &func)
}

/// Appends a value that is no string, read from `token`. Returns the
/// number of bytes appended.
pub fn push_prim_val(
    buffer: &mut Output,
    token: &str,
    float: Option<u64>,
    scope: &mut Scope,
    func: &str,
) -> (written: Result<u32, AssembleError>)
    requires
        old(buffer).wf(),
        old(scope)@.wf(),
    ensures
        final(buffer).wf(),
        final(scope)@.wf(),
        pushed(
            written,
            Format::Extended,
            Slot::Primitive,
            token@,
            float,
            func@,
            (old(buffer)@, old(scope)@),
            (final(buffer)@, final(scope)@),
        ),
{
    let token = to_chars(token);
    let func = to_chars(func);
    push_operand(Format::Extended, Slot::Primitive, buffer, &token, float, scope, &func)
}

/// Appends a value that is neither a string nor a boolean, read from
/// `token`. Returns the number of bytes appended.
pub fn push_num_val(
    buffer: &mut Output,
    token: &str,
    float: Option<u64>,
    scope: &mut Scope,
    func: &str,
) -> (written: Result<u32, AssembleError>)
    requires
        old(buffer).wf(),
        old(scope)@.wf(),
    ensures
        final(buffer).wf(),
        final(scope)@.wf(),
        pushed(
            written,
            Format::Extended,
            Slot::Number,
            token@,
            float,
            func@,
            (old(buffer)@, old(scope)@),
            (final(buffer)@, final(scope)@),
        ),
{
    let token = to_chars(token);
    let func = to_chars(func);
    push_operand(Format::Extended, Slot::Number, buffer, &token, float, scope, &func)
}

/// Appends a string, a variable, an argument or null, read from `token`.
/// Returns the number of bytes appended.
pub fn push_str_var(buffer: &mut Output, token: &str, scope: &mut Scope, func: &str) -> (written:
    Result<u32, AssembleError>)
    requires
        old(buffer).wf(),
        old(scope)@.wf(),
    ensures
        final(buffer).wf(),
        final(scope)@.wf(),
        pushed(
            written,
            Format::Extended,
            Slot::Text,
            token@,
            None,
            func@,
            (old(buffer)@, old(scope)@),
            (final(buffer)@, final(scope)@),
        ),
{
    let token = to_chars(token);
    let func = to_chars(func);
    push_operand(Format::Extended, Slot::Text, buffer, &token, None, scope, &func)
}

} // verus!
