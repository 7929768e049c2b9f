//! The tokens of the scripting language.

use crate::operand::{char_literal, parse_char};
use crate::text::{
    has_char, is_ascii_digit, is_digit, is_space, is_whitespace, is_word, parse_signed, read_i64,
    to_text,
};
use vstd::prelude::*;

verus! {

#[derive(Clone, Copy, Debug, PartialEq, Eq, Structural)]
pub enum Keyword {
    Include,
    Use,
    Let,
    Fn,
    If,
    Else,
    While,
    For,
    Return,
}

#[derive(Clone, Copy, Debug, PartialEq, Eq, Structural)]
pub enum Operator {
    Plus,
    PlusPlus,
    Minus,
    MinusMinus,
    Multiply,
    Divide,
    Modulo,
    Assign,
    Equal,
    NotEqual,
    LessThan,
    GreaterThan,
    LessOrEqual,
    GreaterOrEqual,
    And,
    BitwiseAnd,
    Or,
    BitwiseOr,
    Xor,
    Not,
    LeftShift,
    LogicalRightShift,
    ArithmeticRightShift,
}

#[derive(Debug, PartialEq)]
pub enum Literal {
    Integer(i64),
    /// A floating-point number, as the source writes it.
    Float(String),
    Char(char),
    String(String),
    Bool(bool),
    Null,
}

#[derive(Debug, PartialEq)]
pub enum Token {
    Identifier(String),
    Keyword(Keyword),
    Operator(Operator),
    OperatorAssign(Operator),
    Literal(Literal),
    LParen,
    RParen,
    LSquare,
    RSquare,
    LCurly,
    RCurly,
    Comma,
    Dot,
    Colon,
    Semicolon,
    Arrow,
    ThickArrow,
    Eof,
}

/// A literal, its texts taken as character sequences.
pub enum LiteralModel {
    Integer(i64),
    Float(Seq<char>),
    Char(char),
    String(Seq<char>),
    Bool(bool),
    Null,
}

/// A token, its texts taken as character sequences.
pub enum TokenModel {
    Identifier(Seq<char>),
    Keyword(Keyword),
    Operator(Operator),
    OperatorAssign(Operator),
    Literal(LiteralModel),
    LParen,
    RParen,
    LSquare,
    RSquare,
    LCurly,
    RCurly,
    Comma,
    Dot,
    Colon,
    Semicolon,
    Arrow,
    ThickArrow,
    Eof,
}

impl View for Literal {
    type V = LiteralModel;

    open spec fn view(&self) -> LiteralModel {
        match self {
            Literal::Integer(v) => LiteralModel::Integer(*v),
            Literal::Float(text) => LiteralModel::Float(text@),
            Literal::Char(c) => LiteralModel::Char(*c),
            Literal::String(text) => LiteralModel::String(text@),
            Literal::Bool(b) => LiteralModel::Bool(*b),
            Literal::Null => LiteralModel::Null,
        }
    }
}

impl View for Token {
    type V = TokenModel;

    open spec fn view(&self) -> TokenModel {
        match self {
            Token::Identifier(name) => TokenModel::Identifier(name@),
            Token::Keyword(word) => TokenModel::Keyword(*word),
            Token::Operator(op) => TokenModel::Operator(*op),
            Token::OperatorAssign(op) => TokenModel::OperatorAssign(*op),
            Token::Literal(literal) => TokenModel::Literal(literal@),
            Token::LParen => TokenModel::LParen,
            Token::RParen => TokenModel::RParen,
            Token::LSquare => TokenModel::LSquare,
            Token::RSquare => TokenModel::RSquare,
            Token::LCurly => TokenModel::LCurly,
            Token::RCurly => TokenModel::RCurly,
            Token::Comma => TokenModel::Comma,
            Token::Dot => TokenModel::Dot,
            Token::Colon => TokenModel::Colon,
            Token::Semicolon => TokenModel::Semicolon,
            Token::Arrow => TokenModel::Arrow,
            Token::ThickArrow => TokenModel::ThickArrow,
            Token::Eof => TokenModel::Eof,
        }
    }
}

/// Why a token could not be read.
#[derive(Clone, Copy, Debug, PartialEq, Eq, Structural)]
pub enum LexError {
    /// Between two single quotes stands no character.
    Char,
    /// A number has more than one `.`.
    Float,
    /// A whole number does not fit 64 bits.
    Integer,
}

/// Whether a character is alphabetic, as Unicode has it.
pub uninterp spec fn alphabetic(c: char) -> bool;

/// `char::is_alphabetic` of std.
#[verifier::external_body]
fn is_alphabetic(c: char) -> (r: bool)
    ensures
        r == alphabetic(c),
{
    c.is_alphabetic()
}

/// The keyword that a word is, if it is one.
pub open spec fn keyword_of(word: Seq<char>) -> Option<Keyword> {
    if word == "include"@ {
        Some(Keyword::Include)
    } else if word == "use"@ {
        Some(Keyword::Use)
    } else if word == "let"@ {
        Some(Keyword::Let)
    } else if word == "fn"@ {
        Some(Keyword::Fn)
    } else if word == "if"@ {
        Some(Keyword::If)
    } else if word == "else"@ {
        Some(Keyword::Else)
    } else if word == "while"@ {
        Some(Keyword::While)
    } else if word == "for"@ {
        Some(Keyword::For)
    } else if word == "return"@ {
        Some(Keyword::Return)
    } else {
        None
    }
}

pub fn keyword(word: &Vec<char>) -> (found: Option<Keyword>)
    ensures
        found == keyword_of(word@),
{
    if is_word(word, "include") {
        Some(Keyword::Include)
    } else if is_word(word, "use") {
        Some(Keyword::Use)
    } else if is_word(word, "let") {
        Some(Keyword::Let)
    } else if is_word(word, "fn") {
        Some(Keyword::Fn)
    } else if is_word(word, "if") {
        Some(Keyword::If)
    } else if is_word(word, "else") {
        Some(Keyword::Else)
    } else if is_word(word, "while") {
        Some(Keyword::While)
    } else if is_word(word, "for") {
        Some(Keyword::For)
    } else if is_word(word, "return") {
        Some(Keyword::Return)
    } else {
        None
    }
}

/// The token that a word is: a boolean, null, a keyword or an identifier.
pub open spec fn word_token(word: Seq<char>) -> TokenModel {
    if word == "true"@ {
        TokenModel::Literal(LiteralModel::Bool(true))
    } else if word == "false"@ {
        TokenModel::Literal(LiteralModel::Bool(false))
    } else if word == "null"@ {
        TokenModel::Literal(LiteralModel::Null)
    } else {
        match keyword_of(word) {
            Some(k) => TokenModel::Keyword(k),
            None => TokenModel::Identifier(word),
        }
    }
}

/// The token that a number text is. A text with a `.` is a floating-point
/// number and has to have one `.` only; any other is a whole number.
pub open spec fn number_token(text: Seq<char>) -> Result<TokenModel, LexError> {
    if text.contains('.') {
        if dots(text) == 1 {
            Ok(TokenModel::Literal(LiteralModel::Float(text)))
        } else {
            Err(LexError::Float)
        }
    } else {
        match parse_signed(text) {
            Some(v) => Ok(TokenModel::Literal(LiteralModel::Integer(v as i64))),
            None => Err(LexError::Integer),
        }
    }
}

/// The number of `.` in a text.
pub open spec fn dots(text: Seq<char>) -> nat
    decreases text.len(),
{
    if text.len() == 0 {
        0
    } else {
        dots(text.drop_last()) + (if text.last() == '.' {
            1nat
        } else {
            0nat
        })
    }
}

/// Whether a character can stand in a word behind its first one.
pub open spec fn in_word(c: char) -> bool {
    is_digit(c) || ('a' <= c && c <= 'z') || ('A' <= c && c <= 'Z') || c == '_'
}

pub fn is_in_word(c: char) -> (r: bool)
    ensures
        r == in_word(c),
{
    is_ascii_digit(c) || ('a' <= c && c <= 'z') || ('A' <= c && c <= 'Z') || c == '_'
}

/// Whether a character can stand in a number.
pub open spec fn in_number(c: char) -> bool {
    is_digit(c) || c == '.'
}

/// The number of characters at the start of `s` that can stand in a word.
pub open spec fn word_run(s: Seq<char>) -> nat
    decreases s.len(),
{
    if s.len() > 0 && in_word(s[0]) {
        1 + word_run(s.skip(1))
    } else {
        0
    }
}

/// The number of characters at the start of `s` that can stand in a number.
pub open spec fn number_run(s: Seq<char>) -> nat
    decreases s.len(),
{
    if s.len() > 0 && in_number(s[0]) {
        1 + number_run(s.skip(1))
    } else {
        0
    }
}

/// The number of characters of `s` before the first `stop`.
pub open spec fn run_until(s: Seq<char>, stop: char) -> nat
    decreases s.len(),
{
    if s.len() > 0 && s[0] != stop {
        1 + run_until(s.skip(1), stop)
    } else {
        0
    }
}

/// The number of characters of a block comment, counted from behind its
/// first `/`: all up to the first `*` that a `/` follows, and those two.
pub open spec fn block_run(s: Seq<char>) -> nat
    decreases s.len(),
{
    if s.len() == 0 {
        0
    } else if s[0] == '*' && s.len() > 1 && s[1] == '/' {
        2
    } else {
        1 + block_run(s.skip(1))
    }
}

pub proof fn lemma_runs(s: Seq<char>, stop: char)
    ensures
        word_run(s) <= s.len(),
        number_run(s) <= s.len(),
        run_until(s, stop) <= s.len(),
        block_run(s) <= s.len(),
    decreases s.len(),
{
    if s.len() > 0 {
        lemma_runs(s.skip(1), stop);
    }
}

/// `s` from position `n` on; nothing where `s` is shorter.
pub open spec fn from(s: Seq<char>, n: nat) -> Seq<char> {
    if n <= s.len() {
        s.skip(n as int)
    } else {
        Seq::empty()
    }
}

/// A token and what is left of the text behind it.
pub struct Lexed {
    pub token: Result<TokenModel, LexError>,
    pub rest: Seq<char>,
}

/// What follows the first character `ch` of a token, `r` being the text
/// behind that character.
pub open spec fn lex_from(ch: char, r: Seq<char>) -> Lexed {
    if ch == '/' {
        if r.len() > 0 && r[0] == '=' {
            Lexed { token: Ok(TokenModel::OperatorAssign(Operator::Divide)), rest: r.skip(1) }
        } else {
            Lexed { token: Ok(TokenModel::Operator(Operator::Divide)), rest: r }
        }
    } else if ch == '\'' {
        Lexed {
            token: match char_literal(r.take(run_until(r, '\'') as int)) {
                Some(c) => Ok(TokenModel::Literal(LiteralModel::Char(c))),
                None => Err(LexError::Char),
            },
            rest: from(r, run_until(r, '\'') + 1),
        }
    } else if ch == '"' {
        Lexed {
            token: Ok(
                TokenModel::Literal(LiteralModel::String(r.take(run_until(r, '"') as int))),
            ),
            rest: from(r, run_until(r, '"') + 1),
        }
    } else if alphabetic(ch) {
        Lexed {
            token: Ok(word_token(seq![ch] + r.take(word_run(r) as int))),
            rest: r.skip(word_run(r) as int),
        }
    } else if is_digit(ch) {
        let digits = seq![ch] + r.take(number_run(r) as int);
        let after = r.skip(number_run(r) as int);
        if after.len() > 0 && after[0] == 'f' {
            Lexed {
                token: number_token(
                    if digits.contains('.') {
                        digits
                    } else {
                        digits.push('.')
                    },
                ),
                rest: after.skip(1),
            }
        } else {
            Lexed { token: number_token(digits), rest: after }
        }
    } else {
        Lexed { token: Ok(TokenModel::Literal(LiteralModel::Char(ch))), rest: r }
    }
}

/// Whether a comment begins at the start of `s`.
pub open spec fn is_comment(s: Seq<char>) -> bool {
    s.len() > 1 && s[0] == '/' && (s[1] == '/' || s[1] == '*')
}

/// The number of characters that a comment at the start of `s` takes up: a
/// line comment goes up to the end of its line, a block comment up to the
/// first `*` that a `/` follows.
pub open spec fn comment_run(s: Seq<char>) -> nat
    recommends
        is_comment(s),
{
    if s[1] == '/' {
        if 1 + run_until(s.skip(1), '\n') < s.len() {
            2 + run_until(s.skip(1), '\n')
        } else {
            s.len()
        }
    } else {
        1 + block_run(s.skip(1))
    }
}

/// The first token of a text and the text behind it. Separators and
/// comments before the token are passed over.
pub open spec fn lex(s: Seq<char>) -> Lexed
    decreases s.len(),
    via lex_decreases
{
    if s.len() == 0 {
        Lexed { token: Ok(TokenModel::Eof), rest: s }
    } else if is_space(s[0]) {
        lex(s.skip(1))
    } else if is_comment(s) {
        lex(s.skip(comment_run(s) as int))
    } else {
        lex_from(s[0], s.skip(1))
    }
}

#[via_fn]
proof fn lex_decreases(s: Seq<char>) {
    if s.len() > 0 && !is_space(s[0]) && is_comment(s) {
        lemma_runs(s.skip(1), '\n');
    }
}

/// What is left to read of a source.
pub struct Lexer {
    chars: Vec<char>,
    pos: usize,
}

impl View for Lexer {
    type V = Seq<char>;

    closed spec fn view(&self) -> Seq<char> {
        self.chars@.skip(self.pos as int)
    }
}

impl Lexer {
    pub closed spec fn wf(&self) -> bool {
        self.pos <= self.chars.len()
    }

    pub fn new(src: String) -> (lexer: Lexer)
        ensures
            lexer.wf(),
            lexer@ == src@,
    {
        let chars = crate::text::to_chars(src.as_str());
        assert(chars@.skip(0) == chars@);
        Lexer { chars, pos: 0 }
    }

    /// The token whose first character `ch` was passed over.
    fn token_from(&mut self, ch: char) -> (token: Result<Token, LexError>)
        requires
            old(self).wf(),
        ensures
            final(self).wf(),
            final(self)@ == lex_from(ch, old(self)@).rest,
            match token {
                Ok(t) => lex_from(ch, old(self)@).token == Ok::<TokenModel, LexError>(t@),
                Err(e) => lex_from(ch, old(self)@).token == Err::<TokenModel, LexError>(e),
            },
    {
        let ghost r = self@;
        let len = self.chars.len();
        let pos = self.pos;
        assert(pos < len ==> r[0] == self.chars[pos as int]);
        if ch == '/' {
            if pos < len && self.chars[pos] == '=' {
                self.pos = pos + 1;
                assert(self@ == r.skip(1));
                Ok(Token::OperatorAssign(Operator::Divide))
            } else {
                Ok(Token::Operator(Operator::Divide))
            }
        } else if ch == '\'' || ch == '"' {
            let to = scan_until(&self.chars, pos, ch);
            let body = slice(&self.chars, pos, to);
            assert(body@ == r.take(run_until(r, ch) as int));
            if to < len {
                self.pos = to + 1;
                assert(self@ == r.skip(run_until(r, ch) as int + 1));
            } else {
                self.pos = len;
                assert(self@ =~= Seq::<char>::empty());
            }
            if ch == '"' {
                Ok(Token::Literal(Literal::String(to_text(&body))))
            } else {
                match parse_char(&body) {
                    Some(c) => Ok(Token::Literal(Literal::Char(c))),
                    None => Err(LexError::Char),
                }
            }
        } else if is_alphabetic(ch) {
            let to = scan_word(&self.chars, pos);
            let mut word: Vec<char> = Vec::new();
            word.push(ch);
            append(&mut word, &self.chars, pos, to);
            assert(word@ == seq![ch] + r.take(word_run(r) as int));
            self.pos = to;
            assert(self@ == r.skip(word_run(r) as int));
            if is_word(&word, "true") {
                Ok(Token::Literal(Literal::Bool(true)))
            } else if is_word(&word, "false") {
                Ok(Token::Literal(Literal::Bool(false)))
            } else if is_word(&word, "null") {
                Ok(Token::Literal(Literal::Null))
            } else {
                match keyword(&word) {
                    Some(k) => Ok(Token::Keyword(k)),
                    None => Ok(Token::Identifier(to_text(&word))),
                }
            }
        } else if is_ascii_digit(ch) {
            let to = scan_number(&self.chars, pos);
            let mut digits: Vec<char> = Vec::new();
            digits.push(ch);
            append(&mut digits, &self.chars, pos, to);
            assert(digits@ == seq![ch] + r.take(number_run(r) as int));
            let ghost after = r.skip(number_run(r) as int);
            assert(to < len ==> after[0] == self.chars[to as int]);
            if to < len && self.chars[to] == 'f' {
                self.pos = to + 1;
                assert(self@ == after.skip(1));
                if !has_char(&digits, '.') {
                    digits.push('.');
                }
            } else {
                self.pos = to;
                assert(self@ == after);
            }
            number(&digits)
        } else {
            Ok(Token::Literal(Literal::Char(ch)))
        }
    }

    /// Reads the next token. At the end of the source that is `Eof`.
    pub fn next_token(&mut self) -> (token: Result<Token, LexError>)
        requires
            old(self).wf(),
        ensures
            final(self).wf(),
            final(self)@ == lex(old(self)@).rest,
            match token {
                Ok(t) => lex(old(self)@).token == Ok::<TokenModel, LexError>(t@),
                Err(e) => lex(old(self)@).token == Err::<TokenModel, LexError>(e),
            },
    {
        loop
            invariant
                self.wf(),
                lex(old(self)@) == lex(self@),
            decreases self.chars.len() - self.pos,
        {
            let ghost s = self@;
            let len = self.chars.len();
            let pos = self.pos;
            if pos >= len {
                return Ok(Token::Eof);
            }
            let ch = self.chars[pos];
            assert(s[0] == ch);
            if is_whitespace(ch) {
                self.pos = pos + 1;
                assert(self@ == s.skip(1));
                continue ;
            }
            if ch == '/' && len - pos > 1 && (self.chars[pos + 1] == '/' || self.chars[pos + 1]
                == '*') {
                assert(s[1] == self.chars[pos + 1]);
                assert(s.skip(1) == self.chars@.skip(pos + 1));
                if self.chars[pos + 1] == '/' {
                    let to = scan_until(&self.chars, pos + 1, '\n');
                    if to < len {
                        self.pos = to + 1;
                    } else {
                        self.pos = len;
                    }
                } else {
                    let to = scan_block(&self.chars, pos + 1);
                    self.pos = to;
                }
                assert(self@ == s.skip(comment_run(s) as int));
                continue ;
            }
            self.pos = pos + 1;
            assert(self@ == s.skip(1));
            return self.token_from(ch);
        }
    }

    /// Reads the next token; `None` at the end of the source.
    pub fn next(&mut self) -> (token: Result<Option<Token>, LexError>)
        requires
            old(self).wf(),
        ensures
            final(self).wf(),
            final(self)@ == lex(old(self)@).rest,
            match token {
                Ok(Some(t)) => lex(old(self)@).token == Ok::<TokenModel, LexError>(t@) && !(t@
                    is Eof),
                Ok(None) => lex(old(self)@).token == Ok::<TokenModel, LexError>(TokenModel::Eof),
                Err(e) => lex(old(self)@).token == Err::<TokenModel, LexError>(e),
            },
    {
        match self.next_token() {
            Ok(Token::Eof) => Ok(None),
            Ok(token) => Ok(Some(token)),
            Err(e) => Err(e),
        }
    }
}

/// The characters of `chars` from `from` to `to`.
fn slice(chars: &Vec<char>, from: usize, to: usize) -> (out: Vec<char>)
    requires
        from <= to <= chars.len(),
    ensures
        out@ == chars@.subrange(from as int, to as int),
        out@ == chars@.skip(from as int).take(to - from),
{
    let mut out: Vec<char> = Vec::new();
    append(&mut out, chars, from, to);
    assert(out@ =~= chars@.subrange(from as int, to as int));
    assert(out@ =~= chars@.skip(from as int).take(to - from));
    out
}

/// Appends the characters of `chars` from `from` to `to`.
fn append(out: &mut Vec<char>, chars: &Vec<char>, from: usize, to: usize)
    requires
        from <= to <= chars.len(),
    ensures
        final(out)@ == old(out)@ + chars@.subrange(from as int, to as int),
        final(out)@ == old(out)@ + chars@.skip(from as int).take(to - from),
{
    let mut i: usize = from;
    assert(out@ =~= old(out)@ + chars@.subrange(from as int, i as int));
    while i < to
        invariant
            from <= i <= to <= chars.len(),
            out@ == old(out)@ + chars@.subrange(from as int, i as int),
        decreases to - i,
    {
        out.push(chars[i]);
        i += 1;
        assert(out@ =~= old(out)@ + chars@.subrange(from as int, i as int));
    }
    assert(chars@.subrange(from as int, to as int) =~= chars@.skip(from as int).take(to - from));
}

/// The end of the run of word characters that begins at `from`.
fn scan_word(chars: &Vec<char>, from: usize) -> (to: usize)
    requires
        from <= chars.len(),
    ensures
        from <= to <= chars.len(),
        to - from == word_run(chars@.skip(from as int)),
{
    let ghost s = chars@.skip(from as int);
    let mut i: usize = from;
    assert(s.skip(0) == s);
    while i < chars.len() && is_in_word(chars[i])
        invariant
            from <= i <= chars.len(),
            s == chars@.skip(from as int),
            word_run(s) == (i - from) + word_run(s.skip(i - from)),
        decreases chars.len() - i,
    {
        assert(s.skip(i - from)[0] == chars[i as int]);
        assert(s.skip(i - from).skip(1) == s.skip(i - from + 1));
        i += 1;
    }
    assert(i < chars.len() ==> s.skip(i - from)[0] == chars[i as int]);
    i
}

pub fn is_in_number(c: char) -> (r: bool)
    ensures
        r == in_number(c),
{
    is_ascii_digit(c) || c == '.'
}

/// The end of the run of number characters that begins at `from`.
fn scan_number(chars: &Vec<char>, from: usize) -> (to: usize)
    requires
        from <= chars.len(),
    ensures
        from <= to <= chars.len(),
        to - from == number_run(chars@.skip(from as int)),
{
    let ghost s = chars@.skip(from as int);
    let mut i: usize = from;
    assert(s.skip(0) == s);
    while i < chars.len() && is_in_number(chars[i])
        invariant
            from <= i <= chars.len(),
            s == chars@.skip(from as int),
            number_run(s) == (i - from) + number_run(s.skip(i - from)),
        decreases chars.len() - i,
    {
        assert(s.skip(i - from)[0] == chars[i as int]);
        assert(s.skip(i - from).skip(1) == s.skip(i - from + 1));
        i += 1;
    }
    assert(i < chars.len() ==> s.skip(i - from)[0] == chars[i as int]);
    i
}

/// The place of the first `stop` from `from` on, or the end.
fn scan_until(chars: &Vec<char>, from: usize, stop: char) -> (to: usize)
    requires
        from <= chars.len(),
    ensures
        from <= to <= chars.len(),
        to - from == run_until(chars@.skip(from as int), stop),
{
    let ghost s = chars@.skip(from as int);
    let mut i: usize = from;
    assert(s.skip(0) == s);
    while i < chars.len() && chars[i] != stop
        invariant
            from <= i <= chars.len(),
            s == chars@.skip(from as int),
            run_until(s, stop) == (i - from) + run_until(s.skip(i - from), stop),
        decreases chars.len() - i,
    {
        assert(s.skip(i - from)[0] == chars[i as int]);
        assert(s.skip(i - from).skip(1) == s.skip(i - from + 1));
        i += 1;
    }
    assert(i < chars.len() ==> s.skip(i - from)[0] == chars[i as int]);
    i
}

/// The end of the block comment whose `*` stands at `from`.
fn scan_block(chars: &Vec<char>, from: usize) -> (to: usize)
    requires
        from <= chars.len(),
    ensures
        from <= to <= chars.len(),
        to - from == block_run(chars@.skip(from as int)),
{
    let ghost s = chars@.skip(from as int);
    let mut i: usize = from;
    assert(s.skip(0) == s);
    while i < chars.len()
        invariant
            from <= i <= chars.len(),
            s == chars@.skip(from as int),
            block_run(s) == (i - from) + block_run(s.skip(i - from)),
        decreases chars.len() - i,
    {
        let ghost rest = s.skip(i - from);
        assert(rest[0] == chars[i as int]);
        assert(rest.skip(1) == s.skip(i - from + 1));
        if chars[i] == '*' && chars.len() - i > 1 && chars[i + 1] == '/' {
            assert(rest[1] == chars[i + 1]);
            return i + 2;
        }
        i += 1;
    }
    i
}

/// The token that a number text is.
fn number(text: &Vec<char>) -> (token: Result<Token, LexError>)
    ensures
        match token {
            Ok(t) => number_token(text@) == Ok::<TokenModel, LexError>(t@),
            Err(e) => number_token(text@) == Err::<TokenModel, LexError>(e),
        },
{
    if has_char(text, '.') {
        let mut count: usize = 0;
        let mut i: usize = 0;
        assert(text@.take(0) == Seq::<char>::empty());
        while i < text.len()
            invariant
                i <= text.len(),
                count <= i,
                count == dots(text@.take(i as int)),
            decreases text.len() - i,
        {
            assert(text@.take(i + 1).drop_last() == text@.take(i as int));
            if text[i] == '.' {
                count += 1;
            }
            i += 1;
        }
        assert(text@.take(i as int) == text@);
        if count == 1 {
            Ok(Token::Literal(Literal::Float(to_text(text))))
        } else {
            Err(LexError::Float)
        }
    } else {
        match read_i64(text) {
            Some(v) => Ok(Token::Literal(Literal::Integer(v))),
            None => Err(LexError::Integer),
        }
    }
}

} // verus!
