//! The parser of the scripting language. The lexer hands out no
//! punctuation, and expressions, statements and types have no grammar, so
//! that every element of a source is refused with a message that names what
//! was expected.

use crate::ast::{
    Block, Declaration, Element, Expression, Function, Program, Statement, TopLevelStatement, Type,
};
use crate::lexer::{lemma_runs, lex, Keyword, LexError, Lexer, Operator, Token, TokenModel};
use crate::text::is_space;
use vstd::prelude::*;

verus! {

/// Why a part of a source was refused.
#[derive(Debug)]
pub struct ParseError {
    pub message: String,
}

impl ParseError {
    pub fn new(message: &str) -> (error: ParseError)
        ensures
            error.message@ == message@,
    {
        ParseError { message: message.to_string() }
    }

    /// The refusal of a token that could not be read.
    pub fn of(error: LexError) -> (refusal: ParseError)
        ensures
            refusal.message@ == lex_fault(error),
    {
        match error {
            LexError::Char => ParseError::new("Failed to parse char"),
            LexError::Float => ParseError::new("Failed to parse float"),
            LexError::Integer => ParseError::new("Failed to parse integer"),
        }
    }
}

/// The message for a token that could not be read.
pub open spec fn lex_fault(error: LexError) -> Seq<char> {
    match error {
        LexError::Char => "Failed to parse char"@,
        LexError::Float => "Failed to parse float"@,
        LexError::Integer => "Failed to parse integer"@,
    }
}

/// A refusal: its message and what is left of the source.
pub struct Refusal {
    pub message: Seq<char>,
    pub rest: Seq<char>,
}

/// The lexer hands out the end of the source, `/`, `/=`, words and
/// literals, and nothing else.
pub open spec fn handed_out(token: TokenModel) -> bool {
    token is Eof || token is Operator || token is OperatorAssign || token is Literal
        || token is Identifier || token is Keyword
}

pub proof fn lemma_lex_tokens(s: Seq<char>)
    ensures
        lex(s).token is Ok ==> handed_out(lex(s).token->Ok_0),
        lex(s).rest.len() <= s.len(),
        lex(s).token is Ok && !(lex(s).token->Ok_0 is Eof) ==> lex(s).rest.len() < s.len(),
        lex(s).token == Ok::<TokenModel, LexError>(TokenModel::Eof) ==> lex(s).rest.len() == 0,
    decreases s.len(),
{
    if s.len() == 0 {
    } else if is_space(s[0]) {
        lemma_lex_tokens(s.skip(1));
    } else if crate::lexer::is_comment(s) {
        lemma_runs(s.skip(1), '\n');
        lemma_lex_tokens(s.skip(crate::lexer::comment_run(s) as int));
    } else {
        let r = s.skip(1);
        lemma_runs(r, '\'');
        lemma_runs(r, '"');
    }
}

/// How `use` is refused: a name has to follow it, and behind the name the
/// source has to end, after which a second name is missed.
pub open spec fn use_refused(s: Seq<char>) -> Refusal {
    let first = lex(s);
    match first.token {
        Err(e) => Refusal { message: lex_fault(e), rest: first.rest },
        Ok(TokenModel::Identifier(_)) => {
            let second = lex(first.rest);
            match second.token {
                Err(e) => Refusal { message: lex_fault(e), rest: second.rest },
                Ok(TokenModel::Eof) => Refusal {
                    message: "Use: Unexpected token, expected Identifier"@,
                    rest: second.rest,
                },
                Ok(_) => Refusal {
                    message: "Use: Unexpected token, expected ';' or ','"@,
                    rest: second.rest,
                },
            }
        },
        Ok(_) => Refusal {
            message: "Use: Unexpected token, expected Identifier"@,
            rest: first.rest,
        },
    }
}

/// How a declaration is refused.
pub open spec fn declaration_refused(s: Seq<char>) -> Refusal {
    let first = lex(s);
    match first.token {
        Err(e) => Refusal { message: lex_fault(e), rest: first.rest },
        Ok(TokenModel::Identifier(_)) => {
            let second = lex(first.rest);
            match second.token {
                Err(e) => Refusal { message: lex_fault(e), rest: second.rest },
                Ok(TokenModel::Operator(Operator::Assign)) => Refusal {
                    message: ""@,
                    rest: second.rest,
                },
                Ok(_) => Refusal {
                    message: "Let/Const: Unexpected token, expected '=' or ';'"@,
                    rest: second.rest,
                },
            }
        },
        Ok(_) => Refusal {
            message: "Let/Const: Unexpected token, expected Identifier"@,
            rest: first.rest,
        },
    }
}

/// How a function is refused.
pub open spec fn fn_refused(s: Seq<char>) -> Refusal {
    let first = lex(s);
    match first.token {
        Err(e) => Refusal { message: lex_fault(e), rest: first.rest },
        Ok(TokenModel::Identifier(_)) => {
            let second = lex(first.rest);
            match second.token {
                Err(e) => Refusal { message: lex_fault(e), rest: second.rest },
                Ok(_) => Refusal {
                    message: "Fn: Unexpected token, expected '('"@,
                    rest: second.rest,
                },
            }
        },
        Ok(_) => Refusal {
            message: "Fn: Unexpected token, expected Identifier"@,
            rest: first.rest,
        },
    }
}

/// How `include` is refused.
pub open spec fn include_refused(s: Seq<char>) -> Refusal {
    let first = lex(s);
    match first.token {
        Err(e) => Refusal { message: lex_fault(e), rest: first.rest },
        Ok(TokenModel::Identifier(_)) => {
            let second = lex(first.rest);
            match second.token {
                Err(e) => Refusal { message: lex_fault(e), rest: second.rest },
                Ok(_) => Refusal {
                    message: "Include: Unexpected token, expected ';'"@,
                    rest: second.rest,
                },
            }
        },
        Ok(_) => Refusal {
            message: "Include: Unexpected token, expected identifier"@,
            rest: first.rest,
        },
    }
}

/// How the element that begins with `token` is refused.
pub open spec fn element_refused(token: TokenModel, s: Seq<char>) -> Refusal {
    match token {
        TokenModel::Keyword(Keyword::Include) => include_refused(s),
        TokenModel::Keyword(Keyword::Use) => use_refused(s),
        TokenModel::Keyword(Keyword::Let) => declaration_refused(s),
        TokenModel::Keyword(Keyword::Fn) => fn_refused(s),
        TokenModel::Keyword(_) => Refusal {
            message: "File: Unexpected keyword, expected 'include' | 'use' | 'const' | 'let' | 'fn'"@,
            rest: s,
        },
        _ => Refusal { message: "File: Unexpected token, expected Keyword"@, rest: s },
    }
}

/// The tokens without a text of their own that the parser asks for.
#[derive(Clone, Copy, Debug, PartialEq, Eq, Structural)]
pub enum Punctuation {
    LParen,
    RParen,
    LCurly,
    RCurly,
    Comma,
    Colon,
    Semicolon,
    Arrow,
}

/// The token that a piece of punctuation is.
pub open spec fn token_of(mark: Punctuation) -> TokenModel {
    match mark {
        Punctuation::LParen => TokenModel::LParen,
        Punctuation::RParen => TokenModel::RParen,
        Punctuation::LCurly => TokenModel::LCurly,
        Punctuation::RCurly => TokenModel::RCurly,
        Punctuation::Comma => TokenModel::Comma,
        Punctuation::Colon => TokenModel::Colon,
        Punctuation::Semicolon => TokenModel::Semicolon,
        Punctuation::Arrow => TokenModel::Arrow,
    }
}

/// Whether a token is the given piece of punctuation.
pub fn is_token(token: &Token, mark: Punctuation) -> (r: bool)
    ensures
        r == (token@ == token_of(mark)),
{
    match (token, mark) {
        (Token::LParen, Punctuation::LParen) => true,
        (Token::RParen, Punctuation::RParen) => true,
        (Token::LCurly, Punctuation::LCurly) => true,
        (Token::RCurly, Punctuation::RCurly) => true,
        (Token::Comma, Punctuation::Comma) => true,
        (Token::Colon, Punctuation::Colon) => true,
        (Token::Semicolon, Punctuation::Semicolon) => true,
        (Token::Arrow, Punctuation::Arrow) => true,
        _ => false,
    }
}

pub struct Parser {
    lexer: Lexer,
    program: Program,
}

impl Parser {
    /// What is left of the source.
    pub closed spec fn rest(&self) -> Seq<char> {
        self.lexer@
    }

    pub closed spec fn wf(&self) -> bool {
        self.lexer.wf()
    }

    /// The number of elements that were read.
    pub closed spec fn count(&self) -> nat {
        self.program.elements@.len()
    }

    pub fn new(lexer: Lexer) -> (parser: Parser)
        requires
            lexer.wf(),
        ensures
            parser.wf(),
            parser.rest() == lexer@,
            parser.count() == 0,
    {
        Parser { lexer, program: Program::new() }
    }

    /// Reads the elements of the source up to the first that is refused,
    /// which is the first, and returns the elements that were read before.
    /// `Err` with them where the first token cannot be read.
    pub fn parse(self) -> (read: Result<Program, Program>)
        requires
            self.wf(),
        ensures
            match read {
                Ok(program) => lex(self.rest()).token is Ok && program.elements@.len()
                    == self.count(),
                Err(program) => lex(self.rest()).token is Err && program.elements@.len()
                    == self.count(),
            },
    {
        let mut parser = self;
        loop
            invariant
                parser.wf(),
                parser.rest() == self.rest(),
                parser.count() == self.count(),
            decreases parser.rest().len(),
        {
            let token = match parser.lexer.next() {
                Ok(Some(token)) => token,
                Ok(None) => {
                    return Ok(parser.program);
                },
                Err(_) => {
                    return Err(parser.program);
                },
            };
            match parser.parse_element(token) {
                Ok(element) => {
                    parser.program.push(element);
                },
                Err(_) => {
                    return Ok(parser.program);
                },
            }
        }
    }

    /// Reads the element that begins with `token`.
    pub fn parse_element(&mut self, token: Token) -> (read: Result<Element, ParseError>)
        requires
            old(self).wf(),
        ensures
            final(self).wf(),
            final(self).count() == old(self).count(),
            read is Err,
            read->Err_0.message@ == element_refused(token@, old(self).rest()).message,
            final(self).rest() == element_refused(token@, old(self).rest()).rest,
    {
        let ghost s = self.rest();
        proof {
            lemma_lex_tokens(s);
            lemma_lex_tokens(lex(s).rest);
        }
        match token {
            Token::Keyword(keyword) => match keyword {
                Keyword::Include => {
                    let token = match self.lexer.next_token() {
                        Ok(token) => token,
                        Err(e) => {
                            return Err(ParseError::of(e));
                        },
                    };
                    match token {
                        Token::Identifier(name) => {
                            let token = match self.lexer.next_token() {
                                Ok(token) => token,
                                Err(e) => {
                                    return Err(ParseError::of(e));
                                },
                            };
                            match token {
                                Token::Semicolon => Ok(
                                    Element::Statement(TopLevelStatement::Include(name)),
                                ),
                                _ => Err(ParseError::new("Include: Unexpected token, expected ';'")),
                            }
                        },
                        _ => Err(
                            ParseError::new("Include: Unexpected token, expected identifier"),
                        ),
                    }
                },
                Keyword::Use => match self.parse_use() {
                    Ok(names) => Ok(Element::Statement(TopLevelStatement::Use(names))),
                    Err(e) => Err(e),
                },
                Keyword::Let => match self.parse_declaration() {
                    Ok(declaration) => Ok(
                        Element::Statement(TopLevelStatement::Declaration(declaration)),
                    ),
                    Err(e) => Err(e),
                },
                Keyword::Fn => match self.parse_fn() {
                    Ok(function) => Ok(Element::Function(function)),
                    Err(e) => Err(e),
                },
                _ => Err(
                    ParseError::new(
                        "File: Unexpected keyword, expected 'include' | 'use' | 'const' | 'let' | 'fn'",
                    ),
                ),
            },
            _ => Err(ParseError::new("File: Unexpected token, expected Keyword")),
        }
    }

    /// Reads what follows `use`: a name, separators up to a `;`, and a
    /// second name. As the lexer hands out no separator, the names are
    /// refused.
    #[verifier::loop_isolation(false)]
    pub fn parse_use(&mut self) -> (read: Result<Vec<String>, ParseError>)
        requires
            old(self).wf(),
        ensures
            final(self).wf(),
            final(self).count() == old(self).count(),
            read is Err,
            read->Err_0.message@ == use_refused(old(self).rest()).message,
            final(self).rest() == use_refused(old(self).rest()).rest,
    {
        let ghost s = self.rest();
        proof {
            lemma_lex_tokens(s);
            lemma_lex_tokens(lex(s).rest);
            lemma_lex_tokens(lex(lex(s).rest).rest);
        }
        let mut res: Vec<String> = Vec::new();
        let token = match self.lexer.next_token() {
            Ok(token) => token,
            Err(e) => {
                return Err(ParseError::of(e));
            },
        };
        match token {
            Token::Identifier(usage) => {
                res.push(usage);
            },
            _ => {
                return Err(ParseError::new("Use: Unexpected token, expected Identifier"));
            },
        }
        let ghost after = self.rest();
        let mut separated = false;
        while !separated
            invariant
                self.wf(),
                self.count() == old(self).count(),
                !separated ==> self.rest() == after,
                separated ==> lex(after).token == Ok::<TokenModel, LexError>(TokenModel::Eof)
                    && self.rest() == lex(after).rest,
            decreases self.rest().len() + (if separated { 0nat } else { 1nat }),
        {
            match self.lexer.next() {
                Ok(Some(Token::Comma)) => {},
                Ok(Some(Token::Semicolon)) | Ok(None) => {
                    separated = true;
                },
                Ok(Some(_)) => {
                    return Err(ParseError::new("Use: Unexpected token, expected ';' or ','"));
                },
                Err(e) => {
                    return Err(ParseError::of(e));
                },
            }
        }
        let token = match self.lexer.next_token() {
            Ok(token) => token,
            Err(e) => {
                return Err(ParseError::of(e));
            },
        };
        match token {
            Token::Identifier(usage) => {
                res.push(usage);
            },
            _ => {
                return Err(ParseError::new("Use: Unexpected token, expected Identifier"));
            },
        }
        Ok(res)
    }

    /// Reads what follows `let`: a name, then `:` and a type, then `=` and a
    /// value or `;`. As no type and no value can be read, the declaration is
    /// refused.
    pub fn parse_declaration(&mut self) -> (read: Result<Declaration, ParseError>)
        requires
            old(self).wf(),
        ensures
            final(self).wf(),
            final(self).count() == old(self).count(),
            read is Err,
            read->Err_0.message@ == declaration_refused(old(self).rest()).message,
            final(self).rest() == declaration_refused(old(self).rest()).rest,
    {
        let ghost s = self.rest();
        proof {
            lemma_lex_tokens(s);
            lemma_lex_tokens(lex(s).rest);
        }
        let token = match self.lexer.next_token() {
            Ok(token) => token,
            Err(e) => {
                return Err(ParseError::of(e));
            },
        };
        let name = match token {
            Token::Identifier(name) => name,
            _ => {
                return Err(ParseError::new("Let/Const: Unexpected token, expected Identifier"));
            },
        };
        let mut ty: Option<Type> = None;
        let mut token = match self.lexer.next_token() {
            Ok(token) => token,
            Err(e) => {
                return Err(ParseError::of(e));
            },
        };
        if let Token::Colon = token {
            token = match self.lexer.next_token() {
                Ok(token) => token,
                Err(e) => {
                    return Err(ParseError::of(e));
                },
            };
            match token {
                Token::Keyword(word) => match Type::of(word) {
                    Some(found) => {
                        ty = Some(found);
                    },
                    None => {
                        return Err(ParseError::new("Unknown type"));
                    },
                },
                _ => {
                    return Err(ParseError::new("Let/Const: Unexpected token, expected Type"));
                },
            }
            token = match self.lexer.next_token() {
                Ok(token) => token,
                Err(e) => {
                    return Err(ParseError::of(e));
                },
            };
        }
        match token {
            Token::Operator(Operator::Assign) => {
                let value = match self.parse_expression() {
                    Ok(value) => value,
                    Err(e) => {
                        return Err(e);
                    },
                };
                match ty {
                    Some(ty) => Ok(Declaration { name, ty, value: Some(value) }),
                    None => match value.infer_type() {
                        Some(ty) => Ok(Declaration { name, ty, value: Some(value) }),
                        None => Err(ParseError::new("Let/Const: Cannot infer type for variable")),
                    },
                }
            },
            Token::Semicolon => match ty {
                Some(ty) => Ok(Declaration { name, ty, value: None }),
                None => Err(
                    ParseError::new(
                        "Let/Const: Variable without initial value must be given a type annotation",
                    ),
                ),
            },
            _ => Err(ParseError::new("Let/Const: Unexpected token, expected '=' or ';'")),
        }
    }

    /// Reads what follows `fn`: a name, the parameters in parentheses, `->`
    /// and a type where the function returns something, and the body in
    /// braces. As the lexer hands out no `(`, the function is refused
    /// before its parameters.
    #[verifier::loop_isolation(false)]
    pub fn parse_fn(&mut self) -> (read: Result<Function, ParseError>)
        requires
            old(self).wf(),
        ensures
            final(self).wf(),
            final(self).count() == old(self).count(),
            read is Err,
            read->Err_0.message@ == fn_refused(old(self).rest()).message,
            final(self).rest() == fn_refused(old(self).rest()).rest,
    {
        let ghost s = self.rest();
        proof {
            lemma_lex_tokens(s);
            lemma_lex_tokens(lex(s).rest);
        }
        let token = match self.lexer.next_token() {
            Ok(token) => token,
            Err(e) => {
                return Err(ParseError::of(e));
            },
        };
        let name = match token {
            Token::Identifier(name) => name,
            _ => {
                return Err(ParseError::new("Fn: Unexpected token, expected Identifier"));
            },
        };
        let token = match self.lexer.next_token() {
            Ok(token) => token,
            Err(e) => {
                return Err(ParseError::of(e));
            },
        };
        match token {
            Token::LParen => {},
            _ => {
                return Err(ParseError::new("Fn: Unexpected token, expected '('"));
            },
        }
        let mut parameters: Vec<(String, Type)> = Vec::new();
        let mut token = match self.lexer.next_token() {
            Ok(token) => token,
            Err(e) => {
                return Err(ParseError::of(e));
            },
        };
        while !is_token(&token, Punctuation::RParen)
            invariant
                self.wf(),
            decreases self.rest().len(),
        {
            if is_token(&token, Punctuation::Comma) {
                token = match self.lexer.next_token() {
                    Ok(token) => token,
                    Err(e) => {
                        return Err(ParseError::of(e));
                    },
                };
            }
            let parameter = match token {
                Token::Identifier(parameter) => parameter,
                _ => {
                    return Err(ParseError::new("Fn: Unexpected token, expected Identifier"));
                },
            };
            let colon = match self.lexer.next_token() {
                Ok(token) => token,
                Err(e) => {
                    return Err(ParseError::of(e));
                },
            };
            if !is_token(&colon, Punctuation::Colon) {
                return Err(ParseError::new("Fn: Unexpected token, expected ':'"));
            }
            let word = match self.lexer.next_token() {
                Ok(token) => token,
                Err(e) => {
                    return Err(ParseError::of(e));
                },
            };
            match word {
                Token::Keyword(word) => match Type::of(word) {
                    Some(ty) => {
                        parameters.push((parameter, ty));
                    },
                    None => {
                        return Err(ParseError::new("Unknown type"));
                    },
                },
                _ => {
                    return Err(ParseError::new("Let/Const: Unexpected token, expected Type"));
                },
            }
            token = match self.lexer.next_token() {
                Ok(token) => token,
                Err(e) => {
                    return Err(ParseError::of(e));
                },
            };
        }
        let mut token = match self.lexer.next_token() {
            Ok(token) => token,
            Err(e) => {
                return Err(ParseError::of(e));
            },
        };
        let mut ty = Type::Void;
        if is_token(&token, Punctuation::Arrow) {
            token = match self.lexer.next_token() {
                Ok(token) => token,
                Err(e) => {
                    return Err(ParseError::of(e));
                },
            };
            match token {
                Token::Keyword(word) => match Type::of(word) {
                    Some(found) => {
                        ty = found;
                    },
                    None => {
                        return Err(ParseError::new("Unknown type"));
                    },
                },
                Token::LParen => {
                    let close = match self.lexer.next_token() {
                        Ok(token) => token,
                        Err(e) => {
                            return Err(ParseError::of(e));
                        },
                    };
                    if !is_token(&close, Punctuation::RParen) {
                        return Err(
                            ParseError::new(
                                "Fn: Unexpected token, tuples are not supported, expected ')'",
                            ),
                        );
                    }
                },
                _ => {
                    return Err(ParseError::new("Fn: Unexpected token, expected Type"));
                },
            }
            token = match self.lexer.next_token() {
                Ok(token) => token,
                Err(e) => {
                    return Err(ParseError::of(e));
                },
            };
        }
        if !is_token(&token, Punctuation::LCurly) {
            return Err(ParseError::new("Fn: Unexpected token, expected '{'"));
        }
        let mut body: Vec<Statement> = Vec::new();
        token = match self.lexer.next_token() {
            Ok(token) => token,
            Err(e) => {
                return Err(ParseError::of(e));
            },
        };
        while !is_token(&token, Punctuation::RCurly)
            invariant
                self.wf(),
            decreases self.rest().len(),
        {
            match self.parse_statement(token) {
                Ok(statement) => {
                    body.push(statement);
                },
                Err(e) => {
                    return Err(e);
                },
            }
            token = match self.lexer.next_token() {
                Ok(token) => token,
                Err(e) => {
                    return Err(ParseError::of(e));
                },
            };
        }
        Ok(Function { name, parameters, return_type: ty, body: Block { statements: body } })
    }

    /// Reads an expression: none is accepted.
    pub fn parse_expression(&mut self) -> (read: Result<Expression, ParseError>)
        ensures
            *final(self) == *old(self),
            read is Err,
            read->Err_0.message@ == ""@,
    {
        Err(ParseError::new(""))
    }

    /// Reads the statement that begins with `token`: none is accepted.
    pub fn parse_statement(&mut self, token: Token) -> (read: Result<Statement, ParseError>)
        ensures
            *final(self) == *old(self),
            read is Err,
            read->Err_0.message@ == ""@,
    {
        Err(ParseError::new(""))
    }
}

} // verus!
