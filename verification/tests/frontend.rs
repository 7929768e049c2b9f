use script_asm::lexer::{Keyword, LexError, Lexer, Literal, Operator, Token};
use script_asm::parser::{ParseError, Parser};

fn tokens(source: &str) -> Vec<Result<Token, LexError>> {
    let mut lexer = Lexer::new(source.to_string());
    let mut out = Vec::new();
    loop {
        match lexer.next() {
            Ok(Some(token)) => out.push(Ok(token)),
            Ok(None) => break,
            Err(e) => out.push(Err(e)),
        }
        if out.len() > 100 {
            break;
        }
    }
    out
}

#[test]
fn words_are_keywords_literals_or_identifiers() {
    assert_eq!(
        tokens("let fn name_1 true false null while"),
        vec![
            Ok(Token::Keyword(Keyword::Let)),
            Ok(Token::Keyword(Keyword::Fn)),
            Ok(Token::Identifier("name_1".to_string())),
            Ok(Token::Literal(Literal::Bool(true))),
            Ok(Token::Literal(Literal::Bool(false))),
            Ok(Token::Literal(Literal::Null)),
            Ok(Token::Keyword(Keyword::While)),
        ]
    );
}

#[test]
fn every_keyword_is_known() {
    assert_eq!(
        tokens("include use let fn if else while for return"),
        vec![
            Ok(Token::Keyword(Keyword::Include)),
            Ok(Token::Keyword(Keyword::Use)),
            Ok(Token::Keyword(Keyword::Let)),
            Ok(Token::Keyword(Keyword::Fn)),
            Ok(Token::Keyword(Keyword::If)),
            Ok(Token::Keyword(Keyword::Else)),
            Ok(Token::Keyword(Keyword::While)),
            Ok(Token::Keyword(Keyword::For)),
            Ok(Token::Keyword(Keyword::Return)),
        ]
    );
}

#[test]
fn a_word_may_begin_with_any_letter() {
    assert_eq!(tokens("\u{e9}a"), vec![Ok(Token::Identifier("\u{e9}a".to_string()))]);
    assert_eq!(
        tokens("a\u{e9}"),
        vec![
            Ok(Token::Identifier("a".to_string())),
            Ok(Token::Identifier("\u{e9}".to_string()))
        ]
    );
    assert_eq!(
        tokens("_a"),
        vec![Ok(Token::Literal(Literal::Char('_'))), Ok(Token::Identifier("a".to_string()))]
    );
}

#[test]
fn numbers() {
    assert_eq!(
        tokens("12 1.5 3f 2.f 1.2.3 99999999999999999999"),
        vec![
            Ok(Token::Literal(Literal::Integer(12))),
            Ok(Token::Literal(Literal::Float("1.5".to_string()))),
            Ok(Token::Literal(Literal::Float("3.".to_string()))),
            Ok(Token::Literal(Literal::Float("2.".to_string()))),
            Err(LexError::Float),
            Err(LexError::Integer),
        ]
    );
}

#[test]
fn quoted_characters_and_strings() {
    assert_eq!(
        tokens("'a' '\\n' \"two words\" 'ab' \"open"),
        vec![
            Ok(Token::Literal(Literal::Char('a'))),
            Ok(Token::Literal(Literal::Char('\n'))),
            Ok(Token::Literal(Literal::String("two words".to_string()))),
            Err(LexError::Char),
            Ok(Token::Literal(Literal::String("open".to_string()))),
        ]
    );
}

#[test]
fn slash_and_comments() {
    assert_eq!(
        tokens("a / b /= c // rest of line\n d /* block * / */ e /*/ f"),
        vec![
            Ok(Token::Identifier("a".to_string())),
            Ok(Token::Operator(Operator::Divide)),
            Ok(Token::Identifier("b".to_string())),
            Ok(Token::OperatorAssign(Operator::Divide)),
            Ok(Token::Identifier("c".to_string())),
            Ok(Token::Identifier("d".to_string())),
            Ok(Token::Identifier("e".to_string())),
            Ok(Token::Identifier("f".to_string())),
        ]
    );
    assert_eq!(tokens("// no end of line"), vec![]);
    assert_eq!(tokens("/* no end"), vec![]);
}

#[test]
fn punctuation_comes_as_characters() {
    assert_eq!(
        tokens("( ; ="),
        vec![
            Ok(Token::Literal(Literal::Char('('))),
            Ok(Token::Literal(Literal::Char(';'))),
            Ok(Token::Literal(Literal::Char('='))),
        ]
    );
}

#[test]
fn end_of_source_is_eof_again_and_again() {
    let mut lexer = Lexer::new("  ".to_string());
    assert_eq!(lexer.next_token(), Ok(Token::Eof));
    assert_eq!(lexer.next_token(), Ok(Token::Eof));
    assert_eq!(lexer.next(), Ok(None));
}

fn message(error: ParseError) -> String {
    error.message
}

#[test]
fn expressions_and_statements_are_refused() {
    let mut parser = Parser::new(Lexer::new("1 + 2".to_string()));
    assert_eq!(parser.parse_expression().map_err(message), Err(String::new()));
    assert_eq!(parser.parse_statement(Token::Semicolon).map_err(message), Err(String::new()));
}

#[test]
fn use_is_refused() {
    let mut parser = Parser::new(Lexer::new("io".to_string()));
    assert_eq!(
        parser.parse_use().map_err(message),
        Err("Use: Unexpected token, expected Identifier".to_string())
    );
    let mut parser = Parser::new(Lexer::new("io, fs;".to_string()));
    assert_eq!(
        parser.parse_use().map_err(message),
        Err("Use: Unexpected token, expected ';' or ','".to_string())
    );
    let mut parser = Parser::new(Lexer::new("12".to_string()));
    assert_eq!(
        parser.parse_use().map_err(message),
        Err("Use: Unexpected token, expected Identifier".to_string())
    );
}

#[test]
fn declaration_is_refused() {
    let mut parser = Parser::new(Lexer::new("x = 1;".to_string()));
    assert_eq!(
        parser.parse_declaration().map_err(message).err(),
        Some("Let/Const: Unexpected token, expected '=' or ';'".to_string())
    );
    let mut parser = Parser::new(Lexer::new("= 1".to_string()));
    assert_eq!(
        parser.parse_declaration().map_err(message).err(),
        Some("Let/Const: Unexpected token, expected Identifier".to_string())
    );
    let mut parser = Parser::new(Lexer::new("x 1.2.3".to_string()));
    assert_eq!(
        parser.parse_declaration().map_err(message).err(),
        Some("Failed to parse float".to_string())
    );
}

#[test]
fn function_is_refused() {
    let mut parser = Parser::new(Lexer::new("main() {}".to_string()));
    assert_eq!(
        parser.parse_fn().map_err(message).err(),
        Some("Fn: Unexpected token, expected '('".to_string())
    );
    let mut parser = Parser::new(Lexer::new("() {}".to_string()));
    assert_eq!(
        parser.parse_fn().map_err(message).err(),
        Some("Fn: Unexpected token, expected Identifier".to_string())
    );
}

#[test]
fn element_has_to_begin_with_a_keyword() {
    let mut parser = Parser::new(Lexer::new("x;".to_string()));
    assert_eq!(
        parser.parse_element(Token::Identifier("a".to_string())).map_err(message).err(),
        Some("File: Unexpected token, expected Keyword".to_string())
    );
    assert_eq!(
        parser.parse_element(Token::Keyword(Keyword::While)).map_err(message).err(),
        Some(
            "File: Unexpected keyword, expected 'include' | 'use' | 'const' | 'let' | 'fn'"
                .to_string()
        )
    );
    assert_eq!(
        parser.parse_element(Token::Keyword(Keyword::Include)).map_err(message).err(),
        Some("Include: Unexpected token, expected ';'".to_string())
    );
}

#[test]
fn parse_reads_no_element() {
    let program = Parser::new(Lexer::new("fn main() {}".to_string())).parse();
    assert_eq!(program.map(|p| p.elements.len()).map_err(|p| p.elements.len()), Ok(0));
    let program = Parser::new(Lexer::new(String::new())).parse();
    assert_eq!(program.map(|p| p.elements.len()).map_err(|p| p.elements.len()), Ok(0));
    let program = Parser::new(Lexer::new("1.2.3".to_string())).parse();
    assert_eq!(program.map(|p| p.elements.len()).map_err(|p| p.elements.len()), Err(0));
}
