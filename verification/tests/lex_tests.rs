use rustpn::lex::{Error, Lexer, Token};

fn lex_all(src: &str) -> Vec<Result<Token, Error>> {
    let mut lexer = Lexer::new(src);
    let mut out: Vec<Result<Token, Error>> = Vec::new();
    while let Some(r) = lexer.next_token() {
        out.push(r);
    }
    out
}

#[test]
fn test_empty_string_is_none() {
    assert_eq!(Lexer::new("").next_token(), None);
}

#[test]
fn test_whitespace() {
    assert_eq!(lex_all(" "), vec![Ok(Token::Whitespace)]);
    assert_eq!(lex_all("  \t\t\n\n"), vec![Ok(Token::Whitespace)]);
}

#[test]
fn test_number() {
    assert_eq!(lex_all("0"), vec![Ok(Token::Integer("0".to_string()))]);
    assert_eq!(lex_all("1.0"), vec![Ok(Token::Float("1.0".to_string()))]);
}

#[test]
fn test_comment() {
    assert_eq!(lex_all("(this is a comment)"), vec![Ok(Token::Comment)]);
    assert_eq!(
        lex_all("(this is an unclosed comment"),
        vec![Err(Error::UnclosedComment)]
    );
}

#[test]
fn test_string() {
    assert_eq!(
        lex_all("\"this is a string\""),
        vec![Ok(Token::String("this is a string".to_string()))]
    );
    assert_eq!(
        lex_all("\"this is an unclosed string"),
        vec![Err(Error::UnclosedString)]
    );
}

#[test]
fn test_call() {
    assert_eq!(
        lex_all("this-is-a-call"),
        vec![Ok(Token::Call("this-is-a-call".to_string()))]
    );
}

#[test]
fn test_symbol_token() {
    assert_eq!(lex_all(":name"), vec![Ok(Token::Symbol("name".to_string()))]);
    assert_eq!(lex_all(":"), vec![Ok(Token::Symbol(String::new()))]);
}

#[test]
fn test_braces() {
    assert_eq!(
        lex_all("{}"),
        vec![Ok(Token::OpenBrace), Ok(Token::CloseBrace)]
    );
}

#[test]
fn test_line_comment() {
    assert_eq!(
        lex_all("# note\nx"),
        vec![Ok(Token::Comment), Ok(Token::Call("x".to_string()))]
    );
}

#[test]
fn test_string_escapes() {
    assert_eq!(
        lex_all("\"a\\\"b\\nc\\rd\\te\""),
        vec![Ok(Token::String("a\"b\nc\rd\te".to_string()))]
    );
}

#[test]
fn test_unknown_escape() {
    assert_eq!(lex_all("\"a\\x\""), vec![Err(Error::UnknownEscape)]);
}

#[test]
fn test_incomplete_escape() {
    assert_eq!(lex_all("\"a\\"), vec![Err(Error::IncompleteEscape)]);
}

#[test]
fn test_malformed_number() {
    assert_eq!(lex_all("12a"), vec![Err(Error::MalformedNumber)]);
    // The rest of the source is discarded after an error.
    assert_eq!(lex_all("12a 34"), vec![Err(Error::MalformedNumber)]);
}

#[test]
fn test_number_ends_at_close_brace() {
    assert_eq!(
        lex_all("{7}"),
        vec![
            Ok(Token::OpenBrace),
            Ok(Token::Integer("7".to_string())),
            Ok(Token::CloseBrace),
        ]
    );
}

#[test]
fn test_is_recoverable() {
    assert!(Error::IncompleteEscape.is_recoverable());
    assert!(Error::UnclosedComment.is_recoverable());
    assert!(Error::UnclosedString.is_recoverable());
    assert!(!Error::UnknownEscape.is_recoverable());
    assert!(!Error::UnknownToken.is_recoverable());
    assert!(!Error::MalformedNumber.is_recoverable());
}
