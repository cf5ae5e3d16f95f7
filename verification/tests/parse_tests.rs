use rustpn::item::{Block, BlockItem, StackItem};
use rustpn::lex;
use rustpn::parse::{parse, Error};

#[test]
fn test_all_simple() {
    assert_eq!(
        parse(r#"(comment) {} "string" 1 call"#),
        Ok(Block(vec![
            BlockItem::Literal(StackItem::Block(Block(vec![]))),
            BlockItem::Literal(StackItem::String("string".to_string())),
            BlockItem::Literal(StackItem::Integer(1)),
            BlockItem::Call("call".to_string()),
        ]))
    );
}

#[test]
fn test_empty_program() {
    assert_eq!(parse(""), Ok(Block(vec![])));
}

#[test]
fn test_nested_blocks() {
    assert_eq!(
        parse("{{1}}"),
        Ok(Block(vec![BlockItem::Literal(StackItem::Block(Block(vec![
            BlockItem::Literal(StackItem::Block(Block(vec![BlockItem::Literal(
                StackItem::Integer(1)
            )]))),
        ])))]))
    );
}

#[test]
fn test_symbol_literal() {
    assert_eq!(
        parse(":double"),
        Ok(Block(vec![BlockItem::Literal(StackItem::Symbol(
            "double".to_string()
        ))]))
    );
}

#[test]
fn test_unclosed_block() {
    assert_eq!(parse("{ 1"), Err(Error::UnclosedBlock));
    assert!(Error::UnclosedBlock.is_recoverable());
}

#[test]
fn test_lex_error_propagates() {
    assert_eq!(
        parse("\"open"),
        Err(Error::LexError(lex::Error::UnclosedString))
    );
    assert!(Error::LexError(lex::Error::UnclosedString).is_recoverable());
    assert!(!Error::LexError(lex::Error::MalformedNumber).is_recoverable());
}

#[test]
fn test_float_literal_rejected() {
    // This build evaluates integers only: a float literal is tokenized but
    // cannot be represented, so it reads as a malformed number.
    assert_eq!(
        parse("1.5"),
        Err(Error::LexError(lex::Error::MalformedNumber))
    );
}

#[test]
fn test_huge_integer_rejected() {
    assert_eq!(
        parse("99999999999999999999"),
        Err(Error::LexError(lex::Error::MalformedNumber))
    );
    // The largest machine integer still parses.
    assert_eq!(
        parse("9223372036854775807"),
        Ok(Block(vec![BlockItem::Literal(StackItem::Integer(
            i64::MAX
        ))]))
    );
}

#[test]
fn test_close_brace_ends_top_level() {
    // A closing brace ends the block being read, even the top one.
    assert_eq!(
        parse("1 } 2"),
        Ok(Block(vec![BlockItem::Literal(StackItem::Integer(1))]))
    );
}

#[test]
fn test_render_round_trip() {
    let src = r#"{1 2 +} :double fn double "a\"b" (note) {} nested-call"#;
    let parsed = parse(src).unwrap();
    let rendered = parsed.render();
    assert_eq!(parse(&rendered), Ok(parsed));
}

#[test]
fn test_render_forms() {
    let parsed = parse(r#"{ 1 :s "x" c }"#).unwrap();
    assert_eq!(parsed.render(), "{ 1 :s \"x\" c } ");
}
