use tiny_calc::error::Error;
use tiny_calc::lexer::tokenize;
use tiny_calc::token::TokenType;

#[test]
fn lexes_number_plus_identifier() {
    let toks = tokenize("12 + foo").unwrap();
    assert_eq!(toks.len(), 3);
    assert_eq!(toks[0].token_type, TokenType::Num);
    assert_eq!(toks[0].val, "12");
    assert_eq!(toks[1].token_type, TokenType::Plus);
    assert_eq!(toks[1].val, "+");
    assert_eq!(toks[2].token_type, TokenType::Name);
    assert_eq!(toks[2].val, "foo");
}

#[test]
fn lexes_every_symbol() {
    let toks = tokenize("+-*()=").unwrap();
    let kinds: Vec<TokenType> = toks.iter().map(|t| t.token_type).collect();
    assert_eq!(
        kinds,
        vec![
            TokenType::Plus,
            TokenType::Minus,
            TokenType::Times,
            TokenType::Lparen,
            TokenType::Rparen,
            TokenType::Assign,
        ]
    );
}

#[test]
fn rejects_unknown_character() {
    assert_eq!(tokenize("@").unwrap_err(), Error::LexError('@'));
}

#[test]
fn rejects_unknown_character_mid_line() {
    assert_eq!(tokenize("1 + @ + 2").unwrap_err(), Error::LexError('@'));
}

#[test]
fn rejects_first_unknown_character() {
    assert_eq!(tokenize("a ! b ?").unwrap_err(), Error::LexError('!'));
}

#[test]
fn digit_ends_identifier_run() {
    let toks = tokenize("abc12de").unwrap();
    assert_eq!(toks.len(), 3);
    assert_eq!(toks[0].token_type, TokenType::Name);
    assert_eq!(toks[0].val, "abc");
    assert_eq!(toks[1].token_type, TokenType::Num);
    assert_eq!(toks[1].val, "12");
    assert_eq!(toks[2].token_type, TokenType::Name);
    assert_eq!(toks[2].val, "de");
}

#[test]
fn whitespace_only_line_yields_no_tokens() {
    assert!(tokenize(" \t \n ").unwrap().is_empty());
    assert!(tokenize("").unwrap().is_empty());
}

#[test]
fn non_ascii_letter_is_rejected() {
    assert_eq!(tokenize("é").unwrap_err(), Error::LexError('é'));
}
