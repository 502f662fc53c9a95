use shunting_parser::errors::LexError;
use shunting_parser::tokenizer::{build_lexer, Tokenizer};
use shunting_parser::tokens::{IAssociativity, IConstants, IFunctions, IToken, Token};

fn value(token: &Token) -> Option<f64> {
    token.literal.as_ref().map(|text| text.parse::<f64>().unwrap())
}

fn fixed(
    token_type: IToken,
    associativity: Option<IAssociativity>,
    precedence: Option<u8>,
) -> Token {
    Token { token_type, associativity, precedence, literal: None }
}

fn number(text: &str) -> Token {
    Token {
        token_type: IToken::Num,
        associativity: None,
        precedence: None,
        literal: Some(String::from(text)),
    }
}

#[test]
fn build_lexer_clear_number_returns_none_when_number_empty() {
    let mut number = String::new();

    assert!(Tokenizer::clear_number(&mut number).unwrap().is_none());

    let mut number = String::from("");

    assert!(Tokenizer::clear_number(&mut number).unwrap().is_none());
}

#[test]
fn build_lexer_clear_number_returns_token_for_non_empty_lexeme_and_clears_string() {
    let mut number = String::from("3.101");
    let token = Tokenizer::clear_number(&mut number).unwrap().unwrap();

    assert_eq!(self::number("3.101"), token);
    assert_eq!(Some(3.101), value(&token));

    assert!(number.is_empty());
}

#[test]
fn build_lexer_clear_identifier_returns_none_when_identifier_is_empty() {
    let mut identifier = String::new();

    assert!(Tokenizer::clear_identifier(&mut identifier).unwrap().is_none());

    let mut identifier = String::from("");

    assert!(Tokenizer::clear_identifier(&mut identifier).unwrap().is_none());
}

#[test]
fn build_lexer_clear_identifier_returns_token_and_clears_string() {
    // min token
    let mut identifier = String::from("min");
    let token = Tokenizer::clear_identifier(&mut identifier).unwrap().unwrap();

    assert_eq!(fixed(IToken::Fun(IFunctions::Min), None, None), token);

    assert!(identifier.is_empty());

    // max token
    let mut identifier = String::from("max");
    let token = Tokenizer::clear_identifier(&mut identifier).unwrap().unwrap();

    assert_eq!(fixed(IToken::Fun(IFunctions::Max), None, None), token);

    assert!(identifier.is_empty());

    // pi token: a constant carries the numeral it resolves to
    let mut identifier = String::from("pi");
    let token = Tokenizer::clear_identifier(&mut identifier).unwrap().unwrap();

    assert_eq!(
        Token {
            token_type: IToken::Const(IConstants::Pi),
            associativity: None,
            precedence: None,
            literal: Some(String::from("3.14159265359")),
        },
        token
    );

    assert!(identifier.is_empty());
}

#[test]
#[should_panic(expected = "UnidentifiedIdentifier")]
fn build_lexer_clear_identifier_panics_at_invalid_identifier() {
    let mut identifier = String::from("invalid");
    let _token = Tokenizer::clear_identifier(&mut identifier).unwrap();
}

#[test]
fn build_lexer_clear_identifier_or_number_can_create_token_for_identifier() {
    let mut number = String::new();
    let mut identifier = String::from("pi");
    let mut tokens = vec![];

    Tokenizer::clear_identifier_or_number(&mut identifier, &mut number, &mut tokens).unwrap();

    // a constant carries the numeral it resolves to
    assert_eq!(
        vec![Token {
            token_type: IToken::Const(IConstants::Pi),
            associativity: None,
            precedence: None,
            literal: Some(String::from("3.14159265359")),
        }],
        tokens
    );

    assert!(number.is_empty());
}

#[test]
fn build_lexer_clear_identifier_or_number_can_create_token_for_number() {
    let mut number = String::from("0.331");
    let mut identifier = String::new();
    let mut tokens = vec![];

    Tokenizer::clear_identifier_or_number(&mut identifier, &mut number, &mut tokens).unwrap();

    assert_eq!(vec![self::number("0.331")], tokens);
    assert_eq!(Some(0.331), value(&tokens[0]));

    assert!(number.is_empty());
}

#[test]
fn build_lexer_build_lexer_returns_tokens() {
    let token_stream = build_lexer("2+2(3-1)^min(1,0.1)").unwrap();

    assert_eq!(
        vec![
            number("2"),
            fixed(IToken::Add, Some(IAssociativity::Left), Some(2)),
            number("2"),
            fixed(IToken::LPar, None, None),
            number("3"),
            fixed(IToken::Sub, Some(IAssociativity::Left), Some(2)),
            number("1"),
            fixed(IToken::RPar, None, None),
            fixed(IToken::Pow, Some(IAssociativity::Right), Some(4)),
            fixed(IToken::Fun(IFunctions::Min), None, None),
            fixed(IToken::LPar, None, None),
            number("1"),
            number("0.1"),
            fixed(IToken::RPar, None, None),
        ],
        token_stream
    );
    assert_eq!(
        vec![
            Some(2.0),
            None,
            Some(2.0),
            None,
            Some(3.0),
            None,
            Some(1.0),
            None,
            None,
            None,
            None,
            Some(1.0),
            Some(0.1),
            None,
        ],
        token_stream.iter().map(value).collect::<Vec<Option<f64>>>()
    );
}

#[test]
fn build_lexer_build_lexer_returns_error_result_at_unrecognized_token() {
    let token_stream = build_lexer("2+2(3-1)_^min(1,0.1)");

    assert!(token_stream.is_err());
    assert_eq!(token_stream, Err(LexError::UnidentifiedCharacter('_')));
}

#[test]
fn build_lexer_agrees_with_the_tokenizer() {
    for text in ["", "2+2", "min(1,2)", "2+2_", "foo", "1.2.3", "((2*3) + pi) / 10"] {
        assert_eq!(&mut build_lexer(text), Tokenizer::build(text).tokens());
    }
}

#[test]
fn every_token_of_the_lexer_is_well_formed() {
    let tokens = build_lexer("3 + 4 * 2 / ( 1 - max(5, 2) ) ^ min(2,11) ^ pi").unwrap();
    assert!(tokens.iter().all(|token| token.is_well_formed()));
}
