use shunting_parser::errors::LexError;
use shunting_parser::tokenizer::Tokenizer;
use shunting_parser::tokens::{IAssociativity, IConstants, IFunctions, IToken, Token};

fn value(token: &Token) -> Option<f64> {
    token.literal.as_ref().map(|text| text.parse::<f64>().unwrap())
}

fn fixed(
    token_type: IToken,
    associativity: Option<IAssociativity>,
    precedence: Option<u8>,
) -> Token {
    Token { token_type, associativity, precedence, literal: None }
}

fn number(text: &str) -> Token {
    Token {
        token_type: IToken::Num,
        associativity: None,
        precedence: None,
        literal: Some(String::from(text)),
    }
}

#[test]
fn tokenize_clear_number_returns_none_when_number_empty() {
    let mut number = String::new();

    assert!(Tokenizer::clear_number(&mut number).unwrap().is_none());

    let mut number = String::from("");

    assert!(Tokenizer::clear_number(&mut number).unwrap().is_none());
}

#[test]
fn tokenize_clear_number_returns_token_for_non_empty_lexeme_and_clears_string() {
    let mut number = String::from("3.101");
    let token = Tokenizer::clear_number(&mut number).unwrap().unwrap();

    assert_eq!(
        Token {
            token_type: IToken::Num,
            associativity: None,
            precedence: None,
            literal: Some(String::from("3.101")),
        },
        token
    );
    assert_eq!(Some(3.101), value(&token));

    assert!(number.is_empty());
}

#[test]
fn tokenize_clear_identifier_returns_none_when_identifier_is_empty() {
    let mut identifier = String::new();

    assert!(Tokenizer::clear_identifier(&mut identifier).unwrap().is_none());

    let mut identifier = String::from("");

    assert!(Tokenizer::clear_identifier(&mut identifier).unwrap().is_none());
}

#[test]
fn tokenize_clear_identifier_returns_token_and_clears_string() {
    // min token
    let mut identifier = String::from("min");
    let token = Tokenizer::clear_identifier(&mut identifier).unwrap().unwrap();

    assert_eq!(
        Token {
            token_type: IToken::Fun(IFunctions::Min),
            associativity: None,
            precedence: None,
            literal: None,
        },
        token
    );

    assert!(identifier.is_empty());

    // max token
    let mut identifier = String::from("max");
    let token = Tokenizer::clear_identifier(&mut identifier).unwrap().unwrap();

    assert_eq!(
        Token {
            token_type: IToken::Fun(IFunctions::Max),
            associativity: None,
            precedence: None,
            literal: None,
        },
        token
    );

    assert!(identifier.is_empty());

    // pi token
    let mut identifier = String::from("pi");
    let token = Tokenizer::clear_identifier(&mut identifier).unwrap().unwrap();

    assert_eq!(
        Token {
            token_type: IToken::Const(IConstants::Pi),
            associativity: None,
            precedence: None,
            literal: Some(String::from("3.14159265359")),
        },
        token
    );
    assert_eq!(Some(3.14159265359), value(&token));

    assert!(identifier.is_empty());
}

#[test]
#[should_panic(expected = "UnidentifiedIdentifier")]
fn tokenize_clear_identifier_panics_at_invalid_identifier() {
    let mut identifier = String::from("invalid");
    let _token = Tokenizer::clear_identifier(&mut identifier).unwrap();
}

#[test]
fn clear_identifier_rejects_an_identifier_that_names_nothing() {
    let mut identifier = String::from("invalid");

    assert_eq!(
        Tokenizer::clear_identifier(&mut identifier),
        Err(LexError::UnidentifiedIdentifier(String::from("invalid")))
    );
    assert_eq!(identifier, "invalid");
}

#[test]
fn clear_identifier_is_case_sensitive() {
    let mut identifier = String::from("Min");

    assert_eq!(
        Tokenizer::clear_identifier(&mut identifier),
        Err(LexError::UnidentifiedIdentifier(String::from("Min")))
    );
}

#[test]
fn clear_number_rejects_a_run_that_is_no_numeral() {
    for text in ["1.2.3", ".", "..", "1..2"] {
        let mut number = String::from(text);

        assert_eq!(
            Tokenizer::clear_number(&mut number),
            Err(LexError::MalformedNumber(String::from(text)))
        );
        assert_eq!(number, text);
    }
}

#[test]
fn clear_number_accepts_a_point_at_either_end() {
    let mut number = String::from("5.");
    let token = Tokenizer::clear_number(&mut number).unwrap().unwrap();
    assert_eq!(token, self::number("5."));
    assert_eq!(Some(5.0), value(&token));

    let mut number = String::from(".5");
    let token = Tokenizer::clear_number(&mut number).unwrap().unwrap();
    assert_eq!(token, self::number(".5"));
    assert_eq!(Some(0.5), value(&token));
}

#[test]
fn tokenize_clear_identifier_or_number_can_create_token_for_number() {
    let mut number = String::from("0.331");
    let mut identifier = String::new();
    let mut tokens = vec![];

    Tokenizer::clear_identifier_or_number(&mut identifier, &mut number, &mut tokens).unwrap();

    assert_eq!(
        vec![Token {
            token_type: IToken::Num,
            associativity: None,
            precedence: None,
            literal: Some(String::from("0.331")),
        }],
        tokens
    );
    assert_eq!(Some(0.331), value(&tokens[0]));

    assert!(number.is_empty());
}

#[test]
fn tokenize_clear_identifier_or_number_can_create_token_for_identifier() {
    let mut number = String::new();
    let mut identifier = String::from("pi");
    let mut tokens = vec![];

    Tokenizer::clear_identifier_or_number(&mut identifier, &mut number, &mut tokens).unwrap();

    assert_eq!(
        vec![Token {
            token_type: IToken::Const(IConstants::Pi),
            associativity: None,
            precedence: None,
            literal: Some(String::from("3.14159265359")),
        }],
        tokens
    );
    assert_eq!(Some(3.14159265359), value(&tokens[0]));

    assert!(number.is_empty());
}

#[test]
fn clear_identifier_or_number_empties_the_identifier_first() {
    let mut number = String::from("7");
    let mut identifier = String::from("max");
    let mut tokens = vec![self::number("1")];

    Tokenizer::clear_identifier_or_number(&mut identifier, &mut number, &mut tokens).unwrap();

    assert_eq!(
        tokens,
        vec![
            self::number("1"),
            fixed(IToken::Fun(IFunctions::Max), None, None),
            self::number("7"),
        ]
    );
    assert!(number.is_empty());
    assert!(identifier.is_empty());
}

#[test]
fn clear_identifier_or_number_stops_at_the_first_error() {
    let mut number = String::from("7");
    let mut identifier = String::from("mix");
    let mut tokens = vec![];

    assert_eq!(
        Tokenizer::clear_identifier_or_number(&mut identifier, &mut number, &mut tokens),
        Err(LexError::UnidentifiedIdentifier(String::from("mix")))
    );
    assert_eq!(identifier, "mix");
    assert_eq!(number, "7");
    assert!(tokens.is_empty());

    let mut number = String::from("7.7.7");
    let mut identifier = String::from("min");
    let mut tokens = vec![];

    assert_eq!(
        Tokenizer::clear_identifier_or_number(&mut identifier, &mut number, &mut tokens),
        Err(LexError::MalformedNumber(String::from("7.7.7")))
    );
    assert!(identifier.is_empty());
    assert_eq!(number, "7.7.7");
    assert_eq!(tokens, vec![fixed(IToken::Fun(IFunctions::Min), None, None)]);
}

fn expected_tokens() -> Vec<Token> {
    vec![
        number("2"),
        fixed(IToken::Add, Some(IAssociativity::Left), Some(2)),
        number("2"),
        fixed(IToken::LPar, None, None),
        number("3"),
        fixed(IToken::Sub, Some(IAssociativity::Left), Some(2)),
        number("1"),
        fixed(IToken::RPar, None, None),
        fixed(IToken::Pow, Some(IAssociativity::Right), Some(4)),
        fixed(IToken::Fun(IFunctions::Min), None, None),
        fixed(IToken::LPar, None, None),
        number("1"),
        number("0.1"),
        fixed(IToken::RPar, None, None),
    ]
}

#[test]
fn tokenize_build_lexer_returns_tokens() {
    let mut binding = Tokenizer::build("2+2(3-1)^min(1,0.1)");
    let token_stream = binding.tokens().as_mut().unwrap();

    assert_eq!(&expected_tokens(), token_stream);
    assert_eq!(
        vec![
            Some(2.0),
            None,
            Some(2.0),
            None,
            Some(3.0),
            None,
            Some(1.0),
            None,
            None,
            None,
            None,
            Some(1.0),
            Some(0.1),
            None,
        ],
        token_stream.iter().map(value).collect::<Vec<Option<f64>>>()
    );
}

#[test]
fn tokenize_build_lexer_returns_error_result_at_unrecognized_token() {
    let mut binding = Tokenizer::build("2+2(3-1)_^min(1,0.1)");
    let token_stream = binding.tokens();

    assert!(token_stream.is_err());
    assert_eq!(token_stream, &mut Err(LexError::UnidentifiedCharacter('_')));
}

#[test]
fn every_symbol_has_its_fixed_attributes() {
    let mut binding = Tokenizer::build("^*/+-()");

    assert_eq!(
        binding.tokens(),
        &mut Ok(vec![
            fixed(IToken::Pow, Some(IAssociativity::Right), Some(4)),
            fixed(IToken::Mul, Some(IAssociativity::Left), Some(3)),
            fixed(IToken::Div, Some(IAssociativity::Left), Some(3)),
            fixed(IToken::Add, Some(IAssociativity::Left), Some(2)),
            fixed(IToken::Sub, Some(IAssociativity::Left), Some(2)),
            fixed(IToken::LPar, None, None),
            fixed(IToken::RPar, None, None),
        ])
    );
}

#[test]
fn empty_text_has_no_tokens() {
    assert_eq!(Tokenizer::build("").tokens(), &mut Ok(vec![]));
    assert_eq!(Tokenizer::build(" , ,").tokens(), &mut Ok(vec![]));
}

#[test]
fn a_lexeme_ends_where_the_other_kind_begins() {
    assert_eq!(
        Tokenizer::build("2pi3").tokens(),
        &mut Ok(vec![
            number("2"),
            Token {
                token_type: IToken::Const(IConstants::Pi),
                associativity: None,
                precedence: None,
                literal: Some(String::from("3.14159265359")),
            },
            number("3"),
        ])
    );
}

#[test]
fn characters_accumulate_into_one_lexeme() {
    assert_eq!(Tokenizer::build("14.206").tokens(), &mut Ok(vec![number("14.206")]));
    assert_eq!(
        Tokenizer::build("max").tokens(),
        &mut Ok(vec![fixed(IToken::Fun(IFunctions::Max), None, None)])
    );
    assert_eq!(
        Tokenizer::build("maxmin").tokens(),
        &mut Err(LexError::UnidentifiedIdentifier(String::from("maxmin")))
    );
}

#[test]
fn the_first_defect_in_reading_order_decides() {
    // the unaccepted character comes before the identifier is judged
    assert_eq!(Tokenizer::build("abc_").tokens(), &mut Err(LexError::UnidentifiedCharacter('_')));
    // the identifier ends at the digit and is judged there
    assert_eq!(
        Tokenizer::build("abc1_").tokens(),
        &mut Err(LexError::UnidentifiedIdentifier(String::from("abc")))
    );
    assert_eq!(
        Tokenizer::build("1.2.3+_").tokens(),
        &mut Err(LexError::MalformedNumber(String::from("1.2.3")))
    );
    assert_eq!(Tokenizer::build("1.2.3_").tokens(), &mut Err(LexError::UnidentifiedCharacter('_')));
    assert_eq!(
        Tokenizer::build("1+foo").tokens(),
        &mut Err(LexError::UnidentifiedIdentifier(String::from("foo")))
    );
}

#[test]
fn only_comma_and_space_separate() {
    assert_eq!(Tokenizer::build("1\t2").tokens(), &mut Err(LexError::UnidentifiedCharacter('\t')));
    assert_eq!(Tokenizer::build("1\n").tokens(), &mut Err(LexError::UnidentifiedCharacter('\n')));
}

#[test]
fn numeric_characters_beyond_ascii_make_no_numeral() {
    // ARABIC-INDIC DIGIT THREE is numeric, yet no digit of a decimal numeral
    assert_eq!(
        Tokenizer::build("1+\u{0663}").tokens(),
        &mut Err(LexError::MalformedNumber(String::from("\u{0663}")))
    );
}

#[test]
fn letters_beyond_ascii_make_an_identifier() {
    assert_eq!(
        Tokenizer::build("\u{00e9}t\u{00e9}").tokens(),
        &mut Err(LexError::UnidentifiedIdentifier(String::from("\u{00e9}t\u{00e9}")))
    );
}

#[test]
fn a_character_both_numeric_and_alphabetic_counts_as_numeric() {
    // ROMAN NUMERAL EIGHT
    let c = '\u{2167}';
    assert!(c.is_numeric() && c.is_alphabetic());
    assert_eq!(
        Tokenizer::build("\u{2167}").tokens(),
        &mut Err(LexError::MalformedNumber(String::from("\u{2167}")))
    );
}

#[test]
fn spaces_and_commas_do_not_change_the_tokens() {
    let plain = Tokenizer::build("3+4*2").tokens().clone();
    assert_eq!(plain, Tokenizer::build("3 + 4 * 2").tokens().clone());
    assert_eq!(plain, Tokenizer::build("3,+,4,*,2").tokens().clone());
    assert_eq!(plain, Tokenizer::build("  3+4  *2, ").tokens().clone());

    let call = Tokenizer::build("max(14.206, 14.201)").tokens().clone();
    assert_eq!(call, Tokenizer::build("max(14.206 14.201)").tokens().clone());
    assert_eq!(call, Tokenizer::build("max ( 14.206,14.201 )").tokens().clone());
    // a separator between two numerals keeps them apart
    assert_ne!(call, Tokenizer::build("max(14.20614.201)").tokens().clone());
}

#[test]
fn tokenizing_twice_gives_the_same_tokens() {
    let text = "3 + 4 * 2 / ( 1 - max(5, 2) ) ^ min(2,11) ^ 3";
    assert_eq!(Tokenizer::build(text).tokens(), Tokenizer::build(text).tokens());
}

#[test]
fn the_tokens_can_be_changed_through_the_tokenizer() {
    let mut binding = Tokenizer::build("1");
    *binding.tokens() = Ok(vec![]);
    assert_eq!(binding.tokens(), &mut Ok(vec![]));
}
