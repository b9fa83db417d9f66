use calc::error::Error;
use calc::lexer::{tokenize, Lexer, Token};

#[test]
fn test_lexer() {
    {
        let mut lexer = Lexer::new("1 + 1");
        while let Some(token) = lexer.next() {
            assert!(token.is_ok())
        }
    }
    {
        let mut lexer = Lexer::new("1 + +m+");
        assert!(lexer.next().unwrap().is_ok());
        assert!(lexer.next().unwrap().is_ok());
        assert!(lexer.next().unwrap().is_ok());
        assert!(lexer.next().unwrap().is_err());
        assert!(lexer.next().unwrap().is_ok());
    }
    {
        let left: Vec<_> = tokenize("1.2++=+");
        assert_eq!(
            left,
            vec![
                Ok(Token::Number("1.2".into())),
                Ok(Token::Plus),
                Ok(Token::Plus),
                Ok(Token::Equal),
                Ok(Token::Plus),
            ]
        );
    }
}

#[test]
fn lexer_reads_two_character_symbols() {
    assert_eq!(
        tokenize("<> <= >= < > ="),
        vec![
            Ok(Token::LessOrGreaterThan),
            Ok(Token::LessThanOrEqual),
            Ok(Token::GreaterThanOrEqual),
            Ok(Token::LessThan),
            Ok(Token::GreaterThan),
            Ok(Token::Equal),
        ]
    );
}

#[test]
fn lexer_accepts_trailing_dot_and_skips_unicode_space() {
    assert_eq!(
        tokenize("\u{3000}1.\t( 23 )"),
        vec![
            Ok(Token::Number("1.".into())),
            Ok(Token::OpenParen),
            Ok(Token::Number("23".into())),
            Ok(Token::CloseParen),
        ]
    );
}

#[test]
fn lexer_names_unexpected_character() {
    assert_eq!(
        tokenize("1 + m"),
        vec![
            Ok(Token::Number("1".into())),
            Ok(Token::Plus),
            Err(Error::Parse("Unexpected character m".into())),
        ]
    );
}

#[test]
fn lexer_empty_input_has_no_tokens() {
    assert_eq!(tokenize(""), vec![]);
    assert_eq!(tokenize("   "), vec![]);
    let mut lexer = Lexer::new("");
    assert!(lexer.next().is_none());
}

#[test]
fn token_text_round_trips() {
    assert_eq!(Token::LessOrGreaterThan.text(), "<>");
    assert_eq!(Token::Number("12.5".into()).text(), "12.5");
}
