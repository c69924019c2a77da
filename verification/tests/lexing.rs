use jp_lox::numbers::Decimal;
use jp_lox::tokenizer::{Keyword, Token, Tokenizer, TokenizerError};
use jp_lox::values::Value;

fn tokens_of(src: &str) -> (Vec<Token>, Vec<TokenizerError>) {
    let mut t = Tokenizer::new(src);
    let mut out = Vec::new();
    while let Some(tok) = t.next() {
        out.push(tok);
    }
    (out, t.iter_errors().clone())
}

#[test]
fn round_trip_tokens() {
    let (toks, errs) = tokens_of("1 + 2.5 * \"a\"");
    assert!(errs.is_empty());
    assert_eq!(toks.len(), 6);
    match &toks[0] {
        Token::Literal(_, lexeme, Value::Number(d)) => {
            assert_eq!(lexeme, "1");
            assert_eq!(*d, Decimal { mantissa: 1, scale: 0 });
            assert_eq!(d.to_display_text(), "1.0");
            assert_eq!(d.to_text(), "1");
        }
        other => panic!("expected number literal, got {:?}", other),
    }
    assert!(matches!(toks[1], Token::Keyword(_, Keyword::Plus)));
    match &toks[2] {
        Token::Literal(_, lexeme, Value::Number(d)) => {
            assert_eq!(lexeme, "2.5");
            assert_eq!(*d, Decimal { mantissa: 25, scale: 1 });
            assert_eq!(d.to_display_text(), "2.5");
        }
        other => panic!("expected number literal, got {:?}", other),
    }
    assert!(matches!(toks[3], Token::Keyword(_, Keyword::Star)));
    match &toks[4] {
        Token::Literal(_, lexeme, Value::Str(s)) => {
            assert_eq!(lexeme, "\"a\"");
            assert_eq!(s, "a");
        }
        other => panic!("expected string literal, got {:?}", other),
    }
    assert!(matches!(toks[5], Token::Eof));
}

#[test]
fn maximal_munch_keeps_identifier_whole() {
    let (toks, errs) = tokens_of("andy = 1;");
    assert!(errs.is_empty());
    match &toks[0] {
        Token::Identifier(_, name) => assert_eq!(name, "andy"),
        other => panic!("expected identifier, got {:?}", other),
    }
    assert!(matches!(toks[1], Token::Keyword(_, Keyword::Equal)));
}

#[test]
fn exact_keyword_is_keyword() {
    let (toks, _) = tokens_of("and");
    assert!(matches!(toks[0], Token::Keyword(_, Keyword::And)));
}

#[test]
fn multi_char_operator_first() {
    let (toks, errs) = tokens_of("!=");
    assert!(errs.is_empty());
    assert_eq!(toks.len(), 2);
    assert!(matches!(toks[0], Token::Keyword(_, Keyword::BangEqual)));
    assert!(matches!(toks[1], Token::Eof));
}

#[test]
fn number_backs_off_trailing_dot() {
    let (toks, errs) = tokens_of("1.");
    assert!(errs.is_empty());
    match &toks[0] {
        Token::Literal(_, lexeme, Value::Number(d)) => {
            assert_eq!(lexeme, "1");
            assert_eq!(*d, Decimal { mantissa: 1, scale: 0 });
        }
        other => panic!("expected number literal, got {:?}", other),
    }
    assert!(matches!(toks[1], Token::Keyword(_, Keyword::Dot)));
}

#[test]
fn unterminated_string_records_one_error() {
    let (toks, errs) = tokens_of("\"abc");
    assert_eq!(errs.len(), 1);
    match errs[0] {
        TokenizerError::UnterminatedString(sp) => assert_eq!(sp.line, 1),
        other => panic!("expected unterminated string, got {:?}", other),
    }
    assert!(matches!(toks.last(), Some(Token::Eof)));
}

#[test]
fn unexpected_character_does_not_abort() {
    let (toks, errs) = tokens_of("@ 1");
    assert_eq!(errs.len(), 1);
    assert!(matches!(errs[0], TokenizerError::UnexpectedCharacter(_, '@')));
    assert!(matches!(&toks[0], Token::Literal(_, _, Value::Number(_))));
}

#[test]
fn comment_runs_to_end_of_line() {
    let (toks, errs) = tokens_of("// nothing here\n7");
    assert!(errs.is_empty());
    match &toks[0] {
        Token::Literal(sp, lexeme, _) => {
            assert_eq!(lexeme, "7");
            assert_eq!(sp.line, 2);
        }
        other => panic!("expected number literal, got {:?}", other),
    }
}

#[test]
fn constants_lex_by_prefix() {
    let (toks, errs) = tokens_of("nil true false");
    assert!(errs.is_empty());
    assert!(matches!(&toks[0], Token::Literal(_, _, Value::Nil)));
    assert!(matches!(&toks[1], Token::Literal(_, _, Value::Bool(true))));
    assert!(matches!(&toks[2], Token::Literal(_, _, Value::Bool(false))));
}

#[test]
fn peek_memoizes_one_token() {
    let mut t = Tokenizer::new("var x");
    let p = t.peek();
    assert!(matches!(p, Some(Token::Keyword(_, Keyword::Var))));
    let n = t.next();
    assert!(matches!(n, Some(Token::Keyword(_, Keyword::Var))));
    let n2 = t.next();
    assert!(matches!(n2, Some(Token::Identifier(_, _))));
}

#[test]
fn string_with_newline_counts_lines() {
    let (toks, errs) = tokens_of("\"a\nb\" x");
    assert!(errs.is_empty());
    match &toks[0] {
        Token::Literal(sp, lexeme, Value::Str(s)) => {
            assert_eq!(s, "a\nb");
            assert_eq!(lexeme, "\"a\nb\"");
            assert_eq!(sp.line, 2);
        }
        other => panic!("expected string literal, got {:?}", other),
    }
}

#[test]
fn peeked_end_of_input_still_leaves_through_next() {
    let mut t = Tokenizer::new("");
    let p = t.peek();
    assert!(matches!(p, Some(Token::Eof)));
    let n = t.next();
    assert!(matches!(n, Some(Token::Eof)));
    assert!(t.next().is_none());
    assert!(t.peek().is_none());
}
