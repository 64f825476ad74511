//! The two reference programs, tokenized through both entry points.

use zenith_lexer::lex_code;
use zenith_lexer::tokenize_code;
use zenith_lexer::types::{BuiltinType, Keyword, Number, Token};

#[test]
fn lexer_lex1() {
    let code = "a := 34\nb := 35\nres := a + b\nprint(res)";

    let tokens = lex_code(code.to_owned()).unwrap();
    let mut tokens = tokens.iter();

    assert_eq!(tokens.next().unwrap().token, Token::Ident("a".to_owned()));
    assert_eq!(tokens.next().unwrap().token, Token::Whitespace(1));
    assert_eq!(tokens.next().unwrap().token, Token::Assign);
    assert_eq!(tokens.next().unwrap().token, Token::Whitespace(1));
    assert_eq!(tokens.next().unwrap().token, Token::Number(Number::Int(34)));
    assert_eq!(tokens.next().unwrap().token, Token::Whitespace(1));

    assert_eq!(tokens.next().unwrap().token, Token::Ident("b".to_owned()));
    assert_eq!(tokens.next().unwrap().token, Token::Whitespace(1));
    assert_eq!(tokens.next().unwrap().token, Token::Assign);
    assert_eq!(tokens.next().unwrap().token, Token::Whitespace(1));
    assert_eq!(tokens.next().unwrap().token, Token::Number(Number::Int(35)));
    assert_eq!(tokens.next().unwrap().token, Token::Whitespace(1));

    assert_eq!(tokens.next().unwrap().token, Token::Ident("res".to_owned()));
    assert_eq!(tokens.next().unwrap().token, Token::Whitespace(1));
    assert_eq!(tokens.next().unwrap().token, Token::Assign);
    assert_eq!(tokens.next().unwrap().token, Token::Whitespace(1));
    assert_eq!(tokens.next().unwrap().token, Token::Ident("a".to_owned()));
    assert_eq!(tokens.next().unwrap().token, Token::Whitespace(1));
    assert_eq!(tokens.next().unwrap().token, Token::Plus);
    assert_eq!(tokens.next().unwrap().token, Token::Whitespace(1));
    assert_eq!(tokens.next().unwrap().token, Token::Ident("b".to_owned()));
    assert_eq!(tokens.next().unwrap().token, Token::Whitespace(1));

    assert_eq!(tokens.next().unwrap().token, Token::Ident("print".to_owned()));
    assert_eq!(tokens.next().unwrap().token, Token::OpenParen);
    assert_eq!(tokens.next().unwrap().token, Token::Ident("res".to_owned()));
    assert_eq!(tokens.next().unwrap().token, Token::CloseParen);

    assert!(tokens.next().is_none());
}

#[test]
fn lexer_lex2() {
    let code = "mut res := []\nres.push(34)\nres.push(35)\nsum := res[0] + res[1]\n";

    let tokens = lex_code(code.to_owned()).unwrap();
    println!("{:#?}", tokens);
    let mut tokens = tokens.iter();

    assert_eq!(tokens.next().unwrap().token, Token::Keyword(Keyword::Mutable));
    assert_eq!(tokens.next().unwrap().token, Token::Whitespace(1));
    assert_eq!(tokens.next().unwrap().token, Token::Ident("res".to_owned()));
    assert_eq!(tokens.next().unwrap().token, Token::Whitespace(1));
    assert_eq!(tokens.next().unwrap().token, Token::Assign);
    assert_eq!(tokens.next().unwrap().token, Token::Whitespace(1));
    assert_eq!(tokens.next().unwrap().token, Token::BuiltinType(BuiltinType::Array));
    assert_eq!(tokens.next().unwrap().token, Token::Whitespace(1));

    assert_eq!(tokens.next().unwrap().token, Token::Ident("res".to_owned()));
    assert_eq!(tokens.next().unwrap().token, Token::Period);
    assert_eq!(tokens.next().unwrap().token, Token::Ident("push".to_owned()));
    assert_eq!(tokens.next().unwrap().token, Token::OpenParen);
    assert_eq!(tokens.next().unwrap().token, Token::Number(Number::Int(34)));
    assert_eq!(tokens.next().unwrap().token, Token::CloseParen);
    assert_eq!(tokens.next().unwrap().token, Token::Whitespace(1));

    assert_eq!(tokens.next().unwrap().token, Token::Ident("res".to_owned()));
    assert_eq!(tokens.next().unwrap().token, Token::Period);
    assert_eq!(tokens.next().unwrap().token, Token::Ident("push".to_owned()));
    assert_eq!(tokens.next().unwrap().token, Token::OpenParen);
    assert_eq!(tokens.next().unwrap().token, Token::Number(Number::Int(35)));
    assert_eq!(tokens.next().unwrap().token, Token::CloseParen);
    assert_eq!(tokens.next().unwrap().token, Token::Whitespace(1));

    assert_eq!(tokens.next().unwrap().token, Token::Ident("sum".to_owned()));
    assert_eq!(tokens.next().unwrap().token, Token::Whitespace(1));
    assert_eq!(tokens.next().unwrap().token, Token::Assign);
    assert_eq!(tokens.next().unwrap().token, Token::Whitespace(1));
    assert_eq!(tokens.next().unwrap().token, Token::Ident("res".to_owned()));
    assert_eq!(tokens.next().unwrap().token, Token::OpenSquareBracket);
    assert_eq!(tokens.next().unwrap().token, Token::Number(Number::Int(0)));
    assert_eq!(tokens.next().unwrap().token, Token::CloseSquareBracket);
    assert_eq!(tokens.next().unwrap().token, Token::Whitespace(1));
    assert_eq!(tokens.next().unwrap().token, Token::Plus);
    assert_eq!(tokens.next().unwrap().token, Token::Whitespace(1));
    assert_eq!(tokens.next().unwrap().token, Token::Ident("res".to_owned()));
    assert_eq!(tokens.next().unwrap().token, Token::OpenSquareBracket);
    assert_eq!(tokens.next().unwrap().token, Token::Number(Number::Int(1)));
    assert_eq!(tokens.next().unwrap().token, Token::CloseSquareBracket);

    assert!(tokens.next().is_none());
}

#[test]
fn lib_lex1() {
    let code = "a := 34\nb := 35\nres := a + b\nprint(res)";

    let tokens = tokenize_code(code).unwrap();
    let mut tokens = tokens.iter();

    assert_eq!(*tokens.next().unwrap().strip_token(), Token::Ident("a".to_owned()));
    assert_eq!(*tokens.next().unwrap().strip_token(), Token::Whitespace(1));
    assert_eq!(*tokens.next().unwrap().strip_token(), Token::Assign);
    assert_eq!(*tokens.next().unwrap().strip_token(), Token::Whitespace(1));
    assert_eq!(*tokens.next().unwrap().strip_token(), Token::Number(Number::Int(34)));
    assert_eq!(*tokens.next().unwrap().strip_token(), Token::Whitespace(1));

    assert_eq!(*tokens.next().unwrap().strip_token(), Token::Ident("b".to_owned()));
    assert_eq!(*tokens.next().unwrap().strip_token(), Token::Whitespace(1));
    assert_eq!(*tokens.next().unwrap().strip_token(), Token::Assign);
    assert_eq!(*tokens.next().unwrap().strip_token(), Token::Whitespace(1));
    assert_eq!(*tokens.next().unwrap().strip_token(), Token::Number(Number::Int(35)));
    assert_eq!(*tokens.next().unwrap().strip_token(), Token::Whitespace(1));

    assert_eq!(*tokens.next().unwrap().strip_token(), Token::Ident("res".to_owned()));
    assert_eq!(*tokens.next().unwrap().strip_token(), Token::Whitespace(1));
    assert_eq!(*tokens.next().unwrap().strip_token(), Token::Assign);
    assert_eq!(*tokens.next().unwrap().strip_token(), Token::Whitespace(1));
    assert_eq!(*tokens.next().unwrap().strip_token(), Token::Ident("a".to_owned()));
    assert_eq!(*tokens.next().unwrap().strip_token(), Token::Whitespace(1));
    assert_eq!(*tokens.next().unwrap().strip_token(), Token::Plus);
    assert_eq!(*tokens.next().unwrap().strip_token(), Token::Whitespace(1));
    assert_eq!(*tokens.next().unwrap().strip_token(), Token::Ident("b".to_owned()));
    assert_eq!(*tokens.next().unwrap().strip_token(), Token::Whitespace(1));

    assert_eq!(*tokens.next().unwrap().strip_token(), Token::Ident("print".to_owned()));
    assert_eq!(*tokens.next().unwrap().strip_token(), Token::OpenParen);
    assert_eq!(*tokens.next().unwrap().strip_token(), Token::Ident("res".to_owned()));
    assert_eq!(*tokens.next().unwrap().strip_token(), Token::CloseParen);

    assert!(tokens.next().is_none());
}

#[test]
fn lib_lex2() {
    let code = "mut res := []\nres.push(34)\nres.push(35)\nsum := res[0] + res[1]\n";

    let tokens = tokenize_code(code).unwrap();
    println!("{:#?}", tokens);
    let mut tokens = tokens.iter();

    assert_eq!(*tokens.next().unwrap().strip_token(), Token::Keyword(Keyword::Mutable));
    assert_eq!(*tokens.next().unwrap().strip_token(), Token::Whitespace(1));
    assert_eq!(*tokens.next().unwrap().strip_token(), Token::Ident("res".to_owned()));
    assert_eq!(*tokens.next().unwrap().strip_token(), Token::Whitespace(1));
    assert_eq!(*tokens.next().unwrap().strip_token(), Token::Assign);
    assert_eq!(*tokens.next().unwrap().strip_token(), Token::Whitespace(1));
    assert_eq!(*tokens.next().unwrap().strip_token(), Token::BuiltinType(BuiltinType::Array));
    assert_eq!(*tokens.next().unwrap().strip_token(), Token::Whitespace(1));

    assert_eq!(*tokens.next().unwrap().strip_token(), Token::Ident("res".to_owned()));
    assert_eq!(*tokens.next().unwrap().strip_token(), Token::Period);
    assert_eq!(*tokens.next().unwrap().strip_token(), Token::Ident("push".to_owned()));
    assert_eq!(*tokens.next().unwrap().strip_token(), Token::OpenParen);
    assert_eq!(*tokens.next().unwrap().strip_token(), Token::Number(Number::Int(34)));
    assert_eq!(*tokens.next().unwrap().strip_token(), Token::CloseParen);
    assert_eq!(*tokens.next().unwrap().strip_token(), Token::Whitespace(1));

    assert_eq!(*tokens.next().unwrap().strip_token(), Token::Ident("res".to_owned()));
    assert_eq!(*tokens.next().unwrap().strip_token(), Token::Period);
    assert_eq!(*tokens.next().unwrap().strip_token(), Token::Ident("push".to_owned()));
    assert_eq!(*tokens.next().unwrap().strip_token(), Token::OpenParen);
    assert_eq!(*tokens.next().unwrap().strip_token(), Token::Number(Number::Int(35)));
    assert_eq!(*tokens.next().unwrap().strip_token(), Token::CloseParen);
    assert_eq!(*tokens.next().unwrap().strip_token(), Token::Whitespace(1));

    assert_eq!(*tokens.next().unwrap().strip_token(), Token::Ident("sum".to_owned()));
    assert_eq!(*tokens.next().unwrap().strip_token(), Token::Whitespace(1));
    assert_eq!(*tokens.next().unwrap().strip_token(), Token::Assign);
    assert_eq!(*tokens.next().unwrap().strip_token(), Token::Whitespace(1));
    assert_eq!(*tokens.next().unwrap().strip_token(), Token::Ident("res".to_owned()));
    assert_eq!(*tokens.next().unwrap().strip_token(), Token::OpenSquareBracket);
    assert_eq!(*tokens.next().unwrap().strip_token(), Token::Number(Number::Int(0)));
    assert_eq!(*tokens.next().unwrap().strip_token(), Token::CloseSquareBracket);
    assert_eq!(*tokens.next().unwrap().strip_token(), Token::Whitespace(1));
    assert_eq!(*tokens.next().unwrap().strip_token(), Token::Plus);
    assert_eq!(*tokens.next().unwrap().strip_token(), Token::Whitespace(1));
    assert_eq!(*tokens.next().unwrap().strip_token(), Token::Ident("res".to_owned()));
    assert_eq!(*tokens.next().unwrap().strip_token(), Token::OpenSquareBracket);
    assert_eq!(*tokens.next().unwrap().strip_token(), Token::Number(Number::Int(1)));
    assert_eq!(*tokens.next().unwrap().strip_token(), Token::CloseSquareBracket);

    assert!(tokens.next().is_none());
}
