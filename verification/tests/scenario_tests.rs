//! Scenario and edge-case tests: operator greedy matching, keyword
//! precedence, string escapes, comments, numeric classification, error
//! reporting, and position bookkeeping.

use zenith_lexer::tokenize_code;
use zenith_lexer::types::{BuiltinType, Keyword, LexErrorKind, Number, Token};

fn non_ws(code: &str) -> Vec<Token> {
    tokenize_code(code)
        .unwrap()
        .into_iter()
        .filter(|t| !matches!(t.strip_token(), Token::Whitespace(_)))
        .map(|t| t.token)
        .collect()
}

fn all_tokens(code: &str) -> Vec<Token> {
    tokenize_code(code).unwrap().into_iter().map(|t| t.token).collect()
}

#[test]
fn assign_number() {
    assert_eq!(
        non_ws("a := 34"),
        vec![Token::Ident("a".to_owned()), Token::Assign, Token::Number(Number::Int(34))]
    );
}

#[test]
fn mutable_array() {
    assert_eq!(
        non_ws("mut res := []"),
        vec![
            Token::Keyword(Keyword::Mutable),
            Token::Ident("res".to_owned()),
            Token::Assign,
            Token::BuiltinType(BuiltinType::Array),
        ]
    );
}

#[test]
fn method_call() {
    assert_eq!(
        non_ws("res.push(34)"),
        vec![
            Token::Ident("res".to_owned()),
            Token::Period,
            Token::Ident("push".to_owned()),
            Token::OpenParen,
            Token::Number(Number::Int(34)),
            Token::CloseParen,
        ]
    );
}

#[test]
fn string_with_escaped_quote() {
    assert_eq!(
        non_ws("\"a\\\"b\""),
        vec![Token::String("a\"b".to_owned())]
    );
}

#[test]
fn comment_line() {
    assert_eq!(
        non_ws("// hello world\n"),
        vec![Token::Comment("hello world".to_owned())]
    );
}

#[test]
fn relational_plus() {
    assert_eq!(
        non_ws("x += 1"),
        vec![Token::Ident("x".to_owned()), Token::RelationalPlus, Token::Number(Number::Int(1))]
    );
}

#[test]
fn assign_is_one_token() {
    assert_eq!(all_tokens(":="), vec![Token::Assign]);
}

#[test]
fn array_type_is_one_token() {
    assert_eq!(all_tokens("[]"), vec![Token::BuiltinType(BuiltinType::Array)]);
}

#[test]
fn assign_then_colon() {
    assert_eq!(all_tokens(":=:"), vec![Token::Assign, Token::Colon]);
}

#[test]
fn end_is_a_keyword() {
    assert_eq!(all_tokens("end"), vec![Token::Keyword(Keyword::End)]);
}

#[test]
fn endpoint_is_an_identifier() {
    assert_eq!(all_tokens("endpoint"), vec![Token::Ident("endpoint".to_owned())]);
}

#[test]
fn keywords_and_builtin_types() {
    assert_eq!(
        non_ws("fn if else return for in int float boolean string"),
        vec![
            Token::Keyword(Keyword::Function),
            Token::Keyword(Keyword::If),
            Token::Keyword(Keyword::Else),
            Token::Keyword(Keyword::Return),
            Token::Keyword(Keyword::For),
            Token::Keyword(Keyword::In),
            Token::BuiltinType(BuiltinType::Int),
            Token::BuiltinType(BuiltinType::Float),
            Token::BuiltinType(BuiltinType::Boolean),
            Token::BuiltinType(BuiltinType::String),
        ]
    );
}

#[test]
fn float_literal_keeps_text() {
    assert_eq!(all_tokens("3.14"), vec![Token::Number(Number::Float("3.14".to_owned()))]);
}

#[test]
fn trailing_dot_is_a_float() {
    assert_eq!(
        all_tokens("6. 9"),
        vec![
            Token::Number(Number::Float("6.".to_owned())),
            Token::Whitespace(1),
            Token::Number(Number::Int(9)),
        ]
    );
}

#[test]
fn oversized_integer_becomes_float() {
    assert_eq!(
        all_tokens("99999999999999999999"),
        vec![Token::Number(Number::Float("99999999999999999999".to_owned()))]
    );
}

#[test]
fn i64_boundary_values() {
    assert_eq!(
        all_tokens("9223372036854775807"),
        vec![Token::Number(Number::Int(9223372036854775807))]
    );
    assert_eq!(
        all_tokens("9223372036854775808"),
        vec![Token::Number(Number::Float("9223372036854775808".to_owned()))]
    );
}

#[test]
fn multi_dot_number_is_an_error() {
    let err = tokenize_code("1.2.3").unwrap_err();
    assert_eq!(err.pos.line, 1);
    assert_eq!(err.pos.column, 1);
    assert!(matches!(err.kind, LexErrorKind::MalformedNumber(ref s) if s == "1.2.3"));
}

#[test]
fn out_of_alphabet_character_is_an_error() {
    let err = tokenize_code("a := `x").unwrap_err();
    assert_eq!(err.pos.line, 1);
    assert_eq!(err.pos.column, 6);
    assert!(matches!(err.kind, LexErrorKind::UnexpectedChar('`')));
}

#[test]
fn comment_text_is_trimmed() {
    assert_eq!(all_tokens("//   spaced   "), vec![Token::Comment("spaced".to_owned())]);
}

#[test]
fn comment_without_newline() {
    assert_eq!(all_tokens("// x"), vec![Token::Comment("x".to_owned())]);
}

#[test]
fn lone_slash_at_end_is_an_empty_comment() {
    assert_eq!(all_tokens("/"), vec![Token::Comment("".to_owned())]);
}

#[test]
fn slash_before_other_text_is_punctuation() {
    assert_eq!(all_tokens("/x"), vec![Token::Slash, Token::Ident("x".to_owned())]);
}

#[test]
fn unterminated_string_ends_at_input_end() {
    assert_eq!(all_tokens("\"abc"), vec![Token::String("abc".to_owned())]);
}

#[test]
fn backslash_at_input_end() {
    assert_eq!(all_tokens("\"a\\"), vec![Token::String("a".to_owned())]);
}

#[test]
fn empty_input_has_no_tokens() {
    assert_eq!(all_tokens(""), Vec::<Token>::new());
}

#[test]
fn trailing_whitespace_token_is_dropped() {
    assert_eq!(all_tokens("a\n"), vec![Token::Ident("a".to_owned())]);
}

#[test]
fn inner_whitespace_run_is_counted() {
    assert_eq!(
        all_tokens("a  b"),
        vec![
            Token::Ident("a".to_owned()),
            Token::Whitespace(2),
            Token::Ident("b".to_owned()),
        ]
    );
}

#[test]
fn equality_operator_in_context() {
    assert_eq!(
        all_tokens("x==y"),
        vec![Token::Ident("x".to_owned()), Token::Eq, Token::Ident("y".to_owned())]
    );
}

#[test]
fn spans_cover_the_input() {
    // Walking the tokens of a two-line program and re-deriving each span
    // from the positions reconstructs the input exactly.
    let code = "a := 34\nb:=5";
    let toks = tokenize_code(code).unwrap();
    let lines: Vec<&str> = code.split('\n').collect();
    let abs = |line: usize, column: usize| -> usize {
        lines[..line - 1].iter().map(|l| l.len() + 1).sum::<usize>() + column - 1
    };
    let mut rebuilt = String::new();
    for t in &toks {
        let (s, e) = t.get_position();
        let a = abs(s.line, s.column);
        let b = abs(e.line, e.column);
        rebuilt.push_str(&code[a..=b]);
    }
    assert_eq!(rebuilt, code);
}

#[test]
fn start_positions_are_non_decreasing() {
    let code = "mut res := []\nres.push(34) // note\n\"s\" 1.5";
    let toks = tokenize_code(code).unwrap();
    for w in toks.windows(2) {
        let (a, _) = w[0].get_position();
        let (b, _) = w[1].get_position();
        assert!(a.line < b.line || (a.line == b.line && a.column <= b.column));
    }
}

#[test]
fn retokenizing_a_token_slice_reproduces_it() {
    // The raw source slice of each non-whitespace token of this input
    // tokenizes to an equivalent token.
    let code = "end x9 \"a\\\"b\" 3.14 := // padded \n";
    let slices = ["end", "x9", "\"a\\\"b\"", "3.14", ":=", "// padded "];
    let toks: Vec<Token> = non_ws(code);
    assert_eq!(toks.len(), slices.len());
    for (tok, slice) in toks.iter().zip(slices.iter()) {
        let again = tokenize_code(slice).unwrap();
        assert_eq!(again.len(), 1);
        assert_eq!(again[0].strip_token(), tok);
    }
}

#[test]
fn positions_on_one_line() {
    let toks = tokenize_code("a := 34").unwrap();
    let (s, e) = toks[0].get_position();
    assert_eq!((s.line, s.column, e.line, e.column), (1, 1, 1, 1));
    let (s, e) = toks[2].get_position();
    assert_eq!((s.line, s.column, e.line, e.column), (1, 3, 1, 4));
    let (s, e) = toks[4].get_position();
    assert_eq!((s.line, s.column, e.line, e.column), (1, 6, 1, 7));
}

#[test]
fn positions_across_lines() {
    let toks = tokenize_code("ab\ncd").unwrap();
    let (s, e) = toks[0].get_position();
    assert_eq!((s.line, s.column, e.line, e.column), (1, 1, 1, 2));
    let (s, e) = toks[2].get_position();
    assert_eq!((s.line, s.column, e.line, e.column), (2, 1, 2, 2));
}
