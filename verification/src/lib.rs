//! A tokenizer for a small programming language.
//!
//! The [`lexer::Lexer`] cursor walks a character buffer while tracking
//! line/column positions; [`tokenize_code`] drives it to split the whole
//! input into positioned tokens.  The scanning behaviour is specified by a
//! functional model (module [`scan`]) and the scanner is proved to follow it.

pub mod lexer;
pub mod types;
pub mod scan;
pub mod props;

use vstd::prelude::*;
use vstd::string::StrSliceExecFns;
use vstd::string::StringExecFns;

use crate::lexer::{Lexer, pos_at, push_char};
use crate::types::{
    BuiltinType, EnrichedToken, Keyword, LexError, LexErrorKind, Number, SpecErrKind, SpecLexError,
    SpecToken, Token,
};
use crate::scan::{
    count_dots, digits_val, first_where, ident_end, is_digit, is_ident_cont, is_ident_start,
    is_punct, is_space, lemma_count_dots_zero, lemma_digits_val_prefix_le, lemma_first_where,
    lemma_ident_end_from_facts, lemma_line_end_from_facts, lemma_num_end_from_facts,
    lemma_space_end_from_facts, lemma_step_at_bounds, lemma_str_scan_bounds, lemma_subrange_push,
    lemma_trim_end_from_facts, line_end, num_end, scan_from, space_end, spec_number_token,
    spec_pair_token, spec_single_token, spec_tokenize, spec_word_token, step_at, str_scan, trimmed,
    SpecLexeme, SpecStep,
};

verus! {

// ---------------------------------------------------------------------------
// Character predicates
// ---------------------------------------------------------------------------

/// Is `c` a character an identifier may start with (ASCII letter or `_`)?
pub fn is_identifier(c: char) -> (b: bool)
    ensures
        b == is_ident_start(c),
{
    let u = c as u32;
    (97 <= u && u <= 122) || (65 <= u && u <= 90) || c == '_'
}

/// Is `c` an ASCII decimal digit?
pub fn is_number(c: char) -> (b: bool)
    ensures
        b == is_digit(c),
{
    let u = c as u32;
    48 <= u && u <= 57
}

/// Is `c` ASCII whitespace?
pub fn is_whitespace(c: char) -> (b: bool)
    ensures
        b == is_space(c),
{
    c == ' ' || c == '\t' || c == '\n' || c == '\u{b}' || c == '\u{c}' || c == '\r'
}

/// Is `c` one of the recognized punctuation characters?
pub fn is_punctuation(c: char) -> (b: bool)
    ensures
        b == is_punct(c),
{
    c == '!' || c == '#' || c == '$' || c == '%' || c == '&' || c == '(' || c == ')' || c == '*'
        || c == '+' || c == '-' || c == ',' || c == '.' || c == '/' || c == ':' || c == ';'
        || c == '<' || c == '=' || c == '>' || c == '?' || c == '@' || c == '[' || c == '\\'
        || c == ']' || c == '^' || c == '{' || c == '|' || c == '}'
}

// ---------------------------------------------------------------------------
// Small conversions
// ---------------------------------------------------------------------------

/// The characters of `code`, in order.
fn str_to_chars(code: &str) -> (v: Vec<char>)
    ensures
        v@ == code@,
{
    let n = code.unicode_len();
    let mut v: Vec<char> = Vec::new();
    let mut i: usize = 0;
    while i < n
        invariant
            0 <= i <= n,
            n == code@.len(),
            v@ == code@.subrange(0, i as int),
        decreases n - i,
    {
        let c = code.get_char(i);
        v.push(c);
        proof {
            lemma_subrange_push(code@, 0, i as int);
        }
        i = i + 1;
    }
    proof {
        assert(code@.subrange(0, n as int) =~= code@);
    }
    v
}

// ---------------------------------------------------------------------------
// Classification tables
// ---------------------------------------------------------------------------

/// Maps a collected identifier run to a builtin type name, a keyword, or a
/// plain identifier, in that order of precedence.
fn word_token(w: String) -> (t: Token)
    ensures
        t@ == spec_word_token(w@),
{
    let ws = w.as_str();
    let n = ws.unicode_len();
    if n == 3 && ws.get_char(0) == 'i' && ws.get_char(1) == 'n' && ws.get_char(2) == 't' {
        proof {
            assert(w@ =~= seq!['i', 'n', 't']);
        }
        Token::BuiltinType(BuiltinType::Int)
    } else if n == 5 && ws.get_char(0) == 'f' && ws.get_char(1) == 'l' && ws.get_char(2) == 'o'
        && ws.get_char(3) == 'a' && ws.get_char(4) == 't' {
        proof {
            assert(w@ =~= seq!['f', 'l', 'o', 'a', 't']);
        }
        Token::BuiltinType(BuiltinType::Float)
    } else if n == 7 && ws.get_char(0) == 'b' && ws.get_char(1) == 'o' && ws.get_char(2) == 'o'
        && ws.get_char(3) == 'l' && ws.get_char(4) == 'e' && ws.get_char(5) == 'a'
        && ws.get_char(6) == 'n' {
        proof {
            assert(w@ =~= seq!['b', 'o', 'o', 'l', 'e', 'a', 'n']);
        }
        Token::BuiltinType(BuiltinType::Boolean)
    } else if n == 6 && ws.get_char(0) == 's' && ws.get_char(1) == 't' && ws.get_char(2) == 'r'
        && ws.get_char(3) == 'i' && ws.get_char(4) == 'n' && ws.get_char(5) == 'g' {
        proof {
            assert(w@ =~= seq!['s', 't', 'r', 'i', 'n', 'g']);
        }
        Token::BuiltinType(BuiltinType::String)
    } else if n == 2 && ws.get_char(0) == 'f' && ws.get_char(1) == 'n' {
        proof {
            assert(w@ =~= seq!['f', 'n']);
        }
        Token::Keyword(Keyword::Function)
    } else if n == 2 && ws.get_char(0) == 'i' && ws.get_char(1) == 'f' {
        proof {
            assert(w@ =~= seq!['i', 'f']);
        }
        Token::Keyword(Keyword::If)
    } else if n == 4 && ws.get_char(0) == 'e' && ws.get_char(1) == 'l' && ws.get_char(2) == 's'
        && ws.get_char(3) == 'e' {
        proof {
            assert(w@ =~= seq!['e', 'l', 's', 'e']);
        }
        Token::Keyword(Keyword::Else)
    } else if n == 3 && ws.get_char(0) == 'e' && ws.get_char(1) == 'n' && ws.get_char(2) == 'd' {
        proof {
            assert(w@ =~= seq!['e', 'n', 'd']);
        }
        Token::Keyword(Keyword::End)
    } else if n == 6 && ws.get_char(0) == 'r' && ws.get_char(1) == 'e' && ws.get_char(2) == 't'
        && ws.get_char(3) == 'u' && ws.get_char(4) == 'r' && ws.get_char(5) == 'n' {
        proof {
            assert(w@ =~= seq!['r', 'e', 't', 'u', 'r', 'n']);
        }
        Token::Keyword(Keyword::Return)
    } else if n == 3 && ws.get_char(0) == 'm' && ws.get_char(1) == 'u' && ws.get_char(2) == 't' {
        proof {
            assert(w@ =~= seq!['m', 'u', 't']);
        }
        Token::Keyword(Keyword::Mutable)
    } else if n == 3 && ws.get_char(0) == 'f' && ws.get_char(1) == 'o' && ws.get_char(2) == 'r' {
        proof {
            assert(w@ =~= seq!['f', 'o', 'r']);
        }
        Token::Keyword(Keyword::For)
    } else if n == 2 && ws.get_char(0) == 'i' && ws.get_char(1) == 'n' {
        proof {
            assert(w@ =~= seq!['i', 'n']);
        }
        Token::Keyword(Keyword::In)
    } else {
        Token::Ident(w)
    }
}

/// The fixed table of two-character operators, tried before any
/// single-character reading.
fn pair_token(a: char, b: char) -> (r: Option<Token>)
    ensures
        match r {
            Some(t) => spec_pair_token(a, b) == Some(t@),
            None => spec_pair_token(a, b) is None,
        },
{
    if a == '[' && b == ']' {
        Some(Token::BuiltinType(BuiltinType::Array))
    } else if a == ':' && b == '=' {
        Some(Token::Assign)
    } else if a == '=' && b == '=' {
        Some(Token::Eq)
    } else if a == '!' && b == '=' {
        Some(Token::NotEq)
    } else if a == '>' && b == '=' {
        Some(Token::GreaterThanOrEq)
    } else if a == '<' && b == '=' {
        Some(Token::LessThanOrEq)
    } else if a == '-' && b == '>' {
        Some(Token::ReturnType)
    } else if a == '+' && b == '=' {
        Some(Token::RelationalPlus)
    } else if a == '-' && b == '=' {
        Some(Token::RelationalMinus)
    } else if a == '*' && b == '=' {
        Some(Token::RelationalMul)
    } else if a == '/' && b == '=' {
        Some(Token::RelationalDiv)
    } else {
        None
    }
}

/// The fixed table of single punctuation characters.
fn single_token(c: char) -> (t: Token)
    requires
        is_punct(c),
    ensures
        t@ == spec_single_token(c),
{
    if c == '!' {
        Token::Bang
    } else if c == '#' {
        Token::Shabang
    } else if c == '$' {
        Token::Dollar
    } else if c == '%' {
        Token::Percent
    } else if c == '&' {
        Token::Ampersand
    } else if c == '(' {
        Token::OpenParen
    } else if c == ')' {
        Token::CloseParen
    } else if c == '*' {
        Token::Asterisk
    } else if c == '+' {
        Token::Plus
    } else if c == '-' {
        Token::Minus
    } else if c == ',' {
        Token::Comma
    } else if c == '.' {
        Token::Period
    } else if c == '/' {
        Token::Slash
    } else if c == ':' {
        Token::Colon
    } else if c == ';' {
        Token::Semicolon
    } else if c == '<' {
        Token::LessThan
    } else if c == '=' {
        Token::Equals
    } else if c == '>' {
        Token::GreaterThan
    } else if c == '?' {
        Token::QuestionMark
    } else if c == '@' {
        Token::AtSign
    } else if c == '[' {
        Token::OpenSquareBracket
    } else if c == '\\' {
        Token::Backslash
    } else if c == ']' {
        Token::CloseSquareBracket
    } else if c == '^' {
        Token::Caret
    } else if c == '{' {
        Token::OpenCurlyBrace
    } else if c == '|' {
        Token::VerticalBar
    } else {
        Token::CloseCurlyBrace
    }
}

/// Strips leading and trailing whitespace from comment text.
fn trim_text(w: &str) -> (r: String)
    ensures
        r@ == trimmed(w@),
{
    let ghost s = w@;
    let n = w.unicode_len();
    let mut a: usize = 0;
    loop
        invariant
            0 <= a <= n,
            n == s.len(),
            s == w@,
            forall|j: int| 0 <= j < a ==> is_space(#[trigger] s[j]),
        ensures
            0 <= a <= n,
            forall|j: int| 0 <= j < a ==> is_space(#[trigger] s[j]),
            a == n || !is_space(s[a as int]),
        decreases n - a,
    {
        if a >= n {
            break;
        }
        if !is_whitespace(w.get_char(a)) {
            break;
        }
        a = a + 1;
    }
    proof {
        lemma_space_end_from_facts(s, 0, a as int);
    }
    if a == n {
        String::new()
    } else {
        let mut b: usize = n;
        loop
            invariant
                a < b <= n,
                n == s.len(),
                s == w@,
                a < n,
                !is_space(s[a as int]),
                forall|j: int| b <= j < n ==> is_space(#[trigger] s[j]),
            ensures
                a < b <= n,
                forall|j: int| b <= j < n ==> is_space(#[trigger] s[j]),
                !is_space(s[b - 1]),
            decreases b,
        {
            if !is_whitespace(w.get_char(b - 1)) {
                break;
            }
            b = b - 1;
            if b == a {
                break;
            }
        }
        proof {
            lemma_trim_end_from_facts(s, b as int);
        }
        w.substring_char(a, b).to_owned()
    }
}

/// Classifies a collected digit-and-dot run: an integer if it has no radix
/// point and fits in an `i64`, a float literal (kept as text) if it has one
/// radix point or overflows, and an error if it has several radix points.
fn classify_number(w: String) -> (r: Result<Token, LexErrorKind>)
    requires
        forall|j: int| 0 <= j < w@.len() ==> is_digit(#[trigger] w@[j]) || w@[j] == '.',
    ensures
        match (r, spec_number_token(w@)) {
            (Ok(t), Ok(st)) => t@ == st,
            (Err(k), Err(sk)) => k@ == sk,
            _ => false,
        },
{
    let ghost s = w@;
    let n = w.as_str().unicode_len();
    let mut dots: usize = 0;
    let mut i: usize = 0;
    while i < n
        invariant
            0 <= i <= n,
            n == s.len(),
            s == w@,
            dots <= i,
            dots == count_dots(s.subrange(0, i as int)),
        decreases n - i,
    {
        let c = w.as_str().get_char(i);
        proof {
            lemma_subrange_push(s, 0, i as int);
            assert(s.subrange(0, i as int + 1).drop_last() =~= s.subrange(0, i as int));
        }
        if c == '.' {
            dots = dots + 1;
        }
        i = i + 1;
    }
    proof {
        assert(s.subrange(0, n as int) =~= s);
    }
    if dots == 0 {
        proof {
            lemma_count_dots_zero(s);
        }
        let mut acc: i64 = 0;
        let mut k: usize = 0;
        while k < n
            invariant
                0 <= k <= n,
                n == s.len(),
                s == w@,
                forall|j: int| 0 <= j < s.len() ==> is_digit(#[trigger] s[j]),
                count_dots(s) == 0,
                0 <= acc,
                acc == digits_val(s.subrange(0, k as int)),
            decreases n - k,
        {
            let c = w.as_str().get_char(k);
            let d = ((c as u32) - 48) as i64;
            proof {
                lemma_subrange_push(s, 0, k as int);
                assert(s.subrange(0, k as int + 1).drop_last() =~= s.subrange(0, k as int));
            }
            proof {
                assert(c == s[k as int]);
                assert(is_digit(c));
                assert(d == crate::scan::digit_val(c));
                assert(s.subrange(0, k as int + 1).last() == s[k as int]);
                assert(digits_val(s.subrange(0, k as int + 1)) == acc * 10 + crate::scan::digit_val(
                    c,
                ));
            }
            let m = match acc.checked_mul(10) {
                Some(m) => m,
                None => {
                    proof {
                        assert(acc * 10 > i64::MAX);
                        assert(digits_val(s.subrange(0, k as int + 1)) > i64::MAX);
                        lemma_digits_val_prefix_le(s, k as int + 1);
                        assert(digits_val(s) > i64::MAX);
                    }
                    return Ok(Token::Number(Number::Float(w)));
                },
            };
            let v = match m.checked_add(d) {
                Some(v) => v,
                None => {
                    proof {
                        assert(m + d > i64::MAX);
                        assert(digits_val(s.subrange(0, k as int + 1)) > i64::MAX);
                        lemma_digits_val_prefix_le(s, k as int + 1);
                        assert(digits_val(s) > i64::MAX);
                    }
                    return Ok(Token::Number(Number::Float(w)));
                },
            };
            acc = v;
            k = k + 1;
        }
        proof {
            assert(s.subrange(0, n as int) =~= s);
        }
        Ok(Token::Number(Number::Int(acc)))
    } else if dots == 1 {
        Ok(Token::Number(Number::Float(w)))
    } else {
        Err(LexErrorKind::MalformedNumber(w))
    }
}

// ---------------------------------------------------------------------------
// The tokenizer
// ---------------------------------------------------------------------------

/// `t` is the enriched token that the scan model `l` describes: same start
/// and end positions, same token value.
pub open spec fn enriched_matches(t: EnrichedToken, l: SpecLexeme) -> bool {
    &&& t@.start == l.spos
    &&& t@.end == l.epos
    &&& t@.token == l.token
}

/// What tokenizing `s` must return: exactly the tokens of the functional
/// model [`spec_tokenize`], or exactly its error.
pub open spec fn tokenize_post(s: Seq<char>, r: Result<Vec<EnrichedToken>, LexError>) -> bool {
    match spec_tokenize(s) {
        Ok(ts) => r matches Ok(v) && v@.len() == ts.len() && (forall|k: int|
            0 <= k < ts.len() ==> enriched_matches(#[trigger] v@[k], ts[k])),
        Err(se) => r matches Err(e) && e@ == se,
    }
}

/// Main-loop invariant: the scan of the whole input is the tokens emitted so
/// far followed by the scan of the rest (or the error the rest runs into).
spec fn scan_inv(s: Seq<char>, i: int, done: Seq<SpecLexeme>) -> bool {
    match scan_from(s, i) {
        Ok(rest) => scan_from(s, 0) == Ok::<Seq<SpecLexeme>, SpecLexError>(done + rest),
        Err(e) => scan_from(s, 0) == Err::<Seq<SpecLexeme>, SpecLexError>(e),
    }
}

/// Splits the whole input into positioned tokens, one per maximal scan step,
/// covering the input left to right with no gaps and no overlaps; a trailing
/// whitespace token is dropped.  Stops at the first character that fits no
/// rule of the closed token alphabet, or at a digit-and-dot run with more
/// than one radix point, reporting the offending position.
///
/// The input must leave room for one past-the-end position (a machine
/// limit, not a rule of the language).
pub fn tokenize_code(code: &str) -> (r: Result<Vec<EnrichedToken>, LexError>)
    requires
        code@.len() < usize::MAX,
    ensures
        tokenize_post(code@, r),
{
    let chars = str_to_chars(code);
    let mut lexer = Lexer::new(chars);
    let ghost s = code@;
    let mut tokens: Vec<EnrichedToken> = Vec::new();
    let ghost mut done: Seq<SpecLexeme> = Seq::empty();
    proof {
        if scan_from(s, 0) is Ok {
            assert(done + scan_from(s, 0)->Ok_0 =~= scan_from(s, 0)->Ok_0);
        }
    }
    loop
        invariant
            lexer.wf(),
            lexer.chars@ == s,
            s == code@,
            s.len() < usize::MAX,
            scan_inv(s, lexer.idx as int, done),
            tokens@.len() == done.len(),
            forall|k: int| 0 <= k < done.len() ==> enriched_matches(#[trigger] tokens@[k], done[k]),
        ensures
            lexer.idx == s.len(),
            lexer.chars@ == s,
            scan_inv(s, lexer.idx as int, done),
            tokens@.len() == done.len(),
            forall|k: int| 0 <= k < done.len() ==> enriched_matches(#[trigger] tokens@[k], done[k]),
        decreases s.len() - lexer.idx,
    {
        let ch = match lexer.get_current_char() {
            Some(c) => c,
            None => { break; },
        };
        let start_pos = lexer.get_position();
        let ghost i = lexer.idx as int;
        let ghost mut e: int = 0;
        let token: Token;
        let pk = lexer.peek_next_char();
        if is_whitespace(ch) {
            let ghost p = (|c: char| !is_space(c));
            let len = lexer.skip_until(
                (|c: char| -> (b: bool)
                    ensures
                        b == !is_space(c),
                    { !is_whitespace(c) }),
                Ghost(p),
            );
            proof {
                lemma_first_where(s, i, p);
                lemma_space_end_from_facts(s, i, first_where(s, i, p));
                e = space_end(s, i);
                assert(step_at(s, i) == SpecStep::Tok {
                    end: e,
                    token: SpecToken::Whitespace(e - i),
                });
            }
            token = Token::Whitespace(len);
        } else if is_identifier(ch) {
            let ghost p = (|c: char| !is_ident_cont(c));
            let word = lexer.collect_until(
                (|c: char| -> (b: bool)
                    ensures
                        b == !is_ident_cont(c),
                    { !(is_identifier(c) || is_number(c)) }),
                Ghost(p),
            );
            proof {
                lemma_first_where(s, i, p);
                lemma_ident_end_from_facts(s, i, first_where(s, i, p));
                e = ident_end(s, i);
            }
            token = word_token(word);
            proof {
                assert(step_at(s, i) == SpecStep::Tok { end: e, token: token@ });
            }
        } else if ch == '"' {
            lexer.increment_idx();
            let mut text = String::new();
            loop
                invariant
                    lexer.wf(),
                    lexer.retreat_ok(),
                    lexer.chars@ == s,
                    0 <= i < s.len(),
                    i + 1 <= lexer.idx <= s.len(),
                    str_scan(s, i + 1).0 == str_scan(s, lexer.idx as int).0,
                    str_scan(s, i + 1).1 == text@ + str_scan(s, lexer.idx as int).1,
                ensures
                    lexer.wf(),
                    lexer.retreat_ok(),
                    lexer.chars@ == s,
                    i + 1 <= lexer.idx <= s.len(),
                    str_scan(s, i + 1).0 == str_scan(s, lexer.idx as int).0,
                    str_scan(s, i + 1).1 == text@ + str_scan(s, lexer.idx as int).1,
                    lexer.idx == s.len() || (s[lexer.idx as int] == '"' && str_scan(s, i + 1).0
                        == lexer.idx + 1),
                decreases s.len() - lexer.idx,
            {
                let c2 = match lexer.get_current_char() {
                    Some(c2) => c2,
                    None => { break; },
                };
                let ghost j = lexer.idx as int;
                let ghost told = text@;
                if c2 == '\\' {
                    lexer.increment_idx();
                    match lexer.get_current_char() {
                        Some(c3) => {
                            push_char(&mut text, c3);
                        },
                        None => {},
                    }
                } else if c2 == '"' {
                    break;
                } else {
                    push_char(&mut text, c2);
                }
                if lexer.idx < lexer.chars.len() {
                    lexer.increment_idx();
                }
                proof {
                    if s[j] == '\\' {
                        if j + 1 < s.len() {
                            assert(lexer.idx == j + 2);
                            assert(told + (seq![s[j + 1]] + str_scan(s, j + 2).1) =~= text@
                                + str_scan(s, j + 2).1);
                        } else {
                            assert(lexer.idx == j + 1);
                        }
                    } else {
                        assert(lexer.idx == j + 1);
                        assert(told + (seq![s[j]] + str_scan(s, j + 1).1) =~= text@ + str_scan(
                            s,
                            j + 1,
                        ).1);
                    }
                }
            }
            proof {
                assert(text@ + Seq::<char>::empty() =~= text@);
                lemma_str_scan_bounds(s, i + 1);
                e = str_scan(s, i + 1).0;
            }
            if lexer.idx >= lexer.chars.len() {
                lexer.decrement_idx();
            }
            token = Token::String(text);
            proof {
                assert(step_at(s, i) == SpecStep::Tok { end: e, token: token@ });
            }
        } else {
            let is_comment = ch == '/' && (match pk {
                None => true,
                Some(c2) => c2 == '/',
            });
            if is_comment {
                lexer.increment_idx();
                if lexer.idx < lexer.chars.len() {
                    lexer.increment_idx();
                }
                let ghost j0 = if i + 2 <= s.len() { i + 2 } else { s.len() as int };
                let ghost p = (|c: char| c == '\n');
                let raw = lexer.collect_until(
                    (|c: char| -> (b: bool)
                        ensures
                            b == (c == '\n'),
                        { c == '\n' }),
                    Ghost(p),
                );
                proof {
                    lemma_first_where(s, j0, p);
                    lemma_line_end_from_facts(s, j0, first_where(s, j0, p));
                    e = line_end(s, j0);
                }
                let text = trim_text(raw.as_str());
                token = Token::Comment(text);
                proof {
                    assert(step_at(s, i) == SpecStep::Tok { end: e, token: token@ });
                }
            } else if is_number(ch) {
                let ghost p = (|c: char| !(is_digit(c) || c == '.'));
                let numstr = lexer.collect_until(
                    (|c: char| -> (b: bool)
                        ensures
                            b == !(is_digit(c) || c == '.'),
                        { !(is_number(c) || c == '.') }),
                    Ghost(p),
                );
                proof {
                    lemma_first_where(s, i, p);
                    lemma_num_end_from_facts(s, i, first_where(s, i, p));
                    e = num_end(s, i);
                }
                match classify_number(numstr) {
                    Ok(t) => {
                        token = t;
                        proof {
                            assert(step_at(s, i) == SpecStep::Tok { end: e, token: token@ });
                        }
                    },
                    Err(kind) => {
                        proof {
                            assert(step_at(s, i) == SpecStep::Fail { kind: kind@ });
                            assert(scan_from(s, i) == Err::<Seq<SpecLexeme>, SpecLexError>(
                                SpecLexError { pos: pos_at(s, i), kind: kind@ },
                            ));
                            assert(scan_from(s, 0) == Err::<Seq<SpecLexeme>, SpecLexError>(
                                SpecLexError { pos: pos_at(s, i), kind: kind@ },
                            ));
                            assert(spec_tokenize(s) == Err::<Seq<SpecLexeme>, SpecLexError>(
                                SpecLexError { pos: pos_at(s, i), kind: kind@ },
                            ));
                            assert(start_pos@ == pos_at(s, i));
                        }
                        return Err(LexError { pos: start_pos, kind });
                    },
                }
            } else if is_punctuation(ch) {
                let mut dtok: Option<Token> = None;
                if let Some(nc) = pk {
                    if is_punctuation(nc) {
                        lexer.increment_idx();
                        dtok = pair_token(ch, nc);
                        if dtok.is_none() {
                            lexer.decrement_idx();
                        }
                    }
                }
                match dtok {
                    Some(t) => {
                        token = t;
                        proof {
                            e = i + 2;
                            assert(step_at(s, i) == SpecStep::Tok { end: e, token: token@ });
                        }
                    },
                    None => {
                        token = single_token(ch);
                        proof {
                            e = i + 1;
                            assert(step_at(s, i) == SpecStep::Tok { end: e, token: token@ });
                        }
                    },
                }
            } else {
                proof {
                    assert(step_at(s, i) == SpecStep::Fail {
                        kind: SpecErrKind::UnexpectedChar(ch),
                    });
                    assert(scan_from(s, i) == Err::<Seq<SpecLexeme>, SpecLexError>(
                        SpecLexError { pos: pos_at(s, i), kind: SpecErrKind::UnexpectedChar(ch) },
                    ));
                    assert(scan_from(s, 0) == Err::<Seq<SpecLexeme>, SpecLexError>(
                        SpecLexError { pos: pos_at(s, i), kind: SpecErrKind::UnexpectedChar(ch) },
                    ));
                    assert(spec_tokenize(s) == Err::<Seq<SpecLexeme>, SpecLexError>(
                        SpecLexError { pos: pos_at(s, i), kind: SpecErrKind::UnexpectedChar(ch) },
                    ));
                    assert(start_pos@ == pos_at(s, i));
                }
                return Err(LexError { pos: start_pos, kind: LexErrorKind::UnexpectedChar(ch) });
            }
        }
        proof {
            lemma_step_at_bounds(s, i);
        }
        let end_pos = lexer.get_position();
        let ghost tv = token@;
        tokens.push(EnrichedToken::new(start_pos, end_pos, token));
        proof {
            let lex = SpecLexeme {
                start: i,
                end: e,
                spos: pos_at(s, i),
                epos: pos_at(s, e - 1),
                token: tv,
            };
            let prev = done;
            done = done.push(lex);
            match scan_from(s, e) {
                Ok(rest2) => {
                    assert(scan_from(s, i) == Ok::<Seq<SpecLexeme>, SpecLexError>(
                        seq![lex] + rest2,
                    ));
                    assert(prev + (seq![lex] + rest2) =~= done + rest2);
                },
                Err(e2) => {
                    assert(scan_from(s, i) == Err::<Seq<SpecLexeme>, SpecLexError>(e2));
                },
            }
        }
        lexer.increment_idx();
    }
    proof {
        assert(scan_from(s, lexer.idx as int) == Ok::<Seq<SpecLexeme>, SpecLexError>(
            Seq::empty(),
        ));
        assert(done + Seq::<SpecLexeme>::empty() =~= done);
        assert(scan_from(s, 0) == Ok::<Seq<SpecLexeme>, SpecLexError>(done));
    }
    let n = tokens.len();
    if n > 0 {
        let last_ws = matches!(&tokens[n - 1].token, Token::Whitespace(_));
        proof {
            assert(enriched_matches(tokens@[n - 1], done[n - 1]));
            assert(last_ws == (done[n - 1].token is Whitespace));
        }
        if last_ws {
            let ghost before = tokens@;
            let _dropped = tokens.pop();
            proof {
                assert(tokens@ == before.subrange(0, n - 1));
                assert(done.drop_last() =~= done.subrange(0, n - 1));
                assert forall|k: int| 0 <= k < n - 1 implies enriched_matches(
                    #[trigger] tokens@[k],
                    done.drop_last()[k],
                ) by {
                    assert(tokens@[k] == before[k]);
                }
            }
        }
    }
    Ok(tokens)
}

/// Tokenizes an owned source string; see [`tokenize_code`].
pub fn lex_code(code: String) -> (r: Result<Vec<EnrichedToken>, LexError>)
    requires
        code@.len() < usize::MAX,
    ensures
        tokenize_post(code@, r),
{
    tokenize_code(code.as_str())
}

} // verus!
