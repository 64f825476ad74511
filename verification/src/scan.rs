//! The functional model of tokenization.
//!
//! Everything here is specification: character classes, the extent and value
//! of the token that starts at a given index, and the scan of a whole input.
//! The executable tokenizer is proved to return exactly what [`scan_from`]
//! (less a trailing whitespace token, see [`spec_tokenize`]) describes.

use vstd::prelude::*;
use crate::lexer::SpecPos;
use crate::lexer::pos_at;
use crate::types::{Keyword, BuiltinType, SpecToken, SpecErrKind, SpecLexError};

verus! {

// ---------------------------------------------------------------------------
// Character classes
// ---------------------------------------------------------------------------

/// ASCII whitespace: space, tab, line feed, vertical tab, form feed,
/// carriage return.
pub open spec fn is_space(c: char) -> bool {
    c == ' ' || c == '\t' || c == '\n' || c == '\u{b}' || c == '\u{c}' || c == '\r'
}

/// An identifier may start with an ASCII letter or an underscore.
pub open spec fn is_ident_start(c: char) -> bool {
    (97 <= c as u32 && c as u32 <= 122) || (65 <= c as u32 && c as u32 <= 90) || c == '_'
}

/// An ASCII decimal digit.
pub open spec fn is_digit(c: char) -> bool {
    48 <= c as u32 && c as u32 <= 57
}

/// After its first character an identifier may continue with letters,
/// underscores or digits.
pub open spec fn is_ident_cont(c: char) -> bool {
    is_ident_start(c) || is_digit(c)
}

/// The closed set of punctuation characters the tokenizer recognizes.
pub open spec fn is_punct(c: char) -> bool {
    ||| c == '!' ||| c == '#' ||| c == '$' ||| c == '%' ||| c == '&'
    ||| c == '(' ||| c == ')' ||| c == '*' ||| c == '+' ||| c == '-'
    ||| c == ',' ||| c == '.' ||| c == '/' ||| c == ':' ||| c == ';'
    ||| c == '<' ||| c == '=' ||| c == '>' ||| c == '?' ||| c == '@'
    ||| c == '[' ||| c == '\\' ||| c == ']' ||| c == '^' ||| c == '{'
    ||| c == '|' ||| c == '}'
}

// ---------------------------------------------------------------------------
// Maximal runs
// ---------------------------------------------------------------------------

/// The first index at or after `i` whose character satisfies `p`, or the
/// input length if none does.
pub open spec fn first_where(s: Seq<char>, i: int, p: spec_fn(char) -> bool) -> int
    recommends
        0 <= i <= s.len(),
    decreases s.len() - i,
{
    if i < 0 {
        i
    } else if i >= s.len() {
        s.len() as int
    } else if p(s[i]) {
        i
    } else {
        first_where(s, i + 1, p)
    }
}

/// `first_where` is pinned down by its characteristic facts: no character
/// before `e` satisfies `p`, and `e` is the length or satisfies `p`.
pub proof fn lemma_first_where_from_facts(s: Seq<char>, i: int, e: int, p: spec_fn(char) -> bool)
    requires
        0 <= i <= e <= s.len(),
        forall|j: int| i <= j < e ==> !p(#[trigger] s[j]),
        e == s.len() || p(s[e]),
    ensures
        first_where(s, i, p) == e,
    decreases e - i,
{
    if i < e {
        lemma_first_where_from_facts(s, i + 1, e, p);
    }
}

/// What `first_where` guarantees about its result.
pub proof fn lemma_first_where(s: Seq<char>, i: int, p: spec_fn(char) -> bool)
    requires
        0 <= i <= s.len(),
    ensures
        i <= first_where(s, i, p) <= s.len(),
        forall|j: int| i <= j < first_where(s, i, p) ==> !p(#[trigger] s[j]),
        first_where(s, i, p) < s.len() ==> p(s[first_where(s, i, p)]),
    decreases s.len() - i,
{
    if i < s.len() && !p(s[i]) {
        lemma_first_where(s, i + 1, p);
    }
}

/// Extending a slice by one index appends that one character.
pub proof fn lemma_subrange_push(s: Seq<char>, i: int, j: int)
    requires
        0 <= i <= j < s.len(),
    ensures
        s.subrange(i, j + 1) == s.subrange(i, j).push(s[j]),
{
    assert(s.subrange(i, j + 1) =~= s.subrange(i, j).push(s[j]));
}

/// Exclusive end of the whitespace run that starts at `i`.
pub open spec fn space_end(s: Seq<char>, i: int) -> int
    recommends
        0 <= i <= s.len(),
    decreases s.len() - i,
{
    if i < 0 {
        i
    } else if i >= s.len() {
        s.len() as int
    } else if is_space(s[i]) {
        space_end(s, i + 1)
    } else {
        i
    }
}

/// Exclusive end of the identifier run that starts at `i`.
pub open spec fn ident_end(s: Seq<char>, i: int) -> int
    recommends
        0 <= i <= s.len(),
    decreases s.len() - i,
{
    if i < 0 {
        i
    } else if i >= s.len() {
        s.len() as int
    } else if is_ident_cont(s[i]) {
        ident_end(s, i + 1)
    } else {
        i
    }
}

/// The index of the first newline at or after `i`, or the input length.
pub open spec fn line_end(s: Seq<char>, i: int) -> int
    recommends
        0 <= i <= s.len(),
    decreases s.len() - i,
{
    if i < 0 {
        i
    } else if i >= s.len() {
        s.len() as int
    } else if s[i] == '\n' {
        i
    } else {
        line_end(s, i + 1)
    }
}

/// Exclusive end of the digit-and-dot run that starts at `i`.
pub open spec fn num_end(s: Seq<char>, i: int) -> int
    recommends
        0 <= i <= s.len(),
    decreases s.len() - i,
{
    if i < 0 {
        i
    } else if i >= s.len() {
        s.len() as int
    } else if is_digit(s[i]) || s[i] == '.' {
        num_end(s, i + 1)
    } else {
        i
    }
}

pub proof fn lemma_space_end(s: Seq<char>, i: int)
    requires
        0 <= i <= s.len(),
    ensures
        i <= space_end(s, i) <= s.len(),
        forall|j: int| i <= j < space_end(s, i) ==> is_space(#[trigger] s[j]),
        space_end(s, i) < s.len() ==> !is_space(s[space_end(s, i)]),
    decreases s.len() - i,
{
    if i < s.len() && is_space(s[i]) {
        lemma_space_end(s, i + 1);
    }
}

pub proof fn lemma_ident_end(s: Seq<char>, i: int)
    requires
        0 <= i <= s.len(),
    ensures
        i <= ident_end(s, i) <= s.len(),
        forall|j: int| i <= j < ident_end(s, i) ==> is_ident_cont(#[trigger] s[j]),
        ident_end(s, i) < s.len() ==> !is_ident_cont(s[ident_end(s, i)]),
    decreases s.len() - i,
{
    if i < s.len() && is_ident_cont(s[i]) {
        lemma_ident_end(s, i + 1);
    }
}

pub proof fn lemma_line_end(s: Seq<char>, i: int)
    requires
        0 <= i <= s.len(),
    ensures
        i <= line_end(s, i) <= s.len(),
        forall|j: int| i <= j < line_end(s, i) ==> #[trigger] s[j] != '\n',
        line_end(s, i) < s.len() ==> s[line_end(s, i)] == '\n',
    decreases s.len() - i,
{
    if i < s.len() && s[i] != '\n' {
        lemma_line_end(s, i + 1);
    }
}

pub proof fn lemma_num_end(s: Seq<char>, i: int)
    requires
        0 <= i <= s.len(),
    ensures
        i <= num_end(s, i) <= s.len(),
        forall|j: int| i <= j < num_end(s, i) ==> is_digit(#[trigger] s[j]) || s[j] == '.',
        num_end(s, i) < s.len() ==> !(is_digit(s[num_end(s, i)]) || s[num_end(s, i)] == '.'),
    decreases s.len() - i,
{
    if i < s.len() && (is_digit(s[i]) || s[i] == '.') {
        lemma_num_end(s, i + 1);
    }
}

/// `space_end` is pinned down by its characteristic facts.
pub proof fn lemma_space_end_from_facts(s: Seq<char>, i: int, e: int)
    requires
        0 <= i <= e <= s.len(),
        forall|j: int| i <= j < e ==> is_space(#[trigger] s[j]),
        e == s.len() || !is_space(s[e]),
    ensures
        space_end(s, i) == e,
    decreases e - i,
{
    if i < e {
        lemma_space_end_from_facts(s, i + 1, e);
    }
}

/// `ident_end` is pinned down by its characteristic facts.
pub proof fn lemma_ident_end_from_facts(s: Seq<char>, i: int, e: int)
    requires
        0 <= i <= e <= s.len(),
        forall|j: int| i <= j < e ==> is_ident_cont(#[trigger] s[j]),
        e == s.len() || !is_ident_cont(s[e]),
    ensures
        ident_end(s, i) == e,
    decreases e - i,
{
    if i < e {
        lemma_ident_end_from_facts(s, i + 1, e);
    }
}

/// `line_end` is pinned down by its characteristic facts.
pub proof fn lemma_line_end_from_facts(s: Seq<char>, i: int, e: int)
    requires
        0 <= i <= e <= s.len(),
        forall|j: int| i <= j < e ==> #[trigger] s[j] != '\n',
        e == s.len() || s[e] == '\n',
    ensures
        line_end(s, i) == e,
    decreases e - i,
{
    if i < e {
        lemma_line_end_from_facts(s, i + 1, e);
    }
}

/// `num_end` is pinned down by its characteristic facts.
pub proof fn lemma_num_end_from_facts(s: Seq<char>, i: int, e: int)
    requires
        0 <= i <= e <= s.len(),
        forall|j: int| i <= j < e ==> is_digit(#[trigger] s[j]) || s[j] == '.',
        e == s.len() || !(is_digit(s[e]) || s[e] == '.'),
    ensures
        num_end(s, i) == e,
    decreases e - i,
{
    if i < e {
        lemma_num_end_from_facts(s, i + 1, e);
    }
}

// ---------------------------------------------------------------------------
// Whitespace trimming (for comment text)
// ---------------------------------------------------------------------------

/// The exclusive end of `s` once trailing whitespace is dropped.
pub open spec fn trim_end_idx(s: Seq<char>) -> int
    decreases s.len(),
{
    if s.len() > 0 && is_space(s.last()) {
        trim_end_idx(s.drop_last())
    } else {
        s.len() as int
    }
}

/// `s` with leading and trailing whitespace removed.
pub open spec fn trimmed(s: Seq<char>) -> Seq<char> {
    let a = space_end(s, 0);
    if a == s.len() {
        Seq::empty()
    } else {
        s.subrange(a, trim_end_idx(s))
    }
}

pub proof fn lemma_trim_end_idx(s: Seq<char>)
    ensures
        0 <= trim_end_idx(s) <= s.len(),
        forall|j: int| trim_end_idx(s) <= j < s.len() ==> is_space(#[trigger] s[j]),
        trim_end_idx(s) > 0 ==> !is_space(s[trim_end_idx(s) - 1]),
    decreases s.len(),
{
    if s.len() > 0 && is_space(s.last()) {
        lemma_trim_end_idx(s.drop_last());
        assert forall|j: int| trim_end_idx(s) <= j < s.len() implies is_space(#[trigger] s[j]) by {
            if j < s.len() - 1 {
                assert(s.drop_last()[j] == s[j]);
            }
        }
    }
}

/// `trim_end_idx` is pinned down by its characteristic facts.
pub proof fn lemma_trim_end_from_facts(s: Seq<char>, e: int)
    requires
        0 <= e <= s.len(),
        forall|j: int| e <= j < s.len() ==> is_space(#[trigger] s[j]),
        e == 0 || !is_space(s[e - 1]),
    ensures
        trim_end_idx(s) == e,
    decreases s.len(),
{
    if s.len() > 0 && is_space(s.last()) {
        assert(e < s.len());
        assert forall|j: int| e <= j < s.drop_last().len() implies is_space(
            #[trigger] s.drop_last()[j],
        ) by {
            assert(s.drop_last()[j] == s[j]);
        }
        lemma_trim_end_from_facts(s.drop_last(), e);
    } else {
        if e < s.len() {
            assert(is_space(s[s.len() - 1]));
            assert(false);
        }
    }
}

// ---------------------------------------------------------------------------
// Numeric literals
// ---------------------------------------------------------------------------

/// The numeric value of a decimal digit character.
pub open spec fn digit_val(c: char) -> int {
    c as u32 - 48
}

/// The value of a run of decimal digits, most significant first.
pub open spec fn digits_val(s: Seq<char>) -> int
    decreases s.len(),
{
    if s.len() == 0 {
        0
    } else {
        digits_val(s.drop_last()) * 10 + digit_val(s.last())
    }
}

/// How many radix points a run contains.
pub open spec fn count_dots(s: Seq<char>) -> int
    decreases s.len(),
{
    if s.len() == 0 {
        0
    } else {
        count_dots(s.drop_last()) + if s.last() == '.' { 1int } else { 0int }
    }
}

/// A run of digits has a non-negative value.
pub proof fn lemma_digits_val_nonneg(s: Seq<char>)
    requires
        forall|j: int| 0 <= j < s.len() ==> is_digit(#[trigger] s[j]),
    ensures
        digits_val(s) >= 0,
    decreases s.len(),
{
    if s.len() > 0 {
        assert forall|j: int| 0 <= j < s.drop_last().len() implies is_digit(
            #[trigger] s.drop_last()[j],
        ) by {
            assert(s.drop_last()[j] == s[j]);
        }
        lemma_digits_val_nonneg(s.drop_last());
        assert(is_digit(s.last()));
    }
}

/// The value of a digit run is at least the value of any of its prefixes:
/// appending digits never shrinks the value.
pub proof fn lemma_digits_val_prefix_le(s: Seq<char>, k: int)
    requires
        forall|j: int| 0 <= j < s.len() ==> is_digit(#[trigger] s[j]),
        0 <= k <= s.len(),
    ensures
        digits_val(s.subrange(0, k)) <= digits_val(s),
    decreases s.len(),
{
    if k == s.len() {
        assert(s.subrange(0, k) =~= s);
    } else {
        assert forall|j: int| 0 <= j < s.drop_last().len() implies is_digit(
            #[trigger] s.drop_last()[j],
        ) by {
            assert(s.drop_last()[j] == s[j]);
        }
        assert(s.subrange(0, k) =~= s.drop_last().subrange(0, k));
        lemma_digits_val_prefix_le(s.drop_last(), k);
        lemma_digits_val_nonneg(s.drop_last());
        assert(is_digit(s.last()));
        assert(digits_val(s) == digits_val(s.drop_last()) * 10 + digit_val(s.last()));
        assert(digits_val(s.drop_last()) * 10 >= digits_val(s.drop_last()));
        assert(digit_val(s.last()) >= 0);
    }
}

/// A run with no radix point consists of digits only (given that every
/// character is a digit or a radix point).
pub proof fn lemma_count_dots_zero(s: Seq<char>)
    requires
        count_dots(s) == 0,
    ensures
        forall|j: int| 0 <= j < s.len() ==> #[trigger] s[j] != '.',
    decreases s.len(),
{
    if s.len() > 0 {
        lemma_count_dots_nonneg(s.drop_last());
        assert(count_dots(s.drop_last()) == 0);
        lemma_count_dots_zero(s.drop_last());
        assert forall|j: int| 0 <= j < s.len() implies #[trigger] s[j] != '.' by {
            if j < s.len() - 1 {
                assert(s.drop_last()[j] == s[j]);
            }
        }
    }
}

pub proof fn lemma_count_dots_nonneg(s: Seq<char>)
    ensures
        count_dots(s) >= 0,
    decreases s.len(),
{
    if s.len() > 0 {
        lemma_count_dots_nonneg(s.drop_last());
    }
}

/// Classification of a digit-and-dot run: with no radix point it is an
/// integer when its value fits in an `i64` and otherwise an (overflowing)
/// float literal kept as text; with one radix point it is a float literal;
/// with more than one it is malformed.
pub open spec fn spec_number_token(w: Seq<char>) -> Result<SpecToken, SpecErrKind> {
    if count_dots(w) == 0 {
        if digits_val(w) <= i64::MAX {
            Ok(SpecToken::Int(digits_val(w) as i64))
        } else {
            Ok(SpecToken::Float(w))
        }
    } else if count_dots(w) == 1 {
        Ok(SpecToken::Float(w))
    } else {
        Err(SpecErrKind::MalformedNumber(w))
    }
}

// ---------------------------------------------------------------------------
// Words: keywords, builtin type names, identifiers
// ---------------------------------------------------------------------------

/// Classification of an identifier run: reserved type names and keywords
/// take precedence, by exact, case-sensitive match, over plain identifiers.
pub open spec fn spec_word_token(w: Seq<char>) -> SpecToken {
    if w == seq!['i', 'n', 't'] {
        SpecToken::BuiltinType(BuiltinType::Int)
    } else if w == seq!['f', 'l', 'o', 'a', 't'] {
        SpecToken::BuiltinType(BuiltinType::Float)
    } else if w == seq!['b', 'o', 'o', 'l', 'e', 'a', 'n'] {
        SpecToken::BuiltinType(BuiltinType::Boolean)
    } else if w == seq!['s', 't', 'r', 'i', 'n', 'g'] {
        SpecToken::BuiltinType(BuiltinType::String)
    } else if w == seq!['f', 'n'] {
        SpecToken::Keyword(Keyword::Function)
    } else if w == seq!['i', 'f'] {
        SpecToken::Keyword(Keyword::If)
    } else if w == seq!['e', 'l', 's', 'e'] {
        SpecToken::Keyword(Keyword::Else)
    } else if w == seq!['e', 'n', 'd'] {
        SpecToken::Keyword(Keyword::End)
    } else if w == seq!['r', 'e', 't', 'u', 'r', 'n'] {
        SpecToken::Keyword(Keyword::Return)
    } else if w == seq!['m', 'u', 't'] {
        SpecToken::Keyword(Keyword::Mutable)
    } else if w == seq!['f', 'o', 'r'] {
        SpecToken::Keyword(Keyword::For)
    } else if w == seq!['i', 'n'] {
        SpecToken::Keyword(Keyword::In)
    } else {
        SpecToken::Ident(w)
    }
}

// ---------------------------------------------------------------------------
// Operators
// ---------------------------------------------------------------------------

/// The fixed table of two-character operators (and the `[]` array type).
pub open spec fn spec_pair_token(a: char, b: char) -> Option<SpecToken> {
    if a == '[' && b == ']' {
        Some(SpecToken::BuiltinType(BuiltinType::Array))
    } else if a == ':' && b == '=' {
        Some(SpecToken::Assign)
    } else if a == '=' && b == '=' {
        Some(SpecToken::Eq)
    } else if a == '!' && b == '=' {
        Some(SpecToken::NotEq)
    } else if a == '>' && b == '=' {
        Some(SpecToken::GreaterThanOrEq)
    } else if a == '<' && b == '=' {
        Some(SpecToken::LessThanOrEq)
    } else if a == '-' && b == '>' {
        Some(SpecToken::ReturnType)
    } else if a == '+' && b == '=' {
        Some(SpecToken::RelationalPlus)
    } else if a == '-' && b == '=' {
        Some(SpecToken::RelationalMinus)
    } else if a == '*' && b == '=' {
        Some(SpecToken::RelationalMul)
    } else if a == '/' && b == '=' {
        Some(SpecToken::RelationalDiv)
    } else {
        None
    }
}

/// The fixed table of single punctuation characters.
pub open spec fn spec_single_token(c: char) -> SpecToken
    recommends
        is_punct(c),
{
    if c == '!' {
        SpecToken::Bang
    } else if c == '#' {
        SpecToken::Shabang
    } else if c == '$' {
        SpecToken::Dollar
    } else if c == '%' {
        SpecToken::Percent
    } else if c == '&' {
        SpecToken::Ampersand
    } else if c == '(' {
        SpecToken::OpenParen
    } else if c == ')' {
        SpecToken::CloseParen
    } else if c == '*' {
        SpecToken::Asterisk
    } else if c == '+' {
        SpecToken::Plus
    } else if c == '-' {
        SpecToken::Minus
    } else if c == ',' {
        SpecToken::Comma
    } else if c == '.' {
        SpecToken::Period
    } else if c == '/' {
        SpecToken::Slash
    } else if c == ':' {
        SpecToken::Colon
    } else if c == ';' {
        SpecToken::Semicolon
    } else if c == '<' {
        SpecToken::LessThan
    } else if c == '=' {
        SpecToken::Equals
    } else if c == '>' {
        SpecToken::GreaterThan
    } else if c == '?' {
        SpecToken::QuestionMark
    } else if c == '@' {
        SpecToken::AtSign
    } else if c == '[' {
        SpecToken::OpenSquareBracket
    } else if c == '\\' {
        SpecToken::Backslash
    } else if c == ']' {
        SpecToken::CloseSquareBracket
    } else if c == '^' {
        SpecToken::Caret
    } else if c == '{' {
        SpecToken::OpenCurlyBrace
    } else if c == '|' {
        SpecToken::VerticalBar
    } else {
        SpecToken::CloseCurlyBrace
    }
}

// ---------------------------------------------------------------------------
// String literals
// ---------------------------------------------------------------------------

/// Scan of a string literal body starting at `j` (just after the opening
/// quote).  Returns the exclusive end of the whole literal (past the closing
/// quote, or the input length when unterminated) together with the literal
/// text: the character after a backslash is copied verbatim, and a closing
/// quote ends the literal.
pub open spec fn str_scan(s: Seq<char>, j: int) -> (int, Seq<char>)
    recommends
        0 <= j <= s.len(),
    decreases s.len() - j,
{
    if j < 0 || j >= s.len() {
        (s.len() as int, Seq::empty())
    } else if s[j] == '"' {
        (j + 1, Seq::empty())
    } else if s[j] == '\\' {
        if j + 1 >= s.len() {
            (s.len() as int, Seq::empty())
        } else {
            let r = str_scan(s, j + 2);
            (r.0, seq![s[j + 1]] + r.1)
        }
    } else {
        let r = str_scan(s, j + 1);
        (r.0, seq![s[j]] + r.1)
    }
}

pub proof fn lemma_str_scan_bounds(s: Seq<char>, j: int)
    requires
        0 <= j <= s.len(),
    ensures
        j <= str_scan(s, j).0 <= s.len(),
        j < s.len() ==> j + 1 <= str_scan(s, j).0,
    decreases s.len() - j,
{
    if j < s.len() && s[j] == '\\' && j + 1 < s.len() {
        lemma_str_scan_bounds(s, j + 2);
    } else if j < s.len() && s[j] != '"' && s[j] != '\\' {
        lemma_str_scan_bounds(s, j + 1);
    }
}

/// A string-literal scan only looks at the characters it consumes, so it is
/// unchanged on a slice that contains them: scanning `s` from `j` and
/// scanning `s.subrange(a, b)` from `j - a` find the same end (shifted) and
/// the same text, provided the scan ends by `b`.
pub proof fn lemma_str_scan_shift(s: Seq<char>, a: int, j: int, b: int)
    requires
        0 <= a <= j <= b <= s.len(),
        str_scan(s, j).0 <= b,
    ensures
        str_scan(s.subrange(a, b), j - a).0 == str_scan(s, j).0 - a,
        str_scan(s.subrange(a, b), j - a).1 == str_scan(s, j).1,
    decreases s.len() - j,
{
    let t = s.subrange(a, b);
    if j >= b {
        lemma_str_scan_bounds(s, j);
        assert(j == s.len());
    } else {
        assert(t[j - a] == s[j]);
        if s[j] == '"' {
        } else if s[j] == '\\' {
            if j + 1 >= s.len() {
                assert(b == s.len());
            } else {
                lemma_str_scan_bounds(s, j + 2);
                assert(str_scan(s, j).0 == str_scan(s, j + 2).0);
                assert(b >= j + 2);
                assert(t[j + 1 - a] == s[j + 1]);
                lemma_str_scan_shift(s, a, j + 2, b);
            }
        } else {
            lemma_str_scan_bounds(s, j + 1);
            assert(str_scan(s, j).0 == str_scan(s, j + 1).0);
            lemma_str_scan_shift(s, a, j + 1, b);
        }
    }
}

// ---------------------------------------------------------------------------
// One scan step
// ---------------------------------------------------------------------------

/// The outcome of classifying the character at one scan position: a token
/// with its exclusive end index, or a fatal failure.
pub enum SpecStep {
    Tok { end: int, token: SpecToken },
    Fail { kind: SpecErrKind },
}

/// Classification of the token that starts at index `i`.  The order of the
/// branches is the classification order: whitespace, identifier start,
/// string quote, comment marker, digit, punctuation; anything else is
/// outside the closed token alphabet.  A lone `/` at the end of the input
/// counts as a comment marker, as does `//`.
pub open spec fn step_at(s: Seq<char>, i: int) -> SpecStep
    recommends
        0 <= i < s.len(),
{
    let c = s[i];
    if is_space(c) {
        SpecStep::Tok { end: space_end(s, i), token: SpecToken::Whitespace(space_end(s, i) - i) }
    } else if is_ident_start(c) {
        let e = ident_end(s, i);
        SpecStep::Tok { end: e, token: spec_word_token(s.subrange(i, e)) }
    } else if c == '"' {
        let r = str_scan(s, i + 1);
        SpecStep::Tok { end: r.0, token: SpecToken::StrLit(r.1) }
    } else if c == '/' && (i + 1 >= s.len() || s[i + 1] == '/') {
        let j = if i + 2 <= s.len() { i + 2 } else { s.len() as int };
        let e = line_end(s, j);
        SpecStep::Tok { end: e, token: SpecToken::Comment(trimmed(s.subrange(j, e))) }
    } else if is_digit(c) {
        let e = num_end(s, i);
        match spec_number_token(s.subrange(i, e)) {
            Ok(token) => SpecStep::Tok { end: e, token },
            Err(kind) => SpecStep::Fail { kind },
        }
    } else if is_punct(c) {
        if i + 1 < s.len() && is_punct(s[i + 1]) && spec_pair_token(c, s[i + 1]) is Some {
            SpecStep::Tok { end: i + 2, token: spec_pair_token(c, s[i + 1])->Some_0 }
        } else {
            SpecStep::Tok { end: i + 1, token: spec_single_token(c) }
        }
    } else {
        SpecStep::Fail { kind: SpecErrKind::UnexpectedChar(c) }
    }
}

/// Every token extends at least one character and never past the input.
pub proof fn lemma_step_at_bounds(s: Seq<char>, i: int)
    requires
        0 <= i < s.len(),
    ensures
        step_at(s, i) matches SpecStep::Tok { end, .. } ==> i + 1 <= end <= s.len(),
{
    let c = s[i];
    if is_space(c) {
        lemma_space_end(s, i);
    } else if is_ident_start(c) {
        lemma_ident_end(s, i);
    } else if c == '"' {
        lemma_str_scan_bounds(s, i + 1);
    } else if c == '/' && (i + 1 >= s.len() || s[i + 1] == '/') {
        let j = if i + 2 <= s.len() { i + 2 } else { s.len() as int };
        lemma_line_end(s, j);
    } else if is_digit(c) {
        lemma_num_end(s, i);
    }
}

// ---------------------------------------------------------------------------
// Scanning a whole input
// ---------------------------------------------------------------------------

/// One token of the scan, with both its index span in the input and the
/// source positions the tokenizer reports for it.
pub struct SpecLexeme {
    /// Index of the token's first character.
    pub start: int,
    /// Exclusive index just past the token's last character.
    pub end: int,
    /// Position of the token's first character.
    pub spos: SpecPos,
    /// Position of the token's last character.
    pub epos: SpecPos,
    pub token: SpecToken,
}

/// The scan of `s` from index `i` to the end: the sequence of tokens, each
/// with its span and positions, or the first fatal failure with the position
/// where it occurred.
pub open spec fn scan_from(s: Seq<char>, i: int) -> Result<Seq<SpecLexeme>, SpecLexError>
    recommends
        0 <= i <= s.len(),
    decreases s.len() - i,
{
    if i < 0 || i >= s.len() {
        Ok(Seq::empty())
    } else {
        match step_at(s, i) {
            SpecStep::Fail { kind } => Err(SpecLexError { pos: pos_at(s, i), kind }),
            SpecStep::Tok { end, token } => {
                proof {
                    lemma_step_at_bounds(s, i);
                }
                match scan_from(s, end) {
                    Ok(rest) => Ok(
                        seq![
                            SpecLexeme {
                                start: i,
                                end: end,
                                spos: pos_at(s, i),
                                epos: pos_at(s, end - 1),
                                token: token,
                            },
                        ] + rest,
                    ),
                    Err(e) => Err(e),
                }
            },
        }
    }
}

/// The full tokenization of `s`: the scan from the start, with a trailing
/// whitespace token (common for inputs that end in a newline, and useless to
/// a parser) dropped from the result.
pub open spec fn spec_tokenize(s: Seq<char>) -> Result<Seq<SpecLexeme>, SpecLexError> {
    match scan_from(s, 0) {
        Ok(toks) => Ok(
            if toks.len() > 0 && toks.last().token is Whitespace {
                toks.drop_last()
            } else {
                toks
            },
        ),
        Err(e) => Err(e),
    }
}

} // verus!
