//! Laws of the tokenizer, proved of the functional model in [`crate::scan`]:
//! the emitted spans cover the input exactly, positions grow monotonically
//! and follow the newline/column rules, re-tokenizing a token's own source
//! slice reproduces the token, two-character operators are matched greedily,
//! and keywords take precedence over identifiers.

use vstd::prelude::*;
use crate::lexer::{SpecPos, advance_pos, pos_at};
use crate::types::SpecToken;
use crate::types::{Keyword, SpecLexError};
use crate::scan::{
    ident_end, is_digit, is_ident_cont, is_ident_start, is_punct, is_space, lemma_step_at_bounds,
    scan_from, spec_pair_token, spec_word_token, step_at, SpecLexeme, SpecStep,
};

verus! {

// ---------------------------------------------------------------------------
// Span structure of a scan
// ---------------------------------------------------------------------------

/// Structure of a successful scan from `i`: the tokens tile `[i, s.len())`
/// left to right with no gaps and no overlaps, each one is exactly what
/// [`step_at`] classifies at its start index, and each one carries the
/// positions of its first and last character.
pub proof fn lemma_scan_spans(s: Seq<char>, i: int, toks: Seq<SpecLexeme>)
    requires
        0 <= i <= s.len(),
        scan_from(s, i) == Ok::<Seq<SpecLexeme>, SpecLexError>(toks),
    ensures
        toks.len() == 0 ==> i == s.len(),
        toks.len() > 0 ==> toks[0].start == i && toks[toks.len() - 1].end == s.len(),
        forall|k: int|
            0 <= k < toks.len() ==> i <= #[trigger] toks[k].start < toks[k].end <= s.len(),
        forall|k: int| 0 <= k < toks.len() - 1 ==> #[trigger] toks[k + 1].start == toks[k].end,
        forall|k: int|
            0 <= k < toks.len() ==> step_at(s, #[trigger] toks[k].start) == (SpecStep::Tok {
                end: toks[k].end,
                token: toks[k].token,
            }),
        forall|k: int|
            0 <= k < toks.len() ==> #[trigger] toks[k].spos == pos_at(s, toks[k].start)
                && toks[k].epos == pos_at(s, toks[k].end - 1),
    decreases s.len() - i,
{
    if i < s.len() {
        match step_at(s, i) {
            SpecStep::Fail { .. } => {
                assert(false);
            },
            SpecStep::Tok { end, token } => {
                lemma_step_at_bounds(s, i);
                match scan_from(s, end) {
                    Ok(rest) => {
                        lemma_scan_spans(s, end, rest);
                        let lex = SpecLexeme {
                            start: i,
                            end: end,
                            spos: pos_at(s, i),
                            epos: pos_at(s, end - 1),
                            token: token,
                        };
                        assert(toks == seq![lex] + rest);
                        assert(toks[0] == lex);
                        assert(toks.len() == 1 + rest.len());
                        assert(forall|k: int|
                            1 <= k < toks.len() ==> toks[k] == rest[k - 1]);
                        assert forall|k: int|
                            0 <= k < toks.len() - 1 implies #[trigger] toks[k + 1].start
                            == toks[k].end by {
                            if k == 0 {
                                assert(toks[1] == rest[0]);
                                assert(rest[0].start == end);
                            } else {
                                assert(toks[k + 1] == rest[k]);
                                assert(toks[k] == rest[k - 1]);
                                assert(rest[(k - 1) + 1].start == rest[k - 1].end);
                            }
                        }
                    },
                    Err(_) => {
                        assert(false);
                    },
                }
            },
        }
    }
}

// ---------------------------------------------------------------------------
// Coverage
// ---------------------------------------------------------------------------

/// The source text that a token sequence spans: the concatenation of the
/// input slices between each token's start and end index.
pub open spec fn spans_text(s: Seq<char>, toks: Seq<SpecLexeme>) -> Seq<char>
    decreases toks.len(),
{
    if toks.len() == 0 {
        Seq::empty()
    } else {
        s.subrange(toks[0].start, toks[0].end) + spans_text(s, toks.drop_first())
    }
}

/// Concatenating the spans of a successful scan from `i` reconstructs the
/// input from `i` on, exactly once per character.
pub proof fn lemma_spans_text(s: Seq<char>, i: int, toks: Seq<SpecLexeme>)
    requires
        0 <= i <= s.len(),
        scan_from(s, i) == Ok::<Seq<SpecLexeme>, SpecLexError>(toks),
    ensures
        spans_text(s, toks) == s.subrange(i, s.len() as int),
    decreases s.len() - i,
{
    if i >= s.len() {
        assert(spans_text(s, toks) =~= s.subrange(i, s.len() as int));
    } else {
        match step_at(s, i) {
            SpecStep::Fail { .. } => {
                assert(false);
            },
            SpecStep::Tok { end, token } => {
                lemma_step_at_bounds(s, i);
                match scan_from(s, end) {
                    Ok(rest) => {
                        lemma_spans_text(s, end, rest);
                        assert(toks.drop_first() =~= rest);
                        assert(toks[0].start == i && toks[0].end == end);
                        assert(s.subrange(i, end) + s.subrange(end, s.len() as int) =~= s.subrange(
                            i,
                            s.len() as int,
                        ));
                    },
                    Err(_) => {
                        assert(false);
                    },
                }
            },
        }
    }
}

/// Coverage: concatenating the source spans of the tokens that
/// [`crate::scan::spec_tokenize`] returns reconstructs the input exactly,
/// except that when a trailing whitespace token was dropped the uncovered
/// tail consists of whitespace only.
pub proof fn lemma_coverage(s: Seq<char>, toks: Seq<SpecLexeme>)
    requires
        crate::scan::spec_tokenize(s) == Ok::<Seq<SpecLexeme>, SpecLexError>(toks),
    ensures
        ({
            let covered = spans_text(s, toks);
            &&& covered.len() <= s.len()
            &&& covered == s.subrange(0, covered.len() as int)
            &&& forall|j: int| covered.len() <= j < s.len() ==> is_space(#[trigger] s[j])
        }),
{
    let full = scan_from(s, 0)->Ok_0;
    lemma_scan_spans(s, 0, full);
    lemma_spans_text(s, 0, full);
    assert(s.subrange(0, s.len() as int) =~= s);
    if full.len() > 0 && full.last().token is Whitespace {
        assert(toks == full.drop_last());
        let last = full.last();
        lemma_spans_text_drop_last(s, full);
        assert(spans_text(s, toks).len() == last.start);
        assert(spans_text(s, toks) == s.subrange(0, last.start));
        assert(step_at(s, last.start) == SpecStep::Tok { end: last.end, token: last.token });
        assert(is_space(s[last.start]));
        crate::scan::lemma_space_end(s, last.start);
        assert(forall|j: int| last.start <= j < s.len() ==> is_space(#[trigger] s[j]));
    } else {
        assert(toks == full);
        assert(spans_text(s, toks) == s);
        assert(spans_text(s, toks) == s.subrange(0, spans_text(s, toks).len() as int));
    }
}

/// Dropping the last token removes exactly its span from the concatenation.
proof fn lemma_spans_text_drop_last(s: Seq<char>, toks: Seq<SpecLexeme>)
    requires
        toks.len() > 0,
        forall|k: int|
            0 <= k < toks.len() ==> 0 <= #[trigger] toks[k].start <= toks[k].end <= s.len(),
    ensures
        spans_text(s, toks) == spans_text(s, toks.drop_last()) + s.subrange(
            toks.last().start,
            toks.last().end,
        ),
    decreases toks.len(),
{
    if toks.len() == 1 {
        assert(toks.drop_last() =~= Seq::<SpecLexeme>::empty());
        assert(spans_text(s, toks.drop_first()) =~= Seq::<char>::empty());
        assert(spans_text(s, toks) =~= spans_text(s, toks.drop_last()) + s.subrange(
            toks.last().start,
            toks.last().end,
        ));
    } else {
        lemma_spans_text_drop_last(s, toks.drop_first());
        assert(toks.drop_first().drop_last() =~= toks.drop_last().drop_first());
        assert(toks.drop_first().last() == toks.last());
        assert(toks.drop_last()[0] == toks[0]);
        assert(spans_text(s, toks.drop_last()) == s.subrange(toks[0].start, toks[0].end)
            + spans_text(s, toks.drop_last().drop_first()));
        assert(spans_text(s, toks) =~= spans_text(s, toks.drop_last()) + s.subrange(
            toks.last().start,
            toks.last().end,
        ));
    }
}

// ---------------------------------------------------------------------------
// Position monotonicity
// ---------------------------------------------------------------------------

/// Ordering of source positions: earlier line, or same line and no later
/// column.
pub open spec fn pos_le(a: SpecPos, b: SpecPos) -> bool {
    a.line < b.line || (a.line == b.line && a.column <= b.column)
}

/// Token start indices are sorted: each token starts where the previous one
/// ends, and spans are non-empty.
proof fn lemma_starts_sorted(toks: Seq<SpecLexeme>, k: int, l: int)
    requires
        0 <= k <= l < toks.len(),
        forall|m: int| 0 <= m < toks.len() - 1 ==> #[trigger] toks[m + 1].start == toks[m].end,
        forall|m: int| 0 <= m < toks.len() ==> #[trigger] toks[m].start < toks[m].end,
    ensures
        toks[k].start <= toks[l].start,
    decreases l - k,
{
    if k < l {
        lemma_starts_sorted(toks, k, l - 1);
        assert(toks[(l - 1) + 1].start == toks[l - 1].end);
    }
}

/// Consuming more characters never moves the position backwards.
pub proof fn lemma_pos_at_monotonic(s: Seq<char>, a: int, b: int)
    requires
        0 <= a <= b,
    ensures
        pos_le(pos_at(s, a), pos_at(s, b)),
    decreases b - a,
{
    if a < b {
        lemma_pos_at_monotonic(s, a, b - 1);
    }
}

/// The position reached from `p` after consuming the characters of `t` in
/// order, by the newline/column rules.
pub open spec fn advance_over(p: SpecPos, t: Seq<char>) -> SpecPos
    decreases t.len(),
{
    if t.len() == 0 {
        p
    } else {
        advance_over(advance_pos(p, t[0]), t.drop_first())
    }
}

/// Positions decompose over slices: the position at `b` is the position at
/// `a` advanced over the characters in between.
pub proof fn lemma_pos_at_decompose(s: Seq<char>, a: int, b: int)
    requires
        0 <= a <= b <= s.len(),
    ensures
        pos_at(s, b) == advance_over(pos_at(s, a), s.subrange(a, b)),
    decreases b - a,
{
    if a == b {
        assert(s.subrange(a, b).len() == 0);
    } else {
        assert(advance_pos(pos_at(s, a), s[a]) == pos_at(s, a + 1));
        assert(s.subrange(a, b).drop_first() =~= s.subrange(a + 1, b));
        assert(s.subrange(a, b)[0] == s[a]);
        lemma_pos_at_decompose(s, a + 1, b);
    }
}

/// Position monotonicity: across a successful scan the token start
/// positions are non-decreasing, each token's end position is reachable
/// from its start position by applying the newline/column rules to the
/// span's text short of its last character, and the next token starts where
/// applying them to the whole span leads.
pub proof fn lemma_position_monotonicity(s: Seq<char>, toks: Seq<SpecLexeme>)
    requires
        scan_from(s, 0) == Ok::<Seq<SpecLexeme>, SpecLexError>(toks),
    ensures
        forall|k: int, l: int|
            0 <= k <= l < toks.len() ==> pos_le(#[trigger] toks[k].spos, #[trigger] toks[l].spos),
        forall|k: int| 0 <= k < toks.len() ==> pos_le(#[trigger] toks[k].spos, toks[k].epos),
        forall|k: int|
            0 <= k < toks.len() ==> #[trigger] toks[k].epos == advance_over(
                toks[k].spos,
                s.subrange(toks[k].start, toks[k].end - 1),
            ),
{
    lemma_scan_spans(s, 0, toks);
    assert forall|k: int, l: int| 0 <= k <= l < toks.len() implies pos_le(
        #[trigger] toks[k].spos,
        #[trigger] toks[l].spos,
    ) by {
        lemma_starts_sorted(toks, k, l);
        lemma_pos_at_monotonic(s, toks[k].start, toks[l].start);
    }
    assert forall|k: int| 0 <= k < toks.len() implies pos_le(
        #[trigger] toks[k].spos,
        toks[k].epos,
    ) by {
        lemma_pos_at_monotonic(s, toks[k].start, toks[k].end - 1);
    }
    assert forall|k: int|
        0 <= k < toks.len() implies #[trigger] toks[k].epos == advance_over(
        toks[k].spos,
        s.subrange(toks[k].start, toks[k].end - 1),
    ) by {
        lemma_pos_at_decompose(s, toks[k].start, toks[k].end - 1);
    }
}

// ---------------------------------------------------------------------------
// Operator greedy match and keyword precedence
// ---------------------------------------------------------------------------

/// Greedy operator match: wherever two adjacent characters form an entry of
/// the two-character operator table (`:=`, `[]`, `==`, and the rest), the
/// token starting at the first of them is that operator, with a span of two
/// characters; the pair is never split into two one-character tokens.
pub proof fn lemma_operator_greedy_match(s: Seq<char>, i: int)
    requires
        0 <= i,
        i + 1 < s.len(),
        (spec_pair_token(s[i], s[i + 1]) is Some),
    ensures
        step_at(s, i) == (SpecStep::Tok {
            end: i + 2,
            token: spec_pair_token(s[i], s[i + 1])->Some_0,
        }),
{
}

/// Idempotence of classification: re-tokenizing the raw source slice of a
/// token reproduces that token, spanning the whole slice.  The one
/// exception is the lone `/` token (`Slash`): its slice re-tokenizes as an
/// empty comment, because a `/` at the very end of the input counts as a
/// comment marker.
#[verifier::rlimit(30)]
pub proof fn lemma_classification_idempotent(s: Seq<char>, i: int, e: int, token: SpecToken)
    requires
        0 <= i < s.len(),
        step_at(s, i) == (SpecStep::Tok { end: e, token: token }),
        token != SpecToken::Slash,
    ensures
        step_at(s.subrange(i, e), 0) == (SpecStep::Tok {
            end: e - i,
            token: token,
        }),
{
    lemma_step_at_bounds(s, i);
    let t = s.subrange(i, e);
    let n = e - i;
    assert(t.len() == n);
    assert(t[0] == s[i]);
    let c = s[i];
    if is_space(c) {
        crate::scan::lemma_space_end(s, i);
        assert forall|j: int| 0 <= j < n implies is_space(#[trigger] t[j]) by {
            assert(t[j] == s[i + j]);
        }
        crate::scan::lemma_space_end_from_facts(t, 0, n);
    } else if is_ident_start(c) {
        crate::scan::lemma_ident_end(s, i);
        assert forall|j: int| 0 <= j < n implies is_ident_cont(#[trigger] t[j]) by {
            assert(t[j] == s[i + j]);
        }
        crate::scan::lemma_ident_end_from_facts(t, 0, n);
        assert(t.subrange(0, n) =~= t);
    } else if c == '"' {
        crate::scan::lemma_str_scan_shift(s, i, i + 1, e);
    } else if c == '/' && (i + 1 >= s.len() || s[i + 1] == '/') {
        if i + 1 >= s.len() {
            assert(e == crate::scan::line_end(s, s.len() as int));
            assert(e == s.len() && n == 1);
            assert(t.subrange(1, 1) =~= s.subrange(s.len() as int, s.len() as int));
        } else {
            assert(s[i + 1] == '/');
            let j0 = i + 2;
            assert(e == crate::scan::line_end(s, j0));
            crate::scan::lemma_line_end(s, j0);
            assert(n >= 2);
            assert(t[1] == s[i + 1]);
            assert forall|j: int| 2 <= j < n implies #[trigger] t[j] != '\n' by {
                assert(t[j] == s[i + j]);
            }
            crate::scan::lemma_line_end_from_facts(t, 2, n);
            assert(t.subrange(2, n) =~= s.subrange(j0, e));
        }
    } else if is_digit(c) {
        crate::scan::lemma_num_end(s, i);
        assert forall|j: int| 0 <= j < n implies is_digit(#[trigger] t[j]) || t[j] == '.' by {
            assert(t[j] == s[i + j]);
        }
        crate::scan::lemma_num_end_from_facts(t, 0, n);
        assert(t.subrange(0, n) =~= t);
        assert(t.subrange(0, n) =~= s.subrange(i, e));
    } else {
        assert(is_punct(c));
        if i + 1 < s.len() && is_punct(s[i + 1]) && spec_pair_token(c, s[i + 1]) is Some {
            assert(n == 2);
            assert(t[1] == s[i + 1]);
        } else {
            assert(n == 1);
            assert(token == crate::scan::spec_single_token(c));
            assert(c != '/');
        }
    }
}

/// Keyword precedence: an identifier run whose text is exactly `end` is the
/// `End` keyword, never an identifier; a longer run such as `endpoint` is a
/// plain identifier.
pub proof fn lemma_keyword_precedence(s: Seq<char>, i: int)
    requires
        0 <= i < s.len(),
        is_ident_start(s[i]),
    ensures
        ({
            let e = ident_end(s, i);
            let w = s.subrange(i, e);
            &&& w == seq!['e', 'n', 'd'] ==> step_at(s, i) == SpecStep::Tok {
                end: e,
                token: SpecToken::Keyword(Keyword::End),
            }
            &&& w == seq!['e', 'n', 'd', 'p', 'o', 'i', 'n', 't'] ==> step_at(s, i)
                == SpecStep::Tok { end: e, token: SpecToken::Ident(w) }
        }),
{
    let e = ident_end(s, i);
    let w = s.subrange(i, e);
    crate::scan::lemma_ident_end(s, i);
    if w == seq!['e', 'n', 'd'] {
        assert(w.len() == 3 && w[0] == 'e');
        assert(w != seq!['i', 'n', 't']) by {
            assert(seq!['i', 'n', 't'][0] == 'i');
        }
        assert(w != seq!['f', 'l', 'o', 'a', 't']) by {
            assert(seq!['f', 'l', 'o', 'a', 't'].len() == 5);
        }
        assert(w != seq!['b', 'o', 'o', 'l', 'e', 'a', 'n']) by {
            assert(seq!['b', 'o', 'o', 'l', 'e', 'a', 'n'].len() == 7);
        }
        assert(w != seq!['s', 't', 'r', 'i', 'n', 'g']) by {
            assert(seq!['s', 't', 'r', 'i', 'n', 'g'].len() == 6);
        }
        assert(w != seq!['f', 'n']) by {
            assert(seq!['f', 'n'].len() == 2);
        }
        assert(w != seq!['i', 'f']) by {
            assert(seq!['i', 'f'].len() == 2);
        }
        assert(w != seq!['e', 'l', 's', 'e']) by {
            assert(seq!['e', 'l', 's', 'e'].len() == 4);
        }
        assert(spec_word_token(w) == SpecToken::Keyword(Keyword::End));
    }
    if w == seq!['e', 'n', 'd', 'p', 'o', 'i', 'n', 't'] {
        assert(w.len() == 8);
        assert(w != seq!['i', 'n', 't']) by {
            assert(seq!['i', 'n', 't'].len() == 3);
        }
        assert(w != seq!['f', 'l', 'o', 'a', 't']) by {
            assert(seq!['f', 'l', 'o', 'a', 't'].len() == 5);
        }
        assert(w != seq!['b', 'o', 'o', 'l', 'e', 'a', 'n']) by {
            assert(seq!['b', 'o', 'o', 'l', 'e', 'a', 'n'].len() == 7);
        }
        assert(w != seq!['s', 't', 'r', 'i', 'n', 'g']) by {
            assert(seq!['s', 't', 'r', 'i', 'n', 'g'].len() == 6);
        }
        assert(w != seq!['f', 'n']) by {
            assert(seq!['f', 'n'].len() == 2);
        }
        assert(w != seq!['i', 'f']) by {
            assert(seq!['i', 'f'].len() == 2);
        }
        assert(w != seq!['e', 'l', 's', 'e']) by {
            assert(seq!['e', 'l', 's', 'e'].len() == 4);
        }
        assert(w != seq!['e', 'n', 'd']) by {
            assert(seq!['e', 'n', 'd'].len() == 3);
        }
        assert(w != seq!['r', 'e', 't', 'u', 'r', 'n']) by {
            assert(seq!['r', 'e', 't', 'u', 'r', 'n'].len() == 6);
        }
        assert(w != seq!['m', 'u', 't']) by {
            assert(seq!['m', 'u', 't'].len() == 3);
        }
        assert(w != seq!['f', 'o', 'r']) by {
            assert(seq!['f', 'o', 'r'].len() == 3);
        }
        assert(w != seq!['i', 'n']) by {
            assert(seq!['i', 'n'].len() == 2);
        }
        assert(spec_word_token(w) == SpecToken::Ident(w));
    }
}

} // verus!
