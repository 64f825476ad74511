//! The scanning cursor: a character buffer, a scan index, and line/column
//! position bookkeeping.

use vstd::prelude::*;
use crate::scan::first_where;
use crate::scan::lemma_subrange_push;

verus! {

/// Relies on `String::push`: appends exactly the one character.
#[verifier::external_body]
pub(crate) fn push_char(s: &mut String, c: char)
    ensures
        final(s)@ == old(s)@.push(c),
{
    s.push(c)
}

/// A 1-indexed line/column source position.
#[derive(Debug, Clone, Copy, PartialEq, Eq, Structural)]
pub struct Position {
    pub line: usize,
    pub column: usize,
}

/// Mathematical model of a position: unbounded line and column numbers.
pub struct SpecPos {
    pub line: int,
    pub column: int,
}

impl View for Position {
    type V = SpecPos;

    open spec fn view(&self) -> SpecPos {
        SpecPos { line: self.line as int, column: self.column as int }
    }
}

/// How consuming one character moves a position: a newline starts the next
/// line at column 1, any other character moves one column to the right.
pub open spec fn advance_pos(p: SpecPos, c: char) -> SpecPos {
    if c == '\n' {
        SpecPos { line: p.line + 1, column: 1 }
    } else {
        SpecPos { line: p.line, column: p.column + 1 }
    }
}

/// The position reached after consuming the first `i` characters of `s`,
/// starting from line 1, column 1.
pub open spec fn pos_at(s: Seq<char>, i: int) -> SpecPos
    recommends
        0 <= i <= s.len(),
    decreases i,
{
    if i <= 0 {
        SpecPos { line: 1, column: 1 }
    } else {
        advance_pos(pos_at(s, i - 1), s[i - 1])
    }
}

/// Lines and columns stay at least 1, and their sum is bounded by the number
/// of consumed characters, so positions never outgrow the buffer length.
pub proof fn lemma_pos_at_bounds(s: Seq<char>, i: int)
    requires
        0 <= i,
    ensures
        1 <= pos_at(s, i).line,
        1 <= pos_at(s, i).column,
        pos_at(s, i).line + pos_at(s, i).column <= i + 2,
    decreases i,
{
    if i > 0 {
        lemma_pos_at_bounds(s, i - 1);
    }
}

/// The cursor: owns the character buffer, the index of the next unconsumed
/// character, the position of that character, and the position cached just
/// before the most recent advance (allowing a single step of retreat).
pub struct Lexer {
    pub chars: Vec<char>,
    pub idx: usize,
    pub pos: Position,
    pub last_pos: Position,
}

impl Lexer {
    /// The cursor is well formed: the index is inside (or one past) the
    /// buffer, the buffer leaves room for position arithmetic, and `pos` is
    /// the true position of the character at `idx`.
    pub open spec fn wf(self) -> bool {
        &&& self.idx <= self.chars@.len()
        &&& self.chars@.len() < usize::MAX
        &&& self.pos@ == pos_at(self.chars@, self.idx as int)
    }

    /// The cached previous position is valid, so one retreat is allowed.
    pub open spec fn retreat_ok(self) -> bool {
        &&& self.idx >= 1
        &&& self.last_pos@ == pos_at(self.chars@, self.idx - 1)
    }

    pub fn new(chars: Vec<char>) -> (r: Self)
        requires
            chars@.len() < usize::MAX,
        ensures
            r.wf(),
            r.chars@ == chars@,
            r.idx == 0,
    {
        Self {
            chars,
            idx: 0,
            pos: Position { line: 1, column: 1 },
            last_pos: Position { line: 1, column: 1 },
        }
    }

    /// Returns the position of the lexer (line and column).
    pub fn get_position(&self) -> (r: Position)
        ensures
            r == self.pos,
    {
        self.pos
    }

    /// Returns the current character at the lexer index.
    pub fn get_current_char(&self) -> (r: Option<char>)
        ensures
            r == if self.idx < self.chars@.len() {
                Some(self.chars@[self.idx as int])
            } else {
                None::<char>
            },
    {
        if self.idx < self.chars.len() {
            Some(self.chars[self.idx])
        } else {
            None
        }
    }

    /// Returns the next character, without moving the lexer index.
    pub fn peek_next_char(&self) -> (r: Option<char>)
        requires
            self.wf(),
        ensures
            r == if self.idx + 1 < self.chars@.len() {
                Some(self.chars@[self.idx + 1])
            } else {
                None::<char>
            },
    {
        if self.idx + 1 < self.chars.len() {
            Some(self.chars[self.idx + 1])
        } else {
            None
        }
    }

    /// Consumes the character at `idx`: caches the current position, applies
    /// the newline/column rule for the consumed character, and steps the
    /// index forward.
    pub fn increment_idx(&mut self)
        requires
            old(self).wf(),
            old(self).idx < old(self).chars@.len(),
        ensures
            final(self).wf(),
            final(self).retreat_ok(),
            final(self).chars@ == old(self).chars@,
            final(self).idx == old(self).idx + 1,
            final(self).last_pos == old(self).pos,
    {
        proof {
            lemma_pos_at_bounds(self.chars@, self.idx as int);
        }
        self.last_pos = self.pos;
        if self.chars[self.idx] == '\n' {
            self.pos.line = self.pos.line + 1;
            self.pos.column = 1;
        } else {
            self.pos.column = self.pos.column + 1;
        }
        self.idx = self.idx + 1;
    }

    /// Collects and returns all characters until the given condition is met,
    /// leaving the index on the last character before the stop (one step of
    /// retreat, so the caller's final advance lands exactly on the stop).
    ///
    /// `p` is the mathematical meaning of `cond`; the result is the slice of
    /// the buffer from the current index up to [`first_where`] the condition
    /// holds.  When the condition holds immediately (or the cursor is at the
    /// end of the input) the retreat steps before the starting index, so in
    /// that case a fresh advance must have happened just before the call.
    pub fn collect_until<F: Fn(char) -> bool>(
        &mut self,
        cond: F,
        Ghost(p): Ghost<spec_fn(char) -> bool>,
    ) -> (r: String)
        requires
            old(self).wf(),
            forall|c: char| #[trigger] call_requires(cond, (c,)),
            forall|c: char, b: bool| call_ensures(cond, (c,), b) ==> b == p(c),
            (old(self).idx == old(self).chars@.len() || p(
                old(self).chars@[old(self).idx as int],
            )) ==> old(self).retreat_ok(),
        ensures
            final(self).wf(),
            final(self).chars@ == old(self).chars@,
            final(self).idx == first_where(old(self).chars@, old(self).idx as int, p) - 1,
            r@ == old(self).chars@.subrange(
                old(self).idx as int,
                first_where(old(self).chars@, old(self).idx as int, p),
            ),
    {
        let ghost s = self.chars@;
        let ghost i0 = self.idx as int;
        let mut r = String::new();
        proof {
            assert(r@ =~= s.subrange(i0, i0));
        }
        loop
            invariant
                self.wf(),
                self.chars@ == s,
                0 <= i0 <= self.idx <= s.len(),
                forall|j: int| i0 <= j < self.idx ==> !p(#[trigger] s[j]),
                r@ == s.subrange(i0, self.idx as int),
                self.idx > i0 ==> self.retreat_ok(),
                self.idx == i0 ==> *self == *old(self),
                forall|c: char| #[trigger] call_requires(cond, (c,)),
                forall|c: char, b: bool| call_ensures(cond, (c,), b) ==> b == p(c),
            ensures
                self.wf(),
                self.chars@ == s,
                0 <= i0 <= self.idx <= s.len(),
                forall|j: int| i0 <= j < self.idx ==> !p(#[trigger] s[j]),
                r@ == s.subrange(i0, self.idx as int),
                self.idx > i0 ==> self.retreat_ok(),
                self.idx == i0 ==> *self == *old(self),
                self.idx == s.len() || p(s[self.idx as int]),
            decreases s.len() - self.idx,
        {
            if self.idx >= self.chars.len() {
                break;
            }
            let c = self.chars[self.idx];
            if cond(c) {
                break;
            }
            push_char(&mut r, c);
            proof {
                lemma_subrange_push(s, i0, self.idx as int);
            }
            self.increment_idx();
        }
        proof {
            crate::scan::lemma_first_where_from_facts(s, i0, self.idx as int, p);
        }
        self.decrement_idx();
        r
    }

    /// Skips characters until the given condition is met and returns how
    /// many were skipped, with the same index effect (and the same retreat
    /// caveat) as [`Lexer::collect_until`].
    pub fn skip_until<F: Fn(char) -> bool>(
        &mut self,
        cond: F,
        Ghost(p): Ghost<spec_fn(char) -> bool>,
    ) -> (r: usize)
        requires
            old(self).wf(),
            forall|c: char| #[trigger] call_requires(cond, (c,)),
            forall|c: char, b: bool| call_ensures(cond, (c,), b) ==> b == p(c),
            (old(self).idx == old(self).chars@.len() || p(
                old(self).chars@[old(self).idx as int],
            )) ==> old(self).retreat_ok(),
        ensures
            final(self).wf(),
            final(self).chars@ == old(self).chars@,
            final(self).idx == first_where(old(self).chars@, old(self).idx as int, p) - 1,
            r == first_where(old(self).chars@, old(self).idx as int, p) - old(self).idx,
    {
        let ghost s = self.chars@;
        let ghost i0 = self.idx as int;
        let start = self.idx;
        loop
            invariant
                self.wf(),
                self.chars@ == s,
                start == i0,
                0 <= i0 <= self.idx <= s.len(),
                forall|j: int| i0 <= j < self.idx ==> !p(#[trigger] s[j]),
                self.idx > i0 ==> self.retreat_ok(),
                self.idx == i0 ==> *self == *old(self),
                forall|c: char| #[trigger] call_requires(cond, (c,)),
                forall|c: char, b: bool| call_ensures(cond, (c,), b) ==> b == p(c),
            ensures
                self.wf(),
                self.chars@ == s,
                start == i0,
                0 <= i0 <= self.idx <= s.len(),
                forall|j: int| i0 <= j < self.idx ==> !p(#[trigger] s[j]),
                self.idx > i0 ==> self.retreat_ok(),
                self.idx == i0 ==> *self == *old(self),
                self.idx == s.len() || p(s[self.idx as int]),
            decreases s.len() - self.idx,
        {
            if self.idx >= self.chars.len() {
                break;
            }
            let c = self.chars[self.idx];
            if cond(c) {
                break;
            }
            self.increment_idx();
        }
        proof {
            crate::scan::lemma_first_where_from_facts(s, i0, self.idx as int, p);
        }
        let count = self.idx - start;
        self.decrement_idx();
        count
    }

    /// Restores the position cached by the most recent advance and steps the
    /// index back by one.  Must be called at most once between two advances:
    /// the cache holds only one step of history.
    pub fn decrement_idx(&mut self)
        requires
            old(self).wf(),
            old(self).retreat_ok(),
        ensures
            final(self).wf(),
            final(self).chars@ == old(self).chars@,
            final(self).idx == old(self).idx - 1,
            final(self).last_pos == old(self).last_pos,
    {
        self.pos = self.last_pos;
        self.idx = self.idx - 1;
    }
}

} // verus!
