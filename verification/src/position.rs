//! Source positions: the line and column of each offset of a text.

use vstd::prelude::*;

verus! {

/// A place in a source text. Lines and columns count from 1.
#[derive(Clone, Copy, Debug, PartialEq, Eq, Structural)]
pub struct Position {
    pub line: usize,
    pub column: usize,
}

/// A place in a source text, as unbounded integers.
pub struct Place {
    pub line: int,
    pub column: int,
}

impl View for Position {
    type V = Place;

    open spec fn view(&self) -> Place {
        Place { line: self.line as int, column: self.column as int }
    }
}

impl Place {
    /// The first place of every text.
    pub open spec fn origin() -> Place {
        Place { line: 1, column: 1 }
    }

    /// The place reached from `self` by reading `c`: a line feed begins the
    /// next line, every other character moves one column on.
    pub open spec fn after(self, c: char) -> Place {
        if c == '\n' {
            Place { line: self.line + 1, column: 1 }
        } else {
            Place { line: self.line, column: self.column + 1 }
        }
    }

    /// `self` is `other`, or comes before it in reading order.
    pub open spec fn not_after(self, other: Place) -> bool {
        self.line < other.line || (self.line == other.line && self.column <= other.column)
    }
}

/// The place of offset `n` in `s`: where the character `s[n]` is, or, for
/// `n == s.len()`, where the next character would stand.
pub open spec fn position_at(s: Seq<char>, n: int) -> Place
    decreases n,
{
    if n <= 0 {
        Place::origin()
    } else {
        position_at(s, n - 1).after(s[n - 1])
    }
}

/// Reading one character moves the place by that character alone: a line feed,
/// and nothing else, begins a new line, and every other character moves one
/// column on.
pub proof fn lemma_position_step(s: Seq<char>, n: int)
    requires
        0 <= n,
    ensures
        position_at(s, n + 1) == position_at(s, n).after(s[n]),
        s[n] == '\n' ==> position_at(s, n + 1) == (Place {
            line: position_at(s, n).line + 1,
            column: 1,
        }),
        s[n] != '\n' ==> position_at(s, n + 1) == (Place {
            line: position_at(s, n).line,
            column: position_at(s, n).column + 1,
        }),
{
}

/// Lines and columns are positive, and reading `n` characters moves at most
/// `n` steps away from the origin.
pub proof fn lemma_position_bounds(s: Seq<char>, n: int)
    requires
        0 <= n,
    ensures
        1 <= position_at(s, n).line,
        1 <= position_at(s, n).column,
        position_at(s, n).line + position_at(s, n).column <= n + 2,
    decreases n,
{
    if n > 0 {
        lemma_position_bounds(s, n - 1);
    }
}

/// Positions never go back: a later offset is at the same place or after it.
pub proof fn lemma_position_monotonic(s: Seq<char>, i: int, j: int)
    requires
        0 <= i <= j,
    ensures
        position_at(s, i).not_after(position_at(s, j)),
    decreases j - i,
{
    if i < j {
        lemma_position_monotonic(s, i, j - 1);
    }
}

/// Over a stretch of text without a line feed the line stays and the column
/// grows by one for each character.
pub proof fn lemma_position_within_line(s: Seq<char>, i: int, j: int)
    requires
        0 <= i <= j,
        forall|k: int| i <= k < j ==> s[k] != '\n',
    ensures
        position_at(s, j) == (Place {
            line: position_at(s, i).line,
            column: position_at(s, i).column + (j - i),
        }),
    decreases j - i,
{
    if i < j {
        lemma_position_within_line(s, i, j - 1);
    }
}

} // verus!
