//! Places in the source text: byte ranges, lines and columns.
use vstd::prelude::*;
use crate::text::{
    byte_len, byte_offset, char_indices, chars_of, lemma_offset_end, lemma_offset_ge_index,
    lemma_offset_mono, substring,
};

verus! {

/// A byte range in the source text.
#[derive(Debug, Clone, Copy, PartialEq, Eq, Structural)]
pub struct Span {
    pub start: usize,
    pub end: usize,
}

impl Default for Span {
    fn default() -> (s: Span)
        ensures
            s == (Span { start: 0, end: 0 }),
    {
        Span { start: 0, end: 0 }
    }
}

impl Span {
    pub fn new(start: usize, end: usize) -> (s: Span)
        ensures
            s.start == start,
            s.end == end,
    {
        Span { start, end }
    }

    /// The smallest span that covers both.
    pub open spec fn cover(self, other: Span) -> Span {
        Span {
            start: if self.start <= other.start { self.start } else { other.start },
            end: if self.end >= other.end { self.end } else { other.end },
        }
    }

    /// The smallest span that covers both.
    pub fn to(self, other: Span) -> (s: Span)
        ensures
            s == self.cover(other),
    {
        let start = if self.start <= other.start { self.start } else { other.start };
        let end = if self.end >= other.end { self.end } else { other.end };
        Span::new(start, end)
    }
}

/// `a.to(b)` covers both spans, and every span that covers both covers it too.
pub proof fn lemma_to_is_smallest_cover(a: Span, b: Span, c: Span)
    ensures
        a.cover(b).start <= a.start && a.cover(b).start <= b.start,
        a.cover(b).end >= a.end && a.cover(b).end >= b.end,
        c.start <= a.start && c.start <= b.start && c.end >= a.end && c.end >= b.end ==> c.start
            <= a.cover(b).start && c.end >= a.cover(b).end,
{
}

/// Line and column after reading the characters of `s` that start before byte `offset`:
/// a line break starts a new line at column 1, any other character moves one column on.
pub open spec fn spec_line_col(s: Seq<char>, offset: int) -> (int, int)
    decreases s.len(),
{
    if s.len() == 0 {
        (1, 1)
    } else {
        let (line, col) = spec_line_col(s.drop_last(), offset);
        if byte_offset(s, s.len() - 1) >= offset {
            (line, col)
        } else if s.last() == '\n' {
            (line + 1, 1)
        } else {
            (line, col + 1)
        }
    }
}

proof fn lemma_line_col_bounds(s: Seq<char>, offset: int)
    ensures
        1 <= spec_line_col(s, offset).0 <= s.len() + 1,
        1 <= spec_line_col(s, offset).1 <= s.len() + 1,
    decreases s.len(),
{
    if s.len() > 0 {
        lemma_line_col_bounds(s.drop_last(), offset);
    }
}

proof fn lemma_prefix_offset(s: Seq<char>, k: int, i: int)
    requires
        0 <= i < k <= s.len(),
    ensures
        byte_offset(s.take(k), i) == byte_offset(s, i),
{
    assert(s.take(k).take(i) =~= s.take(i));
}

/// Characters at or after a character that starts at or past `offset` change nothing.
proof fn lemma_line_col_skip(s: Seq<char>, offset: int, i: int, j: int)
    requires
        0 <= i <= j <= s.len(),
        i < s.len(),
        byte_offset(s, i) >= offset,
    ensures
        spec_line_col(s.take(j), offset) == spec_line_col(s.take(i), offset),
    decreases j - i,
{
    if i < j {
        lemma_line_col_skip(s, offset, i, j - 1);
        let t = s.take(j);
        assert(t.drop_last() =~= s.take(j - 1));
        lemma_prefix_offset(s, j, j - 1);
        lemma_offset_mono(s, i, j - 1);
    }
}

/// 1-based line and column (counted in characters) of a byte offset.
pub fn line_col(src: &str, offset: usize) -> (r: (usize, usize))
    requires
        byte_len(src@) < usize::MAX,
    ensures
        r.0 == spec_line_col(src@, offset as int).0,
        r.1 == spec_line_col(src@, offset as int).1,
{
    let idx = char_indices(src);
    proof {
        lemma_offset_ge_index(src@, src@.len() as int);
        lemma_offset_end(src@);
    }
    let mut line: usize = 1;
    let mut col: usize = 1;
    let mut i: usize = 0;
    proof {
        assert(src@.take(0) =~= Seq::<char>::empty());
    }
    while i < idx.len()
        invariant
            idx@.len() == src@.len(),
            forall|j: int|
                0 <= j < idx@.len() ==> #[trigger] idx@[j].1 == src@[j] && idx@[j].0
                    == byte_offset(src@, j),
            i <= idx.len(),
            line == spec_line_col(src@.take(i as int), offset as int).0,
            col == spec_line_col(src@.take(i as int), offset as int).1,
            line <= i + 1,
            col <= i + 1,
            idx@.len() < usize::MAX,
        decreases idx.len() - i,
    {
        let (at, ch) = idx[i];
        proof {
            let t = src@.take(i + 1);
            assert(t.drop_last() =~= src@.take(i as int));
            lemma_prefix_offset(src@, i + 1, i as int);
        }
        if at >= offset {
            proof {
                lemma_line_col_skip(src@, offset as int, i as int, src@.len() as int);
                assert(src@.take(src@.len() as int) =~= src@);
            }
            return (line, col);
        }
        if ch == '\n' {
            line += 1;
            col = 1;
        } else {
            col += 1;
        }
        i += 1;
    }
    proof {
        assert(src@.take(src@.len() as int) =~= src@);
    }
    (line, col)
}

/// Number of characters from `from` up to the next line break (or the end).
pub open spec fn run_len(s: Seq<char>, from: int) -> nat
    decreases s.len() - from,
{
    if from < 0 || from >= s.len() || s[from] == '\n' {
        0
    } else {
        1 + run_len(s, from + 1)
    }
}

/// A line without its `\n`, and without a `\r` that stood right before that `\n`.
pub open spec fn trim_break(line: Seq<char>, had_break: bool) -> Seq<char> {
    if had_break && line.len() > 0 && line.last() == '\r' {
        line.drop_last()
    } else {
        line
    }
}

/// The lines of `s` the way `str::lines` splits them, starting at character `from`:
/// `(first, past)` character indices of line `n`, or `None` when there are fewer lines.
pub open spec fn spec_line_range(s: Seq<char>, from: int, n: nat) -> Option<(int, int)>
    decreases s.len() - from,
{
    if from < 0 || from >= s.len() {
        None
    } else {
        let stop = from + run_len(s, from);
        if n == 0 {
            let line = trim_break(s.subrange(from, stop), stop < s.len());
            Some((from, from + line.len()))
        } else if stop >= s.len() {
            None
        } else {
            spec_line_range(s, stop + 1, (n - 1) as nat)
        }
    }
}

pub proof fn lemma_run_len(s: Seq<char>, from: int)
    requires
        0 <= from <= s.len(),
    ensures
        from + run_len(s, from) <= s.len(),
        forall|k: int| from <= k < from + run_len(s, from) ==> s[k] != '\n',
        from + run_len(s, from) < s.len() ==> s[from + run_len(s, from)] == '\n',
    decreases s.len() - from,
{
    if from < s.len() && s[from] != '\n' {
        lemma_run_len(s, from + 1);
    }
}

/// The text of the 1-based `line`, without the line break; empty past the last line.
pub fn line_text(src: &str, line: usize) -> (r: &str)
    ensures
        r@ == (match spec_line_range(src@, 0, if line == 0 { 0nat } else { (line - 1) as nat }) {
            Some((a, b)) => src@.subrange(a, b),
            None => Seq::<char>::empty(),
        }),
{
    let chars = chars_of(src);
    let n = chars.len();
    let mut want: usize = if line == 0 { 0 } else { line - 1 };
    let mut from: usize = 0;
    let ghost target: nat = want as nat;
    while from < n
        invariant
            chars@ == src@,
            n == chars@.len(),
            from <= n,
            spec_line_range(src@, 0, target) == spec_line_range(src@, from as int, want as nat),
            target == (if line == 0 { 0nat } else { (line - 1) as nat }),
        decreases n - from,
    {
        let mut stop = from;
        while stop < n && chars[stop] != '\n'
            invariant
                chars@ == src@,
                n == chars@.len(),
                from <= stop <= n,
                from + run_len(src@, from as int) == stop + run_len(src@, stop as int),
            decreases n - stop,
        {
            stop += 1;
        }
        proof {
            lemma_run_len(src@, from as int);
            assert(run_len(src@, stop as int) == 0);
            assert(stop == from + run_len(src@, from as int));
        }
        if want == 0 {
            let mut end = stop;
            if stop < n && end > from && chars[end - 1] == '\r' {
                end -= 1;
            }
            proof {
                let sub = src@.subrange(from as int, stop as int);
                if stop < n && stop > from && chars@[stop - 1] == '\r' {
                    assert(sub.last() == '\r');
                    assert(sub.drop_last() =~= src@.subrange(from as int, end as int));
                } else {
                    assert(sub =~= src@.subrange(from as int, end as int));
                }
                assert(spec_line_range(src@, from as int, 0) == Some((from as int, end as int)));
            }
            return substring(src, from, end);
        }
        if stop >= n {
            proof {
                assert(spec_line_range(src@, from as int, want as nat) is None);
                assert(src@.subrange(0, 0) =~= Seq::<char>::empty());
            }
            return substring(src, 0, 0);
        }
        want -= 1;
        from = stop + 1;
    }
    proof {
        assert(src@.subrange(0, 0) =~= Seq::<char>::empty());
        assert(spec_line_range(src@, 0, target) is None);
    }
    substring(src, 0, 0)
}

} // verus!
