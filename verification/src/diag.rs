//! Diagnostic positioning: translating a character offset into a 1-based
//! line and column against the exact source text, and building the pieces
//! of a caret diagnostic.
//!
//! The caller-facing display (file name, message layout) is left to the
//! embedding program; this module computes the located facts.

use vstd::prelude::*;
use vstd::string::StrSliceExecFns;
use vstd::string::StringExecFns;

verus! {

/// The number of newlines strictly before `i`.
pub open spec fn count_newlines(s: Seq<char>, i: int) -> int
    decreases i,
{
    if i <= 0 || i > s.len() {
        0
    } else {
        count_newlines(s, i - 1) + if s[i - 1] == '\n' {
            1int
        } else {
            0int
        }
    }
}

/// The 1-based line an offset lies on.
pub open spec fn line_of(s: Seq<char>, i: int) -> int {
    1 + count_newlines(s, i)
}

/// Where the line holding the offset begins: the position just past the
/// last newline strictly before `i`.
pub open spec fn line_start(s: Seq<char>, i: int) -> int
    decreases i,
{
    if i <= 0 || i > s.len() {
        0
    } else if s[i - 1] == '\n' {
        i
    } else {
        line_start(s, i - 1)
    }
}

/// The 1-based column an offset lies at.
pub open spec fn col_of(s: Seq<char>, i: int) -> int {
    i - line_start(s, i) + 1
}

/// Where the line holding the offset ends: the position of the next
/// newline at or after `i`, or the end of the source.
pub open spec fn line_end(s: Seq<char>, i: int) -> int
    decreases s.len() - i,
{
    if 0 <= i < s.len() && s[i] != '\n' {
        line_end(s, i + 1)
    } else {
        i
    }
}

/// A sequence of `k` spaces.
pub open spec fn spaces(k: int) -> Seq<char> {
    Seq::new(k as nat, |j: int| ' ')
}

/// Translates a character offset into its 1-based line and column
/// against the source text.
pub fn line_col(source: &str, offset: usize) -> (r: (usize, usize))
    requires
        offset <= source@.len(),
        source@.len() < usize::MAX,
    ensures
        r.0 == line_of(source@, offset as int),
        r.1 == col_of(source@, offset as int),
{
    let mut line: usize = 1;
    let mut start: usize = 0;
    let mut i: usize = 0;
    while i < offset
        invariant
            i <= offset <= source@.len() < usize::MAX,
            start <= i,
            line == line_of(source@, i as int),
            line <= i + 1,
            start == line_start(source@, i as int),
        decreases offset - i,
    {
        if source.get_char(i) == '\n' {
            line += 1;
            start = i + 1;
        }
        i += 1;
    }
    (line, offset - start + 1)
}

/// The text of the line holding the offset, without its newline.
pub fn line_text(source: &str, offset: usize) -> (r: String)
    requires
        offset <= source@.len(),
        source@.len() < usize::MAX,
    ensures
        r@ == source@.subrange(
            line_start(source@, offset as int),
            line_end(source@, offset as int),
        ),
{
    let n = source.unicode_len();
    let mut start: usize = 0;
    let mut i: usize = 0;
    while i < offset
        invariant
            i <= offset <= n,
            n == source@.len(),
            start <= i,
            start == line_start(source@, i as int),
        decreases offset - i,
    {
        if source.get_char(i) == '\n' {
            start = i + 1;
        }
        i += 1;
    }
    let mut end: usize = offset;
    while end < n && source.get_char(end) != '\n'
        invariant
            offset <= end <= n,
            n == source@.len(),
            line_end(source@, offset as int) == line_end(source@, end as int),
        decreases n - end,
    {
        end += 1;
    }
    source.substring_char(start, end).to_owned()
}

/// A caret marker line: `col - 1` spaces, then `^` under the offending
/// column.
pub fn caret_line(col: usize) -> (r: String)
    requires
        1 <= col,
    ensures
        r@ == spaces(col - 1).push('^'),
{
    let mut r = String::new();
    let mut i: usize = 0;
    while i < col - 1
        invariant
            i <= col - 1,
            r@ =~= spaces(i as int),
        decreases col - 1 - i,
    {
        r.append(" ");
        proof {
            reveal_strlit(" ");
            assert(r@ =~= spaces(i + 1));
        }
        i += 1;
    }
    r.append("^");
    proof {
        reveal_strlit("^");
        assert(r@ =~= spaces((col - 1) as int).push('^'));
    }
    r
}

} // verus!
