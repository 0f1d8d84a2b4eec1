use vstd::prelude::*;

verus! {

/// An opaque handle naming the file a span belongs to.
#[derive(Clone, Copy, Debug, PartialEq, Eq, Structural, Hash, Default)]
pub struct FileId(pub u16);

/// A zero-based line and column.
#[derive(Clone, Copy, Debug, PartialEq, Eq, Structural, Hash, Default)]
pub struct TextPos {
    pub line: usize,
    pub column: usize,
}

/// A range of source text: `end` is the position just after the lexeme.
#[derive(Clone, Copy, Debug, PartialEq, Eq, Structural, Hash)]
pub struct Span {
    pub file_id: FileId,
    pub start: TextPos,
    pub end: TextPos,
}

/// The character at `i`, or NUL past the end of the input.
pub open spec fn char_at(s: Seq<char>, i: int) -> char {
    if 0 <= i < s.len() {
        s[i]
    } else {
        '\0'
    }
}

/// The position after one more character `c`.
pub open spec fn step_pos(p: (int, int), c: char) -> (int, int) {
    if c == '\n' {
        (p.0 + 1, 0)
    } else {
        (p.0, p.1 + 1)
    }
}

/// The (line, column) reached from `start` after the first `n` characters of `s`.
pub open spec fn pos_after(start: TextPos, s: Seq<char>, n: int) -> (int, int)
    decreases n,
{
    if n <= 0 {
        (start.line as int, start.column as int)
    } else {
        step_pos(pos_after(start, s, n - 1), char_at(s, n - 1))
    }
}

pub open spec fn pos_of(p: (int, int)) -> TextPos {
    TextPos { line: p.0 as usize, column: p.1 as usize }
}

pub open spec fn span_of(file_id: FileId, start: TextPos, s: Seq<char>, a: int, b: int) -> Span {
    Span { file_id, start: pos_of(pos_after(start, s, a)), end: pos_of(pos_after(start, s, b)) }
}

pub proof fn lemma_pos_bounds(start: TextPos, s: Seq<char>, n: int)
    requires
        n >= 0,
    ensures
        start.line <= pos_after(start, s, n).0 <= start.line + n,
        0 <= pos_after(start, s, n).1 <= start.column + n,
    decreases n,
{
    if n > 0 {
        lemma_pos_bounds(start, s, n - 1);
    }
}

} // verus!
