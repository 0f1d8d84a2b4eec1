use vstd::prelude::*;
use crate::color::{is_hex_digit, packed_color};
use crate::span::char_at;
use crate::token::{Delim, TokenView, one_char_punct, two_char_punct};

verus! {

/// A class of characters that the lexer consumes in maximal runs.
#[derive(Clone, Copy, Debug, PartialEq, Eq, Structural)]
pub enum CharClass {
    Space,
    Digit,
    Hex,
    Word,
    StringBody,
}

pub open spec fn is_digit(c: char) -> bool {
    '0' <= c && c <= '9'
}

pub open spec fn is_alpha(c: char) -> bool {
    ('a' <= c && c <= 'z') || ('A' <= c && c <= 'Z')
}

pub open spec fn is_space(c: char) -> bool {
    c == ' ' || c == '\t' || c == '\n' || c == '\x0C' || c == '\r'
}

pub open spec fn in_class(c: char, k: CharClass) -> bool {
    match k {
        CharClass::Space => is_space(c),
        CharClass::Digit => is_digit(c),
        CharClass::Hex => is_hex_digit(c),
        CharClass::Word => is_alpha(c) || is_digit(c) || c == '_',
        CharClass::StringBody => c != '"' && c != '\0',
    }
}

/// The end of the maximal run of class `k` that starts at `i`.
pub open spec fn run_end(s: Seq<char>, i: int, k: CharClass) -> int
    decreases s.len() - i,
{
    if 0 <= i < s.len() && in_class(s[i], k) {
        run_end(s, i + 1, k)
    } else {
        i
    }
}

/// Inside a block comment from `i`: where the first `*/` or NUL stands.
pub open spec fn block_stop(s: Seq<char>, i: int) -> int
    decreases s.len() - i,
{
    if !(0 <= i < s.len()) || s[i] == '\0' || (s[i] == '*' && char_at(s, i + 1) == '/') {
        i
    } else {
        block_stop(s, i + 1)
    }
}

/// Inside a line comment from `i`: the end of the comment, its line break
/// (`\n` or `\r\n`) included; the comment also ends at NUL.
pub open spec fn line_stop(s: Seq<char>, i: int) -> int
    decreases s.len() - i,
{
    if !(0 <= i < s.len()) || s[i] == '\0' {
        i
    } else if s[i] == '\n' {
        i + 1
    } else if s[i] == '\r' && char_at(s, i + 1) == '\n' {
        i + 2
    } else {
        line_stop(s, i + 1)
    }
}

/// Skipping whitespace and comments from `i`: where the next lexeme starts, and
/// `true`; or where an unterminated block comment met NUL, and `false`.
pub open spec fn trivia(s: Seq<char>, i: int) -> (int, bool)
    decreases s.len() - i,
{
    let j = run_end(s, i, CharClass::Space);
    if char_at(s, j) == '/' && char_at(s, j + 1) == '*' {
        let m = block_stop(s, j + 2);
        if char_at(s, m) != '*' {
            (m, false)
        } else if i < m + 2 <= s.len() {
            trivia(s, m + 2)
        } else {
            (m + 2, true)
        }
    } else if char_at(s, j) == '/' && char_at(s, j + 1) == '/' {
        let e = line_stop(s, j + 2);
        if i < e <= s.len() {
            trivia(s, e)
        } else {
            (e, true)
        }
    } else {
        (j, true)
    }
}

/// The value of a run of decimal digits.
pub open spec fn digits_value(d: Seq<char>) -> int
    decreases d.len(),
{
    if d.len() == 0 {
        0
    } else {
        digits_value(d.drop_last()) * 10 + (d.last() as int - '0' as int)
    }
}

pub open spec fn fits_i64(v: int) -> bool {
    i64::MIN <= v <= i64::MAX
}

/// The reason a lex pass stopped early.
#[derive(Clone, Copy, Debug, PartialEq, Eq, Structural)]
pub enum LexErrorKind {
    UnterminatedBlockComment,
    InvalidColorLiteral,
    MissingExponentDigits,
    IntegerOverflow,
    InvalidUnderscoreIdentifier,
    DoubleUnderscoreIdentifier,
    IdentifierHashCollision,
    UnmatchedCloseBracket,
    MismatchedCloseBracket { expected: char, found: char },
    UnexpectedCharacter(char),
}

/// What the lexeme starting at a given index becomes.
pub enum Outcome {
    /// A token whose lexeme ends at `end`, with the bracket stack and string pool after it.
    Emit { token: TokenView, end: int, stack: Seq<char>, pool: Seq<char> },
    /// A well-formed identifier ending at `end`, to be interned.
    Word { end: int },
    /// An error whose span ends at `end`.
    Fail { kind: LexErrorKind, end: int },
}

pub open spec fn closer(d: Delim) -> char {
    match d {
        Delim::Paren => ')',
        Delim::Bracket => ']',
        Delim::Brace => '}',
    }
}

pub open spec fn open_delim(c: char) -> Option<Delim> {
    if c == '(' {
        Some(Delim::Paren)
    } else if c == '[' {
        Some(Delim::Bracket)
    } else if c == '{' {
        Some(Delim::Brace)
    } else {
        None
    }
}

pub open spec fn close_delim(c: char) -> Option<Delim> {
    if c == ')' {
        Some(Delim::Paren)
    } else if c == ']' {
        Some(Delim::Bracket)
    } else if c == '}' {
        Some(Delim::Brace)
    } else {
        None
    }
}

pub open spec fn emit(token: TokenView, end: int, stack: Seq<char>, pool: Seq<char>) -> Outcome {
    Outcome::Emit { token, end, stack, pool }
}

/// Where the integer digits of a number at `j` start: after its `-`, if any.
pub open spec fn int_start(s: Seq<char>, j: int) -> int {
    if char_at(s, j) == '-' {
        j + 1
    } else {
        j
    }
}

pub open spec fn int_end(s: Seq<char>, j: int) -> int {
    run_end(s, int_start(s, j), CharClass::Digit)
}

pub open spec fn has_frac(s: Seq<char>, j: int) -> bool {
    char_at(s, int_end(s, j)) == '.'
}

pub open spec fn frac_end(s: Seq<char>, j: int) -> int {
    if has_frac(s, j) {
        run_end(s, int_end(s, j) + 1, CharClass::Digit)
    } else {
        int_end(s, j)
    }
}

pub open spec fn has_exp(s: Seq<char>, j: int) -> bool {
    char_at(s, frac_end(s, j)) == 'e' || char_at(s, frac_end(s, j)) == 'E'
}

/// Where the exponent's digits must start: after the marker and its sign.
pub open spec fn exp_digits(s: Seq<char>, j: int) -> int {
    let k = frac_end(s, j) + 1;
    if char_at(s, k) == '+' || char_at(s, k) == '-' {
        k + 1
    } else {
        k
    }
}

/// A number: `-? DIGIT* ('.' DIGIT*)? (('e'|'E') ('+'|'-')? DIGIT+)?`, a float
/// where it has a fraction or an exponent, else an integer that must fit 64 bits.
pub open spec fn scan_number(s: Seq<char>, j: int, stack: Seq<char>, pool: Seq<char>) -> Outcome {
    if has_exp(s, j) && !is_digit(char_at(s, exp_digits(s, j))) {
        Outcome::Fail { kind: LexErrorKind::MissingExponentDigits, end: exp_digits(s, j) }
    } else if has_exp(s, j) {
        let end = run_end(s, exp_digits(s, j), CharClass::Digit);
        emit(TokenView::Float(s.subrange(j, end)), end, stack, pool)
    } else if has_frac(s, j) {
        let end = frac_end(s, j);
        emit(TokenView::Float(s.subrange(j, end)), end, stack, pool)
    } else {
        let magnitude = digits_value(s.subrange(int_start(s, j), int_end(s, j)));
        let v = if char_at(s, j) == '-' {
            -magnitude
        } else {
            magnitude
        };
        if fits_i64(v) {
            emit(TokenView::Integer(v), int_end(s, j), stack, pool)
        } else {
            Outcome::Fail { kind: LexErrorKind::IntegerOverflow, end: int_end(s, j) }
        }
    }
}

pub open spec fn has_double_underscore(t: Seq<char>) -> bool {
    exists|k: int| 0 <= k < t.len() - 1 && t[k] == '_' && #[trigger] t[k + 1] == '_'
}

/// A word: no `_` at either end and no `__`; `true` and `false` are booleans.
pub open spec fn scan_word(s: Seq<char>, j: int, stack: Seq<char>, pool: Seq<char>) -> Outcome {
    let end = run_end(s, j + 1, CharClass::Word);
    let t = s.subrange(j, end);
    if t[0] == '_' || t.last() == '_' {
        Outcome::Fail { kind: LexErrorKind::InvalidUnderscoreIdentifier, end }
    } else if has_double_underscore(t) {
        Outcome::Fail { kind: LexErrorKind::DoubleUnderscoreIdentifier, end }
    } else if t == seq!['t', 'r', 'u', 'e'] {
        emit(TokenView::Boolean(true), end, stack, pool)
    } else if t == seq!['f', 'a', 'l', 's', 'e'] {
        emit(TokenView::Boolean(false), end, stack, pool)
    } else {
        Outcome::Word { end }
    }
}

/// Where the digits of a color at `j` start: after `#` and an optional `x`.
pub open spec fn color_start(s: Seq<char>, j: int) -> int {
    if char_at(s, j + 1) == 'x' {
        j + 2
    } else {
        j + 1
    }
}

/// The lexeme that starts at `j`, the longest match first.
pub open spec fn scan_token(s: Seq<char>, j: int, stack: Seq<char>, pool: Seq<char>) -> Outcome {
    let c0 = char_at(s, j);
    let c1 = char_at(s, j + 1);
    if c0 == '"' {
        let k = run_end(s, j + 1, CharClass::StringBody);
        let end = if char_at(s, k) == '"' {
            k + 1
        } else {
            k
        };
        emit(
            TokenView::StringLiteral { index: pool.len() as int, len: k - (j + 1) },
            end,
            stack,
            pool + s.subrange(j + 1, k),
        )
    } else if c0 == '\0' {
        emit(TokenView::EndOfInput, j, stack, pool)
    } else if c0 == '#' {
        let k = color_start(s, j);
        let h = run_end(s, k, CharClass::Hex);
        match packed_color(s.subrange(k, h)) {
            Some(c) => emit(TokenView::Color(c), h, stack, pool),
            None => Outcome::Fail { kind: LexErrorKind::InvalidColorLiteral, end: h },
        }
    } else if c0 == '-' && c1 == '.' {
        let end = run_end(s, j + 2, CharClass::Digit);
        emit(TokenView::Float(seq!['-', '0'] + s.subrange(j + 1, end)), end, stack, pool)
    } else if two_char_punct(c0, c1) is Some {
        emit(TokenView::Punctuation(two_char_punct(c0, c1)->0), j + 2, stack, pool)
    } else if is_digit(c0) || ((c0 == '-' || c0 == '.') && is_digit(c1)) {
        scan_number(s, j, stack, pool)
    } else if one_char_punct(c0) is Some {
        emit(TokenView::Punctuation(one_char_punct(c0)->0), j + 1, stack, pool)
    } else if is_alpha(c0) || c0 == '_' {
        scan_word(s, j, stack, pool)
    } else if open_delim(c0) is Some {
        let d = open_delim(c0)->0;
        emit(TokenView::Open(d), j + 1, stack.push(closer(d)), pool)
    } else if close_delim(c0) is Some {
        let d = close_delim(c0)->0;
        if stack.len() == 0 {
            Outcome::Fail { kind: LexErrorKind::UnmatchedCloseBracket, end: j }
        } else if stack.last() != closer(d) {
            Outcome::Fail {
                kind: LexErrorKind::MismatchedCloseBracket { expected: stack.last(), found: c0 },
                end: j,
            }
        } else {
            emit(TokenView::Close(d), j + 1, stack.drop_last(), pool)
        }
    } else {
        Outcome::Fail { kind: LexErrorKind::UnexpectedCharacter(c0), end: j }
    }
}

pub proof fn lemma_run_end(s: Seq<char>, i: int, k: CharClass)
    requires
        0 <= i <= s.len(),
    ensures
        i <= run_end(s, i, k) <= s.len(),
        forall|p: int| i <= p < run_end(s, i, k) ==> in_class(#[trigger] s[p], k),
        !in_class(char_at(s, run_end(s, i, k)), k) || run_end(s, i, k) == s.len(),
    decreases s.len() - i,
{
    if i < s.len() && in_class(s[i], k) {
        lemma_run_end(s, i + 1, k);
    }
}

pub proof fn lemma_block_stop(s: Seq<char>, i: int)
    requires
        0 <= i <= s.len(),
    ensures
        i <= block_stop(s, i) <= s.len(),
        char_at(s, block_stop(s, i)) == '*' ==> block_stop(s, i) + 2 <= s.len(),
    decreases s.len() - i,
{
    if i < s.len() && s[i] != '\0' && !(s[i] == '*' && char_at(s, i + 1) == '/') {
        lemma_block_stop(s, i + 1);
    }
}

pub proof fn lemma_line_stop(s: Seq<char>, i: int)
    requires
        0 <= i <= s.len(),
    ensures
        i <= line_stop(s, i) <= s.len(),
    decreases s.len() - i,
{
    if i < s.len() && s[i] != '\0' && s[i] != '\n' && !(s[i] == '\r' && char_at(s, i + 1) == '\n') {
        lemma_line_stop(s, i + 1);
    }
}

pub proof fn lemma_trivia(s: Seq<char>, i: int)
    requires
        0 <= i <= s.len(),
    ensures
        i <= trivia(s, i).0 <= s.len(),
    decreases s.len() - i,
{
    let j = run_end(s, i, CharClass::Space);
    lemma_run_end(s, i, CharClass::Space);
    if char_at(s, j) == '/' && char_at(s, j + 1) == '*' {
        lemma_block_stop(s, j + 2);
        let m = block_stop(s, j + 2);
        if char_at(s, m) == '*' {
            lemma_trivia(s, m + 2);
        }
    } else if char_at(s, j) == '/' && char_at(s, j + 1) == '/' {
        lemma_line_stop(s, j + 2);
        lemma_trivia(s, line_stop(s, j + 2));
    }
}

} // verus!
