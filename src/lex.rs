use vstd::prelude::*;
use crate::color::hex_digits_to_u32;
use crate::grammar::{
    CharClass, LexErrorKind, Outcome, block_stop, color_start, digits_value, emit, exp_digits,
    fits_i64, frac_end, in_class, int_end, int_start, is_alpha, is_digit, lemma_block_stop,
    lemma_line_stop, lemma_run_end, lemma_trivia, line_stop, run_end, scan_number, scan_token,
    scan_word, trivia,
};
use crate::ident::{intern_identifier, live_id_hash};
use crate::span::{FileId, Span, TextPos, char_at, lemma_pos_bounds, pos_after, span_of};
use crate::token::{
    Delim, Token, TokenView, TokenWithSpan, match_one_char_punct, match_two_char_punct,
    one_char_punct,
};

verus! {

/// A failed lex pass: what went wrong, where, and the text under the span.
/// `other` is the text that already owns an identifier's hash, for a collision;
/// it is empty otherwise.
#[derive(Clone, Debug, PartialEq, Eq)]
pub struct LexError {
    pub kind: LexErrorKind,
    pub span: Span,
    pub text: Vec<char>,
    pub other: Vec<char>,
}

/// The state of one lex pass over a character sequence.
pub struct Lex {
    chars: Vec<char>,
    file_id: FileId,
    strings: Vec<char>,
    group_stack: Vec<char>,
    index: usize,
    pos: TextPos,
    start: Ghost<TextPos>,
    is_done: bool,
}

/// Whether a lex pass from `start` over `s` keeps its positions within `usize`.
pub open spec fn fits_positions(s: Seq<char>, start: TextPos) -> bool {
    start.line + s.len() <= usize::MAX && start.column + s.len() <= usize::MAX
}

impl Lex {
    pub closed spec fn chars(&self) -> Seq<char> {
        self.chars@
    }

    pub closed spec fn file_id(&self) -> FileId {
        self.file_id
    }

    pub closed spec fn start(&self) -> TextPos {
        self.start@
    }

    pub closed spec fn index(&self) -> int {
        self.index as int
    }

    pub closed spec fn stack(&self) -> Seq<char> {
        self.group_stack@
    }

    pub closed spec fn pool(&self) -> Seq<char> {
        self.strings@
    }

    pub closed spec fn done(&self) -> bool {
        self.is_done
    }

    pub closed spec fn wf(&self) -> bool {
        &&& self.index <= self.chars@.len()
        &&& fits_positions(self.chars@, self.start@)
        &&& pos_after(self.start@, self.chars@, self.index as int) == (
            self.pos.line as int,
            self.pos.column as int,
        )
    }

    /// Starts a pass over `chars` whose first character stands at `start_pos`.
    pub fn new(chars: Vec<char>, start_pos: TextPos, file_id: FileId) -> (r: Lex)
        requires
            fits_positions(chars@, start_pos),
        ensures
            r.wf(),
            r.chars() == chars@,
            r.start() == start_pos,
            r.file_id() == file_id,
            r.index() == 0,
            r.stack() == Seq::<char>::empty(),
            r.pool() == Seq::<char>::empty(),
            !r.done(),
    {
        Lex {
            chars,
            file_id,
            strings: Vec::new(),
            group_stack: Vec::new(),
            index: 0,
            pos: start_pos,
            start: Ghost(start_pos),
            is_done: false,
        }
    }

    fn peek0(&self) -> (c: char)
        requires
            self.wf(),
        ensures
            c == char_at(self.chars@, self.index as int),
    {
        if self.index < self.chars.len() {
            self.chars[self.index]
        } else {
            '\0'
        }
    }

    fn peek1(&self) -> (c: char)
        requires
            self.wf(),
        ensures
            c == char_at(self.chars@, self.index + 1),
    {
        if self.index < self.chars.len() && self.chars.len() - self.index > 1 {
            self.chars[self.index + 1]
        } else {
            '\0'
        }
    }

    /// Consumes the current character.
    fn skip_char(&mut self)
        requires
            old(self).wf(),
            old(self).index < old(self).chars@.len(),
        ensures
            final(self).wf(),
            final(self).index == old(self).index + 1,
            final(self).chars@ == old(self).chars@,
            final(self).file_id == old(self).file_id,
            final(self).start == old(self).start,
            final(self).strings@ == old(self).strings@,
            final(self).group_stack@ == old(self).group_stack@,
            final(self).is_done == old(self).is_done,
    {
        proof {
            lemma_pos_bounds(self.start@, self.chars@, self.index as int);
        }
        if self.chars[self.index] == '\n' {
            self.pos.line = self.pos.line + 1;
            self.pos.column = 0;
        } else {
            self.pos.column = self.pos.column + 1;
        }
        self.index = self.index + 1;
    }

    /// Consumes two characters at once, for operators and comment delimiters.
    /// Neither may be a line break: the column moves by two and the line stays,
    /// so the `\r\n` that ends a line comment is consumed one character at a time.
    fn skip_two_chars(&mut self)
        requires
            old(self).wf(),
            old(self).index + 1 < old(self).chars@.len(),
            old(self).chars@[old(self).index as int] != '\n',
            old(self).chars@[old(self).index + 1] != '\n',
        ensures
            final(self).wf(),
            final(self).index == old(self).index + 2,
            final(self).chars@ == old(self).chars@,
            final(self).file_id == old(self).file_id,
            final(self).start == old(self).start,
            final(self).strings@ == old(self).strings@,
            final(self).group_stack@ == old(self).group_stack@,
            final(self).is_done == old(self).is_done,
    {
        proof {
            lemma_pos_bounds(self.start@, self.chars@, self.index as int);
            assert(pos_after(self.start@, self.chars@, self.index + 1) == (
                self.pos.line as int,
                self.pos.column + 1,
            ));
        }
        self.pos.column = self.pos.column + 2;
        self.index = self.index + 2;
    }

    /// Consumes the maximal run of class `k`, appending it to `buf`.
    fn read_run(&mut self, k: CharClass, buf: &mut Vec<char>)
        requires
            old(self).wf(),
        ensures
            final(self).wf(),
            final(self).index == run_end(old(self).chars@, old(self).index as int, k),
            final(buf)@ == old(buf)@ + old(self).chars@.subrange(
                old(self).index as int,
                final(self).index as int,
            ),
            final(self).chars@ == old(self).chars@,
            final(self).file_id == old(self).file_id,
            final(self).start == old(self).start,
            final(self).strings@ == old(self).strings@,
            final(self).group_stack@ == old(self).group_stack@,
            final(self).is_done == old(self).is_done,
    {
        let ghost s = self.chars@;
        let ghost i0 = self.index as int;
        let ghost b0 = buf@;
        while self.index < self.chars.len() && class_holds(self.chars[self.index], k)
            invariant
                self.wf(),
                self.chars@ == s,
                s == old(self).chars@,
                i0 == old(self).index,
                b0 == old(buf)@,
                i0 <= self.index,
                run_end(s, self.index as int, k) == run_end(s, i0, k),
                buf@ == b0 + s.subrange(i0, self.index as int),
                self.file_id == old(self).file_id,
                self.start == old(self).start,
                self.strings@ == old(self).strings@,
                self.group_stack@ == old(self).group_stack@,
                self.is_done == old(self).is_done,
            decreases s.len() - self.index,
        {
            let c = self.chars[self.index];
            buf.push(c);
            self.skip_char();
            proof {
                assert(c == s[self.index - 1]);
                assert(s.subrange(i0, self.index as int) =~= s.subrange(i0, self.index - 1).push(c));
                assert(b0 + s.subrange(i0, self.index as int) =~= buf@);
            }
        }
    }

    /// Consumes the maximal run of class `k`.
    fn skip_run(&mut self, k: CharClass)
        requires
            old(self).wf(),
        ensures
            final(self).wf(),
            final(self).index == run_end(old(self).chars@, old(self).index as int, k),
            final(self).chars@ == old(self).chars@,
            final(self).file_id == old(self).file_id,
            final(self).start == old(self).start,
            final(self).strings@ == old(self).strings@,
            final(self).group_stack@ == old(self).group_stack@,
            final(self).is_done == old(self).is_done,
    {
        let mut scratch: Vec<char> = Vec::new();
        self.read_run(k, &mut scratch);
    }

    /// The input, its file and start, and the done flag are as in `o`.
    pub closed spec fn same_input(&self, o: &Lex) -> bool {
        &&& self.chars@ == o.chars@
        &&& self.file_id == o.file_id
        &&& self.start@ == o.start@
        &&& self.is_done == o.is_done
    }

    /// The characters `chars[a..b]`.
    fn copy_range(&self, a: usize, b: usize) -> (r: Vec<char>)
        requires
            a <= b <= self.chars@.len(),
        ensures
            r@ == self.chars@.subrange(a as int, b as int),
    {
        let mut r: Vec<char> = Vec::new();
        let mut k = a;
        while k < b
            invariant
                a <= k <= b <= self.chars@.len(),
                r@ == self.chars@.subrange(a as int, k as int),
            decreases b - k,
        {
            r.push(self.chars[k]);
            k = k + 1;
            proof {
                assert(r@ =~= self.chars@.subrange(a as int, k as int));
            }
        }
        r
    }

    /// Reads a string literal into the pool; a closing quote is optional at the end.
    fn read_string(&mut self) -> (t: Token)
        requires
            old(self).wf(),
            char_at(old(self).chars@, old(self).index as int) == '"',
        ensures
            final(self).wf(),
            final(self).same_input(old(self)),
            old(self).index < final(self).index,
            scan_token(old(self).chars@, old(self).index as int, old(self).group_stack@, old(self).strings@)
                == emit(t@, final(self).index as int, final(self).group_stack@, final(self).strings@),
    {
        let ghost s = self.chars@;
        let ghost j = self.index as int;
        self.skip_char();
        let start = self.strings.len();
        let ghost pool0 = self.strings@;
        let mut body: Vec<char> = Vec::new();
        proof {
            lemma_run_end(s, j + 1, CharClass::StringBody);
        }
        self.read_run(CharClass::StringBody, &mut body);
        let ghost k = self.index as int;
        let len = body.len();
        let mut p: usize = 0;
        while p < len
            invariant
                p <= len == body@.len(),
                self.strings@ == pool0 + body@.subrange(0, p as int),
                self.wf(),
                self.chars@ == s,
                self.index == k,
                self.file_id == old(self).file_id,
                self.start == old(self).start,
                self.is_done == old(self).is_done,
                self.group_stack@ == old(self).group_stack@,
            decreases len - p,
        {
            self.strings.push(body[p]);
            p = p + 1;
            proof {
                assert(self.strings@ =~= pool0 + body@.subrange(0, p as int));
            }
        }
        proof {
            assert(body@.subrange(0, len as int) =~= body@);
        }
        if self.peek0() == '"' {
            self.skip_char();
        }
        Token::StringLiteral { index: start, len }
    }

    /// Reads a color literal: `#`, an optional `x`, then hex digits.
    fn read_color(&mut self) -> (r: Result<Token, LexErrorKind>)
        requires
            old(self).wf(),
            char_at(old(self).chars@, old(self).index as int) == '#',
        ensures
            final(self).wf(),
            final(self).same_input(old(self)),
            old(self).index < final(self).index,
            final(self).group_stack@ == old(self).group_stack@,
            final(self).strings@ == old(self).strings@,
            match r {
                Ok(t) => scan_token(old(self).chars@, old(self).index as int, old(self).group_stack@, old(self).strings@)
                    == emit(t@, final(self).index as int, final(self).group_stack@, final(self).strings@),
                Err(k) => scan_token(old(self).chars@, old(self).index as int, old(self).group_stack@, old(self).strings@)
                    == (Outcome::Fail { kind: k, end: final(self).index as int }),
            },
    {
        let ghost s = self.chars@;
        let ghost j = self.index as int;
        self.skip_char();
        if self.peek0() == 'x' {
            self.skip_char();
        }
        let ghost k = self.index as int;
        assert(k == color_start(s, j));
        proof {
            lemma_run_end(s, k, CharClass::Hex);
        }
        let mut digits: Vec<char> = Vec::new();
        self.read_run(CharClass::Hex, &mut digits);
        assert(digits@ =~= s.subrange(k, self.index as int));
        match hex_digits_to_u32(&digits) {
            Some(c) => Ok(Token::Color(c)),
            None => Err(LexErrorKind::InvalidColorLiteral),
        }
    }

    /// Reads `-.` and its digits as the float `-0.` and those digits.
    fn read_negative_fraction(&mut self) -> (t: Token)
        requires
            old(self).wf(),
            char_at(old(self).chars@, old(self).index as int) == '-',
            char_at(old(self).chars@, old(self).index + 1) == '.',
        ensures
            final(self).wf(),
            final(self).same_input(old(self)),
            old(self).index < final(self).index,
            scan_token(old(self).chars@, old(self).index as int, old(self).group_stack@, old(self).strings@)
                == emit(t@, final(self).index as int, final(self).group_stack@, final(self).strings@),
    {
        let ghost s = self.chars@;
        let ghost j = self.index as int;
        let mut text: Vec<char> = Vec::new();
        text.push('-');
        text.push('0');
        self.skip_char();
        text.push('.');
        self.skip_char();
        proof {
            lemma_run_end(s, j + 2, CharClass::Digit);
        }
        self.read_run(CharClass::Digit, &mut text);
        assert(text@ =~= seq!['-', '0'] + s.subrange(j + 1, self.index as int));
        Token::Float(text)
    }

    /// Reads an integer or a float.
    #[verifier::rlimit(100)]
    fn read_number(&mut self) -> (r: Result<Token, LexErrorKind>)
        requires
            old(self).wf(),
            is_digit(char_at(old(self).chars@, old(self).index as int)) || (
            (char_at(old(self).chars@, old(self).index as int) == '-' || char_at(old(self).chars@, old(self).index as int) == '.')
                && is_digit(char_at(old(self).chars@, old(self).index + 1))),
        ensures
            final(self).wf(),
            final(self).same_input(old(self)),
            old(self).index < final(self).index,
            final(self).group_stack@ == old(self).group_stack@,
            final(self).strings@ == old(self).strings@,
            match r {
                Ok(t) => scan_number(old(self).chars@, old(self).index as int, old(self).group_stack@, old(self).strings@)
                    == emit(t@, final(self).index as int, final(self).group_stack@, final(self).strings@),
                Err(k) => scan_number(old(self).chars@, old(self).index as int, old(self).group_stack@, old(self).strings@)
                    == (Outcome::Fail { kind: k, end: final(self).index as int }),
            },
    {
        let ghost s = self.chars@;
        let ghost j = self.index as int;
        let mut text: Vec<char> = Vec::new();
        let negative = self.peek0() == '-';
        if negative {
            text.push('-');
            self.skip_char();
        }
        let from = self.index;
        assert(from == int_start(s, j));
        assert(text@ =~= s.subrange(j, self.index as int));
        proof {
            lemma_run_end(s, from as int, CharClass::Digit);
        }
        self.read_run(CharClass::Digit, &mut text);
        let to = self.index;
        let mut is_float = false;
        if self.peek0() == '.' {
            text.push('.');
            self.skip_char();
            assert(text@ =~= s.subrange(j, self.index as int));
            proof {
                lemma_run_end(s, self.index as int, CharClass::Digit);
            }
            self.read_run(CharClass::Digit, &mut text);
            is_float = true;
        }
        assert(self.index == frac_end(s, j));
        assert(text@ =~= s.subrange(j, self.index as int));
        let c = self.peek0();
        if c == 'e' || c == 'E' {
            text.push(c);
            self.skip_char();
            let c2 = self.peek0();
            if c2 == '+' || c2 == '-' {
                text.push(c2);
                self.skip_char();
            }
            assert(self.index == exp_digits(s, j));
            assert(text@ =~= s.subrange(j, self.index as int));
            let c3 = self.peek0();
            if !('0' <= c3 && c3 <= '9') {
                return Err(LexErrorKind::MissingExponentDigits);
            }
            proof {
                lemma_run_end(s, self.index as int, CharClass::Digit);
            }
            self.read_run(CharClass::Digit, &mut text);
            assert(text@ =~= s.subrange(j, self.index as int));
            return Ok(Token::Float(text));
        }
        if is_float {
            return Ok(Token::Float(text));
        }
        match parse_integer(&self.chars, from, to, negative) {
            Some(v) => Ok(Token::Integer(v)),
            None => Err(LexErrorKind::IntegerOverflow),
        }
    }

    /// Reads a word: a boolean, an identifier, or an error on its underscores or
    /// on a hash collision, with the text that owns the hash.
    fn read_word(&mut self) -> (r: Result<Token, (LexErrorKind, Vec<char>)>)
        requires
            old(self).wf(),
            is_alpha(char_at(old(self).chars@, old(self).index as int)) || char_at(old(self).chars@, old(self).index as int) == '_',
        ensures
            final(self).wf(),
            final(self).same_input(old(self)),
            old(self).index < final(self).index,
            final(self).group_stack@ == old(self).group_stack@,
            final(self).strings@ == old(self).strings@,
            match scan_word(old(self).chars@, old(self).index as int, old(self).group_stack@, old(self).strings@) {
                Outcome::Word { end } => final(self).index == end && match r {
                    Ok(t) => t@ == TokenView::Identifier(live_id_hash(old(self).chars@.subrange(old(self).index as int, end))),
                    Err((k, other)) => k == LexErrorKind::IdentifierHashCollision
                        && other@ != old(self).chars@.subrange(old(self).index as int, end),
                },
                Outcome::Emit { token, end, stack, pool } => match r {
                    Ok(t) => t@ == token && final(self).index == end,
                    Err(_) => false,
                },
                Outcome::Fail { kind, end } => match r {
                    Ok(_) => false,
                    Err((k, other)) => k == kind && final(self).index == end && other@.len() == 0,
                },
            },
    {
        let ghost s = self.chars@;
        let ghost j = self.index as int;
        let mut text: Vec<char> = Vec::new();
        let first = self.peek0();
        text.push(first);
        self.skip_char();
        proof {
            lemma_run_end(s, j + 1, CharClass::Word);
        }
        self.read_run(CharClass::Word, &mut text);
        let ghost t = s.subrange(j, self.index as int);
        assert(text@ =~= t);
        let n = text.len();
        if text[0] == '_' || text[n - 1] == '_' {
            return Err((LexErrorKind::InvalidUnderscoreIdentifier, Vec::new()));
        }
        let mut double = false;
        let mut k: usize = 0;
        while k + 1 < n
            invariant
                1 <= n == text@.len(),
                k < n,
                text@ == t,
                double == exists|q: int| 0 <= q < k && t[q] == '_' && #[trigger] t[q + 1] == '_',
            decreases n - k,
        {
            if text[k] == '_' && text[k + 1] == '_' {
                double = true;
            }
            k = k + 1;
        }
        if double {
            return Err((LexErrorKind::DoubleUnderscoreIdentifier, Vec::new()));
        }
        if n == 4 && text[0] == 't' && text[1] == 'r' && text[2] == 'u' && text[3] == 'e' {
            assert(t =~= seq!['t', 'r', 'u', 'e']);
            return Ok(Token::Boolean(true));
        }
        if n == 5 && text[0] == 'f' && text[1] == 'a' && text[2] == 'l' && text[3] == 's' && text[4] == 'e' {
            assert(t =~= seq!['f', 'a', 'l', 's', 'e']);
            return Ok(Token::Boolean(false));
        }
        match intern_identifier(&text) {
            Ok(id) => Ok(Token::Identifier(id)),
            Err(other) => Err((LexErrorKind::IdentifierHashCollision, other)),
        }
    }

    /// Skips trivia, then reads one token, or fails with the first error.
    pub fn read_token_with_span(&mut self) -> (r: Result<TokenWithSpan, LexError>)
        requires
            old(self).wf(),
        ensures
            final(self).wf(),
            final(self).same_input(old(self)),
            step(
                old(self).file_id(),
                old(self).start(),
                old(self).chars(),
                old(self).index(),
                old(self).stack(),
                old(self).pool(),
                r,
                final(self).index(),
                final(self).stack(),
                final(self).pool(),
            ),
            r matches Ok(t) && !(t.token@ is EndOfInput) ==> final(self).index() > old(self).index(),
    {
        let ghost s = self.chars@;
        let ghost i = self.index as int;
        let comment_start = self.pos;
        let from = self.index;
        proof {
            lemma_trivia(s, i);
        }
        if !self.skip_trivia() {
            let text = self.copy_range(from, self.index);
            return Err(LexError {
                kind: LexErrorKind::UnterminatedBlockComment,
                span: Span { file_id: self.file_id, start: comment_start, end: self.pos },
                text,
                other: Vec::new(),
            });
        }
        let j = self.index;
        let start = self.pos;
        let c0 = self.peek0();
        let c1 = self.peek1();
        let res = self.read_token(c0, c1);
        match res {
            Ok(token) => Ok(
                TokenWithSpan {
                    span: Span { file_id: self.file_id, start, end: self.pos },
                    token,
                },
            ),
            Err((kind, other)) => {
                let text = self.copy_range(j, self.index);
                Err(LexError {
                    kind,
                    span: Span { file_id: self.file_id, start, end: self.pos },
                    text,
                    other,
                })
            },
        }
    }

    /// Reads the lexeme at the current index, trivia already skipped.
    fn read_token(&mut self, c0: char, c1: char) -> (res: Result<Token, (LexErrorKind, Vec<char>)>)
        requires
            old(self).wf(),
            c0 == char_at(old(self).chars@, old(self).index as int),
            c1 == char_at(old(self).chars@, old(self).index + 1),
        ensures
            final(self).wf(),
            final(self).same_input(old(self)),
            old(self).index <= final(self).index,
            match scan_token(old(self).chars@, old(self).index as int, old(self).group_stack@, old(self).strings@) {
                Outcome::Word { end } => final(self).index == end
                    && final(self).group_stack@ == old(self).group_stack@
                    && final(self).strings@ == old(self).strings@ && match res {
                    Ok(t) => t@ == TokenView::Identifier(live_id_hash(old(self).chars@.subrange(old(self).index as int, end))),
                    Err((k, other)) => k == LexErrorKind::IdentifierHashCollision
                        && other@ != old(self).chars@.subrange(old(self).index as int, end),
                },
                Outcome::Emit { token, end, stack, pool } => match res {
                    Ok(t) => t@ == token && final(self).index == end && final(self).group_stack@ == stack
                        && final(self).strings@ == pool,
                    Err(_) => false,
                },
                Outcome::Fail { kind, end } => match res {
                    Ok(_) => false,
                    Err((k, other)) => k == kind && final(self).index == end && other@.len() == 0,
                },
            },
            res matches Ok(t) && !(t@ is EndOfInput) ==> final(self).index > old(self).index,
    {
        if c0 == '"' {
            Ok(self.read_string())
        } else if c0 == '\0' {
            Ok(Token::EndOfInput)
        } else if c0 == '#' {
            match self.read_color() {
                Ok(t) => Ok(t),
                Err(k) => Err((k, Vec::new())),
            }
        } else if c0 == '-' && c1 == '.' {
            Ok(self.read_negative_fraction())
        } else {
            match match_two_char_punct(c0, c1) {
                Some(p) => {
                    self.skip_two_chars();
                    Ok(Token::Punctuation(p))
                },
                None => {
                    if ('0' <= c0 && c0 <= '9') || ((c0 == '-' || c0 == '.') && '0' <= c1 && c1
                        <= '9') {
                        match self.read_number() {
                            Ok(t) => Ok(t),
                            Err(k) => Err((k, Vec::new())),
                        }
                    } else {
                        match match_one_char_punct(c0) {
                            Some(p) => {
                                self.skip_char();
                                Ok(Token::Punctuation(p))
                            },
                            None => self.read_other(c0),
                        }
                    }
                },
            }
        }
    }

    /// How many opened brackets are still waiting for their close.
    pub fn open_groups(&self) -> (r: usize)
        ensures
            r == self.stack().len(),
    {
        self.group_stack.len()
    }

    /// The string pool filled so far.
    pub fn strings(&self) -> (r: &Vec<char>)
        ensures
            r@ == self.pool(),
    {
        &self.strings
    }

    /// Pulls the next token; after `EndOfInput` or an error, only `None`.
    pub fn next(&mut self) -> (r: Option<Result<TokenWithSpan, LexError>>)
        requires
            old(self).wf(),
        ensures
            final(self).wf(),
            final(self).chars() == old(self).chars(),
            final(self).file_id() == old(self).file_id(),
            final(self).start() == old(self).start(),
            old(self).done() ==> r is None && final(self).done() && final(self).index() == old(self).index(),
            !old(self).done() ==> match r {
                None => false,
                Some(x) => step(
                    old(self).file_id(),
                    old(self).start(),
                    old(self).chars(),
                    old(self).index(),
                    old(self).stack(),
                    old(self).pool(),
                    x,
                    final(self).index(),
                    final(self).stack(),
                    final(self).pool(),
                ) && final(self).done() == match x {
                    Ok(t) => t.token@ is EndOfInput,
                    Err(_) => true,
                },
            },
    {
        if self.is_done {
            return None;
        }
        let r = self.read_token_with_span();
        let done = match &r {
            Ok(t) => t.token.is_end_of_input(),
            Err(_) => true,
        };
        self.is_done = done;
        Some(r)
    }

    /// Reads a word, a bracket, or fails on a character that starts no lexeme.
    fn read_other(&mut self, c0: char) -> (r: Result<Token, (LexErrorKind, Vec<char>)>)
        requires
            old(self).wf(),
            c0 == char_at(old(self).chars@, old(self).index as int),
            c0 != '"' && c0 != '\0' && c0 != '#',
            !is_digit(c0),
            one_char_punct(c0) is None,
        ensures
            final(self).wf(),
            final(self).same_input(old(self)),
            old(self).index <= final(self).index,
            r is Ok ==> old(self).index < final(self).index,
            match scan_token(old(self).chars@, old(self).index as int, old(self).group_stack@, old(self).strings@) {
                Outcome::Word { end } => final(self).index == end
                    && final(self).group_stack@ == old(self).group_stack@
                    && final(self).strings@ == old(self).strings@ && match r {
                    Ok(t) => t@ == TokenView::Identifier(live_id_hash(old(self).chars@.subrange(old(self).index as int, end))),
                    Err((k, other)) => k == LexErrorKind::IdentifierHashCollision
                        && other@ != old(self).chars@.subrange(old(self).index as int, end),
                },
                Outcome::Emit { token, end, stack, pool } => match r {
                    Ok(t) => t@ == token && final(self).index == end && final(self).group_stack@ == stack
                        && final(self).strings@ == pool,
                    Err(_) => false,
                },
                Outcome::Fail { kind, end } => match r {
                    Ok(_) => false,
                    Err((k, other)) => k == kind && final(self).index == end && other@.len() == 0,
                },
            },
    {
        if ('a' <= c0 && c0 <= 'z') || ('A' <= c0 && c0 <= 'Z') || c0 == '_' {
            return self.read_word();
        }
        if c0 == '(' || c0 == '[' || c0 == '{' {
            let (d, close) = if c0 == '(' {
                (Delim::Paren, ')')
            } else if c0 == '[' {
                (Delim::Bracket, ']')
            } else {
                (Delim::Brace, '}')
            };
            self.skip_char();
            self.group_stack.push(close);
            return Ok(Token::Open(d));
        }
        if c0 == ')' || c0 == ']' || c0 == '}' {
            let d = if c0 == ')' {
                Delim::Paren
            } else if c0 == ']' {
                Delim::Bracket
            } else {
                Delim::Brace
            };
            let n = self.group_stack.len();
            if n == 0 {
                return Err((LexErrorKind::UnmatchedCloseBracket, Vec::new()));
            }
            let expected = self.group_stack[n - 1];
            if expected != c0 {
                return Err((LexErrorKind::MismatchedCloseBracket { expected, found: c0 }, Vec::new()));
            }
            self.group_stack.pop();
            self.skip_char();
            return Ok(Token::Close(d));
        }
        Err((LexErrorKind::UnexpectedCharacter(c0), Vec::new()))
    }

    /// Consumes whitespace and comments; `false` where a block comment is not closed.
    fn skip_trivia(&mut self) -> (ok: bool)
        requires
            old(self).wf(),
        ensures
            final(self).wf(),
            (final(self).index as int, ok) == trivia(old(self).chars@, old(self).index as int),
            final(self).chars@ == old(self).chars@,
            final(self).file_id == old(self).file_id,
            final(self).start == old(self).start,
            final(self).strings@ == old(self).strings@,
            final(self).group_stack@ == old(self).group_stack@,
            final(self).is_done == old(self).is_done,
    {
        let ghost s = self.chars@;
        let ghost i0 = self.index as int;
        loop
            invariant
                self.wf(),
                self.chars@ == s,
                s == old(self).chars@,
                i0 == old(self).index,
                trivia(s, self.index as int) == trivia(s, i0),
                self.file_id == old(self).file_id,
                self.start == old(self).start,
                self.strings@ == old(self).strings@,
                self.group_stack@ == old(self).group_stack@,
                self.is_done == old(self).is_done,
            decreases s.len() - self.index,
        {
            let ghost i = self.index as int;
            proof {
                lemma_run_end(s, i, CharClass::Space);
            }
            self.skip_run(CharClass::Space);
            let c0 = self.peek0();
            let c1 = self.peek1();
            if c0 == '/' && c1 == '*' {
                self.skip_two_chars();
                let ghost m = block_stop(s, self.index as int);
                proof {
                    lemma_block_stop(s, self.index as int);
                }
                while !(self.peek0() == '\0' || (self.peek0() == '*' && self.peek1() == '/'))
                    invariant
                        self.wf(),
                        self.chars@ == s,
                        i < self.index <= m,
                        block_stop(s, self.index as int) == m,
                        self.file_id == old(self).file_id,
                        self.start == old(self).start,
                        self.strings@ == old(self).strings@,
                        self.group_stack@ == old(self).group_stack@,
                        self.is_done == old(self).is_done,
                    decreases s.len() - self.index,
                {
                    proof {
                        lemma_block_stop(s, self.index + 1);
                    }
                    self.skip_char();
                }
                if self.peek0() == '\0' {
                    return false;
                }
                self.skip_two_chars();
            } else if c0 == '/' && c1 == '/' {
                self.skip_two_chars();
                let ghost e = line_stop(s, self.index as int);
                proof {
                    lemma_line_stop(s, self.index as int);
                }
                loop
                    invariant_except_break
                        line_stop(s, self.index as int) == e,
                    invariant
                        self.wf(),
                        self.chars@ == s,
                        i < self.index <= e,
                        self.file_id == old(self).file_id,
                        self.start == old(self).start,
                        self.strings@ == old(self).strings@,
                        self.group_stack@ == old(self).group_stack@,
                        self.is_done == old(self).is_done,
                    ensures
                        self.index == e,
                    decreases s.len() - self.index,
                {
                    let c = self.peek0();
                    if c == '\0' {
                        break;
                    } else if c == '\n' {
                        self.skip_char();
                        break;
                    } else if c == '\r' && self.peek1() == '\n' {
                        self.skip_char();
                        self.skip_char();
                        break;
                    } else {
                        proof {
                            lemma_line_stop(s, self.index + 1);
                        }
                        self.skip_char();
                    }
                }
            } else {
                return true;
            }
        }
    }
}


/// What one call of the classifier from index `i` gives: the error, or the token
/// and the index, bracket stack and string pool after it.
pub open spec fn step(
    file_id: FileId,
    start: TextPos,
    s: Seq<char>,
    i: int,
    stack: Seq<char>,
    pool: Seq<char>,
    r: Result<TokenWithSpan, LexError>,
    i2: int,
    stack2: Seq<char>,
    pool2: Seq<char>,
) -> bool {
    let (m, ok) = trivia(s, i);
    if !ok {
        match r {
            Ok(_) => false,
            Err(e) => e.kind == LexErrorKind::UnterminatedBlockComment && e.span == span_of(
                file_id,
                start,
                s,
                i,
                m,
            ) && e.text@ == s.subrange(i, m) && e.other@.len() == 0,
        }
    } else {
        match scan_token(s, m, stack, pool) {
            Outcome::Emit { token, end, stack: st, pool: pl } => match r {
                Ok(t) => t.token@ == token && t.span == span_of(file_id, start, s, m, end) && i2
                    == end && stack2 == st && pool2 == pl,
                Err(_) => false,
            },
            Outcome::Word { end } => match r {
                Ok(t) => t.token@ == TokenView::Identifier(live_id_hash(s.subrange(m, end)))
                    && t.span == span_of(file_id, start, s, m, end) && i2 == end && stack2 == stack
                    && pool2 == pool,
                Err(e) => e.kind == LexErrorKind::IdentifierHashCollision && e.span == span_of(
                    file_id,
                    start,
                    s,
                    m,
                    end,
                ) && e.text@ == s.subrange(m, end) && e.other@ != e.text@,
            },
            Outcome::Fail { kind, end } => match r {
                Ok(_) => false,
                Err(e) => e.kind == kind && e.span == span_of(file_id, start, s, m, end) && e.text@
                    == s.subrange(m, end) && e.other@.len() == 0,
            },
        }
    }
}

/// The index, bracket stack and string pool after a successful step from `i`.
pub open spec fn next_state(s: Seq<char>, i: int, stack: Seq<char>, pool: Seq<char>) -> (
    int,
    Seq<char>,
    Seq<char>,
) {
    let m = trivia(s, i).0;
    match scan_token(s, m, stack, pool) {
        Outcome::Emit { token, end, stack: st, pool: pl } => (end, st, pl),
        Outcome::Word { end } => (end, stack, pool),
        Outcome::Fail { kind, end } => (end, stack, pool),
    }
}

/// Whether a step from `i` can succeed with a token other than `EndOfInput`.
pub open spec fn continues(s: Seq<char>, i: int, stack: Seq<char>, pool: Seq<char>) -> bool {
    let (m, ok) = trivia(s, i);
    ok && match scan_token(s, m, stack, pool) {
        Outcome::Emit { token, end, stack: st, pool: pl } => !(token is EndOfInput),
        Outcome::Word { end } => true,
        Outcome::Fail { kind, end } => false,
    }
}

/// `toks` is what a pass from index `i` produces, up to and including
/// `EndOfInput`, with `final_pool` as the string pool at the end.
pub open spec fn run_ok(
    file_id: FileId,
    start: TextPos,
    s: Seq<char>,
    i: int,
    stack: Seq<char>,
    pool: Seq<char>,
    toks: Seq<TokenWithSpan>,
    final_pool: Seq<char>,
) -> bool
    decreases toks.len(),
{
    if toks.len() == 0 {
        false
    } else {
        let ns = next_state(s, i, stack, pool);
        &&& step(file_id, start, s, i, stack, pool, Ok(toks[0]), ns.0, ns.1, ns.2)
        &&& if toks[0].token@ is EndOfInput {
            toks.len() == 1 && final_pool == ns.2
        } else {
            run_ok(file_id, start, s, ns.0, ns.1, ns.2, toks.drop_first(), final_pool)
        }
    }
}

/// A pass from index `i` can end in the error `e`: it is the error of this
/// step, or this step yields a token and a later step ends in `e`.
pub open spec fn run_fails(
    file_id: FileId,
    start: TextPos,
    s: Seq<char>,
    i: int,
    stack: Seq<char>,
    pool: Seq<char>,
    e: LexError,
) -> bool
    decreases s.len() - i,
{
    let ns = next_state(s, i, stack, pool);
    ||| step(file_id, start, s, i, stack, pool, Err(e), i, stack, pool)
    ||| (continues(s, i, stack, pool) && i < ns.0 <= s.len() && run_fails(
        file_id,
        start,
        s,
        ns.0,
        ns.1,
        ns.2,
        e,
    ))
}

/// Every successful pass ends with exactly one `EndOfInput` token, and nothing
/// follows it.
pub proof fn lemma_single_end_of_input(
    file_id: FileId,
    start: TextPos,
    s: Seq<char>,
    i: int,
    stack: Seq<char>,
    pool: Seq<char>,
    toks: Seq<TokenWithSpan>,
    final_pool: Seq<char>,
)
    requires
        run_ok(file_id, start, s, i, stack, pool, toks, final_pool),
    ensures
        toks.len() >= 1,
        toks.last().token@ is EndOfInput,
        forall|k: int| 0 <= k < toks.len() - 1 ==> !(#[trigger] toks[k].token@ is EndOfInput),
    decreases toks.len(),
{
    let ns = next_state(s, i, stack, pool);
    if !(toks[0].token@ is EndOfInput) {
        let rest = toks.drop_first();
        lemma_single_end_of_input(file_id, start, s, ns.0, ns.1, ns.2, rest, final_pool);
        assert(toks.last() == rest.last());
        assert forall|k: int| 0 <= k < toks.len() - 1 implies !(#[trigger] toks[k].token@ is EndOfInput) by {
            if k > 0 {
                assert(toks[k] == rest[k - 1]);
            }
        }
    }
}

proof fn lemma_step_ok_next_state(
    file_id: FileId,
    start: TextPos,
    s: Seq<char>,
    i: int,
    stack: Seq<char>,
    pool: Seq<char>,
    t: TokenWithSpan,
    i2: int,
    stack2: Seq<char>,
    pool2: Seq<char>,
)
    requires
        step(file_id, start, s, i, stack, pool, Ok(t), i2, stack2, pool2),
    ensures
        next_state(s, i, stack, pool) == (i2, stack2, pool2),
        step(file_id, start, s, i, stack, pool, Ok(t), i2, stack2, pool2),
        !(t.token@ is EndOfInput) ==> continues(s, i, stack, pool),
{
}

proof fn lemma_step_err(
    file_id: FileId,
    start: TextPos,
    s: Seq<char>,
    i: int,
    stack: Seq<char>,
    pool: Seq<char>,
    e: LexError,
    i2: int,
    stack2: Seq<char>,
    pool2: Seq<char>,
)
    requires
        step(file_id, start, s, i, stack, pool, Err(e), i2, stack2, pool2),
    ensures
        run_fails(file_id, start, s, i, stack, pool, e),
{
    assert(step(file_id, start, s, i, stack, pool, Err(e), i, stack, pool));
}

proof fn lemma_extend_run(
    file_id: FileId,
    start: TextPos,
    s: Seq<char>,
    i: int,
    stack: Seq<char>,
    pool: Seq<char>,
    t: TokenWithSpan,
    i2: int,
    stack2: Seq<char>,
    pool2: Seq<char>,
)
    requires
        step(file_id, start, s, i, stack, pool, Ok(t), i2, stack2, pool2),
        !(t.token@ is EndOfInput),
        i < i2 <= s.len(),
    ensures
        forall|rest: Seq<TokenWithSpan>, fp: Seq<char>|
            run_ok(file_id, start, s, i2, stack2, pool2, rest, fp) ==> run_ok(
                file_id,
                start,
                s,
                i,
                stack,
                pool,
                seq![t] + rest,
                fp,
            ),
        forall|e: LexError|
            run_fails(file_id, start, s, i2, stack2, pool2, e) ==> run_fails(
                file_id,
                start,
                s,
                i,
                stack,
                pool,
                e,
            ),
{
    lemma_step_ok_next_state(file_id, start, s, i, stack, pool, t, i2, stack2, pool2);
    assert forall|rest: Seq<TokenWithSpan>, fp: Seq<char>|
        run_ok(file_id, start, s, i2, stack2, pool2, rest, fp) implies run_ok(
            file_id,
            start,
            s,
            i,
            stack,
            pool,
            seq![t] + rest,
            fp,
        ) by {
        assert((seq![t] + rest).drop_first() =~= rest);
        assert((seq![t] + rest)[0] == t);
    }
}

/// The text a successful pass from `i` walks over, in order: for each token,
/// the trivia skipped before it, then its lexeme `s[m..end]`, the range its span
/// covers.
pub open spec fn walked_text(
    s: Seq<char>,
    i: int,
    stack: Seq<char>,
    pool: Seq<char>,
    toks: Seq<TokenWithSpan>,
) -> Seq<char>
    decreases toks.len(),
{
    if toks.len() == 0 {
        Seq::empty()
    } else {
        let m = trivia(s, i).0;
        let ns = next_state(s, i, stack, pool);
        let here = s.subrange(i, m) + s.subrange(m, ns.0);
        if toks[0].token@ is EndOfInput {
            here
        } else {
            here + walked_text(s, ns.0, ns.1, ns.2, toks.drop_first())
        }
    }
}

/// A lexeme that does not fail ends within the input, at or after its start.
pub proof fn lemma_scan_token_bounds(s: Seq<char>, m: int, stack: Seq<char>, pool: Seq<char>)
    requires
        0 <= m <= s.len(),
    ensures
        match scan_token(s, m, stack, pool) {
            Outcome::Emit { token, end, stack: st, pool: pl } => m <= end <= s.len(),
            Outcome::Word { end } => m <= end <= s.len(),
            Outcome::Fail { kind, end } => true,
        },
{
    if m < s.len() {
        lemma_run_end(s, m + 1, CharClass::StringBody);
        lemma_run_end(s, m + 1, CharClass::Word);
        if m + 1 < s.len() {
            lemma_run_end(s, m + 2, CharClass::Digit);
        }
        lemma_run_end(s, color_start(s, m), CharClass::Hex);
        lemma_run_end(s, int_start(s, m), CharClass::Digit);
        let ie = int_end(s, m);
        if ie < s.len() {
            lemma_run_end(s, ie + 1, CharClass::Digit);
        }
        let fe = frac_end(s, m);
        if fe < s.len() {
            let ed = exp_digits(s, m);
            if ed <= s.len() {
                lemma_run_end(s, ed, CharClass::Digit);
            }
        }
    }
}

/// Input without NUL characters is walked over exactly by a successful pass:
/// the trivia and lexemes, concatenated in order, give back the input.
pub proof fn lemma_pass_covers_input(
    file_id: FileId,
    start: TextPos,
    s: Seq<char>,
    i: int,
    stack: Seq<char>,
    pool: Seq<char>,
    toks: Seq<TokenWithSpan>,
    final_pool: Seq<char>,
)
    requires
        0 <= i <= s.len(),
        forall|k: int| 0 <= k < s.len() ==> #[trigger] s[k] != '\0',
        run_ok(file_id, start, s, i, stack, pool, toks, final_pool),
    ensures
        walked_text(s, i, stack, pool, toks) == s.subrange(i, s.len() as int),
    decreases toks.len(),
{
    let m = trivia(s, i).0;
    let ns = next_state(s, i, stack, pool);
    lemma_trivia(s, i);
    lemma_scan_token_bounds(s, m, stack, pool);
    if toks[0].token@ is EndOfInput {
        assert(m == s.len());
        assert(s.subrange(i, m) + s.subrange(m, ns.0) =~= s.subrange(i, s.len() as int));
    } else {
        lemma_pass_covers_input(file_id, start, s, ns.0, ns.1, ns.2, toks.drop_first(), final_pool);
        assert(s.subrange(i, m) + s.subrange(m, ns.0) + s.subrange(ns.0, s.len() as int)
            =~= s.subrange(i, s.len() as int));
    }
}

/// The result of a full pass: the tokens and the string pool they point into.
pub struct LexResult {
    pub strings: Vec<char>,
    pub tokens: Vec<TokenWithSpan>,
}

/// Lexes `chars`, whose first character stands at `start_pos` in file
/// `file_id`, up to and including `EndOfInput`, or up to the first error.
pub fn lex(chars: Vec<char>, start_pos: TextPos, file_id: FileId) -> (r: Result<LexResult, LexError>)
    requires
        fits_positions(chars@, start_pos),
    ensures
        match r {
            Ok(res) => run_ok(
                file_id,
                start_pos,
                chars@,
                0,
                Seq::empty(),
                Seq::empty(),
                res.tokens@,
                res.strings@,
            ),
            Err(e) => run_fails(file_id, start_pos, chars@, 0, Seq::empty(), Seq::empty(), e),
        },
        r matches Ok(res) ==> res.tokens@.len() >= 1 && res.tokens@.last().token@ is EndOfInput
            && forall|k: int| 0 <= k < res.tokens@.len() - 1 ==> !(#[trigger] res.tokens@[k].token@ is EndOfInput),
{
    let ghost s = chars@;
    let mut lex = Lex::new(chars, start_pos, file_id);
    let mut tokens: Vec<TokenWithSpan> = Vec::new();
    proof {
        assert forall|rest: Seq<TokenWithSpan>, fp: Seq<char>|
            run_ok(file_id, start_pos, s, 0, Seq::empty(), Seq::empty(), rest, fp) implies
            run_ok(file_id, start_pos, s, 0, Seq::empty(), Seq::empty(), tokens@ + rest, fp) by {
            assert(tokens@ + rest =~= rest);
        }
    }
    loop
        invariant
            lex.wf(),
            lex.chars@ == s,
            s == chars@,
            lex.file_id == file_id,
            lex.start@ == start_pos,
            forall|rest: Seq<TokenWithSpan>, fp: Seq<char>|
                run_ok(file_id, start_pos, s, lex.index as int, lex.group_stack@, lex.strings@, rest, fp)
                    ==> run_ok(file_id, start_pos, s, 0, Seq::empty(), Seq::empty(), tokens@ + rest, fp),
            forall|e: LexError|
                run_fails(file_id, start_pos, s, lex.index as int, lex.group_stack@, lex.strings@, e)
                    ==> run_fails(file_id, start_pos, s, 0, Seq::empty(), Seq::empty(), e),
        decreases s.len() - lex.index,
    {
        let ghost i = lex.index as int;
        let ghost st = lex.group_stack@;
        let ghost pl = lex.strings@;
        let ghost before = tokens@;
        match lex.read_token_with_span() {
            Err(e) => {
                proof {
                    lemma_step_err(file_id, start_pos, s, i, st, pl, e, lex.index as int, lex.group_stack@, lex.strings@);
                }
                return Err(e);
            },
            Ok(tok) => {
                let ghost t = tok;
                let end = tok.token.is_end_of_input();
                tokens.push(tok);
                if end {
                    proof {
                        lemma_step_ok_next_state(file_id, start_pos, s, i, st, pl, t, lex.index as int, lex.group_stack@, lex.strings@);
                        assert(seq![t][0] == t);
                        assert(run_ok(file_id, start_pos, s, i, st, pl, seq![t], lex.strings@));
                        assert(before + seq![t] =~= tokens@);
                        assert(tokens@ + Seq::<TokenWithSpan>::empty() =~= tokens@);
                        lemma_single_end_of_input(file_id, start_pos, s, 0, Seq::empty(), Seq::empty(), tokens@, lex.strings@);
                    }
                    return Ok(LexResult { strings: lex.strings, tokens });
                }
                proof {
                    lemma_extend_run(file_id, start_pos, s, i, st, pl, t, lex.index as int, lex.group_stack@, lex.strings@);
                    assert forall|rest: Seq<TokenWithSpan>, fp: Seq<char>|
                        run_ok(file_id, start_pos, s, lex.index as int, lex.group_stack@, lex.strings@, rest, fp)
                        implies run_ok(file_id, start_pos, s, 0, Seq::empty(), Seq::empty(), tokens@ + rest, fp) by {
                        assert(run_ok(file_id, start_pos, s, i, st, pl, seq![t] + rest, fp));
                        assert(tokens@ + rest =~= before + (seq![t] + rest));
                    }
                }
            },
        }
    }
}

/// The signed value of the digits `s[from..to]`.
pub open spec fn integer_value(s: Seq<char>, from: int, to: int, negative: bool) -> int {
    if negative {
        -digits_value(s.subrange(from, to))
    } else {
        digits_value(s.subrange(from, to))
    }
}

proof fn lemma_digits_push(d: Seq<char>, c: char)
    ensures
        digits_value(d.push(c)) == digits_value(d) * 10 + (c as int - '0' as int),
{
    assert(d.push(c).drop_last() =~= d);
}

proof fn lemma_digits_nonneg(d: Seq<char>)
    requires
        forall|k: int| 0 <= k < d.len() ==> is_digit(#[trigger] d[k]),
    ensures
        digits_value(d) >= 0,
    decreases d.len(),
{
    if d.len() > 0 {
        lemma_digits_nonneg(d.drop_last());
    }
}

/// Reads the decimal digits `chars[from..to]` as a 64-bit integer, negated
/// where `negative`; `None` where the value does not fit.
pub fn parse_integer(chars: &Vec<char>, from: usize, to: usize, negative: bool) -> (r: Option<i64>)
    requires
        from <= to <= chars@.len(),
        forall|k: int| from <= k < to ==> is_digit(#[trigger] chars@[k]),
    ensures
        r == (if fits_i64(integer_value(chars@, from as int, to as int, negative)) {
            Some(integer_value(chars@, from as int, to as int, negative) as i64)
        } else {
            None
        }),
{
    let limit: u64 = if negative {
        0x8000_0000_0000_0000
    } else {
        0x7fff_ffff_ffff_ffff
    };
    let mut magnitude: u64 = 0;
    let mut overflow = false;
    let mut k = from;
    while k < to
        invariant
            from <= k <= to <= chars@.len(),
            forall|p: int| from <= p < to ==> is_digit(#[trigger] chars@[p]),
            limit == (if negative { 0x8000_0000_0000_0000u64 } else { 0x7fff_ffff_ffff_ffffu64 }),
            !overflow ==> magnitude == digits_value(chars@.subrange(from as int, k as int)),
            !overflow ==> magnitude <= limit,
            overflow ==> digits_value(chars@.subrange(from as int, k as int)) > limit,
        decreases to - k,
    {
        let d = (chars[k] as u32 - '0' as u32) as u64;
        proof {
            assert(chars@.subrange(from as int, k + 1) =~= chars@.subrange(from as int, k as int).push(chars@[k as int]));
            lemma_digits_push(chars@.subrange(from as int, k as int), chars@[k as int]);
        }
        if !overflow {
            if magnitude > (limit - d) / 10 {
                overflow = true;
            } else {
                magnitude = magnitude * 10 + d;
            }
        }
        k = k + 1;
    }
    if overflow {
        None
    } else if negative {
        if magnitude == 0x8000_0000_0000_0000 {
            Some(i64::MIN)
        } else {
            Some(-(magnitude as i64))
        }
    } else {
        Some(magnitude as i64)
    }
}

/// Whether `c` belongs to class `k`.
pub fn class_holds(c: char, k: CharClass) -> (r: bool)
    ensures
        r == in_class(c, k),
{
    match k {
        CharClass::Space => c == ' ' || c == '\t' || c == '\n' || c == '\x0C' || c == '\r',
        CharClass::Digit => '0' <= c && c <= '9',
        CharClass::Hex => ('0' <= c && c <= '9') || ('a' <= c && c <= 'f') || ('A' <= c && c
            <= 'F'),
        CharClass::Word => ('a' <= c && c <= 'z') || ('A' <= c && c <= 'Z') || ('0' <= c && c
            <= '9') || c == '_',
        CharClass::StringBody => c != '"' && c != '\0',
    }
}

} // verus!
