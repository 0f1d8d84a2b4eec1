use vstd::prelude::*;
use vstd::string::{StrSliceExecFns, StringSliceAdditionalSpecFns};
use vstd::utf8::{encode_scalar, encode_utf8};

verus! {

/// The number of bytes in the UTF-8 encoding of `s`.
pub open spec fn byte_len(s: Seq<char>) -> int {
    encode_utf8(s).len() as int
}

pub proof fn lemma_encode_concat(a: Seq<char>, b: Seq<char>)
    ensures
        encode_utf8(a + b) == encode_utf8(a) + encode_utf8(b),
    decreases a.len(),
{
    if a.len() == 0 {
        assert(a + b =~= b);
        assert(encode_utf8(a) + encode_utf8(b) =~= encode_utf8(b));
    } else {
        lemma_encode_concat(a.drop_first(), b);
        assert((a + b).drop_first() =~= a.drop_first() + b);
        assert((a + b)[0] == a[0]);
        assert(encode_scalar(a[0] as u32) + (encode_utf8(a.drop_first()) + encode_utf8(b))
            =~= (encode_scalar(a[0] as u32) + encode_utf8(a.drop_first())) + encode_utf8(b));
    }
}

/// Whether `c` has Unicode's White_Space property.
pub uninterp spec fn unicode_whitespace(c: char) -> bool;

/// Relies on char::is_whitespace: whether the character has Unicode's
/// White_Space property, a fact of the character alone.
#[verifier::external_body]
fn is_whitespace(c: char) -> (r: bool)
    ensures
        r == unicode_whitespace(c),
{
    c.is_whitespace()
}

/// The characters of a string, one at a time, from either end.
#[derive(Clone, Debug)]
pub struct Graphemes<'a> {
    string: &'a str,
}

impl<'a> Graphemes<'a> {
    /// What is left to hand out.
    pub closed spec fn rest(&self) -> Seq<char> {
        self.string@
    }

    pub fn next(&mut self) -> (r: Option<&'a str>)
        ensures
            old(self).rest().len() == 0 ==> r is None && final(self).rest() == old(self).rest(),
            old(self).rest().len() > 0 ==> (r matches Some(g) && g@ == seq![old(self).rest()[0]]
                && final(self).rest() == old(self).rest().drop_first()),
    {
        let n = self.string.unicode_len();
        if n == 0 {
            return None;
        }
        let grapheme = self.string.substring_char(0, 1);
        self.string = self.string.substring_char(1, n);
        proof {
            assert(grapheme@ =~= seq![old(self).rest()[0]]);
            assert(self.string@ =~= old(self).rest().drop_first());
        }
        Some(grapheme)
    }

    pub fn next_back(&mut self) -> (r: Option<&'a str>)
        ensures
            old(self).rest().len() == 0 ==> r is None && final(self).rest() == old(self).rest(),
            old(self).rest().len() > 0 ==> (r matches Some(g) && g@ == seq![old(self).rest().last()]
                && final(self).rest() == old(self).rest().drop_last()),
    {
        let n = self.string.unicode_len();
        if n == 0 {
            return None;
        }
        let grapheme = self.string.substring_char(n - 1, n);
        self.string = self.string.substring_char(0, n - 1);
        proof {
            assert(grapheme@ =~= seq![old(self).rest().last()]);
            assert(self.string@ =~= old(self).rest().drop_last());
        }
        Some(grapheme)
    }
}

/// The characters of a string with the byte offset at which each starts.
#[derive(Clone, Debug)]
pub struct GraphemeIndices<'a> {
    graphemes: Graphemes<'a>,
    front: usize,
    back: usize,
}

impl<'a> GraphemeIndices<'a> {
    pub closed spec fn rest(&self) -> Seq<char> {
        self.graphemes.string@
    }

    /// The byte offset of what is left.
    pub closed spec fn front(&self) -> int {
        self.front as int
    }

    pub closed spec fn wf(&self) -> bool {
        self.front + byte_len(self.graphemes.string@) == self.back
    }

    pub fn next(&mut self) -> (r: Option<(usize, &'a str)>)
        requires
            old(self).wf(),
        ensures
            final(self).wf(),
            old(self).rest().len() == 0 ==> r is None && final(self).rest() == old(self).rest(),
            old(self).rest().len() > 0 ==> (r matches Some((i, g)) && i == old(self).front() && g@
                == seq![old(self).rest()[0]] && final(self).rest() == old(self).rest().drop_first()
                && final(self).front() == old(self).front() + byte_len(g@)),
    {
        let ghost s = self.graphemes.string@;
        let grapheme = self.graphemes.next()?;
        proof {
            assert(s =~= grapheme@ + self.graphemes.string@);
            lemma_encode_concat(grapheme@, self.graphemes.string@);
        }
        let index = self.front;
        self.front = self.front + grapheme.len();
        Some((index, grapheme))
    }

    pub fn next_back(&mut self) -> (r: Option<(usize, &'a str)>)
        requires
            old(self).wf(),
        ensures
            final(self).wf(),
            old(self).rest().len() == 0 ==> r is None && final(self).rest() == old(self).rest(),
            old(self).rest().len() > 0 ==> (r matches Some((i, g)) && i == old(self).front()
                + byte_len(final(self).rest()) && g@ == seq![old(self).rest().last()]
                && final(self).rest() == old(self).rest().drop_last() && final(self).front()
                == old(self).front()),
    {
        let ghost s = self.graphemes.string@;
        let grapheme = self.graphemes.next_back()?;
        proof {
            assert(s =~= self.graphemes.string@ + grapheme@);
            lemma_encode_concat(self.graphemes.string@, grapheme@);
        }
        self.back = self.back - grapheme.len();
        Some((self.back, grapheme))
    }
}

/// Which characters of `s` are whitespace.
pub open spec fn whitespace_flags(s: Seq<char>) -> Seq<bool> {
    Seq::new(s.len(), |i: int| unicode_whitespace(s[i]))
}

/// The first index from `k` on at which `flags` changes value, or its length.
pub open spec fn first_change(flags: Seq<bool>, k: int) -> int
    decreases flags.len() - k,
{
    if k < 1 || k >= flags.len() {
        flags.len() as int
    } else if flags[k] != flags[k - 1] {
        k
    } else {
        first_change(flags, k + 1)
    }
}

/// The length of the run of `true` that `flags` starts with, counted from `k`.
pub open spec fn leading_run(flags: Seq<bool>, k: int) -> int
    decreases flags.len() - k,
{
    if 0 <= k < flags.len() && flags[k] {
        leading_run(flags, k + 1)
    } else {
        k
    }
}

/// Where the first run of equal flags ends: the first index past 0 whose flag
/// differs from the one before it, or the length.
pub fn first_boundary(flags: &Vec<bool>) -> (r: usize)
    ensures
        r == first_change(flags@, 1),
        r <= flags@.len(),
{
    let n = flags.len();
    if n == 0 {
        return 0;
    }
    let mut k: usize = 1;
    while k < n && flags[k] == flags[k - 1]
        invariant
            1 <= k <= n == flags@.len(),
            first_change(flags@, k as int) == first_change(flags@, 1),
        decreases n - k,
    {
        k = k + 1;
    }
    k
}

/// How many flags at the start are `true`.
pub fn leading_true(flags: &Vec<bool>) -> (r: usize)
    ensures
        r == leading_run(flags@, 0),
        r <= flags@.len(),
{
    let n = flags.len();
    let mut k: usize = 0;
    while k < n && flags[k]
        invariant
            k <= n == flags@.len(),
            leading_run(flags@, k as int) == leading_run(flags@, 0),
        decreases n - k,
    {
        k = k + 1;
    }
    k
}

/// The whitespace flag of each character of `s`.
fn whitespace_of(s: &str) -> (r: Vec<bool>)
    ensures
        r@ == whitespace_flags(s@),
{
    let n = s.unicode_len();
    let mut flags: Vec<bool> = Vec::new();
    let mut k: usize = 0;
    while k < n
        invariant
            k <= n == s@.len(),
            flags@ == whitespace_flags(s@).subrange(0, k as int),
        decreases n - k,
    {
        flags.push(is_whitespace(s.get_char(k)));
        k = k + 1;
        proof {
            assert(flags@ =~= whitespace_flags(s@).subrange(0, k as int));
        }
    }
    proof {
        assert(whitespace_flags(s@).subrange(0, n as int) =~= whitespace_flags(s@));
    }
    flags
}

/// A string cut into maximal runs of whitespace and of non-whitespace.
#[derive(Clone, Debug)]
pub struct SplitWhitespaceBoundaries<'a> {
    string: &'a str,
}

impl<'a> SplitWhitespaceBoundaries<'a> {
    pub closed spec fn rest(&self) -> Seq<char> {
        self.string@
    }

    pub fn next(&mut self) -> (r: Option<&'a str>)
        ensures
            old(self).rest().len() == 0 ==> r is None && final(self).rest() == old(self).rest(),
            old(self).rest().len() > 0 ==> (r matches Some(piece) && piece@ == old(self).rest().subrange(
                0,
                first_change(whitespace_flags(old(self).rest()), 1),
            ) && final(self).rest() == old(self).rest().subrange(
                first_change(whitespace_flags(old(self).rest()), 1),
                old(self).rest().len() as int,
            )),
    {
        let n = self.string.unicode_len();
        if n == 0 {
            return None;
        }
        let flags = whitespace_of(self.string);
        let k = first_boundary(&flags);
        let piece = self.string.substring_char(0, k);
        self.string = self.string.substring_char(k, n);
        Some(piece)
    }
}

/// Ways to walk a string.
pub trait StrExt {
    spec fn text(&self) -> Seq<char>;

    /// The leading whitespace.
    fn indentation(&self) -> (r: &str)
        ensures
            r@ == self.text().subrange(0, leading_run(whitespace_flags(self.text()), 0)),
    ;

    fn graphemes(&self) -> (r: Graphemes<'_>)
        ensures
            r.rest() == self.text(),
    ;

    fn grapheme_indices(&self) -> (r: GraphemeIndices<'_>)
        ensures
            byte_len(self.text()) <= usize::MAX ==> r.wf(),
            r.rest() == self.text(),
            r.front() == 0,
    ;

    fn split_whitespace_boundaries(&self) -> (r: SplitWhitespaceBoundaries<'_>)
        ensures
            r.rest() == self.text(),
    ;
}

impl StrExt for str {
    open spec fn text(&self) -> Seq<char> {
        self@
    }

    fn indentation(&self) -> (r: &str) {
        let flags = whitespace_of(self);
        let k = leading_true(&flags);
        self.substring_char(0, k)
    }

    fn graphemes(&self) -> (r: Graphemes<'_>) {
        Graphemes { string: self }
    }

    fn grapheme_indices(&self) -> (r: GraphemeIndices<'_>) {
        let back = self.len();
        GraphemeIndices { graphemes: Graphemes { string: self }, front: 0, back }
    }

    fn split_whitespace_boundaries(&self) -> (r: SplitWhitespaceBoundaries<'_>) {
        SplitWhitespaceBoundaries { string: self }
    }
}

} // verus!
