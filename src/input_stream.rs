//! A cursor over source text that keeps track of line and column.
use vstd::prelude::*;
use crate::text::chars_of;

verus! {

/// Number of newline characters in `s`.
pub open spec fn count_newlines(s: Seq<char>) -> nat
    decreases s.len(),
{
    if s.len() == 0 {
        0
    } else {
        count_newlines(s.drop_last()) + if s.last() == '\n' { 1nat } else { 0nat }
    }
}

/// Column of the position `p` in `s`: the characters since the last newline.
pub open spec fn column_at(s: Seq<char>, p: int) -> nat
    decreases p,
{
    if p <= 0 {
        0
    } else if s[p - 1] == '\n' {
        0
    } else {
        column_at(s, p - 1) + 1
    }
}

/// Whether `s[a..b]` is the line with index `k` of `s` (lines end at `'\n'`).
pub open spec fn is_line_span(s: Seq<char>, k: nat, a: int, b: int) -> bool {
    &&& 0 <= a <= b <= s.len()
    &&& count_newlines(s.take(a)) == k
    &&& (a == 0 || s[a - 1] == '\n')
    &&& forall|i: int| a <= i < b ==> s[i] != '\n'
    &&& (b == s.len() || s[b] == '\n')
}

/// A line's text without a carriage return that ends it.
pub open spec fn without_cr(l: Seq<char>) -> Seq<char> {
    if l.len() > 0 && l.last() == '\r' {
        l.drop_last()
    } else {
        l
    }
}

/// The text of line `k` of `s`, or empty if `s` has no such line.
pub open spec fn line_text(s: Seq<char>, k: nat) -> Seq<char> {
    if exists|a: int, b: int| is_line_span(s, k, a, b) {
        let (a, b) = choose|a: int, b: int| is_line_span(s, k, a, b);
        without_cr(s.subrange(a, b))
    } else {
        Seq::empty()
    }
}

pub struct InputStream {
    pos: usize,
    line: usize,
    col: usize,
    input: Vec<char>,
}

impl InputStream {
    /// The line and column agree with the position.
    pub closed spec fn wf(&self) -> bool {
        &&& self.pos <= self.input@.len()
        &&& self.line == count_newlines(self.input@.take(self.pos as int))
        &&& self.col == column_at(self.input@, self.pos as int)
    }

    /// The whole source text.
    pub closed spec fn text(&self) -> Seq<char> {
        self.input@
    }

    /// Index of the current character.
    pub closed spec fn position(&self) -> nat {
        self.pos as nat
    }

    /// Line of the current position, counted from 0.
    pub closed spec fn line_spec(&self) -> nat {
        self.line as nat
    }

    /// Column of the current position, counted from 0.
    pub closed spec fn col_spec(&self) -> nat {
        self.col as nat
    }

    /// What holds of every well-formed stream: the line and column agree
    /// with the position.
    pub proof fn lemma_wf(&self)
        requires
            self.wf(),
        ensures
            self.position() <= self.text().len(),
            self.line_spec() == count_newlines(self.text().take(self.position() as int)),
            self.col_spec() == column_at(self.text(), self.position() as int),
    {
    }

    proof fn lemma_counts_bounded(s: Seq<char>, p: int)
        requires
            0 <= p <= s.len(),
        ensures
            count_newlines(s.take(p)) <= p,
            column_at(s, p) <= p,
        decreases p,
    {
        if p > 0 {
            Self::lemma_counts_bounded(s, p - 1);
            assert(s.take(p).drop_last() =~= s.take(p - 1));
        }
    }

    pub fn new(input: &String) -> (r: Self)
        ensures
            r.wf(),
            r.text() == input@,
            r.position() == 0,
            r.line_spec() == 0,
            r.col_spec() == 0,
    {
        let chars = chars_of(input.as_str());
        proof {
            assert(chars@.take(0) =~= Seq::<char>::empty());
        }
        InputStream { pos: 0, line: 0, col: 0, input: chars }
    }

    /// A stream over the same text at the same place.
    pub fn copy_state(&self) -> (r: Self)
        ensures
            r.wf() == self.wf(),
            r.text() == self.text(),
            r.position() == self.position(),
            r.line_spec() == self.line_spec(),
            r.col_spec() == self.col_spec(),
    {
        InputStream {
            pos: self.pos,
            line: self.line,
            col: self.col,
            input: crate::text::copy_chars(&self.input),
        }
    }

    /// Consumes the current character and returns it.
    pub fn next(&mut self) -> (c: char)
        requires
            old(self).wf(),
            old(self).position() < old(self).text().len(),
        ensures
            final(self).wf(),
            c == old(self).text()[old(self).position() as int],
            final(self).text() == old(self).text(),
            final(self).position() == old(self).position() + 1,
            c == '\n' ==> final(self).line_spec() == old(self).line_spec() + 1
                && final(self).col_spec() == 0,
            c != '\n' ==> final(self).line_spec() == old(self).line_spec()
                && final(self).col_spec() == old(self).col_spec() + 1,
    {
        proof {
            Self::lemma_counts_bounded(self.input@, self.pos as int);
            assert(self.input@.take(self.pos + 1).drop_last() =~= self.input@.take(self.pos as int));
        }
        let _n = self.input.len();
        let c = self.input[self.pos];
        if c == '\n' {
            self.pos = self.pos + 1;
            self.line = self.line + 1;
            self.col = 0;
        } else {
            self.pos = self.pos + 1;
            self.col = self.col + 1;
        }
        c
    }

    /// The current character, which is not consumed.
    pub fn peek(&self) -> (c: char)
        requires
            self.position() < self.text().len(),
        ensures
            c == self.text()[self.position() as int],
    {
        self.input[self.pos]
    }

    /// Whether every character has been consumed.
    pub fn eof(&self) -> (r: bool)
        requires
            self.wf(),
        ensures
            r == (self.position() >= self.text().len()),
            self.position() <= self.text().len(),
    {
        self.pos >= self.input.len()
    }

    pub fn line(&self) -> (r: usize)
        ensures
            r == self.line_spec(),
    {
        self.line
    }

    pub fn col(&self) -> (r: usize)
        ensures
            r == self.col_spec(),
    {
        self.col
    }

    /// The text of the line that holds the current position.
    pub fn get_current_line(&self) -> (r: Vec<char>)
        requires
            self.wf(),
        ensures
            r@ == line_text(self.text(), self.line_spec()),
    {
        let n = self.input.len();
        let mut seen: usize = 0;
        let mut a: usize = 0;
        // find the start of the line
        while a < n && seen < self.line
            invariant
                a <= n == self.input@.len(),
                seen == count_newlines(self.input@.take(a as int)),
                seen <= self.line,
                a == 0 || self.input@[a - 1] == '\n' || seen < self.line,
            decreases n - a,
        {
            proof {
                assert(self.input@.take(a + 1).drop_last() =~= self.input@.take(a as int));
            }
            if self.input[a] == '\n' {
                seen = seen + 1;
            }
            a = a + 1;
        }
        if seen < self.line {
            proof {
                assert forall|x: int, y: int| !is_line_span(self.input@, self.line as nat, x, y) by {
                    if is_line_span(self.input@, self.line as nat, x, y) {
                        assert(self.input@.take(n as int) =~= self.input@);
                        Self::lemma_count_mono(self.input@, x, a as int);
                    }
                }
            }
            return Vec::new();
        }
        let mut b: usize = a;
        let mut r: Vec<char> = Vec::new();
        while b < n && self.input[b] != '\n'
            invariant
                a <= b <= n == self.input@.len(),
                forall|i: int| a <= i < b ==> self.input@[i] != '\n',
                r@ == self.input@.subrange(a as int, b as int),
            decreases n - b,
        {
            r.push(self.input[b]);
            proof {
                assert(self.input@.subrange(a as int, b + 1) =~= self.input@.subrange(a as int, b as int).push(self.input@[b as int]));
            }
            b = b + 1;
        }
        proof {
            assert(is_line_span(self.input@, self.line as nat, a as int, b as int));
            Self::lemma_line_span_unique(self.input@, self.line as nat, a as int, b as int);
        }
        if r.len() > 0 && r[r.len() - 1] == '\r' {
            r.pop();
        }
        r
    }

    proof fn lemma_line_span_unique(s: Seq<char>, k: nat, a: int, b: int)
        requires
            is_line_span(s, k, a, b),
        ensures
            forall|x: int, y: int| is_line_span(s, k, x, y) ==> x == a && y == b,
    {
        assert forall|x: int, y: int| is_line_span(s, k, x, y) implies x == a && y == b by {
            if x < a {
                Self::lemma_count_mono(s, x, a - 1);
                assert(s.take(a).drop_last() =~= s.take(a - 1));
            } else if a < x {
                Self::lemma_count_mono(s, a, x - 1);
                assert(s.take(x).drop_last() =~= s.take(x - 1));
            }
            if y < b {
                assert(s[y] != '\n');
            } else if b < y {
                assert(s[b] != '\n');
            }
        }
    }

    proof fn lemma_count_mono(s: Seq<char>, i: int, j: int)
        requires
            0 <= i <= j <= s.len(),
        ensures
            count_newlines(s.take(i)) <= count_newlines(s.take(j)),
        decreases j - i,
    {
        if i < j {
            Self::lemma_count_mono(s, i, j - 1);
            assert(s.take(j).drop_last() =~= s.take(j - 1));
        }
    }
}

} // verus!
