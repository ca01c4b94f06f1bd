//! A source of text lines held in memory.
use vstd::prelude::*;

use crate::text::string_from_chars;
use crate::text::chars_of;

verus! {

/// Number of characters before the first line feed of `s` (all of them if it has none).
pub open spec fn line_end(s: Seq<char>) -> nat
    decreases s.len(),
{
    if s.len() == 0 {
        0
    } else if s[0] == '\n' {
        0
    } else {
        1 + line_end(s.drop_first())
    }
}

/// The first line of `s`, without its terminating `"\n"` or `"\r\n"`.
pub open spec fn first_line(s: Seq<char>) -> Seq<char> {
    let k = line_end(s) as int;
    let raw = s.take(k);
    if k < s.len() && raw.len() > 0 && raw.last() == '\r' {
        raw.drop_last()
    } else {
        raw
    }
}

/// What follows the first line of `s` and its terminator.
pub open spec fn after_first_line(s: Seq<char>) -> Seq<char> {
    let k = line_end(s) as int;
    if k < s.len() {
        s.skip(k + 1)
    } else {
        Seq::empty()
    }
}

/// The first line ends at a line feed, or at the end of the text.
pub proof fn lemma_line_end_bound(s: Seq<char>)
    ensures
        line_end(s) <= s.len(),
        line_end(s) < s.len() ==> s[line_end(s) as int] == '\n',
        forall|i: int| 0 <= i < line_end(s) ==> s[i] != '\n',
    decreases s.len(),
{
    if s.len() > 0 && s[0] != '\n' {
        lemma_line_end_bound(s.drop_first());
        assert forall|i: int| 0 <= i < line_end(s) implies s[i] != '\n' by {
            if i > 0 {
                assert(s[i] == s.drop_first()[i - 1]);
            }
        }
    }
}

/// A line followed by a line feed is read back as it was.
pub proof fn lemma_first_line_of(a: Seq<char>, b: Seq<char>)
    requires
        !a.contains('\n'),
        a.len() == 0 || a.last() != '\r',
    ensures
        first_line(a + seq!['\n'] + b) == a,
        after_first_line(a + seq!['\n'] + b) == b,
    decreases a.len(),
{
    let s = a + seq!['\n'] + b;
    if a.len() == 0 {
        assert(s.drop_first() =~= b);
        assert(s.take(0) =~= a);
        assert(s.skip(1) =~= b);
    } else {
        assert(!a.drop_first().contains('\n')) by {
            if a.drop_first().contains('\n') {
                let k = choose|k: int| 0 <= k < a.drop_first().len() && a.drop_first()[k] == '\n';
                assert(a[k + 1] == '\n');
            }
        }
        assert(a[0] != '\n');
        assert(s.drop_first() =~= a.drop_first() + seq!['\n'] + b);
        lemma_line_end_tail(a.drop_first(), b);
        assert(line_end(s) == a.len());
        assert(s.take(a.len() as int) =~= a);
        assert(s.skip(a.len() as int + 1) =~= b);
    }
}

proof fn lemma_line_end_tail(a: Seq<char>, b: Seq<char>)
    requires
        !a.contains('\n'),
    ensures
        line_end(a + seq!['\n'] + b) == a.len(),
    decreases a.len(),
{
    let s = a + seq!['\n'] + b;
    if a.len() == 0 {
        assert(s[0] == '\n');
    } else {
        assert(a[0] != '\n');
        assert(!a.drop_first().contains('\n')) by {
            if a.drop_first().contains('\n') {
                let k = choose|k: int| 0 <= k < a.drop_first().len() && a.drop_first()[k] == '\n';
                assert(a[k + 1] == '\n');
            }
        }
        assert(s.drop_first() =~= a.drop_first() + seq!['\n'] + b);
        lemma_line_end_tail(a.drop_first(), b);
    }
}

/// Text held in memory, read line by line from the front.
#[derive(Debug)]
pub struct LineReader {
    text: Vec<char>,
    pos: usize,
}

impl View for LineReader {
    type V = Seq<char>;

    /// The text that is still to be read.
    closed spec fn view(&self) -> Seq<char> {
        self.text@.skip(self.pos as int)
    }
}

impl LineReader {
    #[verifier::type_invariant]
    closed spec fn inv(self) -> bool {
        self.pos <= self.text@.len()
    }

    /// A reader over `text`.
    pub fn new(text: &str) -> (r: LineReader)
        ensures
            r@ == text@,
    {
        let text = chars_of(text);
        let r = LineReader { text, pos: 0 };
        assert(r@ =~= text@);
        r
    }

    /// Whether the whole text has been read.
    pub fn is_exhausted(&self) -> (r: bool)
        ensures
            r == (self@.len() == 0),
    {
        proof {
            use_type_invariant(self);
        }
        self.pos == self.text.len()
    }

    /// Reads the next line, without its terminating `"\n"` or `"\r\n"`; `None` at the end of the text.
    pub fn read_line(&mut self) -> (r: Option<String>)
        ensures
            old(self)@.len() == 0 ==> r is None && final(self)@ == old(self)@,
            old(self)@.len() > 0 ==> r is Some && r->0@ == first_line(old(self)@) && final(self)@
                == after_first_line(old(self)@),
    {
        proof {
            use_type_invariant(&*self);
        }
        let n = self.text.len();
        let start = self.pos;
        if start == n {
            return None;
        }
        let ghost s = self.text@.skip(start as int);
        let mut i = start;
        while i < n && self.text[i] != '\n'
            invariant
                start <= i <= n == self.text@.len(),
                s == self.text@.skip(start as int),
                line_end(s) == (i - start) + line_end(self.text@.skip(i as int)),
            decreases n - i,
        {
            assert(self.text@.skip(i as int).drop_first() =~= self.text@.skip(i + 1));
            i = i + 1;
        }
        let ghost rest = self.text@.skip(i as int);
        assert(line_end(rest) == 0);
        let mut end = i;
        if i < n && i > start && self.text[i - 1] == '\r' {
            end = i - 1;
        }
        let line = string_from_chars(vstd::slice::slice_subrange(self.text.as_slice(), start, end));
        assert(line@ =~= first_line(s));
        self.pos = if i < n {
            i + 1
        } else {
            i
        };
        assert(self.text@.skip(self.pos as int) =~= after_first_line(s));
        Some(line)
    }
}

} // verus!
