//! The text forms of solver answers, line by line: acceptance statuses, extension counts and
//! extensions.
use vstd::prelude::*;

use crate::text::chars_of;
use crate::text::decimal;
use crate::text::decimal_string;
use crate::text::digits_value;
use crate::text::is_digit;
use crate::text::is_digits;
use crate::text::is_label;
use crate::text::is_label_range;
use crate::text::is_whitespace;
use crate::text::is_ws;
use crate::text::parse_digits;
use crate::text::split_on;
use crate::text::split_ranges;
use crate::text::string_from_chars;
use crate::text::trim;
use crate::text::trim_end;
use crate::text::trim_range;

verus! {

broadcast use vstd::string::group_string_axioms;

/// The kind of answer that a query expects.
#[derive(Clone, Copy, PartialEq, Eq, Structural, Debug)]
pub enum AnswerKind {
    /// `YES` or `NO`.
    AcceptanceStatus,
    /// A number of extensions.
    ExtensionCount,
    /// A single extension.
    Extension,
    /// All the extensions.
    ExtensionSet,
}

/// What went wrong while reading an answer, as plain values.
pub enum Fault {
    EndOfInput(AnswerKind),
    NotAcceptanceStatus(Seq<char>),
    NotExtensionCount(Seq<char>),
    CountOverflow(Seq<char>),
    NotExtension(Seq<char>),
    SecondOpening(nat),
    MissingOpening(nat),
    InvalidSetMember(nat, Seq<char>),
    UnterminatedSet,
}

/// What went wrong while reading an answer.
#[derive(Debug)]
pub enum SolutionError {
    /// The input ended before the answer was read.
    EndOfInput(AnswerKind),
    /// The line (or its only word) is neither `YES` nor `NO`.
    NotAcceptanceStatus(String),
    /// The line is not a number.
    NotExtensionCount(String),
    /// The number does not fit in `usize`.
    CountOverflow(String),
    /// The line is not an extension.
    NotExtension(String),
    /// A set was opened twice, at this line.
    SecondOpening(usize),
    /// This line came before the set was opened.
    MissingOpening(usize),
    /// This line of a set is not an extension.
    InvalidSetMember(usize, String),
    /// The input ended before the set was closed.
    UnterminatedSet,
}

impl View for SolutionError {
    type V = Fault;

    open spec fn view(&self) -> Fault {
        match self {
            SolutionError::EndOfInput(k) => Fault::EndOfInput(*k),
            SolutionError::NotAcceptanceStatus(s) => Fault::NotAcceptanceStatus(s@),
            SolutionError::NotExtensionCount(s) => Fault::NotExtensionCount(s@),
            SolutionError::CountOverflow(s) => Fault::CountOverflow(s@),
            SolutionError::NotExtension(s) => Fault::NotExtension(s@),
            SolutionError::SecondOpening(n) => Fault::SecondOpening(*n as nat),
            SolutionError::MissingOpening(n) => Fault::MissingOpening(*n as nat),
            SolutionError::InvalidSetMember(n, s) => Fault::InvalidSetMember(*n as nat, s@),
            SolutionError::UnterminatedSet => Fault::UnterminatedSet,
        }
    }
}

/// `text` between double quotes.
pub open spec fn quoted(text: Seq<char>) -> Seq<char> {
    "\""@ + text + "\""@
}

/// `" (line <n>)"`.
pub open spec fn at_line(n: nat) -> Seq<char> {
    " (line "@ + decimal(n) + ")"@
}

/// The message that describes a fault.
pub open spec fn fault_message(f: Fault) -> Seq<char> {
    match f {
        Fault::EndOfInput(k) => match k {
            AnswerKind::AcceptanceStatus => "read EOF while parsing an acceptance status"@,
            AnswerKind::ExtensionCount => "read EOF while parsing an extension count"@,
            AnswerKind::Extension => "read EOF while parsing an extension line"@,
            AnswerKind::ExtensionSet => "unterminated extension set"@,
        },
        Fault::NotAcceptanceStatus(s) => "expected an acceptance status, found "@ + quoted(s),
        Fault::NotExtensionCount(s) => "expected an extension count, found "@ + quoted(s),
        Fault::CountOverflow(s) => "extension count out of range, found "@ + quoted(s),
        Fault::NotExtension(s) => "expected an extension line, found "@ + quoted(s),
        Fault::SecondOpening(n) => "unexpected second extension beginning pattern"@ + at_line(n),
        Fault::MissingOpening(n) => "expected an extension beginning pattern"@ + at_line(n),
        Fault::InvalidSetMember(n, s) => "expected an extension line, found "@ + quoted(s)
            + at_line(n),
        Fault::UnterminatedSet => "unterminated extension set"@,
    }
}

fn push_quoted(out: &mut String, text: &String)
    ensures
        final(out)@ == old(out)@ + quoted(text@),
{
    out.append("\"");
    out.append(text.as_str());
    out.append("\"");
    assert(final(out)@ =~= old(out)@ + quoted(text@));
}

fn push_at_line(out: &mut String, n: usize)
    ensures
        final(out)@ == old(out)@ + at_line(n as nat),
{
    out.append(" (line ");
    out.append(decimal_string(n).as_str());
    out.append(")");
    assert(final(out)@ =~= old(out)@ + at_line(n as nat));
}

impl SolutionError {
    /// The message that describes the error.
    pub fn message(&self) -> (r: String)
        ensures
            r@ == fault_message(self@),
    {
        let mut out = String::new();
        match self {
            SolutionError::EndOfInput(k) => match k {
                AnswerKind::AcceptanceStatus => out.append(
                    "read EOF while parsing an acceptance status",
                ),
                AnswerKind::ExtensionCount => out.append(
                    "read EOF while parsing an extension count",
                ),
                AnswerKind::Extension => out.append("read EOF while parsing an extension line"),
                AnswerKind::ExtensionSet => out.append("unterminated extension set"),
            },
            SolutionError::NotAcceptanceStatus(s) => {
                out.append("expected an acceptance status, found ");
                push_quoted(&mut out, s);
            },
            SolutionError::NotExtensionCount(s) => {
                out.append("expected an extension count, found ");
                push_quoted(&mut out, s);
            },
            SolutionError::CountOverflow(s) => {
                out.append("extension count out of range, found ");
                push_quoted(&mut out, s);
            },
            SolutionError::NotExtension(s) => {
                out.append("expected an extension line, found ");
                push_quoted(&mut out, s);
            },
            SolutionError::SecondOpening(n) => {
                out.append("unexpected second extension beginning pattern");
                push_at_line(&mut out, *n);
            },
            SolutionError::MissingOpening(n) => {
                out.append("expected an extension beginning pattern");
                push_at_line(&mut out, *n);
            },
            SolutionError::InvalidSetMember(n, s) => {
                out.append("expected an extension line, found ");
                push_quoted(&mut out, s);
                push_at_line(&mut out, *n);
            },
            SolutionError::UnterminatedSet => out.append("unterminated extension set"),
        }
        assert(out@ =~= fault_message(self@));
        out
    }
}

/// The word `YES`.
pub open spec fn yes() -> Seq<char> {
    seq!['Y', 'E', 'S']
}

/// The word `NO`.
pub open spec fn no() -> Seq<char> {
    seq!['N', 'O']
}

/// `YES` and `NO` are accepted with or without a carriage return after them, and nothing else
/// is: an accepted line is one of them once trimmed.
pub proof fn lemma_acceptance_status_forms(line: Seq<char>)
    ensures
        status_of(yes()) == Ok::<bool, Fault>(true),
        status_of(yes() + seq!['\r']) == Ok::<bool, Fault>(true),
        status_of(no()) == Ok::<bool, Fault>(false),
        status_of(no() + seq!['\r']) == Ok::<bool, Fault>(false),
        status_of(line) is Ok <==> (trim(line) == yes() || trim(line) == no()),
{
    assert((yes() + seq!['\r']).drop_last() =~= yes());
    assert((no() + seq!['\r']).drop_last() =~= no());
    assert(trim_end(yes() + seq!['\r']) == trim_end(yes()));
    assert(trim_end(no() + seq!['\r']) == trim_end(no()));
}

/// Whether `s` holds no white space.
pub open spec fn is_word(s: Seq<char>) -> bool {
    s.len() > 0 && forall|i: int| 0 <= i < s.len() ==> !is_ws(#[trigger] s[i])
}

/// The acceptance status that a line gives: `YES` or `NO`, with white space around it.
pub open spec fn status_of(line: Seq<char>) -> Result<bool, Fault> {
    let t = trim(line);
    if t == yes() {
        Ok(true)
    } else if t == no() {
        Ok(false)
    } else if is_word(t) {
        Err(Fault::NotAcceptanceStatus(t))
    } else {
        Err(Fault::NotAcceptanceStatus(line))
    }
}

/// The extension count that a line gives: decimal digits, with white space around them.
pub open spec fn count_of(line: Seq<char>) -> Result<usize, Fault> {
    let t = trim(line);
    if !is_digits(t) {
        Err(Fault::NotExtensionCount(line))
    } else if digits_value(t) > usize::MAX {
        Err(Fault::CountOverflow(t))
    } else {
        Ok(digits_value(t) as usize)
    }
}

/// The labels between the brackets of a trimmed extension line, if they are labels separated
/// by commas.
pub open spec fn bracket_labels(t: Seq<char>) -> Option<Seq<Seq<char>>> {
    let middle = t.subrange(1, t.len() - 1);
    if trim(middle).len() == 0 {
        Some(Seq::empty())
    } else {
        let pieces = split_on(middle, ',');
        if forall|j: int| 0 <= j < pieces.len() ==> is_label(trim(#[trigger] pieces[j])) {
            Some(pieces.map_values(|p: Seq<char>| trim(p)))
        } else {
            None
        }
    }
}

/// Whether a trimmed line is framed by a pair of brackets.
pub open spec fn is_bracketed(t: Seq<char>) -> bool {
    t.len() >= 2 && t[0] == '[' && t.last() == ']'
}

/// The extension that a line gives: `[`, labels separated by commas, `]`, with white space
/// anywhere between them.
pub open spec fn extension_of(line: Seq<char>) -> Result<Seq<Seq<char>>, Fault> {
    let t = trim(line);
    if is_bracketed(t) && bracket_labels(t) is Some {
        Ok(bracket_labels(t)->0)
    } else {
        Err(Fault::NotExtension(line))
    }
}

/// Whether `v[lo..hi]` holds exactly the characters of `lit`.
pub fn range_is(v: &Vec<char>, lo: usize, hi: usize, lit: &str) -> (r: bool)
    requires
        lo <= hi <= v@.len(),
    ensures
        r == (v@.subrange(lo as int, hi as int) == lit@),
{
    let w = chars_of(lit);
    if hi - lo != w.len() {
        return false;
    }
    let mut i: usize = 0;
    while i < w.len()
        invariant
            w@ == lit@,
            hi - lo == w@.len(),
            lo <= hi <= v@.len(),
            i <= w@.len(),
            forall|k: int| 0 <= k < i ==> v@[lo + k] == w@[k],
        decreases w@.len() - i,
    {
        if v[lo + i] != w[i] {
            assert(v@.subrange(lo as int, hi as int)[i as int] == v@[lo + i]);
            assert(v@.subrange(lo as int, hi as int)[i as int] != w@[i as int]);
            return false;
        }
        i = i + 1;
    }
    assert(v@.subrange(lo as int, hi as int) =~= w@);
    true
}

/// Whether `v[lo..hi]` holds no white space.
fn range_is_word(v: &Vec<char>, lo: usize, hi: usize) -> (r: bool)
    requires
        lo <= hi <= v@.len(),
    ensures
        r == is_word(v@.subrange(lo as int, hi as int)),
{
    if lo == hi {
        return false;
    }
    let mut i = lo;
    while i < hi
        invariant
            lo <= i <= hi <= v@.len(),
            forall|k: int| lo <= k < i ==> !is_ws(#[trigger] v@[k]),
        decreases hi - i,
    {
        if is_whitespace(v[i]) {
            assert(is_ws(v@.subrange(lo as int, hi as int)[i - lo]));
            return false;
        }
        i = i + 1;
    }
    assert forall|k: int| 0 <= k < hi - lo implies !is_ws(
        #[trigger] v@.subrange(lo as int, hi as int)[k],
    ) by {
        assert(v@.subrange(lo as int, hi as int)[k] == v@[lo + k]);
    }
    true
}

fn string_of_range(v: &Vec<char>, lo: usize, hi: usize) -> (r: String)
    requires
        lo <= hi <= v@.len(),
    ensures
        r@ == v@.subrange(lo as int, hi as int),
{
    string_from_chars(vstd::slice::slice_subrange(v.as_slice(), lo, hi))
}

/// Reads an acceptance status from one line.
pub fn parse_acceptance_status(line: &str) -> (r: Result<bool, SolutionError>)
    ensures
        match r {
            Ok(b) => status_of(line@) == Ok::<bool, Fault>(b),
            Err(e) => status_of(line@) == Err::<bool, Fault>(e@),
        },
{
    let v = chars_of(line);
    let (a, b) = trim_range(&v, 0, v.len());
    assert(v@.subrange(0, v@.len() as int) =~= v@);
    proof {
        reveal_strlit("YES");
        reveal_strlit("NO");
    }
    assert("YES"@ =~= yes());
    assert("NO"@ =~= no());
    if range_is(&v, a, b, "YES") {
        Ok(true)
    } else if range_is(&v, a, b, "NO") {
        Ok(false)
    } else if range_is_word(&v, a, b) {
        Err(SolutionError::NotAcceptanceStatus(string_of_range(&v, a, b)))
    } else {
        Err(SolutionError::NotAcceptanceStatus(line.to_string()))
    }
}

/// Reads an extension count from one line.
pub fn parse_extension_count(line: &str) -> (r: Result<usize, SolutionError>)
    ensures
        match r {
            Ok(n) => count_of(line@) == Ok::<usize, Fault>(n),
            Err(e) => count_of(line@) == Err::<usize, Fault>(e@),
        },
{
    let v = chars_of(line);
    let (a, b) = trim_range(&v, 0, v.len());
    assert(v@.subrange(0, v@.len() as int) =~= v@);
    let ghost t = v@.subrange(a as int, b as int);
    assert(t == trim(line@));
    if a == b {
        let r = SolutionError::NotExtensionCount(line.to_string());
        assert(!is_digits(t));
        return Err(r);
    }
    let mut i = a;
    while i < b
        invariant
            a <= i <= b <= v@.len(),
            t == v@.subrange(a as int, b as int),
            t == trim(line@),
            forall|k: int| a <= k < i ==> is_digit(#[trigger] v@[k]),
        decreases b - i,
    {
        if !('0' <= v[i] && v[i] <= '9') {
            assert(!is_digit(t[i - a]));
            return Err(SolutionError::NotExtensionCount(line.to_string()));
        }
        i = i + 1;
    }
    assert(is_digits(t)) by {
        assert forall|k: int| 0 <= k < t.len() implies #[trigger] is_digit(t[k]) by {
            assert(t[k] == v@[a + k]);
        }
    }
    match parse_digits(&v, a, b) {
        Some(n) => Ok(n),
        None => Err(SolutionError::CountOverflow(string_of_range(&v, a, b))),
    }
}

/// The labels of the extension on one line, if it is one.
pub fn extension_labels(v: &Vec<char>) -> (r: Option<Vec<String>>)
    ensures
        match r {
            Some(ls) => extension_of(v@) == Ok::<Seq<Seq<char>>, Fault>(
                ls@.map_values(|l: String| l@),
            ),
            None => extension_of(v@) is Err,
        },
{
    let (a, b) = trim_range(v, 0, v.len());
    assert(v@.subrange(0, v@.len() as int) =~= v@);
    let ghost t = v@.subrange(a as int, b as int);
    assert(t == trim(v@));
    if b - a < 2 || v[a] != '[' || v[b - 1] != ']' {
        return None;
    }
    let ghost middle = t.subrange(1, t.len() - 1);
    assert(middle =~= v@.subrange(a + 1, b - 1));
    let (c, d) = trim_range(v, a + 1, b - 1);
    let mut out: Vec<String> = Vec::new();
    if c == d {
        assert(out@.map_values(|l: String| l@) =~= Seq::<Seq<char>>::empty());
        return Some(out);
    }
    let pieces = split_ranges(v, a + 1, b - 1, ',');
    let ghost ps = split_on(middle, ',');
    let mut j: usize = 0;
    while j < pieces.len()
        invariant
            j <= pieces@.len() == ps.len(),
            a + 1 <= b - 1,
            b <= v@.len(),
            t == trim(v@),
            is_bracketed(t),
            middle == t.subrange(1, t.len() - 1),
            trim(middle).len() > 0,
            ps == split_on(middle, ','),
            middle == v@.subrange(a + 1, b - 1),
            out@.len() == j,
            forall|k: int|
                0 <= k < pieces@.len() ==> {
                    &&& a + 1 <= (#[trigger] pieces@[k]).0 <= pieces@[k].1 <= b - 1
                    &&& v@.subrange(pieces@[k].0 as int, pieces@[k].1 as int) == ps[k]
                },
            forall|k: int| 0 <= k < j ==> is_label(trim(#[trigger] ps[k])),
            forall|k: int| 0 <= k < j ==> (#[trigger] out@[k])@ == trim(ps[k]),
        decreases pieces@.len() - j,
    {
        let (p, q) = pieces[j];
        assert(pieces@[j as int] == (p, q));
        let (x, y) = trim_range(v, p, q);
        if !is_label_range(v, x, y) {
            assert(!is_label(trim(ps[j as int])));
            return None;
        }
        out.push(string_of_range(v, x, y));
        j = j + 1;
    }
    assert(out@.map_values(|l: String| l@) =~= ps.map_values(|p: Seq<char>| trim(p)));
    Some(out)
}

} // verus!
