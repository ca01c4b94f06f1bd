//! Reading and writing the answers of argumentation solvers.
use vstd::prelude::*;

use crate::arguments::ArgumentSet;
use crate::grammar::count_of;
use crate::grammar::extension_labels;
use crate::grammar::extension_of;
use crate::grammar::is_bracketed;
use crate::grammar::no;
use crate::grammar::parse_acceptance_status;
use crate::grammar::parse_extension_count;
use crate::grammar::status_of;
use crate::grammar::yes;
use crate::grammar::AnswerKind;
use crate::grammar::Fault;
use crate::grammar::SolutionError;
use crate::lines::after_first_line;
use crate::lines::first_line;
use crate::lines::lemma_line_end_bound;
use crate::lines::LineReader;
use crate::text::chars_of;
use crate::text::decimal;
use crate::text::decimal_string;
use crate::text::trim;
use crate::text::trim_range;

verus! {

broadcast use vstd::string::group_string_axioms;

/// A parsed answer, as plain values.
pub enum AnswerModel {
    Status(bool),
    Count(usize),
    Extension(Seq<Seq<char>>),
    Extensions(Seq<Seq<Seq<char>>>),
}

/// A parsed answer.
#[derive(Debug)]
pub enum Answer {
    /// An acceptance status.
    Status(bool),
    /// An extension count.
    Count(usize),
    /// One extension.
    Extension(ArgumentSet),
    /// A set of extensions.
    Extensions(Vec<ArgumentSet>),
}

/// The labels of each extension of `v`.
pub open spec fn extensions_view(v: Seq<ArgumentSet>) -> Seq<Seq<Seq<char>>> {
    v.map_values(|e: ArgumentSet| e@)
}

impl View for Answer {
    type V = AnswerModel;

    open spec fn view(&self) -> AnswerModel {
        match self {
            Answer::Status(b) => AnswerModel::Status(*b),
            Answer::Count(n) => AnswerModel::Count(*n),
            Answer::Extension(e) => AnswerModel::Extension(e@),
            Answer::Extensions(v) => AnswerModel::Extensions(extensions_view(v@)),
        }
    }
}

/// Whether a line is `[]`, with white space anywhere.
pub open spec fn is_empty_pair_line(line: Seq<char>) -> bool {
    let t = trim(line);
    is_bracketed(t) && trim(t.subrange(1, t.len() - 1)).len() == 0
}

/// Whether a line is `[` alone, with white space around it.
pub open spec fn is_open_line(line: Seq<char>) -> bool {
    trim(line) == seq!['[']
}

/// Whether a line is `]` alone, with white space around it.
pub open spec fn is_close_line(line: Seq<char>) -> bool {
    trim(line) == seq![']']
}

/// Where a reading stands after one line or the end of the input.
pub enum StepModel {
    /// Another line is needed; the extensions of the set read so far, once it is opened.
    NeedLine(Option<Seq<Seq<Seq<char>>>>),
    Done(AnswerModel),
    Failed(Fault),
}

/// One line (the `number`-th, counting from 1) of a set of extensions.
pub open spec fn set_step(opened: Option<Seq<Seq<Seq<char>>>>, line: Seq<char>, number: nat) -> StepModel {
    if is_empty_pair_line(line) && opened is None {
        StepModel::Done(AnswerModel::Extensions(Seq::empty()))
    } else if is_open_line(line) {
        if opened is Some {
            StepModel::Failed(Fault::SecondOpening(number))
        } else {
            StepModel::NeedLine(Some(Seq::empty()))
        }
    } else if opened is None {
        StepModel::Failed(Fault::MissingOpening(number))
    } else if is_close_line(line) {
        StepModel::Done(AnswerModel::Extensions(opened->0))
    } else {
        match extension_of(line) {
            Ok(e) => StepModel::NeedLine(Some(opened->0.push(e))),
            Err(_) => StepModel::Failed(Fault::InvalidSetMember(number, line)),
        }
    }
}

/// One line of an answer of kind `kind` (`None`: the end of the input).
pub open spec fn answer_step(
    kind: AnswerKind,
    opened: Option<Seq<Seq<Seq<char>>>>,
    number: nat,
    line: Option<Seq<char>>,
) -> StepModel {
    match line {
        None => match kind {
            AnswerKind::ExtensionSet => StepModel::Failed(Fault::UnterminatedSet),
            _ => StepModel::Failed(Fault::EndOfInput(kind)),
        },
        Some(l) => match kind {
            AnswerKind::AcceptanceStatus => match status_of(l) {
                Ok(b) => StepModel::Done(AnswerModel::Status(b)),
                Err(f) => StepModel::Failed(f),
            },
            AnswerKind::ExtensionCount => match count_of(l) {
                Ok(n) => StepModel::Done(AnswerModel::Count(n)),
                Err(f) => StepModel::Failed(f),
            },
            AnswerKind::Extension => match extension_of(l) {
                Ok(e) => StepModel::Done(AnswerModel::Extension(e)),
                Err(f) => StepModel::Failed(f),
            },
            AnswerKind::ExtensionSet => set_step(opened, l, number),
        },
    }
}

/// The number of the line after line `n` (it stays at the largest `usize`).
pub open spec fn next_number(n: nat) -> nat {
    if n < usize::MAX {
        n + 1
    } else {
        n
    }
}

/// Reads the rest of an answer of kind `kind` from `text`, after `read` lines: the answer or the
/// fault, and the text that is left.
pub open spec fn read_answer(
    kind: AnswerKind,
    opened: Option<Seq<Seq<Seq<char>>>>,
    read: nat,
    text: Seq<char>,
) -> (Result<AnswerModel, Fault>, Seq<char>)
    decreases text.len(),
    via read_answer_decreases
{
    let number = next_number(read);
    if text.len() == 0 {
        match answer_step(kind, opened, number, None) {
            StepModel::Done(a) => (Ok(a), text),
            StepModel::Failed(f) => (Err(f), text),
            StepModel::NeedLine(_) => (Err(Fault::UnterminatedSet), text),
        }
    } else {
        let rest = after_first_line(text);
        match answer_step(kind, opened, number, Some(first_line(text))) {
            StepModel::NeedLine(o) => read_answer(kind, o, number, rest),
            StepModel::Done(a) => (Ok(a), rest),
            StepModel::Failed(f) => (Err(f), rest),
        }
    }
}

#[via_fn]
proof fn read_answer_decreases(
    kind: AnswerKind,
    opened: Option<Seq<Seq<Seq<char>>>>,
    read: nat,
    text: Seq<char>,
) {
    lemma_line_end_bound(text);
}

/// Reads a whole answer of kind `kind` from the front of `text`.
pub open spec fn read_answer_from(kind: AnswerKind, text: Seq<char>) -> (
    Result<AnswerModel, Fault>,
    Seq<char>,
) {
    read_answer(kind, None, 0, text)
}

/// The result of a reading as plain values.
pub open spec fn answer_result_view(r: Result<Answer, SolutionError>) -> Result<AnswerModel, Fault> {
    match r {
        Ok(a) => Ok(a@),
        Err(e) => Err(e@),
    }
}

/// Where a reading stands after one line.
#[derive(Debug)]
pub enum Step {
    /// Another line is needed.
    NeedLine,
    /// The answer is complete.
    Done(Answer),
    /// The answer is malformed.
    Failed(SolutionError),
}

/// Reads an answer line by line, as the lines come.
pub struct AnswerParser {
    kind: AnswerKind,
    opened: Option<Vec<ArgumentSet>>,
    lines_read: usize,
}

/// The line as plain values.
pub open spec fn opt_line_view(line: Option<&str>) -> Option<Seq<char>> {
    match line {
        Some(l) => Some(l@),
        None => None,
    }
}

impl AnswerParser {
    /// The kind of answer that is read.
    pub closed spec fn kind(&self) -> AnswerKind {
        self.kind
    }

    /// The extensions read so far, once a set has been opened.
    pub closed spec fn opened(&self) -> Option<Seq<Seq<Seq<char>>>> {
        match self.opened {
            Some(v) => Some(extensions_view(v@)),
            None => None,
        }
    }

    /// The number of lines read so far.
    pub closed spec fn lines_read(&self) -> nat {
        self.lines_read as nat
    }

    /// Returns the kind of answer that is read.
    pub fn answer_kind(&self) -> (r: AnswerKind)
        ensures
            r == self.kind(),
    {
        self.kind
    }

    /// A parser for an answer of kind `kind`, before any line.
    pub fn new(kind: AnswerKind) -> (r: AnswerParser)
        ensures
            r.kind() == kind,
            r.opened() is None,
            r.lines_read() == 0,
    {
        AnswerParser { kind, opened: None, lines_read: 0 }
    }

    /// Takes the next line of the answer, or `None` at the end of the input.
    pub fn feed(&mut self, line: Option<&str>) -> (r: Step)
        ensures
            final(self).kind() == old(self).kind(),
            match answer_step(
                old(self).kind(),
                old(self).opened(),
                next_number(old(self).lines_read()),
                opt_line_view(line),
            ) {
                StepModel::NeedLine(o) => {
                    &&& r is NeedLine
                    &&& final(self).kind() == old(self).kind()
                    &&& final(self).opened() == o
                    &&& final(self).lines_read() == next_number(old(self).lines_read())
                },
                StepModel::Done(a) => r is Done && r->Done_0@ == a,
                StepModel::Failed(f) => r is Failed && r->Failed_0@ == f,
            },
    {
        if self.lines_read < usize::MAX {
            self.lines_read = self.lines_read + 1;
        }
        let number = self.lines_read;
        let l = match line {
            None => {
                return match self.kind {
                    AnswerKind::ExtensionSet => Step::Failed(SolutionError::UnterminatedSet),
                    k => Step::Failed(SolutionError::EndOfInput(k)),
                };
            },
            Some(l) => l,
        };
        match self.kind {
            AnswerKind::AcceptanceStatus => match parse_acceptance_status(l) {
                Ok(b) => Step::Done(Answer::Status(b)),
                Err(e) => Step::Failed(e),
            },
            AnswerKind::ExtensionCount => match parse_extension_count(l) {
                Ok(n) => Step::Done(Answer::Count(n)),
                Err(e) => Step::Failed(e),
            },
            AnswerKind::Extension => match read_extension_line_from_str(l) {
                Ok(e) => Step::Done(Answer::Extension(e)),
                Err(e) => Step::Failed(e),
            },
            AnswerKind::ExtensionSet => self.feed_set(l, number),
        }
    }

    fn feed_set(&mut self, line: &str, number: usize) -> (r: Step)
        requires
            old(self).kind() == AnswerKind::ExtensionSet,
        ensures
            final(self).kind() == old(self).kind(),
            match set_step(old(self).opened(), line@, number as nat) {
                StepModel::NeedLine(o) => {
                    &&& r is NeedLine
                    &&& final(self).kind() == old(self).kind()
                    &&& final(self).opened() == o
                    &&& final(self).lines_read() == old(self).lines_read()
                },
                StepModel::Done(a) => r is Done && r->Done_0@ == a,
                StepModel::Failed(f) => r is Failed && r->Failed_0@ == f,
            },
    {
        let v = chars_of(line);
        let (a, b) = trim_range(&v, 0, v.len());
        assert(v@.subrange(0, v@.len() as int) =~= v@);
        let ghost t = v@.subrange(a as int, b as int);
        assert(t == trim(line@));
        let bracketed = b - a >= 2 && v[a] == '[' && v[b - 1] == ']';
        let mut empty_pair = false;
        if bracketed {
            assert(t.subrange(1, t.len() - 1) =~= v@.subrange(a + 1, b - 1));
            let (c, d) = trim_range(&v, a + 1, b - 1);
            empty_pair = c == d;
        }
        assert(empty_pair == is_empty_pair_line(line@));
        let open = b - a == 1 && v[a] == '[';
        let close = b - a == 1 && v[a] == ']';
        assert(open == is_open_line(line@)) by {
            if b - a == 1 {
                assert(t =~= seq![v@[a as int]]);
                assert(t[0] == v@[a as int]);
            } else {
                assert(t.len() != 1);
            }
        }
        assert(close == is_close_line(line@)) by {
            if b - a == 1 {
                assert(t =~= seq![v@[a as int]]);
                assert(t[0] == v@[a as int]);
            } else {
                assert(t.len() != 1);
            }
        }
        if empty_pair && self.opened.is_none() {
            let r = Step::Done(Answer::Extensions(Vec::new()));
            assert(extensions_view(Seq::<ArgumentSet>::empty()) =~= Seq::empty());
            return r;
        }
        if open {
            if self.opened.is_some() {
                return Step::Failed(SolutionError::SecondOpening(number));
            }
            self.opened = Some(Vec::new());
            assert(self.opened() =~= Some(Seq::empty()));
            return Step::NeedLine;
        }
        let mut exts = match self.opened.take() {
            None => {
                return Step::Failed(SolutionError::MissingOpening(number));
            },
            Some(exts) => exts,
        };
        if close {
            return Step::Done(Answer::Extensions(exts));
        }
        match read_extension_line_from_str(line) {
            Ok(e) => {
                let ghost before = extensions_view(exts@);
                exts.push(e);
                assert(extensions_view(exts@) =~= before.push(e@));
                self.opened = Some(exts);
                Step::NeedLine
            },
            Err(_) => Step::Failed(SolutionError::InvalidSetMember(number, line.to_string())),
        }
    }
}

/// Reads the extension on one line.
pub fn read_extension_line_from_str(line: &str) -> (r: Result<ArgumentSet, SolutionError>)
    ensures
        match r {
            Ok(e) => extension_of(line@) == Ok::<Seq<Seq<char>>, Fault>(e@),
            Err(e) => extension_of(line@) == Err::<Seq<Seq<char>>, Fault>(e@),
        },
{
    let v = chars_of(line);
    match extension_labels(&v) {
        Some(labels) => Ok(ArgumentSet::new(labels)),
        None => Err(SolutionError::NotExtension(line.to_string())),
    }
}

/// A set of extensions is all that reading one can give.
pub proof fn lemma_read_set_gives_extensions(
    opened: Option<Seq<Seq<Seq<char>>>>,
    read: nat,
    text: Seq<char>,
)
    ensures
        read_answer(AnswerKind::ExtensionSet, opened, read, text).0 is Ok ==> read_answer(
            AnswerKind::ExtensionSet,
            opened,
            read,
            text,
        ).0->Ok_0 is Extensions,
    decreases text.len(),
{
    if text.len() > 0 {
        lemma_line_end_bound(text);
        let number = next_number(read);
        match answer_step(AnswerKind::ExtensionSet, opened, number, Some(first_line(text))) {
            StepModel::NeedLine(o) => {
                lemma_read_set_gives_extensions(o, number, after_first_line(text));
            },
            _ => {},
        }
    }
}

/// Reads the rest of an answer from `reader`, going on from where `parser` stands.
fn read_with(start: AnswerParser, reader: &mut LineReader) -> (r: Result<Answer, SolutionError>)
    ensures
        (answer_result_view(r), final(reader)@) == read_answer(
            start.kind(),
            start.opened(),
            start.lines_read(),
            old(reader)@,
        ),
{
    let ghost goal = read_answer(start.kind(), start.opened(), start.lines_read(), reader@);
    let mut parser = start;
    loop
        invariant
            read_answer(parser.kind(), parser.opened(), parser.lines_read(), reader@) == goal,
            goal == read_answer(start.kind(), start.opened(), start.lines_read(), old(reader)@),
        decreases reader@.len(),
    {
        proof {
            lemma_line_end_bound(reader@);
        }
        let ghost text = reader@;
        let ghost k = parser.kind();
        let ghost o = parser.opened();
        let ghost n = parser.lines_read();
        let line = reader.read_line();
        let ghost lv: Option<Seq<char>> = if text.len() == 0 {
            None
        } else {
            Some(first_line(text))
        };
        let step = match &line {
            Some(l) => parser.feed(Some(l.as_str())),
            None => parser.feed(None),
        };
        assert(goal == read_answer(k, o, n, text));
        match step {
            Step::NeedLine => {},
            Step::Done(a) => {
                assert(answer_step(k, o, next_number(n), lv) == StepModel::Done(a@));
                return Ok(a);
            },
            Step::Failed(e) => {
                assert(answer_step(k, o, next_number(n), lv) == StepModel::Failed(e@));
                return Err(e);
            },
        }
    }
}

/// Reads an answer of kind `kind` from `reader`.
pub fn read_answer_of_kind(kind: AnswerKind, reader: &mut LineReader) -> (r: Result<
    Answer,
    SolutionError,
>)
    ensures
        (answer_result_view(r), final(reader)@) == read_answer_from(kind, old(reader)@),
{
    read_with(AnswerParser::new(kind), reader)
}

/// Reads the answer to a `DC` or `DS` query (credulous or skeptical acceptance): a line holding
/// `YES` or `NO`.
pub fn read_acceptance_status(reader: &mut LineReader) -> (r: Result<bool, SolutionError>)
    ensures
        old(reader)@.len() == 0 ==> final(reader)@ == old(reader)@ && r is Err && r->Err_0@
            == Fault::EndOfInput(AnswerKind::AcceptanceStatus),
        old(reader)@.len() > 0 ==> final(reader)@ == after_first_line(old(reader)@) && match r {
            Ok(b) => status_of(first_line(old(reader)@)) == Ok::<bool, Fault>(b),
            Err(e) => status_of(first_line(old(reader)@)) == Err::<bool, Fault>(e@),
        },
{
    match reader.read_line() {
        None => Err(SolutionError::EndOfInput(AnswerKind::AcceptanceStatus)),
        Some(l) => parse_acceptance_status(l.as_str()),
    }
}

/// Reads the answer to a `CE` query (extension count): a line holding a number.
pub fn read_extension_count(reader: &mut LineReader) -> (r: Result<usize, SolutionError>)
    ensures
        old(reader)@.len() == 0 ==> final(reader)@ == old(reader)@ && r is Err && r->Err_0@
            == Fault::EndOfInput(AnswerKind::ExtensionCount),
        old(reader)@.len() > 0 ==> final(reader)@ == after_first_line(old(reader)@) && match r {
            Ok(n) => count_of(first_line(old(reader)@)) == Ok::<usize, Fault>(n),
            Err(e) => count_of(first_line(old(reader)@)) == Err::<usize, Fault>(e@),
        },
{
    match reader.read_line() {
        None => Err(SolutionError::EndOfInput(AnswerKind::ExtensionCount)),
        Some(l) => parse_extension_count(l.as_str()),
    }
}

/// Reads an extension: a line holding labels separated by commas, between square brackets.
pub fn read_extension(reader: &mut LineReader) -> (r: Result<ArgumentSet, SolutionError>)
    ensures
        old(reader)@.len() == 0 ==> final(reader)@ == old(reader)@ && r is Err && r->Err_0@
            == Fault::EndOfInput(AnswerKind::Extension),
        old(reader)@.len() > 0 ==> final(reader)@ == after_first_line(old(reader)@) && match r {
            Ok(e) => extension_of(first_line(old(reader)@)) == Ok::<Seq<Seq<char>>, Fault>(e@),
            Err(e) => extension_of(first_line(old(reader)@)) == Err::<Seq<Seq<char>>, Fault>(e@),
        },
{
    match reader.read_line() {
        None => Err(SolutionError::EndOfInput(AnswerKind::Extension)),
        Some(l) => read_extension_line_from_str(l.as_str()),
    }
}

/// Reads a set of extensions: a line `[`, one extension per line, and a line `]`; or the single
/// line `[]` for the empty set. Nothing of a malformed set is kept.
pub fn read_extension_set(reader: &mut LineReader) -> (r: Result<Vec<ArgumentSet>, SolutionError>)
    ensures
        final(reader)@ == read_answer_from(AnswerKind::ExtensionSet, old(reader)@).1,
        match r {
            Ok(v) => read_answer_from(AnswerKind::ExtensionSet, old(reader)@).0 == Ok::<
                AnswerModel,
                Fault,
            >(AnswerModel::Extensions(extensions_view(v@))),
            Err(e) => read_answer_from(AnswerKind::ExtensionSet, old(reader)@).0 == Err::<
                AnswerModel,
                Fault,
            >(e@),
        },
{
    proof {
        lemma_read_set_gives_extensions(None, 0, reader@);
    }
    match read_answer_of_kind(AnswerKind::ExtensionSet, reader) {
        Ok(Answer::Extensions(v)) => Ok(v),
        Ok(_) => Err(SolutionError::UnterminatedSet),
        Err(e) => Err(e),
    }
}

/// The written form of an acceptance status.
pub open spec fn status_text(status: bool) -> Seq<char> {
    if status {
        yes() + seq!['\n']
    } else {
        no() + seq!['\n']
    }
}

/// The written form of an extension count.
pub open spec fn count_text(count: nat) -> Seq<char> {
    decimal(count) + seq!['\n']
}

/// The labels separated by `", "`.
pub open spec fn join_labels(labels: Seq<Seq<char>>) -> Seq<char>
    decreases labels.len(),
{
    if labels.len() == 0 {
        Seq::empty()
    } else if labels.len() == 1 {
        labels[0]
    } else {
        join_labels(labels.drop_last()) + seq![',', ' '] + labels.last()
    }
}

/// The line of an extension: its labels between square brackets.
pub open spec fn extension_line(labels: Seq<Seq<char>>) -> Seq<char> {
    seq!['['] + join_labels(labels) + seq![']']
}

/// The written form of an extension.
pub open spec fn extension_text(labels: Seq<Seq<char>>) -> Seq<char> {
    extension_line(labels) + seq!['\n']
}

/// The written forms of the extensions, one after the other.
pub open spec fn extensions_text(extensions: Seq<Seq<Seq<char>>>) -> Seq<char>
    decreases extensions.len(),
{
    if extensions.len() == 0 {
        Seq::empty()
    } else {
        extensions_text(extensions.drop_last()) + extension_text(extensions.last())
    }
}

/// The written form of a set of extensions.
pub open spec fn set_text(extensions: Seq<Seq<Seq<char>>>) -> Seq<char> {
    seq!['[', '\n'] + extensions_text(extensions) + seq![']', '\n']
}

/// The written form of an answer.
pub open spec fn answer_text(answer: AnswerModel) -> Seq<char> {
    match answer {
        AnswerModel::Status(b) => status_text(b),
        AnswerModel::Count(n) => count_text(n as nat),
        AnswerModel::Extension(e) => extension_text(e),
        AnswerModel::Extensions(es) => set_text(es),
    }
}

/// Writes an acceptance status: `YES` or `NO`, and a line feed.
pub fn write_acceptance_status(writer: &mut String, status: bool)
    ensures
        final(writer)@ == old(writer)@ + status_text(status),
{
    proof {
        reveal_strlit("YES\n");
        reveal_strlit("NO\n");
    }
    if status {
        writer.append("YES\n");
        assert("YES\n"@ =~= status_text(status));
    } else {
        writer.append("NO\n");
        assert("NO\n"@ =~= status_text(status));
    }
}

/// Writes an extension count in decimal, and a line feed.
pub fn write_extension_count(writer: &mut String, count: usize)
    ensures
        final(writer)@ == old(writer)@ + count_text(count as nat),
{
    let digits = decimal_string(count);
    writer.append(digits.as_str());
    writer.append("\n");
    proof {
        reveal_strlit("\n");
    }
    assert(final(writer)@ =~= old(writer)@ + count_text(count as nat));
}

/// Writes an extension: its labels separated by `", "` between square brackets, and a line feed.
pub fn write_extension(writer: &mut String, extension: &ArgumentSet)
    ensures
        final(writer)@ == old(writer)@ + extension_text(extension@),
{
    proof {
        reveal_strlit("[");
        reveal_strlit(", ");
        reveal_strlit("]\n");
    }
    assert("["@ =~= seq!['[']);
    assert(", "@ =~= seq![',', ' ']);
    let arguments = extension.iter();
    let ghost labels = extension@;
    writer.append("[");
    let mut i: usize = 0;
    while i < arguments.len()
        invariant
            arguments@.len() == labels.len(),
            ", "@ == seq![',', ' '],
            forall|k: int| 0 <= k < arguments@.len() ==> (#[trigger] arguments@[k]).spec_label() == labels[k],
            i <= arguments@.len(),
            writer@ == old(writer)@ + seq!['['] + join_labels(labels.take(i as int)),
        decreases arguments@.len() - i,
    {
        let ghost before = writer@;
        let ghost j = i as int;
        assert(labels.take(j + 1).drop_last() =~= labels.take(j));
        assert(labels.take(j + 1).last() == labels[j]);
        if i > 0 {
            writer.append(", ");
        }
        writer.append(arguments[i].label().as_str());
        proof {
            if j > 0 {
                assert(join_labels(labels.take(j + 1)) == join_labels(labels.take(j)) + seq![',', ' ']
                    + labels[j]);
                assert(writer@ =~= old(writer)@ + seq!['['] + join_labels(labels.take(j + 1)));
            } else {
                assert(join_labels(labels.take(1)) == labels.take(1)[0]);
                assert(writer@ =~= old(writer)@ + seq!['['] + join_labels(labels.take(j + 1)));
            }
        }
        i = i + 1;
    }
    writer.append("]\n");
    assert(labels.take(i as int) =~= labels);
    assert(final(writer)@ =~= old(writer)@ + extension_text(extension@));
}

/// The labels of each extension of `v`.
pub open spec fn extension_refs_view(v: Seq<&ArgumentSet>) -> Seq<Seq<Seq<char>>> {
    v.map_values(|e: &ArgumentSet| e@)
}

/// Writes a set of extensions: a line `[`, each extension on a line of its own, and a line `]`.
pub fn write_extension_set(writer: &mut String, extension_set: &[&ArgumentSet])
    ensures
        final(writer)@ == old(writer)@ + set_text(extension_refs_view(extension_set@)),
{
    proof {
        reveal_strlit("[\n");
        reveal_strlit("]\n");
    }
    let ghost es = extension_refs_view(extension_set@);
    writer.append("[\n");
    let mut i: usize = 0;
    while i < extension_set.len()
        invariant
            es == extension_refs_view(extension_set@),
            i <= extension_set@.len(),
            writer@ == old(writer)@ + seq!['[', '\n'] + extensions_text(es.take(i as int)),
        decreases extension_set@.len() - i,
    {
        assert(es.take(i + 1).drop_last() =~= es.take(i as int));
        write_extension(writer, extension_set[i]);
        i = i + 1;
        assert(writer@ =~= old(writer)@ + seq!['[', '\n'] + extensions_text(es.take(i as int)));
    }
    writer.append("]\n");
    assert(es.take(i as int) =~= es);
    assert(final(writer)@ =~= old(writer)@ + set_text(es));
}

/// The written form of `answer`.
pub fn format_answer(answer: &Answer) -> (r: String)
    ensures
        r@ == answer_text(answer@),
{
    let mut out = String::new();
    match answer {
        Answer::Status(b) => write_acceptance_status(&mut out, *b),
        Answer::Count(n) => write_extension_count(&mut out, *n),
        Answer::Extension(e) => write_extension(&mut out, e),
        Answer::Extensions(v) => {
            let mut refs: Vec<&ArgumentSet> = Vec::new();
            let mut i: usize = 0;
            while i < v.len()
                invariant
                    i <= v@.len(),
                    refs@.len() == i,
                    forall|k: int| 0 <= k < i ==> #[trigger] refs@[k] == &v@[k],
                decreases v@.len() - i,
            {
                refs.push(&v[i]);
                i = i + 1;
            }
            assert(extension_refs_view(refs@) =~= extensions_view(v@));
            write_extension_set(&mut out, refs.as_slice());
        },
    }
    assert(out@ =~= answer_text(answer@));
    out
}

} // verus!
