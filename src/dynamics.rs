//! The exchange with a solver: for each line of a modification script, one answer of the
//! solver is read and printed, then the line is handed to the solver.
use vstd::prelude::*;

use crate::grammar::AnswerKind;
use crate::grammar::Fault;
use crate::grammar::SolutionError;
use crate::lines::after_first_line;
use crate::lines::first_line;
use crate::lines::lemma_line_end_bound;
use crate::lines::LineReader;
use crate::solutions::answer_step;
use crate::solutions::answer_text;
use crate::solutions::format_answer;
use crate::solutions::next_number;
use crate::solutions::opt_line_view;
use crate::solutions::read_answer;
use crate::solutions::read_answer_from;
use crate::solutions::AnswerParser;
use crate::solutions::Step;
use crate::solutions::StepModel;
use crate::solutions::AnswerModel;
use crate::text::chars_of;
use crate::text::string_from_chars;

verus! {

broadcast use vstd::string::group_string_axioms;

/// What the driver of a session does next.
#[derive(Debug)]
pub enum Action {
    /// Read the next line of the modification script and hand it to `on_script_line`.
    ReadScriptLine,
    /// Read the next line of the solver's output and hand it to `on_child_line`.
    ReadChildLine,
    /// Print `output`, write `to_child` to the solver's input; then, unless `last`, read the
    /// next line of the script.
    Reply { output: String, to_child: String, last: bool },
    /// The solver's answer is malformed: stop.
    Abort(SolutionError),
}

/// Where a session stands.
#[derive(PartialEq, Eq, Structural, Clone, Copy, Debug)]
pub enum Phase {
    /// Waiting for a line of the script.
    Script,
    /// Reading an answer of the solver.
    Answer,
    /// Nothing is left to do.
    Finished,
}

/// The modification that a line of the script asks to forward: none for an empty line or the
/// end of the script.
pub open spec fn pending_of(line: Option<Seq<char>>) -> Option<Seq<char>> {
    match line {
        Some(l) => if l.len() > 0 {
            Some(l)
        } else {
            None
        },
        None => None,
    }
}

/// What is written to the solver once an answer has been read.
pub open spec fn to_child_text(pending: Option<Seq<char>>) -> Seq<char> {
    match pending {
        Some(l) => l + seq!['\n'],
        None => seq!['\n'],
    }
}

/// The decisions of the exchange with a solver, one event at a time.
pub struct Session {
    phase: Phase,
    parser: AnswerParser,
    pending: Option<String>,
}

impl Session {
    /// The kind of the answers.
    pub closed spec fn kind(&self) -> AnswerKind {
        self.parser.kind()
    }

    /// Where the session stands.
    pub closed spec fn phase(&self) -> Phase {
        self.phase
    }

    /// The script line to forward once the current answer is read.
    pub closed spec fn pending(&self) -> Option<Seq<char>> {
        match self.pending {
            Some(l) => Some(l@),
            None => None,
        }
    }

    /// The reading of the current answer.
    pub closed spec fn parser(&self) -> AnswerParser {
        self.parser
    }

    /// A session for answers of kind `kind`, waiting for the first line of the script.
    pub fn new(kind: AnswerKind) -> (r: Session)
        ensures
            r.kind() == kind,
            r.phase() == Phase::Script,
    {
        Session { phase: Phase::Script, parser: AnswerParser::new(kind), pending: None }
    }

    /// Where the session stands.
    pub fn current_phase(&self) -> (r: Phase)
        ensures
            r == self.phase(),
    {
        self.phase
    }

    /// The first action: read a line of the script.
    pub fn start(&self) -> (r: Action)
        ensures
            r is ReadScriptLine,
    {
        Action::ReadScriptLine
    }

    /// Takes the next line of the script (`None` at its end): an answer is read next.
    pub fn on_script_line(&mut self, line: Option<&str>) -> (r: Action)
        requires
            old(self).phase() == Phase::Script,
        ensures
            r is ReadChildLine,
            final(self).phase() == Phase::Answer,
            final(self).kind() == old(self).kind(),
            final(self).pending() == pending_of(opt_line_view(line)),
            final(self).parser().kind() == old(self).kind(),
            final(self).parser().opened() is None,
            final(self).parser().lines_read() == 0,
    {
        self.pending = match line {
            Some(l) => {
                let v = chars_of(l);
                if v.len() > 0 {
                    Some(string_from_chars(v.as_slice()))
                } else {
                    None
                }
            },
            None => None,
        };
        self.parser = AnswerParser::new(self.parser.answer_kind());
        self.phase = Phase::Answer;
        Action::ReadChildLine
    }

    /// Takes the next line of the solver's output (`None` at its end).
    pub fn on_child_line(&mut self, line: Option<&str>) -> (r: Action)
        requires
            old(self).phase() == Phase::Answer,
        ensures
            final(self).kind() == old(self).kind(),
            match answer_step(
                old(self).kind(),
                old(self).parser().opened(),
                next_number(old(self).parser().lines_read()),
                opt_line_view(line),
            ) {
                StepModel::NeedLine(o) => {
                    &&& r is ReadChildLine
                    &&& final(self).phase() == Phase::Answer
                    &&& final(self).pending() == old(self).pending()
                    &&& final(self).parser().kind() == old(self).kind()
                    &&& final(self).parser().opened() == o
                    &&& final(self).parser().lines_read() == next_number(
                        old(self).parser().lines_read(),
                    )
                },
                StepModel::Done(a) => {
                    &&& r is Reply
                    &&& r->Reply_output@ == answer_text(a)
                    &&& r->Reply_to_child@ == to_child_text(old(self).pending())
                    &&& r->Reply_last == old(self).pending() is None
                    &&& final(self).phase() == if old(self).pending() is None {
                        Phase::Finished
                    } else {
                        Phase::Script
                    }
                },
                StepModel::Failed(f) => {
                    &&& r is Abort
                    &&& r->Abort_0@ == f
                    &&& final(self).phase() == Phase::Finished
                },
            },
    {
        proof {
            reveal_strlit("\n");
        }
        match self.parser.feed(line) {
            Step::NeedLine => Action::ReadChildLine,
            Step::Done(a) => {
                let output = format_answer(&a);
                let last = self.pending.is_none();
                let to_child = match self.pending.take() {
                    Some(l) => {
                        let mut t = l;
                        t.append("\n");
                        t
                    },
                    None => "\n".to_string(),
                };
                self.phase = if last {
                    Phase::Finished
                } else {
                    Phase::Script
                };
                Action::Reply { output, to_child, last }
            },
            Step::Failed(e) => {
                self.phase = Phase::Finished;
                Action::Abort(e)
            },
        }
    }
}

/// What an exchange sends to the solver and prints, and how it ends.
pub struct Transcript {
    pub to_child: Seq<char>,
    pub output: Seq<char>,
    pub result: Result<(), Fault>,
}

/// The exchange for a modification script `script` and a solver output `child`: an answer is
/// read for each line of the script up to its end or its first empty line, and one more; each
/// answer is printed, then its line (or, after the last answer, an empty line) is written to
/// the solver.
pub open spec fn exchange(kind: AnswerKind, script: Seq<char>, child: Seq<char>) -> Transcript
    decreases script.len(),
    via exchange_decreases
{
    let line = if script.len() == 0 {
        None
    } else {
        Some(first_line(script))
    };
    let pending = pending_of(line);
    let (answer, rest) = read_answer_from(kind, child);
    match answer {
        Err(f) => Transcript { to_child: Seq::empty(), output: Seq::empty(), result: Err(f) },
        Ok(a) => match pending {
            None => Transcript {
                to_child: to_child_text(pending),
                output: answer_text(a),
                result: Ok(()),
            },
            Some(l) => {
                let next = exchange(kind, after_first_line(script), rest);
                Transcript {
                    to_child: to_child_text(pending) + next.to_child,
                    output: answer_text(a) + next.output,
                    result: next.result,
                }
            },
        },
    }
}

#[via_fn]
proof fn exchange_decreases(kind: AnswerKind, script: Seq<char>, child: Seq<char>) {
    lemma_line_end_bound(script);
}

/// The modifications of a script: its lines, up to its end or its first empty line.
pub open spec fn modifications_of(script: Seq<char>) -> Seq<Seq<char>>
    decreases script.len(),
    via modifications_of_decreases
{
    if script.len() == 0 || first_line(script).len() == 0 {
        Seq::empty()
    } else {
        seq![first_line(script)] + modifications_of(after_first_line(script))
    }
}

#[via_fn]
proof fn modifications_of_decreases(script: Seq<char>) {
    lemma_line_end_bound(script);
}

/// Each modification and a line feed, then an empty line.
pub open spec fn forwarded(modifications: Seq<Seq<char>>) -> Seq<char>
    decreases modifications.len(),
{
    if modifications.len() == 0 {
        seq!['\n']
    } else {
        modifications[0] + seq!['\n'] + forwarded(modifications.drop_first())
    }
}

/// `count` answers read one after the other from the front of `child`.
pub open spec fn answers_in_row(kind: AnswerKind, child: Seq<char>, count: nat) -> Result<
    Seq<AnswerModel>,
    Fault,
>
    decreases count,
{
    if count == 0 {
        Ok(Seq::empty())
    } else {
        let (answer, rest) = read_answer_from(kind, child);
        match answer {
            Err(f) => Err(f),
            Ok(a) => match answers_in_row(kind, rest, (count - 1) as nat) {
                Ok(more) => Ok(seq![a] + more),
                Err(f) => Err(f),
            },
        }
    }
}

/// The written forms of the answers, one after the other.
pub open spec fn answers_text(answers: Seq<AnswerModel>) -> Seq<char>
    decreases answers.len(),
{
    if answers.len() == 0 {
        Seq::empty()
    } else {
        answer_text(answers[0]) + answers_text(answers.drop_first())
    }
}

/// An exchange over a script of `n` modifications reads exactly `n + 1` answers, one before
/// each modification and one after the last; it succeeds exactly when those answers are well
/// formed, and then hands the solver each modification and a final empty line, and prints the
/// answers in order.
pub proof fn lemma_exchange_reads_one_answer_per_modification(
    kind: AnswerKind,
    script: Seq<char>,
    child: Seq<char>,
)
    ensures
        ({
            let t = exchange(kind, script, child);
            let n = modifications_of(script).len();
            &&& (t.result is Ok <==> answers_in_row(kind, child, n + 1) is Ok)
            &&& t.result is Ok ==> {
                &&& t.to_child == forwarded(modifications_of(script))
                &&& t.output == answers_text(answers_in_row(kind, child, n + 1)->Ok_0)
            }
        }),
    decreases script.len(),
{
    lemma_line_end_bound(script);
    let (answer, rest) = read_answer_from(kind, child);
    let mods = modifications_of(script);
    if script.len() == 0 || first_line(script).len() == 0 {
        assert(answers_in_row(kind, rest, 0) == Ok::<Seq<AnswerModel>, Fault>(Seq::empty()));
        if let Ok(a) = answer {
            let xs = seq![a] + Seq::<AnswerModel>::empty();
            assert(xs.drop_first() =~= Seq::<AnswerModel>::empty());
            assert(xs[0] == a);
            assert(answers_text(Seq::<AnswerModel>::empty()) == Seq::<char>::empty());
            assert(answers_text(xs) =~= answer_text(a));
        }
    } else {
        let l = first_line(script);
        let after = after_first_line(script);
        lemma_exchange_reads_one_answer_per_modification(kind, after, rest);
        let n = modifications_of(after).len();
        assert(mods == seq![l] + modifications_of(after));
        assert(mods.len() == n + 1);
        assert(mods[0] == l);
        assert(mods.drop_first() =~= modifications_of(after));
        if let Ok(a) = answer {
            let next = exchange(kind, after, rest);
            if next.result is Ok {
                let more = answers_in_row(kind, rest, n + 1)->Ok_0;
                let xs = seq![a] + more;
                assert(answers_in_row(kind, child, n + 2) == Ok::<Seq<AnswerModel>, Fault>(xs));
                assert(xs.drop_first() =~= more);
                assert(exchange(kind, script, child).to_child =~= forwarded(mods));
            }
        }
    }
}

/// Reads one answer of the solver for `session`, line by line, up to the reply or the abort.
fn read_reply(session: &mut Session, child_stdout: &mut LineReader) -> (r: Action)
    requires
        old(session).phase() == Phase::Answer,
        old(session).parser().opened() is None,
        old(session).parser().lines_read() == 0,
    ensures
        final(session).kind() == old(session).kind(),
        final(child_stdout)@ == read_answer_from(old(session).kind(), old(child_stdout)@).1,
        match read_answer_from(old(session).kind(), old(child_stdout)@).0 {
            Ok(a) => {
                &&& r is Reply
                &&& r->Reply_output@ == answer_text(a)
                &&& r->Reply_to_child@ == to_child_text(old(session).pending())
                &&& r->Reply_last == old(session).pending() is None
                &&& final(session).phase() == if old(session).pending() is None {
                    Phase::Finished
                } else {
                    Phase::Script
                }
            },
            Err(f) => r is Abort && r->Abort_0@ == f,
        },
{
    let ghost kind = session.kind();
    let ghost goal = read_answer_from(kind, child_stdout@);
    loop
        invariant
            session.phase() == Phase::Answer,
            session.kind() == kind,
            session.parser().kind() == kind,
            session.pending() == old(session).pending(),
            kind == old(session).kind(),
            goal == read_answer_from(kind, old(child_stdout)@),
            read_answer(kind, session.parser().opened(), session.parser().lines_read(), child_stdout@)
                == goal,
        decreases child_stdout@.len(),
    {
        proof {
            lemma_line_end_bound(child_stdout@);
        }
        let ghost text = child_stdout@;
        let ghost o = session.parser().opened();
        let ghost n = session.parser().lines_read();
        let child_line = child_stdout.read_line();
        let action = match &child_line {
            Some(l) => session.on_child_line(Some(l.as_str())),
            None => session.on_child_line(None),
        };
        assert(goal == read_answer(kind, o, n, text));
        match action {
            Action::ReadChildLine => {},
            _ => {
                return action;
            },
        }
    }
}

/// Runs the exchange with a solver whose output is `child_stdout` and whose input is
/// `child_stdin`, for the modification script `modifications` and answers of kind `kind`;
/// the answers are printed to `output`.
pub fn execute_dynamics(
    modifications: &mut LineReader,
    kind: AnswerKind,
    child_stdin: &mut String,
    child_stdout: &mut LineReader,
    output: &mut String,
) -> (r: Result<(), SolutionError>)
    ensures
        ({
            let t = exchange(kind, old(modifications)@, old(child_stdout)@);
            &&& final(child_stdin)@ == old(child_stdin)@ + t.to_child
            &&& final(output)@ == old(output)@ + t.output
            &&& match r {
                Ok(()) => t.result is Ok,
                Err(e) => t.result == Err::<(), Fault>(e@),
            }
        }),
{
    let ghost goal = exchange(kind, modifications@, child_stdout@);
    let mut session = Session::new(kind);
    loop
        invariant
            session.phase() == Phase::Script,
            session.kind() == kind,
            goal == exchange(kind, old(modifications)@, old(child_stdout)@),
            ({
                let t = exchange(kind, modifications@, child_stdout@);
                &&& old(child_stdin)@ + goal.to_child == child_stdin@ + t.to_child
                &&& old(output)@ + goal.output == output@ + t.output
                &&& goal.result == t.result
            }),
        decreases modifications@.len(),
    {
        proof {
            lemma_line_end_bound(modifications@);
        }
        let ghost script = modifications@;
        let ghost child = child_stdout@;
        let line = modifications.read_line();
        let _ = match &line {
            Some(l) => session.on_script_line(Some(l.as_str())),
            None => session.on_script_line(None),
        };
        let ghost stdin_before = child_stdin@;
        let ghost output_before = output@;
        let action = read_reply(&mut session, child_stdout);
        match action {
            Action::Reply { output: out, to_child, last } => {
                child_stdin.append(to_child.as_str());
                output.append(out.as_str());
                proof {
                    if !last {
                        let t = exchange(kind, script, child);
                        let next = exchange(kind, modifications@, child_stdout@);
                        assert(t.to_child == to_child@ + next.to_child);
                        assert(t.output == out@ + next.output);
                        assert(child_stdin@ =~= stdin_before + to_child@);
                        assert(stdin_before + t.to_child =~= child_stdin@ + next.to_child);
                        assert(output_before + t.output =~= output@ + next.output);
                    }
                }
                if last {
                    return Ok(());
                }
            },
            Action::Abort(e) => {
                return Err(e);
            },
            _ => {
                return Err(SolutionError::UnterminatedSet);
            },
        }
    }
}

} // verus!
