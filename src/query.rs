//! Queries of the dynamic track: which problem is solved, how the solver is called, and which
//! kind of answer it gives.
use vstd::prelude::*;

use crate::grammar::range_is;
use crate::grammar::AnswerKind;
use crate::text::chars_of;
use crate::text::split_on;
use crate::text::split_ranges;

verus! {

broadcast use vstd::string::group_string_axioms;

/// A query, as plain values.
pub enum QueryModel {
    SE,
    EE,
    CE,
    DC(Seq<char>),
    DS(Seq<char>),
}

/// A query of the dynamic track.
#[derive(Debug)]
pub enum QueryType {
    /// Give one extension.
    SE,
    /// Enumerate all the extensions.
    EE,
    /// Count the extensions.
    CE,
    /// Decide whether the argument is in some extension.
    DC(String),
    /// Decide whether the argument is in every extension.
    DS(String),
}

impl View for QueryType {
    type V = QueryModel;

    open spec fn view(&self) -> QueryModel {
        match self {
            QueryType::SE => QueryModel::SE,
            QueryType::EE => QueryModel::EE,
            QueryType::CE => QueryModel::CE,
            QueryType::DC(a) => QueryModel::DC(a@),
            QueryType::DS(a) => QueryModel::DS(a@),
        }
    }
}

/// Why a problem identifier was refused, as plain values.
pub enum ProblemFault {
    InvalidTrack(Seq<char>),
    UnexpectedArgument(Seq<char>),
    MissingArgument(Seq<char>),
}

/// Why a problem identifier was refused; each holds the identifier.
#[derive(Debug)]
pub enum QueryError {
    /// Not of the form `<task>-<semantics>-D`.
    InvalidTrack(String),
    /// The task takes no argument, and one was given.
    UnexpectedArgument(String),
    /// The task needs an argument, and none was given.
    MissingArgument(String),
}

impl View for QueryError {
    type V = ProblemFault;

    open spec fn view(&self) -> ProblemFault {
        match self {
            QueryError::InvalidTrack(p) => ProblemFault::InvalidTrack(p@),
            QueryError::UnexpectedArgument(p) => ProblemFault::UnexpectedArgument(p@),
            QueryError::MissingArgument(p) => ProblemFault::MissingArgument(p@),
        }
    }
}

/// The message that describes a refused problem identifier.
pub open spec fn problem_fault_message(f: ProblemFault) -> Seq<char> {
    match f {
        ProblemFault::InvalidTrack(p) => "\""@ + p + "\" is not a valid dynamic track"@,
        ProblemFault::UnexpectedArgument(p) => "problem \""@ + p
            + "\" does not require an argument but one is provided"@,
        ProblemFault::MissingArgument(p) => "problem \""@ + p
            + "\" requires an argument, none is provided"@,
    }
}

impl QueryError {
    /// The message that describes the error.
    pub fn message(&self) -> (r: String)
        ensures
            r@ == problem_fault_message(self@),
    {
        let mut out = String::new();
        match self {
            QueryError::InvalidTrack(p) => {
                out.append("\"");
                out.append(p.as_str());
                out.append("\" is not a valid dynamic track");
            },
            QueryError::UnexpectedArgument(p) => {
                out.append("problem \"");
                out.append(p.as_str());
                out.append("\" does not require an argument but one is provided");
            },
            QueryError::MissingArgument(p) => {
                out.append("problem \"");
                out.append(p.as_str());
                out.append("\" requires an argument, none is provided");
            },
        }
        assert(out@ =~= problem_fault_message(self@));
        out
    }
}

/// The semantics of the dynamic track.
pub open spec fn is_semantics(s: Seq<char>) -> bool {
    s == seq!['C', 'O'] || s == seq!['G', 'R'] || s == seq!['P', 'R'] || s == seq!['S', 'T'] || s
        == seq!['S', 'S', 'T'] || s == seq!['S', 'T', 'G'] || s == seq!['I', 'D']
}

/// A task that takes no argument.
pub open spec fn task_without_argument(task: Seq<char>) -> Option<QueryModel> {
    if task == seq!['S', 'E'] {
        Some(QueryModel::SE)
    } else if task == seq!['E', 'E'] {
        Some(QueryModel::EE)
    } else if task == seq!['C', 'E'] {
        Some(QueryModel::CE)
    } else {
        None
    }
}

/// Whether the task decides the acceptance of an argument.
pub open spec fn is_decision_task(task: Seq<char>) -> bool {
    task == seq!['D', 'C'] || task == seq!['D', 'S']
}

/// The query that a problem identifier and an optional argument give.
pub open spec fn query_of(problem: Seq<char>, argument: Option<Seq<char>>) -> Result<
    QueryModel,
    ProblemFault,
> {
    let parts = split_on(problem, '-');
    if parts.len() != 3 || !is_semantics(parts[1]) || parts[2] != seq!['D'] {
        Err(ProblemFault::InvalidTrack(problem))
    } else if task_without_argument(parts[0]) is Some {
        if argument is None {
            Ok(task_without_argument(parts[0])->0)
        } else {
            Err(ProblemFault::UnexpectedArgument(problem))
        }
    } else if is_decision_task(parts[0]) {
        match argument {
            Some(a) => if a.len() > 0 {
                if parts[0] == seq!['D', 'C'] {
                    Ok(QueryModel::DC(a))
                } else {
                    Ok(QueryModel::DS(a))
                }
            } else {
                Err(ProblemFault::MissingArgument(problem))
            },
            None => Err(ProblemFault::MissingArgument(problem)),
        }
    } else {
        Err(ProblemFault::InvalidTrack(problem))
    }
}

/// The argument as plain values.
pub open spec fn opt_str_view(argument: Option<&str>) -> Option<Seq<char>> {
    match argument {
        Some(a) => Some(a@),
        None => None,
    }
}

/// The kind of answer of a query.
pub open spec fn answer_kind_of(q: QueryModel) -> AnswerKind {
    match q {
        QueryModel::SE => AnswerKind::Extension,
        QueryModel::EE => AnswerKind::ExtensionSet,
        QueryModel::CE => AnswerKind::ExtensionCount,
        QueryModel::DC(_) => AnswerKind::AcceptanceStatus,
        QueryModel::DS(_) => AnswerKind::AcceptanceStatus,
    }
}

/// The arguments of the solver's command line.
pub open spec fn command_line(
    q: QueryModel,
    problem: Seq<char>,
    input_file: Seq<char>,
    file_format: Seq<char>,
) -> Seq<Seq<char>> {
    let common = seq![
        seq!['-', 'p'],
        problem,
        seq!['-', 'f'],
        input_file,
        seq!['-', 'f', 'o'],
        file_format,
    ];
    match q {
        QueryModel::DC(a) => common + seq![seq!['-', 'a'], a],
        QueryModel::DS(a) => common + seq![seq!['-', 'a'], a],
        _ => common,
    }
}

impl QueryType {
    /// The query for a problem identifier `<task>-<semantics>-D` and an optional argument.
    pub fn from_problem(problem: &str, argument: Option<&str>) -> (r: Result<QueryType, QueryError>)
        ensures
            match r {
                Ok(q) => query_of(problem@, opt_str_view(argument)) == Ok::<
                    QueryModel,
                    ProblemFault,
                >(q@),
                Err(e) => query_of(problem@, opt_str_view(argument)) == Err::<
                    QueryModel,
                    ProblemFault,
                >(e@),
            },
    {
        proof {
            reveal_strlit("CO");
            reveal_strlit("GR");
            reveal_strlit("PR");
            reveal_strlit("ST");
            reveal_strlit("SST");
            reveal_strlit("STG");
            reveal_strlit("ID");
            reveal_strlit("D");
            reveal_strlit("SE");
            reveal_strlit("EE");
            reveal_strlit("CE");
            reveal_strlit("DC");
            reveal_strlit("DS");
        }
        let v = chars_of(problem);
        assert(v@.subrange(0, v@.len() as int) =~= v@);
        let parts = split_ranges(&v, 0, v.len(), '-');
        let ghost ps = split_on(problem@, '-');
        if parts.len() != 3 {
            return Err(QueryError::InvalidTrack(problem.to_string()));
        }
        let (s0, s1) = parts[1];
        let (d0, d1) = parts[2];
        let (t0, t1) = parts[0];
        assert(parts@[0] == (t0, t1) && parts@[1] == (s0, s1) && parts@[2] == (d0, d1));
        let semantics_ok = range_is(&v, s0, s1, "CO") || range_is(&v, s0, s1, "GR") || range_is(
            &v,
            s0,
            s1,
            "PR",
        ) || range_is(&v, s0, s1, "ST") || range_is(&v, s0, s1, "SST") || range_is(
            &v,
            s0,
            s1,
            "STG",
        ) || range_is(&v, s0, s1, "ID");
        assert("CO"@ =~= seq!['C', 'O'] && "GR"@ =~= seq!['G', 'R'] && "PR"@ =~= seq!['P', 'R']
            && "ST"@ =~= seq!['S', 'T'] && "SST"@ =~= seq!['S', 'S', 'T'] && "STG"@ =~= seq![
            'S',
            'T',
            'G',
        ] && "ID"@ =~= seq!['I', 'D'] && "D"@ =~= seq!['D']);
        assert("SE"@ =~= seq!['S', 'E'] && "EE"@ =~= seq!['E', 'E'] && "CE"@ =~= seq!['C', 'E']
            && "DC"@ =~= seq!['D', 'C'] && "DS"@ =~= seq!['D', 'S']);
        if !semantics_ok || !range_is(&v, d0, d1, "D") {
            return Err(QueryError::InvalidTrack(problem.to_string()));
        }
        let simple = if range_is(&v, t0, t1, "SE") {
            Some(QueryType::SE)
        } else if range_is(&v, t0, t1, "EE") {
            Some(QueryType::EE)
        } else if range_is(&v, t0, t1, "CE") {
            Some(QueryType::CE)
        } else {
            None
        };
        match simple {
            Some(q) => {
                return match argument {
                    None => Ok(q),
                    Some(_) => Err(QueryError::UnexpectedArgument(problem.to_string())),
                };
            },
            None => {},
        }
        let dc = range_is(&v, t0, t1, "DC");
        if !dc && !range_is(&v, t0, t1, "DS") {
            return Err(QueryError::InvalidTrack(problem.to_string()));
        }
        match argument {
            Some(a) => {
                if chars_of(a).len() == 0 {
                    return Err(QueryError::MissingArgument(problem.to_string()));
                }
                if dc {
                    Ok(QueryType::DC(a.to_string()))
                } else {
                    Ok(QueryType::DS(a.to_string()))
                }
            },
            None => Err(QueryError::MissingArgument(problem.to_string())),
        }
    }

    /// The kind of answer that the solver gives to the query.
    pub fn answer_kind(&self) -> (r: AnswerKind)
        ensures
            r == answer_kind_of(self@),
    {
        match self {
            QueryType::SE => AnswerKind::Extension,
            QueryType::EE => AnswerKind::ExtensionSet,
            QueryType::CE => AnswerKind::ExtensionCount,
            QueryType::DC(_) => AnswerKind::AcceptanceStatus,
            QueryType::DS(_) => AnswerKind::AcceptanceStatus,
        }
    }

    /// The arguments of the solver's command line:
    /// `-p <problem> -f <input file> -fo <format>`, then `-a <argument>` for `DC` and `DS`.
    pub fn command_arguments(&self, problem: &str, input_file: &str, file_format: &str) -> (r: Vec<
        String,
    >)
        ensures
            r@.map_values(|s: String| s@) == command_line(
                self@,
                problem@,
                input_file@,
                file_format@,
            ),
    {
        proof {
            reveal_strlit("-p");
            reveal_strlit("-f");
            reveal_strlit("-fo");
            reveal_strlit("-a");
        }
        assert("-p"@ =~= seq!['-', 'p'] && "-f"@ =~= seq!['-', 'f'] && "-fo"@ =~= seq!['-', 'f', 'o']
            && "-a"@ =~= seq!['-', 'a']);
        let mut args: Vec<String> = Vec::new();
        args.push("-p".to_string());
        args.push(problem.to_string());
        args.push("-f".to_string());
        args.push(input_file.to_string());
        args.push("-fo".to_string());
        args.push(file_format.to_string());
        match self {
            QueryType::DC(a) | QueryType::DS(a) => {
                args.push("-a".to_string());
                args.push(a.clone());
            },
            _ => {},
        }
        assert(args@.map_values(|s: String| s@) =~= command_line(
            self@,
            problem@,
            input_file@,
            file_format@,
        ));
        args
    }
}

} // verus!
