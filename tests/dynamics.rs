use iccma21_dynamics_wrapper::dynamics::{execute_dynamics, Action, Session};
use iccma21_dynamics_wrapper::{AnswerKind, LineReader, QueryError, QueryType};

fn run(script: &str, query: QueryType, child_output: &str) -> (Result<(), String>, String, String) {
    let mut modifications = LineReader::new(script);
    let mut child_stdout = LineReader::new(child_output);
    let mut child_stdin = String::new();
    let mut output = String::new();
    let r = execute_dynamics(
        &mut modifications,
        query.answer_kind(),
        &mut child_stdin,
        &mut child_stdout,
        &mut output,
    );
    (r.map_err(|e| e.message()), child_stdin, output)
}

#[test]
fn test_execute_dynamics_no_dyn_acceptance_status() {
    let (r, child_stdin, _) = run("", QueryType::DC("a".to_string()), "YES\n");
    r.unwrap();
    assert_eq!("\n", child_stdin);
}

#[test]
fn test_execute_dynamics_one_dyn_acceptance_status() {
    let (r, child_stdin, _) = run("+arg(a).\n", QueryType::DC("a".to_string()), "YES\nNO\n");
    r.unwrap();
    assert_eq!("+arg(a).\n\n", child_stdin);
}

#[test]
fn test_execute_dynamics_two_dyn_acceptance_statuses() {
    let (r, child_stdin, _) = run(
        "+arg(a).\n+arg(a).\n",
        QueryType::DC("a".to_string()),
        "YES\nYES\nNO\n",
    );
    r.unwrap();
    assert_eq!("+arg(a).\n+arg(a).\n\n", child_stdin);
}

#[test]
fn test_execute_dynamics_wrong_answer() {
    let (r, _, _) = run("+arg(a).\n", QueryType::DC("a".to_string()), "foo\n");
    assert!(r.is_err());
}

#[test]
fn one_modification_emits_both_answers() {
    let mut modifications = LineReader::new("+arg(a).\n");
    let mut child_stdout = LineReader::new("YES\nNO\n");
    let mut child_stdin = String::new();
    let mut output = String::new();
    execute_dynamics(
        &mut modifications,
        AnswerKind::AcceptanceStatus,
        &mut child_stdin,
        &mut child_stdout,
        &mut output,
    )
    .unwrap();
    assert_eq!("+arg(a).\n\n", child_stdin);
    assert_eq!("YES\nNO\n", output);
    assert!(child_stdout.is_exhausted());
}

#[test]
fn empty_script_reads_one_answer() {
    let mut modifications = LineReader::new("");
    let mut child_stdout = LineReader::new("NO\nYES\n");
    let mut child_stdin = String::new();
    let mut output = String::new();
    execute_dynamics(
        &mut modifications,
        AnswerKind::AcceptanceStatus,
        &mut child_stdin,
        &mut child_stdout,
        &mut output,
    )
    .unwrap();
    assert_eq!("\n", child_stdin);
    assert_eq!("NO\n", output);
    assert!(!child_stdout.is_exhausted());
}

#[test]
fn empty_line_ends_the_script() {
    let (r, child_stdin, output) = run(
        "+arg(b).\n\n-arg(b).\n",
        QueryType::CE,
        "3\n 4 \n5\n",
    );
    r.unwrap();
    assert_eq!("+arg(b).\n\n", child_stdin);
    assert_eq!("3\n4\n", output);
}

#[test]
fn script_lines_lose_their_carriage_return() {
    let (r, child_stdin, _) = run("+att(a,b).\r\n", QueryType::SE, "[a]\n[]\n");
    r.unwrap();
    assert_eq!("+att(a,b).\n\n", child_stdin);
}

#[test]
fn exchange_of_extension_sets() {
    let (r, child_stdin, output) = run(
        "-arg(c).\n",
        QueryType::EE,
        "[\n[a, b]\n[c]\n]\n[]\n",
    );
    r.unwrap();
    assert_eq!("-arg(c).\n\n", child_stdin);
    assert_eq!("[\n[a, b]\n[c]\n]\n[\n]\n", output);
}

#[test]
fn missing_answer_stops_the_exchange() {
    let (r, child_stdin, output) = run("+arg(a).\n+arg(b).\n", QueryType::SE, "[a]\n");
    assert_eq!(Err("read EOF while parsing an extension line".to_string()), r);
    assert_eq!("+arg(a).\n", child_stdin);
    assert_eq!("[a]\n", output);
}

#[test]
fn session_steps() {
    let mut session = Session::new(AnswerKind::AcceptanceStatus);
    assert!(matches!(session.start(), Action::ReadScriptLine));
    assert!(matches!(session.on_script_line(Some("+arg(a).")), Action::ReadChildLine));
    match session.on_child_line(Some("YES")) {
        Action::Reply { output, to_child, last } => {
            assert_eq!("YES\n", output);
            assert_eq!("+arg(a).\n", to_child);
            assert!(!last);
        }
        _ => panic!("expected a reply"),
    }
    assert!(matches!(session.on_script_line(None), Action::ReadChildLine));
    match session.on_child_line(Some("MAYBE")) {
        Action::Abort(e) => assert_eq!("expected an acceptance status, found \"MAYBE\"", e.message()),
        _ => panic!("expected an abort"),
    }
}

#[test]
fn session_over_several_lines() {
    let mut session = Session::new(AnswerKind::ExtensionSet);
    assert!(matches!(session.on_script_line(Some("")), Action::ReadChildLine));
    assert!(matches!(session.on_child_line(Some("[")), Action::ReadChildLine));
    assert!(matches!(session.on_child_line(Some("[a]")), Action::ReadChildLine));
    match session.on_child_line(Some("]")) {
        Action::Reply { output, to_child, last } => {
            assert_eq!("[\n[a]\n]\n", output);
            assert_eq!("\n", to_child);
            assert!(last);
        }
        _ => panic!("expected a reply"),
    }
}

fn query_error(problem: &str, argument: Option<&str>) -> String {
    match QueryType::from_problem(problem, argument) {
        Err(e) => e.message(),
        Ok(_) => panic!("{} should be refused", problem),
    }
}

#[test]
fn problem_identifier_validation() {
    assert_eq!("\"CO-D\" is not a valid dynamic track", query_error("CO-D", None));
    assert_eq!("\"SE-XX-D\" is not a valid dynamic track", query_error("SE-XX-D", None));
    assert_eq!("\"SE-CO-X\" is not a valid dynamic track", query_error("SE-CO-X", None));
    assert_eq!("\"XX-CO-D\" is not a valid dynamic track", query_error("XX-CO-D", None));
    assert_eq!(
        "problem \"DC-CO-D\" requires an argument, none is provided",
        query_error("DC-CO-D", None)
    );
    assert_eq!(
        "problem \"SE-CO-D\" does not require an argument but one is provided",
        query_error("SE-CO-D", Some("a"))
    );
    match QueryType::from_problem("DC-CO-D", Some("a")) {
        Ok(QueryType::DC(a)) => assert_eq!("a", a),
        _ => panic!("expected a credulous query"),
    }
    assert!(matches!(QueryType::from_problem("DS-STG-D", Some("x")), Ok(QueryType::DS(_))));
    assert!(matches!(QueryType::from_problem("EE-SST-D", None), Ok(QueryType::EE)));
    assert!(matches!(QueryType::from_problem("CE-ID-D", None), Ok(QueryType::CE)));
    assert!(matches!(QueryType::from_problem("SE-GR-D", None), Ok(QueryType::SE)));
    assert!(matches!(
        QueryType::from_problem("SE-CO-D-D", None),
        Err(QueryError::InvalidTrack(_))
    ));
    assert!(matches!(
        QueryType::from_problem("DS-PR-D", Some("")),
        Err(QueryError::MissingArgument(_))
    ));
}

#[test]
fn command_line_of_queries() {
    let args = QueryType::DS("a1".to_string()).command_arguments("DS-PR-D", "af.apx", "apx");
    assert_eq!(vec!["-p", "DS-PR-D", "-f", "af.apx", "-fo", "apx", "-a", "a1"], args);
    let args = QueryType::EE.command_arguments("EE-ST-D", "af.tgf", "tgf");
    assert_eq!(vec!["-p", "EE-ST-D", "-f", "af.tgf", "-fo", "tgf"], args);
}

#[test]
fn answer_kinds_of_queries() {
    assert_eq!(AnswerKind::Extension, QueryType::SE.answer_kind());
    assert_eq!(AnswerKind::ExtensionSet, QueryType::EE.answer_kind());
    assert_eq!(AnswerKind::ExtensionCount, QueryType::CE.answer_kind());
    assert_eq!(AnswerKind::AcceptanceStatus, QueryType::DC("a".to_string()).answer_kind());
    assert_eq!(AnswerKind::AcceptanceStatus, QueryType::DS("a".to_string()).answer_kind());
}
