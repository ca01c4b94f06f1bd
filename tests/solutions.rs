use iccma21_dynamics_wrapper::solutions::{
    format_answer, read_acceptance_status, read_answer_of_kind, read_extension,
    read_extension_count, read_extension_line_from_str, read_extension_set,
    write_acceptance_status, write_extension, write_extension_count, write_extension_set,
    Answer,
};
use iccma21_dynamics_wrapper::{AnswerKind, ArgumentSet, LineReader, SolutionError};

fn labels_of(e: &ArgumentSet) -> Vec<String> {
    e.iter().iter().map(|a| a.label().to_string()).collect::<Vec<String>>()
}

fn strings(v: &[&str]) -> Vec<String> {
    v.iter().map(|a| a.to_string()).collect::<Vec<String>>()
}

#[test]
fn test_acceptance_status_yes() {
    let answer = "YES\n";
    assert_eq!(
        true,
        read_acceptance_status(&mut LineReader::new(answer)).unwrap()
    );
}

#[test]
fn test_acceptance_status_no() {
    let answer = "NO\n";
    assert_eq!(
        false,
        read_acceptance_status(&mut LineReader::new(answer)).unwrap()
    );
}

#[test]
fn test_acceptance_status_crlf() {
    let answer = "YES\r\n";
    assert_eq!(
        true,
        read_acceptance_status(&mut LineReader::new(answer)).unwrap()
    );
}

#[test]
fn acceptance_status_no_crlf() {
    assert_eq!(
        false,
        read_acceptance_status(&mut LineReader::new("NO\r\n")).unwrap()
    );
}

#[test]
fn test_wrong_acceptance_status() {
    let answer = "MAYBE\n";
    assert_eq!(
        "expected an acceptance status, found \"MAYBE\"",
        read_acceptance_status(&mut LineReader::new(answer))
            .unwrap_err()
            .message()
    );
}

#[test]
fn test_empty_acceptance_status() {
    let answer = "";
    assert_eq!(
        "read EOF while parsing an acceptance status",
        read_acceptance_status(&mut LineReader::new(answer))
            .unwrap_err()
            .message()
    );
}

#[test]
fn test_acceptance_status_no_newline() {
    let answer = "YES or NO";
    assert_eq!(
        "expected an acceptance status, found \"YES or NO\"",
        read_acceptance_status(&mut LineReader::new(answer))
            .unwrap_err()
            .message()
    );
}

#[test]
fn acceptance_status_reads_one_line_at_a_time() {
    let mut reader = LineReader::new("YES\nNO\n");
    assert_eq!(true, read_acceptance_status(&mut reader).unwrap());
    assert_eq!(false, read_acceptance_status(&mut reader).unwrap());
    assert!(reader.is_exhausted());
}

#[test]
fn test_extension_line_empty() {
    let answer = "[]";
    let extension = read_extension(&mut LineReader::new(answer)).unwrap();
    assert_eq!(0, extension.len());
}

#[test]
fn test_extension_line_single_arg() {
    let answer = "[a0]";
    let extension = read_extension(&mut LineReader::new(answer)).unwrap();
    assert_eq!(strings(&["a0"]), labels_of(&extension));
}

#[test]
fn test_extension_line_two_args() {
    let answer = "[a0, a1]";
    let extension = read_extension(&mut LineReader::new(answer)).unwrap();
    assert_eq!(strings(&["a0", "a1"]), labels_of(&extension));
}

#[test]
fn test_extension_line_with_spaces() {
    let answer = " [ a0 , a1 ] ";
    let extension = read_extension(&mut LineReader::new(answer)).unwrap();
    assert_eq!(strings(&["a0", "a1"]), labels_of(&extension));
}

#[test]
fn extension_line_without_space_after_comma() {
    let extension = read_extension_line_from_str("[a0,a1]").unwrap();
    assert_eq!(strings(&["a0", "a1"]), labels_of(&extension));
}

#[test]
fn test_extension_line_no_brackets() {
    let answer = "a0, a1";
    assert!(read_extension(&mut LineReader::new(answer)).is_err());
}

#[test]
fn test_extension_line_no_comma() {
    let answer = "[a0 a1]";
    assert!(read_extension(&mut LineReader::new(answer)).is_err());
}

#[test]
fn extension_line_errors() {
    for line in ["[a0,]", "[,a0]", "[0a]", "[a0]]", "[[a0]", "[a-b]", "["] {
        match read_extension_line_from_str(line) {
            Err(SolutionError::NotExtension(s)) => assert_eq!(line, s),
            _ => panic!("{} should be refused", line),
        }
    }
}

#[test]
fn extension_end_of_input() {
    assert_eq!(
        "read EOF while parsing an extension line",
        read_extension(&mut LineReader::new("")).unwrap_err().message()
    );
}

#[test]
fn test_extension_set_empty_single_line() {
    let answer = "[]";
    assert_eq!(
        0,
        read_extension_set(&mut LineReader::new(answer)).unwrap().len()
    );
}

#[test]
fn test_extension_set_empty_two_lines() {
    let answer = "[\n]";
    assert_eq!(
        0,
        read_extension_set(&mut LineReader::new(answer)).unwrap().len()
    );
}

#[test]
fn test_extension_set_containing_one() {
    let answer = "[\n[a0, a1]\n]";
    let ext_set = read_extension_set(&mut LineReader::new(answer)).unwrap();
    assert_eq!(1, ext_set.len());
    assert_eq!(strings(&["a0", "a1"]), labels_of(&ext_set[0]));
}

#[test]
fn test_extension_set_containing_two() {
    let answer = "[\n[a0, a1]\n[a0, a2]\n]";
    let ext_set = read_extension_set(&mut LineReader::new(answer)).unwrap();
    assert_eq!(2, ext_set.len());
    assert_eq!(strings(&["a0", "a1"]), labels_of(&ext_set[0]));
    assert_eq!(strings(&["a0", "a2"]), labels_of(&ext_set[1]));
}

#[test]
fn test_extension_set_containing_empty_extension() {
    let answer = "[\n[]\n]";
    let ext_set = read_extension_set(&mut LineReader::new(answer)).unwrap();
    assert_eq!(1, ext_set.len());
    assert_eq!(0, ext_set[0].len());
}

#[test]
fn test_extension_set_empty_single_line_err() {
    let answer = "[] a";
    assert!(read_extension_set(&mut LineReader::new(answer)).is_err());
}

#[test]
fn test_extension_set_empty_two_lines_err_on_first() {
    let answer = "[a\n]";
    assert!(read_extension_set(&mut LineReader::new(answer)).is_err());
}

#[test]
fn test_extension_set_empty_two_lines_err_on_second() {
    let answer = "[\n]a";
    assert!(read_extension_set(&mut LineReader::new(answer)).is_err());
}

#[test]
fn test_extension_set_two_lines_err_on_arg() {
    let answer = "[\na0\n]";
    assert!(read_extension_set(&mut LineReader::new(answer)).is_err());
}

#[test]
fn test_extension_set_two_opening() {
    let answer = "[\n[\n]";
    assert!(read_extension_set(&mut LineReader::new(answer)).is_err());
}

#[test]
fn test_extension_set_empty_no_closing() {
    let answer = "[\n";
    assert!(read_extension_set(&mut LineReader::new(answer)).is_err());
}

#[test]
fn test_extension_set_eof() {
    let answer = "";
    assert!(read_extension_set(&mut LineReader::new(answer)).is_err());
}

#[test]
fn extension_set_error_kinds() {
    assert_eq!(
        "unexpected second extension beginning pattern (line 2)",
        read_extension_set(&mut LineReader::new("[\n[\n]"))
            .unwrap_err()
            .message()
    );
    assert_eq!(
        "expected an extension beginning pattern (line 1)",
        read_extension_set(&mut LineReader::new("[a0]\n]"))
            .unwrap_err()
            .message()
    );
    assert_eq!(
        "expected an extension line, found \"a0\" (line 2)",
        read_extension_set(&mut LineReader::new("[\na0\n]"))
            .unwrap_err()
            .message()
    );
    assert_eq!(
        "unterminated extension set",
        read_extension_set(&mut LineReader::new("[\n[a0]\n"))
            .unwrap_err()
            .message()
    );
}

#[test]
fn extension_set_stops_at_closing_line() {
    let mut reader = LineReader::new("[\n[a]\n]\nYES\n");
    let ext_set = read_extension_set(&mut reader).unwrap();
    assert_eq!(1, ext_set.len());
    assert_eq!(true, read_acceptance_status(&mut reader).unwrap());
}

#[test]
fn test_extension_count() {
    let answer = "1";
    let ext_count = read_extension_count(&mut LineReader::new(answer)).unwrap();
    assert_eq!(1, ext_count);
}

#[test]
fn test_extension_count_negative() {
    let answer = "-1";
    assert!(read_extension_count(&mut LineReader::new(answer)).is_err());
}

#[test]
fn test_extension_count_nan() {
    let answer = "a";
    assert!(read_extension_count(&mut LineReader::new(answer)).is_err());
}

#[test]
fn extension_count_with_spaces_and_large_values() {
    assert_eq!(
        1234,
        read_extension_count(&mut LineReader::new("  1234 \r\n")).unwrap()
    );
    let max = usize::MAX.to_string();
    assert_eq!(
        usize::MAX,
        read_extension_count(&mut LineReader::new(&max)).unwrap()
    );
    let too_large = format!("{}0", usize::MAX);
    match read_extension_count(&mut LineReader::new(&too_large)) {
        Err(SolutionError::CountOverflow(s)) => assert_eq!(too_large, s),
        _ => panic!("expected an overflow"),
    }
    assert_eq!(
        "read EOF while parsing an extension count",
        read_extension_count(&mut LineReader::new("")).unwrap_err().message()
    );
}

fn written(f: impl FnOnce(&mut String)) -> String {
    let mut out = String::new();
    f(&mut out);
    out
}

#[test]
fn test_write_acceptance_status_yes() {
    assert_eq!("YES\n", written(|w| write_acceptance_status(w, true)));
}

#[test]
fn test_write_acceptance_status_no() {
    assert_eq!("NO\n", written(|w| write_acceptance_status(w, false)));
}

#[test]
fn test_write_extension_count() {
    assert_eq!("1\n", written(|w| write_extension_count(w, 1)));
}

#[test]
fn write_extension_count_values() {
    assert_eq!("0\n", written(|w| write_extension_count(w, 0)));
    assert_eq!("907\n", written(|w| write_extension_count(w, 907)));
    assert_eq!(
        format!("{}\n", usize::MAX),
        written(|w| write_extension_count(w, usize::MAX))
    );
}

#[test]
fn test_write_extension_no_args() {
    let extension = ArgumentSet::new(vec![] as Vec<String>);
    assert_eq!("[]\n", written(|w| write_extension(w, &extension)));
}

#[test]
fn test_write_extension_one_arg() {
    let extension = ArgumentSet::new(strings(&["a"]));
    assert_eq!("[a]\n", written(|w| write_extension(w, &extension)));
}

#[test]
fn test_write_extension_two_args() {
    let extension = ArgumentSet::new(strings(&["a", "b"]));
    assert_eq!("[a, b]\n", written(|w| write_extension(w, &extension)));
}

#[test]
fn test_write_extension_set() {
    let extension_set = vec![
        ArgumentSet::new(vec![]),
        ArgumentSet::new(strings(&["a"])),
        ArgumentSet::new(strings(&["a", "b"])),
    ];
    let refs = extension_set.iter().collect::<Vec<&ArgumentSet>>();
    assert_eq!(
        "[\n[]\n[a]\n[a, b]\n]\n",
        written(|w| write_extension_set(w, &refs))
    );
}

#[test]
fn count_round_trip() {
    for n in [0usize, 7, 10, 12345, usize::MAX] {
        let text = written(|w| write_extension_count(w, n));
        assert_eq!(n, read_extension_count(&mut LineReader::new(&text)).unwrap());
    }
}

#[test]
fn extension_round_trip() {
    for labels in [vec![], strings(&["a"]), strings(&["x_1", "_y", "Z9"])] {
        let text = written(|w| write_extension(w, &ArgumentSet::new(labels.clone())));
        let back = read_extension(&mut LineReader::new(&text)).unwrap();
        assert_eq!(labels, labels_of(&back));
    }
}

#[test]
fn extension_set_round_trip() {
    let sets = vec![
        vec![],
        vec![strings(&[])],
        vec![strings(&["a", "b"]), strings(&["c"]), strings(&[])],
    ];
    for set in sets {
        let extensions = set
            .iter()
            .map(|l| ArgumentSet::new(l.clone()))
            .collect::<Vec<ArgumentSet>>();
        let refs = extensions.iter().collect::<Vec<&ArgumentSet>>();
        let text = written(|w| write_extension_set(w, &refs));
        let back = read_extension_set(&mut LineReader::new(&text)).unwrap();
        assert_eq!(set, back.iter().map(labels_of).collect::<Vec<Vec<String>>>());
    }
}

#[test]
fn answers_of_each_kind() {
    let a = read_answer_of_kind(AnswerKind::ExtensionSet, &mut LineReader::new("[\n[a]\n]\n"))
        .unwrap();
    assert_eq!("[\n[a]\n]\n", format_answer(&a));
    let a = read_answer_of_kind(AnswerKind::ExtensionCount, &mut LineReader::new(" 42 \n"))
        .unwrap();
    assert!(matches!(a, Answer::Count(42)));
    assert_eq!("42\n", format_answer(&a));
    let a = read_answer_of_kind(AnswerKind::Extension, &mut LineReader::new("[ b ,a ]\n"))
        .unwrap();
    assert_eq!("[b, a]\n", format_answer(&a));
    let a = read_answer_of_kind(AnswerKind::AcceptanceStatus, &mut LineReader::new(" NO \n"))
        .unwrap();
    assert_eq!("NO\n", format_answer(&a));
}
