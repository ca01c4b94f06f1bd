use iccma21_dynamics_wrapper::{AAFramework, ArgumentSet, AspartixWriter};

#[test]
fn test_write() {
    let arg_names = vec!["a".to_string(), "b".to_string(), "c".to_string()];
    let args = ArgumentSet::new(arg_names.clone());
    let mut framework = AAFramework::new(args);
    framework.new_attack(&arg_names[0], &arg_names[0]).unwrap();
    framework.new_attack(&arg_names[1], &arg_names[2]).unwrap();
    let mut result = String::new();
    let writer = AspartixWriter::default();
    writer.write(&framework, &mut result);
    assert_eq!(
        "arg(a).\narg(b).\narg(c).\natt(a,a).\natt(b,c).\n",
        result.to_string()
    )
}

#[test]
fn write_empty_framework() {
    let framework = AAFramework::new(ArgumentSet::new(vec![]));
    let mut result = String::new();
    AspartixWriter::default().write(&framework, &mut result);
    assert_eq!("", result);
}
