use iccma21_dynamics_wrapper::{AAFramework, ArgumentError, ArgumentSet};

fn labels() -> Vec<String> {
    vec!["a".to_string(), "b".to_string(), "c".to_string()]
}

#[test]
fn test_new() {
    let arg_labels = labels();
    let args = ArgumentSet::new(arg_labels.clone());
    assert_eq!(3, args.iter().len());
    assert_eq!(3, args.len());
    assert!(!args.is_empty());
    for (i, a) in args.iter().iter().enumerate() {
        assert_eq!(i, a.id());
        assert_eq!(arg_labels[i], *a.label());
    }
}

#[test]
fn test_new_empty() {
    let args = ArgumentSet::new(vec![] as Vec<String>);
    assert_eq!(0, args.len());
    assert!(args.is_empty());
}

#[test]
fn test_into_iterator() {
    let arg_labels = labels();
    let args = ArgumentSet::new(arg_labels.clone());
    let mut iter_labels: Vec<String> = Vec::with_capacity(arg_labels.len());
    for arg in args.iter() {
        iter_labels.push(arg.label().clone())
    }
    assert_eq!(arg_labels, iter_labels);
}

#[test]
fn argument_index_by_label() {
    let args = ArgumentSet::new(labels());
    assert_eq!(0, args.get_argument_index(&"a".to_string()).unwrap());
    assert_eq!(2, args.get_argument_index(&"c".to_string()).unwrap());
    match args.get_argument_index(&"d".to_string()) {
        Err(ArgumentError::NoSuchArgument(l)) => assert_eq!("d", l),
        _ => panic!("expected an unknown label"),
    }
}

#[test]
fn argument_index_of_repeated_label_is_the_last() {
    let args = ArgumentSet::new(vec!["a".to_string(), "b".to_string(), "a".to_string()]);
    assert_eq!(2, args.get_argument_index(&"a".to_string()).unwrap());
}

#[test]
fn argument_by_id() {
    let args = ArgumentSet::new(labels());
    assert_eq!("b", args.get_argument_by_id(1).label().as_str());
    assert_eq!(1, args.get_argument_by_id(1).id());
}

#[test]
fn test_new_attack_ok() {
    let arg_labels = labels();
    let args = ArgumentSet::new(arg_labels.clone());
    let mut attacks = AAFramework::new(args);
    assert_eq!(0, attacks.n_attacks());
    attacks.new_attack(&arg_labels[0], &arg_labels[0]).unwrap();
    assert_eq!(1, attacks.n_attacks());
    let all = attacks.iter_attacks();
    assert_eq!((0, 0), (all[0].attacker().id(), all[0].attacked().id()));
}

#[test]
fn test_new_attack_unknown_label_1() {
    let arg_labels = labels();
    let args = ArgumentSet::new(arg_labels.clone());
    let mut attacks = AAFramework::new(args);
    attacks
        .new_attack(&"d".to_string(), &arg_labels[0])
        .unwrap_err();
}

#[test]
fn test_new_attack_unknown_label_2() {
    let arg_labels = labels();
    let args = ArgumentSet::new(arg_labels.clone());
    let mut attacks = AAFramework::new(args);
    attacks
        .new_attack(&arg_labels[0], &"d".to_string())
        .unwrap_err();
}

#[test]
fn test_new_attack_by_ids_ok() {
    let args = ArgumentSet::new(labels());
    let mut attacks = AAFramework::new(args);
    assert_eq!(0, attacks.n_attacks());
    attacks.new_attack_by_ids(0, 0).unwrap();
    assert_eq!(1, attacks.n_attacks());
    let all = attacks.iter_attacks();
    assert_eq!((0, 0), (all[0].attacker().id(), all[0].attacked().id()));
}

#[test]
fn test_new_attack_by_ids_unknown_id_1() {
    let args = ArgumentSet::new(labels());
    let mut attacks = AAFramework::new(args);
    attacks.new_attack_by_ids(3, 0).unwrap_err();
}

#[test]
fn test_new_attack_by_ids_unknown_id_2() {
    let args = ArgumentSet::new(labels());
    let mut attacks = AAFramework::new(args);
    attacks.new_attack_by_ids(0, 3).unwrap_err();
}

#[test]
fn attacks_keep_their_order_and_labels() {
    let arg_labels = labels();
    let mut framework = AAFramework::new(ArgumentSet::new(arg_labels.clone()));
    framework.new_attack(&arg_labels[1], &arg_labels[2]).unwrap();
    framework.new_attack_by_ids(2, 0).unwrap();
    let all = framework.iter_attacks();
    assert_eq!(2, all.len());
    assert_eq!("b", all[0].attacker().label().as_str());
    assert_eq!("c", all[0].attacked().label().as_str());
    assert_eq!("c", all[1].attacker().label().as_str());
    assert_eq!("a", all[1].attacked().label().as_str());
    assert_eq!(3, framework.argument_set().len());
}

#[test]
fn attack_text() {
    assert_eq!("a → b", iccma21_dynamics_wrapper::format_attack("a", "b"));
}
