use installer::command::K8sCommand;

fn args(words: &[&str]) -> Vec<String> {
    words.iter().map(|word| word.to_string()).collect()
}

#[test]
fn no_argument_selects_apply() {
    assert_eq!(K8sCommand::from_args(&args(&["installer"])), K8sCommand::Apply);
}

#[test]
fn an_empty_argument_list_selects_apply() {
    assert_eq!(K8sCommand::from_args(&args(&[])), K8sCommand::Apply);
}

#[test]
fn the_delete_flag_selects_delete() {
    assert_eq!(K8sCommand::from_args(&args(&["installer", "--delete"])), K8sCommand::Delete);
}

#[test]
fn any_other_argument_selects_apply() {
    assert_eq!(K8sCommand::from_args(&args(&["installer", "--apply"])), K8sCommand::Apply);
    assert_eq!(K8sCommand::from_args(&args(&["installer", "delete"])), K8sCommand::Apply);
    assert_eq!(K8sCommand::from_args(&args(&["installer", "--delete "])), K8sCommand::Apply);
    assert_eq!(K8sCommand::from_args(&args(&["installer", "--DELETE"])), K8sCommand::Apply);
    assert_eq!(K8sCommand::from_args(&args(&["installer", ""])), K8sCommand::Apply);
}

#[test]
fn only_the_second_argument_is_looked_at() {
    assert_eq!(K8sCommand::from_args(&args(&["--delete"])), K8sCommand::Apply);
    assert_eq!(K8sCommand::from_args(&args(&["installer", "-v", "--delete"])), K8sCommand::Apply);
    assert_eq!(
        K8sCommand::from_args(&args(&["installer", "--delete", "--whatever"])),
        K8sCommand::Delete
    );
}

#[test]
fn names_are_capitalised() {
    assert_eq!(K8sCommand::Apply.name(), "Apply");
    assert_eq!(K8sCommand::Delete.name(), "Delete");
}

#[test]
fn verbs_are_the_names_in_lower_case() {
    assert_eq!(K8sCommand::Apply.verb(), "apply");
    assert_eq!(K8sCommand::Delete.verb(), "delete");
    for command in [K8sCommand::Apply, K8sCommand::Delete] {
        assert_eq!(command.verb(), command.name().to_lowercase());
    }
}
