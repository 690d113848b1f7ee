use bonnie::command::Command;
use bonnie::command::CommandError;

fn owned(values: &[&str]) -> Vec<String> {
    let mut v: Vec<String> = Vec::new();
    for s in values {
        v.push(s.to_string());
    }
    v
}

#[test]
fn exact_count_substitution() {
    let command = Command::new("test", owned(&["a", "b"]), "%a-%b");
    let resolved = command.insert_args(&owned(&["x", "y"]));
    assert_eq!(resolved.unwrap(), "x-y");
}

#[test]
fn too_few_arguments() {
    let command = Command::new("test", owned(&["a", "b"]), "%a-%b");
    match command.insert_args(&owned(&["x"])) {
        Err(CommandError::TooFewArguments { name, required, given }) => {
            assert_eq!(name, "test");
            assert_eq!(required, 2);
            assert_eq!(given, 1);
        }
        other => panic!("expected TooFewArguments, got {:?}", other.is_ok()),
    }
}

#[test]
fn too_few_arguments_message() {
    let command = Command::new("test", owned(&["a", "b"]), "%a-%b");
    let error = command.insert_args(&owned(&["x"])).unwrap_err();
    assert_eq!(
        error.message(),
        "The command 'test' requires 2 argument(s), but 1 argument(s) were provided (too few). \
         Please provide all the required arguments."
    );
}

#[test]
fn too_many_is_not_an_error() {
    let command = Command::new("test", owned(&["a"]), "%a");
    let resolved = command.insert_args(&owned(&["x", "y"]));
    assert_eq!(resolved.unwrap(), "x");
}

#[test]
fn too_many_warning_text() {
    let command = Command::new("test", owned(&["a"]), "%a");
    assert_eq!(
        command.extra_args_warning(2),
        "Warning: The command 'test' only needs 1 argument(s), but 2 argument(s) were provided \
         (too many). Your command will still run, this warning is just here to save time in \
         debugging!"
    );
}

#[test]
fn repeated_placeholder_replaced_everywhere() {
    let command = Command::new("test", owned(&["a"]), "%a and %a again");
    let resolved = command.insert_args(&owned(&["Z"]));
    assert_eq!(resolved.unwrap(), "Z and Z again");
}

#[test]
fn missing_placeholder_fails() {
    let command = Command::new("test", owned(&["c"]), "echo nothing here");
    match command.insert_args(&owned(&["x"])) {
        Err(CommandError::SubstitutionFailed { name, arg }) => {
            assert_eq!(name, "test");
            assert_eq!(arg, "c");
        }
        other => panic!("expected SubstitutionFailed, got {:?}", other.is_ok()),
    }
}

#[test]
fn missing_placeholder_message() {
    let command = Command::new("test", owned(&["c"]), "echo nothing here");
    let error = command.insert_args(&owned(&["x"])).unwrap_err();
    assert_eq!(
        error.message(),
        "The argument 'c' could not be substituted into the command 'test'. This probably means \
         there's a typo somewhere in your command definition."
    );
}

#[test]
fn too_few_fires_before_substitution() {
    // Zero placeholders in the template: the count check still comes
    // first, so the outcome is TooFewArguments, never SubstitutionFailed.
    let command = Command::new("test", owned(&["a"]), "echo hi");
    match command.insert_args(&[]) {
        Err(CommandError::TooFewArguments { required, given, .. }) => {
            assert_eq!(required, 1);
            assert_eq!(given, 0);
        }
        _ => panic!("expected TooFewArguments"),
    }
}

#[test]
fn zero_arguments_leave_template_unchanged() {
    let command = Command::new("test", owned(&[]), "echo Hello World");
    let resolved = command.insert_args(&[]);
    assert_eq!(resolved.unwrap(), "echo Hello World");
}

#[test]
fn substitution_follows_declared_order() {
    // A value that itself contains a later placeholder token is acted on
    // by the later pass: sequential global replacement, in declared order.
    let command = Command::new("test", owned(&["a", "b"]), "%a %b");
    let resolved = command.insert_args(&owned(&["%b", "B"]));
    assert_eq!(resolved.unwrap(), "B B");
}

#[test]
fn value_equal_to_placeholder_counts_as_unchanged() {
    // Substituting '%a' for itself changes nothing, and an unchanged
    // template is reported as a substitution failure.
    let command = Command::new("test", owned(&["a"]), "run %a");
    match command.insert_args(&owned(&["%a"])) {
        Err(CommandError::SubstitutionFailed { arg, .. }) => assert_eq!(arg, "a"),
        _ => panic!("expected SubstitutionFailed"),
    }
}

#[test]
fn multi_digit_counts_in_messages() {
    let names = owned(&[
        "a0", "a1", "a2", "a3", "a4", "a5", "a6", "a7", "a8", "a9", "a10", "a11",
    ]);
    let command = Command::new("big", names, "echo %a0");
    let error = command.insert_args(&owned(&["x", "y", "z"])).unwrap_err();
    assert_eq!(
        error.message(),
        "The command 'big' requires 12 argument(s), but 3 argument(s) were provided (too few). \
         Please provide all the required arguments."
    );
}

#[test]
fn required_args_reports_declared_count() {
    let command = Command::new("test", owned(&["a", "b", "c"]), "%a %b %c");
    assert_eq!(command.required_args(), 3);
}

#[test]
fn append_marker_passes_through_untouched() {
    // The `%%` marker belongs to the surrounding system and is not a
    // declared argument's placeholder; resolution leaves it alone.
    let command = Command::new("dc", owned(&["file"]), "docker-compose --env-file %file %%");
    let resolved = command.insert_args(&owned(&[".my.env"]));
    assert_eq!(resolved.unwrap(), "docker-compose --env-file .my.env %%");
}

#[test]
fn values_pair_with_arguments_positionally() {
    let command = Command::new("greet", owned(&["first", "last"]), "echo Hello %first %last");
    let resolved = command.insert_args(&owned(&["Donald", "Knuth"]));
    assert_eq!(resolved.unwrap(), "echo Hello Donald Knuth");
}

#[test]
fn empty_values_substitute_to_nothing() {
    let command = Command::new("test", owned(&["a"]), "echo [%a]");
    let resolved = command.insert_args(&owned(&[""]));
    assert_eq!(resolved.unwrap(), "echo []");
}
