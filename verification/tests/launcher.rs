use bonnie::command::CommandError;
use bonnie::launcher::shell_invocation;
use bonnie::launcher::spawn_outcome;
use bonnie::launcher::Platform;

#[test]
fn windows_invocation_form() {
    let invocation = shell_invocation(Platform::Windows, "echo hi");
    assert_eq!(invocation.program, "cmd");
    assert_eq!(invocation.args, vec!["/C".to_string(), "echo hi".to_string()]);
}

#[test]
fn posix_invocation_form() {
    let invocation = shell_invocation(Platform::Posix, "echo hi");
    assert_eq!(invocation.program, "sh");
    assert_eq!(invocation.args, vec!["-c".to_string(), "echo hi".to_string()]);
}

#[test]
fn same_command_either_platform_keeps_it_verbatim() {
    let command = "grep -r 'a | b' . && echo $HOME";
    let windows = shell_invocation(Platform::Windows, command);
    let posix = shell_invocation(Platform::Posix, command);
    assert_eq!(windows.args[1], command);
    assert_eq!(posix.args[1], command);
}

#[test]
fn successful_spawn_is_ok() {
    assert!(spawn_outcome("echo hi", true).is_ok());
}

#[test]
fn failed_spawn_names_the_command() {
    match spawn_outcome("echo hi", false) {
        Err(CommandError::SpawnFailed { command }) => assert_eq!(command, "echo hi"),
        _ => panic!("expected SpawnFailed"),
    }
}

#[test]
fn failed_spawn_message_blames_startup_not_the_command() {
    let error = spawn_outcome("echo hi", false).unwrap_err();
    let message = error.message();
    assert_eq!(
        message,
        "Command 'echo hi' failed to run. This doesn't mean the command produced an error, but \
         that the process couldn't even be initialised."
    );
    assert!(!message.contains("error output"));
}
