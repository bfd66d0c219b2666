use rsh::shell::commands::{
    change_directory, execute_command, prepare_invocation, ChildOutcome, ExecutionError,
    Invocation, LaunchStrategy,
};

fn finished(code: Option<i32>, status: &str) -> ChildOutcome {
    ChildOutcome::Finished { code, status: status.to_string() }
}

#[test]
fn direct_launch_keeps_command_and_arguments() {
    let inv = prepare_invocation(LaunchStrategy::Direct, "ls", &vec!["-la", "/tmp"], Some("/bin:/usr/bin"));
    assert_eq!(
        inv,
        Invocation {
            program: "ls".to_string(),
            args: vec!["-la".to_string(), "/tmp".to_string()],
            search_path: "/bin:/usr/bin".to_string(),
        }
    );
}

#[test]
fn interpreter_launch_wraps_the_command() {
    let inv = prepare_invocation(LaunchStrategy::Interpreter, "dir", &vec!["/w", "C:\\"], Some("C:\\bin"));
    assert_eq!(inv.program, "cmd");
    assert_eq!(inv.args, vec!["/C", "dir", "/w", "C:\\"]);
    assert_eq!(inv.search_path, "C:\\bin");
    let bare = prepare_invocation(LaunchStrategy::Interpreter, "dir", &vec![], None);
    assert_eq!(bare.args, vec!["/C", "dir"]);
}

#[test]
fn missing_search_path_is_forwarded_empty() {
    let inv = prepare_invocation(LaunchStrategy::Direct, "true", &vec![], None);
    assert_eq!(inv.program, "true");
    assert!(inv.args.is_empty());
    assert_eq!(inv.search_path, "");
}

#[test]
fn exit_status_zero_is_success() {
    assert_eq!(execute_command("true", finished(Some(0), "exit status: 0")), Ok(()));
}

#[test]
fn other_exit_status_is_a_failure_with_that_status() {
    assert_eq!(
        execute_command("false", finished(Some(1), "exit status: 1")),
        Err(ExecutionError::Status {
            command: "false".to_string(),
            code: Some(1),
            status: "exit status: 1".to_string(),
        })
    );
    assert_eq!(
        execute_command("sh", finished(Some(-7), "exit status: -7")),
        Err(ExecutionError::Status {
            command: "sh".to_string(),
            code: Some(-7),
            status: "exit status: -7".to_string(),
        })
    );
}

#[test]
fn end_by_signal_is_a_failure() {
    assert_eq!(
        execute_command("sleep", finished(None, "signal: 9 (SIGKILL)")),
        Err(ExecutionError::Status {
            command: "sleep".to_string(),
            code: None,
            status: "signal: 9 (SIGKILL)".to_string(),
        })
    );
}

#[test]
fn spawn_failure_differs_from_exit_status_failure() {
    let spawn = execute_command(
        "no-such-binary",
        ChildOutcome::SpawnFailed { cause: "No such file or directory (os error 2)".to_string() },
    );
    assert_eq!(
        spawn,
        Err(ExecutionError::Spawn {
            command: "no-such-binary".to_string(),
            cause: "No such file or directory (os error 2)".to_string(),
        })
    );
    let status = execute_command("no-such-binary", finished(Some(127), "exit status: 127"));
    assert_ne!(spawn, status);
    assert!(matches!(status, Err(ExecutionError::Status { .. })));
}

#[test]
fn same_command_twice_gives_two_equal_results() {
    let first = execute_command("false", finished(Some(1), "exit status: 1"));
    let ok = execute_command("true", finished(Some(0), "exit status: 0"));
    let second = execute_command("false", finished(Some(1), "exit status: 1"));
    assert_eq!(first, second);
    assert_eq!(ok, Ok(()));
}

#[test]
fn error_messages() {
    assert_eq!(ExecutionError::Usage.message(), "'cd' requires a directory argument.");
    assert_eq!(
        ExecutionError::ChangeDirectory { target: "/nowhere".to_string(), cause: "not found".to_string() }
            .message(),
        "Failed to change directory to '/nowhere': not found"
    );
    assert_eq!(
        ExecutionError::Spawn { command: "foo".to_string(), cause: "not found".to_string() }.message(),
        "Failed to execute 'foo': not found"
    );
    assert_eq!(
        ExecutionError::Status {
            command: "false".to_string(),
            code: Some(1),
            status: "exit status: 1".to_string(),
        }
        .message(),
        "Command 'false' exited with status: exit status: 1"
    );
}

#[test]
fn refused_directory_change_is_an_error() {
    assert_eq!(change_directory("/tmp", None), Ok(()));
    assert_eq!(
        change_directory("/nowhere", Some("No such file or directory".to_string())),
        Err(ExecutionError::ChangeDirectory {
            target: "/nowhere".to_string(),
            cause: "No such file or directory".to_string(),
        })
    );
}
