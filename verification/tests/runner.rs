use taskgraph::report::{decimal, failure_message, Diagnostic};
use taskgraph::runner::{task_run, RunAction, RunError, RunEvent, RunState, TaskDescriptor};

fn descriptor(args: &[&str], inputs: &[&str], outputs: &[&str]) -> TaskDescriptor {
    TaskDescriptor {
        args: args.iter().map(|s| s.to_string()).collect(),
        input_paths: inputs.iter().map(|s| s.to_string()).collect(),
        output_paths: outputs.iter().map(|s| s.to_string()).collect(),
    }
}

#[test]
fn failing_program_reports_its_exit_code() {
    let d = descriptor(&["/bin/false"], &[], &[]);
    let (s, a) = task_run(&d, 0, 0, RunState::Start, RunEvent::Begin);
    assert_eq!((s, a), (RunState::MakingDir, RunAction::MakeTempDir));
    let (s, a) = task_run(&d, 0, 0, s, RunEvent::Done);
    assert_eq!((s, a), (RunState::Capturing, RunAction::CreateCapture));
    let (s, a) = task_run(&d, 0, 0, s, RunEvent::Done);
    assert_eq!((s, a), (RunState::Running, RunAction::Spawn { stdin: None }));
    let (s, a) = task_run(&d, 0, 0, s, RunEvent::Exited(Some(1)));
    assert_eq!((s, a), (RunState::ReadingStderr(Some(1)), RunAction::ReadStderr));
    let (s, a) = task_run(&d, 0, 0, s, RunEvent::Done);
    assert_eq!((s, a), (RunState::Finished, RunAction::Fail(RunError::ExitCode(1))));
    assert_eq!(d.program(), Some(&"/bin/false".to_string()));
    assert_eq!(d.arguments(), Vec::<String>::new());
    assert_eq!(
        failure_message(RunError::ExitCode(1), &Diagnostic::Text(String::new())),
        "Program exit with exit code 1\nStderr: \n"
    );
}

#[test]
fn missing_output_fails_a_run_that_exited_with_zero() {
    let d = descriptor(&["/bin/cp", "in.txt", "elsewhere.txt"], &["in.txt"], &["out.txt"]);
    let (s, a) = task_run(&d, 1, 1, RunState::Start, RunEvent::Begin);
    assert_eq!((s, a), (RunState::MakingDir, RunAction::MakeTempDir));
    let (s, a) = task_run(&d, 1, 1, s, RunEvent::Done);
    assert_eq!((s, a), (RunState::MappingInput(0), RunAction::MapInput { index: 0 }));
    let (s, a) = task_run(&d, 1, 1, s, RunEvent::Done);
    assert_eq!((s, a), (RunState::Capturing, RunAction::CreateCapture));
    let (s, a) = task_run(&d, 1, 1, s, RunEvent::Done);
    assert_eq!((s, a), (RunState::Running, RunAction::Spawn { stdin: None }));
    let (s, a) = task_run(&d, 1, 1, s, RunEvent::Exited(Some(0)));
    assert_eq!((s, a), (RunState::Claiming(0), RunAction::ClaimOutput { index: 0 }));
    let (s, a) = task_run(&d, 1, 1, s, RunEvent::Missing);
    assert_eq!((s, a), (RunState::Finished, RunAction::Fail(RunError::OutputNotFound(0))));
    assert_eq!(
        failure_message(RunError::OutputNotFound(0), &Diagnostic::Text(String::new())),
        "Output 0 not found"
    );
    assert_eq!(d.arguments(), vec!["in.txt".to_string(), "elsewhere.txt".to_string()]);
}

#[test]
fn empty_arguments_fail_before_anything_is_made() {
    let d = descriptor(&[], &["in.txt"], &["out.txt"]);
    assert_eq!(d.program(), None);
    assert_eq!(d.arguments(), Vec::<String>::new());
    let (s, a) = task_run(&d, 1, 1, RunState::Start, RunEvent::Begin);
    assert_eq!((s, a), (RunState::Finished, RunAction::Fail(RunError::EmptyArguments)));
    assert_eq!(
        failure_message(RunError::EmptyArguments, &Diagnostic::Text(String::new())),
        "Arguments are empty"
    );
}

#[test]
fn successful_run_claims_every_output_in_order() {
    let d = descriptor(&["tool"], &["a", "+in", "b"], &["x", "y"]);
    let mut s = RunState::Start;
    let mut seen = Vec::new();
    let mut event = RunEvent::Begin;
    loop {
        let (next, action) = task_run(&d, 3, 2, s, event);
        seen.push(action);
        s = next;
        event = match action {
            RunAction::Spawn { .. } => RunEvent::Exited(Some(0)),
            RunAction::Succeed | RunAction::Fail(_) => break,
            _ => RunEvent::Done,
        };
    }
    assert_eq!(
        seen,
        vec![
            RunAction::MakeTempDir,
            RunAction::MapInput { index: 0 },
            RunAction::MapInput { index: 1 },
            RunAction::MapInput { index: 2 },
            RunAction::CreateCapture,
            RunAction::Spawn { stdin: Some(1) },
            RunAction::ClaimOutput { index: 0 },
            RunAction::ClaimOutput { index: 1 },
            RunAction::Succeed,
        ]
    );
    assert_eq!(s, RunState::Finished);
}

#[test]
fn standard_input_is_recognised_by_exact_name() {
    let d = descriptor(&["tool"], &["+in", "+in ", "in", "+IN", "+in"], &[]);
    assert!(d.input_is_stdin(0));
    assert!(!d.input_is_stdin(1));
    assert!(!d.input_is_stdin(2));
    assert!(!d.input_is_stdin(3));
    assert!(d.input_is_stdin(4));
    assert!(!d.input_is_stdin(5));
    let (_, a) = task_run(&d, 5, 0, RunState::Capturing, RunEvent::Done);
    assert_eq!(a, RunAction::Spawn { stdin: Some(4) });
    let (_, a) = task_run(&d, 4, 0, RunState::Capturing, RunEvent::Done);
    assert_eq!(a, RunAction::Spawn { stdin: Some(0) });
    let (_, a) = task_run(&d, 0, 0, RunState::Capturing, RunEvent::Done);
    assert_eq!(a, RunAction::Spawn { stdin: None });
}

#[test]
fn input_paths_and_inputs_are_paired_as_far_as_both_reach() {
    let d = descriptor(&["tool"], &["a", "b", "c"], &["x"]);
    let (s, a) = task_run(&d, 2, 1, RunState::MappingInput(0), RunEvent::Done);
    assert_eq!((s, a), (RunState::MappingInput(1), RunAction::MapInput { index: 1 }));
    let (s, a) = task_run(&d, 2, 1, RunState::MappingInput(1), RunEvent::Done);
    assert_eq!((s, a), (RunState::Capturing, RunAction::CreateCapture));
    let (s, a) = task_run(&d, 5, 1, RunState::MappingInput(2), RunEvent::Done);
    assert_eq!((s, a), (RunState::Capturing, RunAction::CreateCapture));
}

#[test]
fn a_run_succeeds_only_with_one_output_for_each_output_of_the_task() {
    let mismatch = (RunState::Finished, RunAction::Fail(RunError::OutputCountMismatch));
    // no path declared, one output on the task
    let d = descriptor(&["/bin/true"], &[], &[]);
    assert_eq!(task_run(&d, 0, 1, RunState::Running, RunEvent::Exited(Some(0))), mismatch);
    // fewer paths than outputs
    let d = descriptor(&["tool"], &[], &["x"]);
    assert_eq!(task_run(&d, 0, 5, RunState::Running, RunEvent::Exited(Some(0))), mismatch);
    assert_eq!(task_run(&d, 0, 5, RunState::Claiming(0), RunEvent::Done), mismatch);
    // more paths than outputs
    assert_eq!(task_run(&d, 0, 0, RunState::Running, RunEvent::Exited(Some(0))), mismatch);
    let d = descriptor(&["tool"], &[], &["x", "y", "z"]);
    assert_eq!(task_run(&d, 0, 2, RunState::Running, RunEvent::Exited(Some(0))), mismatch);
    assert_eq!(task_run(&d, 0, 2, RunState::Claiming(1), RunEvent::Done), mismatch);
    // a failed process is reported as such, whatever the counts
    assert_eq!(
        task_run(&d, 0, 2, RunState::Running, RunEvent::Exited(Some(2))),
        (RunState::ReadingStderr(Some(2)), RunAction::ReadStderr)
    );
    // equal counts: every output is claimed, then the run succeeds
    assert_eq!(
        task_run(&d, 0, 3, RunState::Running, RunEvent::Exited(Some(0))),
        (RunState::Claiming(0), RunAction::ClaimOutput { index: 0 })
    );
    assert_eq!(
        task_run(&d, 0, 3, RunState::Claiming(1), RunEvent::Done),
        (RunState::Claiming(2), RunAction::ClaimOutput { index: 2 })
    );
    assert_eq!(
        task_run(&d, 0, 3, RunState::Claiming(2), RunEvent::Done),
        (RunState::Finished, RunAction::Succeed)
    );
    let d = descriptor(&["tool"], &[], &[]);
    assert_eq!(
        task_run(&d, 0, 0, RunState::Running, RunEvent::Exited(Some(0))),
        (RunState::Finished, RunAction::Succeed)
    );
    assert_eq!(
        failure_message(RunError::OutputCountMismatch, &Diagnostic::Text(String::new())),
        "Declared output paths do not match the task's outputs"
    );
}

#[test]
fn signal_and_unreadable_stderr_still_give_a_report() {
    let d = descriptor(&["tool"], &[], &[]);
    let (s, a) = task_run(&d, 0, 0, RunState::Running, RunEvent::Exited(None));
    assert_eq!((s, a), (RunState::ReadingStderr(None), RunAction::ReadStderr));
    let (s, a) = task_run(&d, 0, 0, s, RunEvent::IoError);
    assert_eq!((s, a), (RunState::Finished, RunAction::Fail(RunError::Signal)));
    let (_, a) = task_run(&d, 0, 0, RunState::ReadingStderr(Some(-3)), RunEvent::IoError);
    assert_eq!(a, RunAction::Fail(RunError::ExitCode(-3)));
    assert_eq!(
        failure_message(RunError::Signal, &Diagnostic::Unreadable("no such file".to_string())),
        "Program terminated by signal\nStderr could not be obtained: no such file"
    );
    assert_eq!(
        failure_message(RunError::ExitCode(-3), &Diagnostic::Text("boom".to_string())),
        "Program exit with exit code -3\nStderr: boom\n"
    );
}

#[test]
fn io_errors_and_stray_events_end_the_run() {
    let d = descriptor(&["tool"], &["a"], &["x"]);
    for s in [
        RunState::Start,
        RunState::MakingDir,
        RunState::MappingInput(0),
        RunState::Capturing,
        RunState::Running,
        RunState::Claiming(0),
    ] {
        let (n, a) = task_run(&d, 1, 1, s, RunEvent::IoError);
        assert_eq!((n, a), (RunState::Finished, RunAction::Fail(RunError::Io)));
    }
    let stop = (RunState::Finished, RunAction::Fail(RunError::Unexpected));
    assert_eq!(task_run(&d, 1, 1, RunState::Finished, RunEvent::Done), stop);
    assert_eq!(task_run(&d, 1, 1, RunState::Finished, RunEvent::IoError), stop);
    assert_eq!(task_run(&d, 1, 1, RunState::Start, RunEvent::Done), stop);
    assert_eq!(task_run(&d, 1, 1, RunState::Running, RunEvent::Done), stop);
    assert_eq!(task_run(&d, 1, 1, RunState::MappingInput(1), RunEvent::Done), stop);
    assert_eq!(task_run(&d, 1, 1, RunState::Claiming(1), RunEvent::Done), stop);
    assert_eq!(task_run(&d, 1, 1, RunState::MakingDir, RunEvent::Missing), stop);
    assert_eq!(
        failure_message(RunError::Io, &Diagnostic::Text("disk full".to_string())),
        "I/O error: disk full"
    );
    assert_eq!(
        failure_message(RunError::Io, &Diagnostic::Unreadable("no such file".to_string())),
        "I/O error: no such file"
    );
    assert_eq!(
        failure_message(RunError::Unexpected, &Diagnostic::Text(String::new())),
        "Unexpected event"
    );
}

#[test]
fn numbers_are_written_in_decimal() {
    assert_eq!(decimal(0), "0");
    assert_eq!(decimal(7), "7");
    assert_eq!(decimal(10), "10");
    assert_eq!(decimal(255), "255");
    assert_eq!(decimal(-1), "-1");
    assert_eq!(decimal(-2147483648), "-2147483648");
    assert_eq!(decimal(9007199254740993), "9007199254740993");
    assert_eq!(decimal(i64::MIN), "-9223372036854775808");
    assert_eq!(decimal(i64::MAX), "9223372036854775807");
    assert_eq!(
        failure_message(RunError::OutputNotFound(1234567890), &Diagnostic::Text(String::new())),
        "Output 1234567890 not found"
    );
}
