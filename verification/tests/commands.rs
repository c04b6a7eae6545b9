use mcp_wsl::args::{ArgValue, ToolArgs};
use mcp_wsl::exec::{execute_command, execute_shell_command, finish_run, RunOutcome, StdinSource};

fn args(entries: Vec<(&str, ArgValue)>) -> ToolArgs {
    ToolArgs { entries: entries.into_iter().map(|(k, v)| (k.to_string(), v)).collect() }
}

fn text(s: &str) -> ArgValue {
    ArgValue::Text(s.to_string())
}

#[test]
fn command_is_required() {
    let r = execute_command(&args(vec![("args", ArgValue::Array(vec![]))]));
    assert_eq!(r.err(), Some("command parameter is required".to_string()));
    let r = execute_shell_command(&args(vec![("command", ArgValue::Number(Some(3)))]));
    assert_eq!(r.err(), Some("command parameter is required".to_string()));
}

#[test]
fn command_plan_defaults() {
    let p = execute_command(&args(vec![("command", text("ls"))])).ok().unwrap();
    assert_eq!(p.program, "ls");
    assert_eq!(p.label, "ls");
    assert!(p.args.is_empty());
    assert_eq!(p.timeout_secs, 30);
    assert_eq!(p.user, None);
    assert!(!p.pipes_stdin());
    assert!(matches!(p.stdin_source(), StdinSource::Closed));
}

#[test]
fn command_plan_reads_every_setting() {
    let p = execute_command(&args(vec![
        ("command", text("grep")),
        ("args", ArgValue::Array(vec![Some("-n".to_string()), None, Some("x".to_string())])),
        ("user", text("1000")),
        ("stdin", text("x\n")),
        ("stdin_file", text("/tmp/in")),
        ("stdout_file", text("/tmp/out")),
        ("timeout_secs", ArgValue::Number(Some(5))),
        ("working_dir", text("/tmp")),
    ]))
    .ok()
    .unwrap();
    assert_eq!(p.args, vec!["-n".to_string(), "x".to_string()]);
    assert_eq!(p.user, Some("1000".to_string()));
    assert_eq!(p.timeout_secs, 5);
    assert_eq!(p.working_dir, Some("/tmp".to_string()));
    assert_eq!(p.stdout_file, Some("/tmp/out".to_string()));
    assert_eq!(p.stderr_file, None);
    assert!(p.pipes_stdin());
    match p.stdin_source() {
        StdinSource::Text(t) => assert_eq!(t, "x\n"),
        _ => panic!("stdin text comes first"),
    }
}

#[test]
fn negative_timeouts_fall_back_to_the_default() {
    let p = execute_command(&args(vec![("command", text("true")), ("timeout_secs", ArgValue::Number(None))]))
        .ok()
        .unwrap();
    assert_eq!(p.timeout_secs, 30);
}

#[test]
fn shell_plan() {
    let p = execute_shell_command(&args(vec![("command", text("echo hi | wc -c"))])).ok().unwrap();
    assert_eq!(p.program, "/bin/sh");
    assert_eq!(p.label, "/bin/sh");
    assert_eq!(p.args, vec!["-c".to_string(), "echo hi | wc -c".to_string()]);
    let q = execute_shell_command(&args(vec![("command", text("ls")), ("shell", text("/bin/bash")), ("stdin_file", text("/f"))]))
        .ok()
        .unwrap();
    assert_eq!(q.program, "/bin/bash");
    match q.stdin_source() {
        StdinSource::File(f) => assert_eq!(f, "/f"),
        _ => panic!("stdin comes from the file"),
    }
}

fn plan(extra: Vec<(&str, ArgValue)>) -> mcp_wsl::exec::ExecPlan {
    let mut e = vec![("command", text("prog"))];
    e.extend(extra);
    execute_command(&args(e)).ok().unwrap()
}

fn finished(code: Option<i32>) -> RunOutcome {
    RunOutcome::Finished { code, stdout: "out".to_string(), stderr: "err".to_string() }
}

#[test]
fn finished_runs_report_status_and_output() {
    let p = plan(vec![]);
    let r = finish_run(&p, finished(Some(3)), None, None).ok().unwrap();
    assert_eq!((r.status, r.stdout.as_str(), r.stderr.as_str()), (3, "out", "err"));
    let r = finish_run(&p, finished(None), None, None).ok().unwrap();
    assert_eq!(r.status, -1);
}

#[test]
fn redirected_output_is_left_out() {
    let p = plan(vec![("stdout_file", text("/tmp/o")), ("stderr_file", text("/tmp/e"))]);
    let r = finish_run(&p, finished(Some(0)), None, None).ok().unwrap();
    assert_eq!((r.stdout.as_str(), r.stderr.as_str()), ("", ""));
}

#[test]
fn run_failures_are_reported() {
    let p = plan(vec![("timeout_secs", ArgValue::Number(Some(7)))]);
    assert_eq!(
        finish_run(&p, RunOutcome::SpawnFailed("No such file".to_string()), None, None).err(),
        Some("Failed to spawn 'prog': No such file".to_string())
    );
    assert_eq!(
        finish_run(&p, RunOutcome::StdinFileUnreadable("gone".to_string()), None, None).err(),
        Some("stdin_file read error: gone".to_string())
    );
    assert_eq!(
        finish_run(&p, RunOutcome::WaitFailed("lost".to_string()), None, None).err(),
        Some("Wait error: lost".to_string())
    );
    assert_eq!(finish_run(&p, RunOutcome::TimedOut, None, None).err(), Some("Command timed out after 7s".to_string()));
}

#[test]
fn write_failures_are_reported_stdout_first() {
    let p = plan(vec![("stdout_file", text("/o")), ("stderr_file", text("/e"))]);
    assert_eq!(
        finish_run(&p, finished(Some(0)), Some("full".to_string()), Some("ro".to_string())).err(),
        Some("stdout_file write error: full".to_string())
    );
    assert_eq!(
        finish_run(&p, finished(Some(0)), None, Some("ro".to_string())).err(),
        Some("stderr_file write error: ro".to_string())
    );
    let q = plan(vec![]);
    assert!(finish_run(&q, finished(Some(0)), Some("ignored".to_string()), None).is_ok());
}
