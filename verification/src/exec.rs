//! Running commands: what a call of `exec:execute_command` or
//! `exec:execute_shell_command` asks to run and how, and the reply built
//! from what the run gave.
use vstd::prelude::*;
use crate::args::ToolArgs;
use crate::passwd::opt_view;
use crate::text::{push_decimal, push_str, string_views};

verus! {

/// A command to run, with its I/O settings.
pub struct ExecPlan {
    /// The program started: the command, or the shell.
    pub program: String,
    /// Its argument list.
    pub args: Vec<String>,
    /// The name used for it in a spawn error.
    pub label: String,
    /// The user to run as, by name or UID.
    pub user: Option<String>,
    pub stdin_text: Option<String>,
    pub stdin_file: Option<String>,
    pub stdout_file: Option<String>,
    pub stderr_file: Option<String>,
    pub timeout_secs: u64,
    pub working_dir: Option<String>,
}

/// Where the standard input of a command comes from.
pub enum StdinSource {
    /// Not connected to anything.
    Closed,
    /// The given text.
    Text(String),
    /// The contents of the file at this path.
    File(String),
}

pub open spec fn default_timeout() -> u64 {
    30
}

/// The I/O settings that both exec tools read from their arguments.
pub open spec fn io_matches(p: ExecPlan, args: ToolArgs) -> bool {
    &&& opt_view(p.user) == args.text("user"@)
    &&& opt_view(p.stdin_text) == args.text("stdin"@)
    &&& opt_view(p.stdin_file) == args.text("stdin_file"@)
    &&& opt_view(p.stdout_file) == args.text("stdout_file"@)
    &&& opt_view(p.stderr_file) == args.text("stderr_file"@)
    &&& p.timeout_secs == match args.count("timeout_secs"@) {
        Some(n) => n,
        None => default_timeout(),
    }
    &&& opt_view(p.working_dir) == args.text("working_dir"@)
}

impl ExecPlan {
    /// Standard input: the text if one is given, else the file if one is
    /// given, else nothing.
    pub fn stdin_source(&self) -> (r: StdinSource)
        ensures
            match r {
                StdinSource::Text(t) => self.stdin_text == Some(t),
                StdinSource::File(f) => self.stdin_text.is_none() && self.stdin_file == Some(f),
                StdinSource::Closed => self.stdin_text.is_none() && self.stdin_file.is_none(),
            },
    {
        match &self.stdin_text {
            Some(t) => StdinSource::Text(t.clone()),
            None => match &self.stdin_file {
                Some(f) => StdinSource::File(f.clone()),
                None => StdinSource::Closed,
            },
        }
    }

    /// Whether standard input is a pipe.
    pub fn pipes_stdin(&self) -> (r: bool)
        ensures
            r == (self.stdin_text.is_some() || self.stdin_file.is_some()),
    {
        self.stdin_text.is_some() || self.stdin_file.is_some()
    }
}

fn missing_command() -> (r: String)
    ensures
        r@ == "command parameter is required"@,
{
    let r = required_error("command");
    proof {
        reveal_strlit("command");
        reveal_strlit(" parameter is required");
        reveal_strlit("command parameter is required");
    }
    assert(r@ =~= "command parameter is required"@);
    r
}

fn required_error(name: &str) -> (r: String)
    ensures
        r@ == name@ + " parameter is required"@,
{
    let mut m = String::new();
    push_str(&mut m, name);
    push_str(&mut m, " parameter is required");
    m
}

fn plan_io(args: &ToolArgs, program: String, argv: Vec<String>, label: String) -> (p: ExecPlan)
    ensures
        io_matches(p, *args),
        p.program == program,
        p.args == argv,
        p.label == label,
{
    ExecPlan {
        program,
        args: argv,
        label,
        user: args.text_arg("user"),
        stdin_text: args.text_arg("stdin"),
        stdin_file: args.text_arg("stdin_file"),
        stdout_file: args.text_arg("stdout_file"),
        stderr_file: args.text_arg("stderr_file"),
        timeout_secs: match args.count_arg("timeout_secs") {
            Some(n) => n,
            None => 30,
        },
        working_dir: args.text_arg("working_dir"),
    }
}

/// `exec:execute_command`: runs the `command` binary with the `args` list.
pub fn execute_command(args: &ToolArgs) -> (r: Result<ExecPlan, String>)
    ensures
        match r {
            Err(e) => args.text("command"@).is_none() && e@ == "command parameter is required"@,
            Ok(p) => {
                &&& args.text("command"@) == Some(p.program@)
                &&& p.label@ == p.program@
                &&& string_views(p.args@) == match args.text_list("args"@) {
                    Some(l) => l,
                    None => Seq::empty(),
                }
                &&& io_matches(p, *args)
            },
        },
{
    let command = match args.text_arg("command") {
        Some(c) => c,
        None => { return Err(missing_command()); },
    };
    let argv = match args.text_list_arg("args") {
        Some(l) => l,
        None => {
            let v: Vec<String> = Vec::new();
            assert(string_views(v@) =~= Seq::<Seq<char>>::empty());
            v
        },
    };
    let label = command.clone();
    Ok(plan_io(args, command, argv, label))
}

/// `exec:execute_shell_command`: runs `shell -c command`, the shell being
/// `/bin/sh` unless one is given.
pub fn execute_shell_command(args: &ToolArgs) -> (r: Result<ExecPlan, String>)
    ensures
        match r {
            Err(e) => args.text("command"@).is_none() && e@ == "command parameter is required"@,
            Ok(p) => {
                &&& p.program@ == match args.text("shell"@) {
                    Some(s) => s,
                    None => "/bin/sh"@,
                }
                &&& p.label@ == p.program@
                &&& args.text("command"@) is Some
                &&& string_views(p.args@) == seq!["-c"@, args.text("command"@).unwrap()]
                &&& io_matches(p, *args)
            },
        },
{
    let shell = match args.text_arg("shell") {
        Some(s) => s,
        None => "/bin/sh".to_owned(),
    };
    let command = match args.text_arg("command") {
        Some(c) => c,
        None => { return Err(missing_command()); },
    };
    let mut argv: Vec<String> = Vec::new();
    argv.push("-c".to_owned());
    argv.push(command);
    assert(string_views(argv@) =~= seq!["-c"@, args.text("command"@).unwrap()]);
    let label = shell.clone();
    Ok(plan_io(args, shell, argv, label))
}

// ---------------------------------------------------------------------------
// The reply
// ---------------------------------------------------------------------------

/// What running the command gave.
pub enum RunOutcome {
    /// The program could not be started.
    SpawnFailed(String),
    /// The file meant for standard input could not be read.
    StdinFileUnreadable(String),
    /// Waiting for the program failed.
    WaitFailed(String),
    /// The time limit passed first.
    TimedOut,
    /// The program ended, with its exit code if it has one and its output
    /// decoded as text.
    Finished { code: Option<i32>, stdout: String, stderr: String },
}

/// The reply to a finished run.
pub struct ExecReport {
    pub status: i32,
    pub stdout: String,
    pub stderr: String,
}

pub open spec fn report_view(r: Result<ExecReport, String>) -> Result<(i32, Seq<char>, Seq<char>), Seq<char>> {
    match r {
        Ok(rep) => Ok((rep.status, rep.stdout@, rep.stderr@)),
        Err(e) => Err(e@),
    }
}

/// The reply to a run: an error for each way the run fails, else the exit
/// status (-1 without an exit code) and the output that was not written to
/// a file. A failure to write the output files, where they were asked for,
/// is an error, that of the standard output first.
pub open spec fn run_reply(
    p: ExecPlan,
    outcome: RunOutcome,
    stdout_write_error: Option<Seq<char>>,
    stderr_write_error: Option<Seq<char>>,
) -> Result<(i32, Seq<char>, Seq<char>), Seq<char>> {
    match outcome {
        RunOutcome::SpawnFailed(e) => Err("Failed to spawn '"@ + p.label@ + "': "@ + e@),
        RunOutcome::StdinFileUnreadable(e) => Err("stdin_file read error: "@ + e@),
        RunOutcome::WaitFailed(e) => Err("Wait error: "@ + e@),
        RunOutcome::TimedOut => Err("Command timed out after "@ + crate::text::decimal(p.timeout_secs as nat) + "s"@),
        RunOutcome::Finished { code, stdout, stderr } => {
            if p.stdout_file.is_some() && stdout_write_error.is_some() {
                Err("stdout_file write error: "@ + stdout_write_error.unwrap())
            } else if p.stderr_file.is_some() && stderr_write_error.is_some() {
                Err("stderr_file write error: "@ + stderr_write_error.unwrap())
            } else {
                Ok((
                    match code { Some(c) => c, None => -1i32 },
                    if p.stdout_file.is_none() { stdout@ } else { Seq::empty() },
                    if p.stderr_file.is_none() { stderr@ } else { Seq::empty() },
                ))
            }
        },
    }
}

fn prefixed(prefix: &str, detail: &str) -> (r: String)
    ensures
        r@ == prefix@ + detail@,
{
    let mut m = String::new();
    push_str(&mut m, prefix);
    push_str(&mut m, detail);
    m
}

/// Builds the reply to a run. `stdout_write_error` and `stderr_write_error`
/// are the errors of writing the output files, where that was tried.
pub fn finish_run(
    p: &ExecPlan,
    outcome: RunOutcome,
    stdout_write_error: Option<String>,
    stderr_write_error: Option<String>,
) -> (r: Result<ExecReport, String>)
    ensures
        report_view(r) == run_reply(*p, outcome, opt_view(stdout_write_error), opt_view(stderr_write_error)),
{
    match outcome {
        RunOutcome::SpawnFailed(e) => {
            let mut m = String::new();
            push_str(&mut m, "Failed to spawn '");
            push_str(&mut m, p.label.as_str());
            push_str(&mut m, "': ");
            push_str(&mut m, e.as_str());
            Err(m)
        },
        RunOutcome::StdinFileUnreadable(e) => Err(prefixed("stdin_file read error: ", e.as_str())),
        RunOutcome::WaitFailed(e) => Err(prefixed("Wait error: ", e.as_str())),
        RunOutcome::TimedOut => {
            let mut m = String::new();
            push_str(&mut m, "Command timed out after ");
            push_decimal(&mut m, p.timeout_secs);
            push_str(&mut m, "s");
            Err(m)
        },
        RunOutcome::Finished { code, stdout, stderr } => {
            if p.stdout_file.is_some() {
                if let Some(e) = &stdout_write_error {
                    return Err(prefixed("stdout_file write error: ", e.as_str()));
                }
            }
            if p.stderr_file.is_some() {
                if let Some(e) = &stderr_write_error {
                    return Err(prefixed("stderr_file write error: ", e.as_str()));
                }
            }
            let status = match code {
                Some(c) => c,
                None => -1i32,
            };
            let out = if p.stdout_file.is_none() { stdout } else { String::new() };
            let err = if p.stderr_file.is_none() { stderr } else { String::new() };
            Ok(ExecReport { status, stdout: out, stderr: err })
        },
    }
}

/// A run that finished, with no failed write of an output file, is
/// reported with its exit code (-1 without one); each output that was not
/// sent to a file is reported exactly as captured, whatever became of the
/// other, and an output sent to a file is reported empty.
pub proof fn law_finished_run_report(
    p: ExecPlan,
    code: Option<i32>,
    stdout: String,
    stderr: String,
    stdout_write_error: Option<Seq<char>>,
    stderr_write_error: Option<Seq<char>>,
)
    requires
        p.stdout_file.is_none() || stdout_write_error.is_none(),
        p.stderr_file.is_none() || stderr_write_error.is_none(),
    ensures
        ({
            let r = run_reply(p, RunOutcome::Finished { code, stdout, stderr }, stdout_write_error, stderr_write_error);
            &&& r is Ok
            &&& code is Some ==> r->Ok_0.0 == code->0
            &&& code is None ==> r->Ok_0.0 == -1
            &&& p.stdout_file is None ==> r->Ok_0.1 == stdout@
            &&& p.stderr_file is None ==> r->Ok_0.2 == stderr@
            &&& p.stdout_file is Some ==> r->Ok_0.1.len() == 0
            &&& p.stderr_file is Some ==> r->Ok_0.2.len() == 0
        }),
{
}

/// A failed write of a requested output file makes the run an error, the
/// standard output's first.
pub proof fn law_write_failures(
    p: ExecPlan,
    code: Option<i32>,
    stdout: String,
    stderr: String,
    stdout_write_error: Option<Seq<char>>,
    stderr_write_error: Option<Seq<char>>,
)
    ensures
        ({
            let r = run_reply(p, RunOutcome::Finished { code, stdout, stderr }, stdout_write_error, stderr_write_error);
            &&& (p.stdout_file is Some && stdout_write_error is Some) ==> r == Err::<(i32, Seq<char>, Seq<char>), Seq<char>>(
                "stdout_file write error: "@ + stdout_write_error->0,
            )
            &&& (p.stdout_file is None || stdout_write_error is None) && p.stderr_file is Some && stderr_write_error is Some
                ==> r == Err::<(i32, Seq<char>, Seq<char>), Seq<char>>("stderr_file write error: "@ + stderr_write_error->0)
        }),
{
}

} // verus!
