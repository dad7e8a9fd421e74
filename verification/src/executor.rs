//! The Executor: runs the terraform commands of a migration, each gated
//! by the approval policy's verdict, through a subprocess runner (locally
//! or inside Docker). The driver runs the subprocesses; this module
//! decides what runs, where its log goes, and when to stop.
use vstd::prelude::*;
use crate::text::{owned, str_eq, concat2, chars_of, string_from_chars, is_ws, char_is_ws, decimal, append_decimal, join_path, path_join};
use crate::mapper::{uuid_string, uuid_text};
use crate::scanner::str_views;

verus! {

/// The approval policy's verdict on a command.
#[derive(Debug, Clone, Copy, PartialEq, Eq, Structural)]
pub enum Verdict {
    Allow,
    Prompt,
    Deny,
}

/// Whether a human can confirm a `Prompt` verdict.
#[derive(Debug, Clone, Copy, PartialEq, Eq, Structural)]
pub enum ApprovalMode {
    /// Any `Prompt` verdict refuses the command.
    NonInteractive,
    /// An operator would be asked; refused like `NonInteractive` until
    /// the prompt path exists.
    Interactive,
}

/// Failures of the Executor.
#[derive(Debug)]
pub enum ExecutorError {
    /// The approval gate denied a command.
    DeniedByApprovalGate { command: String, verdict: Verdict },
    /// A command needs a prompt, but nobody can answer one.
    PromptRequiredButNonInteractive { command: String },
    /// No subprocess runner is wired.
    NotImplementedYet { which: String, session: String },
    /// A file operation failed (the error's text).
    Io { path: String, message: String },
    Audit(String),
    /// A command with no program.
    EmptyCommand,
    /// The program could not be started or waited for.
    SpawnFailed { program: String, message: String },
    /// A child's output stream was not available.
    PipeUnavailable { stream: String },
    /// A command ended with a failing exit code.
    NonZeroExit { program: String, exit_code: i32 },
}

/// The `Debug` text of a verdict.
pub open spec fn verdict_text(v: Verdict) -> Seq<char> {
    match v {
        Verdict::Allow => "Allow"@,
        Verdict::Prompt => "Prompt"@,
        Verdict::Deny => "Deny"@,
    }
}

fn verdict_name(v: Verdict) -> (r: String)
    ensures
        r@ == verdict_text(v),
{
    match v {
        Verdict::Allow => owned("Allow"),
        Verdict::Prompt => owned("Prompt"),
        Verdict::Deny => owned("Deny"),
    }
}

/// The display text of an executor failure.
pub open spec fn executor_error_text(e: ExecutorError) -> Seq<char> {
    match e {
        ExecutorError::DeniedByApprovalGate { command, verdict } => "approval gate denied: command='"@ + command@
            + "' verdict="@ + verdict_text(verdict) + " (Article XIII rule 6)"@,
        ExecutorError::PromptRequiredButNonInteractive { command } =>
            "approval gate requires Prompt but executor is non-interactive: command='"@ + command@ + "'"@,
        ExecutorError::NotImplementedYet { which, session } => "not implemented yet: '"@ + which@
            + "' wires real terraform subprocess (unblocks in "@ + session@ + "; needs Docker + cloud test creds)"@,
        ExecutorError::Io { path, message } => "filesystem I/O at "@ + path@ + ": "@ + message@,
        ExecutorError::Audit(m) => "audit append failed: "@ + m@,
        ExecutorError::EmptyCommand => "empty command: no program to run"@,
        ExecutorError::SpawnFailed { program, message } => "failed to run '"@ + program@ + "': "@ + message@,
        ExecutorError::PipeUnavailable { stream } => "child "@ + stream@ + " pipe unavailable"@,
        ExecutorError::NonZeroExit { program, exit_code } => "'"@ + program@ + "' exited with code "@ + if exit_code
            < 0 {
            "-"@ + decimal((-exit_code) as nat)
        } else {
            decimal(exit_code as nat)
        },
    }
}

impl ExecutorError {
    /// The display text of this failure.
    pub fn message(&self) -> (r: String)
        ensures
            r@ == executor_error_text(*self),
    {
        match self {
            ExecutorError::DeniedByApprovalGate { command, verdict } => {
                let mut s = owned("approval gate denied: command='");
                s.append(command.as_str());
                s.append("' verdict=");
                s.append(verdict_name(*verdict).as_str());
                s.append(" (Article XIII rule 6)");
                s
            },
            ExecutorError::PromptRequiredButNonInteractive { command } => {
                let mut s = owned("approval gate requires Prompt but executor is non-interactive: command='");
                s.append(command.as_str());
                s.append("'");
                s
            },
            ExecutorError::NotImplementedYet { which, session } => {
                let mut s = owned("not implemented yet: '");
                s.append(which.as_str());
                s.append("' wires real terraform subprocess (unblocks in ");
                s.append(session.as_str());
                s.append("; needs Docker + cloud test creds)");
                s
            },
            ExecutorError::Io { path, message } => {
                let mut s = owned("filesystem I/O at ");
                s.append(path.as_str());
                s.append(": ");
                s.append(message.as_str());
                s
            },
            ExecutorError::Audit(m) => {
                let mut s = owned("audit append failed: ");
                s.append(m.as_str());
                s
            },
            ExecutorError::EmptyCommand => owned("empty command: no program to run"),
            ExecutorError::SpawnFailed { program, message } => {
                let mut s = owned("failed to run '");
                s.append(program.as_str());
                s.append("': ");
                s.append(message.as_str());
                s
            },
            ExecutorError::PipeUnavailable { stream } => {
                let mut s = owned("child ");
                s.append(stream.as_str());
                s.append(" pipe unavailable");
                s
            },
            ExecutorError::NonZeroExit { program, exit_code } => {
                let mut s = owned("'");
                s.append(program.as_str());
                s.append("' exited with code ");
                if *exit_code < 0 {
                    s.append("-");
                    let m: i64 = -(*exit_code as i64);
                    append_decimal(&mut s, m as u64);
                } else {
                    append_decimal(&mut s, *exit_code as u64);
                }
                s
            },
        }
    }
}

/// What one subprocess did.
#[derive(Debug)]
pub struct SubprocessOutcome {
    /// The program that ran.
    pub program: String,
    /// Its arguments.
    pub args: Vec<String>,
    /// Its exit code (-1 when it ended without one).
    pub exit_code: i32,
    pub duration_ms: u128,
    /// Where its output was captured.
    pub log_path: String,
}

/// The exit code the runner reports: the process's, or -1 when it ended
/// without one (by a signal).
pub fn exit_code_or_minus_one(code: Option<i32>) -> (r: i32)
    ensures
        r == match code {
            Some(c) => c,
            None => -1i32,
        },
{
    match code {
        Some(c) => c,
        None => -1,
    }
}

/// Runs commands directly on the host.
pub struct LocalRunner;

impl LocalRunner {
    /// The program and the arguments of a command; an empty command is
    /// refused.
    pub fn split_command(command: &Vec<String>) -> (r: Result<(String, Vec<String>), ExecutorError>)
        ensures
            command@.len() == 0 ==> r matches Err(ExecutorError::EmptyCommand),
            command@.len() > 0 ==> (r matches Ok((p, args)) && p@ == command@[0]@ && str_views(args@) == str_views(
                command@.subrange(1, command@.len() as int),
            )),
    {
        if command.len() == 0 {
            return Err(ExecutorError::EmptyCommand);
        }
        let mut args: Vec<String> = Vec::new();
        let mut i: usize = 1;
        while i < command.len()
            invariant
                1 <= i <= command@.len(),
                str_views(args@) == str_views(command@.subrange(1, i as int)),
            decreases command@.len() - i,
        {
            let ghost before = args@;
            let c = command[i].clone();
            let ghost cv = c@;
            args.push(c);
            proof {
                assert(str_views(args@) =~= str_views(before).push(cv));
                assert(str_views(command@.subrange(1, i + 1)) =~= str_views(command@.subrange(1, i as int)).push(
                    command@[i as int]@,
                ));
            }
            i = i + 1;
        }
        Ok((command[0].clone(), args))
    }
}

/// Runs commands inside a Docker container of a terraform image.
pub struct DockerRunner {
    pub image: String,
}

/// The `docker` arguments that run `command` in `image` with `env` and the
/// host directory `cwd` mounted at `/work`.
pub open spec fn docker_args(image: Seq<char>, command: Seq<Seq<char>>, env: Seq<(Seq<char>, Seq<char>)>, cwd: Seq<char>) -> Seq<Seq<char>> {
    seq!["run"@, "--rm"@, "-v"@, cwd + ":/work"@, "-w"@, "/work"@] + env_flags(env) + seq![image] + command
}

/// `-e K=V` for each environment variable, in order.
pub open spec fn env_flags(env: Seq<(Seq<char>, Seq<char>)>) -> Seq<Seq<char>>
    decreases env.len(),
{
    if env.len() == 0 {
        Seq::empty()
    } else {
        env_flags(env.drop_last()) + seq!["-e"@, env.last().0 + "="@ + env.last().1]
    }
}

/// The views of environment pairs.
pub open spec fn env_views(env: Seq<(String, String)>) -> Seq<(Seq<char>, Seq<char>)> {
    env.map_values(|p: (String, String)| (p.0@, p.1@))
}

/// The default terraform image.
pub open spec fn default_image() -> Seq<char> {
    "hashicorp/terraform:1.10"@
}

impl DockerRunner {
    /// A runner with the default terraform image.
    pub fn new() -> (r: Self)
        ensures
            r.image@ == default_image(),
    {
        DockerRunner { image: owned("hashicorp/terraform:1.10") }
    }

    /// A runner with the given image.
    pub fn with_image(image: &str) -> (r: Self)
        ensures
            r.image@ == image@,
    {
        DockerRunner { image: owned(image) }
    }

    /// The `docker run` arguments for `command`: remove the container
    /// afterwards, mount `cwd` at `/work` and work there, pass each
    /// environment variable with `-e`, then the image and the command.
    pub fn build_docker_args(&self, command: &Vec<String>, env: &Vec<(String, String)>, cwd: &str) -> (r: Vec<String>)
        ensures
            str_views(r@) == docker_args(self.image@, str_views(command@), env_views(env@), cwd@),
    {
        let mut out: Vec<String> = Vec::new();
        out.push(owned("run"));
        out.push(owned("--rm"));
        out.push(owned("-v"));
        out.push(concat2(cwd, ":/work"));
        out.push(owned("-w"));
        out.push(owned("/work"));
        let ghost head = seq!["run"@, "--rm"@, "-v"@, cwd@ + ":/work"@, "-w"@, "/work"@];
        proof {
            assert(str_views(out@) =~= head);
            assert(env_views(env@).take(0) =~= Seq::<(Seq<char>, Seq<char>)>::empty());
        }
        let mut i: usize = 0;
        while i < env.len()
            invariant
                i <= env@.len(),
                str_views(out@) == head + env_flags(env_views(env@).take(i as int)),
            decreases env@.len() - i,
        {
            let ghost before = out@;
            let kv = concat2(env[i].0.as_str(), "=");
            let mut kv = kv;
            kv.append(env[i].1.as_str());
            out.push(owned("-e"));
            let ghost kvv = kv@;
            out.push(kv);
            proof {
                let ev = env_views(env@);
                assert(ev.take(i + 1).drop_last() =~= ev.take(i as int));
                assert(ev.take(i + 1).last() == (env@[i as int].0@, env@[i as int].1@));
                assert(str_views(out@) =~= str_views(before) + seq!["-e"@, kvv]);
            }
            i = i + 1;
        }
        proof {
            assert(env_views(env@).take(env@.len() as int) =~= env_views(env@));
        }
        let ghost mid = out@;
        out.push(self.image.clone());
        let mut j: usize = 0;
        proof {
            assert(str_views(out@) =~= str_views(mid) + seq![self.image@]);
        }
        let ghost base = str_views(out@);
        while j < command.len()
            invariant
                j <= command@.len(),
                str_views(out@) == base + str_views(command@).take(j as int),
            decreases command@.len() - j,
        {
            let ghost before = out@;
            let c = command[j].clone();
            let ghost cv = c@;
            out.push(c);
            proof {
                assert(str_views(out@) =~= str_views(before).push(cv));
                assert(str_views(command@).take(j + 1) =~= str_views(command@).take(j as int).push(command@[j as int]@));
            }
            j = j + 1;
        }
        proof {
            assert(str_views(command@).take(command@.len() as int) =~= str_views(command@));
        }
        out
    }

    /// The full command a Docker run spawns: `docker` and its arguments.
    pub fn full_command(&self, command: &Vec<String>, env: &Vec<(String, String)>, cwd: &str) -> (r: Vec<String>)
        ensures
            str_views(r@) == seq!["docker"@] + docker_args(self.image@, str_views(command@), env_views(env@), cwd@),
    {
        let mut out: Vec<String> = Vec::new();
        out.push(owned("docker"));
        let mut rest = self.build_docker_args(command, env, cwd);
        let ghost a = out@;
        let ghost b = rest@;
        out.append(&mut rest);
        proof {
            assert(out@ == a + b);
            assert(str_views(out@) =~= str_views(a) + str_views(b));
        }
        out
    }
}

/// The pieces of `s` between runs of whitespace, as `split_whitespace`
/// gives them (no empty pieces).
pub open spec fn split_ws(s: Seq<char>) -> Seq<Seq<char>>
    decreases s.len(),
{
    if s.len() == 0 {
        Seq::empty()
    } else {
        let p = split_ws(s.drop_last());
        let c = s.last();
        if is_ws(c) {
            p
        } else if s.len() >= 2 && !is_ws(s[s.len() - 2]) {
            p.update(p.len() - 1, p.last().push(c))
        } else {
            p.push(seq![c])
        }
    }
}

/// The whitespace-separated words of `s`.
pub fn split_whitespace(s: &str) -> (r: Vec<String>)
    ensures
        str_views(r@) == split_ws(s@),
{
    let cs = chars_of(s);
    let mut parts: Vec<String> = Vec::new();
    let mut cur = String::new();
    let mut in_word = false;
    let mut i: usize = 0;
    proof {
        assert(cs@.take(0) =~= Seq::<char>::empty());
    }
    // `cur` is the word being read; it is pushed when whitespace (or the
    // end) follows it.
    while i < cs.len()
        invariant
            cs@ == s@,
            i <= cs@.len(),
            in_word == (cur@.len() > 0),
            cur@.len() == 0 ==> str_views(parts@) == split_ws(cs@.take(i as int)),
            cur@.len() == 0 ==> (i == 0 || is_ws(cs@[i - 1])),
            cur@.len() > 0 ==> i > 0 && !is_ws(cs@[i - 1]) && str_views(parts@).push(cur@) == split_ws(
                cs@.take(i as int),
            ),
        decreases cs@.len() - i,
    {
        let c = cs[i];
        proof {
            assert(cs@.take(i + 1).drop_last() =~= cs@.take(i as int));
            assert(cs@.take(i + 1).last() == c);
            if i > 0 {
                assert(cs@.take(i + 1)[i - 1] == cs@[i - 1]);
            }
        }
        if char_is_ws(c) {
            if in_word {
                let ghost before = parts@;
                let done = cur;
                cur = String::new();
                let ghost dv = done@;
                parts.push(done);
                in_word = false;
                proof {
                    assert(str_views(parts@) =~= str_views(before).push(dv));
                }
            }
        } else {
            let ghost was_empty = cur@.len() == 0;
            let ghost pb = str_views(parts@);
            crate::text::push_char(&mut cur, c);
            in_word = true;
            proof {
                let t1 = cs@.take(i + 1);
                if was_empty {
                    assert(cur@ =~= seq![c]);
                    assert(split_ws(t1) == split_ws(cs@.take(i as int)).push(seq![c]));
                    assert(str_views(parts@).push(cur@) =~= split_ws(t1));
                } else {
                    assert(t1[t1.len() - 2] == cs@[i - 1]);
                    assert(split_ws(t1) == split_ws(cs@.take(i as int)).update(
                        split_ws(cs@.take(i as int)).len() - 1,
                        split_ws(cs@.take(i as int)).last().push(c),
                    ));
                    assert(str_views(parts@).push(cur@) =~= split_ws(t1));
                }
            }
        }
        i = i + 1;
    }
    proof {
        assert(cs@.take(cs@.len() as int) =~= cs@);
    }
    if in_word {
        let ghost before = parts@;
        let ghost cv = cur@;
        parts.push(cur);
        proof {
            assert(str_views(parts@) =~= str_views(before).push(cv));
        }
    }
    parts
}

/// `{:02}` of `n`: at least two digits, zero-padded.
pub open spec fn two_digits(n: nat) -> Seq<char> {
    if n < 10 {
        "0"@ + decimal(n)
    } else {
        decimal(n)
    }
}

/// The log file name of the `idx`-th command, run as `program`.
pub open spec fn log_name(idx: nat, program: Seq<char>) -> Seq<char> {
    two_digits(idx) + "-"@ + program + ".log"@
}

/// The first command (by position) whose verdict is not `Allow`.
pub open spec fn first_refused(verdicts: Seq<Verdict>) -> Option<int> {
    if exists|k: int| 0 <= k < verdicts.len() && #[trigger] verdicts[k] != Verdict::Allow {
        Some(choose|k: int| 0 <= k < verdicts.len() && #[trigger] verdicts[k] != Verdict::Allow
            && forall|j: int| 0 <= j < k ==> #[trigger] verdicts[j] == Verdict::Allow)
    } else {
        None
    }
}

/// Where the logs of a run go: `<working_dir>/.terrashift/runs/<run_id>/logs`.
pub open spec fn spec_log_dir(working_dir: Seq<char>, run_id: u128) -> Seq<char> {
    path_join(path_join(path_join(path_join(working_dir, ".terrashift"@), "runs"@), uuid_text(run_id)), "logs"@)
}

/// The name of a run's default working directory (under the system's
/// temporary directory): `terrashift-exec-<run_id>`.
pub fn run_dir_name(run_id: u128) -> (r: String)
    ensures
        r@ == "terrashift-exec-"@ + uuid_text(run_id),
{
    let id = uuid_string(run_id);
    concat2("terrashift-exec-", id.as_str())
}

/// A command authorized to run, split into words, and its log file.
pub struct CommandToRun {
    pub parts: Vec<String>,
    pub log_path: String,
}

/// What an apply did.
#[derive(Debug)]
pub struct ApplyOutcome {
    /// The run, echoed for audit correlation (the UUID's 128 bits).
    pub run_id: u128,
    /// The commands the approval gate allowed.
    pub authorized_commands: Vec<String>,
    /// What each command that ran did.
    pub subprocess_outcomes: Vec<SubprocessOutcome>,
    pub working_dir: String,
}

/// The state of an apply between the driver's subprocess runs.
pub struct ApplyRun {
    pub run_id: u128,
    pub working_dir: String,
    pub log_dir: String,
    pub authorized: Vec<String>,
    /// The position of the next command to consider.
    pub next: usize,
    pub outcomes: Vec<SubprocessOutcome>,
}

impl ApplyRun {
    /// The next authorized command with words in it (commands without any
    /// are skipped), with its log file `<log_dir>/<idx:02>-<program>.log`;
    /// `None` when none is left.
    pub fn next_command(&mut self) -> (r: Option<CommandToRun>)
        requires
            old(self).next <= old(self).authorized@.len(),
        ensures
            final(self).run_id == old(self).run_id,
            final(self).working_dir == old(self).working_dir,
            final(self).log_dir == old(self).log_dir,
            final(self).authorized == old(self).authorized,
            final(self).outcomes == old(self).outcomes,
            final(self).next <= final(self).authorized@.len(),
            forall|k: int| old(self).next <= k < final(self).next - if r is Some { 1int } else { 0 }
                ==> split_ws(#[trigger] old(self).authorized@[k]@).len() == 0,
            r is None ==> final(self).next == old(self).authorized@.len(),
            r matches Some(c) ==> {
                let idx = final(self).next - 1;
                &&& old(self).next <= idx
                &&& split_ws(old(self).authorized@[idx]@).len() > 0
                &&& str_views(c.parts@) == split_ws(old(self).authorized@[idx]@)
                &&& c.log_path@ == path_join(old(self).log_dir@, log_name(idx as nat, split_ws(old(self).authorized@[idx]@)[0]))
            },
    {
        while self.next < self.authorized.len()
            invariant
                self.run_id == old(self).run_id,
                self.working_dir == old(self).working_dir,
                self.log_dir == old(self).log_dir,
                self.authorized == old(self).authorized,
                self.outcomes == old(self).outcomes,
                old(self).next <= self.next <= self.authorized@.len(),
                forall|k: int| old(self).next <= k < self.next ==> split_ws(#[trigger] old(self).authorized@[k]@).len() == 0,
            decreases self.authorized@.len() - self.next,
        {
            let idx = self.next;
            let parts = split_whitespace(self.authorized[idx].as_str());
            self.next = idx + 1;
            if parts.len() > 0 {
                let mut name = owned("");
                if idx < 10 {
                    name.append("0");
                }
                append_decimal(&mut name, idx as u64);
                name.append("-");
                name.append(parts[0].as_str());
                name.append(".log");
                proof {
                    reveal_strlit("");
                    assert(str_views(parts@)[0] == parts@[0]@);
                    assert(name@ =~= log_name(idx as nat, split_ws(old(self).authorized@[idx as int]@)[0]));
                }
                let log_path = join_path(self.log_dir.as_str(), name.as_str());
                return Some(CommandToRun { parts, log_path });
            }
        }
        None
    }

    /// Records what a command did: a failing exit code (anything but 0,
    /// and 2, which `terraform plan` uses for "changes present") stops the
    /// apply.
    pub fn record(&mut self, outcome: SubprocessOutcome) -> (r: Result<(), ExecutorError>)
        ensures
            final(self).run_id == old(self).run_id,
            final(self).working_dir == old(self).working_dir,
            final(self).log_dir == old(self).log_dir,
            final(self).authorized == old(self).authorized,
            final(self).next == old(self).next,
            (outcome.exit_code == 0 || outcome.exit_code == 2) ==> r is Ok && final(self).outcomes@ == old(self).outcomes@.push(
                outcome,
            ),
            !(outcome.exit_code == 0 || outcome.exit_code == 2) ==> (r matches Err(ExecutorError::NonZeroExit {
                program,
                exit_code,
            }) && program == outcome.program && exit_code == outcome.exit_code) && final(self).outcomes == old(self).outcomes,
    {
        if outcome.exit_code != 0 && outcome.exit_code != 2 {
            return Err(ExecutorError::NonZeroExit { program: outcome.program, exit_code: outcome.exit_code });
        }
        self.outcomes.push(outcome);
        Ok(())
    }

    /// The outcome of the finished apply.
    pub fn finish(self) -> (r: ApplyOutcome)
        ensures
            r.run_id == self.run_id,
            r.authorized_commands == self.authorized,
            r.subprocess_outcomes == self.outcomes,
            r.working_dir == self.working_dir,
    {
        ApplyOutcome {
            run_id: self.run_id,
            authorized_commands: self.authorized,
            subprocess_outcomes: self.outcomes,
            working_dir: self.working_dir,
        }
    }
}

/// The Executor's settings (the approval policy and the runner itself
/// live with the driver).
pub struct Executor {
    pub approval_mode: ApprovalMode,
    /// Whether a subprocess runner is wired.
    pub has_runner: bool,
    /// The working directory, when not the run's default one.
    pub cwd_override: Option<String>,
    /// Environment variables for every subprocess.
    pub env: Vec<(String, String)>,
}

impl Executor {
    /// The default: non-interactive, no runner, default working
    /// directory, no extra environment.
    pub fn stage1_default() -> (r: Self)
        ensures
            r.approval_mode == ApprovalMode::NonInteractive,
            !r.has_runner,
            r.cwd_override is None,
            r.env@.len() == 0,
    {
        Executor { approval_mode: ApprovalMode::NonInteractive, has_runner: false, cwd_override: None, env: Vec::new() }
    }

    /// An Executor with the given approval mode and nothing else wired.
    pub fn new(approval_mode: ApprovalMode) -> (r: Self)
        ensures
            r.approval_mode == approval_mode,
            !r.has_runner,
            r.cwd_override is None,
            r.env@.len() == 0,
    {
        Executor { approval_mode, has_runner: false, cwd_override: None, env: Vec::new() }
    }

    /// The same Executor with a runner wired.
    pub fn with_runner(self) -> (r: Self)
        ensures
            r.has_runner,
            r.approval_mode == self.approval_mode,
            r.cwd_override == self.cwd_override,
            r.env == self.env,
    {
        Executor { has_runner: true, ..self }
    }

    /// The same Executor working in `cwd`.
    pub fn with_cwd(self, cwd: String) -> (r: Self)
        ensures
            r.cwd_override == Some(cwd),
            r.has_runner == self.has_runner,
            r.approval_mode == self.approval_mode,
            r.env == self.env,
    {
        Executor { cwd_override: Some(cwd), ..self }
    }

    /// The same Executor passing `env` to every subprocess.
    pub fn with_env(self, env: Vec<(String, String)>) -> (r: Self)
        ensures
            r.env == env,
            r.has_runner == self.has_runner,
            r.approval_mode == self.approval_mode,
            r.cwd_override == self.cwd_override,
    {
        Executor { env, ..self }
    }

    /// Starts an apply of `commands`, given the approval gate's verdict on
    /// each: the first command not allowed stops it (a `Prompt` cannot be
    /// answered, a `Deny` is refused); with every command allowed, an
    /// Executor without a runner cannot go on; otherwise the run starts in
    /// the working directory (`default_working_dir` unless overridden).
    pub fn begin_apply(&self, run_id: u128, commands: &Vec<String>, verdicts: &Vec<Verdict>, default_working_dir: String) -> (r: Result<ApplyRun, ExecutorError>)
        requires
            verdicts@.len() == commands@.len(),
        ensures
            match first_refused(verdicts@) {
                Some(k) => match verdicts@[k] {
                    Verdict::Prompt => r matches Err(ExecutorError::PromptRequiredButNonInteractive { command })
                        && command@ == commands@[k]@,
                    _ => r matches Err(ExecutorError::DeniedByApprovalGate { command, verdict }) && command@
                        == commands@[k]@ && verdict == Verdict::Deny,
                },
                None => if !self.has_runner {
                    r matches Err(ExecutorError::NotImplementedYet { which, session }) && which@
                        == "terraform_subprocess_via_docker"@ && session@ == "S5"@
                } else {
                    r matches Ok(run) && run.run_id == run_id && str_views(run.authorized@) == str_views(commands@)
                        && run.next == 0 && run.outcomes@.len() == 0 && run.working_dir@ == match self.cwd_override {
                        Some(c) => c@,
                        None => default_working_dir@,
                    } && run.log_dir@ == spec_log_dir(run.working_dir@, run_id)
                },
            },
    {
        let mut authorized: Vec<String> = Vec::new();
        let mut i: usize = 0;
        while i < commands.len()
            invariant
                verdicts@.len() == commands@.len(),
                i <= commands@.len(),
                forall|j: int| 0 <= j < i ==> #[trigger] verdicts@[j] == Verdict::Allow,
                str_views(authorized@) == str_views(commands@.take(i as int)),
            decreases commands@.len() - i,
        {
            match verdicts[i] {
                Verdict::Allow => {
                    let ghost before = authorized@;
                    let c = commands[i].clone();
                    let ghost cv = c@;
                    authorized.push(c);
                    proof {
                        assert(str_views(authorized@) =~= str_views(before).push(cv));
                        assert(str_views(commands@.take(i + 1)) =~= str_views(commands@.take(i as int)).push(commands@[i as int]@));
                    }
                },
                Verdict::Prompt => {
                    proof {
                        lemma_first_refused_at(verdicts@, i as int);
                    }
                    return Err(ExecutorError::PromptRequiredButNonInteractive { command: commands[i].clone() });
                },
                Verdict::Deny => {
                    proof {
                        lemma_first_refused_at(verdicts@, i as int);
                    }
                    return Err(ExecutorError::DeniedByApprovalGate { command: commands[i].clone(), verdict: Verdict::Deny });
                },
            }
            i = i + 1;
        }
        proof {
            assert(commands@.take(commands@.len() as int) =~= commands@);
            if first_refused(verdicts@) is Some {
                let k = choose|k: int| 0 <= k < verdicts@.len() && #[trigger] verdicts@[k] != Verdict::Allow;
                assert(verdicts@[k] == Verdict::Allow);
            }
        }
        if !self.has_runner {
            return Err(ExecutorError::NotImplementedYet {
                which: owned("terraform_subprocess_via_docker"),
                session: owned("S5"),
            });
        }
        let working_dir = match &self.cwd_override {
            Some(c) => c.clone(),
            None => default_working_dir,
        };
        let a = join_path(working_dir.as_str(), ".terrashift");
        let b = join_path(a.as_str(), "runs");
        let id = uuid_string(run_id);
        let c = join_path(b.as_str(), id.as_str());
        let log_dir = join_path(c.as_str(), "logs");
        Ok(ApplyRun { run_id, working_dir, log_dir, authorized, next: 0, outcomes: Vec::new() })
    }
}

proof fn lemma_first_refused_at(verdicts: Seq<Verdict>, i: int)
    requires
        0 <= i < verdicts.len(),
        verdicts[i] != Verdict::Allow,
        forall|j: int| 0 <= j < i ==> #[trigger] verdicts[j] == Verdict::Allow,
    ensures
        first_refused(verdicts) == Some(i),
{
    assert(verdicts[i] != Verdict::Allow);
    let c = choose|k: int| 0 <= k < verdicts.len() && #[trigger] verdicts[k] != Verdict::Allow
        && forall|j: int| 0 <= j < k ==> #[trigger] verdicts[j] == Verdict::Allow;
    if c < i {
        assert(verdicts[c] == Verdict::Allow);
    } else if c > i {
        assert(verdicts[i] == Verdict::Allow);
    }
}

} // verus!
