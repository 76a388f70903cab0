//! Rules of the shell tool: who may use it, which commands go to the background,
//! and what is reported of a background job.

use crate::json::{
    Json, as_object, as_text, entries_of, field, items, json_of, lists, lookup, no_entries,
};
use crate::text::{
    decimal, decimal_text, join_texts, joined, lines, opt_str, opt_text, own_opt, same_text,
    split_lines, starts_with_text, texts, trim, trim_text,
};
use serde_json::Map as JsonMap;
use serde_json::Value;
use vstd::prelude::*;

verus! {

// ---------------------------------------------------------------------------
// Background jobs
// ---------------------------------------------------------------------------

/// The state of a background job, with what it has written.
#[derive(Debug)]
pub enum JobState {
    Running { output: String },
    Completed { output: String, exit_code: i32 },
    Cancelled { output: String },
}

impl Clone for JobState {
    fn clone(&self) -> (r: JobState)
        ensures
            r == *self,
    {
        match self {
            JobState::Running { output } => JobState::Running { output: output.clone() },
            JobState::Completed { output, exit_code } => JobState::Completed {
                output: output.clone(),
                exit_code: *exit_code,
            },
            JobState::Cancelled { output } => JobState::Cancelled { output: output.clone() },
        }
    }
}

/// The state of a background job, as it is reported.
#[derive(Debug, Clone, Copy, PartialEq, Eq, Structural)]
pub enum BackgroundJobState {
    Running,
    Completed,
    Failed,
    Cancelled,
}

/// What is shown around the output of a job.
#[derive(Debug, PartialEq, Eq)]
pub struct BackgroundDisplay {
    pub header: String,
    pub footer: Option<String>,
}

/// The report on a background job.
#[derive(Debug, PartialEq, Eq)]
pub struct BackgroundShellOutcome {
    pub state: BackgroundJobState,
    pub exit_code: Option<i32>,
    pub is_error: bool,
    pub display: Option<BackgroundDisplay>,
}

/// What came of a request to the shell tool.
#[derive(Debug, PartialEq, Eq)]
pub enum ShellOutcome {
    Exit(i32),
    Background(BackgroundShellOutcome),
    BackgroundLookupError(String),
    Blocked,
}

/// What a [`ShellOutcome`] says.
pub enum Outcome {
    Exit(i32),
    Background {
        state: BackgroundJobState,
        exit_code: Option<i32>,
        is_error: bool,
        header: Option<Seq<char>>,
        footer: Option<Seq<char>>,
    },
    LookupError(Seq<char>),
    Blocked,
}

impl View for ShellOutcome {
    type V = Outcome;

    open spec fn view(&self) -> Outcome {
        match *self {
            ShellOutcome::Exit(code) => Outcome::Exit(code),
            ShellOutcome::Background(b) => Outcome::Background {
                state: b.state,
                exit_code: b.exit_code,
                is_error: b.is_error,
                header: match b.display {
                    Some(d) => Some(d.header@),
                    None => None,
                },
                footer: match b.display {
                    Some(d) => opt_text(d.footer),
                    None => None,
                },
            },
            ShellOutcome::BackgroundLookupError(message) => Outcome::LookupError(message@),
            ShellOutcome::Blocked => Outcome::Blocked,
        }
    }
}

/// The outcome is a failure of the tool.
pub open spec fn is_failure(o: Outcome) -> bool {
    match o {
        Outcome::Exit(code) => code != 0,
        Outcome::Background { is_error, .. } => is_error,
        Outcome::LookupError(_) => true,
        Outcome::Blocked => true,
    }
}

impl ShellOutcome {
    /// Whether the outcome is a failure of the tool.
    pub fn is_error(&self) -> (r: bool)
        ensures
            r == is_failure(self@),
    {
        match self {
            ShellOutcome::Exit(code) => *code != 0,
            ShellOutcome::Background(b) => b.is_error,
            ShellOutcome::BackgroundLookupError(_) => true,
            ShellOutcome::Blocked => true,
        }
    }
}

/// The exit code of a job that was stopped on request.
pub const CANCELLED_EXIT_CODE: i32 = 130;

/// A signed number in decimal.
pub open spec fn signed(n: int) -> Seq<char> {
    if n < 0 {
        "-"@ + decimal((-n) as nat)
    } else {
        decimal(n as nat)
    }
}

fn signed_text(n: i32) -> (r: String)
    ensures
        r@ == signed(n as int),
{
    if n < 0 {
        "-".to_owned().concat(decimal_text((-(n as i64)) as u64).as_str())
    } else {
        decimal_text(n as u64)
    }
}

/// The line before the output of a job.
pub open spec fn job_header(id: Seq<char>, what: Seq<char>) -> Seq<char> {
    "[background:"@ + id + " "@ + what + "]"@
}

/// The line behind the output of a job that has ended.
pub open spec fn job_footer(id: Seq<char>, what: Seq<char>, code: i32) -> Seq<char> {
    "["@ + what + ": "@ + id + ", exit "@ + signed(code as int) + "]"@
}

/// The name of a reported state.
pub open spec fn state_name(s: BackgroundJobState) -> Seq<char> {
    match s {
        BackgroundJobState::Running => "running"@,
        BackgroundJobState::Completed => "completed"@,
        BackgroundJobState::Failed => "failed"@,
        BackgroundJobState::Cancelled => "cancelled"@,
    }
}

fn name_of_state(s: BackgroundJobState) -> (r: &'static str)
    ensures
        r@ == state_name(s),
{
    match s {
        BackgroundJobState::Running => "running",
        BackgroundJobState::Completed => "completed",
        BackgroundJobState::Failed => "failed",
        BackgroundJobState::Cancelled => "cancelled",
    }
}

/// The report on a job that has ended. The exit code is data: it is a failure of
/// a request for the status, and never one of a request to cancel.
pub open spec fn ended(id: Seq<char>, cancel: bool, s: BackgroundJobState, code: i32) -> Outcome {
    Outcome::Background {
        state: s,
        exit_code: Some(code),
        is_error: !cancel && code != 0,
        header: Some(job_header(id, state_name(s))),
        footer: Some(job_footer(id, state_name(s), code)),
    }
}

/// The text and the report for a request on a job: for its status, or to cancel it.
pub open spec fn job_report(id: Seq<char>, cancel: bool, job: Option<JobState>) -> (
    Seq<char>,
    Outcome,
) {
    match job {
        Some(JobState::Running { output }) => (
            output@,
            Outcome::Background {
                state: if cancel {
                    BackgroundJobState::Cancelled
                } else {
                    BackgroundJobState::Running
                },
                exit_code: None,
                is_error: false,
                header: Some(
                    job_header(
                        id,
                        if cancel {
                            "cancel requested"@
                        } else {
                            "running"@
                        },
                    ),
                ),
                footer: None,
            },
        ),
        Some(JobState::Completed { output, exit_code }) => (
            output@,
            ended(
                id,
                cancel,
                if exit_code == 0 {
                    BackgroundJobState::Completed
                } else {
                    BackgroundJobState::Failed
                },
                exit_code,
            ),
        ),
        Some(JobState::Cancelled { output }) => (
            output@,
            ended(id, cancel, BackgroundJobState::Cancelled, CANCELLED_EXIT_CODE),
        ),
        None => if cancel {
            ("nothing to cancel: no background job "@ + id, Outcome::Exit(0))
        } else {
            ("no background job "@ + id, Outcome::LookupError("no background job "@ + id))
        },
    }
}

fn header_text(id: &str, what: &str) -> (r: String)
    ensures
        r@ == job_header(id@, what@),
{
    "[background:".to_owned().concat(id).concat(" ").concat(what).concat("]")
}

fn report_ended(id: &str, cancel: bool, state: BackgroundJobState, code: i32) -> (r: ShellOutcome)
    ensures
        r@ == ended(id@, cancel, state, code),
{
    let name = name_of_state(state);
    let footer = "[".to_owned().concat(name).concat(": ").concat(id).concat(", exit ").concat(
        signed_text(code).as_str(),
    ).concat("]");
    ShellOutcome::Background(
        BackgroundShellOutcome {
            state,
            exit_code: Some(code),
            is_error: !cancel && code != 0,
            display: Some(
                BackgroundDisplay { header: header_text(id, name), footer: Some(footer) },
            ),
        },
    )
}

/// Reports on a background job, for a request for its status or to cancel it.
pub fn format_background_state(id: &str, cancel: bool, job: Option<JobState>) -> (r: (
    String,
    ShellOutcome,
))
    ensures
        (r.0@, r.1@) == job_report(id@, cancel, job),
{
    match job {
        Some(JobState::Running { output }) => {
            let state = if cancel {
                BackgroundJobState::Cancelled
            } else {
                BackgroundJobState::Running
            };
            let what = if cancel {
                "cancel requested"
            } else {
                "running"
            };
            let outcome = BackgroundShellOutcome {
                state,
                exit_code: None,
                is_error: false,
                display: Some(BackgroundDisplay { header: header_text(id, what), footer: None }),
            };
            (output, ShellOutcome::Background(outcome))
        },
        Some(JobState::Completed { output, exit_code }) => {
            let state = if exit_code == 0 {
                BackgroundJobState::Completed
            } else {
                BackgroundJobState::Failed
            };
            (output, report_ended(id, cancel, state, exit_code))
        },
        Some(JobState::Cancelled { output }) => (
            output,
            report_ended(id, cancel, BackgroundJobState::Cancelled, CANCELLED_EXIT_CODE),
        ),
        None => {
            if cancel {
                (
                    "nothing to cancel: no background job ".to_owned().concat(id),
                    ShellOutcome::Exit(0),
                )
            } else {
                let message = "no background job ".to_owned().concat(id);
                (message.clone(), ShellOutcome::BackgroundLookupError(message))
            }
        },
    }
}

/// A request to cancel is never reported as a failure, whatever became of the job.
pub proof fn a_cancel_never_fails(id: Seq<char>, job: Option<JobState>)
    ensures
        !is_failure(job_report(id, true, job).1),
{
}

/// A request to cancel a running job does not read like a request for its status.
pub proof fn a_cancel_is_no_poll(id: Seq<char>, output: String)
    ensures
        job_report(id, true, Some(JobState::Running { output })).1 != job_report(
            id,
            false,
            Some(JobState::Running { output }),
        ).1,
{
}

/// A request for the status fails exactly where the job is unknown, was stopped,
/// or ended with a code other than zero.
pub proof fn a_poll_reports_failures(id: Seq<char>, job: Option<JobState>)
    ensures
        is_failure(job_report(id, false, job).1) <==> match job {
            Some(JobState::Running { .. }) => false,
            Some(JobState::Completed { exit_code, .. }) => exit_code != 0,
            Some(JobState::Cancelled { .. }) => true,
            None => true,
        },
{
}

// ---------------------------------------------------------------------------
// Timeouts
// ---------------------------------------------------------------------------

/// From this many milliseconds on, a long command goes to the background by itself.
pub const AUTO_BACKGROUND_MS: u64 = 300_000;

/// A line that runs the tests of a crate.
pub open spec fn runs_tests(line: Seq<char>) -> bool {
    "cargo test"@.is_prefix_of(trim(line))
}

/// The command goes to the background by itself: it may take long, and one of
/// its lines runs tests.
pub open spec fn goes_to_background(command: Seq<char>, timeout_ms: Option<u64>) -> bool {
    &&& timeout_ms is Some
    &&& timeout_ms->0 >= AUTO_BACKGROUND_MS
    &&& exists|i: int| 0 <= i < lines(command).len() && runs_tests(#[trigger] lines(command)[i])
}

/// Whether the command goes to the background by itself.
pub fn should_auto_background(command: &str, timeout_ms: Option<u64>) -> (r: bool)
    ensures
        r == goes_to_background(command@, timeout_ms),
{
    match timeout_ms {
        None => {
            return false;
        },
        Some(ms) => {
            if ms < AUTO_BACKGROUND_MS {
                return false;
            }
        },
    }
    let ls = split_lines(command);
    let mut i: usize = 0;
    while i < ls.len()
        invariant
            i <= ls@.len(),
            texts(ls@) == lines(command@),
            timeout_ms is Some,
            timeout_ms->0 >= AUTO_BACKGROUND_MS,
            forall|j: int| 0 <= j < i ==> !runs_tests(#[trigger] lines(command@)[j]),
        decreases ls@.len() - i,
    {
        assert(lines(command@)[i as int] == ls@[i as int]@);
        if starts_with_text(trim_text(ls[i].as_str()).as_str(), "cargo test") {
            return true;
        }
        i += 1;
    }
    assert(texts(ls@).len() == ls@.len());
    false
}

/// The exit code of a command that took too long.
pub const TIMEOUT_EXIT_CODE: i32 = 124;

/// The line that the watchdog writes first.
pub open spec fn is_notice(line: Seq<char>) -> bool {
    "ERROR: command timed out after "@.is_prefix_of(line)
}

/// A line that the watchdog writes behind it.
pub open spec fn is_notice_detail(line: Seq<char>) -> bool {
    "[still running at timeout:"@.is_prefix_of(trim(line))
}

/// The output is the notice of the watchdog and nothing of the command's own.
pub open spec fn is_only_notice(output: Seq<char>, exit_code: i32) -> bool {
    let ls = lines(trim(output));
    &&& exit_code == TIMEOUT_EXIT_CODE
    &&& ls.len() > 0
    &&& is_notice(ls[0])
    &&& forall|i: int| 1 <= i < ls.len() ==> is_notice_detail(#[trigger] ls[i])
}

/// Whether the output is the notice of the watchdog and nothing of the command's
/// own, so that there is nothing to recover.
pub fn is_timeout_notice_only(output: &str, exit_code: i32) -> (r: bool)
    ensures
        r == is_only_notice(output@, exit_code),
{
    if exit_code != TIMEOUT_EXIT_CODE {
        return false;
    }
    let ls = split_lines(trim_text(output).as_str());
    let ghost model = lines(trim(output@));
    assert(texts(ls@).len() == ls@.len());
    if ls.len() == 0 {
        return false;
    }
    assert(model[0] == ls@[0]@);
    if !starts_with_text(ls[0].as_str(), "ERROR: command timed out after ") {
        return false;
    }
    let mut i: usize = 1;
    while i < ls.len()
        invariant
            1 <= i <= ls@.len(),
            model == lines(trim(output@)),
            texts(ls@) == model,
            forall|j: int| 1 <= j < i ==> is_notice_detail(#[trigger] model[j]),
        decreases ls@.len() - i,
    {
        assert(model[i as int] == ls@[i as int]@);
        if !starts_with_text(trim_text(ls[i].as_str()).as_str(), "[still running at timeout:") {
            return false;
        }
        i += 1;
    }
    true
}

// ---------------------------------------------------------------------------
// Access
// ---------------------------------------------------------------------------

/// What the tool knows of the client.
#[derive(Debug)]
pub struct ToolContext {
    pub client_role: Option<String>,
    pub shell_access: Option<bool>,
}

impl Default for ToolContext {
    fn default() -> (r: ToolContext)
        ensures
            r.client_role is None,
            r.shell_access is None,
    {
        ToolContext { client_role: None, shell_access: None }
    }
}

/// What the tool answers.
#[derive(Debug)]
pub struct ToolOutput {
    pub text: String,
    pub shell_outcome: Option<ShellOutcome>,
}

/// Why a request fails before anything is run.
#[derive(Debug)]
pub struct ToolError {
    pub message: String,
}

/// A role that may not run commands.
pub open spec fn is_barred(role: Seq<char>) -> bool {
    role == "untrusted"@ || role == "readonly"@
}

/// The refusal that the client gets; nothing where it may run commands.
pub open spec fn denial_text(role: Option<Seq<char>>, access: Option<bool>) -> Option<Seq<char>> {
    if role is Some && is_barred(role->0) {
        Some("SHELL ACCESS DENIED: a client with the role "@ + role->0 + " cannot run shell commands"@)
    } else if access == Some(false) {
        Some("SHELL ACCESS DENIED: shell access is off for this client; it needs shell_access=true"@)
    } else {
        None
    }
}

/// The refusal that the client gets. A client of whom nothing is known may run
/// commands.
pub fn shell_access_denial(ctx: &ToolContext) -> (r: Option<ToolOutput>)
    ensures
        match r {
            Some(out) => denial_text(opt_text(ctx.client_role), ctx.shell_access) == Some(out.text@)
                && out.shell_outcome is Some && out.shell_outcome->0@ is Blocked,
            None => denial_text(opt_text(ctx.client_role), ctx.shell_access) is None,
        },
{
    if let Some(role) = &ctx.client_role {
        if same_text(role.as_str(), "untrusted") || same_text(role.as_str(), "readonly") {
            let text = "SHELL ACCESS DENIED: a client with the role ".to_owned().concat(
                role.as_str(),
            ).concat(" cannot run shell commands");
            return Some(ToolOutput { text, shell_outcome: Some(ShellOutcome::Blocked) });
        }
    }
    if let Some(access) = ctx.shell_access {
        if !access {
            let text =
                "SHELL ACCESS DENIED: shell access is off for this client; it needs shell_access=true".to_owned();
            return Some(ToolOutput { text, shell_outcome: Some(ShellOutcome::Blocked) });
        }
    }
    None
}

/// The message for a directory that nothing can vouch for.
pub open spec fn unvalidated_message(dir: Seq<char>) -> Seq<char> {
    "cannot validate working directory "@ + dir + ": the session is not available"@
}

/// The directory to run a command in: the one that the session resolved. Where
/// the session is not available, a directory that was asked for is refused.
pub fn resolve_effective_cwd(session_cwd: Option<&str>, requested: Option<&str>) -> (r: Result<
    Option<String>,
    ToolError,
>)
    ensures
        match r {
            Ok(dir) => (session_cwd is Some || requested is None) && opt_text(dir) == opt_str(
                session_cwd,
            ),
            Err(e) => session_cwd is None && requested is Some && e.message@ == unvalidated_message(
                requested->0@,
            ),
        },
{
    match (session_cwd, requested) {
        (None, Some(dir)) => Err(
            ToolError {
                message: "cannot validate working directory ".to_owned().concat(dir).concat(
                    ": the session is not available",
                ),
            },
        ),
        _ => Ok(own_opt(session_cwd)),
    }
}

// ---------------------------------------------------------------------------
// Environment
// ---------------------------------------------------------------------------

/// The variables that a list sets. Of two with the same name the later one counts.
pub open spec fn vars_of(pairs: Seq<(String, String)>) -> Map<Seq<char>, Seq<char>>
    decreases pairs.len(),
{
    if pairs.len() == 0 {
        Map::empty()
    } else {
        vars_of(pairs.drop_last()).insert(pairs.last().0@, pairs.last().1@)
    }
}

/// Variables to run a command with.
#[derive(Debug)]
pub struct ExtraEnv {
    pub vars: Vec<(String, String)>,
}

impl View for ExtraEnv {
    type V = Map<Seq<char>, Seq<char>>;

    open spec fn view(&self) -> Map<Seq<char>, Seq<char>> {
        vars_of(self.vars@)
    }
}

impl ExtraEnv {
    /// The value of a variable, where it is set.
    pub fn get(&self, key: &str) -> (r: Option<&String>)
        ensures
            match r {
                Some(value) => self@.dom().contains(key@) && self@[key@] == value@,
                None => !self@.dom().contains(key@),
            },
    {
        let mut i: usize = self.vars.len();
        assert(self.vars@.take(i as int) =~= self.vars@);
        while i > 0
            invariant
                i <= self.vars@.len(),
                self@.dom().contains(key@) <==> vars_of(self.vars@.take(i as int)).dom().contains(
                    key@,
                ),
                self@.dom().contains(key@) ==> self@[key@] == vars_of(
                    self.vars@.take(i as int),
                )[key@],
            decreases i,
        {
            let ghost front = self.vars@.take(i as int);
            assert(front.drop_last() =~= self.vars@.take(i - 1));
            i -= 1;
            if same_text(self.vars[i].0.as_str(), key) {
                return Some(&self.vars[i].1);
            }
        }
        None
    }

    /// Whether no variable is set.
    pub fn is_empty(&self) -> (r: bool)
        ensures
            r == (self@ == Map::<Seq<char>, Seq<char>>::empty()),
    {
        proof {
            if self.vars@.len() > 0 {
                assert(self@.dom().contains(self.vars@.last().0@));
            }
        }
        self.vars.len() == 0
    }
}

/// The variables that a request asks for: what stands under `env`, where that is
/// an object.
pub open spec fn requested_env(args: Map<Seq<char>, Json>) -> Map<Seq<char>, Json> {
    match field(Json::Object(args), "env"@) {
        Some(Json::Object(env)) => env,
        _ => no_entries(),
    }
}

/// The variables whose values are texts; any other value sets nothing.
pub open spec fn text_vars(env: Map<Seq<char>, Json>) -> Map<Seq<char>, Seq<char>> {
    Map::new(
        |k: Seq<char>| env.dom().contains(k) && env[k] is Text,
        |k: Seq<char>| env[k]->Text_0,
    )
}

/// The protected variables that a request sets, in order, each between backticks.
pub open spec fn refused_keys(env: Map<Seq<char>, Json>) -> Seq<Seq<char>> {
    let first: Seq<Seq<char>> = if env.dom().contains("LD_PRELOAD"@) {
        seq!["`LD_PRELOAD`"@]
    } else {
        seq![]
    };
    if env.dom().contains("PATH"@) {
        first.push("`PATH`"@)
    } else {
        first
    }
}

/// The refusal of a request that sets protected variables.
pub open spec fn env_refusal(env: Map<Seq<char>, Json>) -> Seq<char> {
    "env may not set "@ + joined(refused_keys(env), ", "@) + "; nothing was run"@
}

/// The variables whose values are texts.
fn text_pairs(env: &JsonMap<String, Value>) -> (r: Vec<(String, String)>)
    ensures
        vars_of(r@) == text_vars(entries_of(*env)),
{
    let list = items(env);
    let ghost entries = entries_of(*env);
    let mut out: Vec<(String, String)> = Vec::new();
    let mut i: usize = 0;
    while i < list.len()
        invariant
            i <= list@.len(),
            lists(list@, entries),
            forall|k: Seq<char>| #[trigger]
                vars_of(out@).dom().contains(k) ==> text_vars(entries).dom().contains(k)
                    && vars_of(out@)[k] == text_vars(entries)[k],
            forall|j: int|
                0 <= j < i && json_of(*(#[trigger] list@[j]).1) is Text ==> vars_of(
                    out@,
                ).dom().contains(list@[j].0@),
        decreases list@.len() - i,
    {
        let (key, value) = list[i];
        assert(entries.dom().contains(list@[i as int].0@));
        if let Some(text) = as_text(value) {
            let ghost was = out@;
            out.push((key.clone(), text.to_owned()));
            assert(out@.drop_last() =~= was);
            assert(vars_of(out@) == vars_of(was).insert(key@, text@));
            assert(entries[key@] == Json::Text(text@));
            assert(text_vars(entries).dom().contains(key@));
        }
        i += 1;
    }
    assert(vars_of(out@) =~= text_vars(entries)) by {
        assert forall|k: Seq<char>| text_vars(entries).dom().contains(k) implies vars_of(
            out@,
        ).dom().contains(k) by {
            let j = choose|j: int| 0 <= j < list@.len() && (#[trigger] list@[j]).0@ == k;
            assert(json_of(*list@[j].1) is Text);
        }
    }
    out
}

/// The variables to run a command with: those that the arguments of a request
/// hold under `env`. A request that sets a protected one is refused as a whole,
/// and the refusal names each.
pub fn collect_extra_env(args: &JsonMap<String, Value>) -> (r: Result<ExtraEnv, String>)
    ensures
        ({
            let env = requested_env(entries_of(*args));
            match r {
                Ok(accepted) => refused_keys(env).len() == 0 && accepted@ == text_vars(env),
                Err(e) => refused_keys(env).len() > 0 && e@ == env_refusal(env),
            }
        }),
{
    let ghost wanted = requested_env(entries_of(*args));
    let env = match lookup(args, "env") {
        Some(v) => as_object(v),
        None => None,
    };
    match env {
        None => {
            let accepted = ExtraEnv { vars: Vec::new() };
            assert(accepted@ =~= text_vars(wanted));
            Ok(accepted)
        },
        Some(m) => {
            let mut refused: Vec<String> = Vec::new();
            if lookup(m, "LD_PRELOAD").is_some() {
                refused.push("`LD_PRELOAD`".to_owned());
            }
            if lookup(m, "PATH").is_some() {
                refused.push("`PATH`".to_owned());
            }
            assert(texts(refused@) =~= refused_keys(wanted));
            if refused.len() == 0 {
                return Ok(ExtraEnv { vars: text_pairs(m) });
            }
            Err(
                "env may not set ".to_owned().concat(join_texts(&refused, ", ").as_str()).concat(
                    "; nothing was run",
                ),
            )
        },
    }
}

/// A request that sets `PATH` or `LD_PRELOAD` is refused, whatever else it sets,
/// and no other request is.
pub proof fn protected_variables_are_refused(args: Map<Seq<char>, Json>)
    ensures
        refused_keys(requested_env(args)).len() > 0 <==> requested_env(args).dom().contains(
            "PATH"@,
        ) || requested_env(args).dom().contains("LD_PRELOAD"@),
{
}

/// No variable that is handed on is a protected one.
pub proof fn accepted_variables_are_unprotected(env: Map<Seq<char>, Json>)
    requires
        refused_keys(env).len() == 0,
    ensures
        !text_vars(env).dom().contains("PATH"@),
        !text_vars(env).dom().contains("LD_PRELOAD"@),
{
}

} // verus!
