//! What the shell tool reports, runs and refuses.

use crate::json::Json;
use crate::shell::{
    BackgroundJobState, JobState, Outcome, denial_text, env_refusal, goes_to_background,
    is_failure, is_notice_detail, is_only_notice, job_report, refused_keys, requested_env, runs_tests, signed,
    text_vars,
};
use crate::text::{
    chomp, decimal, is_blank, is_white, joined, lemma_find_char, lines, occurs, occurs_at, trim,
};
use crate::text_laws::{
    lines_end_at_line_feeds, lines_of_two_texts, trailing_white_space_makes_no_difference,
    trimming_takes_the_white_space_around,
};
use vstd::prelude::*;

verus! {

// ---------------------------------------------------------------------------
// Background jobs
// ---------------------------------------------------------------------------

/// What a job has written is handed on as it is, whatever was asked for.
pub proof fn the_output_is_handed_on(id: Seq<char>, cancel: bool, output: String, exit_code: i32)
    ensures
        job_report(id, cancel, Some(JobState::Running { output })).0 == output@,
        job_report(id, cancel, Some(JobState::Completed { output, exit_code })).0 == output@,
        job_report(id, cancel, Some(JobState::Cancelled { output })).0 == output@,
{
}

/// The line before the output.
pub open spec fn header_of(id: Seq<char>, word: Seq<char>) -> Seq<char> {
    "[background:"@ + id + " "@ + word + "]"@
}

/// The line behind the output of a job that has ended.
pub open spec fn footer_of(id: Seq<char>, word: Seq<char>, code: Seq<char>) -> Seq<char> {
    "["@ + word + ": "@ + id + ", exit "@ + code + "]"@
}

/// A running job has no exit code and no footer, and is never a failure. A cancel
/// is reported as one, and a poll as a poll.
pub proof fn a_running_job_has_no_end(id: Seq<char>, cancel: bool, output: String)
    ensures
        job_report(id, cancel, Some(JobState::Running { output })).1 == (Outcome::Background {
            state: if cancel {
                BackgroundJobState::Cancelled
            } else {
                BackgroundJobState::Running
            },
            exit_code: None,
            is_error: false,
            header: Some(
                header_of(
                    id,
                    if cancel {
                        "cancel requested"@
                    } else {
                        "running"@
                    },
                ),
            ),
            footer: None,
        }),
{
}

/// A job that ended is reported with the very code that it ended with, as failed
/// exactly where that is not zero; a failure of the tool it is for a poll alone.
pub proof fn an_ended_job_keeps_its_code(
    id: Seq<char>,
    cancel: bool,
    output: String,
    exit_code: i32,
)
    ensures
        ({
            let word = if exit_code == 0 {
                "completed"@
            } else {
                "failed"@
            };
            let code = if exit_code < 0 {
                "-"@ + decimal((-exit_code) as nat)
            } else {
                decimal(exit_code as nat)
            };
            job_report(id, cancel, Some(JobState::Completed { output, exit_code })).1 == (
            Outcome::Background {
                state: if exit_code == 0 {
                    BackgroundJobState::Completed
                } else {
                    BackgroundJobState::Failed
                },
                exit_code: Some(exit_code),
                is_error: !cancel && exit_code != 0,
                header: Some(header_of(id, word)),
                footer: Some(footer_of(id, word, code)),
            })
        }),
{
}

/// A job that was stopped on request ended with 130, and is a failure of the tool
/// for a poll alone.
pub proof fn a_stopped_job_ended_with_its_code(id: Seq<char>, cancel: bool, output: String)
    ensures
        job_report(id, cancel, Some(JobState::Cancelled { output })).1 == (Outcome::Background {
            state: BackgroundJobState::Cancelled,
            exit_code: Some(130),
            is_error: !cancel,
            header: Some(header_of(id, "cancelled"@)),
            footer: Some(footer_of(id, "cancelled"@, decimal(130))),
        }),
{
}

/// A job that is unknown: nothing to cancel, which is well; a poll fails, and both
/// name the job.
pub proof fn an_unknown_job_is_named(id: Seq<char>)
    ensures
        job_report(id, true, None).1 == Outcome::Exit(0),
        job_report(id, false, None).1 == Outcome::LookupError(job_report(id, false, None).0),
        occurs(job_report(id, true, None).0, id),
        occurs(job_report(id, false, None).0, id),
{
    let a = job_report(id, true, None).0;
    let b = job_report(id, false, None).0;
    let i = a.len() - id.len();
    let j = b.len() - id.len();
    assert(a.subrange(i, i + id.len()) =~= id);
    assert(b.subrange(j, j + id.len()) =~= id);
    assert(occurs_at(a, id, i));
    assert(occurs_at(b, id, j));
}

/// An outcome is a failure exactly where a command ended with a code other than
/// zero, a report says so, a job is unknown, or the request was blocked.
pub proof fn failures_are_told(o: Outcome)
    ensures
        match o {
            Outcome::Exit(code) => is_failure(o) == (code != 0),
            Outcome::Background { is_error, .. } => is_failure(o) == is_error,
            Outcome::LookupError(_) => is_failure(o),
            Outcome::Blocked => is_failure(o),
        },
        forall|n: nat| #[trigger] signed(n as int) == decimal(n),
{
}

// ---------------------------------------------------------------------------
// Long commands
// ---------------------------------------------------------------------------

proof fn lemma_chomped(line: Seq<char>)
    ensures
        trim(chomp(line)) == trim(line),
{
    if line.len() > 0 && line.last() == '\r' {
        trailing_white_space_makes_no_difference(line.drop_last(), '\r');
        assert(line.drop_last().push('\r') =~= line);
    }
}

/// A command of several lines goes to the background by itself exactly where one
/// of its lines does; a line does where it runs tests, and may take five minutes
/// or more; and one without a time limit never does.
pub proof fn a_command_goes_line_by_line(line: Seq<char>, rest: Seq<char>, ms: u64)
    requires
        !line.contains('\n'),
    ensures
        goes_to_background(line + seq!['\n'] + rest, Some(ms)) <==> ms >= 300_000 && "cargo test"@.is_prefix_of(
            trim(line),
        ) || goes_to_background(rest, Some(ms)),
        line.len() > 0 ==> (goes_to_background(line, Some(ms)) <==> ms >= 300_000
            && "cargo test"@.is_prefix_of(trim(line))),
        !goes_to_background(rest, None),
        ms < 300_000 ==> !goes_to_background(rest, Some(ms)),
        !goes_to_background(Seq::empty(), Some(ms)),
{
    lines_end_at_line_feeds(line, rest);
    lemma_chomped(line);
    let all = lines(line + seq!['\n'] + rest);
    assert(all[0] == chomp(line));
    if goes_to_background(line + seq!['\n'] + rest, Some(ms)) {
        let i = choose|i: int| 0 <= i < all.len() && runs_tests(#[trigger] all[i]);
        if i > 0 {
            assert(lines(rest)[i - 1] == all[i]);
        }
    }
    if goes_to_background(rest, Some(ms)) {
        let i = choose|i: int| 0 <= i < lines(rest).len() && runs_tests(#[trigger] lines(rest)[i]);
        assert(all[i + 1] == lines(rest)[i]);
    }
    if ms >= 300_000 && "cargo test"@.is_prefix_of(trim(line)) {
        assert(runs_tests(all[0]));
        if line.len() > 0 {
            assert(lines(line)[0] == line);
        }
    }
    if line.len() > 0 {
        assert(lines(line) =~= seq![line]);
    }
}

/// A longer limit never keeps a command in the foreground.
pub proof fn a_longer_limit_never_keeps_it(command: Seq<char>, ms: u64, more: u64)
    requires
        ms <= more,
        goes_to_background(command, Some(ms)),
    ensures
        goes_to_background(command, Some(more)),
{
}

// ---------------------------------------------------------------------------
// The watchdog's notice
// ---------------------------------------------------------------------------

/// A text that starts and ends with something other than white space.
pub open spec fn is_solid(s: Seq<char>) -> bool {
    s.len() > 0 && !is_white(s[0]) && !is_white(s.last())
}

proof fn lemma_solid(s: Seq<char>)
    requires
        is_solid(s),
    ensures
        trim(s) == s,
{
    let nothing = Seq::<char>::empty();
    trimming_takes_the_white_space_around(nothing, s, nothing);
    assert(nothing + s + nothing =~= s);
}

/// One line alone is the notice exactly where it starts as the watchdog starts it
/// and the command took too long; white space around it means nothing.
pub proof fn the_notice_is_told_by_its_start(line: Seq<char>, exit_code: i32)
    requires
        is_solid(line),
        !line.contains('\n'),
    ensures
        is_only_notice(line, exit_code) <==> exit_code == 124
            && "ERROR: command timed out after "@.is_prefix_of(line),
        exit_code != 124 ==> !is_only_notice(line, exit_code),
{
    lemma_solid(line);
    lines_end_at_line_feeds(line, Seq::empty());
    assert(lines(trim(line)) =~= seq![line]);
}

/// A further line behind an output is nothing to recover exactly where the watchdog
/// wrote that line too.
pub proof fn a_line_of_output_is_recoverable(output: Seq<char>, line: Seq<char>, exit_code: i32)
    requires
        is_solid(output),
        is_solid(line),
        !line.contains('\n'),
    ensures
        is_only_notice(output + seq!['\n'] + line, exit_code) <==> is_only_notice(output, exit_code)
            && "[still running at timeout:"@.is_prefix_of(line),
{
    let all = output + seq!['\n'] + line;
    lemma_solid(output);
    lemma_solid(line);
    assert(all.last() == line.last());
    lemma_solid(all);
    assert(is_white('\n') && is_white('\r'));
    lines_of_two_texts(output, line);
    lines_end_at_line_feeds(line, Seq::empty());
    let before = lines(output);
    let ls = lines(all);
    assert(ls =~= before.push(line));
    lemma_some_line(output);
    assert(ls[0] == before[0]);
    if is_only_notice(all, exit_code) {
        assert(ls[before.len() as int] == line);
        assert forall|i: int| 1 <= i < before.len() implies is_notice_detail(
            #[trigger] before[i],
        ) by {
            assert(is_notice_detail(ls[i]));
        }
    }
    if is_only_notice(output, exit_code) && "[still running at timeout:"@.is_prefix_of(line) {
        assert forall|i: int| 1 <= i < ls.len() implies is_notice_detail(
            #[trigger] ls[i],
        ) by {
            if i < before.len() {
                assert(is_notice_detail(before[i]));
            }
        }
    }
}

proof fn lemma_some_line(s: Seq<char>)
    requires
        s.len() > 0,
    ensures
        lines(s).len() > 0,
{
    lemma_find_char(s, '\n');
}

/// Only the output without the white space around it matters.
pub proof fn white_space_around_the_notice_means_nothing(
    before: Seq<char>,
    output: Seq<char>,
    behind: Seq<char>,
    exit_code: i32,
)
    requires
        is_blank(before),
        is_blank(behind),
        is_solid(output),
    ensures
        is_only_notice(before + output + behind, exit_code) == is_only_notice(output, exit_code),
{
    trimming_takes_the_white_space_around(before, output, behind);
    lemma_solid(output);
}

// ---------------------------------------------------------------------------
// Access
// ---------------------------------------------------------------------------

/// A client is refused exactly where its role is `untrusted` or `readonly`, or
/// where shell access was switched off for it. Nothing known is no refusal.
pub proof fn who_may_run_commands(role: Option<Seq<char>>, access: Option<bool>)
    ensures
        denial_text(role, access) is None <==> role != Some("untrusted"@) && role != Some(
            "readonly"@,
        ) && access != Some(false),
        denial_text(None, None) is None,
{
}

/// A refusal says so, and names the role or the setting that it is for.
pub proof fn a_refusal_names_its_reason(role: Option<Seq<char>>, access: Option<bool>)
    ensures
        denial_text(role, access) matches Some(text) ==> {
            &&& "SHELL ACCESS DENIED"@.is_prefix_of(text)
            &&& role == Some("untrusted"@) || role == Some("readonly"@) ==> occurs(text, role->0)
            &&& role != Some("untrusted"@) && role != Some("readonly"@) ==> occurs(
                text,
                "shell_access=true"@,
            )
        },
{
    if let Some(text) = denial_text(role, access) {
        let start = "SHELL ACCESS DENIED"@;
        let lead = "SHELL ACCESS DENIED: a client with the role "@;
        let off =
            "SHELL ACCESS DENIED: shell access is off for this client; it needs shell_access=true"@;
        let needed = "shell_access=true"@;
        reveal_strlit("SHELL ACCESS DENIED");
        reveal_strlit("SHELL ACCESS DENIED: a client with the role ");
        reveal_strlit(
            "SHELL ACCESS DENIED: shell access is off for this client; it needs shell_access=true",
        );
        reveal_strlit("shell_access=true");
        assert(start.len() == 19);
        assert(lead.len() == 44);
        assert(needed.len() == 17);
        assert(off.len() == 84);
        if role == Some("untrusted"@) || role == Some("readonly"@) {
            assert(text.subrange(0, 19) =~= start);
            assert(text.subrange(44, 44int + role->0.len()) =~= role->0);
            assert(occurs_at(text, role->0, 44));
        } else {
            assert(text.subrange(0, 19) =~= start);
            assert(off.subrange(67, 84) =~= needed);
            assert(occurs_at(text, needed, 67));
        }
    }
}

// ---------------------------------------------------------------------------
// Environment
// ---------------------------------------------------------------------------

/// The variables of a request stand under `env`, where that is an object; any
/// other request asks for none.
pub proof fn the_variables_stand_under_env(args: Map<Seq<char>, Json>, env: Map<Seq<char>, Json>)
    ensures
        args.dom().contains("env"@) && args["env"@] == Json::Object(env) ==> requested_env(args) == env,
        !args.dom().contains("env"@) || !(args["env"@] is Object) ==> requested_env(args) == Map::<
            Seq<char>,
            Json,
        >::empty(),
{
}

/// A variable is set exactly where its value is a text, and to that text.
pub proof fn texts_are_set_as_they_are(env: Map<Seq<char>, Json>, key: Seq<char>, value: Seq<char>)
    ensures
        text_vars(env).dom().contains(key) && text_vars(env)[key] == value <==> env.dom().contains(
            key,
        ) && env[key] == Json::Text(value),
        env.dom().contains(key) && !(env[key] is Text) ==> !text_vars(env).dom().contains(key),
{
}

/// A refusal names each protected variable that was set, `LD_PRELOAD` first, and
/// says that nothing was run.
pub proof fn a_refusal_names_each_variable(env: Map<Seq<char>, Json>)
    ensures
        ({
            let preload = env.dom().contains("LD_PRELOAD"@);
            let path = env.dom().contains("PATH"@);
            &&& refused_keys(env).len() == 0 <==> !preload && !path
            &&& preload && path ==> env_refusal(env) == "env may not set "@ + ("`LD_PRELOAD`"@
                + ", "@ + "`PATH`"@) + "; nothing was run"@
            &&& preload && !path ==> env_refusal(env) == "env may not set "@ + "`LD_PRELOAD`"@
                + "; nothing was run"@
            &&& !preload && path ==> env_refusal(env) == "env may not set "@ + "`PATH`"@
                + "; nothing was run"@
        }),
{
    let keys = refused_keys(env);
    if env.dom().contains("LD_PRELOAD"@) && env.dom().contains("PATH"@) {
        assert(keys =~= seq!["`LD_PRELOAD`"@, "`PATH`"@]);
        assert(keys.take(1) =~= seq!["`LD_PRELOAD`"@]);
        assert(joined(keys.take(1), ", "@) == "`LD_PRELOAD`"@);
        assert(joined(keys, ", "@) == "`LD_PRELOAD`"@ + ", "@ + "`PATH`"@);
    } else if env.dom().contains("LD_PRELOAD"@) {
        assert(keys =~= seq!["`LD_PRELOAD`"@]);
    } else if env.dom().contains("PATH"@) {
        assert(keys =~= seq!["`PATH`"@]);
    }
}

} // verus!
