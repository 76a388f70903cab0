//! The views leave nothing out: what the contracts speak of is all that a value
//! holds.

use crate::agents::admission::{Caller, settles};
use crate::agents::registry::{
    Agent, AgentEntry, AgentRegistry, ProcessIdentity, ProcessIdentityIndex, unknown_agent,
};
use crate::commandcode::{ConfigWrite, Plan, WriteResult, outcome};
use crate::json::json_of;
use crate::ranges::WindowReader;
use crate::shell::{
    BackgroundDisplay, BackgroundShellOutcome, ExtraEnv, Outcome, ShellOutcome, vars_of,
};
use crate::task_briefing::{files_of, opt_texts};
use crate::text::{opt_str, opt_text, texts};
use serde_json::Value;
use vstd::prelude::*;

verus! {

/// A list of strings is told string by string, and an optional string as it is.
pub proof fn strings_are_told_as_they_are(
    v: Seq<String>,
    o: Seq<Option<String>>,
    i: int,
    s: String,
    t: &str,
)
    ensures
        texts(v).len() == v.len(),
        0 <= i < v.len() ==> texts(v)[i] == v[i]@,
        opt_text(Some(s)) == Some(s@),
        opt_text(None) is None,
        opt_str(Some(t)) == Some(t@),
        opt_str(None) is None,
        opt_texts(o).len() == o.len(),
        0 <= i < o.len() ==> opt_texts(o)[i] == opt_text(o[i]),
{
}

/// A list of files is told file by file.
pub proof fn files_are_told_as_they_are(v: Seq<(String, usize)>, i: int)
    ensures
        files_of(v).len() == v.len(),
        0 <= i < v.len() ==> files_of(v)[i].path == v[i].0@ && files_of(v)[i].lines == v[i].1,
{
}

/// A record is told field by field.
pub proof fn a_record_is_told_as_it_is(a: AgentEntry)
    ensures
        a@.agent_id == a.agent_id@,
        a@.agent_type == a.agent_type@,
        a@.role == opt_text(a.role),
        a@.project_root == a.project_root@,
        a@.started_at == a.started_at@,
        a@.last_active == a.last_active@,
        a@.pid == a.pid,
        a@.process_identity == opt_text(a.process_identity),
        a@.status == a.status,
        a@.status_message == opt_text(a.status_message),
{
}

/// A registry is told record by record, and an index of processes process by
/// process.
pub proof fn a_registry_is_told_as_it_is(
    r: AgentRegistry,
    index: ProcessIdentityIndex,
    p: ProcessIdentity,
    i: int,
)
    ensures
        r@.len() == r.agents@.len(),
        0 <= i < r@.len() ==> r@[i] == r.agents@[i]@,
        index@.len() == index.running@.len(),
        0 <= i < index@.len() ==> index@[i] == index.running@[i]@,
        p@.pid == p.pid,
        p@.identity == p.identity@,
{
}

/// A caller is told field by field.
pub proof fn a_caller_is_told_as_it_is(c: Caller)
    ensures
        c@.pid == c.pid,
        c@.process_identity == opt_text(c.process_identity),
        c@.fresh_id == c.fresh_id@,
        c@.presence_ttl_seconds == c.presence_ttl_seconds,
        c@.scene.running == c.identities@,
        c@.scene.now == c.now@,
        c@.scene.config == c.config,
{
}

/// A registration that is refused leaves the records as they were, and one that
/// goes through leaves those, and gives that id, which it should.
pub proof fn a_registration_settles_the_records(
    before: Seq<Agent>,
    after: Seq<Agent>,
    id: String,
    message: String,
    expected: Result<(Seq<Agent>, Seq<char>), Seq<char>>,
)
    ensures
        settles(before, after, Err(message), expected) <==> after == before && expected == Err::<
            (Seq<Agent>, Seq<char>),
            Seq<char>,
        >(message@),
        settles(before, after, Ok(id), expected) <==> expected == Ok::<
            (Seq<Agent>, Seq<char>),
            Seq<char>,
        >((after, id@)),
        unknown_agent(id@) == "unknown agent: "@ + id@,
{
}

/// A plan for a file is told field by field, and so is the error in its place.
pub proof fn a_plan_is_told_as_it_is(
    result: WriteResult,
    content: String,
    desired: Value,
    overwrite_invalid: bool,
    message: String,
)
    ensures
        outcome(Ok(ConfigWrite::Unchanged { result })) == Ok::<Plan, Seq<char>>(
            Plan::Unchanged { action: result.action, note: opt_text(result.note) },
        ),
        outcome(Ok(ConfigWrite::Write { content, result })) == Ok::<Plan, Seq<char>>(
            Plan::Write {
                content: content@,
                action: result.action,
                note: opt_text(result.note),
            },
        ),
        outcome(Ok(ConfigWrite::Repair { desired, overwrite_invalid })) == Ok::<Plan, Seq<char>>(
            Plan::Repair { desired: json_of(desired), overwrite_invalid },
        ),
        outcome(Err(message)) == Err::<Plan, Seq<char>>(message@),
{
}

/// An outcome of the shell tool is told field by field.
pub proof fn an_outcome_is_told_as_it_is(
    b: BackgroundShellOutcome,
    d: BackgroundDisplay,
    code: i32,
    message: String,
)
    ensures
        ShellOutcome::Exit(code)@ == Outcome::Exit(code),
        ShellOutcome::Blocked@ == Outcome::Blocked,
        ShellOutcome::BackgroundLookupError(message)@ == Outcome::LookupError(message@),
        b.display == Some(d) ==> ShellOutcome::Background(b)@ == (Outcome::Background {
            state: b.state,
            exit_code: b.exit_code,
            is_error: b.is_error,
            header: Some(d.header@),
            footer: opt_text(d.footer),
        }),
        b.display is None ==> ShellOutcome::Background(b)@ == (Outcome::Background {
            state: b.state,
            exit_code: b.exit_code,
            is_error: b.is_error,
            header: None,
            footer: None,
        }),
{
}

/// A reader is told field by field, and variables are set one by one, the later of
/// two with the same name.
pub proof fn a_reader_and_variables_are_told_as_they_are(
    r: WindowReader,
    e: ExtraEnv,
    pairs: Seq<(String, String)>,
    next: (String, String),
)
    ensures
        r@.start == r.start,
        r@.end == r.end,
        r@.seen == r.seen,
        r@.kept == texts(r.kept@),
        e@ == vars_of(e.vars@),
        vars_of(Seq::empty()) == Map::<Seq<char>, Seq<char>>::empty(),
        vars_of(pairs.push(next)) == vars_of(pairs).insert(next.0@, next.1@),
{
    assert(pairs.push(next).drop_last() =~= pairs);
}

} // verus!
