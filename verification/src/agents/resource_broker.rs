//! The rules by which agents share the capacity of one machine.

use crate::agents::registry::{Agent, AgentEntry, AgentStatus};
use crate::text::{
    contains_text, decimal, decimal_text, lowercase, occurs, opt_str, opt_text, same_text,
    to_lowercase,
};
use crate::time::{Instant, Timestamp, elapsed_seconds};
use vstd::prelude::*;

verus! {

/// No setting raises a cap above this.
pub const HARD_MAX_CONCURRENT_WORKERS: usize = 15;

/// The role of a session that is admitted when the mutating cap is full. It
/// holds a machine-wide lease, so that peers see it, but never a mutating slot.
pub const READ_ONLY_PRESENCE_ROLE: &'static str = "read-only";

/// The role of a process that has not yet said what it is for.
pub const PLACEHOLDER_ROLE: &'static str = "context-engine";

/// The start of the message with which the mutating cap refuses. Callers look
/// for it to take the read-only admission instead of losing the session.
pub const MUTATING_CAPACITY_MARKER: &'static str = "machine-wide mutating-agent capacity reached";

/// The settings for agents.
#[derive(Debug, Clone, Copy)]
pub struct AgentsConfig {
    pub max_concurrent_workers: usize,
    pub max_concurrent_mutating_workers: usize,
    pub active_worker_lease_seconds: u64,
}

/// A setting held within 1 and the hard limit.
pub open spec fn cap(setting: usize) -> usize {
    if setting < 1 {
        1
    } else if setting > HARD_MAX_CONCURRENT_WORKERS {
        HARD_MAX_CONCURRENT_WORKERS
    } else {
        setting
    }
}

fn clamp_setting(setting: usize) -> (r: usize)
    ensures
        r == cap(setting),
{
    if setting < 1 {
        1
    } else if setting > HARD_MAX_CONCURRENT_WORKERS {
        HARD_MAX_CONCURRENT_WORKERS
    } else {
        setting
    }
}

/// How many leases the machine has.
pub fn max_concurrent_workers(config: &AgentsConfig) -> (r: usize)
    ensures
        r == cap(config.max_concurrent_workers),
        1 <= r <= HARD_MAX_CONCURRENT_WORKERS,
{
    clamp_setting(config.max_concurrent_workers)
}

/// How many mutating slots the machine has.
pub fn max_concurrent_mutating_workers(config: &AgentsConfig) -> (r: usize)
    ensures
        r == cap(config.max_concurrent_mutating_workers),
        1 <= r <= HARD_MAX_CONCURRENT_WORKERS,
{
    clamp_setting(config.max_concurrent_mutating_workers)
}

/// The words that mark a role as one that changes nothing.
pub open spec fn read_only_markers() -> Seq<Seq<char>> {
    seq![
        "analysis"@,
        "analyst"@,
        "audit"@,
        "mapper"@,
        "research"@,
        "review"@,
        "read-only"@,
        "readonly"@,
    ]
}

/// A role may change things unless one of the markers stands in it, in any case.
pub open spec fn can_mutate(role: Option<Seq<char>>) -> bool {
    let name = lowercase(
        match role {
            Some(r) => r,
            None => seq![],
        },
    );
    !exists|i: int| 0 <= i < read_only_markers().len() && occurs(name, #[trigger] read_only_markers()[i])
}

/// Whether a role may change things.
pub fn role_can_mutate(role: Option<&str>) -> (r: bool)
    ensures
        r == can_mutate(opt_str(role)),
{
    let name = match role {
        Some(text) => to_lowercase(text),
        None => String::new(),
    };
    proof {
        assert(lowercase(Seq::<char>::empty()) =~= Seq::<char>::empty());
        assert(name@ == lowercase(
            match opt_str(role) {
                Some(t) => t,
                None => seq![],
            },
        ));
    }
    let markers: [&str; 8] = [
        "analysis",
        "analyst",
        "audit",
        "mapper",
        "research",
        "review",
        "read-only",
        "readonly",
    ];
    let mut i: usize = 0;
    while i < 8
        invariant
            i <= 8,
            markers@.len() == 8,
            forall|j: int| 0 <= j < 8 ==> (#[trigger] markers@[j])@ == read_only_markers()[j],
            forall|j: int| 0 <= j < i ==> !occurs(name@, #[trigger] read_only_markers()[j]),
            name@ == lowercase(
                match opt_str(role) {
                    Some(t) => t,
                    None => seq![],
                },
            ),
        decreases 8 - i,
    {
        assert(markers@[i as int]@ == read_only_markers()[i as int]);
        if contains_text(name.as_str(), markers[i]) {
            return false;
        }
        i += 1;
    }
    true
}

/// The seconds for which a lease holds without a sign of life: at least one,
/// and no more than the machine's signed numbers hold.
pub open spec fn lease_seconds(config: AgentsConfig) -> int {
    let setting = config.active_worker_lease_seconds as int;
    if setting < 1 {
        1
    } else if setting > i64::MAX {
        i64::MAX as int
    } else {
        setting
    }
}

/// The seconds for which a lease holds without a sign of life.
pub fn active_worker_lease_seconds(config: &AgentsConfig) -> (r: i64)
    ensures
        r == lease_seconds(*config),
        r >= 1,
{
    let setting = config.active_worker_lease_seconds;
    if setting < 1 {
        1
    } else if setting > i64::MAX as u64 {
        i64::MAX
    } else {
        setting as i64
    }
}

/// The agent is active and gave a sign of life within the lease.
pub open spec fn holds_lease(a: Agent, now: Instant, config: AgentsConfig) -> bool {
    a.status is Active && elapsed_seconds(now, a.last_active) <= lease_seconds(config)
}

/// Whether the agent is active and gave a sign of life within the lease.
pub fn has_active_worker_lease(agent: &AgentEntry, now: &Timestamp, config: &AgentsConfig) -> (r:
    bool)
    ensures
        r == holds_lease(agent@, now@, *config),
{
    agent.status == AgentStatus::Active && now.seconds_since(&agent.last_active)
        <= active_worker_lease_seconds(config)
}

/// A registration takes a machine-wide lease, unless it is the placeholder of
/// an MCP process.
pub open spec fn takes_lease(agent_type: Seq<char>, role: Option<Seq<char>>) -> bool {
    !(agent_type == "mcp"@ && role == Some(PLACEHOLDER_ROLE@))
}

/// Whether a registration with this type and role takes a machine-wide lease.
/// The placeholder of an MCP process never does, so no cap may refuse it either.
pub fn registration_consumes_capacity(agent_type: &str, role: Option<&str>) -> (r: bool)
    ensures
        r == takes_lease(agent_type@, opt_str(role)),
{
    let placeholder = match role {
        Some(text) => same_text(text, PLACEHOLDER_ROLE),
        None => false,
    };
    !(same_text(agent_type, "mcp") && placeholder)
}

/// A borrowed form of an optional string.
pub fn borrow_opt(o: &Option<String>) -> (r: Option<&str>)
    ensures
        opt_str(r) == opt_text(*o),
{
    match o {
        Some(s) => Some(s.as_str()),
        None => None,
    }
}

/// Whether an agent's record takes a machine-wide lease.
pub fn consumes_worker_capacity(agent: &AgentEntry) -> (r: bool)
    ensures
        r == takes_lease(agent@.agent_type, agent@.role),
{
    registration_consumes_capacity(agent.agent_type.as_str(), borrow_opt(&agent.role))
}

/// Whether a registration takes a machine-wide lease, and whether it takes a
/// mutating slot.
pub open spec fn profile(agent_type: Seq<char>, role: Option<Seq<char>>) -> (bool, bool) {
    (takes_lease(agent_type, role), takes_lease(agent_type, role) && can_mutate(role))
}

/// Whether a registration takes a machine-wide lease, and whether it takes a
/// mutating slot. A change of role that takes more than before has to pass the
/// caps as a new registration does.
pub fn capacity_profile(agent_type: &str, role: Option<&str>) -> (r: (bool, bool))
    ensures
        r == profile(agent_type@, opt_str(role)),
{
    let consumes = registration_consumes_capacity(agent_type, role);
    (consumes, consumes && role_can_mutate(role))
}

/// The message with which the mutating cap refuses.
pub open spec fn mutating_message(active: nat, limit: nat, config: AgentsConfig) -> Seq<char> {
    MUTATING_CAPACITY_MARKER@ + ": "@ + decimal(active) + "/"@ + decimal(limit)
        + "; a slot frees when another worker finishes or its "@ + decimal(
        lease_seconds(config) as nat,
    )
        + "s lease expires. A session over the cap is admitted read-only (ctx_read, ctx_search, ctx_compose, …) and retries the mutating slot on its next mutating tool call"@
}

/// The message with which the mutating cap refuses.
pub fn mutating_capacity_message(active_mutating: usize, limit: usize, config: &AgentsConfig) -> (r:
    String)
    ensures
        r@ == mutating_message(active_mutating as nat, limit as nat, *config),
{
    let lease = active_worker_lease_seconds(config);
    MUTATING_CAPACITY_MARKER.to_owned().concat(": ").concat(
        decimal_text(active_mutating as u64).as_str(),
    ).concat("/").concat(decimal_text(limit as u64).as_str()).concat(
        "; a slot frees when another worker finishes or its ",
    ).concat(decimal_text(lease as u64).as_str()).concat(
        "s lease expires. A session over the cap is admitted read-only (ctx_read, ctx_search, ctx_compose, …) and retries the mutating slot on its next mutating tool call",
    )
}

/// The message with which the machine-wide cap refuses.
pub open spec fn worker_message(active: nat, limit: nat, project_root: Seq<char>) -> Seq<char> {
    "machine-wide agent capacity reached while registering "@ + project_root + ": "@ + decimal(
        active,
    ) + "/"@ + decimal(limit)
        + " active leases; finish or idle a session before starting another"@
}

/// Refuses where as many leases are held as the machine has.
pub fn ensure_worker_capacity(active_machine_wide: usize, limit: usize, project_root: &str) -> (r:
    Result<(), String>)
    ensures
        match r {
            Ok(_) => active_machine_wide < limit,
            Err(e) => active_machine_wide >= limit && e@ == worker_message(
                active_machine_wide as nat,
                limit as nat,
                project_root@,
            ),
        },
{
    if active_machine_wide < limit {
        return Ok(());
    }
    Err(
        "machine-wide agent capacity reached while registering ".to_owned().concat(
            project_root,
        ).concat(": ").concat(decimal_text(active_machine_wide as u64).as_str()).concat("/").concat(
            decimal_text(limit as u64).as_str(),
        ).concat(" active leases; finish or idle a session before starting another"),
    )
}

} // verus!
