use lean_ctx::agents::admission::Caller;
use lean_ctx::agents::registry::{
    AgentEntry, AgentRegistry, AgentStatus, ProcessIdentity, ProcessIdentityIndex,
};
use lean_ctx::agents::resource_broker::{
    active_worker_lease_seconds, capacity_profile, ensure_worker_capacity, has_active_worker_lease,
    max_concurrent_mutating_workers, max_concurrent_workers, mutating_capacity_message,
    registration_consumes_capacity, role_can_mutate, AgentsConfig,
};
use lean_ctx::time::Timestamp;

const NOW: i64 = 1_760_000_000;
const ME: u32 = 100;
const PARENT: u32 = 50;

fn at(secs: i64) -> Timestamp {
    Timestamp::new(secs, 0).expect("an instant")
}

fn config(mutating: usize) -> AgentsConfig {
    AgentsConfig {
        max_concurrent_workers: 8,
        max_concurrent_mutating_workers: mutating,
        active_worker_lease_seconds: 600,
    }
}

fn running() -> ProcessIdentityIndex {
    ProcessIdentityIndex {
        running: vec![
            ProcessIdentity {
                pid: ME,
                identity: "me@1".to_string(),
            },
            ProcessIdentity {
                pid: PARENT,
                identity: "parent@1".to_string(),
            },
        ],
    }
}

fn caller(mutating: usize) -> Caller {
    Caller {
        pid: ME,
        process_identity: Some("me@1".to_string()),
        fresh_id: "mcp-100-a1".to_string(),
        presence_ttl_seconds: 3600,
        identities: running(),
        now: at(NOW),
        config: config(mutating),
    }
}

fn filler() -> AgentEntry {
    AgentEntry {
        agent_id: "cursor-filler".to_string(),
        agent_type: "cursor".to_string(),
        role: Some("coder".to_string()),
        project_root: "/elsewhere".to_string(),
        started_at: at(NOW),
        last_active: at(NOW),
        pid: PARENT,
        process_identity: Some("parent@1".to_string()),
        status: AgentStatus::Active,
        status_message: None,
    }
}

/// A registry whose mutating cap is 1 and already holds one active mutating
/// worker owned by a different live process, so the caller is over the cap.
fn registry_with_full_mutating_cap() -> (AgentRegistry, Caller) {
    let mut registry = AgentRegistry::new();
    registry.agents.push(filler());
    (registry, caller(1))
}

fn role_of<'a>(registry: &'a AgentRegistry, agent_id: &str) -> Option<&'a str> {
    registry
        .agents
        .iter()
        .find(|agent| agent.agent_id == agent_id)
        .and_then(|agent| agent.role.as_deref())
}

#[test]
fn a_mutating_role_over_the_cap_is_refused_with_the_marker() {
    let (mut registry, me) = registry_with_full_mutating_cap();
    let error = registry
        .register("mcp", Some("coder"), "/project", &me)
        .expect_err("the mutating cap is full");
    assert!(AgentRegistry::is_mutating_capacity_error(&error), "{error}");
    assert!(error.contains("1/1"), "{error}");
    assert!(
        error.contains("admitted read-only"),
        "the message must name the recovery path: {error}"
    );
}

#[test]
fn a_non_consuming_presence_is_never_refused_by_a_full_cap() {
    let (mut registry, me) = registry_with_full_mutating_cap();
    registry
        .register("mcp", Some("context-engine"), "/project", &me)
        .expect("a placeholder presence is admitted");
}

#[test]
fn a_read_only_admission_persists_the_requested_role_in_its_status() {
    let (mut registry, me) = registry_with_full_mutating_cap();
    let id = registry
        .admit_read_only_presence("/project", "coder", &me)
        .expect("read-only takes no mutating slot");
    {
        let record = registry
            .agents
            .iter()
            .find(|agent| agent.agent_id == id)
            .expect("the presence is recorded");
        assert_eq!(record.role.as_deref(), Some("read-only"));
        assert!(
            record
                .status_message
                .as_deref()
                .unwrap_or_default()
                .contains("coder"),
            "the status must say which role was requested: {:?}",
            record.status_message
        );
    }

    registry
        .ensure_registration_capacity(
            "mcp",
            Some("read-only"),
            "/project",
            None,
            &running(),
            &at(NOW),
            &config(1),
        )
        .expect("read-only is never a duplicate role");

    registry
        .agents
        .iter_mut()
        .find(|agent| agent.agent_id == "cursor-filler")
        .expect("filler")
        .status = AgentStatus::Finished;
    let upgraded = registry
        .register_mcp_process_as("/project", "coder", &me)
        .expect("the slot is free now");
    assert_eq!(upgraded, id, "same record, not a duplicate");
    let record = registry
        .agents
        .iter()
        .find(|agent| agent.agent_id == id)
        .expect("the presence is recorded");
    assert_eq!(record.role.as_deref(), Some("coder"));
    assert_eq!(
        record.status_message, None,
        "a role change clears the role-bound admission note"
    );
}

#[test]
fn upgrading_a_placeholder_to_a_mutating_role_is_checked_against_the_cap() {
    let (mut registry, me) = registry_with_full_mutating_cap();
    let placeholder = registry
        .register("mcp", Some("context-engine"), "/project", &me)
        .expect("placeholder");
    let error = registry
        .register("mcp", Some("coder"), "/project", &me)
        .expect_err("the upgrade is over the cap");
    assert!(AgentRegistry::is_mutating_capacity_error(&error), "{error}");
    assert_eq!(
        role_of(&registry, &placeholder),
        Some("context-engine"),
        "a refused upgrade leaves the record unchanged"
    );

    registry.agents[0].status = AgentStatus::Finished;
    let upgraded = registry
        .register("mcp", Some("coder"), "/project", &me)
        .expect("the slot is free now");
    assert_eq!(upgraded, placeholder, "same record, not a duplicate");
    assert_eq!(role_of(&registry, &placeholder), Some("coder"));
}

#[test]
fn the_placeholder_retry_never_overwrites_an_explicit_role() {
    let me = caller(4);
    let mut registry = AgentRegistry::new();
    let id = registry
        .register("mcp", Some("review"), "/project", &me)
        .expect("review");
    let again = registry
        .register("mcp", Some("context-engine"), "/project", &me)
        .expect("retry for the same process");
    assert_eq!(id, again);
    assert_eq!(role_of(&registry, &id), Some("review"));

    let mut fresh = AgentRegistry::new();
    let placeholder = fresh
        .register("mcp", Some("context-engine"), "/project", &me)
        .expect("placeholder");
    fresh
        .register("mcp", Some("debugger"), "/project", &me)
        .expect("upgrade");
    assert_eq!(role_of(&fresh, &placeholder), Some("debugger"));
}

#[test]
fn the_machine_wide_cap_counts_every_lease() {
    let mut registry = AgentRegistry::new();
    registry.agents.push(filler());
    let mut me = caller(4);
    me.config.max_concurrent_workers = 1;
    let error = registry
        .register("mcp", Some("read-only"), "/project", &me)
        .expect_err("no lease is left");
    assert_eq!(
        error,
        "machine-wide agent capacity reached while registering /project: 1/1 active leases; \
         finish or idle a session before starting another"
    );
    assert!(!AgentRegistry::is_mutating_capacity_error(&error));
    // A lease that has run out, and a process that is gone, count no more.
    registry.agents[0].last_active = at(NOW - 601);
    assert!(registry
        .ensure_registration_capacity("mcp", None, "/p", None, &running(), &at(NOW), &me.config)
        .is_ok());
    registry.agents[0].last_active = at(NOW - 600);
    assert!(registry
        .ensure_registration_capacity("mcp", None, "/p", None, &running(), &at(NOW), &me.config)
        .is_err());
    registry.agents[0].process_identity = Some("parent@0".to_string());
    assert!(registry
        .ensure_registration_capacity("mcp", None, "/p", None, &running(), &at(NOW), &me.config)
        .is_ok());
    registry.agents[0].process_identity = None;
    assert!(registry
        .ensure_registration_capacity("mcp", None, "/p", None, &running(), &at(NOW), &me.config)
        .is_err());
}

#[test]
fn a_project_has_each_role_once() {
    let mut registry = AgentRegistry::new();
    registry.agents.push(filler());
    let check = |registry: &AgentRegistry, role: &str, root: &str, own: Option<&str>| {
        registry.ensure_registration_capacity(
            "mcp",
            Some(role),
            root,
            own,
            &running(),
            &at(NOW),
            &config(8),
        )
    };
    assert_eq!(
        check(&registry, " CODER ", "/elsewhere", None),
        Err(
            "duplicate active role rejected for /elsewhere: CODER; reuse or finish the existing worker"
                .to_string()
        )
    );
    assert!(check(&registry, "CODER", "/project", None).is_ok());
    assert!(check(&registry, "coder", "/elsewhere", Some("cursor-filler")).is_ok());
    assert!(check(&registry, "  ", "/elsewhere", None).is_ok());
    registry.agents[0].role = Some("read-only".to_string());
    assert!(check(&registry, "read-only", "/elsewhere", None).is_ok());
}

#[test]
fn the_own_record_never_counts_against_itself() {
    let mut registry = AgentRegistry::new();
    registry.agents.push(filler());
    let refused = registry.ensure_registration_capacity(
        "mcp",
        Some("planner"),
        "/project",
        None,
        &running(),
        &at(NOW),
        &config(1),
    );
    assert!(refused.is_err());
    let own = registry.ensure_registration_capacity(
        "mcp",
        Some("planner"),
        "/project",
        Some("cursor-filler"),
        &running(),
        &at(NOW),
        &config(1),
    );
    assert!(own.is_ok());
}

#[test]
fn quiet_records_are_dropped_even_where_the_registration_is_refused() {
    let (mut registry, me) = registry_with_full_mutating_cap();
    let mut old = filler();
    old.agent_id = "old".to_string();
    old.last_active = at(NOW - 3601);
    registry.agents.insert(0, old);
    let mut idle = filler();
    idle.agent_id = "idle".to_string();
    idle.last_active = at(NOW - 3600);
    registry.agents.push(idle);
    registry
        .register_mcp_process_as("/project", "coder", &me)
        .expect_err("the cap is full");
    let ids: Vec<&str> = registry.agents.iter().map(|a| a.agent_id.as_str()).collect();
    assert_eq!(ids, vec!["cursor-filler", "idle"]);
}

#[test]
fn a_process_that_registers_first_gets_the_placeholder() {
    let (mut registry, me) = registry_with_full_mutating_cap();
    let id = registry
        .register_mcp_process("/project", &me)
        .expect("the placeholder takes nothing");
    assert_eq!(id, "mcp-100-a1");
    assert_eq!(role_of(&registry, &id), Some("context-engine"));
    assert_eq!(registry.agents.len(), 2);
    assert_eq!(registry.agents[1].pid, ME);
    assert_eq!(registry.agents[1].project_root, "/project");
}

#[test]
fn a_status_needs_a_known_agent() {
    let mut registry = AgentRegistry::new();
    registry.agents.push(filler());
    assert_eq!(
        registry.set_status("nobody", AgentStatus::Idle, None),
        Err("unknown agent: nobody".to_string())
    );
    registry
        .set_status("cursor-filler", AgentStatus::Idle, Some("lunch"))
        .expect("known");
    assert_eq!(registry.agents[0].status, AgentStatus::Idle);
    assert_eq!(registry.agents[0].status_message.as_deref(), Some("lunch"));
}

#[test]
fn caps_are_held_within_the_hard_limit() {
    let mut c = config(0);
    assert_eq!(max_concurrent_mutating_workers(&c), 1);
    c.max_concurrent_mutating_workers = 16;
    assert_eq!(max_concurrent_mutating_workers(&c), 15);
    c.max_concurrent_workers = usize::MAX;
    assert_eq!(max_concurrent_workers(&c), 15);
    c.max_concurrent_workers = 7;
    assert_eq!(max_concurrent_workers(&c), 7);
}

#[test]
fn leases_last_at_least_a_second() {
    let mut c = config(1);
    c.active_worker_lease_seconds = 0;
    assert_eq!(active_worker_lease_seconds(&c), 1);
    c.active_worker_lease_seconds = u64::MAX;
    assert_eq!(active_worker_lease_seconds(&c), i64::MAX);
    c.active_worker_lease_seconds = 90;
    assert_eq!(active_worker_lease_seconds(&c), 90);
    let mut agent = filler();
    agent.last_active = Timestamp::new(NOW - 91, 1).unwrap();
    assert!(has_active_worker_lease(&agent, &at(NOW), &c));
    agent.last_active = at(NOW - 91);
    assert!(!has_active_worker_lease(&agent, &at(NOW), &c));
    agent.last_active = at(NOW + 5000);
    assert!(has_active_worker_lease(&agent, &at(NOW), &c));
    agent.status = AgentStatus::Idle;
    assert!(!has_active_worker_lease(&agent, &at(NOW), &c));
}

#[test]
fn markers_tell_the_roles_that_change_nothing() {
    for role in [
        "analysis", "Analyst", "audit", "code-mapper", "RESEARCHER", "review", "pre-reviewing",
        "read-only", "readonly",
    ] {
        assert!(!role_can_mutate(Some(role)), "{role}");
    }
    assert!(role_can_mutate(Some("coder")));
    assert!(role_can_mutate(Some("read only")));
    assert!(role_can_mutate(None));
}

#[test]
fn only_the_placeholder_of_an_mcp_process_takes_nothing() {
    assert!(!registration_consumes_capacity("mcp", Some("context-engine")));
    assert!(registration_consumes_capacity("cursor", Some("context-engine")));
    assert!(registration_consumes_capacity("mcp", Some("Context-Engine")));
    assert!(registration_consumes_capacity("mcp", None));
    assert_eq!(capacity_profile("mcp", Some("context-engine")), (false, false));
    assert_eq!(capacity_profile("mcp", Some("read-only")), (true, false));
    assert_eq!(capacity_profile("mcp", Some("coder")), (true, true));
}

#[test]
fn refusals_say_what_is_full() {
    assert_eq!(
        mutating_capacity_message(3, 3, &config(3)),
        "machine-wide mutating-agent capacity reached: 3/3; a slot frees when another worker \
         finishes or its 600s lease expires. A session over the cap is admitted read-only \
         (ctx_read, ctx_search, ctx_compose, …) and retries the mutating slot on its next \
         mutating tool call"
    );
    assert!(ensure_worker_capacity(2, 3, "/p").is_ok());
    assert!(ensure_worker_capacity(3, 3, "/p").is_err());
}

#[test]
fn only_the_mutating_cap_is_taken_for_it() {
    let mut registry = AgentRegistry::new();
    registry.agents.push(filler());
    let mut tight = config(8);
    tight.max_concurrent_workers = 1;
    let refusal = |registry: &AgentRegistry, role: &str, root: &str, c: &AgentsConfig| {
        registry
            .ensure_registration_capacity("mcp", Some(role), root, None, &running(), &at(NOW), c)
            .expect_err("refused")
    };
    let leases = refusal(&registry, "planner", "/machine-wide m", &tight);
    assert!(!AgentRegistry::is_mutating_capacity_error(&leases), "{leases}");
    let taken = refusal(&registry, "coder", "/elsewhere", &config(8));
    assert!(!AgentRegistry::is_mutating_capacity_error(&taken), "{taken}");
    let slots = refusal(&registry, "planner", "/project", &config(1));
    assert!(AgentRegistry::is_mutating_capacity_error(&slots), "{slots}");
}

#[test]
fn more_agents_never_help_and_their_order_does_not_matter() {
    let entry = |id: &str, role: &str, root: &str| {
        let mut e = filler();
        e.agent_id = id.to_string();
        e.role = Some(role.to_string());
        e.project_root = root.to_string();
        e
    };
    let verdict = |list: Vec<AgentEntry>, role: &str| {
        let mut registry = AgentRegistry::new();
        registry.agents = list;
        registry.ensure_registration_capacity(
            "mcp",
            Some(role),
            "/p",
            None,
            &running(),
            &at(NOW),
            &config(2),
        )
    };
    let a = || entry("a", "coder", "/p");
    let b = || entry("b", "audit", "/p");
    let c = || entry("c", "planner", "/q");
    for role in ["coder", "audit", "planner", "debugger", "read-only"] {
        let first = verdict(vec![a(), b(), c()], role);
        assert_eq!(first, verdict(vec![c(), a(), b()], role), "{role}");
        assert_eq!(first, verdict(vec![b(), c(), a()], role), "{role}");
        if verdict(vec![a(), b()], role).is_err() {
            assert!(first.is_err(), "{role}");
        }
    }
    assert!(verdict(vec![a(), b()], "audit").is_err());
    assert!(verdict(vec![a(), b()], "debugger").is_ok());
    assert!(verdict(vec![a(), b(), c()], "debugger").is_err());
}
