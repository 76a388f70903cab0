//! Admission: what a registration has to pass, and the entry points of an MCP
//! process that rely on it.

use crate::agents::registry::{
    Agent, AgentEntry, AgentRegistry, AgentStatus, Process, ProcessIdentityIndex, find_id, is_fresh,
    is_running, lemma_find_id, process_identity_matches, with_status,
};
use crate::agents::resource_broker::{
    AgentsConfig, MUTATING_CAPACITY_MARKER, PLACEHOLDER_ROLE, READ_ONLY_PRESENCE_ROLE, borrow_opt,
    can_mutate, cap, capacity_profile, consumes_worker_capacity, ensure_worker_capacity,
    has_active_worker_lease, holds_lease, max_concurrent_mutating_workers, max_concurrent_workers,
    mutating_capacity_message, mutating_message, profile, registration_consumes_capacity,
    role_can_mutate, takes_lease, worker_message,
};
use crate::text::{
    contains_text, lowercase, occurs, opt_str, opt_text, own_opt, same_ignoring_case, same_text, trim,
    trim_text,
};
use crate::time::{Instant, Timestamp};
use vstd::prelude::*;

verus! {

/// What decides besides the records: which processes run, the time, the settings.
pub struct Scene {
    pub running: Seq<Process>,
    pub now: Instant,
    pub config: AgentsConfig,
}

/// The record is not the one that is left out of the count.
pub open spec fn is_other(a: Agent, own: Option<Seq<char>>) -> bool {
    own is None || a.agent_id != own->0
}

/// The record is in use: its lease holds and its process runs.
pub open spec fn in_use(a: Agent, sc: Scene) -> bool {
    holds_lease(a, sc.now, sc.config) && is_running(a, sc.running)
}

/// The record counts against the machine-wide cap.
pub open spec fn is_counted(a: Agent, own: Option<Seq<char>>, sc: Scene) -> bool {
    is_other(a, own) && takes_lease(a.agent_type, a.role) && in_use(a, sc)
}

/// The record counts against the mutating cap.
pub open spec fn is_counted_mutating(a: Agent, own: Option<Seq<char>>, sc: Scene) -> bool {
    is_counted(a, own, sc) && can_mutate(a.role)
}

/// How many leases are held.
pub open spec fn leases(agents: Seq<Agent>, own: Option<Seq<char>>, sc: Scene) -> nat {
    agents.filter(|a: Agent| is_counted(a, own, sc)).len()
}

/// How many mutating slots are held.
pub open spec fn slots(agents: Seq<Agent>, own: Option<Seq<char>>, sc: Scene) -> nat {
    agents.filter(|a: Agent| is_counted_mutating(a, own, sc)).len()
}

/// The record has the role in the project, in any case of its letters.
pub open spec fn plays(
    a: Agent,
    role: Seq<char>,
    project_root: Seq<char>,
    own: Option<Seq<char>>,
    sc: Scene,
) -> bool {
    &&& is_other(a, own)
    &&& a.project_root == project_root
    &&& a.role is Some
    &&& lowercase(a.role->0) == lowercase(role)
    &&& in_use(a, sc)
}

/// Some record has the role in the project.
pub open spec fn is_taken(
    agents: Seq<Agent>,
    role: Seq<char>,
    project_root: Seq<char>,
    own: Option<Seq<char>>,
    sc: Scene,
) -> bool {
    exists|i: int| 0 <= i < agents.len() && plays(#[trigger] agents[i], role, project_root, own, sc)
}

/// The role that only one agent of a project may have: what is left of it
/// without the white space around it. The read-only admission is no such role.
pub open spec fn exclusive_role(role: Option<Seq<char>>) -> Option<Seq<char>> {
    match role {
        Some(r) => if trim(r).len() > 0 && trim(r) != READ_ONLY_PRESENCE_ROLE@ {
            Some(trim(r))
        } else {
            None
        },
        None => None,
    }
}

/// The message for a role that is taken.
pub open spec fn duplicate_message(project_root: Seq<char>, role: Seq<char>) -> Seq<char> {
    "duplicate active role rejected for "@ + project_root + ": "@ + role
        + "; reuse or finish the existing worker"@
}

/// Whether a registration may take effect, and the message where it may not.
pub open spec fn verdict(
    agents: Seq<Agent>,
    agent_type: Seq<char>,
    role: Option<Seq<char>>,
    project_root: Seq<char>,
    own: Option<Seq<char>>,
    sc: Scene,
) -> Result<(), Seq<char>> {
    let lease_cap = cap(sc.config.max_concurrent_workers);
    let slot_cap = cap(sc.config.max_concurrent_mutating_workers);
    let only = exclusive_role(role);
    if !takes_lease(agent_type, role) {
        Ok(())
    } else if leases(agents, own, sc) >= lease_cap {
        Err(worker_message(leases(agents, own, sc), lease_cap as nat, project_root))
    } else if can_mutate(role) && slots(agents, own, sc) >= slot_cap {
        Err(mutating_message(slots(agents, own, sc), slot_cap as nat, sc.config))
    } else if only is Some && is_taken(agents, only->0, project_root, own, sc) {
        Err(duplicate_message(project_root, only->0))
    } else {
        Ok(())
    }
}

/// Whether the record is not the one that is left out of the count.
fn other_than(agent: &AgentEntry, own: Option<&str>) -> (r: bool)
    ensures
        r == is_other(agent@, opt_str(own)),
{
    match own {
        Some(id) => !same_text(agent.agent_id.as_str(), id),
        None => true,
    }
}

/// Whether the record counts against the machine-wide cap.
fn counted(
    agent: &AgentEntry,
    own: Option<&str>,
    identities: &ProcessIdentityIndex,
    now: &Timestamp,
    config: &AgentsConfig,
) -> (r: bool)
    ensures
        r == is_counted(
            agent@,
            opt_str(own),
            (Scene { running: identities@, now: now@, config: *config }),
        ),
{
    other_than(agent, own) && consumes_worker_capacity(agent) && has_active_worker_lease(
        agent,
        now,
        config,
    ) && process_identity_matches(agent, identities)
}

proof fn lemma_filter_step<A>(s: Seq<A>, i: int, pred: spec_fn(A) -> bool)
    requires
        0 <= i < s.len(),
    ensures
        s.take(i + 1).filter(pred).len() == s.take(i).filter(pred).len() + if pred(s[i]) {
            1int
        } else {
            0int
        },
{
    reveal(Seq::filter);
    assert(s.take(i + 1).drop_last() =~= s.take(i));
}

impl AgentRegistry {
    /// How many leases are held and how many mutating slots.
    fn count_in_use(
        &self,
        own: Option<&str>,
        identities: &ProcessIdentityIndex,
        now: &Timestamp,
        config: &AgentsConfig,
    ) -> (r: (usize, usize))
        ensures
            ({
                let sc = Scene { running: identities@, now: now@, config: *config };
                &&& r.0 == leases(self@, opt_str(own), sc)
                &&& r.1 == slots(self@, opt_str(own), sc)
            }),
    {
        let ghost sc = Scene { running: identities@, now: now@, config: *config };
        let ghost all_pred = |a: Agent| is_counted(a, opt_str(own), sc);
        let ghost mut_pred = |a: Agent| is_counted_mutating(a, opt_str(own), sc);
        let mut held: usize = 0;
        let mut mutating: usize = 0;
        let mut i: usize = 0;
        proof {
            reveal(Seq::filter);
        }
        while i < self.agents.len()
            invariant
                i <= self.agents@.len(),
                sc == (Scene { running: identities@, now: now@, config: *config }),
                all_pred == |a: Agent| is_counted(a, opt_str(own), sc),
                mut_pred == |a: Agent| is_counted_mutating(a, opt_str(own), sc),
                held == self@.take(i as int).filter(all_pred).len(),
                mutating == self@.take(i as int).filter(mut_pred).len(),
                held <= i,
                mutating <= i,
            decreases self.agents@.len() - i,
        {
            let agent = &self.agents[i];
            proof {
                assert(self@[i as int] == agent@);
                lemma_filter_step(self@, i as int, all_pred);
                lemma_filter_step(self@, i as int, mut_pred);
            }
            if counted(agent, own, identities, now, config) {
                held += 1;
                if role_can_mutate(borrow_opt(&agent.role)) {
                    mutating += 1;
                }
            }
            i += 1;
        }
        assert(self@.take(i as int) =~= self@);
        (held, mutating)
    }

    /// Whether some record has the role in the project.
    fn role_taken(
        &self,
        role: &str,
        project_root: &str,
        own: Option<&str>,
        identities: &ProcessIdentityIndex,
        now: &Timestamp,
        config: &AgentsConfig,
    ) -> (r: bool)
        ensures
            r == is_taken(
                self@,
                role@,
                project_root@,
                opt_str(own),
                (Scene { running: identities@, now: now@, config: *config }),
            ),
    {
        let ghost sc = Scene { running: identities@, now: now@, config: *config };
        let mut i: usize = 0;
        while i < self.agents.len()
            invariant
                i <= self.agents@.len(),
                sc == (Scene { running: identities@, now: now@, config: *config }),
                forall|j: int|
                    0 <= j < i ==> !plays(
                        #[trigger] self@[j],
                        role@,
                        project_root@,
                        opt_str(own),
                        sc,
                    ),
            decreases self.agents@.len() - i,
        {
            let agent = &self.agents[i];
            assert(self@[i as int] == agent@);
            let same_role = match &agent.role {
                Some(active) => same_ignoring_case(active.as_str(), role),
                None => false,
            };
            if other_than(agent, own) && same_text(agent.project_root.as_str(), project_root)
                && same_role && has_active_worker_lease(agent, now, config)
                && process_identity_matches(agent, identities) {
                return true;
            }
            i += 1;
        }
        false
    }

    /// The machine-wide cap, the mutating cap and the rule of one role per
    /// project, for a registration that is about to take effect.
    /// `exclude_agent_id` is the record that is upgraded in place, so that it
    /// never counts against itself. A registration that takes no lease is never
    /// refused by a cap that it does not count against.
    pub fn ensure_registration_capacity(
        &self,
        agent_type: &str,
        role: Option<&str>,
        project_root: &str,
        exclude_agent_id: Option<&str>,
        identities: &ProcessIdentityIndex,
        now: &Timestamp,
        config: &AgentsConfig,
    ) -> (r: Result<(), String>)
        ensures
            ({
                let sc = Scene { running: identities@, now: now@, config: *config };
                let v = verdict(
                    self@,
                    agent_type@,
                    opt_str(role),
                    project_root@,
                    opt_str(exclude_agent_id),
                    sc,
                );
                match r {
                    Ok(_) => v is Ok,
                    Err(e) => v == Err::<(), Seq<char>>(e@),
                }
            }),
    {
        if !registration_consumes_capacity(agent_type, role) {
            return Ok(());
        }
        let (held, mutating) = self.count_in_use(exclude_agent_id, identities, now, config);
        match ensure_worker_capacity(held, max_concurrent_workers(config), project_root) {
            Err(e) => {
                return Err(e);
            },
            Ok(_) => {},
        }
        if role_can_mutate(role) {
            let limit = max_concurrent_mutating_workers(config);
            if mutating >= limit {
                return Err(mutating_capacity_message(mutating, limit, config));
            }
        }
        if let Some(text) = role {
            let name = trim_text(text);
            if !name.as_str().is_empty() && !same_text(name.as_str(), READ_ONLY_PRESENCE_ROLE)
                && self.role_taken(
                name.as_str(),
                project_root,
                exclude_agent_id,
                identities,
                now,
                config,
            ) {
                return Err(
                    "duplicate active role rejected for ".to_owned().concat(project_root).concat(
                        ": ",
                    ).concat(name.as_str()).concat("; reuse or finish the existing worker"),
                );
            }
        }
        Ok(())
    }
}

/// The process that registers, and what it sees around it.
#[derive(Debug)]
pub struct Caller {
    pub pid: u32,
    pub process_identity: Option<String>,
    /// The id for a record that has to be made.
    pub fresh_id: String,
    /// The seconds after which a quiet record is dropped.
    pub presence_ttl_seconds: i64,
    pub identities: ProcessIdentityIndex,
    pub now: Timestamp,
    pub config: AgentsConfig,
}

/// What a [`Caller`] holds.
pub struct CallerModel {
    pub pid: u32,
    pub process_identity: Option<Seq<char>>,
    pub fresh_id: Seq<char>,
    pub presence_ttl_seconds: i64,
    pub scene: Scene,
}

impl View for Caller {
    type V = CallerModel;

    open spec fn view(&self) -> CallerModel {
        CallerModel {
            pid: self.pid,
            process_identity: opt_text(self.process_identity),
            fresh_id: self.fresh_id@,
            presence_ttl_seconds: self.presence_ttl_seconds,
            scene: Scene { running: self.identities@, now: self.now@, config: self.config },
        }
    }
}

/// The record was made for the process that registers.
pub open spec fn is_own(a: Agent, c: CallerModel) -> bool {
    a.pid == c.pid && a.process_identity == c.process_identity
}

/// The index of the caller's record, or the number of records.
pub open spec fn find_own(agents: Seq<Agent>, c: CallerModel) -> int
    decreases agents.len(),
{
    if agents.len() == 0 || is_own(agents[0], c) {
        0
    } else {
        1 + find_own(agents.skip(1), c)
    }
}

/// The role that a record has after a registration: the requested one, except
/// that the placeholder never takes the place of a role that was chosen.
pub open spec fn next_role(current: Option<Seq<char>>, requested: Option<Seq<char>>) -> Option<
    Seq<char>,
> {
    if requested is None {
        current
    } else if requested == Some(PLACEHOLDER_ROLE@) && current is Some {
        current
    } else {
        requested
    }
}

/// The new profile takes something that the old one did not.
pub open spec fn escalates(before: (bool, bool), after: (bool, bool)) -> bool {
    (after.0 && !before.0) || (after.1 && !before.1)
}

/// A record as a registration leaves it. A note on the status belongs to the
/// role and goes with it.
pub open spec fn refreshed(a: Agent, role: Option<Seq<char>>, now: Instant) -> Agent {
    Agent {
        role,
        last_active: now,
        status: AgentStatus::Active,
        status_message: if role == a.role {
            a.status_message
        } else {
            None
        },
        ..a
    }
}

/// The record that a registration makes.
pub open spec fn new_record(
    agent_type: Seq<char>,
    role: Option<Seq<char>>,
    project_root: Seq<char>,
    c: CallerModel,
) -> Agent {
    Agent {
        agent_id: c.fresh_id,
        agent_type,
        role,
        project_root,
        started_at: c.scene.now,
        last_active: c.scene.now,
        pid: c.pid,
        process_identity: c.process_identity,
        status: AgentStatus::Active,
        status_message: None,
    }
}

/// The records after a registration and the id that it got, or the message with
/// which it was refused.
pub open spec fn registered(
    agents: Seq<Agent>,
    agent_type: Seq<char>,
    role: Option<Seq<char>>,
    project_root: Seq<char>,
    c: CallerModel,
) -> Result<(Seq<Agent>, Seq<char>), Seq<char>> {
    let i = find_own(agents, c);
    if i < agents.len() {
        let a = agents[i];
        let next = next_role(a.role, role);
        let v = verdict(agents, a.agent_type, next, project_root, Some(a.agent_id), c.scene);
        if escalates(profile(a.agent_type, a.role), profile(a.agent_type, next)) && v is Err {
            Err(v->Err_0)
        } else {
            Ok((agents.update(i, refreshed(a, next, c.scene.now)), a.agent_id))
        }
    } else {
        match verdict(agents, agent_type, role, project_root, None, c.scene) {
            Ok(_) => Ok((agents.push(new_record(agent_type, role, project_root, c)), c.fresh_id)),
            Err(e) => Err(e),
        }
    }
}

/// The records without those that were quiet for too long.
pub open spec fn swept(agents: Seq<Agent>, c: CallerModel) -> Seq<Agent> {
    agents.filter(|a: Agent| is_fresh(a, c.scene.now, c.presence_ttl_seconds))
}

/// The note on a session that asked for another role than it got.
pub open spec fn admission_note(requested_role: Seq<char>) -> Seq<char> {
    "admitted read-only: "@ + MUTATING_CAPACITY_MARKER@ + " while registering as "@ + requested_role
}

/// What a registration did to the records and what it returned, in one.
pub open spec fn settles(
    before: Seq<Agent>,
    after: Seq<Agent>,
    r: Result<String, String>,
    expected: Result<(Seq<Agent>, Seq<char>), Seq<char>>,
) -> bool {
    match r {
        Ok(id) => expected == Ok::<(Seq<Agent>, Seq<char>), Seq<char>>((after, id@)),
        Err(e) => after == before && expected == Err::<(Seq<Agent>, Seq<char>), Seq<char>>(e@),
    }
}

/// The records after a read-only admission and the id that it got, or the
/// message with which it was refused.
pub open spec fn admitted(
    agents: Seq<Agent>,
    project_root: Seq<char>,
    requested_role: Seq<char>,
    c: CallerModel,
) -> Result<(Seq<Agent>, Seq<char>), Seq<char>> {
    match registered(agents, "mcp"@, Some(READ_ONLY_PRESENCE_ROLE@), project_root, c) {
        Ok((after, id)) => Ok(
            (with_status(after, id, AgentStatus::Active, Some(admission_note(requested_role))), id),
        ),
        Err(e) => Err(e),
    }
}

/// `find_own` stops at the first record of the caller.
pub proof fn lemma_find_own(agents: Seq<Agent>, c: CallerModel)
    ensures
        0 <= find_own(agents, c) <= agents.len(),
        forall|j: int| 0 <= j < find_own(agents, c) ==> !is_own(#[trigger] agents[j], c),
        find_own(agents, c) < agents.len() ==> is_own(agents[find_own(agents, c)], c),
    decreases agents.len(),
{
    if agents.len() != 0 && !is_own(agents[0], c) {
        lemma_find_own(agents.skip(1), c);
        assert forall|j: int| 0 <= j < find_own(agents, c) implies !is_own(
            #[trigger] agents[j],
            c,
        ) by {
            if j > 0 {
                assert(agents.skip(1)[j - 1] == agents[j]);
            }
        }
    }
}

/// Whether two optional strings are the same.
fn same_opt(a: Option<&str>, b: Option<&str>) -> (r: bool)
    ensures
        r == (opt_str(a) == opt_str(b)),
{
    match (a, b) {
        (Some(x), Some(y)) => same_text(x, y),
        (None, None) => true,
        _ => false,
    }
}

/// A copy of an optional string.
fn copy_opt(o: &Option<String>) -> (r: Option<String>)
    ensures
        opt_text(r) == opt_text(*o),
{
    match o {
        Some(s) => Some(s.clone()),
        None => None,
    }
}

/// The role that a record has after a registration.
fn choose_role(current: &Option<String>, requested: Option<&str>) -> (r: Option<String>)
    ensures
        opt_text(r) == next_role(opt_text(*current), opt_str(requested)),
{
    match requested {
        None => copy_opt(current),
        Some(text) => {
            if same_text(text, PLACEHOLDER_ROLE) && current.is_some() {
                copy_opt(current)
            } else {
                Some(text.to_owned())
            }
        },
    }
}

impl AgentRegistry {
    /// The index of the caller's record, or the number of records.
    fn own_record(&self, caller: &Caller) -> (r: usize)
        ensures
            r == find_own(self@, caller@),
            r <= self.agents@.len(),
    {
        let mut i: usize = 0;
        assert(self@.skip(0) =~= self@);
        while i < self.agents.len()
            invariant
                i <= self.agents@.len(),
                find_own(self@, caller@) == i + find_own(self@.skip(i as int), caller@),
            decreases self.agents@.len() - i,
        {
            let a = &self.agents[i];
            assert(self@[i as int] == a@);
            assert(self@.skip(i as int)[0] == a@);
            if a.pid == caller.pid && same_opt(
                borrow_opt(&a.process_identity),
                borrow_opt(&caller.process_identity),
            ) {
                return i;
            }
            assert(self@.skip(i as int).skip(1) =~= self@.skip(i + 1));
            i += 1;
        }
        i
    }

    /// Registers the calling process. A process has one record: registering
    /// again refreshes it, and a change of role that takes more capacity than
    /// before passes the caps first. A refusal leaves the records as they are.
    pub fn register(
        &mut self,
        agent_type: &str,
        role: Option<&str>,
        project_root: &str,
        caller: &Caller,
    ) -> (r: Result<String, String>)
        ensures
            settles(
                old(self)@,
                final(self)@,
                r,
                registered(old(self)@, agent_type@, opt_str(role), project_root@, caller@),
            ),
    {
        let i = self.own_record(caller);
        if i < self.agents.len() {
            let next = choose_role(&self.agents[i].role, role);
            let a = &self.agents[i];
            assert(self@[i as int] == a@);
            let before = capacity_profile(a.agent_type.as_str(), borrow_opt(&a.role));
            let after = capacity_profile(a.agent_type.as_str(), borrow_opt(&next));
            if (after.0 && !before.0) || (after.1 && !before.1) {
                match self.ensure_registration_capacity(
                    a.agent_type.as_str(),
                    borrow_opt(&next),
                    project_root,
                    Some(a.agent_id.as_str()),
                    &caller.identities,
                    &caller.now,
                    &caller.config,
                ) {
                    Err(e) => {
                        return Err(e);
                    },
                    Ok(_) => {},
                }
            }
            let id = a.agent_id.clone();
            let changed = !same_opt(borrow_opt(&next), borrow_opt(&a.role));
            let ghost was = a@;
            if changed {
                self.agents[i].status_message = None;
            }
            self.agents[i].role = next;
            self.agents[i].last_active = caller.now;
            self.agents[i].status = AgentStatus::Active;
            assert(self@ =~= old(self)@.update(
                i as int,
                refreshed(was, next_role(was.role, opt_str(role)), caller@.scene.now),
            ));
            Ok(id)
        } else {
            match self.ensure_registration_capacity(
                agent_type,
                role,
                project_root,
                None,
                &caller.identities,
                &caller.now,
                &caller.config,
            ) {
                Err(e) => {
                    return Err(e);
                },
                Ok(_) => {},
            }
            let entry = AgentEntry {
                agent_id: caller.fresh_id.clone(),
                agent_type: agent_type.to_owned(),
                role: own_opt(role),
                project_root: project_root.to_owned(),
                started_at: caller.now,
                last_active: caller.now,
                pid: caller.pid,
                process_identity: copy_opt(&caller.process_identity),
                status: AgentStatus::Active,
                status_message: None,
            };
            self.agents.push(entry);
            assert(self@ =~= old(self)@.push(
                new_record(agent_type@, opt_str(role), project_root@, caller@),
            ));
            Ok(caller.fresh_id.clone())
        }
    }

    /// Registers an MCP process that has not yet said what it is for.
    pub fn register_mcp_process(&mut self, project_root: &str, caller: &Caller) -> (r: Result<
        String,
        String,
    >)
        ensures
            settles(
                swept(old(self)@, caller@),
                final(self)@,
                r,
                registered(
                    swept(old(self)@, caller@),
                    "mcp"@,
                    Some(PLACEHOLDER_ROLE@),
                    project_root@,
                    caller@,
                ),
            ),
    {
        self.register_mcp_process_as(project_root, PLACEHOLDER_ROLE, caller)
    }

    /// Registers an MCP process with the role that its session resolved. Records
    /// that were quiet for too long are dropped first, whatever comes of it.
    pub fn register_mcp_process_as(
        &mut self,
        project_root: &str,
        role: &str,
        caller: &Caller,
    ) -> (r: Result<String, String>)
        ensures
            settles(
                swept(old(self)@, caller@),
                final(self)@,
                r,
                registered(
                    swept(old(self)@, caller@),
                    "mcp"@,
                    Some(role@),
                    project_root@,
                    caller@,
                ),
            ),
    {
        self.cleanup_stale(caller.presence_ttl_seconds, &caller.now);
        self.register("mcp", Some(role), project_root, caller)
    }

    /// Admits an MCP process read-only after the mutating cap refused its role.
    /// It holds a machine-wide lease but no mutating slot, and the note on its
    /// status names the role that it asked for.
    pub fn admit_read_only_presence(
        &mut self,
        project_root: &str,
        requested_role: &str,
        caller: &Caller,
    ) -> (r: Result<String, String>)
        ensures
            settles(
                swept(old(self)@, caller@),
                final(self)@,
                r,
                admitted(
                    swept(old(self)@, caller@),
                    project_root@,
                    requested_role@,
                    caller@,
                ),
            ),
    {
        self.cleanup_stale(caller.presence_ttl_seconds, &caller.now);
        let ghost before = self@;
        match self.register("mcp", Some(READ_ONLY_PRESENCE_ROLE), project_root, caller) {
            Err(e) => Err(e),
            Ok(id) => {
                let note = "admitted read-only: ".to_owned().concat(MUTATING_CAPACITY_MARKER).concat(
                    " while registering as ",
                ).concat(requested_role);
                proof {
                    lemma_registered_id(before, "mcp"@, Some(READ_ONLY_PRESENCE_ROLE@), project_root@, caller@);
                }
                match self.set_status(id.as_str(), AgentStatus::Active, Some(note.as_str())) {
                    Ok(_) => Ok(id),
                    Err(e) => Err(e),
                }
            },
        }
    }

    /// Whether a registration failed because the mutating cap is full: the one
    /// failure from which a session recovers by being admitted read-only.
    pub fn is_mutating_capacity_error(error: &str) -> (r: bool)
        ensures
            r == occurs(error@, MUTATING_CAPACITY_MARKER@),
    {
        contains_text(error, MUTATING_CAPACITY_MARKER)
    }
}

/// The id that a registration returns is the id of a record.
pub proof fn lemma_registered_id(
    agents: Seq<Agent>,
    agent_type: Seq<char>,
    role: Option<Seq<char>>,
    project_root: Seq<char>,
    c: CallerModel,
)
    ensures
        registered(agents, agent_type, role, project_root, c) matches Ok((after, id)) ==> find_id(
            after,
            id,
        ) < after.len(),
{
    lemma_find_own(agents, c);
    if let Ok((after, id)) = registered(agents, agent_type, role, project_root, c) {
        lemma_find_id(after, id);
        let i = find_own(agents, c);
        assert(after[i].agent_id == id);
    }
}

} // verus!
