//! What a verdict and a registration mean for the records, record by record.

use crate::agents::admission::{
    CallerModel, Scene, admission_note, admitted, exclusive_role, find_own,
    is_counted, is_counted_mutating, is_taken, leases, lemma_find_own, lemma_registered_id, plays,
    registered, slots, swept, verdict,
};
use crate::agents::admission_laws::{a_registration_passes_where_it_fits, lemma_count_push};
use crate::agents::registry::{
    Agent, AgentStatus, Process, find_id, is_process_of, is_running, lemma_find_id, with_status,
};
use crate::agents::resource_broker::{
    AgentsConfig, MUTATING_CAPACITY_MARKER, can_mutate, cap, lease_seconds, mutating_message,
    profile, read_only_markers, takes_lease,
};
use crate::text::{decimal, lowercase, occurs, occurs_at, trim};
use crate::time::elapsed_seconds;
use vstd::prelude::*;

verus! {

// ---------------------------------------------------------------------------
// Settings and roles
// ---------------------------------------------------------------------------

/// A cap is the setting where that lies between 1 and 15, and the nearer of the
/// two where it does not.
pub proof fn a_cap_is_the_nearest_allowed_setting(setting: usize)
    ensures
        1 <= cap(setting) <= 15,
        1 <= setting <= 15 ==> cap(setting) == setting,
        setting < 1 ==> cap(setting) == 1,
        setting > 15 ==> cap(setting) == 15,
{
}

/// A lease lasts for the setting, for a second at least, and never longer than
/// the setting says beyond that.
pub proof fn a_lease_lasts_for_the_setting(config: AgentsConfig)
    ensures
        lease_seconds(config) >= 1,
        1 <= config.active_worker_lease_seconds <= i64::MAX ==> lease_seconds(config)
            == config.active_worker_lease_seconds,
        config.active_worker_lease_seconds == 0 ==> lease_seconds(config) == 1,
        config.active_worker_lease_seconds > i64::MAX ==> lease_seconds(config) == i64::MAX,
{
}

/// A registration takes a lease unless it is of the type `mcp` with the role
/// `context-engine`: both together, and each exactly so.
pub proof fn only_the_placeholder_takes_no_lease(agent_type: Seq<char>, role: Option<Seq<char>>)
    ensures
        agent_type != "mcp"@ ==> takes_lease(agent_type, role),
        role != Some("context-engine"@) ==> takes_lease(agent_type, role),
        !takes_lease("mcp"@, Some("context-engine"@)),
        profile(agent_type, role).0 == takes_lease(agent_type, role),
        profile(agent_type, role).1 ==> profile(agent_type, role).0,
        profile(agent_type, role).1 ==> can_mutate(role),
        profile(agent_type, role).0 && can_mutate(role) ==> profile(agent_type, role).1,
{
}

/// The word is one of those that mark a role as changing nothing.
pub open spec fn is_marker(word: Seq<char>) -> bool {
    ||| word == "analysis"@
    ||| word == "analyst"@
    ||| word == "audit"@
    ||| word == "mapper"@
    ||| word == "research"@
    ||| word == "review"@
    ||| word == "read-only"@
    ||| word == "readonly"@
}

/// A role with a marker anywhere in it, in whatever case, changes nothing.
pub proof fn a_marked_role_changes_nothing(
    before: Seq<char>,
    word: Seq<char>,
    behind: Seq<char>,
    role: Seq<char>,
)
    requires
        is_marker(word),
        lowercase(role) == lowercase(before) + word + lowercase(behind),
    ensures
        !can_mutate(Some(role)),
{
    let name = lowercase(role);
    let at = lowercase(before).len() as int;
    assert(name.subrange(at, at + word.len()) =~= word);
    assert(occurs_at(name, word, at));
    let markers = read_only_markers();
    let i: int = if word == "analysis"@ {
        0
    } else if word == "analyst"@ {
        1
    } else if word == "audit"@ {
        2
    } else if word == "mapper"@ {
        3
    } else if word == "research"@ {
        4
    } else if word == "review"@ {
        5
    } else if word == "read-only"@ {
        6
    } else {
        7
    };
    assert(markers[i] == word);
}

/// A role without a marker may change things, and so may an agent without a role.
pub proof fn an_unmarked_role_may_change_things(role: Seq<char>)
    requires
        forall|word: Seq<char>| is_marker(word) ==> !occurs(lowercase(role), word),
    ensures
        can_mutate(Some(role)),
        can_mutate(None),
{
    let markers = read_only_markers();
    assert forall|i: int| 0 <= i < markers.len() implies !occurs(
        lowercase(role),
        #[trigger] markers[i],
    ) by {
        assert(is_marker(markers[i]));
    }
    let nothing = Seq::<char>::empty();
    assert(lowercase(nothing) =~= nothing);
    reveal_strlit("analysis");
    reveal_strlit("analyst");
    reveal_strlit("audit");
    reveal_strlit("mapper");
    reveal_strlit("research");
    reveal_strlit("review");
    reveal_strlit("read-only");
    reveal_strlit("readonly");
    assert forall|i: int| 0 <= i < markers.len() implies !occurs(nothing, #[trigger] markers[i]) by {
        assert(markers[i].len() > 0);
    }
}

// ---------------------------------------------------------------------------
// Verdicts
// ---------------------------------------------------------------------------

/// Some running process has the record's number, and its identity too where the
/// record has one.
pub open spec fn has_process(a: Agent, running: Seq<Process>) -> bool {
    exists|i: int|
        0 <= i < running.len() && (#[trigger] running[i]).pid == a.pid && (a.process_identity is None
            || a.process_identity == Some(running[i].identity))
}

/// The record stands for a worker at work: it is active, gave a sign of life
/// within the seconds of a lease, and its process runs.
pub open spec fn is_at_work(a: Agent, sc: Scene) -> bool {
    &&& a.status == AgentStatus::Active
    &&& elapsed_seconds(sc.now, a.last_active) <= lease_seconds(sc.config)
    &&& has_process(a, sc.running)
}

proof fn lemma_has_process(a: Agent, running: Seq<Process>)
    ensures
        is_running(a, running) <==> has_process(a, running),
{
    if is_running(a, running) {
        let i = choose|i: int| 0 <= i < running.len() && is_process_of(a, #[trigger] running[i]);
        assert(running[i].pid == a.pid);
    }
    if has_process(a, running) {
        let i = choose|i: int|
            0 <= i < running.len() && (#[trigger] running[i]).pid == a.pid && (
            a.process_identity is None || a.process_identity == Some(running[i].identity));
        assert(is_process_of(a, running[i]));
    }
}

/// One more record takes one more lease exactly where it stands for another
/// worker at work that is no placeholder; and one more slot exactly where its
/// role may change things too. Without records nothing is taken.
pub proof fn each_worker_at_work_counts_once(
    agents: Seq<Agent>,
    a: Agent,
    own: Option<Seq<char>>,
    sc: Scene,
)
    ensures
        ({
            let counts = is_at_work(a, sc) && own != Some(a.agent_id) && !(a.agent_type == "mcp"@
                && a.role == Some("context-engine"@));
            &&& leases(agents.push(a), own, sc) == leases(agents, own, sc) + (if counts {
                1int
            } else {
                0
            })
            &&& slots(agents.push(a), own, sc) == slots(agents, own, sc) + (if counts && can_mutate(
                a.role,
            ) {
                1int
            } else {
                0
            })
        }),
        leases(Seq::empty(), own, sc) == 0,
        slots(Seq::empty(), own, sc) == 0,
{
    lemma_has_process(a, sc.running);
    lemma_count_push(agents, a, |x: Agent| is_counted(x, own, sc));
    lemma_count_push(agents, a, |x: Agent| is_counted_mutating(x, own, sc));
    reveal(Seq::filter);
}

proof fn lemma_count_without<A>(s: Seq<A>, i: int, p: spec_fn(A) -> bool)
    requires
        0 <= i < s.len(),
        !p(s[i]),
    ensures
        s.remove(i).filter(p).len() == s.filter(p).len(),
    decreases s.len(),
{
    reveal(Seq::filter);
    if i == s.len() - 1 {
        assert(s.remove(i) =~= s.drop_last());
    } else {
        lemma_count_without(s.drop_last(), i, p);
        assert(s.remove(i).drop_last() =~= s.drop_last().remove(i));
        assert(s.remove(i).last() == s.last());
    }
}

/// A record that stands for no worker at work changes no verdict, and neither
/// does the caller's own: the verdict is the same without it. So a worker that is
/// idle or finished, whose lease ran out or whose process is gone, holds no lease,
/// no slot and no role.
pub proof fn a_record_out_of_use_changes_no_verdict(
    agents: Seq<Agent>,
    i: int,
    agent_type: Seq<char>,
    role: Option<Seq<char>>,
    project_root: Seq<char>,
    own: Option<Seq<char>>,
    sc: Scene,
)
    requires
        0 <= i < agents.len(),
        !is_at_work(agents[i], sc) || own == Some(agents[i].agent_id),
    ensures
        verdict(agents, agent_type, role, project_root, own, sc) == verdict(
            agents.remove(i),
            agent_type,
            role,
            project_root,
            own,
            sc,
        ),
{
    let rest = agents.remove(i);
    lemma_has_process(agents[i], sc.running);
    lemma_count_without(agents, i, |a: Agent| is_counted(a, own, sc));
    lemma_count_without(agents, i, |a: Agent| is_counted_mutating(a, own, sc));
    let only = exclusive_role(role);
    if only is Some {
        if is_taken(agents, only->0, project_root, own, sc) {
            let k = choose|k: int|
                0 <= k < agents.len() && plays(#[trigger] agents[k], only->0, project_root, own, sc);
            assert(k != i);
            let m = if k < i {
                k
            } else {
                k - 1
            };
            assert(rest[m] == agents[k]);
        }
        if is_taken(rest, only->0, project_root, own, sc) {
            let k = choose|k: int|
                0 <= k < rest.len() && plays(#[trigger] rest[k], only->0, project_root, own, sc);
            let m = if k < i {
                k
            } else {
                k + 1
            };
            assert(agents[m] == rest[k]);
        }
    }
}

/// Another worker at work has the role in the project, whatever the case of its
/// letters and the white space around the request.
pub open spec fn is_role_at_work(
    agents: Seq<Agent>,
    role: Seq<char>,
    project_root: Seq<char>,
    own: Option<Seq<char>>,
    sc: Scene,
) -> bool {
    exists|i: int|
        0 <= i < agents.len() && is_at_work(#[trigger] agents[i], sc) && own != Some(
            agents[i].agent_id,
        ) && agents[i].project_root == project_root && agents[i].role is Some && lowercase(
            agents[i].role->0,
        ) == lowercase(trim(role))
}

/// Where neither cap refuses, a registration is refused exactly where another
/// worker at work has its role in the project. A role of white space alone is no
/// role, and the role `read-only` may be had by many.
pub proof fn a_role_is_refused_only_while_it_is_at_work(
    agents: Seq<Agent>,
    agent_type: Seq<char>,
    role: Seq<char>,
    project_root: Seq<char>,
    own: Option<Seq<char>>,
    sc: Scene,
)
    requires
        takes_lease(agent_type, Some(role)),
        leases(agents, own, sc) < cap(sc.config.max_concurrent_workers),
        can_mutate(Some(role)) ==> slots(agents, own, sc) < cap(
            sc.config.max_concurrent_mutating_workers,
        ),
    ensures
        verdict(agents, agent_type, Some(role), project_root, own, sc) is Err <==> trim(role).len()
            > 0 && trim(role) != "read-only"@ && is_role_at_work(
            agents,
            role,
            project_root,
            own,
            sc,
        ),
{
    let only = exclusive_role(Some(role));
    if only is Some && is_taken(agents, only->0, project_root, own, sc) {
        let k = choose|k: int|
            0 <= k < agents.len() && plays(#[trigger] agents[k], only->0, project_root, own, sc);
        lemma_has_process(agents[k], sc.running);
        assert(is_at_work(agents[k], sc));
    }
    if is_role_at_work(agents, role, project_root, own, sc) && only is Some {
        let k = choose|i: int|
            0 <= i < agents.len() && is_at_work(#[trigger] agents[i], sc) && own != Some(
                agents[i].agent_id,
            ) && agents[i].project_root == project_root && agents[i].role is Some && lowercase(
                agents[i].role->0,
            ) == lowercase(trim(role));
        lemma_has_process(agents[k], sc.running);
        assert(plays(agents[k], only->0, project_root, own, sc));
    }
}

/// A registration without a role is refused by the caps alone.
pub proof fn no_role_is_never_a_duplicate(
    agents: Seq<Agent>,
    agent_type: Seq<char>,
    project_root: Seq<char>,
    own: Option<Seq<char>>,
    sc: Scene,
)
    ensures
        verdict(agents, agent_type, None, project_root, own, sc) is Ok <==> leases(agents, own, sc)
            < cap(sc.config.max_concurrent_workers) && slots(agents, own, sc) < cap(
            sc.config.max_concurrent_mutating_workers,
        ),
{
    let nothing = Seq::<char>::empty();
    assert(lowercase(nothing) =~= nothing);
    reveal_strlit("analysis");
    reveal_strlit("analyst");
    reveal_strlit("audit");
    reveal_strlit("mapper");
    reveal_strlit("research");
    reveal_strlit("review");
    reveal_strlit("read-only");
    reveal_strlit("readonly");
    let markers = read_only_markers();
    assert forall|i: int| 0 <= i < markers.len() implies !occurs(nothing, #[trigger] markers[i]) by {
        assert(markers[i].len() > 0);
    }
    assert(can_mutate(None));
    a_registration_passes_where_it_fits(agents, agent_type, None, project_root, own, sc);
}

/// Each refusal says what is full and how full: the machine-wide cap first, then
/// the mutating cap, then the role.
pub proof fn a_refusal_says_what_is_full(
    agents: Seq<Agent>,
    agent_type: Seq<char>,
    role: Option<Seq<char>>,
    project_root: Seq<char>,
    own: Option<Seq<char>>,
    sc: Scene,
)
    requires
        takes_lease(agent_type, role),
    ensures
        ({
            let v = verdict(agents, agent_type, role, project_root, own, sc);
            let lease_cap = cap(sc.config.max_concurrent_workers) as nat;
            let slot_cap = cap(sc.config.max_concurrent_mutating_workers) as nat;
            let held = leases(agents, own, sc);
            let taken = slots(agents, own, sc);
            &&& held >= lease_cap ==> v is Err && v->Err_0 == "machine-wide agent capacity reached while registering "@
                + project_root + ": "@ + decimal(held) + "/"@ + decimal(lease_cap)
                + " active leases; finish or idle a session before starting another"@
            &&& held < lease_cap && can_mutate(role) && taken >= slot_cap ==> v is Err && (
            MUTATING_CAPACITY_MARKER@ + ": "@ + decimal(taken) + "/"@ + decimal(slot_cap)
                + "; a slot frees when another worker finishes or its "@ + decimal(
                lease_seconds(sc.config) as nat,
            )).is_prefix_of(v->Err_0)
            &&& held < lease_cap && (can_mutate(role) ==> taken < slot_cap) && v is Err ==> role is Some
                && v->Err_0 == "duplicate active role rejected for "@ + project_root + ": "@ + trim(
                role->0,
            ) + "; reuse or finish the existing worker"@
        }),
{
    let taken = slots(agents, own, sc);
    let slot_cap = cap(sc.config.max_concurrent_mutating_workers) as nat;
    let lead = MUTATING_CAPACITY_MARKER@ + ": "@ + decimal(taken) + "/"@ + decimal(slot_cap)
        + "; a slot frees when another worker finishes or its "@ + decimal(
        lease_seconds(sc.config) as nat,
    );
    let m = mutating_message(taken, slot_cap, sc.config);
    assert(m.subrange(0, lead.len() as int) =~= lead);
}

// ---------------------------------------------------------------------------
// Registrations
// ---------------------------------------------------------------------------

/// The record was made for the caller's process.
pub open spec fn belongs_to(a: Agent, c: CallerModel) -> bool {
    a.pid == c.pid && a.process_identity == c.process_identity
}

/// No record was made for the caller's process.
pub open spec fn is_new_here(agents: Seq<Agent>, c: CallerModel) -> bool {
    forall|i: int| 0 <= i < agents.len() ==> !belongs_to(#[trigger] agents[i], c)
}

proof fn lemma_new_here(agents: Seq<Agent>, c: CallerModel)
    ensures
        is_new_here(agents, c) <==> find_own(agents, c) == agents.len(),
{
    lemma_find_own(agents, c);
    if find_own(agents, c) < agents.len() {
        assert(belongs_to(agents[find_own(agents, c)], c));
    } else {
        assert forall|i: int| 0 <= i < agents.len() implies !belongs_to(#[trigger] agents[i], c) by {
        }
    }
}

/// A process that registers for the first time gets a record of its own behind
/// the others: active, with the time of the call, the type, the role and the
/// project as they were given, and no note. Nothing else changes. It goes through
/// exactly where the verdict is good.
pub proof fn a_new_process_gets_an_active_record(
    agents: Seq<Agent>,
    agent_type: Seq<char>,
    role: Option<Seq<char>>,
    project_root: Seq<char>,
    c: CallerModel,
)
    requires
        is_new_here(agents, c),
    ensures
        registered(agents, agent_type, role, project_root, c) is Ok <==> verdict(
            agents,
            agent_type,
            role,
            project_root,
            None,
            c.scene,
        ) is Ok,
        registered(agents, agent_type, role, project_root, c) is Err ==> registered(
            agents,
            agent_type,
            role,
            project_root,
            c,
        )->Err_0 == verdict(agents, agent_type, role, project_root, None, c.scene)->Err_0,
        registered(agents, agent_type, role, project_root, c) matches Ok((after, id)) ==> {
            &&& after.len() == agents.len() + 1
            &&& after.drop_last() == agents
            &&& id == c.fresh_id
            &&& after.last().agent_id == id
            &&& after.last().agent_type == agent_type
            &&& after.last().role == role
            &&& after.last().project_root == project_root
            &&& after.last().started_at == c.scene.now
            &&& after.last().last_active == c.scene.now
            &&& after.last().pid == c.pid
            &&& after.last().process_identity == c.process_identity
            &&& after.last().status == AgentStatus::Active
            &&& after.last().status_message is None
        },
{
    lemma_new_here(agents, c);
    if let Ok((after, id)) = registered(agents, agent_type, role, project_root, c) {
        assert(after.drop_last() =~= agents);
    }
}

/// The caller's process runs.
pub open spec fn caller_runs(c: CallerModel) -> bool {
    exists|i: int|
        0 <= i < c.scene.running.len() && (#[trigger] c.scene.running[i]).pid == c.pid && (
        c.process_identity is None || c.process_identity == Some(c.scene.running[i].identity))
}

/// A process that registers for the first time and runs counts from then on: it
/// takes one lease unless it is a placeholder, and one slot where its role may
/// change things.
pub proof fn a_new_process_counts(
    agents: Seq<Agent>,
    agent_type: Seq<char>,
    role: Option<Seq<char>>,
    project_root: Seq<char>,
    c: CallerModel,
)
    requires
        is_new_here(agents, c),
        caller_runs(c),
    ensures
        registered(agents, agent_type, role, project_root, c) matches Ok((after, id)) ==> {
            let takes = !(agent_type == "mcp"@ && role == Some("context-engine"@));
            &&& is_at_work(after.last(), c.scene)
            &&& leases(after, None, c.scene) == leases(agents, None, c.scene) + (if takes {
                1int
            } else {
                0
            })
            &&& slots(after, None, c.scene) == slots(agents, None, c.scene) + (if takes
                && can_mutate(role) {
                1int
            } else {
                0
            })
        },
{
    a_new_process_gets_an_active_record(agents, agent_type, role, project_root, c);
    if let Ok((after, id)) = registered(agents, agent_type, role, project_root, c) {
        let x = after.last();
        assert(after =~= agents.push(x));
        assert(elapsed_seconds(c.scene.now, c.scene.now) == 0);
        let i = choose|i: int|
            0 <= i < c.scene.running.len() && (#[trigger] c.scene.running[i]).pid == c.pid && (
            c.process_identity is None || c.process_identity == Some(c.scene.running[i].identity));
        assert(has_process(x, c.scene.running)) by {
            assert(c.scene.running[i].pid == x.pid);
        }
        each_worker_at_work_counts_once(agents, x, None, c.scene);
    }
}

/// The caps refuse sooner or later: each process that registers for the first
/// time in a role that may change things, and runs, takes a slot, and once the
/// slots are gone the next one is refused.
pub proof fn the_next_worker_over_the_cap_is_refused(
    agents: Seq<Agent>,
    first_type: Seq<char>,
    first_role: Option<Seq<char>>,
    first_root: Seq<char>,
    first: CallerModel,
    next_type: Seq<char>,
    next_role: Option<Seq<char>>,
    next_root: Seq<char>,
    next: CallerModel,
)
    requires
        is_new_here(agents, first),
        caller_runs(first),
        takes_lease(first_type, first_role),
        can_mutate(first_role),
        takes_lease(next_type, next_role),
        can_mutate(next_role),
        next.scene == first.scene,
        slots(agents, None, first.scene) + 1 == cap(
            first.scene.config.max_concurrent_mutating_workers,
        ),
    ensures
        registered(agents, first_type, first_role, first_root, first) matches Ok((after, id)) ==> (
        is_new_here(after, next) ==> registered(
            after,
            next_type,
            next_role,
            next_root,
            next,
        ) is Err),
{
    a_new_process_counts(agents, first_type, first_role, first_root, first);
    if let Ok((after, id)) = registered(agents, first_type, first_role, first_root, first) {
        if is_new_here(after, next) {
            a_new_process_gets_an_active_record(after, next_type, next_role, next_root, next);
            a_registration_passes_where_it_fits(
                after,
                next_type,
                next_role,
                next_root,
                None,
                next.scene,
            );
        }
    }
}

/// The caller's record is the one at this index.
pub open spec fn is_own_at(agents: Seq<Agent>, i: int, c: CallerModel) -> bool {
    &&& 0 <= i < agents.len()
    &&& belongs_to(agents[i], c)
    &&& forall|j: int| 0 <= j < i ==> !belongs_to(#[trigger] agents[j], c)
}

proof fn lemma_own_at(agents: Seq<Agent>, i: int, c: CallerModel)
    requires
        is_own_at(agents, i, c),
    ensures
        find_own(agents, c) == i,
{
    lemma_find_own(agents, c);
    let k = find_own(agents, c);
    if k < i {
        assert(!belongs_to(agents[k], c));
    }
}

/// The role that a process has once it registered again: the one that it asks
/// for. Asking for none, or for the placeholder where a role was chosen, keeps
/// what there is.
pub open spec fn role_after(current: Option<Seq<char>>, requested: Option<Seq<char>>) -> Option<
    Seq<char>,
> {
    match requested {
        None => current,
        Some(r) => if r == "context-engine"@ && current is Some {
            current
        } else {
            Some(r)
        },
    }
}

/// A process that registers again keeps its record: it is active, with the time
/// of the call and the role that it has now. The id, the type, the project, the
/// start and the process stay, the note stays with the role, and every other
/// record stays as it is.
pub proof fn a_known_process_keeps_its_record(
    agents: Seq<Agent>,
    i: int,
    agent_type: Seq<char>,
    role: Option<Seq<char>>,
    project_root: Seq<char>,
    c: CallerModel,
)
    requires
        is_own_at(agents, i, c),
    ensures
        registered(agents, agent_type, role, project_root, c) matches Ok((after, id)) ==> {
            &&& after.len() == agents.len()
            &&& forall|j: int| 0 <= j < agents.len() && j != i ==> (#[trigger] after[j]) == agents[j]
            &&& id == agents[i].agent_id
            &&& after[i].agent_id == agents[i].agent_id
            &&& after[i].agent_type == agents[i].agent_type
            &&& after[i].role == role_after(agents[i].role, role)
            &&& after[i].project_root == agents[i].project_root
            &&& after[i].started_at == agents[i].started_at
            &&& after[i].last_active == c.scene.now
            &&& after[i].pid == agents[i].pid
            &&& after[i].process_identity == agents[i].process_identity
            &&& after[i].status == AgentStatus::Active
            &&& after[i].role == agents[i].role ==> after[i].status_message
                == agents[i].status_message
            &&& after[i].role != agents[i].role ==> after[i].status_message is None
        },
{
    lemma_own_at(agents, i, c);
}

/// A process that registers again for no more than it has is never refused,
/// however full the machine is.
pub proof fn what_is_held_is_not_asked_for_again(
    agents: Seq<Agent>,
    i: int,
    agent_type: Seq<char>,
    role: Option<Seq<char>>,
    project_root: Seq<char>,
    c: CallerModel,
)
    requires
        is_own_at(agents, i, c),
        takes_lease(agents[i].agent_type, role_after(agents[i].role, role)) ==> takes_lease(
            agents[i].agent_type,
            agents[i].role,
        ),
        can_mutate(role_after(agents[i].role, role)) ==> can_mutate(agents[i].role),
    ensures
        registered(agents, agent_type, role, project_root, c) is Ok,
{
    lemma_own_at(agents, i, c);
}

/// A process that asks for more than it has is treated like a new one: it gets
/// it exactly where the verdict on the other records is good.
pub proof fn an_upgrade_passes_the_caps(
    agents: Seq<Agent>,
    i: int,
    agent_type: Seq<char>,
    role: Option<Seq<char>>,
    project_root: Seq<char>,
    c: CallerModel,
)
    requires
        is_own_at(agents, i, c),
        takes_lease(agents[i].agent_type, role_after(agents[i].role, role)),
        !takes_lease(agents[i].agent_type, agents[i].role) || (can_mutate(
            role_after(agents[i].role, role),
        ) && !can_mutate(agents[i].role)),
    ensures
        registered(agents, agent_type, role, project_root, c) is Ok <==> verdict(
            agents,
            agents[i].agent_type,
            role_after(agents[i].role, role),
            project_root,
            Some(agents[i].agent_id),
            c.scene,
        ) is Ok,
        registered(agents, agent_type, role, project_root, c) matches Err(e) ==> e == verdict(
            agents,
            agents[i].agent_type,
            role_after(agents[i].role, role),
            project_root,
            Some(agents[i].agent_id),
            c.scene,
        )->Err_0,
{
    lemma_own_at(agents, i, c);
}

// ---------------------------------------------------------------------------
// Keeping the records
// ---------------------------------------------------------------------------

/// Setting a status changes the status and the note of the record with the id,
/// and nothing else of any record.
pub proof fn a_status_changes_one_record(
    agents: Seq<Agent>,
    i: int,
    status: AgentStatus,
    message: Option<Seq<char>>,
)
    requires
        0 <= i < agents.len(),
        forall|j: int| 0 <= j < i ==> (#[trigger] agents[j]).agent_id != agents[i].agent_id,
    ensures
        ({
            let id = agents[i].agent_id;
            let after = with_status(agents, id, status, message);
            &&& find_id(agents, id) == i
            &&& after.len() == agents.len()
            &&& forall|j: int| 0 <= j < agents.len() && j != i ==> (#[trigger] after[j]) == agents[j]
            &&& after[i].status == status
            &&& after[i].status_message == message
            &&& after[i].agent_id == agents[i].agent_id
            &&& after[i].agent_type == agents[i].agent_type
            &&& after[i].role == agents[i].role
            &&& after[i].project_root == agents[i].project_root
            &&& after[i].started_at == agents[i].started_at
            &&& after[i].last_active == agents[i].last_active
            &&& after[i].pid == agents[i].pid
            &&& after[i].process_identity == agents[i].process_identity
        }),
{
    lemma_find_id(agents, agents[i].agent_id);
    let k = find_id(agents, agents[i].agent_id);
    if k < i {
        assert(agents[k].agent_id != agents[i].agent_id);
    }
}

/// An id is unknown exactly where no record has it.
pub proof fn an_id_is_known_where_a_record_has_it(agents: Seq<Agent>, id: Seq<char>)
    ensures
        find_id(agents, id) < agents.len() <==> exists|i: int|
            0 <= i < agents.len() && (#[trigger] agents[i]).agent_id == id,
{
    lemma_find_id(agents, id);
}

/// Sweeping looks at each record by itself: it drops one exactly where that was
/// quiet for longer than the time to live, and keeps the order of the others.
pub proof fn sweeping_drops_the_quiet_records(agents: Seq<Agent>, a: Agent, c: CallerModel)
    ensures
        swept(Seq::empty(), c) == Seq::<Agent>::empty(),
        swept(agents.push(a), c) == if elapsed_seconds(c.scene.now, a.last_active)
            <= c.presence_ttl_seconds {
            swept(agents, c).push(a)
        } else {
            swept(agents, c)
        },
{
    reveal(Seq::filter);
    assert(agents.push(a).drop_last() =~= agents);
}

/// The record has the note of a read-only admission.
pub open spec fn has_admission_note(a: Agent, requested_role: Seq<char>) -> bool {
    &&& a.status == AgentStatus::Active
    &&& a.status_message == Some(
        "admitted read-only: "@ + MUTATING_CAPACITY_MARKER@ + " while registering as "@
            + requested_role,
    )
}

/// The record is as before but for its status and its note.
pub open spec fn differs_in_status(a: Agent, b: Agent) -> bool {
    a == (Agent { status: a.status, status_message: a.status_message, ..b })
}

/// A read-only admission goes through exactly where a registration in the role
/// `read-only` does, and gives the same id and the same records, but that one
/// record with the id has the note on the role that was asked for.
pub proof fn a_read_only_admission_is_a_registration_with_a_note(
    agents: Seq<Agent>,
    project_root: Seq<char>,
    requested_role: Seq<char>,
    c: CallerModel,
)
    ensures
        match registered(agents, "mcp"@, Some("read-only"@), project_root, c) {
            Ok((plain, id)) => admitted(agents, project_root, requested_role, c) matches Ok(
                (after, same),
            ) && same == id && after.len() == plain.len() && exists|k: int|
                0 <= k < plain.len() && has_admission_note(#[trigger] after[k], requested_role)
                    && after[k].agent_id == id && differs_in_status(after[k], plain[k])
                    && after == plain.update(k, after[k]),
            Err(e) => admitted(agents, project_root, requested_role, c) == Err::<
                (Seq<Agent>, Seq<char>),
                Seq<char>,
            >(e),
        },
{
    let reg = registered(agents, "mcp"@, Some("read-only"@), project_root, c);
    if let Ok((plain, id)) = reg {
        lemma_registered_id(agents, "mcp"@, Some("read-only"@), project_root, c);
        lemma_find_id(plain, id);
        let k = find_id(plain, id);
        let after = with_status(
            plain,
            id,
            AgentStatus::Active,
            Some(admission_note(requested_role)),
        );
        assert(has_admission_note(after[k], requested_role));
        assert(after =~= plain.update(k, after[k]));
    }
}

} // verus!
