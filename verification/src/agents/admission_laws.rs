//! What admission promises as a whole.

use crate::agents::admission::{
    CallerModel, Scene, admission_note, admitted, duplicate_message, escalates, exclusive_role,
    find_own, is_counted, is_counted_mutating, is_own, is_taken, leases, lemma_find_own, new_record, next_role, plays,
    refreshed, registered, slots, verdict,
};
use crate::agents::registry::{Agent, find_id, lemma_find_id};
use crate::agents::resource_broker::{
    AgentsConfig, MUTATING_CAPACITY_MARKER, PLACEHOLDER_ROLE, READ_ONLY_PRESENCE_ROLE, can_mutate,
    cap, mutating_message, profile, read_only_markers, takes_lease, worker_message,
};
use crate::ranges::numbers_read_back;
use crate::text::{decimal, is_digit, lowercase, occurs, occurs_at, trim, trim_start};
use vstd::multiset::Multiset;
use vstd::prelude::*;
use vstd::seq_lib::group_to_multiset_ensures;

verus! {

// ---------------------------------------------------------------------------
// Counting
// ---------------------------------------------------------------------------

/// One more item counts once where it meets the predicate.
pub proof fn lemma_count_push<A>(s: Seq<A>, x: A, p: spec_fn(A) -> bool)
    ensures
        s.push(x).filter(p).len() == s.filter(p).len() + if p(x) {
            1int
        } else {
            0int
        },
{
    reveal(Seq::filter);
    assert(s.push(x).drop_last() =~= s);
}

/// Two predicates that differ at one index count the same everywhere else.
proof fn lemma_count_differs_at<A>(
    s: Seq<A>,
    t: Seq<A>,
    i: int,
    p: spec_fn(A) -> bool,
    q: spec_fn(A) -> bool,
)
    requires
        s.len() == t.len(),
        0 <= i < s.len(),
        forall|j: int| 0 <= j < s.len() && j != i ==> p(#[trigger] s[j]) == q(t[j]),
    ensures
        s.filter(p).len() - (if p(s[i]) {
            1int
        } else {
            0int
        }) == t.filter(q).len() - (if q(t[i]) {
            1int
        } else {
            0int
        }),
    decreases s.len(),
{
    reveal(Seq::filter);
    let n = s.len() - 1;
    if i == n {
        lemma_count_agrees(s.drop_last(), t.drop_last(), p, q);
    } else {
        assert(p(s[n]) == q(t[n]));
        assert forall|j: int| 0 <= j < n && j != i implies p(#[trigger] s.drop_last()[j]) == q(
            t.drop_last()[j],
        ) by {
            assert(p(s[j]) == q(t[j]));
        }
        lemma_count_differs_at(s.drop_last(), t.drop_last(), i, p, q);
    }
}

proof fn lemma_count_agrees<A>(s: Seq<A>, t: Seq<A>, p: spec_fn(A) -> bool, q: spec_fn(A) -> bool)
    requires
        s.len() == t.len(),
        forall|j: int| 0 <= j < s.len() ==> p(#[trigger] s[j]) == q(t[j]),
    ensures
        s.filter(p).len() == t.filter(q).len(),
    decreases s.len(),
{
    reveal(Seq::filter);
    if s.len() > 0 {
        let n = s.len() - 1;
        assert(p(s[n]) == q(t[n]));
        assert forall|j: int| 0 <= j < n implies p(#[trigger] s.drop_last()[j]) == q(
            t.drop_last()[j],
        ) by {
            assert(p(s[j]) == q(t[j]));
        }
        lemma_count_agrees(s.drop_last(), t.drop_last(), p, q);
    }
}

proof fn lemma_filter_twice<A>(
    s: Seq<A>,
    p: spec_fn(A) -> bool,
    q: spec_fn(A) -> bool,
    both: spec_fn(A) -> bool,
)
    requires
        forall|x: A| #[trigger] both(x) <==> p(x) && q(x),
    ensures
        s.filter(p).filter(q).len() == s.filter(both).len(),
    decreases s.len(),
{
    reveal(Seq::filter);
    if s.len() > 0 {
        lemma_filter_twice(s.drop_last(), p, q, both);
        assert(both(s.last()) <==> p(s.last()) && q(s.last()));
        if p(s.last()) {
            lemma_count_push(s.drop_last().filter(p), s.last(), q);
        }
    }
}

proof fn lemma_filter_holds<A>(s: Seq<A>, p: spec_fn(A) -> bool, q: spec_fn(A) -> bool)
    ensures
        (exists|i: int| 0 <= i < s.filter(p).len() && q(#[trigger] s.filter(p)[i])) <==> (exists|
            i: int,
        | 0 <= i < s.len() && p(s[i]) && q(#[trigger] s[i])),
    decreases s.len(),
{
    reveal(Seq::filter);
    if s.len() > 0 {
        let front = s.drop_last();
        let kept = front.filter(p);
        lemma_filter_holds(front, p, q);
        if exists|i: int| 0 <= i < s.filter(p).len() && q(#[trigger] s.filter(p)[i]) {
            let i = choose|i: int| 0 <= i < s.filter(p).len() && q(#[trigger] s.filter(p)[i]);
            if i < kept.len() {
                assert(q(kept[i]));
                let k = choose|k: int| 0 <= k < front.len() && p(front[k]) && q(#[trigger] front[k]);
                assert(q(s[k]));
            } else {
                assert(q(s[s.len() - 1]));
            }
        }
        if exists|i: int| 0 <= i < s.len() && p(s[i]) && q(#[trigger] s[i]) {
            let i = choose|i: int| 0 <= i < s.len() && p(s[i]) && q(#[trigger] s[i]);
            if i < front.len() {
                assert(q(front[i]));
                let k = choose|k: int| 0 <= k < kept.len() && q(#[trigger] kept[k]);
                assert(q(s.filter(p)[k]));
            } else {
                assert(q(s.filter(p)[kept.len() as int]));
            }
        }
    }
}

// ---------------------------------------------------------------------------
// Roles
// ---------------------------------------------------------------------------

proof fn lemma_read_only_is_no_placeholder()
    ensures
        READ_ONLY_PRESENCE_ROLE@ != PLACEHOLDER_ROLE@,
{
    reveal_strlit("read-only");
    reveal_strlit("context-engine");
    assert(READ_ONLY_PRESENCE_ROLE@.len() == 9);
    assert(PLACEHOLDER_ROLE@.len() == 14);
}

/// The read-only role holds a machine-wide lease and never a mutating slot.
pub proof fn read_only_role_takes_no_slot(agent_type: Seq<char>)
    ensures
        profile(agent_type, Some(READ_ONLY_PRESENCE_ROLE@)) == (true, false),
{
    let role = READ_ONLY_PRESENCE_ROLE@;
    lemma_read_only_is_no_placeholder();
    reveal_strlit("read-only");
    assert(role.len() == 9);
    assert(lowercase(role) =~= role);
    assert(role.subrange(0, 9) =~= role);
    assert(occurs_at(lowercase(role), read_only_markers()[6], 0));
}

/// The placeholder of an MCP process takes neither a lease nor a slot.
pub proof fn placeholder_takes_nothing()
    ensures
        profile("mcp"@, Some(PLACEHOLDER_ROLE@)) == (false, false),
{
}

/// A registration that takes no lease is never refused.
pub proof fn no_lease_is_never_refused(
    agents: Seq<Agent>,
    agent_type: Seq<char>,
    role: Option<Seq<char>>,
    project_root: Seq<char>,
    own: Option<Seq<char>>,
    sc: Scene,
)
    requires
        !takes_lease(agent_type, role),
    ensures
        verdict(agents, agent_type, role, project_root, own, sc) is Ok,
{
}

/// A registration that takes a lease passes exactly where a lease is free, a
/// slot is free if it needs one, and no agent of the project has its role.
pub proof fn a_registration_passes_where_it_fits(
    agents: Seq<Agent>,
    agent_type: Seq<char>,
    role: Option<Seq<char>>,
    project_root: Seq<char>,
    own: Option<Seq<char>>,
    sc: Scene,
)
    requires
        takes_lease(agent_type, role),
    ensures
        verdict(agents, agent_type, role, project_root, own, sc) is Ok <==> {
            &&& leases(agents, own, sc) < cap(sc.config.max_concurrent_workers)
            &&& can_mutate(role) ==> slots(agents, own, sc) < cap(
                sc.config.max_concurrent_mutating_workers,
            )
            &&& exclusive_role(role) is Some ==> !is_taken(
                agents,
                exclusive_role(role)->0,
                project_root,
                own,
                sc,
            )
        },
{
}

/// A read-only admission is refused by the machine-wide cap alone: it needs no
/// slot, and it is never a duplicate, however many a project has.
pub proof fn read_only_is_never_a_duplicate(
    agents: Seq<Agent>,
    agent_type: Seq<char>,
    project_root: Seq<char>,
    own: Option<Seq<char>>,
    sc: Scene,
)
    ensures
        verdict(
            agents,
            agent_type,
            Some(READ_ONLY_PRESENCE_ROLE@),
            project_root,
            own,
            sc,
        ) is Ok <==> leases(agents, own, sc) < cap(sc.config.max_concurrent_workers),
{
    read_only_role_takes_no_slot(agent_type);
    let role = READ_ONLY_PRESENCE_ROLE@;
    reveal_strlit("read-only");
    assert(role.len() == 9);
    assert(trim_start(role) == role);
    assert(trim(role) == role);
}

/// The mutating cap refuses with a message that callers recognise.
pub proof fn mutating_refusal_is_recognised(active: nat, limit: nat, config: AgentsConfig)
    ensures
        occurs(mutating_message(active, limit, config), MUTATING_CAPACITY_MARKER@),
{
    let m = mutating_message(active, limit, config);
    let marker = MUTATING_CAPACITY_MARKER@;
    assert(m.subrange(0, marker.len() as int) =~= marker);
    assert(occurs_at(m, marker, 0));
}

/// A pattern that stands in neither of two texts, and does not hold the first
/// character of the second, does not stand across them either.
proof fn lemma_not_across(a: Seq<char>, b: Seq<char>, p: Seq<char>)
    requires
        p.len() > 0,
        b.len() > 0,
        !p.contains(b[0]),
        !occurs(a, p),
        !occurs(b, p),
    ensures
        !occurs(a + b, p),
{
    let all = a + b;
    assert forall|i: int| !occurs_at(all, p, i) by {
        if occurs_at(all, p, i) {
            let n = a.len() as int;
            if i + p.len() <= n {
                assert(a.subrange(i, i + p.len()) =~= all.subrange(i, i + p.len()));
                assert(occurs_at(a, p, i));
            } else if i >= n {
                assert(b.subrange(i - n, i - n + p.len()) =~= all.subrange(i, i + p.len()));
                assert(occurs_at(b, p, i - n));
            } else {
                assert(all.subrange(i, i + p.len())[n - i] == b[0]);
                assert(p[n - i] == b[0]);
            }
        }
    }
}

/// A pattern that starts nowhere in a text stands no earlier than behind it.
proof fn lemma_not_before(a: Seq<char>, b: Seq<char>, p: Seq<char>)
    requires
        p.len() > 0,
        !a.contains(p[0]),
        !occurs(b, p),
    ensures
        !occurs(a + b, p),
{
    let all = a + b;
    assert forall|i: int| !occurs_at(all, p, i) by {
        if occurs_at(all, p, i) {
            let n = a.len() as int;
            if i < n {
                assert(all.subrange(i, i + p.len())[0] == a[i]);
                assert(a.contains(a[i]));
            } else {
                assert(b.subrange(i - n, i - n + p.len()) =~= all.subrange(i, i + p.len()));
                assert(occurs_at(b, p, i - n));
            }
        }
    }
}

proof fn lemma_not_in_empty(p: Seq<char>)
    requires
        p.len() > 0,
    ensures
        !occurs(Seq::<char>::empty(), p),
{
}

/// A text in which a pattern does not even start.
proof fn lemma_no_start(a: Seq<char>, p: Seq<char>)
    requires
        p.len() > 0,
        !a.contains(p[0]),
    ensures
        !occurs(a, p),
{
    lemma_not_in_empty(p);
    lemma_not_before(a, Seq::empty(), p);
    assert(a + Seq::<char>::empty() =~= a);
}

/// The marker starts with an `m` and holds neither a colon nor a semicolon.
proof fn lemma_marker()
    ensures
        MUTATING_CAPACITY_MARKER@.len() == 44,
        MUTATING_CAPACITY_MARKER@[0] == 'm',
        MUTATING_CAPACITY_MARKER@[13] == 'm',
        !MUTATING_CAPACITY_MARKER@.contains(':'),
        !MUTATING_CAPACITY_MARKER@.contains(';'),
{
    reveal_strlit("machine-wide mutating-agent capacity reached");
    let m = MUTATING_CAPACITY_MARKER@;
    assert(m.len() == 44);
}

proof fn lemma_no_m_in_decimal(n: nat)
    ensures
        !decimal(n).contains('m'),
{
    numbers_read_back(n);
    assert forall|i: int| 0 <= i < decimal(n).len() implies decimal(n)[i] != 'm' by {
        assert(is_digit(decimal(n)[i]));
    }
}

/// The machine-wide cap refuses with a message that is not taken for a refusal
/// by the mutating cap, unless the project's own path holds the marker.
pub proof fn worker_refusal_is_not_a_mutating_one(
    active: nat,
    limit: nat,
    project_root: Seq<char>,
)
    requires
        !occurs(project_root, MUTATING_CAPACITY_MARKER@),
    ensures
        !occurs(worker_message(active, limit, project_root), MUTATING_CAPACITY_MARKER@),
{
    let marker = MUTATING_CAPACITY_MARKER@;
    lemma_marker();
    let lead = "machine-wide agent capacity reached while registering "@;
    let colon = ": "@;
    let slash = "/"@;
    let end = " active leases; finish or idle a session before starting another"@;
    reveal_strlit("machine-wide agent capacity reached while registering ");
    reveal_strlit(": ");
    reveal_strlit("/");
    reveal_strlit(" active leases; finish or idle a session before starting another");
    assert(lead.len() == 54);
    assert(colon.len() == 2 && colon[0] == ':');
    assert(slash.len() == 1);
    assert(end.len() == 64);
    lemma_no_m_in_decimal(active);
    lemma_no_m_in_decimal(limit);
    let tail = colon + decimal(active) + slash + decimal(limit) + end;
    assert(!tail.contains('m'));
    lemma_no_start(tail, marker);
    assert(tail[0] == ':');
    lemma_not_across(project_root, tail, marker);
    let rest = project_root + tail;
    // The `m` at the very start begins another word.
    assert(!lead.skip(1).contains('m'));
    lemma_not_before(lead.skip(1), rest, marker);
    let all = lead + rest;
    let later = lead.skip(1) + rest;
    assert(all.skip(1) =~= later);
    assert forall|i: int| !occurs_at(all, marker, i) by {
        if occurs_at(all, marker, i) {
            if i == 0 {
                assert(all.subrange(0, marker.len() as int)[13] == lead[13]);
            } else {
                assert(later.subrange(i - 1, i - 1 + marker.len()) =~= all.subrange(
                    i,
                    i + marker.len(),
                ));
                assert(occurs_at(later, marker, i - 1));
            }
        }
    }
    assert(worker_message(active, limit, project_root) =~= all);
}

/// A role that is taken is refused with a message that is not taken for a refusal
/// by the mutating cap, unless the path or the role holds the marker.
pub proof fn duplicate_refusal_is_not_a_mutating_one(project_root: Seq<char>, role: Seq<char>)
    requires
        !occurs(project_root, MUTATING_CAPACITY_MARKER@),
        !occurs(role, MUTATING_CAPACITY_MARKER@),
    ensures
        !occurs(duplicate_message(project_root, role), MUTATING_CAPACITY_MARKER@),
{
    let marker = MUTATING_CAPACITY_MARKER@;
    lemma_marker();
    let lead = "duplicate active role rejected for "@;
    let colon = ": "@;
    let end = "; reuse or finish the existing worker"@;
    reveal_strlit("duplicate active role rejected for ");
    reveal_strlit(": ");
    reveal_strlit("; reuse or finish the existing worker");
    assert(lead.len() == 35);
    assert(colon.len() == 2 && colon[0] == ':');
    assert(end.len() == 37 && end[0] == ';');
    assert(!end.contains('m'));
    lemma_no_start(end, marker);
    lemma_not_across(role, end, marker);
    assert(!colon.contains('m'));
    lemma_not_before(colon, role + end, marker);
    let tail = colon + (role + end);
    assert(tail[0] == ':');
    lemma_not_across(project_root, tail, marker);
    assert(!lead.contains('m'));
    lemma_not_before(lead, project_root + tail, marker);
    assert(duplicate_message(project_root, role) =~= lead + (project_root + tail));
}

/// The registration is refused because the mutating cap is full.
pub open spec fn refused_by_mutating_cap(
    agents: Seq<Agent>,
    agent_type: Seq<char>,
    role: Option<Seq<char>>,
    own: Option<Seq<char>>,
    sc: Scene,
) -> bool {
    &&& takes_lease(agent_type, role)
    &&& leases(agents, own, sc) < cap(sc.config.max_concurrent_workers)
    &&& can_mutate(role)
    &&& slots(agents, own, sc) >= cap(sc.config.max_concurrent_mutating_workers)
}

/// A refusal is recognised as one by the mutating cap exactly where it is one,
/// unless the project's path or the role holds the marker itself.
pub proof fn a_mutating_refusal_is_told_from_the_others(
    agents: Seq<Agent>,
    agent_type: Seq<char>,
    role: Option<Seq<char>>,
    project_root: Seq<char>,
    own: Option<Seq<char>>,
    sc: Scene,
)
    requires
        !occurs(project_root, MUTATING_CAPACITY_MARKER@),
        exclusive_role(role) is Some ==> !occurs(
            exclusive_role(role)->0,
            MUTATING_CAPACITY_MARKER@,
        ),
    ensures
        verdict(agents, agent_type, role, project_root, own, sc) matches Err(e) ==> (occurs(
            e,
            MUTATING_CAPACITY_MARKER@,
        ) <==> refused_by_mutating_cap(agents, agent_type, role, own, sc)),
{
    let lease_cap = cap(sc.config.max_concurrent_workers);
    let slot_cap = cap(sc.config.max_concurrent_mutating_workers);
    worker_refusal_is_not_a_mutating_one(leases(agents, own, sc), lease_cap as nat, project_root);
    mutating_refusal_is_recognised(slots(agents, own, sc), slot_cap as nat, sc.config);
    if exclusive_role(role) is Some {
        duplicate_refusal_is_not_a_mutating_one(project_root, exclusive_role(role)->0);
    }
}

/// A session that the mutating cap refuses is admitted read-only.
pub proof fn refused_session_is_admitted_read_only(
    agents: Seq<Agent>,
    role: Option<Seq<char>>,
    project_root: Seq<char>,
    c: CallerModel,
    requested_role: Seq<char>,
)
    requires
        ({
            let i = find_own(agents, c);
            if i < agents.len() {
                refused_by_mutating_cap(
                    agents,
                    agents[i].agent_type,
                    next_role(agents[i].role, role),
                    Some(agents[i].agent_id),
                    c.scene,
                )
            } else {
                refused_by_mutating_cap(agents, "mcp"@, role, None, c.scene)
            }
        }),
    ensures
        admitted(agents, project_root, requested_role, c) is Ok,
{
    let i = find_own(agents, c);
    if i < agents.len() {
        let a = agents[i];
        read_only_is_never_a_duplicate(
            agents,
            a.agent_type,
            project_root,
            Some(a.agent_id),
            c.scene,
        );
        lemma_read_only_is_no_placeholder();
    } else {
        read_only_is_never_a_duplicate(agents, "mcp"@, project_root, None, c.scene);
    }
}

// ---------------------------------------------------------------------------
// Other records
// ---------------------------------------------------------------------------

proof fn lemma_count_in_multiset<A>(s: Seq<A>, p: spec_fn(A) -> bool)
    ensures
        s.filter(p).len() == s.to_multiset().filter(p).len(),
    decreases s.len(),
{
    broadcast use group_to_multiset_ensures;
    broadcast use vstd::multiset::group_multiset_axioms;

    reveal(Seq::filter);
    if s.len() == 0 {
        assert(s.to_multiset().filter(p) =~= Multiset::<A>::empty());
    } else {
        let front = s.drop_last();
        lemma_count_in_multiset(front, p);
        assert(s =~= front.push(s.last()));
        let before = front.to_multiset();
        assert(s.to_multiset() =~= before.insert(s.last()));
        if p(s.last()) {
            assert(s.to_multiset().filter(p) =~= before.filter(p).insert(s.last()));
        } else {
            assert(s.to_multiset().filter(p) =~= before.filter(p));
        }
    }
}

/// The order of the records does not matter: the same records in another order
/// give the same verdict, and the same message where it is a refusal.
pub proof fn the_order_of_records_does_not_matter(
    agents: Seq<Agent>,
    reordered: Seq<Agent>,
    agent_type: Seq<char>,
    role: Option<Seq<char>>,
    project_root: Seq<char>,
    own: Option<Seq<char>>,
    sc: Scene,
)
    requires
        agents.to_multiset() == reordered.to_multiset(),
    ensures
        verdict(agents, agent_type, role, project_root, own, sc) == verdict(
            reordered,
            agent_type,
            role,
            project_root,
            own,
            sc,
        ),
{
    let counted = |a: Agent| is_counted(a, own, sc);
    let mutating = |a: Agent| is_counted_mutating(a, own, sc);
    lemma_count_in_multiset(agents, counted);
    lemma_count_in_multiset(reordered, counted);
    lemma_count_in_multiset(agents, mutating);
    lemma_count_in_multiset(reordered, mutating);
    let only = exclusive_role(role);
    if only is Some {
        lemma_taken_in_both(agents, reordered, only->0, project_root, own, sc);
        lemma_taken_in_both(reordered, agents, only->0, project_root, own, sc);
    }
}

proof fn lemma_taken_in_both(
    agents: Seq<Agent>,
    others: Seq<Agent>,
    role: Seq<char>,
    project_root: Seq<char>,
    own: Option<Seq<char>>,
    sc: Scene,
)
    requires
        agents.to_multiset() == others.to_multiset(),
    ensures
        is_taken(agents, role, project_root, own, sc) ==> is_taken(
            others,
            role,
            project_root,
            own,
            sc,
        ),
{
    broadcast use group_to_multiset_ensures;

    if is_taken(agents, role, project_root, own, sc) {
        let i = choose|i: int|
            0 <= i < agents.len() && plays(#[trigger] agents[i], role, project_root, own, sc);
        assert(agents.contains(agents[i]));
        assert(agents.to_multiset().count(agents[i]) > 0);
        assert(others.to_multiset().count(agents[i]) > 0);
        let k = others.index_of(agents[i]);
        assert(plays(others[k], role, project_root, own, sc));
    }
}

proof fn lemma_count_grows<A>(s: Seq<A>, more: Seq<A>, p: spec_fn(A) -> bool)
    ensures
        s.filter(p).len() <= (s + more).filter(p).len(),
    decreases more.len(),
{
    if more.len() == 0 {
        assert(s + more =~= s);
    } else {
        lemma_count_grows(s, more.drop_last(), p);
        assert(s + more =~= (s + more.drop_last()).push(more.last()));
        lemma_count_push(s + more.drop_last(), more.last(), p);
    }
}

/// Further agents never turn a refusal into an admission.
pub proof fn further_agents_never_help(
    agents: Seq<Agent>,
    more: Seq<Agent>,
    agent_type: Seq<char>,
    role: Option<Seq<char>>,
    project_root: Seq<char>,
    own: Option<Seq<char>>,
    sc: Scene,
)
    requires
        verdict(agents, agent_type, role, project_root, own, sc) is Err,
    ensures
        verdict(agents + more, agent_type, role, project_root, own, sc) is Err,
{
    lemma_count_grows(agents, more, |a: Agent| is_counted(a, own, sc));
    lemma_count_grows(agents, more, |a: Agent| is_counted_mutating(a, own, sc));
    let only = exclusive_role(role);
    if only is Some && is_taken(agents, only->0, project_root, own, sc) {
        let i = choose|i: int|
            0 <= i < agents.len() && plays(#[trigger] agents[i], only->0, project_root, own, sc);
        assert((agents + more)[i] == agents[i]);
        assert(plays((agents + more)[i], only->0, project_root, own, sc));
    }
}

// ---------------------------------------------------------------------------
// Records
// ---------------------------------------------------------------------------

/// The record that is upgraded in place never counts against itself: the verdict
/// is the one on the other records.
pub proof fn own_record_never_counts(
    agents: Seq<Agent>,
    agent_type: Seq<char>,
    role: Option<Seq<char>>,
    project_root: Seq<char>,
    id: Seq<char>,
    sc: Scene,
)
    ensures
        verdict(agents, agent_type, role, project_root, Some(id), sc) == verdict(
            agents.filter(|a: Agent| a.agent_id != id),
            agent_type,
            role,
            project_root,
            None,
            sc,
        ),
{
    let other = |a: Agent| a.agent_id != id;
    let rest = agents.filter(other);
    lemma_filter_twice(
        agents,
        other,
        |a: Agent| is_counted(a, None, sc),
        |a: Agent| is_counted(a, Some(id), sc),
    );
    lemma_filter_twice(
        agents,
        other,
        |a: Agent| is_counted_mutating(a, None, sc),
        |a: Agent| is_counted_mutating(a, Some(id), sc),
    );
    let only = exclusive_role(role);
    if only is Some {
        let q = |a: Agent| plays(a, only->0, project_root, None, sc);
        lemma_filter_holds(agents, other, q);
        if is_taken(agents, only->0, project_root, Some(id), sc) {
            let i = choose|i: int|
                0 <= i < agents.len() && plays(
                    #[trigger] agents[i],
                    only->0,
                    project_root,
                    Some(id),
                    sc,
                );
            assert(other(agents[i]) && q(agents[i]));
            let k = choose|k: int| 0 <= k < rest.len() && q(#[trigger] rest[k]);
            assert(plays(rest[k], only->0, project_root, None, sc));
        }
        if is_taken(rest, only->0, project_root, None, sc) {
            let k = choose|k: int|
                0 <= k < rest.len() && plays(#[trigger] rest[k], only->0, project_root, None, sc);
            assert(q(rest[k]));
            let i = choose|i: int|
                0 <= i < agents.len() && other(agents[i]) && q(#[trigger] agents[i]);
            assert(plays(agents[i], only->0, project_root, Some(id), sc));
        }
    }
}

/// No two records have the same id.
pub open spec fn ids_are_unique(agents: Seq<Agent>) -> bool {
    forall|i: int, j: int|
        0 <= i < j < agents.len() ==> (#[trigger] agents[i]).agent_id != (
        #[trigger] agents[j]).agent_id
}

/// Where ids are unique, a record is found by its id.
proof fn lemma_unique_id_is_found(agents: Seq<Agent>, i: int)
    requires
        ids_are_unique(agents),
        0 <= i < agents.len(),
    ensures
        find_id(agents, agents[i].agent_id) == i,
{
    lemma_find_id(agents, agents[i].agent_id);
    let k = find_id(agents, agents[i].agent_id);
    if k < i {
        assert(agents[k].agent_id != agents[i].agent_id);
    }
}

/// No two records were made for the same process.
pub open spec fn processes_are_unique(agents: Seq<Agent>) -> bool {
    forall|i: int, j: int|
        0 <= i < j < agents.len() ==> (#[trigger] agents[i]).pid != (#[trigger] agents[j]).pid
            || agents[i].process_identity != agents[j].process_identity
}

/// A process has one record: registering it again makes no second one.
pub proof fn a_process_has_one_record(
    agents: Seq<Agent>,
    agent_type: Seq<char>,
    role: Option<Seq<char>>,
    project_root: Seq<char>,
    c: CallerModel,
)
    requires
        processes_are_unique(agents),
    ensures
        registered(agents, agent_type, role, project_root, c) matches Ok((after, id))
            ==> processes_are_unique(after),
{
    lemma_find_own(agents, c);
}

/// Ids stay unique where the id for a new record is not in use.
pub proof fn ids_stay_unique(
    agents: Seq<Agent>,
    agent_type: Seq<char>,
    role: Option<Seq<char>>,
    project_root: Seq<char>,
    c: CallerModel,
)
    requires
        ids_are_unique(agents),
        forall|i: int| 0 <= i < agents.len() ==> (#[trigger] agents[i]).agent_id != c.fresh_id,
    ensures
        registered(agents, agent_type, role, project_root, c) matches Ok((after, id))
            ==> ids_are_unique(after),
{
    lemma_find_own(agents, c);
}

/// Registering twice gives the same id: the second registration finds the record
/// of the first.
pub proof fn registering_again_keeps_the_id(
    agents: Seq<Agent>,
    agent_type: Seq<char>,
    role: Option<Seq<char>>,
    project_root: Seq<char>,
    c: CallerModel,
    later_type: Seq<char>,
    later_role: Option<Seq<char>>,
    later_root: Seq<char>,
    later: CallerModel,
)
    requires
        c.pid == later.pid,
        c.process_identity == later.process_identity,
    ensures
        registered(agents, agent_type, role, project_root, c) matches Ok((after, id)) ==> (
        registered(after, later_type, later_role, later_root, later) matches Ok((last, again))
            ==> again == id && last.len() == after.len()),
{
    lemma_find_own(agents, c);
    if let Ok((after, id)) = registered(agents, agent_type, role, project_root, c) {
        lemma_find_own(after, later);
        let i = find_own(agents, c);
        assert(is_own(after[i], later));
        let k = find_own(after, later);
        if k < i {
            assert(after[k] == agents[k]);
            assert(!is_own(agents[k], c));
        }
    }
}

/// The placeholder never takes the place of a role that was chosen.
pub proof fn placeholder_never_overwrites_a_role(
    agents: Seq<Agent>,
    agent_type: Seq<char>,
    project_root: Seq<char>,
    c: CallerModel,
)
    requires
        find_own(agents, c) < agents.len(),
        agents[find_own(agents, c)].role is Some,
    ensures
        ({
            let i = find_own(agents, c);
            registered(agents, agent_type, Some(PLACEHOLDER_ROLE@), project_root, c) matches Ok(
                (after, id),
            ) && after[i].role == agents[i].role && after[i].status_message
                == agents[i].status_message
        }),
{
    lemma_find_own(agents, c);
}

/// A change of role clears the note that belonged to the role before.
pub proof fn a_role_change_clears_the_note(
    agents: Seq<Agent>,
    agent_type: Seq<char>,
    role: Option<Seq<char>>,
    project_root: Seq<char>,
    c: CallerModel,
)
    requires
        find_own(agents, c) < agents.len(),
    ensures
        registered(agents, agent_type, role, project_root, c) matches Ok((after, id)) ==> {
            let i = find_own(agents, c);
            after[i].role != agents[i].role ==> after[i].status_message is None
        },
{
    lemma_find_own(agents, c);
}

// ---------------------------------------------------------------------------
// Caps
// ---------------------------------------------------------------------------

/// The registration makes a record, takes more than its record took, or
/// refreshes one that counts as it is.
pub open spec fn is_accounted_for(
    agents: Seq<Agent>,
    role: Option<Seq<char>>,
    c: CallerModel,
) -> bool {
    let i = find_own(agents, c);
    i < agents.len() ==> {
        let a = agents[i];
        let next = next_role(a.role, role);
        ||| escalates(profile(a.agent_type, a.role), profile(a.agent_type, next))
        ||| is_counted(a, None, c.scene)
        ||| !takes_lease(a.agent_type, next)
    }
}

proof fn lemma_leases_after_update(agents: Seq<Agent>, i: int, x: Agent, sc: Scene)
    requires
        0 <= i < agents.len(),
        x.agent_id == agents[i].agent_id,
        ids_are_unique(agents),
    ensures
        leases(agents.update(i, x), None, sc) == leases(agents, Some(agents[i].agent_id), sc)
            + if is_counted(x, None, sc) {
            1int
        } else {
            0int
        },
        slots(agents.update(i, x), None, sc) == slots(agents, Some(agents[i].agent_id), sc)
            + if is_counted_mutating(x, None, sc) {
            1int
        } else {
            0int
        },
        leases(agents, None, sc) == leases(agents, Some(agents[i].agent_id), sc) + if is_counted(
            agents[i],
            None,
            sc,
        ) {
            1int
        } else {
            0int
        },
        slots(agents, None, sc) == slots(agents, Some(agents[i].agent_id), sc)
            + if is_counted_mutating(agents[i], None, sc) {
            1int
        } else {
            0int
        },
{
    let id = agents[i].agent_id;
    let after = agents.update(i, x);
    assert forall|j: int| 0 <= j < agents.len() && j != i implies (#[trigger] agents[j]).agent_id
        != id by {
        if j < i {
            assert(agents[j].agent_id != agents[i].agent_id);
        } else {
            assert(agents[i].agent_id != agents[j].agent_id);
        }
    }
    let p = |a: Agent| is_counted(a, None, sc);
    let q = |a: Agent| is_counted(a, Some(id), sc);
    assert forall|j: int| 0 <= j < after.len() && j != i implies p(#[trigger] after[j]) == q(
        agents[j],
    ) by {
        assert(after[j] == agents[j]);
    }
    lemma_count_differs_at(after, agents, i, p, q);
    lemma_count_differs_at(agents, agents, i, p, q);
    let pm = |a: Agent| is_counted_mutating(a, None, sc);
    let qm = |a: Agent| is_counted_mutating(a, Some(id), sc);
    assert forall|j: int| 0 <= j < after.len() && j != i implies pm(#[trigger] after[j]) == qm(
        agents[j],
    ) by {
        assert(after[j] == agents[j]);
    }
    lemma_count_differs_at(after, agents, i, pm, qm);
    lemma_count_differs_at(agents, agents, i, pm, qm);
}

/// Where the caps held, they hold after every registration that goes through:
/// no more leases and no more mutating slots are held than there are. A record
/// whose lease had run out and that comes back in its old role is not counted
/// anew, and is left out here.
pub proof fn caps_hold(
    agents: Seq<Agent>,
    agent_type: Seq<char>,
    role: Option<Seq<char>>,
    project_root: Seq<char>,
    c: CallerModel,
)
    requires
        ids_are_unique(agents),
        leases(agents, None, c.scene) <= cap(c.scene.config.max_concurrent_workers),
        slots(agents, None, c.scene) <= cap(c.scene.config.max_concurrent_mutating_workers),
        is_accounted_for(agents, role, c),
    ensures
        registered(agents, agent_type, role, project_root, c) matches Ok((after, id)) ==> leases(
            after,
            None,
            c.scene,
        ) <= cap(c.scene.config.max_concurrent_workers) && slots(after, None, c.scene) <= cap(
            c.scene.config.max_concurrent_mutating_workers,
        ),
{
    let sc = c.scene;
    lemma_find_own(agents, c);
    let i = find_own(agents, c);
    if i < agents.len() {
        let a = agents[i];
        lemma_leases_after_update(agents, i, refreshed(a, next_role(a.role, role), sc.now), sc);
    } else {
        let x = new_record(agent_type, role, project_root, c);
        lemma_count_push(agents, x, |a: Agent| is_counted(a, None, sc));
        lemma_count_push(agents, x, |a: Agent| is_counted_mutating(a, None, sc));
    }
}

/// A read-only admission never takes a mutating slot.
pub proof fn read_only_admission_takes_no_slot(
    agents: Seq<Agent>,
    project_root: Seq<char>,
    requested_role: Seq<char>,
    c: CallerModel,
)
    requires
        ids_are_unique(agents),
        forall|i: int| 0 <= i < agents.len() ==> (#[trigger] agents[i]).agent_id != c.fresh_id,
    ensures
        admitted(agents, project_root, requested_role, c) matches Ok((after, id)) ==> slots(
            after,
            None,
            c.scene,
        ) <= slots(agents, None, c.scene),
{
    let sc = c.scene;
    let role = Some(READ_ONLY_PRESENCE_ROLE@);
    lemma_find_own(agents, c);
    read_only_role_takes_no_slot("mcp"@);
    lemma_read_only_is_no_placeholder();
    if let Ok((mid, id)) = registered(agents, "mcp"@, role, project_root, c) {
        let i = find_own(agents, c);
        ids_stay_unique(agents, "mcp"@, role, project_root, c);
        if i < agents.len() {
            let a = agents[i];
            assert(next_role(a.role, role) == role);
            lemma_leases_after_update(agents, i, refreshed(a, role, sc.now), sc);
        } else {
            lemma_count_push(
                agents,
                new_record("mcp"@, role, project_root, c),
                |a: Agent| is_counted_mutating(a, None, sc),
            );
        }
        assert(mid[i].agent_id == id && mid[i].role == role);
        lemma_unique_id_is_found(mid, i);
        if let Ok((after, _)) = admitted(agents, project_root, requested_role, c) {
            lemma_leases_after_update(mid, i, after[i], sc);
            assert(after =~= mid.update(i, after[i]));
        }
    }
}

/// A read-only admission says so: its record has the read-only role and is
/// active, and the note on its status names the role that was asked for.
pub proof fn read_only_admission_names_the_requested_role(
    agents: Seq<Agent>,
    project_root: Seq<char>,
    requested_role: Seq<char>,
    c: CallerModel,
)
    requires
        ids_are_unique(agents),
        forall|i: int| 0 <= i < agents.len() ==> (#[trigger] agents[i]).agent_id != c.fresh_id,
    ensures
        admitted(agents, project_root, requested_role, c) matches Ok((after, id)) ==> {
            let i = find_own(agents, c);
            &&& 0 <= i < after.len()
            &&& after[i].agent_id == id
            &&& after[i].role == Some(READ_ONLY_PRESENCE_ROLE@)
            &&& after[i].status is Active
            &&& after[i].status_message == Some(admission_note(requested_role))
            &&& occurs(admission_note(requested_role), requested_role)
        },
{
    let role = Some(READ_ONLY_PRESENCE_ROLE@);
    lemma_find_own(agents, c);
    lemma_read_only_is_no_placeholder();
    let note = admission_note(requested_role);
    let at = note.len() - requested_role.len();
    assert(note.subrange(at, note.len() as int) =~= requested_role);
    assert(occurs_at(note, requested_role, at));
    if let Ok((mid, id)) = registered(agents, "mcp"@, role, project_root, c) {
        let i = find_own(agents, c);
        ids_stay_unique(agents, "mcp"@, role, project_root, c);
        assert(mid[i].agent_id == id && mid[i].role == role);
        lemma_unique_id_is_found(mid, i);
    }
}

} // verus!
