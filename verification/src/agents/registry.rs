//! The records of the registered agents.

use crate::text::{opt_str, opt_text, own_opt, same_text};
use crate::time::{Instant, Timestamp, elapsed_seconds};
use vstd::prelude::*;

verus! {

/// What an agent is doing.
#[derive(Debug, Clone, Copy, PartialEq, Eq, Structural)]
pub enum AgentStatus {
    Active,
    Idle,
    Finished,
}

/// One registered agent.
#[derive(Debug)]
pub struct AgentEntry {
    pub agent_id: String,
    pub agent_type: String,
    pub role: Option<String>,
    pub project_root: String,
    pub started_at: Timestamp,
    pub last_active: Timestamp,
    pub pid: u32,
    pub process_identity: Option<String>,
    pub status: AgentStatus,
    pub status_message: Option<String>,
}

/// What an [`AgentEntry`] holds.
pub struct Agent {
    pub agent_id: Seq<char>,
    pub agent_type: Seq<char>,
    pub role: Option<Seq<char>>,
    pub project_root: Seq<char>,
    pub started_at: Instant,
    pub last_active: Instant,
    pub pid: u32,
    pub process_identity: Option<Seq<char>>,
    pub status: AgentStatus,
    pub status_message: Option<Seq<char>>,
}

impl View for AgentEntry {
    type V = Agent;

    open spec fn view(&self) -> Agent {
        Agent {
            agent_id: self.agent_id@,
            agent_type: self.agent_type@,
            role: opt_text(self.role),
            project_root: self.project_root@,
            started_at: self.started_at@,
            last_active: self.last_active@,
            pid: self.pid,
            process_identity: opt_text(self.process_identity),
            status: self.status,
            status_message: opt_text(self.status_message),
        }
    }
}

/// The registered agents, oldest registration first.
#[derive(Debug)]
pub struct AgentRegistry {
    pub agents: Vec<AgentEntry>,
}

impl View for AgentRegistry {
    type V = Seq<Agent>;

    open spec fn view(&self) -> Seq<Agent> {
        self.agents@.map_values(|a: AgentEntry| a@)
    }
}

/// A running process: its number, and what tells it from an earlier process
/// with the same number.
#[derive(Debug)]
pub struct ProcessIdentity {
    pub pid: u32,
    pub identity: String,
}

/// What a [`ProcessIdentity`] holds.
pub struct Process {
    pub pid: u32,
    pub identity: Seq<char>,
}

impl View for ProcessIdentity {
    type V = Process;

    open spec fn view(&self) -> Process {
        Process { pid: self.pid, identity: self.identity@ }
    }
}

/// The processes that run now, as far as the registered agents name them.
#[derive(Debug)]
pub struct ProcessIdentityIndex {
    pub running: Vec<ProcessIdentity>,
}

impl View for ProcessIdentityIndex {
    type V = Seq<Process>;

    open spec fn view(&self) -> Seq<Process> {
        self.running@.map_values(|p: ProcessIdentity| p@)
    }
}

/// This process is the one that the agent's record was made for. A record
/// without an identity is taken to be the process that has its number.
pub open spec fn is_process_of(a: Agent, p: Process) -> bool {
    a.pid == p.pid && (a.process_identity is Some ==> a.process_identity->0 == p.identity)
}

/// The process that the agent's record was made for still runs.
pub open spec fn is_running(a: Agent, running: Seq<Process>) -> bool {
    exists|i: int| 0 <= i < running.len() && is_process_of(a, #[trigger] running[i])
}

/// Whether the process that the agent's record was made for still runs.
pub fn process_identity_matches(agent: &AgentEntry, index: &ProcessIdentityIndex) -> (r: bool)
    ensures
        r == is_running(agent@, index@),
{
    let mut i: usize = 0;
    while i < index.running.len()
        invariant
            i <= index.running@.len(),
            forall|j: int| 0 <= j < i ==> !is_process_of(agent@, #[trigger] index@[j]),
        decreases index.running@.len() - i,
    {
        let p = &index.running[i];
        assert(index@[i as int] == p@);
        let same = match &agent.process_identity {
            Some(id) => same_text(id.as_str(), p.identity.as_str()),
            None => true,
        };
        if agent.pid == p.pid && same {
            return true;
        }
        i += 1;
    }
    false
}

/// The index of the first agent with this id, or the number of agents.
pub open spec fn find_id(agents: Seq<Agent>, id: Seq<char>) -> int
    decreases agents.len(),
{
    if agents.len() == 0 || agents[0].agent_id == id {
        0
    } else {
        1 + find_id(agents.skip(1), id)
    }
}

/// The agents once the status of the first one with this id has been set.
pub open spec fn with_status(
    agents: Seq<Agent>,
    id: Seq<char>,
    status: AgentStatus,
    message: Option<Seq<char>>,
) -> Seq<Agent> {
    let i = find_id(agents, id);
    agents.update(i, Agent { status, status_message: message, ..agents[i] })
}

/// The message for an id that no agent has.
pub open spec fn unknown_agent(id: Seq<char>) -> Seq<char> {
    "unknown agent: "@ + id
}

/// An agent is quiet for no longer than the time to live.
pub open spec fn is_fresh(a: Agent, now: Instant, ttl_seconds: i64) -> bool {
    elapsed_seconds(now, a.last_active) <= ttl_seconds
}

/// `find_id` stops at the first agent with the id.
pub proof fn lemma_find_id(agents: Seq<Agent>, id: Seq<char>)
    ensures
        0 <= find_id(agents, id) <= agents.len(),
        forall|j: int| 0 <= j < find_id(agents, id) ==> (#[trigger] agents[j]).agent_id != id,
        find_id(agents, id) < agents.len() ==> agents[find_id(agents, id)].agent_id == id,
    decreases agents.len(),
{
    if agents.len() != 0 && agents[0].agent_id != id {
        lemma_find_id(agents.skip(1), id);
        assert forall|j: int| 0 <= j < find_id(agents, id) implies (#[trigger] agents[j]).agent_id
            != id by {
            if j > 0 {
                assert(agents.skip(1)[j - 1] == agents[j]);
            }
        }
    }
}

impl AgentRegistry {
    /// A registry without agents.
    pub fn new() -> (r: AgentRegistry)
        ensures
            r@ == Seq::<Agent>::empty(),
    {
        let r = AgentRegistry { agents: Vec::new() };
        assert(r@ =~= Seq::<Agent>::empty());
        r
    }

    /// Sets the status of the agent with this id.
    pub fn set_status(
        &mut self,
        agent_id: &str,
        status: AgentStatus,
        message: Option<&str>,
    ) -> (r: Result<(), String>)
        ensures
            match r {
                Ok(_) => find_id(old(self)@, agent_id@) < old(self)@.len() && final(self)@
                    == with_status(old(self)@, agent_id@, status, opt_str(message)),
                Err(e) => find_id(old(self)@, agent_id@) == old(self)@.len() && e@ == unknown_agent(
                    agent_id@,
                ) && final(self)@ == old(self)@,
            },
    {
        let mut i: usize = 0;
        assert(self@.skip(0) =~= self@);
        while i < self.agents.len() && !same_text(self.agents[i].agent_id.as_str(), agent_id)
            invariant
                i <= self.agents@.len(),
                self@ == old(self)@,
                find_id(self@, agent_id@) == i + find_id(self@.skip(i as int), agent_id@),
            decreases self.agents@.len() - i,
        {
            assert(self@.skip(i as int).skip(1) =~= self@.skip(i + 1));
            i += 1;
        }
        if i == self.agents.len() {
            return Err("unknown agent: ".to_owned().concat(agent_id));
        }
        self.agents[i].status = status;
        self.agents[i].status_message = own_opt(message);
        assert(self@ =~= with_status(
            old(self)@,
            agent_id@,
            status,
            opt_str(message),
        ));
        Ok(())
    }

    /// Drops the agents that were quiet for longer than the time to live.
    pub fn cleanup_stale(&mut self, ttl_seconds: i64, now: &Timestamp)
        ensures
            final(self)@ == old(self)@.filter(|a: Agent| is_fresh(a, now@, ttl_seconds)),
    {
        let ghost fresh = |a: Agent| is_fresh(a, now@, ttl_seconds);
        let mut i: usize = 0;
        let mut dropped: usize = 0;
        let total: usize = self.agents.len();
        let ghost all = self@;
        assert(all.take(0).filter(fresh) + all.skip(0) =~= all) by {
            reveal(Seq::filter);
        }
        while i < self.agents.len()
            invariant
                i <= self.agents@.len(),
                i + dropped <= all.len(),
                self.agents@.len() + dropped == all.len(),
                all.len() == total,
                fresh == |a: Agent| is_fresh(a, now@, ttl_seconds),
                all.take(i + dropped).filter(fresh).len() == i,
                self@ == all.take(i + dropped).filter(fresh) + all.skip(i + dropped),
            decreases self.agents@.len() - i,
        {
            let ghost n: int = i + dropped;
            let ghost kept = all.take(n).filter(fresh);
            proof {
                reveal(Seq::filter);
                assert(all.take(n + 1).drop_last() =~= all.take(n));
                assert(self@[i as int] == all[n]);
                assert(self@[i as int] == self.agents@[i as int]@);
            }
            if now.seconds_since(&self.agents[i].last_active) <= ttl_seconds {
                assert(kept + all.skip(n) =~= kept.push(all[n]) + all.skip(n + 1));
                i += 1;
            } else {
                let ghost was = self@;
                self.agents.remove(i);
                assert(self@ =~= was.remove(i as int));
                assert((kept + all.skip(n)).remove(i as int) =~= kept + all.skip(n + 1));
                dropped += 1;
            }
        }
        assert(all.take(i + dropped) =~= all);
        assert(self@ =~= all.filter(fresh));
    }
}

} // verus!
