//! The store: the single owner of durable state.
//!
//! All agents, tasks, schedules, triggers, approval requests and the
//! activity log live here; every mutation goes through a method of
//! [`Database`], and every write that changes agent-visible state appends
//! an [`ActivityLogEntry`](crate::tasks::ActivityLogEntry) in the same
//! step.  Queries return copies ordered newest-first.  Callers supply the
//! current time as a monotone tick.

use vstd::prelude::*;

verus! {

use crate::payload::Payload;
use crate::scheduler::{sched_eq_view, Schedule};
use crate::tasks::{
    status_label,
    task_eq_view,
    ActivityLogEntry,
    ApprovalRequest,
    ApprovalStatus,
    RiskLevel,
    Task,
    TaskStats,
    TaskStatus,
};
use crate::timepoint::Instant;
use crate::triggers::{trig_eq_view, Trigger, TriggerConfig, TriggerType};
use vstd::string::StringExecFns;

/// Why a store operation was refused.
#[derive(Clone, Copy, Debug, PartialEq, Eq, Structural)]
pub enum StoreError {
    /// No entity carries the given id.
    NotFound,
    /// The referenced agent does not exist.
    UnknownAgent,
    /// Malformed creation input, rejected before anything is persisted.
    Validation,
    /// The requested task state change is not an edge of the transition
    /// graph.
    InvalidTransition,
    /// A constraint was violated: a freshly drawn id collided with an
    /// existing one.
    Conflict,
    /// The approval request has already been decided.
    AlreadyDecided,
}

/// An agent's identity and behavior configuration.
#[derive(Debug, Clone)]
pub struct AgentConfig {
    /// `None` until first saved; the store assigns an id.
    pub id: Option<String>,
    pub name: String,
    pub goal: String,
    pub personality: String,
    pub provider: String,
    pub model: String,
    /// Sampling temperature in thousandths; floats stay outside the
    /// library.
    pub temperature_milli: u32,
    /// The tools the agent may use.
    pub tools: Vec<String>,
    /// 1 = always ask for approval .. 4 = never ask.
    pub autonomy_level: u8,
    /// When the agent was last saved; the store bumps this on every save.
    pub updated_at: u64,
}

/// Two agent configurations carry the same data, compared through views;
/// the id is compared separately.
pub open spec fn agent_eq_view(a: AgentConfig, b: AgentConfig) -> bool {
    &&& crate::strutil::opt_view(a.id) == crate::strutil::opt_view(b.id)
    &&& a.name@ == b.name@
    &&& a.goal@ == b.goal@
    &&& a.personality@ == b.personality@
    &&& a.provider@ == b.provider@
    &&& a.model@ == b.model@
    &&& a.temperature_milli == b.temperature_milli
    &&& a.tools.deep_view() == b.tools.deep_view()
    &&& a.autonomy_level == b.autonomy_level
    &&& a.updated_at == b.updated_at
}

impl AgentConfig {
    /// A copy carrying the same data.
    pub fn duplicate(&self) -> (r: AgentConfig)
        ensures
            agent_eq_view(r, *self),
    {
        AgentConfig {
            id: crate::tasks::clone_opt_string(&self.id),
            name: self.name.clone(),
            goal: self.goal.clone(),
            personality: self.personality.clone(),
            provider: self.provider.clone(),
            model: self.model.clone(),
            temperature_milli: self.temperature_milli,
            tools: crate::strutil::clone_string_vec(&self.tools),
            autonomy_level: self.autonomy_level,
            updated_at: self.updated_at,
        }
    }
}

/// The first position at or after `i` of the agent with the given id.
pub open spec fn agent_find(s: Seq<AgentConfig>, id: Seq<char>, i: int) -> Option<int>
    decreases s.len() - i,
{
    if i < 0 || i >= s.len() {
        None
    } else if s[i].id matches Some(x) && x@ == id {
        Some(i)
    } else {
        agent_find(s, id, i + 1)
    }
}

/// The first position at or after `i` of the task with the given id.
pub open spec fn task_find(s: Seq<Task>, id: Seq<char>, i: int) -> Option<int>
    decreases s.len() - i,
{
    if i < 0 || i >= s.len() {
        None
    } else if s[i].id@ == id {
        Some(i)
    } else {
        task_find(s, id, i + 1)
    }
}

/// The first position at or after `i` of the trigger with the given id.
pub open spec fn trig_find(s: Seq<Trigger>, id: Seq<char>, i: int) -> Option<int>
    decreases s.len() - i,
{
    if i < 0 || i >= s.len() {
        None
    } else if s[i].id@ == id {
        Some(i)
    } else {
        trig_find(s, id, i + 1)
    }
}

/// The first position at or after `i` of the approval with the given id.
pub open spec fn appr_find(s: Seq<ApprovalRequest>, id: Seq<char>, i: int) -> Option<int>
    decreases s.len() - i,
{
    if i < 0 || i >= s.len() {
        None
    } else if s[i].id@ == id {
        Some(i)
    } else {
        appr_find(s, id, i + 1)
    }
}

/// Splitting a non-empty sequence's filter at its head.
pub proof fn lemma_filter_first<A>(s: Seq<A>, pred: spec_fn(A) -> bool)
    requires
        s.len() > 0,
    ensures
        s.filter(pred) == (if pred(s[0]) {
            seq![s[0]]
        } else {
            Seq::<A>::empty()
        }) + s.drop_first().filter(pred),
    decreases s.len(),
{
    reveal(Seq::filter);
    if s.len() == 1 {
        assert(s.drop_last() =~= Seq::<A>::empty());
        assert(s.drop_first() =~= Seq::<A>::empty());
        assert(s.last() == s[0]);
        if pred(s[0]) {
            assert(s.filter(pred) =~= seq![s[0]] + s.drop_first().filter(pred));
        } else {
            assert(s.filter(pred) =~= Seq::<A>::empty() + s.drop_first().filter(pred));
        }
    } else {
        lemma_filter_first(s.drop_last(), pred);
        assert(s.drop_last()[0] == s[0]);
        assert(s.drop_first().drop_last() =~= s.drop_last().drop_first());
        assert(s.drop_first().last() == s.last());
        if pred(s[0]) {
            assert(s.filter(pred) =~= seq![s[0]] + s.drop_first().filter(pred));
        } else {
            assert(s.filter(pred) =~= s.drop_first().filter(pred));
        }
    }
}

/// The store.  Fields are visible so that contracts can speak of the held
/// sequences; the well-formedness in [`Database::wf`] is what every method
/// requires and preserves.
pub struct Database {
    pub agents: Vec<AgentConfig>,
    pub tasks: Vec<Task>,
    pub schedules: Vec<Schedule>,
    pub triggers: Vec<Trigger>,
    pub activity_log: Vec<ActivityLogEntry>,
    pub approvals: Vec<ApprovalRequest>,
}

impl Database {
    /// Every stored agent has an id; ids are unique per collection; every
    /// stored entity is well-formed.
    pub open spec fn wf(&self) -> bool {
        &&& forall|i: int|
            0 <= i < self.agents@.len() ==> (#[trigger] self.agents@[i]).id is Some
        &&& forall|i: int, j: int|
            0 <= i < j < self.agents@.len() ==> self.agents@[i].id->Some_0@
                != self.agents@[j].id->Some_0@
        &&& forall|i: int| 0 <= i < self.tasks@.len() ==> (#[trigger] self.tasks@[i]).wf()
        &&& forall|i: int, j: int|
            0 <= i < j < self.tasks@.len() ==> self.tasks@[i].id@ != self.tasks@[j].id@
        &&& forall|i: int|
            0 <= i < self.schedules@.len() ==> (#[trigger] self.schedules@[i]).wf()
        &&& forall|i: int, j: int|
            0 <= i < j < self.schedules@.len() ==> self.schedules@[i].id@
                != self.schedules@[j].id@
        &&& forall|i: int| 0 <= i < self.triggers@.len() ==> (#[trigger] self.triggers@[i]).wf()
        &&& forall|i: int, j: int|
            0 <= i < j < self.triggers@.len() ==> self.triggers@[i].id@
                != self.triggers@[j].id@
        &&& forall|i: int|
            0 <= i < self.approvals@.len() ==> (#[trigger] self.approvals@[i]).wf()
        &&& forall|i: int, j: int|
            0 <= i < j < self.approvals@.len() ==> self.approvals@[i].id@
                != self.approvals@[j].id@
    }

    /// All collections other than the activity log are unchanged.
    pub open spec fn same_but_log(self, other: Database) -> bool {
        &&& self.agents@ == other.agents@
        &&& self.tasks@ == other.tasks@
        &&& self.schedules@ == other.schedules@
        &&& self.triggers@ == other.triggers@
        &&& self.approvals@ == other.approvals@
    }

    /// An empty store.
    pub fn new() -> (r: Database)
        ensures
            r.wf(),
            r.agents@.len() == 0,
            r.tasks@.len() == 0,
            r.schedules@.len() == 0,
            r.triggers@.len() == 0,
            r.activity_log@.len() == 0,
            r.approvals@.len() == 0,
    {
        Database {
            agents: Vec::new(),
            tasks: Vec::new(),
            schedules: Vec::new(),
            triggers: Vec::new(),
            activity_log: Vec::new(),
            approvals: Vec::new(),
        }
    }

    /// Appends an audit record; nothing else changes.  The log is
    /// append-only: no method of the store updates or deletes an entry.
    pub fn log_activity(
        &mut self,
        agent_id: Option<&str>,
        task_id: Option<&str>,
        action: &str,
        details: Option<&str>,
        now: u64,
    )
        requires
            old(self).wf(),
        ensures
            final(self).wf(),
            final(self).same_but_log(*old(self)),
            final(self).activity_log@.len() == old(self).activity_log@.len() + 1,
            final(self).activity_log@.subrange(0, old(self).activity_log@.len() as int) == old(
                self,
            ).activity_log@,
            ({
                let e = final(self).activity_log@.last();
                &&& crate::strutil::opt_view(e.agent_id) == (match agent_id {
                    Some(a) => Some(a@),
                    None => None,
                })
                &&& crate::strutil::opt_view(e.task_id) == (match task_id {
                    Some(t) => Some(t@),
                    None => None,
                })
                &&& e.action@ == action@
                &&& crate::strutil::opt_view(e.details) == (match details {
                    Some(d) => Some(d@),
                    None => None,
                })
                &&& e.timestamp == now
            }),
    {
        let entry = ActivityLogEntry {
            id: crate::external::fresh_uuid(),
            agent_id: match agent_id {
                Some(a) => Some(String::from_str(a)),
                None => None,
            },
            task_id: match task_id {
                Some(t) => Some(String::from_str(t)),
                None => None,
            },
            action: String::from_str(action),
            details: match details {
                Some(d) => Some(String::from_str(d)),
                None => None,
            },
            timestamp: now,
        };
        self.activity_log.push(entry);
        proof {
            assert(self.activity_log@.subrange(0, old(self).activity_log@.len() as int)
                =~= old(self).activity_log@);
        }
    }

    /// Finds an agent's position by id.
    fn find_agent(&self, agent_id: &str) -> (r: Option<usize>)
        requires
            self.wf(),
        ensures
            match r {
                Some(i) => i < self.agents@.len() && agent_find(self.agents@, agent_id@, 0)
                    == Some(i as int),
                None => agent_find(self.agents@, agent_id@, 0) is None,
            },
    {
        let n = self.agents.len();
        let mut i: usize = 0;
        while i < n
            invariant
                self.wf(),
                n == self.agents@.len(),
                0 <= i <= n,
                agent_find(self.agents@, agent_id@, 0) == agent_find(
                    self.agents@,
                    agent_id@,
                    i as int,
                ),
            decreases n - i,
        {
            let found = match &self.agents[i].id {
                Some(x) => crate::strutil::str_eq(x.as_str(), agent_id),
                None => false,
            };
            if found {
                return Some(i);
            }
            i += 1;
        }
        None
    }

    /// Creates or updates an agent and logs `agent_saved`.  A new agent
    /// gets a fresh id; saving under an existing id replaces that agent's
    /// configuration; `updated_at` is bumped to `now` on every save.  `Conflict` reports a collision of a freshly drawn
    /// id, and leaves the store unchanged but for nothing at all.
    pub fn save_agent(&mut self, config: &AgentConfig, now: u64) -> (r: Result<
        String,
        StoreError,
    >)
        requires
            old(self).wf(),
        ensures
            final(self).wf(),
            match r {
                Ok(id) => {
                    &&& final(self).tasks@ == old(self).tasks@
                    &&& final(self).schedules@ == old(self).schedules@
                    &&& final(self).triggers@ == old(self).triggers@
                    &&& final(self).approvals@ == old(self).approvals@
                    &&& final(self).activity_log@.len() == old(self).activity_log@.len() + 1
                    &&& final(self).activity_log@.subrange(
                        0,
                        old(self).activity_log@.len() as int,
                    ) == old(self).activity_log@
                    &&& final(self).activity_log@.last().action@ == "agent_saved"@
                    &&& (match config.id {
                        Some(given) => {
                            &&& id@ == given@
                            &&& match agent_find(old(self).agents@, given@, 0) {
                                Some(i) => {
                                    &&& final(self).agents@.len() == old(self).agents@.len()
                                    &&& forall|j: int|
                                        0 <= j < old(self).agents@.len() && j != i
                                            ==> final(self).agents@[j] == old(self).agents@[j]
                                    &&& agent_eq_view(
                                        final(self).agents@[i],
                                        AgentConfig { id: Some(id), updated_at: now, ..*config },
                                    )
                                },
                                None => {
                                    &&& final(self).agents@.len() == old(self).agents@.len() + 1
                                    &&& final(self).agents@.subrange(
                                        0,
                                        old(self).agents@.len() as int,
                                    ) == old(self).agents@
                                    &&& agent_eq_view(
                                        final(self).agents@.last(),
                                        AgentConfig { id: Some(id), updated_at: now, ..*config },
                                    )
                                },
                            }
                        },
                        None => {
                            &&& id@.len() == 36
                            &&& final(self).agents@.len() == old(self).agents@.len() + 1
                            &&& final(self).agents@.subrange(
                                0,
                                old(self).agents@.len() as int,
                            ) == old(self).agents@
                            &&& agent_eq_view(
                                final(self).agents@.last(),
                                AgentConfig { id: Some(id), updated_at: now, ..*config },
                            )
                        },
                    })
                },
                Err(e) => {
                    &&& e == StoreError::Conflict
                    &&& config.id is None
                    &&& final(self).same_but_log(*old(self))
                    &&& final(self).activity_log@ == old(self).activity_log@
                },
            },
    {
        let (id, existing): (String, Option<usize>) = match &config.id {
            Some(given) => {
                let pos = self.find_agent(given.as_str());
                (given.clone(), pos)
            },
            None => {
                let fresh = crate::external::fresh_uuid();
                match self.find_agent(fresh.as_str()) {
                    Some(_) => {
                        return Err(StoreError::Conflict);
                    },
                    None => (fresh, None),
                }
            },
        };
        let entry = AgentConfig { id: Some(id.clone()), updated_at: now, ..config.duplicate() };
        match existing {
            Some(i) => {
                let ghost before = self.agents@;
                self.agents.set(i, entry);
                proof {
                    lemma_agent_find_hit(before, id@, 0, i as int);
                    assert forall|p: int, q: int|
                        0 <= p < q < self.agents@.len() implies self.agents@[p].id->Some_0@
                        != self.agents@[q].id->Some_0@ by {
                        if p != i as int && q != i as int {
                            assert(self.agents@[p] == before[p]);
                            assert(self.agents@[q] == before[q]);
                        } else if p == i as int {
                            assert(self.agents@[q] == before[q]);
                        } else {
                            assert(self.agents@[p] == before[p]);
                        }
                    }
                    assert(forall|j: int|
                        0 <= j < self.agents@.len() ==> (#[trigger] self.agents@[j]).id
                            is Some);
                }
            },
            None => {
                let ghost before = self.agents@;
                self.agents.push(entry);
                proof {
                    assert(agent_find(before, id@, 0) is None);
                    lemma_agent_find_absent(before, id@);
                    assert forall|p: int, q: int|
                        0 <= p < q < self.agents@.len() implies self.agents@[p].id->Some_0@
                        != self.agents@[q].id->Some_0@ by {
                        if q < before.len() {
                            assert(self.agents@[p] == before[p]);
                            assert(self.agents@[q] == before[q]);
                        } else {
                            assert(self.agents@[p] == before[p]);
                        }
                    }
                    assert(self.agents@.subrange(0, before.len() as int) =~= before);
                }
            },
        }
        self.log_activity(Some(id.as_str()), None, "agent_saved", None, now);
        Ok(id)
    }

    /// Copies of all stored agents, in insertion order.
    pub fn get_agents(&self) -> (r: Vec<AgentConfig>)
        ensures
            r@.len() == self.agents@.len(),
            forall|k: int|
                0 <= k < self.agents@.len() ==> agent_eq_view(
                    #[trigger] r@[k],
                    self.agents@[k],
                ),
    {
        let n = self.agents.len();
        let mut r: Vec<AgentConfig> = Vec::new();
        let mut i: usize = 0;
        while i < n
            invariant
                n == self.agents@.len(),
                0 <= i <= n,
                r@.len() == i,
                forall|k: int|
                    0 <= k < i ==> agent_eq_view(#[trigger] r@[k], self.agents@[k]),
            decreases n - i,
        {
            r.push(self.agents[i].duplicate());
            i += 1;
        }
        r
    }

    /// A copy of the agent with the given id, if stored.
    pub fn get_agent(&self, agent_id: &str) -> (r: Option<AgentConfig>)
        requires
            self.wf(),
        ensures
            match r {
                Some(a) => agent_find(self.agents@, agent_id@, 0) matches Some(i)
                    && agent_eq_view(a, self.agents@[i]),
                None => agent_find(self.agents@, agent_id@, 0) is None,
            },
    {
        match self.find_agent(agent_id) {
            Some(i) => Some(self.agents[i].duplicate()),
            None => None,
        }
    }

    /// Removes the agent with the given id, if stored, cascading to the
    /// agent's tasks, schedules and triggers, and logs `agent_deleted`
    /// either way, as the audit trail records the request.  Approval
    /// requests stay: they are part of the audit record of past
    /// decisions.
    pub fn delete_agent(&mut self, agent_id: &str, now: u64)
        requires
            old(self).wf(),
        ensures
            final(self).wf(),
            final(self).agents@ == match agent_find(old(self).agents@, agent_id@, 0) {
                Some(i) => old(self).agents@.remove(i),
                None => old(self).agents@,
            },
            final(self).tasks@ == old(self).tasks@.filter(task_kept(agent_id@)),
            final(self).schedules@ == old(self).schedules@.filter(sched_kept(agent_id@)),
            final(self).triggers@ == old(self).triggers@.filter(trig_kept(agent_id@)),
            final(self).approvals@ == old(self).approvals@,
            final(self).activity_log@.len() == old(self).activity_log@.len() + 1,
            final(self).activity_log@.subrange(0, old(self).activity_log@.len() as int) == old(
                self,
            ).activity_log@,
            final(self).activity_log@.last().action@ == "agent_deleted"@,
            crate::strutil::opt_view(final(self).activity_log@.last().agent_id) == Some(
                agent_id@,
            ),
    {
        match self.find_agent(agent_id) {
            Some(i) => {
                let ghost before = self.agents@;
                self.agents.remove(i);
                proof {
                    assert forall|p: int, q: int|
                        0 <= p < q < self.agents@.len() implies self.agents@[p].id->Some_0@
                        != self.agents@[q].id->Some_0@ by {
                        let pp = if p < i as int {
                            p
                        } else {
                            p + 1
                        };
                        let qq = if q < i as int {
                            q
                        } else {
                            q + 1
                        };
                        assert(self.agents@[p] == before[pp]);
                        assert(self.agents@[q] == before[qq]);
                    }
                }
            },
            None => {},
        }
        self.purge_tasks(agent_id);
        self.purge_schedules(agent_id);
        self.purge_triggers(agent_id);
        self.log_activity(Some(agent_id), None, "agent_deleted", None, now);
    }

    /// Removes every task of the named agent.
    fn purge_tasks(&mut self, agent_id: &str)
        requires
            old(self).wf(),
        ensures
            final(self).wf(),
            final(self).tasks@ == old(self).tasks@.filter(task_kept(agent_id@)),
            final(self).agents@ == old(self).agents@,
            final(self).schedules@ == old(self).schedules@,
            final(self).triggers@ == old(self).triggers@,
            final(self).approvals@ == old(self).approvals@,
            final(self).activity_log@ == old(self).activity_log@,
    {
        let ghost pred = task_kept(agent_id@);
        let n = self.tasks.len();
        let mut i: usize = n;
        proof {
            reveal(Seq::filter);
            assert(old(self).tasks@.subrange(n as int, n as int).filter(pred).len() == 0);
            assert(self.tasks@ =~= old(self).tasks@.subrange(0, n as int) + old(
                self,
            ).tasks@.subrange(n as int, n as int).filter(pred));
        }
        while i > 0
            invariant
                old(self).wf(),
                n == old(self).tasks@.len(),
                0 <= i <= n,
                pred == task_kept(agent_id@),
                self.tasks@ == old(self).tasks@.subrange(0, i as int) + old(
                    self,
                ).tasks@.subrange(i as int, n as int).filter(pred),
                forall|p: int, q: int|
                    0 <= p < q < self.tasks@.len() ==> self.tasks@[p].id@
                        != self.tasks@[q].id@,
                forall|j: int| 0 <= j < self.tasks@.len() ==> (#[trigger] self.tasks@[j]).wf(),
                self.agents@ == old(self).agents@,
                self.schedules@ == old(self).schedules@,
                self.triggers@ == old(self).triggers@,
                self.approvals@ == old(self).approvals@,
                self.activity_log@ == old(self).activity_log@,
            decreases i,
        {
            i = i - 1;
            let ghost s_pre = old(self).tasks@.subrange(i + 1, n as int);
            let ghost s_new = old(self).tasks@.subrange(i as int, n as int);
            proof {
                assert(s_new[0] == old(self).tasks@[i as int]);
                assert(s_new.drop_first() =~= s_pre);
                lemma_filter_first(s_new, pred);
                assert(self.tasks@[i as int] == old(self).tasks@[i as int]);
            }
            let owned = crate::strutil::str_eq(self.tasks[i].agent_id.as_str(), agent_id);
            proof {
                assert(owned == !pred(old(self).tasks@[i as int]));
            }
            if owned {
                let ghost before = self.tasks@;
                self.tasks.remove(i);
                proof {
                    assert(s_new.filter(pred) =~= s_pre.filter(pred));
                    assert(self.tasks@ =~= old(self).tasks@.subrange(0, i as int) + old(
                        self,
                    ).tasks@.subrange(i as int, n as int).filter(pred));
                    assert forall|p: int, q: int|
                        0 <= p < q < self.tasks@.len() implies self.tasks@[p].id@
                        != self.tasks@[q].id@ by {
                        let pp = if p < i as int {
                            p
                        } else {
                            p + 1
                        };
                        let qq = if q < i as int {
                            q
                        } else {
                            q + 1
                        };
                        assert(self.tasks@[p] == before[pp]);
                        assert(self.tasks@[q] == before[qq]);
                    }
                }
            } else {
                proof {
                    assert(s_new.filter(pred) =~= seq![s_new[0]] + s_pre.filter(pred));
                    assert(self.tasks@ =~= old(self).tasks@.subrange(0, i as int) + old(
                        self,
                    ).tasks@.subrange(i as int, n as int).filter(pred));
                }
            }
        }
        proof {
            assert(old(self).tasks@.subrange(0, 0) =~= Seq::<Task>::empty());
            assert(old(self).tasks@.subrange(0, n as int) =~= old(self).tasks@);
            assert(self.tasks@ =~= old(self).tasks@.filter(pred));
        }
    }

    /// Removes every schedule of the named agent.
    fn purge_schedules(&mut self, agent_id: &str)
        requires
            old(self).wf(),
        ensures
            final(self).wf(),
            final(self).schedules@ == old(self).schedules@.filter(sched_kept(agent_id@)),
            final(self).agents@ == old(self).agents@,
            final(self).tasks@ == old(self).tasks@,
            final(self).triggers@ == old(self).triggers@,
            final(self).approvals@ == old(self).approvals@,
            final(self).activity_log@ == old(self).activity_log@,
    {
        let ghost pred = sched_kept(agent_id@);
        let n = self.schedules.len();
        let mut i: usize = n;
        proof {
            reveal(Seq::filter);
            assert(old(self).schedules@.subrange(n as int, n as int).filter(pred).len() == 0);
            assert(self.schedules@ =~= old(self).schedules@.subrange(0, n as int) + old(
                self,
            ).schedules@.subrange(n as int, n as int).filter(pred));
        }
        while i > 0
            invariant
                old(self).wf(),
                n == old(self).schedules@.len(),
                0 <= i <= n,
                pred == sched_kept(agent_id@),
                self.schedules@ == old(self).schedules@.subrange(0, i as int) + old(
                    self,
                ).schedules@.subrange(i as int, n as int).filter(pred),
                forall|p: int, q: int|
                    0 <= p < q < self.schedules@.len() ==> self.schedules@[p].id@
                        != self.schedules@[q].id@,
                forall|j: int|
                    0 <= j < self.schedules@.len() ==> (#[trigger] self.schedules@[j]).wf(),
                self.agents@ == old(self).agents@,
                self.tasks@ == old(self).tasks@,
                self.triggers@ == old(self).triggers@,
                self.approvals@ == old(self).approvals@,
                self.activity_log@ == old(self).activity_log@,
            decreases i,
        {
            i = i - 1;
            let ghost s_pre = old(self).schedules@.subrange(i + 1, n as int);
            let ghost s_new = old(self).schedules@.subrange(i as int, n as int);
            proof {
                assert(s_new[0] == old(self).schedules@[i as int]);
                assert(s_new.drop_first() =~= s_pre);
                lemma_filter_first(s_new, pred);
                assert(self.schedules@[i as int] == old(self).schedules@[i as int]);
            }
            let owned = crate::strutil::str_eq(self.schedules[i].agent_id.as_str(), agent_id);
            proof {
                assert(owned == !pred(old(self).schedules@[i as int]));
            }
            if owned {
                let ghost before = self.schedules@;
                self.schedules.remove(i);
                proof {
                    assert(s_new.filter(pred) =~= s_pre.filter(pred));
                    assert(self.schedules@ =~= old(self).schedules@.subrange(0, i as int)
                        + old(self).schedules@.subrange(i as int, n as int).filter(pred));
                    assert forall|p: int, q: int|
                        0 <= p < q < self.schedules@.len() implies self.schedules@[p].id@
                        != self.schedules@[q].id@ by {
                        let pp = if p < i as int {
                            p
                        } else {
                            p + 1
                        };
                        let qq = if q < i as int {
                            q
                        } else {
                            q + 1
                        };
                        assert(self.schedules@[p] == before[pp]);
                        assert(self.schedules@[q] == before[qq]);
                    }
                }
            } else {
                proof {
                    assert(s_new.filter(pred) =~= seq![s_new[0]] + s_pre.filter(pred));
                    assert(self.schedules@ =~= old(self).schedules@.subrange(0, i as int)
                        + old(self).schedules@.subrange(i as int, n as int).filter(pred));
                }
            }
        }
        proof {
            assert(old(self).schedules@.subrange(0, n as int) =~= old(self).schedules@);
            assert(self.schedules@ =~= old(self).schedules@.filter(pred));
        }
    }

    /// Removes every trigger of the named agent.
    fn purge_triggers(&mut self, agent_id: &str)
        requires
            old(self).wf(),
        ensures
            final(self).wf(),
            final(self).triggers@ == old(self).triggers@.filter(trig_kept(agent_id@)),
            final(self).agents@ == old(self).agents@,
            final(self).tasks@ == old(self).tasks@,
            final(self).schedules@ == old(self).schedules@,
            final(self).approvals@ == old(self).approvals@,
            final(self).activity_log@ == old(self).activity_log@,
    {
        let ghost pred = trig_kept(agent_id@);
        let n = self.triggers.len();
        let mut i: usize = n;
        proof {
            reveal(Seq::filter);
            assert(old(self).triggers@.subrange(n as int, n as int).filter(pred).len() == 0);
            assert(self.triggers@ =~= old(self).triggers@.subrange(0, n as int) + old(
                self,
            ).triggers@.subrange(n as int, n as int).filter(pred));
        }
        while i > 0
            invariant
                old(self).wf(),
                n == old(self).triggers@.len(),
                0 <= i <= n,
                pred == trig_kept(agent_id@),
                self.triggers@ == old(self).triggers@.subrange(0, i as int) + old(
                    self,
                ).triggers@.subrange(i as int, n as int).filter(pred),
                forall|p: int, q: int|
                    0 <= p < q < self.triggers@.len() ==> self.triggers@[p].id@
                        != self.triggers@[q].id@,
                forall|j: int|
                    0 <= j < self.triggers@.len() ==> (#[trigger] self.triggers@[j]).wf(),
                self.agents@ == old(self).agents@,
                self.tasks@ == old(self).tasks@,
                self.schedules@ == old(self).schedules@,
                self.approvals@ == old(self).approvals@,
                self.activity_log@ == old(self).activity_log@,
            decreases i,
        {
            i = i - 1;
            let ghost s_pre = old(self).triggers@.subrange(i + 1, n as int);
            let ghost s_new = old(self).triggers@.subrange(i as int, n as int);
            proof {
                assert(s_new[0] == old(self).triggers@[i as int]);
                assert(s_new.drop_first() =~= s_pre);
                lemma_filter_first(s_new, pred);
                assert(self.triggers@[i as int] == old(self).triggers@[i as int]);
            }
            let owned = crate::strutil::str_eq(self.triggers[i].agent_id.as_str(), agent_id);
            proof {
                assert(owned == !pred(old(self).triggers@[i as int]));
            }
            if owned {
                let ghost before = self.triggers@;
                self.triggers.remove(i);
                proof {
                    assert(s_new.filter(pred) =~= s_pre.filter(pred));
                    assert(self.triggers@ =~= old(self).triggers@.subrange(0, i as int) + old(
                        self,
                    ).triggers@.subrange(i as int, n as int).filter(pred));
                    assert forall|p: int, q: int|
                        0 <= p < q < self.triggers@.len() implies self.triggers@[p].id@
                        != self.triggers@[q].id@ by {
                        let pp = if p < i as int {
                            p
                        } else {
                            p + 1
                        };
                        let qq = if q < i as int {
                            q
                        } else {
                            q + 1
                        };
                        assert(self.triggers@[p] == before[pp]);
                        assert(self.triggers@[q] == before[qq]);
                    }
                }
            } else {
                proof {
                    assert(s_new.filter(pred) =~= seq![s_new[0]] + s_pre.filter(pred));
                    assert(self.triggers@ =~= old(self).triggers@.subrange(0, i as int) + old(
                        self,
                    ).triggers@.subrange(i as int, n as int).filter(pred));
                }
            }
        }
        proof {
            assert(old(self).triggers@.subrange(0, n as int) =~= old(self).triggers@);
            assert(self.triggers@ =~= old(self).triggers@.filter(pred));
        }
    }
}

/// Whether a task passes the optional agent and status filters.
pub open spec fn task_matches(t: Task, aid: Option<Seq<char>>, st: Option<TaskStatus>) -> bool {
    &&& (aid matches Some(a) ==> t.agent_id@ == a)
    &&& (st matches Some(s) ==> t.status == s)
}

/// The view of an optional string argument.
pub open spec fn opt_arg_view(s: Option<&str>) -> Option<Seq<char>> {
    match s {
        Some(a) => Some(a@),
        None => None,
    }
}

/// The task filter for the optional agent and status arguments, as one
/// canonical predicate.
pub open spec fn task_pred(aid: Option<Seq<char>>, st: Option<TaskStatus>) -> spec_fn(
    Task,
) -> bool {
    |t: Task| task_matches(t, aid, st)
}

/// The tasks that survive deleting the named agent: everyone else's.
pub open spec fn task_kept(aid: Seq<char>) -> spec_fn(Task) -> bool {
    |t: Task| t.agent_id@ != aid
}

/// The schedules that survive deleting the named agent.
pub open spec fn sched_kept(aid: Seq<char>) -> spec_fn(Schedule) -> bool {
    |s: Schedule| s.agent_id@ != aid
}

/// The triggers that survive deleting the named agent.
pub open spec fn trig_kept(aid: Seq<char>) -> spec_fn(Trigger) -> bool {
    |t: Trigger| t.agent_id@ != aid
}

impl Database {
    /// Finds a task's position by id.
    fn find_task(&self, task_id: &str) -> (r: Option<usize>)
        ensures
            match r {
                Some(i) => i < self.tasks@.len() && task_find(self.tasks@, task_id@, 0) == Some(
                    i as int,
                ),
                None => task_find(self.tasks@, task_id@, 0) is None,
            },
    {
        let n = self.tasks.len();
        let mut i: usize = 0;
        while i < n
            invariant
                n == self.tasks@.len(),
                0 <= i <= n,
                task_find(self.tasks@, task_id@, 0) == task_find(
                    self.tasks@,
                    task_id@,
                    i as int,
                ),
            decreases n - i,
        {
            if crate::strutil::str_eq(self.tasks[i].id.as_str(), task_id) {
                return Some(i);
            }
            i += 1;
        }
        None
    }

    /// Creates a task for an existing agent and logs `task_created`.  The
    /// task starts `Scheduled` when a future time was supplied and
    /// `Pending` otherwise.  `UnknownAgent` reports a missing agent;
    /// `Conflict` a fresh-id collision; both leave the store unchanged.
    pub fn create_task(
        &mut self,
        agent_id: &str,
        task_type: &str,
        input: Payload,
        scheduled_at: Option<u64>,
        now: u64,
    ) -> (r: Result<Task, StoreError>)
        requires
            old(self).wf(),
            input.wf(),
        ensures
            final(self).wf(),
            agent_find(old(self).agents@, agent_id@, 0) is None <==> r == Err::<
                Task,
                StoreError,
            >(StoreError::UnknownAgent),
            match r {
                Ok(t) => {
                    &&& final(self).agents@ == old(self).agents@
                    &&& final(self).schedules@ == old(self).schedules@
                    &&& final(self).triggers@ == old(self).triggers@
                    &&& final(self).approvals@ == old(self).approvals@
                    &&& final(self).tasks@.len() == old(self).tasks@.len() + 1
                    &&& final(self).tasks@.subrange(0, old(self).tasks@.len() as int) == old(
                        self,
                    ).tasks@
                    &&& ({
                        let e = final(self).tasks@.last();
                        &&& task_eq_view(t, e)
                        &&& e.id@.len() == 36
                        &&& e.agent_id@ == agent_id@
                        &&& e.task_type@ == task_type@
                        &&& e.input.fields@ == input.fields@
                        &&& e.status == (if scheduled_at is Some {
                            TaskStatus::Scheduled
                        } else {
                            TaskStatus::Pending
                        })
                        &&& e.result is None
                        &&& e.error is None
                        &&& e.scheduled_at == scheduled_at
                        &&& e.started_at is None
                        &&& e.completed_at is None
                        &&& e.created_at == now
                        &&& e.retry_count == 0
                    })
                    &&& final(self).activity_log@.len() == old(self).activity_log@.len() + 1
                    &&& final(self).activity_log@.subrange(
                        0,
                        old(self).activity_log@.len() as int,
                    ) == old(self).activity_log@
                    &&& final(self).activity_log@.last().action@ == "task_created"@
                    &&& crate::strutil::opt_view(final(self).activity_log@.last().agent_id)
                        == Some(agent_id@)
                    &&& crate::strutil::opt_view(final(self).activity_log@.last().task_id)
                        == Some(t.id@)
                },
                Err(e) => {
                    &&& (e == StoreError::UnknownAgent || e == StoreError::Conflict)
                    &&& final(self).same_but_log(*old(self))
                    &&& final(self).activity_log@ == old(self).activity_log@
                },
            },
    {
        if self.find_agent(agent_id).is_none() {
            return Err(StoreError::UnknownAgent);
        }
        let id = crate::external::fresh_uuid();
        if self.find_task(id.as_str()).is_some() {
            return Err(StoreError::Conflict);
        }
        let status = if scheduled_at.is_some() {
            TaskStatus::Scheduled
        } else {
            TaskStatus::Pending
        };
        let task = Task {
            id: id.clone(),
            agent_id: String::from_str(agent_id),
            task_type: String::from_str(task_type),
            input,
            status,
            result: None,
            error: None,
            scheduled_at,
            started_at: None,
            completed_at: None,
            created_at: now,
            retry_count: 0,
        };
        let copy = task.duplicate();
        let ghost before = self.tasks@;
        self.tasks.push(task);
        proof {
            lemma_task_find_absent(before, id@);
            assert forall|p: int, q: int|
                0 <= p < q < self.tasks@.len() implies self.tasks@[p].id@
                != self.tasks@[q].id@ by {
                if q < before.len() {
                    assert(self.tasks@[p] == before[p]);
                    assert(self.tasks@[q] == before[q]);
                } else {
                    assert(self.tasks@[p] == before[p]);
                }
            }
            assert(self.tasks@.subrange(0, before.len() as int) =~= before);
        }
        self.log_activity(Some(agent_id), Some(id.as_str()), "task_created", None, now);
        Ok(copy)
    }

    /// Copies of the tasks passing the optional filters, newest first (in
    /// reverse insertion order), capped at 100.
    pub fn get_tasks(&self, agent_id: Option<&str>, status: Option<TaskStatus>) -> (r: Vec<Task>)
        ensures
            ({
                let fil = self.tasks@.filter(task_pred(opt_arg_view(agent_id), status));
                &&& r@.len() == (if fil.len() <= 100 {
                    fil.len()
                } else {
                    100
                })
                &&& forall|k: int|
                    0 <= k < r@.len() ==> task_eq_view(
                        #[trigger] r@[k],
                        fil[fil.len() - 1 - k],
                    )
            }),
    {
        let ghost pred = task_pred(opt_arg_view(agent_id), status);
        let n = self.tasks.len();
        let mut r: Vec<Task> = Vec::new();
        let mut i: usize = n;
        proof {
            reveal(Seq::filter);
            assert(self.tasks@.subrange(n as int, n as int) =~= Seq::<Task>::empty());
            assert(self.tasks@.subrange(n as int, n as int).filter(pred).len() == 0);
        }
        while i > 0
            invariant
                n == self.tasks@.len(),
                0 <= i <= n,
                pred == task_pred(opt_arg_view(agent_id), status),
                ({
                    let fil = self.tasks@.subrange(i as int, n as int).filter(pred);
                    &&& r@.len() == fil.len()
                    &&& forall|k: int|
                        0 <= k < fil.len() ==> task_eq_view(
                            #[trigger] r@[k],
                            fil[fil.len() - 1 - k],
                        )
                }),
            decreases i,
        {
            i = i - 1;
            let ghost s_pre = self.tasks@.subrange(i + 1, n as int);
            let ghost s_new = self.tasks@.subrange(i as int, n as int);
            proof {
                assert(s_new[0] == self.tasks@[i as int]);
                assert(s_new.drop_first() =~= s_pre);
                lemma_filter_first(s_new, pred);
            }
            let matched = match agent_id {
                Some(a) => crate::strutil::str_eq(self.tasks[i].agent_id.as_str(), a),
                None => true,
            } && match status {
                Some(st) => same_status(&self.tasks[i].status, &st),
                None => true,
            };
            proof {
                assert(matched == pred(self.tasks@[i as int]));
            }
            if matched {
                r.push(self.tasks[i].duplicate());
                proof {
                    let fil_pre = s_pre.filter(pred);
                    let fil_new = s_new.filter(pred);
                    assert(pred(s_new[0]));
                    assert(fil_new =~= seq![s_new[0]] + fil_pre);
                    assert forall|k: int| 0 <= k < fil_new.len() implies task_eq_view(
                        #[trigger] r@[k],
                        fil_new[fil_new.len() - 1 - k],
                    ) by {
                        if k < fil_pre.len() {
                            assert(fil_new[fil_new.len() - 1 - k] == fil_pre[fil_pre.len() - 1
                                - k]);
                            assert(r@[k] == r@.subrange(0, fil_pre.len() as int)[k]);
                        } else {
                            assert(fil_new[0] == s_new[0]);
                        }
                    }
                }
            } else {
                proof {
                    assert(s_new.filter(pred) =~= s_pre.filter(pred));
                }
            }
        }
        proof {
            assert(self.tasks@.subrange(0, n as int) =~= self.tasks@);
        }
        r.truncate(100);
        r
    }

    /// A copy of the task with the given id, if stored.
    pub fn get_task(&self, task_id: &str) -> (r: Option<Task>)
        ensures
            match r {
                Some(t) => task_find(self.tasks@, task_id@, 0) matches Some(i) && task_eq_view(
                    t,
                    self.tasks@[i],
                ),
                None => task_find(self.tasks@, task_id@, 0) is None,
            },
    {
        match self.find_task(task_id) {
            Some(i) => Some(self.tasks[i].duplicate()),
            None => None,
        }
    }

    /// The single mutation point for task state.  Entering `Running` sets
    /// `started_at`; entering a terminal state sets `completed_at` and
    /// stores the result or error; no other field is touched.  An edge
    /// outside the transition graph is rejected, except that re-delivering
    /// the task's current terminal status is a no-op, not an error.  The
    /// change logs `task_<status>`.
    pub fn update_task_status(
        &mut self,
        task_id: &str,
        status: TaskStatus,
        result: Option<String>,
        error: Option<String>,
        now: u64,
    ) -> (r: Result<(), StoreError>)
        requires
            old(self).wf(),
        ensures
            final(self).wf(),
            task_find(old(self).tasks@, task_id@, 0) is None <==> r == Err::<(), StoreError>(
                StoreError::NotFound,
            ),
            match r {
                Ok(_) => ({
                    let i = task_find(old(self).tasks@, task_id@, 0)->Some_0;
                    let t = old(self).tasks@[i];
                    &&& final(self).agents@ == old(self).agents@
                    &&& final(self).schedules@ == old(self).schedules@
                    &&& final(self).triggers@ == old(self).triggers@
                    &&& final(self).approvals@ == old(self).approvals@
                    &&& if t.status == status && status.is_terminal() {
                        &&& final(self).tasks@ == old(self).tasks@
                        &&& final(self).activity_log@ == old(self).activity_log@
                    } else {
                        &&& t.status.can_transition(status)
                        &&& final(self).tasks@.len() == old(self).tasks@.len()
                        &&& forall|j: int|
                            0 <= j < old(self).tasks@.len() && j != i ==> final(self).tasks@[j]
                                == old(self).tasks@[j]
                        &&& ({
                            let u = final(self).tasks@[i];
                            &&& u.id@ == t.id@
                            &&& u.agent_id@ == t.agent_id@
                            &&& u.task_type@ == t.task_type@
                            &&& u.input.fields@ == t.input.fields@
                            &&& u.status == status
                            &&& u.scheduled_at == t.scheduled_at
                            &&& u.created_at == t.created_at
                            &&& u.retry_count == t.retry_count
                            &&& if status == TaskStatus::Running {
                                &&& u.started_at == Some(now)
                                &&& u.completed_at == t.completed_at
                                &&& crate::strutil::opt_view(u.result)
                                    == crate::strutil::opt_view(t.result)
                                &&& crate::strutil::opt_view(u.error)
                                    == crate::strutil::opt_view(t.error)
                            } else {
                                &&& u.started_at == t.started_at
                                &&& u.completed_at == Some(now)
                                &&& crate::strutil::opt_view(u.result)
                                    == crate::strutil::opt_view(result)
                                &&& crate::strutil::opt_view(u.error)
                                    == crate::strutil::opt_view(error)
                            }
                        })
                        &&& final(self).activity_log@.len() == old(self).activity_log@.len() + 1
                        &&& final(self).activity_log@.subrange(
                            0,
                            old(self).activity_log@.len() as int,
                        ) == old(self).activity_log@
                        &&& final(self).activity_log@.last().action@ == "task_"@ + status_label(
                            status,
                        )
                        &&& crate::strutil::opt_view(final(self).activity_log@.last().task_id)
                            == Some(task_id@)
                        &&& crate::strutil::opt_view(
                            final(self).activity_log@.last().agent_id,
                        ) == Some(t.agent_id@)
                    }
                }),
                Err(e) => {
                    &&& (e == StoreError::NotFound || e == StoreError::InvalidTransition)
                    &&& final(self).same_but_log(*old(self))
                    &&& final(self).activity_log@ == old(self).activity_log@
                    &&& (e == StoreError::InvalidTransition ==> ({
                        let i = task_find(old(self).tasks@, task_id@, 0)->Some_0;
                        let t = old(self).tasks@[i];
                        !t.status.can_transition(status) && !(t.status == status
                            && status.is_terminal())
                    }))
                },
            },
    {
        let i = match self.find_task(task_id) {
            Some(i) => i,
            None => {
                return Err(StoreError::NotFound);
            },
        };
        let ghost gi = i as int;
        let cur = self.tasks[i].status;
        if same_status(&cur, &status) && status.terminal() {
            return Ok(());
        }
        if !cur.transition_allowed(&status) {
            return Err(StoreError::InvalidTransition);
        }
        let agent = self.tasks[i].agent_id.clone();
        let mut updated = self.tasks[i].duplicate();
        updated.status = status;
        if matches!(status, TaskStatus::Running) {
            updated.started_at = Some(now);
        } else {
            updated.completed_at = Some(now);
            updated.result = result;
            updated.error = error;
        }
        let ghost before = self.tasks@;
        self.tasks.set(i, updated);
        proof {
            lemma_task_find_hit(before, task_id@, 0, gi);
            assert forall|p: int, q: int|
                0 <= p < q < self.tasks@.len() implies self.tasks@[p].id@
                != self.tasks@[q].id@ by {
                if p != gi && q != gi {
                    assert(self.tasks@[p] == before[p]);
                    assert(self.tasks@[q] == before[q]);
                } else if p == gi {
                    assert(self.tasks@[q] == before[q]);
                } else {
                    assert(self.tasks@[p] == before[p]);
                }
            }
        }
        let action = String::from_str("task_").concat(status.label().as_str());
        self.log_activity(Some(agent.as_str()), Some(task_id), action.as_str(), None, now);
        Ok(())
    }
}

/// Whether a schedule belongs to the optionally named agent.
pub open spec fn sched_matches(s: Schedule, aid: Option<Seq<char>>) -> bool {
    aid matches Some(a) ==> s.agent_id@ == a
}

/// The schedule filter for the optional agent argument, as one canonical
/// predicate.
pub open spec fn sched_pred(aid: Option<Seq<char>>) -> spec_fn(Schedule) -> bool {
    |s: Schedule| sched_matches(s, aid)
}

/// Whether a trigger belongs to the optionally named agent.
pub open spec fn trig_matches(t: Trigger, aid: Option<Seq<char>>) -> bool {
    aid matches Some(a) ==> t.agent_id@ == a
}

/// The trigger filter for the optional agent argument, as one canonical
/// predicate.
pub open spec fn trig_pred(aid: Option<Seq<char>>) -> spec_fn(Trigger) -> bool {
    |t: Trigger| trig_matches(t, aid)
}

/// The well-formed creation shape of a schedule: exactly one of the cron
/// expression (which must parse) and the run time (which must be a valid
/// instant).
pub open spec fn schedule_shape_ok(cron_expr: Option<&str>, run_at: Option<&Instant>) -> bool {
    &&& (cron_expr is Some) != (run_at is Some)
    &&& (cron_expr matches Some(cs) ==> crate::cron::spec_parse_cron(cs@) is Some)
    &&& (run_at matches Some(t) ==> t.wf())
}

impl Database {
    /// Finds a schedule's position by id.
    fn find_schedule(&self, schedule_id: &str) -> (r: Option<usize>)
        ensures
            match r {
                Some(i) => i < self.schedules@.len() && crate::scheduler::sched_find(
                    self.schedules@,
                    schedule_id@,
                    0,
                ) == Some(i as int),
                None => crate::scheduler::sched_find(self.schedules@, schedule_id@, 0) is None,
            },
    {
        let n = self.schedules.len();
        let mut i: usize = 0;
        while i < n
            invariant
                n == self.schedules@.len(),
                0 <= i <= n,
                crate::scheduler::sched_find(self.schedules@, schedule_id@, 0)
                    == crate::scheduler::sched_find(self.schedules@, schedule_id@, i as int),
            decreases n - i,
        {
            if crate::strutil::str_eq(self.schedules[i].id.as_str(), schedule_id) {
                return Some(i);
            }
            i += 1;
        }
        None
    }

    /// Creates a schedule for an existing agent and logs
    /// `schedule_created`.  Exactly one of `cron_expr` and `run_at` must
    /// be given; a malformed shape is rejected as `Validation` before
    /// anything is persisted.  The schedule starts enabled, with
    /// `last_run` and `next_run` unset.
    pub fn create_schedule(
        &mut self,
        agent_id: &str,
        name: &str,
        cron_expr: Option<&str>,
        run_at: Option<&Instant>,
        task_type: &str,
        task_input: Payload,
        now: u64,
    ) -> (r: Result<Schedule, StoreError>)
        requires
            old(self).wf(),
            task_input.wf(),
        ensures
            final(self).wf(),
            r == Err::<Schedule, StoreError>(StoreError::Validation) <==> !schedule_shape_ok(
                cron_expr,
                run_at,
            ),
            schedule_shape_ok(cron_expr, run_at) ==> (agent_find(
                old(self).agents@,
                agent_id@,
                0,
            ) is None <==> r == Err::<Schedule, StoreError>(StoreError::UnknownAgent)),
            match r {
                Ok(s) => {
                    &&& final(self).agents@ == old(self).agents@
                    &&& final(self).tasks@ == old(self).tasks@
                    &&& final(self).triggers@ == old(self).triggers@
                    &&& final(self).approvals@ == old(self).approvals@
                    &&& final(self).schedules@.len() == old(self).schedules@.len() + 1
                    &&& final(self).schedules@.subrange(
                        0,
                        old(self).schedules@.len() as int,
                    ) == old(self).schedules@
                    &&& ({
                        let e = final(self).schedules@.last();
                        &&& sched_eq_view(s, e)
                        &&& e.id@.len() == 36
                        &&& e.agent_id@ == agent_id@
                        &&& e.name@ == name@
                        &&& e.cron_expr == (match cron_expr {
                            Some(cs) => crate::cron::spec_parse_cron(cs@),
                            None => None,
                        })
                        &&& e.run_at == (match run_at {
                            Some(t) => Some(*t),
                            None => None,
                        })
                        &&& e.task_type@ == task_type@
                        &&& e.task_input.fields@ == task_input.fields@
                        &&& e.enabled
                        &&& e.last_run is None
                        &&& e.next_run is None
                        &&& e.created_at == now
                    })
                    &&& final(self).activity_log@.len() == old(self).activity_log@.len() + 1
                    &&& final(self).activity_log@.subrange(
                        0,
                        old(self).activity_log@.len() as int,
                    ) == old(self).activity_log@
                    &&& final(self).activity_log@.last().action@ == "schedule_created"@
                    &&& crate::strutil::opt_view(final(self).activity_log@.last().agent_id)
                        == Some(agent_id@)
                },
                Err(e) => {
                    &&& (e == StoreError::Validation || e == StoreError::UnknownAgent || e
                        == StoreError::Conflict)
                    &&& final(self).same_but_log(*old(self))
                    &&& final(self).activity_log@ == old(self).activity_log@
                },
            },
    {
        let parsed: Option<crate::cron::Cron> = match cron_expr {
            Some(cs) => {
                if run_at.is_some() {
                    return Err(StoreError::Validation);
                }
                match crate::cron::Cron::parse(cs) {
                    Some(c) => Some(c),
                    None => {
                        return Err(StoreError::Validation);
                    },
                }
            },
            None => {
                match run_at {
                    Some(t) => {
                        if !t.valid() {
                            return Err(StoreError::Validation);
                        }
                        None
                    },
                    None => {
                        return Err(StoreError::Validation);
                    },
                }
            },
        };
        if self.find_agent(agent_id).is_none() {
            return Err(StoreError::UnknownAgent);
        }
        let id = crate::external::fresh_uuid();
        if self.find_schedule(id.as_str()).is_some() {
            return Err(StoreError::Conflict);
        }
        let schedule = Schedule {
            id: id.clone(),
            agent_id: String::from_str(agent_id),
            name: String::from_str(name),
            cron_expr: parsed,
            run_at: match run_at {
                Some(t) => Some(*t),
                None => None,
            },
            task_type: String::from_str(task_type),
            task_input,
            enabled: true,
            last_run: None,
            next_run: None,
            created_at: now,
        };
        let copy = schedule.duplicate();
        let ghost before = self.schedules@;
        self.schedules.push(schedule);
        proof {
            lemma_sched_find_absent_from(before, id@, 0);
            assert forall|p: int, q: int|
                0 <= p < q < self.schedules@.len() implies self.schedules@[p].id@
                != self.schedules@[q].id@ by {
                if q < before.len() {
                    assert(self.schedules@[p] == before[p]);
                    assert(self.schedules@[q] == before[q]);
                } else {
                    assert(self.schedules@[p] == before[p]);
                }
            }
            assert(self.schedules@.subrange(0, before.len() as int) =~= before);
        }
        self.log_activity(Some(agent_id), None, "schedule_created", None, now);
        Ok(copy)
    }

    /// Copies of the schedules of the optionally named agent, newest
    /// first (in reverse insertion order).
    pub fn get_schedules(&self, agent_id: Option<&str>) -> (r: Vec<Schedule>)
        ensures
            ({
                let fil = self.schedules@.filter(sched_pred(opt_arg_view(agent_id)));
                &&& r@.len() == fil.len()
                &&& forall|k: int|
                    0 <= k < r@.len() ==> sched_eq_view(
                        #[trigger] r@[k],
                        fil[fil.len() - 1 - k],
                    )
            }),
    {
        let ghost pred = sched_pred(opt_arg_view(agent_id));
        let n = self.schedules.len();
        let mut r: Vec<Schedule> = Vec::new();
        let mut i: usize = n;
        proof {
            reveal(Seq::filter);
            assert(self.schedules@.subrange(n as int, n as int).filter(pred).len() == 0);
        }
        while i > 0
            invariant
                n == self.schedules@.len(),
                0 <= i <= n,
                pred == sched_pred(opt_arg_view(agent_id)),
                ({
                    let fil = self.schedules@.subrange(i as int, n as int).filter(pred);
                    &&& r@.len() == fil.len()
                    &&& forall|k: int|
                        0 <= k < fil.len() ==> sched_eq_view(
                            #[trigger] r@[k],
                            fil[fil.len() - 1 - k],
                        )
                }),
            decreases i,
        {
            i = i - 1;
            let ghost s_pre = self.schedules@.subrange(i + 1, n as int);
            let ghost s_new = self.schedules@.subrange(i as int, n as int);
            proof {
                assert(s_new[0] == self.schedules@[i as int]);
                assert(s_new.drop_first() =~= s_pre);
                lemma_filter_first(s_new, pred);
            }
            let matched = match agent_id {
                Some(a) => crate::strutil::str_eq(self.schedules[i].agent_id.as_str(), a),
                None => true,
            };
            proof {
                assert(matched == pred(self.schedules@[i as int]));
            }
            if matched {
                r.push(self.schedules[i].duplicate());
                proof {
                    let fil_pre = s_pre.filter(pred);
                    let fil_new = s_new.filter(pred);
                    assert(fil_new =~= seq![s_new[0]] + fil_pre);
                    assert forall|k: int| 0 <= k < fil_new.len() implies sched_eq_view(
                        #[trigger] r@[k],
                        fil_new[fil_new.len() - 1 - k],
                    ) by {
                        if k < fil_pre.len() {
                            assert(fil_new[fil_new.len() - 1 - k] == fil_pre[fil_pre.len() - 1
                                - k]);
                        } else {
                            assert(fil_new[0] == s_new[0]);
                        }
                    }
                }
            } else {
                proof {
                    assert(s_new.filter(pred) =~= s_pre.filter(pred));
                }
            }
        }
        proof {
            assert(self.schedules@.subrange(0, n as int) =~= self.schedules@);
        }
        r
    }

    /// Removes the schedule with the given id, if stored; a removal logs
    /// `schedule_deleted`.
    pub fn delete_schedule(&mut self, schedule_id: &str, now: u64)
        requires
            old(self).wf(),
        ensures
            final(self).wf(),
            final(self).agents@ == old(self).agents@,
            final(self).tasks@ == old(self).tasks@,
            final(self).triggers@ == old(self).triggers@,
            final(self).approvals@ == old(self).approvals@,
            match crate::scheduler::sched_find(old(self).schedules@, schedule_id@, 0) {
                Some(i) => {
                    &&& final(self).schedules@ == old(self).schedules@.remove(i)
                    &&& final(self).activity_log@.len() == old(self).activity_log@.len() + 1
                    &&& final(self).activity_log@.subrange(
                        0,
                        old(self).activity_log@.len() as int,
                    ) == old(self).activity_log@
                    &&& final(self).activity_log@.last().action@ == "schedule_deleted"@
                },
                None => {
                    &&& final(self).schedules@ == old(self).schedules@
                    &&& final(self).activity_log@ == old(self).activity_log@
                },
            },
    {
        match self.find_schedule(schedule_id) {
            Some(i) => {
                let agent = self.schedules[i].agent_id.clone();
                let ghost before = self.schedules@;
                self.schedules.remove(i);
                proof {
                    assert forall|p: int, q: int|
                        0 <= p < q < self.schedules@.len() implies self.schedules@[p].id@
                        != self.schedules@[q].id@ by {
                        let pp = if p < i as int {
                            p
                        } else {
                            p + 1
                        };
                        let qq = if q < i as int {
                            q
                        } else {
                            q + 1
                        };
                        assert(self.schedules@[p] == before[pp]);
                        assert(self.schedules@[q] == before[qq]);
                    }
                }
                self.log_activity(
                    Some(agent.as_str()),
                    None,
                    "schedule_deleted",
                    None,
                    now,
                );
            },
            None => {},
        }
    }

    /// Enables or disables the schedule with the given id, if stored;
    /// nothing else changes.
    pub fn toggle_schedule(&mut self, schedule_id: &str, enabled: bool)
        requires
            old(self).wf(),
        ensures
            final(self).wf(),
            final(self).agents@ == old(self).agents@,
            final(self).tasks@ == old(self).tasks@,
            final(self).triggers@ == old(self).triggers@,
            final(self).approvals@ == old(self).approvals@,
            final(self).activity_log@ == old(self).activity_log@,
            match crate::scheduler::sched_find(old(self).schedules@, schedule_id@, 0) {
                Some(i) => {
                    &&& final(self).schedules@.len() == old(self).schedules@.len()
                    &&& forall|j: int|
                        0 <= j < old(self).schedules@.len() && j != i
                            ==> final(self).schedules@[j] == old(self).schedules@[j]
                    &&& sched_eq_view(
                        final(self).schedules@[i],
                        Schedule { enabled, ..old(self).schedules@[i] },
                    )
                },
                None => final(self).schedules@ == old(self).schedules@,
            },
    {
        match self.find_schedule(schedule_id) {
            Some(i) => {
                let ghost gi = i as int;
                let mut updated = self.schedules[i].duplicate();
                updated.enabled = enabled;
                let ghost before = self.schedules@;
                self.schedules.set(i, updated);
                proof {
                    lemma_sched_find_hit(before, schedule_id@, 0, gi);
                    assert forall|p: int, q: int|
                        0 <= p < q < self.schedules@.len() implies self.schedules@[p].id@
                        != self.schedules@[q].id@ by {
                        if p != gi && q != gi {
                            assert(self.schedules@[p] == before[p]);
                            assert(self.schedules@[q] == before[q]);
                        } else if p == gi {
                            assert(self.schedules@[q] == before[q]);
                        } else {
                            assert(self.schedules@[p] == before[p]);
                        }
                    }
                }
            },
            None => {},
        }
    }
}

/// Whether a log entry names the optionally given agent; with no filter,
/// every entry passes.
pub open spec fn log_matches(e: ActivityLogEntry, aid: Option<Seq<char>>) -> bool {
    aid matches Some(a) ==> e.agent_id matches Some(x) && x@ == a
}

/// The log filter for the optional agent argument, as one canonical
/// predicate.
pub open spec fn log_pred(aid: Option<Seq<char>>) -> spec_fn(ActivityLogEntry) -> bool {
    |e: ActivityLogEntry| log_matches(e, aid)
}

/// The pending-approval filter.
pub open spec fn pending_pred() -> spec_fn(ApprovalRequest) -> bool {
    |a: ApprovalRequest| a.status == ApprovalStatus::Pending
}

impl Database {
    /// Finds a trigger's position by id.
    fn find_trigger(&self, trigger_id: &str) -> (r: Option<usize>)
        ensures
            match r {
                Some(i) => i < self.triggers@.len() && trig_find(self.triggers@, trigger_id@, 0)
                    == Some(i as int),
                None => trig_find(self.triggers@, trigger_id@, 0) is None,
            },
    {
        let n = self.triggers.len();
        let mut i: usize = 0;
        while i < n
            invariant
                n == self.triggers@.len(),
                0 <= i <= n,
                trig_find(self.triggers@, trigger_id@, 0) == trig_find(
                    self.triggers@,
                    trigger_id@,
                    i as int,
                ),
            decreases n - i,
        {
            if crate::strutil::str_eq(self.triggers[i].id.as_str(), trigger_id) {
                return Some(i);
            }
            i += 1;
        }
        None
    }

    /// Finds an approval's position by id.
    fn find_approval(&self, approval_id: &str) -> (r: Option<usize>)
        ensures
            match r {
                Some(i) => i < self.approvals@.len() && appr_find(
                    self.approvals@,
                    approval_id@,
                    0,
                ) == Some(i as int),
                None => appr_find(self.approvals@, approval_id@, 0) is None,
            },
    {
        let n = self.approvals.len();
        let mut i: usize = 0;
        while i < n
            invariant
                n == self.approvals@.len(),
                0 <= i <= n,
                appr_find(self.approvals@, approval_id@, 0) == appr_find(
                    self.approvals@,
                    approval_id@,
                    i as int,
                ),
            decreases n - i,
        {
            if crate::strutil::str_eq(self.approvals[i].id.as_str(), approval_id) {
                return Some(i);
            }
            i += 1;
        }
        None
    }

    /// Creates a trigger for an existing agent and logs `trigger_created`.
    /// A configuration that does not fit the trigger type is rejected as
    /// `Validation` before anything is persisted.  The trigger starts
    /// enabled, never yet triggered.
    pub fn create_trigger(
        &mut self,
        agent_id: &str,
        name: &str,
        trigger_type: TriggerType,
        config: TriggerConfig,
        conditions: Vec<crate::triggers::TriggerCondition>,
        task_type: &str,
        task_input: Payload,
        now: u64,
    ) -> (r: Result<Trigger, StoreError>)
        requires
            old(self).wf(),
            task_input.wf(),
        ensures
            final(self).wf(),
            r == Err::<Trigger, StoreError>(StoreError::Validation)
                <==> !crate::triggers::config_fits(trigger_type, config),
            crate::triggers::config_fits(trigger_type, config) ==> (agent_find(
                old(self).agents@,
                agent_id@,
                0,
            ) is None <==> r == Err::<Trigger, StoreError>(StoreError::UnknownAgent)),
            match r {
                Ok(t) => {
                    &&& final(self).agents@ == old(self).agents@
                    &&& final(self).tasks@ == old(self).tasks@
                    &&& final(self).schedules@ == old(self).schedules@
                    &&& final(self).approvals@ == old(self).approvals@
                    &&& final(self).triggers@.len() == old(self).triggers@.len() + 1
                    &&& final(self).triggers@.subrange(
                        0,
                        old(self).triggers@.len() as int,
                    ) == old(self).triggers@
                    &&& ({
                        let e = final(self).triggers@.last();
                        &&& trig_eq_view(t, e)
                        &&& e.id@.len() == 36
                        &&& e.agent_id@ == agent_id@
                        &&& e.name@ == name@
                        &&& e.trigger_type == trigger_type
                        &&& e.config == config
                        &&& e.conditions@ == conditions@
                        &&& e.task_type@ == task_type@
                        &&& e.task_input.fields@ == task_input.fields@
                        &&& e.enabled
                        &&& e.last_triggered is None
                        &&& e.created_at == now
                    })
                    &&& final(self).activity_log@.len() == old(self).activity_log@.len() + 1
                    &&& final(self).activity_log@.subrange(
                        0,
                        old(self).activity_log@.len() as int,
                    ) == old(self).activity_log@
                    &&& final(self).activity_log@.last().action@ == "trigger_created"@
                    &&& crate::strutil::opt_view(final(self).activity_log@.last().agent_id)
                        == Some(agent_id@)
                },
                Err(e) => {
                    &&& (e == StoreError::Validation || e == StoreError::UnknownAgent || e
                        == StoreError::Conflict)
                    &&& final(self).same_but_log(*old(self))
                    &&& final(self).activity_log@ == old(self).activity_log@
                },
            },
    {
        if !crate::triggers::config_fits_exec(&trigger_type, &config) {
            return Err(StoreError::Validation);
        }
        if self.find_agent(agent_id).is_none() {
            return Err(StoreError::UnknownAgent);
        }
        let id = crate::external::fresh_uuid();
        if self.find_trigger(id.as_str()).is_some() {
            return Err(StoreError::Conflict);
        }
        let trigger = Trigger {
            id: id.clone(),
            agent_id: String::from_str(agent_id),
            name: String::from_str(name),
            trigger_type,
            config,
            conditions,
            task_type: String::from_str(task_type),
            task_input,
            enabled: true,
            last_triggered: None,
            created_at: now,
        };
        let copy = trigger.duplicate();
        let ghost before = self.triggers@;
        self.triggers.push(trigger);
        proof {
            lemma_trig_find_absent_from(before, id@, 0);
            assert forall|p: int, q: int|
                0 <= p < q < self.triggers@.len() implies self.triggers@[p].id@
                != self.triggers@[q].id@ by {
                if q < before.len() {
                    assert(self.triggers@[p] == before[p]);
                    assert(self.triggers@[q] == before[q]);
                } else {
                    assert(self.triggers@[p] == before[p]);
                }
            }
            assert(self.triggers@.subrange(0, before.len() as int) =~= before);
        }
        self.log_activity(Some(agent_id), None, "trigger_created", None, now);
        Ok(copy)
    }

    /// Copies of the triggers of the optionally named agent, newest first
    /// (in reverse insertion order).
    pub fn get_triggers(&self, agent_id: Option<&str>) -> (r: Vec<Trigger>)
        ensures
            ({
                let fil = self.triggers@.filter(trig_pred(opt_arg_view(agent_id)));
                &&& r@.len() == fil.len()
                &&& forall|k: int|
                    0 <= k < r@.len() ==> trig_eq_view(
                        #[trigger] r@[k],
                        fil[fil.len() - 1 - k],
                    )
            }),
    {
        let ghost pred = trig_pred(opt_arg_view(agent_id));
        let n = self.triggers.len();
        let mut r: Vec<Trigger> = Vec::new();
        let mut i: usize = n;
        proof {
            reveal(Seq::filter);
            assert(self.triggers@.subrange(n as int, n as int).filter(pred).len() == 0);
        }
        while i > 0
            invariant
                n == self.triggers@.len(),
                0 <= i <= n,
                pred == trig_pred(opt_arg_view(agent_id)),
                ({
                    let fil = self.triggers@.subrange(i as int, n as int).filter(pred);
                    &&& r@.len() == fil.len()
                    &&& forall|k: int|
                        0 <= k < fil.len() ==> trig_eq_view(
                            #[trigger] r@[k],
                            fil[fil.len() - 1 - k],
                        )
                }),
            decreases i,
        {
            i = i - 1;
            let ghost s_pre = self.triggers@.subrange(i + 1, n as int);
            let ghost s_new = self.triggers@.subrange(i as int, n as int);
            proof {
                assert(s_new[0] == self.triggers@[i as int]);
                assert(s_new.drop_first() =~= s_pre);
                lemma_filter_first(s_new, pred);
            }
            let matched = match agent_id {
                Some(a) => crate::strutil::str_eq(self.triggers[i].agent_id.as_str(), a),
                None => true,
            };
            proof {
                assert(matched == pred(self.triggers@[i as int]));
            }
            if matched {
                r.push(self.triggers[i].duplicate());
                proof {
                    let fil_pre = s_pre.filter(pred);
                    let fil_new = s_new.filter(pred);
                    assert(fil_new =~= seq![s_new[0]] + fil_pre);
                    assert forall|k: int| 0 <= k < fil_new.len() implies trig_eq_view(
                        #[trigger] r@[k],
                        fil_new[fil_new.len() - 1 - k],
                    ) by {
                        if k < fil_pre.len() {
                            assert(fil_new[fil_new.len() - 1 - k] == fil_pre[fil_pre.len() - 1
                                - k]);
                        } else {
                            assert(fil_new[0] == s_new[0]);
                        }
                    }
                }
            } else {
                proof {
                    assert(s_new.filter(pred) =~= s_pre.filter(pred));
                }
            }
        }
        proof {
            assert(self.triggers@.subrange(0, n as int) =~= self.triggers@);
        }
        r
    }

    /// Removes the trigger with the given id, if stored; a removal logs
    /// `trigger_deleted`.
    pub fn delete_trigger(&mut self, trigger_id: &str, now: u64)
        requires
            old(self).wf(),
        ensures
            final(self).wf(),
            final(self).agents@ == old(self).agents@,
            final(self).tasks@ == old(self).tasks@,
            final(self).schedules@ == old(self).schedules@,
            final(self).approvals@ == old(self).approvals@,
            match trig_find(old(self).triggers@, trigger_id@, 0) {
                Some(i) => {
                    &&& final(self).triggers@ == old(self).triggers@.remove(i)
                    &&& final(self).activity_log@.len() == old(self).activity_log@.len() + 1
                    &&& final(self).activity_log@.subrange(
                        0,
                        old(self).activity_log@.len() as int,
                    ) == old(self).activity_log@
                    &&& final(self).activity_log@.last().action@ == "trigger_deleted"@
                },
                None => {
                    &&& final(self).triggers@ == old(self).triggers@
                    &&& final(self).activity_log@ == old(self).activity_log@
                },
            },
    {
        match self.find_trigger(trigger_id) {
            Some(i) => {
                let agent = self.triggers[i].agent_id.clone();
                let ghost before = self.triggers@;
                self.triggers.remove(i);
                proof {
                    assert forall|p: int, q: int|
                        0 <= p < q < self.triggers@.len() implies self.triggers@[p].id@
                        != self.triggers@[q].id@ by {
                        let pp = if p < i as int {
                            p
                        } else {
                            p + 1
                        };
                        let qq = if q < i as int {
                            q
                        } else {
                            q + 1
                        };
                        assert(self.triggers@[p] == before[pp]);
                        assert(self.triggers@[q] == before[qq]);
                    }
                }
                self.log_activity(Some(agent.as_str()), None, "trigger_deleted", None, now);
            },
            None => {},
        }
    }

    /// Copies of the newest `limit` log entries, optionally only those
    /// naming an agent, newest first (in reverse insertion order).
    pub fn get_activity_log(&self, agent_id: Option<&str>, limit: u32) -> (r: Vec<
        ActivityLogEntry,
    >)
        ensures
            ({
                let fil = self.activity_log@.filter(log_pred(opt_arg_view(agent_id)));
                &&& r@.len() == (if fil.len() <= limit {
                    fil.len() as int
                } else {
                    limit as int
                })
                &&& forall|k: int|
                    0 <= k < r@.len() ==> crate::tasks::log_eq_view(
                        #[trigger] r@[k],
                        fil[fil.len() - 1 - k],
                    )
            }),
    {
        let ghost pred = log_pred(opt_arg_view(agent_id));
        let n = self.activity_log.len();
        let mut r: Vec<ActivityLogEntry> = Vec::new();
        let mut i: usize = n;
        proof {
            reveal(Seq::filter);
            assert(self.activity_log@.subrange(n as int, n as int).filter(pred).len() == 0);
        }
        while i > 0
            invariant
                n == self.activity_log@.len(),
                0 <= i <= n,
                pred == log_pred(opt_arg_view(agent_id)),
                ({
                    let fil = self.activity_log@.subrange(i as int, n as int).filter(pred);
                    &&& r@.len() == fil.len()
                    &&& forall|k: int|
                        0 <= k < fil.len() ==> crate::tasks::log_eq_view(
                            #[trigger] r@[k],
                            fil[fil.len() - 1 - k],
                        )
                }),
            decreases i,
        {
            i = i - 1;
            let ghost s_pre = self.activity_log@.subrange(i + 1, n as int);
            let ghost s_new = self.activity_log@.subrange(i as int, n as int);
            proof {
                assert(s_new[0] == self.activity_log@[i as int]);
                assert(s_new.drop_first() =~= s_pre);
                lemma_filter_first(s_new, pred);
            }
            let matched = match agent_id {
                Some(a) => match &self.activity_log[i].agent_id {
                    Some(x) => crate::strutil::str_eq(x.as_str(), a),
                    None => false,
                },
                None => true,
            };
            proof {
                assert(matched == pred(self.activity_log@[i as int]));
            }
            if matched {
                r.push(self.activity_log[i].duplicate());
                proof {
                    let fil_pre = s_pre.filter(pred);
                    let fil_new = s_new.filter(pred);
                    assert(fil_new =~= seq![s_new[0]] + fil_pre);
                    assert forall|k: int|
                        0 <= k < fil_new.len() implies crate::tasks::log_eq_view(
                        #[trigger] r@[k],
                        fil_new[fil_new.len() - 1 - k],
                    ) by {
                        if k < fil_pre.len() {
                            assert(fil_new[fil_new.len() - 1 - k] == fil_pre[fil_pre.len() - 1
                                - k]);
                        } else {
                            assert(fil_new[0] == s_new[0]);
                        }
                    }
                }
            } else {
                proof {
                    assert(s_new.filter(pred) =~= s_pre.filter(pred));
                }
            }
        }
        proof {
            assert(self.activity_log@.subrange(0, n as int) =~= self.activity_log@);
        }
        let cap = limit as usize;
        r.truncate(cap);
        r
    }

    /// Counts of the optionally named agent's tasks per status; the total
    /// is the sum of the six counts.
    pub fn get_task_stats(&self, agent_id: Option<&str>) -> (r: TaskStats)
        requires
            self.tasks@.len() < 715827882,
        ensures
            ({
                let aid = opt_arg_view(agent_id);
                &&& r.pending == self.tasks@.filter(
                    task_pred(aid, Some(TaskStatus::Pending)),
                ).len()
                &&& r.scheduled == self.tasks@.filter(
                    task_pred(aid, Some(TaskStatus::Scheduled)),
                ).len()
                &&& r.running == self.tasks@.filter(
                    task_pred(aid, Some(TaskStatus::Running)),
                ).len()
                &&& r.completed == self.tasks@.filter(
                    task_pred(aid, Some(TaskStatus::Completed)),
                ).len()
                &&& r.failed == self.tasks@.filter(
                    task_pred(aid, Some(TaskStatus::Failed)),
                ).len()
                &&& r.cancelled == self.tasks@.filter(
                    task_pred(aid, Some(TaskStatus::Cancelled)),
                ).len()
                &&& r.total == r.pending + r.scheduled + r.running + r.completed + r.failed
                    + r.cancelled
            }),
    {
        let ghost aid = opt_arg_view(agent_id);
        let mut stats = TaskStats {
            total: 0,
            pending: 0,
            scheduled: 0,
            running: 0,
            completed: 0,
            failed: 0,
            cancelled: 0,
        };
        let n = self.tasks.len();
        let mut i: usize = 0;
        proof {
            reveal(Seq::filter);
            broadcast use vstd::seq_lib::group_seq_properties;

        }
        while i < n
            invariant
                n == self.tasks@.len(),
                n < 715827882,
                0 <= i <= n,
                aid == opt_arg_view(agent_id),
                ({
                    let pre = self.tasks@.subrange(0, i as int);
                    &&& stats.pending == pre.filter(task_pred(aid, Some(TaskStatus::Pending))).len()
                    &&& stats.scheduled == pre.filter(
                        task_pred(aid, Some(TaskStatus::Scheduled)),
                    ).len()
                    &&& stats.running == pre.filter(task_pred(aid, Some(TaskStatus::Running))).len()
                    &&& stats.completed == pre.filter(
                        task_pred(aid, Some(TaskStatus::Completed)),
                    ).len()
                    &&& stats.failed == pre.filter(task_pred(aid, Some(TaskStatus::Failed))).len()
                    &&& stats.cancelled == pre.filter(
                        task_pred(aid, Some(TaskStatus::Cancelled)),
                    ).len()
                    &&& stats.pending <= i && stats.scheduled <= i && stats.running <= i
                        && stats.completed <= i && stats.failed <= i && stats.cancelled <= i
                    &&& stats.total == 0
                }),
            decreases n - i,
        {
            let ghost pre = self.tasks@.subrange(0, i as int);
            let ghost post = self.tasks@.subrange(0, i + 1);
            proof {
                reveal(Seq::filter);
                assert(post.drop_last() =~= pre);
                assert(post.last() == self.tasks@[i as int]);
                lemma_filter_push_len(pre, post, task_pred(aid, Some(TaskStatus::Pending)));
                lemma_filter_push_len(pre, post, task_pred(aid, Some(TaskStatus::Scheduled)));
                lemma_filter_push_len(pre, post, task_pred(aid, Some(TaskStatus::Running)));
                lemma_filter_push_len(pre, post, task_pred(aid, Some(TaskStatus::Completed)));
                lemma_filter_push_len(pre, post, task_pred(aid, Some(TaskStatus::Failed)));
                lemma_filter_push_len(pre, post, task_pred(aid, Some(TaskStatus::Cancelled)));
            }
            let in_scope = match agent_id {
                Some(a) => crate::strutil::str_eq(self.tasks[i].agent_id.as_str(), a),
                None => true,
            };
            if in_scope {
                match self.tasks[i].status {
                    TaskStatus::Pending => {
                        stats.pending = stats.pending + 1;
                    },
                    TaskStatus::Scheduled => {
                        stats.scheduled = stats.scheduled + 1;
                    },
                    TaskStatus::Running => {
                        stats.running = stats.running + 1;
                    },
                    TaskStatus::Completed => {
                        stats.completed = stats.completed + 1;
                    },
                    TaskStatus::Failed => {
                        stats.failed = stats.failed + 1;
                    },
                    TaskStatus::Cancelled => {
                        stats.cancelled = stats.cancelled + 1;
                    },
                }
            }
            i += 1;
        }
        proof {
            assert(self.tasks@.subrange(0, n as int) =~= self.tasks@);
        }
        stats.total = stats.pending + stats.scheduled + stats.running + stats.completed
            + stats.failed + stats.cancelled;
        stats
    }

    /// Copies of the pending approval requests, newest first (in reverse
    /// insertion order).
    pub fn get_pending_approvals(&self) -> (r: Vec<ApprovalRequest>)
        ensures
            ({
                let fil = self.approvals@.filter(pending_pred());
                &&& r@.len() == fil.len()
                &&& forall|k: int|
                    0 <= k < r@.len() ==> crate::tasks::appr_eq_view(
                        #[trigger] r@[k],
                        fil[fil.len() - 1 - k],
                    )
            }),
    {
        let ghost pred = pending_pred();
        let n = self.approvals.len();
        let mut r: Vec<ApprovalRequest> = Vec::new();
        let mut i: usize = n;
        proof {
            reveal(Seq::filter);
            assert(self.approvals@.subrange(n as int, n as int).filter(pred).len() == 0);
        }
        while i > 0
            invariant
                n == self.approvals@.len(),
                0 <= i <= n,
                pred == pending_pred(),
                ({
                    let fil = self.approvals@.subrange(i as int, n as int).filter(pred);
                    &&& r@.len() == fil.len()
                    &&& forall|k: int|
                        0 <= k < fil.len() ==> crate::tasks::appr_eq_view(
                            #[trigger] r@[k],
                            fil[fil.len() - 1 - k],
                        )
                }),
            decreases i,
        {
            i = i - 1;
            let ghost s_pre = self.approvals@.subrange(i + 1, n as int);
            let ghost s_new = self.approvals@.subrange(i as int, n as int);
            proof {
                assert(s_new[0] == self.approvals@[i as int]);
                assert(s_new.drop_first() =~= s_pre);
                lemma_filter_first(s_new, pred);
            }
            let matched = matches!(self.approvals[i].status, ApprovalStatus::Pending);
            proof {
                assert(matched == pred(self.approvals@[i as int]));
            }
            if matched {
                r.push(self.approvals[i].duplicate());
                proof {
                    let fil_pre = s_pre.filter(pred);
                    let fil_new = s_new.filter(pred);
                    assert(fil_new =~= seq![s_new[0]] + fil_pre);
                    assert forall|k: int|
                        0 <= k < fil_new.len() implies crate::tasks::appr_eq_view(
                        #[trigger] r@[k],
                        fil_new[fil_new.len() - 1 - k],
                    ) by {
                        if k < fil_pre.len() {
                            assert(fil_new[fil_new.len() - 1 - k] == fil_pre[fil_pre.len() - 1
                                - k]);
                        } else {
                            assert(fil_new[0] == s_new[0]);
                        }
                    }
                }
            } else {
                proof {
                    assert(s_new.filter(pred) =~= s_pre.filter(pred));
                }
            }
        }
        proof {
            assert(self.approvals@.subrange(0, n as int) =~= self.approvals@);
        }
        r
    }

    /// Opens an approval request in `Pending` for an agent's action and
    /// logs `approval_requested`.
    pub fn create_approval(
        &mut self,
        agent_id: &str,
        task_id: Option<&str>,
        action_type: &str,
        action_details: Payload,
        risk_level: RiskLevel,
        now: u64,
    ) -> (r: Result<ApprovalRequest, StoreError>)
        requires
            old(self).wf(),
            action_details.wf(),
        ensures
            final(self).wf(),
            agent_find(old(self).agents@, agent_id@, 0) is None <==> r == Err::<
                ApprovalRequest,
                StoreError,
            >(StoreError::UnknownAgent),
            match r {
                Ok(a) => {
                    &&& final(self).agents@ == old(self).agents@
                    &&& final(self).tasks@ == old(self).tasks@
                    &&& final(self).schedules@ == old(self).schedules@
                    &&& final(self).triggers@ == old(self).triggers@
                    &&& final(self).approvals@.len() == old(self).approvals@.len() + 1
                    &&& final(self).approvals@.subrange(
                        0,
                        old(self).approvals@.len() as int,
                    ) == old(self).approvals@
                    &&& ({
                        let e = final(self).approvals@.last();
                        &&& crate::tasks::appr_eq_view(a, e)
                        &&& e.id@.len() == 36
                        &&& e.agent_id@ == agent_id@
                        &&& crate::strutil::opt_view(e.task_id) == opt_arg_view(task_id)
                        &&& e.action_type@ == action_type@
                        &&& e.action_details.fields@ == action_details.fields@
                        &&& e.risk_level == risk_level
                        &&& e.status == ApprovalStatus::Pending
                        &&& e.modified_input is None
                        &&& e.created_at == now
                        &&& e.decided_at is None
                    })
                    &&& final(self).activity_log@.len() == old(self).activity_log@.len() + 1
                    &&& final(self).activity_log@.subrange(
                        0,
                        old(self).activity_log@.len() as int,
                    ) == old(self).activity_log@
                    &&& final(self).activity_log@.last().action@ == "approval_requested"@
                },
                Err(e) => {
                    &&& (e == StoreError::UnknownAgent || e == StoreError::Conflict)
                    &&& final(self).same_but_log(*old(self))
                    &&& final(self).activity_log@ == old(self).activity_log@
                },
            },
    {
        if self.find_agent(agent_id).is_none() {
            return Err(StoreError::UnknownAgent);
        }
        let id = crate::external::fresh_uuid();
        if self.find_approval(id.as_str()).is_some() {
            return Err(StoreError::Conflict);
        }
        let request = ApprovalRequest {
            id: id.clone(),
            agent_id: String::from_str(agent_id),
            task_id: match task_id {
                Some(t) => Some(String::from_str(t)),
                None => None,
            },
            action_type: String::from_str(action_type),
            action_details,
            risk_level,
            status: ApprovalStatus::Pending,
            modified_input: None,
            created_at: now,
            decided_at: None,
        };
        let copy = request.duplicate();
        let ghost before = self.approvals@;
        self.approvals.push(request);
        proof {
            lemma_appr_find_absent_from(before, id@, 0);
            assert forall|p: int, q: int|
                0 <= p < q < self.approvals@.len() implies self.approvals@[p].id@
                != self.approvals@[q].id@ by {
                if q < before.len() {
                    assert(self.approvals@[p] == before[p]);
                    assert(self.approvals@[q] == before[q]);
                } else {
                    assert(self.approvals@[p] == before[p]);
                }
            }
            assert(self.approvals@.subrange(0, before.len() as int) =~= before);
        }
        self.log_activity(Some(agent_id), task_id, "approval_requested", None, now);
        Ok(copy)
    }

    /// Decides a pending approval request, one way: the status becomes
    /// `Approved` or `Rejected`, `decided_at` is set, and an optional
    /// input override is recorded.  A request already decided is rejected
    /// as `AlreadyDecided` and nothing changes.  The decision logs
    /// `approval_approved` or `approval_rejected`.
    pub fn process_approval(
        &mut self,
        approval_id: &str,
        approved: bool,
        modified_input: Option<Payload>,
        now: u64,
    ) -> (r: Result<(), StoreError>)
        requires
            old(self).wf(),
            modified_input matches Some(p) ==> p.wf(),
        ensures
            final(self).wf(),
            appr_find(old(self).approvals@, approval_id@, 0) is None <==> r == Err::<
                (),
                StoreError,
            >(StoreError::NotFound),
            match r {
                Ok(_) => ({
                    let i = appr_find(old(self).approvals@, approval_id@, 0)->Some_0;
                    let a = old(self).approvals@[i];
                    &&& a.status == ApprovalStatus::Pending
                    &&& final(self).agents@ == old(self).agents@
                    &&& final(self).tasks@ == old(self).tasks@
                    &&& final(self).schedules@ == old(self).schedules@
                    &&& final(self).triggers@ == old(self).triggers@
                    &&& final(self).approvals@.len() == old(self).approvals@.len()
                    &&& forall|j: int|
                        0 <= j < old(self).approvals@.len() && j != i
                            ==> final(self).approvals@[j] == old(self).approvals@[j]
                    &&& ({
                        let u = final(self).approvals@[i];
                        &&& u.id@ == a.id@
                        &&& u.agent_id@ == a.agent_id@
                        &&& crate::strutil::opt_view(u.task_id) == crate::strutil::opt_view(
                            a.task_id,
                        )
                        &&& u.action_type@ == a.action_type@
                        &&& u.action_details.fields@ == a.action_details.fields@
                        &&& u.risk_level == a.risk_level
                        &&& u.status == (if approved {
                            ApprovalStatus::Approved
                        } else {
                            ApprovalStatus::Rejected
                        })
                        &&& (match (u.modified_input, modified_input) {
                            (Some(x), Some(y)) => x.fields@ == y.fields@,
                            (None, None) => true,
                            _ => false,
                        })
                        &&& u.created_at == a.created_at
                        &&& u.decided_at == Some(now)
                    })
                    &&& final(self).activity_log@.len() == old(self).activity_log@.len() + 1
                    &&& final(self).activity_log@.subrange(
                        0,
                        old(self).activity_log@.len() as int,
                    ) == old(self).activity_log@
                    &&& final(self).activity_log@.last().action@ == (if approved {
                        "approval_approved"@
                    } else {
                        "approval_rejected"@
                    })
                }),
                Err(e) => {
                    &&& (e == StoreError::NotFound || e == StoreError::AlreadyDecided)
                    &&& final(self).same_but_log(*old(self))
                    &&& final(self).activity_log@ == old(self).activity_log@
                    &&& (e == StoreError::AlreadyDecided ==> ({
                        let i = appr_find(old(self).approvals@, approval_id@, 0)->Some_0;
                        old(self).approvals@[i].status != ApprovalStatus::Pending
                    }))
                },
            },
    {
        let i = match self.find_approval(approval_id) {
            Some(i) => i,
            None => {
                return Err(StoreError::NotFound);
            },
        };
        let ghost gi = i as int;
        if !matches!(self.approvals[i].status, ApprovalStatus::Pending) {
            return Err(StoreError::AlreadyDecided);
        }
        let agent = self.approvals[i].agent_id.clone();
        let mut updated = self.approvals[i].duplicate();
        updated.status = if approved {
            ApprovalStatus::Approved
        } else {
            ApprovalStatus::Rejected
        };
        updated.modified_input = modified_input;
        updated.decided_at = Some(now);
        let ghost before = self.approvals@;
        self.approvals.set(i, updated);
        proof {
            lemma_appr_find_hit(before, approval_id@, 0, gi);
            assert forall|p: int, q: int|
                0 <= p < q < self.approvals@.len() implies self.approvals@[p].id@
                != self.approvals@[q].id@ by {
                if p != gi && q != gi {
                    assert(self.approvals@[p] == before[p]);
                    assert(self.approvals@[q] == before[q]);
                } else if p == gi {
                    assert(self.approvals@[q] == before[q]);
                } else {
                    assert(self.approvals@[p] == before[p]);
                }
            }
        }
        let action = if approved {
            "approval_approved"
        } else {
            "approval_rejected"
        };
        self.log_activity(Some(agent.as_str()), None, action, None, now);
        Ok(())
    }
}

impl Database {
    /// A copy of the schedule with the given id, if stored.
    pub fn get_schedule(&self, schedule_id: &str) -> (r: Option<Schedule>)
        ensures
            match r {
                Some(s) => crate::scheduler::sched_find(self.schedules@, schedule_id@, 0)
                    matches Some(i) && sched_eq_view(s, self.schedules@[i]),
                None => crate::scheduler::sched_find(self.schedules@, schedule_id@, 0) is None,
            },
    {
        match self.find_schedule(schedule_id) {
            Some(i) => Some(self.schedules[i].duplicate()),
            None => None,
        }
    }

    /// A copy of the trigger with the given id, if stored.
    pub fn get_trigger(&self, trigger_id: &str) -> (r: Option<Trigger>)
        ensures
            match r {
                Some(t) => trig_find(self.triggers@, trigger_id@, 0) matches Some(i)
                    && trig_eq_view(t, self.triggers@[i]),
                None => trig_find(self.triggers@, trigger_id@, 0) is None,
            },
    {
        match self.find_trigger(trigger_id) {
            Some(i) => Some(self.triggers[i].duplicate()),
            None => None,
        }
    }

    /// A copy of the approval request with the given id, if stored.
    pub fn get_approval(&self, approval_id: &str) -> (r: Option<ApprovalRequest>)
        ensures
            match r {
                Some(a) => appr_find(self.approvals@, approval_id@, 0) matches Some(i)
                    && crate::tasks::appr_eq_view(a, self.approvals@[i]),
                None => appr_find(self.approvals@, approval_id@, 0) is None,
            },
    {
        match self.find_approval(approval_id) {
            Some(i) => Some(self.approvals[i].duplicate()),
            None => None,
        }
    }

    /// Replaces the stored schedule carrying the same id; used by the
    /// due-time engine to persist a firing.
    pub fn replace_schedule(&mut self, fired: Schedule) -> (r: Result<(), StoreError>)
        requires
            old(self).wf(),
            fired.wf(),
        ensures
            final(self).wf(),
            crate::scheduler::sched_find(old(self).schedules@, fired.id@, 0) is None <==> r
                == Err::<(), StoreError>(StoreError::NotFound),
            match r {
                Ok(_) => ({
                    let i = crate::scheduler::sched_find(
                        old(self).schedules@,
                        fired.id@,
                        0,
                    )->Some_0;
                    &&& final(self).agents@ == old(self).agents@
                    &&& final(self).tasks@ == old(self).tasks@
                    &&& final(self).triggers@ == old(self).triggers@
                    &&& final(self).approvals@ == old(self).approvals@
                    &&& final(self).activity_log@ == old(self).activity_log@
                    &&& final(self).schedules@ == old(self).schedules@.update(i, fired)
                }),
                Err(e) => e == StoreError::NotFound && final(self).same_but_log(*old(self))
                    && final(self).activity_log@ == old(self).activity_log@,
            },
    {
        let id = fired.id.clone();
        match self.find_schedule(id.as_str()) {
            Some(i) => {
                let ghost gi = i as int;
                let ghost before = self.schedules@;
                self.schedules.set(i, fired);
                proof {
                    lemma_sched_find_hit(before, id@, 0, gi);
                    assert forall|p: int, q: int|
                        0 <= p < q < self.schedules@.len() implies self.schedules@[p].id@
                        != self.schedules@[q].id@ by {
                        if p != gi && q != gi {
                            assert(self.schedules@[p] == before[p]);
                            assert(self.schedules@[q] == before[q]);
                        } else if p == gi {
                            assert(self.schedules@[q] == before[q]);
                        } else {
                            assert(self.schedules@[p] == before[p]);
                        }
                    }
                }
                Ok(())
            },
            None => Err(StoreError::NotFound),
        }
    }

    /// Replaces the stored trigger carrying the same id; used by the
    /// trigger engine to stamp `last_triggered`.
    pub fn replace_trigger(&mut self, marked: Trigger) -> (r: Result<(), StoreError>)
        requires
            old(self).wf(),
            marked.wf(),
        ensures
            final(self).wf(),
            trig_find(old(self).triggers@, marked.id@, 0) is None <==> r == Err::<
                (),
                StoreError,
            >(StoreError::NotFound),
            match r {
                Ok(_) => ({
                    let i = trig_find(old(self).triggers@, marked.id@, 0)->Some_0;
                    &&& final(self).agents@ == old(self).agents@
                    &&& final(self).tasks@ == old(self).tasks@
                    &&& final(self).schedules@ == old(self).schedules@
                    &&& final(self).approvals@ == old(self).approvals@
                    &&& final(self).activity_log@ == old(self).activity_log@
                    &&& final(self).triggers@ == old(self).triggers@.update(i, marked)
                }),
                Err(e) => e == StoreError::NotFound && final(self).same_but_log(*old(self))
                    && final(self).activity_log@ == old(self).activity_log@,
            },
    {
        let id = marked.id.clone();
        match self.find_trigger(id.as_str()) {
            Some(i) => {
                let ghost gi = i as int;
                let ghost before = self.triggers@;
                self.triggers.set(i, marked);
                proof {
                    lemma_trig_find_hit(before, id@, 0, gi);
                    assert forall|p: int, q: int|
                        0 <= p < q < self.triggers@.len() implies self.triggers@[p].id@
                        != self.triggers@[q].id@ by {
                        if p != gi && q != gi {
                            assert(self.triggers@[p] == before[p]);
                            assert(self.triggers@[q] == before[q]);
                        } else if p == gi {
                            assert(self.triggers@[q] == before[q]);
                        } else {
                            assert(self.triggers@[p] == before[p]);
                        }
                    }
                }
                Ok(())
            },
            None => Err(StoreError::NotFound),
        }
    }

    /// Applies the retry policy to a failed task: below the retry bound
    /// the task re-enters `Pending` with its count bumped, and the store
    /// logs `task_retry`; at or above the bound, or in any other status,
    /// nothing changes and the call reports `false`.  The retry count
    /// never exceeds the bound this way.
    pub fn retry_task(&mut self, task_id: &str, max_retries: u32, now: u64) -> (r: Result<
        bool,
        StoreError,
    >)
        requires
            old(self).wf(),
        ensures
            final(self).wf(),
            task_find(old(self).tasks@, task_id@, 0) is None <==> r == Err::<bool, StoreError>(
                StoreError::NotFound,
            ),
            match r {
                Ok(retried) => ({
                    let i = task_find(old(self).tasks@, task_id@, 0)->Some_0;
                    let t = old(self).tasks@[i];
                    &&& retried == (t.status == TaskStatus::Failed && t.retry_count
                        < max_retries)
                    &&& if retried {
                        &&& final(self).agents@ == old(self).agents@
                        &&& final(self).schedules@ == old(self).schedules@
                        &&& final(self).triggers@ == old(self).triggers@
                        &&& final(self).approvals@ == old(self).approvals@
                        &&& final(self).tasks@.len() == old(self).tasks@.len()
                        &&& forall|j: int|
                            0 <= j < old(self).tasks@.len() && j != i
                                ==> final(self).tasks@[j] == old(self).tasks@[j]
                        &&& ({
                            let u = final(self).tasks@[i];
                            &&& u.id@ == t.id@
                            &&& u.agent_id@ == t.agent_id@
                            &&& u.task_type@ == t.task_type@
                            &&& u.input.fields@ == t.input.fields@
                            &&& u.status == TaskStatus::Pending
                            &&& u.retry_count == t.retry_count + 1
                            &&& u.retry_count <= max_retries
                            &&& u.scheduled_at == t.scheduled_at
                            &&& u.started_at == t.started_at
                            &&& u.completed_at == t.completed_at
                            &&& u.created_at == t.created_at
                        })
                        &&& final(self).activity_log@.len() == old(self).activity_log@.len()
                            + 1
                        &&& final(self).activity_log@.last().action@ == "task_retry"@
                    } else {
                        &&& final(self).same_but_log(*old(self))
                        &&& final(self).activity_log@ == old(self).activity_log@
                    }
                }),
                Err(e) => e == StoreError::NotFound && final(self).same_but_log(*old(self))
                    && final(self).activity_log@ == old(self).activity_log@,
            },
    {
        let i = match self.find_task(task_id) {
            Some(i) => i,
            None => {
                return Err(StoreError::NotFound);
            },
        };
        let ghost gi = i as int;
        if !matches!(self.tasks[i].status, TaskStatus::Failed) {
            return Ok(false);
        }
        if !(self.tasks[i].retry_count < max_retries) {
            return Ok(false);
        }
        let agent = self.tasks[i].agent_id.clone();
        let mut updated = self.tasks[i].duplicate();
        updated.status = TaskStatus::Pending;
        updated.retry_count = updated.retry_count + 1;
        let ghost before = self.tasks@;
        self.tasks.set(i, updated);
        proof {
            lemma_task_find_hit(before, task_id@, 0, gi);
            assert forall|p: int, q: int|
                0 <= p < q < self.tasks@.len() implies self.tasks@[p].id@
                != self.tasks@[q].id@ by {
                if p != gi && q != gi {
                    assert(self.tasks@[p] == before[p]);
                    assert(self.tasks@[q] == before[q]);
                } else if p == gi {
                    assert(self.tasks@[q] == before[q]);
                } else {
                    assert(self.tasks@[p] == before[p]);
                }
            }
        }
        self.log_activity(Some(agent.as_str()), Some(task_id), "task_retry", None, now);
        Ok(true)
    }
}

/// Filtering one more element grows the count by one exactly when the
/// element passes.
proof fn lemma_filter_push_len<A>(pre: Seq<A>, post: Seq<A>, pred: spec_fn(A) -> bool)
    requires
        post.len() == pre.len() + 1,
        post.drop_last() == pre,
    ensures
        post.filter(pred).len() == pre.filter(pred).len() + (if pred(post.last()) {
            1int
        } else {
            0int
        }),
{
    reveal(Seq::filter);
}

/// A successful scan lands on the trigger carrying the id.
pub proof fn lemma_trig_find_hit(s: Seq<Trigger>, id: Seq<char>, from: int, i: int)
    requires
        trig_find(s, id, from) == Some(i),
        0 <= from,
    ensures
        from <= i < s.len(),
        s[i].id@ == id,
    decreases s.len() - from,
{
    if !(from < s.len()) {
    } else if s[from].id@ == id {
    } else {
        lemma_trig_find_hit(s, id, from + 1, i);
    }
}

/// When a scan found no trigger with the id, no stored trigger carries it.
proof fn lemma_trig_find_absent_from(s: Seq<Trigger>, id: Seq<char>, i: int)
    requires
        trig_find(s, id, i) is None,
        0 <= i <= s.len(),
    ensures
        forall|j: int| i <= j < s.len() ==> (#[trigger] s[j]).id@ != id,
    decreases s.len() - i,
{
    if i < s.len() {
        lemma_trig_find_absent_from(s, id, i + 1);
    }
}

/// A successful scan lands on the approval carrying the id.
pub proof fn lemma_appr_find_hit(s: Seq<ApprovalRequest>, id: Seq<char>, from: int, i: int)
    requires
        appr_find(s, id, from) == Some(i),
        0 <= from,
    ensures
        from <= i < s.len(),
        s[i].id@ == id,
    decreases s.len() - from,
{
    if !(from < s.len()) {
    } else if s[from].id@ == id {
    } else {
        lemma_appr_find_hit(s, id, from + 1, i);
    }
}

/// When a scan found no approval with the id, no stored approval carries
/// it.
proof fn lemma_appr_find_absent_from(s: Seq<ApprovalRequest>, id: Seq<char>, i: int)
    requires
        appr_find(s, id, i) is None,
        0 <= i <= s.len(),
    ensures
        forall|j: int| i <= j < s.len() ==> (#[trigger] s[j]).id@ != id,
    decreases s.len() - i,
{
    if i < s.len() {
        lemma_appr_find_absent_from(s, id, i + 1);
    }
}

/// A successful scan lands on the schedule carrying the id.
pub proof fn lemma_sched_find_hit(s: Seq<Schedule>, id: Seq<char>, from: int, i: int)
    requires
        crate::scheduler::sched_find(s, id, from) == Some(i),
        0 <= from,
    ensures
        from <= i < s.len(),
        s[i].id@ == id,
    decreases s.len() - from,
{
    if !(from < s.len()) {
    } else if s[from].id@ == id {
    } else {
        lemma_sched_find_hit(s, id, from + 1, i);
    }
}

/// When a scan found no schedule with the id, no stored schedule carries
/// it.
proof fn lemma_sched_find_absent_from(s: Seq<Schedule>, id: Seq<char>, i: int)
    requires
        crate::scheduler::sched_find(s, id, i) is None,
        0 <= i <= s.len(),
    ensures
        forall|j: int| i <= j < s.len() ==> (#[trigger] s[j]).id@ != id,
    decreases s.len() - i,
{
    if i < s.len() {
        lemma_sched_find_absent_from(s, id, i + 1);
    }
}

/// Executable equality of two statuses.
pub fn same_status(a: &TaskStatus, b: &TaskStatus) -> (r: bool)
    ensures
        r == (a == b),
{
    matches!((a, b),
        (TaskStatus::Pending, TaskStatus::Pending)
        | (TaskStatus::Scheduled, TaskStatus::Scheduled)
        | (TaskStatus::Running, TaskStatus::Running)
        | (TaskStatus::Completed, TaskStatus::Completed)
        | (TaskStatus::Failed, TaskStatus::Failed)
        | (TaskStatus::Cancelled, TaskStatus::Cancelled))
}

/// A successful scan lands on the task carrying the id.
pub proof fn lemma_task_find_hit(s: Seq<Task>, id: Seq<char>, from: int, i: int)
    requires
        task_find(s, id, from) == Some(i),
        0 <= from,
    ensures
        from <= i < s.len(),
        s[i].id@ == id,
    decreases s.len() - from,
{
    if !(from < s.len()) {
    } else if s[from].id@ == id {
    } else {
        lemma_task_find_hit(s, id, from + 1, i);
    }
}

/// When a scan found no task with the id, no stored task carries it.
proof fn lemma_task_find_absent(s: Seq<Task>, id: Seq<char>)
    requires
        task_find(s, id, 0) is None,
    ensures
        forall|j: int| 0 <= j < s.len() ==> (#[trigger] s[j]).id@ != id,
{
    lemma_task_find_absent_from(s, id, 0);
}

proof fn lemma_task_find_absent_from(s: Seq<Task>, id: Seq<char>, i: int)
    requires
        task_find(s, id, i) is None,
        0 <= i <= s.len(),
    ensures
        forall|j: int| i <= j < s.len() ==> (#[trigger] s[j]).id@ != id,
    decreases s.len() - i,
{
    if i < s.len() {
        lemma_task_find_absent_from(s, id, i + 1);
    }
}

/// When a scan found no agent with the id, no stored agent carries it.
proof fn lemma_agent_find_absent(s: Seq<AgentConfig>, id: Seq<char>)
    requires
        agent_find(s, id, 0) is None,
    ensures
        forall|j: int|
            0 <= j < s.len() ==> !((#[trigger] s[j]).id matches Some(x) && x@ == id),
{
    lemma_agent_find_absent_from(s, id, 0);
}

/// A successful scan lands on an agent carrying the id.
pub proof fn lemma_agent_find_hit(s: Seq<AgentConfig>, id: Seq<char>, from: int, i: int)
    requires
        agent_find(s, id, from) == Some(i),
        0 <= from,
    ensures
        from <= i < s.len(),
        s[i].id is Some,
        s[i].id->Some_0@ == id,
    decreases s.len() - from,
{
    if !(from < s.len()) {
    } else if s[from].id matches Some(x) && x@ == id {
    } else {
        lemma_agent_find_hit(s, id, from + 1, i);
    }
}

proof fn lemma_agent_find_absent_from(s: Seq<AgentConfig>, id: Seq<char>, i: int)
    requires
        agent_find(s, id, i) is None,
        0 <= i <= s.len(),
    ensures
        forall|j: int|
            i <= j < s.len() ==> !((#[trigger] s[j]).id matches Some(x) && x@ == id),
    decreases s.len() - i,
{
    if i < s.len() {
        lemma_agent_find_absent_from(s, id, i + 1);
    }
}

} // verus!
