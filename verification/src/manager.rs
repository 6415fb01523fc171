//! The task lifecycle manager.
//!
//! The point where schedules, triggers and manual requests converge: it
//! creates tasks, runs them through the risk and approval gate, applies
//! the retry and timeout policies, and hands dispatchable work to the
//! external Executor as a [`DispatchRequest`].  Dispatch itself, and the
//! Executor's status callback, happen outside; the callback lands in
//! [`Database::update_task_status`], which is idempotent for repeated
//! terminal deliveries.

use vstd::prelude::*;

verus! {

use crate::database::{agent_find, appr_find, task_find, Database, StoreError};
use crate::payload::Payload;
use crate::tasks::{action_risk, approval_required, ApprovalStatus, Task, TaskStatus};
use crate::timepoint::Instant;
use vstd::string::StringExecFns;

/// What the manager hands the Executor: the dispatch request of the
/// Executor contract.
#[derive(Debug, Clone)]
pub struct DispatchRequest {
    pub task_id: String,
    pub task_type: String,
    pub input: Payload,
}

/// The approval decision on a requested action.
#[derive(Debug, Clone)]
pub enum ActionDecision {
    /// No approval needed: the task may go to the Executor now.
    Dispatch(DispatchRequest),
    /// Approval needed: the task is held behind this pending request.
    Held(crate::tasks::ApprovalRequest),
}

/// Creates a task for a requested action and gates it: the action's risk
/// level is looked up in the risk table, the agent's autonomy level is
/// consulted, and the task is either released for dispatch or held behind
/// a freshly opened pending approval request.
pub fn request_action(
    db: &mut Database,
    agent_id: &str,
    action_type: &str,
    input: Payload,
    now: u64,
) -> (r: Result<ActionDecision, StoreError>)
    requires
        old(db).wf(),
        input.wf(),
    ensures
        final(db).wf(),
        agent_find(old(db).agents@, agent_id@, 0) is None <==> r == Err::<
            ActionDecision,
            StoreError,
        >(StoreError::UnknownAgent),
        match r {
            Ok(decision) => ({
                let i = agent_find(old(db).agents@, agent_id@, 0)->Some_0;
                let autonomy = old(db).agents@[i].autonomy_level;
                let gated = approval_required(action_risk(action_type@), autonomy);
                &&& final(db).agents@ == old(db).agents@
                &&& final(db).schedules@ == old(db).schedules@
                &&& final(db).triggers@ == old(db).triggers@
                &&& final(db).tasks@.len() == old(db).tasks@.len() + 1
                &&& final(db).tasks@.subrange(0, old(db).tasks@.len() as int) == old(
                    db,
                ).tasks@
                &&& ({
                    let t = final(db).tasks@.last();
                    &&& t.agent_id@ == agent_id@
                    &&& t.task_type@ == action_type@
                    &&& t.input.fields@ == input.fields@
                    &&& t.status == TaskStatus::Pending
                })
                &&& match decision {
                    ActionDecision::Dispatch(req) => {
                        &&& !gated
                        &&& final(db).approvals@ == old(db).approvals@
                        &&& req.task_id@ == final(db).tasks@.last().id@
                        &&& req.task_type@ == action_type@
                        &&& req.input.fields@ == input.fields@
                    },
                    ActionDecision::Held(a) => {
                        &&& gated
                        &&& final(db).approvals@.len() == old(db).approvals@.len() + 1
                        &&& final(db).approvals@.subrange(
                            0,
                            old(db).approvals@.len() as int,
                        ) == old(db).approvals@
                        &&& crate::tasks::appr_eq_view(a, final(db).approvals@.last())
                        &&& a.status == ApprovalStatus::Pending
                        &&& a.risk_level == action_risk(action_type@)
                        &&& a.agent_id@ == agent_id@
                        &&& crate::strutil::opt_view(a.task_id) == Some(
                            final(db).tasks@.last().id@,
                        )
                    },
                }
            }),
            Err(e) => {
                &&& (e == StoreError::UnknownAgent || e == StoreError::Conflict)
                &&& final(db).agents@ == old(db).agents@
                &&& final(db).schedules@ == old(db).schedules@
                &&& final(db).triggers@ == old(db).triggers@
                &&& final(db).approvals@ == old(db).approvals@
                &&& (final(db).tasks@ == old(db).tasks@ || (final(db).tasks@.len() == old(
                    db,
                ).tasks@.len() + 1 && final(db).tasks@.subrange(
                    0,
                    old(db).tasks@.len() as int,
                ) == old(db).tasks@))
                &&& (e == StoreError::UnknownAgent ==> final(db).tasks@ == old(db).tasks@
                    && final(db).activity_log@ == old(db).activity_log@)
            },
        },
{
    let autonomy_level: u8 = match db.get_agent(agent_id) {
        Some(agent) => agent.autonomy_level,
        None => {
            return Err(StoreError::UnknownAgent);
        },
    };
    let risk = crate::tasks::RiskLevel::from_action(action_type);
    let details = input.duplicate();
    let task = match db.create_task(agent_id, action_type, input, None, now) {
        Ok(t) => t,
        Err(e) => {
            return Err(e);
        },
    };
    if risk.requires_approval(autonomy_level) {
        match db.create_approval(
            agent_id,
            Some(task.id.as_str()),
            action_type,
            details,
            risk,
            now,
        ) {
            Ok(a) => Ok(ActionDecision::Held(a)),
            Err(e) => Err(e),
        }
    } else {
        Ok(
            ActionDecision::Dispatch(
                DispatchRequest {
                    task_id: task.id,
                    task_type: task.task_type,
                    input: task.input,
                },
            ),
        )
    }
}

/// Resolves a pending approval request, one way.  Approval releases the
/// held task for dispatch, with the modified input substituted for the
/// original when one was supplied; rejection cancels the task.  A request
/// already decided is refused.
pub fn resolve_approval(
    db: &mut Database,
    approval_id: &str,
    approved: bool,
    modified_input: Option<Payload>,
    now: u64,
) -> (r: Result<Option<DispatchRequest>, StoreError>)
    requires
        old(db).wf(),
        modified_input matches Some(p) ==> p.wf(),
    ensures
        final(db).wf(),
        appr_find(old(db).approvals@, approval_id@, 0) is None <==> r == Err::<
            Option<DispatchRequest>,
            StoreError,
        >(StoreError::NotFound),
        match r {
            Ok(dispatch) => ({
                let i = appr_find(old(db).approvals@, approval_id@, 0)->Some_0;
                let a = old(db).approvals@[i];
                &&& a.status == ApprovalStatus::Pending
                &&& final(db).approvals@[i].status == (if approved {
                    ApprovalStatus::Approved
                } else {
                    ApprovalStatus::Rejected
                })
                &&& final(db).approvals@[i].decided_at == Some(now)
                &&& (approved && (a.task_id matches Some(tid) && task_find(
                    old(db).tasks@,
                    tid@,
                    0,
                ) is Some) ==> ({
                    let t = old(db).tasks@[task_find(
                        old(db).tasks@,
                        a.task_id->Some_0@,
                        0,
                    )->Some_0];
                    &&& dispatch matches Some(req)
                    &&& dispatch->Some_0.task_id@ == a.task_id->Some_0@
                    &&& dispatch->Some_0.task_type@ == t.task_type@
                    &&& dispatch->Some_0.input.fields@ == (match modified_input {
                        Some(p) => p.fields@,
                        None => t.input.fields@,
                    })
                }))
                &&& (dispatch matches Some(req) ==> approved)
                &&& (!approved && a.task_id is Some ==> (match task_find(
                    old(db).tasks@,
                    a.task_id->Some_0@,
                    0,
                ) {
                    Some(ti) => old(db).tasks@[ti].status.can_transition(TaskStatus::Cancelled)
                        ==> final(db).tasks@[ti].status == TaskStatus::Cancelled,
                    None => true,
                }))
            }),
            Err(e) => {
                &&& (e == StoreError::NotFound || e == StoreError::AlreadyDecided)
                &&& final(db).same_but_log(*old(db))
                &&& (e == StoreError::AlreadyDecided ==> ({
                    let i = appr_find(old(db).approvals@, approval_id@, 0)->Some_0;
                    old(db).approvals@[i].status != ApprovalStatus::Pending
                }))
            },
        },
{
    let approval = match db.get_approval(approval_id) {
        Some(a) => a,
        None => {
            return Err(StoreError::NotFound);
        },
    };
    proof {
        crate::database::lemma_appr_find_hit(
            db.approvals@,
            approval_id@,
            0,
            appr_find(db.approvals@, approval_id@, 0)->Some_0,
        );
    }
    let substituted: Option<Payload> = match &modified_input {
        Some(p) => Some(p.duplicate()),
        None => None,
    };
    match db.process_approval(approval_id, approved, modified_input, now) {
        Ok(_) => {},
        Err(e) => {
            return Err(e);
        },
    }
    let task_id = match &approval.task_id {
        Some(tid) => tid.clone(),
        None => {
            return Ok(None);
        },
    };
    if approved {
        match db.get_task(task_id.as_str()) {
            Some(task) => {
                proof {
                    crate::database::lemma_task_find_hit(
                        db.tasks@,
                        task_id@,
                        0,
                        task_find(db.tasks@, task_id@, 0)->Some_0,
                    );
                }
                let input = match substituted {
                    Some(p) => p,
                    None => task.input,
                };
                Ok(
                    Some(
                        DispatchRequest {
                            task_id: task.id,
                            task_type: task.task_type,
                            input,
                        },
                    ),
                )
            },
            None => Ok(None),
        }
    } else {
        match db.get_task(task_id.as_str()) {
            Some(task) => {
                proof {
                    crate::database::lemma_task_find_hit(
                        db.tasks@,
                        task_id@,
                        0,
                        task_find(db.tasks@, task_id@, 0)->Some_0,
                    );
                }
                if task.status.transition_allowed(&TaskStatus::Cancelled) {
                    let _ = db.update_task_status(
                        task_id.as_str(),
                        TaskStatus::Cancelled,
                        None,
                        None,
                        now,
                    );
                }
            },
            None => {},
        }
        Ok(None)
    }
}

/// Applies the retry policy: a failed task below the configured bound
/// re-enters `Pending` with its count bumped; the count never exceeds the
/// bound.  The caller waits `retry_delay_ms` before re-dispatching.
pub fn retry_task(
    db: &mut Database,
    task_id: &str,
    config: &crate::tasks::TaskExecutionConfig,
    now: u64,
) -> (r: Result<bool, StoreError>)
    requires
        old(db).wf(),
    ensures
        final(db).wf(),
        task_find(old(db).tasks@, task_id@, 0) is None <==> r == Err::<bool, StoreError>(
            StoreError::NotFound,
        ),
        match r {
            Ok(retried) => ({
                let i = task_find(old(db).tasks@, task_id@, 0)->Some_0;
                let t = old(db).tasks@[i];
                &&& retried == (t.status == TaskStatus::Failed && t.retry_count
                    < config.max_retries)
                &&& (retried ==> final(db).tasks@[i].status == TaskStatus::Pending
                    && final(db).tasks@[i].retry_count == t.retry_count + 1
                    && final(db).tasks@[i].retry_count <= config.max_retries)
                &&& (!retried ==> final(db).same_but_log(*old(db)))
            }),
            Err(e) => e == StoreError::NotFound && final(db).same_but_log(*old(db))
                && final(db).activity_log@ == old(db).activity_log@,
        },
{
    db.retry_task(task_id, config.max_retries, now)
}

/// Applies the timeout policy: a task still `Running` once
/// `timeout_ms` has elapsed since it started is forced to `Failed` with a
/// timeout error.  Reports whether it fired.
pub fn check_timeout(
    db: &mut Database,
    task_id: &str,
    config: &crate::tasks::TaskExecutionConfig,
    now: u64,
) -> (r: Result<bool, StoreError>)
    requires
        old(db).wf(),
    ensures
        final(db).wf(),
        task_find(old(db).tasks@, task_id@, 0) is None <==> r == Err::<bool, StoreError>(
            StoreError::NotFound,
        ),
        match r {
            Ok(fired) => ({
                let i = task_find(old(db).tasks@, task_id@, 0)->Some_0;
                let t = old(db).tasks@[i];
                &&& fired == (t.status == TaskStatus::Running && (t.started_at matches Some(s)
                    && now >= s && now - s >= config.timeout_ms))
                &&& (fired ==> final(db).tasks@[i].status == TaskStatus::Failed
                    && crate::strutil::opt_view(final(db).tasks@[i].error)
                        == Some("task timed out"@))
                &&& (!fired ==> final(db).same_but_log(*old(db)) && final(db).activity_log@
                    == old(db).activity_log@)
            }),
            Err(e) => e == StoreError::NotFound && final(db).same_but_log(*old(db))
                && final(db).activity_log@ == old(db).activity_log@,
        },
{
    let task = match db.get_task(task_id) {
        Some(t) => t,
        None => {
            return Err(StoreError::NotFound);
        },
    };
    let timed_out = matches!(task.status, TaskStatus::Running) && match task.started_at {
        Some(s) => now >= s && now - s >= config.timeout_ms,
        None => false,
    };
    if !timed_out {
        return Ok(false);
    }
    proof {
        crate::database::lemma_task_find_hit(
            db.tasks@,
            task_id@,
            0,
            task_find(db.tasks@, task_id@, 0)->Some_0,
        );
    }
    let err = String::from_str("task timed out");
    match db.update_task_status(task_id, TaskStatus::Failed, None, Some(err), now) {
        Ok(_) => Ok(true),
        Err(e) => {
            proof {
                assert(false);
            }
            Err(e)
        },
    }
}

/// The schedule at position `i` has been advanced by a firing at `now`:
/// `last_run` is stamped, a one-shot is disabled, a recurring schedule
/// keeps its expression and stays enabled; nothing else about it and no
/// other schedule changes.
pub open spec fn advanced_schedule(
    before: Database,
    after: Database,
    i: int,
    now: Instant,
) -> bool {
    &&& after.schedules@.len() == before.schedules@.len()
    &&& forall|j: int|
        0 <= j < before.schedules@.len() && j != i ==> after.schedules@[j]
            == before.schedules@[j]
    &&& 0 <= i < before.schedules@.len()
    &&& ({
        let s = before.schedules@[i];
        let u = after.schedules@[i];
        &&& u.id@ == s.id@
        &&& u.agent_id@ == s.agent_id@
        &&& u.last_run == Some(now)
        &&& (s.is_one_shot() ==> !u.enabled && u.next_run is None)
        &&& (s.is_recurring() ==> u.cron_expr == s.cron_expr && u.enabled == s.enabled)
        &&& u.run_at == s.run_at
        &&& u.task_type@ == s.task_type@
        &&& u.task_input.fields@ == s.task_input.fields@
    })
}

/// Fires one due schedule: persists the advanced schedule (`last_run`
/// stamped, a one-shot disabled, `next_run` recomputed for a recurring
/// one) and materializes a task from the schedule's template.  A schedule
/// that is not due is left alone.
pub fn fire_schedule(
    db: &mut Database,
    schedule_id: &str,
    now: &Instant,
    now_tick: u64,
) -> (r: Result<Option<Task>, StoreError>)
    requires
        old(db).wf(),
        now.wf(),
    ensures
        final(db).wf(),
        crate::scheduler::sched_find(old(db).schedules@, schedule_id@, 0) is None <==> r
            == Err::<Option<Task>, StoreError>(StoreError::NotFound),
        r == Err::<Option<Task>, StoreError>(StoreError::UnknownAgent) <==> ({
            &&& crate::scheduler::sched_find(old(db).schedules@, schedule_id@, 0)
                matches Some(i)
            &&& old(db).schedules@[i].spec_is_due(*now)
            &&& agent_find(old(db).agents@, old(db).schedules@[i].agent_id@, 0) is None
        }),
        match r {
            Ok(fired) => ({
                let i = crate::scheduler::sched_find(old(db).schedules@, schedule_id@, 0)
                    ->Some_0;
                let s = old(db).schedules@[i];
                &&& (fired is None <==> !s.spec_is_due(*now))
                &&& match fired {
                    Some(t) => {
                        &&& final(db).agents@ == old(db).agents@
                        &&& final(db).triggers@ == old(db).triggers@
                        &&& final(db).approvals@ == old(db).approvals@
                        &&& advanced_schedule(*old(db), *final(db), i, *now)
                        &&& final(db).tasks@.len() == old(db).tasks@.len() + 1
                        &&& final(db).tasks@.subrange(0, old(db).tasks@.len() as int) == old(
                            db,
                        ).tasks@
                        &&& ({
                            let e = final(db).tasks@.last();
                            &&& crate::tasks::task_eq_view(t, e)
                            &&& e.agent_id@ == s.agent_id@
                            &&& e.task_type@ == s.task_type@
                            &&& e.input.fields@ == s.task_input.fields@
                            &&& e.status == TaskStatus::Pending
                        })
                    },
                    None => final(db).same_but_log(*old(db)) && final(db).activity_log@ == old(
                        db,
                    ).activity_log@,
                }
            }),
            Err(e) => {
                &&& (e == StoreError::NotFound || e == StoreError::UnknownAgent || e
                    == StoreError::Conflict)
                &&& final(db).agents@ == old(db).agents@
                &&& final(db).tasks@ == old(db).tasks@
                &&& final(db).triggers@ == old(db).triggers@
                &&& final(db).approvals@ == old(db).approvals@
                &&& final(db).activity_log@ == old(db).activity_log@
                &&& (e == StoreError::NotFound ==> final(db).schedules@ == old(db).schedules@)
                &&& (e != StoreError::NotFound ==> advanced_schedule(
                    *old(db),
                    *final(db),
                    crate::scheduler::sched_find(old(db).schedules@, schedule_id@, 0)->Some_0,
                    *now,
                ))
            },
        },
{
    let schedule = match db.get_schedule(schedule_id) {
        Some(s) => s,
        None => {
            return Err(StoreError::NotFound);
        },
    };
    proof {
        let gi = crate::scheduler::sched_find(db.schedules@, schedule_id@, 0)->Some_0;
        crate::database::lemma_sched_find_hit(db.schedules@, schedule_id@, 0, gi);
        assert(db.schedules@[gi].wf());
        assert(schedule.wf());
    }
    if !schedule.is_due(now) {
        return Ok(None);
    }
    let fired = schedule.fire(now);
    match db.replace_schedule(fired) {
        Ok(_) => {},
        Err(e) => {
            proof {
                assert(false);
            }
            return Err(e);
        },
    }
    match db.create_task(
        schedule.agent_id.as_str(),
        schedule.task_type.as_str(),
        schedule.task_input.duplicate(),
        None,
        now_tick,
    ) {
        Ok(t) => Ok(Some(t)),
        Err(e) => Err(e),
    }
}

/// The trigger at position `i` has been stamped by a match at `now_tick`:
/// `last_triggered` is set and everything else about it, and every other
/// trigger, is unchanged.
pub open spec fn stamped_trigger(
    before: Database,
    after: Database,
    i: int,
    now_tick: u64,
) -> bool {
    &&& after.triggers@.len() == before.triggers@.len()
    &&& forall|j: int|
        0 <= j < before.triggers@.len() && j != i ==> after.triggers@[j]
            == before.triggers@[j]
    &&& 0 <= i < before.triggers@.len()
    &&& ({
        let t = before.triggers@[i];
        let u = after.triggers@[i];
        &&& u.id@ == t.id@
        &&& u.agent_id@ == t.agent_id@
        &&& u.trigger_type == t.trigger_type
        &&& u.enabled == t.enabled
        &&& u.last_triggered == Some(now_tick)
        &&& u.task_type@ == t.task_type@
        &&& u.task_input.fields@ == t.task_input.fields@
    })
}

/// Feeds one event to one trigger: on a match (enabled, right type,
/// authenticated, all conditions hold) the trigger's `last_triggered` is
/// stamped and a task is materialized from the template merged with the
/// event data, event fields taking precedence.  A failed match, including
/// failed webhook authentication, changes nothing.
pub fn handle_trigger_event(
    db: &mut Database,
    trigger_id: &str,
    event: &crate::triggers::TriggerEvent,
    secret: Option<&str>,
    now_tick: u64,
) -> (r: Result<Option<Task>, StoreError>)
    requires
        old(db).wf(),
        event.data.wf(),
    ensures
        final(db).wf(),
        crate::database::trig_find(old(db).triggers@, trigger_id@, 0) is None <==> r == Err::<
            Option<Task>,
            StoreError,
        >(StoreError::NotFound),
        r == Err::<Option<Task>, StoreError>(StoreError::UnknownAgent) <==> ({
            &&& crate::database::trig_find(old(db).triggers@, trigger_id@, 0) matches Some(i)
            &&& old(db).triggers@[i].spec_matches_event(
                *event,
                crate::database::opt_arg_view(secret),
            )
            &&& agent_find(old(db).agents@, old(db).triggers@[i].agent_id@, 0) is None
        }),
        match r {
            Ok(created) => ({
                let i = crate::database::trig_find(old(db).triggers@, trigger_id@, 0)->Some_0;
                let t = old(db).triggers@[i];
                &&& (created is None <==> !t.spec_matches_event(
                    *event,
                    crate::database::opt_arg_view(secret),
                ))
                &&& match created {
                    Some(task) => {
                        &&& final(db).agents@ == old(db).agents@
                        &&& final(db).schedules@ == old(db).schedules@
                        &&& final(db).approvals@ == old(db).approvals@
                        &&& stamped_trigger(*old(db), *final(db), i, now_tick)
                        &&& final(db).tasks@.len() == old(db).tasks@.len() + 1
                        &&& final(db).tasks@.subrange(0, old(db).tasks@.len() as int) == old(
                            db,
                        ).tasks@
                        &&& ({
                            let e = final(db).tasks@.last();
                            &&& crate::tasks::task_eq_view(task, e)
                            &&& e.agent_id@ == t.agent_id@
                            &&& e.task_type@ == t.task_type@
                            &&& e.status == TaskStatus::Pending
                            &&& forall|k: Seq<char>|
                                #[trigger] e.input.spec_get(k) == if event.data.spec_get(
                                    k,
                                ) is Some {
                                    event.data.spec_get(k)
                                } else {
                                    t.task_input.spec_get(k)
                                }
                        })
                    },
                    None => final(db).same_but_log(*old(db)) && final(db).activity_log@ == old(
                        db,
                    ).activity_log@,
                }
            }),
            Err(e) => {
                &&& (e == StoreError::NotFound || e == StoreError::UnknownAgent || e
                    == StoreError::Conflict)
                &&& final(db).agents@ == old(db).agents@
                &&& final(db).tasks@ == old(db).tasks@
                &&& final(db).schedules@ == old(db).schedules@
                &&& final(db).approvals@ == old(db).approvals@
                &&& final(db).activity_log@ == old(db).activity_log@
                &&& (e == StoreError::NotFound ==> final(db).triggers@ == old(db).triggers@)
                &&& (e != StoreError::NotFound ==> stamped_trigger(
                    *old(db),
                    *final(db),
                    crate::database::trig_find(old(db).triggers@, trigger_id@, 0)->Some_0,
                    now_tick,
                ))
            },
        },
{
    let trigger = match db.get_trigger(trigger_id) {
        Some(t) => t,
        None => {
            return Err(StoreError::NotFound);
        },
    };
    let ghost sv = crate::database::opt_arg_view(secret);
    let ghost gi = crate::database::trig_find(db.triggers@, trigger_id@, 0)->Some_0;
    let ghost stored = db.triggers@[gi];
    proof {
        crate::database::lemma_trig_find_hit(db.triggers@, trigger_id@, 0, gi);
        assert(stored.wf());
        assert(trigger.wf());
    }
    let matched = trigger.matches_event(event, secret);
    proof {
        assert(trigger.spec_authenticated(sv) == stored.spec_authenticated(sv));
        assert(crate::triggers::conditions_hold(trigger.conditions@, event.data)
            == crate::triggers::conditions_hold(stored.conditions@, event.data)) by {
            if crate::triggers::conditions_hold(trigger.conditions@, event.data) {
                assert forall|ci: int| 0 <= ci < stored.conditions@.len() implies match event
                    .data.spec_get((#[trigger] stored.conditions@[ci]).field@) {
                    Some(v) => stored.conditions@[ci].spec_eval(v),
                    None => false,
                } by {
                    assert(crate::triggers::cond_eq_view(
                        trigger.conditions@[ci],
                        stored.conditions@[ci],
                    ));
                    assert(match event.data.spec_get(trigger.conditions@[ci].field@) {
                        Some(v) => trigger.conditions@[ci].spec_eval(v),
                        None => false,
                    });
                }
            }
            if crate::triggers::conditions_hold(stored.conditions@, event.data) {
                assert forall|ci: int| 0 <= ci < trigger.conditions@.len() implies match event
                    .data.spec_get((#[trigger] trigger.conditions@[ci]).field@) {
                    Some(v) => trigger.conditions@[ci].spec_eval(v),
                    None => false,
                } by {
                    assert(crate::triggers::cond_eq_view(
                        trigger.conditions@[ci],
                        stored.conditions@[ci],
                    ));
                    assert(match event.data.spec_get(stored.conditions@[ci].field@) {
                        Some(v) => stored.conditions@[ci].spec_eval(v),
                        None => false,
                    });
                }
            }
        }
        assert(matched == stored.spec_matches_event(*event, sv));
    }
    if !matched {
        return Ok(None);
    }
    let marked = trigger.mark_triggered(now_tick);
    match db.replace_trigger(marked) {
        Ok(_) => {},
        Err(e) => {
            proof {
                assert(false);
            }
            return Err(e);
        },
    }
    let input = trigger.merged_input(event);
    let ghost inp: Payload = input;
    match db.create_task(
        trigger.agent_id.as_str(),
        trigger.task_type.as_str(),
        input,
        None,
        now_tick,
    ) {
        Ok(t) => {
            proof {
                let gi = crate::database::trig_find(old(db).triggers@, trigger_id@, 0)
                    ->Some_0;
                let stored = old(db).triggers@[gi];
                let e = db.tasks@.last();
                assert forall|k: Seq<char>| #[trigger] e.input.spec_get(k) == (if event
                    .data.spec_get(k) is Some {
                    event.data.spec_get(k)
                } else {
                    stored.task_input.spec_get(k)
                }) by {
                    assert(inp.spec_get(k) == crate::payload::lookup(inp.fields@, k));
                    assert(e.input.spec_get(k) == crate::payload::lookup(
                        e.input.fields@,
                        k,
                    ));
                    assert(trigger.task_input.spec_get(k) == crate::payload::lookup(
                        trigger.task_input.fields@,
                        k,
                    ));
                    assert(stored.task_input.spec_get(k) == crate::payload::lookup(
                        stored.task_input.fields@,
                        k,
                    ));
                }
            }
            Ok(Some(t))
        },
        Err(e) => Err(e),
    }
}

} // verus!
