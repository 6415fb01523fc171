use agentforge::database::{AgentConfig, Database, StoreError};
use agentforge::manager::{check_timeout, retry_task};
use agentforge::payload::Payload;
use agentforge::tasks::{TaskExecutionConfig, TaskStatus};

fn seeded() -> (Database, String) {
    let mut db = Database::new();
    let agent_id = db
        .save_agent(
            &AgentConfig {
                id: None,
                name: "worker".to_string(),
                goal: "do tasks".to_string(),
                personality: "quiet".to_string(),
                provider: "acme".to_string(),
                model: "m1".to_string(),
                temperature_milli: 500,
                tools: vec![],
                autonomy_level: 4,
                updated_at: 0,
            },
            1,
        )
        .unwrap();
    (db, agent_id)
}

#[test]
fn tasks_get_fresh_36_character_ids() {
    let (mut db, agent_id) = seeded();
    let a = db.create_task(&agent_id, "check", Payload::new(), None, 2).unwrap();
    let b = db.create_task(&agent_id, "check", Payload::new(), None, 3).unwrap();
    assert_eq!(a.id.len(), 36);
    assert_eq!(b.id.len(), 36);
    assert_ne!(a.id, b.id);
}

#[test]
fn scheduled_at_decides_the_initial_status() {
    let (mut db, agent_id) = seeded();
    let now = db.create_task(&agent_id, "check", Payload::new(), None, 2).unwrap();
    let later = db.create_task(&agent_id, "check", Payload::new(), Some(99), 2).unwrap();
    assert_eq!(now.status, TaskStatus::Pending);
    assert_eq!(later.status, TaskStatus::Scheduled);
}

#[test]
fn normal_lifecycle_stamps_timestamps() {
    let (mut db, agent_id) = seeded();
    let t = db.create_task(&agent_id, "check", Payload::new(), None, 2).unwrap();
    db.update_task_status(&t.id, TaskStatus::Running, None, None, 5).unwrap();
    let running = db.get_task(&t.id).unwrap();
    assert_eq!(running.status, TaskStatus::Running);
    assert_eq!(running.started_at, Some(5));
    assert_eq!(running.completed_at, None);
    db.update_task_status(&t.id, TaskStatus::Completed, Some("42".to_string()), None, 9)
        .unwrap();
    let done = db.get_task(&t.id).unwrap();
    assert_eq!(done.status, TaskStatus::Completed);
    assert_eq!(done.completed_at, Some(9));
    assert_eq!(done.result, Some("42".to_string()));
}

#[test]
fn terminal_states_are_sinks() {
    let (mut db, agent_id) = seeded();
    let t = db.create_task(&agent_id, "check", Payload::new(), None, 2).unwrap();
    db.update_task_status(&t.id, TaskStatus::Running, None, None, 3).unwrap();
    db.update_task_status(&t.id, TaskStatus::Completed, None, None, 4).unwrap();
    for to in [TaskStatus::Running, TaskStatus::Pending, TaskStatus::Failed, TaskStatus::Cancelled]
    {
        let r = db.update_task_status(&t.id, to, None, None, 5);
        assert_eq!(r, Err(StoreError::InvalidTransition));
    }
    assert_eq!(db.get_task(&t.id).unwrap().status, TaskStatus::Completed);
}

#[test]
fn redelivering_the_same_terminal_status_is_a_noop() {
    let (mut db, agent_id) = seeded();
    let t = db.create_task(&agent_id, "check", Payload::new(), None, 2).unwrap();
    db.update_task_status(&t.id, TaskStatus::Running, None, None, 3).unwrap();
    db.update_task_status(&t.id, TaskStatus::Failed, None, Some("boom".to_string()), 4).unwrap();
    let log_before = db.get_activity_log(None, 1000).len();
    let again = db.update_task_status(&t.id, TaskStatus::Failed, None, None, 5);
    assert_eq!(again, Ok(()));
    let after = db.get_task(&t.id).unwrap();
    assert_eq!(after.completed_at, Some(4));
    assert_eq!(after.error, Some("boom".to_string()));
    assert_eq!(db.get_activity_log(None, 1000).len(), log_before);
}

#[test]
fn a_task_cannot_start_running_twice() {
    let (mut db, agent_id) = seeded();
    let t = db.create_task(&agent_id, "check", Payload::new(), None, 2).unwrap();
    db.update_task_status(&t.id, TaskStatus::Running, None, None, 3).unwrap();
    let r = db.update_task_status(&t.id, TaskStatus::Running, None, None, 4);
    assert_eq!(r, Err(StoreError::InvalidTransition));
}

#[test]
fn retry_count_never_exceeds_max_retries() {
    let (mut db, agent_id) = seeded();
    let config = TaskExecutionConfig::default();
    let t = db.create_task(&agent_id, "check", Payload::new(), None, 2).unwrap();
    for round in 0..config.max_retries {
        db.update_task_status(&t.id, TaskStatus::Running, None, None, 3).unwrap();
        db.update_task_status(&t.id, TaskStatus::Failed, None, Some("x".to_string()), 4).unwrap();
        let retried = retry_task(&mut db, &t.id, &config, 5).unwrap();
        assert!(retried, "retry {} within the bound must fire", round);
        assert_eq!(db.get_task(&t.id).unwrap().status, TaskStatus::Pending);
    }
    db.update_task_status(&t.id, TaskStatus::Running, None, None, 6).unwrap();
    db.update_task_status(&t.id, TaskStatus::Failed, None, Some("x".to_string()), 7).unwrap();
    let retried = retry_task(&mut db, &t.id, &config, 8).unwrap();
    assert!(!retried, "retries are exhausted at the bound");
    let after = db.get_task(&t.id).unwrap();
    assert_eq!(after.status, TaskStatus::Failed);
    assert_eq!(after.retry_count, config.max_retries);
}

#[test]
fn timeout_forces_a_running_task_to_failed() {
    let (mut db, agent_id) = seeded();
    let config = TaskExecutionConfig::default();
    let t = db.create_task(&agent_id, "check", Payload::new(), None, 1000).unwrap();
    db.update_task_status(&t.id, TaskStatus::Running, None, None, 2000).unwrap();
    assert_eq!(check_timeout(&mut db, &t.id, &config, 2000 + config.timeout_ms - 1), Ok(false));
    assert_eq!(db.get_task(&t.id).unwrap().status, TaskStatus::Running);
    assert_eq!(check_timeout(&mut db, &t.id, &config, 2000 + config.timeout_ms), Ok(true));
    let after = db.get_task(&t.id).unwrap();
    assert_eq!(after.status, TaskStatus::Failed);
    assert_eq!(after.error, Some("task timed out".to_string()));
}

#[test]
fn default_execution_config() {
    let config = TaskExecutionConfig::default();
    assert_eq!(config.max_retries, 3);
    assert_eq!(config.retry_delay_ms, 1000);
    assert_eq!(config.timeout_ms, 60000);
    assert!(!config.dry_run);
}

#[test]
fn get_tasks_is_newest_first_and_capped() {
    let (mut db, agent_id) = seeded();
    for i in 0..105u64 {
        db.create_task(&agent_id, &format!("job-{}", i), Payload::new(), None, i).unwrap();
    }
    let listed = db.get_tasks(None, None);
    assert_eq!(listed.len(), 100);
    assert_eq!(listed[0].task_type, "job-104");
    assert_eq!(listed[99].task_type, "job-5");
}

#[test]
fn get_tasks_filters_by_agent_and_status() {
    let (mut db, agent_id) = seeded();
    let other = db
        .save_agent(
            &AgentConfig {
                id: None,
                name: "second".to_string(),
                goal: "g".to_string(),
                personality: "p".to_string(),
                provider: "openai".to_string(),
                model: "m".to_string(),
                temperature_milli: 0,
                tools: vec![],
                autonomy_level: 4,
                updated_at: 0,
            },
            1,
        )
        .unwrap();
    let a = db.create_task(&agent_id, "one", Payload::new(), None, 2).unwrap();
    db.create_task(&other, "two", Payload::new(), None, 3).unwrap();
    db.update_task_status(&a.id, TaskStatus::Running, None, None, 4).unwrap();
    assert_eq!(db.get_tasks(Some(&agent_id), None).len(), 1);
    assert_eq!(db.get_tasks(None, Some(TaskStatus::Running)).len(), 1);
    assert_eq!(db.get_tasks(Some(&other), Some(TaskStatus::Running)).len(), 0);
    assert_eq!(db.get_tasks(None, None).len(), 2);
}

#[test]
fn task_stats_count_by_status() {
    let (mut db, agent_id) = seeded();
    let a = db.create_task(&agent_id, "one", Payload::new(), None, 2).unwrap();
    let b = db.create_task(&agent_id, "two", Payload::new(), None, 3).unwrap();
    db.create_task(&agent_id, "three", Payload::new(), Some(99), 4).unwrap();
    db.update_task_status(&a.id, TaskStatus::Running, None, None, 5).unwrap();
    db.update_task_status(&a.id, TaskStatus::Completed, None, None, 6).unwrap();
    db.update_task_status(&b.id, TaskStatus::Running, None, None, 7).unwrap();
    let stats = db.get_task_stats(None);
    assert_eq!(stats.completed, 1);
    assert_eq!(stats.running, 1);
    assert_eq!(stats.scheduled, 1);
    assert_eq!(stats.pending, 0);
    assert_eq!(stats.total, 3);
}
