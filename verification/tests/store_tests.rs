use agentforge::credentials::get_tool_credential_type;
use agentforge::strutil::sanitize_agent_name;
use agentforge::database::{AgentConfig, Database, StoreError};
use agentforge::manager::fire_schedule;
use agentforge::payload::Payload;
use agentforge::timepoint::Instant;

fn agent_named(name: &str) -> AgentConfig {
    AgentConfig {
        id: None,
        name: name.to_string(),
        goal: "assist".to_string(),
        personality: "calm".to_string(),
        provider: "openai".to_string(),
        model: "m".to_string(),
        temperature_milli: 300,
        tools: vec!["web_search".to_string(), "calculator".to_string()],
        autonomy_level: 3,
        updated_at: 0,
    }
}

#[test]
fn save_get_update_delete_agent() {
    let mut db = Database::new();
    let id = db.save_agent(&agent_named("alpha"), 1).unwrap();
    assert_eq!(id.len(), 36);
    let stored = db.get_agent(&id).unwrap();
    assert_eq!(stored.name, "alpha");
    assert_eq!(stored.autonomy_level, 3);

    let mut changed = stored;
    changed.name = "beta".to_string();
    let same_id = db.save_agent(&changed, 2).unwrap();
    assert_eq!(same_id, id);
    assert_eq!(db.get_agents().len(), 1);
    assert_eq!(db.get_agent(&id).unwrap().name, "beta");

    db.delete_agent(&id, 3);
    assert!(db.get_agent(&id).is_none());
    assert!(db.get_agents().is_empty());
}

#[test]
fn every_write_appends_to_the_activity_log() {
    let mut db = Database::new();
    let id = db.save_agent(&agent_named("alpha"), 1).unwrap();
    let t = db.create_task(&id, "check", Payload::new(), None, 2).unwrap();
    db.update_task_status(&t.id, agentforge::TaskStatus::Running, None, None, 3).unwrap();
    let log = db.get_activity_log(None, 100);
    let actions: Vec<&str> = log.iter().map(|e| e.action.as_str()).collect();
    assert_eq!(actions, vec!["task_running", "task_created", "agent_saved"]);
    assert_eq!(log[0].timestamp, 3);
    assert_eq!(log[0].task_id.as_deref(), Some(t.id.as_str()));
}

#[test]
fn activity_log_respects_limit_and_agent_filter() {
    let mut db = Database::new();
    let a = db.save_agent(&agent_named("alpha"), 1).unwrap();
    let b = db.save_agent(&agent_named("bravo"), 2).unwrap();
    db.create_task(&a, "one", Payload::new(), None, 3).unwrap();
    db.create_task(&b, "two", Payload::new(), None, 4).unwrap();
    assert_eq!(db.get_activity_log(None, 2).len(), 2);
    let for_a = db.get_activity_log(Some(&a), 100);
    assert_eq!(for_a.len(), 2);
    assert!(for_a.iter().all(|e| e.agent_id.as_deref() == Some(a.as_str())));
}

#[test]
fn schedule_creation_validates_its_shape() {
    let mut db = Database::new();
    let id = db.save_agent(&agent_named("alpha"), 1).unwrap();
    let run_at = Instant::new(2026, 10, 12, 9, 0).unwrap();
    let neither = db.create_schedule(&id, "s", None, None, "check", Payload::new(), 2);
    assert!(matches!(neither, Err(StoreError::Validation)));
    let both = db.create_schedule(
        &id,
        "s",
        Some("0 9 * * *"),
        Some(&run_at),
        "check",
        Payload::new(),
        2,
    );
    assert!(matches!(both, Err(StoreError::Validation)));
    let bad_cron =
        db.create_schedule(&id, "s", Some("61 9 * * *"), None, "check", Payload::new(), 2);
    assert!(matches!(bad_cron, Err(StoreError::Validation)));
    let unknown = db.create_schedule(
        "missing-agent",
        "s",
        Some("0 9 * * *"),
        None,
        "check",
        Payload::new(),
        2,
    );
    assert!(matches!(unknown, Err(StoreError::UnknownAgent)));
    let good =
        db.create_schedule(&id, "s", Some("0 9 * * *"), None, "check", Payload::new(), 2).unwrap();
    assert!(good.enabled);
    assert!(good.last_run.is_none());
    assert_eq!(db.get_schedules(Some(&id)).len(), 1);
}

#[test]
fn schedule_toggle_and_delete() {
    let mut db = Database::new();
    let id = db.save_agent(&agent_named("alpha"), 1).unwrap();
    let s =
        db.create_schedule(&id, "s", Some("* * * * *"), None, "check", Payload::new(), 2).unwrap();
    db.toggle_schedule(&s.id, false);
    assert!(!db.get_schedule(&s.id).unwrap().enabled);
    db.toggle_schedule(&s.id, true);
    assert!(db.get_schedule(&s.id).unwrap().enabled);
    db.delete_schedule(&s.id, 3);
    assert!(db.get_schedule(&s.id).is_none());
    let actions: Vec<String> =
        db.get_activity_log(None, 10).iter().map(|e| e.action.clone()).collect();
    assert_eq!(actions[0], "schedule_deleted");
}

#[test]
fn firing_a_due_schedule_creates_a_task_once_per_minute() {
    let mut db = Database::new();
    let id = db.save_agent(&agent_named("alpha"), 1).unwrap();
    let mut input = Payload::new();
    input.set("report".to_string(), "daily".to_string());
    let s = db.create_schedule(&id, "digest", Some("0 9 * * *"), None, "digest", input, 2).unwrap();
    let now = Instant::new(2026, 10, 12, 9, 0).unwrap();

    let fired = fire_schedule(&mut db, &s.id, &now, 100).unwrap();
    let task = fired.expect("the schedule is due at 09:00");
    assert_eq!(task.task_type, "digest");
    assert_eq!(task.input.get("report").unwrap(), "daily");
    let stored = db.get_schedule(&s.id).unwrap();
    assert_eq!(stored.last_run, Some(now));
    let next = stored.next_run.unwrap();
    assert_eq!((next.year, next.month, next.day, next.hour), (2026, 10, 13, 9));

    // The same minute does not fire twice.
    let again = fire_schedule(&mut db, &s.id, &now, 101).unwrap();
    assert!(again.is_none());
    assert_eq!(db.get_tasks(None, None).len(), 1);
}

#[test]
fn firing_a_one_shot_schedule_disables_it() {
    let mut db = Database::new();
    let id = db.save_agent(&agent_named("alpha"), 1).unwrap();
    let run_at = Instant::new(2026, 10, 12, 9, 0).unwrap();
    let s = db.create_schedule(&id, "once", None, Some(&run_at), "boot", Payload::new(), 2)
        .unwrap();
    let later = Instant::new(2026, 10, 12, 9, 30).unwrap();
    let fired = fire_schedule(&mut db, &s.id, &later, 100).unwrap();
    assert!(fired.is_some());
    let stored = db.get_schedule(&s.id).unwrap();
    assert!(!stored.enabled);
    assert_eq!(stored.last_run, Some(later));
    let again = fire_schedule(&mut db, &s.id, &later, 101).unwrap();
    assert!(again.is_none());
}

#[test]
fn get_schedules_is_newest_first() {
    let mut db = Database::new();
    let id = db.save_agent(&agent_named("alpha"), 1).unwrap();
    db.create_schedule(&id, "first", Some("* * * * *"), None, "a", Payload::new(), 2).unwrap();
    db.create_schedule(&id, "second", Some("* * * * *"), None, "b", Payload::new(), 3).unwrap();
    let listed = db.get_schedules(None);
    assert_eq!(listed.len(), 2);
    assert_eq!(listed[0].name, "second");
    assert_eq!(listed[1].name, "first");
}

#[test]
fn tool_credential_requirements() {
    let anthropic = get_tool_credential_type("anthropic").unwrap();
    assert_eq!(anthropic.id, "anthropic");
    assert_eq!(anthropic.name, "Anthropic");
    assert_eq!(anthropic.required_fields, vec!["api_key".to_string()]);

    let gmail = get_tool_credential_type("gmail").unwrap();
    assert_eq!(gmail.name, "Gmail");
    assert_eq!(
        gmail.required_fields,
        vec![
            "client_id".to_string(),
            "client_secret".to_string(),
            "refresh_token".to_string()
        ]
    );

    for id in ["openai", "google", "groq", "xai", "tavily", "serpapi", "alpha_vantage", "newsapi"]
    {
        assert!(get_tool_credential_type(id).is_some(), "{} is a known tool", id);
    }
    assert!(get_tool_credential_type("abacus").is_none());
}

#[test]
fn payload_set_get_and_merge() {
    let mut p = Payload::new();
    assert!(p.get("k").is_none());
    p.set("k".to_string(), "v1".to_string());
    p.set("other".to_string(), "o".to_string());
    p.set("k".to_string(), "v2".to_string());
    assert_eq!(p.get("k").unwrap(), "v2");
    assert_eq!(p.get("other").unwrap(), "o");

    let mut event = Payload::new();
    event.set("k".to_string(), "event-wins".to_string());
    event.set("extra".to_string(), "e".to_string());
    let merged = Payload::merged(&p, &event);
    assert_eq!(merged.get("k").unwrap(), "event-wins");
    assert_eq!(merged.get("other").unwrap(), "o");
    assert_eq!(merged.get("extra").unwrap(), "e");
}

#[test]
fn builtin_templates_render_canonical_cron() {
    let t = agentforge::scheduler::get_schedule_templates();
    assert_eq!(t.len(), 5);
    assert_eq!(t[0].cron_expr, "0 9 * * *");
    assert_eq!(t[1].cron_expr, "0 9 * * 1");
    assert_eq!(t[2].cron_expr, "0 * * * *");
    assert_eq!(t[3].cron_expr, "0 17 * * 1-5");
    assert_eq!(t[4].cron_expr, "0 9 1 * *");
    assert_eq!(t[0].id, "daily-digest");
    assert_eq!(t[1].default_input.get("period").unwrap(), "weekly");
    assert_eq!(t[4].default_input.get("period").unwrap(), "monthly");
}

#[test]
fn saving_bumps_updated_at() {
    let mut db = Database::new();
    let id = db.save_agent(&agent_named("alpha"), 10).unwrap();
    assert_eq!(db.get_agent(&id).unwrap().updated_at, 10);
    let mut changed = db.get_agent(&id).unwrap();
    changed.goal = "assist faster".to_string();
    db.save_agent(&changed, 25).unwrap();
    assert_eq!(db.get_agent(&id).unwrap().updated_at, 25);
}

#[test]
fn deleting_an_agent_cascades_to_its_tasks_schedules_and_triggers() {
    let mut db = Database::new();
    let gone = db.save_agent(&agent_named("gone"), 1).unwrap();
    let kept = db.save_agent(&agent_named("kept"), 2).unwrap();
    db.create_task(&gone, "a", Payload::new(), None, 3).unwrap();
    let keeper_task = db.create_task(&kept, "b", Payload::new(), None, 4).unwrap();
    db.create_schedule(&gone, "s", Some("* * * * *"), None, "a", Payload::new(), 5).unwrap();
    let keeper_schedule =
        db.create_schedule(&kept, "s", Some("* * * * *"), None, "b", Payload::new(), 6).unwrap();
    db.create_trigger(
        &gone,
        "t",
        agentforge::triggers::TriggerType::Manual,
        agentforge::triggers::TriggerConfig::Manual,
        vec![],
        "a",
        Payload::new(),
        7,
    )
    .unwrap();

    db.delete_agent(&gone, 8);
    assert!(db.get_agent(&gone).is_none());
    let tasks = db.get_tasks(None, None);
    assert_eq!(tasks.len(), 1);
    assert_eq!(tasks[0].id, keeper_task.id);
    let schedules = db.get_schedules(None);
    assert_eq!(schedules.len(), 1);
    assert_eq!(schedules[0].id, keeper_schedule.id);
    assert!(db.get_triggers(None).is_empty());
    assert_eq!(db.get_agent(&kept).unwrap().name, "kept");
}

#[test]
fn status_change_log_entries_carry_the_agent() {
    let mut db = Database::new();
    let id = db.save_agent(&agent_named("alpha"), 1).unwrap();
    let t = db.create_task(&id, "check", Payload::new(), None, 2).unwrap();
    db.update_task_status(&t.id, agentforge::TaskStatus::Running, None, None, 3).unwrap();
    let log = db.get_activity_log(None, 1);
    assert_eq!(log[0].action, "task_running");
    assert_eq!(log[0].agent_id.as_deref(), Some(id.as_str()));
}

#[test]
fn sanitize_agent_name_maps_and_is_idempotent() {
    assert_eq!(sanitize_agent_name("Research Bot #7"), "Research-Bot--7");
    assert_eq!(sanitize_agent_name("plain-name_9"), "plain-name_9");
    assert_eq!(sanitize_agent_name(""), "");
    let once = sanitize_agent_name("a b/c");
    assert_eq!(sanitize_agent_name(&once), once);
    assert_eq!(sanitize_agent_name("ab").len(), 2);
}
