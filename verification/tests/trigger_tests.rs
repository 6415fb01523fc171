use agentforge::database::{AgentConfig, Database, StoreError};
use agentforge::manager::handle_trigger_event;
use agentforge::payload::Payload;
use agentforge::tasks::TaskStatus;
use agentforge::triggers::{
    FileSystemTriggerConfig, Trigger, TriggerCondition, TriggerConfig, TriggerEvent, TriggerType,
    WebhookTriggerConfig,
};

fn condition(field: &str, operator: &str, value: &str) -> TriggerCondition {
    TriggerCondition {
        field: field.to_string(),
        operator: operator.to_string(),
        value: value.to_string(),
    }
}

fn fs_config() -> TriggerConfig {
    TriggerConfig::FileSystem(FileSystemTriggerConfig {
        path: "/data".to_string(),
        patterns: vec!["*.csv".to_string()],
        events: vec!["create".to_string()],
        recursive: false,
    })
}

fn seeded_store() -> (Database, String) {
    let mut db = Database::new();
    let agent_id = db
        .save_agent(
            &AgentConfig {
                id: None,
                name: "watcher".to_string(),
                goal: "watch files".to_string(),
                personality: "alert".to_string(),
                provider: "openai".to_string(),
                model: "m".to_string(),
                temperature_milli: 0,
                tools: vec![],
                autonomy_level: 4,
                updated_at: 0,
            },
            1,
        )
        .unwrap();
    (db, agent_id)
}

#[test]
fn ends_with_csv_matches_and_rejects() {
    let cond = condition("path", "ends_with", ".csv");
    assert!(cond.evaluate("/data/report.csv"));
    assert!(!cond.evaluate("/data/report.txt"));
}

#[test]
fn condition_operators() {
    assert!(condition("f", "equals", "abc").evaluate("abc"));
    assert!(!condition("f", "equals", "abc").evaluate("abcd"));
    assert!(condition("f", "not_equals", "abc").evaluate("abd"));
    assert!(condition("f", "contains", "port").evaluate("report.csv"));
    assert!(!condition("f", "contains", "xyz").evaluate("report.csv"));
    assert!(condition("f", "not_contains", "xyz").evaluate("report.csv"));
    assert!(condition("f", "starts_with", "rep").evaluate("report.csv"));
    assert!(!condition("f", "starts_with", "port").evaluate("report.csv"));
    assert!(condition("f", "ends_with", "csv").evaluate("report.csv"));
}

#[test]
fn regex_operator_uses_real_patterns() {
    assert!(condition("f", "regex", "^rep.*\\.csv$").evaluate("report.csv"));
    assert!(!condition("f", "regex", "^rep.*\\.csv$").evaluate("export.csv"));
    assert!(condition("f", "regex", "[0-9]{4}").evaluate("year 2026 report"));
}

#[test]
fn invalid_regex_is_false_never_an_error() {
    assert!(!condition("f", "regex", "(unclosed").evaluate("anything"));
}

#[test]
fn unknown_operator_is_false_never_an_error() {
    assert!(!condition("f", "fuzzy", "abc").evaluate("abc"));
}

#[test]
fn filesystem_trigger_scenario() {
    let (mut db, agent_id) = seeded_store();
    let trigger = db
        .create_trigger(
            &agent_id,
            "csv watcher",
            TriggerType::FileSystem,
            fs_config(),
            vec![condition("path", "ends_with", ".csv")],
            "ingest",
            Payload::new(),
            2,
        )
        .unwrap();
    let hit = TriggerEvent::file_created(&trigger.id, "/data/report.csv", 3);
    let task = handle_trigger_event(&mut db, &trigger.id, &hit, None, 3).unwrap();
    let task = task.expect("a matching csv event materializes a task");
    assert_eq!(task.task_type, "ingest");
    assert_eq!(task.status, TaskStatus::Pending);
    assert_eq!(task.input.get("path").unwrap(), "/data/report.csv");
    assert_eq!(db.get_trigger(&trigger.id).unwrap().last_triggered, Some(3));

    let miss = TriggerEvent::file_created(&trigger.id, "/data/report.txt", 4);
    let none = handle_trigger_event(&mut db, &trigger.id, &miss, None, 4).unwrap();
    assert!(none.is_none());
    assert_eq!(db.get_trigger(&trigger.id).unwrap().last_triggered, Some(3));
}

#[test]
fn event_fields_take_precedence_over_the_template() {
    let (mut db, agent_id) = seeded_store();
    let mut template = Payload::new();
    template.set("path".to_string(), "template-path".to_string());
    template.set("mode".to_string(), "batch".to_string());
    let trigger = db
        .create_trigger(
            &agent_id,
            "merger",
            TriggerType::FileSystem,
            fs_config(),
            vec![],
            "ingest",
            template,
            2,
        )
        .unwrap();
    let event = TriggerEvent::file_modified(&trigger.id, "/data/new.csv", 3);
    let task = handle_trigger_event(&mut db, &trigger.id, &event, None, 3).unwrap().unwrap();
    assert_eq!(task.input.get("path").unwrap(), "/data/new.csv");
    assert_eq!(task.input.get("mode").unwrap(), "batch");
    assert_eq!(task.input.get("event").unwrap(), "modified");
}

#[test]
fn webhook_secret_authenticates_before_conditions() {
    let (mut db, agent_id) = seeded_store();
    let trigger = db
        .create_trigger(
            &agent_id,
            "hook",
            TriggerType::Webhook,
            TriggerConfig::Webhook(WebhookTriggerConfig {
                endpoint: "/hooks/in".to_string(),
                secret: Some("tulip42".to_string()),
                method: "POST".to_string(),
            }),
            vec![],
            "ingest",
            Payload::new(),
            2,
        )
        .unwrap();
    let event = TriggerEvent::webhook_received(&trigger.id, "POST", &Payload::new(), 3);
    let refused = handle_trigger_event(&mut db, &trigger.id, &event, Some("wrong"), 3).unwrap();
    assert!(refused.is_none());
    let refused = handle_trigger_event(&mut db, &trigger.id, &event, None, 3).unwrap();
    assert!(refused.is_none());
    assert_eq!(db.get_trigger(&trigger.id).unwrap().last_triggered, None);
    let accepted = handle_trigger_event(&mut db, &trigger.id, &event, Some("tulip42"), 4)
        .unwrap();
    assert!(accepted.is_some());
    assert_eq!(db.get_trigger(&trigger.id).unwrap().last_triggered, Some(4));
}

#[test]
fn disabled_triggers_do_not_match() {
    let trigger = Trigger {
        id: "t1".to_string(),
        agent_id: "a1".to_string(),
        name: "off".to_string(),
        trigger_type: TriggerType::FileSystem,
        config: fs_config(),
        conditions: vec![],
        task_type: "ingest".to_string(),
        task_input: Payload::new(),
        enabled: false,
        last_triggered: None,
        created_at: 0,
    };
    let event = TriggerEvent::file_created("t1", "/data/x.csv", 1);
    assert!(!trigger.matches_event(&event, None));
}

#[test]
fn event_type_must_match_the_trigger_type() {
    let trigger = Trigger {
        id: "t1".to_string(),
        agent_id: "a1".to_string(),
        name: "fs only".to_string(),
        trigger_type: TriggerType::FileSystem,
        config: fs_config(),
        conditions: vec![],
        task_type: "ingest".to_string(),
        task_input: Payload::new(),
        enabled: true,
        last_triggered: None,
        created_at: 0,
    };
    let mail = TriggerEvent::email_received("t1", "a@b.c", "hello", 1);
    assert!(!trigger.matches_event(&mail, None));
}

#[test]
fn a_condition_on_an_absent_field_is_false() {
    let cond = condition("missing", "equals", "x");
    let trigger = Trigger {
        id: "t1".to_string(),
        agent_id: "a1".to_string(),
        name: "strict".to_string(),
        trigger_type: TriggerType::FileSystem,
        config: fs_config(),
        conditions: vec![cond],
        task_type: "ingest".to_string(),
        task_input: Payload::new(),
        enabled: true,
        last_triggered: None,
        created_at: 0,
    };
    let event = TriggerEvent::file_created("t1", "/data/x.csv", 1);
    assert!(!trigger.matches_event(&event, None));
}

#[test]
fn mismatched_config_is_rejected_at_creation() {
    let (mut db, agent_id) = seeded_store();
    let r = db.create_trigger(
        &agent_id,
        "bad",
        TriggerType::Email,
        fs_config(),
        vec![],
        "ingest",
        Payload::new(),
        2,
    );
    assert!(matches!(r, Err(StoreError::Validation)));
}

#[test]
fn event_constructors_fill_their_fields() {
    let e = TriggerEvent::email_received("t9", "boss@example.com", "quarterly numbers", 7);
    assert_eq!(e.trigger_type, TriggerType::Email);
    assert_eq!(e.timestamp, 7);
    assert_eq!(e.data.get("event").unwrap(), "received");
    assert_eq!(e.data.get("from").unwrap(), "boss@example.com");
    assert_eq!(e.data.get("subject").unwrap(), "quarterly numbers");
    let mut body = Payload::new();
    body.set("amount".to_string(), "12".to_string());
    let w = TriggerEvent::webhook_received("t9", "POST", &body, 8);
    assert_eq!(w.data.get("method").unwrap(), "POST");
    assert_eq!(w.data.get("amount").unwrap(), "12");
    assert_eq!(w.data.get("event").unwrap(), "received");
    assert_eq!(w.trigger_type, TriggerType::Webhook);
    let label = TriggerType::FileSystem.label();
    assert_eq!(label, "file_system");
}

#[test]
fn event_payloads_hold_exactly_the_stated_fields() {
    let e = TriggerEvent::file_created("t1", "/data/x.csv", 1);
    assert!(e.data.get("extra").is_none());
    assert!(e.data.get("from").is_none());
    let m = TriggerEvent::email_received("t1", "a@b.c", "hi", 2);
    assert!(m.data.get("path").is_none());
    assert!(m.data.get("body").is_none());
}
