use agentforge::cron::Cron;
use agentforge::payload::Payload;
use agentforge::scheduler::{Schedule, Scheduler};
use agentforge::timepoint::Instant;

fn civil(year: u16, month: u8, day: u8, hour: u8, minute: u8) -> Instant {
    Instant::new(year, month, day, hour, minute).unwrap()
}

fn recurring(id: &str, expr: &str) -> Schedule {
    Schedule {
        id: id.to_string(),
        agent_id: "agent-1".to_string(),
        name: "check".to_string(),
        cron_expr: Some(Cron::parse(expr).unwrap()),
        run_at: None,
        task_type: "check".to_string(),
        task_input: Payload::new(),
        enabled: true,
        last_run: None,
        next_run: None,
        created_at: 0,
    }
}

fn one_shot(id: &str, run_at: Instant) -> Schedule {
    Schedule {
        id: id.to_string(),
        agent_id: "agent-1".to_string(),
        name: "once".to_string(),
        cron_expr: None,
        run_at: Some(run_at),
        task_type: "once".to_string(),
        task_input: Payload::new(),
        enabled: true,
        last_run: None,
        next_run: None,
        created_at: 0,
    }
}

#[test]
fn recurring_fires_once_per_matching_minute() {
    let s = recurring("s1", "* * * * *");
    let now = civil(2026, 10, 12, 9, 0);
    assert!(s.is_due(&now));
    let fired = s.fire(&now);
    // Evaluated again within the same minute: not due a second time.
    assert!(!fired.is_due(&now));
    // The next minute is a fresh bucket.
    assert!(fired.is_due(&civil(2026, 10, 12, 9, 1)));
}

#[test]
fn recurring_only_due_on_matching_minutes() {
    let s = recurring("s1", "0 9 * * 1");
    assert!(s.is_due(&civil(2026, 10, 12, 9, 0)));
    assert!(!s.is_due(&civil(2026, 10, 12, 9, 1)));
    assert!(!s.is_due(&civil(2026, 10, 13, 9, 0)));
}

#[test]
fn fire_advances_next_run() {
    let s = recurring("s1", "0 9 * * *");
    let now = civil(2026, 10, 12, 9, 0);
    let fired = s.fire(&now);
    assert_eq!(fired.last_run, Some(now));
    let next = fired.next_run.unwrap();
    assert_eq!((next.year, next.month, next.day, next.hour, next.minute), (2026, 10, 13, 9, 0));
    assert!(fired.enabled);
}

#[test]
fn one_shot_fires_at_most_once_and_is_disabled() {
    let t = civil(2026, 10, 12, 9, 0);
    let s = one_shot("s2", t);
    assert!(!s.is_due(&civil(2026, 10, 12, 8, 59)));
    assert!(s.is_due(&t));
    assert!(s.is_due(&civil(2026, 10, 12, 9, 5)));
    let fired = s.fire(&civil(2026, 10, 12, 9, 5));
    assert!(!fired.enabled);
    assert!(fired.next_run.is_none());
    assert!(!fired.is_due(&civil(2026, 10, 12, 9, 6)));
    assert!(!fired.is_due(&civil(2030, 1, 1, 0, 0)));
}

#[test]
fn disabled_schedules_are_never_due() {
    let mut s = recurring("s1", "* * * * *");
    s.enabled = false;
    assert!(!s.is_due(&civil(2026, 10, 12, 9, 0)));
}

#[test]
fn scheduler_holds_only_enabled_schedules() {
    let mut sch = Scheduler::new();
    sch.add_schedule(recurring("a", "* * * * *"));
    let mut disabled = recurring("b", "* * * * *");
    disabled.enabled = false;
    sch.add_schedule(disabled);
    assert_eq!(sch.active_schedules.len(), 1);
    let due = sch.get_due_schedules(&civil(2026, 10, 12, 9, 0));
    assert_eq!(due.len(), 1);
    assert_eq!(due[0].id, "a");
}

#[test]
fn scheduler_replaces_by_id_and_removes() {
    let mut sch = Scheduler::new();
    sch.add_schedule(recurring("a", "* * * * *"));
    sch.add_schedule(recurring("a", "0 9 * * *"));
    assert_eq!(sch.active_schedules.len(), 1);
    let due = sch.get_due_schedules(&civil(2026, 10, 12, 10, 30));
    assert!(due.is_empty());
    sch.remove_schedule("a");
    assert!(sch.active_schedules.is_empty());
}

#[test]
fn due_set_is_exactly_the_due_schedules() {
    let mut sch = Scheduler::new();
    sch.add_schedule(recurring("every-minute", "* * * * *"));
    sch.add_schedule(recurring("nine-daily", "0 9 * * *"));
    sch.add_schedule(one_shot("later", civil(2026, 10, 12, 12, 0)));
    let due = sch.get_due_schedules(&civil(2026, 10, 12, 9, 0));
    let ids: Vec<&str> = due.iter().map(|s| s.id.as_str()).collect();
    assert_eq!(ids, vec!["every-minute", "nine-daily"]);
}
