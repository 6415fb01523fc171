use agentforge::database::{AgentConfig, Database};
use agentforge::manager::{request_action, resolve_approval, ActionDecision};
use agentforge::payload::Payload;
use agentforge::tasks::{ApprovalStatus, RiskLevel, TaskStatus};

fn agent(autonomy_level: u8) -> AgentConfig {
    AgentConfig {
        id: None,
        name: "helper".to_string(),
        goal: "assist".to_string(),
        personality: "terse".to_string(),
        provider: "openai".to_string(),
        model: "gpt-4o".to_string(),
        temperature_milli: 700,
        tools: vec!["web_search".to_string()],
        autonomy_level,
        updated_at: 0,
    }
}

#[test]
fn risk_table_classification() {
    assert_eq!(RiskLevel::from_action("web_search"), RiskLevel::Low);
    assert_eq!(RiskLevel::from_action("file_read"), RiskLevel::Low);
    assert_eq!(RiskLevel::from_action("calculator"), RiskLevel::Low);
    assert_eq!(RiskLevel::from_action("email_draft"), RiskLevel::Medium);
    assert_eq!(RiskLevel::from_action("web_screenshot"), RiskLevel::Medium);
    assert_eq!(RiskLevel::from_action("email_send"), RiskLevel::High);
    assert_eq!(RiskLevel::from_action("browser_automation"), RiskLevel::High);
    assert_eq!(RiskLevel::from_action("payment"), RiskLevel::Critical);
    assert_eq!(RiskLevel::from_action("delete"), RiskLevel::Critical);
}

#[test]
fn unknown_actions_default_to_medium() {
    assert_eq!(RiskLevel::from_action("levitate"), RiskLevel::Medium);
    assert_eq!(RiskLevel::from_action(""), RiskLevel::Medium);
}

#[test]
fn approval_matrix_is_total() {
    let risks = [RiskLevel::Low, RiskLevel::Medium, RiskLevel::High, RiskLevel::Critical];
    let expected = [
        // autonomy 1: always ask
        [true, true, true, true],
        // autonomy 2: medium and above
        [false, true, true, true],
        // autonomy 3: only critical
        [false, false, false, true],
        // autonomy 4: never
        [false, false, false, false],
    ];
    for (level_index, row) in expected.iter().enumerate() {
        for (risk_index, want) in row.iter().enumerate() {
            let got = risks[risk_index].requires_approval((level_index + 1) as u8);
            assert_eq!(got, *want, "autonomy {} risk {:?}", level_index + 1, risks[risk_index]);
        }
    }
}

#[test]
fn high_risk_at_autonomy_2_is_held_and_released_on_approval() {
    let mut db = Database::new();
    let agent_id = db.save_agent(&agent(2), 1).unwrap();
    let decision = request_action(&mut db, &agent_id, "email_send", Payload::new(), 2).unwrap();
    let approval = match decision {
        ActionDecision::Held(a) => a,
        ActionDecision::Dispatch(_) => panic!("high risk at autonomy 2 must be held"),
    };
    assert_eq!(approval.status, ApprovalStatus::Pending);
    assert_eq!(approval.risk_level, RiskLevel::High);
    let task_id = approval.task_id.clone().unwrap();
    assert_eq!(db.get_pending_approvals().len(), 1);

    let dispatch = resolve_approval(&mut db, &approval.id, true, None, 3).unwrap();
    let request = dispatch.expect("an approved task is released for dispatch");
    assert_eq!(request.task_id, task_id);
    let decided = db.get_approval(&approval.id).unwrap();
    assert_eq!(decided.status, ApprovalStatus::Approved);
    assert_eq!(decided.decided_at, Some(3));
    assert!(db.get_pending_approvals().is_empty());
    assert_eq!(db.get_task(&task_id).unwrap().status, TaskStatus::Pending);
}

#[test]
fn low_risk_at_autonomy_2_dispatches_directly() {
    let mut db = Database::new();
    let agent_id = db.save_agent(&agent(2), 1).unwrap();
    let decision = request_action(&mut db, &agent_id, "web_search", Payload::new(), 2).unwrap();
    match decision {
        ActionDecision::Dispatch(req) => assert_eq!(req.task_type, "web_search"),
        ActionDecision::Held(_) => panic!("low risk at autonomy 2 needs no approval"),
    }
    assert!(db.get_pending_approvals().is_empty());
}

#[test]
fn rejection_cancels_the_task() {
    let mut db = Database::new();
    let agent_id = db.save_agent(&agent(1), 1).unwrap();
    let decision = request_action(&mut db, &agent_id, "web_search", Payload::new(), 2).unwrap();
    let approval = match decision {
        ActionDecision::Held(a) => a,
        ActionDecision::Dispatch(_) => panic!("autonomy 1 always asks"),
    };
    let task_id = approval.task_id.clone().unwrap();
    let dispatch = resolve_approval(&mut db, &approval.id, false, None, 3).unwrap();
    assert!(dispatch.is_none());
    assert_eq!(db.get_task(&task_id).unwrap().status, TaskStatus::Cancelled);
    assert_eq!(db.get_approval(&approval.id).unwrap().status, ApprovalStatus::Rejected);
}

#[test]
fn a_decided_request_cannot_be_redecided() {
    let mut db = Database::new();
    let agent_id = db.save_agent(&agent(1), 1).unwrap();
    let decision = request_action(&mut db, &agent_id, "web_search", Payload::new(), 2).unwrap();
    let approval = match decision {
        ActionDecision::Held(a) => a,
        ActionDecision::Dispatch(_) => panic!("autonomy 1 always asks"),
    };
    resolve_approval(&mut db, &approval.id, true, None, 3).unwrap();
    let again = resolve_approval(&mut db, &approval.id, false, None, 4);
    assert!(again.is_err());
}

#[test]
fn approval_with_modified_input_substitutes_it() {
    let mut db = Database::new();
    let agent_id = db.save_agent(&agent(1), 1).unwrap();
    let mut original = Payload::new();
    original.set("to".to_string(), "everyone".to_string());
    let decision = request_action(&mut db, &agent_id, "email_send", original, 2).unwrap();
    let approval = match decision {
        ActionDecision::Held(a) => a,
        ActionDecision::Dispatch(_) => panic!("must be held"),
    };
    let mut replacement = Payload::new();
    replacement.set("to".to_string(), "the team".to_string());
    let dispatch = resolve_approval(&mut db, &approval.id, true, Some(replacement), 3)
        .unwrap()
        .unwrap();
    assert_eq!(dispatch.input.get("to").unwrap(), "the team");
}

#[test]
fn unknown_agent_is_refused() {
    let mut db = Database::new();
    let r = request_action(&mut db, "nobody", "web_search", Payload::new(), 1);
    assert!(r.is_err());
}
