use ogent::workflow::{
    CheckKind, CheckStatus, ManualCheckInput, Workflow, WorkflowCheck, WorkflowError,
    WorkflowState, WorkflowStep,
};

fn check(id: &str) -> WorkflowCheck {
    WorkflowCheck { id: id.to_string(), kind: CheckKind::Manual, required: true, command: None }
}

fn step(title: &str, next: &[&str], terminal: bool, gate: bool, checks: Vec<WorkflowCheck>) -> WorkflowStep {
    WorkflowStep {
        title: title.to_string(),
        instructions: format!("Do the {} work.", title),
        next: next.iter().map(|s| s.to_string()).collect(),
        terminal,
        gate,
        max_visits: None,
        checks,
    }
}

/// The common software workflow: intake, execute, verify (gated), review, done.
fn test_workflow() -> Workflow {
    Workflow {
        id: "common-sw".to_string(),
        name: "Common software change".to_string(),
        version: 1,
        start: "intake".to_string(),
        instructions: "Work through the steps in order.".to_string(),
        steps: vec![
            ("intake".to_string(), step("Intake", &["execute"], false, false, vec![check("scope")])),
            ("execute".to_string(), step("Execute", &["verify"], false, false, vec![check("work_done")])),
            (
                "verify".to_string(),
                step("Verify", &["review", "execute"], false, true, vec![check("verification")]),
            ),
            (
                "review".to_string(),
                step("Review", &["done", "execute"], false, false, vec![check("self_review")]),
            ),
            ("done".to_string(), step("Done", &[], true, false, vec![])),
        ],
    }
}

fn passed<'a>(step_id: &'a str, check_id: &'a str, evidence: &'a str, ts: u64) -> ManualCheckInput<'a> {
    ManualCheckInput {
        step_id,
        check_id,
        status: CheckStatus::Passed,
        evidence,
        waiver_reason: "",
        waiver_risk: "",
        timestamp_ms: ts,
    }
}

fn err_text<T>(r: Result<T, WorkflowError>) -> String {
    match r {
        Err(e) => e.message(),
        Ok(_) => panic!("expected an error"),
    }
}

#[test]
fn validates_common_sw() {
    test_workflow().validate().unwrap();
}

#[test]
fn invalid_transition_rejected() {
    let mut ws = WorkflowState::new(test_workflow());
    ws.enter_step("intake", "", 1).unwrap();
    ws.record_check(passed("intake", "scope", "scope ok", 2)).unwrap();
    let err = err_text(ws.enter_step("verify", "", 3));
    assert!(err.contains("invalid transition"));
}

#[test]
fn first_step_must_be_start() {
    let mut ws = WorkflowState::new(test_workflow());
    let err = err_text(ws.enter_step("execute", "", 1));
    assert!(err.contains("first workflow step"));
}

#[test]
fn required_checks_block_leaving_step() {
    let mut ws = WorkflowState::new(test_workflow());
    ws.enter_step("intake", "", 1).unwrap();
    let err = err_text(ws.enter_step("execute", "", 2));
    assert!(err.contains("requires completed checks"));
}

#[test]
fn gate_requires_reason() {
    let mut ws = WorkflowState::new(test_workflow());
    ws.enter_step("intake", "", 1).unwrap();
    ws.record_check(passed("intake", "scope", "scope ok", 2)).unwrap();
    ws.enter_step("execute", "", 3).unwrap();
    ws.record_check(passed("execute", "work_done", "work ok", 4)).unwrap();
    ws.enter_step("verify", "", 5).unwrap();
    ws.record_check(passed("verify", "verification", "tests ok", 6)).unwrap();
    let err = err_text(ws.enter_step("review", "", 7));
    assert!(err.contains("requires a reason"));
}

#[test]
fn complete_requires_terminal_step() {
    let mut ws = WorkflowState::new(test_workflow());
    assert!(ws.ensure_current_step_is_terminal().is_err());
    ws.enter_step("intake", "", 1).unwrap();
    assert!(ws.ensure_current_step_is_terminal().is_err());
}

#[test]
fn terminal_step_allows_complete() {
    let mut ws = WorkflowState::new(test_workflow());
    ws.enter_step("intake", "", 1).unwrap();
    ws.record_check(passed("intake", "scope", "scope ok", 2)).unwrap();
    ws.enter_step("execute", "", 3).unwrap();
    ws.record_check(passed("execute", "work_done", "work ok", 4)).unwrap();
    ws.enter_step("verify", "", 5).unwrap();
    ws.record_check(passed("verify", "verification", "tests ok", 6)).unwrap();
    ws.enter_step("review", "tests passed", 7).unwrap();
    ws.record_check(passed("review", "self_review", "diff ok", 8)).unwrap();
    ws.enter_step("done", "ready", 9).unwrap();
    ws.ensure_current_step_is_terminal().unwrap();
}

#[test]
fn validation_reports_unknown_next_and_unreachable_steps() {
    let mut wf = test_workflow();
    wf.steps[0].1.next = vec!["nowhere".to_string()];
    assert_eq!(
        err_text(wf.validate()),
        "step 'intake' points to unknown next step 'nowhere'"
    );
    let mut wf = test_workflow();
    wf.steps.push(("orphan".to_string(), step("Orphan", &["done"], false, false, vec![])));
    assert_eq!(err_text(wf.validate()), "step 'orphan' is unreachable from start");
    let mut wf = test_workflow();
    wf.start = String::new();
    assert_eq!(err_text(wf.validate()), "workflow start step is required");
}

#[test]
fn check_recording_rules() {
    let mut ws = WorkflowState::new(test_workflow());
    ws.enter_step("intake", "", 1).unwrap();
    let err = err_text(ws.record_check(passed("intake", "scope", "  ", 2)));
    assert_eq!(err, "manual check 'scope' in step 'intake' requires evidence");
    let waived = ManualCheckInput {
        step_id: "intake",
        check_id: "scope",
        status: CheckStatus::Waived,
        evidence: "n/a",
        waiver_reason: "small change",
        waiver_risk: "",
        timestamp_ms: 3,
    };
    let err = err_text(ws.record_check(waived));
    assert!(err.contains("requires waiver_reason and waiver_risk"));
    let err = err_text(ws.record_check(passed("intake", "nope", "x", 4)));
    assert_eq!(err, "check 'nope' not found in step 'intake'");
    assert_eq!(ws.check_results.len(), 0);
    ws.record_check(passed("intake", "scope", "ok", 5)).unwrap();
    assert_eq!(ws.check_results.len(), 1);
    assert_eq!(ws.transition_log.len(), 1);
}

#[test]
fn max_visits_limits_reentry() {
    let mut wf = test_workflow();
    wf.steps[1].1.max_visits = Some(1);
    let mut ws = WorkflowState::new(wf);
    ws.enter_step("intake", "", 1).unwrap();
    ws.record_check(passed("intake", "scope", "ok", 2)).unwrap();
    ws.enter_step("execute", "", 3).unwrap();
    ws.record_check(passed("execute", "work_done", "ok", 4)).unwrap();
    ws.enter_step("verify", "", 5).unwrap();
    ws.record_check(passed("verify", "verification", "ok", 6)).unwrap();
    let err = err_text(ws.enter_step("execute", "rework", 7));
    assert_eq!(err, "step 'execute' would exceed max_visits (2/1)");
    assert_eq!(ws.current_step, Some("verify".to_string()));
}

#[test]
fn command_checks_need_a_command() {
    let mut wf = test_workflow();
    wf.steps[1].1.checks.push(WorkflowCheck {
        id: "tests".to_string(),
        kind: CheckKind::Command,
        required: true,
        command: None,
    });
    assert_eq!(
        err_text(wf.validate()),
        "step 'execute' command check 'tests' has empty command"
    );
    let mut wf = test_workflow();
    wf.steps[1].1.checks.push(WorkflowCheck {
        id: "tests".to_string(),
        kind: CheckKind::Command,
        required: true,
        command: Some("   ".to_string()),
    });
    assert!(wf.validate().is_err());
    let mut wf = test_workflow();
    wf.steps[1].1.checks.push(WorkflowCheck {
        id: "tests".to_string(),
        kind: CheckKind::Command,
        required: true,
        command: Some("cargo test".to_string()),
    });
    wf.validate().unwrap();
}

#[test]
fn step_ids_name_one_step_each() {
    let mut wf = test_workflow();
    wf.steps.push(("review".to_string(), step("Again", &["done"], false, false, vec![])));
    assert_eq!(err_text(wf.validate()), "duplicate step id 'review'");
}
