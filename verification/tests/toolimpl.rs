use ogent::toolimpl::{
    summary_has_limitation_and_intent, clean_strings, set_goal, revise_goal, update_phase,
    update_todo, complete, worker_complete, worker_question, handoff_text, require_agent,
    SetGoalArgs, ReviseGoalArgs, UpdatePhaseArgs, UpdateTodoArgs, Completion,
};
use ogent::task_tracker::{Status, Complexity};

#[test]
fn summary_requires_limitation_and_intent() {
    assert!(summary_has_limitation_and_intent("## Limitation\nx\n## Intent\ny"));
    assert!(!summary_has_limitation_and_intent("## Limitation\nx"));
    assert!(!summary_has_limitation_and_intent("## Intent\ny"));
}

#[test]
fn clean_strings_trims_and_drops_blanks() {
    let out = clean_strings(vec![" a ".to_string(), "  ".to_string(), "b".to_string()]);
    assert_eq!(out, vec!["a".to_string(), "b".to_string()]);
}

fn goal_args(goal: &str) -> SetGoalArgs {
    SetGoalArgs {
        goal: goal.to_string(),
        status: Status::InProgress,
        complexity: Complexity::Medium,
        success_criteria: vec![" works ".to_string(), "".to_string()],
        notes: " n ".to_string(),
    }
}

#[test]
fn tracking_tools_drive_the_tracker() {
    let mut tracker = None;
    assert_eq!(set_goal(&mut tracker, goal_args("  ")).unwrap_err().message, "goal is required");
    let snap = set_goal(&mut tracker, goal_args(" Ship it ")).unwrap();
    assert!(snap.starts_with("Task tracking state:\n"));
    let t = tracker.as_ref().unwrap();
    assert_eq!(t.goal.title, "Ship it");
    assert_eq!(t.goal.success_criteria, vec!["works".to_string()]);
    assert_eq!(
        set_goal(&mut tracker, goal_args("again")).unwrap_err().message,
        "set_goal can only be called once; use revise_goal for goal changes"
    );
    let revised = revise_goal(
        &mut tracker,
        ReviseGoalArgs {
            goal: "Ship v2".to_string(),
            status: Status::InProgress,
            complexity: Complexity::Complex,
            success_criteria: Vec::new(),
            reason: " scope ".to_string(),
            notes: String::new(),
        },
    );
    assert!(revised.is_ok());
    let t = tracker.as_ref().unwrap();
    assert_eq!(t.revisions.len(), 1);
    assert_eq!(t.revisions[0].reason, "scope");
    update_phase(
        &mut tracker,
        UpdatePhaseArgs {
            phase_id: " p1 ".to_string(),
            title: "Plan".to_string(),
            status: Status::InProgress,
            complexity: Complexity::Simple,
            notes: String::new(),
        },
    )
    .unwrap();
    let todo = UpdateTodoArgs {
        phase_id: "p2".to_string(),
        todo_id: "t".to_string(),
        title: "x".to_string(),
        status: Status::Pending,
        complexity: Complexity::Simple,
        notes: String::new(),
    };
    assert_eq!(
        update_todo(&mut tracker, todo).unwrap_err().message,
        "phase_id p2 does not exist; call update_phase first"
    );
    let todo_ok = UpdateTodoArgs {
        phase_id: "p1".to_string(),
        todo_id: "t".to_string(),
        title: "x".to_string(),
        status: Status::Pending,
        complexity: Complexity::Simple,
        notes: String::new(),
    };
    assert!(update_todo(&mut tracker, todo_ok).is_ok());
    assert_eq!(tracker.as_ref().unwrap().phases[0].todos.len(), 1);
}

#[test]
fn tracking_tools_need_a_goal_first() {
    let mut tracker = None;
    let err = update_phase(
        &mut tracker,
        UpdatePhaseArgs {
            phase_id: "p".to_string(),
            title: "t".to_string(),
            status: Status::Pending,
            complexity: Complexity::Simple,
            notes: String::new(),
        },
    )
    .unwrap_err();
    assert_eq!(err.message, "set_goal must be called before update_phase");
}

#[test]
fn complete_warns_once_then_requires_explanation() {
    let mut tracker = None;
    set_goal(&mut tracker, goal_args("g")).unwrap();
    update_phase(
        &mut tracker,
        UpdatePhaseArgs {
            phase_id: "p".to_string(),
            title: "t".to_string(),
            status: Status::InProgress,
            complexity: Complexity::Simple,
            notes: String::new(),
        },
    )
    .unwrap();
    let mut state = Completion { open_work_warned: false, summary: None };
    let warn = complete(&mut state, &tracker, "done").unwrap();
    assert!(warn.starts_with("WARNING: tracked work is still open."));
    assert!(state.open_work_warned);
    assert!(complete(&mut state, &tracker, "done").is_err());
    let ok = complete(&mut state, &tracker, " Limitation: x. Intent: y ").unwrap();
    assert_eq!(ok, "Task marked complete.");
    assert_eq!(state.summary.as_deref(), Some("Limitation: x. Intent: y"));
    let mut w = Completion { open_work_warned: false, summary: None };
    assert_eq!(worker_complete(&mut w, " ok ").unwrap(), "Worker marked complete.");
    assert_eq!(w.summary.as_deref(), Some("ok"));
    assert_eq!(complete(&mut w, &None, "").unwrap_err().message, "summary is required");
}

#[test]
fn handoff_and_question_texts() {
    assert_eq!(handoff_text("brief  \n", "## App"), "brief\n\n## App");
    assert_eq!(handoff_text("  ", "## App"), "## App");
    assert_eq!(handoff_text("brief", ""), "brief");
    assert_eq!(worker_question("why?"), "[BLOCKER] Worker asks: why?");
    assert_eq!(require_agent(false, "complete").unwrap_err().message, "complete requires an active agent");
}
