use ogent::task_tracker::{
    TaskTracker, GoalState, Status, Complexity, PhaseUpdate, TodoUpdate,
};

fn seed() -> TaskTracker {
    TaskTracker::new(GoalState {
        title: "Ship runtime tracker".into(),
        status: Status::InProgress,
        complexity: Complexity::Complex,
        success_criteria: Vec::new(),
        notes: String::new(),
    })
}

#[test]
fn goal_revisions_capture_previous_goal() {
    let mut tracker = seed();
    tracker.revise_goal(
        GoalState {
            title: "Ship tracker v2".into(),
            status: Status::InProgress,
            complexity: Complexity::Complex,
            success_criteria: vec!["runtime reminders work".into()],
            notes: "scope expanded".into(),
        },
        "user changed scope".into(),
    );
    assert_eq!(tracker.revisions.len(), 1);
    assert_eq!(tracker.revisions[0].previous_goal.title, "Ship runtime tracker");
    assert_eq!(tracker.goal.title, "Ship tracker v2");
}

#[test]
fn todo_requires_existing_phase() {
    let mut tracker = seed();
    let err = tracker
        .update_todo(TodoUpdate {
            phase_id: "p1".into(),
            id: "t1".into(),
            title: "x".into(),
            status: Status::Pending,
            complexity: Complexity::Simple,
            notes: String::new(),
        })
        .expect_err("missing phase must fail");
    assert!(err.message().contains("phase_id p1 does not exist"));
}

#[test]
fn open_work_and_stale_nudge_behave() {
    let mut tracker = seed();
    tracker.update_phase(PhaseUpdate {
        id: "phase-1".into(),
        title: "plumbing".into(),
        status: Status::InProgress,
        complexity: Complexity::Medium,
        notes: String::new(),
    });
    assert!(tracker.open_work_exists());
    tracker.take_reminder();
    tracker.note_tool_turn(false, true);
    tracker.note_tool_turn(false, true);
    assert!(tracker.take_reminder().is_none());
    tracker.note_tool_turn(false, true);
    let reminder = tracker.take_reminder().expect("stale nudge expected");
    assert!(reminder.contains("Stale"));
    assert!(reminder.contains("Do not call `set_goal` again"));
    assert!(tracker.take_reminder().is_none());
}

#[test]
fn restored_tracker_reminder_warns_against_set_goal() {
    let mut tracker = seed();
    tracker.mark_restored();
    let reminder = tracker.take_reminder().expect("restored tracker should remind");
    assert!(reminder.contains("Task tracker already exists"));
    assert!(reminder.contains("Use revise_goal only if the objective changed"));
}

#[test]
fn starting_new_phase_demotes_prior_in_progress_phase() {
    let mut tracker = seed();
    tracker.update_phase(PhaseUpdate {
        id: "phase-1".into(),
        title: "orient".into(),
        status: Status::InProgress,
        complexity: Complexity::Medium,
        notes: String::new(),
    });
    tracker.update_phase(PhaseUpdate {
        id: "phase-2".into(),
        title: "implement".into(),
        status: Status::InProgress,
        complexity: Complexity::Medium,
        notes: String::new(),
    });
    assert_eq!(tracker.phases[0].status, Status::Pending);
    assert_eq!(tracker.phases[1].status, Status::InProgress);
}

#[test]
fn open_phase_or_todo_excludes_goal_status() {
    let mut tracker = seed();
    tracker.update_phase(PhaseUpdate {
        id: "phase-1".into(),
        title: "orient".into(),
        status: Status::Completed,
        complexity: Complexity::Medium,
        notes: String::new(),
    });
    assert!(tracker.open_work_exists());
    assert!(!tracker.open_phase_or_todo_exists());
}

#[test]
fn handoff_state_block_is_found_and_stripped() {
    let tracker = seed();
    let mut handoff = String::from("User brief");
    handoff.push_str("\n\n");
    handoff.push_str(&tracker.render_handoff_appendix_with("{\"version\":1}"));
    assert_eq!(TaskTracker::handoff_state_payload(&handoff).unwrap(), "{\"version\":1}");
    let stripped = TaskTracker::strip_handoff_state_block(&handoff);
    assert!(!stripped.contains("<ogent_task_tracker_state>"));
    assert!(stripped.contains("Runtime Task Tracking"));
}

#[test]
fn reminder_is_given_once_per_update() {
    let mut tracker = seed();
    assert!(tracker.take_reminder().is_some());
    assert!(tracker.take_reminder().is_none());
    tracker.update_phase(PhaseUpdate {
        id: "p".into(),
        title: "t".into(),
        status: Status::Pending,
        complexity: Complexity::Simple,
        notes: String::new(),
    });
    assert!(tracker.take_reminder().is_some());
}

#[test]
fn handoff_round_trip_and_strip() {
    let mut tracker = seed();
    tracker.update_phase(PhaseUpdate {
        id: "phase-1".into(),
        title: "plumbing".into(),
        status: Status::InProgress,
        complexity: Complexity::Medium,
        notes: String::new(),
    });
    // The state block carries the tracker as JSON; here, its goal.
    let state = format!("{{\"goal\":{{\"title\":\"{}\"}}}}", tracker.goal.title);
    let mut handoff = String::from("User brief");
    handoff.push_str("\n\n");
    handoff.push_str(&tracker.render_handoff_appendix_with(&state));
    let payload = TaskTracker::handoff_state_payload(&handoff).expect("tracker should restore");
    let restored: serde_json::Value = serde_json::from_str(&payload).unwrap();
    assert_eq!(restored["goal"]["title"], tracker.goal.title.as_str());
    let stripped = TaskTracker::strip_handoff_state_block(&handoff);
    assert!(!stripped.contains("<ogent_task_tracker_state>"));
    assert!(stripped.contains("Runtime Task Tracking"));
}

fn phase_update(id: &str, status: Status) -> PhaseUpdate {
    PhaseUpdate {
        id: id.into(),
        title: format!("work {}", id),
        status,
        complexity: Complexity::Medium,
        notes: String::new(),
    }
}

#[test]
fn updates_keep_ids_distinct_and_one_phase_in_progress() {
    let mut tracker = seed();
    tracker.update_phase(phase_update("p1", Status::InProgress));
    tracker.update_phase(phase_update("p2", Status::Pending));
    tracker.update_phase(phase_update("p1", Status::Completed));
    tracker.update_phase(phase_update("p2", Status::InProgress));
    tracker.update_phase(phase_update("p3", Status::InProgress));
    tracker.update_phase(phase_update("p3", Status::Pending));
    let ids: Vec<&str> = tracker.phases.iter().map(|p| p.id.as_str()).collect();
    assert_eq!(ids, vec!["p1", "p2", "p3"]);
    let running = tracker.phases.iter().filter(|p| p.status == Status::InProgress).count();
    assert!(running <= 1);
    assert_eq!(tracker.phases[0].status, Status::Completed);
    assert_eq!(tracker.phases[1].status, Status::Pending);
    assert_eq!(tracker.phases[2].status, Status::Pending);
}

#[test]
fn restored_reminder_follows_a_taken_one() {
    let mut tracker = seed();
    tracker.take_reminder();
    let goal = tracker.goal.title.clone();
    tracker.mark_restored();
    assert_eq!(tracker.goal.title, goal);
    let reminder = tracker.take_reminder().unwrap();
    assert!(reminder.contains("Task tracker already exists"));
    assert!(reminder.contains("Use revise_goal only if the objective changed"));
}

#[test]
fn handoff_round_trip_reads_back_the_state() {
    let tracker = seed();
    let appendix = tracker.render_handoff_appendix_with("  {\"a\": 1}\n");
    let text = format!("Brief\n\n{}", appendix);
    assert_eq!(TaskTracker::handoff_state_payload(&text).unwrap(), "{\"a\": 1}");
    let stripped = TaskTracker::strip_handoff_state_block(&text);
    let before = &appendix[..appendix.find("<ogent_task_tracker_state>").unwrap()];
    assert_eq!(stripped, format!("Brief\n\n{}", before).trim_end());
}
