//! The task-tracking tools and the completion tools: what they check, what
//! they change in the tracker, and what they answer.
use vstd::prelude::*;
use crate::text::{
    chars_of, trim, trim_bounds, slice_range, string_of, contains, str_contains,
    str_lower, str_to_lowercase, trim_end, skip_ws_backward,
};
use crate::task_tracker::{
    TaskTracker, GoalState, GoalRevision, PhaseUpdate, TodoUpdate, Status, Complexity, summary,
    open_phase_or_todo, phases_updated, noted_update, first_with_id, todos_after_update, PhaseState,
};
use crate::tools::{ToolFailure, require_nonempty, required_message};

verus! {

broadcast use vstd::string::group_string_axioms;

/// A text trimmed.
fn trimmed(s: &str) -> (r: String)
    ensures
        r@ == trim(s@),
{
    let v = chars_of(s);
    let (a, b) = trim_bounds(v.as_slice(), 0, v.len());
    proof {
        assert(v@.subrange(0, v@.len() as int) =~= v@);
    }
    string_of(slice_range(v.as_slice(), a, b).as_slice())
}

/// The texts trimmed, with the blank ones dropped.
pub open spec fn cleaned(values: Seq<String>) -> Seq<Seq<char>> {
    values.map_values(|v: String| trim(v@)).filter(|t: Seq<char>| t.len() > 0)
}

/// Trims texts and drops the blank ones.
pub fn clean_strings(values: Vec<String>) -> (r: Vec<String>)
    ensures
        r@.map_values(|v: String| v@) == cleaned(values@),
{
    let ghost all = values@.map_values(|v: String| trim(v@));
    let mut r: Vec<String> = Vec::new();
    let mut i: usize = 0;
    proof {
        assert(all.take(0).filter(|t: Seq<char>| t.len() > 0) =~= Seq::<Seq<char>>::empty());
    }
    while i < values.len()
        invariant
            i <= values@.len(),
            all == values@.map_values(|v: String| trim(v@)),
            r@.map_values(|v: String| v@) == all.take(i as int).filter(|t: Seq<char>| t.len() > 0),
        decreases values.len() - i,
    {
        let t = trimmed(values[i].as_str());
        let ghost before = r@;
        let keep = !t.as_str().is_empty();
        if keep {
            r.push(t);
            proof {
                assert(r@.map_values(|v: String| v@) =~= before.map_values(|v: String| v@).push(
                    all[i as int],
                ));
            }
        }
        proof {
            reveal(Seq::filter);
            let t1 = all.take(i + 1);
            assert(t1.drop_last() =~= all.take(i as int));
            assert(t1.last() == all[i as int]);
        }
        i += 1;
    }
    proof {
        assert(all.take(values@.len() as int) =~= all);
    }
    r
}

/// Whether a completion summary names both its limitation and its intent
/// (in any letter case).
pub open spec fn names_limitation_and_intent(summary: Seq<char>) -> bool {
    contains(str_lower(summary), "limitation"@) && contains(str_lower(summary), "intent"@)
}

/// Whether a completion summary names both its limitation and its intent.
pub fn summary_has_limitation_and_intent(summary: &str) -> (r: bool)
    ensures
        r == names_limitation_and_intent(summary@),
{
    let s = str_to_lowercase(summary);
    str_contains(s.as_str(), "limitation") && str_contains(s.as_str(), "intent")
}

/// Refuses a tool that needs an agent when there is none.
pub fn require_agent(present: bool, tool: &str) -> (r: Result<(), ToolFailure>)
    ensures
        r is Ok <==> present,
        r matches Err(f) ==> f.message@ == tool@ + " requires an active agent"@,
{
    if !present {
        let mut m = String::new();
        m.append(tool);
        m.append(" requires an active agent");
        return Err(ToolFailure { message: m });
    }
    Ok(())
}

/// Arguments of `set_goal`.
#[derive(Clone, Debug)]
pub struct SetGoalArgs {
    pub goal: String,
    pub status: Status,
    pub complexity: Complexity,
    pub success_criteria: Vec<String>,
    pub notes: String,
}

/// Arguments of `revise_goal`.
#[derive(Clone, Debug)]
pub struct ReviseGoalArgs {
    pub goal: String,
    pub status: Status,
    pub complexity: Complexity,
    pub success_criteria: Vec<String>,
    pub reason: String,
    pub notes: String,
}

/// Arguments of `update_phase`.
#[derive(Clone, Debug)]
pub struct UpdatePhaseArgs {
    pub phase_id: String,
    pub title: String,
    pub status: Status,
    pub complexity: Complexity,
    pub notes: String,
}

/// Arguments of `update_todo`.
#[derive(Clone, Debug)]
pub struct UpdateTodoArgs {
    pub phase_id: String,
    pub todo_id: String,
    pub title: String,
    pub status: Status,
    pub complexity: Complexity,
    pub notes: String,
}

/// The goal a tool asks for: title and notes trimmed, criteria cleaned.
pub open spec fn goal_from(
    goal: Seq<char>,
    status: Status,
    complexity: Complexity,
    criteria: Seq<String>,
    notes: Seq<char>,
    g: GoalState,
) -> bool {
    &&& g.title@ == trim(goal)
    &&& g.status == status
    &&& g.complexity == complexity
    &&& g.success_criteria@.map_values(|v: String| v@) == cleaned(criteria)
    &&& g.notes@ == trim(notes)
}

/// The answer of a tracking tool: the tracker's snapshot.
pub open spec fn snapshot(t: TaskTracker) -> Seq<char> {
    "Task tracking state:\n"@ + summary(t)
}

/// `set_goal`: starts tracking a goal; only once.
pub fn set_goal(tracker: &mut Option<TaskTracker>, args: SetGoalArgs) -> (r: Result<String, ToolFailure>)
    ensures
        if trim(args.goal@).len() == 0 {
            &&& r matches Err(f) && f.message@ == required_message("goal"@)
            &&& *final(tracker) == *old(tracker)
        } else if *old(tracker) is Some {
            &&& r matches Err(f) && f.message@
                == "set_goal can only be called once; use revise_goal for goal changes"@
            &&& *final(tracker) == *old(tracker)
        } else {
            &&& r matches Ok(s) && *final(tracker) matches Some(t) && s@ == snapshot(t)
            &&& *final(tracker) matches Some(t) && t.version == 1 && t.revisions@.len() == 0
                && t.phases@.len() == 0 && noted_update(t)
            &&& *final(tracker) matches Some(t) && goal_from(
                args.goal@,
                args.status,
                args.complexity,
                args.success_criteria@,
                args.notes@,
                t.goal,
            )
        },
{
    match require_nonempty(args.goal.as_str(), "goal") {
        Err(f) => {
            proof {
                reveal_strlit("goal");
            }
            return Err(f);
        },
        Ok(_) => {},
    }
    if tracker.is_some() {
        return Err(
            ToolFailure {
                message: "set_goal can only be called once; use revise_goal for goal changes".to_string(),
            },
        );
    }
    let goal = GoalState {
        title: trimmed(args.goal.as_str()),
        status: args.status,
        complexity: args.complexity,
        success_criteria: clean_strings(args.success_criteria),
        notes: trimmed(args.notes.as_str()),
    };
    let t = TaskTracker::new(goal);
    let s = t.render_tool_snapshot();
    *tracker = Some(t);
    Ok(s)
}

/// `revise_goal`: replaces the tracked goal, keeping the old one with the
/// reason.
pub fn revise_goal(tracker: &mut Option<TaskTracker>, args: ReviseGoalArgs) -> (r: Result<
    String,
    ToolFailure,
>)
    ensures
        if trim(args.goal@).len() == 0 {
            &&& r matches Err(f) && f.message@ == required_message("goal"@)
            &&& *final(tracker) == *old(tracker)
        } else if trim(args.reason@).len() == 0 {
            &&& r matches Err(f) && f.message@ == required_message("reason"@)
            &&& *final(tracker) == *old(tracker)
        } else if *old(tracker) is None {
            &&& r matches Err(f) && f.message@ == "set_goal must be called before revise_goal"@
            &&& *final(tracker) == *old(tracker)
        } else {
            &&& r matches Ok(s) && *final(tracker) matches Some(t) && s@ == snapshot(t)
            &&& *final(tracker) matches Some(t) && goal_from(
                args.goal@,
                args.status,
                args.complexity,
                args.success_criteria@,
                args.notes@,
                t.goal,
            )
            &&& *final(tracker) matches Some(t) && t.revisions@.len() == (*old(tracker))->0.revisions@.len()
                + 1 && t.revisions@.drop_last() == (*old(tracker))->0.revisions@
            &&& *final(tracker) matches Some(t) && t.revisions@.last().previous_goal == (*old(tracker))->0.goal && t.revisions@.last().reason@ == trim(args.reason@)
            &&& *final(tracker) matches Some(t) && t.phases == (*old(tracker))->0.phases && noted_update(t)
        },
{
    match require_nonempty(args.goal.as_str(), "goal") {
        Err(f) => {
            proof {
                reveal_strlit("goal");
            }
            return Err(f);
        },
        Ok(_) => {},
    }
    match require_nonempty(args.reason.as_str(), "reason") {
        Err(f) => {
            proof {
                reveal_strlit("reason");
            }
            return Err(f);
        },
        Ok(_) => {},
    }
    match tracker {
        None => Err(ToolFailure { message: "set_goal must be called before revise_goal".to_string() }),
        Some(t) => {
            let goal = GoalState {
                title: trimmed(args.goal.as_str()),
                status: args.status,
                complexity: args.complexity,
                success_criteria: clean_strings(args.success_criteria),
                notes: trimmed(args.notes.as_str()),
            };
            t.revise_goal(goal, trimmed(args.reason.as_str()));
            Ok(t.render_tool_snapshot())
        },
    }
}

/// `update_phase`: creates or changes a phase of the tracked goal.
pub fn update_phase(tracker: &mut Option<TaskTracker>, args: UpdatePhaseArgs) -> (r: Result<
    String,
    ToolFailure,
>)
    ensures
        if trim(args.phase_id@).len() == 0 {
            &&& r matches Err(f) && f.message@ == required_message("phase_id"@)
            &&& *final(tracker) == *old(tracker)
        } else if trim(args.title@).len() == 0 {
            &&& r matches Err(f) && f.message@ == required_message("title"@)
            &&& *final(tracker) == *old(tracker)
        } else if *old(tracker) is None {
            &&& r matches Err(f) && f.message@ == "set_goal must be called before update_phase"@
            &&& *final(tracker) == *old(tracker)
        } else {
            &&& r matches Ok(s) && *final(tracker) matches Some(t) && s@ == snapshot(t)
            &&& *final(tracker) matches Some(t) && t.goal == (*old(tracker))->0.goal && t.revisions == (*old(tracker))->0.revisions && noted_update(t)
            &&& *final(tracker) matches Some(t) && exists|u: PhaseUpdate|
                {
                    &&& u.id@ == trim(args.phase_id@)
                    &&& u.title@ == trim(args.title@)
                    &&& u.status == args.status
                    &&& u.complexity == args.complexity
                    &&& u.notes@ == trim(args.notes@)
                    &&& #[trigger] phases_updated((*old(tracker))->0.phases@, t.phases@, u)
                }
        },
{
    match require_nonempty(args.phase_id.as_str(), "phase_id") {
        Err(f) => {
            proof {
                reveal_strlit("phase_id");
            }
            return Err(f);
        },
        Ok(_) => {},
    }
    match require_nonempty(args.title.as_str(), "title") {
        Err(f) => {
            proof {
                reveal_strlit("title");
            }
            return Err(f);
        },
        Ok(_) => {},
    }
    match tracker {
        None => Err(ToolFailure { message: "set_goal must be called before update_phase".to_string() }),
        Some(t) => {
            let u = PhaseUpdate {
                id: trimmed(args.phase_id.as_str()),
                title: trimmed(args.title.as_str()),
                status: args.status,
                complexity: args.complexity,
                notes: trimmed(args.notes.as_str()),
            };
            let ghost gu = u;
            t.update_phase(u);
            let s = t.render_tool_snapshot();
            proof {
                assert(phases_updated((*old(tracker))->0.phases@, t.phases@, gu));
            }
            Ok(s)
        },
    }
}

/// `update_todo`: creates or changes a todo of a phase of the tracked goal.
pub fn update_todo(tracker: &mut Option<TaskTracker>, args: UpdateTodoArgs) -> (r: Result<
    String,
    ToolFailure,
>)
    ensures
        if trim(args.phase_id@).len() == 0 {
            &&& r matches Err(f) && f.message@ == required_message("phase_id"@)
            &&& *final(tracker) == *old(tracker)
        } else if trim(args.todo_id@).len() == 0 {
            &&& r matches Err(f) && f.message@ == required_message("todo_id"@)
            &&& *final(tracker) == *old(tracker)
        } else if trim(args.title@).len() == 0 {
            &&& r matches Err(f) && f.message@ == required_message("title"@)
            &&& *final(tracker) == *old(tracker)
        } else if *old(tracker) is None {
            &&& r matches Err(f) && f.message@ == "set_goal must be called before update_todo"@
            &&& *final(tracker) == *old(tracker)
        } else {
            let old_t = (*old(tracker))->0;
            match first_with_id(old_t.phases@, trim(args.phase_id@)) {
                None => {
                    &&& r matches Err(f) && f.message@ == "phase_id "@ + trim(args.phase_id@)
                        + " does not exist; call update_phase first"@
                    &&& *final(tracker) == *old(tracker)
                },
                Some(i) => {
                    &&& r matches Ok(s) && *final(tracker) matches Some(t) && s@ == snapshot(t)
                    &&& *final(tracker) matches Some(t) && t.phases@ == old_t.phases@.update(
                        i,
                        PhaseState { todos: t.phases@[i].todos, ..old_t.phases@[i] },
                    ) && t.goal == old_t.goal && t.revisions == old_t.revisions && noted_update(t)
                    &&& *final(tracker) matches Some(t) && exists|u: TodoUpdate|
                        {
                            &&& u.phase_id@ == trim(args.phase_id@)
                            &&& u.id@ == trim(args.todo_id@)
                            &&& u.title@ == trim(args.title@)
                            &&& u.status == args.status
                            &&& u.complexity == args.complexity
                            &&& u.notes@ == trim(args.notes@)
                            &&& t.phases@[i].todos@ == #[trigger] todos_after_update(
                                old_t.phases@[i].todos@,
                                u,
                            )
                        }
                },
            }
        },
{
    match require_nonempty(args.phase_id.as_str(), "phase_id") {
        Err(f) => {
            proof {
                reveal_strlit("phase_id");
            }
            return Err(f);
        },
        Ok(_) => {},
    }
    match require_nonempty(args.todo_id.as_str(), "todo_id") {
        Err(f) => {
            proof {
                reveal_strlit("todo_id");
            }
            return Err(f);
        },
        Ok(_) => {},
    }
    match require_nonempty(args.title.as_str(), "title") {
        Err(f) => {
            proof {
                reveal_strlit("title");
            }
            return Err(f);
        },
        Ok(_) => {},
    }
    match tracker {
        None => Err(ToolFailure { message: "set_goal must be called before update_todo".to_string() }),
        Some(t) => {
            let u = TodoUpdate {
                phase_id: trimmed(args.phase_id.as_str()),
                id: trimmed(args.todo_id.as_str()),
                title: trimmed(args.title.as_str()),
                status: args.status,
                complexity: args.complexity,
                notes: trimmed(args.notes.as_str()),
            };
            let ghost gu = u;
            match t.update_todo(u) {
                Err(e) => Err(ToolFailure { message: e.message() }),
                Ok(()) => {
                    let s = t.render_tool_snapshot();
                    proof {
                        let i = first_with_id((*old(tracker))->0.phases@, gu.phase_id@)->0;
                        assert(t.phases@[i].todos@ == todos_after_update(
                            (*old(tracker))->0.phases@[i].todos@,
                            gu,
                        ));
                    }
                    Ok(s)
                },
            }
        },
    }
}

/// What a completion call does while tracked work is still open.
#[derive(Clone, Copy, Debug, PartialEq, Eq, Structural)]
pub enum CompleteDecision {
    /// Nothing is open, or the summary explains why it stops: complete.
    Complete,
    /// First attempt with open work: warn and do not complete.
    Warn,
    /// Second attempt without the explanation: refuse.
    Refuse,
}

/// The decision of `complete`: with open tracked work, the first call only
/// warns; a later one completes only when the summary names a limitation and
/// an intent.
pub open spec fn complete_decision_of(open_work: bool, warned: bool, summary: Seq<char>) -> CompleteDecision {
    if !open_work {
        CompleteDecision::Complete
    } else if !warned {
        CompleteDecision::Warn
    } else if !names_limitation_and_intent(summary) {
        CompleteDecision::Refuse
    } else {
        CompleteDecision::Complete
    }
}

/// Completion of the task, as the agent records it.
#[derive(Clone, Debug)]
pub struct Completion {
    /// Whether the warning about open work was already given.
    pub open_work_warned: bool,
    /// The summary the task was completed with.
    pub summary: Option<String>,
}

/// `complete`: marks the task complete, warning once first when tracked
/// work is still open.
pub fn complete(state: &mut Completion, tracker: &Option<TaskTracker>, summary_text: &str) -> (r: Result<
    String,
    ToolFailure,
>)
    ensures
        if trim(summary_text@).len() == 0 {
            &&& r matches Err(f) && f.message@ == required_message("summary"@)
            &&& *final(state) == *old(state)
        } else {
            let open = *tracker matches Some(t) && open_phase_or_todo(t);
            match complete_decision_of(open, old(state).open_work_warned, summary_text@) {
                CompleteDecision::Warn => {
                    &&& r matches Ok(s) && s@
                        == "WARNING: tracked work is still open. Call complete again only if you intend to stop now, and include explicit \"Limitation\" and \"Intent\" text in summary."@
                    &&& final(state).open_work_warned
                    &&& final(state).summary == old(state).summary
                },
                CompleteDecision::Refuse => {
                    &&& r matches Err(f) && f.message@
                        == "tracked work is still open; second complete requires explicit Limitation and Intent in summary"@
                    &&& *final(state) == *old(state)
                },
                CompleteDecision::Complete => {
                    &&& r matches Ok(s) && s@ == "Task marked complete."@
                    &&& final(state).summary matches Some(x) && x@ == trim(summary_text@)
                    &&& final(state).open_work_warned == old(state).open_work_warned
                },
            }
        },
{
    match require_nonempty(summary_text, "summary") {
        Err(f) => {
            proof {
                reveal_strlit("summary");
            }
            return Err(f);
        },
        Ok(_) => {},
    }
    let open = match tracker {
        Some(t) => t.open_phase_or_todo_exists(),
        None => false,
    };
    if open {
        if !state.open_work_warned {
            state.open_work_warned = true;
            return Ok(
                "WARNING: tracked work is still open. Call complete again only if you intend to stop now, and include explicit \"Limitation\" and \"Intent\" text in summary.".to_string(),
            );
        }
        if !summary_has_limitation_and_intent(summary_text) {
            return Err(
                ToolFailure {
                    message: "tracked work is still open; second complete requires explicit Limitation and Intent in summary".to_string(),
                },
            );
        }
    }
    state.summary = Some(trimmed(summary_text));
    Ok("Task marked complete.".to_string())
}

/// `worker_complete`: a worker records its summary.
pub fn worker_complete(state: &mut Completion, summary_text: &str) -> (r: Result<String, ToolFailure>)
    ensures
        if trim(summary_text@).len() == 0 {
            &&& r matches Err(f) && f.message@ == required_message("summary"@)
            &&& *final(state) == *old(state)
        } else {
            &&& r matches Ok(s) && s@ == "Worker marked complete."@
            &&& final(state).summary matches Some(x) && x@ == trim(summary_text@)
            &&& final(state).open_work_warned == old(state).open_work_warned
        },
{
    match require_nonempty(summary_text, "summary") {
        Err(f) => {
            proof {
                reveal_strlit("summary");
            }
            return Err(f);
        },
        Ok(_) => {},
    }
    state.summary = Some(trimmed(summary_text));
    Ok("Worker marked complete.".to_string())
}

/// The answer of `worker_question`.
pub fn worker_question(question: &str) -> (r: String)
    ensures
        r@ == "[BLOCKER] Worker asks: "@ + question@,
{
    let mut s = String::new();
    s.append("[BLOCKER] Worker asks: ");
    s.append(question);
    s
}

/// The text of a handoff: the brief without trailing whitespace, then the
/// tracker's appendix (after a blank line when the brief is not empty).
pub open spec fn handoff_body(brief: Seq<char>, appendix: Seq<char>) -> Seq<char> {
    let b = trim_end(brief);
    if appendix.len() == 0 {
        b
    } else if b.len() == 0 {
        appendix
    } else {
        b + "\n\n"@ + appendix
    }
}

/// The text of a handoff.
pub fn handoff_text(brief: &str, appendix: &str) -> (r: String)
    ensures
        r@ == handoff_body(brief@, appendix@),
{
    let v = chars_of(brief);
    let e = skip_ws_backward(v.as_slice(), 0, v.len());
    proof {
        assert(v@.subrange(0, v@.len() as int) =~= v@);
    }
    let mut body = string_of(slice_range(v.as_slice(), 0, e).as_slice());
    proof {
        assert(v@.subrange(0, e as int) =~= trim_end(brief@));
    }
    if !appendix.is_empty() {
        if e > 0 {
            body.append("\n\n");
        }
        body.append(appendix);
    }
    body
}

} // verus!
