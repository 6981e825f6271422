//! The runtime task tracker: a goal, phases under it and todos under phases,
//! with reminders that nudge the agent when tracked work goes stale.
use vstd::prelude::*;
use crate::text::{
    chars_of, decimal, find, find_from, find_at_or_after, find_in, push_chars, push_decimal,
    skip_ws_backward, skip_ws_forward, str_eq, string_push, trim_end, trim_start,
    ws_prefix_len, ws_suffix_len,
};

verus! {

broadcast use vstd::string::group_string_axioms;

/// Non-tracking turns after which a stale nudge is due.
pub const STALE_NUDGE_TURNS: usize = 3;

/// The state of a goal, phase or todo.
#[derive(Debug, Clone, Copy, PartialEq, Eq, Structural)]
pub enum Status {
    Pending,
    InProgress,
    Completed,
    Blocked,
    Skipped,
}

/// Still needs work: neither completed nor skipped.
pub open spec fn is_open(s: Status) -> bool {
    !(s == Status::Completed || s == Status::Skipped)
}

impl Status {
    /// Whether the item still needs work.
    pub fn is_open(self) -> (r: bool)
        ensures
            r == is_open(self),
    {
        !(self == Status::Completed || self == Status::Skipped)
    }
}

/// How much work an item is.
#[derive(Debug, Clone, Copy, PartialEq, Eq, Structural)]
pub enum Complexity {
    Simple,
    Medium,
    Complex,
}

/// The overall goal.
#[derive(Debug, Clone, PartialEq, Eq)]
pub struct GoalState {
    pub title: String,
    pub status: Status,
    pub complexity: Complexity,
    pub success_criteria: Vec<String>,
    pub notes: String,
}

/// A goal that was replaced, with the reason for the change.
#[derive(Debug, Clone, PartialEq, Eq)]
pub struct GoalRevision {
    pub previous_goal: GoalState,
    pub reason: String,
}

/// A todo inside a phase.
#[derive(Debug, Clone, PartialEq, Eq)]
pub struct TodoState {
    pub id: String,
    pub title: String,
    pub status: Status,
    pub complexity: Complexity,
    pub notes: String,
}

/// A phase of the goal, with its todos.
#[derive(Debug, Clone, PartialEq, Eq)]
pub struct PhaseState {
    pub id: String,
    pub title: String,
    pub status: Status,
    pub complexity: Complexity,
    pub notes: String,
    pub todos: Vec<TodoState>,
}

/// A request to create or change a phase.
#[derive(Debug, Clone, PartialEq, Eq)]
pub struct PhaseUpdate {
    pub id: String,
    pub title: String,
    pub status: Status,
    pub complexity: Complexity,
    pub notes: String,
}

/// A request to create or change a todo of a phase.
#[derive(Debug, Clone, PartialEq, Eq)]
pub struct TodoUpdate {
    pub phase_id: String,
    pub id: String,
    pub title: String,
    pub status: Status,
    pub complexity: Complexity,
    pub notes: String,
}

/// The tracker: goal, revisions of it, phases, and the reminder bookkeeping.
#[derive(Debug, Clone, PartialEq, Eq)]
pub struct TaskTracker {
    pub version: u8,
    pub goal: GoalState,
    pub revisions: Vec<GoalRevision>,
    pub phases: Vec<PhaseState>,
    pub stale_turns: usize,
    pub stale_nudge_emitted: bool,
    pub pending_reminder: bool,
}

/// Why a tracker update was refused.
#[derive(Debug, Clone, PartialEq, Eq)]
pub enum TrackerError {
    /// A todo named a phase that does not exist.
    UnknownPhase { phase_id: String },
}

impl TrackerError {
    /// The human-readable message of the error.
    pub fn message(&self) -> (r: String)
        ensures
            match self {
                TrackerError::UnknownPhase { phase_id } => r@ == "phase_id "@ + phase_id@
                    + " does not exist; call update_phase first"@,
            },
    {
        match self {
            TrackerError::UnknownPhase { phase_id } => {
                let mut s = String::new();
                s.append("phase_id ");
                s.append(phase_id.as_str());
                s.append(" does not exist; call update_phase first");
                s
            },
        }
    }
}

/// Whether a tool call updates the tracker.
pub fn is_tracking_tool_name(name: &str) -> (r: bool)
    ensures
        r == (name@ == "set_goal"@ || name@ == "revise_goal"@ || name@ == "update_phase"@ || name@
            == "update_todo"@),
{
    str_eq(name, "set_goal") || str_eq(name, "revise_goal") || str_eq(name, "update_phase")
        || str_eq(name, "update_todo")
}

/// A phase, or one of its todos, still needs work.
pub open spec fn phase_has_open_work(p: PhaseState) -> bool {
    is_open(p.status) || exists|j: int| 0 <= j < p.todos@.len() && is_open(#[trigger] p.todos@[j].status)
}

/// Some phase or todo still needs work.
pub open spec fn open_phase_or_todo(t: TaskTracker) -> bool {
    exists|i: int| 0 <= i < t.phases@.len() && phase_has_open_work(#[trigger] t.phases@[i])
}

/// The goal, a phase or a todo still needs work.
pub open spec fn open_work(t: TaskTracker) -> bool {
    is_open(t.goal.status) || open_phase_or_todo(t)
}

/// A phase as it stands after another phase is started: an in-progress phase
/// with a different id falls back to pending.
pub open spec fn demoted(p: PhaseState, u: PhaseUpdate) -> PhaseState {
    if u.status == Status::InProgress && p.status == Status::InProgress && p.id@ != u.id@ {
        PhaseState { status: Status::Pending, ..p }
    } else {
        p
    }
}

/// Every phase after an update's demotion step.
pub open spec fn demote_all(ps: Seq<PhaseState>, u: PhaseUpdate) -> Seq<PhaseState> {
    ps.map_values(|p: PhaseState| demoted(p, u))
}

/// The first phase with the given id.
pub open spec fn first_with_id(ps: Seq<PhaseState>, id: Seq<char>) -> Option<int> {
    if exists|i: int| 0 <= i < ps.len() && (#[trigger] ps[i]).id@ == id {
        Some(
            choose|i: int|
                0 <= i < ps.len() && (#[trigger] ps[i]).id@ == id && forall|k: int|
                    0 <= k < i ==> (#[trigger] ps[k]).id@ != id,
        )
    } else {
        None
    }
}

/// The first todo with the given id.
pub open spec fn first_todo_with_id(ts: Seq<TodoState>, id: Seq<char>) -> Option<int> {
    if exists|i: int| 0 <= i < ts.len() && (#[trigger] ts[i]).id@ == id {
        Some(
            choose|i: int|
                0 <= i < ts.len() && (#[trigger] ts[i]).id@ == id && forall|k: int|
                    0 <= k < i ==> (#[trigger] ts[k]).id@ != id,
        )
    } else {
        None
    }
}

proof fn lemma_first_with_id(ps: Seq<PhaseState>, id: Seq<char>, i: int)
    requires
        0 <= i < ps.len(),
        ps[i].id@ == id,
        forall|k: int| 0 <= k < i ==> (#[trigger] ps[k]).id@ != id,
    ensures
        first_with_id(ps, id) == Some(i),
{
    let c = choose|c: int|
        0 <= c < ps.len() && (#[trigger] ps[c]).id@ == id && forall|k: int|
            0 <= k < c ==> (#[trigger] ps[k]).id@ != id;
    if c < i {
        assert(ps[c].id@ != id);
    } else if c > i {
        assert(ps[i].id@ != id);
    }
}

proof fn lemma_first_with_id_found(ps: Seq<PhaseState>, id: Seq<char>, j: int)
    requires
        0 <= j < ps.len(),
        ps[j].id@ == id,
    ensures
        first_with_id(ps, id) is Some,
        0 <= first_with_id(ps, id)->0 < ps.len(),
        ps[first_with_id(ps, id)->0].id@ == id,
    decreases j,
{
    if exists|k: int| 0 <= k < j && (#[trigger] ps[k]).id@ == id {
        let k = choose|k: int| 0 <= k < j && (#[trigger] ps[k]).id@ == id;
        lemma_first_with_id_found(ps, id, k);
    } else {
        lemma_first_with_id(ps, id, j);
    }
}

proof fn lemma_first_todo_with_id(ts: Seq<TodoState>, id: Seq<char>, i: int)
    requires
        0 <= i < ts.len(),
        ts[i].id@ == id,
        forall|k: int| 0 <= k < i ==> (#[trigger] ts[k]).id@ != id,
    ensures
        first_todo_with_id(ts, id) == Some(i),
{
    let c = choose|c: int|
        0 <= c < ts.len() && (#[trigger] ts[c]).id@ == id && forall|k: int|
            0 <= k < c ==> (#[trigger] ts[k]).id@ != id;
    if c < i {
        assert(ts[c].id@ != id);
    } else if c > i {
        assert(ts[i].id@ != id);
    }
}

/// The phases after an update: others demoted when the update starts its phase,
/// then the phase with the update's id changed in place, or a new phase, without
/// todos, appended.
pub open spec fn phases_updated(ps: Seq<PhaseState>, after: Seq<PhaseState>, u: PhaseUpdate) -> bool {
    let d = demote_all(ps, u);
    match first_with_id(d, u.id@) {
        Some(i) => after == d.update(
            i,
            PhaseState {
                title: u.title,
                status: u.status,
                complexity: u.complexity,
                notes: u.notes,
                ..d[i]
            },
        ),
        None => {
            &&& after.len() == d.len() + 1
            &&& after.take(d.len() as int) == d
            &&& after.last() == PhaseState {
                id: u.id,
                title: u.title,
                status: u.status,
                complexity: u.complexity,
                notes: u.notes,
                todos: after.last().todos,
            }
            &&& after.last().todos@.len() == 0
        },
    }
}

/// The todos of a phase after an update: the todo with the update's id changed
/// in place, or a new todo appended.
pub open spec fn todos_after_update(ts: Seq<TodoState>, u: TodoUpdate) -> Seq<TodoState> {
    match first_todo_with_id(ts, u.id@) {
        Some(i) => ts.update(
            i,
            TodoState {
                title: u.title,
                status: u.status,
                complexity: u.complexity,
                notes: u.notes,
                ..ts[i]
            },
        ),
        None => ts.push(
            TodoState {
                id: u.id,
                title: u.title,
                status: u.status,
                complexity: u.complexity,
                notes: u.notes,
            },
        ),
    }
}

/// The reminder bookkeeping after a tracker update: a reminder is pending and the
/// stale count starts over.
pub open spec fn noted_update(t: TaskTracker) -> bool {
    t.pending_reminder && t.stale_turns == 0 && !t.stale_nudge_emitted
}

impl TaskTracker {
    /// A tracker for a fresh goal; its first reminder is pending.
    pub fn new(goal: GoalState) -> (t: Self)
        ensures
            t.version == 1,
            t.goal == goal,
            t.revisions@.len() == 0,
            t.phases@.len() == 0,
            noted_update(t),
    {
        TaskTracker {
            version: 1,
            goal,
            revisions: Vec::new(),
            phases: Vec::new(),
            stale_turns: 0,
            stale_nudge_emitted: false,
            pending_reminder: true,
        }
    }

    fn note_tracking_update(&mut self)
        ensures
            final(self).version == old(self).version,
            final(self).goal == old(self).goal,
            final(self).revisions == old(self).revisions,
            final(self).phases == old(self).phases,
            noted_update(*final(self)),
    {
        self.pending_reminder = true;
        self.stale_turns = 0;
        self.stale_nudge_emitted = false;
    }

    /// Replaces the goal, keeping the previous one with the reason among the revisions.
    pub fn revise_goal(&mut self, next: GoalState, reason: String)
        ensures
            final(self).goal == next,
            final(self).revisions@ == old(self).revisions@.push(
                GoalRevision { previous_goal: old(self).goal, reason },
            ),
            final(self).phases == old(self).phases,
            final(self).version == old(self).version,
            noted_update(*final(self)),
    {
        let mut prev = next;
        std::mem::swap(&mut self.goal, &mut prev);
        self.revisions.push(GoalRevision { previous_goal: prev, reason });
        self.note_tracking_update();
    }

    /// Creates or changes a phase; starting a phase sets every other in-progress
    /// phase back to pending.
    pub fn update_phase(&mut self, update: PhaseUpdate)
        ensures
            phases_updated(old(self).phases@, final(self).phases@, update),
            final(self).goal == old(self).goal,
            final(self).revisions == old(self).revisions,
            final(self).version == old(self).version,
            noted_update(*final(self)),
    {
        let ghost u = update;
        let ghost d = demote_all(old(self).phases@, u);
        if update.status == Status::InProgress {
            let mut i: usize = 0;
            while i < self.phases.len()
                invariant
                    i <= self.phases@.len(),
                    self.phases@.len() == old(self).phases@.len(),
                    u == update,
                    d == demote_all(old(self).phases@, u),
                    update.status == Status::InProgress,
                    forall|k: int| 0 <= k < i ==> #[trigger] self.phases@[k] == d[k],
                    forall|k: int|
                        i <= k < self.phases@.len() ==> #[trigger] self.phases@[k]
                            == old(self).phases@[k],
                    self.goal == old(self).goal,
                    self.revisions == old(self).revisions,
                    self.version == old(self).version,
                decreases self.phases.len() - i,
            {
                if self.phases[i].status == Status::InProgress && !str_eq(
                    self.phases[i].id.as_str(),
                    update.id.as_str(),
                ) {
                    self.phases[i].status = Status::Pending;
                }
                i += 1;
            }
        } else {
            assert forall|k: int| 0 <= k < self.phases@.len() implies #[trigger] self.phases@[k]
                == d[k] by {}
        }
        assert(self.phases@ =~= d);
        let mut f: usize = 0;
        while f < self.phases.len() && !str_eq(self.phases[f].id.as_str(), update.id.as_str())
            invariant
                f <= self.phases@.len(),
                self.phases@ == d,
                forall|k: int| 0 <= k < f ==> (#[trigger] d[k]).id@ != update.id@,
            decreases self.phases.len() - f,
        {
            f += 1;
        }
        if f < self.phases.len() {
            proof {
                lemma_first_with_id(d, update.id@, f as int);
            }
            let PhaseUpdate { id: _, title, status, complexity, notes } = update;
            self.phases[f].title = title;
            self.phases[f].status = status;
            self.phases[f].complexity = complexity;
            self.phases[f].notes = notes;
            assert(self.phases@ =~= d.update(
                f as int,
                PhaseState {
                    title: u.title,
                    status: u.status,
                    complexity: u.complexity,
                    notes: u.notes,
                    ..d[f as int]
                },
            ));
        } else {
            let PhaseUpdate { id, title, status, complexity, notes } = update;
            self.phases.push(PhaseState { id, title, status, complexity, notes, todos: Vec::new() });
            proof {
                assert(first_with_id(d, u.id@) is None);
                assert(self.phases@.take(d.len() as int) =~= d);
            }
        }
        self.note_tracking_update();
    }

    /// Creates or changes a todo of an existing phase.
    pub fn update_todo(&mut self, update: TodoUpdate) -> (r: Result<(), TrackerError>)
        ensures
            match first_with_id(old(self).phases@, update.phase_id@) {
                None => {
                    &&& r == Err::<(), TrackerError>(
                        TrackerError::UnknownPhase { phase_id: update.phase_id },
                    )
                    &&& *final(self) == *old(self)
                },
                Some(i) => {
                    &&& r is Ok
                    &&& final(self).phases@ == old(self).phases@.update(
                        i,
                        PhaseState {
                            todos: final(self).phases@[i].todos,
                            ..old(self).phases@[i]
                        },
                    )
                    &&& final(self).phases@[i].todos@ == todos_after_update(
                        old(self).phases@[i].todos@,
                        update,
                    )
                    &&& final(self).goal == old(self).goal
                    &&& final(self).revisions == old(self).revisions
                    &&& final(self).version == old(self).version
                    &&& noted_update(*final(self))
                },
            },
    {
        let ghost u = update;
        let mut f: usize = 0;
        while f < self.phases.len() && !str_eq(self.phases[f].id.as_str(), update.phase_id.as_str())
            invariant
                f <= self.phases@.len(),
                self == old(self),
                forall|k: int| 0 <= k < f ==> (#[trigger] self.phases@[k]).id@ != update.phase_id@,
            decreases self.phases.len() - f,
        {
            f += 1;
        }
        if f == self.phases.len() {
            proof {
                assert(first_with_id(old(self).phases@, u.phase_id@) is None);
            }
            return Err(TrackerError::UnknownPhase { phase_id: update.phase_id });
        }
        proof {
            lemma_first_with_id(old(self).phases@, u.phase_id@, f as int);
        }
        let ghost ts = old(self).phases@[f as int].todos@;
        let mut g: usize = 0;
        while g < self.phases[f].todos.len() && !str_eq(
            self.phases[f].todos[g].id.as_str(),
            update.id.as_str(),
        )
            invariant
                f < self.phases@.len(),
                self == old(self),
                ts == self.phases@[f as int].todos@,
                g <= ts.len(),
                forall|k: int| 0 <= k < g ==> (#[trigger] ts[k]).id@ != update.id@,
            decreases self.phases@[f as int].todos@.len() - g,
        {
            g += 1;
        }
        let TodoUpdate { phase_id: _, id, title, status, complexity, notes } = update;
        if g < self.phases[f].todos.len() {
            proof {
                lemma_first_todo_with_id(ts, u.id@, g as int);
            }
            self.phases[f].todos[g].title = title;
            self.phases[f].todos[g].status = status;
            self.phases[f].todos[g].complexity = complexity;
            self.phases[f].todos[g].notes = notes;
        } else {
            self.phases[f].todos.push(TodoState { id, title, status, complexity, notes });
        }
        proof {
            assert(self.phases@[f as int].todos@ =~= todos_after_update(ts, u));
            assert(self.phases@ =~= old(self).phases@.update(
                f as int,
                PhaseState { todos: self.phases@[f as int].todos, ..old(self).phases@[f as int] },
            ));
        }
        self.note_tracking_update();
        Ok(())
    }
}

// ---------------------------------------------------------------------------
// Rendering

/// The name of a status.
pub open spec fn status_str(s: Status) -> Seq<char> {
    match s {
        Status::Pending => "pending"@,
        Status::InProgress => "in_progress"@,
        Status::Completed => "completed"@,
        Status::Blocked => "blocked"@,
        Status::Skipped => "skipped"@,
    }
}

/// The name of a complexity.
pub open spec fn complexity_str(c: Complexity) -> Seq<char> {
    match c {
        Complexity::Simple => "simple"@,
        Complexity::Medium => "medium"@,
        Complexity::Complex => "complex"@,
    }
}

fn format_status(s: Status) -> (r: &'static str)
    ensures
        r@ == status_str(s),
{
    match s {
        Status::Pending => "pending",
        Status::InProgress => "in_progress",
        Status::Completed => "completed",
        Status::Blocked => "blocked",
        Status::Skipped => "skipped",
    }
}

fn format_complexity(c: Complexity) -> (r: &'static str)
    ensures
        r@ == complexity_str(c),
{
    match c {
        Complexity::Simple => "simple",
        Complexity::Medium => "medium",
        Complexity::Complex => "complex",
    }
}

/// `[status|complexity] `
pub open spec fn tag(s: Status, c: Complexity) -> Seq<char> {
    seq!['['] + status_str(s) + seq!['|'] + complexity_str(c) + seq![']', ' ']
}

/// The success-criteria lines for the first `i` criteria.
pub open spec fn success_lines(cs: Seq<String>, i: int) -> Seq<char>
    decreases i,
{
    if i <= 0 {
        Seq::empty()
    } else {
        success_lines(cs, i - 1) + "  success: "@ + cs[i - 1]@ + seq!['\n']
    }
}

/// How many phases have the given status.
pub open spec fn count_status(ps: Seq<PhaseState>, st: Status) -> nat
    decreases ps.len(),
{
    if ps.len() == 0 {
        0
    } else {
        count_status(ps.drop_last(), st) + if ps.last().status == st {
            1nat
        } else {
            0nat
        }
    }
}

/// The todo lines of phase `p` for its first `j` todos, starting with `e` lines
/// already emitted; with the count of emitted lines after them.
pub open spec fn todo_items(p: PhaseState, j: int, e: nat) -> (Seq<char>, nat)
    decreases j,
{
    if j <= 0 {
        (Seq::empty(), e)
    } else {
        let (s, e2) = todo_items(p, j - 1, e);
        let t = p.todos@[j - 1];
        if is_open(t.status) && e2 < 8 {
            (
                s + "  - todo("@ + p.id@ + seq!['/'] + t.id@ + seq![')', ' '] + tag(
                    t.status,
                    t.complexity,
                ) + t.title@ + seq!['\n'],
                e2 + 1,
            )
        } else {
            (s, e2)
        }
    }
}

/// The lines of one phase and its todos, starting with `e` lines emitted.
pub open spec fn phase_item(p: PhaseState, e: nat) -> (Seq<char>, nat) {
    let (s1, e1) = if is_open(p.status) && e < 4 {
        (
            "- phase("@ + p.id@ + seq![')', ' '] + tag(p.status, p.complexity) + p.title@ + seq![
                '\n',
            ],
            e + 1,
        )
    } else {
        (Seq::empty(), e)
    };
    let (s2, e2) = todo_items(p, p.todos@.len() as int, e1);
    (s1 + s2, e2)
}

/// The lines of the open items of the first `i` phases: at most four phase
/// lines, and todo lines while fewer than eight lines are out.
pub open spec fn open_items(ps: Seq<PhaseState>, i: int) -> (Seq<char>, nat)
    decreases i,
{
    if i <= 0 {
        (Seq::empty(), 0)
    } else {
        let (s, e) = open_items(ps, i - 1);
        let (s2, e2) = phase_item(ps[i - 1], e);
        (s + s2, e2)
    }
}

/// The goal's lines of the summary: title, notes, up to four success criteria.
pub open spec fn goal_block(g: GoalState) -> Seq<char> {
    let ncrit = if g.success_criteria@.len() < 4 {
        g.success_criteria@.len() as int
    } else {
        4
    };
    "- Goal: "@ + tag(g.status, g.complexity) + g.title@ + seq!['\n'] + (if g.notes@.len() == 0 {
        Seq::empty()
    } else {
        "  notes: "@ + g.notes@ + seq!['\n']
    }) + success_lines(g.success_criteria@, ncrit)
}

/// The line counting goal revisions, when there are any.
pub open spec fn revisions_line(n: nat) -> Seq<char> {
    if n == 0 {
        Seq::empty()
    } else {
        "- Goal revisions: "@ + decimal(n) + seq!['\n']
    }
}

/// The line counting phases by status.
pub open spec fn counts_line(ps: Seq<PhaseState>) -> Seq<char> {
    "- Phases: pending="@ + decimal(count_status(ps, Status::Pending)) + " in_progress="@ + decimal(
        count_status(ps, Status::InProgress),
    ) + " blocked="@ + decimal(count_status(ps, Status::Blocked)) + " completed="@ + decimal(
        count_status(ps, Status::Completed),
    ) + " skipped="@ + decimal(count_status(ps, Status::Skipped)) + seq!['\n']
}

/// The summary of the tracker shown in reminders and snapshots.
pub open spec fn summary(t: TaskTracker) -> Seq<char> {
    goal_block(t.goal) + revisions_line(t.revisions@.len()) + counts_line(t.phases@) + open_items(
        t.phases@,
        t.phases@.len() as int,
    ).0
}

/// The reminder text; `stale` adds the stale-work line.
pub open spec fn reminder(t: TaskTracker, stale: bool) -> Seq<char> {
    "<system_reminder kind=\"task_tracking\">\n"@
        + "Task tracker already exists. Do not call `set_goal` again.\n"@ + summary(t) + (if stale {
        "- Stale: non-tracking work progressed for "@ + decimal(t.stale_turns as nat)
            + " turns without tracker updates.\n"@
    } else {
        Seq::empty()
    })
        + "- Keep Goal -> Phases -> Todos current with update_phase/update_todo. Use revise_goal only if the objective changed.\n"@
        + "</system_reminder>"@
}

fn push_tag(out: &mut String, s: Status, c: Complexity)
    ensures
        final(out)@ == old(out)@ + tag(s, c),
{
    string_push(out, '[');
    out.append(format_status(s));
    string_push(out, '|');
    out.append(format_complexity(c));
    string_push(out, ']');
    string_push(out, ' ');
    assert(final(out)@ =~= old(out)@ + tag(s, c));
}

fn push_todo_items(out: &mut String, p: &PhaseState, e: usize) -> (r: usize)
    requires
        e <= 8,
    ensures
        final(out)@ == old(out)@ + todo_items(*p, p.todos@.len() as int, e as nat).0,
        r == todo_items(*p, p.todos@.len() as int, e as nat).1,
        r <= 8,
{
    let ghost start = out@;
    let mut emitted = e;
    let mut j: usize = 0;
    while j < p.todos.len()
        invariant
            j <= p.todos@.len(),
            e <= 8,
            emitted <= 8,
            out@ == start + todo_items(*p, j as int, e as nat).0,
            emitted == todo_items(*p, j as int, e as nat).1,
        decreases p.todos.len() - j,
    {
        let t = &p.todos[j];
        let ghost before = out@;
        if t.status.is_open() && emitted < 8 {
            out.append("  - todo(");
            out.append(p.id.as_str());
            string_push(out, '/');
            out.append(t.id.as_str());
            string_push(out, ')');
            string_push(out, ' ');
            push_tag(out, t.status, t.complexity);
            out.append(t.title.as_str());
            string_push(out, '\n');
            emitted = emitted + 1;
            assert(out@ =~= start + todo_items(*p, j + 1, e as nat).0);
        }
        j += 1;
    }
    emitted
}

fn push_open_items(out: &mut String, ps: &Vec<PhaseState>)
    ensures
        final(out)@ == old(out)@ + open_items(ps@, ps@.len() as int).0,
{
    let ghost start = out@;
    let mut emitted: usize = 0;
    let mut i: usize = 0;
    while i < ps.len()
        invariant
            i <= ps@.len(),
            emitted <= 8,
            out@ == start + open_items(ps@, i as int).0,
            emitted == open_items(ps@, i as int).1,
        decreases ps.len() - i,
    {
        let p = &ps[i];
        let ghost before = out@;
        let ghost e0 = emitted as nat;
        if p.status.is_open() && emitted < 4 {
            out.append("- phase(");
            out.append(p.id.as_str());
            string_push(out, ')');
            string_push(out, ' ');
            push_tag(out, p.status, p.complexity);
            out.append(p.title.as_str());
            string_push(out, '\n');
            emitted = emitted + 1;
        }
        let ghost mid = out@;
        assert(mid =~= before + phase_item_head(*p, e0));
        emitted = push_todo_items(out, p, emitted);
        assert(out@ =~= start + open_items(ps@, i + 1).0);
        i += 1;
    }
}

/// The phase line of `phase_item`.
pub open spec fn phase_item_head(p: PhaseState, e: nat) -> Seq<char> {
    if is_open(p.status) && e < 4 {
        "- phase("@ + p.id@ + seq![')', ' '] + tag(p.status, p.complexity) + p.title@ + seq!['\n']
    } else {
        Seq::empty()
    }
}

fn count_phases(ps: &Vec<PhaseState>, st: Status) -> (r: u64)
    ensures
        r == count_status(ps@, st),
{
    let mut c: u64 = 0;
    let mut i: usize = 0;
    assert(ps@.take(0) =~= Seq::<PhaseState>::empty());
    while i < ps.len()
        invariant
            i <= ps@.len(),
            c == count_status(ps@.take(i as int), st),
            c <= i,
        decreases ps.len() - i,
    {
        assert(ps@.take(i + 1).drop_last() == ps@.take(i as int));
        if ps[i].status == st {
            c = c + 1;
        }
        i += 1;
    }
    assert(ps@.take(ps@.len() as int) == ps@);
    c
}

fn push_goal_block(out: &mut String, g: &GoalState)
    ensures
        final(out)@ == old(out)@ + goal_block(*g),
{
    let ghost start = out@;
    out.append("- Goal: ");
    push_tag(out, g.status, g.complexity);
    out.append(g.title.as_str());
    string_push(out, '\n');
    if !g.notes.as_str().is_empty() {
        out.append("  notes: ");
        out.append(g.notes.as_str());
        string_push(out, '\n');
    }
    let ghost after_notes = out@;
    let ncrit = if g.success_criteria.len() < 4 {
        g.success_criteria.len()
    } else {
        4
    };
    let mut c: usize = 0;
    while c < ncrit
        invariant
            c <= ncrit <= g.success_criteria@.len(),
            out@ == after_notes + success_lines(g.success_criteria@, c as int),
        decreases ncrit - c,
    {
        out.append("  success: ");
        out.append(g.success_criteria[c].as_str());
        string_push(out, '\n');
        assert(out@ =~= after_notes + success_lines(g.success_criteria@, c + 1));
        c += 1;
    }
    assert(out@ =~= start + goal_block(*g));
}

fn push_counts_line(out: &mut String, ps: &Vec<PhaseState>)
    ensures
        final(out)@ == old(out)@ + counts_line(ps@),
{
    let ghost start = out@;
    out.append("- Phases: pending=");
    push_decimal(out, count_phases(ps, Status::Pending));
    out.append(" in_progress=");
    push_decimal(out, count_phases(ps, Status::InProgress));
    out.append(" blocked=");
    push_decimal(out, count_phases(ps, Status::Blocked));
    out.append(" completed=");
    push_decimal(out, count_phases(ps, Status::Completed));
    out.append(" skipped=");
    push_decimal(out, count_phases(ps, Status::Skipped));
    string_push(out, '\n');
    assert(out@ =~= start + counts_line(ps@));
}

/// A stale nudge is due: open work, no nudge since the last update, and enough
/// non-tracking turns.
pub open spec fn nudge_due(t: TaskTracker) -> bool {
    open_work(t) && !t.stale_nudge_emitted && t.stale_turns >= STALE_NUDGE_TURNS
}

/// Some reminder is due.
pub open spec fn reminder_due(t: TaskTracker) -> bool {
    t.pending_reminder || nudge_due(t)
}

/// The tracker after `take_reminder`.
pub open spec fn after_take(t: TaskTracker) -> TaskTracker {
    if reminder_due(t) {
        TaskTracker {
            pending_reminder: false,
            stale_nudge_emitted: t.stale_nudge_emitted || nudge_due(t),
            ..t
        }
    } else {
        t
    }
}

impl TaskTracker {
    /// Whether the goal, a phase or a todo still needs work.
    pub fn open_work_exists(&self) -> (r: bool)
        ensures
            r == open_work(*self),
    {
        self.goal.status.is_open() || self.open_phase_or_todo_exists()
    }

    /// Whether a phase or a todo still needs work; the goal does not count.
    pub fn open_phase_or_todo_exists(&self) -> (r: bool)
        ensures
            r == open_phase_or_todo(*self),
    {
        let mut i: usize = 0;
        while i < self.phases.len()
            invariant
                i <= self.phases@.len(),
                forall|k: int| 0 <= k < i ==> !phase_has_open_work(#[trigger] self.phases@[k]),
            decreases self.phases.len() - i,
        {
            if self.phases[i].status.is_open() {
                return true;
            }
            let mut j: usize = 0;
            while j < self.phases[i].todos.len()
                invariant
                    i < self.phases@.len(),
                    j <= self.phases@[i as int].todos@.len(),
                    forall|k: int|
                        0 <= k < j ==> !is_open(#[trigger] self.phases@[i as int].todos@[k].status),
                decreases self.phases@[i as int].todos@.len() - j,
            {
                if self.phases[i].todos[j].status.is_open() {
                    assert(phase_has_open_work(self.phases@[i as int]));
                    return true;
                }
                j += 1;
            }
            assert(!phase_has_open_work(self.phases@[i as int]));
            i += 1;
        }
        false
    }

    /// Records one tool turn: a tracker update starts the stale count over;
    /// other meaningful work adds one to it.
    pub fn note_tool_turn(&mut self, saw_tracking_update: bool, saw_meaningful_non_tracking: bool)
        ensures
            final(self).goal == old(self).goal,
            final(self).revisions == old(self).revisions,
            final(self).phases == old(self).phases,
            final(self).version == old(self).version,
            saw_tracking_update ==> noted_update(*final(self)),
            !saw_tracking_update ==> {
                &&& final(self).pending_reminder == old(self).pending_reminder
                &&& final(self).stale_nudge_emitted == old(self).stale_nudge_emitted
                &&& final(self).stale_turns == if saw_meaningful_non_tracking {
                    if old(self).stale_turns == usize::MAX {
                        usize::MAX
                    } else {
                        (old(self).stale_turns + 1) as usize
                    }
                } else {
                    old(self).stale_turns
                }
            },
    {
        if saw_tracking_update {
            self.note_tracking_update();
            return;
        }
        if saw_meaningful_non_tracking {
            self.stale_turns = self.stale_turns.saturating_add(1);
        }
    }

    /// Marks the tracker as restored from a handoff: a reminder is due.
    pub fn mark_restored(&mut self)
        ensures
            *final(self) == (TaskTracker { pending_reminder: true, ..*old(self) }),
    {
        self.pending_reminder = true;
    }

    /// The text the tracker summary shows in tool results.
    pub fn render_tool_snapshot(&self) -> (r: String)
        ensures
            r@ == "Task tracking state:\n"@ + summary(*self),
    {
        let mut out = String::new();
        out.append("Task tracking state:\n");
        self.push_summary(&mut out);
        out
    }

    fn push_summary(&self, out: &mut String)
        ensures
            final(out)@ == old(out)@ + summary(*self),
    {
        let ghost start = out@;
        push_goal_block(out, &self.goal);
        let ghost a = out@;
        if self.revisions.len() > 0 {
            out.append("- Goal revisions: ");
            push_decimal(out, self.revisions.len() as u64);
            string_push(out, '\n');
        }
        assert(out@ =~= a + revisions_line(self.revisions@.len()));
        let ghost b = out@;
        push_counts_line(out, &self.phases);
        let ghost c = out@;
        push_open_items(out, &self.phases);
        assert(out@ =~= start + summary(*self));
    }

    /// The reminder text; `stale_nudge` adds the stale-work line.
    fn render_compact_reminder(&self, stale_nudge: bool) -> (r: String)
        ensures
            r@ == reminder(*self, stale_nudge),
    {
        let mut body = String::new();
        body.append("<system_reminder kind=\"task_tracking\">\n");
        body.append("Task tracker already exists. Do not call `set_goal` again.\n");
        self.push_summary(&mut body);
        if stale_nudge {
            body.append("- Stale: non-tracking work progressed for ");
            push_decimal(&mut body, self.stale_turns as u64);
            body.append(" turns without tracker updates.\n");
        }
        body.append("- Keep Goal -> Phases -> Todos current with update_phase/update_todo. Use revise_goal only if the objective changed.\n",
        );
        body.append("</system_reminder>");
        assert(body@ =~= reminder(*self, stale_nudge));
        body
    }

    /// Takes the due reminder, if any: one is due when marked pending, or, once,
    /// when open work has gone stale for `STALE_NUDGE_TURNS` turns.
    pub fn take_reminder(&mut self) -> (r: Option<String>)
        ensures
            *final(self) == after_take(*old(self)),
            r is Some <==> reminder_due(*old(self)),
            r matches Some(text) ==> text@ == reminder(*final(self), nudge_due(*old(self))),
    {
        let stale_nudge = self.open_work_exists() && !self.stale_nudge_emitted && self.stale_turns
            >= STALE_NUDGE_TURNS;
        if !self.pending_reminder && !stale_nudge {
            return None;
        }
        if stale_nudge {
            self.stale_nudge_emitted = true;
        }
        self.pending_reminder = false;
        Some(self.render_compact_reminder(stale_nudge))
    }
}

// ---------------------------------------------------------------------------
// Handoff text

/// Opening marker of the tracker state embedded in a handoff.
pub const HANDOFF_STATE_START: &'static str = "<ogent_task_tracker_state>";

/// Closing marker of the tracker state embedded in a handoff.
pub const HANDOFF_STATE_END: &'static str = "</ogent_task_tracker_state>";

pub open spec fn start_marker() -> Seq<char> {
    "<ogent_task_tracker_state>"@
}

pub open spec fn end_marker() -> Seq<char> {
    "</ogent_task_tracker_state>"@
}

/// Where the embedded state lies in a handoff text: the start of the opening
/// marker, the first character after it, and the start of the first closing
/// marker after that.
pub open spec fn state_block(text: Seq<char>) -> Option<(int, int, int)> {
    match find(text, start_marker()) {
        None => None,
        Some(st) => {
            let after = st + start_marker().len();
            match find_from(text, end_marker(), after) {
                None => None,
                Some(e) => Some((st, after, e)),
            }
        },
    }
}

/// A handoff text with the embedded tracker state removed.
pub open spec fn stripped_handoff(text: Seq<char>) -> Seq<char> {
    match state_block(text) {
        None => text,
        Some((st, after, e)) => {
            let head = trim_end(text.take(st));
            let tail = trim_start(text.skip(e + end_marker().len()));
            head + (if head.len() > 0 && tail.len() > 0 {
                seq!['\n', '\n']
            } else {
                Seq::empty()
            }) + tail
        },
    }
}

/// The embedded tracker state of a handoff text, trimmed.
pub open spec fn state_payload(text: Seq<char>) -> Option<Seq<char>> {
    match state_block(text) {
        None => None,
        Some((st, after, e)) => Some(crate::text::trim(text.subrange(after, e))),
    }
}

/// The heading of the handoff appendix.
pub open spec fn handoff_heading() -> Seq<char> {
    "## Runtime Task Tracking\n\n"@
}

/// The handoff appendix of a tracker: the heading, its summary, then the
/// serialized state between the markers, each on lines of their own.
pub open spec fn handoff_appendix(t: TaskTracker, state_json: Seq<char>) -> Seq<char> {
    handoff_heading() + summary(t) + seq!['\n'] + start_marker() + seq!['\n'] + state_json + seq!['\n']
        + end_marker()
}

/// Locates the embedded state block.
fn locate_state_block(v: &Vec<char>) -> (r: Option<(usize, usize, usize)>)
    ensures
        match r {
            None => state_block(v@) is None,
            Some((st, after, e)) => state_block(v@) == Some((st as int, after as int, e as int))
                && st <= after <= e && e + end_marker().len() <= v@.len(),
        },
{
    let sm = chars_of("<ogent_task_tracker_state>");
    let em = chars_of("</ogent_task_tracker_state>");
    let st = match find_in(v, &sm) {
        None => {
            return None;
        },
        Some(st) => st,
    };
    proof {
        crate::text::lemma_find_from_facts(v@, sm@, 0);
    }
    assert(crate::text::occurs_at(v@, sm@, st as int));
    assert(st + sm@.len() <= v@.len());
    assert(st + sm.len() <= v.len());
    let after = st + sm.len();
    let e = match find_at_or_after(v, &em, after) {
        None => {
            return None;
        },
        Some(e) => e,
    };
    proof {
        crate::text::lemma_find_from_facts(v@, em@, after as int);
    }
    assert(crate::text::occurs_at(v@, em@, e as int));
    Some((st, after, e))
}

impl TaskTracker {
    /// A handoff text with the embedded tracker state and its markers removed;
    /// the text around it is joined by one blank line.
    pub fn strip_handoff_state_block(text: &str) -> (r: String)
        ensures
            r@ == stripped_handoff(text@),
    {
        let v = chars_of(text);
        match locate_state_block(&v) {
            None => crate::text::string_of(&v),
            Some((st, after, e)) => {
                let em = chars_of("</ogent_task_tracker_state>");
                assert(em@ == end_marker());
                assert(e + em.len() <= v.len());
                let end = e + em.len();
                let hb = skip_ws_backward(&v, 0, st);
                let ta = skip_ws_forward(&v, end, v.len());
                let mut out = crate::text::string_of_range(&v, 0, hb);
                proof {
                    assert(v@.subrange(0, st as int) == v@.take(st as int));
                    assert(v@.subrange(end as int, v@.len() as int) == v@.skip(end as int));
                }
                if hb > 0 && ta < v.len() {
                    string_push(&mut out, '\n');
                    string_push(&mut out, '\n');
                }
                let tail = crate::text::slice_range(&v, ta, v.len());
                push_chars(&mut out, &tail);
                assert(out@ =~= stripped_handoff(text@));
                out
            },
        }
    }

    /// The embedded tracker state of a handoff text, trimmed, when both markers are present.
    pub fn handoff_state_payload(text: &str) -> (r: Option<String>)
        ensures
            match r {
                None => state_payload(text@) is None,
                Some(p) => state_payload(text@) == Some(p@),
            },
    {
        let v = chars_of(text);
        match locate_state_block(&v) {
            None => None,
            Some((st, after, e)) => {
                let (a, b) = crate::text::trim_bounds(&v, after, e);
                Some(crate::text::string_of_range(&v, a, b))
            },
        }
    }

    /// The handoff appendix: a heading, the summary, then the given serialized
    /// state between the markers.
    pub fn render_handoff_appendix_with(&self, state_json: &str) -> (r: String)
        ensures
            r@ == handoff_appendix(*self, state_json@),
    {
        let mut out = String::new();
        out.append("## Runtime Task Tracking\n\n");
        self.push_summary(&mut out);
        string_push(&mut out, '\n');
        out.append("<ogent_task_tracker_state>");
        string_push(&mut out, '\n');
        out.append(state_json);
        string_push(&mut out, '\n');
        out.append("</ogent_task_tracker_state>");
        out
    }
}

// ---------------------------------------------------------------------------
// The handoff round trip

/// The first occurrence of `p` at or after `from` is at `k` when it occurs
/// there and nowhere between.
proof fn lemma_find_from_first(v: Seq<char>, p: Seq<char>, from: int, k: int)
    requires
        0 <= from <= k,
        crate::text::occurs_at(v, p, k),
        forall|j: int| from <= j < k ==> !crate::text::occurs_at(v, p, j),
    ensures
        find_from(v, p, from) == Some(k),
    decreases k - from,
{
    if from < k {
        assert(!crate::text::occurs_at(v, p, from));
        lemma_find_from_first(v, p, from + 1, k);
    }
}

/// A whitespace character in front changes no trimming at the start.
proof fn lemma_trim_start_ws_front(c: char, x: Seq<char>)
    requires
        crate::text::is_ws(c),
    ensures
        trim_start(seq![c] + x) == trim_start(x),
{
    let y = seq![c] + x;
    assert(y.drop_first() =~= x);
    assert(ws_prefix_len(y) == 1 + ws_prefix_len(x));
    crate::text::lemma_ws_prefix_bounds(x);
    assert(y.skip(ws_prefix_len(y) as int) =~= x.skip(ws_prefix_len(x) as int));
}

/// A whitespace character at the end changes no trimming at the end.
proof fn lemma_trim_end_ws_back(x: Seq<char>, c: char)
    requires
        crate::text::is_ws(c),
    ensures
        trim_end(x.push(c)) == trim_end(x),
{
    let y = x.push(c);
    assert(y.drop_last() =~= x);
    assert(ws_suffix_len(y) == 1 + ws_suffix_len(x));
    crate::text::lemma_ws_suffix_bounds(x);
    assert(y.take(y.len() - ws_suffix_len(y)) =~= x.take(x.len() - ws_suffix_len(x)));
}

/// Trimming a text with whitespace on both sides trims the text.
proof fn lemma_trim_newlines(x: Seq<char>)
    ensures
        crate::text::trim(seq!['\n'] + x + seq!['\n']) == crate::text::trim(x),
{
    let y = x.push('\n');
    assert(seq!['\n'] + x + seq!['\n'] =~= seq!['\n'] + y);
    lemma_trim_start_ws_front('\n', y);
    crate::text::lemma_ws_prefix_bounds(x);
    let k = ws_prefix_len(x);
    if k < x.len() {
        assert forall|j: int| 0 <= j < k implies crate::text::is_ws(#[trigger] y[j]) by {
            assert(y[j] == x[j]);
        }
        assert(y[k as int] == x[k as int]);
        crate::text::lemma_ws_prefix_len(y, k as int);
        assert(trim_start(y) =~= trim_start(x).push('\n'));
        lemma_trim_end_ws_back(trim_start(x), '\n');
    } else {
        assert forall|j: int| 0 <= j < y.len() implies crate::text::is_ws(#[trigger] y[j]) by {
            if j < x.len() {
                assert(y[j] == x[j]);
            }
        }
        crate::text::lemma_ws_prefix_len(y, y.len() as int);
        assert(trim_start(y) =~= Seq::<char>::empty());
        assert(trim_start(x) =~= Seq::<char>::empty());
    }
}

/// Reading back a handoff appended to a text: when the opening marker does
/// not occur in the text before the state and the closing marker does not
/// occur in the state, the state read back is the given state trimmed, and
/// stripping the state leaves the text before it, heading and summary
/// included, trimmed at its end.
#[verifier::spinoff_prover]
#[verifier::rlimit(40)]
pub proof fn lemma_handoff_round_trip(prefix: Seq<char>, t: TaskTracker, state_json: Seq<char>)
    requires
        !crate::text::contains(prefix + handoff_heading() + summary(t) + seq!['\n'], start_marker()),
        !crate::text::contains(state_json, end_marker()),
    ensures
        state_payload(prefix + handoff_appendix(t, state_json)) == Some(crate::text::trim(state_json)),
        stripped_handoff(prefix + handoff_appendix(t, state_json)) == trim_end(
            prefix + handoff_heading() + summary(t),
        ),
{
    reveal_strlit("<ogent_task_tracker_state>");
    reveal_strlit("</ogent_task_tracker_state>");
    let a = prefix + handoff_heading() + summary(t) + seq!['\n'];
    let sm = start_marker();
    let em = end_marker();
    let b = seq!['\n'] + state_json + seq!['\n'];
    let text = prefix + handoff_appendix(t, state_json);
    assert(text =~= a + sm + b + em);
    let after: int = (a.len() + sm.len()) as int;
    let e: int = after + b.len();
    // The opening marker first occurs right after `a`.
    assert(crate::text::occurs_at(text, sm, a.len() as int)) by {
        assert(text.subrange(a.len() as int, after) =~= sm);
    }
    assert forall|j: int| 0 <= j < a.len() implies !crate::text::occurs_at(text, sm, j) by {
        if crate::text::occurs_at(text, sm, j) {
            if j + sm.len() <= a.len() {
                assert(a.subrange(j, j + sm.len()) =~= text.subrange(j, j + sm.len()));
                assert(crate::text::occurs_at(a, sm, j));
                crate::text::lemma_contains_iff(a, sm);
            } else {
                let d = a.len() - j;
                assert(text.subrange(j, j + sm.len())[d] == text[a.len() as int]);
                assert(text[a.len() as int] == '<');
                assert(sm[d] != '<');
            }
        }
    }
    lemma_find_from_first(text, sm, 0, a.len() as int);
    // The closing marker first occurs right after `b`.
    assert(crate::text::occurs_at(text, em, e)) by {
        assert(text.subrange(e, e + em.len()) =~= em);
    }
    assert forall|j: int| after <= j < e implies !crate::text::occurs_at(text, em, j) by {
        if crate::text::occurs_at(text, em, j) {
            let w = text.subrange(j, j + em.len());
            if j + em.len() <= e {
                let q = j - after;
                assert(w[0] == b[q]);
                if q == 0 {
                    assert(b[0] == '\n');
                } else if q + em.len() == b.len() {
                    assert(w[em.len() - 1] == b[b.len() - 1]);
                    assert(em[em.len() - 1] == '>');
                } else {
                    assert(state_json.subrange(q - 1, q - 1 + em.len()) =~= w);
                    assert(crate::text::occurs_at(state_json, em, q - 1));
                    crate::text::lemma_contains_iff(state_json, em);
                }
            } else {
                let d = e - j;
                assert(w[d] == text[e]);
                assert(text[e] == '<');
                assert(em[d] != '<');
            }
        }
    }
    lemma_find_from_first(text, em, after, e);
    assert(state_block(text) == Some((a.len() as int, after, e)));
    // What is read back, and what is left.
    assert(text.subrange(after, e) =~= b);
    lemma_trim_newlines(state_json);
    assert(text.skip(e + em.len() as int) =~= Seq::<char>::empty());
    assert(trim_start(Seq::<char>::empty()) =~= Seq::<char>::empty());
    assert(text.take(a.len() as int) =~= a);
    lemma_trim_end_ws_back(prefix + handoff_heading() + summary(t), '\n');
    assert((prefix + handoff_heading() + summary(t)).push('\n') =~= a);
    let head = trim_end(a);
    assert(head + Seq::<char>::empty() + Seq::<char>::empty() =~= head);
}

// ---------------------------------------------------------------------------
// Laws

/// Taking a reminder leaves none due: a reminder, and in particular a stale
/// nudge, is given once until the tracker is updated or restored again.
pub proof fn lemma_reminder_taken_once(t: TaskTracker)
    ensures
        !reminder_due(after_take(t)),
{
}

/// A restored tracker always has a reminder due.
pub proof fn lemma_restored_reminds(t: TaskTracker)
    ensures
        reminder_due(TaskTracker { pending_reminder: true, ..t }),
{
}

/// After an update that starts a phase, every phase in progress carries the
/// updated id: starting a phase demotes any other in-progress phase.
pub proof fn lemma_single_phase_in_progress(
    ps: Seq<PhaseState>,
    after: Seq<PhaseState>,
    u: PhaseUpdate,
)
    requires
        phases_updated(ps, after, u),
        u.status == Status::InProgress,
    ensures
        forall|i: int|
            0 <= i < after.len() && (#[trigger] after[i]).status == Status::InProgress ==> after[i].id@
                == u.id@,
{
    let d = demote_all(ps, u);
    assert forall|k: int| 0 <= k < d.len() && (#[trigger] d[k]).status == Status::InProgress implies d[k].id@
        == u.id@ by {
        assert(d[k] == demoted(ps[k], u));
    }
    match first_with_id(d, u.id@) {
        Some(f) => {
            let j = choose|j: int| 0 <= j < d.len() && (#[trigger] d[j]).id@ == u.id@;
            lemma_first_with_id_found(d, u.id@, j);
            assert forall|i: int|
                0 <= i < after.len() && (#[trigger] after[i]).status == Status::InProgress implies after[i].id@
                == u.id@ by {
                if i != f {
                    assert(after[i] == d[i]);
                }
            }
        },
        None => {
            assert forall|i: int|
                0 <= i < after.len() && (#[trigger] after[i]).status == Status::InProgress implies after[i].id@
                == u.id@ by {
                if i < d.len() {
                    assert(after[i] == after.take(d.len() as int)[i]);
                    assert(after[i] == d[i]);
                }
            }
        },
    }
}

/// A tracker update leaves no stale nudge due, and a reminder pending.
pub proof fn lemma_update_resets_staleness(t: TaskTracker)
    requires
        noted_update(t),
    ensures
        !nudge_due(t),
        reminder_due(t),
{
}

/// No two phases share an id.
#[verifier::opaque]
pub open spec fn distinct_phase_ids(ps: Seq<PhaseState>) -> bool {
    forall|i: int, j: int|
        0 <= i < ps.len() && 0 <= j < ps.len() && i != j ==> #[trigger] ps[i].id@ != #[trigger] ps[j].id@
}

/// At most one phase is in progress.
#[verifier::opaque]
pub open spec fn one_phase_in_progress(ps: Seq<PhaseState>) -> bool {
    forall|i: int, j: int|
        0 <= i < ps.len() && 0 <= j < ps.len() && (#[trigger] ps[i]).status == Status::InProgress && (
        #[trigger] ps[j]).status == Status::InProgress ==> i == j
}

proof fn lemma_demote_sound(ps: Seq<PhaseState>, u: PhaseUpdate)
    requires
        distinct_phase_ids(ps),
        one_phase_in_progress(ps),
    ensures
        demote_all(ps, u).len() == ps.len(),
        distinct_phase_ids(demote_all(ps, u)),
        one_phase_in_progress(demote_all(ps, u)),
        u.status == Status::InProgress ==> forall|k: int|
            0 <= k < ps.len() && (#[trigger] demote_all(ps, u)[k]).status == Status::InProgress
                ==> demote_all(ps, u)[k].id@ == u.id@,
{
    reveal(distinct_phase_ids);
    reveal(one_phase_in_progress);
    let d = demote_all(ps, u);
    assert forall|k: int| 0 <= k < d.len() implies #[trigger] d[k] == demoted(ps[k], u) by {}
    assert forall|i: int, j: int| 0 <= i < d.len() && 0 <= j < d.len() && i != j implies #[trigger] d[i].id@
        != #[trigger] d[j].id@ by {
        assert(d[i].id == ps[i].id);
        assert(d[j].id == ps[j].id);
    }
    assert forall|i: int, j: int|
        0 <= i < d.len() && 0 <= j < d.len() && (#[trigger] d[i]).status == Status::InProgress && (
        #[trigger] d[j]).status == Status::InProgress implies i == j by {
        if u.status == Status::InProgress {
            if i != j {
                assert(d[i].id == ps[i].id);
                assert(d[j].id == ps[j].id);
                assert(ps[i].id@ != ps[j].id@);
            }
        } else {
            assert(ps[i].status == Status::InProgress && ps[j].status == Status::InProgress);
        }
    }
}

proof fn lemma_in_place_sound(d: Seq<PhaseState>, after: Seq<PhaseState>, u: PhaseUpdate, f: int)
    requires
        0 <= f < d.len(),
        d[f].id@ == u.id@,
        after == d.update(
            f,
            PhaseState { title: u.title, status: u.status, complexity: u.complexity, notes: u.notes, ..d[f] },
        ),
        distinct_phase_ids(d),
        one_phase_in_progress(d),
        u.status == Status::InProgress ==> forall|k: int|
            0 <= k < d.len() && (#[trigger] d[k]).status == Status::InProgress ==> d[k].id@ == u.id@,
    ensures
        distinct_phase_ids(after),
        one_phase_in_progress(after),
{
    reveal(distinct_phase_ids);
    reveal(one_phase_in_progress);
    assert forall|i: int, j: int| 0 <= i < after.len() && 0 <= j < after.len() && i != j implies #[trigger] after[i].id@
        != #[trigger] after[j].id@ by {
        assert(after[i].id == d[i].id);
        assert(after[j].id == d[j].id);
    }
    assert forall|i: int, j: int|
        0 <= i < after.len() && 0 <= j < after.len() && (#[trigger] after[i]).status == Status::InProgress && (
        #[trigger] after[j]).status == Status::InProgress implies i == j by {
        if i != f && j != f {
            assert(after[i] == d[i] && after[j] == d[j]);
        } else if i == f && j != f {
            assert(after[j] == d[j]);
            assert(d[j].id@ == u.id@);
        } else if j == f && i != f {
            assert(after[i] == d[i]);
            assert(d[i].id@ == u.id@);
        }
    }
}

proof fn lemma_append_sound(d: Seq<PhaseState>, after: Seq<PhaseState>, u: PhaseUpdate)
    requires
        forall|k: int| 0 <= k < d.len() ==> (#[trigger] d[k]).id@ != u.id@,
        after.len() == d.len() + 1,
        after.take(d.len() as int) == d,
        after.last().id == u.id,
        after.last().status == u.status,
        distinct_phase_ids(d),
        one_phase_in_progress(d),
        u.status == Status::InProgress ==> forall|k: int|
            0 <= k < d.len() && (#[trigger] d[k]).status == Status::InProgress ==> d[k].id@ == u.id@,
    ensures
        distinct_phase_ids(after),
        one_phase_in_progress(after),
{
    reveal(distinct_phase_ids);
    reveal(one_phase_in_progress);
    let n = d.len() as int;
    assert forall|i: int| 0 <= i < n implies #[trigger] after[i] == d[i] by {
        assert(after[i] == after.take(n)[i]);
    }
    assert forall|i: int, j: int| 0 <= i < after.len() && 0 <= j < after.len() && i != j implies #[trigger] after[i].id@
        != #[trigger] after[j].id@ by {
        if i < n && j < n {
        } else if i < n {
            assert(after[j] == after.last());
            assert(d[i].id@ != u.id@);
        } else {
            assert(after[i] == after.last());
            assert(d[j].id@ != u.id@);
        }
    }
    assert forall|i: int, j: int|
        0 <= i < after.len() && 0 <= j < after.len() && (#[trigger] after[i]).status == Status::InProgress && (
        #[trigger] after[j]).status == Status::InProgress implies i == j by {
        if i < n && j < n {
        } else if i < n {
            assert(after[j] == after.last());
            assert(d[i].id@ != u.id@);
        } else if j < n {
            assert(after[i] == after.last());
            assert(d[j].id@ != u.id@);
        }
    }
}

/// A phase update keeps phase ids distinct and at most one phase in
/// progress, whatever the update's status.
#[verifier::spinoff_prover]
pub proof fn lemma_update_keeps_phases_sound(ps: Seq<PhaseState>, after: Seq<PhaseState>, u: PhaseUpdate)
    requires
        phases_updated(ps, after, u),
        distinct_phase_ids(ps),
        one_phase_in_progress(ps),
    ensures
        distinct_phase_ids(after),
        one_phase_in_progress(after),
{
    let d = demote_all(ps, u);
    lemma_demote_sound(ps, u);
    if exists|i: int| 0 <= i < d.len() && (#[trigger] d[i]).id@ == u.id@ {
        let j0 = choose|j: int| 0 <= j < d.len() && (#[trigger] d[j]).id@ == u.id@;
        lemma_first_with_id_found(d, u.id@, j0);
        let f = first_with_id(d, u.id@)->0;
        assert(after == d.update(
            f,
            PhaseState { title: u.title, status: u.status, complexity: u.complexity, notes: u.notes, ..d[f] },
        ));
        lemma_in_place_sound(d, after, u, f);
    } else {
        assert(first_with_id(d, u.id@) is None);
        assert(after.last().id == u.id);
        assert(after.last().status == u.status);
        lemma_append_sound(d, after, u);
    }
}

/// Every reminder says that the tracker already exists and that
/// `revise_goal` is only for a changed objective.
pub proof fn lemma_reminder_mentions(t: TaskTracker, stale: bool)
    ensures
        crate::text::contains(reminder(t, stale), "Task tracker already exists"@),
        crate::text::contains(reminder(t, stale), "Use revise_goal only if the objective changed"@),
{
    let head = "<system_reminder kind=\"task_tracking\">\n"@;
    let exists_line = "Task tracker already exists. Do not call `set_goal` again.\n"@;
    let stale_part: Seq<char> = if stale {
        "- Stale: non-tracking work progressed for "@ + decimal(t.stale_turns as nat)
            + " turns without tracker updates.\n"@
    } else {
        Seq::empty()
    };
    let keep = "- Keep Goal -> Phases -> Todos current with update_phase/update_todo. Use revise_goal only if the objective changed.\n"@;
    let tail = "</system_reminder>"@;
    let r = reminder(t, stale);
    assert(r == head + exists_line + summary(t) + stale_part + keep + tail);
    let p1 = "Task tracker already exists"@;
    let p2 = "Use revise_goal only if the objective changed"@;
    reveal_strlit("<system_reminder kind=\"task_tracking\">\n");
    reveal_strlit("Task tracker already exists. Do not call `set_goal` again.\n");
    reveal_strlit("- Keep Goal -> Phases -> Todos current with update_phase/update_todo. Use revise_goal only if the objective changed.\n");
    reveal_strlit("Task tracker already exists");
    reveal_strlit("Use revise_goal only if the objective changed");
    let k1 = head.len() as int;
    assert(r.subrange(k1, k1 + p1.len()) =~= p1);
    assert(crate::text::occurs_at(r, p1, k1));
    crate::text::lemma_contains_iff(r, p1);
    let k2 = (head.len() + exists_line.len() + summary(t).len() + stale_part.len()) as int + 70;
    assert(keep.subrange(70, 70 + p2.len() as int) =~= p2);
    assert(r.subrange(k2, k2 + p2.len()) =~= p2);
    assert(crate::text::occurs_at(r, p2, k2));
    crate::text::lemma_contains_iff(r, p2);
}

/// The phases that have status `st`, in order.
pub open spec fn with_status(ps: Seq<PhaseState>, st: Status) -> Seq<PhaseState> {
    ps.filter(|p: PhaseState| p.status == st)
}

proof fn lemma_count_is_filter(ps: Seq<PhaseState>, st: Status)
    ensures
        count_status(ps, st) == with_status(ps, st).len(),
    decreases ps.len(),
{
    reveal(Seq::filter);
    if ps.len() > 0 {
        lemma_count_is_filter(ps.drop_last(), st);
    }
}

/// The line the summary counts phases with, for phases `ps`: each status
/// followed by how many phases have it.
pub open spec fn phase_tally(ps: Seq<PhaseState>) -> Seq<char> {
    "- Phases: pending="@ + decimal(with_status(ps, Status::Pending).len()) + " in_progress="@
        + decimal(with_status(ps, Status::InProgress).len()) + " blocked="@ + decimal(
        with_status(ps, Status::Blocked).len(),
    ) + " completed="@ + decimal(with_status(ps, Status::Completed).len()) + " skipped="@ + decimal(
        with_status(ps, Status::Skipped).len(),
    )
}

/// The summary counts the phases of each status: after `blocked=` stands
/// the number of blocked phases, after `completed=` the number of completed
/// ones, and likewise for pending, in-progress and skipped phases.
pub proof fn lemma_summary_counts_phases(t: TaskTracker)
    ensures
        crate::text::contains(summary(t), phase_tally(t.phases@)),
{
    let ps = t.phases@;
    lemma_count_is_filter(ps, Status::Pending);
    lemma_count_is_filter(ps, Status::InProgress);
    lemma_count_is_filter(ps, Status::Blocked);
    lemma_count_is_filter(ps, Status::Completed);
    lemma_count_is_filter(ps, Status::Skipped);
    let a = goal_block(t.goal) + revisions_line(t.revisions@.len());
    let l = phase_tally(ps);
    assert(counts_line(ps) == l + seq!['\n']);
    let b = open_items(ps, ps.len() as int).0;
    let sm = summary(t);
    assert(sm =~= a + l + (seq!['\n'] + b));
    assert(sm.subrange(a.len() as int, (a.len() + l.len()) as int) =~= l);
    assert(crate::text::occurs_at(sm, l, a.len() as int));
    crate::text::lemma_contains_iff(sm, l);
}

} // verus!
