//! Step-by-step workflows: a definition of named steps with allowed
//! transitions, gates and checks, and the state of one run through it.
//!
//! A definition's steps are a list of `(id, step)` entries; looking a step up
//! by id finds the first entry with that id.  Validation walks the entries in
//! order and reports the first problem it meets.
use vstd::prelude::*;
use crate::text::{
    is_blank, trim, str_eq, str_is_blank, trim_string, decimal, push_decimal,
};

verus! {

broadcast use vstd::string::group_string_axioms;

/// How a check is carried out.
#[derive(Clone, Copy, Debug, PartialEq, Eq, Structural)]
pub enum CheckKind {
    Manual,
    Command,
}

/// The outcome recorded for a check.
#[derive(Clone, Copy, Debug, PartialEq, Eq, Structural)]
pub enum CheckStatus {
    Passed,
    Failed,
    Waived,
}

impl CheckStatus {
    /// Whether a required check with this outcome lets the run leave its step.
    pub open spec fn satisfies(self) -> bool {
        self == CheckStatus::Passed || self == CheckStatus::Waived
    }

    pub fn satisfies_required(self) -> (b: bool)
        ensures
            b == self.satisfies(),
    {
        match self {
            CheckStatus::Passed => true,
            CheckStatus::Waived => true,
            CheckStatus::Failed => false,
        }
    }
}

/// A check attached to a step.
#[derive(Clone, Debug)]
pub struct WorkflowCheck {
    pub id: String,
    pub kind: CheckKind,
    pub required: bool,
    pub command: Option<String>,
}

/// One step of a workflow.
#[derive(Clone, Debug)]
pub struct WorkflowStep {
    pub title: String,
    pub instructions: String,
    pub next: Vec<String>,
    pub terminal: bool,
    pub gate: bool,
    pub max_visits: Option<u32>,
    pub checks: Vec<WorkflowCheck>,
}

/// A workflow definition.
#[derive(Clone, Debug)]
pub struct Workflow {
    pub id: String,
    pub name: String,
    pub version: u32,
    pub start: String,
    pub instructions: String,
    pub steps: Vec<(String, WorkflowStep)>,
}

/// The result recorded for one check of one step.
#[derive(Clone, Debug)]
pub struct CheckResult {
    pub step_id: String,
    pub check_id: String,
    pub status: CheckStatus,
    pub evidence: String,
    pub waiver_reason: String,
    pub waiver_risk: String,
    pub command: Option<String>,
    pub exit_code: Option<i32>,
    pub timestamp_ms: u64,
}

/// What a caller reports for a manual check.
pub struct ManualCheckInput<'a> {
    pub step_id: &'a str,
    pub check_id: &'a str,
    pub status: CheckStatus,
    pub evidence: &'a str,
    pub waiver_reason: &'a str,
    pub waiver_risk: &'a str,
    pub timestamp_ms: u64,
}

/// One entry of the transition log.
#[derive(Clone, Debug)]
pub struct TransitionRecord {
    pub from: Option<String>,
    pub to: String,
    pub reason: String,
    pub timestamp_ms: u64,
}

/// A run through a workflow.
#[derive(Clone, Debug)]
pub struct WorkflowState {
    pub definition: Workflow,
    pub current_step: Option<String>,
    pub visits: Vec<(String, u32)>,
    pub check_results: Vec<CheckResult>,
    pub transition_log: Vec<TransitionRecord>,
}

/// Why a workflow is invalid or a request on a run is refused.
#[derive(Clone, Debug)]
pub enum WorkflowError {
    MissingId,
    MissingName,
    MissingStart,
    UnknownStart(String),
    EmptySteps,
    NoTerminalStep,
    UnknownNext { step: String, next: String },
    NonTerminalWithoutNext(String),
    ZeroMaxVisits(String),
    DuplicateStep(String),
    DuplicateCheck { step: String, check: String },
    EmptyCheckId { step: String },
    EmptyCommandCheck { step: String, check: String },
    UnreachableStep(String),
    UnknownCurrentStep(String),
    UnknownTargetStep(String),
    InvalidStartTransition { start: String, got: String },
    InvalidTransition { from: String, to: String, allowed: Vec<String> },
    RequiredChecksPending { step: String, missing: Vec<String> },
    GateReasonRequired { step: String, to: String },
    MaxVisitsExceeded { step: String, visits: u32, max: u32 },
    UnknownCheck { step: String, check: String },
    EvidenceRequired { step: String, check: String },
    WaiverDetailsRequired { step: String, check: String },
    NotStarted,
    NotTerminal(String),
}

/// The mathematical content of a `WorkflowError`.
pub enum WorkflowFault {
    MissingId,
    MissingName,
    MissingStart,
    UnknownStart(Seq<char>),
    EmptySteps,
    NoTerminalStep,
    UnknownNext { step: Seq<char>, next: Seq<char> },
    NonTerminalWithoutNext(Seq<char>),
    ZeroMaxVisits(Seq<char>),
    DuplicateStep(Seq<char>),
    DuplicateCheck { step: Seq<char>, check: Seq<char> },
    EmptyCheckId { step: Seq<char> },
    EmptyCommandCheck { step: Seq<char>, check: Seq<char> },
    UnreachableStep(Seq<char>),
    UnknownCurrentStep(Seq<char>),
    UnknownTargetStep(Seq<char>),
    InvalidStartTransition { start: Seq<char>, got: Seq<char> },
    InvalidTransition { from: Seq<char>, to: Seq<char>, allowed: Seq<Seq<char>> },
    RequiredChecksPending { step: Seq<char>, missing: Seq<Seq<char>> },
    GateReasonRequired { step: Seq<char>, to: Seq<char> },
    MaxVisitsExceeded { step: Seq<char>, visits: int, max: int },
    UnknownCheck { step: Seq<char>, check: Seq<char> },
    EvidenceRequired { step: Seq<char>, check: Seq<char> },
    WaiverDetailsRequired { step: Seq<char>, check: Seq<char> },
    NotStarted,
    NotTerminal(Seq<char>),
}

/// The views of a list of strings.
pub open spec fn ids(v: Seq<String>) -> Seq<Seq<char>> {
    v.map_values(|s: String| s@)
}

impl WorkflowError {
    pub open spec fn view(&self) -> WorkflowFault {
        match self {
            WorkflowError::MissingId => WorkflowFault::MissingId,
            WorkflowError::MissingName => WorkflowFault::MissingName,
            WorkflowError::MissingStart => WorkflowFault::MissingStart,
            WorkflowError::UnknownStart(s) => WorkflowFault::UnknownStart(s@),
            WorkflowError::EmptySteps => WorkflowFault::EmptySteps,
            WorkflowError::NoTerminalStep => WorkflowFault::NoTerminalStep,
            WorkflowError::UnknownNext { step, next } => WorkflowFault::UnknownNext {
                step: step@,
                next: next@,
            },
            WorkflowError::NonTerminalWithoutNext(s) => WorkflowFault::NonTerminalWithoutNext(s@),
            WorkflowError::ZeroMaxVisits(s) => WorkflowFault::ZeroMaxVisits(s@),
            WorkflowError::DuplicateStep(s) => WorkflowFault::DuplicateStep(s@),
            WorkflowError::DuplicateCheck { step, check } => WorkflowFault::DuplicateCheck {
                step: step@,
                check: check@,
            },
            WorkflowError::EmptyCheckId { step } => WorkflowFault::EmptyCheckId { step: step@ },
            WorkflowError::EmptyCommandCheck { step, check } => WorkflowFault::EmptyCommandCheck {
                step: step@,
                check: check@,
            },
            WorkflowError::UnreachableStep(s) => WorkflowFault::UnreachableStep(s@),
            WorkflowError::UnknownCurrentStep(s) => WorkflowFault::UnknownCurrentStep(s@),
            WorkflowError::UnknownTargetStep(s) => WorkflowFault::UnknownTargetStep(s@),
            WorkflowError::InvalidStartTransition { start, got } =>
                WorkflowFault::InvalidStartTransition { start: start@, got: got@ },
            WorkflowError::InvalidTransition { from, to, allowed } =>
                WorkflowFault::InvalidTransition { from: from@, to: to@, allowed: ids(allowed@) },
            WorkflowError::RequiredChecksPending { step, missing } =>
                WorkflowFault::RequiredChecksPending { step: step@, missing: ids(missing@) },
            WorkflowError::GateReasonRequired { step, to } => WorkflowFault::GateReasonRequired {
                step: step@,
                to: to@,
            },
            WorkflowError::MaxVisitsExceeded { step, visits, max } =>
                WorkflowFault::MaxVisitsExceeded {
                    step: step@,
                    visits: *visits as int,
                    max: *max as int,
                },
            WorkflowError::UnknownCheck { step, check } => WorkflowFault::UnknownCheck {
                step: step@,
                check: check@,
            },
            WorkflowError::EvidenceRequired { step, check } => WorkflowFault::EvidenceRequired {
                step: step@,
                check: check@,
            },
            WorkflowError::WaiverDetailsRequired { step, check } =>
                WorkflowFault::WaiverDetailsRequired { step: step@, check: check@ },
            WorkflowError::NotStarted => WorkflowFault::NotStarted,
            WorkflowError::NotTerminal(s) => WorkflowFault::NotTerminal(s@),
        }
    }
}

// ---------------------------------------------------------------------------
// Looking steps up

/// The first entry at or after `i` whose id is `id`.
pub open spec fn step_index_from(steps: Seq<(String, WorkflowStep)>, id: Seq<char>, i: int) -> Option<
    int,
>
    decreases steps.len() - i,
{
    if i < 0 || i >= steps.len() {
        None
    } else if steps[i].0@ == id {
        Some(i)
    } else {
        step_index_from(steps, id, i + 1)
    }
}

/// The first entry whose id is `id`: the step that a lookup by id finds.
pub open spec fn step_index(steps: Seq<(String, WorkflowStep)>, id: Seq<char>) -> Option<int> {
    step_index_from(steps, id, 0)
}

/// Whether some entry has the id `id`.
pub open spec fn has_step(steps: Seq<(String, WorkflowStep)>, id: Seq<char>) -> bool {
    step_index(steps, id) is Some
}

/// Whether entry `j` is the one that a lookup by its own id finds.
pub open spec fn is_first(steps: Seq<(String, WorkflowStep)>, j: int) -> bool {
    step_index(steps, steps[j].0@) == Some(j)
}

pub proof fn lemma_step_index_from(steps: Seq<(String, WorkflowStep)>, id: Seq<char>, i: int)
    requires
        0 <= i,
    ensures
        match step_index_from(steps, id, i) {
            Some(j) => i <= j < steps.len() && steps[j].0@ == id && forall|k: int|
                i <= k < j ==> (#[trigger] steps[k].0@) != id,
            None => forall|k: int| i <= k < steps.len() ==> (#[trigger] steps[k].0@) != id,
        },
    decreases steps.len() - i,
{
    if i < steps.len() && steps[i].0@ != id {
        lemma_step_index_from(steps, id, i + 1);
    }
}

/// What a lookup by id finds, in terms of the entries.
pub proof fn lemma_step_index(steps: Seq<(String, WorkflowStep)>, id: Seq<char>)
    ensures
        match step_index(steps, id) {
            Some(j) => 0 <= j < steps.len() && steps[j].0@ == id && is_first(steps, j) && forall|
                k: int,
            | 0 <= k < j ==> (#[trigger] steps[k].0@) != id,
            None => forall|k: int| 0 <= k < steps.len() ==> (#[trigger] steps[k].0@) != id,
        },
{
    lemma_step_index_from(steps, id, 0);
}

/// A lookup that finds a step finds an entry of the list.
pub proof fn lemma_step_index_bounds(steps: Seq<(String, WorkflowStep)>)
    ensures
        forall|id: Seq<char>|
            #[trigger] has_step(steps, id) ==> 0 <= step_index(steps, id)->0 < steps.len(),
{
    assert forall|id: Seq<char>| #[trigger] has_step(steps, id) implies 0 <= step_index(steps, id)->0
        < steps.len() by {
        lemma_step_index(steps, id);
    }
}

/// The index of the step with id `id`, as a lookup finds it.
pub fn find_step(steps: &Vec<(String, WorkflowStep)>, id: &str) -> (r: Option<usize>)
    ensures
        match r {
            Some(j) => step_index(steps@, id@) == Some(j as int),
            None => step_index(steps@, id@) is None,
        },
{
    let mut i: usize = 0;
    while i < steps.len()
        invariant
            i <= steps@.len(),
            step_index(steps@, id@) == step_index_from(steps@, id@, i as int),
        decreases steps.len() - i,
    {
        if str_eq(steps[i].0.as_str(), id) {
            return Some(i);
        }
        i += 1;
    }
    None
}

// ---------------------------------------------------------------------------
// Validation

/// The first of `nexts`, from position `j` on, that names no step.
pub open spec fn unknown_next_from(steps: Seq<(String, WorkflowStep)>, nexts: Seq<String>, j: int) -> Option<
    Seq<char>,
>
    decreases nexts.len() - j,
{
    if j < 0 || j >= nexts.len() {
        None
    } else if !has_step(steps, nexts[j]@) {
        Some(nexts[j]@)
    } else {
        unknown_next_from(steps, nexts, j + 1)
    }
}

/// Whether an earlier check than the `j`-th has the same id.
pub open spec fn repeated_check(checks: Seq<WorkflowCheck>, j: int) -> bool {
    exists|k: int| 0 <= k < j && (#[trigger] checks[k]).id@ == checks[j].id@
}

/// The first problem with the checks of step `step`, from the `j`-th on.
pub open spec fn check_fault_from(step: Seq<char>, checks: Seq<WorkflowCheck>, j: int) -> Option<
    WorkflowFault,
>
    decreases checks.len() - j,
{
    if j < 0 || j >= checks.len() {
        None
    } else {
        let c = checks[j];
        if is_blank(c.id@) {
            Some(WorkflowFault::EmptyCheckId { step })
        } else if repeated_check(checks, j) {
            Some(WorkflowFault::DuplicateCheck { step, check: c.id@ })
        } else if c.kind == CheckKind::Command && (c.command is None || is_blank(
            c.command->0@,
        )) {
            Some(WorkflowFault::EmptyCommandCheck { step, check: c.id@ })
        } else {
            check_fault_from(step, checks, j + 1)
        }
    }
}

/// The first problem with entry `i` of a definition, on its own: step ids
/// name one step each, so an id that an earlier entry has is refused.
pub open spec fn step_fault(steps: Seq<(String, WorkflowStep)>, i: int) -> Option<WorkflowFault> {
    let id = steps[i].0@;
    let st = steps[i].1;
    if !is_first(steps, i) {
        Some(WorkflowFault::DuplicateStep(id))
    } else if !st.terminal && st.next@.len() == 0 {
        Some(WorkflowFault::NonTerminalWithoutNext(id))
    } else if st.max_visits == Some(0u32) {
        Some(WorkflowFault::ZeroMaxVisits(id))
    } else {
        match unknown_next_from(steps, st.next@, 0) {
            Some(n) => Some(WorkflowFault::UnknownNext { step: id, next: n }),
            None => check_fault_from(id, st.checks@, 0),
        }
    }
}

/// The first problem with an entry, from entry `i` on.
pub open spec fn steps_fault_from(steps: Seq<(String, WorkflowStep)>, i: int) -> Option<WorkflowFault>
    decreases steps.len() - i,
{
    if i < 0 || i >= steps.len() {
        None
    } else {
        match step_fault(steps, i) {
            Some(f) => Some(f),
            None => steps_fault_from(steps, i + 1),
        }
    }
}

/// Whether the run can go from the step with id `from` to `to` in one move.
pub open spec fn successor(w: Workflow, from: Seq<char>, to: Seq<char>) -> bool {
    match step_index(w.steps@, from) {
        Some(f) => ids(w.steps@[f].1.next@).contains(to),
        None => false,
    }
}

/// Whether `path` is a walk through the steps that begins at the start.
pub open spec fn is_path(w: Workflow, path: Seq<Seq<char>>) -> bool {
    &&& path.len() > 0
    &&& path[0] == w.start@
    &&& forall|i: int| 0 <= i < path.len() - 1 ==> #[trigger] successor(w, path[i], path[i + 1])
}

/// Whether `id` can be reached from the start.
pub open spec fn reachable(w: Workflow, id: Seq<char>) -> bool {
    exists|path: Seq<Seq<char>>| #[trigger] is_path(w, path) && path.last() == id
}

/// The first entry, from entry `i` on, whose step cannot be reached.
pub open spec fn unreachable_from(w: Workflow, i: int) -> Option<WorkflowFault>
    decreases w.steps@.len() - i,
{
    if i < 0 || i >= w.steps@.len() {
        None
    } else if !reachable(w, w.steps@[i].0@) {
        Some(WorkflowFault::UnreachableStep(w.steps@[i].0@))
    } else {
        unreachable_from(w, i + 1)
    }
}

/// Whether some step is terminal.
pub open spec fn has_terminal(steps: Seq<(String, WorkflowStep)>) -> bool {
    exists|i: int| 0 <= i < steps.len() && (#[trigger] steps[i]).1.terminal
}

/// The first problem with a definition, or `None` for a valid one.
pub open spec fn validation_fault(w: Workflow) -> Option<WorkflowFault> {
    if is_blank(w.id@) {
        Some(WorkflowFault::MissingId)
    } else if is_blank(w.name@) {
        Some(WorkflowFault::MissingName)
    } else if is_blank(w.start@) {
        Some(WorkflowFault::MissingStart)
    } else if w.steps@.len() == 0 {
        Some(WorkflowFault::EmptySteps)
    } else if !has_step(w.steps@, w.start@) {
        Some(WorkflowFault::UnknownStart(w.start@))
    } else if !has_terminal(w.steps@) {
        Some(WorkflowFault::NoTerminalStep)
    } else {
        match steps_fault_from(w.steps@, 0) {
            Some(f) => Some(f),
            None => unreachable_from(w, 0),
        }
    }
}

/// Whether some step is terminal.
pub fn terminal_exists(steps: &Vec<(String, WorkflowStep)>) -> (b: bool)
    ensures
        b == has_terminal(steps@),
{
    let mut i: usize = 0;
    while i < steps.len()
        invariant
            i <= steps@.len(),
            forall|k: int| 0 <= k < i ==> !(#[trigger] steps@[k]).1.terminal,
        decreases steps.len() - i,
    {
        if steps[i].1.terminal {
            return true;
        }
        i += 1;
    }
    false
}

/// The position of the first of `nexts` that names no step.
pub fn unknown_next(steps: &Vec<(String, WorkflowStep)>, nexts: &Vec<String>) -> (r: Option<usize>)
    ensures
        match r {
            Some(j) => j < nexts@.len() && unknown_next_from(steps@, nexts@, 0) == Some(
                nexts@[j as int]@,
            ),
            None => unknown_next_from(steps@, nexts@, 0) is None,
        },
{
    let mut j: usize = 0;
    while j < nexts.len()
        invariant
            j <= nexts@.len(),
            unknown_next_from(steps@, nexts@, 0) == unknown_next_from(steps@, nexts@, j as int),
        decreases nexts.len() - j,
    {
        match find_step(steps, nexts[j].as_str()) {
            None => {
                return Some(j);
            },
            Some(_) => {},
        }
        j += 1;
    }
    None
}

/// Whether an earlier check than the `j`-th has the same id.
fn check_repeated(checks: &Vec<WorkflowCheck>, j: usize) -> (b: bool)
    requires
        j < checks@.len(),
    ensures
        b == repeated_check(checks@, j as int),
{
    let mut k: usize = 0;
    while k < j
        invariant
            k <= j < checks@.len(),
            forall|m: int| 0 <= m < k ==> (#[trigger] checks@[m]).id@ != checks@[j as int].id@,
        decreases j - k,
    {
        if str_eq(checks[k].id.as_str(), checks[j].id.as_str()) {
            return true;
        }
        k += 1;
    }
    false
}

/// The first problem with the checks of a step.
fn check_problem(step: &String, checks: &Vec<WorkflowCheck>) -> (r: Option<WorkflowError>)
    ensures
        match r {
            Some(e) => check_fault_from(step@, checks@, 0) == Some(e@),
            None => check_fault_from(step@, checks@, 0) is None,
        },
{
    let mut j: usize = 0;
    while j < checks.len()
        invariant
            j <= checks@.len(),
            check_fault_from(step@, checks@, 0) == check_fault_from(step@, checks@, j as int),
        decreases checks.len() - j,
    {
        let c = &checks[j];
        if str_is_blank(c.id.as_str()) {
            return Some(WorkflowError::EmptyCheckId { step: step.clone() });
        }
        if check_repeated(checks, j) {
            return Some(WorkflowError::DuplicateCheck { step: step.clone(), check: c.id.clone() });
        }
        if c.kind == CheckKind::Command {
            match &c.command {
                Some(cmd) => {
                    if str_is_blank(cmd.as_str()) {
                        return Some(
                            WorkflowError::EmptyCommandCheck { step: step.clone(), check: c.id.clone() },
                        );
                    }
                },
                None => {
                    return Some(
                        WorkflowError::EmptyCommandCheck { step: step.clone(), check: c.id.clone() },
                    );
                },
            }
        }
        j += 1;
    }
    None
}

/// The first problem with entry `i` of a definition, on its own.
fn step_problem(steps: &Vec<(String, WorkflowStep)>, i: usize) -> (r: Option<WorkflowError>)
    requires
        i < steps@.len(),
    ensures
        match r {
            Some(e) => step_fault(steps@, i as int) == Some(e@),
            None => step_fault(steps@, i as int) is None,
        },
{
    let id = &steps[i].0;
    let st = &steps[i].1;
    match find_step(steps, id.as_str()) {
        Some(f) => {
            if f != i {
                return Some(WorkflowError::DuplicateStep(id.clone()));
            }
        },
        None => {
            proof {
                lemma_step_index(steps@, steps@[i as int].0@);
            }
            return Some(WorkflowError::DuplicateStep(id.clone()));
        },
    }
    if !st.terminal && st.next.len() == 0 {
        return Some(WorkflowError::NonTerminalWithoutNext(id.clone()));
    }
    match st.max_visits {
        Some(m) => {
            if m == 0 {
                return Some(WorkflowError::ZeroMaxVisits(id.clone()));
            }
        },
        None => {},
    }
    match unknown_next(steps, &st.next) {
        Some(j) => Some(WorkflowError::UnknownNext { step: id.clone(), next: st.next[j].clone() }),
        None => check_problem(id, &st.checks),
    }
}

// ---------------------------------------------------------------------------
// Reachability

/// How many entries of `s` are `true`.
pub open spec fn count_true(s: Seq<bool>) -> nat
    decreases s.len(),
{
    if s.len() == 0 {
        0
    } else {
        count_true(s.drop_last()) + if s.last() {
            1nat
        } else {
            0nat
        }
    }
}

proof fn lemma_count_true_bound(s: Seq<bool>)
    ensures
        count_true(s) <= s.len(),
    decreases s.len(),
{
    if s.len() > 0 {
        lemma_count_true_bound(s.drop_last());
    }
}

proof fn lemma_count_true_set(s: Seq<bool>, i: int)
    requires
        0 <= i < s.len(),
        !s[i],
    ensures
        count_true(s.update(i, true)) == count_true(s) + 1,
    decreases s.len(),
{
    let t = s.update(i, true);
    if i == s.len() - 1 {
        assert(t.drop_last() =~= s.drop_last());
    } else {
        assert(t.drop_last() =~= s.drop_last().update(i, true));
        lemma_count_true_set(s.drop_last(), i);
    }
}

proof fn lemma_count_true_all_false(n: nat)
    ensures
        count_true(Seq::new(n, |k: int| false)) == 0,
    decreases n,
{
    if n > 0 {
        assert(Seq::new(n, |k: int| false).drop_last() =~= Seq::new((n - 1) as nat, |k: int| false));
        lemma_count_true_all_false((n - 1) as nat);
    }
}

/// Every step that can be reached from a marked entry in one move has its
/// entry marked, and the start's entry is marked: then every step on a walk
/// from the start is marked.
proof fn lemma_marks_cover_path(w: Workflow, mark: Seq<bool>, path: Seq<Seq<char>>, i: int)
    requires
        mark.len() == w.steps@.len(),
        has_step(w.steps@, w.start@),
        mark[step_index(w.steps@, w.start@)->0],
        forall|j: int, n: Seq<char>|
            0 <= j < mark.len() && mark[j] && #[trigger] successor(w, w.steps@[j].0@, n) && has_step(
                w.steps@,
                n,
            ) && is_first(w.steps@, j) ==> mark[step_index(w.steps@, n)->0],
        is_path(w, path),
        0 <= i < path.len(),
        has_step(w.steps@, path[i]),
    ensures
        mark[step_index(w.steps@, path[i])->0],
    decreases i,
{
    if i > 0 {
        let j = i - 1;
        let p = path[j];
        assert(successor(w, path[j], path[j + 1]));
        lemma_step_index(w.steps@, p);
        let f = step_index(w.steps@, p)->0;
        lemma_marks_cover_path(w, mark, path, i - 1);
        assert(w.steps@[f].0@ == p);
        assert(successor(w, w.steps@[f].0@, path[i]));
    }
}

/// Marks, for each entry found by a lookup of its own id, whether its step can
/// be reached from the start.
fn reachable_marks(w: &Workflow) -> (mark: Vec<bool>)
    requires
        has_step(w.steps@, w.start@),
    ensures
        mark@.len() == w.steps@.len(),
        forall|j: int|
            0 <= j < mark@.len() && is_first(w.steps@, j) ==> (#[trigger] mark@[j] <==> reachable(
                *w,
                w.steps@[j].0@,
            )),
{
    let n = w.steps.len();
    let mut mark: Vec<bool> = Vec::new();
    while mark.len() < n
        invariant
            mark@.len() <= n,
            n == w.steps@.len(),
            forall|k: int| 0 <= k < mark@.len() ==> !(#[trigger] mark@[k]),
        decreases n - mark.len(),
    {
        mark.push(false);
    }
    proof {
        assert(mark@ =~= Seq::new(n as nat, |k: int| false));
        assert(is_path(*w, seq![w.start@]));
        lemma_count_true_all_false(n as nat);
        lemma_step_index(w.steps@, w.start@);
        lemma_step_index_bounds(w.steps@);
    }
    let s0 = match find_step(&w.steps, w.start.as_str()) {
        Some(s) => s,
        None => {
            return mark;
        },
    };
    proof {
        lemma_count_true_set(mark@, s0 as int);
    }
    let ghost before = mark@;
    mark.set(s0, true);
    let mut queue: Vec<usize> = Vec::new();
    queue.push(s0);
    proof {
        assert forall|j: int| 0 <= j < n && #[trigger] mark@[j] implies exists|i: int|
            0 <= i < queue@.len() && queue@[i] == j by {
            assert(j == s0);
            assert(queue@[0] == j);
        }
        assert forall|j: int| 0 <= j < n && #[trigger] mark@[j] implies is_first(w.steps@, j)
            && reachable(*w, w.steps@[j].0@) by {
            assert(j == s0);
            assert(is_path(*w, seq![w.start@]));
        }
    }
    let mut q: usize = 0;
    while q < queue.len()
        invariant
            n == w.steps@.len(),
            mark@.len() == n,
            s0 == step_index(w.steps@, w.start@)->0,
            s0 < n,
            has_step(w.steps@, w.start@),
            mark@[s0 as int],
            forall|id: Seq<char>|
                #[trigger] has_step(w.steps@, id) ==> 0 <= step_index(w.steps@, id)->0 < n,
            q <= queue@.len(),
            queue@.len() == count_true(mark@),
            forall|i: int| 0 <= i < queue@.len() ==> (#[trigger] queue@[i]) < n && mark@[queue@[i] as int],
            forall|j: int|
                0 <= j < n && #[trigger] mark@[j] ==> exists|i: int|
                    0 <= i < queue@.len() && queue@[i] == j,
            forall|j: int|
                0 <= j < n && #[trigger] mark@[j] ==> is_first(w.steps@, j) && reachable(
                    *w,
                    w.steps@[j].0@,
                ),
            forall|i: int, m: Seq<char>|
                0 <= i < q && #[trigger] successor(*w, w.steps@[queue@[i] as int].0@, m) && has_step(
                    w.steps@,
                    m,
                ) ==> mark@[step_index(w.steps@, m)->0],
        decreases n - q,
    {
        proof {
            lemma_count_true_bound(mark@);
        }
        let cur = queue[q];
        let nexts = &w.steps[cur].1.next;
        let ghost cur_id = w.steps@[cur as int].0@;
        proof {
            lemma_step_index(w.steps@, cur_id);
        }
        let mut m: usize = 0;
        while m < nexts.len()
            invariant
                n == w.steps@.len(),
                mark@.len() == n,
                cur < n,
                *nexts == w.steps@[cur as int].1.next,
                cur_id == w.steps@[cur as int].0@,
                is_first(w.steps@, cur as int),
                reachable(*w, cur_id),
                s0 == step_index(w.steps@, w.start@)->0,
                s0 < n,
                has_step(w.steps@, w.start@),
                mark@[s0 as int],
                forall|id: Seq<char>|
                    #[trigger] has_step(w.steps@, id) ==> 0 <= step_index(w.steps@, id)->0 < n,
                mark@[cur as int],
                q < queue@.len(),
                queue@[q as int] == cur,
                m <= nexts@.len(),
                queue@.len() == count_true(mark@),
                forall|i: int| 0 <= i < queue@.len() ==> (#[trigger] queue@[i]) < n && mark@[queue@[i] as int],
                forall|j: int|
                    0 <= j < n && #[trigger] mark@[j] ==> exists|i: int|
                        0 <= i < queue@.len() && queue@[i] == j,
                forall|j: int|
                    0 <= j < n && #[trigger] mark@[j] ==> is_first(w.steps@, j) && reachable(
                        *w,
                        w.steps@[j].0@,
                    ),
                forall|i: int, x: Seq<char>|
                    0 <= i < q && #[trigger] successor(*w, w.steps@[queue@[i] as int].0@, x)
                        && has_step(w.steps@, x) ==> mark@[step_index(w.steps@, x)->0],
                forall|k: int|
                    0 <= k < m && has_step(w.steps@, (#[trigger] nexts@[k])@) ==> mark@[step_index(
                        w.steps@,
                        nexts@[k]@,
                    )->0],
            decreases nexts.len() - m,
        {
            let ghost nm = nexts@[m as int]@;
            proof {
                lemma_step_index(w.steps@, nm);
            }
            match find_step(&w.steps, nexts[m].as_str()) {
                Some(f) => {
                    if !mark[f] {
                        proof {
                            lemma_count_true_set(mark@, f as int);
                            let path = choose|path: Seq<Seq<char>>|
                                #[trigger] is_path(*w, path) && path.last() == cur_id;
                            assert(ids(nexts@)[m as int] == nm);
                            assert(successor(*w, cur_id, nm));
                            let longer = path.push(nm);
                            assert forall|i: int| 0 <= i < longer.len() - 1 implies #[trigger] successor(
                                *w,
                                longer[i],
                                longer[i + 1],
                            ) by {
                                if i < path.len() - 1 {
                                    assert(successor(*w, path[i], path[i + 1]));
                                }
                            }
                            assert(is_path(*w, longer));
                            assert(reachable(*w, nm));
                        }
                        let ghost old_mark = mark@;
                        let ghost old_queue = queue@;
                        mark.set(f, true);
                        queue.push(f);
                        proof {
                            assert forall|j: int| 0 <= j < n && #[trigger] mark@[j] implies exists|
                                i: int,
                            | 0 <= i < queue@.len() && queue@[i] == j by {
                                if j != f {
                                    assert(old_mark[j]);
                                    let i0 = choose|i: int|
                                        0 <= i < old_queue.len() && old_queue[i] == j;
                                    assert(queue@[i0] == j);
                                } else {
                                    assert(queue@[queue@.len() - 1] == j);
                                }
                            }
                        }
                    }
                },
                None => {},
            }
            m += 1;
        }
        proof {
            assert forall|i: int, x: Seq<char>|
                0 <= i < q + 1 && #[trigger] successor(*w, w.steps@[queue@[i] as int].0@, x)
                    && has_step(w.steps@, x) implies mark@[step_index(w.steps@, x)->0] by {
                if i == q {
                    assert(step_index(w.steps@, cur_id) == Some(cur as int));
                    assert(ids(nexts@).contains(x));
                    let k = choose|k: int| 0 <= k < ids(nexts@).len() && ids(nexts@)[k] == x;
                    assert(nexts@[k]@ == x);
                }
            }
        }
        q += 1;
    }
    proof {
        assert forall|j: int|
            0 <= j < mark@.len() && is_first(w.steps@, j) implies (#[trigger] mark@[j] <==> reachable(
            *w,
            w.steps@[j].0@,
        )) by {
            if reachable(*w, w.steps@[j].0@) {
                let path = choose|path: Seq<Seq<char>>|
                    #[trigger] is_path(*w, path) && path.last() == w.steps@[j].0@;
                assert forall|jj: int, x: Seq<char>|
                    0 <= jj < mark@.len() && mark@[jj] && #[trigger] successor(*w, w.steps@[jj].0@, x)
                        && has_step(w.steps@, x) && is_first(w.steps@, jj) implies mark@[step_index(
                    w.steps@,
                    x,
                )->0] by {
                    let i = choose|i: int| 0 <= i < queue@.len() && queue@[i] == jj;
                    assert(queue@[i] == jj);
                }
                lemma_step_index(w.steps@, w.steps@[j].0@);
                lemma_marks_cover_path(*w, mark@, path, path.len() - 1);
            }
        }
    }
    mark
}

impl Workflow {
    /// Checks the definition and reports its first problem.
    pub fn validate(&self) -> (r: Result<(), WorkflowError>)
        ensures
            match r {
                Ok(_) => validation_fault(*self) is None,
                Err(e) => validation_fault(*self) == Some(e@),
            },
    {
        if str_is_blank(self.id.as_str()) {
            return Err(WorkflowError::MissingId);
        }
        if str_is_blank(self.name.as_str()) {
            return Err(WorkflowError::MissingName);
        }
        if str_is_blank(self.start.as_str()) {
            return Err(WorkflowError::MissingStart);
        }
        if self.steps.len() == 0 {
            return Err(WorkflowError::EmptySteps);
        }
        match find_step(&self.steps, self.start.as_str()) {
            None => {
                return Err(WorkflowError::UnknownStart(self.start.clone()));
            },
            Some(_) => {},
        }
        if !terminal_exists(&self.steps) {
            return Err(WorkflowError::NoTerminalStep);
        }
        let mut i: usize = 0;
        while i < self.steps.len()
            invariant
                i <= self.steps@.len(),
                !is_blank(self.id@),
                !is_blank(self.name@),
                !is_blank(self.start@),
                self.steps@.len() > 0,
                has_step(self.steps@, self.start@),
                has_terminal(self.steps@),
                steps_fault_from(self.steps@, 0) == steps_fault_from(self.steps@, i as int),
            decreases self.steps.len() - i,
        {
            match step_problem(&self.steps, i) {
                Some(e) => {
                    return Err(e);
                },
                None => {},
            }
            i += 1;
        }
        let mark = reachable_marks(self);
        let mut i: usize = 0;
        while i < self.steps.len()
            invariant
                i <= self.steps@.len(),
                !is_blank(self.id@),
                !is_blank(self.name@),
                !is_blank(self.start@),
                self.steps@.len() > 0,
                has_step(self.steps@, self.start@),
                has_terminal(self.steps@),
                steps_fault_from(self.steps@, 0) is None,
                mark@.len() == self.steps@.len(),
                forall|j: int|
                    0 <= j < mark@.len() && is_first(self.steps@, j) ==> (#[trigger] mark@[j]
                        <==> reachable(*self, self.steps@[j].0@)),
                unreachable_from(*self, 0) == unreachable_from(*self, i as int),
            decreases self.steps.len() - i,
        {
            proof {
                lemma_step_index(self.steps@, self.steps@[i as int].0@);
            }
            let f = match find_step(&self.steps, self.steps[i].0.as_str()) {
                Some(f) => f,
                None => {
                    return Err(WorkflowError::UnreachableStep(self.steps[i].0.clone()));
                },
            };
            proof {
                lemma_step_index(self.steps@, self.steps@[f as int].0@);
            }
            if !mark[f] {
                return Err(WorkflowError::UnreachableStep(self.steps[i].0.clone()));
            }
            i += 1;
        }
        Ok(())
    }
}

// ---------------------------------------------------------------------------
// The state of a run: visits and check results

/// The visit count recorded for `id`, from entry `i` on (the first entry with
/// that id counts; no entry means no visit).
pub open spec fn visits_from(v: Seq<(String, u32)>, id: Seq<char>, i: int) -> nat
    decreases v.len() - i,
{
    if i < 0 || i >= v.len() {
        0
    } else if v[i].0@ == id {
        v[i].1 as nat
    } else {
        visits_from(v, id, i + 1)
    }
}

/// The number of times the run has entered the step `id`.
pub open spec fn visits_of(v: Seq<(String, u32)>, id: Seq<char>) -> nat {
    visits_from(v, id, 0)
}

proof fn lemma_visits_agree(s: Seq<(String, u32)>, t: Seq<(String, u32)>, x: Seq<char>, j: int)
    requires
        0 <= j,
        s.len() <= t.len(),
        forall|k: int| j <= k < s.len() ==> t[k] == #[trigger] s[k],
        forall|k: int| s.len() <= k < t.len() && j <= k ==> (#[trigger] t[k]).0@ != x,
    ensures
        visits_from(t, x, j) == visits_from(s, x, j),
    decreases t.len() - j,
{
    if j < t.len() {
        lemma_visits_agree(s, t, x, j + 1);
    }
}

proof fn lemma_visits_bump(v: Seq<(String, u32)>, i: int, n: u32, x: Seq<char>, j: int)
    requires
        0 <= j <= i < v.len(),
        forall|k: int| j <= k < i ==> (#[trigger] v[k]).0@ != v[i].0@,
    ensures
        visits_from(v.update(i, (v[i].0, n)), x, j) == if x == v[i].0@ {
            n as nat
        } else {
            visits_from(v, x, j)
        },
    decreases i - j,
{
    let t = v.update(i, (v[i].0, n));
    if j < i {
        lemma_visits_bump(v, i, n, x, j + 1);
    } else {
        lemma_visits_agree(v, t, x, i + 1);
    }
}

proof fn lemma_visits_first(v: Seq<(String, u32)>, id: Seq<char>, i: int, j: int)
    requires
        0 <= j <= i <= v.len(),
        forall|k: int| j <= k < i ==> (#[trigger] v[k]).0@ != id,
    ensures
        visits_from(v, id, j) == visits_from(v, id, i),
    decreases i - j,
{
    if j < i {
        lemma_visits_first(v, id, i, j + 1);
    }
}

/// Counts one more visit of `id`.
fn bump_visits(v: &mut Vec<(String, u32)>, id: &str)
    requires
        visits_of(old(v)@, id@) < u32::MAX,
    ensures
        forall|x: Seq<char>|
            #[trigger] visits_of(final(v)@, x) == if x == id@ {
                visits_of(old(v)@, x) + 1
            } else {
                visits_of(old(v)@, x)
            },
{
    let mut i: usize = 0;
    while i < v.len()
        invariant
            i <= v@.len(),
            v@ == old(v)@,
            visits_of(old(v)@, id@) < u32::MAX,
            forall|k: int| 0 <= k < i ==> (#[trigger] v@[k]).0@ != id@,
        decreases v.len() - i,
    {
        if str_eq(v[i].0.as_str(), id) {
            proof {
                lemma_visits_first(v@, id@, i as int, 0);
            }
            let n = v[i].1 + 1;
            let ghost before = v@;
            v[i].1 = n;
            proof {
                assert(v@ == before.update(i as int, (before[i as int].0, n)));
                assert forall|x: Seq<char>| #[trigger] visits_of(v@, x) == if x == id@ {
                    visits_of(before, x) + 1
                } else {
                    visits_of(before, x)
                } by {
                    lemma_visits_bump(before, i as int, n, x, 0);
                }
            }
            return;
        }
        i += 1;
    }
    let ghost before = v@;
    proof {
        lemma_visits_first(before, id@, before.len() as int, 0);
    }
    v.push((id.to_string(), 1));
    proof {
        assert forall|x: Seq<char>| #[trigger] visits_of(v@, x) == if x == id@ {
            visits_of(before, x) + 1
        } else {
            visits_of(before, x)
        } by {
            if x == id@ {
                lemma_visits_first(v@, x, before.len() as int, 0);
            } else {
                lemma_visits_agree(before, v@, x, 0);
            }
        }
    }
}

/// The visit count recorded for `id`.
fn visit_count(v: &Vec<(String, u32)>, id: &str) -> (n: u32)
    ensures
        n == visits_of(v@, id@),
{
    let mut i: usize = 0;
    while i < v.len()
        invariant
            i <= v@.len(),
            visits_of(v@, id@) == visits_from(v@, id@, i as int),
        decreases v.len() - i,
    {
        if str_eq(v[i].0.as_str(), id) {
            return v[i].1;
        }
        i += 1;
    }
    0
}

/// The result recorded for check `check` of step `step`, from entry `i` on.
pub open spec fn result_from(rs: Seq<CheckResult>, step: Seq<char>, check: Seq<char>, i: int) -> Option<
    CheckResult,
>
    decreases rs.len() - i,
{
    if i < 0 || i >= rs.len() {
        None
    } else if rs[i].step_id@ == step && rs[i].check_id@ == check {
        Some(rs[i])
    } else {
        result_from(rs, step, check, i + 1)
    }
}

/// The result recorded for check `check` of step `step`.
pub open spec fn result_of(rs: Seq<CheckResult>, step: Seq<char>, check: Seq<char>) -> Option<
    CheckResult,
> {
    result_from(rs, step, check, 0)
}

proof fn lemma_results_agree(
    s: Seq<CheckResult>,
    t: Seq<CheckResult>,
    step: Seq<char>,
    check: Seq<char>,
    j: int,
)
    requires
        0 <= j,
        s.len() <= t.len(),
        forall|k: int| j <= k < s.len() ==> t[k] == #[trigger] s[k],
        forall|k: int|
            s.len() <= k < t.len() && j <= k ==> !((#[trigger] t[k]).step_id@ == step && t[k].check_id@
                == check),
    ensures
        result_from(t, step, check, j) == result_from(s, step, check, j),
    decreases t.len() - j,
{
    if j < t.len() {
        lemma_results_agree(s, t, step, check, j + 1);
    }
}

proof fn lemma_results_first(
    rs: Seq<CheckResult>,
    step: Seq<char>,
    check: Seq<char>,
    i: int,
    j: int,
)
    requires
        0 <= j <= i <= rs.len(),
        forall|k: int|
            j <= k < i ==> !((#[trigger] rs[k]).step_id@ == step && rs[k].check_id@ == check),
    ensures
        result_from(rs, step, check, j) == result_from(rs, step, check, i),
    decreases i - j,
{
    if j < i {
        lemma_results_first(rs, step, check, i, j + 1);
    }
}

proof fn lemma_results_replace(
    rs: Seq<CheckResult>,
    i: int,
    r: CheckResult,
    step: Seq<char>,
    check: Seq<char>,
    j: int,
)
    requires
        0 <= j <= i < rs.len(),
        r.step_id@ == rs[i].step_id@,
        r.check_id@ == rs[i].check_id@,
        forall|k: int|
            j <= k < i ==> !((#[trigger] rs[k]).step_id@ == rs[i].step_id@ && rs[k].check_id@
                == rs[i].check_id@),
    ensures
        result_from(rs.update(i, r), step, check, j) == if step == r.step_id@ && check
            == r.check_id@ {
            Some(r)
        } else {
            result_from(rs, step, check, j)
        },
    decreases i - j,
{
    if j < i {
        lemma_results_replace(rs, i, r, step, check, j + 1);
    } else {
        lemma_results_agree(rs, rs.update(i, r), step, check, i + 1);
    }
}

/// Whether `new` holds `r` for its step and check, and what `old` held for
/// every other pair.
pub open spec fn stored(old: Seq<CheckResult>, new: Seq<CheckResult>, r: CheckResult) -> bool {
    &&& result_of(new, r.step_id@, r.check_id@) == Some(r)
    &&& forall|step: Seq<char>, check: Seq<char>|
        !(step == r.step_id@ && check == r.check_id@) ==> #[trigger] result_of(new, step, check)
            == result_of(old, step, check)
}

/// Records a result, replacing the one held for the same step and check.
fn store_result(rs: &mut Vec<CheckResult>, r: CheckResult)
    ensures
        stored(old(rs)@, final(rs)@, r),
{
    let mut i: usize = 0;
    while i < rs.len()
        invariant
            i <= rs@.len(),
            rs@ == old(rs)@,
            forall|k: int|
                0 <= k < i ==> !((#[trigger] rs@[k]).step_id@ == r.step_id@ && rs@[k].check_id@
                    == r.check_id@),
        decreases rs.len() - i,
    {
        if str_eq(rs[i].step_id.as_str(), r.step_id.as_str()) && str_eq(
            rs[i].check_id.as_str(),
            r.check_id.as_str(),
        ) {
            let ghost before = rs@;
            rs.set(i, r);
            proof {
                assert forall|step: Seq<char>, check: Seq<char>|
                    true implies #[trigger] result_of(rs@, step, check) == if step == r.step_id@
                    && check == r.check_id@ {
                    Some(r)
                } else {
                    result_of(before, step, check)
                } by {
                    lemma_results_replace(before, i as int, r, step, check, 0);
                }
                assert(result_of(rs@, r.step_id@, r.check_id@) == Some(r));
            }
            return;
        }
        i += 1;
    }
    let ghost before = rs@;
    proof {
        lemma_results_first(before, r.step_id@, r.check_id@, before.len() as int, 0);
    }
    rs.push(r);
    proof {
        lemma_results_first(rs@, r.step_id@, r.check_id@, before.len() as int, 0);
        assert forall|step: Seq<char>, check: Seq<char>|
            !(step == r.step_id@ && check == r.check_id@) implies #[trigger] result_of(
            rs@,
            step,
            check,
        ) == result_of(before, step, check) by {
            lemma_results_agree(before, rs@, step, check, 0);
        }
    }
}

/// The result recorded for check `check` of step `step`.
fn find_result(rs: &Vec<CheckResult>, step: &str, check: &str) -> (r: Option<usize>)
    ensures
        match r {
            Some(i) => i < rs@.len() && result_of(rs@, step@, check@) == Some(rs@[i as int]),
            None => result_of(rs@, step@, check@) is None,
        },
{
    let mut i: usize = 0;
    while i < rs.len()
        invariant
            i <= rs@.len(),
            result_of(rs@, step@, check@) == result_from(rs@, step@, check@, i as int),
        decreases rs.len() - i,
    {
        if str_eq(rs[i].step_id.as_str(), step) && str_eq(rs[i].check_id.as_str(), check) {
            return Some(i);
        }
        i += 1;
    }
    None
}

// ---------------------------------------------------------------------------
// Requests on a run

/// The first check at or after `j` whose id is `id`.
pub open spec fn check_index_from(checks: Seq<WorkflowCheck>, id: Seq<char>, j: int) -> Option<int>
    decreases checks.len() - j,
{
    if j < 0 || j >= checks.len() {
        None
    } else if checks[j].id@ == id {
        Some(j)
    } else {
        check_index_from(checks, id, j + 1)
    }
}

/// The first check whose id is `id`.
pub open spec fn check_index(checks: Seq<WorkflowCheck>, id: Seq<char>) -> Option<int> {
    check_index_from(checks, id, 0)
}

proof fn lemma_check_index_from(checks: Seq<WorkflowCheck>, id: Seq<char>, j: int)
    requires
        0 <= j,
    ensures
        match check_index_from(checks, id, j) {
            Some(c) => j <= c < checks.len() && checks[c].id@ == id,
            None => true,
        },
    decreases checks.len() - j,
{
    if j < checks.len() && checks[j].id@ != id {
        lemma_check_index_from(checks, id, j + 1);
    }
}

/// The step and the check that a request names, or why there is none.
pub open spec fn check_lookup(w: Workflow, step: Seq<char>, check: Seq<char>) -> Result<
    (int, int),
    WorkflowFault,
> {
    match step_index(w.steps@, step) {
        None => Err(WorkflowFault::UnknownTargetStep(step)),
        Some(f) => match check_index(w.steps@[f].1.checks@, check) {
            None => Err(WorkflowFault::UnknownCheck { step, check }),
            Some(c) => Ok((f, c)),
        },
    }
}

/// Whether a check still blocks leaving its step.
pub open spec fn pending(rs: Seq<CheckResult>, step: Seq<char>, c: WorkflowCheck) -> bool {
    c.required && !(match result_of(rs, step, c.id@) {
        Some(r) => r.status.satisfies(),
        None => false,
    })
}

/// The ids of the pending checks among the first `j` checks, in order.
pub open spec fn missing_upto(rs: Seq<CheckResult>, step: Seq<char>, checks: Seq<WorkflowCheck>, j: int) -> Seq<
    Seq<char>,
>
    decreases j,
{
    if j <= 0 {
        Seq::empty()
    } else {
        let prev = missing_upto(rs, step, checks, j - 1);
        if pending(rs, step, checks[j - 1]) {
            prev.push(checks[j - 1].id@)
        } else {
            prev
        }
    }
}

/// Why the run may not leave step `step` yet, if it may not.
pub open spec fn checks_fault(s: WorkflowState, step: Seq<char>) -> Option<WorkflowFault> {
    match step_index(s.definition.steps@, step) {
        None => Some(WorkflowFault::UnknownCurrentStep(step)),
        Some(f) => {
            let cs = s.definition.steps@[f].1.checks@;
            let m = missing_upto(s.check_results@, step, cs, cs.len() as int);
            if m.len() == 0 {
                None
            } else {
                Some(WorkflowFault::RequiredChecksPending { step, missing: m })
            }
        },
    }
}

/// Why entering the `t`-th step, with id `id`, would exceed its visit limit.
pub open spec fn visits_fault(s: WorkflowState, id: Seq<char>, t: int) -> Option<WorkflowFault> {
    match s.definition.steps@[t].1.max_visits {
        Some(max) => {
            let n = visits_of(s.visits@, id) + 1;
            if n > max {
                Some(WorkflowFault::MaxVisitsExceeded { step: id, visits: n as int, max: max as int })
            } else {
                None
            }
        },
        None => None,
    }
}

/// Why the run may not enter the step named `step` (before trimming), with
/// the reason `reason`, or `None` when it may.
pub open spec fn enter_fault(s: WorkflowState, step: Seq<char>, reason: Seq<char>) -> Option<
    WorkflowFault,
> {
    let id = trim(step);
    let w = s.definition;
    if validation_fault(w) is Some {
        validation_fault(w)
    } else {
        match step_index(w.steps@, id) {
            None => Some(WorkflowFault::UnknownTargetStep(id)),
            Some(t) => match s.current_step {
                Some(cur) => match step_index(w.steps@, cur@) {
                    None => Some(WorkflowFault::UnknownCurrentStep(cur@)),
                    Some(c) => {
                        let cs = w.steps@[c].1;
                        if !ids(cs.next@).contains(id) {
                            Some(
                                WorkflowFault::InvalidTransition {
                                    from: cur@,
                                    to: id,
                                    allowed: ids(cs.next@),
                                },
                            )
                        } else if cs.gate && is_blank(reason) {
                            Some(WorkflowFault::GateReasonRequired { step: cur@, to: id })
                        } else if checks_fault(s, cur@) is Some {
                            checks_fault(s, cur@)
                        } else {
                            visits_fault(s, id, t)
                        }
                    },
                },
                None => if id != w.start@ {
                    Some(WorkflowFault::InvalidStartTransition { start: w.start@, got: id })
                } else {
                    visits_fault(s, id, t)
                },
            },
        }
    }
}

/// What a successful move into step `id` leaves: the run is at `id`, its
/// visit count is one higher, and the log ends with the move.
pub open spec fn entered(
    old: WorkflowState,
    new: WorkflowState,
    id: Seq<char>,
    reason: Seq<char>,
    ts: u64,
) -> bool {
    &&& new.definition == old.definition
    &&& new.check_results == old.check_results
    &&& new.current_step is Some
    &&& new.current_step->0@ == id
    &&& forall|x: Seq<char>|
        #[trigger] visits_of(new.visits@, x) == if x == id {
            visits_of(old.visits@, x) + 1
        } else {
            visits_of(old.visits@, x)
        }
    &&& new.transition_log@.len() == old.transition_log@.len() + 1
    &&& new.transition_log@.take(old.transition_log@.len() as int) == old.transition_log@
    &&& new.transition_log@.last().from == old.current_step
    &&& new.transition_log@.last().to@ == id
    &&& new.transition_log@.last().reason@ == reason
    &&& new.transition_log@.last().timestamp_ms == ts
}

/// Why a manual check result would be refused, or `None` when it is taken.
pub open spec fn manual_fault(
    s: WorkflowState,
    step: Seq<char>,
    check: Seq<char>,
    status: CheckStatus,
    evidence: Seq<char>,
    waiver_reason: Seq<char>,
    waiver_risk: Seq<char>,
) -> Option<WorkflowFault> {
    match check_lookup(s.definition, step, check) {
        Err(f) => Some(f),
        Ok(_) => if status != CheckStatus::Waived && is_blank(evidence) {
            Some(WorkflowFault::EvidenceRequired { step, check })
        } else if status == CheckStatus::Waived && (is_blank(waiver_reason) || is_blank(
            waiver_risk,
        )) {
            Some(WorkflowFault::WaiverDetailsRequired { step, check })
        } else {
            None
        },
    }
}

/// Why a command check result would be refused, or `None` when it is taken.
pub open spec fn command_fault(s: WorkflowState, step: Seq<char>, check: Seq<char>) -> Option<
    WorkflowFault,
> {
    match check_lookup(s.definition, step, check) {
        Err(f) => Some(f),
        Ok((f, c)) => if s.definition.steps@[f].1.checks@[c].kind != CheckKind::Command {
            Some(WorkflowFault::UnknownCheck { step, check })
        } else {
            None
        },
    }
}

/// Why the run cannot be completed, or `None` when it can.
pub open spec fn completion_fault(s: WorkflowState) -> Option<WorkflowFault> {
    match s.current_step {
        None => Some(WorkflowFault::NotStarted),
        Some(cur) => match step_index(s.definition.steps@, cur@) {
            None => Some(WorkflowFault::UnknownCurrentStep(cur@)),
            Some(f) => if !s.definition.steps@[f].1.terminal {
                Some(WorkflowFault::NotTerminal(cur@))
            } else {
                checks_fault(s, cur@)
            },
        },
    }
}

/// A copy of a list of strings.
fn clone_strings(v: &Vec<String>) -> (r: Vec<String>)
    ensures
        r@ == v@,
{
    let mut r: Vec<String> = Vec::new();
    let mut i: usize = 0;
    while i < v.len()
        invariant
            i <= v@.len(),
            r@ == v@.take(i as int),
        decreases v.len() - i,
    {
        r.push(v[i].clone());
        assert(v@.take(i + 1) == v@.take(i as int).push(v@[i as int]));
        i += 1;
    }
    assert(v@.take(v@.len() as int) == v@);
    r
}

/// Whether `id` is one of `v`.
fn contains_id(v: &Vec<String>, id: &str) -> (b: bool)
    ensures
        b == ids(v@).contains(id@),
{
    let mut i: usize = 0;
    while i < v.len()
        invariant
            i <= v@.len(),
            forall|k: int| 0 <= k < i ==> (#[trigger] v@[k])@ != id@,
        decreases v.len() - i,
    {
        if str_eq(v[i].as_str(), id) {
            assert(ids(v@)[i as int] == id@);
            return true;
        }
        i += 1;
    }
    proof {
        if ids(v@).contains(id@) {
            let k = choose|k: int| 0 <= k < ids(v@).len() && ids(v@)[k] == id@;
            assert(v@[k]@ == id@);
        }
    }
    false
}

impl WorkflowState {
    /// A run that has not entered any step yet.
    pub fn new(definition: Workflow) -> (s: Self)
        ensures
            s.definition == definition,
            s.current_step is None,
            s.visits@.len() == 0,
            s.check_results@.len() == 0,
            s.transition_log@.len() == 0,
    {
        WorkflowState {
            definition,
            current_step: None,
            visits: Vec::new(),
            check_results: Vec::new(),
            transition_log: Vec::new(),
        }
    }

    /// Refuses to leave step `step_id` while one of its required checks has
    /// no passing or waived result.
    fn ensure_required_checks_satisfied(&self, step_id: &str) -> (r: Result<(), WorkflowError>)
        ensures
            match checks_fault(*self, step_id@) {
                Some(f) => r matches Err(e) && e@ == f,
                None => r is Ok,
            },
    {
        let f = match find_step(&self.definition.steps, step_id) {
            Some(f) => f,
            None => {
                return Err(WorkflowError::UnknownCurrentStep(step_id.to_string()));
            },
        };
        proof {
            lemma_step_index(self.definition.steps@, step_id@);
        }
        let checks = &self.definition.steps[f].1.checks;
        let mut missing: Vec<String> = Vec::new();
        let mut j: usize = 0;
        while j < checks.len()
            invariant
                j <= checks@.len(),
                f < self.definition.steps@.len(),
                step_index(self.definition.steps@, step_id@) == Some(f as int),
                checks@ == self.definition.steps@[f as int].1.checks@,
                ids(missing@) == missing_upto(self.check_results@, step_id@, checks@, j as int),
            decreases checks.len() - j,
        {
            let c = &checks[j];
            if c.required {
                let satisfied = match find_result(&self.check_results, step_id, c.id.as_str()) {
                    Some(i) => self.check_results[i].status.satisfies_required(),
                    None => false,
                };
                if !satisfied {
                    missing.push(c.id.clone());
                }
            }
            proof {
                assert(ids(missing@) =~= missing_upto(
                    self.check_results@,
                    step_id@,
                    checks@,
                    j + 1,
                ));
            }
            j += 1;
        }
        if missing.len() == 0 {
            Ok(())
        } else {
            Err(WorkflowError::RequiredChecksPending { step: step_id.to_string(), missing })
        }
    }

    /// The step and check that a request names.
    fn find_check(&self, step_id: &str, check_id: &str) -> (r: Result<(usize, usize), WorkflowError>)
        ensures
            match check_lookup(self.definition, step_id@, check_id@) {
                Ok((f, c)) => r matches Ok((a, b)) && a == f && b == c && 0 <= f
                    < self.definition.steps@.len() && 0 <= c < self.definition.steps@[f].1.checks@.len(),
                Err(e) => r matches Err(x) && x@ == e,
            },
    {
        let f = match find_step(&self.definition.steps, step_id) {
            Some(f) => f,
            None => {
                return Err(WorkflowError::UnknownTargetStep(step_id.to_string()));
            },
        };
        proof {
            lemma_step_index(self.definition.steps@, step_id@);
        }
        let checks = &self.definition.steps[f].1.checks;
        let mut c: usize = 0;
        while c < checks.len()
            invariant
                c <= checks@.len(),
                f < self.definition.steps@.len(),
                step_index(self.definition.steps@, step_id@) == Some(f as int),
                checks@ == self.definition.steps@[f as int].1.checks@,
                check_index(checks@, check_id@) == check_index_from(checks@, check_id@, c as int),
            decreases checks.len() - c,
        {
            if str_eq(checks[c].id.as_str(), check_id) {
                proof {
                    lemma_check_index_from(checks@, check_id@, 0);
                }
                return Ok((f, c));
            }
            c += 1;
        }
        Err(WorkflowError::UnknownCheck { step: step_id.to_string(), check: check_id.to_string() })
    }
}

impl WorkflowState {
    /// Moves the run into step `step_id` (trimmed), if the definition is
    /// valid and the move is allowed; logs the move with its trimmed reason.
    pub fn enter_step(&mut self, step_id: &str, reason: &str, timestamp_ms: u64) -> (r: Result<
        (),
        WorkflowError,
    >)
        requires
            visits_of(old(self).visits@, trim(step_id@)) < u32::MAX,
        ensures
            match enter_fault(*old(self), step_id@, reason@) {
                Some(f) => r matches Err(e) && e@ == f && *final(self) == *old(self),
                None => r is Ok && entered(
                    *old(self),
                    *final(self),
                    trim(step_id@),
                    trim(reason@),
                    timestamp_ms,
                ),
            },
    {
        match self.definition.validate() {
            Err(e) => {
                return Err(e);
            },
            Ok(_) => {},
        }
        let id = trim_string(step_id);
        let t = match find_step(&self.definition.steps, id.as_str()) {
            Some(t) => t,
            None => {
                return Err(WorkflowError::UnknownTargetStep(id));
            },
        };
        proof {
            lemma_step_index(self.definition.steps@, id@);
        }
        match &self.current_step {
            Some(cur) => {
                let c = match find_step(&self.definition.steps, cur.as_str()) {
                    Some(c) => c,
                    None => {
                        return Err(WorkflowError::UnknownCurrentStep(cur.clone()));
                    },
                };
                proof {
                    lemma_step_index(self.definition.steps@, cur@);
                }
                let current = &self.definition.steps[c].1;
                if !contains_id(&current.next, id.as_str()) {
                    return Err(
                        WorkflowError::InvalidTransition {
                            from: cur.clone(),
                            to: id,
                            allowed: clone_strings(&current.next),
                        },
                    );
                }
                if current.gate && str_is_blank(reason) {
                    return Err(WorkflowError::GateReasonRequired { step: cur.clone(), to: id });
                }
                match self.ensure_required_checks_satisfied(cur.as_str()) {
                    Err(e) => {
                        return Err(e);
                    },
                    Ok(_) => {},
                }
            },
            None => {
                if !str_eq(id.as_str(), self.definition.start.as_str()) {
                    return Err(
                        WorkflowError::InvalidStartTransition {
                            start: self.definition.start.clone(),
                            got: id,
                        },
                    );
                }
            },
        }
        match self.definition.steps[t].1.max_visits {
            Some(max) => {
                let n = visit_count(&self.visits, id.as_str()) + 1;
                if n > max {
                    return Err(WorkflowError::MaxVisitsExceeded { step: id, visits: n, max });
                }
            },
            None => {},
        }
        let from = match &self.current_step {
            Some(cur) => Some(cur.clone()),
            None => None,
        };
        let ghost before = *self;
        self.current_step = Some(id.clone());
        bump_visits(&mut self.visits, id.as_str());
        let record = TransitionRecord {
            from,
            to: id,
            reason: trim_string(reason),
            timestamp_ms,
        };
        self.transition_log.push(record);
        proof {
            assert(self.transition_log@.take(before.transition_log@.len() as int)
                =~= before.transition_log@);
        }
        Ok(())
    }

    /// Records the outcome of a manual check of a step.
    pub fn record_check(&mut self, input: ManualCheckInput<'_>) -> (r: Result<(), WorkflowError>)
        ensures
            match manual_fault(
                *old(self),
                input.step_id@,
                input.check_id@,
                input.status,
                input.evidence@,
                input.waiver_reason@,
                input.waiver_risk@,
            ) {
                Some(f) => r matches Err(e) && e@ == f && *final(self) == *old(self),
                None => r is Ok && final(self).definition == old(self).definition
                    && final(self).current_step == old(self).current_step && final(self).visits
                    == old(self).visits && final(self).transition_log == old(self).transition_log
                    && match result_of(final(self).check_results@, input.step_id@, input.check_id@) {
                    Some(res) => {
                        &&& stored(old(self).check_results@, final(self).check_results@, res)
                        &&& res.step_id@ == input.step_id@
                        &&& res.check_id@ == input.check_id@
                        &&& res.status == input.status
                        &&& res.evidence@ == trim(input.evidence@)
                        &&& res.waiver_reason@ == trim(input.waiver_reason@)
                        &&& res.waiver_risk@ == trim(input.waiver_risk@)
                        &&& res.command is None
                        &&& res.exit_code is None
                        &&& res.timestamp_ms == input.timestamp_ms
                    },
                    None => false,
                },
            },
    {
        let step_id = input.step_id;
        let check_id = input.check_id;
        let (f, c) = match self.find_check(step_id, check_id) {
            Ok(fc) => fc,
            Err(e) => {
                return Err(e);
            },
        };
        let is_waived = match input.status {
            CheckStatus::Waived => true,
            _ => false,
        };
        if !is_waived && str_is_blank(input.evidence) {
            return Err(
                WorkflowError::EvidenceRequired {
                    step: step_id.to_string(),
                    check: check_id.to_string(),
                },
            );
        }
        if is_waived && (str_is_blank(input.waiver_reason) || str_is_blank(input.waiver_risk)) {
            return Err(
                WorkflowError::WaiverDetailsRequired {
                    step: step_id.to_string(),
                    check: check_id.to_string(),
                },
            );
        }
        let result = CheckResult {
            step_id: step_id.to_string(),
            check_id: self.definition.steps[f].1.checks[c].id.clone(),
            status: input.status,
            evidence: trim_string(input.evidence),
            waiver_reason: trim_string(input.waiver_reason),
            waiver_risk: trim_string(input.waiver_risk),
            command: None,
            exit_code: None,
            timestamp_ms: input.timestamp_ms,
        };
        proof {
            lemma_check_index_from(self.definition.steps@[f as int].1.checks@, check_id@, 0);
        }
        store_result(&mut self.check_results, result);
        Ok(())
    }

    /// Records the outcome of running the command of a command check: passed
    /// when it exited with status 0, failed otherwise.
    pub fn record_command_check(
        &mut self,
        step_id: &str,
        check_id: &str,
        command: &str,
        exit_code: i32,
        evidence: &str,
        timestamp_ms: u64,
    ) -> (r: Result<(), WorkflowError>)
        ensures
            match command_fault(*old(self), step_id@, check_id@) {
                Some(f) => r matches Err(e) && e@ == f && *final(self) == *old(self),
                None => r is Ok && final(self).definition == old(self).definition
                    && final(self).current_step == old(self).current_step && final(self).visits
                    == old(self).visits && final(self).transition_log == old(self).transition_log
                    && match result_of(final(self).check_results@, step_id@, check_id@) {
                    Some(res) => {
                        &&& stored(old(self).check_results@, final(self).check_results@, res)
                        &&& res.step_id@ == step_id@
                        &&& res.check_id@ == check_id@
                        &&& res.status == if exit_code == 0 {
                            CheckStatus::Passed
                        } else {
                            CheckStatus::Failed
                        }
                        &&& res.evidence@ == trim(evidence@)
                        &&& res.waiver_reason@.len() == 0
                        &&& res.waiver_risk@.len() == 0
                        &&& res.command matches Some(cmd) && cmd@ == trim(command@)
                        &&& res.exit_code == Some(exit_code)
                        &&& res.timestamp_ms == timestamp_ms
                    },
                    None => false,
                },
            },
    {
        let (f, c) = match self.find_check(step_id, check_id) {
            Ok(fc) => fc,
            Err(e) => {
                return Err(e);
            },
        };
        if self.definition.steps[f].1.checks[c].kind != CheckKind::Command {
            return Err(
                WorkflowError::UnknownCheck { step: step_id.to_string(), check: check_id.to_string() },
            );
        }
        let status = if exit_code == 0 {
            CheckStatus::Passed
        } else {
            CheckStatus::Failed
        };
        let result = CheckResult {
            step_id: step_id.to_string(),
            check_id: self.definition.steps[f].1.checks[c].id.clone(),
            status,
            evidence: trim_string(evidence),
            waiver_reason: String::new(),
            waiver_risk: String::new(),
            command: Some(trim_string(command)),
            exit_code: Some(exit_code),
            timestamp_ms,
        };
        proof {
            lemma_check_index_from(self.definition.steps@[f as int].1.checks@, check_id@, 0);
        }
        store_result(&mut self.check_results, result);
        Ok(())
    }

    /// The command configured for a check, if any.
    pub fn command_for_check(&self, step_id: &str, check_id: &str) -> (r: Result<
        Option<String>,
        WorkflowError,
    >)
        ensures
            match check_lookup(self.definition, step_id@, check_id@) {
                Err(f) => r matches Err(e) && e@ == f,
                Ok((f, c)) => r == Ok::<Option<String>, WorkflowError>(
                    self.definition.steps@[f].1.checks@[c].command,
                ),
            },
    {
        let (f, c) = match self.find_check(step_id, check_id) {
            Ok(fc) => fc,
            Err(e) => {
                return Err(e);
            },
        };
        match &self.definition.steps[f].1.checks[c].command {
            Some(cmd) => Ok(Some(cmd.clone())),
            None => Ok(None),
        }
    }

    /// Refuses to complete the run unless it stands at a terminal step whose
    /// required checks are satisfied.
    pub fn ensure_current_step_is_terminal(&self) -> (r: Result<(), WorkflowError>)
        ensures
            match completion_fault(*self) {
                Some(f) => r matches Err(e) && e@ == f,
                None => r is Ok,
            },
    {
        let cur = match &self.current_step {
            Some(cur) => cur,
            None => {
                return Err(WorkflowError::NotStarted);
            },
        };
        let f = match find_step(&self.definition.steps, cur.as_str()) {
            Some(f) => f,
            None => {
                return Err(WorkflowError::UnknownCurrentStep(cur.clone()));
            },
        };
        proof {
            lemma_step_index(self.definition.steps@, cur@);
        }
        if !self.definition.steps[f].1.terminal {
            return Err(WorkflowError::NotTerminal(cur.clone()));
        }
        self.ensure_required_checks_satisfied(cur.as_str())
    }
}

// ---------------------------------------------------------------------------
// Rendering

/// What `{:?}` prints for a list of strings.
pub uninterp spec fn debug_list(items: Seq<Seq<char>>) -> Seq<char>;

/// `format!("{:?}", items)`: std's `Debug` rendering of a list of strings,
/// quoted and escaped.  The contract names the result and does not spell the
/// escaping out.
#[verifier::external_body]
fn debug_strings(items: &Vec<String>) -> (r: String)
    ensures
        r@ == debug_list(ids(items@)),
{
    format!("{:?}", items)
}

/// `s`, or a dash when it is blank.
pub open spec fn dash(s: Seq<char>) -> Seq<char> {
    if is_blank(s) {
        "-"@
    } else {
        s
    }
}

/// How a check kind is printed.
pub open spec fn kind_name(k: CheckKind) -> Seq<char> {
    match k {
        CheckKind::Manual => "Manual"@,
        CheckKind::Command => "Command"@,
    }
}

/// How a check outcome is printed.
pub open spec fn status_name(st: CheckStatus) -> Seq<char> {
    match st {
        CheckStatus::Passed => "passed"@,
        CheckStatus::Failed => "failed"@,
        CheckStatus::Waived => "waived"@,
    }
}

/// How a boolean is printed.
pub open spec fn bool_text(b: bool) -> Seq<char> {
    if b {
        "true"@
    } else {
        "false"@
    }
}

/// The status line of one check of step `step`.
pub open spec fn check_line(rs: Seq<CheckResult>, step: Seq<char>, c: WorkflowCheck) -> Seq<char> {
    "\n- "@ + c.id@ + " ("@ + kind_name(c.kind) + ", required="@ + bool_text(c.required) + "): "@
        + match result_of(rs, step, c.id@) {
        Some(r) => status_name(r.status),
        None => "pending"@,
    }
}

/// The status lines of the first `j` checks.
pub open spec fn check_lines(rs: Seq<CheckResult>, step: Seq<char>, checks: Seq<WorkflowCheck>, j: int) -> Seq<
    char,
>
    decreases j,
{
    if j <= 0 {
        Seq::empty()
    } else {
        check_lines(rs, step, checks, j - 1) + check_line(rs, step, checks[j - 1])
    }
}

/// The first lines the reminder gives of the step the run stands at.
pub open spec fn step_head(s: WorkflowState, step: Seq<char>, st: WorkflowStep) -> Seq<char> {
    "\nCurrent step: "@ + step + "\nTitle: "@ + dash(st.title@) + "\nStep instructions: "@ + dash(
        st.instructions@,
    ) + "\nVisits: "@ + decimal(visits_of(s.visits@, step))
}

/// Where the run may go from a step.
pub open spec fn step_moves(st: WorkflowStep) -> Seq<char> {
    (if st.terminal {
        "\nTerminal: true"@
    } else {
        "\nAllowed next: "@ + debug_list(ids(st.next@))
    }) + (if st.gate {
        "\nGate: transition requires reason"@
    } else {
        Seq::empty()
    })
}

/// The checks of a step and their state.
pub open spec fn step_checks(s: WorkflowState, step: Seq<char>, st: WorkflowStep) -> Seq<char> {
    if st.checks@.len() > 0 {
        "\nChecks:"@ + check_lines(s.check_results@, step, st.checks@, st.checks@.len() as int)
    } else {
        Seq::empty()
    }
}

/// What the reminder says of the step the run stands at.
pub open spec fn step_block(s: WorkflowState, step: Seq<char>, st: WorkflowStep) -> Seq<char> {
    step_head(s, step, st) + step_moves(st) + step_checks(s, step, st)
}

/// The reminder text of a run.
pub open spec fn reminder(s: WorkflowState) -> Seq<char> {
    let w = s.definition;
    "Active: "@ + w.name@ + " ("@ + w.id@ + ")\nInstructions: "@ + dash(w.instructions@) + match s.current_step {
        None => "\nCurrent step: none\nStart step: "@ + w.start@,
        Some(cur) => match step_index(w.steps@, cur@) {
            Some(f) => step_block(s, cur@, w.steps@[f].1),
            None => "\nCurrent step: "@ + cur@ + " (unknown)"@,
        },
    }
}

/// Appends `s`, or a dash when it is blank.
fn push_dash(out: &mut String, s: &str)
    ensures
        final(out)@ == old(out)@ + dash(s@),
{
    if str_is_blank(s) {
        out.append("-");
    } else {
        out.append(s);
    }
}

/// Appends how a boolean is printed.
fn push_bool(out: &mut String, b: bool)
    ensures
        final(out)@ == old(out)@ + bool_text(b),
{
    if b {
        out.append("true");
    } else {
        out.append("false");
    }
}

impl WorkflowState {
    /// Appends the status line of one check.
    fn push_check_line(&self, out: &mut String, step: &str, c: &WorkflowCheck)
        ensures
            final(out)@ == old(out)@ + check_line(self.check_results@, step@, *c),
    {
        out.append("\n- ");
        out.append(c.id.as_str());
        out.append(" (");
        match c.kind {
            CheckKind::Manual => out.append("Manual"),
            CheckKind::Command => out.append("Command"),
        }
        out.append(", required=");
        push_bool(out, c.required);
        out.append("): ");
        match find_result(&self.check_results, step, c.id.as_str()) {
            Some(i) => match self.check_results[i].status {
                CheckStatus::Passed => out.append("passed"),
                CheckStatus::Failed => out.append("failed"),
                CheckStatus::Waived => out.append("waived"),
            },
            None => out.append("pending"),
        }
        proof {
            let rs = self.check_results@;
            assert(final(out)@ =~= old(out)@ + check_line(rs, step@, *c));
        }
    }

    /// Appends the first lines the reminder gives of a step.
    fn push_step_head(&self, out: &mut String, step: &str, st: &WorkflowStep)
        ensures
            final(out)@ == old(out)@ + step_head(*self, step@, *st),
    {
        out.append("\nCurrent step: ");
        out.append(step);
        out.append("\nTitle: ");
        push_dash(out, st.title.as_str());
        out.append("\nStep instructions: ");
        push_dash(out, st.instructions.as_str());
        out.append("\nVisits: ");
        let n = visit_count(&self.visits, step);
        push_decimal(out, n as u64);
        proof {
            assert(final(out)@ =~= old(out)@ + step_head(*self, step@, *st));
        }
    }

    /// Appends the status lines of the checks of a step.
    fn push_step_checks(&self, out: &mut String, step: &str, st: &WorkflowStep)
        ensures
            final(out)@ == old(out)@ + step_checks(*self, step@, *st),
    {
        if st.checks.len() > 0 {
            let ghost start = out@;
            out.append("\nChecks:");
            let mut j: usize = 0;
            while j < st.checks.len()
                invariant
                    j <= st.checks@.len(),
                    out@ == start + "\nChecks:"@ + check_lines(
                        self.check_results@,
                        step@,
                        st.checks@,
                        j as int,
                    ),
                decreases st.checks.len() - j,
            {
                self.push_check_line(out, step, &st.checks[j]);
                proof {
                    let rs = self.check_results@;
                    assert(out@ =~= start + "\nChecks:"@ + check_lines(rs, step@, st.checks@, j + 1));
                }
                j += 1;
            }
        }
    }

    /// Appends what the reminder says of the step the run stands at.
    fn push_step_block(&self, out: &mut String, step: &str, st: &WorkflowStep)
        ensures
            final(out)@ == old(out)@ + step_block(*self, step@, *st),
    {
        let ghost start = out@;
        self.push_step_head(out, step, st);
        let ghost head = out@;
        if st.terminal {
            out.append("\nTerminal: true");
        } else {
            out.append("\nAllowed next: ");
            let listed = debug_strings(&st.next);
            out.append(listed.as_str());
        }
        if st.gate {
            out.append("\nGate: transition requires reason");
        }
        proof {
            assert(out@ =~= head + step_moves(*st));
        }
        let ghost moved = out@;
        self.push_step_checks(out, step, st);
        proof {
            assert(out@ =~= start + step_block(*self, step@, *st));
        }
    }

    /// The reminder text of the run: the workflow, and where the run stands.
    pub fn reminder_text(&self) -> (r: String)
        ensures
            r@ == reminder(*self),
    {
        let mut s = String::new();
        s.append("Active: ");
        s.append(self.definition.name.as_str());
        s.append(" (");
        s.append(self.definition.id.as_str());
        s.append(")\nInstructions: ");
        push_dash(&mut s, self.definition.instructions.as_str());
        let ghost head = s@;
        match &self.current_step {
            None => {
                s.append("\nCurrent step: none\nStart step: ");
                s.append(self.definition.start.as_str());
            },
            Some(cur) => match find_step(&self.definition.steps, cur.as_str()) {
                Some(f) => {
                    proof {
                        lemma_step_index(self.definition.steps@, cur@);
                    }
                    self.push_step_block(&mut s, cur.as_str(), &self.definition.steps[f].1);
                },
                None => {
                    s.append("\nCurrent step: ");
                    s.append(cur.as_str());
                    s.append(" (unknown)");
                },
            },
        }
        proof {
            assert(s@ =~= reminder(*self));
        }
        s
    }

    /// The status block of the run: a heading line, then the reminder text.
    pub fn render_status(&self) -> (r: String)
        ensures
            r@ == "[Workflow]\n"@ + reminder(*self),
    {
        let mut s = String::new();
        s.append("[Workflow]\n");
        let body = self.reminder_text();
        s.append(body.as_str());
        s
    }
}

/// `s` between single quotes.
pub open spec fn quoted(s: Seq<char>) -> Seq<char> {
    "'"@ + s + "'"@
}

/// The message that describes a workflow error.
pub open spec fn fault_text(f: WorkflowFault) -> Seq<char> {
    match f {
        WorkflowFault::MissingId => "workflow id is required"@,
        WorkflowFault::MissingName => "workflow name is required"@,
        WorkflowFault::MissingStart => "workflow start step is required"@,
        WorkflowFault::UnknownStart(s) => "workflow start step "@ + quoted(s) + " does not exist"@,
        WorkflowFault::EmptySteps => "workflow must define at least one step"@,
        WorkflowFault::NoTerminalStep => "workflow must define at least one terminal step"@,
        WorkflowFault::UnknownNext { step, next } => "step "@ + quoted(step)
            + " points to unknown next step "@ + quoted(next),
        WorkflowFault::NonTerminalWithoutNext(s) => "step "@ + quoted(s)
            + " is non-terminal but has no next steps"@,
        WorkflowFault::ZeroMaxVisits(s) => "step "@ + quoted(s) + " has max_visits=0"@,
        WorkflowFault::DuplicateStep(s) => "duplicate step id "@ + quoted(s),
        WorkflowFault::DuplicateCheck { step, check } => "step "@ + quoted(step)
            + " has duplicate check id "@ + quoted(check),
        WorkflowFault::EmptyCheckId { step } => "step "@ + quoted(step)
            + " has check with empty id"@,
        WorkflowFault::EmptyCommandCheck { step, check } => "step "@ + quoted(step)
            + " command check "@ + quoted(check) + " has empty command"@,
        WorkflowFault::UnreachableStep(s) => "step "@ + quoted(s) + " is unreachable from start"@,
        WorkflowFault::UnknownCurrentStep(s) => "current step "@ + quoted(s)
            + " not in workflow"@,
        WorkflowFault::UnknownTargetStep(s) => "target step "@ + quoted(s) + " not in workflow"@,
        WorkflowFault::InvalidStartTransition { start, got } =>
            "first workflow step must be start step "@ + quoted(start) + ", got "@ + quoted(got),
        WorkflowFault::InvalidTransition { from, to, allowed } => "invalid transition: "@
            + quoted(from) + " -> "@ + quoted(to) + ". Allowed next from "@ + quoted(from) + ": "@
            + debug_list(allowed),
        WorkflowFault::RequiredChecksPending { step, missing } => "leaving step "@ + quoted(step)
            + " requires completed checks: "@ + debug_list(missing),
        WorkflowFault::GateReasonRequired { step, to } => "step "@ + quoted(step)
            + " is gated; transition to "@ + quoted(to) + " requires a reason"@,
        WorkflowFault::MaxVisitsExceeded { step, visits, max } => "step "@ + quoted(step)
            + " would exceed max_visits ("@ + decimal(visits as nat) + "/"@ + decimal(max as nat)
            + ")"@,
        WorkflowFault::UnknownCheck { step, check } => "check "@ + quoted(check)
            + " not found in step "@ + quoted(step),
        WorkflowFault::EvidenceRequired { step, check } => "manual check "@ + quoted(check)
            + " in step "@ + quoted(step) + " requires evidence"@,
        WorkflowFault::WaiverDetailsRequired { step, check } => "waived check "@ + quoted(check)
            + " in step "@ + quoted(step) + " requires waiver_reason and waiver_risk"@,
        WorkflowFault::NotStarted => "workflow has not started"@,
        WorkflowFault::NotTerminal(s) => "current step "@ + quoted(s) + " is not terminal"@,
    }
}

/// Appends `pre`, then `s` between single quotes.
fn push_quoted(out: &mut String, pre: &str, s: &str)
    ensures
        final(out)@ == old(out)@ + pre@ + quoted(s@),
{
    out.append(pre);
    out.append("'");
    out.append(s);
    out.append("'");
    proof {
        assert(final(out)@ =~= old(out)@ + pre@ + quoted(s@));
    }
}

impl WorkflowError {
    /// The message that describes the error.
    pub fn message(&self) -> (r: String)
        ensures
            r@ == fault_text(self@),
    {
        let mut out = String::new();
        match self {
            WorkflowError::MissingId => out.append("workflow id is required"),
            WorkflowError::MissingName => out.append("workflow name is required"),
            WorkflowError::MissingStart => out.append("workflow start step is required",
            ),
            WorkflowError::UnknownStart(s) => {
                push_quoted(&mut out, "workflow start step ", s.as_str());
                out.append(" does not exist");
            },
            WorkflowError::EmptySteps => out.append("workflow must define at least one step",
            ),
            WorkflowError::NoTerminalStep => out.append("workflow must define at least one terminal step",
            ),
            WorkflowError::UnknownNext { step, next } => {
                push_quoted(&mut out, "step ", step.as_str());
                push_quoted(&mut out, " points to unknown next step ", next.as_str());
            },
            WorkflowError::NonTerminalWithoutNext(s) => {
                push_quoted(&mut out, "step ", s.as_str());
                out.append(" is non-terminal but has no next steps");
            },
            WorkflowError::ZeroMaxVisits(s) => {
                push_quoted(&mut out, "step ", s.as_str());
                out.append(" has max_visits=0");
            },
            WorkflowError::DuplicateStep(s) => {
                push_quoted(&mut out, "duplicate step id ", s.as_str());
            },
            WorkflowError::DuplicateCheck { step, check } => {
                push_quoted(&mut out, "step ", step.as_str());
                push_quoted(&mut out, " has duplicate check id ", check.as_str());
            },
            WorkflowError::EmptyCheckId { step } => {
                push_quoted(&mut out, "step ", step.as_str());
                out.append(" has check with empty id");
            },
            WorkflowError::EmptyCommandCheck { step, check } => {
                push_quoted(&mut out, "step ", step.as_str());
                push_quoted(&mut out, " command check ", check.as_str());
                out.append(" has empty command");
            },
            WorkflowError::UnreachableStep(s) => {
                push_quoted(&mut out, "step ", s.as_str());
                out.append(" is unreachable from start");
            },
            WorkflowError::UnknownCurrentStep(s) => {
                push_quoted(&mut out, "current step ", s.as_str());
                out.append(" not in workflow");
            },
            WorkflowError::UnknownTargetStep(s) => {
                push_quoted(&mut out, "target step ", s.as_str());
                out.append(" not in workflow");
            },
            WorkflowError::InvalidStartTransition { start, got } => {
                push_quoted(&mut out, "first workflow step must be start step ", start.as_str());
                push_quoted(&mut out, ", got ", got.as_str());
            },
            WorkflowError::InvalidTransition { from, to, allowed } => {
                push_quoted(&mut out, "invalid transition: ", from.as_str());
                push_quoted(&mut out, " -> ", to.as_str());
                push_quoted(&mut out, ". Allowed next from ", from.as_str());
                out.append(": ");
                let listed = debug_strings(allowed);
                out.append(listed.as_str());
            },
            WorkflowError::RequiredChecksPending { step, missing } => {
                push_quoted(&mut out, "leaving step ", step.as_str());
                out.append(" requires completed checks: ");
                let listed = debug_strings(missing);
                out.append(listed.as_str());
            },
            WorkflowError::GateReasonRequired { step, to } => {
                push_quoted(&mut out, "step ", step.as_str());
                push_quoted(&mut out, " is gated; transition to ", to.as_str());
                out.append(" requires a reason");
            },
            WorkflowError::MaxVisitsExceeded { step, visits, max } => {
                push_quoted(&mut out, "step ", step.as_str());
                out.append(" would exceed max_visits (");
                push_decimal(&mut out, *visits as u64);
                out.append("/");
                push_decimal(&mut out, *max as u64);
                out.append(")");
            },
            WorkflowError::UnknownCheck { step, check } => {
                push_quoted(&mut out, "check ", check.as_str());
                push_quoted(&mut out, " not found in step ", step.as_str());
            },
            WorkflowError::EvidenceRequired { step, check } => {
                push_quoted(&mut out, "manual check ", check.as_str());
                push_quoted(&mut out, " in step ", step.as_str());
                out.append(" requires evidence");
            },
            WorkflowError::WaiverDetailsRequired { step, check } => {
                push_quoted(&mut out, "waived check ", check.as_str());
                push_quoted(&mut out, " in step ", step.as_str());
                out.append(" requires waiver_reason and waiver_risk");
            },
            WorkflowError::NotStarted => out.append("workflow has not started"),
            WorkflowError::NotTerminal(s) => {
                push_quoted(&mut out, "current step ", s.as_str());
                out.append(" is not terminal");
            },
        }
        proof {
            assert(out@ =~= fault_text(self@));
        }
        out
    }
}

// ---------------------------------------------------------------------------
// Laws

proof fn lemma_unreachable_from_none(w: Workflow, i: int)
    requires
        0 <= i,
        unreachable_from(w, i) is None,
    ensures
        forall|k: int| i <= k < w.steps@.len() ==> reachable(w, (#[trigger] w.steps@[k]).0@),
    decreases w.steps@.len() - i,
{
    if i < w.steps@.len() {
        lemma_unreachable_from_none(w, i + 1);
    }
}

proof fn lemma_unknown_next_none(steps: Seq<(String, WorkflowStep)>, nexts: Seq<String>, j: int)
    requires
        0 <= j,
        unknown_next_from(steps, nexts, j) is None,
    ensures
        forall|k: int| j <= k < nexts.len() ==> has_step(steps, (#[trigger] nexts[k])@),
    decreases nexts.len() - j,
{
    if j < nexts.len() {
        lemma_unknown_next_none(steps, nexts, j + 1);
    }
}

proof fn lemma_steps_fault_none(steps: Seq<(String, WorkflowStep)>, i: int)
    requires
        0 <= i,
        steps_fault_from(steps, i) is None,
    ensures
        forall|k: int| i <= k < steps.len() ==> (#[trigger] step_fault(steps, k)) is None,
    decreases steps.len() - i,
{
    if i < steps.len() {
        lemma_steps_fault_none(steps, i + 1);
    }
}

/// A definition that passes validation has a start step and a terminal step,
/// names each step once, every step's moves lead to steps of the definition,
/// no step is limited to zero visits, and every step can be reached from the
/// start.
pub proof fn lemma_valid_workflow(w: Workflow)
    requires
        validation_fault(w) is None,
    ensures
        has_step(w.steps@, w.start@),
        has_terminal(w.steps@),
        forall|i: int| 0 <= i < w.steps@.len() ==> reachable(w, (#[trigger] w.steps@[i]).0@),
        forall|i: int, j: int|
            0 <= i < j < w.steps@.len() ==> (#[trigger] w.steps@[i]).0@ != (#[trigger] w.steps@[j]).0@,
        forall|i: int|
            0 <= i < w.steps@.len() ==> (#[trigger] w.steps@[i]).1.terminal
                || w.steps@[i].1.next@.len() > 0,
        forall|i: int| 0 <= i < w.steps@.len() ==> (#[trigger] w.steps@[i]).1.max_visits != Some(0u32),
        forall|i: int, m: int|
            0 <= i < w.steps@.len() && 0 <= m < w.steps@[i].1.next@.len() ==> has_step(
                w.steps@,
                (#[trigger] w.steps@[i].1.next@[m])@,
            ),
{
    lemma_steps_fault_none(w.steps@, 0);
    lemma_unreachable_from_none(w, 0);
    assert forall|i: int, m: int|
        0 <= i < w.steps@.len() && 0 <= m < w.steps@[i].1.next@.len() implies has_step(
        w.steps@,
        (#[trigger] w.steps@[i].1.next@[m])@,
    ) by {
        assert(step_fault(w.steps@, i) is None);
        lemma_unknown_next_none(w.steps@, w.steps@[i].1.next@, 0);
    }
    assert forall|i: int, j: int|
        0 <= i < j < w.steps@.len() implies (#[trigger] w.steps@[i]).0@ != (#[trigger] w.steps@[j]).0@ by {
        assert(step_fault(w.steps@, j) is None);
        lemma_step_index(w.steps@, w.steps@[j].0@);
    }
    assert forall|i: int| 0 <= i < w.steps@.len() implies (#[trigger] w.steps@[i]).1.terminal
        || w.steps@[i].1.next@.len() > 0 by {
        assert(step_fault(w.steps@, i) is None);
    }
    assert forall|i: int| 0 <= i < w.steps@.len() implies (#[trigger] w.steps@[i]).1.max_visits
        != Some(0u32) by {
        assert(step_fault(w.steps@, i) is None);
    }
}

/// The steps a run has entered, in order.
pub open spec fn entered_steps(log: Seq<TransitionRecord>) -> Seq<Seq<char>> {
    log.map_values(|r: TransitionRecord| r.to@)
}

/// Whether the transition log of a run is a walk through its definition:
/// it begins at the start, each record leaves the step the previous one
/// entered along an allowed move, and it ends at the current step.
pub open spec fn log_is_walk(s: WorkflowState) -> bool {
    let log = s.transition_log@;
    &&& (log.len() == 0 <==> s.current_step is None)
    &&& log.len() > 0 ==> {
        &&& log[0].from is None
        &&& log.last().to@ == s.current_step->0@
        &&& is_path(s.definition, entered_steps(log))
        &&& forall|i: int|
            0 < i < log.len() ==> (#[trigger] log[i]).from is Some && log[i].from->0@ == log[i
                - 1].to@
    }
}

/// Whether no step has been entered more often than its limit allows.
pub open spec fn visits_within_limits(s: WorkflowState) -> bool {
    forall|i: int|
        0 <= i < s.definition.steps@.len() && is_first(s.definition.steps@, i) && (
        #[trigger] s.definition.steps@[i]).1.max_visits is Some ==> visits_of(
            s.visits@,
            s.definition.steps@[i].0@,
        ) <= s.definition.steps@[i].1.max_visits->0
}

/// A new run keeps both invariants.
pub proof fn lemma_new_run_invariants(s: WorkflowState)
    requires
        s.current_step is None,
        s.visits@.len() == 0,
        s.transition_log@.len() == 0,
    ensures
        log_is_walk(s),
        visits_within_limits(s),
{
}

/// Every successful move keeps the log a walk through the definition from
/// the start, and keeps every step within its visit limit.
pub proof fn lemma_enter_keeps_invariants(
    old: WorkflowState,
    new: WorkflowState,
    step: Seq<char>,
    reason: Seq<char>,
    ts: u64,
)
    requires
        log_is_walk(old),
        visits_within_limits(old),
        enter_fault(old, step, reason) is None,
        entered(old, new, trim(step), trim(reason), ts),
    ensures
        log_is_walk(new),
        visits_within_limits(new),
{
    let id = trim(step);
    let w = old.definition;
    let ol = old.transition_log@;
    let nl = new.transition_log@;
    lemma_step_index(w.steps@, id);
    let t = step_index(w.steps@, id)->0;
    assert(nl.take(ol.len() as int) == ol);
    assert forall|i: int| 0 <= i < ol.len() implies #[trigger] nl[i] == ol[i] by {
        assert(nl.take(ol.len() as int)[i] == nl[i]);
    }
    assert(entered_steps(nl) =~= entered_steps(ol).push(id));
    match old.current_step {
        None => {
            assert(ol.len() == 0);
            assert(entered_steps(nl) =~= seq![id]);
            assert(is_path(w, entered_steps(nl)));
        },
        Some(cur) => {
            let p = entered_steps(ol);
            assert(successor(w, cur@, id));
            assert(p.last() == cur@);
            let q = entered_steps(nl);
            assert forall|i: int| 0 <= i < q.len() - 1 implies #[trigger] successor(
                w,
                q[i],
                q[i + 1],
            ) by {
                if i < p.len() - 1 {
                    assert(successor(w, p[i], p[i + 1]));
                    assert(q[i] == p[i] && q[i + 1] == p[i + 1]);
                } else {
                    assert(q[i] == cur@);
                }
            }
            assert(is_path(w, q));
            assert forall|i: int| 0 < i < nl.len() implies (#[trigger] nl[i]).from is Some
                && nl[i].from->0@ == nl[i - 1].to@ by {
                if i < ol.len() {
                    assert(nl[i] == ol[i] && nl[i - 1] == ol[i - 1]);
                }
            }
        },
    }
    assert forall|i: int|
        0 <= i < w.steps@.len() && is_first(w.steps@, i) && (
        #[trigger] w.steps@[i]).1.max_visits is Some implies visits_of(
        new.visits@,
        w.steps@[i].0@,
    ) <= w.steps@[i].1.max_visits->0 by {
        assert(visits_of(new.visits@, w.steps@[i].0@) == if w.steps@[i].0@ == id {
            visits_of(old.visits@, w.steps@[i].0@) + 1
        } else {
            visits_of(old.visits@, w.steps@[i].0@)
        });
        if w.steps@[i].0@ == id {
            assert(i == t);
        }
    }
}

/// The step a run stands at can always be reached from the start.
pub proof fn lemma_current_step_reachable(s: WorkflowState)
    requires
        log_is_walk(s),
        s.current_step is Some,
    ensures
        reachable(s.definition, s.current_step->0@),
{
    let p = entered_steps(s.transition_log@);
    assert(is_path(s.definition, p));
    assert(p.last() == s.current_step->0@);
}

/// Recording a check result leaves where the run stands, its log and its
/// visit counts as they were.
pub proof fn lemma_records_keep_invariants(old: WorkflowState, new: WorkflowState)
    requires
        log_is_walk(old),
        visits_within_limits(old),
        new.definition == old.definition,
        new.current_step == old.current_step,
        new.visits == old.visits,
        new.transition_log == old.transition_log,
    ensures
        log_is_walk(new),
        visits_within_limits(new),
{
}

proof fn lemma_missing_has(rs: Seq<CheckResult>, step: Seq<char>, checks: Seq<WorkflowCheck>, n: int, j: int)
    requires
        0 <= j < n <= checks.len(),
        pending(rs, step, checks[j]),
    ensures
        missing_upto(rs, step, checks, n).contains(checks[j].id@),
    decreases n,
{
    let prev = missing_upto(rs, step, checks, n - 1);
    if j == n - 1 {
        assert(prev.push(checks[j].id@).last() == checks[j].id@);
        assert(prev.push(checks[j].id@)[prev.len() as int] == checks[j].id@);
    } else {
        lemma_missing_has(rs, step, checks, n - 1, j);
        let k = choose|k: int| 0 <= k < prev.len() && prev[k] == checks[j].id@;
        if pending(rs, step, checks[n - 1]) {
            assert(prev.push(checks[n - 1].id@)[k] == checks[j].id@);
        }
    }
}

proof fn lemma_missing_none(rs: Seq<CheckResult>, step: Seq<char>, checks: Seq<WorkflowCheck>, n: int)
    requires
        0 <= n <= checks.len(),
        forall|i: int| 0 <= i < n ==> !pending(rs, step, #[trigger] checks[i]),
    ensures
        missing_upto(rs, step, checks, n).len() == 0,
    decreases n,
{
    if n > 0 {
        lemma_missing_none(rs, step, checks, n - 1);
        assert(!pending(rs, step, checks[n - 1]));
    }
}

/// A required check with no recorded result, or whose recorded result
/// failed, holds its step: the step's checks are reported pending with that
/// check among them, so leaving the step is refused, and so is completing
/// the run there.
pub proof fn lemma_failed_check_blocks(s: WorkflowState, step: Seq<char>, j: int, to: Seq<char>, reason: Seq<char>)
    requires
        step_index(s.definition.steps@, step) matches Some(f) && 0 <= j
            < s.definition.steps@[f].1.checks@.len() && s.definition.steps@[f].1.checks@[j].required && (
        result_of(s.check_results@, step, s.definition.steps@[f].1.checks@[j].id@) matches Some(r)
            ==> r.status == CheckStatus::Failed),
    ensures
        ({
            let f = step_index(s.definition.steps@, step)->0;
            let id = s.definition.steps@[f].1.checks@[j].id@;
            &&& checks_fault(s, step) matches Some(WorkflowFault::RequiredChecksPending { step: st, missing })
                && st == step && missing.contains(id)
            &&& (s.current_step matches Some(cur) && cur@ == step) ==> enter_fault(s, to, reason) is Some
            &&& (s.current_step matches Some(cur) && cur@ == step && s.definition.steps@[f].1.terminal)
                ==> completion_fault(s) == checks_fault(s, step)
        }),
{
    let f = step_index(s.definition.steps@, step)->0;
    let cs = s.definition.steps@[f].1.checks@;
    assert(pending(s.check_results@, step, cs[j]));
    lemma_missing_has(s.check_results@, step, cs, cs.len() as int, j);
}

/// Required checks whose recorded results passed or were waived hold
/// nothing: as far as its checks go, the step may be left.
pub proof fn lemma_satisfied_checks_free(s: WorkflowState, step: Seq<char>)
    requires
        step_index(s.definition.steps@, step) matches Some(f) && forall|j: int|
            0 <= j < s.definition.steps@[f].1.checks@.len()
                && (#[trigger] s.definition.steps@[f].1.checks@[j]).required ==> (result_of(
                s.check_results@,
                step,
                s.definition.steps@[f].1.checks@[j].id@,
            ) matches Some(r) && (r.status == CheckStatus::Passed || r.status == CheckStatus::Waived)),
    ensures
        checks_fault(s, step) is None,
{
    let f = step_index(s.definition.steps@, step)->0;
    let cs = s.definition.steps@[f].1.checks@;
    assert forall|i: int| 0 <= i < cs.len() implies !pending(s.check_results@, step, #[trigger] cs[i]) by {
        if cs[i].required {
            assert(s.definition.steps@[f].1.checks@[i] == cs[i]);
        }
    }
    lemma_missing_none(s.check_results@, step, cs, cs.len() as int);
}

} // verus!
