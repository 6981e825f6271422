use ogent::types::{MessageOrigin, Role};
use ogent::workers::{build_worker_messages, compose_worker_system_prompt, resolve_worker_prompt};

/// A system prompt with the sections the worker prompt is expected to carry.
const SYSTEM_PROMPT: &str = "# Core Contract\n\nDo the work asked.\n\n## Progress Reporting\n\nReport with a `# Status` heading.\n";

#[test]
fn resolve_worker_prompt_includes_context() {
    let (sys, task) =
        resolve_worker_prompt(SYSTEM_PROMPT, "edit src/lib.rs", "## Write Scope\n- src/lib.rs");
    assert!(sys.contains("Core Contract"));
    assert!(sys.contains("## Context"));
    assert!(sys.contains("src/lib.rs"));
    assert!(sys.contains("## Progress Reporting"));
    assert!(sys.contains("# Status"));
    assert_eq!(task, "edit src/lib.rs");
}

#[test]
fn resolve_worker_prompt_uses_system_prompt() {
    let (sys, task) = resolve_worker_prompt(SYSTEM_PROMPT, "fix the bug", "");
    assert!(sys.contains("Core Contract"));
    assert_eq!(task, "fix the bug");
}

#[test]
fn build_worker_messages_keeps_human_task_last() {
    let messages = build_worker_messages("system", "do the task", "session-1");
    let last = messages.last().unwrap();
    assert_eq!(last.origin, MessageOrigin::Human);
    assert_eq!(last.content, "[session: session-1]\n\ndo the task");
    assert_eq!(messages[0].role, Role::System);
}

#[test]
fn worker_prompt_sections_are_trimmed_and_joined() {
    assert_eq!(compose_worker_system_prompt("  base \n", Some(" extra ")), "base\n\nextra");
    assert_eq!(compose_worker_system_prompt("base", Some("   ")), "base");
    assert_eq!(compose_worker_system_prompt("base", None), "base");
    let (sys, task) = resolve_worker_prompt("base", "  t  ", " ctx ");
    assert_eq!(sys, "base\n\n## Context\n\nctx");
    assert_eq!(task, "t");
}
