use ogent::prompts::{
    build_initial_messages, build_subagent_messages, role_prompt_file, role_prompt_paths, PromptTexts,
};
use ogent::types::{MessageOrigin, Role};

/// Stand-ins for the prompt files, each opening with its own heading.
fn texts() -> PromptTexts {
    PromptTexts {
        system: "  # System\n\nYou are a coding agent.\n".to_string(),
        toolset_core: "# Lua Toolset Core\n\nexec, eval\n".to_string(),
        colgrep: "Default search policy: use colgrep.\n".to_string(),
        role_generic: "You are a developer acting as a subagent.\n".to_string(),
    }
}

#[test]
fn initial_messages_use_core_toolset_not_full_reference() {
    let messages = build_initial_messages(&texts(), "do the task");
    let contents: Vec<_> = messages.iter().map(|message| message.content.as_str()).collect();
    assert!(contents.iter().any(|content| content.contains("# Lua Toolset Core")));
    assert!(!contents.iter().any(|content| content.contains("# Lua Toolset Git")));
    assert!(!contents.iter().any(|content| content.contains("# Lua Toolset Write")));
    assert!(!contents.iter().any(|content| content.contains("# Lua Toolset Subagent")));
    assert!(!contents.iter().any(|content| content.contains("# Lua Toolset Guide")));
}

#[test]
fn subagent_messages_include_role_then_core_toolset() {
    let messages = build_subagent_messages(&texts(), None, "do the task".to_string());
    assert!(messages[1].content.contains("You are a developer acting as"));
    assert!(messages[2].content.contains("# Lua Toolset Core"));
    assert!(messages[3].content.contains("Default search policy"));
}

#[test]
fn initial_messages_are_trimmed_in_order() {
    let messages = build_initial_messages(&texts(), "  fix it \n");
    assert_eq!(messages.len(), 4);
    assert_eq!(messages[0].role, Role::System);
    assert_eq!(messages[0].content, "# System\n\nYou are a coding agent.");
    assert_eq!(messages[3].content, "fix it");
    assert_eq!(messages[3].origin, MessageOrigin::Human);
    assert_eq!(messages[1].origin, MessageOrigin::Internal);
}

#[test]
fn role_prompt_files_are_named_by_role() {
    assert_eq!(role_prompt_file("test writer"), "PROMPT_ROLE_TEST_WRITER.md");
    let (a, b, c) = role_prompt_paths("qa");
    assert_eq!(a, ".ogent/PROMPT_ROLE_QA.md");
    assert_eq!(b, "PROMPT_ROLE_QA.md");
    assert_eq!(c, "~/.ogent/PROMPT_ROLE_QA.md");
    let messages = build_subagent_messages(&texts(), Some(" custom role ".to_string()), "t".to_string());
    assert_eq!(messages[1].content, "custom role");
    assert_eq!(messages[4].content, "t");
}
