use ogent::artifact_creator::{
    normalize_artifact_name, validate_skill, strip_optional_code_fence, parse_frontmatter,
    body_after_frontmatter, ensure_trailing_newline, require_objective, retry_prompt, skill_path,
    workflow_path, validate_workflow, workflow_candidate, ArtifactError,
};
use ogent::workflow::{Workflow, WorkflowStep};

#[test]
fn normalizes_artifact_names() {
    assert_eq!(normalize_artifact_name("My Skill.v1").unwrap(), "my-skill-v1");
    assert!(normalize_artifact_name("../").is_err());
}

#[test]
fn validates_skill_frontmatter_and_body() {
    let content = r#"---
name: repo-audit
description: Use when auditing a repository.
---

# Repo Audit

Review the repository.
"#;
    assert!(validate_skill("repo-audit", content).is_ok());
    assert!(validate_skill("other", content).is_err());
}

#[test]
fn normalize_collapses_separators_and_trailing_dashes() {
    assert_eq!(normalize_artifact_name("  Hello__World--  ").unwrap(), "hello-world");
    assert_eq!(normalize_artifact_name("-x").unwrap(), "x");
    let err = normalize_artifact_name("!!!").unwrap_err();
    assert_eq!(err.message(), "artifact name must contain at least one ASCII letter or digit");
}

#[test]
fn skill_check_reports_each_problem() {
    assert_eq!(
        validate_skill("a", "no frontmatter").unwrap_err().message(),
        "skill must start with YAML frontmatter"
    );
    assert_eq!(
        validate_skill("a", "---\nname: a\n").unwrap_err().message(),
        "skill frontmatter is not closed"
    );
    assert_eq!(
        validate_skill("a", "---\nname: b\ndescription: d\n---\nbody").unwrap_err().message(),
        "skill frontmatter name must be 'a', got 'b'"
    );
    assert_eq!(
        validate_skill("a", "---\nname: a\n---\nbody").unwrap_err().message(),
        "skill frontmatter description is required"
    );
    assert_eq!(
        validate_skill("a", "---\nname: a\ndescription: d\n---\n   ").unwrap_err().message(),
        "skill body is required"
    );
    assert!(matches!(
        validate_skill("a", "---\n: : [\n---\nbody").unwrap_err(),
        ArtifactError::InvalidFrontmatterYaml
    ));
    let ok = validate_skill("a", "```markdown\n---\nname: a\ndescription: d\n---\nbody\n```").unwrap();
    assert_eq!(ok, "---\nname: a\ndescription: d\n---\nbody\n");
}

#[test]
fn code_fences_are_removed_only_for_expected_languages() {
    assert_eq!(strip_optional_code_fence("```yaml\nid: x\n```", "yaml"), "id: x");
    assert_eq!(strip_optional_code_fence("```yml\nid: x\n```", "yaml"), "id: x");
    assert_eq!(strip_optional_code_fence("```\nid: x\n```", "yaml"), "id: x");
    assert_eq!(strip_optional_code_fence("```json\n{}\n```", "yaml"), "```json\n{}\n```");
    assert_eq!(strip_optional_code_fence("  plain  ", "yaml"), "plain");
}

#[test]
fn frontmatter_and_body_are_split() {
    assert_eq!(parse_frontmatter("---\nname: a\n---\nbody").unwrap(), "\nname: a\n");
    assert_eq!(body_after_frontmatter("---\nname: a\n---\n  body \n").unwrap(), "body");
    assert_eq!(ensure_trailing_newline("x"), "x\n");
    assert_eq!(ensure_trailing_newline("x\n"), "x\n");
    assert!(require_objective("  ").is_err());
    assert!(require_objective("do it").is_ok());
    assert_eq!(
        retry_prompt("make it", "bad"),
        "make it\n\nThe previous output failed validation:\nbad\n\nReturn a corrected artifact only."
    );
    assert_eq!(skill_path("x"), ".ogent/skills/x/SKILL.md");
    assert_eq!(workflow_path("x"), ".ogent/workflows/x.yaml");
}

fn step(next: &[&str], terminal: bool) -> WorkflowStep {
    WorkflowStep {
        title: String::new(),
        instructions: String::new(),
        next: next.iter().map(|s| s.to_string()).collect(),
        terminal,
        gate: false,
        max_visits: None,
        checks: vec![],
    }
}

/// The definition the YAML of `validates_workflow_yaml` describes.
fn tiny_flow() -> Workflow {
    Workflow {
        id: "tiny-flow".to_string(),
        name: "Tiny Flow".to_string(),
        version: 1,
        start: "start".to_string(),
        instructions: String::new(),
        steps: vec![
            ("start".to_string(), step(&["done"], false)),
            ("done".to_string(), step(&[], true)),
        ],
    }
}

#[test]
fn validates_workflow_yaml() {
    let content = r#"id: tiny-flow
name: Tiny Flow
version: 1
start: start
steps:
  start:
    next: [done]
  done:
    terminal: true
"#;
    let candidate = workflow_candidate(content);
    let accepted = validate_workflow("tiny-flow", &candidate, Some(tiny_flow())).unwrap();
    assert_eq!(accepted, content);
    assert!(validate_workflow("other", &candidate, Some(tiny_flow())).is_err());
    assert!(validate_workflow("tiny-flow", &candidate, None).is_err());
}
