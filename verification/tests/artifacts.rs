use ogent::tools::artifacts::{
    check_loadable, ensure_prompt_artifact_fits, find_artifact, format_loaded_artifact, list_artifacts_text,
    list_found_artifacts, ArtifactKind, FoundArtifact,
};

fn found(stem: &str, bytes: u64, fm: Option<(&str, &str)>) -> FoundArtifact {
    FoundArtifact {
        stem: stem.to_string(),
        path: format!("/r/.ogent/workflows/{stem}.md"),
        bytes,
        frontmatter: fm.map(|(n, d)| (n.to_string(), d.to_string())),
    }
}

#[test]
fn artifacts_are_listed_once_by_name() {
    let list = list_found_artifacts(&vec![
        found("release", 10, Some(("", "Ship it"))),
        found("big", 30000, Some(("huge", "x"))),
        found("other", 5, Some(("release", "dup"))),
    ]);
    assert_eq!(list.len(), 2);
    assert_eq!(list[0].name, "release");
    assert_eq!(list[0].description, "Ship it");
    assert_eq!(list[1].name, "big");
    assert!(list[1].oversized);
    assert_eq!(list[1].description, "exceeds 24576 byte loaded artifact limit");
    let text = list_artifacts_text(ArtifactKind::Workflow, &list).unwrap();
    assert_eq!(
        text,
        "# Available Workflows\nUse `load_workflow(name)` to load one.\n\n## release\n- **Path**: `/r/.ogent/workflows/release.md`\n- **Description**: Ship it\n- **Bytes**: 10\n\n## big\n- **Path**: `/r/.ogent/workflows/big.md`\n- **Description**: exceeds 24576 byte loaded artifact limit\n- **Bytes**: 30000\n- **Loadable**: no, exceeds 24576 byte limit"
    );
    assert_eq!(list_artifacts_text(ArtifactKind::ContextShard, &vec![]).unwrap(), "# Available Context Shards");
}

#[test]
fn artifacts_are_found_and_loaded() {
    let list = list_found_artifacts(&vec![found("release", 10, None), found("big", 30000, None)]);
    assert_eq!(find_artifact(ArtifactKind::Workflow, &list, "release").unwrap(), 0);
    assert_eq!(
        find_artifact(ArtifactKind::Workflow, &list, "nope").unwrap_err().message,
        "workflow nope not found"
    );
    assert!(find_artifact(ArtifactKind::Workflow, &list, "big")
        .unwrap_err()
        .message
        .starts_with("workflow big exceeds max loaded artifact size (30000 > 24576 bytes)"));
    assert_eq!(
        format_loaded_artifact(ArtifactKind::ContextShard, "a&b", "p\"q", "text").unwrap(),
        "<context_shard name=\"a&amp;b\" path=\"p&quot;q\">\ntext\n</context_shard>"
    );
    assert_eq!(check_loadable(false, 1).unwrap_err().message, "artifact path is not a file");
    assert!(check_loadable(true, 24576).is_ok());
    assert!(ensure_prompt_artifact_fits("workflow", "w", &"x".repeat(24577)).is_err());
    assert!(ensure_prompt_artifact_fits("workflow", "w", "small").is_ok());
}

#[test]
fn artifact_frontmatter_gives_name_and_description() {
    let (name, desc) = ogent::tools::artifacts::parse_artifact_frontmatter("---\nname: ship\ndescription: Ship it\n---\nsteps");
    assert_eq!((name.as_str(), desc.as_str()), ("ship", "Ship it"));
    let (name, desc) = ogent::tools::artifacts::parse_artifact_frontmatter("no frontmatter");
    assert_eq!((name.as_str(), desc.as_str()), ("", ""));
}
