use ogent::tools::skills::{
    asset_candidate, check_asset_inside, check_asset_meta, format_loaded_skill, not_whitelisted_message,
    root_whitelisted, skill_root_path, skills_listing, ListedSkill,
};

#[test]
fn skill_roots_resolve_like_tool_paths() {
    assert_eq!(skill_root_path("~/.ogent/skills/a", Some("/home/u"), "/w").unwrap(), "/home/u/.ogent/skills/a");
    assert_eq!(skill_root_path("~/x", None, "/w").unwrap_err().message, "HOME env var not set");
    assert_eq!(skill_root_path("/abs/./s", None, "/w").unwrap(), "/abs/s");
    assert_eq!(skill_root_path(".ogent/skills/b", None, "/w").unwrap(), "/w/.ogent/skills/b");
}

#[test]
fn roots_must_lie_strictly_inside_a_skills_directory() {
    let dirs = vec!["/w/.ogent/skills".to_string(), "/home/u/.ogent/skills".to_string()];
    assert!(root_whitelisted("/w/.ogent/skills/a", &dirs));
    assert!(!root_whitelisted("/w/.ogent/skills", &dirs));
    assert!(!root_whitelisted("/w/src", &dirs));
    assert_eq!(
        not_whitelisted_message("/w/src"),
        "root path /w/src is not inside a whitelisted skills directory"
    );
}

#[test]
fn assets_stay_inside_their_root() {
    assert_eq!(asset_candidate("/s/a", "refs/x.md").unwrap(), "/s/a/refs/x.md");
    assert_eq!(
        asset_candidate("/s/a", "../b/x.md").unwrap_err().message,
        "asset path is outside the skill root directory"
    );
    assert!(check_asset_inside("/s/a/x", "/s/a").is_ok());
    assert!(check_asset_inside("/s/ab/x", "/s/a").is_err());
    assert_eq!(check_asset_meta(false, 1).unwrap_err().message, "skill asset path is not a file");
    assert_eq!(
        check_asset_meta(true, 2_000_000).unwrap_err().message,
        "skill asset exceeds size limit (2000000 > 1048576 bytes)"
    );
}

#[test]
fn skills_are_listed_and_loaded() {
    assert_eq!(skills_listing(&vec![]), "# Available Skills\nNo skills found.");
    let listed = vec![ListedSkill { name: "review".to_string(), root: "/s/review".to_string(), description: "Review code".to_string() }];
    assert_eq!(
        skills_listing(&listed),
        "# Available Skills\nUse `load_skill(name)` to load a skill.\n\n## review\n- **Root**: `/s/review`\n- **Description**: Review code"
    );
    assert_eq!(format_loaded_skill("r", "/s/r", "body"), "<skill name=\"r\" root=\"/s/r\">\nbody\n</skill>");
}
