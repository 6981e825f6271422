use ogent::skills::{
    list_found_skills, parse_frontmatter, parse_skill_frontmatter, skill_from, skill_not_found,
    strip_frontmatter, FoundSkill, SkillStore,
};

#[test]
fn test_parse_frontmatter_valid() {
    let content = "---\nname: test-skill\ndescription: A test skill\n---\nBody here";
    let (name, desc) = parse_skill_frontmatter(content);
    assert_eq!(name, "test-skill");
    assert_eq!(desc, "A test skill");
    assert_eq!(strip_frontmatter(content), "Body here");
}

#[test]
fn test_parse_frontmatter_empty() {
    let content = "Body here without frontmatter";
    let (name, desc) = parse_skill_frontmatter(content);
    assert_eq!(name, "");
    assert_eq!(desc, "");
    assert_eq!(strip_frontmatter(content), "Body here without frontmatter");
}

#[test]
fn frontmatter_is_what_lies_between_the_dashes() {
    assert_eq!(parse_frontmatter("---\na: b\n---\nrest"), Some("\na: b\n".to_string()));
    assert_eq!(parse_frontmatter("---\nunclosed"), None);
    assert_eq!(parse_frontmatter("no dashes"), None);
    let (name, desc) = parse_skill_frontmatter("---\nname: [unclosed\n---\nbody");
    assert_eq!((name.as_str(), desc.as_str()), ("", ""));
}

#[test]
fn skills_list_first_of_each_name() {
    let found = vec![
        FoundSkill { dir_name: "a".to_string(), name: "".to_string(), description: "first".to_string() },
        FoundSkill { dir_name: "b".to_string(), name: "a".to_string(), description: "second".to_string() },
        FoundSkill { dir_name: "c".to_string(), name: "cee".to_string(), description: "third".to_string() },
    ];
    let listed = list_found_skills(found);
    let names: Vec<_> = listed.iter().map(|s| (s.name.as_str(), s.description.as_str())).collect();
    assert_eq!(names, vec![("a", "first"), ("cee", "third")]);
}

#[test]
fn skills_are_built_from_their_files() {
    let s = skill_from("dir-name", "/r/.ogent/skills/dir-name".to_string(), "---\nname: x\n---\n  body \n", "x");
    assert_eq!(s.name, "x");
    assert_eq!(s.body, "body");
    let s = skill_from("dir-name", "/r".to_string(), "plain", "");
    assert_eq!(s.name, "dir-name");
    assert_eq!(skill_not_found("zzz"), "skill zzz not found in skill roots");
    let store = SkillStore::new("/work", Some("/home/u"), vec!["review".to_string()]);
    assert_eq!(store.skill_roots(), vec!["/work/.ogent/skills".to_string(), "/home/u/.ogent/skills".to_string()]);
    assert_eq!(store.startup_skills(), &vec!["review".to_string()]);
}
