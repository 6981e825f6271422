//! Skills: directories with a `SKILL.md` whose frontmatter names and
//! describes them, looked for in the workspace and in the home directory.
use vstd::prelude::*;
use crate::text::{
    chars_of, trim, trim_bounds, slice_range, string_of, starts_with, find, find_in, has_prefix,
    lemma_find_from_facts, keep_first, contains_string, str_eq, lemma_keep_first_keys,
};
use crate::workspace::{joined, join_path};
use crate::artifact_creator::{yaml_text_member, yaml_text_member_of, text_or_empty};

verus! {

broadcast use vstd::string::group_string_axioms;

/// A skill loaded for the agent: its name, its directory and its body.
#[derive(Clone, Debug)]
pub struct Skill {
    pub name: String,
    pub root: String,
    pub body: String,
}

/// A skill as it is listed: its name and description.
#[derive(Clone, Debug)]
pub struct SkillInfo {
    pub name: String,
    pub description: String,
}

/// Where skills are looked for, and the skills loaded at startup.
#[derive(Clone, Debug)]
pub struct SkillStore {
    repo_roots: Vec<String>,
    home_roots: Vec<String>,
    startup_skills: Vec<String>,
}

/// The directory of skills under a root.
pub open spec fn skills_dir(root: Seq<char>) -> Seq<char> {
    joined(root, ".ogent/skills"@)
}

impl SkillStore {
    /// The roots in the order they are searched.
    pub closed spec fn roots(&self) -> Seq<Seq<char>> {
        self.repo_roots@.map_values(|r: String| r@) + self.home_roots@.map_values(|r: String| r@)
    }

    /// The skills loaded at startup.
    pub closed spec fn startup(&self) -> Seq<Seq<char>> {
        self.startup_skills@.map_values(|r: String| r@)
    }

    /// A store searching the workspace's skills, then the home directory's
    /// (when there is one).
    pub fn new(workspace_root: &str, home: Option<&str>, startup_skills: Vec<String>) -> (s: Self)
        ensures
            s.roots() == seq![skills_dir(workspace_root@)] + match home {
                Some(h) => seq![skills_dir(h@)],
                None => Seq::<Seq<char>>::empty(),
            },
            s.startup() == startup_skills@.map_values(|r: String| r@),
    {
        let mut repo_roots: Vec<String> = Vec::new();
        repo_roots.push(join_path(workspace_root, ".ogent/skills"));
        let mut home_roots: Vec<String> = Vec::new();
        match home {
            Some(h) => home_roots.push(join_path(h, ".ogent/skills")),
            None => {},
        }
        let s = SkillStore { repo_roots, home_roots, startup_skills };
        proof {
            assert(s.roots() =~= seq![skills_dir(workspace_root@)] + match home {
                Some(h) => seq![skills_dir(h@)],
                None => Seq::<Seq<char>>::empty(),
            });
        }
        s
    }

    /// The roots in the order they are searched.
    pub fn skill_roots(&self) -> (r: Vec<String>)
        ensures
            r@.len() == self.roots().len(),
            forall|i: int| 0 <= i < r@.len() ==> #[trigger] r@[i]@ == self.roots()[i],
    {
        let mut r: Vec<String> = Vec::new();
        let mut i: usize = 0;
        while i < self.repo_roots.len()
            invariant
                i <= self.repo_roots@.len(),
                r@.len() == i,
                forall|k: int| 0 <= k < i ==> #[trigger] r@[k]@ == self.repo_roots@[k]@,
            decreases self.repo_roots.len() - i,
        {
            r.push(self.repo_roots[i].clone());
            i += 1;
        }
        let n = self.repo_roots.len();
        let mut j: usize = 0;
        while j < self.home_roots.len()
            invariant
                n == self.repo_roots@.len(),
                j <= self.home_roots@.len(),
                r@.len() == n + j,
                forall|k: int| 0 <= k < n ==> #[trigger] r@[k]@ == self.repo_roots@[k]@,
                forall|k: int| n <= k < n + j ==> #[trigger] r@[k]@ == self.home_roots@[k - n]@,
            decreases self.home_roots.len() - j,
        {
            r.push(self.home_roots[j].clone());
            j += 1;
        }
        r
    }

    /// The skills loaded at startup.
    pub fn startup_skills(&self) -> (r: &Vec<String>)
        ensures
            r@.map_values(|x: String| x@) == self.startup(),
    {
        &self.startup_skills
    }
}

/// The three dashes that open and close frontmatter.
pub open spec fn dashes() -> Seq<char> {
    seq!['-', '-', '-']
}

/// The frontmatter of a text: what lies between a leading `---` and the next
/// `---`, when there is both.
pub open spec fn frontmatter_in(content: Seq<char>) -> Option<Seq<char>> {
    if !starts_with(content, dashes()) {
        None
    } else {
        match find(content.skip(3), dashes()) {
            None => None,
            Some(end) => Some(content.skip(3).take(end)),
        }
    }
}

/// The frontmatter of a text.
pub fn parse_frontmatter(content: &str) -> (r: Option<String>)
    ensures
        match r {
            Some(f) => frontmatter_in(content@) == Some(f@),
            None => frontmatter_in(content@) is None,
        },
{
    let v = chars_of(content);
    let d = vec!['-', '-', '-'];
    if !has_prefix(v.as_slice(), d.as_slice()) {
        return None;
    }
    let rest = slice_range(v.as_slice(), 3, v.len());
    proof {
        assert(rest@ =~= v@.skip(3));
    }
    match find_in(rest.as_slice(), d.as_slice()) {
        None => None,
        Some(end) => {
            proof {
                lemma_find_from_facts(rest@, dashes(), 0);
            }
            Some(string_of(slice_range(rest.as_slice(), 0, end).as_slice()))
        },
    }
}

/// A string member of a skill's frontmatter, read as YAML: empty when the
/// frontmatter is not YAML or the member is missing or not a string.
pub open spec fn frontmatter_field(content: Seq<char>, key: Seq<char>) -> Seq<char> {
    let fm = match frontmatter_in(content) {
        Some(f) => f,
        None => Seq::empty(),
    };
    match yaml_text_member(fm, key) {
        Some(m) => text_or_empty(m),
        None => Seq::empty(),
    }
}

/// The name and the description a skill's frontmatter gives.
pub fn parse_skill_frontmatter(content: &str) -> (r: (String, String))
    ensures
        r.0@ == frontmatter_field(content@, "name"@),
        r.1@ == frontmatter_field(content@, "description"@),
{
    let fm = match parse_frontmatter(content) {
        Some(f) => f,
        None => String::new(),
    };
    proof {
        assert(fm@ == match frontmatter_in(content@) {
            Some(f) => f,
            None => Seq::<char>::empty(),
        });
    }
    let name = match yaml_text_member_of(fm.as_str(), "name") {
        Some(Some(n)) => n,
        _ => String::new(),
    };
    let description = match yaml_text_member_of(fm.as_str(), "description") {
        Some(Some(d)) => d,
        _ => String::new(),
    };
    (name, description)
}

/// A skill's body: the text after its frontmatter, trimmed (the whole text
/// trimmed when it has none).
pub open spec fn body_of(content: Seq<char>) -> Seq<char> {
    match frontmatter_in(content) {
        None => trim(content),
        Some(fm) => trim(content.skip((3 + fm.len() + 3) as int)),
    }
}

/// A skill's body.
pub fn strip_frontmatter(content: &str) -> (r: String)
    ensures
        r@ == body_of(content@),
{
    let v = chars_of(content);
    let n = v.len();
    proof {
        assert(v@.subrange(0, n as int) =~= v@);
    }
    match parse_frontmatter(content) {
        None => {
            let (a, b) = trim_bounds(v.as_slice(), 0, n);
            string_of(slice_range(v.as_slice(), a, b).as_slice())
        },
        Some(fm) => {
            let fl = chars_of(fm.as_str()).len();
            proof {
                lemma_find_from_facts(content@.skip(3), dashes(), 0);
            }
            let start = 3 + fl + 3;
            let (a, b) = trim_bounds(v.as_slice(), start, n);
            proof {
                assert(v@.subrange(start as int, n as int) =~= content@.skip(start as int));
            }
            string_of(slice_range(v.as_slice(), a, b).as_slice())
        },
    }
}

/// The name a skill is listed under: its frontmatter name, or else its
/// directory's name.
pub open spec fn listed_name(frontmatter_name: Seq<char>, dir_name: Seq<char>) -> Seq<char> {
    if frontmatter_name.len() == 0 {
        dir_name
    } else {
        frontmatter_name
    }
}

/// A skill found on disk: its directory's name and what its frontmatter
/// gave (name and description, empty when missing).
#[derive(Clone, Debug)]
pub struct FoundSkill {
    pub dir_name: String,
    pub name: String,
    pub description: String,
}

/// The view of a listed skill.
pub open spec fn info_of(f: FoundSkill) -> (Seq<char>, Seq<char>) {
    (listed_name(f.name@, f.dir_name@), f.description@)
}

/// The skills as listed: found in root order, each name once (the first
/// found wins).
pub open spec fn listed_skills(found: Seq<FoundSkill>) -> Seq<(Seq<char>, Seq<char>)> {
    keep_first(found.map_values(|f: FoundSkill| info_of(f)), |p: (Seq<char>, Seq<char>)| p.0)
}

/// Lists the found skills, each name once.
#[verifier::spinoff_prover]
pub fn list_found_skills(found: Vec<FoundSkill>) -> (r: Vec<SkillInfo>)
    ensures
        r@.map_values(|s: SkillInfo| (s.name@, s.description@)) == listed_skills(found@),
{
    let ghost all = found@.map_values(|f: FoundSkill| info_of(f));
    let ghost key = |p: (Seq<char>, Seq<char>)| p.0;
    let mut names: Vec<String> = Vec::new();
    let mut r: Vec<SkillInfo> = Vec::new();
    let mut i: usize = 0;
    proof {
        assert(all.take(0) =~= Seq::<(Seq<char>, Seq<char>)>::empty());
    }
    while i < found.len()
        invariant
            i <= found@.len(),
            all == found@.map_values(|f: FoundSkill| info_of(f)),
            key == (|p: (Seq<char>, Seq<char>)| p.0),
            r@.map_values(|s: SkillInfo| (s.name@, s.description@)) == keep_first(all.take(i as int), key),
            names@.len() == r@.len(),
            forall|k: int| 0 <= k < r@.len() ==> #[trigger] names@[k]@ == r@[k].name@,
        decreases found.len() - i,
    {
        let f = &found[i];
        let name = if f.name.as_str().is_empty() {
            f.dir_name.clone()
        } else {
            f.name.clone()
        };
        let ghost kept = keep_first(all.take(i as int), key);
        proof {
            assert(all[i as int] == info_of(found@[i as int]));
            assert(all.take(i + 1).drop_last() =~= all.take(i as int));
            assert(all.take(i + 1).last() == all[i as int]);
            lemma_keep_first_keys(all.take(i as int), key, name@);
        }
        let dup = contains_string(&names, name.as_str());
        proof {
            let rv = r@.map_values(|s: SkillInfo| (s.name@, s.description@));
            if dup {
                let k = choose|k: int| 0 <= k < names@.len() && #[trigger] names@[k]@ == name@;
                assert(key(rv[k]) == name@);
                assert(kept[k] == rv[k]);
                let j = choose|j: int| 0 <= j < all.take(i as int).len() && key(#[trigger] all.take(i as int)[j]) == name@;
                assert(all.take(i + 1)[j] == all.take(i as int)[j]);
            } else {
                assert forall|j: int| 0 <= j < i implies key(#[trigger] all.take(i + 1)[j]) != name@ by {
                    assert(all.take(i + 1)[j] == all.take(i as int)[j]);
                    if key(all.take(i as int)[j]) == name@ {
                        let k = choose|k: int| 0 <= k < kept.len() && key(#[trigger] kept[k]) == name@;
                        assert(rv[k] == kept[k]);
                        assert(names@[k]@ == name@);
                    }
                }
            }
        }
        let ghost before = r@;
        if !dup {
            names.push(name.clone());
            r.push(SkillInfo { name, description: f.description.clone() });
            proof {
                assert(r@.map_values(|s: SkillInfo| (s.name@, s.description@)) =~= before.map_values(
                    |s: SkillInfo| (s.name@, s.description@),
                ).push(all[i as int]));
            }
        }
        i += 1;
    }
    proof {
        assert(all.take(found@.len() as int) =~= all);
    }
    r
}

/// The skill loaded from the first root that has it: the name from its
/// frontmatter (or the one asked for) and its body.
pub fn skill_from(skill_name: &str, root: String, content: &str, frontmatter_name: &str) -> (r: Skill)
    ensures
        r.name@ == listed_name(frontmatter_name@, skill_name@),
        r.root == root,
        r.body@ == body_of(content@),
{
    let name = if frontmatter_name.is_empty() {
        skill_name.to_string()
    } else {
        frontmatter_name.to_string()
    };
    Skill { name, root, body: strip_frontmatter(content) }
}

/// The message when no root has the skill.
pub fn skill_not_found(skill_name: &str) -> (r: String)
    ensures
        r@ == "skill "@ + skill_name@ + " not found in skill roots"@,
{
    let mut s = String::new();
    s.append("skill ");
    s.append(skill_name);
    s.append(" not found in skill roots");
    s
}

} // verus!
