//! The skill tools' decisions: where a skill's root is, whether it lies in a
//! skills directory, which assets may be read from it, and the listing.
use vstd::prelude::*;
use crate::text::{
    chars_of, push_decimal, decimal, starts_with, starts_with_str, slice_range,
    string_of, trim_end, skip_ws_backward,
};
use crate::tools::ToolFailure;
use crate::workspace::{joined, join_path, normalize, normalized, within, path_within, is_abs};

verus! {

broadcast use vstd::string::group_string_axioms;

/// Where a skill root given to `load_skill_asset` lies: under the home
/// directory for `~/`, as given when absolute, else under the workspace
/// root; normalized.
pub open spec fn skill_root_of(root: Seq<char>, home: Option<Seq<char>>, workspace_root: Seq<char>) -> Result<
    Seq<char>,
    Seq<char>,
> {
    if starts_with(root, "~/"@) {
        match home {
            None => Err("HOME env var not set"@),
            Some(h) => Ok(normalized(joined(h, root.skip(2)))),
        }
    } else if is_abs(root) {
        Ok(normalized(root))
    } else {
        Ok(normalized(joined(workspace_root, root)))
    }
}

/// The text of an optional string slice.
pub open spec fn opt_view(o: Option<&str>) -> Option<Seq<char>> {
    match o {
        Some(h) => Some(h@),
        None => None,
    }
}

/// Where a skill root lies.
pub fn skill_root_path(root: &str, home: Option<&str>, workspace_root: &str) -> (r: Result<String, ToolFailure>)
    ensures
        match r {
            Ok(p) => skill_root_of(root@, opt_view(home), workspace_root@) == Ok::<
                Seq<char>,
                Seq<char>,
            >(p@),
            Err(f) => skill_root_of(root@, opt_view(home), workspace_root@) == Err::<
                Seq<char>,
                Seq<char>,
            >(f.message@),
        },
{
    let v = chars_of(root);
    if starts_with_str(v.as_slice(), "~/") {
        proof {
            reveal_strlit("~/");
        }
        match home {
            None => Err(ToolFailure { message: "HOME env var not set".to_string() }),
            Some(h) => {
                let rest = string_of(slice_range(v.as_slice(), 2, v.len()).as_slice());
                proof {
                    assert(v@.subrange(2, v@.len() as int) =~= root@.skip(2));
                }
                Ok(normalize(join_path(h, rest.as_str()).as_str()))
            },
        }
    } else if v.len() > 0 && v[0] == '/' {
        Ok(normalize(root))
    } else {
        Ok(normalize(join_path(workspace_root, root).as_str()))
    }
}

/// Whether a (resolved) skill root lies strictly inside one of the
/// (resolved) skills directories.
pub open spec fn whitelisted(root: Seq<char>, dirs: Seq<Seq<char>>) -> bool {
    exists|i: int| 0 <= i < dirs.len() && within(root, #[trigger] dirs[i]) && !within(dirs[i], root)
}

/// Whether a resolved skill root lies strictly inside one of the resolved
/// skills directories.
pub fn root_whitelisted(root_real: &str, dirs_real: &Vec<String>) -> (r: bool)
    ensures
        r == whitelisted(root_real@, dirs_real@.map_values(|d: String| d@)),
{
    let ghost ds = dirs_real@.map_values(|d: String| d@);
    let mut i: usize = 0;
    while i < dirs_real.len()
        invariant
            i <= dirs_real@.len(),
            ds == dirs_real@.map_values(|d: String| d@),
            forall|k: int| 0 <= k < i ==> !(within(root_real@, #[trigger] ds[k]) && !within(ds[k], root_real@)),
        decreases dirs_real.len() - i,
    {
        let d = dirs_real[i].as_str();
        if path_within(root_real, d) && !path_within(d, root_real) {
            proof {
                assert(ds[i as int] == d@);
            }
            return true;
        }
        proof {
            assert(ds[i as int] == d@);
        }
        i += 1;
    }
    false
}

/// The message when a root is not in a skills directory.
pub fn not_whitelisted_message(root: &str) -> (r: String)
    ensures
        r@ == "root path "@ + root@ + " is not inside a whitelisted skills directory"@,
{
    let mut m = String::new();
    m.append("root path ");
    m.append(root);
    m.append(" is not inside a whitelisted skills directory");
    m
}

/// The message for an asset outside its skill's root.
pub open spec fn outside_root_message() -> Seq<char> {
    "asset path is outside the skill root directory"@
}

/// The asset path asked for, joined to the resolved root and normalized;
/// refused when it leaves the root.
pub fn asset_candidate(root_real: &str, path: &str) -> (r: Result<String, ToolFailure>)
    ensures
        ({
            let p = normalized(joined(root_real@, path@));
            match r {
                Ok(s) => s@ == p && within(p, root_real@),
                Err(f) => !within(p, root_real@) && f.message@ == outside_root_message(),
            }
        }),
{
    let p = normalize(join_path(root_real, path).as_str());
    if !path_within(p.as_str(), root_real) {
        return Err(ToolFailure { message: "asset path is outside the skill root directory".to_string() });
    }
    Ok(p)
}

/// Refuses a resolved asset path outside the resolved root.
pub fn check_asset_inside(asset_real: &str, root_real: &str) -> (r: Result<(), ToolFailure>)
    ensures
        r is Ok <==> within(asset_real@, root_real@),
        r matches Err(f) ==> f.message@ == outside_root_message(),
{
    if !path_within(asset_real, root_real) {
        return Err(ToolFailure { message: "asset path is outside the skill root directory".to_string() });
    }
    Ok(())
}

/// Refuses an asset that is not a file or is over a mebibyte.
pub fn check_asset_meta(is_file: bool, len: u64) -> (r: Result<(), ToolFailure>)
    ensures
        match r {
            Ok(_) => is_file && len <= 1048576,
            Err(f) => if !is_file {
                f.message@ == "skill asset path is not a file"@
            } else {
                len > 1048576 && f.message@ == "skill asset exceeds size limit ("@ + decimal(len as nat)
                    + " > "@ + decimal(1048576) + " bytes)"@
            },
        },
{
    if !is_file {
        return Err(ToolFailure { message: "skill asset path is not a file".to_string() });
    }
    if len > 1048576 {
        let mut m = String::new();
        m.append("skill asset exceeds size limit (");
        push_decimal(&mut m, len);
        m.append(" > ");
        push_decimal(&mut m, 1048576);
        m.append(" bytes)");
        return Err(ToolFailure { message: m });
    }
    Ok(())
}

/// A listed skill: its name, its root (or `unknown`), its description.
#[derive(Clone, Debug)]
pub struct ListedSkill {
    pub name: String,
    pub root: String,
    pub description: String,
}

/// The lines of one listed skill.
pub open spec fn skill_entry(s: ListedSkill) -> Seq<char> {
    "## "@ + s.name@ + "\n- **Root**: `"@ + s.root@ + "`\n- **Description**: "@ + s.description@
        + "\n\n"@
}

/// The entries of the first `k` skills.
pub open spec fn skill_entries(v: Seq<ListedSkill>, k: int) -> Seq<char>
    decreases k,
{
    if k <= 0 {
        Seq::empty()
    } else {
        skill_entries(v, k - 1) + skill_entry(v[k - 1])
    }
}

/// The listing of skills.
pub open spec fn skills_listing_text(v: Seq<ListedSkill>) -> Seq<char> {
    if v.len() == 0 {
        "# Available Skills\nNo skills found."@
    } else {
        trim_end(
            "# Available Skills\nUse `load_skill(name)` to load a skill.\n\n"@ + skill_entries(
                v,
                v.len() as int,
            ),
        )
    }
}

/// The listing of skills.
pub fn skills_listing(skills: &Vec<ListedSkill>) -> (r: String)
    ensures
        r@ == skills_listing_text(skills@),
{
    if skills.len() == 0 {
        return "# Available Skills\nNo skills found.".to_string();
    }
    let mut out = String::new();
    out.append("# Available Skills\nUse `load_skill(name)` to load a skill.\n\n");
    let ghost start = out@;
    let mut i: usize = 0;
    while i < skills.len()
        invariant
            i <= skills@.len(),
            out@ == start + skill_entries(skills@, i as int),
        decreases skills.len() - i,
    {
        let s = &skills[i];
        let ghost before = out@;
        out.append("## ");
        out.append(s.name.as_str());
        out.append("\n- **Root**: `");
        out.append(s.root.as_str());
        out.append("`\n- **Description**: ");
        out.append(s.description.as_str());
        out.append("\n\n");
        proof {
            assert(out@ =~= before + skill_entry(skills@[i as int]));
        }
        i += 1;
    }
    let c = chars_of(out.as_str());
    let e = skip_ws_backward(c.as_slice(), 0, c.len());
    proof {
        assert(c@.subrange(0, c@.len() as int) =~= c@);
        assert(c@.subrange(0, e as int) =~= trim_end(c@));
    }
    string_of(slice_range(c.as_slice(), 0, e).as_slice())
}

/// A loaded skill as the model sees it.
pub fn format_loaded_skill(name: &str, root: &str, body: &str) -> (r: String)
    ensures
        r@ == "<skill name=\""@ + name@ + "\" root=\""@ + root@ + "\">\n"@ + body@ + "\n</skill>"@,
{
    let mut s = String::new();
    s.append("<skill name=\"");
    s.append(name);
    s.append("\" root=\"");
    s.append(root);
    s.append("\">\n");
    s.append(body);
    s.append("\n</skill>");
    s
}

} // verus!
