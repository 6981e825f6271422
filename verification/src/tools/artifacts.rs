//! Workflows and context shards kept as markdown files: how they are
//! listed, found by name, and handed to the model, within a size limit.
use vstd::prelude::*;
use crate::text::{
    chars_of, push_decimal, decimal, utf8_len, utf8_len_of, keep_first,
    contains_string, lemma_keep_first_keys, str_eq, trim_end, skip_ws_backward, slice_range,
    string_of,
};
use crate::tools::ToolFailure;
use crate::util::{xml_escape, xml_escaped};

verus! {

broadcast use vstd::string::group_string_axioms;

/// The most bytes an artifact handed to the model may have.
pub const MAX_LOADED_ARTIFACT_BYTES: usize = 24576;

/// The kinds of artifacts.
#[derive(Clone, Copy, Debug, PartialEq, Eq, Structural)]
pub enum ArtifactKind {
    Workflow,
    ContextShard,
}

impl ArtifactKind {
    /// The kind's name.
    pub open spec fn singular_text(self) -> Seq<char> {
        match self {
            ArtifactKind::Workflow => "workflow"@,
            ArtifactKind::ContextShard => "context shard"@,
        }
    }

    /// The heading of the kind's list.
    pub open spec fn plural_title_text(self) -> Seq<char> {
        match self {
            ArtifactKind::Workflow => "Available Workflows"@,
            ArtifactKind::ContextShard => "Available Context Shards"@,
        }
    }

    /// The tag around a loaded artifact.
    pub open spec fn xml_tag_text(self) -> Seq<char> {
        match self {
            ArtifactKind::Workflow => "workflow"@,
            ArtifactKind::ContextShard => "context_shard"@,
        }
    }

    /// The call that loads one.
    pub open spec fn load_function_text(self) -> Seq<char> {
        match self {
            ArtifactKind::Workflow => "load_workflow(name)"@,
            ArtifactKind::ContextShard => "load_context_shard(name)"@,
        }
    }

    /// The directory of the kind, in the workspace and in the home directory.
    pub open spec fn dir_text(self) -> Seq<char> {
        match self {
            ArtifactKind::Workflow => ".ogent/workflows"@,
            ArtifactKind::ContextShard => ".ogent/context"@,
        }
    }

    /// The kind's name.
    pub fn singular(self) -> (r: &'static str)
        ensures
            r@ == self.singular_text(),
    {
        match self {
            ArtifactKind::Workflow => "workflow",
            ArtifactKind::ContextShard => "context shard",
        }
    }

    /// The heading of the kind's list.
    pub fn plural_title(self) -> (r: &'static str)
        ensures
            r@ == self.plural_title_text(),
    {
        match self {
            ArtifactKind::Workflow => "Available Workflows",
            ArtifactKind::ContextShard => "Available Context Shards",
        }
    }

    /// The tag around a loaded artifact.
    pub fn xml_tag(self) -> (r: &'static str)
        ensures
            r@ == self.xml_tag_text(),
    {
        match self {
            ArtifactKind::Workflow => "workflow",
            ArtifactKind::ContextShard => "context_shard",
        }
    }

    /// The call that loads one.
    pub fn load_function(self) -> (r: &'static str)
        ensures
            r@ == self.load_function_text(),
    {
        match self {
            ArtifactKind::Workflow => "load_workflow(name)",
            ArtifactKind::ContextShard => "load_context_shard(name)",
        }
    }

    /// The kind's directory in the workspace.
    pub fn repo_dir(self) -> (r: &'static str)
        ensures
            r@ == self.dir_text(),
    {
        match self {
            ArtifactKind::Workflow => ".ogent/workflows",
            ArtifactKind::ContextShard => ".ogent/context",
        }
    }

    /// The kind's directory under the home directory, as a path the
    /// workspace resolves.
    pub fn home_dir(self) -> (r: String)
        ensures
            r@ == "~/"@ + self.dir_text(),
    {
        let mut s = String::new();
        s.append("~/");
        s.append(self.repo_dir());
        s
    }
}

/// The message for an artifact over the size limit.
pub open spec fn artifact_too_large(kind: Seq<char>, name: Seq<char>, len: nat) -> Seq<char> {
    kind + " "@ + name + " exceeds max loaded artifact size ("@ + decimal(len) + " > "@ + decimal(
        MAX_LOADED_ARTIFACT_BYTES as nat,
    ) + " bytes); split it into smaller artifacts"@
}

/// Refuses an artifact whose text is over the size limit.
pub fn ensure_prompt_artifact_fits(kind: &str, name: &str, content: &str) -> (r: Result<(), ToolFailure>)
    ensures
        match r {
            Ok(_) => utf8_len(content@) <= MAX_LOADED_ARTIFACT_BYTES,
            Err(f) => utf8_len(content@) > MAX_LOADED_ARTIFACT_BYTES && f.message@
                == artifact_too_large(kind@, name@, utf8_len(content@)),
        },
{
    let n = utf8_len_of(content);
    if n > MAX_LOADED_ARTIFACT_BYTES {
        let mut m = String::new();
        m.append(kind);
        m.append(" ");
        m.append(name);
        m.append(" exceeds max loaded artifact size (");
        push_decimal(&mut m, n as u64);
        m.append(" > ");
        push_decimal(&mut m, MAX_LOADED_ARTIFACT_BYTES as u64);
        m.append(" bytes); split it into smaller artifacts");
        return Err(ToolFailure { message: m });
    }
    Ok(())
}

/// The message for a listing over the size limit.
pub open spec fn output_too_large(label: Seq<char>, len: nat) -> Seq<char> {
    label + " exceeds max prompt output size ("@ + decimal(len) + " > "@ + decimal(
        MAX_LOADED_ARTIFACT_BYTES as nat,
    ) + " bytes); narrow the request or split the artifacts"@
}

/// Refuses a listing whose text is over the size limit.
pub fn ensure_prompt_output_fits(label: &str, content: &str) -> (r: Result<(), ToolFailure>)
    ensures
        match r {
            Ok(_) => utf8_len(content@) <= MAX_LOADED_ARTIFACT_BYTES,
            Err(f) => utf8_len(content@) > MAX_LOADED_ARTIFACT_BYTES && f.message@
                == output_too_large(label@, utf8_len(content@)),
        },
{
    let n = utf8_len_of(content);
    if n > MAX_LOADED_ARTIFACT_BYTES {
        let mut m = String::new();
        m.append(label);
        m.append(" exceeds max prompt output size (");
        push_decimal(&mut m, n as u64);
        m.append(" > ");
        push_decimal(&mut m, MAX_LOADED_ARTIFACT_BYTES as u64);
        m.append(" bytes); narrow the request or split the artifacts");
        return Err(ToolFailure { message: m });
    }
    Ok(())
}

/// An artifact file: its name, description, path and size.
#[derive(Clone, Debug)]
pub struct ArtifactInfo {
    pub name: String,
    pub description: String,
    pub path: String,
    pub bytes: u64,
    pub oversized: bool,
}

/// A markdown file found in an artifact directory: its stem, path, size,
/// and (when it is read) the name and description of its frontmatter.
#[derive(Clone, Debug)]
pub struct FoundArtifact {
    pub stem: String,
    pub path: String,
    pub bytes: u64,
    pub frontmatter: Option<(String, String)>,
}

/// The description of an artifact over the size limit.
pub open spec fn oversized_description() -> Seq<char> {
    "exceeds "@ + decimal(MAX_LOADED_ARTIFACT_BYTES as nat) + " byte loaded artifact limit"@
}

/// The listed form of a found artifact: an oversized one is named by its
/// stem; another by its frontmatter name, or its stem when that is empty.
pub open spec fn artifact_of(f: FoundArtifact) -> (Seq<char>, Seq<char>, Seq<char>, u64, bool) {
    let oversized = f.bytes > MAX_LOADED_ARTIFACT_BYTES;
    if oversized {
        (f.stem@, oversized_description(), f.path@, f.bytes, true)
    } else {
        match f.frontmatter {
            Some((n, d)) => (if n@.len() == 0 { f.stem@ } else { n@ }, d@, f.path@, f.bytes, false),
            None => (f.stem@, Seq::empty(), f.path@, f.bytes, false),
        }
    }
}

/// The view of an artifact.
pub open spec fn info_view(a: ArtifactInfo) -> (Seq<char>, Seq<char>, Seq<char>, u64, bool) {
    (a.name@, a.description@, a.path@, a.bytes, a.oversized)
}

/// The artifacts as listed: found in root order, each name once.
pub open spec fn listed_artifacts(found: Seq<FoundArtifact>) -> Seq<(Seq<char>, Seq<char>, Seq<char>, u64, bool)> {
    keep_first(
        found.map_values(|f: FoundArtifact| artifact_of(f)),
        |p: (Seq<char>, Seq<char>, Seq<char>, u64, bool)| p.0,
    )
}

/// The listed form of a found artifact.
fn artifact_info(f: &FoundArtifact) -> (r: ArtifactInfo)
    ensures
        info_view(r) == artifact_of(*f),
{
    if f.bytes > MAX_LOADED_ARTIFACT_BYTES as u64 {
        let mut d = String::new();
        d.append("exceeds ");
        push_decimal(&mut d, MAX_LOADED_ARTIFACT_BYTES as u64);
        d.append(" byte loaded artifact limit");
        return ArtifactInfo {
            name: f.stem.clone(),
            description: d,
            path: f.path.clone(),
            bytes: f.bytes,
            oversized: true,
        };
    }
    match &f.frontmatter {
        Some((n, d)) => ArtifactInfo {
            name: if n.as_str().is_empty() { f.stem.clone() } else { n.clone() },
            description: d.clone(),
            path: f.path.clone(),
            bytes: f.bytes,
            oversized: false,
        },
        None => ArtifactInfo {
            name: f.stem.clone(),
            description: String::new(),
            path: f.path.clone(),
            bytes: f.bytes,
            oversized: false,
        },
    }
}

/// Lists the found artifacts, each name once.
#[verifier::spinoff_prover]
pub fn list_found_artifacts(found: &Vec<FoundArtifact>) -> (r: Vec<ArtifactInfo>)
    ensures
        r@.map_values(|a: ArtifactInfo| info_view(a)) == listed_artifacts(found@),
{
    let ghost all = found@.map_values(|f: FoundArtifact| artifact_of(f));
    let ghost key = |p: (Seq<char>, Seq<char>, Seq<char>, u64, bool)| p.0;
    let mut names: Vec<String> = Vec::new();
    let mut r: Vec<ArtifactInfo> = Vec::new();
    let mut i: usize = 0;
    proof {
        assert(all.take(0) =~= Seq::<(Seq<char>, Seq<char>, Seq<char>, u64, bool)>::empty());
    }
    while i < found.len()
        invariant
            i <= found@.len(),
            all == found@.map_values(|f: FoundArtifact| artifact_of(f)),
            key == (|p: (Seq<char>, Seq<char>, Seq<char>, u64, bool)| p.0),
            r@.map_values(|a: ArtifactInfo| info_view(a)) == keep_first(all.take(i as int), key),
            names@.len() == r@.len(),
            forall|k: int| 0 <= k < r@.len() ==> #[trigger] names@[k]@ == r@[k].name@,
        decreases found.len() - i,
    {
        let info = artifact_info(&found[i]);
        let ghost kept = keep_first(all.take(i as int), key);
        let ghost nm = info.name@;
        proof {
            assert(all[i as int] == artifact_of(found@[i as int]));
            assert(all.take(i + 1).drop_last() =~= all.take(i as int));
            assert(all.take(i + 1).last() == all[i as int]);
            lemma_keep_first_keys(all.take(i as int), key, nm);
        }
        let dup = contains_string(&names, info.name.as_str());
        proof {
            let rv = r@.map_values(|a: ArtifactInfo| info_view(a));
            if dup {
                let k = choose|k: int| 0 <= k < names@.len() && #[trigger] names@[k]@ == nm;
                assert(key(rv[k]) == nm);
                assert(kept[k] == rv[k]);
                let j = choose|j: int| 0 <= j < all.take(i as int).len() && key(#[trigger] all.take(i as int)[j]) == nm;
                assert(all.take(i + 1)[j] == all.take(i as int)[j]);
            } else {
                assert forall|j: int| 0 <= j < i implies key(#[trigger] all.take(i + 1)[j]) != nm by {
                    assert(all.take(i + 1)[j] == all.take(i as int)[j]);
                    if key(all.take(i as int)[j]) == nm {
                        let k = choose|k: int| 0 <= k < kept.len() && key(#[trigger] kept[k]) == nm;
                        assert(rv[k] == kept[k]);
                        assert(names@[k]@ == nm);
                    }
                }
            }
        }
        let ghost before = r@;
        if !dup {
            names.push(info.name.clone());
            r.push(info);
            proof {
                assert(r@.map_values(|a: ArtifactInfo| info_view(a)) =~= before.map_values(
                    |a: ArtifactInfo| info_view(a),
                ).push(all[i as int]));
            }
        }
        i += 1;
    }
    proof {
        assert(all.take(found@.len() as int) =~= all);
    }
    r
}

/// The lines that list one artifact.
pub open spec fn entry_text(a: (Seq<char>, Seq<char>, Seq<char>, u64, bool)) -> Seq<char> {
    "## "@ + a.0 + "\n- **Path**: `"@ + a.2 + "`\n- **Description**: "@ + a.1 + "\n- **Bytes**: "@
        + decimal(a.3 as nat) + "\n"@ + (if a.4 {
        "- **Loadable**: no, exceeds "@ + decimal(MAX_LOADED_ARTIFACT_BYTES as nat) + " byte limit\n"@
    } else {
        Seq::empty()
    }) + "\n"@
}

/// The entries of the first `k` artifacts.
pub open spec fn entries_text(v: Seq<(Seq<char>, Seq<char>, Seq<char>, u64, bool)>, k: int) -> Seq<char>
    decreases k,
{
    if k <= 0 {
        Seq::empty()
    } else {
        entries_text(v, k - 1) + entry_text(v[k - 1])
    }
}

/// The listing of a kind's artifacts, before its trailing whitespace is cut.
pub open spec fn listing_text(kind: ArtifactKind, v: Seq<(Seq<char>, Seq<char>, Seq<char>, u64, bool)>) -> Seq<char> {
    let head = "# "@ + kind.plural_title_text() + "\n"@;
    if v.len() == 0 {
        head
    } else {
        head + "Use `"@ + kind.load_function_text() + "` to load one.\n\n"@ + entries_text(
            v,
            v.len() as int,
        )
    }
}

/// The listing of a kind's artifacts, trimmed at the end; refused when it is
/// over the size limit.
pub fn list_artifacts_text(kind: ArtifactKind, artifacts: &Vec<ArtifactInfo>) -> (r: Result<String, ToolFailure>)
    ensures
        ({
            let text = trim_end(listing_text(kind, artifacts@.map_values(|a: ArtifactInfo| info_view(a))));
            match r {
                Ok(s) => s@ == text && utf8_len(text) <= MAX_LOADED_ARTIFACT_BYTES,
                Err(f) => utf8_len(text) > MAX_LOADED_ARTIFACT_BYTES && f.message@ == output_too_large(
                    kind.plural_title_text(),
                    utf8_len(text),
                ),
            }
        }),
{
    let ghost v = artifacts@.map_values(|a: ArtifactInfo| info_view(a));
    let mut out = String::new();
    out.append("# ");
    out.append(kind.plural_title());
    out.append("\n");
    if artifacts.len() > 0 {
        out.append("Use `");
        out.append(kind.load_function());
        out.append("` to load one.\n\n");
        let ghost start = out@;
        let mut i: usize = 0;
        while i < artifacts.len()
            invariant
                i <= artifacts@.len(),
                v == artifacts@.map_values(|a: ArtifactInfo| info_view(a)),
                out@ == start + entries_text(v, i as int),
            decreases artifacts.len() - i,
        {
            let a = &artifacts[i];
            let ghost before = out@;
            out.append("## ");
            out.append(a.name.as_str());
            out.append("\n- **Path**: `");
            out.append(a.path.as_str());
            out.append("`\n- **Description**: ");
            out.append(a.description.as_str());
            out.append("\n- **Bytes**: ");
            push_decimal(&mut out, a.bytes);
            out.append("\n");
            if a.oversized {
                out.append("- **Loadable**: no, exceeds ");
                push_decimal(&mut out, MAX_LOADED_ARTIFACT_BYTES as u64);
                out.append(" byte limit\n");
            }
            out.append("\n");
            proof {
                assert(v[i as int] == info_view(artifacts@[i as int]));
                assert(out@ =~= before + entry_text(v[i as int]));
            }
            i += 1;
        }
    }
    let c = chars_of(out.as_str());
    let e = skip_ws_backward(c.as_slice(), 0, c.len());
    proof {
        assert(c@.subrange(0, c@.len() as int) =~= c@);
        assert(c@.subrange(0, e as int) =~= trim_end(c@));
    }
    let trimmed = string_of(slice_range(c.as_slice(), 0, e).as_slice());
    match ensure_prompt_output_fits(kind.plural_title(), trimmed.as_str()) {
        Err(f) => Err(f),
        Ok(()) => Ok(trimmed),
    }
}

/// The artifact of a kind with the given name, for loading.
pub fn find_artifact(kind: ArtifactKind, artifacts: &Vec<ArtifactInfo>, name: &str) -> (r: Result<
    usize,
    ToolFailure,
>)
    ensures
        match r {
            Ok(i) => i < artifacts@.len() && artifacts@[i as int].name@ == name@
                && !artifacts@[i as int].oversized && forall|j: int|
                0 <= j < i ==> #[trigger] artifacts@[j].name@ != name@,
            Err(f) => (forall|j: int| 0 <= j < artifacts@.len() ==> #[trigger] artifacts@[j].name@ != name@)
                && f.message@ == kind.singular_text() + " "@ + name@ + " not found"@ || exists|i: int|
                0 <= i < artifacts@.len() && #[trigger] artifacts@[i].name@ == name@ && artifacts@[i].oversized
                    && (forall|j: int| 0 <= j < i ==> #[trigger] artifacts@[j].name@ != name@)
                    && f.message@ == artifact_too_large(
                    kind.singular_text(),
                    artifacts@[i].name@,
                    artifacts@[i].bytes as nat,
                ),
        },
{
    let mut i: usize = 0;
    while i < artifacts.len()
        invariant
            i <= artifacts@.len(),
            forall|j: int| 0 <= j < i ==> #[trigger] artifacts@[j].name@ != name@,
        decreases artifacts.len() - i,
    {
        if str_eq(artifacts[i].name.as_str(), name) {
            let a = &artifacts[i];
            if a.oversized {
                let mut m = String::new();
                m.append(kind.singular());
                m.append(" ");
                m.append(a.name.as_str());
                m.append(" exceeds max loaded artifact size (");
                push_decimal(&mut m, a.bytes);
                m.append(" > ");
                push_decimal(&mut m, MAX_LOADED_ARTIFACT_BYTES as u64);
                m.append(" bytes); split it into smaller artifacts");
                return Err(ToolFailure { message: m });
            }
            return Ok(i);
        }
        i += 1;
    }
    let mut m = String::new();
    m.append(kind.singular());
    m.append(" ");
    m.append(name);
    m.append(" not found");
    Err(ToolFailure { message: m })
}

/// Refuses to read an artifact path that is not a file or is too large.
pub fn check_loadable(is_file: bool, len: u64) -> (r: Result<(), ToolFailure>)
    ensures
        match r {
            Ok(_) => is_file && len <= MAX_LOADED_ARTIFACT_BYTES,
            Err(f) => if !is_file {
                f.message@ == "artifact path is not a file"@
            } else {
                len > MAX_LOADED_ARTIFACT_BYTES && f.message@ == "artifact exceeds max loaded artifact size ("@
                    + decimal(len as nat) + " > "@ + decimal(MAX_LOADED_ARTIFACT_BYTES as nat)
                    + " bytes)"@
            },
        },
{
    if !is_file {
        return Err(ToolFailure { message: "artifact path is not a file".to_string() });
    }
    if len > MAX_LOADED_ARTIFACT_BYTES as u64 {
        let mut m = String::new();
        m.append("artifact exceeds max loaded artifact size (");
        push_decimal(&mut m, len);
        m.append(" > ");
        push_decimal(&mut m, MAX_LOADED_ARTIFACT_BYTES as u64);
        m.append(" bytes)");
        return Err(ToolFailure { message: m });
    }
    Ok(())
}

/// A loaded artifact as the model sees it: its text inside the kind's tag,
/// with the escaped name and path.
pub open spec fn loaded_text(kind: ArtifactKind, name: Seq<char>, path: Seq<char>, content: Seq<char>) -> Seq<char> {
    "<"@ + kind.xml_tag_text() + " name=\""@ + xml_escaped(name) + "\" path=\""@ + xml_escaped(path)
        + "\">\n"@ + content + "\n</"@ + kind.xml_tag_text() + ">"@
}

/// Wraps a loaded artifact for the model; refused when the whole is over the
/// size limit.
pub fn format_loaded_artifact(kind: ArtifactKind, name: &str, path: &str, content: &str) -> (r: Result<
    String,
    ToolFailure,
>)
    ensures
        ({
            let text = loaded_text(kind, name@, path@, content@);
            match r {
                Ok(s) => s@ == text && utf8_len(text) <= MAX_LOADED_ARTIFACT_BYTES,
                Err(f) => utf8_len(text) > MAX_LOADED_ARTIFACT_BYTES && f.message@ == artifact_too_large(
                    kind.singular_text(),
                    name@,
                    utf8_len(text),
                ),
            }
        }),
{
    let tag = kind.xml_tag();
    let mut s = String::new();
    s.append("<");
    s.append(tag);
    s.append(" name=\"");
    let en = xml_escape(name);
    s.append(en.as_str());
    s.append("\" path=\"");
    let ep = xml_escape(path);
    s.append(ep.as_str());
    s.append("\">\n");
    s.append(content);
    s.append("\n</");
    s.append(tag);
    s.append(">");
    match ensure_prompt_artifact_fits(kind.singular(), name, s.as_str()) {
        Err(f) => Err(f),
        Ok(()) => Ok(s),
    }
}

/// The name and the description an artifact's frontmatter gives (empty
/// when missing).
pub fn parse_artifact_frontmatter(content: &str) -> (r: (String, String))
    ensures
        r.0@ == crate::skills::frontmatter_field(content@, "name"@),
        r.1@ == crate::skills::frontmatter_field(content@, "description"@),
{
    crate::skills::parse_skill_frontmatter(content)
}

} // verus!
