//! Creating a skill or a workflow from a model's draft: names, prompts, and
//! the checks a draft must pass before it is written.
use vstd::prelude::*;
use crate::text::{
    chars_of, trim, trim_bounds, slice_range, string_of, string_push, push_chars,
    starts_with, ends_with, has_prefix, has_suffix, find, find_in, lemma_find_from_facts,
    lines_of, lines_chars, join_with, join_vecs, char_views, trim_start_char, lead_run_exec,
    trail_run, trim_end_char, str_eq, seq_eq,
};
use crate::types::{Message, MessageOrigin};
use crate::workflow::{Workflow, WorkflowError, WorkflowFault, validation_fault};

verus! {

broadcast use vstd::string::group_string_axioms;

/// How many drafts the model is asked for before the last error is reported.
pub const MAX_ATTEMPTS: usize = 2;

/// Why an artifact is not created.
#[derive(Clone, Debug)]
pub enum ArtifactError {
    /// The name has no ASCII letter or digit.
    EmptyName,
    /// The objective is blank.
    MissingObjective,
    /// The skill does not start with `---`.
    NoFrontmatter,
    /// The frontmatter has no closing `---`.
    UnclosedFrontmatter,
    /// The frontmatter is not YAML.
    InvalidFrontmatterYaml,
    /// The frontmatter names another skill.
    WrongSkillName { expected: String, got: String },
    /// The frontmatter has no description.
    MissingDescription,
    /// Nothing follows the frontmatter.
    MissingBody,
    /// The workflow is not YAML of a workflow.
    InvalidWorkflowYaml,
    /// The workflow's definition is refused.
    InvalidWorkflow(WorkflowError),
    /// The workflow has another id.
    WrongWorkflowId { expected: String, got: String },
}

/// The mathematical content of an `ArtifactError`.
pub enum ArtifactFault {
    EmptyName,
    MissingObjective,
    NoFrontmatter,
    UnclosedFrontmatter,
    InvalidFrontmatterYaml,
    WrongSkillName(Seq<char>, Seq<char>),
    MissingDescription,
    MissingBody,
    InvalidWorkflowYaml,
    InvalidWorkflow(WorkflowFault),
    WrongWorkflowId(Seq<char>, Seq<char>),
}

impl ArtifactError {
    pub open spec fn view(&self) -> ArtifactFault {
        match self {
            ArtifactError::EmptyName => ArtifactFault::EmptyName,
            ArtifactError::MissingObjective => ArtifactFault::MissingObjective,
            ArtifactError::NoFrontmatter => ArtifactFault::NoFrontmatter,
            ArtifactError::UnclosedFrontmatter => ArtifactFault::UnclosedFrontmatter,
            ArtifactError::InvalidFrontmatterYaml => ArtifactFault::InvalidFrontmatterYaml,
            ArtifactError::WrongSkillName { expected, got } => ArtifactFault::WrongSkillName(
                expected@,
                got@,
            ),
            ArtifactError::MissingDescription => ArtifactFault::MissingDescription,
            ArtifactError::MissingBody => ArtifactFault::MissingBody,
            ArtifactError::InvalidWorkflowYaml => ArtifactFault::InvalidWorkflowYaml,
            ArtifactError::InvalidWorkflow(e) => ArtifactFault::InvalidWorkflow(e@),
            ArtifactError::WrongWorkflowId { expected, got } => ArtifactFault::WrongWorkflowId(
                expected@,
                got@,
            ),
        }
    }

    /// The error as it is shown.
    pub fn message(&self) -> (r: String)
        ensures
            r@ == match self {
                ArtifactError::EmptyName =>
                    "artifact name must contain at least one ASCII letter or digit"@,
                ArtifactError::MissingObjective => "description/objective is required"@,
                ArtifactError::NoFrontmatter => "skill must start with YAML frontmatter"@,
                ArtifactError::UnclosedFrontmatter => "skill frontmatter is not closed"@,
                ArtifactError::InvalidFrontmatterYaml => "invalid skill frontmatter YAML"@,
                ArtifactError::WrongSkillName { expected, got } => "skill frontmatter name must be '"@
                    + expected@ + "', got '"@ + got@ + "'"@,
                ArtifactError::MissingDescription => "skill frontmatter description is required"@,
                ArtifactError::MissingBody => "skill body is required"@,
                ArtifactError::InvalidWorkflowYaml => "invalid workflow YAML"@,
                ArtifactError::InvalidWorkflow(_) => "invalid workflow definition"@,
                ArtifactError::WrongWorkflowId { expected, got } => "workflow id must be '"@
                    + expected@ + "', got '"@ + got@ + "'"@,
            },
    {
        match self {
            ArtifactError::EmptyName => {
                "artifact name must contain at least one ASCII letter or digit".to_string()
            },
            ArtifactError::MissingObjective => "description/objective is required".to_string(),
            ArtifactError::NoFrontmatter => "skill must start with YAML frontmatter".to_string(),
            ArtifactError::UnclosedFrontmatter => "skill frontmatter is not closed".to_string(),
            ArtifactError::InvalidFrontmatterYaml => "invalid skill frontmatter YAML".to_string(),
            ArtifactError::WrongSkillName { expected, got } => {
                let mut s = String::new();
                s.append("skill frontmatter name must be '");
                s.append(expected.as_str());
                s.append("', got '");
                s.append(got.as_str());
                s.append("'");
                s
            },
            ArtifactError::MissingDescription => {
                "skill frontmatter description is required".to_string()
            },
            ArtifactError::MissingBody => "skill body is required".to_string(),
            ArtifactError::InvalidWorkflowYaml => "invalid workflow YAML".to_string(),
            ArtifactError::InvalidWorkflow(_) => "invalid workflow definition".to_string(),
            ArtifactError::WrongWorkflowId { expected, got } => {
                let mut s = String::new();
                s.append("workflow id must be '");
                s.append(expected.as_str());
                s.append("', got '");
                s.append(got.as_str());
                s.append("'");
                s
            },
        }
    }
}

// ---------------------------------------------------------------------------
// Names

/// An ASCII letter or digit.
pub open spec fn is_ascii_alnum(c: char) -> bool {
    ('0' <= c && c <= '9') || ('a' <= c && c <= 'z') || ('A' <= c && c <= 'Z')
}

/// The ASCII lowercase of a character.
pub open spec fn ascii_lower(c: char) -> char {
    if 'A' <= c && c <= 'Z' {
        ((c as u32) + 32) as char
    } else {
        c
    }
}

/// A character that separates the words of a name.
pub open spec fn is_name_separator(c: char) -> bool {
    c == '-' || c == '_' || c == ' ' || c == '.'
}

/// The name built from the first `k` characters of `s`, and whether it ends
/// in a dash just added: letters and digits are kept in lowercase, a run of
/// separators after something kept becomes one dash, the rest is dropped.
pub open spec fn name_fold(s: Seq<char>, k: int) -> (Seq<char>, bool)
    decreases k,
{
    if k <= 0 {
        (Seq::empty(), false)
    } else {
        let prev = name_fold(s, k - 1);
        let c = s[k - 1];
        if is_ascii_alnum(c) {
            (prev.0.push(ascii_lower(c)), false)
        } else if is_name_separator(c) && !prev.1 && prev.0.len() > 0 {
            (prev.0.push('-'), true)
        } else {
            prev
        }
    }
}

/// The normalized form of an artifact name, without trailing dashes.
pub open spec fn normalized_name(raw: Seq<char>) -> Seq<char> {
    let t = trim(raw);
    trim_end_char(name_fold(t, t.len() as int).0, '-')
}

/// The lowercase of an ASCII letter or digit.
fn lower_alnum(c: char) -> (r: char)
    requires
        is_ascii_alnum(c),
    ensures
        r == ascii_lower(c),
{
    if 'A' <= c && c <= 'Z' {
        let b: u8 = (c as u32 + 32) as u8;
        b as char
    } else {
        c
    }
}

/// Normalizes an artifact name: lowercase ASCII letters and digits, words
/// joined by single dashes.
pub fn normalize_artifact_name(raw: &str) -> (r: Result<String, ArtifactError>)
    ensures
        match r {
            Ok(n) => n@ == normalized_name(raw@) && n@.len() > 0,
            Err(e) => e@ == ArtifactFault::EmptyName && normalized_name(raw@).len() == 0,
        },
{
    let v = chars_of(raw);
    let (a, b) = trim_bounds(v.as_slice(), 0, v.len());
    proof {
        assert(v@.subrange(0, v@.len() as int) =~= v@);
    }
    let t = slice_range(v.as_slice(), a, b);
    let mut out: Vec<char> = Vec::new();
    let mut previous_dash = false;
    let mut i: usize = 0;
    while i < t.len()
        invariant
            i <= t@.len(),
            t@ == trim(raw@),
            (out@, previous_dash) == name_fold(t@, i as int),
        decreases t.len() - i,
    {
        let c = t[i];
        if ('0' <= c && c <= '9') || ('a' <= c && c <= 'z') || ('A' <= c && c <= 'Z') {
            out.push(lower_alnum(c));
            previous_dash = false;
        } else if (c == '-' || c == '_' || c == ' ' || c == '.') && !previous_dash && out.len() > 0 {
            out.push('-');
            previous_dash = true;
        }
        i += 1;
    }
    let mut n = out.len();
    while n > 0 && out[n - 1] == '-'
        invariant
            n <= out@.len(),
            forall|k: int| n <= k < out@.len() ==> out@[k] == '-',
        decreases n,
    {
        n -= 1;
    }
    proof {
        crate::text::lemma_trail_run(out@, '-', out@.len() - n);
        assert(out@.take(n as int) =~= out@.subrange(0, n as int));
    }
    if n == 0 {
        return Err(ArtifactError::EmptyName);
    }
    Ok(string_of(slice_range(out.as_slice(), 0, n).as_slice()))
}

/// Whether an objective is given.
pub fn require_objective(objective: &str) -> (r: Result<(), ArtifactError>)
    ensures
        r is Ok <==> trim(objective@).len() > 0,
        r matches Err(e) ==> e@ == ArtifactFault::MissingObjective,
{
    let v = chars_of(objective);
    let (a, b) = trim_bounds(v.as_slice(), 0, v.len());
    proof {
        assert(v@.subrange(0, v@.len() as int) =~= v@);
    }
    if a == b {
        Err(ArtifactError::MissingObjective)
    } else {
        Ok(())
    }
}

/// Where a skill of the given name is written, relative to the workspace.
pub fn skill_path(name: &str) -> (r: String)
    ensures
        r@ == ".ogent/skills/"@ + name@ + "/SKILL.md"@,
{
    let mut s = String::new();
    s.append(".ogent/skills/");
    s.append(name);
    s.append("/SKILL.md");
    s
}

/// Where a workflow of the given name is written, relative to the workspace.
pub fn workflow_path(name: &str) -> (r: String)
    ensures
        r@ == ".ogent/workflows/"@ + name@ + ".yaml"@,
{
    let mut s = String::new();
    s.append(".ogent/workflows/");
    s.append(name);
    s.append(".yaml");
    s
}

/// A text that ends with a newline.
pub open spec fn with_trailing_newline(s: Seq<char>) -> Seq<char> {
    if ends_with(s, seq!['\n']) {
        s
    } else {
        s.push('\n')
    }
}

/// The text, ended by a newline.
pub fn ensure_trailing_newline(content: &str) -> (r: String)
    ensures
        r@ == with_trailing_newline(content@),
{
    let v = chars_of(content);
    let nl = vec!['\n'];
    let mut s = content.to_string();
    if !has_suffix(v.as_slice(), nl.as_slice()) {
        string_push(&mut s, '\n');
    }
    s
}

// ---------------------------------------------------------------------------
// Frontmatter and code fences

/// The three dashes that open and close frontmatter.
pub open spec fn dashes() -> Seq<char> {
    seq!['-', '-', '-']
}

/// The frontmatter of a skill: what lies between the opening `---` and the
/// next `---`.
pub open spec fn frontmatter_of(content: Seq<char>) -> Result<Seq<char>, ArtifactFault> {
    if !starts_with(content, dashes()) {
        Err(ArtifactFault::NoFrontmatter)
    } else {
        let rest = content.skip(3);
        match find(rest, dashes()) {
            None => Err(ArtifactFault::UnclosedFrontmatter),
            Some(end) => Ok(rest.take(end)),
        }
    }
}

/// The body of a skill after its frontmatter, trimmed.
pub open spec fn body_of(content: Seq<char>) -> Result<Seq<char>, ArtifactFault> {
    if !starts_with(content, dashes()) {
        Err(ArtifactFault::NoFrontmatter)
    } else {
        let rest = content.skip(3);
        match find(rest, dashes()) {
            None => Err(ArtifactFault::UnclosedFrontmatter),
            Some(end) => Ok(trim(rest.skip(end + 3))),
        }
    }
}

/// Where the frontmatter closes: the index in `v` after the opening dashes
/// of the closing dashes.
fn frontmatter_end(v: &Vec<char>) -> (r: Result<usize, ArtifactError>)
    ensures
        match r {
            Ok(end) => starts_with(v@, dashes()) && find(v@.skip(3), dashes()) == Some(end as int)
                && 3 + end + 3 <= v@.len(),
            Err(e) => (!starts_with(v@, dashes()) && e@ == ArtifactFault::NoFrontmatter) || (
            starts_with(v@, dashes()) && find(v@.skip(3), dashes()) is None && e@
                == ArtifactFault::UnclosedFrontmatter),
        },
{
    let d = vec!['-', '-', '-'];
    if !has_prefix(v.as_slice(), d.as_slice()) {
        return Err(ArtifactError::NoFrontmatter);
    }
    let rest = slice_range(v.as_slice(), 3, v.len());
    proof {
        assert(rest@ =~= v@.skip(3));
    }
    match find_in(rest.as_slice(), d.as_slice()) {
        None => Err(ArtifactError::UnclosedFrontmatter),
        Some(end) => {
            proof {
                lemma_find_from_facts(rest@, dashes(), 0);
            }
            Ok(end)
        },
    }
}

/// The frontmatter of a skill.
pub fn parse_frontmatter(content: &str) -> (r: Result<String, ArtifactError>)
    ensures
        match r {
            Ok(f) => frontmatter_of(content@) == Ok::<Seq<char>, ArtifactFault>(f@),
            Err(e) => frontmatter_of(content@) == Err::<Seq<char>, ArtifactFault>(e@),
        },
{
    let v = chars_of(content);
    match frontmatter_end(&v) {
        Err(e) => Err(e),
        Ok(end) => {
            let n = v.len();
            assert(3 + end + 3 <= n);
            proof {
                assert(v@.subrange(3, 3 + end) =~= v@.skip(3).take(end as int));
            }
            Ok(string_of(slice_range(v.as_slice(), 3, 3 + end).as_slice()))
        },
    }
}

/// The body of a skill after its frontmatter, trimmed.
pub fn body_after_frontmatter(content: &str) -> (r: Result<String, ArtifactError>)
    ensures
        match r {
            Ok(b) => body_of(content@) == Ok::<Seq<char>, ArtifactFault>(b@),
            Err(e) => body_of(content@) == Err::<Seq<char>, ArtifactFault>(e@),
        },
{
    let v = chars_of(content);
    match frontmatter_end(&v) {
        Err(e) => Err(e),
        Ok(end) => {
            let n = v.len();
            assert(3 + end + 3 <= n);
            let (a, b) = trim_bounds(v.as_slice(), 3 + end + 3, n);
            proof {
                assert(v@.subrange(3 + end + 3, v@.len() as int) =~= v@.skip(3).skip(end + 3));
            }
            Ok(string_of(slice_range(v.as_slice(), a, b).as_slice()))
        },
    }
}

/// Three backticks.
pub open spec fn fence() -> Seq<char> {
    seq!['`', '`', '`']
}

/// A draft with an enclosing code fence removed: the fence must open and
/// close the trimmed draft, its language (if any) must be the expected one,
/// `md` or `yml`, and its last line must be the closing fence.
pub open spec fn unfenced(raw: Seq<char>, lang: Seq<char>) -> Seq<char> {
    let t = trim(raw);
    if !(starts_with(t, fence()) && ends_with(t, fence())) {
        t
    } else {
        let ls = lines_of(t);
        let first = if ls.len() > 0 { trim(ls[0]) } else { Seq::empty() };
        let l = trim(trim_start_char(first, '`'));
        let body = if ls.len() > 0 { ls.skip(1) } else { Seq::empty() };
        if l.len() > 0 && l != lang && l != seq!['m', 'd'] && l != seq!['y', 'm', 'l'] {
            t
        } else if body.len() > 0 && trim(body.last()) == fence() {
            join_with(body.drop_last(), seq!['\n'])
        } else {
            t
        }
    }
}

/// The trimmed text of `v[lo..hi]`.
fn trimmed_range(v: &Vec<char>, lo: usize, hi: usize) -> (r: Vec<char>)
    requires
        lo <= hi <= v@.len(),
    ensures
        r@ == trim(v@.subrange(lo as int, hi as int)),
{
    let (a, b) = trim_bounds(v.as_slice(), lo, hi);
    slice_range(v.as_slice(), a, b)
}

/// Removes a code fence around a draft.
pub fn strip_optional_code_fence(raw: &str, expected_lang: &str) -> (r: String)
    ensures
        r@ == unfenced(raw@, expected_lang@),
{
    let v = chars_of(raw);
    let t = trimmed_range(&v, 0, v.len());
    proof {
        assert(v@.subrange(0, v@.len() as int) =~= v@);
    }
    let f = vec!['`', '`', '`'];
    if !(has_prefix(t.as_slice(), f.as_slice()) && has_suffix(t.as_slice(), f.as_slice())) {
        return string_of(t.as_slice());
    }
    let ls = lines_chars(t.as_slice());
    let first: Vec<char> = if ls.len() > 0 {
        trimmed_range(&ls[0], 0, ls[0].len())
    } else {
        Vec::new()
    };
    proof {
        if ls@.len() > 0 {
            assert(ls@[0]@.subrange(0, ls@[0]@.len() as int) =~= ls@[0]@);
        }
    }
    let k = lead_run_exec(first.as_slice(), '`');
    let lang = trimmed_range(&first, k, first.len());
    proof {
        assert(first@.subrange(k as int, first@.len() as int) =~= trim_start_char(first@, '`'));
    }
    let expected = chars_of(expected_lang);
    let md = vec!['m', 'd'];
    let yml = vec!['y', 'm', 'l'];
    if lang.len() > 0 && !seq_eq(lang.as_slice(), expected.as_slice()) && !seq_eq(
        lang.as_slice(),
        md.as_slice(),
    ) && !seq_eq(lang.as_slice(), yml.as_slice()) {
        return string_of(t.as_slice());
    }
    if ls.len() > 1 {
        let last = &ls[ls.len() - 1];
        let lt = trimmed_range(last, 0, last.len());
        proof {
            assert(last@.subrange(0, last@.len() as int) =~= last@);
        }
        if seq_eq(lt.as_slice(), f.as_slice()) {
            let mut body: Vec<Vec<char>> = Vec::new();
            let mut i: usize = 1;
            while i + 1 < ls.len()
                invariant
                    1 <= i,
                    i <= ls@.len() - 1,
                    ls@.len() > 1,
                    body@.len() == i - 1,
                    forall|j: int| 0 <= j < i - 1 ==> #[trigger] body@[j]@ == ls@[j + 1]@,
                decreases ls.len() - i,
            {
                body.push(slice_range(ls[i].as_slice(), 0, ls[i].len()));
                proof {
                    assert(ls@[i as int]@.subrange(0, ls@[i as int]@.len() as int) =~= ls@[i as int]@);
                }
                i += 1;
            }
            let out = join_vecs(&body, "\n");
            proof {
                reveal_strlit("\n");
                let lv = lines_of(t@);
                assert(char_views(body@) =~= lv.skip(1).drop_last());
                assert("\n"@ =~= seq!['\n']);
            }
            return out;
        }
    }
    string_of(t.as_slice())
}

// ---------------------------------------------------------------------------
// Checking drafts

/// Names what `serde_yaml::from_str::<serde_yaml::Value>` makes of `text`,
/// read at member `key`: `None` when the text is not YAML, otherwise the
/// member's text when it is a string.
pub uninterp spec fn yaml_text_member(text: Seq<char>, key: Seq<char>) -> Option<Option<Seq<char>>>;

/// The text of an optional member.
pub open spec fn member_text(o: Option<Option<String>>) -> Option<Option<Seq<char>>> {
    match o {
        None => None,
        Some(None) => Some(None),
        Some(Some(t)) => Some(Some(t@)),
    }
}

/// Parses `text` as YAML with `serde_yaml::from_str::<serde_yaml::Value>`
/// and reads the string member `key` (`Value::get`, then `Value::as_str`).
/// Claimed: the result is a function of `text` and `key` alone.
#[verifier::external_body]
pub(crate) fn yaml_text_member_of(text: &str, key: &str) -> (r: Option<Option<String>>)
    ensures
        member_text(r) == yaml_text_member(text@, key@),
{
    match serde_yaml::from_str::<serde_yaml::Value>(text) {
        Ok(v) => Some(v.get(key).and_then(|m| m.as_str()).map(|m| m.to_string())),
        Err(_) => None,
    }
}

/// A member's text, empty when it is missing or not a string.
pub open spec fn text_or_empty(m: Option<Seq<char>>) -> Seq<char> {
    match m {
        Some(t) => t,
        None => Seq::empty(),
    }
}

/// The outcome of checking a skill draft: the frontmatter must be YAML
/// naming the expected skill with a description, and a body must follow;
/// the accepted text is the trimmed, unfenced draft ending with a newline.
pub open spec fn skill_check(expected: Seq<char>, raw: Seq<char>) -> Result<Seq<char>, ArtifactFault> {
    let trimmed = trim(unfenced(raw, "markdown"@));
    match frontmatter_of(trimmed) {
        Err(e) => Err(e),
        Ok(fm) => {
            let name = yaml_text_member(fm, "name"@);
            let desc = yaml_text_member(fm, "description"@);
            if name is None {
                Err(ArtifactFault::InvalidFrontmatterYaml)
            } else if text_or_empty(name->0) != expected {
                Err(ArtifactFault::WrongSkillName(expected, text_or_empty(name->0)))
            } else if desc is None {
                Err(ArtifactFault::InvalidFrontmatterYaml)
            } else if trim(text_or_empty(desc->0)).len() == 0 {
                Err(ArtifactFault::MissingDescription)
            } else {
                match body_of(trimmed) {
                    Err(e) => Err(e),
                    Ok(b) => if b.len() == 0 {
                        Err(ArtifactFault::MissingBody)
                    } else {
                        Ok(with_trailing_newline(trimmed))
                    },
                }
            }
        },
    }
}

/// Checks a skill draft; returns the text to write.
pub fn validate_skill(expected_name: &str, raw: &str) -> (r: Result<String, ArtifactError>)
    ensures
        match r {
            Ok(s) => skill_check(expected_name@, raw@) == Ok::<Seq<char>, ArtifactFault>(s@),
            Err(e) => skill_check(expected_name@, raw@) == Err::<Seq<char>, ArtifactFault>(e@),
        },
{
    let content = strip_optional_code_fence(raw, "markdown");
    let cv = chars_of(content.as_str());
    let tv = trimmed_range(&cv, 0, cv.len());
    proof {
        assert(cv@.subrange(0, cv@.len() as int) =~= cv@);
    }
    let trimmed = string_of(tv.as_slice());
    let fm = match parse_frontmatter(trimmed.as_str()) {
        Err(e) => return Err(e),
        Ok(f) => f,
    };
    let name = yaml_text_member_of(fm.as_str(), "name");
    let name_text = match name {
        None => return Err(ArtifactError::InvalidFrontmatterYaml),
        Some(None) => String::new(),
        Some(Some(t)) => t,
    };
    if !str_eq(name_text.as_str(), expected_name) {
        return Err(ArtifactError::WrongSkillName { expected: expected_name.to_string(), got: name_text });
    }
    let desc = yaml_text_member_of(fm.as_str(), "description");
    let desc_text = match desc {
        None => return Err(ArtifactError::InvalidFrontmatterYaml),
        Some(None) => String::new(),
        Some(Some(t)) => t,
    };
    let dv = chars_of(desc_text.as_str());
    let (a, b) = trim_bounds(dv.as_slice(), 0, dv.len());
    proof {
        assert(dv@.subrange(0, dv@.len() as int) =~= dv@);
    }
    if a == b {
        return Err(ArtifactError::MissingDescription);
    }
    match body_after_frontmatter(trimmed.as_str()) {
        Err(e) => Err(e),
        Ok(body) => if body.as_str().is_empty() {
            Err(ArtifactError::MissingBody)
        } else {
            Ok(ensure_trailing_newline(trimmed.as_str()))
        },
    }
}

/// A workflow draft as it is parsed: trimmed and unfenced.
pub fn workflow_candidate(raw: &str) -> (r: String)
    ensures
        r@ == trim(unfenced(raw@, "yaml"@)),
{
    let content = strip_optional_code_fence(raw, "yaml");
    let cv = chars_of(content.as_str());
    let tv = trimmed_range(&cv, 0, cv.len());
    proof {
        assert(cv@.subrange(0, cv@.len() as int) =~= cv@);
    }
    string_of(tv.as_slice())
}

/// Checks a workflow draft, given the candidate text (`workflow_candidate`)
/// and what parsing it as a workflow gave (`None` when it is not YAML of a
/// workflow): its definition must be valid and its id the expected one.
pub fn validate_workflow(expected_name: &str, candidate: &str, parsed: Option<Workflow>) -> (r: Result<
    String,
    ArtifactError,
>)
    ensures
        match parsed {
            None => r matches Err(e) && e@ == ArtifactFault::InvalidWorkflowYaml,
            Some(w) => match validation_fault(w) {
                Some(f) => r matches Err(e) && e@ == ArtifactFault::InvalidWorkflow(f),
                None => if w.id@ != expected_name@ {
                    r matches Err(e) && e@ == ArtifactFault::WrongWorkflowId(expected_name@, w.id@)
                } else {
                    r matches Ok(s) && s@ == with_trailing_newline(candidate@)
                },
            },
        },
{
    let w = match parsed {
        None => return Err(ArtifactError::InvalidWorkflowYaml),
        Some(w) => w,
    };
    match w.validate() {
        Err(e) => return Err(ArtifactError::InvalidWorkflow(e)),
        Ok(()) => {},
    }
    if !str_eq(w.id.as_str(), expected_name) {
        return Err(ArtifactError::WrongWorkflowId { expected: expected_name.to_string(), got: w.id });
    }
    Ok(ensure_trailing_newline(candidate))
}

/// The messages that ask the model for a draft: the trimmed system prompt,
/// then the request.
pub fn creator_messages(system_prompt: &str, prompt: &str) -> (r: Vec<Message>)
    ensures
        r@.len() == 2,
        r@[0].role == crate::types::Role::System,
        r@[0].content@ == trim(system_prompt@),
        r@[0].origin == MessageOrigin::Internal,
        crate::types::plain(r@[0]),
        r@[1].role == crate::types::Role::User,
        r@[1].content@ == prompt@,
        r@[1].origin == MessageOrigin::Human,
        crate::types::plain(r@[1]),
{
    let sv = chars_of(system_prompt);
    let st = trimmed_range(&sv, 0, sv.len());
    proof {
        assert(sv@.subrange(0, sv@.len() as int) =~= sv@);
    }
    let mut r: Vec<Message> = Vec::new();
    r.push(Message::system(string_of(st.as_slice())));
    r.push(Message::user(prompt.to_string(), MessageOrigin::Human));
    r
}

/// The request after a draft failed its check.
pub fn retry_prompt(user_prompt: &str, error: &str) -> (r: String)
    ensures
        r@ == user_prompt@ + "\n\nThe previous output failed validation:\n"@ + error@
            + "\n\nReturn a corrected artifact only."@,
{
    let mut s = String::new();
    s.append(user_prompt);
    s.append("\n\nThe previous output failed validation:\n");
    s.append(error);
    s.append("\n\nReturn a corrected artifact only.");
    s
}

} // verus!
