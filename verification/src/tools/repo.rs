//! The repository map's choices.
use vstd::prelude::*;
use crate::tools::{require_nonempty, required_message, ToolFailure};
use crate::text::trim;

verus! {

broadcast use vstd::string::group_string_axioms;

/// The path the map starts from: the workspace root when none is given.
pub fn path_or_root(path: &str) -> (r: &str)
    ensures
        r@ == if path@.len() == 0 { "."@ } else { path@ },
{
    if path.is_empty() {
        "."
    } else {
        path
    }
}

/// How many levels the map shows: three when none are asked for.
pub fn map_levels(levels: usize) -> (r: usize)
    ensures
        r == if levels == 0 { 3 } else { levels },
{
    if levels == 0 {
        3
    } else {
        levels
    }
}

/// Names what `globset` makes of a glob pattern: `Ok` when `Glob::new`
/// accepts it and a `GlobSet` of it builds, else the error's text.
pub uninterp spec fn glob_build(pattern: Seq<char>) -> Result<(), Seq<char>>;

/// Names whether the glob built from `pattern` matches `path`
/// (`GlobSet::is_match`).
pub uninterp spec fn glob_matches(pattern: Seq<char>, path: Seq<char>) -> bool;

/// Builds the glob of `pattern` (`Glob::new`, then a `GlobSetBuilder` holding
/// it) and tests each path with `GlobSet::is_match`. The set's builder
/// reports as an error a glob whose regex does not compile, where
/// `Glob::compile_matcher` would panic.
#[verifier::external_body]
fn glob_match_each(pattern: &str, paths: &Vec<String>) -> (r: Result<Vec<bool>, String>)
    ensures
        match r {
            Ok(v) => glob_build(pattern@) is Ok && v@.len() == paths@.len() && forall|i: int|
                0 <= i < v@.len() ==> #[trigger] v@[i] == glob_matches(pattern@, paths@[i]@),
            Err(e) => glob_build(pattern@) == Err::<(), Seq<char>>(e@),
        },
{
    let glob = match globset::Glob::new(pattern) {
        Ok(g) => g,
        Err(e) => return Err(e.to_string()),
    };
    let set = match globset::GlobSetBuilder::new().add(glob).build() {
        Ok(s) => s,
        Err(e) => return Err(e.to_string()),
    };
    Ok(paths.iter().map(|p| set.is_match(p)).collect())
}

/// The paths among `files` that the glob of `pattern` matches, in order.
pub open spec fn glob_kept(pattern: Seq<char>, files: Seq<String>) -> Seq<Seq<char>>
    decreases files.len(),
{
    if files.len() == 0 {
        Seq::empty()
    } else {
        let rest = glob_kept(pattern, files.drop_last());
        if glob_matches(pattern, files.last()@) {
            rest.push(files.last()@)
        } else {
            rest
        }
    }
}

/// The workspace files (relative paths, in walk order) that a glob matches:
/// refused when the pattern is blank or the glob does not build.
pub fn glob_paths(pattern: &str, files: &Vec<String>) -> (r: Result<Vec<String>, ToolFailure>)
    ensures
        match r {
            Ok(v) => trim(pattern@).len() > 0 && glob_build(pattern@) is Ok
                && crate::tui::line_texts(v@) == glob_kept(pattern@, files@),
            Err(f) => if trim(pattern@).len() == 0 {
                f.message@ == required_message("pattern"@)
            } else {
                glob_build(pattern@) matches Err(e) && f.message@ == e
            },
        },
{
    match require_nonempty(pattern, "pattern") {
        Err(f) => return Err(f),
        Ok(()) => {},
    }
    let flags = match glob_match_each(pattern, files) {
        Err(e) => return Err(ToolFailure { message: e }),
        Ok(v) => v,
    };
    let mut out: Vec<String> = Vec::new();
    let mut i: usize = 0;
    while i < files.len()
        invariant
            i <= files@.len(),
            flags@.len() == files@.len(),
            forall|k: int| 0 <= k < flags@.len() ==> #[trigger] flags@[k] == glob_matches(pattern@, files@[k]@),
            crate::tui::line_texts(out@) == glob_kept(pattern@, files@.take(i as int)),
        decreases files.len() - i,
    {
        let ghost before = out@;
        proof {
            assert(files@.take(i + 1).drop_last() =~= files@.take(i as int));
            assert(files@.take(i + 1).last() == files@[i as int]);
        }
        if flags[i] {
            out.push(files[i].clone());
            proof {
                assert(crate::tui::line_texts(out@) =~= crate::tui::line_texts(before).push(files@[i as int]@));
            }
        }
        i += 1;
    }
    proof {
        assert(files@.take(files@.len() as int) =~= files@);
    }
    Ok(out)
}

} // verus!
