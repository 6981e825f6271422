//! The workspace a run works in, and the paths its tools may touch.
//!
//! Paths are Unix path texts.  A path is modelled by whether it is absolute
//! and by the list of its parts after normalization: empty parts and `.` are
//! dropped, and `..` drops the part before it (there is nothing above the
//! root, nor above the start of a relative path).
use vstd::prelude::*;
use crate::text::{
    chars_of, split_on, split_chars, lemma_split_on_nonempty, lemma_split_on_push, string_of,
    string_push, starts_with, starts_with_str, str_eq,
};

verus! {

broadcast use vstd::string::group_string_axioms;

/// What normalization does with one more part of a path.
pub open spec fn norm_step(prev: Seq<Seq<char>>, x: Seq<char>) -> Seq<Seq<char>> {
    if x.len() == 0 || x == seq!['.'] {
        prev
    } else if x == seq!['.', '.'] {
        if prev.len() > 0 {
            prev.drop_last()
        } else {
            prev
        }
    } else {
        prev.push(x)
    }
}

/// The normalized parts of a path from its `/`-separated pieces.
pub open spec fn norm_fold(pieces: Seq<Seq<char>>) -> Seq<Seq<char>>
    decreases pieces.len(),
{
    if pieces.len() == 0 {
        Seq::empty()
    } else {
        norm_step(norm_fold(pieces.drop_last()), pieces.last())
    }
}

/// Whether a path text is absolute.
pub open spec fn is_abs(s: Seq<char>) -> bool {
    s.len() > 0 && s[0] == '/'
}

/// The normalized parts of a path text.
pub open spec fn path_parts(s: Seq<char>) -> Seq<Seq<char>> {
    norm_fold(split_on(s, '/'))
}

/// Parts joined by `/`.
pub open spec fn join_parts(parts: Seq<Seq<char>>) -> Seq<char>
    decreases parts.len(),
{
    if parts.len() == 0 {
        Seq::empty()
    } else if parts.len() == 1 {
        parts[0]
    } else {
        join_parts(parts.drop_last()) + seq!['/'] + parts.last()
    }
}

/// The text of a path with the given parts.
pub open spec fn render(abs: bool, parts: Seq<Seq<char>>) -> Seq<char> {
    (if abs {
        seq!['/']
    } else {
        Seq::empty()
    }) + join_parts(parts)
}

/// The normalized text of a path.
pub open spec fn normalized(s: Seq<char>) -> Seq<char> {
    render(is_abs(s), path_parts(s))
}

/// Whether a path normalizes to the empty path: relative, with no parts
/// (such as `.`).
pub open spec fn is_empty_path(s: Seq<char>) -> bool {
    !is_abs(s) && path_parts(s).len() == 0
}

/// Whether path `p` lies at or below path `base`, component by component
/// after normalizing both (`Path::starts_with`): the empty path has no
/// components, so every path lies below it; otherwise both are absolute or
/// both relative, and the parts of `base` begin those of `p`.
pub open spec fn within(p: Seq<char>, base: Seq<char>) -> bool {
    is_empty_path(base) || (is_abs(p) == is_abs(base) && path_parts(base).is_prefix_of(path_parts(p)))
}

/// `base` joined with `p` (`Path::join`): `p` itself when it is absolute.
pub open spec fn joined(base: Seq<char>, p: Seq<char>) -> Seq<char> {
    if is_abs(p) || base.len() == 0 {
        p
    } else if base.last() == '/' {
        base + p
    } else {
        base + seq!['/'] + p
    }
}

/// Whether a piece is `.` or `..`.
fn piece_is(v: &Vec<char>, dots: usize) -> (b: bool)
    requires
        dots == 1 || dots == 2,
    ensures
        b == (v@ == if dots == 1 {
            seq!['.']
        } else {
            seq!['.', '.']
        }),
{
    if v.len() != dots {
        return false;
    }
    if v[0] != '.' {
        return false;
    }
    if dots == 2 && v[1] != '.' {
        return false;
    }
    proof {
        if dots == 1 {
            assert(v@ =~= seq!['.']);
        } else {
            assert(v@ =~= seq!['.', '.']);
        }
    }
    true
}

/// The normalized parts of a path text.
pub fn parts_of(s: &[char]) -> (r: Vec<Vec<char>>)
    ensures
        r@.map_values(|p: Vec<char>| p@) == path_parts(s@),
{
    let pieces = split_chars(s, '/');
    let ghost ps = split_on(s@, '/');
    let mut out: Vec<Vec<char>> = Vec::new();
    let mut i: usize = 0;
    proof {
        assert(ps.take(0) =~= Seq::<Seq<char>>::empty());
        assert(out@.map_values(|p: Vec<char>| p@) =~= Seq::<Seq<char>>::empty());
    }
    while i < pieces.len()
        invariant
            i <= pieces@.len(),
            ps == split_on(s@, '/'),
            pieces@.len() == ps.len(),
            forall|k: int| 0 <= k < pieces@.len() ==> #[trigger] pieces@[k]@ == ps[k],
            out@.map_values(|p: Vec<char>| p@) == norm_fold(ps.take(i as int)),
        decreases pieces.len() - i,
    {
        let x = &pieces[i];
        let ghost prev = out@.map_values(|p: Vec<char>| p@);
        proof {
            assert(ps.take(i + 1).drop_last() == ps.take(i as int));
            assert(ps.take(i + 1).last() == x@);
        }
        if x.len() == 0 || piece_is(x, 1) {
        } else if piece_is(x, 2) {
            if out.len() > 0 {
                out.pop();
                proof {
                    assert(out@.map_values(|p: Vec<char>| p@) =~= prev.drop_last());
                }
            }
        } else {
            let mut y: Vec<char> = Vec::new();
            let mut j: usize = 0;
            while j < x.len()
                invariant
                    j <= x@.len(),
                    y@ == x@.take(j as int),
                decreases x.len() - j,
            {
                y.push(x[j]);
                assert(x@.take(j + 1) == x@.take(j as int).push(x@[j as int]));
                j += 1;
            }
            assert(x@.take(x@.len() as int) == x@);
            out.push(y);
            proof {
                assert(out@.map_values(|p: Vec<char>| p@) =~= prev.push(x@));
            }
        }
        i += 1;
    }
    proof {
        assert(ps.take(ps.len() as int) == ps);
    }
    out
}

/// The text of a path with the given parts.
pub fn render_parts(abs: bool, parts: &Vec<Vec<char>>) -> (r: String)
    ensures
        r@ == render(abs, parts@.map_values(|p: Vec<char>| p@)),
{
    let ghost pv = parts@.map_values(|p: Vec<char>| p@);
    let mut out = String::new();
    if abs {
        string_push(&mut out, '/');
    }
    let ghost head = out@;
    let mut i: usize = 0;
    proof {
        assert(pv.take(0) =~= Seq::<Seq<char>>::empty());
        assert(out@ =~= head + join_parts(pv.take(0)));
    }
    while i < parts.len()
        invariant
            i <= parts@.len(),
            pv == parts@.map_values(|p: Vec<char>| p@),
            out@ == head + join_parts(pv.take(i as int)),
        decreases parts.len() - i,
    {
        if i > 0 {
            string_push(&mut out, '/');
        }
        crate::text::push_chars(&mut out, parts[i].as_slice());
        proof {
            let t = pv.take(i + 1);
            assert(t.drop_last() == pv.take(i as int));
            assert(t.last() == parts@[i as int]@);
            if i == 0 {
                assert(t.len() == 1);
                assert(out@ =~= head + join_parts(t));
            } else {
                assert(out@ =~= head + join_parts(t));
            }
        }
        i += 1;
    }
    proof {
        assert(pv.take(i as int) == pv);
        if abs {
            assert(head =~= seq!['/']);
        } else {
            assert(head =~= Seq::<char>::empty());
        }
    }
    out
}

/// The normalized text of a path: `.` and empty parts dropped, each `..`
/// dropping the part before it.
pub fn normalize(path: &str) -> (r: String)
    ensures
        r@ == normalized(path@),
{
    let v = chars_of(path);
    let parts = parts_of(&v);
    let abs = v.len() > 0 && v[0] == '/';
    render_parts(abs, &parts)
}

/// Whether `p` starts with `base`, part by part.
fn parts_start_with(p: &Vec<Vec<char>>, base: &Vec<Vec<char>>) -> (b: bool)
    ensures
        b == base@.map_values(|x: Vec<char>| x@).is_prefix_of(p@.map_values(|x: Vec<char>| x@)),
{
    let ghost pv = p@.map_values(|x: Vec<char>| x@);
    let ghost bv = base@.map_values(|x: Vec<char>| x@);
    if base.len() > p.len() {
        return false;
    }
    let mut i: usize = 0;
    while i < base.len()
        invariant
            i <= base@.len() <= p@.len(),
            pv == p@.map_values(|x: Vec<char>| x@),
            bv == base@.map_values(|x: Vec<char>| x@),
            forall|k: int| 0 <= k < i ==> pv[k] == bv[k],
        decreases base.len() - i,
    {
        if !crate::text::seq_eq(p[i].as_slice(), base[i].as_slice()) {
            assert(pv[i as int] != bv[i as int]);
            return false;
        }
        i += 1;
    }
    assert(bv =~= pv.take(bv.len() as int));
    true
}

/// Whether path `p` lies at or below path `base`.
pub fn path_within(p: &str, base: &str) -> (b: bool)
    ensures
        b == within(p@, base@),
{
    let pv = chars_of(p);
    let bv = chars_of(base);
    let pa = pv.len() > 0 && pv[0] == '/';
    let ba = bv.len() > 0 && bv[0] == '/';
    let bp = parts_of(&bv);
    if !ba && bp.len() == 0 {
        return true;
    }
    if pa != ba {
        return false;
    }
    let pp = parts_of(&pv);
    parts_start_with(&pp, &bp)
}

/// `base` joined with `p`.
pub fn join_path(base: &str, p: &str) -> (r: String)
    ensures
        r@ == joined(base@, p@),
{
    let b = chars_of(base);
    let q = chars_of(p);
    if (q.len() > 0 && q[0] == '/') || b.len() == 0 {
        return p.to_string();
    }
    let mut out = base.to_string();
    if b[b.len() - 1] != '/' {
        string_push(&mut out, '/');
    }
    out.append(p);
    out
}

/// The workspace a run works in: its normalized root, and the home directory
/// that `~/` paths and the user's `.ogent` directory hang off, when known.
#[derive(Clone, Debug)]
pub struct Workspace {
    root: String,
    home: Option<String>,
}

/// Why a path is refused.
#[derive(Clone, Debug)]
pub enum WorkspaceError {
    /// The path is empty.
    Empty,
    /// The path lies outside the workspace (and outside the user's `.ogent`
    /// directory, where that is allowed).
    Outside { path: String, root: String },
}

/// The mathematical content of a `WorkspaceError`.
pub enum PathFault {
    Empty,
    Outside { path: Seq<char>, root: Seq<char> },
}

impl WorkspaceError {
    pub open spec fn view(&self) -> PathFault {
        match self {
            WorkspaceError::Empty => PathFault::Empty,
            WorkspaceError::Outside { path, root } => PathFault::Outside { path: path@, root: root@ },
        }
    }

    /// The message that describes the error.
    pub fn message(&self) -> (r: String)
        ensures
            r@ == match self@ {
                PathFault::Empty => "path is required"@,
                PathFault::Outside { path, root } => "path "@ + path + " is outside workspace "@
                    + root,
            },
    {
        let mut out = String::new();
        match self {
            WorkspaceError::Empty => out.append("path is required"),
            WorkspaceError::Outside { path, root } => {
                out.append("path ");
                out.append(path.as_str());
                out.append(" is outside workspace ");
                out.append(root.as_str());
            },
        }
        out
    }
}

/// The path a tool means by `path`: under the home directory for `~/...`
/// (when it is known), itself when absolute, else under the root; normalized
/// except in the first case.
pub open spec fn tool_path(root: Seq<char>, home: Option<Seq<char>>, path: Seq<char>) -> Seq<char> {
    if starts_with(path, seq!['~', '/']) && home is Some {
        joined(home->0, path.skip(2))
    } else if is_abs(path) {
        normalized(path)
    } else {
        normalized(joined(root, path))
    }
}

/// The user's `.ogent` directory under a home directory.
pub open spec fn ogent_dir(home: Seq<char>) -> Seq<char> {
    normalized(joined(home, ".ogent"@))
}

/// Whether a path lies in the user's `.ogent` directory.
pub open spec fn in_ogent_dir(home: Option<Seq<char>>, p: Seq<char>) -> bool {
    match home {
        Some(h) => within(p, ogent_dir(h)),
        None => false,
    }
}

impl Workspace {
    /// The workspace's normalized root.
    pub closed spec fn root_text(&self) -> Seq<char> {
        self.root@
    }

    /// The home directory, when known.
    pub closed spec fn home_text(&self) -> Option<Seq<char>> {
        match self.home {
            Some(h) => Some(h@),
            None => None,
        }
    }

    /// A workspace rooted at `root` (normalized), with no home directory.
    pub fn from_root(root: &str) -> (w: Workspace)
        ensures
            w.root_text() == normalized(root@),
            w.home_text() is None,
    {
        Workspace { root: normalize(root), home: None }
    }

    /// A workspace rooted at `root` (normalized), with the given home
    /// directory.
    pub fn from_root_with_home(root: &str, home: Option<String>) -> (w: Workspace)
        ensures
            w.root_text() == normalized(root@),
            w.home_text() == match home {
                Some(h) => Some(h@),
                None => None::<Seq<char>>,
            },
    {
        Workspace { root: normalize(root), home }
    }

    /// The workspace's root.
    pub fn root(&self) -> (r: &str)
        ensures
            r@ == self.root_text(),
    {
        self.root.as_str()
    }

    /// The home directory, when known.
    pub fn home_dir(&self) -> (r: Option<String>)
        ensures
            match r {
                Some(h) => self.home_text() == Some(h@),
                None => self.home_text() is None,
            },
    {
        match &self.home {
            Some(h) => Some(h.clone()),
            None => None,
        }
    }

    /// The path a tool means by `path`.
    fn absolute_tool_path(&self, path: &str) -> (r: String)
        ensures
            r@ == tool_path(self.root_text(), self.home_text(), path@),
    {
        let v = chars_of(path);
        let tilde = v.len() >= 2 && v[0] == '~' && v[1] == '/';
        proof {
            if tilde {
                assert(v@.subrange(0, 2) =~= seq!['~', '/']);
            } else if starts_with(path@, seq!['~', '/']) {
                assert(v@[0] == seq!['~', '/'][0]);
                assert(v@[1] == seq!['~', '/'][1]);
            }
        }
        if tilde {
            match &self.home {
                Some(h) => {
                    let rest = string_of(&crate::text::slice_range(&v, 2, v.len()));
                    assert(v@.subrange(2, v@.len() as int) == path@.skip(2));
                    return join_path(h.as_str(), rest.as_str());
                },
                None => {},
            }
        }
        if v.len() > 0 && v[0] == '/' {
            normalize(path)
        } else {
            let j = join_path(self.root.as_str(), path);
            normalize(j.as_str())
        }
    }

    /// Whether a path lies in the user's `.ogent` directory.
    fn in_allowed_root(&self, p: &str) -> (b: bool)
        ensures
            b == in_ogent_dir(self.home_text(), p@),
    {
        match &self.home {
            Some(h) => {
                let d = join_path(h.as_str(), ".ogent");
                let n = normalize(d.as_str());
                path_within(p, n.as_str())
            },
            None => false,
        }
    }

    /// The path a tool may write: `path` resolved against the workspace, and
    /// refused when it is empty or lies outside the workspace.
    pub fn workspace_path(&self, path: &str) -> (r: Result<String, WorkspaceError>)
        ensures
            path@.len() == 0 ==> (r matches Err(e) && e@ == PathFault::Empty),
            path@.len() > 0 ==> {
                let abs = tool_path(self.root_text(), self.home_text(), path@);
                if within(abs, self.root_text()) {
                    r matches Ok(p) && p@ == abs
                } else {
                    r matches Err(e) && e@ == (PathFault::Outside { path: path@, root: self.root_text() })
                }
            },
    {
        if path.is_empty() {
            return Err(WorkspaceError::Empty);
        }
        let abs = self.absolute_tool_path(path);
        if path_within(abs.as_str(), self.root.as_str()) {
            return Ok(abs);
        }
        Err(WorkspaceError::Outside { path: path.to_string(), root: self.root.clone() })
    }

    /// The path a tool may read: like `workspace_path`, and also anything in
    /// the user's `.ogent` directory.
    pub fn readable_path(&self, path: &str) -> (r: Result<String, WorkspaceError>)
        ensures
            path@.len() == 0 ==> (r matches Err(e) && e@ == PathFault::Empty),
            path@.len() > 0 ==> {
                let abs = tool_path(self.root_text(), self.home_text(), path@);
                if within(abs, self.root_text()) || in_ogent_dir(self.home_text(), abs) {
                    r matches Ok(p) && p@ == abs
                } else {
                    r matches Err(e) && e@ == (PathFault::Outside { path: path@, root: self.root_text() })
                }
            },
    {
        if path.is_empty() {
            return Err(WorkspaceError::Empty);
        }
        let abs = self.absolute_tool_path(path);
        if path_within(abs.as_str(), self.root.as_str()) || self.in_allowed_root(abs.as_str()) {
            return Ok(abs);
        }
        Err(WorkspaceError::Outside { path: path.to_string(), root: self.root.clone() })
    }
}

// ---------------------------------------------------------------------------
// Laws

/// Whether a part is a name: non-empty, without `/`, and neither `.` nor `..`.
pub open spec fn clean_part(x: Seq<char>) -> bool {
    x.len() > 0 && !x.contains('/') && x != seq!['.'] && x != seq!['.', '.']
}

/// Whether every part is a name.
pub open spec fn clean_parts(ps: Seq<Seq<char>>) -> bool {
    forall|i: int| 0 <= i < ps.len() ==> clean_part(#[trigger] ps[i])
}

proof fn lemma_split_no_sep(s: Seq<char>)
    ensures
        forall|i: int|
            0 <= i < split_on(s, '/').len() ==> !(#[trigger] split_on(s, '/')[i]).contains('/'),
    decreases s.len(),
{
    lemma_split_on_nonempty(s, '/');
    if s.len() > 0 {
        let t = s.drop_last();
        lemma_split_no_sep(t);
        lemma_split_on_nonempty(t, '/');
        let r = split_on(t, '/');
        assert(s == t.push(s.last()));
        lemma_split_on_push(t, s.last(), '/');
        if s.last() != '/' {
            assert forall|i: int| 0 <= i < split_on(s, '/').len() implies !(#[trigger] split_on(
                s,
                '/',
            )[i]).contains('/') by {
                if i == r.len() - 1 {
                    let last = r.last().push(s.last());
                    if last.contains('/') {
                        let k = choose|k: int| 0 <= k < last.len() && last[k] == '/';
                        if k < r.last().len() {
                            assert(r.last()[k] == '/');
                            assert(r[r.len() - 1].contains('/'));
                        }
                    }
                }
            }
        }
    }
}

proof fn lemma_norm_fold_clean(pieces: Seq<Seq<char>>)
    requires
        forall|i: int| 0 <= i < pieces.len() ==> !(#[trigger] pieces[i]).contains('/'),
    ensures
        clean_parts(norm_fold(pieces)),
    decreases pieces.len(),
{
    if pieces.len() > 0 {
        let t = pieces.drop_last();
        assert forall|i: int| 0 <= i < t.len() implies !(#[trigger] t[i]).contains('/') by {
            assert(t[i] == pieces[i]);
        }
        lemma_norm_fold_clean(t);
        let prev = norm_fold(t);
        let x = pieces.last();
        assert(!pieces[pieces.len() - 1].contains('/'));
        assert forall|i: int| 0 <= i < norm_fold(pieces).len() implies clean_part(
            #[trigger] norm_fold(pieces)[i],
        ) by {
            if i < prev.len() {
                assert(norm_fold(pieces)[i] == prev[i]);
            }
        }
    }
}

/// The parts of any path are names.
pub proof fn lemma_parts_clean(s: Seq<char>)
    ensures
        clean_parts(path_parts(s)),
{
    lemma_split_no_sep(s);
    lemma_norm_fold_clean(split_on(s, '/'));
}

proof fn lemma_split_lead_sep(j: Seq<char>)
    ensures
        split_on(seq!['/'] + j, '/') == seq![Seq::<char>::empty()] + split_on(j, '/'),
    decreases j.len(),
{
    lemma_split_on_nonempty(j, '/');
    if j.len() == 0 {
        assert(seq!['/'] + j =~= Seq::<char>::empty().push('/'));
        lemma_split_on_push(Seq::<char>::empty(), '/', '/');
        assert(split_on(seq!['/'] + j, '/') =~= seq![Seq::<char>::empty()] + split_on(j, '/'));
    } else {
        let t = j.drop_last();
        let c = j.last();
        lemma_split_lead_sep(t);
        lemma_split_on_nonempty(t, '/');
        assert(seq!['/'] + j =~= (seq!['/'] + t).push(c));
        assert(j =~= t.push(c));
        lemma_split_on_push(seq!['/'] + t, c, '/');
        lemma_split_on_push(t, c, '/');
        assert(split_on(seq!['/'] + j, '/') =~= seq![Seq::<char>::empty()] + split_on(j, '/'));
    }
}

proof fn lemma_split_no_sep_whole(x: Seq<char>)
    requires
        !x.contains('/'),
    ensures
        split_on(x, '/') == seq![x],
    decreases x.len(),
{
    if x.len() == 0 {
        assert(x =~= Seq::<char>::empty());
        assert(split_on(x, '/') =~= seq![x]);
    } else {
        let t = x.drop_last();
        assert(!t.contains('/')) by {
            if t.contains('/') {
                let k = choose|k: int| 0 <= k < t.len() && t[k] == '/';
                assert(x[k] == '/');
            }
        }
        lemma_split_no_sep_whole(t);
        assert(x =~= t.push(x.last()));
        assert(x.last() != '/') by {
            assert(x[x.len() - 1] == x.last());
        }
        lemma_split_on_push(t, x.last(), '/');
        let r = split_on(t, '/');
        assert(r == seq![t]);
        assert(r.last() == t);
        assert(split_on(x, '/') == r.update(0, t.push(x.last())));
        assert(t.push(x.last()) =~= x);
        assert(split_on(x, '/') =~= seq![x]);
    }
}

proof fn lemma_split_append_part(a: Seq<char>, x: Seq<char>)
    requires
        !x.contains('/'),
    ensures
        split_on(a + seq!['/'] + x, '/') == split_on(a, '/').push(x),
    decreases x.len(),
{
    lemma_split_on_nonempty(a, '/');
    if x.len() == 0 {
        assert(a + seq!['/'] + x =~= a.push('/'));
        lemma_split_on_push(a, '/', '/');
        assert(x =~= Seq::<char>::empty());
        assert(split_on(a + seq!['/'] + x, '/') =~= split_on(a, '/').push(x));
    } else {
        let t = x.drop_last();
        assert(!t.contains('/')) by {
            if t.contains('/') {
                let k = choose|k: int| 0 <= k < t.len() && t[k] == '/';
                assert(x[k] == '/');
            }
        }
        lemma_split_append_part(a, t);
        assert(x.last() != '/') by {
            assert(x[x.len() - 1] == x.last());
        }
        assert(a + seq!['/'] + x =~= (a + seq!['/'] + t).push(x.last()));
        lemma_split_on_push(a + seq!['/'] + t, x.last(), '/');
        let r = split_on(a + seq!['/'] + t, '/');
        assert(r == split_on(a, '/').push(t));
        assert(r.last() == t);
        assert(split_on(a + seq!['/'] + x, '/') == r.update(r.len() - 1, t.push(x.last())));
        assert(t.push(x.last()) =~= x);
        assert(split_on(a + seq!['/'] + x, '/') =~= split_on(a, '/').push(x));
    }
}

proof fn lemma_split_join(parts: Seq<Seq<char>>)
    requires
        parts.len() > 0,
        clean_parts(parts),
    ensures
        split_on(join_parts(parts), '/') == parts,
    decreases parts.len(),
{
    if parts.len() == 1 {
        assert(clean_part(parts[0]));
        lemma_split_no_sep_whole(parts[0]);
        assert(split_on(join_parts(parts), '/') =~= parts);
    } else {
        let t = parts.drop_last();
        assert forall|i: int| 0 <= i < t.len() implies clean_part(#[trigger] t[i]) by {
            assert(t[i] == parts[i]);
        }
        lemma_split_join(t);
        assert(clean_part(parts[parts.len() - 1]));
        lemma_split_append_part(join_parts(t), parts.last());
        assert(split_on(join_parts(parts), '/') =~= parts);
    }
}

proof fn lemma_norm_fold_clean_id(ps: Seq<Seq<char>>)
    requires
        clean_parts(ps),
    ensures
        norm_fold(ps) == ps,
    decreases ps.len(),
{
    if ps.len() > 0 {
        let t = ps.drop_last();
        assert forall|i: int| 0 <= i < t.len() implies clean_part(#[trigger] t[i]) by {
            assert(t[i] == ps[i]);
        }
        lemma_norm_fold_clean_id(t);
        assert(clean_part(ps[ps.len() - 1]));
        assert(norm_fold(ps) =~= ps);
    }
}

proof fn lemma_norm_fold_lead_empty(ps: Seq<Seq<char>>)
    ensures
        norm_fold(seq![Seq::<char>::empty()] + ps) == norm_fold(ps),
    decreases ps.len(),
{
    let l = seq![Seq::<char>::empty()];
    if ps.len() == 0 {
        assert(l + ps =~= l);
        assert(l.drop_last() =~= Seq::<Seq<char>>::empty());
        assert(l.last() == Seq::<char>::empty());
        assert(norm_fold(l) == norm_step(norm_fold(l.drop_last()), l.last()));
    } else {
        lemma_norm_fold_lead_empty(ps.drop_last());
        assert((l + ps).drop_last() =~= l + ps.drop_last());
        assert((l + ps).last() == ps.last());
        assert(norm_fold(l + ps) == norm_step(norm_fold((l + ps).drop_last()), (l + ps).last()));
    }
}

/// The parts and the absoluteness of a path survive rendering.
pub proof fn lemma_render_parts(abs: bool, parts: Seq<Seq<char>>)
    requires
        clean_parts(parts),
    ensures
        path_parts(render(abs, parts)) == parts,
        is_abs(render(abs, parts)) == abs,
{
    let j = join_parts(parts);
    let e = seq![Seq::<char>::empty()];
    if parts.len() > 0 {
        lemma_split_join(parts);
        lemma_norm_fold_clean_id(parts);
        assert(norm_fold(split_on(j, '/')) == parts);
    } else {
        assert(j =~= Seq::<char>::empty());
        assert(split_on(j, '/') =~= e);
        lemma_norm_fold_lead_empty(Seq::<Seq<char>>::empty());
        assert(e + Seq::<Seq<char>>::empty() =~= e);
        assert(norm_fold(split_on(j, '/')) =~= parts);
    }
    if abs {
        assert(render(abs, parts) =~= seq!['/'] + j);
        lemma_split_lead_sep(j);
        lemma_norm_fold_lead_empty(split_on(j, '/'));
        assert(path_parts(render(abs, parts)) == norm_fold(e + split_on(j, '/')));
    } else {
        assert(render(abs, parts) =~= j);
        if parts.len() > 0 {
            lemma_join_first(parts);
        }
    }
}

proof fn lemma_join_first(parts: Seq<Seq<char>>)
    requires
        parts.len() > 0,
        clean_parts(parts),
    ensures
        join_parts(parts).len() > 0,
        join_parts(parts)[0] == parts[0][0],
    decreases parts.len(),
{
    assert(clean_part(parts[0]));
    if parts.len() > 1 {
        let t = parts.drop_last();
        assert forall|i: int| 0 <= i < t.len() implies clean_part(#[trigger] t[i]) by {
            assert(t[i] == parts[i]);
        }
        lemma_join_first(t);
    }
    if parts[0][0] == '/' {
        assert(parts[0].contains('/'));
    }
}

/// Normalizing a normalized path changes nothing.
pub proof fn lemma_normalize_idempotent(s: Seq<char>)
    ensures
        normalized(normalized(s)) == normalized(s),
        path_parts(normalized(s)) == path_parts(s),
        is_abs(normalized(s)) == is_abs(s),
{
    lemma_parts_clean(s);
    lemma_render_parts(is_abs(s), path_parts(s));
}

/// A path lies within its own normalization, and the normalization lies
/// within the path.
pub proof fn lemma_within_normalized(s: Seq<char>)
    ensures
        within(s, normalized(s)),
        within(normalized(s), s),
{
    lemma_normalize_idempotent(s);
}

} // verus!
