//! Paths and roots: where a project's workflow files live, which roots are
//! watched, where the index database is, and what branch a repository is on.
//! Paths are strings with `/` between components.
use crate::text::{
    chars_of, concat2, concat3, has_prefix, owned, split_char, split_on_vec, starts_with, string_from,
    strip_prefix_all, strip_prefix_all_vec, trim, trim_str, trim_vec,
};

use vstd::prelude::*;

verus! {

// ---------------------------------------------------------------------------
// Joining paths
// ---------------------------------------------------------------------------

/// `Path::join` of a relative component: a separator is put between the two
/// unless the base is empty or already ends with one.
pub open spec fn join_path(base: Seq<char>, comp: Seq<char>, sep: char) -> Seq<char> {
    if base.len() == 0 || base.last() == sep || base.last() == '/' {
        base + comp
    } else {
        base + seq![sep] + comp
    }
}

/// `Path::join` of a relative component.
pub fn join_with(base: &str, comp: &str, sep: char) -> (r: String)
    ensures
        r@ == join_path(base@, comp@, sep),
{
    let n = base.unicode_len();
    if n == 0 {
        return owned(comp);
    }
    let last = base.get_char(n - 1);
    if last == sep || last == '/' {
        concat2(base, comp)
    } else {
        let mut r = owned(base);
        crate::text::push_char(&mut r, sep);
        r.append(comp);
        r
    }
}

/// `Path::join` with `/`.
pub fn join(base: &str, comp: &str) -> (r: String)
    ensures
        r@ == join_path(base@, comp@, '/'),
{
    join_with(base, comp, '/')
}

// ---------------------------------------------------------------------------
// Workflow files
// ---------------------------------------------------------------------------

/// Where a project's workflow files live.
pub struct WorkflowPaths {
    pub workflow_dir: String,
    pub local_dir: String,
    pub manifest_path: String,
    pub plan_path: String,
    pub decisions_path: String,
    pub runtime_path: String,
    pub sessions_path: String,
    pub activity_path: String,
    pub proposed_decisions_path: String,
    pub handoff_path: String,
}

pub open spec fn workflow_dir_of(root: Seq<char>) -> Seq<char> {
    join_path(root, ".project-workflow"@, '/')
}

pub open spec fn local_dir_of(root: Seq<char>) -> Seq<char> {
    join_path(workflow_dir_of(root), "local"@, '/')
}

/// `get_workflow_paths`: the shared files under `<root>/.project-workflow`
/// and the machine-local ones under its `local` directory.
pub fn get_workflow_paths(root: &str) -> (r: WorkflowPaths)
    ensures
        r.workflow_dir@ == workflow_dir_of(root@),
        r.local_dir@ == local_dir_of(root@),
        r.manifest_path@ == join_path(workflow_dir_of(root@), "manifest.yaml"@, '/'),
        r.plan_path@ == join_path(workflow_dir_of(root@), "plan.yaml"@, '/'),
        r.decisions_path@ == join_path(workflow_dir_of(root@), "decisions.md"@, '/'),
        r.runtime_path@ == join_path(local_dir_of(root@), "runtime.yaml"@, '/'),
        r.sessions_path@ == join_path(local_dir_of(root@), "sessions.yaml"@, '/'),
        r.activity_path@ == join_path(local_dir_of(root@), "activity.jsonl"@, '/'),
        r.proposed_decisions_path@ == join_path(local_dir_of(root@), "decisions-proposed.yaml"@, '/'),
        r.handoff_path@ == join_path(local_dir_of(root@), "handoff.md"@, '/'),
{
    let workflow_dir = join(root, ".project-workflow");
    let local_dir = join(workflow_dir.as_str(), "local");
    WorkflowPaths {
        manifest_path: join(workflow_dir.as_str(), "manifest.yaml"),
        plan_path: join(workflow_dir.as_str(), "plan.yaml"),
        decisions_path: join(workflow_dir.as_str(), "decisions.md"),
        runtime_path: join(local_dir.as_str(), "runtime.yaml"),
        sessions_path: join(local_dir.as_str(), "sessions.yaml"),
        activity_path: join(local_dir.as_str(), "activity.jsonl"),
        proposed_decisions_path: join(local_dir.as_str(), "decisions-proposed.yaml"),
        handoff_path: join(local_dir.as_str(), "handoff.md"),
        workflow_dir,
        local_dir,
    }
}

/// The prefix of every path inside a root's workflow directory.
pub fn workflow_dir_prefix(root: &str) -> (r: String)
    ensures
        r@ == root@ + "/"@ + ".project-workflow"@,
{
    concat3(root, "/", ".project-workflow")
}

/// Whether `candidate` is `root` or lies below it.
pub open spec fn root_or_descendant(candidate: Seq<char>, root: Seq<char>) -> bool {
    candidate == root || starts_with(candidate, root + "/"@)
}

/// `path_is_root_or_descendant`: `candidate` equals `root` or starts with
/// `root` followed by a separator; a sibling that merely shares the prefix
/// does not count.
pub fn path_is_root_or_descendant(candidate: &str, root: &str) -> (r: bool)
    ensures
        r == root_or_descendant(candidate@, root@),
{
    if crate::text::str_eq(candidate, root) {
        return true;
    }
    let c = chars_of(candidate);
    let p = concat2(root, "/");
    let pv = chars_of(p.as_str());
    has_prefix(&c, &pv)
}

/// `root_belongs_to_watched_root`, on roots already made canonical.
pub fn root_belongs_to_watched_root(root: &str, watched_root: &str) -> (r: bool)
    ensures
        r == root_or_descendant(root@, watched_root@),
{
    path_is_root_or_descendant(root, watched_root)
}

// ---------------------------------------------------------------------------
// The git branch
// ---------------------------------------------------------------------------

/// The branch named by the contents of `.git/HEAD`: the trimmed contents
/// when they do not start with `ref:`, else the last `/`-separated piece of
/// the trimmed reference.
pub open spec fn branch_of_head(head: Seq<char>) -> Seq<char> {
    let t = trim(head);
    if !starts_with(t, "ref:"@) {
        t
    } else {
        split_char(trim(strip_prefix_all(t, "ref:"@)), '/').last()
    }
}

/// `read_git_branch` once the file is read: `None` when there is no
/// `.git/HEAD`, else the branch it names.
pub fn read_git_branch(head: Option<&str>) -> (r: Option<String>)
    ensures
        match head {
            None => r is None,
            Some(h) => r matches Some(b) && b@ == branch_of_head(h@),
        },
{
    match head {
        None => None,
        Some(h) => {
            let t = trim_str(h);
            let tv = chars_of(t.as_str());
            let prefix = chars_of("ref:");
            if !has_prefix(&tv, &prefix) {
                return Some(t);
            }
            let rest = strip_prefix_all_vec(&tv, &prefix);
            let rest_t = trim_vec(&rest);
            let slash: Vec<char> = vec!['/'];
            assert(slash@ =~= seq!['/']);
            let pieces = split_on_vec(&rest_t, &slash);
            proof {
                crate::text::lemma_split_on_nonempty(rest_t@, slash@);
            }
            let last = &pieces[pieces.len() - 1];
            assert(pieces.deep_view().last() == last@);
            Some(string_from(last.as_slice()))
        },
    }
}

// ---------------------------------------------------------------------------
// The ignore file
// ---------------------------------------------------------------------------

/// The line the ignore file must hold.
pub open spec fn ignore_entry() -> Seq<char> {
    ".project-workflow/local/"@
}

/// What `ensure_gitignore_entry` writes: nothing when the file already
/// mentions the entry, else the file (empty when absent), a newline if it
/// does not end with one, and the entry with a newline.
pub open spec fn gitignore_update(current: Option<Seq<char>>) -> Option<Seq<char>> {
    let body = match current {
        Some(c) => c,
        None => Seq::empty(),
    };
    if crate::text::contains_seq(body, ignore_entry()) {
        None
    } else {
        let base = if body.len() == 0 || body.last() == '\n' {
            body
        } else {
            body + "\n"@
        };
        Some(base + ignore_entry() + "\n"@)
    }
}

/// The new contents of `.gitignore`, or `None` when it needs no change.
pub fn gitignore_with_entry(current: Option<&str>) -> (r: Option<String>)
    ensures
        crate::models::ostr(r) == gitignore_update(
            match current {
                Some(c) => Some(c@),
                None => None,
            },
        ),
{
    proof {
        reveal_strlit(".project-workflow/local/");
        reveal_strlit("\n");
    }
    let body = match current {
        Some(c) => owned(c),
        None => String::new(),
    };
    let bv = chars_of(body.as_str());
    let entry = chars_of(".project-workflow/local/");
    if crate::text::find_in(&bv, &entry).is_some() {
        proof {
            crate::text::lemma_find_from(bv@, entry@, 0);
        }
        return None;
    }
    proof {
        crate::text::lemma_find_from(bv@, entry@, 0);
    }
    let n = bv.len();
    let base = if n == 0 || bv[n - 1] == '\n' {
        body
    } else {
        concat2(body.as_str(), "\n")
    };
    Some(concat3(base.as_str(), ".project-workflow/local/", "\n"))
}

// ---------------------------------------------------------------------------
// Parents and relative paths
// ---------------------------------------------------------------------------

/// The index of the last `/` of `p`, if any.
pub open spec fn last_sep(p: Seq<char>) -> Option<int>
    decreases p.len(),
{
    if p.len() == 0 {
        None
    } else if p.last() == '/' {
        Some(p.len() - 1)
    } else {
        last_sep(p.drop_last())
    }
}

proof fn lemma_last_sep(p: Seq<char>)
    ensures
        last_sep(p) matches Some(i) ==> 0 <= i < p.len() && p[i] == '/',
    decreases p.len(),
{
    if p.len() > 0 && p.last() != '/' {
        lemma_last_sep(p.drop_last());
    }
}

/// `Path::parent` of a path without a trailing separator: what comes before
/// the last `/` (the root `/` itself when that is the first character), the
/// empty path for a bare name, and `None` for the empty path and for `/`.
pub open spec fn parent_of(p: Seq<char>) -> Option<Seq<char>> {
    match last_sep(p) {
        None => if p.len() == 0 {
            None
        } else {
            Some(Seq::empty())
        },
        Some(i) => if i == 0 {
            if p.len() == 1 {
                None
            } else {
                Some(seq!['/'])
            }
        } else {
            Some(p.take(i))
        },
    }
}

/// The path without its last component (std `Path::parent` on `/`-separated
/// text), if it has one.
pub fn parent(p: &str) -> (r: Option<String>)
    ensures
        crate::models::ostr(r) == parent_of(p@),
{
    let v = chars_of(p);
    let n = v.len();
    let mut i: usize = n;
    assert(p@.take(n as int) =~= p@);
    while i > 0 && v[i - 1] != '/'
        invariant
            i <= n,
            n == v@.len(),
            v@ == p@,
            last_sep(p@) == last_sep(p@.take(i as int)),
        decreases i,
    {
        assert(p@.take(i as int).drop_last() =~= p@.take(i as int - 1));
        i -= 1;
    }
    if i == 0 {
        assert(p@.take(0) =~= Seq::<char>::empty());
        if n == 0 {
            None
        } else {
            Some(String::new())
        }
    } else {
        assert(p@.take(i as int).last() == '/');
        if i == 1 {
            if n == 1 {
                None
            } else {
                let r = owned("/");
                proof {
                    reveal_strlit("/");
                }
                assert(r@ =~= seq!['/']);
                Some(r)
            }
        } else {
            let w = crate::text::sub_vec(&v, 0, i - 1);
            assert(w@ =~= p@.take(i - 1));
            Some(string_from(w.as_slice()))
        }
    }
}

/// `Path::strip_prefix`: the rest of `path` after `base` when `base` is
/// `path` or a leading run of its components.
pub open spec fn relative_to(path: Seq<char>, base: Seq<char>) -> Option<Seq<char>> {
    if path == base {
        Some(Seq::empty())
    } else if base.len() > 0 && base.last() == '/' && starts_with(path, base) {
        Some(path.skip(base.len() as int))
    } else if starts_with(path, base + seq!['/']) {
        Some(path.skip(base.len() as int + 1))
    } else {
        None
    }
}

/// The path relative to `base` when it is `base` or below it (std
/// `Path::strip_prefix` on `/`-separated text).
pub fn relative(path: &str, base: &str) -> (r: Option<String>)
    ensures
        crate::models::ostr(r) == relative_to(path@, base@),
{
    if crate::text::str_eq(path, base) {
        return Some(String::new());
    }
    let pv = chars_of(path);
    let bv = chars_of(base);
    let nb = bv.len();
    if nb > 0 && bv[nb - 1] == '/' && has_prefix(&pv, &bv) {
        let w = crate::text::sub_vec(&pv, nb, pv.len());
        assert(w@ =~= path@.skip(nb as int));
        return Some(string_from(w.as_slice()));
    }
    let mut bs = bv.clone();
    bs.push('/');
    assert(bs@ =~= base@ + seq!['/']);
    if has_prefix(&pv, &bs) {
        assert(bs@.len() == nb + 1);
        let pl = pv.len();
        assert(nb + 1 <= pl);
        let w = crate::text::sub_vec(&pv, nb + 1, pl);
        assert(w@ =~= path@.skip(nb as int + 1));
        return Some(string_from(w.as_slice()));
    }
    None
}

// ---------------------------------------------------------------------------
// Comparing paths
// ---------------------------------------------------------------------------

/// The text with each separator written `/` (on Windows `\\` separates too).
pub open spec fn slashed(p: Seq<char>, windows: bool) -> Seq<char> {
    p.map_values(|c: char| if windows && c == '\\' { '/' } else { c })
}

/// The predicate "the piece names a directory": neither empty nor `.`.
pub open spec fn named_piece() -> spec_fn(Seq<char>) -> bool {
    |x: Seq<char>| x.len() > 0 && x != "."@
}

/// What `Path`'s comparison looks at: whether the path starts at the root,
/// whether it starts with a `.` component, and its other components, so
/// that repeated and trailing separators and inner `.` components do not
/// count.
pub open spec fn path_key(p: Seq<char>, windows: bool) -> (bool, bool, Seq<Seq<char>>) {
    let q = slashed(p, windows);
    let rooted = q.len() > 0 && q[0] == '/';
    let dot = !rooted && (q == "."@ || starts_with(q, "./"@));
    (rooted, dot, split_char(q, '/').filter(named_piece()))
}

/// Whether two paths are equal as `Path`s are: component by component.
pub open spec fn same_path(a: Seq<char>, b: Seq<char>, windows: bool) -> bool {
    path_key(a, windows) == path_key(b, windows)
}

fn slashed_vec(p: &str, windows: bool) -> (r: Vec<char>)
    ensures
        r@ == slashed(p@, windows),
{
    let v = chars_of(p);
    let mut out: Vec<char> = Vec::new();
    let mut i: usize = 0;
    while i < v.len()
        invariant
            i <= v@.len(),
            v@ == p@,
            out@ == slashed(p@, windows).take(i as int),
        decreases v@.len() - i,
    {
        let c = v[i];
        out.push(if windows && c == '\\' { '/' } else { c });
        assert(out@ =~= slashed(p@, windows).take(i + 1));
        i += 1;
    }
    assert(slashed(p@, windows).take(v@.len() as int) =~= slashed(p@, windows));
    out
}

/// The components [`path_key`] keeps, in order.
fn named_pieces(q: &Vec<char>) -> (r: Vec<Vec<char>>)
    ensures
        r.deep_view() == split_char(q@, '/').filter(named_piece()),
{
    let sep = vec!['/'];
    assert(sep@ =~= seq!['/']);
    let pieces = split_on_vec(q, &sep);
    let ghost ps = pieces.deep_view();
    let mut out: Vec<Vec<char>> = Vec::new();
    let mut k: usize = 0;
    let dot = vec!['.'];
    proof {
        reveal_strlit(".");
    }
    assert(dot@ =~= "."@);
    while k < pieces.len()
        invariant
            ps == pieces.deep_view(),
            ps == split_char(q@, '/'),
            dot@ == "."@,
            k <= ps.len(),
            out.deep_view() == ps.take(k as int).filter(named_piece()),
        decreases ps.len() - k,
    {
        proof {
            reveal_with_fuel(Seq::<_>::filter, 1);
            assert(ps.take(k + 1).drop_last() =~= ps.take(k as int));
            assert(ps[k as int] == pieces@[k as int]@);
        }
        let x = &pieces[k];
        if x.len() > 0 && !crate::text::vec_eq(x, &dot) {
            let ghost before = out.deep_view();
            out.push(x.clone());
            proof {
                assert(out.deep_view() =~= before.push(x@));
            }
        }
        k += 1;
    }
    assert(ps.take(ps.len() as int) =~= ps);
    out
}

/// Whether two paths are equal component by component (`Path`'s `==`).
pub fn paths_equal(a: &str, b: &str, windows: bool) -> (r: bool)
    ensures
        r == same_path(a@, b@, windows),
{
    let qa = slashed_vec(a, windows);
    let qb = slashed_vec(b, windows);
    let ra = qa.len() > 0 && qa[0] == '/';
    let rb = qb.len() > 0 && qb[0] == '/';
    let dot = vec!['.'];
    let dot_slash = vec!['.', '/'];
    proof {
        reveal_strlit(".");
        reveal_strlit("./");
    }
    assert(dot@ =~= "."@);
    assert(dot_slash@ =~= "./"@);
    let da = !ra && (crate::text::vec_eq(&qa, &dot) || has_prefix(&qa, &dot_slash));
    let db = !rb && (crate::text::vec_eq(&qb, &dot) || has_prefix(&qb, &dot_slash));
    assert(path_key(a@, windows).0 == ra && path_key(a@, windows).1 == da);
    assert(path_key(b@, windows).0 == rb && path_key(b@, windows).1 == db);
    if ra != rb || da != db {
        return false;
    }
    let pa = named_pieces(&qa);
    let pb = named_pieces(&qb);
    assert(pa.deep_view().len() == pa@.len() && pb.deep_view().len() == pb@.len());
    assert(path_key(a@, windows).2 == pa.deep_view() && path_key(b@, windows).2 == pb.deep_view());
    if pa.len() != pb.len() {
        assert(path_key(a@, windows).2.len() != path_key(b@, windows).2.len());
        return false;
    }
    let mut k: usize = 0;
    while k < pa.len()
        invariant
            pa.deep_view().len() == pb.deep_view().len(),
            path_key(a@, windows).2 == pa.deep_view(),
            path_key(b@, windows).2 == pb.deep_view(),
            path_key(a@, windows).0 == path_key(b@, windows).0,
            path_key(a@, windows).1 == path_key(b@, windows).1,
            k <= pa@.len(),
            forall|m: int| 0 <= m < k ==> pa.deep_view()[m] == pb.deep_view()[m],
        decreases pa@.len() - k,
    {
        assert(pa.deep_view()[k as int] == pa@[k as int]@);
        assert(pb.deep_view()[k as int] == pb@[k as int]@);
        if !crate::text::vec_eq(&pa[k], &pb[k]) {
            assert(path_key(a@, windows).2[k as int] != path_key(b@, windows).2[k as int]);
            return false;
        }
        k += 1;
    }
    assert(pa.deep_view() =~= pb.deep_view());
    true
}

/// Whether one of the entries is the directory, compared as paths.
pub open spec fn path_listed(entries: Seq<Seq<char>>, dir: Seq<char>, windows: bool) -> bool {
    exists|i: int| 0 <= i < entries.len() && same_path(#[trigger] entries[i], dir, windows)
}

/// Whether one of the entries is the directory, compared as paths.
pub fn path_in(entries: &Vec<String>, dir: &str, windows: bool) -> (r: bool)
    ensures
        r == path_listed(entries.deep_view(), dir@, windows),
{
    let ghost es = entries.deep_view();
    let mut k: usize = 0;
    while k < entries.len()
        invariant
            es == entries.deep_view(),
            k <= es.len(),
            forall|m: int| 0 <= m < k ==> !same_path(#[trigger] es[m], dir@, windows),
        decreases es.len() - k,
    {
        assert(es[k as int] == entries@[k as int]@);
        if paths_equal(entries[k].as_str(), dir, windows) {
            return true;
        }
        k += 1;
    }
    false
}

} // verus!
