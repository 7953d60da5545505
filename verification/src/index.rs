//! The project index: which watched roots still wait for a first scan, which
//! roots a first run takes over, which watched root a project belongs to,
//! which directories a refresh surfaces as projects, and what it stores for
//! each of them. The SQLite tables themselves are kept by the caller; every
//! decision about their rows is made here.
use crate::ids::used_has;
use crate::models::{ostr, DiscoveredProject, DiscoverySource, ProjectIndexRecord, ProjectSummary};
use crate::paths::{relative, relative_to, root_or_descendant, path_is_root_or_descendant};
use crate::roots::{normal_form, normalize_roots};
use crate::text::{blank, chars_of, concat3, is_blank, starts_with, string_from};

use vstd::prelude::*;

verus! {

// ---------------------------------------------------------------------------
// Watched roots
// ---------------------------------------------------------------------------

/// The watched roots, normalised, that no scan has been recorded for.
pub open spec fn uncovered(roots: Seq<Seq<char>>, scanned: Seq<Seq<char>>) -> Seq<Seq<char>> {
    normal_form(roots).filter(|w: Seq<char>| !scanned.contains(w))
}

/// `missing_watched_root_coverage`: of the watched roots (already made
/// canonical), normalised, those for which the index records no scan.
pub fn missing_watched_root_coverage(roots: &Vec<String>, scanned: &Vec<String>) -> (r: Vec<String>)
    ensures
        r.deep_view() == uncovered(roots.deep_view(), scanned.deep_view()),
{
    let norm = normalize_roots(roots);
    let ghost ns = norm.deep_view();
    let ghost sc = scanned.deep_view();
    let ghost pred = |w: Seq<char>| !sc.contains(w);
    let mut out: Vec<String> = Vec::new();
    let mut k: usize = 0;
    while k < norm.len()
        invariant
            ns == norm.deep_view(),
            sc == scanned.deep_view(),
            pred == (|w: Seq<char>| !sc.contains(w)),
            k <= norm@.len(),
            out.deep_view() == ns.take(k as int).filter(pred),
        decreases norm@.len() - k,
    {
        proof {
            reveal_with_fuel(Seq::<_>::filter, 1);
            assert(ns.take(k + 1).drop_last() =~= ns.take(k as int));
            assert(ns[k as int] == norm@[k as int]@);
        }
        let ghost before = out.deep_view();
        if !used_has(scanned, &norm[k]) {
            out.push(norm[k].clone());
            assert(out.deep_view() =~= before.push(ns[k as int]));
        } else {
            assert(out.deep_view() =~= before);
        }
        k += 1;
    }
    assert(ns.take(norm@.len() as int) =~= ns);
    out
}

/// The watched roots a run ends with: those the index already keeps, else
/// the roots the index was seeded with together with those of the legacy
/// settings file, normalised.
pub open spec fn migrated(stored: Seq<Seq<char>>, seeded: Seq<Seq<char>>, legacy: Seq<Seq<char>>) -> Seq<Seq<char>> {
    if stored.len() > 0 {
        stored
    } else {
        normal_form(seeded + legacy)
    }
}

/// `migrate_legacy_watched_roots`: the roots the index keeps (`stored`)
/// win; without any, the seeded roots of the index (those of its projects
/// and of its recorded scans) and the legacy settings' roots, all canonical,
/// are normalised and become the watched roots.
pub fn migrate_legacy_watched_roots(stored: Vec<String>, seeded: &Vec<String>, legacy: &Vec<String>) -> (r: Vec<
    String,
>)
    ensures
        r.deep_view() == migrated(stored.deep_view(), seeded.deep_view(), legacy.deep_view()),
        stored@.len() > 0 ==> r == stored,
{
    if stored.len() > 0 {
        return stored;
    }
    let mut all: Vec<String> = Vec::new();
    let mut k: usize = 0;
    while k < seeded.len()
        invariant
            k <= seeded@.len(),
            all.deep_view() == seeded.deep_view().take(k as int),
        decreases seeded@.len() - k,
    {
        let ghost before = all.deep_view();
        all.push(seeded[k].clone());
        assert(seeded.deep_view()[k as int] == seeded@[k as int]@);
        assert(all.deep_view() =~= before.push(seeded.deep_view()[k as int]));
        assert(all.deep_view() =~= seeded.deep_view().take(k + 1));
        k += 1;
    }
    assert(seeded.deep_view().take(seeded@.len() as int) =~= seeded.deep_view());
    let mut j: usize = 0;
    while j < legacy.len()
        invariant
            j <= legacy@.len(),
            all.deep_view() == seeded.deep_view() + legacy.deep_view().take(j as int),
        decreases legacy@.len() - j,
    {
        let ghost before = all.deep_view();
        all.push(legacy[j].clone());
        assert(legacy.deep_view()[j as int] == legacy@[j as int]@);
        assert(all.deep_view() =~= before.push(legacy.deep_view()[j as int]));
        assert(all.deep_view() =~= seeded.deep_view() + legacy.deep_view().take(j + 1));
        j += 1;
    }
    assert(legacy.deep_view().take(legacy@.len() as int) =~= legacy.deep_view());
    normalize_roots(&all)
}

// ---------------------------------------------------------------------------
// Which watched root a project belongs to
// ---------------------------------------------------------------------------

/// Whether the watched root `w` holds `root`: it is `root` or one of its
/// ancestors.
pub open spec fn holds(w: Seq<char>, root: Seq<char>) -> bool {
    root_or_descendant(root, w)
}

/// Whether `w` is the most specific of the watched roots that hold `root`:
/// one of them, holding it, and no shorter than any other that does.
pub open spec fn most_specific(w: Seq<char>, root: Seq<char>, watched: Seq<Seq<char>>) -> bool {
    &&& watched.contains(w)
    &&& holds(w, root)
    &&& forall|i: int| 0 <= i < watched.len() && holds(#[trigger] watched[i], root) ==> watched[i].len() <= w.len()
}

/// The most specific watched root that holds `root`, when any does.
pub open spec fn owner_of(root: Seq<char>, watched: Seq<Seq<char>>) -> Option<Seq<char>> {
    if exists|w: Seq<char>| most_specific(w, root, watched) {
        Some(choose|w: Seq<char>| most_specific(w, root, watched))
    } else {
        None
    }
}

/// Two watched roots that both hold `root` and are equally long are the same.
pub proof fn lemma_holders_of_equal_length(a: Seq<char>, b: Seq<char>, root: Seq<char>)
    requires
        holds(a, root),
        holds(b, root),
        a.len() == b.len(),
    ensures
        a == b,
{
    reveal_strlit("/");
    let sa = a + "/"@;
    let sb = b + "/"@;
    assert(sa.len() == a.len() + 1);
    assert(sb.len() == b.len() + 1);
    if a != root && b != root {
        assert(root.subrange(0, sa.len() as int) == sa);
        assert(root.subrange(0, sb.len() as int) == sb);
        assert forall|i: int| 0 <= i < a.len() implies a[i] == b[i] by {
            assert(a[i] == sa[i]);
            assert(b[i] == sb[i]);
            assert(sa[i] == root[i]);
            assert(sb[i] == root[i]);
        }
        assert(a =~= b);
    }
}

/// The most specific watched root is unique.
pub proof fn lemma_most_specific_unique(a: Seq<char>, b: Seq<char>, root: Seq<char>, watched: Seq<Seq<char>>)
    requires
        most_specific(a, root, watched),
        most_specific(b, root, watched),
    ensures
        a == b,
{
    let i = choose|i: int| 0 <= i < watched.len() && watched[i] == a;
    let j = choose|j: int| 0 <= j < watched.len() && watched[j] == b;
    assert(holds(watched[i], root));
    assert(holds(watched[j], root));
    lemma_holders_of_equal_length(a, b, root);
}

/// The number of characters of a string.
fn char_count(s: &String) -> (r: usize)
    ensures
        r == s@.len(),
{
    chars_of(s.as_str()).len()
}

/// `most_specific_watched_root`: the longest of the watched roots that are
/// the project's root or one of its ancestors; `None` when none is.
pub fn most_specific_watched_root(root: &str, watched: &Vec<String>) -> (r: Option<String>)
    ensures
        match r {
            Some(w) => most_specific(w@, root@, watched.deep_view()),
            None => forall|i: int| 0 <= i < watched@.len() ==> !holds(#[trigger] watched.deep_view()[i], root@),
        },
        ostr(r) == owner_of(root@, watched.deep_view()),
{
    let ghost ws = watched.deep_view();
    let mut best: Option<usize> = None;
    let mut best_len: usize = 0;
    let mut k: usize = 0;
    while k < watched.len()
        invariant
            ws == watched.deep_view(),
            k <= watched@.len(),
            match best {
                Some(b) => {
                    &&& b < k
                    &&& holds(ws[b as int], root@)
                    &&& best_len == ws[b as int].len()
                    &&& forall|i: int| 0 <= i < k && holds(#[trigger] ws[i], root@) ==> ws[i].len() <= best_len
                },
                None => forall|i: int| 0 <= i < k ==> !holds(#[trigger] ws[i], root@),
            },
        decreases watched@.len() - k,
    {
        assert(ws[k as int] == watched@[k as int]@);
        if path_is_root_or_descendant(root, watched[k].as_str()) {
            let n = char_count(&watched[k]);
            match best {
                Some(_) => {
                    if n > best_len {
                        best = Some(k);
                        best_len = n;
                    }
                },
                None => {
                    best = Some(k);
                    best_len = n;
                },
            }
        }
        k += 1;
    }
    match best {
        Some(b) => {
            assert(ws.contains(ws[b as int]));
            let r = watched[b].clone();
            proof {
                assert(most_specific(r@, root@, ws));
                let c = choose|w: Seq<char>| most_specific(w, root@, ws);
                lemma_most_specific_unique(c, r@, root@, ws);
            }
            Some(r)
        },
        None => {
            proof {
                if exists|w: Seq<char>| most_specific(w, root@, ws) {
                    let c = choose|w: Seq<char>| most_specific(w, root@, ws);
                    let i = choose|i: int| 0 <= i < ws.len() && ws[i] == c;
                    assert(holds(ws[i], root@));
                }
            }
            None
        },
    }
}

/// The watched root a project is indexed under: the one given, when not
/// blank; else the one the index already records for it; else the most
/// specific of the watched roots that hold it.
pub open spec fn project_watched_root(
    explicit: Option<Seq<char>>,
    stored: Option<Seq<char>>,
    owner: Option<Seq<char>>,
) -> Option<Seq<char>> {
    match explicit {
        Some(e) if !is_blank(e) => Some(e),
        _ => match stored {
            Some(s) => Some(s),
            None => owner,
        },
    }
}

/// `resolve_project_watched_root`, on canonical paths: the explicit watched
/// root, else the one the index stores for the project, else the most
/// specific watched root that holds it (`None` when no watched root does).
pub fn resolve_project_watched_root(
    root: &str,
    explicit: Option<String>,
    stored: Option<String>,
    watched: &Vec<String>,
) -> (r: Option<String>)
    ensures
        explicit is Some && !is_blank(ostr(explicit)->0) ==> r == explicit,
        !(explicit is Some && !is_blank(ostr(explicit)->0)) && stored is Some ==> r == stored,
        !(explicit is Some && !is_blank(ostr(explicit)->0)) && stored is None ==> match r {
            Some(w) => most_specific(w@, root@, watched.deep_view()),
            None => forall|i: int| 0 <= i < watched@.len() ==> !holds(#[trigger] watched.deep_view()[i], root@),
        },
        ostr(r) == project_watched_root(ostr(explicit), ostr(stored), owner_of(root@, watched.deep_view())),
{
    if let Some(e) = &explicit {
        if !blank(e.as_str()) {
            return explicit;
        }
    }
    if stored.is_some() {
        return stored;
    }
    most_specific_watched_root(root, watched)
}

// ---------------------------------------------------------------------------
// Rows that a refresh marks missing
// ---------------------------------------------------------------------------

/// Whether a refresh marks the indexed row missing: it belongs to one of the
/// refreshed watched roots and its root was not found again.
pub open spec fn marks_missing(rec: ProjectIndexRecord, watched: Seq<Seq<char>>, present: Seq<Seq<char>>) -> bool {
    watched.contains(rec.watched_root@) && !present.contains(rec.summary.root@)
}

/// The roots of the rows a refresh marks missing, in the rows' order.
pub open spec fn missing_rows(
    rows: Seq<ProjectIndexRecord>,
    watched: Seq<Seq<char>>,
    present: Seq<Seq<char>>,
) -> Seq<Seq<char>> {
    rows.filter(|rec: ProjectIndexRecord| marks_missing(rec, watched, present)).map_values(
        |rec: ProjectIndexRecord| rec.summary.root@,
    )
}

/// `mark_missing_projects`: the roots of the indexed rows under the watched
/// roots that the refresh did not find again; those rows are to be set stale
/// and missing, and no other.
pub fn mark_missing_projects(rows: &Vec<ProjectIndexRecord>, watched: &Vec<String>, present: &Vec<String>) -> (r: Vec<
    String,
>)
    ensures
        r.deep_view() == missing_rows(rows@, watched.deep_view(), present.deep_view()),
{
    let ghost ws = watched.deep_view();
    let ghost ps = present.deep_view();
    let ghost pred = |rec: ProjectIndexRecord| marks_missing(rec, ws, ps);
    let ghost rs = rows@;
    let mut out: Vec<String> = Vec::new();
    let mut k: usize = 0;
    while k < rows.len()
        invariant
            ws == watched.deep_view(),
            ps == present.deep_view(),
            rs == rows@,
            pred == (|rec: ProjectIndexRecord| marks_missing(rec, ws, ps)),
            k <= rows@.len(),
            out.deep_view() == rs.take(k as int).filter(pred).map_values(
                |rec: ProjectIndexRecord| rec.summary.root@,
            ),
        decreases rows@.len() - k,
    {
        proof {
            reveal_with_fuel(Seq::<_>::filter, 1);
            assert(rs.take(k + 1).drop_last() =~= rs.take(k as int));
        }
        let ghost before = out.deep_view();
        let rec = &rows[k];
        if used_has(watched, &rec.watched_root) && !used_has(present, &rec.summary.root) {
            out.push(rec.summary.root.clone());
            assert(out.deep_view() =~= before.push(rs[k as int].summary.root@));
            assert(rs.take(k + 1).filter(pred) == rs.take(k as int).filter(pred).push(rs[k as int]));
            assert(out.deep_view() =~= rs.take(k + 1).filter(pred).map_values(
                |rec: ProjectIndexRecord| rec.summary.root@,
            ));
        } else {
            assert(rs.take(k + 1).filter(pred) == rs.take(k as int).filter(pred));
            assert(out.deep_view() =~= before);
        }
        k += 1;
    }
    assert(rs.take(rows@.len() as int) =~= rs);
    out
}

// ---------------------------------------------------------------------------
// Which directories a refresh surfaces as projects
// ---------------------------------------------------------------------------

/// The first component of a relative path: everything before its first `/`.
pub open spec fn head_piece(s: Seq<char>) -> Seq<char>
    decreases s.len(),
{
    if s.len() == 0 {
        s
    } else if s[0] == '/' {
        Seq::empty()
    } else {
        seq![s[0]] + head_piece(s.drop_first())
    }
}

proof fn lemma_head_piece(s: Seq<char>, k: int)
    requires
        0 <= k <= s.len(),
        forall|j: int| 0 <= j < k ==> s[j] != '/',
        k == s.len() || s[k] == '/',
    ensures
        head_piece(s) == s.take(k),
    decreases k,
{
    if k == 0 {
        assert(s.take(0) =~= Seq::<char>::empty());
    } else {
        let t = s.drop_first();
        assert forall|j: int| 0 <= j < k - 1 implies t[j] != '/' by {
            assert(t[j] == s[j + 1]);
        }
        if k < s.len() {
            assert(t[k - 1] == s[k]);
        }
        lemma_head_piece(t, k - 1);
        assert(s.take(k) =~= seq![s[0]] + t.take(k - 1));
    }
}

/// The project directory that a session working in `cwd` backs, given the
/// watched root `w` that holds `cwd`: the child of `w` that `cwd` lies in
/// (or is), unless it is hidden; nothing for `w` itself.
pub open spec fn surfaced(cwd: Seq<char>, w: Seq<char>) -> Option<Seq<char>> {
    match relative_to(cwd, w) {
        Some(rel) => {
            let h = head_piece(rel);
            if h.len() == 0 || h[0] == '.' {
                None
            } else {
                Some(w + "/"@ + h)
            }
        },
        None => None,
    }
}

/// The project directory a session working in `cwd` backs: under the most
/// specific watched root that holds `cwd`.
pub open spec fn surfaced_in(cwd: Seq<char>, watched: Seq<Seq<char>>) -> Option<Seq<char>> {
    match owner_of(cwd, watched) {
        Some(w) => surfaced(cwd, w),
        None => None,
    }
}

/// The first component of a relative path.
fn first_component(rel: &str) -> (r: String)
    ensures
        r@ == head_piece(rel@),
{
    let v = chars_of(rel);
    let mut k: usize = 0;
    while k < v.len() && v[k] != '/'
        invariant
            v@ == rel@,
            k <= v@.len(),
            forall|j: int| 0 <= j < k ==> v@[j] != '/',
        decreases v@.len() - k,
    {
        k += 1;
    }
    proof {
        lemma_head_piece(rel@, k as int);
    }
    let w = crate::text::sub_vec(&v, 0, k);
    assert(w@ =~= rel@.take(k as int));
    string_from(w.as_slice())
}

/// The project directory that a session working in `cwd` backs, when a
/// watched root holds `cwd` and the child of it that `cwd` lies in is not
/// hidden.
pub fn surfaced_root(cwd: &str, watched: &Vec<String>) -> (r: Option<String>)
    ensures
        ostr(r) == surfaced_in(cwd@, watched.deep_view()),
{
    let w = match most_specific_watched_root(cwd, watched) {
        Some(w) => w,
        None => return None,
    };
    let rel = match relative(cwd, w.as_str()) {
        Some(rel) => rel,
        None => return None,
    };
    let head = first_component(rel.as_str());
    let hv = chars_of(head.as_str());
    if hv.len() == 0 || hv[0] == '.' {
        return None;
    }
    Some(concat3(w.as_str(), "/", head.as_str()))
}

/// A surfaced project as its root, what backs it, and the working directory
/// behind it.
pub type Found = (Seq<char>, DiscoverySource, Option<Seq<char>>);

/// A discovered project as a [`Found`].
pub open spec fn found_view(d: DiscoveredProject) -> Found {
    (d.root@, d.discovery_source, ostr(d.discovery_path))
}

/// Whether a project with the root is already in the list.
pub open spec fn listed(acc: Seq<Found>, root: Seq<char>) -> bool {
    exists|i: int| 0 <= i < acc.len() && (#[trigger] acc[i]).0 == root
}

/// The list with the project added, unless its root is already there: the
/// first source to surface a root keeps it.
pub open spec fn add_found(acc: Seq<Found>, f: Found) -> Seq<Found> {
    if listed(acc, f.0) {
        acc
    } else {
        acc.push(f)
    }
}

/// The projects whose own workflow files a refresh found, in order.
pub open spec fn parallel_found(initialized: Seq<Seq<char>>) -> Seq<Found>
    decreases initialized.len(),
{
    if initialized.len() == 0 {
        Seq::empty()
    } else {
        add_found(
            parallel_found(initialized.drop_last()),
            (initialized.last(), DiscoverySource::Parallel, None),
        )
    }
}

/// What a Codex thread working in `cwd` adds to the list.
pub open spec fn codex_step(acc: Seq<Found>, cwd: Seq<char>, watched: Seq<Seq<char>>) -> Seq<Found> {
    match surfaced_in(cwd, watched) {
        Some(root) => add_found(
            acc,
            (root, DiscoverySource::Codex, if cwd == root { None } else { Some(cwd) }),
        ),
        None => acc,
    }
}

/// The list after the Codex threads working in `cwds`, in order.
pub open spec fn codex_found(start: Seq<Found>, cwds: Seq<Seq<char>>, watched: Seq<Seq<char>>) -> Seq<Found>
    decreases cwds.len(),
{
    if cwds.len() == 0 {
        start
    } else {
        codex_step(codex_found(start, cwds.drop_last(), watched), cwds.last(), watched)
    }
}

/// The projects a refresh surfaces: first those with their own workflow
/// files, then those a Codex thread works in.
pub open spec fn discovered(
    watched: Seq<Seq<char>>,
    initialized: Seq<Seq<char>>,
    cwds: Seq<Seq<char>>,
) -> Seq<Found> {
    codex_found(parallel_found(initialized), cwds, watched)
}

/// Whether a project with the root is already in the list.
fn listed_exec(acc: &Vec<DiscoveredProject>, root: &String) -> (r: bool)
    ensures
        r == listed(acc@.map_values(|d: DiscoveredProject| found_view(d)), root@),
{
    let ghost fs = acc@.map_values(|d: DiscoveredProject| found_view(d));
    let mut k: usize = 0;
    while k < acc.len()
        invariant
            fs == acc@.map_values(|d: DiscoveredProject| found_view(d)),
            k <= acc@.len(),
            forall|j: int| 0 <= j < k ==> (#[trigger] fs[j]).0 != root@,
        decreases acc@.len() - k,
    {
        if crate::text::str_eq(acc[k].root.as_str(), root.as_str()) {
            assert(fs[k as int].0 == root@);
            return true;
        }
        k += 1;
    }
    false
}

/// Adds the project unless its root is already listed.
fn push_found(acc: &mut Vec<DiscoveredProject>, d: DiscoveredProject)
    ensures
        final(acc)@.map_values(|d: DiscoveredProject| found_view(d)) == add_found(
            old(acc)@.map_values(|d: DiscoveredProject| found_view(d)),
            found_view(d),
        ),
{
    if !listed_exec(acc, &d.root) {
        let ghost before = acc@;
        acc.push(d);
        assert(acc@.map_values(|d: DiscoveredProject| found_view(d)) =~= before.map_values(
            |d: DiscoveredProject| found_view(d),
        ).push(found_view(d)));
    }
}

/// `discover_project_roots`: the directories under the watched roots that a
/// refresh surfaces as projects. `initialized` are the directories the walk
/// of the watched roots found workflow files in; `codex_cwds` the working
/// directories of the Codex threads that are not archived. A directory
/// backed by neither is no project, and each root is listed once, with the
/// first source that surfaced it.
pub fn discover_project_roots(
    watched: &Vec<String>,
    initialized: &Vec<String>,
    codex_cwds: &Vec<String>,
) -> (r: Vec<DiscoveredProject>)
    ensures
        r@.map_values(|d: DiscoveredProject| found_view(d)) == discovered(
            watched.deep_view(),
            initialized.deep_view(),
            codex_cwds.deep_view(),
        ),
{
    let ghost ini = initialized.deep_view();
    let ghost cw = codex_cwds.deep_view();
    let ghost ws = watched.deep_view();
    let mut acc: Vec<DiscoveredProject> = Vec::new();
    let mut k: usize = 0;
    assert(acc@.map_values(|d: DiscoveredProject| found_view(d)) =~= parallel_found(ini.take(0)));
    while k < initialized.len()
        invariant
            ini == initialized.deep_view(),
            k <= initialized@.len(),
            acc@.map_values(|d: DiscoveredProject| found_view(d)) == parallel_found(ini.take(k as int)),
        decreases initialized@.len() - k,
    {
        proof {
            assert(ini.take(k + 1).drop_last() =~= ini.take(k as int));
            assert(ini[k as int] == initialized@[k as int]@);
        }
        let d = DiscoveredProject {
            root: initialized[k].clone(),
            discovery_source: DiscoverySource::Parallel,
            discovery_path: None,
        };
        push_found(&mut acc, d);
        k += 1;
    }
    assert(ini.take(initialized@.len() as int) =~= ini);
    let ghost start = parallel_found(ini);
    let mut j: usize = 0;
    assert(cw.take(0) =~= Seq::<Seq<char>>::empty());
    while j < codex_cwds.len()
        invariant
            ini == initialized.deep_view(),
            cw == codex_cwds.deep_view(),
            ws == watched.deep_view(),
            start == parallel_found(ini),
            j <= codex_cwds@.len(),
            acc@.map_values(|d: DiscoveredProject| found_view(d)) == codex_found(start, cw.take(j as int), ws),
        decreases codex_cwds@.len() - j,
    {
        proof {
            assert(cw.take(j + 1).drop_last() =~= cw.take(j as int));
            assert(cw[j as int] == codex_cwds@[j as int]@);
        }
        let cwd = &codex_cwds[j];
        match surfaced_root(cwd.as_str(), watched) {
            Some(root) => {
                let path = if crate::text::str_eq(cwd.as_str(), root.as_str()) {
                    None
                } else {
                    Some(cwd.clone())
                };
                let d = DiscoveredProject { root, discovery_source: DiscoverySource::Codex, discovery_path: path };
                push_found(&mut acc, d);
            },
            None => {},
        }
        j += 1;
    }
    assert(cw.take(codex_cwds@.len() as int) =~= cw);
    acc
}

// ---------------------------------------------------------------------------
// What a refresh stores
// ---------------------------------------------------------------------------

/// The summary with its provenance replaced.
pub open spec fn with_provenance(
    s: ProjectSummary,
    source: Option<DiscoverySource>,
    path: Option<String>,
) -> ProjectSummary {
    ProjectSummary { discovery_source: source, discovery_path: path, ..s }
}

/// The summary marked stale and missing.
pub open spec fn marked_missing(s: ProjectSummary) -> ProjectSummary {
    ProjectSummary { stale: true, missing: true, ..s }
}

/// The summary a refresh stores for a surfaced project: what the index
/// held for an initialized project whose root is gone, marked missing; else
/// the project's current summary; either with the provenance of the refresh.
pub open spec fn stored_summary(
    existing: Option<ProjectSummary>,
    root_exists: bool,
    current: ProjectSummary,
    found: DiscoveredProject,
) -> ProjectSummary {
    let base = match existing {
        Some(e) => if e.initialized && !root_exists {
            marked_missing(e)
        } else {
            current
        },
        None => current,
    };
    with_provenance(base, Some(found.discovery_source), found.discovery_path)
}

/// What `list_projects` stores for a surfaced project, given the index's
/// row for its root (when there is one), whether the root exists, and the
/// project's current summary.
pub fn discovered_summary(
    existing: Option<ProjectSummary>,
    root_exists: bool,
    current: ProjectSummary,
    found: DiscoveredProject,
) -> (r: ProjectSummary)
    ensures
        r == stored_summary(existing, root_exists, current, found),
{
    let mut base = match existing {
        Some(e) => if e.initialized && !root_exists {
            let mut e = e;
            e.stale = true;
            e.missing = true;
            e
        } else {
            current
        },
        None => current,
    };
    base.discovery_source = Some(found.discovery_source);
    base.discovery_path = found.discovery_path;
    base
}

/// The summary a snapshot shows for an indexed row: the project's current
/// summary with the provenance the row records, when the root still exists;
/// else the row's own summary, marked missing.
pub open spec fn snapshot_summary(record: ProjectIndexRecord, current: Option<ProjectSummary>) -> ProjectSummary {
    match current {
        Some(s) => with_provenance(s, record.summary.discovery_source, record.summary.discovery_path),
        None => marked_missing(record.summary),
    }
}

/// `refreshed_indexed_summary`: `current` is the project's summary read
/// anew when its root exists, `None` when it does not.
pub fn refreshed_indexed_summary(record: ProjectIndexRecord, current: Option<ProjectSummary>) -> (r: ProjectSummary)
    ensures
        r == snapshot_summary(record, current),
{
    match current {
        Some(s) => {
            let mut s = s;
            s.discovery_source = record.summary.discovery_source;
            s.discovery_path = record.summary.discovery_path;
            s
        },
        None => {
            let mut s = record.summary;
            s.stale = true;
            s.missing = true;
            s
        },
    }
}

// ---------------------------------------------------------------------------
// Laws
// ---------------------------------------------------------------------------

/// No root is listed twice.
pub open spec fn roots_unique(acc: Seq<Found>) -> bool {
    forall|i: int, j: int| 0 <= i < j < acc.len() ==> (#[trigger] acc[i]).0 != (#[trigger] acc[j]).0
}

proof fn lemma_add_found_unique(acc: Seq<Found>, f: Found)
    requires
        roots_unique(acc),
    ensures
        roots_unique(add_found(acc, f)),
        listed(add_found(acc, f), f.0),
        forall|x: Seq<char>| listed(acc, x) ==> listed(add_found(acc, f), x),
{
    if !listed(acc, f.0) {
        let n = acc.push(f);
        assert forall|i: int, j: int| 0 <= i < j < n.len() implies (#[trigger] n[i]).0 != (#[trigger] n[j]).0 by {
            if j == acc.len() {
                assert(n[i] == acc[i]);
            } else {
                assert(n[i] == acc[i] && n[j] == acc[j]);
            }
        }
        assert(n[acc.len() as int].0 == f.0);
        assert forall|x: Seq<char>| listed(acc, x) implies listed(n, x) by {
            let i = choose|i: int| 0 <= i < acc.len() && (#[trigger] acc[i]).0 == x;
            assert(n[i] == acc[i]);
        }
    }
}

proof fn lemma_parallel_found_unique(initialized: Seq<Seq<char>>)
    ensures
        roots_unique(parallel_found(initialized)),
    decreases initialized.len(),
{
    if initialized.len() > 0 {
        lemma_parallel_found_unique(initialized.drop_last());
        lemma_add_found_unique(
            parallel_found(initialized.drop_last()),
            (initialized.last(), DiscoverySource::Parallel, None),
        );
    }
}

proof fn lemma_codex_found_unique(start: Seq<Found>, cwds: Seq<Seq<char>>, watched: Seq<Seq<char>>)
    requires
        roots_unique(start),
    ensures
        roots_unique(codex_found(start, cwds, watched)),
    decreases cwds.len(),
{
    if cwds.len() > 0 {
        lemma_codex_found_unique(start, cwds.drop_last(), watched);
        let prev = codex_found(start, cwds.drop_last(), watched);
        let cwd = cwds.last();
        match surfaced_in(cwd, watched) {
            Some(root) => {
                lemma_add_found_unique(prev, (root, DiscoverySource::Codex, if cwd == root { None } else { Some(cwd) }));
            },
            None => {},
        }
    }
}

/// A refresh surfaces each project once: no two of the discovered projects
/// share a root.
pub proof fn law_each_project_surfaced_once(
    watched: Seq<Seq<char>>,
    initialized: Seq<Seq<char>>,
    cwds: Seq<Seq<char>>,
)
    ensures
        roots_unique(discovered(watched, initialized, cwds)),
{
    lemma_parallel_found_unique(initialized);
    lemma_codex_found_unique(parallel_found(initialized), cwds, watched);
}

proof fn lemma_codex_found_keeps(start: Seq<Found>, cwds: Seq<Seq<char>>, watched: Seq<Seq<char>>, i: int)
    requires
        0 <= i < start.len(),
    ensures
        i < codex_found(start, cwds, watched).len(),
        codex_found(start, cwds, watched)[i] == start[i],
    decreases cwds.len(),
{
    if cwds.len() > 0 {
        lemma_codex_found_keeps(start, cwds.drop_last(), watched, i);
    }
}

proof fn lemma_parallel_found_lists(initialized: Seq<Seq<char>>, k: int)
    requires
        0 <= k < initialized.len(),
    ensures
        exists|i: int|
            0 <= i < parallel_found(initialized).len() && #[trigger] parallel_found(initialized)[i] == (
                initialized[k],
                DiscoverySource::Parallel,
                None::<Seq<char>>,
            ),
    decreases initialized.len(),
{
    let prev = parallel_found(initialized.drop_last());
    let f = (initialized.last(), DiscoverySource::Parallel, None::<Seq<char>>);
    let all = parallel_found(initialized);
    assert(all == add_found(prev, f));
    if k < initialized.len() - 1 {
        lemma_parallel_found_lists(initialized.drop_last(), k);
        let i = choose|i: int|
            0 <= i < prev.len() && #[trigger] prev[i] == (
                initialized.drop_last()[k],
                DiscoverySource::Parallel,
                None::<Seq<char>>,
            );
        assert(initialized.drop_last()[k] == initialized[k]);
        assert(all[i] == prev[i]);
        assert(all[i] == (initialized[k], DiscoverySource::Parallel, None::<Seq<char>>));
    } else {
        if listed(prev, f.0) {
            let i = choose|i: int| 0 <= i < prev.len() && (#[trigger] prev[i]).0 == f.0;
            lemma_parallel_entries(initialized.drop_last(), i);
            assert(all[i] == (initialized[k], DiscoverySource::Parallel, None::<Seq<char>>));
        } else {
            assert(all[prev.len() as int] == (initialized[k], DiscoverySource::Parallel, None::<Seq<char>>));
        }
    }
}

proof fn lemma_parallel_entries(initialized: Seq<Seq<char>>, i: int)
    requires
        0 <= i < parallel_found(initialized).len(),
    ensures
        parallel_found(initialized)[i].1 == DiscoverySource::Parallel,
        parallel_found(initialized)[i].2 is None,
        parallel_found(initialized)[i] == (parallel_found(initialized)[i].0, DiscoverySource::Parallel, None::<Seq<char>>),
    decreases initialized.len(),
{
    if initialized.len() > 0 {
        let prev = parallel_found(initialized.drop_last());
        if i < prev.len() {
            lemma_parallel_entries(initialized.drop_last(), i);
        }
    }
}

/// A directory with its own workflow files is surfaced as such, with no
/// working directory behind it, whatever Codex threads work in it too.
pub proof fn law_own_files_win(
    watched: Seq<Seq<char>>,
    initialized: Seq<Seq<char>>,
    cwds: Seq<Seq<char>>,
    root: Seq<char>,
)
    requires
        initialized.contains(root),
    ensures
        discovered(watched, initialized, cwds).contains((root, DiscoverySource::Parallel, None::<Seq<char>>)),
{
    let k = choose|k: int| 0 <= k < initialized.len() && initialized[k] == root;
    lemma_parallel_found_lists(initialized, k);
    let p = parallel_found(initialized);
    let i = choose|i: int| 0 <= i < p.len() && #[trigger] p[i] == (initialized[k], DiscoverySource::Parallel, None::<Seq<char>>);
    lemma_codex_found_keeps(p, cwds, watched, i);
}

/// The watched roots left to scan are exactly the normalised watched roots
/// without a recorded scan; once each has one, none is left.
pub proof fn law_scanned_roots_are_covered(roots: Seq<Seq<char>>, scanned: Seq<Seq<char>>)
    ensures
        forall|x: Seq<char>|
            uncovered(roots, scanned).contains(x) <==> (normal_form(roots).contains(x) && !scanned.contains(x)),
        (forall|x: Seq<char>| normal_form(roots).contains(x) ==> scanned.contains(x)) ==> uncovered(
            roots,
            scanned,
        ).len() == 0,
{
    let pred = |w: Seq<char>| !scanned.contains(w);
    let u = normal_form(roots).filter(pred);
    let nf = normal_form(roots);
    assert forall|x: Seq<char>| u.contains(x) <==> (nf.contains(x) && !scanned.contains(x)) by {
        if nf.contains(x) && !scanned.contains(x) {
            let i = choose|i: int| 0 <= i < nf.len() && nf[i] == x;
            nf.lemma_filter_contains(pred, i);
        }
        if u.contains(x) {
            let i = choose|i: int| 0 <= i < u.len() && u[i] == x;
            nf.lemma_filter_pred(pred, i);
            nf.lemma_filter_contains_rev(pred, x);
        }
    }
    if forall|x: Seq<char>| normal_form(roots).contains(x) ==> scanned.contains(x) {
        if u.len() > 0 {
            assert(u.contains(u[0]));
        }
    }
}

/// Once the index keeps watched roots, running the migration again gives
/// them back unchanged, whatever it could be seeded with.
pub proof fn law_migration_settles(
    stored: Seq<Seq<char>>,
    seeded: Seq<Seq<char>>,
    legacy: Seq<Seq<char>>,
    seeded_later: Seq<Seq<char>>,
    legacy_later: Seq<Seq<char>>,
)
    requires
        migrated(stored, seeded, legacy).len() > 0,
    ensures
        migrated(migrated(stored, seeded, legacy), seeded_later, legacy_later) == migrated(stored, seeded, legacy),
{
}

/// A refresh never marks missing a project it found again, nor one outside
/// the watched roots it refreshed.
pub proof fn law_found_rows_stay(rows: Seq<ProjectIndexRecord>, watched: Seq<Seq<char>>, present: Seq<Seq<char>>, k: int)
    requires
        0 <= k < rows.len(),
        present.contains(rows[k].summary.root@) || !watched.contains(rows[k].watched_root@),
    ensures
        !rows.filter(|rec: ProjectIndexRecord| marks_missing(rec, watched, present)).contains(rows[k]),
{
    let pred = |rec: ProjectIndexRecord| marks_missing(rec, watched, present);
    if rows.filter(pred).contains(rows[k]) {
        let i = choose|i: int| 0 <= i < rows.filter(pred).len() && rows.filter(pred)[i] == rows[k];
        rows.lemma_filter_pred(pred, i);
    }
}

proof fn lemma_head_piece_prefix(s: Seq<char>)
    ensures
        head_piece(s).len() <= s.len(),
        s.take(head_piece(s).len() as int) == head_piece(s),
        head_piece(s).len() == s.len() || s[head_piece(s).len() as int] == '/',
        forall|j: int| 0 <= j < head_piece(s).len() ==> s[j] != '/',
    decreases s.len(),
{
    if s.len() > 0 && s[0] != '/' {
        let t = s.drop_first();
        lemma_head_piece_prefix(t);
        let h = head_piece(s);
        assert(h == seq![s[0]] + head_piece(t));
        assert(s.take(h.len() as int) =~= seq![s[0]] + t.take(head_piece(t).len() as int));
        assert forall|j: int| 0 <= j < h.len() implies s[j] != '/' by {
            if j > 0 {
                assert(s[j] == t[j - 1]);
            }
        }
        if h.len() < s.len() {
            assert(s[h.len() as int] == t[head_piece(t).len() as int]);
        }
    } else if s.len() > 0 {
        assert(s.take(0) =~= head_piece(s));
    } else {
        assert(s.take(0) =~= head_piece(s));
    }
}

/// The project a Codex thread surfaces lies directly under a watched root
/// that holds the thread's working directory, and holds that directory
/// itself: the directory is the project's root or lies below it.
pub proof fn law_codex_project_holds_its_cwd(cwd: Seq<char>, watched: Seq<Seq<char>>)
    requires
        surfaced_in(cwd, watched) is Some,
    ensures
        ({
            let r = surfaced_in(cwd, watched)->0;
            &&& root_or_descendant(cwd, r)
            &&& exists|w: Seq<char>, h: Seq<char>|
                #![trigger most_specific(w, cwd, watched), head_piece(h)]
                most_specific(w, cwd, watched) && r == w + "/"@ + h && h.len() > 0 && h[0] != '.'
                    && !h.contains('/')
        }),
{
    reveal_strlit("/");
    let w = owner_of(cwd, watched)->0;
    assert(most_specific(w, cwd, watched));
    let sep = "/"@;
    assert(sep == seq!['/']);
    let rel = relative_to(cwd, w)->0;
    let h = head_piece(rel);
    lemma_head_piece_prefix(rel);
    let r = w + sep + h;
    assert(surfaced_in(cwd, watched) == Some(r));
    // the branches of `relative_to` that leave a non-empty first piece
    if cwd == w {
        assert(rel.len() == 0);
    } else if w.len() > 0 && w.last() == '/' && starts_with(cwd, w) {
        assert(starts_with(cwd, w + sep));
        assert(rel =~= cwd.skip(w.len() as int));
        assert(cwd[w.len() as int] == (w + sep)[w.len() as int]);
        assert(rel[0] == '/');
        assert(h.len() == 0);
    } else {
        assert(starts_with(cwd, w + seq!['/']));
        assert(rel =~= cwd.skip(w.len() as int + 1));
        assert(cwd =~= w + sep + rel) by {
            assert(cwd.subrange(0, w.len() as int + 1) == w + sep);
            assert forall|i: int| 0 <= i < cwd.len() implies cwd[i] == (w + sep + rel)[i] by {
                if i <= w.len() {
                    assert(cwd[i] == cwd.subrange(0, w.len() as int + 1)[i]);
                }
            }
        }
        if h.len() == rel.len() {
            assert(rel.take(h.len() as int) =~= rel);
            assert(cwd == r);
        } else {
            let rs = r + sep;
            assert(rel[h.len() as int] == '/');
            assert(cwd.subrange(0, rs.len() as int) =~= rs) by {
                assert forall|i: int| 0 <= i < rs.len() implies cwd.subrange(0, rs.len() as int)[i] == rs[i] by {
                    if i > w.len() && i < rs.len() - 1 {
                        assert(rs[i] == h[i - w.len() - 1]);
                        assert(h[i - w.len() - 1] == rel.take(h.len() as int)[i - w.len() - 1]);
                    }
                }
            }
            assert(starts_with(cwd, r + sep));
        }
        assert(!h.contains('/')) by {
            if h.contains('/') {
                let j = choose|j: int| 0 <= j < h.len() && h[j] == '/';
                assert(h[j] == rel.take(h.len() as int)[j]);
            }
        }
    }
    assert(head_piece(h) == head_piece(h));
}

} // verus!
