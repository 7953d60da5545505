//! Which roots are watched for projects, and where the index database lives.
//! Roots reach these functions already made canonical (that reads the disk);
//! what is decided here is which of them count, in what order, and from
//! which source.
use crate::paths::join_path;
use crate::text::{
    chars_of, is_blank, less_than, lemma_seq_lt_irreflexive, lemma_seq_lt_transitive, lemma_seq_lt_trichotomy,
    owned, seq_lt, split_char, split_on_vec, string_from, trim, trim_vec, blank,
};

use vstd::prelude::*;

verus! {

// ---------------------------------------------------------------------------
// Normalising a set of roots
// ---------------------------------------------------------------------------

/// Each root strictly before the next, in the order of `String`.
pub open spec fn strictly_sorted(s: Seq<Seq<char>>) -> bool {
    forall|i: int, j: int| 0 <= i < j < s.len() ==> seq_lt(#[trigger] s[i], #[trigger] s[j])
}

/// Whether `r` is `normalize_roots` of `roots`: the non-empty roots, sorted,
/// each once.
pub open spec fn normalized(r: Seq<Seq<char>>, roots: Seq<Seq<char>>) -> bool {
    &&& strictly_sorted(r)
    &&& forall|x: Seq<char>| r.contains(x) <==> (roots.contains(x) && x.len() > 0)
}

/// `normalize_roots` of `roots`: the one strictly sorted list whose roots
/// are the non-empty ones of `roots`.
pub open spec fn normal_form(roots: Seq<Seq<char>>) -> Seq<Seq<char>> {
    choose|r: Seq<Seq<char>>| normalized(r, roots)
}

/// Two strictly sorted lists with the same roots are the same list.
pub proof fn lemma_sorted_unique(a: Seq<Seq<char>>, b: Seq<Seq<char>>)
    requires
        strictly_sorted(a),
        strictly_sorted(b),
        forall|x: Seq<char>| a.contains(x) <==> b.contains(x),
    ensures
        a == b,
    decreases a.len(),
{
    if a.len() == 0 {
        if b.len() > 0 {
            assert(b.contains(b[0]));
        }
        assert(a =~= b);
    } else if b.len() == 0 {
        assert(a.contains(a[0]));
    } else {
        assert(a.contains(a[0]));
        assert(b.contains(b[0]));
        let j = choose|j: int| 0 <= j < b.len() && b[j] == a[0];
        let i = choose|i: int| 0 <= i < a.len() && a[i] == b[0];
        if i > 0 && j > 0 {
            assert(seq_lt(a[0], a[i]));
            assert(seq_lt(b[0], b[j]));
            lemma_seq_lt_trichotomy(a[0], b[0]);
        } else if i > 0 {
            assert(seq_lt(a[0], a[i]));
            lemma_seq_lt_irreflexive(a[0]);
        } else if j > 0 {
            assert(seq_lt(b[0], b[j]));
            lemma_seq_lt_irreflexive(b[0]);
        }
        assert(a[0] == b[0]);
        let ta = a.drop_first();
        let tb = b.drop_first();
        assert forall|x: Seq<char>| ta.contains(x) <==> tb.contains(x) by {
            if ta.contains(x) {
                let k = choose|k: int| 0 <= k < ta.len() && ta[k] == x;
                assert(seq_lt(a[0], a[k + 1]));
                lemma_seq_lt_irreflexive(a[0]);
                assert(a.contains(x));
                let m = choose|m: int| 0 <= m < b.len() && b[m] == x;
                assert(m != 0);
                assert(tb[m - 1] == x);
            }
            if tb.contains(x) {
                let k = choose|k: int| 0 <= k < tb.len() && tb[k] == x;
                assert(seq_lt(b[0], b[k + 1]));
                lemma_seq_lt_irreflexive(b[0]);
                assert(b.contains(x));
                let m = choose|m: int| 0 <= m < a.len() && a[m] == x;
                assert(m != 0);
                assert(ta[m - 1] == x);
            }
        }
        assert forall|p: int, q: int| 0 <= p < q < ta.len() implies seq_lt(#[trigger] ta[p], #[trigger] ta[q]) by {
            assert(seq_lt(a[p + 1], a[q + 1]));
        }
        assert forall|p: int, q: int| 0 <= p < q < tb.len() implies seq_lt(#[trigger] tb[p], #[trigger] tb[q]) by {
            assert(seq_lt(b[p + 1], b[q + 1]));
        }
        lemma_sorted_unique(ta, tb);
        assert(a =~= seq![a[0]] + ta);
        assert(b =~= seq![b[0]] + tb);
    }
}

/// A normalised list is the normal form.
pub proof fn lemma_normal_form(r: Seq<Seq<char>>, roots: Seq<Seq<char>>)
    requires
        normalized(r, roots),
    ensures
        normal_form(roots) == r,
{
    let c = normal_form(roots);
    assert(normalized(c, roots));
    lemma_sorted_unique(c, r);
}

proof fn lemma_deep_insert(v: Vec<String>, w: Vec<String>, i: int, x: String)
    requires
        0 <= i <= v@.len(),
        w@ == v@.insert(i, x),
    ensures
        w.deep_view() == v.deep_view().insert(i, x@),
{
    assert(w.deep_view() =~= v.deep_view().insert(i, x@));
}

/// The strings of `items` (the empty one only when `keep_empty`), sorted,
/// each once.
fn sorted_set_with(roots: &Vec<String>, keep_empty: bool) -> (r: Vec<String>)
    ensures
        strictly_sorted(r.deep_view()),
        forall|x: Seq<char>|
            r.deep_view().contains(x) <==> (roots.deep_view().contains(x) && (keep_empty || x.len() > 0)),
{
    let ghost rs = roots.deep_view();
    let mut out: Vec<String> = Vec::new();
    let mut k: usize = 0;
    while k < roots.len()
        invariant
            rs == roots.deep_view(),
            k <= rs.len(),
            strictly_sorted(out.deep_view()),
            forall|x: Seq<char>| out.deep_view().contains(x) <==> (rs.take(k as int).contains(x) && (keep_empty || x.len() > 0)),
        decreases rs.len() - k,
    {
        let ghost o = out.deep_view();
        let ghost t0 = rs.take(k as int);
        let ghost t1 = rs.take(k as int + 1);
        assert(t1 =~= t0.push(rs[k as int]));
        let x = &roots[k];
        assert(x@ == rs[k as int]);
        if keep_empty || x.unicode_len() > 0 {
            let xv = chars_of(x.as_str());
            let mut i: usize = 0;
            while i < out.len() && less_than(&chars_of(out[i].as_str()), &xv)
                invariant
                    o == out.deep_view(),
                    xv@ == x@,
                    i <= o.len(),
                    forall|m: int| 0 <= m < i ==> seq_lt(#[trigger] o[m], x@),
                decreases o.len() - i,
            {
                assert(o[i as int] == out@[i as int]@);
                i += 1;
            }
            let present = i < out.len() && out[i] == *x;
            if !present {
                proof {
                    if i < o.len() {
                        assert(o[i as int] == out@[i as int]@);
                        assert(!seq_lt(o[i as int], x@));
                        lemma_seq_lt_trichotomy(o[i as int], x@);
                    }
                }
                let ghost before = out;
                out.insert(i, x.clone());
                proof {
                    lemma_deep_insert(before, out, i as int, *x);
                    let n = out.deep_view();
                    assert(n == o.insert(i as int, x@));
                    assert forall|a: int, b: int| 0 <= a < b < n.len() implies seq_lt(#[trigger] n[a], #[trigger] n[b]) by {
                        if b < i {
                            assert(n[a] == o[a] && n[b] == o[b]);
                        } else if b == i {
                            assert(n[b] == x@ && n[a] == o[a]);
                        } else if a == i {
                            assert(n[a] == x@ && n[b] == o[b - 1]);
                            if b - 1 > i {
                                assert(seq_lt(o[i as int], o[b - 1]));
                                lemma_seq_lt_transitive(x@, o[i as int], o[b - 1]);
                            }
                        } else if a < i {
                            assert(n[a] == o[a] && n[b] == o[b - 1]);
                            if b - 1 >= i {
                                assert(seq_lt(o[a], x@));
                                if b - 1 == i {
                                    lemma_seq_lt_transitive(o[a], x@, o[i as int]);
                                } else {
                                    assert(seq_lt(o[i as int], o[b - 1]));
                                    lemma_seq_lt_transitive(x@, o[i as int], o[b - 1]);
                                    lemma_seq_lt_transitive(o[a], x@, o[b - 1]);
                                }
                            }
                        } else {
                            assert(n[a] == o[a - 1] && n[b] == o[b - 1]);
                        }
                    }
                    assert forall|y: Seq<char>| n.contains(y) <==> (t1.contains(y) && (keep_empty || y.len() > 0)) by {
                        if n.contains(y) {
                            let j = choose|j: int| 0 <= j < n.len() && n[j] == y;
                            if j < i {
                                assert(o[j] == y);
                                assert(o.contains(y));
                                let m = choose|m: int| 0 <= m < t0.len() && t0[m] == y;
                                assert(t1[m] == y);
                            } else if j > i {
                                assert(o[j - 1] == y);
                                assert(o.contains(y));
                                let m = choose|m: int| 0 <= m < t0.len() && t0[m] == y;
                                assert(t1[m] == y);
                            } else {
                                assert(t1[k as int] == y);
                                assert((keep_empty || y.len() > 0));
                            }
                        }
                        if t1.contains(y) && (keep_empty || y.len() > 0) {
                            let j = choose|j: int| 0 <= j < t1.len() && t1[j] == y;
                            if j < k {
                                assert(t0[j] == y);
                                assert(t0.contains(y));
                                assert(o.contains(y));
                                let m = choose|m: int| 0 <= m < o.len() && o[m] == y;
                                if m < i {
                                    assert(n[m] == y);
                                } else {
                                    assert(n[m + 1] == y);
                                }
                            } else {
                                assert(n[i as int] == y);
                            }
                        }
                    }
                }
            } else {
                proof {
                    assert(o[i as int] == x@);
                    assert forall|y: Seq<char>| o.contains(y) <==> (t1.contains(y) && (keep_empty || y.len() > 0)) by {
                        if t1.contains(y) && (keep_empty || y.len() > 0) {
                            let j = choose|j: int| 0 <= j < t1.len() && t1[j] == y;
                            if j < k {
                                assert(t0[j] == y);
                            } else {
                                assert(o[i as int] == y);
                            }
                        }
                        if o.contains(y) {
                            assert(t0.contains(y));
                            let j = choose|j: int| 0 <= j < t0.len() && t0[j] == y;
                            assert(t1[j] == y);
                        }
                    }
                }
            }
        } else {
            proof {
                assert forall|y: Seq<char>| o.contains(y) <==> (t1.contains(y) && (keep_empty || y.len() > 0)) by {
                    if t1.contains(y) && (keep_empty || y.len() > 0) {
                        let j = choose|j: int| 0 <= j < t1.len() && t1[j] == y;
                        if j < k {
                            assert(t0[j] == y);
                        }
                    }
                    if o.contains(y) {
                        let j = choose|j: int| 0 <= j < t0.len() && t0[j] == y;
                        assert(t1[j] == y);
                    }
                }
            }
        }
        k += 1;
    }
    assert(rs.take(rs.len() as int) =~= rs);
    out
}

/// `normalize_roots` of roots already made canonical: the empty ones are
/// dropped, the rest sorted and deduplicated.
pub fn normalize_roots(roots: &Vec<String>) -> (r: Vec<String>)
    ensures
        normalized(r.deep_view(), roots.deep_view()),
        r.deep_view() == normal_form(roots.deep_view()),
{
    let out = sorted_set_with(roots, false);
    proof {
        lemma_normal_form(out.deep_view(), roots.deep_view());
    }
    out
}

/// The strings of `items`, sorted, each once: what collecting into a
/// `BTreeSet` and back gives.
pub fn sorted_set(items: &Vec<String>) -> (r: Vec<String>)
    ensures
        r.deep_view() == sorted_form(items.deep_view()),
        is_sorted_form(r.deep_view(), items.deep_view()),
{
    let out = sorted_set_with(items, true);
    proof {
        let c = sorted_form(items.deep_view());
        assert(is_sorted_form(out.deep_view(), items.deep_view()));
        assert(is_sorted_form(c, items.deep_view()));
        lemma_sorted_unique(c, out.deep_view());
    }
    out
}

/// Whether `r` holds the strings of `items`, sorted, each once.
pub open spec fn is_sorted_form(r: Seq<Seq<char>>, items: Seq<Seq<char>>) -> bool {
    strictly_sorted(r) && forall|x: Seq<char>| r.contains(x) <==> items.contains(x)
}

/// The strings of `items`, sorted, each once.
pub open spec fn sorted_form(items: Seq<Seq<char>>) -> Seq<Seq<char>> {
    choose|r: Seq<Seq<char>>| is_sorted_form(r, items)
}

// ---------------------------------------------------------------------------
// Roots from an environment variable
// ---------------------------------------------------------------------------

/// The trimmed, non-empty pieces of a list of pieces.
pub open spec fn kept_trimmed(pieces: Seq<Seq<char>>) -> Seq<Seq<char>>
    decreases pieces.len(),
{
    if pieces.len() == 0 {
        Seq::empty()
    } else if trim(pieces.last()).len() > 0 {
        kept_trimmed(pieces.drop_last()).push(trim(pieces.last()))
    } else {
        kept_trimmed(pieces.drop_last())
    }
}

/// `split_roots`: the pieces of `raw` between separators, trimmed, the
/// empty ones dropped.
pub fn split_roots(raw: &str, sep: char) -> (r: Vec<String>)
    ensures
        r.deep_view() == kept_trimmed(split_char(raw@, sep)),
{
    let v = chars_of(raw);
    let sv: Vec<char> = vec![sep];
    assert(sv@ =~= seq![sep]);
    let pieces = split_on_vec(&v, &sv);
    let ghost ps = pieces.deep_view();
    let mut out: Vec<String> = Vec::new();
    let mut k: usize = 0;
    while k < pieces.len()
        invariant
            ps == pieces.deep_view(),
            k <= ps.len(),
            out.deep_view() == kept_trimmed(ps.take(k as int)),
        decreases ps.len() - k,
    {
        assert(ps.take(k as int + 1).drop_last() =~= ps.take(k as int));
        assert(ps[k as int] == pieces@[k as int]@);
        let t = trim_vec(&pieces[k]);
        if t.len() > 0 {
            let s = string_from(t.as_slice());
            let ghost before = out;
            let ghost sv2 = s;
            out.push(s);
            proof {
                crate::models::lemma_deep_push(before, out, sv2);
            }
        }
        k += 1;
    }
    assert(ps.take(ps.len() as int) =~= ps);
    out
}

// ---------------------------------------------------------------------------
// Resolving the watched roots
// ---------------------------------------------------------------------------

/// Who asks for the watched roots.
#[derive(Debug, Clone, Copy, PartialEq, Eq, Structural)]
pub enum RootResolutionSurface {
    Cli,
    Desktop,
    Bridge,
}

/// What [`resolve_watched_roots`] decides, given the normalised roots of
/// each source: the explicit ones, else those of the environment, else those
/// the index migrated (`None` while the migration has not run), else, for
/// the command line, its working directory, else none.
pub open spec fn resolved_roots(
    surface: RootResolutionSurface,
    explicit: Option<Seq<Seq<char>>>,
    env: Option<Seq<Seq<char>>>,
    migrated: Option<Seq<Seq<char>>>,
    cwd: Option<Seq<Seq<char>>>,
) -> Option<Seq<Seq<char>>> {
    if explicit matches Some(e) && e.len() > 0 {
        explicit
    } else if env matches Some(v) && v.len() > 0 {
        env
    } else {
        match migrated {
            None => None,
            Some(m) => if m.len() > 0 {
                Some(m)
            } else if surface == RootResolutionSurface::Cli && cwd is Some {
                cwd
            } else {
                Some(Seq::empty())
            },
        }
    }
}

pub open spec fn normalized_opt(o: Option<Vec<String>>) -> Option<Seq<Seq<char>>> {
    match o {
        Some(v) => Some(v.deep_view()),
        None => None,
    }
}

/// The normal form of optional roots.
pub open spec fn normal_opt(o: Option<Vec<String>>) -> Option<Seq<Seq<char>>> {
    match o {
        Some(v) => Some(normal_form(v.deep_view())),
        None => None,
    }
}

/// A normalised copy of optional roots.
fn normalize_opt(roots: &Option<Vec<String>>) -> (r: Option<Vec<String>>)
    ensures
        normalized_opt(r) == normal_opt(*roots),
{
    match roots {
        Some(v) => Some(normalize_roots(v)),
        None => None,
    }
}

/// `resolve_watched_roots`: the roots of the first source that has any.
/// The explicit roots, the environment's and the working directory come
/// canonical and are normalised here; the migrated ones come from the index,
/// normalised. When the explicit and environment roots are empty and
/// `migrated` is `None`, the answer is `None`: the index must be migrated
/// and the call repeated with its roots.
pub fn resolve_watched_roots(
    surface: RootResolutionSurface,
    explicit: Option<Vec<String>>,
    env: Option<Vec<String>>,
    migrated: Option<Vec<String>>,
    cwd: Option<String>,
) -> (r: Option<Vec<String>>)
    ensures
        normalized_opt(r) == resolved_roots(
            surface,
            normal_opt(explicit),
            normal_opt(env),
            normalized_opt(migrated),
            match cwd {
                Some(x) => Some(normal_form(seq![x@])),
                None => None,
            },
        ),
{
    let e = normalize_opt(&explicit);
    let v = normalize_opt(&env);
    let c = match &cwd {
        Some(x) => {
            let mut one: Vec<String> = Vec::new();
            one.push(x.clone());
            assert(one.deep_view() =~= seq![x@]);
            Some(normalize_roots(&one))
        },
        None => None,
    };
    let ghost cg = normalized_opt(c);
    let r = if e.is_some() && e.as_ref().unwrap().len() > 0 {
        e
    } else if v.is_some() && v.as_ref().unwrap().len() > 0 {
        v
    } else {
        match migrated {
            None => None,
            Some(m) => if m.len() > 0 {
                Some(m)
            } else if surface == RootResolutionSurface::Cli && c.is_some() {
                c
            } else {
                let none: Vec<String> = Vec::new();
                assert(none.deep_view() =~= Seq::<Seq<char>>::empty());
                Some(none)
            },
        }
    };
    r
}

// ---------------------------------------------------------------------------
// The index database
// ---------------------------------------------------------------------------

/// The file name of the index database.
pub open spec fn index_db_file() -> Seq<char> {
    "workflow-index.sqlite"@
}

/// The application's identifier, the name of its data directory.
pub open spec fn app_identifier() -> Seq<char> {
    "ai.light.projectworkflowos"@
}

/// The family of system the data directory is looked up for.
#[derive(Debug, Clone, Copy, PartialEq, Eq, Structural)]
pub enum Platform {
    MacOs,
    Windows,
    Unix,
}

/// The environment variables the data directory depends on.
pub struct DataDirEnv {
    pub home: Option<String>,
    pub appdata: Option<String>,
    pub userprofile: Option<String>,
    pub xdg_data_home: Option<String>,
}

/// The platform's path separator.
pub open spec fn separator(p: Platform) -> char {
    if p == Platform::Windows {
        '\\'
    } else {
        '/'
    }
}

/// `canonical_data_dir`: `~/Library/Application Support/<id>` on macOS;
/// `%APPDATA%\<id>`, else `%USERPROFILE%\AppData\Roaming\<id>` on Windows;
/// `$XDG_DATA_HOME/<id>`, else `~/.local/share/<id>` elsewhere.
pub open spec fn data_dir(p: Platform, env: DataDirEnv) -> Option<Seq<char>> {
    let sep = separator(p);
    match p {
        Platform::MacOs => match env.home {
            Some(h) => Some(
                join_path(join_path(join_path(h@, "Library"@, sep), "Application Support"@, sep), app_identifier(), sep),
            ),
            None => None,
        },
        Platform::Windows => match env.appdata {
            Some(a) => Some(join_path(a@, app_identifier(), sep)),
            None => match env.userprofile {
                Some(u) => Some(
                    join_path(join_path(join_path(u@, "AppData"@, sep), "Roaming"@, sep), app_identifier(), sep),
                ),
                None => None,
            },
        },
        Platform::Unix => match env.xdg_data_home {
            Some(x) => Some(join_path(x@, app_identifier(), sep)),
            None => match env.home {
                Some(h) => Some(
                    join_path(join_path(join_path(h@, ".local"@, sep), "share"@, sep), app_identifier(), sep),
                ),
                None => None,
            },
        },
    }
}

/// `canonical_index_db_path_from_env`: the index database in the data
/// directory, if there is one.
pub fn canonical_index_db_path_from_env(p: Platform, env: &DataDirEnv) -> (r: Option<String>)
    ensures
        crate::models::ostr(r) == match data_dir(p, *env) {
            Some(d) => Some(join_path(d, index_db_file(), separator(p))),
            None => None,
        },
{
    let sep = match p {
        Platform::Windows => '\\',
        _ => '/',
    };
    let dir = match p {
        Platform::MacOs => match &env.home {
            Some(h) => {
                let a = crate::paths::join_with(h.as_str(), "Library", sep);
                let b = crate::paths::join_with(a.as_str(), "Application Support", sep);
                Some(crate::paths::join_with(b.as_str(), "ai.light.projectworkflowos", sep))
            },
            None => None,
        },
        Platform::Windows => match &env.appdata {
            Some(a) => Some(crate::paths::join_with(a.as_str(), "ai.light.projectworkflowos", sep)),
            None => match &env.userprofile {
                Some(u) => {
                    let a = crate::paths::join_with(u.as_str(), "AppData", sep);
                    let b = crate::paths::join_with(a.as_str(), "Roaming", sep);
                    Some(crate::paths::join_with(b.as_str(), "ai.light.projectworkflowos", sep))
                },
                None => None,
            },
        },
        Platform::Unix => match &env.xdg_data_home {
            Some(x) => Some(crate::paths::join_with(x.as_str(), "ai.light.projectworkflowos", sep)),
            None => match &env.home {
                Some(h) => {
                    let a = crate::paths::join_with(h.as_str(), ".local", sep);
                    let b = crate::paths::join_with(a.as_str(), "share", sep);
                    Some(crate::paths::join_with(b.as_str(), "ai.light.projectworkflowos", sep))
                },
                None => None,
            },
        },
    };
    match dir {
        Some(d) => Some(crate::paths::join_with(d.as_str(), "workflow-index.sqlite", sep)),
        None => None,
    }
}

/// Why no index database path could be found.
#[derive(Debug, PartialEq, Eq)]
pub enum IndexPathError {
    Unresolved,
}

impl IndexPathError {
    pub fn message(&self) -> (r: String)
        ensures
            r@ == "Unable to resolve canonical workflow index DB path"@,
    {
        owned("Unable to resolve canonical workflow index DB path")
    }
}

/// A value that is not blank.
pub open spec fn given(o: Option<&str>) -> Option<Seq<char>> {
    match o {
        Some(x) => if is_blank(x@) {
            None
        } else {
            Some(x@)
        },
        None => None,
    }
}

/// `resolve_index_db_path`: the explicit path if it is not blank, else the
/// environment's if it is not blank, else the canonical one.
pub fn resolve_index_db_path(
    explicit: Option<&str>,
    env_value: Option<&str>,
    canonical: Option<String>,
) -> (r: Result<String, IndexPathError>)
    ensures
        match r {
            Ok(p) => match given(explicit) {
                Some(x) => p@ == x,
                None => match given(env_value) {
                    Some(x) => p@ == x,
                    None => canonical matches Some(c) && p@ == c@,
                },
            },
            Err(_) => given(explicit) is None && given(env_value) is None && canonical is None,
        },
{
    match explicit {
        Some(x) => {
            if !blank(x) {
                return Ok(owned(x));
            }
        },
        None => {},
    }
    match env_value {
        Some(x) => {
            if !blank(x) {
                return Ok(owned(x));
            }
        },
        None => {},
    }
    match canonical {
        Some(c) => Ok(c),
        None => Err(IndexPathError::Unresolved),
    }
}

} // verus!
