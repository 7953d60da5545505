//! Identifiers: slugs derived from titles, fresh ids that avoid a set of used
//! ids, and random UUIDs.
use crate::text::{
    ascii_alphanumeric, ascii_lower, chars_of, char_lowercase, concat3, dec, decimal, is_alnum, lemma_dec_injective,
    lemma_dec_len, lowercase_char, strip_end, strip_start, string_from, sub_vec};
use vstd::prelude::*;
use vstd::set_lib::lemma_len_subset;

verus! {

// ---------------------------------------------------------------------------
// Slugs
// ---------------------------------------------------------------------------

/// The characters of `s`, each replaced by its lowercase mapping.
pub open spec fn flat_lower(s: Seq<char>) -> Seq<char>
    decreases s.len(),
{
    if s.len() == 0 {
        Seq::empty()
    } else {
        flat_lower(s.drop_last()) + char_lowercase(s.last())
    }
}

/// The slug being built over `cs`, and whether it ends in a dash that
/// `slugify` wrote for a run of other characters.
pub open spec fn slug_state(cs: Seq<char>) -> (Seq<char>, bool)
    decreases cs.len(),
{
    if cs.len() == 0 {
        (Seq::empty(), false)
    } else {
        let (out, dash) = slug_state(cs.drop_last());
        let c = cs.last();
        if is_alnum(c) {
            (out.push(c), false)
        } else if !dash {
            (out.push('-'), true)
        } else {
            (out, dash)
        }
    }
}

pub open spec fn is_dash() -> spec_fn(char) -> bool {
    |c: char| c == '-'
}

/// `slugify`: lowercase, runs of characters other than ASCII letters and
/// digits replaced by one dash, dashes trimmed from both ends, at most 48
/// characters.
pub open spec fn slug(s: Seq<char>) -> Seq<char> {
    let t = strip_end(strip_start(slug_state(flat_lower(s)).0, is_dash()), is_dash());
    if t.len() > 48 {
        t.take(48)
    } else {
        t
    }
}

/// A title as an id: lowercased, runs of characters other than ASCII letters
/// and digits made one dash, dashes trimmed from both ends, at most 48
/// characters.
pub fn slugify(value: &str) -> (r: String)
    ensures
        r@ == slug(value@),
        no_capital(r@),
{
    let v = chars_of(value);
    let ghost vs = v@;
    let mut out: Vec<char> = Vec::new();
    let mut last_dash = false;
    let mut i: usize = 0;
    while i < v.len()
        invariant
            vs == v@,
            i <= v@.len(),
            (out@, last_dash) == slug_state(flat_lower(vs.take(i as int))),
            no_capital(flat_lower(vs.take(i as int))),
        decreases v@.len() - i,
    {
        let low = lowercase_char(v[i]);
        let ghost before = flat_lower(vs.take(i as int));
        proof {
            assert(vs.take(i + 1).drop_last() =~= vs.take(i as int));
            assert(flat_lower(vs.take(i + 1)) == before + low@);
            let nb = before + low@;
            assert forall|k: int| 0 <= k < nb.len() implies !(65 <= (#[trigger] nb[k]) as int <= 90) by {
                if k >= before.len() {
                    assert(nb[k] == low@[k - before.len()]);
                } else {
                    assert(nb[k] == before[k]);
                }
            }
        }
        let mut k: usize = 0;
        while k < low.len()
            invariant
                k <= low@.len(),
                (out@, last_dash) == slug_state(before + low@.take(k as int)),
            decreases low@.len() - k,
        {
            let ch = low[k];
            proof {
                assert((before + low@.take(k + 1)).drop_last() =~= before + low@.take(k as int));
                assert((before + low@.take(k + 1)).last() == ch);
            }
            if ascii_alphanumeric(ch) {
                out.push(ch);
                last_dash = false;
            } else if !last_dash {
                out.push('-');
                last_dash = true;
            }
            k += 1;
        }
        assert(low@.take(low@.len() as int) =~= low@);
        i += 1;
    }
    assert(vs.take(v@.len() as int) =~= vs);
    proof {
        lemma_slug_shape(value@);
        let sl = slug(value@);
        let fl = flat_lower(value@);
        assert forall|k: int| 0 <= k < sl.len() implies !(65 <= (#[trigger] sl[k]) as int <= 90) by {
            if sl[k] != '-' {
                assert(fl.contains(sl[k]));
                let m = choose|m: int| 0 <= m < fl.len() && fl[m] == sl[k];
                assert(!(65 <= fl[m] as int <= 90));
            }
        }
    }
    let (a, b) = dash_bounds(&out);
    let t = sub_vec(&out, a, b);
    if t.len() > 48 {
        let u = sub_vec(&t, 0, 48);
        assert(u@ =~= t@.take(48));
        string_from(u.as_slice())
    } else {
        string_from(t.as_slice())
    }
}

/// The bounds of `v` without leading and trailing dashes.
fn dash_bounds(v: &Vec<char>) -> (r: (usize, usize))
    ensures
        r.0 <= r.1 <= v@.len(),
        strip_end(strip_start(v@, is_dash()), is_dash()) == v@.subrange(r.0 as int, r.1 as int),
{
    let n = v.len();
    let mut i: usize = 0;
    while i < n && v[i] == '-'
        invariant
            n == v@.len(),
            i <= n,
            forall|k: int| 0 <= k < i ==> #[trigger] v@[k] == '-',
        decreases n - i,
    {
        i += 1;
    }
    let ghost p = is_dash();
    proof {
        crate::text::lemma_strip_start_at(v@, p, i as int);
    }
    let mut j: usize = n;
    while j > i && v[j - 1] == '-'
        invariant
            n == v@.len(),
            i <= j <= n,
            forall|k: int| j <= k < n ==> #[trigger] v@[k] == '-',
        decreases j,
    {
        j -= 1;
    }
    proof {
        let t = v@.subrange(i as int, n as int);
        assert forall|k: int| j - i <= k < t.len() implies p(#[trigger] t[k]) by {
            assert(t[k] == v@[k + i]);
        }
        if j > i {
            assert(t[j - i - 1] == v@[j - 1]);
        }
        crate::text::lemma_strip_end_at(t, p, j - i);
        assert(t.subrange(0, j - i) =~= v@.subrange(i as int, j as int));
    }
    (i, j)
}

/// A slug, or a fallback word when the slug is empty.
pub open spec fn slug_or(title: Seq<char>, fallback: Seq<char>) -> Seq<char> {
    if slug(title).len() == 0 {
        fallback
    } else {
        slug(title)
    }
}

/// A subtask id from its title: the slug, or `subtask` when the slug is empty.
pub fn subtask_id_from_title(title: &str) -> (r: String)
    ensures
        r@ == slug_or(title@, "subtask"@),
{
    let s = slugify(title);
    if s.unicode_len() == 0 {
        String::from_str("subtask")
    } else {
        s
    }
}

/// A step id from its title: the slug, or `step` when the slug is empty.
pub fn step_id_from_title(title: &str) -> (r: String)
    ensures
        r@ == slug_or(title@, "step"@),
{
    let s = slugify(title);
    if s.unicode_len() == 0 {
        String::from_str("step")
    } else {
        s
    }
}

/// A phase id from its title: the slug, or `phase` when the slug is empty.
pub fn phase_id_from_title(title: &str) -> (r: String)
    ensures
        r@ == slug_or(title@, "phase"@),
{
    let s = slugify(title);
    if s.unicode_len() == 0 {
        String::from_str("phase")
    } else {
        s
    }
}

// ---------------------------------------------------------------------------
// Fresh ids
// ---------------------------------------------------------------------------

/// The `k`-th candidate for a fresh id: the base itself, then `base-2`,
/// `base-3`, ...
pub open spec fn candidate(base: Seq<char>, k: nat) -> Seq<char> {
    if k <= 1 {
        base
    } else {
        base + "-"@ + dec(k)
    }
}

/// The first candidate from the `k`-th on that is not used.
pub open spec fn unique_from(base: Seq<char>, used: Seq<Seq<char>>, k: nat) -> Seq<char>
    decreases used.len() + 2 - k,
{
    if k > used.len() + 1 {
        candidate(base, k)
    } else if !used.contains(candidate(base, k)) {
        candidate(base, k)
    } else {
        unique_from(base, used, k + 1)
    }
}

/// `unique_id`: the first of `base`, `base-2`, `base-3`, ... that is not used.
pub open spec fn unique(base: Seq<char>, used: Seq<Seq<char>>) -> Seq<char> {
    unique_from(base, used, 1)
}

proof fn lemma_candidates_distinct(base: Seq<char>, a: nat, b: nat)
    requires
        1 <= a < b,
    ensures
        candidate(base, a) != candidate(base, b),
{
    reveal_strlit("-");
    lemma_dec_len(b);
    if a == 1 {
        assert(candidate(base, b).len() > base.len());
    } else {
        let ca = candidate(base, a);
        let cb = candidate(base, b);
        if ca == cb {
            let pre = base + "-"@;
            assert(ca.subrange(pre.len() as int, ca.len() as int) =~= dec(a));
            assert(cb.subrange(pre.len() as int, cb.len() as int) =~= dec(b));
            lemma_dec_injective(a, b);
        }
    }
}

/// The set of the first `k` candidates.
spec fn candidate_set(base: Seq<char>, k: nat) -> Set<Seq<char>>
    decreases k,
{
    if k == 0 {
        Set::empty()
    } else {
        candidate_set(base, (k - 1) as nat).insert(candidate(base, k))
    }
}

proof fn lemma_candidate_set(base: Seq<char>, k: nat)
    ensures
        candidate_set(base, k).finite(),
        candidate_set(base, k).len() == k,
        forall|m: nat| 1 <= m <= k ==> candidate_set(base, k).contains(#[trigger] candidate(base, m)),
        forall|x: Seq<char>|
            #[trigger] candidate_set(base, k).contains(x) ==> exists|m: nat|
                1 <= m <= k && x == candidate(base, m),
    decreases k,
{
    if k > 0 {
        lemma_candidate_set(base, (k - 1) as nat);
        let prev = candidate_set(base, (k - 1) as nat);
        if prev.contains(candidate(base, k)) {
            let m = choose|m: nat| 1 <= m <= k - 1 && candidate(base, k) == candidate(base, m);
            lemma_candidates_distinct(base, m, k);
        }
        assert forall|x: Seq<char>| #[trigger] candidate_set(base, k).contains(x) implies exists|
            m: nat,
        | 1 <= m <= k && x == candidate(base, m) by {
            if x != candidate(base, k) {
                assert(prev.contains(x));
            }
        }
    }
}

/// When every candidate before the `k`-th is used, `k` is at most one more
/// than the number of used ids.
proof fn lemma_used_bound(base: Seq<char>, used: Seq<Seq<char>>, k: nat)
    requires
        k >= 1,
        forall|m: nat| 1 <= m < k ==> used.contains(#[trigger] candidate(base, m)),
    ensures
        k <= used.len() + 1,
{
    let n = (k - 1) as nat;
    lemma_candidate_set(base, n);
    let cs = candidate_set(base, n);
    let us = used.to_set();
    assert forall|x: Seq<char>| cs.contains(x) implies us.contains(x) by {
        let m = choose|m: nat| 1 <= m <= n && x == candidate(base, m);
        assert(used.contains(candidate(base, m)));
    }
    used.lemma_cardinality_of_set();
    lemma_len_subset(cs, us);
}

proof fn lemma_unique_from(base: Seq<char>, used: Seq<Seq<char>>, k: nat)
    requires
        k >= 1,
        forall|m: nat| 1 <= m < k ==> used.contains(#[trigger] candidate(base, m)),
    ensures
        !used.contains(unique_from(base, used, k)),
        exists|m: nat| m >= k && unique_from(base, used, k) == candidate(base, m) && forall|
            t: nat,
        | 1 <= t < m ==> used.contains(#[trigger] candidate(base, t)),
    decreases used.len() + 2 - k,
{
    if k > used.len() + 1 {
        lemma_used_bound(base, used, k);
    } else if !used.contains(candidate(base, k)) {
    } else {
        assert forall|m: nat| 1 <= m < k + 1 implies used.contains(#[trigger] candidate(base, m)) by {
            if m < k {
            }
        }
        lemma_unique_from(base, used, k + 1);
    }
}

/// The id that `unique_id` returns is not used.
pub proof fn lemma_unique_fresh(base: Seq<char>, used: Seq<Seq<char>>)
    ensures
        !used.contains(unique(base, used)),
        !used.contains(base) ==> unique(base, used) == base,
{
    lemma_unique_from(base, used, 1);
}

/// The id that `unique_id` returns is at least as long as its base.
pub proof fn lemma_unique_len(base: Seq<char>, used: Seq<Seq<char>>)
    ensures
        unique(base, used).len() >= base.len(),
{
    lemma_unique_from(base, used, 1);
    let m = choose|m: nat| m >= 1 && unique_from(base, used, 1) == candidate(base, m) && forall|t: nat|
        1 <= t < m ==> used.contains(#[trigger] candidate(base, t));
    assert(candidate(base, m).len() >= base.len());
}

/// Whether `id` is in the list of used ids.
pub fn used_has(used: &Vec<String>, id: &String) -> (r: bool)
    ensures
        r == used.deep_view().contains(id@),
{
    let ghost u = used.deep_view();
    let mut k: usize = 0;
    while k < used.len()
        invariant
            u == used.deep_view(),
            k <= used@.len(),
            forall|m: int| 0 <= m < k ==> u[m] != id@,
        decreases used@.len() - k,
    {
        assert(u[k as int] == used@[k as int]@);
        if used[k] == *id {
            assert(u[k as int] == id@);
            return true;
        }
        k += 1;
    }
    false
}

/// `unique_id`: the first of `base`, `base-2`, `base-3`, ... that is not
/// yet used; it is recorded as used.
pub fn unique_id(base: &str, used: &mut Vec<String>) -> (r: String)
    ensures
        r@ == unique(base@, old(used).deep_view()),
        final(used).deep_view() == old(used).deep_view().push(r@),
        !old(used).deep_view().contains(r@),
{
    let ghost u = used.deep_view();
    let n: usize = used.len();
    assert(u.len() == n);
    let mut k: u128 = 1;
    let mut cand = String::from_str(base);
    assert(cand@ == candidate(base@, 1));
    assert(unique(base@, u) == unique_from(base@, u, 1));
    loop
        invariant
            u == used.deep_view(),
            u.len() <= usize::MAX,
            1 <= k <= u.len() + 1,
            cand@ == candidate(base@, k as nat),
            unique(base@, u) == unique_from(base@, u, k as nat),
            forall|m: nat| 1 <= m < k ==> u.contains(#[trigger] candidate(base@, m)),
        ensures
            !u.contains(cand@),
        decreases u.len() + 1 - k,
    {
        if !used_has(used, &cand) {
            break;
        }
        proof {
            assert forall|m: nat| 1 <= m < k + 1 implies u.contains(#[trigger] candidate(base@, m)) by {
                if m < k {
                }
            }
            lemma_used_bound(base@, u, (k + 1) as nat);
        }
        k += 1;
        let num = decimal(k);
        cand = concat3(base, "-", num.as_str());
    }
    assert(!u.contains(cand@));
    assert(unique_from(base@, u, k as nat) == cand@);
    used.push(cand.clone());
    assert(used.deep_view() =~= u.push(cand@));
    cand
}

// ---------------------------------------------------------------------------
// Random identifiers
// ---------------------------------------------------------------------------

/// The characters of a hyphenated lower-case UUID.
pub open spec fn is_uuid_char(c: char) -> bool {
    (48 <= c as int <= 57) || (97 <= c as int <= 102) || c == '-'
}

/// A fresh random version-4 UUID in hyphenated lower-case form: uuid
/// `Uuid::new_v4` then `to_string`.
/// Claimed: 36 characters, each a lower-case hex digit or a hyphen. Which
/// UUID comes back is random and is not stated.
#[verifier::external_body]
pub(crate) fn new_uuid() -> (r: String)
    ensures
        r@.len() == 36,
        forall|i: int| 0 <= i < 36 ==> is_uuid_char(#[trigger] r@[i]),
{
    uuid::Uuid::new_v4().to_string()
}

/// The first eight characters of a fresh UUID.
pub fn short_uuid() -> (r: String)
    ensures
        r@.len() == 8,
        forall|i: int| 0 <= i < 8 ==> is_uuid_char(#[trigger] r@[i]),
{
    let u = new_uuid();
    let v = chars_of(u.as_str());
    let w = sub_vec(&v, 0, 8);
    string_from(w.as_slice())
}

// ---------------------------------------------------------------------------
// The shape of a slug
// ---------------------------------------------------------------------------

/// No character is an ASCII capital.
pub open spec fn no_capital(s: Seq<char>) -> bool {
    forall|k: int| 0 <= k < s.len() ==> !(65 <= (#[trigger] s[k]) as int <= 90)
}

/// Every character is an ASCII letter or digit, or a dash.
pub open spec fn slug_chars(s: Seq<char>) -> bool {
    forall|k: int| 0 <= k < s.len() ==> is_alnum(#[trigger] s[k]) || s[k] == '-'
}

/// No two dashes stand next to each other.
pub open spec fn no_double_dash(s: Seq<char>) -> bool {
    forall|k: int| 0 <= k < s.len() - 1 ==> !(#[trigger] s[k] == '-' && s[k + 1] == '-')
}

/// Some character is an ASCII letter or digit.
pub open spec fn has_alnum(s: Seq<char>) -> bool {
    exists|k: int| 0 <= k < s.len() && is_alnum(#[trigger] s[k])
}

/// What the slug's first pass keeps: letters and digits, and one dash for a
/// run of other characters; the dash flag says whether it ends in one.
pub proof fn lemma_slug_state(cs: Seq<char>)
    ensures
        ({
            let (out, dash) = slug_state(cs);
            &&& slug_chars(out)
            &&& no_double_dash(out)
            &&& dash <==> (out.len() > 0 && out.last() == '-')
            &&& has_alnum(out) <==> has_alnum(cs)
            &&& forall|k: int| 0 <= k < out.len() && out[k] != '-' ==> cs.contains(#[trigger] out[k])
        }),
    decreases cs.len(),
{
    if cs.len() > 0 {
        let init = cs.drop_last();
        lemma_slug_state(init);
        let (o0, d0) = slug_state(init);
        let c = cs.last();
        let (out, dash) = slug_state(cs);
        assert(cs == init.push(c));
        assert forall|k: int| 0 <= k < o0.len() && o0[k] != '-' implies cs.contains(#[trigger] o0[k]) by {
            assert(init.contains(o0[k]));
            let m = choose|m: int| 0 <= m < init.len() && init[m] == o0[k];
            assert(cs[m] == init[m]);
        }
        if has_alnum(init) {
            let m = choose|m: int| 0 <= m < init.len() && is_alnum(#[trigger] init[m]);
            assert(cs[m] == init[m]);
        }
        if has_alnum(o0) {
            let m = choose|m: int| 0 <= m < o0.len() && is_alnum(#[trigger] o0[m]);
            assert(out[m] == o0[m]);
        }
        if has_alnum(cs) && !is_alnum(c) {
            let m = choose|m: int| 0 <= m < cs.len() && is_alnum(#[trigger] cs[m]);
            assert(m < init.len());
            assert(init[m] == cs[m]);
        }
        if has_alnum(out) && !is_alnum(c) {
            let m = choose|m: int| 0 <= m < out.len() && is_alnum(#[trigger] out[m]);
            if m < o0.len() {
                assert(o0[m] == out[m]);
            }
        }
        if is_alnum(c) {
            assert(out == o0.push(c));
            assert(out[out.len() - 1] == c);
            assert(cs.contains(c)) by {
                assert(cs[cs.len() - 1] == c);
            }
        } else if !d0 {
            assert(out == o0.push('-'));
        }
    }
}

/// Where `strip_start` cuts: the characters before it satisfy `p`, the one
/// at it does not.
proof fn lemma_strip_start_index(s: Seq<char>, p: spec_fn(char) -> bool) -> (i: int)
    ensures
        0 <= i <= s.len(),
        strip_start(s, p) == s.subrange(i, s.len() as int),
        forall|k: int| 0 <= k < i ==> p(#[trigger] s[k]),
        i < s.len() ==> !p(s[i]),
    decreases s.len(),
{
    if s.len() > 0 && p(s[0]) {
        let t = s.drop_first();
        let i1 = lemma_strip_start_index(t, p);
        assert(t.subrange(i1, t.len() as int) =~= s.subrange(i1 + 1, s.len() as int));
        assert forall|k: int| 0 <= k < i1 + 1 implies p(#[trigger] s[k]) by {
            if k > 0 {
                assert(s[k] == t[k - 1]);
            }
        }
        if i1 + 1 < s.len() {
            assert(s[i1 + 1] == t[i1]);
        }
        i1 + 1
    } else {
        assert(s.subrange(0, s.len() as int) =~= s);
        0
    }
}

/// Where `strip_end` cuts: the characters from it on satisfy `p`, the one
/// before it does not.
proof fn lemma_strip_end_index(s: Seq<char>, p: spec_fn(char) -> bool) -> (j: int)
    ensures
        0 <= j <= s.len(),
        strip_end(s, p) == s.subrange(0, j),
        forall|k: int| j <= k < s.len() ==> p(#[trigger] s[k]),
        j > 0 ==> !p(s[j - 1]),
    decreases s.len(),
{
    if s.len() > 0 && p(s.last()) {
        let t = s.drop_last();
        let j1 = lemma_strip_end_index(t, p);
        assert(t.subrange(0, j1) =~= s.subrange(0, j1));
        assert forall|k: int| j1 <= k < s.len() implies p(#[trigger] s[k]) by {
            if k < t.len() {
                assert(s[k] == t[k]);
            }
        }
        if j1 > 0 {
            assert(s[j1 - 1] == t[j1 - 1]);
        }
        j1
    } else {
        assert(s.subrange(0, s.len() as int) =~= s);
        s.len() as int
    }
}

/// The characters a slug's first pass kept, once dashes are stripped from
/// both ends: a stretch of `out` that neither starts nor ends with a dash,
/// with only dashes around it.
proof fn lemma_strip_dashes(out: Seq<char>) -> (ij: (int, int))
    ensures
        0 <= ij.0 <= ij.1 <= out.len(),
        strip_end(strip_start(out, is_dash()), is_dash()) == out.subrange(ij.0, ij.1),
        forall|k: int| 0 <= k < ij.0 ==> #[trigger] out[k] == '-',
        forall|k: int| ij.1 <= k < out.len() ==> #[trigger] out[k] == '-',
        ij.0 < ij.1 ==> out[ij.0] != '-' && out[ij.1 - 1] != '-',
{
    let p = is_dash();
    let i = lemma_strip_start_index(out, p);
    let a = out.subrange(i, out.len() as int);
    let j = lemma_strip_end_index(a, p);
    assert(a.subrange(0, j) =~= out.subrange(i, i + j));
    assert forall|k: int| 0 <= k < i implies #[trigger] out[k] == '-' by {
        assert(p(out[k]));
    }
    assert forall|k: int| i + j <= k < out.len() implies #[trigger] out[k] == '-' by {
        assert(out[k] == a[k - i]);
        assert(p(a[k - i]));
    }
    if j > 0 {
        assert(a[0] == out[i]);
        assert(a[j - 1] == out[i + j - 1]);
        assert(!p(a[j - 1]));
        assert(j < a.len() || j == a.len());
        assert(i < out.len());
        assert(!p(out[i]));
    }
    (i, i + j)
}

/// The shape of a slug: at most 48 characters, only ASCII letters, digits
/// and dashes, no leading dash, no two dashes together, a trailing dash only
/// where the slug was cut at 48 characters; every letter or digit is one of
/// the lowercased title's; and it is empty exactly when the lowercased title
/// has no ASCII letter or digit.
pub proof fn lemma_slug_shape(s: Seq<char>)
    ensures
        ({
            let r = slug(s);
            &&& r.len() <= 48
            &&& slug_chars(r)
            &&& r.len() > 0 ==> r[0] != '-'
            &&& no_double_dash(r)
            &&& (r.len() > 0 && r.last() == '-') ==> r.len() == 48
            &&& forall|k: int| 0 <= k < r.len() && r[k] != '-' ==> flat_lower(s).contains(#[trigger] r[k])
            &&& r.len() == 0 <==> !has_alnum(flat_lower(s))
        }),
{
    let fl = flat_lower(s);
    lemma_slug_state(fl);
    let out = slug_state(fl).0;
    let (i, j) = lemma_strip_dashes(out);
    let t = out.subrange(i, j);
    assert(slug_chars(t)) by {
        assert forall|k: int| 0 <= k < t.len() implies is_alnum(#[trigger] t[k]) || t[k] == '-' by {
            assert(t[k] == out[i + k]);
        }
    }
    assert(no_double_dash(t)) by {
        assert forall|k: int| 0 <= k < t.len() - 1 implies !(#[trigger] t[k] == '-' && t[k + 1] == '-') by {
            assert(t[k] == out[i + k] && t[k + 1] == out[i + k + 1]);
        }
    }
    assert forall|k: int| 0 <= k < t.len() && t[k] != '-' implies fl.contains(#[trigger] t[k]) by {
        assert(t[k] == out[i + k]);
    }
    if has_alnum(out) {
        let m = choose|m: int| 0 <= m < out.len() && is_alnum(#[trigger] out[m]);
        assert(i <= m < j);
        assert(t[m - i] == out[m]);
    }
    if t.len() > 0 {
        assert(t[0] == out[i]);
        assert(is_alnum(t[0]));
    }
    let r = slug(s);
    if t.len() > 48 {
        assert(r == t.take(48));
        assert forall|k: int| 0 <= k < r.len() implies #[trigger] r[k] == t[k] by {}
        assert(slug_chars(r));
        assert(no_double_dash(r)) by {
            assert forall|k: int| 0 <= k < r.len() - 1 implies !(#[trigger] r[k] == '-' && r[k + 1] == '-') by {
                assert(r[k] == t[k] && r[k + 1] == t[k + 1]);
            }
        }
    } else {
        assert(r == t);
        if t.len() > 0 {
            assert(t.last() == out[j - 1]);
        }
    }
}

} // verus!
