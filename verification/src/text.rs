//! Character-level text operations, each with a specification over `Seq<char>`.
use vstd::prelude::*;

verus! {

/// Appends one character to a string: std `String::push`.
/// Claimed: the string's characters afterwards are the old ones followed by `c`.
#[verifier::external_body]
pub(crate) fn push_char(s: &mut String, c: char)
    ensures
        final(s)@ == old(s)@.push(c),
{
    s.push(c);
}

/// The characters of a string slice, in order.
pub fn chars_of(s: &str) -> (v: Vec<char>)
    ensures
        v@ == s@,
{
    let n = s.unicode_len();
    let mut v: Vec<char> = Vec::new();
    let mut i: usize = 0;
    while i < n
        invariant
            n == s@.len(),
            i <= n,
            v@ == s@.subrange(0, i as int),
        decreases n - i,
    {
        v.push(s.get_char(i));
        i += 1;
        assert(v@ =~= s@.subrange(0, i as int));
    }
    assert(v@ =~= s@);
    v
}

/// A string holding exactly the given characters.
pub fn string_from(v: &[char]) -> (s: String)
    ensures
        s@ == v@,
{
    let mut s = String::new();
    let mut i: usize = 0;
    while i < v.len()
        invariant
            i <= v@.len(),
            s@ == v@.subrange(0, i as int),
        decreases v@.len() - i,
    {
        push_char(&mut s, v[i]);
        i += 1;
        assert(s@ =~= v@.subrange(0, i as int));
    }
    assert(s@ =~= v@);
    s
}

/// A copy of a string slice as an owned string.
pub fn owned(s: &str) -> (r: String)
    ensures
        r@ == s@,
{
    String::from_str(s)
}

/// The concatenation of two strings.
pub fn concat2(a: &str, b: &str) -> (r: String)
    ensures
        r@ == a@ + b@,
{
    let mut r = String::from_str(a);
    r.append(b);
    r
}

/// The concatenation of three strings.
pub fn concat3(a: &str, b: &str, c: &str) -> (r: String)
    ensures
        r@ == a@ + b@ + c@,
{
    let mut r = String::from_str(a);
    r.append(b);
    r.append(c);
    r
}

/// Whether two strings hold the same characters.
pub fn str_eq(a: &str, b: &str) -> (r: bool)
    ensures
        r == (a@ == b@),
{
    let x = String::from_str(a);
    let y = String::from_str(b);
    x == y
}

// ---------------------------------------------------------------------------
// Whitespace and trimming
// ---------------------------------------------------------------------------

/// Unicode `White_Space`, the set that `char::is_whitespace` tests.
pub open spec fn is_ws(c: char) -> bool {
    let u = c as int;
    ||| 0x9 <= u <= 0xD
    ||| u == 0x20
    ||| u == 0x85
    ||| u == 0xA0
    ||| u == 0x1680
    ||| 0x2000 <= u <= 0x200A
    ||| u == 0x2028
    ||| u == 0x2029
    ||| u == 0x202F
    ||| u == 0x205F
    ||| u == 0x3000
}

/// Executable form of [`is_ws`].
pub fn is_whitespace(c: char) -> (r: bool)
    ensures
        r == is_ws(c),
{
    let u = c as u32;
    (0x9 <= u && u <= 0xD) || u == 0x20 || u == 0x85 || u == 0xA0 || u == 0x1680 || (0x2000 <= u
        && u <= 0x200A) || u == 0x2028 || u == 0x2029 || u == 0x202F || u == 0x205F || u == 0x3000
}

/// `s` without its leading characters that satisfy `p`.
pub open spec fn strip_start(s: Seq<char>, p: spec_fn(char) -> bool) -> Seq<char>
    decreases s.len(),
{
    if s.len() > 0 && p(s[0]) {
        strip_start(s.drop_first(), p)
    } else {
        s
    }
}

/// `s` without its trailing characters that satisfy `p`.
pub open spec fn strip_end(s: Seq<char>, p: spec_fn(char) -> bool) -> Seq<char>
    decreases s.len(),
{
    if s.len() > 0 && p(s.last()) {
        strip_end(s.drop_last(), p)
    } else {
        s
    }
}

/// `str::trim`: leading and trailing whitespace removed.
pub open spec fn trim(s: Seq<char>) -> Seq<char> {
    strip_end(strip_start(s, |c: char| is_ws(c)), |c: char| is_ws(c))
}

/// Whether a string is empty after trimming.
pub open spec fn is_blank(s: Seq<char>) -> bool {
    trim(s).len() == 0
}

pub proof fn lemma_strip_start_at(s: Seq<char>, p: spec_fn(char) -> bool, i: int)
    requires
        0 <= i <= s.len(),
        forall|k: int| 0 <= k < i ==> p(#[trigger] s[k]),
        i == s.len() || !p(s[i]),
    ensures
        strip_start(s, p) == s.subrange(i, s.len() as int),
    decreases i,
{
    if i == 0 {
        assert(s.subrange(0, s.len() as int) =~= s);
        if s.len() > 0 {
            assert(!p(s[0]));
        }
    } else {
        assert(p(s[0]));
        let t = s.drop_first();
        assert forall|k: int| 0 <= k < i - 1 implies p(#[trigger] t[k]) by {
            assert(t[k] == s[k + 1]);
        }
        lemma_strip_start_at(t, p, i - 1);
        assert(t.subrange(i - 1, t.len() as int) =~= s.subrange(i, s.len() as int));
    }
}

pub proof fn lemma_strip_end_at(s: Seq<char>, p: spec_fn(char) -> bool, j: int)
    requires
        0 <= j <= s.len(),
        forall|k: int| j <= k < s.len() ==> p(#[trigger] s[k]),
        j == 0 || !p(s[j - 1]),
    ensures
        strip_end(s, p) == s.subrange(0, j),
    decreases s.len() - j,
{
    if j == s.len() {
        assert(s.subrange(0, j) =~= s);
        if s.len() > 0 {
            assert(!p(s.last()));
        }
    } else {
        assert(p(s.last()));
        let t = s.drop_last();
        assert forall|k: int| j <= k < t.len() implies p(#[trigger] t[k]) by {
            assert(t[k] == s[k]);
        }
        if j > 0 {
            assert(t[j - 1] == s[j - 1]);
        }
        lemma_strip_end_at(t, p, j);
        assert(t.subrange(0, j) =~= s.subrange(0, j));
    }
}

/// The trimmed characters of `v`, with the bounds where they start and end.
pub fn trim_bounds(v: &Vec<char>) -> (r: (usize, usize))
    ensures
        r.0 <= r.1 <= v@.len(),
        trim(v@) == v@.subrange(r.0 as int, r.1 as int),
{
    let n = v.len();
    let mut i: usize = 0;
    while i < n && is_whitespace(v[i])
        invariant
            n == v@.len(),
            i <= n,
            forall|k: int| 0 <= k < i ==> is_ws(#[trigger] v@[k]),
        decreases n - i,
    {
        i += 1;
    }
    let ghost p = |c: char| is_ws(c);
    proof {
        lemma_strip_start_at(v@, p, i as int);
    }
    let mut j: usize = n;
    while j > i && is_whitespace(v[j - 1])
        invariant
            n == v@.len(),
            i <= j <= n,
            forall|k: int| j <= k < n ==> is_ws(#[trigger] v@[k]),
        decreases j,
    {
        j -= 1;
    }
    proof {
        let t = v@.subrange(i as int, n as int);
        assert forall|k: int| j - i <= k < t.len() implies p(#[trigger] t[k]) by {
            assert(t[k] == v@[k + i]);
        }
        if j > i {
            assert(t[j - i - 1] == v@[j - 1]);
        }
        lemma_strip_end_at(t, p, j - i);
        assert(t.subrange(0, j - i) =~= v@.subrange(i as int, j as int));
    }
    (i, j)
}

/// The characters of `v` between two bounds.
pub fn sub_vec(v: &Vec<char>, from: usize, to: usize) -> (r: Vec<char>)
    requires
        from <= to <= v@.len(),
    ensures
        r@ == v@.subrange(from as int, to as int),
{
    let mut r: Vec<char> = Vec::new();
    let mut k = from;
    while k < to
        invariant
            from <= k <= to,
            to <= v@.len(),
            r@ == v@.subrange(from as int, k as int),
        decreases to - k,
    {
        r.push(v[k]);
        k += 1;
        assert(r@ =~= v@.subrange(from as int, k as int));
    }
    r
}

/// `str::trim` on a string slice.
pub fn trim_str(s: &str) -> (r: String)
    ensures
        r@ == trim(s@),
{
    let v = chars_of(s);
    let (i, j) = trim_bounds(&v);
    let w = sub_vec(&v, i, j);
    string_from(w.as_slice())
}

/// Whether a string slice is empty once trimmed.
pub fn blank(s: &str) -> (r: bool)
    ensures
        r == is_blank(s@),
{
    let v = chars_of(s);
    let (i, j) = trim_bounds(&v);
    i == j
}

/// A trimmed copy of an optional string, kept only when it is not blank:
/// `value.map(str::trim).filter(|v| !v.is_empty())`.
pub open spec fn trimmed_nonblank(s: Option<Seq<char>>) -> Option<Seq<char>> {
    match s {
        Some(t) => if trim(t).len() > 0 {
            Some(trim(t))
        } else {
            None
        },
        None => None,
    }
}

pub open spec fn opt_view(s: Option<String>) -> Option<Seq<char>> {
    match s {
        Some(t) => Some(t@),
        None => None,
    }
}

/// Executable form of [`trimmed_nonblank`].
pub fn trimmed_nonblank_of(s: &Option<String>) -> (r: Option<String>)
    ensures
        opt_view(r) == trimmed_nonblank(opt_view(*s)),
{
    match s {
        Some(t) => {
            let tr = trim_str(t.as_str());
            if tr.unicode_len() > 0 {
                Some(tr)
            } else {
                None
            }
        },
        None => None,
    }
}

// ---------------------------------------------------------------------------
// Decimal numerals
// ---------------------------------------------------------------------------

pub open spec fn digit(d: nat) -> char {
    if d == 0 {
        '0'
    } else if d == 1 {
        '1'
    } else if d == 2 {
        '2'
    } else if d == 3 {
        '3'
    } else if d == 4 {
        '4'
    } else if d == 5 {
        '5'
    } else if d == 6 {
        '6'
    } else if d == 7 {
        '7'
    } else if d == 8 {
        '8'
    } else {
        '9'
    }
}

/// The decimal numeral of `n`, as `format!("{n}")` writes it.
pub open spec fn dec(n: nat) -> Seq<char>
    decreases n,
{
    if n < 10 {
        seq![digit(n)]
    } else {
        dec(n / 10).push(digit(n % 10))
    }
}

fn digit_exec(d: u128) -> (c: char)
    requires
        d < 10,
    ensures
        c == digit(d as nat),
{
    if d == 0 {
        '0'
    } else if d == 1 {
        '1'
    } else if d == 2 {
        '2'
    } else if d == 3 {
        '3'
    } else if d == 4 {
        '4'
    } else if d == 5 {
        '5'
    } else if d == 6 {
        '6'
    } else if d == 7 {
        '7'
    } else if d == 8 {
        '8'
    } else {
        '9'
    }
}

/// The decimal digits of `n`.
pub fn decimal_chars(n: u128) -> (v: Vec<char>)
    ensures
        v@ == dec(n as nat),
    decreases n,
{
    if n < 10 {
        let mut v: Vec<char> = Vec::new();
        v.push(digit_exec(n));
        assert(v@ =~= seq![digit(n as nat)]);
        v
    } else {
        let mut v = decimal_chars(n / 10);
        v.push(digit_exec(n % 10));
        v
    }
}

/// `n.to_string()`.
pub fn decimal(n: u128) -> (s: String)
    ensures
        s@ == dec(n as nat),
{
    let v = decimal_chars(n);
    string_from(v.as_slice())
}

pub proof fn lemma_dec_len(n: nat)
    ensures
        dec(n).len() >= 1,
        n >= 10 ==> dec(n).len() >= 2,
    decreases n,
{
    if n >= 10 {
        lemma_dec_len(n / 10);
    }
}

pub proof fn lemma_digit_injective(a: nat, b: nat)
    requires
        a < 10,
        b < 10,
        digit(a) == digit(b),
    ensures
        a == b,
{
}

pub proof fn lemma_dec_injective(a: nat, b: nat)
    requires
        dec(a) == dec(b),
    ensures
        a == b,
    decreases a + b,
{
    lemma_dec_len(a);
    lemma_dec_len(b);
    if a < 10 && b < 10 {
        assert(dec(a)[0] == digit(a));
        assert(dec(b)[0] == digit(b));
        lemma_digit_injective(a, b);
    } else if a < 10 {
        assert(dec(a).len() == 1);
    } else if b < 10 {
        assert(dec(b).len() == 1);
    } else {
        assert(dec(a).last() == digit(a % 10));
        assert(dec(b).last() == digit(b % 10));
        lemma_digit_injective(a % 10, b % 10);
        assert(dec(a / 10) =~= dec(a).drop_last());
        assert(dec(b / 10) =~= dec(b).drop_last());
        lemma_dec_injective(a / 10, b / 10);
        assert(a == 10 * (a / 10) + a % 10);
        assert(b == 10 * (b / 10) + b % 10);
    }
}

// ---------------------------------------------------------------------------
// Searching
// ---------------------------------------------------------------------------

/// Whether `pat` occurs in `s` starting at position `i`.
pub open spec fn occurs_at(s: Seq<char>, pat: Seq<char>, i: int) -> bool {
    0 <= i && i + pat.len() <= s.len() && s.subrange(i, i + pat.len()) == pat
}

/// The first position at or after `i` where `pat` occurs in `s`.
pub open spec fn find_from(s: Seq<char>, pat: Seq<char>, i: int) -> Option<int>
    decreases s.len() + 1 - i,
{
    if i < 0 || i > s.len() {
        None
    } else if occurs_at(s, pat, i) {
        Some(i)
    } else {
        find_from(s, pat, i + 1)
    }
}

/// The position of the first occurrence of `pat` in `s`: `str::find`.
pub open spec fn find_first(s: Seq<char>, pat: Seq<char>) -> Option<int> {
    find_from(s, pat, 0)
}

pub proof fn lemma_find_from(s: Seq<char>, pat: Seq<char>, i: int)
    requires
        0 <= i,
    ensures
        match find_from(s, pat, i) {
            Some(k) => i <= k <= s.len() && occurs_at(s, pat, k) && forall|j: int|
                i <= j < k ==> !occurs_at(s, pat, j),
            None => forall|j: int| i <= j ==> !occurs_at(s, pat, j),
        },
    decreases s.len() + 1 - i,
{
    if i > s.len() {
    } else if occurs_at(s, pat, i) {
    } else {
        lemma_find_from(s, pat, i + 1);
    }
}

pub open spec fn contains_seq(s: Seq<char>, pat: Seq<char>) -> bool {
    exists|i: int| occurs_at(s, pat, i)
}

pub open spec fn starts_with(s: Seq<char>, pat: Seq<char>) -> bool {
    pat.len() <= s.len() && s.subrange(0, pat.len() as int) == pat
}

/// Whether `pat` occurs in `v` at position `i`.
pub fn matches_at(v: &Vec<char>, pat: &Vec<char>, i: usize) -> (r: bool)
    ensures
        r == occurs_at(v@, pat@, i as int),
{
    if i > v.len() || pat.len() > v.len() - i {
        return false;
    }
    let mut k: usize = 0;
    while k < pat.len()
        invariant
            i + pat@.len() <= v@.len(),
            v@.len() <= usize::MAX,
            k <= pat@.len(),
            forall|t: int| 0 <= t < k ==> v@[i + t] == pat@[t],
        decreases pat@.len() - k,
    {
        if v[i + k] != pat[k] {
            assert(v@.subrange(i as int, i + pat@.len())[k as int] != pat@[k as int]);
            return false;
        }
        k += 1;
    }
    assert(v@.subrange(i as int, i + pat@.len()) =~= pat@);
    true
}

/// `str::find`: the first position at which `pat` occurs in `v`.
pub fn find_in(v: &Vec<char>, pat: &Vec<char>) -> (r: Option<usize>)
    ensures
        match r {
            Some(i) => find_first(v@, pat@) == Some(i as int),
            None => find_first(v@, pat@) is None,
        },
{
    let n = v.len();
    let mut i: usize = 0;
    while i <= n
        invariant
            n == v@.len(),
            i <= n + 1,
            find_first(v@, pat@) == find_from(v@, pat@, i as int),
        decreases n + 1 - i,
    {
        if matches_at(v, pat, i) {
            return Some(i);
        }
        if i == n {
            assert(find_from(v@, pat@, n + 1) is None);
            return None;
        }
        i += 1;
    }
    None
}

/// Whether `s` starts with `pat`.
pub fn has_prefix(s: &Vec<char>, pat: &Vec<char>) -> (r: bool)
    ensures
        r == starts_with(s@, pat@),
{
    let r = matches_at(s, pat, 0);
    proof {
        if pat@.len() <= s@.len() {
            assert(s@.subrange(0, pat@.len() as int) == s@.subrange(0int, 0 + pat@.len() as int));
        }
    }
    r
}

// ---------------------------------------------------------------------------
// Ordering
// ---------------------------------------------------------------------------

/// The order of `String`: lexicographic by code point (the order of the
/// UTF-8 bytes).
pub open spec fn seq_lt(a: Seq<char>, b: Seq<char>) -> bool
    decreases a.len(),
{
    if a.len() == 0 {
        b.len() > 0
    } else if b.len() == 0 {
        false
    } else if a[0] != b[0] {
        (a[0] as int) < (b[0] as int)
    } else {
        seq_lt(a.drop_first(), b.drop_first())
    }
}

pub proof fn lemma_seq_lt_irreflexive(a: Seq<char>)
    ensures
        !seq_lt(a, a),
    decreases a.len(),
{
    if a.len() > 0 {
        lemma_seq_lt_irreflexive(a.drop_first());
    }
}

pub proof fn lemma_seq_lt_trichotomy(a: Seq<char>, b: Seq<char>)
    ensures
        seq_lt(a, b) || seq_lt(b, a) || a == b,
        !(seq_lt(a, b) && seq_lt(b, a)),
    decreases a.len(),
{
    if a.len() == 0 {
        if b.len() == 0 {
            assert(a =~= b);
        }
    } else if b.len() == 0 {
    } else if a[0] != b[0] {
        assert((a[0] as int) != (b[0] as int));
    } else {
        lemma_seq_lt_trichotomy(a.drop_first(), b.drop_first());
        if a.drop_first() == b.drop_first() {
            assert(a =~= seq![a[0]] + a.drop_first());
            assert(b =~= seq![b[0]] + b.drop_first());
        }
    }
}

pub proof fn lemma_seq_lt_transitive(a: Seq<char>, b: Seq<char>, c: Seq<char>)
    requires
        seq_lt(a, b),
        seq_lt(b, c),
    ensures
        seq_lt(a, c),
    decreases a.len(),
{
    if a.len() > 0 && b.len() > 0 && c.len() > 0 && a[0] == b[0] && b[0] == c[0] {
        lemma_seq_lt_transitive(a.drop_first(), b.drop_first(), c.drop_first());
    }
}

/// Whether two character sequences are equal.
pub fn vec_eq(a: &Vec<char>, b: &Vec<char>) -> (r: bool)
    ensures
        r == (a@ == b@),
{
    if a.len() != b.len() {
        return false;
    }
    let mut i: usize = 0;
    while i < a.len()
        invariant
            a@.len() == b@.len(),
            i <= a@.len(),
            forall|k: int| 0 <= k < i ==> a@[k] == b@[k],
        decreases a@.len() - i,
    {
        if a[i] != b[i] {
            return false;
        }
        i += 1;
    }
    assert(a@ =~= b@);
    true
}

/// Compares two strings in the order of `String`.
pub fn less_than(a: &Vec<char>, b: &Vec<char>) -> (r: bool)
    ensures
        r == seq_lt(a@, b@),
{
    let mut i: usize = 0;
    assert(a@.subrange(0, a@.len() as int) =~= a@);
    assert(b@.subrange(0, b@.len() as int) =~= b@);
    while i < a.len() && i < b.len() && a[i] == b[i]
        invariant
            i <= a@.len(),
            i <= b@.len(),
            seq_lt(a@, b@) == seq_lt(a@.subrange(i as int, a@.len() as int), b@.subrange(i as int, b@.len() as int)),
        decreases a@.len() - i,
    {
        proof {
            let x = a@.subrange(i as int, a@.len() as int);
            let y = b@.subrange(i as int, b@.len() as int);
            assert(x.drop_first() =~= a@.subrange(i + 1, a@.len() as int));
            assert(y.drop_first() =~= b@.subrange(i + 1, b@.len() as int));
        }
        i += 1;
    }
    let ghost x = a@.subrange(i as int, a@.len() as int);
    let ghost y = b@.subrange(i as int, b@.len() as int);
    if i == a.len() {
        i < b.len()
    } else if i == b.len() {
        false
    } else {
        assert(x[0] == a@[i as int]);
        assert(y[0] == b@[i as int]);
        a[i] < b[i]
    }
}

// ---------------------------------------------------------------------------
// Case
// ---------------------------------------------------------------------------

/// What `char::to_lowercase` yields for `c` (Unicode lowercase mapping).
pub uninterp spec fn char_lowercase(c: char) -> Seq<char>;

/// What `str::to_lowercase` returns for the characters `s`.
pub uninterp spec fn str_lowercase(s: Seq<char>) -> Seq<char>;

/// The lowercase form of one character: std `char::to_lowercase`, collected.
/// Claimed: the result is [`char_lowercase`] of `c`, a function of `c` alone;
/// for an ASCII character it is the one character `char::to_ascii_lowercase`
/// gives (`A`-`Z` become `a`-`z`, the rest stay); and, as the Unicode
/// lowercase mapping yields no capital letter, it holds no ASCII capital.
#[verifier::external_body]
pub(crate) fn lowercase_char(c: char) -> (r: Vec<char>)
    ensures
        r@ == char_lowercase(c),
        (c as int) < 128 ==> r@ == seq![ascii_lower(c)],
        forall|k: int| 0 <= k < r@.len() ==> !(65 <= (#[trigger] r@[k]) as int <= 90),
{
    c.to_lowercase().collect()
}

/// The lowercase form of a string: std `str::to_lowercase`.
/// Claimed: the result is [`str_lowercase`] of the characters, a function of
/// them alone, and holds no ASCII capital (the Unicode lowercase mapping
/// yields none).
#[verifier::external_body]
pub(crate) fn lowercase(s: &str) -> (r: String)
    ensures
        r@ == str_lowercase(s@),
        forall|k: int| 0 <= k < r@.len() ==> !(65 <= (#[trigger] r@[k]) as int <= 90),
{
    s.to_lowercase()
}

/// ASCII letters and digits: `char::is_ascii_alphanumeric`.
pub open spec fn is_alnum(c: char) -> bool {
    (48 <= c as int <= 57) || (65 <= c as int <= 90) || (97 <= c as int <= 122)
}

pub fn ascii_alphanumeric(c: char) -> (r: bool)
    ensures
        r == is_alnum(c),
{
    ('0' <= c && c <= '9') || ('A' <= c && c <= 'Z') || ('a' <= c && c <= 'z')
}

/// An ASCII capital as its small letter; any other character as it is
/// (std `char::to_ascii_lowercase`).
pub open spec fn ascii_lower(c: char) -> char {
    if 65 <= c as int <= 90 {
        (c as int + 32) as char
    } else {
        c
    }
}

/// Whether two texts are equal when ASCII capitals count as small letters
/// (std `str::eq_ignore_ascii_case`).
pub open spec fn eq_ignore_ascii_case(a: Seq<char>, b: Seq<char>) -> bool {
    a.len() == b.len() && forall|i: int| 0 <= i < a.len() ==> ascii_lower(#[trigger] a[i]) == ascii_lower(b[i])
}

fn ascii_lower_exec(c: char) -> (r: char)
    ensures
        r == ascii_lower(c),
{
    if 'A' <= c && c <= 'Z' {
        let u = c as u32 + 32;
        assert(u == c as int + 32);
        let r = char_from_ascii(u);
        r
    } else {
        c
    }
}

fn char_from_ascii(u: u32) -> (c: char)
    requires
        u < 128,
    ensures
        c as int == u,
{
    let b = u as u8;
    b as char
}

/// Whether two texts are equal when ASCII capitals count as small letters
/// (std `str::eq_ignore_ascii_case`).
pub fn equal_ignoring_ascii_case(a: &Vec<char>, b: &Vec<char>) -> (r: bool)
    ensures
        r == eq_ignore_ascii_case(a@, b@),
{
    if a.len() != b.len() {
        return false;
    }
    let mut i: usize = 0;
    while i < a.len()
        invariant
            a@.len() == b@.len(),
            i <= a@.len(),
            forall|k: int| 0 <= k < i ==> ascii_lower(#[trigger] a@[k]) == ascii_lower(b@[k]),
        decreases a@.len() - i,
    {
        if ascii_lower_exec(a[i]) != ascii_lower_exec(b[i]) {
            return false;
        }
        i += 1;
    }
    true
}

// ---------------------------------------------------------------------------
// Splitting and joining
// ---------------------------------------------------------------------------

/// `str::trim_start_matches(pat)`: every leading occurrence of `pat` removed.
pub open spec fn strip_prefix_all(s: Seq<char>, pat: Seq<char>) -> Seq<char>
    decreases s.len(),
{
    if pat.len() > 0 && starts_with(s, pat) {
        strip_prefix_all(s.skip(pat.len() as int), pat)
    } else {
        s
    }
}

/// `str::trim_start_matches(pat)`.
pub fn strip_prefix_all_vec(v: &Vec<char>, pat: &Vec<char>) -> (r: Vec<char>)
    ensures
        r@ == strip_prefix_all(v@, pat@),
{
    let mut start: usize = 0;
    let n = v.len();
    if pat.len() == 0 {
        return sub_vec(v, 0, v.len());
    }
    assert(v@.subrange(0, v@.len() as int) =~= v@);
    while matches_at(v, pat, start)
        invariant
            start <= v@.len(),
            v@.len() <= usize::MAX,
            pat@.len() > 0,
            strip_prefix_all(v@, pat@) == strip_prefix_all(v@.subrange(start as int, v@.len() as int), pat@),
        decreases v@.len() - start,
    {
        proof {
            let t = v@.subrange(start as int, v@.len() as int);
            assert(t.subrange(0, pat@.len() as int) =~= v@.subrange(start as int, start + pat@.len()));
            assert(t.skip(pat@.len() as int) =~= v@.subrange(start + pat@.len(), v@.len() as int));
        }
        start = start + pat.len();
    }
    proof {
        let t = v@.subrange(start as int, v@.len() as int);
        if starts_with(t, pat@) {
            assert(t.subrange(0, pat@.len() as int) =~= v@.subrange(start as int, start + pat@.len()));
        }
    }
    sub_vec(v, start, v.len())
}

/// `str::split(pat)` for a non-empty pattern: the pieces between the
/// occurrences of `pat`, found from the left.
pub open spec fn split_on(s: Seq<char>, pat: Seq<char>) -> Seq<Seq<char>>
    decreases s.len(),
{
    match find_first(s, pat) {
        Some(i) => if pat.len() > 0 && 0 <= i && i + pat.len() <= s.len() {
            seq![s.take(i)] + split_on(s.skip(i + pat.len()), pat)
        } else {
            seq![s]
        },
        None => seq![s],
    }
}

/// A split always yields at least one piece.
pub proof fn lemma_split_on_nonempty(s: Seq<char>, pat: Seq<char>)
    ensures
        split_on(s, pat).len() >= 1,
{
}

/// A list of pieces: `head` followed by `tail`.
fn cons_piece(head: Vec<char>, tail: Vec<Vec<char>>) -> (r: Vec<Vec<char>>)
    ensures
        r.deep_view() == seq![head@] + tail.deep_view(),
{
    let ghost hv = head@;
    let ghost tv = tail.deep_view();
    let mut r: Vec<Vec<char>> = Vec::new();
    r.push(head);
    let mut tail = tail;
    let ghost ts = tail@;
    r.append(&mut tail);
    assert(r@.len() == 1 + ts.len());
    assert forall|k: int| 0 <= k < r@.len() implies #[trigger] r.deep_view()[k] == (seq![hv] + tv)[k] by {
        if k > 0 {
            assert(r@[k] == ts[k - 1]);
        }
    }
    assert(r.deep_view() =~= seq![hv] + tv);
    r
}

/// A list holding one piece.
fn single_piece(v: Vec<char>) -> (r: Vec<Vec<char>>)
    ensures
        r.deep_view() == seq![v@],
{
    let ghost vv = v@;
    let mut r: Vec<Vec<char>> = Vec::new();
    r.push(v);
    assert(r.deep_view()[0] == vv);
    assert(r.deep_view() =~= seq![vv]);
    r
}

/// `str::split(pat)` for a non-empty pattern.
pub fn split_on_vec(v: &Vec<char>, pat: &Vec<char>) -> (r: Vec<Vec<char>>)
    requires
        pat@.len() > 0,
    ensures
        r.deep_view() == split_on(v@, pat@),
    decreases v@.len(),
{
    let n = v.len();
    match find_in(v, pat) {
        Some(i) => {
            proof {
                lemma_find_from(v@, pat@, 0);
            }
            let head = sub_vec(v, 0, i);
            let rest = sub_vec(v, i + pat.len(), n);
            assert(head@ =~= v@.take(i as int));
            assert(rest@ =~= v@.skip(i + pat@.len()));
            let tail = split_on_vec(&rest, pat);
            cons_piece(head, tail)
        },
        None => {
            let all = sub_vec(v, 0, n);
            assert(all@ =~= v@);
            single_piece(all)
        },
    }
}

/// Splits `s` on a single character: `str::split(c)`.
pub open spec fn split_char(s: Seq<char>, c: char) -> Seq<Seq<char>> {
    split_on(s, seq![c])
}

/// A line without a trailing carriage return.
pub open spec fn strip_cr(l: Seq<char>) -> Seq<char> {
    if l.len() > 0 && l.last() == '\r' {
        l.drop_last()
    } else {
        l
    }
}

/// `str::lines`: the pieces between newlines, without a final empty piece
/// and with a carriage return before a newline removed.
pub open spec fn lines_of(s: Seq<char>) -> Seq<Seq<char>>
    decreases s.len(),
{
    if s.len() == 0 {
        Seq::empty()
    } else {
        match find_first(s, seq!['\n']) {
            Some(i) => if 0 <= i < s.len() {
                seq![strip_cr(s.take(i))] + lines_of(s.skip(i + 1))
            } else {
                seq![s]
            },
            None => seq![s],
        }
    }
}

/// The lines of a text: split at each newline, a final newline ending the
/// last line, and a carriage return before a newline dropped (std
/// `str::lines`).
pub fn lines_vec(v: &Vec<char>) -> (r: Vec<Vec<char>>)
    ensures
        r.deep_view() == lines_of(v@),
    decreases v@.len(),
{
    let n = v.len();
    if n == 0 {
        let r: Vec<Vec<char>> = Vec::new();
        assert(r.deep_view() =~= Seq::<Seq<char>>::empty());
        return r;
    }
    let mut nl: Vec<char> = Vec::new();
    nl.push('\n');
    assert(nl@ =~= seq!['\n']);
    match find_in(v, &nl) {
        Some(i) => {
            proof {
                lemma_find_from(v@, nl@, 0);
            }
            let mut head = sub_vec(v, 0, i);
            assert(head@ =~= v@.take(i as int));
            if head.len() > 0 && head[head.len() - 1] == '\r' {
                head.pop();
            }
            let rest = sub_vec(v, i + 1, n);
            assert(rest@ =~= v@.skip(i + 1));
            let tail = lines_vec(&rest);
            cons_piece(head, tail)
        },
        None => {
            let all = sub_vec(v, 0, n);
            assert(all@ =~= v@);
            single_piece(all)
        },
    }
}

/// The pieces joined with `sep` between them: `join`.
pub open spec fn join(pieces: Seq<Seq<char>>, sep: Seq<char>) -> Seq<char>
    decreases pieces.len(),
{
    if pieces.len() == 0 {
        Seq::empty()
    } else if pieces.len() == 1 {
        pieces[0]
    } else {
        join(pieces.drop_last(), sep) + sep + pieces.last()
    }
}

/// Joins pieces with a separator.
pub fn join_vec(pieces: &Vec<Vec<char>>, sep: &Vec<char>) -> (r: Vec<char>)
    ensures
        r@ == join(pieces.deep_view(), sep@),
{
    let ghost ps = pieces.deep_view();
    let mut r: Vec<char> = Vec::new();
    let mut k: usize = 0;
    while k < pieces.len()
        invariant
            ps == pieces.deep_view(),
            k <= pieces@.len(),
            r@ == join(ps.take(k as int), sep@),
        decreases pieces@.len() - k,
    {
        assert(ps.take(k + 1).drop_last() =~= ps.take(k as int));
        assert(ps[k as int] == pieces@[k as int]@);
        if k > 0 {
            let mut i: usize = 0;
            let ghost r0 = r@;
            while i < sep.len()
                invariant
                    i <= sep@.len(),
                    r@ == r0 + sep@.take(i as int),
                decreases sep@.len() - i,
            {
                r.push(sep[i]);
                i += 1;
                assert(r@ =~= r0 + sep@.take(i as int));
            }
            assert(sep@.take(sep@.len() as int) =~= sep@);
        } else {
            assert(ps.take(1) =~= seq![ps[0]]);
        }
        let mut i: usize = 0;
        let ghost r1 = r@;
        while i < pieces[k].len()
            invariant
                k < pieces@.len(),
                i <= pieces@[k as int]@.len(),
                r@ == r1 + pieces@[k as int]@.take(i as int),
            decreases pieces@[k as int]@.len() - i,
        {
            r.push(pieces[k][i]);
            i += 1;
            assert(r@ =~= r1 + pieces@[k as int]@.take(i as int));
        }
        assert(pieces@[k as int]@.take(pieces@[k as int]@.len() as int) =~= pieces@[k as int]@);
        proof {
            if k == 0 {
                assert(r@ =~= ps[0]);
            }
        }
        k += 1;
    }
    assert(ps.take(pieces@.len() as int) =~= ps);
    r
}

/// The text without trailing whitespace (std `str::trim_end`).
pub fn trim_end_vec(v: &Vec<char>) -> (r: Vec<char>)
    ensures
        r@ == strip_end(v@, |c: char| is_ws(c)),
{
    let n = v.len();
    let mut j: usize = n;
    while j > 0 && is_whitespace(v[j - 1])
        invariant
            n == v@.len(),
            j <= n,
            forall|k: int| j <= k < n ==> is_ws(#[trigger] v@[k]),
        decreases j,
    {
        j -= 1;
    }
    proof {
        lemma_strip_end_at(v@, |c: char| is_ws(c), j as int);
    }
    sub_vec(v, 0, j)
}

/// `str::trim` on characters.
pub fn trim_vec(v: &Vec<char>) -> (r: Vec<char>)
    ensures
        r@ == trim(v@),
{
    let (i, j) = trim_bounds(v);
    sub_vec(v, i, j)
}

/// Joins strings with a separator: `pieces.join(sep)`.
pub fn join_strings(pieces: &Vec<String>, sep: &str) -> (r: String)
    ensures
        r@ == join(pieces.deep_view(), sep@),
{
    let ghost ps = pieces.deep_view();
    let mut r = String::new();
    let mut k: usize = 0;
    while k < pieces.len()
        invariant
            ps == pieces.deep_view(),
            k <= ps.len(),
            r@ == join(ps.take(k as int), sep@),
        decreases ps.len() - k,
    {
        assert(ps.take(k + 1).drop_last() =~= ps.take(k as int));
        assert(ps[k as int] == pieces@[k as int]@);
        if k > 0 {
            r.append(sep);
        } else {
            assert(ps.take(1) =~= seq![ps[0]]);
            assert(r@ =~= Seq::<char>::empty());
        }
        r.append(pieces[k].as_str());
        proof {
            if k == 0 {
                assert(r@ =~= ps[0]);
            }
        }
        k += 1;
    }
    assert(ps.take(ps.len() as int) =~= ps);
    r
}

/// `str::replace(pat, to)`: every occurrence of `pat`, left to right and
/// not overlapping, replaced by `to`.
pub open spec fn replace_all(s: Seq<char>, pat: Seq<char>, to: Seq<char>) -> Seq<char> {
    join(split_on(s, pat), to)
}

/// `str::replace(pat, to)` for a non-empty pattern.
pub fn replace_str(s: &str, pat: &str, to: &str) -> (r: String)
    requires
        pat@.len() > 0,
    ensures
        r@ == replace_all(s@, pat@, to@),
{
    let v = chars_of(s);
    let p = chars_of(pat);
    let t = chars_of(to);
    let pieces = split_on_vec(&v, &p);
    let joined = join_vec(&pieces, &t);
    string_from(joined.as_slice())
}

/// `str::contains` for a string pattern.
pub fn contains_text(s: &str, pat: &str) -> (r: bool)
    ensures
        r == contains_seq(s@, pat@),
{
    let v = chars_of(s);
    let p = chars_of(pat);
    let found = find_in(&v, &p);
    proof {
        lemma_find_from(v@, p@, 0);
        if found is None {
            assert forall|j: int| !occurs_at(s@, pat@, j) by {
                if j >= 0 {
                }
            }
        }
    }
    found.is_some()
}

/// `str::starts_with` for a string pattern.
pub fn starts_with_text(s: &str, pat: &str) -> (r: bool)
    ensures
        r == starts_with(s@, pat@),
{
    let v = chars_of(s);
    let p = chars_of(pat);
    has_prefix(&v, &p)
}

// ---------------------------------------------------------------------------
// Occurrences
// ---------------------------------------------------------------------------

/// `strip_end` keeps a prefix of its argument.
pub proof fn lemma_strip_end_prefix(s: Seq<char>, p: spec_fn(char) -> bool)
    ensures
        strip_end(s, p).len() <= s.len(),
        strip_end(s, p) == s.take(strip_end(s, p).len() as int),
    decreases s.len(),
{
    if s.len() > 0 && p(s.last()) {
        lemma_strip_end_prefix(s.drop_last(), p);
        assert(s.drop_last().take(strip_end(s, p).len() as int) =~= s.take(strip_end(s, p).len() as int));
    } else {
        assert(s.take(s.len() as int) =~= s);
    }
}

pub proof fn lemma_find_first_at(s: Seq<char>, pat: Seq<char>, k: int)
    requires
        occurs_at(s, pat, k),
        forall|j: int| 0 <= j < k ==> !occurs_at(s, pat, j),
    ensures
        find_first(s, pat) == Some(k),
{
    lemma_find_from(s, pat, 0);
    match find_from(s, pat, 0) {
        Some(m) => {
            if m > k {
            } else if m < k {
            }
        },
        None => {},
    }
}

pub open spec fn no_newline(s: Seq<char>) -> bool {
    forall|i: int| 0 <= i < s.len() ==> s[i] != '\n'
}

/// An occurrence of a pattern without newlines does not cover a newline.
pub proof fn lemma_occ_avoids_newline(s: Seq<char>, pat: Seq<char>, j: int, q: int)
    requires
        occurs_at(s, pat, j),
        no_newline(pat),
        0 <= q < s.len(),
        s[q] == '\n',
    ensures
        j + pat.len() <= q || q < j,
{
    if j <= q < j + pat.len() {
        assert(s.subrange(j, j + pat.len())[q - j] == s[q]);
    }
}

pub proof fn lemma_occ_in_part(x: Seq<char>, part: Seq<char>, off: int, pat: Seq<char>, j: int)
    requires
        0 <= off,
        off + part.len() <= x.len(),
        x.subrange(off, off + part.len()) == part,
        occurs_at(x, pat, j),
        off <= j,
        j + pat.len() <= off + part.len(),
    ensures
        occurs_at(part, pat, j - off),
{
    assert(part.subrange(j - off, j - off + pat.len()) =~= x.subrange(j, j + pat.len()));
}

} // verus!
