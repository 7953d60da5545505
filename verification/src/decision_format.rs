//! How the accepted-decisions text is laid out, and the facts that let a
//! reader find each part of an entry again.
use crate::decisions::{parse_chunk, section};
use crate::models::AcceptedDecisionModel;
use crate::text::{
    contains_seq, find_first, is_ws, join, lemma_find_first_at, lemma_find_from, lemma_occ_avoids_newline,
    lemma_occ_in_part, lemma_strip_end_at, lemma_strip_start_at, lines_of, no_newline, occurs_at, starts_with,
    strip_cr, strip_end, strip_prefix_all, strip_start, trim};
use vstd::prelude::*;

verus! {

// ---------------------------------------------------------------------------
// Entries that read back as written
// ---------------------------------------------------------------------------

/// Whether `c` never occurs in `s`.
pub open spec fn lacks(s: Seq<char>, c: char) -> bool {
    forall|i: int| 0 <= i < s.len() ==> #[trigger] s[i] != c
}

/// A section's text that reads back as written: not empty, trimmed,
/// without carriage returns, and without anything a reader takes for the
/// start of another entry (`## ` at a line's start) or section (`### ` at
/// a line's start).
pub open spec fn plain_section(s: Seq<char>) -> bool {
    &&& s.len() > 0
    &&& trim(s) == s
    &&& lacks(s, '\r')
    &&& !starts_with(s, "## "@)
    &&& !contains_seq(s, "\n## "@)
    &&& !contains_seq(s, "\n### "@)
}

/// An accepted decision that reads back as written: a trimmed date on one
/// line that does not start with `#` and holds no " - " (not even with the
/// space that follows it), a trimmed title on one line, and plain sections,
/// the earlier ones not naming a later section's heading.
pub open spec fn well_formed_decision(e: AcceptedDecisionModel) -> bool {
    &&& e.date.len() > 0
    &&& e.date[0] != '#'
    &&& trim(e.date) == e.date
    &&& lacks(e.date, '\n')
    &&& !contains_seq(e.date + " "@, " - "@)
    &&& trim(e.title) == e.title
    &&& lacks(e.title, '\n')
    &&& plain_section(e.context)
    &&& plain_section(e.decision)
    &&& plain_section(e.impact)
    &&& !contains_seq(e.context, "### Decision"@)
    &&& !contains_seq(e.context, "### Impact"@)
    &&& !contains_seq(e.decision, "### Impact"@)
}

/// The heading line of an entry, without its `## `.
pub open spec fn heading_of(e: AcceptedDecisionModel) -> Seq<char> {
    e.date + " - "@ + e.title
}

/// The lines of an entry after its heading, joined.
pub open spec fn sections_of(e: AcceptedDecisionModel) -> Seq<char> {
    "\n### Context\n"@ + e.context + "\n\n### Decision\n"@ + e.decision + "\n\n### Impact\n"@ + e.impact
}

/// An entry as the writer lays it out, without its `\n## ` and final
/// newline.
pub open spec fn entry_body(e: AcceptedDecisionModel) -> Seq<char> {
    heading_of(e) + "\n"@ + sections_of(e)
}

// ---------------------------------------------------------------------------
// Trimming
// ---------------------------------------------------------------------------

pub open spec fn ws_pred() -> spec_fn(char) -> bool {
    |c: char| is_ws(c)
}

proof fn lemma_strip_start_shrinks(s: Seq<char>, p: spec_fn(char) -> bool)
    ensures
        strip_start(s, p).len() <= s.len(),
        s.len() > 0 && p(s[0]) ==> strip_start(s, p).len() < s.len(),
    decreases s.len(),
{
    if s.len() > 0 && p(s[0]) {
        lemma_strip_start_shrinks(s.drop_first(), p);
    }
}

proof fn lemma_strip_end_shrinks(s: Seq<char>, p: spec_fn(char) -> bool)
    ensures
        strip_end(s, p).len() <= s.len(),
        s.len() > 0 && p(s.last()) ==> strip_end(s, p).len() < s.len(),
    decreases s.len(),
{
    if s.len() > 0 && p(s.last()) {
        lemma_strip_end_shrinks(s.drop_last(), p);
    }
}

/// A trimmed text that is not empty starts and ends with a character that
/// is no whitespace.
pub proof fn lemma_trimmed_ends(s: Seq<char>)
    requires
        trim(s) == s,
        s.len() > 0,
    ensures
        !is_ws(s[0]),
        !is_ws(s.last()),
{
    let p = ws_pred();
    lemma_strip_start_shrinks(s, p);
    lemma_strip_end_shrinks(strip_start(s, p), p);
    if is_ws(s[0]) {
        assert(p(s[0]));
    }
    if is_ws(s.last()) {
        lemma_strip_start_at(s, p, 0);
        assert(s.subrange(0, s.len() as int) =~= s);
        assert(p(s.last()));
    }
}

/// Trimming a text whose ends are no whitespace, followed by whitespace,
/// gives the text.
pub proof fn lemma_trim_before_space(s: Seq<char>, tail: Seq<char>)
    requires
        s.len() > 0,
        !is_ws(s[0]),
        !is_ws(s.last()),
        all_space(tail),
    ensures
        trim(s + tail) == s,
{
    let p = ws_pred();
    let x = s + tail;
    lemma_strip_start_at(x, p, 0);
    assert(x.subrange(0, x.len() as int) =~= x);
    assert forall|k: int| s.len() <= k < x.len() implies p(#[trigger] x[k]) by {
        assert(x[k] == tail[k - s.len()]);
    }
    assert(x[s.len() - 1] == s.last());
    lemma_strip_end_at(x, p, s.len() as int);
    assert(x.subrange(0, s.len() as int) =~= s);
}

/// Whether every character of `s` is whitespace.
pub open spec fn all_space(s: Seq<char>) -> bool {
    forall|i: int| 0 <= i < s.len() ==> is_ws(#[trigger] s[i])
}

// ---------------------------------------------------------------------------
// Lines
// ---------------------------------------------------------------------------

proof fn lemma_lines_first(h: Seq<char>, rest: Seq<char>)
    requires
        lacks(h, '\n'),
    ensures
        lines_of(h + "\n"@ + rest) == seq![strip_cr(h)] + lines_of(rest),
{
    reveal_strlit("\n");
    let s = h + "\n"@ + rest;
    assert(occurs_at(s, seq!['\n'], h.len() as int)) by {
        assert(s.subrange(h.len() as int, h.len() + 1int) =~= seq!['\n']);
    }
    assert forall|j: int| 0 <= j < h.len() implies !occurs_at(s, seq!['\n'], j) by {
        if occurs_at(s, seq!['\n'], j) {
            assert(s.subrange(j, j + 1)[0] == s[j]);
            assert(s[j] == h[j]);
        }
    }
    lemma_find_first_at(s, seq!['\n'], h.len() as int);
    assert(s.take(h.len() as int) =~= h);
    assert(s.skip(h.len() + 1int) =~= rest);
}

proof fn lemma_join_cons(a: Seq<char>, l: Seq<Seq<char>>, sep: Seq<char>)
    requires
        l.len() > 0,
    ensures
        join(seq![a] + l, sep) == a + sep + join(l, sep),
    decreases l.len(),
{
    let x = seq![a] + l;
    if l.len() == 1 {
        assert(x.drop_last() =~= seq![a]);
        assert(x.last() == l[0]);
        assert(join(seq![a], sep) == a);
        assert(join(l, sep) == l[0]);
    } else {
        assert(x.drop_last() =~= seq![a] + l.drop_last());
        lemma_join_cons(a, l.drop_last(), sep);
        assert(x.last() == l.last());
        assert(join(x, sep) == join(x.drop_last(), sep) + sep + x.last());
        assert(join(l, sep) == join(l.drop_last(), sep) + sep + l.last());
        assert(join(x, sep) =~= a + sep + join(l, sep));
    }
}

/// Joining the lines of a text with newlines gives the text back, when it
/// has no carriage return and does not end with a newline.
proof fn lemma_join_lines(s: Seq<char>)
    requires
        lacks(s, '\r'),
        s.len() == 0 || s.last() != '\n',
    ensures
        join(lines_of(s), "\n"@) == s,
    decreases s.len(),
{
    reveal_strlit("\n");
    if s.len() > 0 {
        lemma_find_from(s, seq!['\n'], 0);
        match find_first(s, seq!['\n']) {
            Some(i) => {
                assert(s.subrange(i, i + 1)[0] == s[i]);
                let h = s.take(i);
                let t = s.skip(i + 1);
                assert(i + 1 < s.len());
                assert(lacks(t, '\r')) by {
                    assert forall|k: int| 0 <= k < t.len() implies #[trigger] t[k] != '\r' by {
                        assert(t[k] == s[k + i + 1]);
                    }
                }
                assert(t.last() == s.last());
                lemma_join_lines(t);
                if i > 0 {
                    assert(h.last() == s[i - 1]);
                }
                assert(strip_cr(h) == h);
                assert(lines_of(t).len() > 0);
                lemma_join_cons(h, lines_of(t), "\n"@);
                assert(h + "\n"@ + t =~= s);
            },
            None => {},
        }
    }
}

// ---------------------------------------------------------------------------
// Finding the parts of an entry
// ---------------------------------------------------------------------------

/// A pattern whose only newline is its first character cannot run over a
/// newline after its start.
pub proof fn lemma_occ_stops_at_newline(s: Seq<char>, pat: Seq<char>, j: int, q: int)
    requires
        occurs_at(s, pat, j),
        pat.len() > 0,
        forall|i: int| 0 < i < pat.len() ==> #[trigger] pat[i] != '\n',
        0 <= q < s.len(),
        s[q] == '\n',
        j < q,
    ensures
        j + pat.len() <= q,
{
    if q < j + pat.len() {
        assert(s.subrange(j, j + pat.len())[q - j] == s[q]);
    }
}

/// The first position at which `pat` occurs in `s` is `k`, given where it
/// does not.
proof fn lemma_first_at(s: Seq<char>, pat: Seq<char>, k: int)
    requires
        occurs_at(s, pat, k),
        forall|j: int| 0 <= j < k ==> !#[trigger] occurs_at(s, pat, j),
    ensures
        find_first(s, pat) == Some(k),
{
    lemma_find_first_at(s, pat, k);
}

proof fn lemma_no_occurrence(s: Seq<char>, pat: Seq<char>)
    requires
        forall|j: int| !#[trigger] occurs_at(s, pat, j),
    ensures
        find_first(s, pat) is None,
{
    lemma_find_from(s, pat, 0);
}

proof fn lemma_heading(e: AcceptedDecisionModel)
    requires
        well_formed_decision(e),
    ensures
        find_first(heading_of(e), " - "@) == Some(e.date.len() as int),
        trim(e.date) == e.date,
{
    reveal_strlit(" - ");
    let h = heading_of(e);
    let d = e.date;
    assert(h.subrange(d.len() as int, d.len() + 3int) =~= " - "@);
    lemma_trimmed_ends(d);
    reveal_strlit(" ");
    let ds = d + " "@;
    assert(ds.len() == d.len() + 1);
    assert forall|k: int| 0 <= k <= d.len() implies #[trigger] ds[k] == h[k] by {
        if k == d.len() {
            assert(h[k] == " - "@[0]);
        }
    }
    assert forall|j: int| 0 <= j < d.len() implies !#[trigger] occurs_at(h, " - "@, j) by {
        if occurs_at(h, " - "@, j) {
            if j + 3 <= ds.len() {
                assert forall|k: int| 0 <= k < 3 implies ds.subrange(j, j + 3)[k] == " - "@[k] by {
                    assert(ds[j + k] == h[j + k]);
                    assert(h.subrange(j, j + 3)[k] == h[j + k]);
                    assert(ds.subrange(j, j + 3)[k] == ds[j + k]);
                }
                assert(ds.subrange(j, j + 3) =~= " - "@);
                assert(occurs_at(ds, " - "@, j));
            } else {
                assert(j == d.len() - 1);
                assert(h.subrange(j, j + 3)[0] == h[j]);
                assert(h[j] == d.last());
            }
        }
    }
    lemma_first_at(h, " - "@, d.len() as int);
}

/// The section that starts after `skip` characters of `r` reads back as
/// `s`, when it is followed by `rest`, which starts with the next
/// heading's two newlines or is empty.
proof fn lemma_section_text(x: Seq<char>, s: Seq<char>, rest: Seq<char>)
    requires
        x == "\n"@ + s + rest,
        plain_section(s),
        rest.len() == 0 || starts_with(rest, "\n\n### "@),
    ensures
        ({
            let after = strip_prefix_all(x, seq!['\n']);
            let end = match find_first(after, "\n### "@) {
                Some(e) => e,
                None => after.len() as int,
            };
            trim(after.take(end)) == s
        }),
{
    reveal_strlit("\n");
    reveal_strlit("\n### ");
    reveal_strlit("\n\n### ");
    lemma_trimmed_ends(s);
    let after = s + rest;
    assert(starts_with(x, seq!['\n'])) by {
        assert(x.subrange(0, 1) =~= seq!['\n']);
    }
    assert(x.skip(1) =~= after);
    assert(!starts_with(after, seq!['\n'])) by {
        assert(after[0] == s[0]);
        if starts_with(after, seq!['\n']) {
            assert(after.subrange(0, 1)[0] == after[0]);
        }
    }
    assert(strip_prefix_all(after, seq!['\n']) == after);
    assert(strip_prefix_all(x, seq!['\n']) == after);
    let pat = "\n### "@;
    assert forall|i: int| 0 < i < pat.len() implies #[trigger] pat[i] != '\n' by {}
    let n = s.len() as int;
    assert forall|j: int| 0 <= j <= n implies !#[trigger] occurs_at(after, pat, j) by {
        if occurs_at(after, pat, j) {
            if j + 5 <= n {
                assert(after.subrange(0, n) =~= s);
                lemma_occ_in_part(after, s, 0, pat, j);
                assert(contains_seq(s, pat));
            } else {
                assert(rest.len() > 0);
                assert(rest.subrange(0, 6) == "\n\n### "@);
                assert(rest[0] == rest.subrange(0, 6)[0]);
                assert(rest[1] == rest.subrange(0, 6)[1]);
                assert(after[n] == rest[0]);
                assert(after[n + 1] == rest[1]);
                if j < n {
                    lemma_occ_stops_at_newline(after, pat, j, n);
                } else {
                    lemma_occ_stops_at_newline(after, pat, j, n + 1);
                }
            }
        }
    }
    if rest.len() == 0 {
        assert(after =~= s);
        assert forall|j: int| !#[trigger] occurs_at(after, pat, j) by {
            if occurs_at(after, pat, j) {
                assert(j + 5 <= n);
            }
        }
        lemma_no_occurrence(after, pat);
        assert(after.take(n) =~= s);
        lemma_trim_before_space(s, Seq::empty());
        assert(s + Seq::<char>::empty() =~= s);
    } else {
        assert(rest.subrange(0, 6) == "\n\n### "@);
        assert(rest[0] == rest.subrange(0, 6)[0]);
        assert(occurs_at(after, pat, n + 1)) by {
            assert(after.subrange(n + 1, n + 6) =~= rest.subrange(1, 6));
            assert(rest.subrange(1, 6) =~= rest.subrange(0, 6).subrange(1, 6));
            assert("\n\n### "@.subrange(1, 6) =~= pat);
        }
        lemma_first_at(after, pat, n + 1);
        assert(after.take(n + 1) =~= s + "\n"@);
        lemma_trim_before_space(s, "\n"@);
    }
}


/// An occurrence of `m` at `j` has `m[k]` at `j + k`.
proof fn lemma_char_of_occurrence(s: Seq<char>, m: Seq<char>, j: int, k: int)
    requires
        occurs_at(s, m, j),
        0 <= k < m.len(),
    ensures
        s[j + k] == m[k],
{
    assert(s.subrange(j, j + m.len())[k] == s[j + k]);
}

/// The three sections of a well-formed entry read back as written.
proof fn lemma_sections(e: AcceptedDecisionModel)
    requires
        well_formed_decision(e),
    ensures
        section(sections_of(e), "Context"@) == e.context,
        section(sections_of(e), "Decision"@) == e.decision,
        section(sections_of(e), "Impact"@) == e.impact,
{
    reveal_strlit("\n### Context\n");
    reveal_strlit("\n\n### Decision\n");
    reveal_strlit("\n\n### Impact\n");
    reveal_strlit("### ");
    reveal_strlit("Context");
    reveal_strlit("Decision");
    reveal_strlit("Impact");
    reveal_strlit("\n");
    reveal_strlit("### Context");
    reveal_strlit("### Decision");
    reveal_strlit("### Impact");
    reveal_strlit("\n\n### ");
    let c = e.context;
    let d = e.decision;
    let i = e.impact;
    let a1 = "\n### Context\n"@;
    let a2 = "\n\n### Decision\n"@;
    let a3 = "\n\n### Impact\n"@;
    let s = sections_of(e);
    let nc = c.len() as int;
    let nd = d.len() as int;
    assert(s =~= a1 + c + a2 + d + a3 + i);
    // the fixed parts, by position
    assert(s.subrange(0, 13) =~= a1);
    assert(s.subrange(13, 13 + nc) =~= c);
    assert(s.subrange(13 + nc, 28 + nc) =~= a2);
    assert(s.subrange(28 + nc, 28 + nc + nd) =~= d);
    assert(s.subrange(28 + nc + nd, 41 + nc + nd) =~= a3);
    assert(s.subrange(41 + nc + nd, s.len() as int) =~= i);
    assert forall|k: int| 0 <= k < 13 implies s[k] == #[trigger] a1[k] by {
        assert(s.subrange(0, 13)[k] == s[k]);
    }
    assert forall|k: int| 0 <= k < 15 implies s[13 + nc + k] == #[trigger] a2[k] by {
        assert(s.subrange(13 + nc, 28 + nc)[k] == s[13 + nc + k]);
    }
    assert forall|k: int| 0 <= k < 13 implies s[28 + nc + nd + k] == #[trigger] a3[k] by {
        assert(s.subrange(28 + nc + nd, 41 + nc + nd)[k] == s[28 + nc + nd + k]);
    }
    let mc = "### "@ + "Context"@;
    let md = "### "@ + "Decision"@;
    let mi = "### "@ + "Impact"@;
    assert(mc =~= "### Context"@);
    assert(md =~= "### Decision"@);
    assert(mi =~= "### Impact"@);
    assert(no_newline(mc));
    assert(no_newline(md));
    assert(no_newline(mi));
    // newlines of the fixed parts
    assert(s[0] == '\n' && s[12] == '\n');
    assert(s[13 + nc] == '\n' && s[14 + nc] == '\n' && s[27 + nc] == '\n');
    assert(s[28 + nc + nd] == '\n' && s[29 + nc + nd] == '\n' && s[40 + nc + nd] == '\n');
    // Context
    assert(occurs_at(s, mc, 1)) by {
        assert(s.subrange(1, 12) =~= mc);
    }
    assert forall|j: int| 0 <= j < 1 implies !#[trigger] occurs_at(s, mc, j) by {
        if occurs_at(s, mc, j) {
            lemma_occ_avoids_newline(s, mc, j, 0);
        }
    }
    lemma_first_at(s, mc, 1);
    let rc = a2 + d + a3 + i;
    assert(s.skip(12) =~= "\n"@ + c + rc);
    assert(starts_with(rc, "\n\n### "@)) by {
        assert(rc.subrange(0, 6) =~= "\n\n### "@);
    }
    lemma_section_text(s.skip(12), c, rc);
    // Decision
    let pd = 15 + nc;
    assert(occurs_at(s, md, pd)) by {
        assert(s.subrange(pd, pd + 12) =~= md);
    }
    assert forall|j: int| 0 <= j < pd implies !#[trigger] occurs_at(s, md, j) by {
        if occurs_at(s, md, j) {
            if j == 0 {
                lemma_occ_avoids_newline(s, md, j, 0);
            } else if j <= 12 {
                lemma_occ_avoids_newline(s, md, j, 12);
            } else if j < 13 + nc {
                lemma_occ_avoids_newline(s, md, j, 13 + nc);
                lemma_occ_in_part(s, c, 13, md, j);
                assert(contains_seq(c, md));
            } else if j == 13 + nc {
                lemma_occ_avoids_newline(s, md, j, 13 + nc);
            } else {
                lemma_occ_avoids_newline(s, md, j, 14 + nc);
            }
        }
    }
    lemma_first_at(s, md, pd);
    let rd = a3 + i;
    assert(s.skip(pd + 12) =~= "\n"@ + d + rd);
    assert(starts_with(rd, "\n\n### "@)) by {
        assert(rd.subrange(0, 6) =~= "\n\n### "@);
    }
    lemma_section_text(s.skip(pd + 12), d, rd);
    // Impact
    let pi = 30 + nc + nd;
    assert(occurs_at(s, mi, pi)) by {
        assert(s.subrange(pi, pi + 10) =~= mi);
    }
    assert forall|j: int| 0 <= j < pi implies !#[trigger] occurs_at(s, mi, j) by {
        if occurs_at(s, mi, j) {
            if j == 0 {
                lemma_occ_avoids_newline(s, mi, j, 0);
            } else if j == 1 {
                lemma_char_of_occurrence(s, mi, j, 4);
                assert(s[5] == a1[5]);
            } else if j == 2 {
                lemma_char_of_occurrence(s, mi, j, 2);
                assert(s[4] == a1[4]);
            } else if j <= 12 {
                lemma_occ_avoids_newline(s, mi, j, 12);
            } else if j < 13 + nc {
                lemma_occ_avoids_newline(s, mi, j, 13 + nc);
                lemma_occ_in_part(s, c, 13, mi, j);
                assert(contains_seq(c, mi));
            } else if j == 13 + nc {
                lemma_occ_avoids_newline(s, mi, j, 13 + nc);
            } else if j == 14 + nc {
                lemma_occ_avoids_newline(s, mi, j, 14 + nc);
            } else if j == 15 + nc {
                lemma_char_of_occurrence(s, mi, j, 4);
                assert(s[19 + nc] == a2[6]);
            } else if j == 16 + nc {
                lemma_char_of_occurrence(s, mi, j, 2);
                assert(s[18 + nc] == a2[5]);
            } else if j == 17 + nc {
                lemma_char_of_occurrence(s, mi, j, 1);
                assert(s[18 + nc] == a2[5]);
            } else if j <= 27 + nc {
                lemma_occ_avoids_newline(s, mi, j, 27 + nc);
            } else if j < 28 + nc + nd {
                lemma_occ_avoids_newline(s, mi, j, 28 + nc + nd);
                lemma_occ_in_part(s, d, 28 + nc, mi, j);
                assert(contains_seq(d, mi));
            } else if j == 28 + nc + nd {
                lemma_occ_avoids_newline(s, mi, j, 28 + nc + nd);
            } else {
                lemma_occ_avoids_newline(s, mi, j, 29 + nc + nd);
            }
        }
    }
    lemma_first_at(s, mi, pi);
    assert(s.skip(pi + 10) =~= "\n"@ + i + Seq::<char>::empty());
    lemma_section_text(s.skip(pi + 10), i, Seq::empty());
}

/// A well-formed entry laid out by the writer is read back as itself.
pub proof fn lemma_parse_entry(e: AcceptedDecisionModel)
    requires
        well_formed_decision(e),
    ensures
        parse_chunk(entry_body(e)) == e,
{
    reveal_strlit(" - ");
    reveal_strlit("\n");
    reveal_strlit("\n### Context\n");
    reveal_strlit("\n\n### Decision\n");
    reveal_strlit("\n\n### Impact\n");
    let h = heading_of(e);
    let r = sections_of(e);
    assert(lacks(h, '\n')) by {
        assert forall|k: int| 0 <= k < h.len() implies #[trigger] h[k] != '\n' by {
            if k < e.date.len() {
                assert(h[k] == e.date[k]);
                assert(e.date[k] != '\n');
            } else if k >= e.date.len() + 3 {
                assert(h[k] == e.title[k - e.date.len() - 3]);
            }
        }
    }
    lemma_lines_first(h, r);
    let ls = lines_of(entry_body(e));
    assert(strip_cr(h) == h) by {
        if e.title.len() > 0 {
            lemma_trimmed_ends(e.title);
            assert(h.last() == e.title.last());
        } else {
            assert(h.last() == ' ');
        }
    }
    assert(ls[0] == h);
    assert(ls.skip(1) =~= lines_of(r));
    lemma_trimmed_ends(e.impact);
    assert(lacks(r, '\r')) by {
        assert(r =~= "\n### Context\n"@ + e.context + "\n\n### Decision\n"@ + e.decision + "\n\n### Impact\n"@
            + e.impact);
        let nc = e.context.len() as int;
        let nd = e.decision.len() as int;
        assert forall|k: int| 0 <= k < r.len() implies #[trigger] r[k] != '\r' by {
            if 13 <= k < 13 + nc {
                assert(r[k] == e.context[k - 13]);
            } else if 28 + nc <= k < 28 + nc + nd {
                assert(r[k] == e.decision[k - 28 - nc]);
            } else if 41 + nc + nd <= k {
                assert(r[k] == e.impact[k - 41 - nc - nd]);
            }
        }
    }
    assert(r.last() == e.impact.last());
    lemma_join_lines(r);
    assert("\n"@ =~= seq!['\n']);
    lemma_heading(e);
    let d = e.date.len() as int;
    assert(h.take(d) =~= e.date);
    assert(h.skip(d + 3) =~= e.title);
    lemma_sections(e);
}


// ---------------------------------------------------------------------------
// Splitting the text into entries
// ---------------------------------------------------------------------------

/// What separates two entries in the text.
pub open spec fn entry_sep() -> Seq<char> {
    "\n## "@
}

/// Whether the separator occurs nowhere in `x`.
pub open spec fn no_sep(x: Seq<char>) -> bool {
    forall|j: int| !#[trigger] occurs_at(x, entry_sep(), j)
}

proof fn lemma_sep_chars()
    ensures
        entry_sep().len() == 4,
        entry_sep()[0] == '\n',
        entry_sep()[1] == '#',
        entry_sep()[2] == '#',
        entry_sep()[3] == ' ',
        forall|i: int| 0 < i < entry_sep().len() ==> #[trigger] entry_sep()[i] != '\n',
{
    reveal_strlit("\n## ");
}

/// No separator starts at the newline before a section, nor inside it.
proof fn lemma_no_sep_in_section(x: Seq<char>, s: Seq<char>, off: int)
    requires
        1 <= off,
        off + s.len() <= x.len(),
        x.subrange(off, off + s.len()) == s,
        x[off - 1] == '\n',
        off + s.len() == x.len() || x[off + s.len()] == '\n',
        s.len() > 0,
        !starts_with(s, "## "@),
        !contains_seq(s, "\n## "@),
    ensures
        forall|j: int| off - 1 <= j < off + s.len() ==> !#[trigger] occurs_at(x, entry_sep(), j),
{
    reveal_strlit("## ");
    lemma_sep_chars();
    let sep = entry_sep();
    let end = off + s.len();
    assert forall|j: int| off - 1 <= j < end implies !#[trigger] occurs_at(x, sep, j) by {
        if occurs_at(x, sep, j) {
            if j == off - 1 {
                if s.len() >= 3 {
                    assert forall|k: int| 0 <= k < 3 implies s[k] == #[trigger] "## "@[k] by {
                        lemma_char_of_occurrence(x, sep, j, k + 1);
                        assert(x.subrange(off, end)[k] == x[off + k]);
                    }
                    assert(s.subrange(0, 3) =~= "## "@);
                } else {
                    lemma_occ_stops_at_newline(x, sep, j, end);
                }
            } else if j + 4 <= end {
                lemma_occ_in_part(x, s, off, sep, j);
                assert(contains_seq(s, "\n## "@));
            } else {
                lemma_occ_stops_at_newline(x, sep, j, end);
            }
        }
    }
}

/// No separator starts at a position of `x` that holds no newline.
proof fn lemma_sep_needs_newline(x: Seq<char>, j: int)
    requires
        0 <= j < x.len(),
        x[j] != '\n',
    ensures
        !occurs_at(x, entry_sep(), j),
{
    lemma_sep_chars();
    if occurs_at(x, entry_sep(), j) {
        lemma_char_of_occurrence(x, entry_sep(), j, 0);
    }
}

/// The piece of the text that holds an entry: its body, after `## ` for
/// the first one, and with the newline that ends it unless it is the last.
pub open spec fn piece_of(pre: Seq<char>, e: AcceptedDecisionModel, tail: Seq<char>) -> Seq<char> {
    pre + entry_body(e) + tail
}

/// A heading has no newline.
proof fn lemma_heading_one_line(e: AcceptedDecisionModel)
    requires
        well_formed_decision(e),
    ensures
        lacks(heading_of(e), '\n'),
{
    reveal_strlit(" - ");
    let h = heading_of(e);
    assert forall|k: int| 0 <= k < h.len() implies #[trigger] h[k] != '\n' by {
        if k < e.date.len() {
            assert(h[k] == e.date[k]);
            assert(e.date[k] != '\n');
        } else if k >= e.date.len() + 3 {
            assert(h[k] == e.title[k - e.date.len() - 3]);
        }
    }
}

/// Whether a fixed part of an entry holds no separator, ends with a
/// newline, and has none just before it.
pub open spec fn quiet_literal(lit: Seq<char>) -> bool {
    &&& lit.len() >= 4
    &&& no_sep(lit)
    &&& lit.last() == '\n'
    &&& lit[lit.len() - 2] != '\n'
    &&& lit[lit.len() - 3] != '\n'
}

proof fn lemma_quiet_literals()
    ensures
        quiet_literal("\n\n### Context\n"@),
        quiet_literal("\n\n### Decision\n"@),
        quiet_literal("\n\n### Impact\n"@),
{
    reveal_strlit("\n\n### Context\n");
    reveal_strlit("\n\n### Decision\n");
    reveal_strlit("\n\n### Impact\n");
    lemma_sep_chars();
    let sep = entry_sep();
    assert forall|j: int| !#[trigger] occurs_at("\n\n### Context\n"@, sep, j) by {
        if occurs_at("\n\n### Context\n"@, sep, j) {
            lemma_char_of_occurrence("\n\n### Context\n"@, sep, j, 0);
            lemma_char_of_occurrence("\n\n### Context\n"@, sep, j, 1);
            lemma_char_of_occurrence("\n\n### Context\n"@, sep, j, 3);
        }
    }
    assert forall|j: int| !#[trigger] occurs_at("\n\n### Decision\n"@, sep, j) by {
        if occurs_at("\n\n### Decision\n"@, sep, j) {
            lemma_char_of_occurrence("\n\n### Decision\n"@, sep, j, 0);
            lemma_char_of_occurrence("\n\n### Decision\n"@, sep, j, 1);
            lemma_char_of_occurrence("\n\n### Decision\n"@, sep, j, 3);
        }
    }
    assert forall|j: int| !#[trigger] occurs_at("\n\n### Impact\n"@, sep, j) by {
        if occurs_at("\n\n### Impact\n"@, sep, j) {
            lemma_char_of_occurrence("\n\n### Impact\n"@, sep, j, 0);
            lemma_char_of_occurrence("\n\n### Impact\n"@, sep, j, 1);
            lemma_char_of_occurrence("\n\n### Impact\n"@, sep, j, 3);
        }
    }
}

/// No separator starts inside a quiet fixed part, but for its last newline.
proof fn lemma_no_sep_in_literal(x: Seq<char>, lit: Seq<char>, off: int)
    requires
        0 <= off,
        off + lit.len() <= x.len(),
        x.subrange(off, off + lit.len()) == lit,
        quiet_literal(lit),
    ensures
        forall|j: int| off <= j < off + lit.len() - 1 ==> !#[trigger] occurs_at(x, entry_sep(), j),
{
    lemma_sep_chars();
    let n = lit.len() as int;
    assert forall|j: int| off <= j < off + n - 1 implies !#[trigger] occurs_at(x, entry_sep(), j) by {
        if occurs_at(x, entry_sep(), j) {
            if j + 4 <= off + n {
                lemma_occ_in_part(x, lit, off, entry_sep(), j);
            } else {
                assert(x.subrange(off, off + n)[j - off] == x[j]);
                lemma_sep_needs_newline(x, j);
            }
        }
    }
}

/// An entry's piece holds no separator.
#[verifier::rlimit(40)]
proof fn lemma_piece_no_sep(pre: Seq<char>, e: AcceptedDecisionModel, tail: Seq<char>)
    requires
        well_formed_decision(e),
        pre == "## "@ || pre.len() == 0,
        tail == "\n"@ || tail.len() == 0,
    ensures
        no_sep(piece_of(pre, e, tail)),
{
    reveal_strlit("## ");
    reveal_strlit("\n");
    reveal_strlit("\n### Context\n");
    reveal_strlit("\n\n### Context\n");
    reveal_strlit("\n\n### Decision\n");
    reveal_strlit("\n\n### Impact\n");
    lemma_sep_chars();
    lemma_quiet_literals();
    lemma_heading_one_line(e);
    let sep = entry_sep();
    let x = piece_of(pre, e, tail);
    let head = pre + heading_of(e);
    let l1 = "\n\n### Context\n"@;
    let l2 = "\n\n### Decision\n"@;
    let l3 = "\n\n### Impact\n"@;
    let c = e.context;
    let d = e.decision;
    let i = e.impact;
    let p1 = head.len() as int;
    let oc = p1 + 14;
    let q2 = oc + c.len();
    let od = q2 + 15;
    let q3 = od + d.len();
    let oi = q3 + 13;
    let end = oi + i.len();
    assert(x =~= head + l1 + c + l2 + d + l3 + i + tail);
    assert(x.subrange(p1, oc) =~= l1);
    assert(x.subrange(oc, q2) =~= c);
    assert(x.subrange(q2, od) =~= l2);
    assert(x.subrange(od, q3) =~= d);
    assert(x.subrange(q3, oi) =~= l3);
    assert(x.subrange(oi, end) =~= i);
    assert(x[oc - 1] == l1[13]);
    assert(x[od - 1] == l2[14]);
    assert(x[oi - 1] == l3[12]);
    assert(x[q2] == l2[0]);
    assert(x[q3] == l3[0]);
    assert forall|j: int| 0 <= j < p1 implies #[trigger] x[j] != '\n' by {
        if j < pre.len() {
            assert(x[j] == pre[j]);
        } else {
            assert(x[j] == heading_of(e)[j - pre.len()]);
        }
    }
    lemma_no_sep_in_literal(x, l1, p1);
    lemma_no_sep_in_literal(x, l2, q2);
    lemma_no_sep_in_literal(x, l3, q3);
    lemma_no_sep_in_section(x, c, oc);
    lemma_no_sep_in_section(x, d, od);
    if tail.len() > 0 {
        assert(x[end] == '\n');
    }
    lemma_no_sep_in_section(x, i, oi);
    assert forall|j: int| !#[trigger] occurs_at(x, sep, j) by {
        if occurs_at(x, sep, j) && j < p1 {
            lemma_sep_needs_newline(x, j);
        }
    }
}

/// Splitting at the first separator, when the text before it holds none.
proof fn lemma_split_at_sep(a: Seq<char>, b: Seq<char>)
    requires
        no_sep(a),
    ensures
        crate::text::split_on(a + entry_sep() + b, entry_sep()) == seq![a] + crate::text::split_on(b, entry_sep()),
{
    lemma_sep_chars();
    let sep = entry_sep();
    let x = a + sep + b;
    let n = a.len() as int;
    assert(occurs_at(x, sep, n)) by {
        assert(x.subrange(n, n + 4) =~= sep);
    }
    assert forall|j: int| 0 <= j < n implies !#[trigger] occurs_at(x, sep, j) by {
        if occurs_at(x, sep, j) {
            if j + 4 <= n {
                assert(x.subrange(0, n) =~= a);
                lemma_occ_in_part(x, a, 0, sep, j);
            } else {
                assert(x[n] == '\n');
                lemma_occ_stops_at_newline(x, sep, j, n);
            }
        }
    }
    lemma_first_at(x, sep, n);
    assert(x.take(n) =~= a);
    assert(x.skip(n + 4) =~= b);
}

/// A text without separators is one piece.
proof fn lemma_split_none(a: Seq<char>)
    requires
        no_sep(a),
    ensures
        crate::text::split_on(a, entry_sep()) == seq![a],
{
    lemma_no_occurrence(a, entry_sep());
}


// ---------------------------------------------------------------------------
// The whole text
// ---------------------------------------------------------------------------

/// The bodies of the entries, each but the last followed by a newline and
/// the separator.
pub open spec fn joined_bodies(es: Seq<AcceptedDecisionModel>) -> Seq<char>
    decreases es.len(),
{
    if es.len() <= 1 {
        if es.len() == 1 {
            entry_body(es[0])
        } else {
            Seq::empty()
        }
    } else {
        entry_body(es[0]) + "\n"@ + entry_sep() + joined_bodies(es.drop_first())
    }
}

pub open spec fn all_well_formed(es: Seq<AcceptedDecisionModel>) -> bool {
    forall|k: int| 0 <= k < es.len() ==> well_formed_decision(#[trigger] es[k])
}

pub open spec fn body_fn() -> spec_fn(AcceptedDecisionModel) -> Seq<char> {
    |e: AcceptedDecisionModel| entry_body(e)
}

proof fn lemma_entry_text(e: AcceptedDecisionModel)
    requires
        well_formed_decision(e),
    ensures
        crate::decisions::entry_text(e) == "\n## "@ + entry_body(e) + "\n"@,
{
    reveal_strlit("\n### Context\n");
    reveal_strlit("\n\n### Context\n");
    reveal_strlit("\n");
    reveal_strlit(" - ");
    reveal_strlit("\n## ");
    reveal_strlit("\n\n### Decision\n");
    reveal_strlit("\n\n### Impact\n");
    assert(crate::decisions::entry_text(e) =~= "\n## "@ + entry_body(e) + "\n"@);
}

proof fn lemma_joined_snoc(es: Seq<AcceptedDecisionModel>)
    requires
        es.len() >= 2,
    ensures
        joined_bodies(es) == joined_bodies(es.drop_last()) + "\n"@ + entry_sep() + entry_body(es.last()),
    decreases es.len(),
{
    if es.len() == 2 {
        assert(es.drop_first() =~= seq![es[1]]);
        assert(es.drop_last() =~= seq![es[0]]);
        assert(joined_bodies(es.drop_first()) == entry_body(es[1]));
        assert(joined_bodies(es.drop_last()) == entry_body(es[0]));
        assert(es.last() == es[1]);
        assert(joined_bodies(es) =~= joined_bodies(es.drop_last()) + "\n"@ + entry_sep() + entry_body(es.last()));
    } else {
        let rest = es.drop_first();
        lemma_joined_snoc(rest);
        assert(rest.drop_last() =~= es.drop_last().drop_first());
        assert(es.drop_last()[0] == es[0]);
        assert(rest.last() == es.last());
        assert(joined_bodies(es.drop_last()) == entry_body(es[0]) + "\n"@ + entry_sep() + joined_bodies(
            rest.drop_last(),
        ));
        assert(joined_bodies(es) == entry_body(es[0]) + "\n"@ + entry_sep() + joined_bodies(rest));
        assert(joined_bodies(es) =~= joined_bodies(es.drop_last()) + "\n"@ + entry_sep() + entry_body(es.last()));
    }
}

proof fn lemma_entries_text(es: Seq<AcceptedDecisionModel>)
    requires
        all_well_formed(es),
        es.len() >= 1,
    ensures
        crate::decisions::entries_text(es) == "\n## "@ + joined_bodies(es) + "\n"@,
    decreases es.len(),
{
    reveal_strlit("\n## ");
    let last = es.last();
    assert(well_formed_decision(es[es.len() - 1]));
    lemma_entry_text(last);
    if es.len() == 1 {
        assert(es.drop_last() =~= Seq::<AcceptedDecisionModel>::empty());
        assert(crate::decisions::entries_text(es.drop_last()) =~= Seq::<char>::empty());
        assert(crate::decisions::entries_text(es) =~= "\n## "@ + joined_bodies(es) + "\n"@);
    } else {
        let init = es.drop_last();
        assert forall|k: int| 0 <= k < init.len() implies well_formed_decision(#[trigger] init[k]) by {
            assert(init[k] == es[k]);
        }
        lemma_entries_text(init);
        lemma_joined_snoc(es);
        assert(crate::decisions::entries_text(es) =~= "\n## "@ + joined_bodies(es) + "\n"@);
    }
}

/// A piece reads back, once cleaned, as the entry's body.
proof fn lemma_clean_piece(pre: Seq<char>, e: AcceptedDecisionModel, tail: Seq<char>)
    requires
        well_formed_decision(e),
        pre == "## "@ || pre.len() == 0,
        tail == "\n"@ || tail.len() == 0,
    ensures
        crate::decisions::clean_chunk(piece_of(pre, e, tail)) == entry_body(e),
{
    reveal_strlit("## ");
    reveal_strlit("\n");
    reveal_strlit(" - ");
    let b = entry_body(e);
    let x = piece_of(pre, e, tail);
    assert(b[0] == e.date[0]);
    assert(!starts_with(b + tail, "## "@)) by {
        if starts_with(b + tail, "## "@) {
            assert((b + tail).subrange(0, 3)[0] == (b + tail)[0]);
        }
    }
    if pre.len() > 0 {
        assert(starts_with(x, "## "@)) by {
            assert(x.subrange(0, 3) =~= "## "@);
        }
        assert(x.skip(3) =~= b + tail);
        assert(strip_prefix_all(b + tail, "## "@) == b + tail);
        assert(strip_prefix_all(x, "## "@) == b + tail);
    } else {
        assert(x =~= b + tail);
    }
    lemma_trimmed_ends(e.date);
    assert(!is_ws(e.date[0]));
    lemma_trimmed_ends(e.impact);
    assert(b.last() == e.impact.last());
    assert(all_space(tail)) by {
        if tail.len() > 0 {
            assert(tail[0] == '\n');
        }
    }
    lemma_trim_before_space(b, tail);
}

/// Splitting the joined bodies at the separators and cleaning the pieces
/// gives the bodies back.
proof fn lemma_split_joined(es: Seq<AcceptedDecisionModel>, pre: Seq<char>)
    requires
        all_well_formed(es),
        es.len() >= 1,
        pre == "## "@ || pre.len() == 0,
    ensures
        crate::text::split_on(pre + joined_bodies(es), entry_sep()).map_values(crate::decisions::cleaner())
            == es.map_values(body_fn()),
    decreases es.len(),
{
    reveal_strlit("\n");
    let e0 = es[0];
    assert(well_formed_decision(es[0]));
    if es.len() == 1 {
        assert(pre + joined_bodies(es) =~= piece_of(pre, e0, Seq::empty()));
        lemma_piece_no_sep(pre, e0, Seq::empty());
        lemma_split_none(piece_of(pre, e0, Seq::empty()));
        lemma_clean_piece(pre, e0, Seq::empty());
        assert(crate::text::split_on(pre + joined_bodies(es), entry_sep()).map_values(crate::decisions::cleaner())
            =~= es.map_values(body_fn()));
    } else {
        let rest = es.drop_first();
        assert forall|k: int| 0 <= k < rest.len() implies well_formed_decision(#[trigger] rest[k]) by {
            assert(rest[k] == es[k + 1]);
        }
        let a = piece_of(pre, e0, "\n"@);
        assert(pre + joined_bodies(es) =~= a + entry_sep() + joined_bodies(rest));
        lemma_piece_no_sep(pre, e0, "\n"@);
        lemma_split_at_sep(a, joined_bodies(rest));
        lemma_split_joined(rest, Seq::empty());
        assert(Seq::<char>::empty() + joined_bodies(rest) =~= joined_bodies(rest));
        lemma_clean_piece(pre, e0, "\n"@);
        let tail_pieces = crate::text::split_on(joined_bodies(rest), entry_sep());
        assert((seq![a] + tail_pieces).map_values(crate::decisions::cleaner()) =~= seq![entry_body(e0)]
            + tail_pieces.map_values(crate::decisions::cleaner()));
        assert(es.map_values(body_fn()) =~= seq![entry_body(e0)] + rest.map_values(body_fn()));
    }
}

proof fn lemma_filter_keeps_all(s: Seq<Seq<char>>)
    requires
        forall|k: int| 0 <= k < s.len() ==> (#[trigger] s[k]).len() > 0,
    ensures
        s.filter(crate::decisions::non_empty()) == s,
    decreases s.len(),
{
    reveal(Seq::filter);
    if s.len() > 0 {
        let init = s.drop_last();
        assert forall|k: int| 0 <= k < init.len() implies (#[trigger] init[k]).len() > 0 by {
            assert(init[k] == s[k]);
        }
        lemma_filter_keeps_all(init);
        assert(s.last().len() > 0);
        assert(init.push(s.last()) =~= s);
    }
}

/// The text of no decision reads back as none.
proof fn lemma_no_decisions_read_back()
    ensures
        crate::decisions::parse_decisions(crate::decisions::decisions_markdown(Seq::empty())) == Seq::<
            AcceptedDecisionModel,
        >::empty(),
{
    reveal_strlit("# Accepted Decisions\n");
    reveal_strlit("# Accepted Decisions");
    reveal_strlit("\n");
    let es = Seq::<AcceptedDecisionModel>::empty();
    let title = "# Accepted Decisions"@;
    let head = "# Accepted Decisions\n"@;
    let ws = crate::decisions::ws();
    let md = crate::decisions::decisions_markdown(es);
    assert(crate::decisions::entries_text(es) =~= Seq::<char>::empty());
    assert(head + crate::decisions::entries_text(es) =~= head);
    assert forall|k: int| 20 <= k < 21 implies ws(#[trigger] head[k]) by {}
    lemma_strip_end_at(head, ws, 20);
    assert(md =~= title + "\n"@);
    assert(starts_with(md, title)) by {
        assert(md.subrange(0, 20) =~= title);
    }
    assert(md.skip(20) =~= "\n"@);
    assert(strip_prefix_all("\n"@, title) == "\n"@);
    lemma_strip_start_at("\n"@, ws_pred(), 1);
    assert(trim("\n"@).len() == 0);
}

/// The writer's text of some decisions: the title line, then each entry.
#[verifier::rlimit(40)]
proof fn lemma_markdown_layout(es: Seq<AcceptedDecisionModel>)
    requires
        all_well_formed(es),
        es.len() >= 1,
    ensures
        crate::decisions::decisions_markdown(es) == "# Accepted Decisions"@ + "\n"@ + "\n## "@ + joined_bodies(es)
            + "\n"@,
        joined_bodies(es).len() > 0,
        !is_ws(joined_bodies(es).last()),
        joined_bodies(es)[0] == es[0].date[0],
{
    reveal_strlit("# Accepted Decisions\n");
    reveal_strlit("# Accepted Decisions");
    reveal_strlit("\n");
    reveal_strlit("\n## ");
    let head = "# Accepted Decisions\n"@;
    let ws = crate::decisions::ws();
    lemma_entries_text(es);
    let jb = joined_bodies(es);
    let full = head + "\n## "@ + jb + "\n"@;
    assert(head + crate::decisions::entries_text(es) =~= full);
    let last = es.last();
    assert(well_formed_decision(es[es.len() - 1]));
    lemma_trimmed_ends(last.impact);
    assert(jb.len() > 0 && jb.last() == last.impact.last()) by {
        if es.len() > 1 {
            lemma_joined_snoc(es);
        }
    }
    assert(jb[0] == es[0].date[0]) by {
        assert(well_formed_decision(es[0]));
        if es.len() > 1 {
            assert(jb[0] == entry_body(es[0])[0]);
        }
    }
    let n = full.len() as int;
    assert(full[n - 1] == '\n');
    assert(full[n - 2] == jb.last());
    assert forall|k: int| n - 1 <= k < n implies ws(#[trigger] full[k]) by {}
    lemma_strip_end_at(full, ws, n - 1);
    assert(full.subrange(0, n - 1) + "\n"@ =~= full);
    assert(full =~= "# Accepted Decisions"@ + "\n"@ + "\n## "@ + jb + "\n"@);
}

/// What the reader splits: the text without its title, trimmed.
#[verifier::rlimit(40)]
proof fn lemma_normalized(es: Seq<AcceptedDecisionModel>)
    requires
        all_well_formed(es),
        es.len() >= 1,
    ensures
        trim(strip_prefix_all(crate::decisions::decisions_markdown(es), "# Accepted Decisions"@)) == "## "@
            + joined_bodies(es),
{
    reveal_strlit("# Accepted Decisions");
    reveal_strlit("\n");
    reveal_strlit("\n## ");
    reveal_strlit("## ");
    lemma_markdown_layout(es);
    let title = "# Accepted Decisions"@;
    let md = crate::decisions::decisions_markdown(es);
    let jb = joined_bodies(es);
    assert(well_formed_decision(es[0]));
    assert(starts_with(md, title)) by {
        assert(md.subrange(0, 20) =~= title);
    }
    let rest = md.skip(20);
    assert(rest =~= "\n"@ + "\n## "@ + jb + "\n"@);
    assert(!starts_with(rest, title)) by {
        if starts_with(rest, title) {
            assert(rest.subrange(0, 20)[0] == rest[0]);
        }
    }
    assert(strip_prefix_all(rest, title) == rest);
    assert(strip_prefix_all(md, title) == rest);
    let p = ws_pred();
    assert(rest[2] == '#');
    assert(rest[0] == '\n' && rest[1] == '\n');
    lemma_strip_start_at(rest, p, 2);
    let m = rest.len() as int;
    let mid = rest.subrange(2, m);
    assert(mid.last() == '\n');
    assert(mid[m - 4] == jb.last());
    assert forall|k: int| m - 3 <= k < mid.len() implies p(#[trigger] mid[k]) by {}
    lemma_strip_end_at(mid, p, m - 3);
    assert(mid.subrange(0, m - 3) =~= "## "@ + jb);
}

/// The accepted decisions the writer lays out are read back as the same
/// decisions, when each is well formed.
pub proof fn lemma_decisions_read_back(es: Seq<AcceptedDecisionModel>)
    requires
        all_well_formed(es),
    ensures
        crate::decisions::parse_decisions(crate::decisions::decisions_markdown(es)) == es,
{
    reveal_strlit("## ");
    if es.len() == 0 {
        lemma_no_decisions_read_back();
        assert(es =~= Seq::<AcceptedDecisionModel>::empty());
    } else {
        lemma_normalized(es);
        let normalized = "## "@ + joined_bodies(es);
        assert(normalized.len() > 0);
        lemma_split_joined(es, "## "@);
        let bodies = es.map_values(body_fn());
        assert forall|k: int| 0 <= k < bodies.len() implies (#[trigger] bodies[k]).len() > 0 by {
            assert(bodies[k] == entry_body(es[k]));
            assert(well_formed_decision(es[k]));
        }
        lemma_filter_keeps_all(bodies);
        assert forall|k: int| 0 <= k < es.len() implies #[trigger] bodies.map_values(
            crate::decisions::chunk_parser(),
        )[k] == es[k] by {
            assert(well_formed_decision(es[k]));
            lemma_parse_entry(es[k]);
        }
        assert(bodies.map_values(crate::decisions::chunk_parser()) =~= es);
    }
}

} // verus!
