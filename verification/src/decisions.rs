//! The accepted-decisions Markdown file: writing the list of accepted
//! decisions and reading it back.
use crate::models::{AcceptedDecision, AcceptedDecisionModel};
use crate::text::{
    chars_of, find_first, find_in, is_ws, join, join_vec, lemma_find_from, lines_of, lines_vec,
    split_on, split_on_vec, string_from, strip_end, strip_prefix_all, strip_prefix_all_vec, sub_vec,
    trim, trim_end_vec, trim_vec,
};
use vstd::prelude::*;

verus! {

// ---------------------------------------------------------------------------
// Writing
// ---------------------------------------------------------------------------

/// A section's text, or a placeholder when it is empty.
pub open spec fn or_placeholder(s: Seq<char>, placeholder: Seq<char>) -> Seq<char> {
    if s.len() == 0 {
        placeholder
    } else {
        s
    }
}

/// The Markdown of one accepted decision, starting with a newline.
pub open spec fn entry_text(e: AcceptedDecisionModel) -> Seq<char> {
    "\n## "@ + e.date + " - "@ + e.title + "\n\n### Context\n"@ + or_placeholder(
        e.context,
        "_No context provided._"@,
    ) + "\n\n### Decision\n"@ + or_placeholder(e.decision, "_No decision text provided._"@)
        + "\n\n### Impact\n"@ + or_placeholder(e.impact, "_No impact recorded._"@) + "\n"@
}

/// The Markdown of a list of accepted decisions, one after the other.
pub open spec fn entries_text(es: Seq<AcceptedDecisionModel>) -> Seq<char>
    decreases es.len(),
{
    if es.len() == 0 {
        Seq::empty()
    } else {
        entries_text(es.drop_last()) + entry_text(es.last())
    }
}

pub open spec fn ws() -> spec_fn(char) -> bool {
    |c: char| is_ws(c)
}

/// `build_accepted_decision_markdown`: a title, then each decision with its
/// date, title, context, decision and impact; trailing whitespace trimmed and
/// one final newline.
pub open spec fn decisions_markdown(es: Seq<AcceptedDecisionModel>) -> Seq<char> {
    strip_end("# Accepted Decisions\n"@ + entries_text(es), ws()) + "\n"@
}

/// Appends the characters of `s`.
fn push_str(v: &mut Vec<char>, s: &str)
    ensures
        final(v)@ == old(v)@ + s@,
{
    let cs = chars_of(s);
    let ghost v0 = v@;
    let mut i: usize = 0;
    while i < cs.len()
        invariant
            i <= cs@.len(),
            cs@ == s@,
            v@ == v0 + cs@.take(i as int),
        decreases cs@.len() - i,
    {
        v.push(cs[i]);
        i += 1;
        assert(v@ =~= v0 + cs@.take(i as int));
    }
    assert(cs@.take(cs@.len() as int) =~= cs@);
}

fn section_text<'a>(s: &'a String, placeholder: &'a str) -> (r: &'a str)
    ensures
        r@ == or_placeholder(s@, placeholder@),
{
    if s.unicode_len() == 0 {
        placeholder
    } else {
        s.as_str()
    }
}

/// The accepted-decisions Markdown: the title, then each decision's heading
/// (`date - title`) and its Context, Decision and Impact sections, a
/// placeholder standing for an empty section.
pub fn build_accepted_decision_markdown(entries: &Vec<AcceptedDecision>) -> (r: String)
    ensures
        r@ == decisions_markdown(entries.deep_view()),
{
    let ghost es = entries.deep_view();
    let mut raw: Vec<char> = Vec::new();
    push_str(&mut raw, "# Accepted Decisions\n");
    let mut k: usize = 0;
    while k < entries.len()
        invariant
            es == entries.deep_view(),
            k <= entries@.len(),
            raw@ == "# Accepted Decisions\n"@ + entries_text(es.take(k as int)),
        decreases entries@.len() - k,
    {
        let e = &entries[k];
        let ghost r0 = raw@;
        push_str(&mut raw, "\n## ");
        push_str(&mut raw, e.date.as_str());
        push_str(&mut raw, " - ");
        push_str(&mut raw, e.title.as_str());
        push_str(&mut raw, "\n\n### Context\n");
        push_str(&mut raw, section_text(&e.context, "_No context provided._"));
        push_str(&mut raw, "\n\n### Decision\n");
        push_str(&mut raw, section_text(&e.decision, "_No decision text provided._"));
        push_str(&mut raw, "\n\n### Impact\n");
        push_str(&mut raw, section_text(&e.impact, "_No impact recorded._"));
        push_str(&mut raw, "\n");
        proof {
            assert(es[k as int] == e@);
            assert(es.take(k + 1).drop_last() =~= es.take(k as int));
            assert(raw@ =~= r0 + entry_text(e@));
        }
        k += 1;
    }
    assert(es.take(entries@.len() as int) =~= es);
    let mut out = trim_end_vec(&raw);
    push_str(&mut out, "\n");
    string_from(out.as_slice())
}

// ---------------------------------------------------------------------------
// Reading
// ---------------------------------------------------------------------------

/// The text of the section `### <label>` of a decision's body: from after
/// the heading, without leading newlines, up to the next `### ` heading,
/// trimmed; empty when there is no such section.
pub open spec fn section(body: Seq<char>, label: Seq<char>) -> Seq<char> {
    let marker = "### "@ + label;
    match find_first(body, marker) {
        Some(start) => {
            let after = strip_prefix_all(body.skip(start + marker.len()), seq!['\n']);
            let end = match find_first(after, "\n### "@) {
                Some(e) => e,
                None => after.len() as int,
            };
            trim(after.take(end))
        },
        None => Seq::empty(),
    }
}

/// One decision read from its chunk of Markdown: the heading line gives the
/// date and title (split at the first " - "), the rest gives the sections.
pub open spec fn parse_chunk(chunk: Seq<char>) -> AcceptedDecisionModel {
    let ls = lines_of(chunk);
    let heading = if ls.len() > 0 {
        ls[0]
    } else {
        Seq::empty()
    };
    let body = if ls.len() > 0 {
        join(ls.skip(1), seq!['\n'])
    } else {
        Seq::empty()
    };
    let (date, title) = match find_first(heading, " - "@) {
        Some(i) => (heading.take(i), heading.skip(i + 3)),
        None => (heading, Seq::empty()),
    };
    AcceptedDecisionModel {
        date: trim(date),
        title: trim(title),
        context: section(body, "Context"@),
        decision: section(body, "Decision"@),
        impact: section(body, "Impact"@),
    }
}

/// A chunk without its leading "## " markers, trimmed.
pub open spec fn clean_chunk(c: Seq<char>) -> Seq<char> {
    trim(strip_prefix_all(c, "## "@))
}

pub open spec fn cleaner() -> spec_fn(Seq<char>) -> Seq<char> {
    |c: Seq<char>| clean_chunk(c)
}

pub open spec fn non_empty() -> spec_fn(Seq<char>) -> bool {
    |c: Seq<char>| c.len() > 0
}

pub open spec fn chunk_parser() -> spec_fn(Seq<char>) -> AcceptedDecisionModel {
    |c: Seq<char>| parse_chunk(c)
}

/// `parse_accepted_decisions`: the title removed and the rest trimmed, then
/// split at every "\n## "; each non-empty chunk is one decision.
pub open spec fn parse_decisions(md: Seq<char>) -> Seq<AcceptedDecisionModel> {
    let normalized = trim(strip_prefix_all(md, "# Accepted Decisions"@));
    if normalized.len() == 0 {
        Seq::empty()
    } else {
        split_on(normalized, "\n## "@).map_values(cleaner()).filter(non_empty()).map_values(
            chunk_parser(),
        )
    }
}

/// The section `### <label>` of a body.
fn section_of(body: &Vec<char>, label: &str) -> (r: String)
    ensures
        r@ == section(body@, label@),
{
    let head = chars_of("### ");
    let lab = chars_of(label);
    let mut marker = head;
    let mut i: usize = 0;
    let ghost m0 = marker@;
    while i < lab.len()
        invariant
            i <= lab@.len(),
            marker@ == m0 + lab@.take(i as int),
        decreases lab@.len() - i,
    {
        marker.push(lab[i]);
        i += 1;
        assert(marker@ =~= m0 + lab@.take(i as int));
    }
    assert(lab@.take(lab@.len() as int) =~= lab@);
    assert(marker@ == "### "@ + label@);
    let n = body.len();
    match find_in(body, &marker) {
        Some(start) => {
            proof {
                lemma_find_from(body@, marker@, 0);
            }
            let rest = sub_vec(body, start + marker.len(), n);
            assert(rest@ =~= body@.skip(start + marker@.len()));
            let mut nl: Vec<char> = Vec::new();
            nl.push('\n');
            assert(nl@ =~= seq!['\n']);
            let after = strip_prefix_all_vec(&rest, &nl);
            let next = chars_of("\n### ");
            let end = match find_in(&after, &next) {
                Some(e) => {
                    proof {
                        lemma_find_from(after@, next@, 0);
                    }
                    e
                },
                None => after.len(),
            };
            let piece = sub_vec(&after, 0, end);
            assert(piece@ =~= after@.take(end as int));
            let t = trim_vec(&piece);
            string_from(t.as_slice())
        },
        None => String::new(),
    }
}

/// `parse_accepted_decisions` on one chunk.
fn parse_chunk_exec(chunk: &Vec<char>) -> (r: AcceptedDecision)
    ensures
        r@ == parse_chunk(chunk@),
{
    let ls = lines_vec(chunk);
    let ghost lsv = ls.deep_view();
    let heading = if ls.len() > 0 {
        sub_vec(&ls[0], 0, ls[0].len())
    } else {
        Vec::new()
    };
    assert(heading@ =~= if lsv.len() > 0 {
        lsv[0]
    } else {
        Seq::<char>::empty()
    });
    let mut rest: Vec<Vec<char>> = Vec::new();
    if ls.len() > 0 {
        let mut k: usize = 1;
        assert(rest.deep_view() =~= lsv.subrange(1, 1));
        while k < ls.len()
            invariant
                lsv == ls.deep_view(),
                1 <= k <= ls@.len(),
                rest.deep_view() == lsv.subrange(1, k as int),
            decreases ls@.len() - k,
        {
            let piece = sub_vec(&ls[k], 0, ls[k].len());
            assert(piece@ =~= lsv[k as int]);
            assert(piece.deep_view() =~= piece@);
            let ghost before = rest.deep_view();
            rest.push(piece);
            assert(rest.deep_view() =~= before.push(lsv[k as int]));
            assert(lsv.subrange(1, k + 1) =~= lsv.subrange(1, k as int).push(lsv[k as int]));
            k += 1;
        }
        assert(lsv.subrange(1, lsv.len() as int) =~= lsv.skip(1));
    } else {
        assert(rest.deep_view() =~= Seq::<Seq<char>>::empty());
    }
    let mut nl: Vec<char> = Vec::new();
    nl.push('\n');
    assert(nl@ =~= seq!['\n']);
    let body = join_vec(&rest, &nl);
    let sep = chars_of(" - ");
    proof {
        reveal_strlit(" - ");
    }
    let hn = heading.len();
    let (date, title) = match find_in(&heading, &sep) {
        Some(i) => {
            proof {
                lemma_find_from(heading@, sep@, 0);
            }
            let d = sub_vec(&heading, 0, i);
            let t = sub_vec(&heading, i + 3, hn);
            assert(d@ =~= heading@.take(i as int));
            assert(t@ =~= heading@.skip(i + 3));
            (d, t)
        },
        None => (sub_vec(&heading, 0, hn), Vec::new()),
    };
    assert(heading@.subrange(0, hn as int) =~= heading@);
    let dt = trim_vec(&date);
    let tt = trim_vec(&title);
    let r = AcceptedDecision {
        date: string_from(dt.as_slice()),
        title: string_from(tt.as_slice()),
        context: section_of(&body, "Context"),
        decision: section_of(&body, "Decision"),
        impact: section_of(&body, "Impact"),
    };
    assert(r@ =~= parse_chunk(chunk@));
    r
}

/// The decisions read back from the accepted-decisions Markdown: one per
/// `## ` heading, split into date and title at the first " - ", with its
/// three sections.
pub fn parse_accepted_decisions(markdown: &str) -> (r: Vec<AcceptedDecision>)
    ensures
        r.deep_view() == parse_decisions(markdown@),
{
    let md = chars_of(markdown);
    let title = chars_of("# Accepted Decisions");
    let stripped = strip_prefix_all_vec(&md, &title);
    let normalized = trim_vec(&stripped);
    let mut out: Vec<AcceptedDecision> = Vec::new();
    if normalized.len() == 0 {
        assert(out.deep_view() =~= Seq::<AcceptedDecisionModel>::empty());
        return out;
    }
    let sep = chars_of("\n## ");
    proof {
        reveal_strlit("\n## ");
    }
    assert(sep@.len() > 0);
    let pieces = split_on_vec(&normalized, &sep);
    let ghost ps = pieces.deep_view();
    let ghost cl = cleaner();
    let ghost ne = non_empty();
    let ghost pc = chunk_parser();
    let marker = chars_of("## ");
    let mut k: usize = 0;
    while k < pieces.len()
        invariant
            ps == pieces.deep_view(),
            cl == cleaner(),
            ne == non_empty(),
            pc == chunk_parser(),
            marker@ == "## "@,
            k <= pieces@.len(),
            out.deep_view() == ps.take(k as int).map_values(cl).filter(ne).map_values(pc),
        decreases pieces@.len() - k,
    {
        let stripped_piece = strip_prefix_all_vec(&pieces[k], &marker);
        let chunk = trim_vec(&stripped_piece);
        proof {
            reveal_with_fuel(Seq::<_>::filter, 1);
            assert(ps[k as int] == pieces@[k as int]@);
            assert(chunk@ == cl(ps[k as int]));
            assert(ps.take(k + 1).map_values(cl) =~= ps.take(k as int).map_values(cl).push(chunk@));
            assert(ps.take(k + 1).map_values(cl).drop_last() =~= ps.take(k as int).map_values(cl));
        }
        let ghost before = out.deep_view();
        if chunk.len() > 0 {
            let d = parse_chunk_exec(&chunk);
            let ghost dm = d@;
            out.push(d);
            proof {
                let f = ps.take(k as int).map_values(cl).filter(ne);
                assert(ne(chunk@));
                assert(ps.take(k + 1).map_values(cl).filter(ne) == f.push(chunk@));
                assert(out.deep_view() =~= before.push(dm));
                assert(dm == pc(chunk@));
                assert(f.push(chunk@).map_values(pc) =~= f.map_values(pc).push(pc(chunk@)));
            }
        } else {
            assert(ps.take(k + 1).map_values(cl).filter(ne) == ps.take(k as int).map_values(cl).filter(ne));
        }
        k += 1;
    }
    assert(ps.take(pieces@.len() as int) =~= ps);
    out
}

} // verus!
