//! Properties that hold across the operations of the library.
use crate::models::{AcceptedDecisionModel, ActivityEvent, ActivitySource, DecisionProposal, RuntimeState, PhaseModel, PlanModel, RuntimeModel, SessionModel, SessionStatus, StepModel, StepStatus};
use crate::mutations::{held_by_other, blocker_added, blocker_cleared, completed_step, differs_from, start_plan, started_step, MutationOutcome};
use crate::agents::{block_end, block_start, found_block, managed, markers_ordered, upserted};
use crate::decision_format::{all_well_formed, lemma_decisions_read_back};
use crate::decisions::{decisions_markdown, parse_decisions};
use crate::sessions::{ensure_session_spec, first_session, first_session_from, has_session_id, matcher, matching,
    session_matches};
use crate::handoff::{handoff_lines, or_none};
use crate::ids::{flat_lower, has_alnum, lemma_slug_shape, no_double_dash, slug, slug_chars};
use crate::desktop::{kept_writes, other_root, recent_write, suppressed, with_write};
use crate::paths::root_or_descendant;
use crate::plan::{done_before, done_in, done_steps, steps_before, total_steps, has_step_id, kept_owner, lemma_first_step, lemma_locate_some_iff, locate, normalize_step, normalizer, release_step, releaser, map_steps, set_step, step_of, valid_pos};
use crate::roots::{lemma_normal_form, normal_form, normalized};
use crate::runtime::{session_reconciler, step_known, actionable_in, current_pos, lemma_current_pos_valid, next_actionable,
    refreshed, step_reconciler, stored_current};
use crate::summary::{below, insert_pos, sort_desc};
use crate::sync::{lemma_resync_phase_ids, same_step_titles, lemma_synced_phases_prefix, lemma_synced_steps_prefix, synced_steps, keyed_without_ids, lemma_resync_phases, previous_index, synced_plan, synced_step, SyncPhaseModel, SyncStepModel, dependency_fault, first_missing, flat_ids, flat_steps, id_fault, phase_ids, plan_fault, step_fault};
use crate::text::{find_first, lemma_find_from, occurs_at, strip_end, strip_prefix_all, is_blank,
    lemma_find_first_at, lemma_occ_avoids_newline, lemma_occ_in_part, lemma_strip_end_prefix, no_newline, trimmed_nonblank, lemma_seq_lt_transitive, lemma_seq_lt_trichotomy, seq_lt, starts_with};

use vstd::multiset::Multiset;
use vstd::prelude::*;

verus! {

/// The runtime only ever focuses an open step: the step it is on, if any,
/// is a step of the plan and is not done.
pub proof fn law_focus_is_open(p: PlanModel, rt: RuntimeModel)
    ensures
        current_pos(p, rt) matches Some(pos) ==> valid_pos(p, pos) && step_of(p, pos).status != StepStatus::Done,
{
    crate::runtime::lemma_current_pos_valid(p, rt);
    crate::plan::lemma_first_step(p, actionable_in(p));
}

/// Reconciling ownership leaves every step's status as it was.
pub proof fn law_reconcile_keeps_status(p: PlanModel, ss: Seq<SessionModel>, pos: (int, int))
    requires
        valid_pos(p, pos),
    ensures
        valid_pos(map_steps(p, step_reconciler(ss)), pos),
        step_of(map_steps(p, step_reconciler(ss)), pos).status == step_of(p, pos).status,
        step_of(map_steps(p, step_reconciler(ss)), pos).id == step_of(p, pos).id,
{
}

/// Completing a step moves the focus off it: in the plan `complete_step`
/// writes (the step marked done, then ownership reconciled), the runtime
/// refreshed from any stored state is not on the completed step.
pub proof fn law_completed_step_loses_focus(
    p0: PlanModel,
    pos: (int, int),
    actor: Seq<char>,
    now: Seq<char>,
    ss: Seq<SessionModel>,
    rt: RuntimeModel,
)
    requires
        valid_pos(p0, pos),
    ensures
        ({
            let p1 = set_step(p0, pos.0, pos.1, completed_step(step_of(p0, pos), actor, now));
            let fp = map_steps(p1, step_reconciler(ss));
            current_pos(fp, rt) != Some(pos)
        }),
{
    let p1 = set_step(p0, pos.0, pos.1, completed_step(step_of(p0, pos), actor, now));
    let fp = map_steps(p1, step_reconciler(ss));
    assert(valid_pos(p1, pos));
    assert(step_of(p1, pos).status == StepStatus::Done);
    law_reconcile_keeps_status(p1, ss, pos);
    law_focus_is_open(fp, rt);
}

/// Normalising roots twice gives what normalising once gives.
pub proof fn law_normalize_idempotent(roots: Seq<Seq<char>>, n: Seq<Seq<char>>)
    requires
        normalized(n, roots),
    ensures
        normalized(n, n),
        normal_form(n) == n,
        normal_form(roots) == n,
{
    assert forall|x: Seq<char>| n.contains(x) <==> (n.contains(x) && x.len() > 0) by {
        if n.contains(x) {
            assert(roots.contains(x) && x.len() > 0);
        }
    }
    lemma_normal_form(n, n);
    lemma_normal_form(n, roots);
}

/// A path is never inside a sibling that merely extends its name: the
/// root followed by anything that does not start with a separator is not
/// the root or below it.
pub proof fn law_sibling_is_not_descendant(root: Seq<char>, rest: Seq<char>)
    requires
        rest.len() > 0,
        rest[0] != '/',
    ensures
        !root_or_descendant(root + rest, root),
{
    let c = root + rest;
    assert(c.len() != root.len());
    if starts_with(c, root + "/"@) {
        reveal_strlit("/");
        assert(c[root.len() as int] == (root + "/"@)[root.len() as int]);
        assert(c[root.len() as int] == rest[0]);
    }
}

/// The key order of a list sorted from latest to earliest: no key comes
/// before a later one.
pub open spec fn sorted_desc<A>(s: Seq<A>, key: spec_fn(A) -> Seq<char>) -> bool {
    forall|i: int, j: int| 0 <= i < j < s.len() ==> !seq_lt(#[trigger] key(s[i]), #[trigger] key(s[j]))
}

/// The board's stable sort puts the latest first: its result is ordered
/// from the latest key to the earliest and holds the same elements.
pub proof fn law_sort_desc_sorted<A>(s: Seq<A>, key: spec_fn(A) -> Seq<char>)
    ensures
        sorted_desc(sort_desc(s, key), key),
        sort_desc(s, key).to_multiset() == s.to_multiset(),
    decreases s.len(),
{
    if s.len() > 0 {
        let t = sort_desc(s.drop_last(), key);
        let x = s.last();
        let k = key(x);
        law_sort_desc_sorted(s.drop_last(), key);
        let p = insert_pos(t, k, key);
        crate::sync::lemma_first_index_range(t, below(key, k));
        lemma_before_insert_pos(t, k, key);
        assert(0 <= p <= t.len());
        let r = t.insert(p, x);
        assert(r == sort_desc(s, key));
        assert forall|i: int, j: int| 0 <= i < j < r.len() implies !seq_lt(#[trigger] key(r[i]), #[trigger] key(r[j])) by {
            if j < p {
                assert(r[i] == t[i] && r[j] == t[j]);
            } else if j == p {
                assert(r[i] == t[i] && r[j] == x);
                assert(!seq_lt(key(t[i]), k));
            } else if i == p {
                assert(r[i] == x && r[j] == t[j - 1]);
                // t[p] is the first key below k; t[j - 1] is not after it
                assert(seq_lt(key(t[p]), k));
                if j - 1 > p {
                    assert(!seq_lt(key(t[p]), key(t[j - 1])));
                    lemma_seq_lt_trichotomy(key(t[p]), key(t[j - 1]));
                    if key(t[p]) == key(t[j - 1]) {
                        lemma_seq_lt_trichotomy(k, key(t[j - 1]));
                    } else {
                        lemma_seq_lt_transitive(key(t[j - 1]), key(t[p]), k);
                        lemma_seq_lt_trichotomy(k, key(t[j - 1]));
                    }
                } else {
                    lemma_seq_lt_trichotomy(k, key(t[j - 1]));
                }
            } else if i < p {
                assert(r[i] == t[i] && r[j] == t[j - 1]);
            } else {
                assert(r[i] == t[i - 1] && r[j] == t[j - 1]);
            }
        }
        assert(s =~= s.drop_last().push(x));
        assert(s.to_multiset() == s.drop_last().to_multiset().insert(x)) by {
            s.drop_last().to_multiset_ensures();
            s.to_multiset_ensures();
            vstd::seq_lib::lemma_multiset_commutative(s.drop_last(), seq![x]);
            assert(s.drop_last() + seq![x] =~= s);
            assert(seq![x].to_multiset() =~= Multiset::<A>::empty().insert(x)) by {
                seq![x].to_multiset_ensures();
                assert(seq![x] =~= Seq::<A>::empty().push(x));
                Seq::<A>::empty().to_multiset_ensures();
            }
        }
        lemma_insert_multiset(t, p, x);
    }
}

/// Every element before the insertion position has a key that is not
/// before `k`.
proof fn lemma_before_insert_pos<A>(t: Seq<A>, k: Seq<char>, key: spec_fn(A) -> Seq<char>)
    ensures
        forall|i: int| 0 <= i < insert_pos(t, k, key) && i < t.len() ==> !seq_lt(#[trigger] key(t[i]), k),
        insert_pos(t, k, key) < t.len() ==> seq_lt(key(t[insert_pos(t, k, key)]), k),
    decreases t.len(),
{
    crate::sync::lemma_first_index_range(t, below(key, k));
    if t.len() > 0 {
        lemma_before_insert_pos(t.drop_last(), k, key);
        crate::sync::lemma_first_index_range(t.drop_last(), below(key, k));
        assert forall|i: int| 0 <= i < insert_pos(t, k, key) && i < t.len() implies !seq_lt(#[trigger] key(t[i]), k) by {
            if i < t.len() - 1 {
                assert(t.drop_last()[i] == t[i]);
            }
        }
    }
}

proof fn lemma_insert_multiset<A>(t: Seq<A>, p: int, x: A)
    requires
        0 <= p <= t.len(),
    ensures
        t.insert(p, x).to_multiset() == t.to_multiset().insert(x),
{
    let a = t.take(p);
    let b = t.skip(p);
    assert(t =~= a + b);
    assert(t.insert(p, x) =~= a + (seq![x] + b));
    vstd::seq_lib::lemma_multiset_commutative(a, seq![x] + b);
    vstd::seq_lib::lemma_multiset_commutative(seq![x], b);
    vstd::seq_lib::lemma_multiset_commutative(a, b);
    assert(seq![x].to_multiset() =~= Multiset::<A>::empty().insert(x)) by {
        assert(seq![x] =~= Seq::<A>::empty().push(x));
        Seq::<A>::empty().to_multiset_ensures();
        Seq::<A>::empty().push(x).to_multiset_ensures();
    }
}


/// The step ids, in order, that a validation pass has seen after the first
/// `m` steps of a phase.
spec fn seen_after(steps: Seq<StepModel>, m: int, seen: Seq<Seq<char>>) -> Seq<Seq<char>> {
    seen + steps.take(m).map_values(|s: StepModel| s.id)
}

proof fn lemma_step_fault_none(steps: Seq<StepModel>, m: int, seen: Seq<Seq<char>>)
    requires
        0 <= m <= steps.len(),
        seen.no_duplicates(),
        step_fault(steps, m, seen) is None,
    ensures
        seen_after(steps, m, seen).no_duplicates(),
        forall|k: int| 0 <= k < m ==> !is_blank(#[trigger] steps[k].id),
    decreases m,
{
    if m > 0 {
        lemma_step_fault_none(steps, m - 1, seen);
        let before = seen_after(steps, m - 1, seen);
        let after = seen_after(steps, m, seen);
        assert(after =~= before.push(steps[m - 1].id));
        assert(!before.contains(steps[m - 1].id));
        assert forall|i: int, j: int| 0 <= i < after.len() && 0 <= j < after.len() && i != j implies after[i] != after[j] by {
            if i < before.len() && j < before.len() {
                assert(after[i] == before[i] && after[j] == before[j]);
            } else if i < before.len() {
                assert(after[i] == before[i]);
            } else {
                assert(after[j] == before[j]);
            }
        }
    }
}

proof fn lemma_flat_ids_take(phases: Seq<PhaseModel>, i: int)
    requires
        0 <= i < phases.len(),
    ensures
        flat_ids(phases.take(i + 1)) == flat_ids(phases.take(i)) + phases[i].steps.map_values(|s: StepModel| s.id),
        flat_steps(phases.take(i + 1)) == flat_steps(phases.take(i)) + phases[i].steps,
{
    assert(phases.take(i + 1).drop_last() =~= phases.take(i));
    let a = flat_steps(phases.take(i));
    let b = phases[i].steps;
    assert((a + b).map_values(|s: StepModel| s.id) =~= a.map_values(|s: StepModel| s.id) + b.map_values(
        |s: StepModel| s.id,
    ));
}

proof fn lemma_id_fault_none(phases: Seq<PhaseModel>, n: int)
    requires
        0 <= n <= phases.len(),
        id_fault(phases, n) is None,
    ensures
        phase_ids(phases.take(n)).no_duplicates(),
        flat_ids(phases.take(n)).no_duplicates(),
        forall|k: int| 0 <= k < n ==> !is_blank(#[trigger] phases[k].id),
        forall|k: int| 0 <= k < flat_ids(phases.take(n)).len() ==> !is_blank(#[trigger] flat_ids(phases.take(n))[k]),
    decreases n,
{
    if n == 0 {
        assert(phase_ids(phases.take(0)) =~= Seq::empty());
        assert(flat_steps(phases.take(0)) =~= Seq::empty());
        assert(flat_ids(phases.take(0)) =~= Seq::empty());
    } else {
        lemma_id_fault_none(phases, n - 1);
        let ph = phases[n - 1];
        let seen = flat_ids(phases.take(n - 1));
        lemma_step_fault_none(ph.steps, ph.steps.len() as int, seen);
        lemma_flat_ids_take(phases, n - 1);
        assert(ph.steps.take(ph.steps.len() as int) =~= ph.steps);
        assert(flat_ids(phases.take(n)) == seen_after(ph.steps, ph.steps.len() as int, seen));
        let pb = phase_ids(phases.take(n - 1));
        let pa = phase_ids(phases.take(n));
        assert(pa =~= pb.push(ph.id));
        assert forall|i: int, j: int| 0 <= i < pa.len() && 0 <= j < pa.len() && i != j implies pa[i] != pa[j] by {
            if i < pb.len() && j < pb.len() {
                assert(pa[i] == pb[i] && pa[j] == pb[j]);
            } else if i < pb.len() {
                assert(pa[i] == pb[i]);
            } else {
                assert(pa[j] == pb[j]);
            }
        }
        let fa = flat_ids(phases.take(n));
        assert forall|k: int| 0 <= k < fa.len() implies !is_blank(#[trigger] fa[k]) by {
            if k >= seen.len() {
                let q = k - seen.len();
                assert(fa[k] == ph.steps[q].id);
            } else {
                assert(fa[k] == seen[k]);
            }
        }
    }
}

proof fn lemma_first_missing_none(deps: Seq<Seq<char>>, ids: Seq<Seq<char>>)
    requires
        first_missing(deps, ids) is None,
    ensures
        forall|j: int| 0 <= j < deps.len() ==> ids.contains(#[trigger] deps[j]),
    decreases deps.len(),
{
    if deps.len() > 0 {
        lemma_first_missing_none(deps.drop_last(), ids);
        assert forall|j: int| 0 <= j < deps.len() implies ids.contains(#[trigger] deps[j]) by {
            if j < deps.len() - 1 {
                assert(deps.drop_last()[j] == deps[j]);
            }
        }
    }
}

proof fn lemma_dependency_fault_none(steps: Seq<StepModel>, ids: Seq<Seq<char>>)
    requires
        dependency_fault(steps, ids) is None,
    ensures
        forall|i: int, j: int|
            0 <= i < steps.len() && 0 <= j < steps[i].depends_on.len() ==> ids.contains(
                #[trigger] steps[i].depends_on[j],
            ),
    decreases steps.len(),
{
    if steps.len() > 0 {
        lemma_dependency_fault_none(steps.drop_last(), ids);
        lemma_first_missing_none(steps.last().depends_on, ids);
        assert forall|i: int, j: int|
            0 <= i < steps.len() && 0 <= j < steps[i].depends_on.len() implies ids.contains(
                #[trigger] steps[i].depends_on[j],
            ) by {
            if i < steps.len() - 1 {
                assert(steps.drop_last()[i] == steps[i]);
            }
        }
    }
}

/// A plan that passes validation has a phase; its phase ids are non-blank
/// and distinct; its step ids are non-blank and distinct over the whole
/// plan; and every dependency names a step of the plan.
pub proof fn law_valid_plan_ids(p: PlanModel)
    requires
        plan_fault(p) is None,
    ensures
        p.phases.len() > 0,
        phase_ids(p.phases).no_duplicates(),
        forall|k: int| 0 <= k < p.phases.len() ==> !is_blank(#[trigger] p.phases[k].id),
        flat_ids(p.phases).no_duplicates(),
        forall|k: int| 0 <= k < flat_steps(p.phases).len() ==> !is_blank(#[trigger] flat_steps(p.phases)[k].id),
        forall|i: int, j: int|
            0 <= i < flat_steps(p.phases).len() && 0 <= j < flat_steps(p.phases)[i].depends_on.len()
                ==> flat_ids(p.phases).contains(#[trigger] flat_steps(p.phases)[i].depends_on[j]),
{
    let n = p.phases.len() as int;
    lemma_id_fault_none(p.phases, n);
    assert(p.phases.take(n) =~= p.phases);
    lemma_dependency_fault_none(flat_steps(p.phases), flat_ids(p.phases));
    let fs = flat_steps(p.phases);
    assert forall|k: int| 0 <= k < fs.len() implies !is_blank(#[trigger] fs[k].id) by {
        assert(flat_ids(p.phases)[k] == fs[k].id);
    }
}


/// Synchronising keeps a step's progress and identity: an input step that
/// continues a previous step (by id, title key or title) takes over its
/// status, owner and completion; and when the input gives no id and no
/// earlier step of the same sync has taken the previous id, it keeps that
/// id as well.
pub proof fn law_sync_keeps_matched_step(prev_all: Seq<StepModel>, inp: SyncStepModel, used: Seq<Seq<char>>)
    requires
        previous_index(prev_all, inp) is Some,
    ensures
        ({
            let i = previous_index(prev_all, inp)->0;
            let st = synced_step(prev_all, inp, used).0;
            &&& 0 <= i < prev_all.len()
            &&& st.status == prev_all[i].status
            &&& st.owner_session_id == prev_all[i].owner_session_id
            &&& st.completed_at == prev_all[i].completed_at
            &&& st.completed_by == prev_all[i].completed_by
            &&& (trimmed_nonblank(inp.id) is None && prev_all[i].id.len() > 0 && !used.contains(prev_all[i].id))
                ==> st.id == prev_all[i].id
        }),
{
    let i = previous_index(prev_all, inp)->0;
    match inp.id {
        Some(id) => crate::sync::lemma_last_index_range(prev_all, crate::plan::id_is(id)),
        None => {},
    }
    crate::sync::lemma_last_index_range(prev_all, crate::sync::key_is(crate::sync::title_key(inp.title)));
    crate::sync::lemma_first_index_range(prev_all, crate::sync::title_ci(inp.title));
    crate::ids::lemma_unique_fresh(prev_all[i].id, used);
}


/// A root the shell has just written to is an echo at once: after
/// `record_local_workflow_write` at `now`, a change at the same time to a
/// path inside that root's workflow directory is suppressed.
pub proof fn law_recorded_write_is_suppressed(
    entries: Seq<(Seq<char>, u64)>,
    root: Seq<char>,
    now: u64,
    paths: Seq<Seq<char>>,
    i: int,
)
    requires
        0 <= i < paths.len(),
        starts_with(paths[i], root + "/"@ + ".project-workflow"@),
    ensures
        suppressed(kept_writes(with_write(kept_writes(entries, now), root, now), now), paths),
{
    let w = with_write(kept_writes(entries, now), root, now);
    assert(w.drop_last() =~= kept_writes(entries, now).filter(other_root(root)));
    assert(recent_write(now, now));
    let k = kept_writes(w, now);
    assert(k == kept_writes(w.drop_last(), now).push((root, now)));
    let j = k.len() - 1;
    assert(k[j].0 == root);
    assert(starts_with(paths[i], k[j].0 + "/"@ + ".project-workflow"@));
}

proof fn lemma_markers_facts()
    ensures
        no_newline(block_start()),
        no_newline(block_end()),
        block_start().len() == 41,
        block_end().len() == 39,
        block_start().subrange(0, 39) != block_end(),
        block_start().subrange(1, 40) != block_end(),
        block_start().subrange(2, 41) != block_end(),
{
    reveal_strlit("<!-- parallel-agent-defaults:v1:start -->");
    reveal_strlit("<!-- parallel-agent-defaults:v1:end -->");
    assert(block_start().subrange(0, 39)[32] != block_end()[32]);
    assert(block_start().subrange(1, 40)[0] != block_end()[0]);
    assert(block_start().subrange(2, 41)[0] != block_end()[0]);
}



/// No marker occurs in `x` before position `a`.
spec fn clear_before(x: Seq<char>, a: int) -> bool {
    forall|j: int|
        #![trigger occurs_at(x, block_start(), j)]
        #![trigger occurs_at(x, block_end(), j)]
        0 <= j < a ==> !occurs_at(x, block_start(), j) && !occurs_at(x, block_end(), j)
}

/// No marker occurs anywhere in `x`.
pub open spec fn no_markers(x: Seq<char>) -> bool {
    forall|j: int|
        #![trigger occurs_at(x, block_start(), j)]
        #![trigger occurs_at(x, block_end(), j)]
        !occurs_at(x, block_start(), j) && !occurs_at(x, block_end(), j)
}

/// The managed block placed at `a` in `x`, with no marker before it, is
/// the block that is found.
proof fn lemma_block_found(x: Seq<char>, a: int, body: Seq<char>)
    requires
        0 <= a,
        a + managed(body).len() <= x.len(),
        x.subrange(a, a + managed(body).len()) == managed(body),
        clear_before(x, a),
        forall|j: int| !#[trigger] occurs_at(body, block_end(), j),
    ensures
        found_block(x) == Some(managed(body)),
        markers_ordered(x),
{
    lemma_markers_facts();
    reveal_strlit("\n");
    let a_m = block_start();
    let b_m = block_end();
    let t = strip_end(body, crate::decisions::ws());
    lemma_strip_end_prefix(body, crate::decisions::ws());
    let e = managed(body);
    let c = a + 42 + t.len();
    assert(e =~= a_m + seq!['\n'] + t + seq!['\n'] + b_m + seq!['\n']);
    assert(e.subrange(0, 41) =~= a_m);
    assert(e.subrange(42, 42 + t.len() as int) =~= t);
    assert(e.subrange(43 + t.len() as int, 82 + t.len() as int) =~= b_m);
    assert(x.subrange(a, a + 41) =~= e.subrange(0, 41));
    assert(x[a + 41] == e[41]);
    assert(x.subrange(a + 42, c) =~= e.subrange(42, 42 + t.len() as int));
    assert(x[c] == e[42 + t.len() as int]);
    assert(x.subrange(c + 1, c + 40) =~= e.subrange(43 + t.len() as int, 82 + t.len() as int));
    assert(occurs_at(x, a_m, a));
    lemma_find_first_at(x, a_m, a);
    assert forall|j: int| 0 <= j < c + 1 implies !occurs_at(x, b_m, j) by {
        if j >= a && occurs_at(x, b_m, j) {
            if j <= a + 2 {
                assert(x.subrange(j, j + 39) =~= a_m.subrange(j - a, j - a + 39));
            } else if j <= a + 41 {
                lemma_occ_avoids_newline(x, b_m, j, a + 41);
            } else {
                lemma_occ_avoids_newline(x, b_m, j, c);
                lemma_occ_in_part(x, t, a + 42, b_m, j);
                assert(body.subrange(j - a - 42, j - a - 42 + 39) =~= t.subrange(j - a - 42, j - a - 42 + 39));
                assert(occurs_at(body, b_m, j - a - 42));
            }
        }
    }
    assert(occurs_at(x, b_m, c + 1));
    lemma_find_first_at(x, b_m, c + 1);
    assert(x.subrange(a, c + 40) + "\n"@ =~= e);
}

/// Text without markers, then a blank line: no marker before the block.
proof fn lemma_clear_after_blank_line(t0: Seq<char>, rest: Seq<char>)
    requires
        no_markers(t0),
    ensures
        clear_before(t0 + "\n\n"@ + rest, t0.len() + 2int),
{
    lemma_markers_facts();
    reveal_strlit("\n\n");
    let x = t0 + "\n\n"@ + rest;
    let a = t0.len() + 2int;
    assert(x[a - 1] == '\n' && x[a - 2] == '\n');
    assert(x.subrange(0, a - 2) =~= t0);
    assert forall|j: int| 0 <= j < a implies !occurs_at(x, block_start(), j) && !occurs_at(x, block_end(), j) by {
        if occurs_at(x, block_start(), j) {
            lemma_occ_avoids_newline(x, block_start(), j, a - 1);
            lemma_occ_avoids_newline(x, block_start(), j, a - 2);
            lemma_occ_in_part(x, t0, 0, block_start(), j);
        }
        if occurs_at(x, block_end(), j) {
            lemma_occ_avoids_newline(x, block_end(), j, a - 1);
            lemma_occ_avoids_newline(x, block_end(), j, a - 2);
            lemma_occ_in_part(x, t0, 0, block_end(), j);
        }
    }
}

/// The text before an existing block, then the new block: no marker
/// before the new block, since a marker starts with the only `<` of
/// either marker.
proof fn lemma_clear_before_old_block(e: Seq<char>, s: int, body: Seq<char>, rest: Seq<char>)
    requires
        find_first(e, block_start()) == Some(s),
        find_first(e, block_end()) matches Some(t) && s <= t,
    ensures
        clear_before(e.take(s) + managed(body) + rest, s),
{
    lemma_markers_facts();
    lemma_find_from(e, block_start(), 0);
    lemma_find_from(e, block_end(), 0);
    reveal_strlit("<!-- parallel-agent-defaults:v1:start -->");
    reveal_strlit("<!-- parallel-agent-defaults:v1:end -->");
    let x = e.take(s) + managed(body) + rest;
    let p = e.take(s);
    assert(x.subrange(0, s) =~= p);
    assert(managed(body)[0] == block_start()[0]);
    assert(x[s] == managed(body)[0]);
    assert(x[s] == '<');
    assert forall|i: int| 1 <= i < 41 implies block_start()[i] != '<' by {}
    assert forall|i: int| 1 <= i < 39 implies block_end()[i] != '<' by {}
    assert forall|j: int| 0 <= j < s implies !occurs_at(x, block_start(), j) && !occurs_at(x, block_end(), j) by {
        if occurs_at(x, block_start(), j) {
            if j + 41 <= s {
                lemma_occ_in_part(x, p, 0, block_start(), j);
                assert(e.subrange(j, j + 41) =~= p.subrange(j, j + 41));
                assert(occurs_at(e, block_start(), j));
            } else {
                assert(x.subrange(j, j + 41)[s - j] == x[s]);
                assert(block_start()[s - j] == '<');
            }
        }
        if occurs_at(x, block_end(), j) {
            if j + 39 <= s {
                lemma_occ_in_part(x, p, 0, block_end(), j);
                assert(e.subrange(j, j + 39) =~= p.subrange(j, j + 39));
                assert(occurs_at(e, block_end(), j));
            } else {
                assert(x.subrange(j, j + 39)[s - j] == x[s]);
                assert(block_end()[s - j] == '<');
            }
        }
    }
}

/// Installing the managed block and then inspecting the file finds the
/// expected block (so `inspect_managed_text` reports it installed): for a
/// new file, for a file without markers, and for a file whose block starts
/// before it ends; the body must not hold the end marker.
pub proof fn law_upsert_then_inspect_installed(existing: Option<Seq<char>>, body: Seq<char>)
    requires
        forall|j: int| !#[trigger] occurs_at(body, block_end(), j),
        existing matches Some(e) ==> (no_markers(e) || (find_first(e, block_start()) matches Some(s)
            && find_first(e, block_end()) matches Some(t) && s <= t)),
    ensures
        markers_ordered(upserted(existing, body)),
        found_block(upserted(existing, body)) == Some(managed(body)),
{
    lemma_markers_facts();
    let m = managed(body);
    match existing {
        None => {
            assert(m.subrange(0, m.len() as int) =~= m);
            lemma_block_found(m, 0, body);
        },
        Some(e) => {
            lemma_find_from(e, block_start(), 0);
            lemma_find_from(e, block_end(), 0);
            let u = upserted(existing, body);
            match find_first(e, block_start()) {
                None => {
                    let t0 = strip_end(e, crate::decisions::ws());
                    lemma_strip_end_prefix(e, crate::decisions::ws());
                    assert(no_markers(e)) by {
                        if !no_markers(e) {
                            let t = find_first(e, block_end())->0;
                        }
                    }
                    if t0.len() > 0 {
                        assert forall|j: int| #![trigger occurs_at(t0, block_start(), j)] #![trigger occurs_at(t0, block_end(), j)]
                            !occurs_at(t0, block_start(), j) && !occurs_at(t0, block_end(), j) by {
                            if occurs_at(t0, block_start(), j) {
                                assert(e.subrange(j, j + 41) =~= t0.subrange(j, j + 41));
                                assert(occurs_at(e, block_start(), j));
                            }
                            if occurs_at(t0, block_end(), j) {
                                assert(e.subrange(j, j + 39) =~= t0.subrange(j, j + 39));
                                assert(occurs_at(e, block_end(), j));
                            }
                        }
                        lemma_clear_after_blank_line(t0, m);
                        reveal_strlit("\n\n");
                        assert(u =~= t0 + "\n\n"@ + m);
                        assert(u.subrange(t0.len() + 2int, t0.len() + 2int + m.len()) =~= m);
                        lemma_block_found(u, t0.len() + 2int, body);
                    } else {
                        assert(u.subrange(0, m.len() as int) =~= m);
                        lemma_block_found(u, 0, body);
                    }
                },
                Some(s) => {
                    let t = find_first(e, block_end())->0;
                    let after = e.skip(t + block_end().len());
                    let rest = (if starts_with(after, "\n"@) {
                        ""@
                    } else {
                        "\n"@
                    }) + strip_prefix_all(after, "\n"@);
                    assert(u =~= e.take(s) + m + rest);
                    lemma_clear_before_old_block(e, s, body, rest);
                    assert(u.subrange(s, s + m.len() as int) =~= m);
                    lemma_block_found(u, s, body);
                },
            }
        },
    }
}


/// What is written of the accepted decisions is what is read back: the
/// Markdown that `build_accepted_decision_markdown` writes for well-formed
/// decisions is parsed by `parse_accepted_decisions` into the same
/// decisions.
pub proof fn law_decisions_round_trip(es: Seq<AcceptedDecisionModel>)
    requires
        all_well_formed(es),
    ensures
        parse_decisions(decisions_markdown(es)) == es,
{
    lemma_decisions_read_back(es);
}

/// Accepting a proposal appends exactly its decision: the Markdown that
/// `accept_decision` writes (the decisions read from `md`, then `d`) reads
/// back as those decisions followed by `d`, when all of them are
/// well-formed.
pub proof fn law_accept_appends_decision(md: Seq<char>, d: AcceptedDecisionModel)
    requires
        all_well_formed(parse_decisions(md).push(d)),
    ensures
        parse_decisions(decisions_markdown(parse_decisions(md).push(d))) == parse_decisions(md).push(d),
{
    lemma_decisions_read_back(parse_decisions(md).push(d));
}


/// After reconciliation no reference dangles: every owner a step names is a
/// session that exists, and every step a session owns or has observed is a
/// step of the plan.
pub proof fn law_reconciled_references(p: PlanModel, ss: Seq<SessionModel>)
    ensures
        ({
            let fp = map_steps(p, step_reconciler(ss));
            let fs = ss.map_values(session_reconciler(p));
            &&& forall|a: int, b: int|
                #[trigger] valid_pos(fp, (a, b)) ==> (step_of(fp, (a, b)).owner_session_id matches Some(o)
                    ==> has_session_id(fs, o))
            &&& forall|k: int|
                0 <= k < fs.len() ==> ((#[trigger] fs[k]).owned_step_id matches Some(x) ==> has_step_id(fp, x))
            &&& forall|k: int, m: int|
                0 <= k < fs.len() && 0 <= m < fs[k].observed_step_ids.len() ==> has_step_id(
                    fp,
                    #[trigger] fs[k].observed_step_ids[m],
                )
        }),
{
    let fp = map_steps(p, step_reconciler(ss));
    let fs = ss.map_values(session_reconciler(p));
    let f = step_reconciler(ss);
    assert forall|st: StepModel| (#[trigger] f(st)).id == st.id by {}
    assert forall|id: Seq<char>| has_step_id(fp, id) == has_step_id(p, id) by {
        crate::plan::lemma_locate_map(p, f, id);
        crate::plan::lemma_locate_some_iff(p, id);
        crate::plan::lemma_locate_some_iff(fp, id);
    }
    assert forall|a: int, b: int|
        #[trigger] valid_pos(fp, (a, b)) implies (step_of(fp, (a, b)).owner_session_id matches Some(o)
            ==> has_session_id(fs, o)) by {
        assert(step_of(fp, (a, b)) == f(step_of(p, (a, b))));
        match step_of(fp, (a, b)).owner_session_id {
            Some(o) => {
                crate::runtime::lemma_session_ids_kept(ss, p, o);
            },
            None => {},
        }
    }
    assert forall|k: int, m: int|
        0 <= k < fs.len() && 0 <= m < fs[k].observed_step_ids.len() implies has_step_id(
            fp,
            #[trigger] fs[k].observed_step_ids[m],
        ) by {
        let obs = ss[k].observed_step_ids;
        assert(fs[k].observed_step_ids == obs.filter(step_known(p)));
        obs.lemma_filter_pred(step_known(p), m);
    }
}


/// Several sessions can own different steps: starting a step gives it to
/// the starting session, leaves every step held by another active session
/// (one in `keep`) with its owner and status, and leaves every other step
/// without an owner and neither in progress nor blocked.
pub proof fn law_start_keeps_other_sessions_steps(
    p: PlanModel,
    pos: (int, int),
    session_id: Seq<char>,
    blocked: bool,
    keep: Seq<Seq<char>>,
    q: (int, int),
)
    requires
        valid_pos(p, pos),
        valid_pos(p, q),
    ensures
        ({
            let started = start_plan(p, pos, step_of(p, pos).id, session_id, blocked, keep);
            let s = step_of(p, q);
            &&& valid_pos(started, q)
            &&& step_of(started, pos).owner_session_id == Some(session_id)
            &&& (s.id != step_of(p, pos).id && held_by_other(s, session_id, keep)) ==> step_of(started, q) == s
            &&& (s.id != step_of(p, pos).id && !held_by_other(s, session_id, keep)) ==> {
                &&& step_of(started, q).owner_session_id is None
                &&& step_of(started, q).status != StepStatus::InProgress
                &&& step_of(started, q).status != StepStatus::Blocked
            }
        }),
{
    let sid = step_of(p, pos).id;
    let p0 = map_steps(p, releaser(session_id));
    let p1 = map_steps(p0, normalizer(Some(sid), keep));
    assert(valid_pos(p0, q) && valid_pos(p1, q));
    assert(valid_pos(p0, pos) && valid_pos(p1, pos));
    assert(step_of(p0, q) == release_step(step_of(p, q), session_id));
    assert(step_of(p1, q) == normalize_step(step_of(p0, q), Some(sid), keep));
    assert(step_of(p1, q).id == step_of(p, q).id);
    if q != pos {
        assert(step_of(set_step(p1, pos.0, pos.1, started_step(step_of(p1, pos), session_id, blocked)), q)
            == step_of(p1, q));
    }
}

/// Keeping every name but `b` keeps a list that does not hold `b`.
proof fn lemma_filter_keeps_others(bs: Seq<Seq<char>>, b: Seq<char>)
    requires
        !bs.contains(b),
    ensures
        bs.filter(differs_from(b)) == bs,
    decreases bs.len(),
{
    if bs.len() > 0 {
        let init = bs.drop_last();
        assert(!init.contains(b)) by {
            if init.contains(b) {
                let k = choose|k: int| 0 <= k < init.len() && init[k] == b;
                assert(bs[k] == b);
            }
        }
        lemma_filter_keeps_others(init, b);
        assert(init.push(bs.last()) =~= bs);
        init.lemma_filter_push(bs.last(), differs_from(b));
        assert(bs.last() != b) by {
            assert(bs[bs.len() - 1] == bs.last());
        }
    }
}

/// Clearing a blocker by name undoes adding it: after `add_blocker`
/// records a blocker that was not listed, `clear_blocker` with that name,
/// on the state `add_blocker` wrote, leaves the blockers there were before.
pub proof fn law_clear_undoes_add_blocker(
    p0: PlanModel,
    rt0: RuntimeModel,
    version: u32,
    b: Seq<char>,
    added: MutationOutcome,
    sess1: SessionModel,
    ss1: Seq<SessionModel>,
    branch1: Option<Seq<char>>,
    now1: Seq<char>,
    cleared: MutationOutcome,
    version2: u32,
    sess2: SessionModel,
    ss2: Seq<SessionModel>,
    branch2: Option<Seq<char>>,
    now2: Seq<char>,
)
    requires
        b.len() > 0,
        !rt0.blockers.contains(b),
        blocker_added(added, (p0, rt0, version), b, sess1, ss1, branch1, now1),
        blocker_cleared(
            cleared,
            (added.write_plan->0@, added.write_runtime->0@, version2),
            Some(b),
            sess2,
            ss2,
            branch2,
            now2,
        ),
    ensures
        added.write_runtime matches Some(w) && w@.blockers == rt0.blockers.push(b),
        cleared.write_runtime matches Some(w) && w@.blockers == rt0.blockers,
{
    let mid = added.write_runtime->0@;
    assert(mid.blockers == rt0.blockers.push(b));
    rt0.blockers.lemma_filter_push(b, differs_from(b));
    lemma_filter_keeps_others(rt0.blockers, b);
    assert(mid.blockers.filter(differs_from(b)) == rt0.blockers);
}

/// Two session lists with the same ids, position by position, find the
/// same first session for an id.
proof fn lemma_first_session_by_ids(a: Seq<SessionModel>, b: Seq<SessionModel>, id: Seq<char>, k: int)
    requires
        0 <= k,
        a.len() == b.len(),
        forall|m: int| 0 <= m < a.len() ==> (#[trigger] a[m]).id == b[m].id,
    ensures
        first_session_from(a, id, k) == first_session_from(b, id, k),
    decreases a.len() - k,
{
    if k < a.len() {
        assert(a[k].id == b[k].id);
        lemma_first_session_by_ids(a, b, id, k + 1);
    }
}

/// The first session with an id is at `j` when it has the id and none
/// between `k` and `j` has it.
proof fn lemma_first_session_at(ss: Seq<SessionModel>, id: Seq<char>, j: int, k: int)
    requires
        0 <= k <= j < ss.len(),
        ss[j].id == id,
        forall|m: int| k <= m < j ==> (#[trigger] ss[m]).id != id,
    ensures
        first_session_from(ss, id, k) == Some(j),
    decreases j - k,
{
    if k < j {
        lemma_first_session_at(ss, id, j, k + 1);
    }
}

/// Ensuring a session by its id twice resumes it: the first call leaves an
/// active session with that id, and the second finds the same session at
/// the same place, adds none, and hands it back active.
pub proof fn law_ensure_session_by_id_resumes(
    ss0: Seq<SessionModel>,
    ss1: Seq<SessionModel>,
    first: SessionModel,
    ss2: Seq<SessionModel>,
    second: SessionModel,
    sid: Seq<char>,
    actor: (Seq<char>, Seq<char>),
    source: (ActivitySource, ActivitySource),
    branch: (Option<Seq<char>>, Option<Seq<char>>),
    title: (Option<Seq<char>>, Option<Seq<char>>),
    now: (Seq<char>, Seq<char>),
)
    requires
        ensure_session_spec(ss0, ss1, first, actor.0, source.0, branch.0, Some(sid), title.0, now.0),
        ensure_session_spec(ss1, ss2, second, actor.1, source.1, branch.1, Some(sid), title.1, now.1),
    ensures
        first.id == sid,
        first.status == SessionStatus::Active,
        second.id == sid,
        second.status == SessionStatus::Active,
        ss2.len() == ss1.len(),
        first_session(ss1, sid) is Some,
        first_session(ss2, sid) == first_session(ss1, sid),
        ss1[first_session(ss1, sid)->0] == first,
        ss2[first_session(ss2, sid)->0] == second,
{
    crate::sessions::lemma_first_session(ss0, sid, 0);
    match first_session(ss0, sid) {
        Some(k) => {
            assert forall|m: int| 0 <= m < ss0.len() implies (#[trigger] ss0[m]).id == ss1[m].id by {
                if m != k {
                    assert(ss1[m] == ss0[m]);
                }
            }
            lemma_first_session_by_ids(ss0, ss1, sid, 0);
        },
        None => {
            assert(ss1[ss0.len() as int] == first);
            assert forall|m: int| 0 <= m < ss0.len() implies (#[trigger] ss1[m]).id != sid by {
                assert(ss1[m] == ss0[m]);
            }
            lemma_first_session_at(ss1, sid, ss0.len() as int, 0);
        },
    }
    let k1 = first_session(ss1, sid)->0;
    crate::sessions::lemma_first_session(ss1, sid, 0);
    assert forall|m: int| 0 <= m < ss1.len() implies (#[trigger] ss1[m]).id == ss2[m].id by {
        if m != k1 {
            assert(ss2[m] == ss1[m]);
        }
    }
    lemma_first_session_by_ids(ss1, ss2, sid, 0);
}

/// Refreshing is stable: the runtime that `refresh_runtime_state` computes,
/// refreshed again against the same plan, sessions, branch and time, comes
/// back unchanged, when no two steps of the plan share an id.
pub proof fn law_refresh_is_stable(
    p: PlanModel,
    rt: RuntimeModel,
    ss: Seq<SessionModel>,
    branch: Option<Seq<char>>,
    now: Seq<char>,
)
    requires
        forall|q1: (int, int), q2: (int, int)|
            #![trigger step_of(p, q1), step_of(p, q2)]
            valid_pos(p, q1) && valid_pos(p, q2) && step_of(p, q1).id == step_of(p, q2).id ==> q1 == q2,
    ensures
        refreshed(p, refreshed(p, rt, ss, branch, now), ss, branch, now) == refreshed(p, rt, ss, branch, now),
{
    let rt1 = refreshed(p, rt, ss, branch, now);
    lemma_current_pos_valid(p, rt);
    match current_pos(p, rt) {
        Some(pos) => {
            let id = step_of(p, pos).id;
            assert(has_step_id(p, id)) by {
                assert(valid_pos(p, (pos.0, pos.1)) && step_of(p, (pos.0, pos.1)).id == id);
            }
            lemma_locate_some_iff(p, id);
            let q = locate(p, id)->0;
            assert(q == pos);
            if stored_current(p, rt) is None {
                lemma_first_step(p, actionable_in(p));
                assert(actionable_in(p)(step_of(p, pos)));
            }
            assert(step_of(p, pos).status != StepStatus::Done);
            assert(stored_current(p, rt1) == Some(pos));
            assert(current_pos(p, rt1) == Some(pos));
        },
        None => {
            assert(rt1.current_step_id is None);
            assert(next_actionable(p) is None);
            assert(current_pos(p, rt1) is None);
        },
    }
    assert(refreshed(p, rt1, ss, branch, now) =~= rt1);
}

/// Normalising in-progress states leaves the active step, and every step
/// held by a kept owner, as it was, and no other step in progress, blocked
/// or owned; normalising again changes nothing.
pub proof fn law_normalize_in_progress(p: PlanModel, active: Option<Seq<char>>, keep: Seq<Seq<char>>, q: (int, int))
    requires
        valid_pos(p, q),
    ensures
        ({
            let n = map_steps(p, normalizer(active, keep));
            &&& valid_pos(n, q)
            &&& (active == Some(step_of(p, q).id) || kept_owner(step_of(p, q), keep)) ==> step_of(n, q) == step_of(p, q)
            &&& (active != Some(step_of(p, q).id) && !kept_owner(step_of(p, q), keep)) ==> {
                &&& step_of(n, q).status != StepStatus::InProgress
                &&& step_of(n, q).status != StepStatus::Blocked
                &&& step_of(n, q).owner_session_id is None
            }
        }),
        map_steps(map_steps(p, normalizer(active, keep)), normalizer(active, keep)) == map_steps(p, normalizer(active, keep)),
{
    let f = normalizer(active, keep);
    let n = map_steps(p, f);
    assert(step_of(n, q) == normalize_step(step_of(p, q), active, keep));
    let nn = map_steps(n, f);
    assert forall|i: int| 0 <= i < n.phases.len() implies #[trigger] nn.phases[i] == n.phases[i] by {
        assert forall|j: int| 0 <= j < n.phases[i].steps.len() implies #[trigger] nn.phases[i].steps[j]
            == n.phases[i].steps[j] by {
            let s = p.phases[i].steps[j];
            assert(n.phases[i].steps[j] == normalize_step(s, active, keep));
            assert(normalize_step(normalize_step(s, active, keep), active, keep) =~= normalize_step(s, active, keep));
        }
        assert(nn.phases[i].steps =~= n.phases[i].steps);
    }
    assert(nn.phases =~= n.phases);
    assert(nn =~= n);
}

/// Synchronising is stable: syncing the same plan input again, onto the
/// plan the first sync produced, gives that plan back (so
/// `build_synced_plan` returns it again), when the input steps and
/// subtasks give no ids and their titles have distinct keys: the step
/// titles over the whole plan, the subtask titles within their step.
pub proof fn law_resync_is_stable(prev: PlanModel, inputs: Seq<SyncPhaseModel>)
    requires
        keyed_without_ids(inputs),
    ensures
        synced_plan(synced_plan(prev, inputs), inputs) == synced_plan(prev, inputs),
{
    lemma_resync_phases(flat_steps(prev.phases), inputs, inputs.len() as int);
    assert(inputs.take(inputs.len() as int) =~= inputs);
}

/// Completing the focused step advances the focus: when the runtime is on
/// the step `complete_step` completes, the runtime refreshed against the
/// plan it writes is on the next actionable step of that plan, when no two
/// steps of the plan share an id.
pub proof fn law_completing_focused_step_advances(
    p0: PlanModel,
    pos: (int, int),
    actor: Seq<char>,
    now: Seq<char>,
    ss: Seq<SessionModel>,
    rt: RuntimeModel,
)
    requires
        valid_pos(p0, pos),
        rt.current_step_id == Some(step_of(p0, pos).id),
        forall|q1: (int, int), q2: (int, int)|
            #![trigger step_of(p0, q1), step_of(p0, q2)]
            valid_pos(p0, q1) && valid_pos(p0, q2) && step_of(p0, q1).id == step_of(p0, q2).id ==> q1 == q2,
    ensures
        ({
            let p1 = set_step(p0, pos.0, pos.1, completed_step(step_of(p0, pos), actor, now));
            let fp = map_steps(p1, step_reconciler(ss));
            current_pos(fp, rt) == next_actionable(fp)
        }),
{
    let p1 = set_step(p0, pos.0, pos.1, completed_step(step_of(p0, pos), actor, now));
    let fp = map_steps(p1, step_reconciler(ss));
    let id = step_of(p0, pos).id;
    assert forall|q: (int, int)| valid_pos(fp, q) implies valid_pos(p0, q) && #[trigger] step_of(fp, q).id
        == step_of(p0, q).id by {
        assert(valid_pos(p1, q));
        law_reconcile_keeps_status(p1, ss, q);
        if q != pos {
            assert(step_of(p1, q) == step_of(p0, q));
        }
    }
    law_reconcile_keeps_status(p1, ss, pos);
    assert(valid_pos(p1, pos));
    assert(step_of(p1, pos).status == StepStatus::Done);
    assert(has_step_id(fp, id)) by {
        assert(valid_pos(fp, (pos.0, pos.1)) && step_of(fp, (pos.0, pos.1)).id == id);
    }
    lemma_locate_some_iff(fp, id);
    let q = locate(fp, id)->0;
    assert(step_of(fp, q).id == step_of(p0, q).id);
    assert(q == pos);
    assert(stored_current(fp, rt) is None);
}

/// The handoff keeps every blocker and every pending proposal in view:
/// each blocker of the runtime is a `- <blocker>` line of the note, and
/// each proposal a `- Review proposal: <title>` line.
pub proof fn law_handoff_shows_blockers_and_proposals(
    name: Seq<char>,
    plan: PlanModel,
    rt: RuntimeState,
    sessions: Seq<SessionModel>,
    activity: Seq<ActivityEvent>,
    proposals: Seq<DecisionProposal>,
)
    ensures
        forall|k: int|
            0 <= k < rt.blockers@.len() ==> handoff_lines(name, plan, rt, sessions, activity, proposals).contains(
                "- "@ + (#[trigger] rt.blockers@[k])@,
            ),
        forall|k: int|
            0 <= k < proposals.len() ==> handoff_lines(name, plan, rt, sessions, activity, proposals).contains(
                "- Review proposal: "@ + (#[trigger] proposals[k]).title@,
            ),
{
    let lines = handoff_lines(name, plan, rt, sessions, activity, proposals);
    let bl = rt.blockers.deep_view().map_values(|b: Seq<char>| "- "@ + b);
    let pl = proposals.map_values(|p: DecisionProposal| "- Review proposal: "@ + p.title@);
    let tail = seq![""@, "## Open questions"@] + or_none(pl, "- None."@);
    assert forall|k: int| 0 <= k < rt.blockers@.len() implies lines.contains(
        "- "@ + (#[trigger] rt.blockers@[k])@,
    ) by {
        assert(rt.blockers.deep_view()[k] == rt.blockers@[k]@);
        assert(bl[k] == "- "@ + rt.blockers@[k]@);
        let i = lines.len() - tail.len() - bl.len() + k;
        assert(lines[i] == bl[k]);
    }
    assert forall|k: int| 0 <= k < proposals.len() implies lines.contains(
        "- Review proposal: "@ + (#[trigger] proposals[k]).title@,
    ) by {
        assert(pl[k] == "- Review proposal: "@ + proposals[k].title@);
        let i = lines.len() - pl.len() + k;
        assert(lines[i] == pl[k]);
    }
}

/// Filtering two session lists that agree, position by position, on the
/// predicate and on the ids keeps the same number of sessions with the
/// same ids.
proof fn lemma_filter_same_ids(a: Seq<SessionModel>, b: Seq<SessionModel>, p: spec_fn(SessionModel) -> bool)
    requires
        a.len() == b.len(),
        forall|i: int| 0 <= i < a.len() ==> p(#[trigger] a[i]) == p(b[i]) && a[i].id == b[i].id,
    ensures
        a.filter(p).len() == b.filter(p).len(),
        forall|j: int| 0 <= j < a.filter(p).len() ==> (#[trigger] a.filter(p)[j]).id == b.filter(p)[j].id,
    decreases a.len(),
{
    if a.len() > 0 {
        let (ai, bi) = (a.drop_last(), b.drop_last());
        assert forall|i: int| 0 <= i < ai.len() implies p(#[trigger] ai[i]) == p(bi[i]) && ai[i].id == bi[i].id by {
            assert(ai[i] == a[i] && bi[i] == b[i]);
        }
        lemma_filter_same_ids(ai, bi, p);
        assert(ai.push(a.last()) =~= a);
        assert(bi.push(b.last()) =~= b);
        ai.lemma_filter_push(a.last(), p);
        bi.lemma_filter_push(b.last(), p);
        assert(p(a[a.len() - 1]) == p(b[b.len() - 1]));
    }
}

/// Ensuring a session without an id twice, for the same actor, source and
/// branch, resumes the session the first call resumed or created, when at
/// most one active session of that actor, source and branch existed: the
/// second call adds no session and hands back one with the first's id.
pub proof fn law_ensure_session_by_actor_resumes(
    ss0: Seq<SessionModel>,
    ss1: Seq<SessionModel>,
    first: SessionModel,
    ss2: Seq<SessionModel>,
    second: SessionModel,
    actor: Seq<char>,
    source: ActivitySource,
    branch: Option<Seq<char>>,
    title: (Option<Seq<char>>, Option<Seq<char>>),
    now: (Seq<char>, Seq<char>),
)
    requires
        matching(ss0, actor, source, branch).len() <= 1,
        ensure_session_spec(ss0, ss1, first, actor, source, branch, None, title.0, now.0),
        ensure_session_spec(ss1, ss2, second, actor, source, branch, None, title.1, now.1),
    ensures
        ss2.len() == ss1.len(),
        second.id == first.id,
{
    let p = matcher(actor, source, branch);
    let m0 = matching(ss0, actor, source, branch);
    let m1 = matching(ss1, actor, source, branch);
    if m0.len() == 1 && first_session(ss0, m0[0].id) is Some {
        let k = first_session(ss0, m0[0].id)->0;
        crate::sessions::lemma_first_session(ss0, m0[0].id, 0);
        assert forall|i: int| 0 <= i < ss0.len() implies p(#[trigger] ss0[i]) == p(ss1[i]) && ss0[i].id
            == ss1[i].id by {
            if i != k {
                assert(ss1[i] == ss0[i]);
            }
        }
        lemma_filter_same_ids(ss0, ss1, p);
        assert(m1.len() == 1);
        assert(m1[0].id == m0[0].id);
        lemma_first_session_by_ids(ss0, ss1, m0[0].id, 0);
        assert(first_session(ss1, m1[0].id) == Some(k));
    } else {
        if m0.len() == 1 {
            assert(m0.contains(m0[0]));
            ss0.lemma_filter_contains_rev(p, m0[0]);
            let j = choose|j: int| 0 <= j < ss0.len() && ss0[j] == m0[0];
            crate::sessions::lemma_first_session(ss0, m0[0].id, 0);
            assert(ss0[j].id == m0[0].id);
            assert(false);
        }
        assert(m0.len() == 0);
        assert(ss1 == ss0.push(first));
        assert(session_matches(first, actor, source, branch));
        ss0.lemma_filter_push(first, p);
        assert(m1 =~= seq![first]);
        crate::sessions::lemma_first_session(ss1, first.id, 0);
        assert(ss1[ss0.len() as int] == first);
        assert(first_session(ss1, first.id) is Some);
        let k = first_session(ss1, first.id)->0;
        assert(ss1[k].id == first.id);
    }
}

/// Synchronising keeps the submitted shape: the synchronised plan (what
/// `build_synced_plan` returns when it succeeds) has version 2, the
/// submitted phases in order with their titles, and in each phase the
/// submitted steps in order with their titles.
pub proof fn law_sync_keeps_titles_and_counts(prev: PlanModel, inputs: Seq<SyncPhaseModel>)
    ensures
        ({
            let p = synced_plan(prev, inputs);
            &&& p.version == 2
            &&& p.phases.len() == inputs.len()
            &&& forall|i: int|
                0 <= i < inputs.len() ==> {
                    &&& (#[trigger] p.phases[i]).title == inputs[i].title
                    &&& p.phases[i].steps.len() == inputs[i].steps.len()
                    &&& forall|j: int|
                        0 <= j < inputs[i].steps.len() ==> (#[trigger] p.phases[i].steps[j]).title
                            == inputs[i].steps[j].title
                }
        }),
{
    let f = flat_steps(prev.phases);
    let all = crate::sync::synced_phases(f, inputs).0;
    lemma_synced_phases_prefix(f, inputs, 0);
    assert forall|i: int| 0 <= i < inputs.len() implies {
        &&& (#[trigger] all[i]).title == inputs[i].title
        &&& all[i].steps.len() == inputs[i].steps.len()
        &&& forall|j: int|
            0 <= j < inputs[i].steps.len() ==> (#[trigger] all[i].steps[j]).title == inputs[i].steps[j].title
    } by {
        lemma_synced_phases_prefix(f, inputs, i + 1);
        let t = inputs.take(i + 1);
        assert(t.drop_last() =~= inputs.take(i));
        assert(t.last() == inputs[i]);
        let (done, _pu, su) = crate::sync::synced_phases(f, inputs.take(i));
        lemma_synced_phases_prefix(f, inputs.take(i), 0);
        let here = crate::sync::synced_phases(f, t).0;
        assert(all.take(i + 1) == here);
        assert(here[i] == all[i]);
        lemma_synced_steps_prefix(f, inputs[i].steps, su, 0);
    }
}

/// Re-synchronising keeps step ids: syncing, onto the plan a first sync
/// produced, a second input with the same phases and steps by count and
/// step title (summaries, details, dependencies and subtasks may differ),
/// whose steps give no ids and whose step titles have distinct keys, gives
/// every step the id it had.
pub proof fn law_resync_keeps_step_ids(prev: PlanModel, first: Seq<SyncPhaseModel>, second: Seq<SyncPhaseModel>)
    requires
        same_step_titles(first, second),
        keyed_without_ids(second),
    ensures
        ({
            let p1 = synced_plan(prev, first);
            let p2 = synced_plan(p1, second);
            &&& p2.phases.len() == p1.phases.len()
            &&& forall|i: int|
                0 <= i < p1.phases.len() ==> (#[trigger] p2.phases[i]).steps.len() == p1.phases[i].steps.len()
                    && forall|j: int|
                    0 <= j < p1.phases[i].steps.len() ==> (#[trigger] p2.phases[i].steps[j]).id
                        == p1.phases[i].steps[j].id
        }),
{
    lemma_resync_phase_ids(flat_steps(prev.phases), first, second, first.len() as int);
    assert(first.take(first.len() as int) =~= first);
    assert(second.take(first.len() as int) =~= second);
}

/// A slug (what `slugify` returns) has at most 48 characters, holds only
/// ASCII letters, digits and dashes, never starts with a dash nor holds two
/// dashes together, ends with a dash only where it was cut at 48
/// characters, takes its letters and digits from the lowercased title, and
/// is empty exactly when the lowercased title has no ASCII letter or digit.
/// (`slugify` also states that no letter of the slug is a capital.)
pub proof fn law_slug_shape(title: Seq<char>)
    ensures
        ({
            let r = slug(title);
            &&& r.len() <= 48
            &&& slug_chars(r)
            &&& r.len() > 0 ==> r[0] != '-'
            &&& no_double_dash(r)
            &&& (r.len() > 0 && r.last() == '-') ==> r.len() == 48
            &&& forall|k: int| 0 <= k < r.len() && r[k] != '-' ==> flat_lower(title).contains(#[trigger] r[k])
            &&& r.len() == 0 <==> !has_alnum(flat_lower(title))
        }),
{
    lemma_slug_shape(title);
}

/// The predicate "the step is done".
pub open spec fn is_done_step() -> spec_fn(StepModel) -> bool {
    |s: StepModel| s.status == StepStatus::Done
}

proof fn lemma_done_in_prefix(steps: Seq<StepModel>, j: int)
    requires
        0 <= j <= steps.len(),
    ensures
        done_in(steps, j) == steps.take(j).filter(is_done_step()).len(),
    decreases j,
{
    if j > 0 {
        lemma_done_in_prefix(steps, j - 1);
        assert(steps.take(j) =~= steps.take(j - 1).push(steps[j - 1]));
        steps.take(j - 1).lemma_filter_push(steps[j - 1], is_done_step());
    } else {
        assert(steps.take(0) =~= Seq::<StepModel>::empty());
        assert(Seq::<StepModel>::empty().filter(is_done_step()) =~= Seq::<StepModel>::empty()) by {
            reveal(Seq::filter);
        }
    }
}

proof fn lemma_before_prefix(phases: Seq<PhaseModel>, i: int)
    requires
        0 <= i <= phases.len(),
    ensures
        done_before(phases, i) == flat_steps(phases.take(i)).filter(is_done_step()).len(),
        steps_before(phases, i) == flat_steps(phases.take(i)).len(),
    decreases i,
{
    if i > 0 {
        lemma_before_prefix(phases, i - 1);
        let t = phases.take(i);
        assert(t.drop_last() =~= phases.take(i - 1));
        assert(t.last() == phases[i - 1]);
        assert(flat_steps(t) == flat_steps(phases.take(i - 1)) + phases[i - 1].steps);
        Seq::filter_distributes_over_add(flat_steps(phases.take(i - 1)), phases[i - 1].steps, is_done_step());
        let st = phases[i - 1].steps;
        lemma_done_in_prefix(st, st.len() as int);
        assert(st.take(st.len() as int) =~= st);
    } else {
        assert(phases.take(0) =~= Seq::<PhaseModel>::empty());
        assert(flat_steps(Seq::<PhaseModel>::empty()) =~= Seq::<StepModel>::empty());
        assert(Seq::<StepModel>::empty().filter(is_done_step()) =~= Seq::<StepModel>::empty()) by {
            reveal(Seq::filter);
        }
    }
}

/// Progress counts what it says: the plan's step count (what
/// `get_plan_progress` gives first) is the number of its steps, and its
/// completed count is the number of steps whose status is `Done`; a step in
/// progress, blocked or to do adds nothing to it, and marking one more step
/// done adds exactly one.
pub proof fn law_progress_counts_done_steps(p: PlanModel)
    ensures
        total_steps(p) == flat_steps(p.phases).len(),
        done_steps(p) == flat_steps(p.phases).filter(|s: StepModel| s.status == StepStatus::Done).len(),
        forall|k: int|
            0 <= k < flat_steps(p.phases).len() && (#[trigger] flat_steps(p.phases)[k]).status != StepStatus::Done
                ==> done_steps(p) < total_steps(p),
{
    lemma_before_prefix(p.phases, p.phases.len() as int);
    assert(p.phases.take(p.phases.len() as int) =~= p.phases);
    let fs = flat_steps(p.phases);
    let pred = |s: StepModel| s.status == StepStatus::Done;
    assert(is_done_step() == pred);
    assert forall|k: int| 0 <= k < fs.len() && (#[trigger] fs[k]).status != StepStatus::Done implies done_steps(
        p,
    ) < total_steps(p) by {
        lemma_filter_len_misses(fs, pred, k);
    }
}

/// Filtering out an element that fails the predicate leaves fewer.
proof fn lemma_filter_len_misses(s: Seq<StepModel>, pred: spec_fn(StepModel) -> bool, k: int)
    requires
        0 <= k < s.len(),
        !pred(s[k]),
    ensures
        s.filter(pred).len() < s.len(),
    decreases s.len(),
{
    let init = s.drop_last();
    assert(init.push(s.last()) =~= s);
    init.lemma_filter_push(s.last(), pred);
    init.lemma_filter_len(pred);
    if k < s.len() - 1 {
        assert(init[k] == s[k]);
        lemma_filter_len_misses(init, pred, k);
    }
}

/// Each synchronised step is [`synced_step`] of its input, for the ids used
/// before it.
proof fn lemma_synced_steps_at(prev: Seq<StepModel>, ins: Seq<SyncStepModel>, used: Seq<Seq<char>>, j: int)
    requires
        0 <= j < ins.len(),
    ensures
        exists|u: Seq<Seq<char>>| #[trigger] synced_step(prev, ins[j], u).0 == synced_steps(prev, ins, used).0[j],
{
    lemma_synced_steps_prefix(prev, ins, used, j + 1);
    let t = ins.take(j + 1);
    assert(t.drop_last() =~= ins.take(j));
    assert(t.last() == ins[j]);
    lemma_synced_steps_prefix(prev, ins.take(j), used, 0);
    let u = synced_steps(prev, ins.take(j), used).1;
    let here = synced_steps(prev, t, used).0;
    assert(here[j] == synced_step(prev, ins[j], u).0);
    assert(synced_steps(prev, ins, used).0.take(j + 1)[j] == synced_steps(prev, ins, used).0[j]);
}

/// Each synchronised phase holds [`synced_steps`] of its input steps, for
/// the step ids used before it.
proof fn lemma_synced_phases_at(prev: Seq<StepModel>, ins: Seq<SyncPhaseModel>, i: int)
    requires
        0 <= i < ins.len(),
    ensures
        exists|u: Seq<Seq<char>>|
            #[trigger] synced_steps(prev, ins[i].steps, u).0 == crate::sync::synced_phases(prev, ins).0[i].steps,
{
    lemma_synced_phases_prefix(prev, ins, i + 1);
    let t = ins.take(i + 1);
    assert(t.drop_last() =~= ins.take(i));
    assert(t.last() == ins[i]);
    lemma_synced_phases_prefix(prev, ins.take(i), 0);
    let u = crate::sync::synced_phases(prev, ins.take(i)).2;
    let here = crate::sync::synced_phases(prev, t).0;
    assert(here[i].steps == synced_steps(prev, ins[i].steps, u).0);
    assert(crate::sync::synced_phases(prev, ins).0.take(i + 1)[i] == crate::sync::synced_phases(prev, ins).0[i]);
}

/// Synchronising a plan carries over what the submitted step leaves unsaid.
/// Each step of the synchronised plan stands for its submitted step; when
/// that step continues a step of the previous plan, it keeps that step's
/// status, owner and completion, and takes its dependencies, details and
/// summary from the previous step wherever the submitted step gives none
/// (a step that gives no dependencies keeps those it had, and so stays
/// behind them). A submitted step that continues none starts to do, with
/// no owner, and with no dependencies or details unless it gives some.
pub proof fn law_sync_carries_over_unset_fields(prev: PlanModel, inputs: Seq<SyncPhaseModel>, i: int, j: int)
    requires
        0 <= i < inputs.len(),
        0 <= j < inputs[i].steps.len(),
    ensures
        ({
            let f = flat_steps(prev.phases);
            let inp = inputs[i].steps[j];
            let st = synced_plan(prev, inputs).phases[i].steps[j];
            &&& st.title == inp.title
            &&& match previous_index(f, inp) {
                Some(k) => {
                    &&& 0 <= k < f.len()
                    &&& st.status == f[k].status
                    &&& st.owner_session_id == f[k].owner_session_id
                    &&& st.completed_at == f[k].completed_at
                    &&& st.completed_by == f[k].completed_by
                    &&& st.depends_on == match inp.depends_on {
                        Some(d) => d,
                        None => f[k].depends_on,
                    }
                    &&& st.details == match inp.details {
                        Some(d) => d,
                        None => f[k].details,
                    }
                    &&& st.summary == match trimmed_nonblank(inp.summary) {
                        Some(t) => t,
                        None => f[k].summary,
                    }
                },
                None => {
                    &&& st.status == StepStatus::Todo
                    &&& st.owner_session_id is None
                    &&& st.completed_at is None
                    &&& st.completed_by is None
                    &&& st.depends_on == match inp.depends_on {
                        Some(d) => d,
                        None => Seq::<Seq<char>>::empty(),
                    }
                    &&& st.details == match inp.details {
                        Some(d) => d,
                        None => Seq::<Seq<char>>::empty(),
                    }
                },
            }
        }),
{
    let f = flat_steps(prev.phases);
    let inp = inputs[i].steps[j];
    lemma_synced_phases_at(f, inputs, i);
    let u = choose|u: Seq<Seq<char>>|
        #[trigger] synced_steps(f, inputs[i].steps, u).0 == crate::sync::synced_phases(f, inputs).0[i].steps;
    lemma_synced_steps_prefix(f, inputs[i].steps, u, 0);
    lemma_synced_steps_at(f, inputs[i].steps, u, j);
    let w = choose|w: Seq<Seq<char>>|
        #[trigger] synced_step(f, inputs[i].steps[j], w).0 == synced_steps(f, inputs[i].steps, u).0[j];
    match previous_index(f, inp) {
        Some(k) => {
            law_sync_keeps_matched_step(f, inp, w);
        },
        None => {},
    }
}

/// Completing a step marks it done in the written plan, completed at the
/// time by the actor and owned by nobody, whoever owned it before (which
/// `complete_step` allows a person at the command line or the desktop app
/// to override); every other step keeps its status.
pub proof fn law_completing_marks_done(
    out: MutationOutcome,
    p0: PlanModel,
    rt: RuntimeModel,
    version: u32,
    pos: (int, int),
    step_id: Seq<char>,
    actor: Seq<char>,
    sess: SessionModel,
    ss1: Seq<SessionModel>,
    branch: Option<Seq<char>>,
    now: Seq<char>,
    q: (int, int),
)
    requires
        valid_pos(p0, pos),
        valid_pos(p0, q),
        crate::mutations::complete_written(out, (p0, rt, version), pos, step_id, actor, sess, ss1, branch, now),
    ensures
        out.write_plan matches Some(wp) && valid_pos(wp@, q) && if q == pos {
            &&& step_of(wp@, q).status == StepStatus::Done
            &&& step_of(wp@, q).owner_session_id is None
            &&& step_of(wp@, q).completed_at == Some(now)
            &&& step_of(wp@, q).completed_by == Some(actor)
            &&& step_of(wp@, q).id == step_of(p0, q).id
        } else {
            step_of(wp@, q).status == step_of(p0, q).status
        },
{
    let p1 = set_step(p0, pos.0, pos.1, completed_step(step_of(p0, pos), actor, now));
    let ss2 = crate::mutations::sessions_owning(ss1, sess.id, None, now);
    let fp = map_steps(p1, step_reconciler(ss2));
    assert(step_of(fp, q) == crate::runtime::reconcile_step(step_of(p1, q), ss2));
    if q != pos {
        if q.0 == pos.0 {
            assert(step_of(p1, q) == step_of(p0, q));
        } else {
            assert(step_of(p1, q) == step_of(p0, q));
        }
    }
}

/// Who may complete a step another session owns: a person at the command
/// line or the desktop app may, and no agent, MCP client, plain CLI call or
/// the system may.
pub proof fn law_people_may_override_ownership(source: ActivitySource)
    ensures
        (source == ActivitySource::Human || source == ActivitySource::Desktop) ==> crate::mutations::human_override(
            source,
        ),
        (source == ActivitySource::Agent || source == ActivitySource::Mcp || source == ActivitySource::Cli || source
            == ActivitySource::System) ==> !crate::mutations::human_override(source),
{
}

/// Clearing blockers unblocks the current step only once none is left: a
/// blocked current step goes back in progress when a session owns it, and
/// to do when none does; a step that was not blocked, and every step while
/// blockers remain, keeps its status.
pub proof fn law_clearing_last_blocker_resumes_step(
    out: MutationOutcome,
    p0: PlanModel,
    rt: RuntimeModel,
    version: u32,
    blocker: Option<Seq<char>>,
    sess: SessionModel,
    ss1: Seq<SessionModel>,
    branch: Option<Seq<char>>,
    now: Seq<char>,
    id: Seq<char>,
)
    requires
        blocker_cleared(out, (p0, rt, version), blocker, sess, ss1, branch, now),
        rt.current_step_id == Some(id),
        locate(p0, id) is Some,
    ensures
        ({
            let q = locate(p0, id)->0;
            let before = step_of(p0, q);
            let none_left = crate::mutations::cleared_blockers(rt.blockers, blocker).len() == 0;
            &&& out.write_plan matches Some(wp)
            &&& valid_pos(wp@, q)
            &&& step_of(wp@, q).id == id
            &&& step_of(wp@, q).status == if none_left && before.status == StepStatus::Blocked {
                if before.owner_session_id is Some {
                    StepStatus::InProgress
                } else {
                    StepStatus::Todo
                }
            } else {
                before.status
            }
        }),
{
    lemma_locate_some_iff(p0, id);
    let q = locate(p0, id)->0;
    let left = crate::mutations::cleared_blockers(rt.blockers, blocker);
    let p1 = if left.len() == 0 {
        crate::mutations::update_at(p0, crate::mutations::current_step_pos(p0, rt), crate::mutations::unblocker())
    } else {
        p0
    };
    let ss2 = ss1;
    let fp = map_steps(p1, step_reconciler(ss2));
    assert(valid_pos(p1, q));
    assert(step_of(fp, q) == crate::runtime::reconcile_step(step_of(p1, q), ss2));
}

/// The handoff's "What changed" section shows the newest activity first:
/// right after its heading come the lines of the last eight events (all of
/// them when there are fewer), the newest first, so its `k`-th line is that
/// of the event `k` places from the end; then the blank line that ends the
/// section. Without activity the section says so in one line.
pub proof fn law_handoff_lists_newest_activity_first(
    name: Seq<char>,
    plan: PlanModel,
    rt: RuntimeState,
    sessions: Seq<SessionModel>,
    activity: Seq<ActivityEvent>,
    proposals: Seq<DecisionProposal>,
)
    ensures
        ({
            let lines = handoff_lines(name, plan, rt, sessions, activity, proposals);
            let h: int = 13 + or_none(crate::handoff::session_lines(sessions), "- None."@).len() as int;
            let n = if activity.len() < 8 { activity.len() as int } else { 8 };
            &&& lines[h - 1] == "## What changed"@
            &&& activity.len() > 0 ==> {
                &&& forall|k: int|
                    0 <= k < n ==> lines[h + k] == crate::handoff::event_line(
                        #[trigger] activity[activity.len() - 1 - k],
                    )
                &&& lines[h + n] == ""@
            }
            &&& activity.len() == 0 ==> lines[h] == "- No recent activity."@ && lines[h + 1] == ""@
        }),
{
    let lines = handoff_lines(name, plan, rt, sessions, activity, proposals);
    let so = or_none(crate::handoff::session_lines(sessions), "- None."@);
    let rl = crate::handoff::recent(activity).map_values(|e: ActivityEvent| crate::handoff::event_line(e));
    let wc = or_none(rl, "- No recent activity."@);
    let h: int = 13 + so.len() as int;
    assert(lines[h - 1] == "## What changed"@);
    let n = if activity.len() < 8 { activity.len() as int } else { 8 };
    if activity.len() > 0 {
        assert(rl.len() == n);
        assert forall|k: int| 0 <= k < n implies lines[h + k] == crate::handoff::event_line(
            #[trigger] activity[activity.len() - 1 - k],
        ) by {
            assert(lines[h + k] == wc[k]);
            assert(rl[k] == crate::handoff::event_line(crate::handoff::recent(activity)[k]));
        }
        assert(lines[h + n] == ""@);
    } else {
        assert(rl.len() == 0);
        assert(lines[h] == "- No recent activity."@);
        assert(lines[h + 1] == ""@);
    }
}

/// Adding a blocker blocks the current step: in the written plan the step
/// the runtime is on is `Blocked`, and every other step keeps its status.
pub proof fn law_adding_blocker_blocks_current_step(
    out: MutationOutcome,
    p0: PlanModel,
    rt: RuntimeModel,
    version: u32,
    blocker: Seq<char>,
    sess: SessionModel,
    ss1: Seq<SessionModel>,
    branch: Option<Seq<char>>,
    now: Seq<char>,
    id: Seq<char>,
    q: (int, int),
)
    requires
        blocker_added(out, (p0, rt, version), blocker, sess, ss1, branch, now),
        rt.current_step_id == Some(id),
        locate(p0, id) is Some,
        valid_pos(p0, q),
    ensures
        out.write_plan matches Some(wp) && valid_pos(wp@, q) && if q == locate(p0, id)->0 {
            step_of(wp@, q).status == StepStatus::Blocked && step_of(wp@, q).id == id
        } else {
            step_of(wp@, q).status == step_of(p0, q).status
        },
{
    lemma_locate_some_iff(p0, id);
    let pos = locate(p0, id)->0;
    let p1 = crate::mutations::update_at(p0, crate::mutations::current_step_pos(p0, rt), crate::mutations::blocker_of(sess.id));
    let fp = map_steps(p1, step_reconciler(ss1));
    assert(valid_pos(p1, q));
    assert(step_of(fp, q) == crate::runtime::reconcile_step(step_of(p1, q), ss1));
    if q != pos {
        assert(step_of(p1, q) == step_of(p0, q));
    }
}

/// Starting a step puts it in progress (blocked while the runtime has
/// blockers), with no completion left on it, in the written plan.
pub proof fn law_starting_marks_step_in_progress(
    out: MutationOutcome,
    p0: PlanModel,
    rt: RuntimeModel,
    ss0: Seq<SessionModel>,
    version: u32,
    pos: (int, int),
    step_id: Seq<char>,
    sess: SessionModel,
    ss1: Seq<SessionModel>,
    branch: Option<Seq<char>>,
    now: Seq<char>,
)
    requires
        valid_pos(p0, pos),
        crate::mutations::start_written(out, (p0, rt, ss0, version), pos, step_id, sess, ss1, branch, now),
    ensures
        out.write_plan matches Some(wp) && valid_pos(wp@, pos) && step_of(wp@, pos).status == (if rt.blockers.len()
            > 0 {
            StepStatus::Blocked
        } else {
            StepStatus::InProgress
        }) && step_of(wp@, pos).completed_at is None && step_of(wp@, pos).completed_by is None,
{
    let blocked = rt.blockers.len() > 0;
    let p1 = start_plan(p0, pos, step_id, sess.id, blocked, crate::sessions::active_ids(ss1));
    let ss2 = crate::mutations::sessions_owning(ss1, sess.id, Some(step_id), now);
    let pa = map_steps(map_steps(p0, releaser(sess.id)), normalizer(Some(step_id), crate::sessions::active_ids(ss1)));
    assert(valid_pos(map_steps(p0, releaser(sess.id)), pos));
    assert(valid_pos(pa, pos));
    assert(valid_pos(p1, pos));
    let fp = map_steps(p1, step_reconciler(ss2));
    assert(step_of(fp, pos) == crate::runtime::reconcile_step(step_of(p1, pos), ss2));
}

proof fn lemma_synced_subtasks_at(
    prev: Seq<crate::models::SubtaskModel>,
    ins: Seq<crate::sync::SyncSubtaskModel>,
    k: int,
)
    requires
        0 <= k < ins.len(),
    ensures
        crate::sync::synced_subtasks(prev, ins).0.len() == ins.len(),
        crate::sync::synced_subtasks(prev, ins).0[k].title == ins[k].title,
        crate::sync::synced_subtasks(prev, ins).0[k].status == match ins[k].status {
            Some(st) => st,
            None => match crate::sync::previous_subtask_index(prev, ins[k]) {
                Some(i) => prev[i].status,
                None => crate::models::SubtaskStatus::Todo,
            },
        },
    decreases ins.len(),
{
    let r = crate::sync::synced_subtasks(prev, ins).0;
    let d = crate::sync::synced_subtasks(prev, ins.drop_last()).0;
    if ins.len() > 1 {
        lemma_synced_subtasks_at(prev, ins.drop_last(), 0);
    }
    assert(d.len() == ins.len() - 1);
    assert(r.len() == ins.len());
    if k < ins.len() - 1 {
        lemma_synced_subtasks_at(prev, ins.drop_last(), k);
        assert(ins.drop_last()[k] == ins[k]);
        assert(r[k] == d[k]);
    }
}

/// Synchronising keeps each subtask's progress: in a synchronised step, the
/// `k`-th subtask has the `k`-th submitted subtask's title, and its status
/// is the submitted one, or, when none is submitted, that of the previous
/// step's subtask it continues, or to do when it continues none.
pub proof fn law_sync_carries_over_subtask_status(
    prev: PlanModel,
    inputs: Seq<SyncPhaseModel>,
    i: int,
    j: int,
    k: int,
)
    requires
        0 <= i < inputs.len(),
        0 <= j < inputs[i].steps.len(),
        inputs[i].steps[j].subtasks matches Some(subs) && 0 <= k < subs.len(),
    ensures
        ({
            let f = flat_steps(prev.phases);
            let inp = inputs[i].steps[j];
            let subs = inp.subtasks->0;
            let st = synced_plan(prev, inputs).phases[i].steps[j];
            let prev_subs = match previous_index(f, inp) {
                Some(m) => f[m].subtasks,
                None => Seq::empty(),
            };
            &&& st.subtasks.len() == subs.len()
            &&& st.subtasks[k].title == subs[k].title
            &&& st.subtasks[k].status == match subs[k].status {
                Some(s) => s,
                None => match crate::sync::previous_subtask_index(prev_subs, subs[k]) {
                    Some(m) => prev_subs[m].status,
                    None => crate::models::SubtaskStatus::Todo,
                },
            }
        }),
{
    let f = flat_steps(prev.phases);
    let inp = inputs[i].steps[j];
    lemma_synced_phases_at(f, inputs, i);
    let u = choose|u: Seq<Seq<char>>|
        #[trigger] synced_steps(f, inputs[i].steps, u).0 == crate::sync::synced_phases(f, inputs).0[i].steps;
    lemma_synced_steps_prefix(f, inputs[i].steps, u, 0);
    lemma_synced_steps_at(f, inputs[i].steps, u, j);
    let w = choose|w: Seq<Seq<char>>|
        #[trigger] synced_step(f, inputs[i].steps[j], w).0 == synced_steps(f, inputs[i].steps, u).0[j];
    let prev_subs = match previous_index(f, inp) {
        Some(m) => f[m].subtasks,
        None => Seq::empty(),
    };
    lemma_synced_subtasks_at(prev_subs, inp.subtasks->0, k);
}

/// The handoff opens with the project's current state: its name, the title
/// of the step the runtime is on (`None` when it is on none, or on an id
/// the plan lacks), the next action (or that none is recorded), the branch
/// (or `Unknown`) and when it was last updated.
pub proof fn law_handoff_states_current_state(
    name: Seq<char>,
    plan: PlanModel,
    rt: RuntimeState,
    sessions: Seq<SessionModel>,
    activity: Seq<ActivityEvent>,
    proposals: Seq<DecisionProposal>,
)
    ensures
        ({
            let lines = handoff_lines(name, plan, rt, sessions, activity, proposals);
            &&& lines[0] == "# Project Handoff"@
            &&& lines[3] == "- Project: "@ + name
            &&& lines[5] == "- Current step: "@ + match crate::models::ostr(rt.current_step_id) {
                Some(id) => if has_step_id(plan, id) {
                    step_of(plan, locate(plan, id)->0).title
                } else {
                    "None"@
                },
                None => "None"@,
            }
            &&& lines[6] == "- Next action: "@ + if rt.next_action@.len() == 0 {
                "No next action recorded."@
            } else {
                rt.next_action@
            }
            &&& lines[7] == "- Active branch: "@ + match crate::models::ostr(rt.active_branch) {
                Some(b) => b,
                None => "Unknown"@,
            }
            &&& lines[8] == "- Last updated: "@ + rt.last_updated_at@
        }),
{
    match crate::models::ostr(rt.current_step_id) {
        Some(id) => lemma_locate_some_iff(plan, id),
        None => {},
    }
}

} // verus!
