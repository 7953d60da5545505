//! The command line's arguments: positionals, `--flag value` and
//! `--flag=value` pairs, bare `--switch`es, and what the commands read from
//! them.
use crate::agent_config::{array_strings, as_text, field, get_field, strings_of_array, text_of};
use crate::models::{
    ActivitySource, JsonValue, MutationActor, PlanSyncPhaseInput, PlanSyncStepInput, PlanSyncSubtaskInput,
    SessionContextInput, SubtaskStatus,
};
use crate::sync::{SyncPhaseModel, SyncStepModel, SyncSubtaskModel};
use crate::roots::{kept_trimmed, split_roots};
use crate::text::{
    chars_of, concat2, find_first, join, join_strings, owned, split_char, starts_with, starts_with_text, string_from,
};

use vstd::prelude::*;

verus! {

/// The parsed command line. A flag given twice keeps its last value.
#[derive(Debug, Default)]
pub struct ParsedArgs {
    pub positionals: Vec<String>,
    pub flags: Vec<(String, String)>,
    pub booleans: Vec<String>,
}

/// [`ParsedArgs`] over character sequences.
#[verifier::ext_equal]
pub struct ArgsModel {
    pub positionals: Seq<Seq<char>>,
    pub flags: Seq<(Seq<char>, Seq<char>)>,
    pub booleans: Seq<Seq<char>>,
}

impl View for ParsedArgs {
    type V = ArgsModel;

    open spec fn view(&self) -> ArgsModel {
        ArgsModel {
            positionals: self.positionals.deep_view(),
            flags: self.flags@.map_values(|f: (String, String)| (f.0@, f.1@)),
            booleans: self.booleans.deep_view(),
        }
    }
}

/// The arguments from position `i` on, parsed onto `acc`: a token without
/// `--` is a positional; `--name=value` sets a flag; `--name` followed by a
/// token without `--` sets the flag to that token; any other `--name` is a
/// switch.
pub open spec fn parse_from(argv: Seq<Seq<char>>, i: int, acc: ArgsModel) -> ArgsModel
    decreases argv.len() - i,
{
    if i < 0 || i >= argv.len() {
        acc
    } else {
        let tok = argv[i];
        if !starts_with(tok, "--"@) {
            parse_from(argv, i + 1, ArgsModel { positionals: acc.positionals.push(tok), ..acc })
        } else {
            let rest = tok.skip(2);
            match find_first(rest, "="@) {
                Some(k) => parse_from(
                    argv,
                    i + 1,
                    ArgsModel { flags: acc.flags.push((rest.take(k), rest.skip(k + 1))), ..acc },
                ),
                None => if i + 1 >= argv.len() || starts_with(argv[i + 1], "--"@) {
                    parse_from(argv, i + 1, ArgsModel { booleans: acc.booleans.push(rest), ..acc })
                } else {
                    parse_from(argv, i + 2, ArgsModel { flags: acc.flags.push((rest, argv[i + 1])), ..acc })
                },
            }
        }
    }
}

/// Nothing parsed yet.
pub open spec fn no_args() -> ArgsModel {
    ArgsModel { positionals: Seq::empty(), flags: Seq::empty(), booleans: Seq::empty() }
}

/// The command line split into positionals, flags with their values, and
/// switches.
pub fn parse_args(argv: &Vec<String>) -> (r: ParsedArgs)
    ensures
        r@ == parse_from(argv.deep_view(), 0, no_args()),
{
    let ghost a = argv.deep_view();
    let mut parsed = ParsedArgs { positionals: Vec::new(), flags: Vec::new(), booleans: Vec::new() };
    proof {
        reveal_strlit("--");
        reveal_strlit("=");
        assert(parsed@.positionals =~= Seq::<Seq<char>>::empty());
        assert(parsed@.flags =~= Seq::<(Seq<char>, Seq<char>)>::empty());
        assert(parsed@.booleans =~= Seq::<Seq<char>>::empty());
    }
    let mut index: usize = 0;
    while index < argv.len()
        invariant
            a == argv.deep_view(),
            index <= a.len(),
            parse_from(a, 0, no_args()) == parse_from(a, index as int, parsed@),
        decreases a.len() - index,
    {
        let token = &argv[index];
        assert(token@ == a[index as int]);
        proof {
            reveal_strlit("--");
            reveal_strlit("=");
        }
        let ghost before = parsed@;
        if !starts_with_text(token.as_str(), "--") {
            let ghost old_pos = parsed.positionals;
            let t = token.clone();
            let ghost tv = t;
            parsed.positionals.push(t);
            proof {
                crate::models::lemma_deep_push(old_pos, parsed.positionals, tv);
                assert(parsed@ =~= ArgsModel { positionals: before.positionals.push(a[index as int]), ..before });
            }
            index += 1;
            continue;
        }
        let tv = chars_of(token.as_str());
        let rest_v = crate::text::sub_vec(&tv, 2, tv.len());
        let ghost rest = a[index as int].skip(2);
        assert(rest_v@ =~= rest);
        let eq: Vec<char> = vec!['='];
        assert(eq@ =~= "="@);
        match crate::text::find_in(&rest_v, &eq) {
            Some(k) => {
                proof {
                    crate::text::lemma_find_from(rest, "="@, 0);
                }
                let name = string_from(crate::text::sub_vec(&rest_v, 0, k).as_slice());
                let value = string_from(crate::text::sub_vec(&rest_v, k + 1, rest_v.len()).as_slice());
                assert(name@ =~= rest.take(k as int));
                assert(value@ =~= rest.skip(k + 1));
                let ghost nv = (name@, value@);
                parsed.flags.push((name, value));
                assert(parsed@ =~= ArgsModel { flags: before.flags.push(nv), ..before });
                index += 1;
            },
            None => {
                let next_is_value = index + 1 < argv.len() && !starts_with_text(argv[index + 1].as_str(), "--");
                proof {
                    if index + 1 < argv@.len() {
                        assert(argv@[index + 1]@ == a[index + 1]);
                    }
                }
                let name = string_from(rest_v.as_slice());
                if !next_is_value {
                    let ghost old_b = parsed.booleans;
                    let ghost nv = name;
                    parsed.booleans.push(name);
                    proof {
                        crate::models::lemma_deep_push(old_b, parsed.booleans, nv);
                        assert(parsed@ =~= ArgsModel { booleans: before.booleans.push(rest), ..before });
                    }
                    index += 1;
                } else {
                    let value = argv[index + 1].clone();
                    let ghost nv = (name@, value@);
                    parsed.flags.push((name, value));
                    assert(parsed@ =~= ArgsModel { flags: before.flags.push(nv), ..before });
                    index += 2;
                }
            },
        }
    }
    parsed
}

/// The value of a flag: the last one given.
pub open spec fn flag_value(flags: Seq<(Seq<char>, Seq<char>)>, name: Seq<char>) -> Option<Seq<char>>
    decreases flags.len(),
{
    if flags.len() == 0 {
        None
    } else if flags.last().0 == name {
        Some(flags.last().1)
    } else {
        flag_value(flags.drop_last(), name)
    }
}

/// `flag`: the value of the flag, if it was given.
pub fn flag(parsed: &ParsedArgs, name: &str) -> (r: Option<String>)
    ensures
        crate::models::ostr(r) == flag_value(parsed@.flags, name@),
{
    let ghost fs = parsed@.flags;
    let mut k: usize = parsed.flags.len();
    assert(fs.take(k as int) =~= fs);
    while k > 0
        invariant
            fs == parsed@.flags,
            k <= fs.len(),
            flag_value(fs, name@) == flag_value(fs.take(k as int), name@),
        decreases k,
    {
        assert(fs.take(k as int).drop_last() =~= fs.take(k - 1));
        assert(fs[k - 1] == (parsed.flags@[k - 1].0@, parsed.flags@[k - 1].1@));
        if crate::text::str_eq(parsed.flags[k - 1].0.as_str(), name) {
            return Some(parsed.flags[k - 1].1.clone());
        }
        k -= 1;
    }
    None
}

/// `required_flag`: the flag's value, or the message naming it.
pub fn required_flag(parsed: &ParsedArgs, name: &str) -> (r: Result<String, String>)
    ensures
        match r {
            Ok(v) => flag_value(parsed@.flags, name@) == Some(v@),
            Err(m) => flag_value(parsed@.flags, name@) is None && m@ == "Missing required flag --"@ + name@,
        },
{
    match flag(parsed, name) {
        Some(v) => Ok(v),
        None => Err(concat2("Missing required flag --", name)),
    }
}

/// Whether a switch was given.
pub fn has_switch(parsed: &ParsedArgs, name: &str) -> (r: bool)
    ensures
        r == parsed@.booleans.contains(name@),
{
    let n = owned(name);
    crate::ids::used_has(&parsed.booleans, &n)
}

/// `split_comma_values`: the comma-separated values, trimmed, the empty
/// ones dropped.
pub fn split_comma_values(raw: &str) -> (r: Vec<String>)
    ensures
        r.deep_view() == kept_trimmed(split_char(raw@, ',')),
{
    split_roots(raw, ',')
}

/// `positional_tail_or_flag`: the positionals from `start` on, joined by
/// spaces, when there are any; else the flag's value, else empty.
pub open spec fn tail_or_flag(p: ArgsModel, start: int, name: Seq<char>) -> Seq<char> {
    if p.positionals.len() > start {
        join(p.positionals.skip(start), " "@)
    } else {
        match flag_value(p.flags, name) {
            Some(v) => v,
            None => Seq::empty(),
        }
    }
}

/// The positionals from `start_index` on, joined by spaces; without any, the
/// value of the flag (empty when it is absent).
pub fn positional_tail_or_flag(parsed: &ParsedArgs, start_index: usize, flag_name: &str) -> (r: String)
    ensures
        r@ == tail_or_flag(parsed@, start_index as int, flag_name@),
{
    if parsed.positionals.len() > start_index {
        let mut tail: Vec<String> = Vec::new();
        let mut k: usize = start_index;
        let ghost ps = parsed@.positionals;
        while k < parsed.positionals.len()
            invariant
                ps == parsed@.positionals,
                start_index <= k <= ps.len(),
                tail.deep_view() == ps.subrange(start_index as int, k as int),
            decreases ps.len() - k,
        {
            let ghost before = tail;
            let x = parsed.positionals[k].clone();
            let ghost xv = x;
            tail.push(x);
            proof {
                crate::models::lemma_deep_push(before, tail, xv);
                assert(ps.subrange(start_index as int, k + 1) =~= ps.subrange(start_index as int, k as int).push(
                    ps[k as int],
                ));
            }
            k += 1;
        }
        assert(ps.subrange(start_index as int, ps.len() as int) =~= ps.skip(start_index as int));
        join_strings(&tail, " ")
    } else {
        match flag(parsed, flag_name) {
            Some(v) => v,
            None => String::new(),
        }
    }
}

/// The source a `--source` value names; the command line by default and
/// for anything unknown.
pub open spec fn source_named(raw: Option<Seq<char>>) -> ActivitySource {
    match raw {
        Some(r) => if r == "mcp"@ {
            ActivitySource::Mcp
        } else if r == "desktop"@ {
            ActivitySource::Desktop
        } else if r == "agent"@ {
            ActivitySource::Agent
        } else if r == "human"@ {
            ActivitySource::Human
        } else if r == "system"@ {
            ActivitySource::System
        } else {
            ActivitySource::Cli
        },
        None => ActivitySource::Cli,
    }
}

/// The activity source a name gives (`mcp`, `desktop`, `agent`, `human`,
/// `system`), `cli` for any other name or none.
pub fn resolve_source(raw: Option<String>) -> (r: ActivitySource)
    ensures
        r == source_named(crate::models::ostr(raw)),
{
    match raw {
        Some(r) => {
            let s = r.as_str();
            if crate::text::str_eq(s, "mcp") {
                ActivitySource::Mcp
            } else if crate::text::str_eq(s, "desktop") {
                ActivitySource::Desktop
            } else if crate::text::str_eq(s, "agent") {
                ActivitySource::Agent
            } else if crate::text::str_eq(s, "human") {
                ActivitySource::Human
            } else if crate::text::str_eq(s, "system") {
                ActivitySource::System
            } else {
                ActivitySource::Cli
            }
        },
        None => ActivitySource::Cli,
    }
}

/// `resolve_actor`: the `--actor` (`projectctl` by default) and the
/// `--source`.
pub fn resolve_actor(parsed: &ParsedArgs) -> (r: MutationActor)
    ensures
        r.actor@ == match flag_value(parsed@.flags, "actor"@) {
            Some(a) => a,
            None => "projectctl"@,
        },
        r.source == source_named(flag_value(parsed@.flags, "source"@)),
{
    let actor = match flag(parsed, "actor") {
        Some(a) => a,
        None => owned("projectctl"),
    };
    MutationActor { actor, source: resolve_source(flag(parsed, "source")) }
}

/// `resolve_session_context`: the `--session-id`, `--session-title` and
/// `--branch` flags.
pub fn resolve_session_context(parsed: &ParsedArgs) -> (r: SessionContextInput)
    ensures
        crate::models::ostr(r.session_id) == flag_value(parsed@.flags, "session-id"@),
        crate::models::ostr(r.session_title) == flag_value(parsed@.flags, "session-title"@),
        crate::models::ostr(r.branch) == flag_value(parsed@.flags, "branch"@),
{
    SessionContextInput {
        session_id: flag(parsed, "session-id"),
        session_title: flag(parsed, "session-title"),
        branch: flag(parsed, "branch"),
    }
}

/// `ensure_human_authority`: accepting a decision needs `--source human`,
/// or the environment's explicit allowance (`1`).
pub fn ensure_human_authority(parsed: &ParsedArgs, allow_env: Option<&str>) -> (r: Result<(), String>)
    ensures
        match r {
            Ok(()) => flag_value(parsed@.flags, "source"@) == Some("human"@) || (allow_env matches Some(e) && e@
                == "1"@),
            Err(m) => !(flag_value(parsed@.flags, "source"@) == Some("human"@) || (allow_env matches Some(e) && e@
                == "1"@)) && m@ == "decision accept requires explicit human authority via --source human"@,
        },
{
    let human = match flag(parsed, "source") {
        Some(s) => crate::text::str_eq(s.as_str(), "human"),
        None => false,
    };
    let allowed = match allow_env {
        Some(e) => crate::text::str_eq(e, "1"),
        None => false,
    };
    if human || allowed {
        Ok(())
    } else {
        Err(owned("decision accept requires explicit human authority via --source human"))
    }
}

/// `resolve_serve_http_roots`: the comma-separated `--roots`, else the
/// watch-roots variable split on the platform's separator, else none.
pub fn resolve_serve_http_roots(parsed: &ParsedArgs, env_roots: Option<&str>, sep: char) -> (r: Vec<String>)
    ensures
        r.deep_view() == match flag_value(parsed@.flags, "roots"@) {
            Some(raw) => kept_trimmed(split_char(raw, ',')),
            None => match env_roots {
                Some(e) => kept_trimmed(split_char(e@, sep)),
                None => Seq::empty(),
            },
        },
{
    match flag(parsed, "roots") {
        Some(raw) => split_comma_values(raw.as_str()),
        None => match env_roots {
            Some(e) => split_roots(e, sep),
            None => {
                let v: Vec<String> = Vec::new();
                assert(v.deep_view() =~= Seq::<Seq<char>>::empty());
                v
            },
        },
    }
}

// ---------------------------------------------------------------------------
// The plan handed to `plan sync`
// ---------------------------------------------------------------------------

/// A subtask of the handed-in plan: its id and status when given as text
/// (`done` or `todo`), its title (empty when missing).
pub open spec fn subtask_in(v: JsonValue) -> SyncSubtaskModel {
    SyncSubtaskModel {
        id: as_text(field(v, "id"@)),
        title: match as_text(field(v, "title"@)) {
            Some(t) => t,
            None => Seq::empty(),
        },
        status: match as_text(field(v, "status"@)) {
            Some(s) => if s == "done"@ {
                Some(SubtaskStatus::Done)
            } else if s == "todo"@ {
                Some(SubtaskStatus::Todo)
            } else {
                None
            },
            None => None,
        },
    }
}

/// A step of the handed-in plan, or why it is refused.
pub open spec fn step_in(v: JsonValue) -> Result<SyncStepModel, Seq<char>> {
    match as_text(field(v, "title"@)) {
        None => Err("step title is required"@),
        Some(title) => Ok(
            SyncStepModel {
                id: as_text(field(v, "id"@)),
                title,
                summary: as_text(field(v, "summary"@)),
                details: array_strings(field(v, "details"@)),
                depends_on: array_strings(field(v, "depends_on"@)),
                subtasks: match field(v, "subtasks"@) {
                    Some(JsonValue::Array(items)) => Some(items@.map_values(|x: JsonValue| subtask_in(x))),
                    _ => None,
                },
            },
        ),
    }
}

/// The steps of a phase, or the first refusal.
pub open spec fn steps_in(items: Seq<JsonValue>) -> Result<Seq<SyncStepModel>, Seq<char>>
    decreases items.len(),
{
    if items.len() == 0 {
        Ok(Seq::empty())
    } else {
        match steps_in(items.drop_last()) {
            Err(e) => Err(e),
            Ok(done) => match step_in(items.last()) {
                Err(e) => Err(e),
                Ok(s) => Ok(done.push(s)),
            },
        }
    }
}

/// A phase of the handed-in plan, or why it is refused.
pub open spec fn phase_in(v: JsonValue) -> Result<SyncPhaseModel, Seq<char>> {
    match as_text(field(v, "title"@)) {
        None => Err("phase title is required"@),
        Some(title) => match field(v, "steps"@) {
            Some(JsonValue::Array(items)) => match steps_in(items@) {
                Err(e) => Err(e),
                Ok(steps) => Ok(SyncPhaseModel { id: as_text(field(v, "id"@)), title, steps }),
            },
            _ => Err("phase steps are required"@),
        },
    }
}

/// The phases, or the first refusal.
pub open spec fn phases_in(items: Seq<JsonValue>) -> Result<Seq<SyncPhaseModel>, Seq<char>>
    decreases items.len(),
{
    if items.len() == 0 {
        Ok(Seq::empty())
    } else {
        match phases_in(items.drop_last()) {
            Err(e) => Err(e),
            Ok(done) => match phase_in(items.last()) {
                Err(e) => Err(e),
                Ok(p) => Ok(done.push(p)),
            },
        }
    }
}

/// `phase_inputs_from_json`: an array of phases, or an object whose
/// `phases` is one.
pub open spec fn plan_in(v: JsonValue) -> Result<Seq<SyncPhaseModel>, Seq<char>> {
    match v {
        JsonValue::Array(items) => phases_in(items@),
        _ => match field(v, "phases"@) {
            Some(JsonValue::Array(items)) => phases_in(items@),
            _ => Err("--plan must be a JSON array of phases or an object with phases"@),
        },
    }
}

proof fn lemma_steps_in_err(items: Seq<JsonValue>, k: int)
    requires
        0 < k <= items.len(),
        steps_in(items.take(k)) is Err,
    ensures
        steps_in(items) == steps_in(items.take(k)),
    decreases items.len() - k,
{
    if k < items.len() {
        assert(items.take(k + 1).drop_last() =~= items.take(k));
        lemma_steps_in_err(items, k + 1);
    } else {
        assert(items.take(k) =~= items);
    }
}

proof fn lemma_phases_in_err(items: Seq<JsonValue>, k: int)
    requires
        0 < k <= items.len(),
        phases_in(items.take(k)) is Err,
    ensures
        phases_in(items) == phases_in(items.take(k)),
    decreases items.len() - k,
{
    if k < items.len() {
        assert(items.take(k + 1).drop_last() =~= items.take(k));
        lemma_phases_in_err(items, k + 1);
    } else {
        assert(items.take(k) =~= items);
    }
}

fn opt_text(v: Option<&JsonValue>) -> (r: Option<String>)
    ensures
        crate::models::ostr(r) == as_text(
            match v {
                Some(x) => Some(*x),
                None => None,
            },
        ),
{
    match text_of(v) {
        Some(s) => Some(s.clone()),
        None => None,
    }
}

fn subtask_from(v: &JsonValue) -> (r: PlanSyncSubtaskInput)
    ensures
        r@ == subtask_in(*v),
{
    let title = match text_of(get_field(v, "title")) {
        Some(t) => t.clone(),
        None => String::new(),
    };
    let status = match text_of(get_field(v, "status")) {
        Some(s) => if crate::text::str_eq(s.as_str(), "done") {
            Some(SubtaskStatus::Done)
        } else if crate::text::str_eq(s.as_str(), "todo") {
            Some(SubtaskStatus::Todo)
        } else {
            None
        },
        None => None,
    };
    let r = PlanSyncSubtaskInput { id: opt_text(get_field(v, "id")), title, status };
    assert(r@ =~= subtask_in(*v));
    r
}

fn step_from(v: &JsonValue) -> (r: Result<PlanSyncStepInput, String>)
    ensures
        match r {
            Ok(s) => step_in(*v) == Ok::<SyncStepModel, Seq<char>>(s@),
            Err(m) => step_in(*v) == Err::<SyncStepModel, Seq<char>>(m@),
        },
{
    let title = match text_of(get_field(v, "title")) {
        Some(t) => t.clone(),
        None => {
            return Err(owned("step title is required"));
        },
    };
    let subtasks = match get_field(v, "subtasks") {
        Some(JsonValue::Array(items)) => {
            let ghost s = items@;
            let mut out: Vec<PlanSyncSubtaskInput> = Vec::new();
            let mut k: usize = 0;
            while k < items.len()
                invariant
                    s == items@,
                    k <= s.len(),
                    out.deep_view() == s.take(k as int).map_values(|x: JsonValue| subtask_in(x)),
                decreases s.len() - k,
            {
                let sub = subtask_from(&items[k]);
                let ghost before = out;
                let ghost sv = sub;
                out.push(sub);
                proof {
                    crate::models::lemma_deep_push(before, out, sv);
                    assert(s.take(k as int + 1).map_values(|x: JsonValue| subtask_in(x)) =~= s.take(
                        k as int,
                    ).map_values(|x: JsonValue| subtask_in(x)).push(subtask_in(s[k as int])));
                }
                k += 1;
            }
            assert(s.take(s.len() as int) =~= s);
            Some(out)
        },
        _ => None,
    };
    let r = PlanSyncStepInput {
        id: opt_text(get_field(v, "id")),
        title,
        summary: opt_text(get_field(v, "summary")),
        details: strings_of_array(get_field(v, "details")),
        depends_on: strings_of_array(get_field(v, "depends_on")),
        subtasks,
    };
    assert(r@ =~= step_in(*v)->Ok_0);
    Ok(r)
}

#[verifier::loop_isolation(false)]
fn phase_from(v: &JsonValue) -> (r: Result<PlanSyncPhaseInput, String>)
    ensures
        match r {
            Ok(p) => phase_in(*v) == Ok::<SyncPhaseModel, Seq<char>>(p@),
            Err(m) => phase_in(*v) == Err::<SyncPhaseModel, Seq<char>>(m@),
        },
{
    let title = match text_of(get_field(v, "title")) {
        Some(t) => t.clone(),
        None => {
            return Err(owned("phase title is required"));
        },
    };
    let items = match get_field(v, "steps") {
        Some(JsonValue::Array(items)) => items,
        _ => {
            return Err(owned("phase steps are required"));
        },
    };
    let ghost s = items@;
    let mut steps: Vec<PlanSyncStepInput> = Vec::new();
    assert(s.take(0) =~= Seq::<JsonValue>::empty());
    assert(steps.deep_view() =~= Seq::<SyncStepModel>::empty());
    let mut k: usize = 0;
    while k < items.len()
        invariant
            s == items@,
            k <= s.len(),
            steps_in(s.take(k as int)) == Ok::<Seq<SyncStepModel>, Seq<char>>(steps.deep_view()),
        decreases s.len() - k,
    {
        assert(s.take(k as int + 1).drop_last() =~= s.take(k as int));
        match step_from(&items[k]) {
            Ok(st) => {
                let ghost before = steps;
                let ghost sv = st;
                steps.push(st);
                proof {
                    crate::models::lemma_deep_push(before, steps, sv);
                }
            },
            Err(m) => {
                proof {
                    lemma_steps_in_err(s, k as int + 1);
                }
                return Err(m);
            },
        }
        k += 1;
    }
    assert(s.take(s.len() as int) =~= s);
    let p = PlanSyncPhaseInput { id: opt_text(get_field(v, "id")), title, steps };
    assert(p@ =~= phase_in(*v)->Ok_0);
    Ok(p)
}

/// `phase_inputs_from_json`: the phases of the handed-in plan, or the first
/// reason it is refused.
#[verifier::loop_isolation(false)]
pub fn phase_inputs_from_json(value: &JsonValue) -> (r: Result<Vec<PlanSyncPhaseInput>, String>)
    ensures
        match r {
            Ok(ps) => plan_in(*value) == Ok::<Seq<SyncPhaseModel>, Seq<char>>(ps.deep_view()),
            Err(m) => plan_in(*value) == Err::<Seq<SyncPhaseModel>, Seq<char>>(m@),
        },
{
    let items = match value {
        JsonValue::Array(items) => items,
        _ => match get_field(value, "phases") {
            Some(JsonValue::Array(items)) => items,
            _ => {
                return Err(owned("--plan must be a JSON array of phases or an object with phases"));
            },
        },
    };
    let ghost s = items@;
    assert(plan_in(*value) == phases_in(s));
    let mut phases: Vec<PlanSyncPhaseInput> = Vec::new();
    assert(s.take(0) =~= Seq::<JsonValue>::empty());
    assert(phases.deep_view() =~= Seq::<SyncPhaseModel>::empty());
    let mut k: usize = 0;
    while k < items.len()
        invariant
            s == items@,
            k <= s.len(),
            phases_in(s.take(k as int)) == Ok::<Seq<SyncPhaseModel>, Seq<char>>(phases.deep_view()),
        decreases s.len() - k,
    {
        assert(s.take(k as int + 1).drop_last() =~= s.take(k as int));
        match phase_from(&items[k]) {
            Ok(p) => {
                let ghost before = phases;
                let ghost pv = p;
                phases.push(p);
                proof {
                    crate::models::lemma_deep_push(before, phases, pv);
                }
            },
            Err(m) => {
                proof {
                    lemma_phases_in_err(s, k as int + 1);
                }
                return Err(m);
            },
        }
        k += 1;
    }
    assert(s.take(s.len() as int) =~= s);
    Ok(phases)
}

} // verus!
