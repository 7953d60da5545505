//! The MCP server entries in an agent client's JSON configuration: whether the
//! `parallel` entry is there and right, whether another entry already points
//! at the bridge, and the configuration with the entry written in.
use crate::agents::{error, installed, missing, stale, SurfaceStatus, InstallStatus};
use crate::models::JsonValue;
use crate::sync::first_index;
use crate::text::{concat2};

use vstd::prelude::*;

verus! {

// ---------------------------------------------------------------------------
// Reading JSON values
// ---------------------------------------------------------------------------

/// The predicate "the member's key is `key`".
pub open spec fn key_is(key: Seq<char>) -> spec_fn((String, JsonValue)) -> bool {
    |f: (String, JsonValue)| f.0@ == key
}

/// `Value::get(key)`: the member of an object with the key.
pub open spec fn field(v: JsonValue, key: Seq<char>) -> Option<JsonValue> {
    match v {
        JsonValue::Object(fs) => match first_index(fs@, key_is(key)) {
            Some(i) => Some(fs@[i].1),
            None => None,
        },
        _ => None,
    }
}

/// `get(key)` on an optional value.
pub open spec fn field_of(v: Option<JsonValue>, key: Seq<char>) -> Option<JsonValue> {
    match v {
        Some(x) => field(x, key),
        None => None,
    }
}

/// The text of a JSON value when it is a string.
pub open spec fn as_text(v: Option<JsonValue>) -> Option<Seq<char>> {
    match v {
        Some(JsonValue::Str(s)) => Some(s@),
        _ => None,
    }
}

/// Whether the value is an object.
pub open spec fn is_object(v: Option<JsonValue>) -> bool {
    v matches Some(JsonValue::Object(_))
}

/// The strings among the items, in order (`filter_map(Value::as_str)`).
pub open spec fn strings_among(items: Seq<JsonValue>) -> Seq<Seq<char>>
    decreases items.len(),
{
    if items.len() == 0 {
        Seq::empty()
    } else {
        match items.last() {
            JsonValue::Str(s) => strings_among(items.drop_last()).push(s@),
            _ => strings_among(items.drop_last()),
        }
    }
}

/// The strings of an array value.
pub open spec fn array_strings(v: Option<JsonValue>) -> Option<Seq<Seq<char>>> {
    match v {
        Some(JsonValue::Array(items)) => Some(strings_among(items@)),
        _ => None,
    }
}

/// The member of a JSON object named `key` (the first one), if the value is an object that has it.
#[verifier::loop_isolation(false)]
pub fn get_field<'a>(v: &'a JsonValue, key: &str) -> (r: Option<&'a JsonValue>)
    ensures
        match r {
            Some(x) => field(*v, key@) == Some(*x),
            None => field(*v, key@) is None,
        },
{
    match v {
        JsonValue::Object(fs) => {
            let ghost s = fs@;
            let mut k: usize = 0;
            while k < fs.len()
                invariant
                    s == fs@,
                    k <= s.len(),
                    first_index(s.take(k as int), key_is(key@)) is None,
                decreases s.len() - k,
            {
                assert(s.take(k as int + 1).drop_last() =~= s.take(k as int));
                if crate::text::str_eq(fs[k].0.as_str(), key) {
                    proof {
                        crate::sync::lemma_first_index_prefix(s, key_is(key@), k as int + 1);
                    }
                    return Some(&fs[k].1);
                }
                k += 1;
            }
            assert(s.take(s.len() as int) =~= s);
            None
        },
        _ => None,
    }
}

pub fn text_of(v: Option<&JsonValue>) -> (r: Option<&String>)
    ensures
        match r {
            Some(s) => as_text(match v {
                Some(x) => Some(*x),
                None => None,
            }) == Some(s@),
            None => as_text(match v {
                Some(x) => Some(*x),
                None => None,
            }) is None,
        },
{
    match v {
        Some(JsonValue::Str(s)) => Some(s),
        _ => None,
    }
}

pub fn text_is(v: Option<&JsonValue>, want: &str) -> (r: bool)
    ensures
        r == (as_text(
            match v {
                Some(x) => Some(*x),
                None => None,
            },
        ) == Some(want@)),
{
    match text_of(v) {
        Some(s) => crate::text::str_eq(s.as_str(), want),
        None => false,
    }
}

pub fn field_in<'a>(v: Option<&'a JsonValue>, key: &str) -> (r: Option<&'a JsonValue>)
    ensures
        match r {
            Some(x) => field_of(
                match v {
                    Some(y) => Some(*y),
                    None => None,
                },
                key@,
            ) == Some(*x),
            None => field_of(
                match v {
                    Some(y) => Some(*y),
                    None => None,
                },
                key@,
            ) is None,
        },
{
    match v {
        Some(x) => get_field(x, key),
        None => None,
    }
}

/// The strings of an array value.
pub fn strings_of_array(v: Option<&JsonValue>) -> (r: Option<Vec<String>>)
    ensures
        match r {
            Some(x) => array_strings(
                match v {
                    Some(y) => Some(*y),
                    None => None,
                },
            ) == Some(x.deep_view()),
            None => array_strings(
                match v {
                    Some(y) => Some(*y),
                    None => None,
                },
            ) is None,
        },
{
    match v {
        Some(JsonValue::Array(items)) => {
            let ghost s = items@;
            let mut out: Vec<String> = Vec::new();
            let mut k: usize = 0;
            while k < items.len()
                invariant
                    s == items@,
                    k <= s.len(),
                    out.deep_view() == strings_among(s.take(k as int)),
                decreases s.len() - k,
            {
                assert(s.take(k as int + 1).drop_last() =~= s.take(k as int));
                match &items[k] {
                    JsonValue::Str(t) => {
                        let c = t.clone();
                        let ghost before = out;
                        let ghost cv = c;
                        out.push(c);
                        proof {
                            crate::models::lemma_deep_push(before, out, cv);
                        }
                    },
                    _ => {},
                }
                k += 1;
            }
            assert(s.take(s.len() as int) =~= s);
            Some(out)
        },
        _ => None,
    }
}

fn same_strings(a: &Vec<String>, b: &Vec<String>) -> (r: bool)
    ensures
        r == (a.deep_view() == b.deep_view()),
{
    if a.len() != b.len() {
        assert(a.deep_view().len() != b.deep_view().len());
        return false;
    }
    let mut k: usize = 0;
    while k < a.len()
        invariant
            a@.len() == b@.len(),
            k <= a@.len(),
            forall|m: int| 0 <= m < k ==> a@[m]@ == b@[m]@,
        decreases a@.len() - k,
    {
        if !crate::text::str_eq(a[k].as_str(), b[k].as_str()) {
            assert(a.deep_view()[k as int] != b.deep_view()[k as int]);
            return false;
        }
        k += 1;
    }
    assert(a.deep_view() =~= b.deep_view());
    true
}

// ---------------------------------------------------------------------------
// Entries
// ---------------------------------------------------------------------------

/// `matches_http_entry`: an HTTP entry for the bridge's URL that
/// sends the bridge's token.
pub open spec fn http_entry_matches(e: Option<JsonValue>, url: Seq<char>, token: Seq<char>) -> bool {
    &&& as_text(field_of(e, "type"@)) == Some("http"@)
    &&& as_text(field_of(e, "url"@)) == Some(url)
    &&& as_text(field_of(field_of(e, "headers"@), "Authorization"@)) == Some("Bearer "@ + token)
}

/// Whether a configured server entry is the bridge over HTTP: type `http`, the
/// expected URL, and the `Authorization` header `Bearer <token>`.
pub fn matches_http_entry(entry: &JsonValue, expected_url: &str, expected_token: &str) -> (r: bool)
    ensures
        r == http_entry_matches(Some(*entry), expected_url@, expected_token@),
{
    let bearer = concat2("Bearer ", expected_token);
    text_is(get_field(entry, "type"), "http") && text_is(get_field(entry, "url"), expected_url) && text_is(
        field_in(get_field(entry, "headers"), "Authorization"),
        bearer.as_str(),
    )
}

/// `matches_proxy_entry`: the proxy command with exactly the
/// expected arguments (the strings among them).
pub open spec fn proxy_entry_matches(e: Option<JsonValue>, command: Seq<char>, args: Seq<Seq<char>>) -> bool {
    &&& as_text(field_of(e, "command"@)) == Some(command)
    &&& array_strings(field_of(e, "args"@)) == Some(args)
}

/// Whether a configured server entry runs the stdio proxy: the expected command
/// with exactly the expected arguments.
pub fn matches_proxy_entry(entry: &JsonValue, command: &str, expected_args: &Vec<String>) -> (r: bool)
    ensures
        r == proxy_entry_matches(Some(*entry), command@, expected_args.deep_view()),
{
    if !text_is(get_field(entry, "command"), command) {
        return false;
    }
    match strings_of_array(get_field(entry, "args")) {
        Some(a) => same_strings(&a, expected_args),
        None => false,
    }
}

/// Whether an entry other than `parallel` points at the bridge: by URL
/// (when one is given) or by the proxy command and arguments.
pub open spec fn entry_collides(e: JsonValue, url: Seq<char>, command: Option<(Seq<char>, Seq<Seq<char>>)>) -> bool {
    ||| url.len() > 0 && as_text(field(e, "url"@)) == Some(url)
    ||| (command matches Some(c) && proxy_entry_matches(Some(e), c.0, c.1))
}

/// Whether a server entry other than `parallel` already points at the bridge
/// (its URL, or the proxy command when one is given).
pub open spec fn collision(servers: Option<JsonValue>, url: Seq<char>, command: Option<(Seq<char>, Seq<Seq<char>>)>) -> bool {
    match servers {
        Some(JsonValue::Object(fs)) => exists|i: int|
            0 <= i < fs@.len() && fs@[i].0@ != "parallel"@ && #[trigger] entry_collides(fs@[i].1, url, command),
        _ => false,
    }
}

/// Whether a server entry other than `parallel` already points at the bridge
/// (its URL, or the proxy command when one is given).
#[verifier::loop_isolation(false)]
pub fn has_matching_named_collision(
    servers: Option<&JsonValue>,
    expected_url: &str,
    expected_command: Option<(&str, &Vec<String>)>,
) -> (r: bool)
    ensures
        r == collision(
            match servers {
                Some(x) => Some(*x),
                None => None,
            },
            expected_url@,
            match expected_command {
                Some(c) => Some((c.0@, c.1.deep_view())),
                None => None,
            },
        ),
{
    let ghost cmd = match expected_command {
        Some(c) => Some((c.0@, c.1.deep_view())),
        None => None,
    };
    let fs = match servers {
        Some(JsonValue::Object(fs)) => fs,
        _ => {
            return false;
        },
    };
    let check_url = expected_url.unicode_len() > 0;
    let mut k: usize = 0;
    while k < fs.len()
        invariant
            servers == Some(&JsonValue::Object(*fs)),
            check_url == (expected_url@.len() > 0),
            k <= fs@.len(),
            forall|m: int|
                0 <= m < k ==> !(fs@[m].0@ != "parallel"@ && #[trigger] entry_collides(fs@[m].1, expected_url@, cmd)),
        decreases fs@.len() - k,
    {
        let (name, entry) = (&fs[k].0, &fs[k].1);
        if !crate::text::str_eq(name.as_str(), "parallel") {
            let by_url = check_url && text_is(get_field(entry, "url"), expected_url);
            let by_command = match expected_command {
                Some((c, a)) => matches_proxy_entry(entry, c, a),
                None => false,
            };
            assert(*entry == fs@[k as int].1);
            proof {
                if by_url {
                    assert(as_text(field(fs@[k as int].1, "url"@)) == Some(expected_url@));
                }
                if by_command {
                    assert(cmd matches Some(c) && proxy_entry_matches(Some(fs@[k as int].1), c.0, c.1));
                }
            }
            if by_url || by_command {
                assert(entry_collides(fs@[k as int].1, expected_url@, cmd));
                return true;
            }
        }
        k += 1;
    }
    false
}

// ---------------------------------------------------------------------------
// Inspecting the configurations
// ---------------------------------------------------------------------------

/// The `mcpServers` member of a configuration, when it is an object.
pub open spec fn servers_of(v: Option<JsonValue>) -> Option<JsonValue> {
    let s = field_of(v, "mcpServers"@);
    if is_object(s) {
        s
    } else {
        None
    }
}

/// What `inspect_http_client_config` reports for a parsed user configuration
/// whose entry for the repository (if any) is `project`: a collision, else
/// the user-scope entry, else a legacy entry in the repository's scope,
/// else missing.
pub open spec fn http_config_status(
    root: JsonValue,
    project: Option<JsonValue>,
    url: Seq<char>,
    token: Seq<char>,
) -> Option<(InstallStatus, Seq<Seq<char>>)> {
    if !is_object(Some(root)) {
        None
    } else if collision(servers_of(Some(root)), url, None) {
        Some((InstallStatus::Error, seq!["parallel_name_collision"@]))
    } else if field_of(servers_of(Some(root)), "parallel"@) is Some {
        if http_entry_matches(field_of(servers_of(Some(root)), "parallel"@), url, token) {
            Some((InstallStatus::Installed, Seq::empty()))
        } else {
            Some((InstallStatus::Stale, seq!["shape_mismatch"@]))
        }
    } else {
        let local = if is_object(project) {
            field_of(servers_of(project), "parallel"@)
        } else {
            None
        };
        match local {
            Some(e) => if http_entry_matches(Some(e), url, token) {
                Some((InstallStatus::Stale, seq!["legacy_local_scope"@]))
            } else {
                Some((InstallStatus::Stale, seq!["shape_mismatch"@]))
            },
            None => Some((InstallStatus::Missing, Seq::empty())),
        }
    }
}

/// A surface status as a pair.
pub open spec fn status_pair(s: SurfaceStatus) -> (InstallStatus, Seq<Seq<char>>) {
    (s.status, s.reasons.deep_view())
}

fn servers_in(v: &JsonValue) -> (r: Option<&JsonValue>)
    ensures
        match r {
            Some(x) => servers_of(Some(*v)) == Some(*x),
            None => servers_of(Some(*v)) is None,
        },
{
    match get_field(v, "mcpServers") {
        Some(s) => match s {
            JsonValue::Object(_) => Some(s),
            _ => None,
        },
        None => None,
    }
}

/// `inspect_http_client_config` on the parsed file.
pub fn inspect_http_client_config(
    root: &JsonValue,
    project: Option<&JsonValue>,
    expected_url: &str,
    expected_token: &str,
) -> (r: Option<SurfaceStatus>)
    ensures
        match r {
            Some(s) => http_config_status(
                *root,
                match project {
                    Some(p) => Some(*p),
                    None => None,
                },
                expected_url@,
                expected_token@,
            ) == Some(status_pair(s)),
            None => !is_object(Some(*root)),
        },
{
    match root {
        JsonValue::Object(_) => {},
        _ => {
            return None;
        },
    }
    let servers = servers_in(root);
    if has_matching_named_collision(servers, expected_url, None) {
        return Some(error("parallel_name_collision"));
    }
    match field_in(servers, "parallel") {
        Some(entry) => {
            return if matches_http_entry(entry, expected_url, expected_token) {
                Some(installed())
            } else {
                Some(stale("shape_mismatch"))
            };
        },
        None => {},
    }
    let local = match project {
        Some(p) => match p {
            JsonValue::Object(_) => match servers_in(p) {
                Some(s) => get_field(s, "parallel"),
                None => None,
            },
            _ => None,
        },
        None => None,
    };
    match local {
        Some(entry) => if matches_http_entry(entry, expected_url, expected_token) {
            Some(stale("legacy_local_scope"))
        } else {
            Some(stale("shape_mismatch"))
        },
        None => Some(missing()),
    }
}

/// What `inspect_proxy_client_config` reports for the parsed file: a
/// collision, else the `parallel` entry's shape, else missing.
pub open spec fn proxy_config_status(
    root: JsonValue,
    url: Seq<char>,
    token: Seq<char>,
    command: Seq<char>,
) -> Option<(InstallStatus, Seq<Seq<char>>)> {
    let args = crate::agents::proxy_args(url, token);
    if !is_object(Some(root)) {
        None
    } else if collision(servers_of(Some(root)), ""@, Some((command, args))) {
        Some((InstallStatus::Error, seq!["parallel_name_collision"@]))
    } else {
        match field_of(servers_of(Some(root)), "parallel"@) {
            None => Some((InstallStatus::Missing, Seq::empty())),
            Some(e) => if proxy_entry_matches(Some(e), command, args) {
                Some((InstallStatus::Installed, Seq::empty()))
            } else {
                Some((InstallStatus::Stale, seq!["shape_mismatch"@]))
            },
        }
    }
}

/// `inspect_proxy_client_config` on the parsed file.
pub fn inspect_proxy_client_config(
    root: &JsonValue,
    expected_url: &str,
    expected_token: &str,
    projectctl_path: &str,
) -> (r: Option<SurfaceStatus>)
    ensures
        match r {
            Some(s) => proxy_config_status(*root, expected_url@, expected_token@, projectctl_path@) == Some(
                status_pair(s),
            ),
            None => !is_object(Some(*root)),
        },
{
    match root {
        JsonValue::Object(_) => {},
        _ => {
            return None;
        },
    }
    proof {
        reveal_strlit("");
    }
    let args = crate::agents::canonical_proxy_args(expected_url, expected_token);
    let servers = servers_in(root);
    if has_matching_named_collision(servers, "", Some((projectctl_path, &args))) {
        return Some(error("parallel_name_collision"));
    }
    match field_in(servers, "parallel") {
        None => Some(missing()),
        Some(entry) => if matches_proxy_entry(entry, projectctl_path, &args) {
            Some(installed())
        } else {
            Some(stale("shape_mismatch"))
        },
    }
}

} // verus!
