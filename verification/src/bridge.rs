//! The agent bridge's protocol decisions: which JSON-RPC method a request
//! asks for, whether its bearer token is the bridge's, how a stdio frame
//! states its length, and how a tool call's arguments and a remote reply
//! are read.
use crate::agent_config::{as_text, field, field_of, get_field, text_of};
use crate::models::{JsonValue, SubtaskStatus};
use crate::text::{
    blank, chars_of, concat2, equal_ignoring_ascii_case, eq_ignore_ascii_case, find_first, find_in, is_blank,
    lemma_find_from, owned, str_eq, sub_vec, trim, trim_vec,
};
use vstd::prelude::*;

verus! {

// ---------------------------------------------------------------------------
// Methods
// ---------------------------------------------------------------------------

/// What the bridge does with a JSON-RPC request.
#[derive(Debug, Clone, Copy, PartialEq, Eq, Structural)]
pub enum RpcRoute {
    Initialize,
    /// A notification: no response is sent.
    Initialized,
    Ping,
    ToolsList,
    ToolsCall,
    /// The request does not declare JSON-RPC 2.0.
    BadVersion,
    Unsupported,
}

/// `dispatch_method`'s choice: the version is checked first, then the
/// method's name.
pub open spec fn route_of(jsonrpc: Option<Seq<char>>, method: Seq<char>) -> RpcRoute {
    if jsonrpc != Some("2.0"@) {
        RpcRoute::BadVersion
    } else if method == "initialize"@ {
        RpcRoute::Initialize
    } else if method == "notifications/initialized"@ {
        RpcRoute::Initialized
    } else if method == "ping"@ {
        RpcRoute::Ping
    } else if method == "tools/list"@ {
        RpcRoute::ToolsList
    } else if method == "tools/call"@ {
        RpcRoute::ToolsCall
    } else {
        RpcRoute::Unsupported
    }
}

/// The route of a request.
pub fn rpc_route(jsonrpc: Option<&str>, method: &str) -> (r: RpcRoute)
    ensures
        r == route_of(
            match jsonrpc {
                Some(j) => Some(j@),
                None => None,
            },
            method@,
        ),
{
    let versioned = match jsonrpc {
        Some(j) => str_eq(j, "2.0"),
        None => false,
    };
    if !versioned {
        RpcRoute::BadVersion
    } else if str_eq(method, "initialize") {
        RpcRoute::Initialize
    } else if str_eq(method, "notifications/initialized") {
        RpcRoute::Initialized
    } else if str_eq(method, "ping") {
        RpcRoute::Ping
    } else if str_eq(method, "tools/list") {
        RpcRoute::ToolsList
    } else if str_eq(method, "tools/call") {
        RpcRoute::ToolsCall
    } else {
        RpcRoute::Unsupported
    }
}

/// A JSON-RPC error: its code and message.
pub struct RpcFailure {
    pub code: i32,
    pub message: String,
}

/// The JSON-RPC code of a request whose parameters do not fit the method.
pub const INVALID_PARAMS: i32 = -32602;

/// The JSON-RPC code of a body that is no request.
pub const PARSE_ERROR: i32 = -32700;

/// The error a route answers with: a wrong version is an invalid request,
/// an unknown method is a missing method; the other routes answer.
pub fn route_failure(route: RpcRoute, method: &str) -> (r: Option<RpcFailure>)
    ensures
        match route {
            RpcRoute::BadVersion => r matches Some(f) && f.code == -32600 && f.message@ == "jsonrpc must be 2.0"@,
            RpcRoute::Unsupported => r matches Some(f) && f.code == -32601 && f.message@ == "unsupported method "@
                + method@,
            _ => r is None,
        },
{
    match route {
        RpcRoute::BadVersion => Some(RpcFailure { code: -32600, message: owned("jsonrpc must be 2.0") }),
        RpcRoute::Unsupported => Some(RpcFailure { code: -32601, message: concat2("unsupported method ", method) }),
        _ => None,
    }
}

// ---------------------------------------------------------------------------
// Authorization
// ---------------------------------------------------------------------------

#[derive(Debug, Clone, Copy, PartialEq, Eq, Structural)]
pub enum AuthFailure {
    Missing,
    Invalid,
}

impl AuthFailure {
    pub fn message(&self) -> (r: &'static str)
        ensures
            r@ == match *self {
                AuthFailure::Missing => "missing authorization"@,
                AuthFailure::Invalid => "invalid bearer token"@,
            },
    {
        match self {
            AuthFailure::Missing => "missing authorization",
            AuthFailure::Invalid => "invalid bearer token",
        }
    }
}

/// `authorize`: the `Authorization` header, as text (a header that is not
/// visible ASCII is given as the empty text), must be `Bearer <token>`.
pub fn authorize(header: Option<&str>, token: &str) -> (r: Result<(), AuthFailure>)
    ensures
        match header {
            None => r == Err::<(), AuthFailure>(AuthFailure::Missing),
            Some(h) => if h@ == "Bearer "@ + token@ {
                r is Ok
            } else {
                r == Err::<(), AuthFailure>(AuthFailure::Invalid)
            },
        },
{
    match header {
        None => Err(AuthFailure::Missing),
        Some(h) => {
            let expected = concat2("Bearer ", token);
            if str_eq(h, expected.as_str()) {
                Ok(())
            } else {
                Err(AuthFailure::Invalid)
            }
        },
    }
}

// ---------------------------------------------------------------------------
// Stdio frames
// ---------------------------------------------------------------------------

pub open spec fn is_digit(c: char) -> bool {
    '0' <= c && c <= '9'
}

/// The value of a string of decimal digits.
pub open spec fn digits_value(s: Seq<char>) -> nat
    decreases s.len(),
{
    if s.len() == 0 {
        0
    } else {
        digits_value(s.drop_last()) * 10 + ((s.last() as nat) - ('0' as nat)) as nat
    }
}

/// The digits of a number text: without its leading `+`, when one is
/// followed by more.
pub open spec fn unsigned_digits(s: Seq<char>) -> Seq<char> {
    if s.len() > 1 && s[0] == '+' {
        s.skip(1)
    } else {
        s
    }
}

pub open spec fn all_digits(d: Seq<char>) -> bool {
    forall|i: int| 0 <= i < d.len() ==> is_digit(#[trigger] d[i])
}

/// `usize::from_str`: an optional `+`, then at least one decimal digit and
/// nothing else, of a value that fits.
pub open spec fn parsed_usize(s: Seq<char>) -> Option<nat> {
    let d = unsigned_digits(s);
    if d.len() > 0 && all_digits(d) && digits_value(d) <= usize::MAX {
        Some(digits_value(d))
    } else {
        None
    }
}

proof fn lemma_digits_value_grows(s: Seq<char>, k: int)
    requires
        0 <= k <= s.len(),
        forall|i: int| 0 <= i < s.len() ==> is_digit(#[trigger] s[i]),
    ensures
        digits_value(s.take(k)) <= digits_value(s),
    decreases s.len() - k,
{
    if k < s.len() {
        lemma_digits_value_grows(s, k + 1);
        assert(s.take(k + 1).drop_last() =~= s.take(k));
    } else {
        assert(s.take(k) =~= s);
    }
}

/// Decimal digits parsed as `usize`, or `None` when they are none, hold
/// another character, or do not fit.
fn parse_usize(v: &Vec<char>) -> (r: Option<usize>)
    ensures
        match r {
            Some(n) => parsed_usize(v@) == Some(n as nat),
            None => parsed_usize(v@) is None,
        },
{
    let start: usize = if v.len() > 1 && v[0] == '+' {
        1
    } else {
        0
    };
    let d = sub_vec(v, start, v.len());
    let ghost ds = if v@.len() > 1 && v@[0] == '+' {
        v@.skip(1)
    } else {
        v@
    };
    assert(d@ =~= ds);
    if d.len() == 0 {
        return None;
    }
    let mut acc: usize = 0;
    let mut k: usize = 0;
    while k < d.len()
        invariant
            d@ == ds,
            ds == unsigned_digits(v@),
            ds.len() > 0,
            k <= ds.len(),
            forall|i: int| 0 <= i < k ==> is_digit(#[trigger] ds[i]),
            acc as nat == digits_value(ds.take(k as int)),
        decreases ds.len() - k,
    {
        let c = d[k];
        if !('0' <= c && c <= '9') {
            assert(!is_digit(ds[k as int]));
            return None;
        }
        let digit = (c as u32 - '0' as u32) as usize;
        assert(ds.take(k + 1).drop_last() =~= ds.take(k as int));
        assert(digits_value(ds.take(k + 1)) == digits_value(ds.take(k as int)) * 10 + digit);
        if acc > (usize::MAX - digit) / 10 {
            proof {
                assert(acc * 10 + digit > usize::MAX) by (nonlinear_arith)
                    requires
                        acc > (usize::MAX - digit) / 10,
                        digit <= 9,
                ;
                if all_digits(ds) {
                    lemma_digits_value_grows(ds, k + 1);
                }
            }
            return None;
        }
        assert(acc * 10 + digit <= usize::MAX) by (nonlinear_arith)
            requires
                acc <= (usize::MAX - digit) / 10,
                digit <= 9,
        ;
        acc = acc * 10 + digit;
        k += 1;
    }
    assert(ds.take(ds.len() as int) =~= ds);
    Some(acc)
}

/// What a header line of a stdio frame says of the body's length: `None`
/// when it is no `Content-Length` header (the name before the first `:` is
/// compared without ASCII case), else the value, trimmed and parsed, with
/// `None` inside when it is no valid length.
pub open spec fn content_length_of(line: Seq<char>) -> Option<Option<nat>> {
    match find_first(line, ":"@) {
        None => None,
        Some(i) => if eq_ignore_ascii_case(line.take(i), "content-length"@) {
            Some(parsed_usize(trim(line.skip(i + 1))))
        } else {
            None
        },
    }
}

/// The length a header line of a stdio frame gives, as `read_stdio_message`
/// reads it.
pub fn header_content_length(line: &str) -> (r: Option<Option<usize>>)
    ensures
        match r {
            None => content_length_of(line@) is None,
            Some(None) => content_length_of(line@) == Some(None::<nat>),
            Some(Some(n)) => content_length_of(line@) == Some(Some(n as nat)),
        },
{
    let v = chars_of(line);
    let colon = chars_of(":");
    proof {
        reveal_strlit(":");
    }
    match find_in(&v, &colon) {
        None => None,
        Some(i) => {
            proof {
                lemma_find_from(v@, colon@, 0);
            }
            let vl = v.len();
            assert(i + 1 <= vl);
            let name = sub_vec(&v, 0, i);
            assert(name@ =~= v@.take(i as int));
            let expected = chars_of("content-length");
            if !equal_ignoring_ascii_case(&name, &expected) {
                return None;
            }
            let value = sub_vec(&v, i + 1, vl);
            assert(value@ =~= v@.skip(i + 1));
            let trimmed = trim_vec(&value);
            Some(parse_usize(&trimmed))
        },
    }
}

/// Whether a header line ends the headers of a stdio frame.
pub fn ends_headers(line: &str) -> (r: bool)
    ensures
        r == (line@ == "\r\n"@ || line@ == "\n"@),
{
    str_eq(line, "\r\n") || str_eq(line, "\n")
}

// ---------------------------------------------------------------------------
// Tool arguments
// ---------------------------------------------------------------------------

/// `into_subtask_input`'s status: `todo` or none is to do, `done` is done,
/// anything else is refused.
pub fn subtask_status_of(raw: Option<&str>) -> (r: Result<SubtaskStatus, String>)
    ensures
        match raw {
            None => r == Ok::<SubtaskStatus, String>(SubtaskStatus::Todo),
            Some(s) => if s@ == "todo"@ {
                r == Ok::<SubtaskStatus, String>(SubtaskStatus::Todo)
            } else if s@ == "done"@ {
                r == Ok::<SubtaskStatus, String>(SubtaskStatus::Done)
            } else {
                r matches Err(m) && m@ == "unsupported subtask status "@ + s@
            },
        },
{
    match raw {
        None => Ok(SubtaskStatus::Todo),
        Some(s) => if str_eq(s, "todo") {
            Ok(SubtaskStatus::Todo)
        } else if str_eq(s, "done") {
            Ok(SubtaskStatus::Done)
        } else {
            Err(concat2("unsupported subtask status ", s))
        },
    }
}

/// What a `set_blocker` call asks for.
#[derive(Debug, PartialEq, Eq)]
pub enum BlockerRequest {
    /// Clear the given blocker, or all of them.
    Clear(Option<String>),
    Add(String),
}

/// `set_blocker`: with `clear`, the given blocker (if any) is cleared;
/// without it, a blocker that is not blank must be given.
pub fn blocker_request(clear: bool, blocker: Option<String>) -> (r: Result<BlockerRequest, String>)
    ensures
        clear ==> (r matches Ok(BlockerRequest::Clear(b)) && b == blocker),
        !clear ==> (match blocker {
            Some(b) => if is_blank(b@) {
                r matches Err(m) && m@ == "blocker is required when clear=false"@
            } else {
                r == Ok::<BlockerRequest, String>(BlockerRequest::Add(b))
            },
            None => r matches Err(m) && m@ == "blocker is required when clear=false"@,
        }),
{
    if clear {
        return Ok(BlockerRequest::Clear(blocker));
    }
    match blocker {
        Some(b) => if blank(b.as_str()) {
            Err(owned("blocker is required when clear=false"))
        } else {
            Ok(BlockerRequest::Add(b))
        },
        None => Err(owned("blocker is required when clear=false")),
    }
}

// ---------------------------------------------------------------------------
// Replies of a remote bridge
// ---------------------------------------------------------------------------

/// Why a remote bridge's reply carries no tool output.
#[derive(Debug, Clone, Copy, PartialEq, Eq, Structural)]
pub enum RemoteFailure {
    /// The reply is a JSON-RPC error.
    Error,
    /// The reply has no text content.
    NoContent,
}

/// The first element of an array value.
pub open spec fn first_item(v: Option<JsonValue>) -> Option<JsonValue> {
    match v {
        Some(JsonValue::Array(items)) => if items@.len() > 0 {
            Some(items@[0])
        } else {
            None
        },
        _ => None,
    }
}

/// The text of a remote tool call's reply: `result.content[0].text`,
/// unless the reply has an `error` member.
pub open spec fn reply_text(payload: JsonValue) -> Result<Seq<char>, RemoteFailure> {
    if field(payload, "error"@) is Some {
        Err(RemoteFailure::Error)
    } else {
        match as_text(field_of(first_item(field_of(field(payload, "result"@), "content"@)), "text"@)) {
            Some(t) => Ok(t),
            None => Err(RemoteFailure::NoContent),
        }
    }
}

/// `RemoteBackend::execute` on the decoded reply.
pub fn remote_tool_text(payload: &JsonValue) -> (r: Result<String, RemoteFailure>)
    ensures
        match r {
            Ok(t) => reply_text(*payload) == Ok::<Seq<char>, RemoteFailure>(t@),
            Err(e) => reply_text(*payload) == Err::<Seq<char>, RemoteFailure>(e),
        },
{
    if get_field(payload, "error").is_some() {
        return Err(RemoteFailure::Error);
    }
    let result = get_field(payload, "result");
    let content = crate::agent_config::field_in(result, "content");
    let first: Option<&JsonValue> = match content {
        Some(JsonValue::Array(items)) => if items.len() > 0 {
            Some(&items[0])
        } else {
            None
        },
        _ => None,
    };
    let text = crate::agent_config::field_in(first, "text");
    match text_of(text) {
        Some(t) => Ok(t.clone()),
        None => Err(RemoteFailure::NoContent),
    }
}

} // verus!
