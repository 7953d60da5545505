//! The TOML files the agent defaults read: the `parallel` server in a
//! client configuration (`config.toml`), whether it is there with the
//! bridge's URL and token variable and whether another server already
//! points at the bridge; and the Cargo manifests that tell the product's
//! own repository apart; and the edit that installs the `parallel` server.
use crate::agent_config::status_pair;
use crate::agents::{error, installed, missing, stale, InstallStatus, SurfaceStatus};
use crate::sync::first_index;
use crate::text::{blank, is_blank, str_eq};
use vstd::prelude::*;

verus! {

/// The name of the environment variable the client reads the bridge's
/// token from.
pub open spec fn token_env_var() -> Seq<char> {
    "PARALLEL_MCP_TOKEN"@
}

/// One entry of the `mcp_servers` table, as plain values: its name, whether
/// it is a table (inline or not), and its `url` and `bearer_token_env_var`
/// strings when it is a table that has them.
#[derive(Debug, PartialEq, Eq)]
pub struct TomlServer {
    pub name: String,
    pub is_table: bool,
    pub url: Option<String>,
    pub token_env_var: Option<String>,
}

/// A [`TomlServer`] as a tuple of its name, table-ness, URL and variable.
pub type ServerModel = (Seq<char>, bool, Option<Seq<char>>, Option<Seq<char>>);

pub open spec fn server_view(s: TomlServer) -> ServerModel {
    (s.name@, s.is_table, crate::models::ostr(s.url), crate::models::ostr(s.token_env_var))
}

pub open spec fn servers_view(o: Option<Vec<TomlServer>>) -> Option<Seq<ServerModel>> {
    match o {
        Some(v) => Some(v@.map_values(|s: TomlServer| server_view(s))),
        None => None,
    }
}

/// What toml_edit reads of a TOML text: `None` when it does not parse as a
/// document; else the entries of its `mcp_servers` table, in the table's
/// order (`None` inside when there is no such table or it is not a table).
pub uninterp spec fn toml_mcp_servers(raw: Seq<char>) -> Option<Option<Seq<ServerModel>>>;

/// `raw.parse::<toml_edit::DocumentMut>()`, then the `mcp_servers` item as
/// a table (`Item::as_table_like`) and each of its entries
/// (`TableLike::iter`) with its own `url` and `bearer_token_env_var`
/// strings (`TableLike::get`, `Item::as_str`). The contract says only that
/// the result is the one toml_edit gives for the text, under the name
/// [`toml_mcp_servers`]; the parse error's message is not stated.
#[verifier::external_body]
fn parse_mcp_servers(raw: &str) -> (r: Result<Option<Vec<TomlServer>>, String>)
    ensures
        match r {
            Ok(s) => toml_mcp_servers(raw@) == Some(servers_view(s)),
            Err(_) => toml_mcp_servers(raw@) is None,
        },
{
    let doc = raw.parse::<toml_edit::DocumentMut>().map_err(|e| e.to_string())?;
    let table = match doc.get("mcp_servers").and_then(toml_edit::Item::as_table_like) {
        Some(t) => t,
        None => return Ok(None),
    };
    Ok(Some(table.iter().map(|(name, item)| {
        let t = item.as_table_like();
        let text = |k: &str| t.and_then(|t| t.get(k)).and_then(toml_edit::Item::as_str).map(str::to_string);
        TomlServer { name: name.to_string(), is_table: t.is_some(), url: text("url"), token_env_var: text("bearer_token_env_var") }
    }).collect()))
}

/// The predicate "the entry is named `name`".
pub open spec fn named(name: Seq<char>) -> spec_fn(ServerModel) -> bool {
    |s: ServerModel| s.0 == name
}

/// Whether another entry than `parallel` has the bridge's URL.
pub open spec fn url_collision(servers: Seq<ServerModel>, url: Seq<char>) -> bool {
    exists|i: int| 0 <= i < servers.len() && #[trigger] servers[i].0 != "parallel"@ && servers[i].2 == Some(url)
}

/// `inspect_codex_config` on what the file holds: missing without a server
/// table; an error when another server points at the bridge; missing
/// without a `parallel` table; installed when it has the URL and the token
/// variable; stale otherwise.
pub open spec fn codex_status(servers: Option<Seq<ServerModel>>, url: Seq<char>) -> (InstallStatus, Seq<Seq<char>>) {
    match servers {
        None => (InstallStatus::Missing, Seq::empty()),
        Some(s) => if url_collision(s, url) {
            (InstallStatus::Error, seq!["parallel_name_collision"@])
        } else {
            match first_index(s, named("parallel"@)) {
                None => (InstallStatus::Missing, Seq::empty()),
                Some(k) => if !s[k].1 {
                    (InstallStatus::Missing, Seq::empty())
                } else if s[k].2 == Some(url) && s[k].3 == Some(token_env_var()) {
                    (InstallStatus::Installed, Seq::empty())
                } else {
                    (InstallStatus::Stale, seq!["shape_mismatch"@])
                },
            }
        },
    }
}

fn text_is(v: &Option<String>, want: &str) -> (r: bool)
    ensures
        r == (crate::models::ostr(*v) == Some(want@)),
{
    match v {
        Some(s) => str_eq(s.as_str(), want),
        None => false,
    }
}

/// The status of the configuration given the entries of its server table.
pub fn codex_config_status(servers: &Option<Vec<TomlServer>>, expected_url: &str) -> (r: SurfaceStatus)
    ensures
        status_pair(r) == codex_status(servers_view(*servers), expected_url@),
{
    let s = match servers {
        Some(s) => s,
        None => {
            let r = missing();
            assert(r.reasons.deep_view() =~= Seq::<Seq<char>>::empty());
            return r;
        },
    };
    let ghost sv = s@.map_values(|x: TomlServer| server_view(x));
    assert(servers_view(*servers) == Some(sv));
    let mut k: usize = 0;
    let mut parallel: Option<usize> = None;
    while k < s.len()
        invariant
            sv == s@.map_values(|x: TomlServer| server_view(x)),
            servers_view(*servers) == Some(sv),
            k <= sv.len(),
            forall|i: int| 0 <= i < k ==> !(#[trigger] sv[i].0 != "parallel"@ && sv[i].2 == Some(expected_url@)),
            match parallel {
                Some(p) => first_index(sv.take(k as int), named("parallel"@)) == Some(p as int),
                None => first_index(sv.take(k as int), named("parallel"@)) is None,
            },
        decreases sv.len() - k,
    {
        let e = &s[k];
        assert(sv[k as int] == server_view(*e));
        assert(sv.take(k as int + 1).drop_last() =~= sv.take(k as int));
        let is_parallel = str_eq(e.name.as_str(), "parallel");
        if !is_parallel && text_is(&e.url, expected_url) {
            assert(sv[k as int].0 != "parallel"@);
            assert(sv[k as int].2 == Some(expected_url@));
            assert(url_collision(sv, expected_url@));
            let r = error("parallel_name_collision");
            return r;
        }
        if parallel.is_none() && is_parallel {
            parallel = Some(k);
        }
        k += 1;
    }
    assert(sv.take(sv.len() as int) =~= sv);
    assert(!url_collision(sv, expected_url@));
    let r = match parallel {
        None => missing(),
        Some(p) => {
            proof {
                crate::sync::lemma_first_index_range(sv, named("parallel"@));
            }
            let e = &s[p];
            assert(sv[p as int] == server_view(*e));
            if !e.is_table {
                missing()
            } else if text_is(&e.url, expected_url) && text_is(&e.token_env_var, "PARALLEL_MCP_TOKEN") {
                installed()
            } else {
                stale("shape_mismatch")
            }
        },
    };
    assert(r.status == InstallStatus::Missing ==> r.reasons.deep_view() =~= Seq::<Seq<char>>::empty());
    assert(r.status == InstallStatus::Installed ==> r.reasons.deep_view() =~= Seq::<Seq<char>>::empty());
    r
}

/// `inspect_codex_config`: missing without the file; the parse error when
/// the file is no TOML document; else the status of its server table.
pub fn inspect_codex_config(existing: Option<&str>, expected_url: &str) -> (r: Result<SurfaceStatus, String>)
    ensures
        match existing {
            None => r matches Ok(st) && status_pair(st) == (InstallStatus::Missing, Seq::<Seq<char>>::empty()),
            Some(raw) => match toml_mcp_servers(raw@) {
                None => r is Err,
                Some(servers) => r matches Ok(st) && status_pair(st) == codex_status(servers, expected_url@),
            },
        },
{
    match existing {
        None => {
            let r = missing();
            assert(r.reasons.deep_view() =~= Seq::<Seq<char>>::empty());
            Ok(r)
        },
        Some(raw) => {
            let servers = parse_mcp_servers(raw)?;
            Ok(codex_config_status(&servers, expected_url))
        },
    }
}


// ---------------------------------------------------------------------------
// The product's own repository
// ---------------------------------------------------------------------------

/// What a Cargo manifest says of the repository: its `workspace` table's
/// `members` (`None` without a workspace table, `None` inside when it has
/// no `members` array; each member as a string, when it is one), and its
/// `package.name`.
#[derive(Debug, PartialEq, Eq)]
pub struct ManifestFacts {
    pub workspace: Option<Option<Vec<Option<String>>>>,
    pub package_name: Option<String>,
}

pub type ManifestModel = (Option<Option<Seq<Option<Seq<char>>>>>, Option<Seq<char>>);

pub open spec fn facts_view(f: ManifestFacts) -> ManifestModel {
    (
        match f.workspace {
            Some(Some(v)) => Some(Some(v@.map_values(|m: Option<String>| crate::models::ostr(m)))),
            Some(None) => Some(None),
            None => None,
        },
        crate::models::ostr(f.package_name),
    )
}

/// What toml_edit reads of a Cargo manifest: `None` when it does not parse
/// as a document, else its workspace members and package name.
pub uninterp spec fn toml_manifest_facts(raw: Seq<char>) -> Option<ManifestModel>;

/// `raw.parse::<toml_edit::DocumentMut>()`, then `workspace` as a table and
/// its `members` as an array of strings (`Item::as_table_like`,
/// `TableLike::get`, `Item::as_array`, `Value::as_str`), and
/// `package.name` as a string. The contract says only that the result is
/// the one toml_edit gives for the text, under the name
/// [`toml_manifest_facts`]; the parse error's message is not stated.
#[verifier::external_body]
fn parse_manifest_facts(raw: &str) -> (r: Result<ManifestFacts, String>)
    ensures
        match r {
            Ok(f) => toml_manifest_facts(raw@) == Some(facts_view(f)),
            Err(_) => toml_manifest_facts(raw@) is None,
        },
{
    let doc = raw.parse::<toml_edit::DocumentMut>().map_err(|e| e.to_string())?;
    let table = |k: &str| doc.get(k).and_then(toml_edit::Item::as_table_like);
    let workspace = table("workspace").map(|w| {
        w.get("members").and_then(toml_edit::Item::as_array).map(|a| a.iter().map(|m| m.as_str().map(str::to_string)).collect())
    });
    let package_name = table("package").and_then(|p| p.get("name")).and_then(toml_edit::Item::as_str).map(str::to_string);
    Ok(ManifestFacts { workspace, package_name })
}

/// What a Cargo manifest met on the way up from a repository decides.
#[derive(Debug, Clone, Copy, PartialEq, Eq, Structural)]
pub enum ProductCheck {
    /// No workspace here: look at the parent directory.
    Continue,
    /// A workspace without the command-line crate: not the product.
    NotProduct,
    /// A workspace listing the command-line crate: its manifest decides.
    CheckMember,
}

/// `is_parallel_product_repo` at a manifest: a workspace decides, by
/// whether its members list `crates/projectctl-rs`.
pub open spec fn product_step(f: ManifestModel) -> ProductCheck {
    match f.0 {
        None => ProductCheck::Continue,
        Some(Some(members)) => if members.contains(Some("crates/projectctl-rs"@)) {
            ProductCheck::CheckMember
        } else {
            ProductCheck::NotProduct
        },
        Some(None) => ProductCheck::NotProduct,
    }
}

/// The decision a manifest's text gives, or toml_edit's parse error.
pub fn product_manifest_step(raw: &str) -> (r: Result<ProductCheck, String>)
    ensures
        match toml_manifest_facts(raw@) {
            None => r is Err,
            Some(f) => r == Ok::<ProductCheck, String>(product_step(f)),
        },
{
    let facts = parse_manifest_facts(raw)?;
    let members = match &facts.workspace {
        None => {
            return Ok(ProductCheck::Continue);
        },
        Some(None) => {
            return Ok(ProductCheck::NotProduct);
        },
        Some(Some(m)) => m,
    };
    let ghost ms = members@.map_values(|m: Option<String>| crate::models::ostr(m));
    let mut k: usize = 0;
    while k < members.len()
        invariant
            ms == members@.map_values(|m: Option<String>| crate::models::ostr(m)),
            facts_view(facts).0 == Some(Some(ms)),
            toml_manifest_facts(raw@) == Some(facts_view(facts)),
            k <= ms.len(),
            forall|i: int| 0 <= i < k ==> ms[i] != Some("crates/projectctl-rs"@),
        decreases ms.len() - k,
    {
        assert(ms[k as int] == crate::models::ostr(members@[k as int]));
        let hit = match &members[k] {
            Some(m) => str_eq(m.as_str(), "crates/projectctl-rs"),
            None => false,
        };
        if hit {
            assert(ms.contains(Some("crates/projectctl-rs"@)));
            return Ok(ProductCheck::CheckMember);
        }
        k += 1;
    }
    assert(!ms.contains(Some("crates/projectctl-rs"@)));
    Ok(ProductCheck::NotProduct)
}

/// Whether the command-line crate's manifest names the product's package.
pub fn is_projectctl_package(raw: &str) -> (r: Result<bool, String>)
    ensures
        match toml_manifest_facts(raw@) {
            None => r is Err,
            Some(f) => r == Ok::<bool, String>(f.1 == Some("parallel-projectctl"@)),
        },
{
    let facts = parse_manifest_facts(raw)?;
    match &facts.package_name {
        Some(n) => Ok(str_eq(n.as_str(), "parallel-projectctl")),
        None => Ok(false),
    }
}

// ---------------------------------------------------------------------------
// Installing the `parallel` server
// ---------------------------------------------------------------------------

/// Whether the server table has a `parallel` entry that is a table (inline
/// or not).
pub open spec fn parallel_table(servers: Seq<ServerModel>) -> bool {
    first_index(servers, named("parallel"@)) matches Some(k) && servers[k].1
}

/// What toml_edit prints after editing the document: the document parsed
/// from `raw` (a new, empty one when `raw` is `None`), then, in this order,
/// `mcp_servers` set to a new table when `add_servers`, `mcp_servers.parallel`
/// set to a new table when `add_entry`, and `mcp_servers.parallel.url` and
/// `mcp_servers.parallel.bearer_token_env_var` set to the strings `url` and
/// `env_var`.
pub uninterp spec fn toml_with_parallel_server(
    raw: Option<Seq<char>>,
    add_servers: bool,
    add_entry: bool,
    url: Seq<char>,
    env_var: Seq<char>,
) -> Seq<char>;

/// Whether the TOML text parses as a document whose `mcp_servers` item is
/// there but is neither a table nor an inline table (`Item::as_table_like`
/// is `None`); false when it does not parse.
pub uninterp spec fn toml_servers_item_blocks(raw: Seq<char>) -> bool;

/// `raw.parse::<toml_edit::DocumentMut>()`, then whether `mcp_servers` is
/// an item (`DocumentMut::get`) that `Item::as_table_like` does not take.
/// Claimed: the answer is [`toml_servers_item_blocks`] of the text.
#[verifier::external_body]
fn servers_item_blocks(raw: &str) -> (r: bool)
    ensures
        r == toml_servers_item_blocks(raw@),
{
    match raw.parse::<toml_edit::DocumentMut>() {
        Ok(doc) => doc.get("mcp_servers").map_or(false, |item| item.as_table_like().is_none()),
        Err(_) => false,
    }
}

/// The assignments on a toml_edit document that install the server:
/// `DocumentMut::new()` or `str::parse::<DocumentMut>`, then the index
/// assignments `doc["mcp_servers"] = toml_edit::Item::Table(toml_edit::Table::new())` and
/// `doc["mcp_servers"]["parallel"] = toml_edit::Item::Table(toml_edit::Table::new())` as the flags
/// say, `doc["mcp_servers"]["parallel"][key] = value(..)` for the two keys,
/// and `Display`. Claimed: the text is [`toml_with_parallel_server`] of the
/// arguments. The `requires` keeps out the inputs on which toml_edit's
/// indexing panics ("index not found"): `mcp_servers`, or the `parallel`
/// entry, present but not table-like and not replaced.
#[verifier::external_body]
fn set_parallel_server_toml(raw: Option<&str>, add_servers: bool, add_entry: bool, url: &str, env_var: &str) -> (r: String)
    requires
        match raw {
            None => add_servers && add_entry,
            Some(t) => toml_mcp_servers(t@) matches Some(f) && (add_servers || f is Some) && (add_entry || (
            f matches Some(sv) && parallel_table(sv))),
        },
    ensures
        r@ == toml_with_parallel_server(
            match raw {
                Some(t) => Some(t@),
                None => None,
            },
            add_servers,
            add_entry,
            url@,
            env_var@,
        ),
{
    let mut doc = match raw {
        None => toml_edit::DocumentMut::new(),
        Some(t) => t.parse::<toml_edit::DocumentMut>().unwrap_or_default(),
    };
    if add_servers {
        doc["mcp_servers"] = toml_edit::Item::Table(toml_edit::Table::new());
    }
    if add_entry {
        doc["mcp_servers"]["parallel"] = toml_edit::Item::Table(toml_edit::Table::new());
    }
    doc["mcp_servers"]["parallel"]["url"] = toml_edit::value(url);
    doc["mcp_servers"]["parallel"]["bearer_token_env_var"] = toml_edit::value(env_var);
    doc.to_string()
}

/// Whether the server list has a `parallel` entry that is a table.
fn has_parallel_table(servers: &Vec<TomlServer>) -> (r: bool)
    ensures
        r == parallel_table(servers@.map_values(|x: TomlServer| server_view(x))),
{
    let ghost sv = servers@.map_values(|x: TomlServer| server_view(x));
    let mut k: usize = 0;
    while k < servers.len()
        invariant
            sv == servers@.map_values(|x: TomlServer| server_view(x)),
            k <= sv.len(),
            first_index(sv.take(k as int), named("parallel"@)) is None,
        decreases sv.len() - k,
    {
        assert(sv[k as int] == server_view(servers@[k as int]));
        assert(sv.take(k as int + 1).drop_last() =~= sv.take(k as int));
        if str_eq(servers[k].name.as_str(), "parallel") {
            proof {
                crate::sync::lemma_first_index_prefix(sv, named("parallel"@), k as int + 1);
            }
            return servers[k].is_table;
        }
        k += 1;
    }
    assert(sv.take(sv.len() as int) =~= sv);
    false
}

/// What `write_codex_config` writes: a blank file becomes a new document;
/// otherwise the text must parse as TOML (the parse error is returned
/// otherwise). An `mcp_servers` table is added when there is none, a
/// `parallel` table when there is no table entry of that name, and the
/// entry gets the bridge's URL and the token variable.
pub open spec fn codex_text(raw: Seq<char>, url: Seq<char>, r: Result<String, String>) -> bool {
    if is_blank(raw) {
        r matches Ok(t) && t@ == toml_with_parallel_server(None, true, true, url, token_env_var())
    } else {
        match toml_mcp_servers(raw) {
            None => r is Err,
            Some(f) => r matches Ok(t) && t@ == toml_with_parallel_server(
                Some(raw),
                f is None,
                !(f matches Some(sv) && parallel_table(sv)),
                url,
                token_env_var(),
            ),
        }
    }
}

/// `write_codex_config`'s edit of the file's text (see [`codex_text`]).
pub fn codex_config_text(raw: &str, url: &str) -> (r: Result<String, String>)
    requires
        !is_blank(raw@) ==> !toml_servers_item_blocks(raw@),
    ensures
        codex_text(raw@, url@, r),
{
    let env_var = "PARALLEL_MCP_TOKEN";
    proof {
        reveal_strlit("PARALLEL_MCP_TOKEN");
    }
    if blank(raw) {
        return Ok(set_parallel_server_toml(None, true, true, url, env_var));
    }
    let servers = match parse_mcp_servers(raw) {
        Ok(s) => s,
        Err(e) => {
            return Err(e);
        },
    };
    let (add_servers, add_entry) = match &servers {
        None => (true, true),
        Some(list) => (false, !has_parallel_table(list)),
    };
    Ok(set_parallel_server_toml(Some(raw), add_servers, add_entry, url, env_var))
}

/// [`codex_config_text`] where toml_edit can make the edit: `None` when the
/// text parses with an `mcp_servers` item that is not a table (toml_edit's
/// indexing panics on that document).
pub fn codex_config_text_checked(raw: &str, url: &str) -> (r: Option<Result<String, String>>)
    ensures
        match r {
            None => !is_blank(raw@) && toml_servers_item_blocks(raw@),
            Some(x) => !(!is_blank(raw@) && toml_servers_item_blocks(raw@)) && codex_text(raw@, url@, x),
        },
{
    if !blank(raw) && servers_item_blocks(raw) {
        None
    } else {
        Some(codex_config_text(raw, url))
    }
}

} // verus!
