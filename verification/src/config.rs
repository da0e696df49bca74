use vstd::prelude::*;

use crate::json::{
    json_error_of, json_pair_object, json_pair_object_text, json_parse_error, json_string_member,
    json_string_member_of,
};
use crate::text::{
    chars_of, contains, contains_exec, ends_with, ends_with_exec, join2, slice_vec,
    string_of, text, trim_end_char, trim_end_char_exec,
};

verus! {

/// The settings that the tool keeps between runs.
#[derive(Debug, Clone, PartialEq, Eq)]
pub struct Config {
    /// The folder the tool works on (not stored; set to the working directory on load).
    pub project_path: String,
    /// The access token of a logged-in session.
    pub token: Option<String>,
    /// The server's API address.
    pub api_url: Option<String>,
}

/// The API address used when none is configured.
pub open spec fn default_api_url() -> Seq<char> {
    "http://localhost:5000/api"@
}

/// The hosted API that is used when a local server does not answer.
pub open spec fn fallback_api_url() -> Seq<char> {
    "https://gtihub-backend.vercel.app/api"@
}

/// The message given to a command that needs a login when there is none.
pub open spec fn not_logged_in_message() -> Seq<char> {
    "Not logged in. Please run 'login <email> <password>' first."@
}

impl Config {
    /// The settings used when no configuration file can be read: project path
    /// `.`, no token, and the local API address.
    pub fn default_config() -> (r: Config)
        ensures
            r.project_path@ == "."@,
            r.token is None,
            r.api_url matches Some(u) && u@ == default_api_url(),
    {
        Config {
            project_path: text("."),
            token: None,
            api_url: Some(text("http://localhost:5000/api")),
        }
    }
}

/// The token of a logged-in session, or the message that asks for a login.
pub fn require_token(config: &Config) -> (r: Result<String, String>)
    ensures
        match config.token {
            Some(t) => r matches Ok(x) && x@ == t@,
            None => r matches Err(e) && e@ == not_logged_in_message(),
        },
{
    match &config.token {
        Some(t) => Ok(t.clone()),
        None => Err(text("Not logged in. Please run 'login <email> <password>' first.")),
    }
}

/// The configured API address, or the default one.
pub open spec fn configured_api_url(config: Config) -> Seq<char> {
    match config.api_url {
        Some(u) => u@,
        None => default_api_url(),
    }
}

/// An address that points at this machine, whose server may not be running.
pub open spec fn is_local_url(url: Seq<char>) -> bool {
    contains(url, "localhost"@) || contains(url, "127.0.0.1"@)
}

/// The health-check address of an API address: trailing slashes dropped, a
/// final `/api` dropped, then `/health` added.
pub open spec fn health_url(url: Seq<char>) -> Seq<char> {
    let base = trim_end_char(url, '/');
    if ends_with(base, "/api"@) {
        base.take(base.len() - 4) + "/health"@
    } else {
        base + "/health"@
    }
}

/// How the API address is settled.
#[derive(Debug, PartialEq, Eq)]
pub enum ApiUrlPlan {
    /// Use this address as it is.
    Use { url: String },
    /// Probe `health` first; `configured` is kept if the probe succeeds.
    Probe { configured: String, health: String },
}

/// The first step in settling the API address: an address that is not local is
/// used as it is; a local one must answer its health check first.
pub fn plan_api_url(config: &Config) -> (r: ApiUrlPlan)
    ensures
        !is_local_url(configured_api_url(*config)) ==> (r matches ApiUrlPlan::Use { url }
            && url@ == configured_api_url(*config)),
        is_local_url(configured_api_url(*config)) ==> (r matches ApiUrlPlan::Probe {
            configured,
            health,
        } && configured@ == configured_api_url(*config) && health@ == health_url(
            configured_api_url(*config),
        )),
{
    let configured = match &config.api_url {
        Some(u) => u.clone(),
        None => text("http://localhost:5000/api"),
    };
    let c = chars_of(configured.as_str());
    let localhost = chars_of("localhost");
    let loopback = chars_of("127.0.0.1");
    if !contains_exec(&c, &localhost) && !contains_exec(&c, &loopback) {
        return ApiUrlPlan::Use { url: configured };
    }
    let base = trim_end_char_exec(&c, '/');
    let api = chars_of("/api");
    proof {
        reveal_strlit("/api");
    }
    let health = if ends_with_exec(&base, &api) {
        let stem = slice_vec(&base, 0, base.len() - 4);
        proof {
            assert(stem@ =~= base@.take(base@.len() - 4));
        }
        join2(string_of(&stem).as_str(), "/health")
    } else {
        join2(string_of(&base).as_str(), "/health")
    };
    ApiUrlPlan::Probe { configured, health }
}

/// The API address once the health check of a local address has answered
/// (`healthy`) or not: the configured address, or the hosted one.
pub fn settle_api_url(configured: String, healthy: bool) -> (r: String)
    ensures
        healthy ==> r@ == configured@,
        !healthy ==> r@ == fallback_api_url(),
{
    if healthy {
        configured
    } else {
        text("https://gtihub-backend.vercel.app/api")
    }
}

/// What reading the link file `.gh-repo.json` gave.
#[derive(Debug, PartialEq, Eq)]
pub enum RepoMeta {
    /// There is no such file.
    Missing,
    /// It could not be read; the reason.
    Unreadable { reason: String },
    /// Its text.
    Text { content: String },
}

/// Which command asks for the linked repository: it decides what a missing link says.
#[derive(Debug, PartialEq, Eq)]
pub enum LinkUse {
    /// `remote-push`.
    Push,
    /// Every other command that needs the linked repository.
    Other,
}

/// The message for a folder that is linked to no repository.
pub open spec fn missing_link_message(usage: LinkUse) -> Seq<char> {
    match usage {
        LinkUse::Push => "No remote repository configured. Run 'remote-create <repo_name>' in this folder first."@,
        LinkUse::Other => "No remote repository configured. Run 'remote-link <repo_id>' or 'remote-create <repo_name>' first."@,
    }
}

/// The repository id, or what is wrong, given what reading the link file as
/// JSON gave: the parse error if there is one, else its `id` member when that is a string.
pub fn repo_id_from_meta(parse_error: Option<String>, id: Option<String>) -> (r: Result<String, String>)
    ensures
        match parse_error {
            Some(e) => r matches Err(m) && m@ == "Failed to parse repo metadata: "@ + e@,
            None => match id {
                Some(x) => r matches Ok(v) && v@ == x@,
                None => r matches Err(m) && m@ == "Invalid repository ID in metadata file."@,
            },
        },
{
    match parse_error {
        Some(e) => Err(join2("Failed to parse repo metadata: ", e.as_str())),
        None => match id {
            Some(x) => Ok(x),
            None => Err(text("Invalid repository ID in metadata file.")),
        },
    }
}

/// The repository id that the text of a link file gives, or what is wrong with
/// it: the text is read as JSON and its `id` member must be a string.
pub open spec fn meta_text_id(content: Seq<char>) -> Result<Seq<char>, Seq<char>> {
    match json_parse_error(content) {
        Some(pe) => Err("Failed to parse repo metadata: "@ + pe),
        None => match json_string_member(content, "id"@) {
            Some(id) => Ok(id),
            None => Err("Invalid repository ID in metadata file."@),
        },
    }
}

/// The id of the repository that the folder is linked to, or what went wrong:
/// the link file is read as JSON and its `id` member must be a string.
pub fn linked_repo_id(meta: RepoMeta, usage: LinkUse) -> (r: Result<String, String>)
    ensures
        match meta {
            RepoMeta::Missing => r matches Err(e) && e@ == missing_link_message(usage),
            RepoMeta::Unreadable { reason } => r matches Err(e) && e@
                == "Failed to read repo metadata: "@ + reason@,
            RepoMeta::Text { content } => match meta_text_id(content@) {
                Ok(id) => r matches Ok(x) && x@ == id,
                Err(m) => r matches Err(e) && e@ == m,
            },
        },
{
    match meta {
        RepoMeta::Missing => match usage {
            LinkUse::Push => Err(
                text(
                    "No remote repository configured. Run 'remote-create <repo_name>' in this folder first.",
                ),
            ),
            LinkUse::Other => Err(
                text(
                    "No remote repository configured. Run 'remote-link <repo_id>' or 'remote-create <repo_name>' first.",
                ),
            ),
        },
        RepoMeta::Unreadable { reason } => Err(
            join2("Failed to read repo metadata: ", reason.as_str()),
        ),
        RepoMeta::Text { content } => {
            let parse_error = json_error_of(content.as_str());
            let id = match parse_error {
                Some(_) => None,
                None => json_string_member_of(content.as_str(), "id"),
            };
            repo_id_from_meta(parse_error, id)
        },
    }
}

/// The id of a repository the server created: its `_id` field, else its `id`
/// field (each when it is a string), else an error.
pub fn created_repo_id(underscore_id: Option<String>, id: Option<String>) -> (r: Result<
    String,
    String,
>)
    ensures
        match (underscore_id, id) {
            (Some(a), _) => r matches Ok(x) && x@ == a@,
            (None, Some(b)) => r matches Ok(x) && x@ == b@,
            (None, None) => r matches Err(e) && e@ == "Repository ID not found in server response."@,
        },
{
    match underscore_id {
        Some(a) => Ok(a),
        None => match id {
            Some(b) => Ok(b),
            None => Err(text("Repository ID not found in server response.")),
        },
    }
}


/// The text written to the link file when a repository is created or linked:
/// the JSON object with its name and id. Reading that text back gives the same
/// id: a folder is linked to the repository it was last linked to.
pub fn link_file_text(name: &str, id: &str) -> (r: String)
    ensures
        r@ == json_pair_object("name"@, name@, "id"@, id@),
        meta_text_id(r@) == Ok::<Seq<char>, Seq<char>>(id@),
{
    proof {
        reveal_strlit("name");
        reveal_strlit("id");
        assert("name"@[0] != "id"@[0]);
    }
    json_pair_object_text("name", name, "id", id)
}

/// The message for a request that the server answered with an error status.
pub fn server_error(body: &str) -> (r: String)
    ensures
        r@ == "Server returned error: "@ + body@,
{
    join2("Server returned error: ", body)
}

/// The settings after a login: the same settings with the new token.
pub fn with_token(config: Config, token: String) -> (r: Config)
    ensures
        r.token matches Some(t) && t@ == token@,
        r.project_path == config.project_path,
        r.api_url == config.api_url,
{
    Config { project_path: config.project_path, token: Some(token), api_url: config.api_url }
}

/// The access token of a login reply (its `data.accessToken` member, when that
/// is a string), or the message that it is missing.
pub fn login_token(access_token: Option<String>) -> (r: Result<String, String>)
    ensures
        match access_token {
            Some(t) => r matches Ok(x) && x@ == t@,
            None => r matches Err(e) && e@ == "Access token not found in login response."@,
        },
{
    match access_token {
        Some(t) => Ok(t),
        None => Err(text("Access token not found in login response.")),
    }
}

} // verus!
