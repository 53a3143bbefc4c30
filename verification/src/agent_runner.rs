use vstd::prelude::*;

use minijinja::Environment;

use crate::commands::{compile_template, minijinja_compile_error};
use crate::config::{env_lookup, EnvVars};
use crate::slug::{trim_end_char, trim_end_matches_char};
use crate::strings::{concat, concat3, skip_chars, starts_with_char};
use crate::text::{owned, str_eq, to_uppercase, trim, trim_ws, unicode_uppercase};
use crate::text::{chars_of, push_char};
use crate::tracker::{decimal, i64_to_decimal, u64_to_decimal, BlockerRef, Issue};

verus! {

broadcast use vstd::string::group_string_axioms;

/// Token usage reported by an agent.
#[derive(Clone, Debug)]
pub struct TokenDelta {
    pub input_tokens: i64,
    pub output_tokens: i64,
    pub total_tokens: i64,
}

impl TokenDelta {
    /// A copy of these counts.
    pub fn copy(&self) -> (r: TokenDelta)
        ensures
            r == *self,
    {
        TokenDelta {
            input_tokens: self.input_tokens,
            output_tokens: self.output_tokens,
            total_tokens: self.total_tokens,
        }
    }
}

/// An event emitted by the agent runner while it works on an issue.
#[derive(Clone, Debug)]
pub struct AgentUpdate {
    pub issue_id: String,
    pub event: String,
    pub timestamp: String,
    pub pid: Option<u32>,
    pub session_id: Option<String>,
    pub thread_id: Option<String>,
    pub turn_id: Option<String>,
    pub turn_count: usize,
    pub message: Option<String>,
    pub token_delta: Option<TokenDelta>,
}

// ---------------------------------------------------------------------------
// Token usage
// ---------------------------------------------------------------------------

/// The integer fields of a `usage` object, under both of their accepted names
/// (`None` where the field is absent or not an integer).
#[derive(Clone, Debug)]
pub struct UsageNumbers {
    pub input_tokens: Option<i64>,
    pub input: Option<i64>,
    pub output_tokens: Option<i64>,
    pub output: Option<i64>,
    pub total_tokens: Option<i64>,
    pub total: Option<i64>,
}

/// The first of two optional counts, else 0.
pub open spec fn count_or_zero(a: Option<i64>, b: Option<i64>) -> i64 {
    match a {
        Some(x) => x,
        None => match b {
            Some(y) => y,
            None => 0,
        },
    }
}

/// The token delta of a `usage` object: `input_tokens` (or `input`), `output_tokens`
/// (or `output`), and `total_tokens` (or `total`, or else input plus output).
pub open spec fn token_delta_of(u: UsageNumbers) -> TokenDelta {
    let input = count_or_zero(u.input_tokens, u.input);
    let output = count_or_zero(u.output_tokens, u.output);
    let total = match u.total_tokens {
        Some(t) => t,
        None => match u.total {
            Some(t) => t,
            None => (input + output) as i64,
        },
    };
    TokenDelta { input_tokens: input, output_tokens: output, total_tokens: total }
}

/// Input plus output fits in an `i64` (the sum is computed whether or not a total is given).
pub open spec fn usage_in_range(u: UsageNumbers) -> bool {
    let input = count_or_zero(u.input_tokens, u.input);
    let output = count_or_zero(u.output_tokens, u.output);
    i64::MIN <= input + output <= i64::MAX
}

/// Decides `usage_in_range`: whether input plus output fits in an `i64`.
pub fn usage_fits(u: &UsageNumbers) -> (r: bool)
    ensures
        r == usage_in_range(*u),
{
    let input: i64 = match u.input_tokens {
        Some(x) => x,
        None => match u.input {
            Some(y) => y,
            None => 0,
        },
    };
    let output: i64 = match u.output_tokens {
        Some(x) => x,
        None => match u.output {
            Some(y) => y,
            None => 0,
        },
    };
    input.checked_add(output).is_some()
}

/// Extracts token usage from the `usage` object of a turn event, if it has one.
pub fn extract_token_delta(usage: Option<UsageNumbers>) -> (r: Option<TokenDelta>)
    requires
        usage matches Some(u) ==> usage_in_range(u),
    ensures
        r == match usage {
            Some(u) => Some(token_delta_of(u)),
            None => None,
        },
{
    match usage {
        Some(u) => {
            let input = match u.input_tokens {
                Some(x) => x,
                None => match u.input {
                    Some(y) => y,
                    None => 0,
                },
            };
            let output = match u.output_tokens {
                Some(x) => x,
                None => match u.output {
                    Some(y) => y,
                    None => 0,
                },
            };
            let sum = input + output;
            let total = match u.total_tokens {
                Some(t) => t,
                None => match u.total {
                    Some(t) => t,
                    None => sum,
                },
            };
            Some(TokenDelta { input_tokens: input, output_tokens: output, total_tokens: total })
        },
        None => None,
    }
}

// ---------------------------------------------------------------------------
// JSON-RPC turn loop
// ---------------------------------------------------------------------------

/// The session id of a turn: thread id and turn id joined by `-`.
pub fn session_id_for(thread_id: &str, turn_id: &str) -> (r: String)
    ensures
        r@ == thread_id@ + "-"@ + turn_id@,
{
    concat3(thread_id, "-", turn_id)
}

/// How the runner reacts to a method the agent sends during a turn.
#[derive(Clone, Copy, Debug, PartialEq, Eq, Structural)]
pub enum AgentMessage {
    /// The turn finished; stop reading.
    TurnCompleted,
    /// The turn failed or was cancelled; the run fails.
    TurnFailed,
    /// A command execution needs approval; it is approved for the session.
    CommandApproval,
    /// A file change needs approval; it is approved for the session.
    PatchApproval,
    /// The agent needs operator input; the run stops and the issue is blocked.
    InputRequired,
    /// The agent calls one of the runner's tools.
    ToolCall,
    /// Anything else is ignored.
    Ignored,
}

/// The reaction to each agent method.
pub open spec fn agent_message_for(method: Seq<char>) -> AgentMessage {
    if method == "turn/completed"@ {
        AgentMessage::TurnCompleted
    } else if method == "turn/failed"@ || method == "turn/cancelled"@ {
        AgentMessage::TurnFailed
    } else if method == "item/commandExecution/requestApproval"@ || method
        == "execCommandApproval"@ {
        AgentMessage::CommandApproval
    } else if method == "item/fileChange/requestApproval"@ || method == "applyPatchApproval"@ {
        AgentMessage::PatchApproval
    } else if method == "item/tool/requestUserInput"@ {
        AgentMessage::InputRequired
    } else if method == "item/tool/call"@ {
        AgentMessage::ToolCall
    } else {
        AgentMessage::Ignored
    }
}

/// Classifies a method sent by the agent during a turn.
pub fn classify_agent_method(method: &str) -> (r: AgentMessage)
    ensures
        r == agent_message_for(method@),
{
    if str_eq(method, "turn/completed") {
        AgentMessage::TurnCompleted
    } else if str_eq(method, "turn/failed") || str_eq(method, "turn/cancelled") {
        AgentMessage::TurnFailed
    } else if str_eq(method, "item/commandExecution/requestApproval") || str_eq(
        method,
        "execCommandApproval",
    ) {
        AgentMessage::CommandApproval
    } else if str_eq(method, "item/fileChange/requestApproval") || str_eq(
        method,
        "applyPatchApproval",
    ) {
        AgentMessage::PatchApproval
    } else if str_eq(method, "item/tool/requestUserInput") {
        AgentMessage::InputRequired
    } else if str_eq(method, "item/tool/call") {
        AgentMessage::ToolCall
    } else {
        AgentMessage::Ignored
    }
}

/// The approval decision sent back: the legacy method names get `approved_for_session`,
/// the item-based ones `acceptForSession`.
pub open spec fn approval_decision_for(method: Seq<char>) -> Seq<char> {
    if method == "execCommandApproval"@ || method == "applyPatchApproval"@ {
        "approved_for_session"@
    } else {
        "acceptForSession"@
    }
}

/// The decision with which an approval request is answered.
pub fn approval_decision(method: &str) -> (r: String)
    ensures
        r@ == approval_decision_for(method@),
{
    if str_eq(method, "execCommandApproval") || str_eq(method, "applyPatchApproval") {
        owned("approved_for_session")
    } else {
        owned("acceptForSession")
    }
}

/// The error of a failed turn: its message, or `Unknown failure`.
pub fn turn_failure_message(error_message: Option<&str>) -> (r: String)
    ensures
        r@ == "Turn failed: "@ + match error_message {
            Some(m) => m@,
            None => "Unknown failure"@,
        },
{
    match error_message {
        Some(m) => concat("Turn failed: ", m),
        None => concat("Turn failed: ", "Unknown failure"),
    }
}

/// A tool the runner offers to agents.
#[derive(Debug, PartialEq, Eq, Structural)]
pub enum ToolKind {
    LinearGraphql,
    GitlabApi,
    Unsupported,
}

/// Which tool a call names.
pub fn tool_kind(name: &str) -> (r: ToolKind)
    ensures
        r == if name@ == "linear_graphql"@ {
            ToolKind::LinearGraphql
        } else if name@ == "gitlab_api"@ {
            ToolKind::GitlabApi
        } else {
            ToolKind::Unsupported
        },
{
    if str_eq(name, "linear_graphql") {
        ToolKind::LinearGraphql
    } else if str_eq(name, "gitlab_api") {
        ToolKind::GitlabApi
    } else {
        ToolKind::Unsupported
    }
}

// ---------------------------------------------------------------------------
// GitLab tool requests
// ---------------------------------------------------------------------------

/// The HTTP methods the GitLab tool uses.
#[derive(Debug, PartialEq, Eq, Structural)]
pub enum HttpMethod {
    Get,
    Post,
    Put,
    Delete,
}

/// The method of a GitLab tool call: `POST`, `PUT` or `DELETE` after upper-casing, and
/// `GET` for anything else.
pub open spec fn http_method_for(upper: Seq<char>) -> HttpMethod {
    if upper == "POST"@ {
        HttpMethod::Post
    } else if upper == "PUT"@ {
        HttpMethod::Put
    } else if upper == "DELETE"@ {
        HttpMethod::Delete
    } else {
        HttpMethod::Get
    }
}

/// Picks the HTTP method of a GitLab tool call.
pub fn gitlab_method(method: &str) -> (r: HttpMethod)
    ensures
        r == http_method_for(unicode_uppercase(method@)),
{
    let u = to_uppercase(method);
    let s = u.as_str();
    if str_eq(s, "POST") {
        HttpMethod::Post
    } else if str_eq(s, "PUT") {
        HttpMethod::Put
    } else if str_eq(s, "DELETE") {
        HttpMethod::Delete
    } else {
        HttpMethod::Get
    }
}

/// The URL of a GitLab tool call: the endpoint without trailing `/`, a `/`, and the
/// trimmed path without one leading `/`.
pub open spec fn gitlab_url_for(endpoint: Seq<char>, path: Seq<char>) -> Seq<char> {
    let p = trim_ws(path);
    let clean = if p.len() > 0 && p[0] == '/' {
        p.drop_first()
    } else {
        p
    };
    trim_end_char(endpoint, '/') + "/"@ + clean
}

/// Builds the URL of a GitLab tool call.
pub fn gitlab_url(endpoint: &str, path: &str) -> (r: String)
    ensures
        r@ == gitlab_url_for(endpoint@, path@),
{
    let p = trim(path);
    let clean = if starts_with_char(p.as_str(), '/') {
        let c = skip_chars(p.as_str(), 1);
        proof {
            assert(p@.skip(1) =~= p@.drop_first());
        }
        c
    } else {
        p
    };
    let base = trim_end_matches_char(endpoint, '/');
    concat3(base.as_str(), "/", clean.as_str())
}

/// The GitLab token and API endpoint the environment gives: the first of
/// `GITLAB_PRIVATE_TOKEN`, `GITLAB_TOKEN` and `PRIVATE_TOKEN`, and `GITLAB_API_ENDPOINT` or
/// the public GitLab API. Fails without a token.
pub open spec fn gitlab_auth_for(env: Seq<(String, String)>) -> Result<(Seq<char>, Seq<char>), Seq<char>> {
    let token = match env_lookup(env, "GITLAB_PRIVATE_TOKEN"@) {
        Some(t) => Some(t),
        None => match env_lookup(env, "GITLAB_TOKEN"@) {
            Some(t) => Some(t),
            None => env_lookup(env, "PRIVATE_TOKEN"@),
        },
    };
    let endpoint = match env_lookup(env, "GITLAB_API_ENDPOINT"@) {
        Some(e) => e,
        None => "https://gitlab.com/api/v4"@,
    };
    match token {
        Some(t) => Ok((t, endpoint)),
        None => Err(
            "GitLab API Token is missing. Export GITLAB_PRIVATE_TOKEN or GITLAB_TOKEN in the environment."@,
        ),
    }
}

/// Picks the GitLab token and endpoint from the recorded environment.
pub fn gitlab_auth(env: &EnvVars) -> (r: Result<(String, String), String>)
    ensures
        match r {
            Ok((t, e)) => gitlab_auth_for(env.vars@) == Ok::<(Seq<char>, Seq<char>), Seq<char>>((t@, e@)),
            Err(m) => gitlab_auth_for(env.vars@) == Err::<(Seq<char>, Seq<char>), Seq<char>>(m@),
        },
{
    let token = match env.get("GITLAB_PRIVATE_TOKEN") {
        Some(t) => Some(t),
        None => match env.get("GITLAB_TOKEN") {
            Some(t) => Some(t),
            None => env.get("PRIVATE_TOKEN"),
        },
    };
    let endpoint = match env.get("GITLAB_API_ENDPOINT") {
        Some(e) => e,
        None => owned("https://gitlab.com/api/v4"),
    };
    match token {
        Some(t) => Ok((t, endpoint)),
        None => Err(
            owned(
                "GitLab API Token is missing. Export GITLAB_PRIVATE_TOKEN or GITLAB_TOKEN in the environment.",
            ),
        ),
    }
}


// ---------------------------------------------------------------------------
// Prompt rendering
// ---------------------------------------------------------------------------

/// The hexadecimal digit of `v` (below 16), lower case.
pub open spec fn hex_char(v: u32) -> char {
    if v < 10 {
        (v + 48) as char
    } else {
        (v + 87) as char
    }
}

/// How a character stands inside a JSON string: quotes and backslashes are escaped, and
/// control characters written as `\u00XX`.
pub open spec fn json_char(c: char) -> Seq<char> {
    if c == '"' {
        seq!['\\', '"']
    } else if c == '\\' {
        seq!['\\', '\\']
    } else if (c as u32) < 32 {
        seq!['\\', 'u', '0', '0', hex_char((c as u32) / 16), hex_char((c as u32) % 16)]
    } else {
        seq![c]
    }
}

/// The characters of `s` as they stand inside a JSON string.
pub open spec fn json_escaped(s: Seq<char>) -> Seq<char>
    decreases s.len(),
{
    if s.len() == 0 {
        seq![]
    } else {
        json_escaped(s.drop_last()) + json_char(s.last())
    }
}

/// `s` as a JSON string.
pub open spec fn json_string(s: Seq<char>) -> Seq<char> {
    seq!['"'] + json_escaped(s) + seq!['"']
}

/// An optional text as JSON: the string, or `null`.
pub open spec fn json_opt_string(o: Option<String>) -> Seq<char> {
    match o {
        Some(s) => json_string(s@),
        None => "null"@,
    }
}

/// An optional integer as JSON: the number, or `null`.
pub open spec fn json_opt_int(o: Option<i64>) -> Seq<char> {
    match o {
        Some(n) => decimal(n as int),
        None => "null"@,
    }
}

/// A boolean as JSON.
pub open spec fn json_bool(b: bool) -> Seq<char> {
    if b {
        "true"@
    } else {
        "false"@
    }
}

/// The items of a JSON array of strings, separated by commas.
pub open spec fn json_string_items(v: Seq<String>) -> Seq<char>
    decreases v.len(),
{
    if v.len() == 0 {
        seq![]
    } else if v.len() == 1 {
        json_string(v[0]@)
    } else {
        json_string_items(v.drop_last()) + seq![','] + json_string(v.last()@)
    }
}

/// A blocker as a JSON object.
pub open spec fn json_blocker(b: BlockerRef) -> Seq<char> {
    "{\"id\":"@ + json_string(b.id@) + ",\"identifier\":"@ + json_string(b.identifier@)
        + ",\"state\":"@ + json_opt_string(b.state) + "}"@
}

/// The items of a JSON array of blockers, separated by commas.
pub open spec fn json_blocker_items(v: Seq<BlockerRef>) -> Seq<char>
    decreases v.len(),
{
    if v.len() == 0 {
        seq![]
    } else if v.len() == 1 {
        json_blocker(v[0])
    } else {
        json_blocker_items(v.drop_last()) + seq![','] + json_blocker(v.last())
    }
}

/// An issue as a JSON object, with every field of the issue.
pub open spec fn issue_json(i: Issue) -> Seq<char> {
    "{\"id\":"@ + json_string(i.id@) + ",\"identifier\":"@ + json_string(i.identifier@)
        + ",\"title\":"@ + json_string(i.title@) + ",\"description\":"@ + json_opt_string(
        i.description,
    ) + ",\"priority\":"@ + json_opt_int(i.priority) + ",\"state\":"@ + json_string(i.state@)
        + ",\"branch_name\":"@ + json_opt_string(i.branch_name) + ",\"url\":"@ + json_opt_string(
        i.url,
    ) + ",\"assignee_id\":"@ + json_opt_string(i.assignee_id) + ",\"blocked_by\":["@
        + json_blocker_items(i.blocked_by@) + "],\"labels\":["@ + json_string_items(i.labels@)
        + "],\"assigned_to_worker\":"@ + json_bool(i.assigned_to_worker) + ",\"created_at\":"@
        + json_opt_string(i.created_at) + ",\"updated_at\":"@ + json_opt_string(i.updated_at)
        + "}"@
}

/// The context a prompt is rendered with, as JSON: the issue and the attempt number.
pub open spec fn prompt_context_json(i: Issue, attempt: nat) -> Seq<char> {
    "{\"issue\":"@ + issue_json(i) + ",\"attempt\":"@ + decimal(attempt as int) + "}"@
}

fn hex_digit(v: u32) -> (r: char)
    requires
        v < 16,
    ensures
        r == hex_char(v),
{
    if v < 10 {
        let b: u8 = (v as u8) + 48;
        b as char
    } else {
        let b: u8 = (v as u8) + 87;
        b as char
    }
}

fn push_json_string(out: &mut String, s: &str)
    ensures
        final(out)@ == old(out)@ + json_string(s@),
{
    let ghost start = out@;
    push_char(out, '"');
    let chars = chars_of(s);
    let mut i: usize = 0;
    proof {
        assert(chars@.take(0) =~= Seq::<char>::empty());
    }
    while i < chars.len()
        invariant
            i <= chars@.len(),
            chars@ == s@,
            out@ == start + seq!['"'] + json_escaped(chars@.take(i as int)),
        decreases chars@.len() - i,
    {
        let c = chars[i];
        let ghost before = out@;
        let code = c as u32;
        if c == '"' {
            push_char(out, '\\');
            push_char(out, '"');
        } else if c == '\\' {
            push_char(out, '\\');
            push_char(out, '\\');
        } else if code < 32 {
            push_char(out, '\\');
            push_char(out, 'u');
            push_char(out, '0');
            push_char(out, '0');
            push_char(out, hex_digit(code / 16));
            push_char(out, hex_digit(code % 16));
        } else {
            push_char(out, c);
        }
        proof {
            assert(out@ =~= before + json_char(c));
            let t = chars@.take(i + 1);
            assert(t.drop_last() =~= chars@.take(i as int));
            assert(t.last() == c);
        }
        i += 1;
    }
    push_char(out, '"');
    proof {
        assert(chars@.take(chars@.len() as int) =~= chars@);
        assert(out@ =~= start + json_string(s@));
    }
}

fn push_json_opt_string(out: &mut String, o: &Option<String>)
    ensures
        final(out)@ == old(out)@ + json_opt_string(*o),
{
    match o {
        Some(v) => push_json_string(out, v.as_str()),
        None => out.append("null"),
    }
}

fn push_json_opt_int(out: &mut String, o: Option<i64>)
    ensures
        final(out)@ == old(out)@ + json_opt_int(o),
{
    match o {
        Some(n) => {
            let d = i64_to_decimal(n);
            out.append(d.as_str());
        },
        None => out.append("null"),
    }
}

fn push_json_blocker(out: &mut String, b: &BlockerRef)
    ensures
        final(out)@ == old(out)@ + json_blocker(*b),
{
    let ghost start = out@;
    out.append("{\"id\":");
    push_json_string(out, b.id.as_str());
    out.append(",\"identifier\":");
    push_json_string(out, b.identifier.as_str());
    out.append(",\"state\":");
    push_json_opt_string(out, &b.state);
    out.append("}");
    proof {
        assert(out@ =~= start + json_blocker(*b));
    }
}

fn push_json_string_items(out: &mut String, v: &Vec<String>)
    ensures
        final(out)@ == old(out)@ + json_string_items(v@),
{
    let ghost start = out@;
    let mut i: usize = 0;
    proof {
        assert(start + json_string_items(v@.take(0)) =~= start);
    }
    while i < v.len()
        invariant
            i <= v@.len(),
            out@ == start + json_string_items(v@.take(i as int)),
        decreases v@.len() - i,
    {
        let ghost before = out@;
        if i > 0 {
            push_char(out, ',');
        }
        push_json_string(out, v[i].as_str());
        proof {
            let t = v@.take(i + 1);
            assert(t.drop_last() =~= v@.take(i as int));
            assert(t.last() == v@[i as int]);
            if i == 0 {
                assert(t[0] == v@[0]);
                assert(out@ =~= start + json_string_items(t));
            } else {
                assert(out@ =~= start + json_string_items(t));
            }
        }
        i += 1;
    }
    proof {
        assert(v@.take(v@.len() as int) =~= v@);
    }
}

fn push_json_blocker_items(out: &mut String, v: &Vec<BlockerRef>)
    ensures
        final(out)@ == old(out)@ + json_blocker_items(v@),
{
    let ghost start = out@;
    let mut i: usize = 0;
    proof {
        assert(start + json_blocker_items(v@.take(0)) =~= start);
    }
    while i < v.len()
        invariant
            i <= v@.len(),
            out@ == start + json_blocker_items(v@.take(i as int)),
        decreases v@.len() - i,
    {
        if i > 0 {
            push_char(out, ',');
        }
        push_json_blocker(out, &v[i]);
        proof {
            let t = v@.take(i + 1);
            assert(t.drop_last() =~= v@.take(i as int));
            assert(t.last() == v@[i as int]);
            if i == 0 {
                assert(t[0] == v@[0]);
            }
            assert(out@ =~= start + json_blocker_items(t));
        }
        i += 1;
    }
    proof {
        assert(v@.take(v@.len() as int) =~= v@);
    }
}

/// An issue as JSON text, with every field of the issue.
pub fn issue_json_text(issue: &Issue) -> (r: String)
    ensures
        r@ == issue_json(*issue),
{
    let mut out = owned("{\"id\":");
    push_json_string(&mut out, issue.id.as_str());
    out.append(",\"identifier\":");
    push_json_string(&mut out, issue.identifier.as_str());
    out.append(",\"title\":");
    push_json_string(&mut out, issue.title.as_str());
    out.append(",\"description\":");
    push_json_opt_string(&mut out, &issue.description);
    out.append(",\"priority\":");
    push_json_opt_int(&mut out, issue.priority);
    out.append(",\"state\":");
    push_json_string(&mut out, issue.state.as_str());
    out.append(",\"branch_name\":");
    push_json_opt_string(&mut out, &issue.branch_name);
    out.append(",\"url\":");
    push_json_opt_string(&mut out, &issue.url);
    out.append(",\"assignee_id\":");
    push_json_opt_string(&mut out, &issue.assignee_id);
    out.append(",\"blocked_by\":[");
    push_json_blocker_items(&mut out, &issue.blocked_by);
    out.append("],\"labels\":[");
    push_json_string_items(&mut out, &issue.labels);
    out.append("],\"assigned_to_worker\":");
    if issue.assigned_to_worker {
        out.append("true");
    } else {
        out.append("false");
    }
    out.append(",\"created_at\":");
    push_json_opt_string(&mut out, &issue.created_at);
    out.append(",\"updated_at\":");
    push_json_opt_string(&mut out, &issue.updated_at);
    out.append("}");
    out
}

/// The context a prompt is rendered with, as JSON text: the whole issue under `issue`
/// and the attempt number under `attempt`.
pub fn prompt_context(issue: &Issue, attempt: usize) -> (r: String)
    ensures
        r@ == prompt_context_json(*issue, attempt as nat),
{
    let mut out = owned("{\"issue\":");
    let body = issue_json_text(issue);
    out.append(body.as_str());
    out.append(",\"attempt\":");
    let n = u64_to_decimal(attempt as u64);
    out.append(n.as_str());
    out.append("}");
    out
}

/// What minijinja renders from `template`, compiled under the name `prompt` in a default
/// environment, with the context that the JSON text `context` stands for; or the text of
/// its error (also when `context` is not JSON).
pub uninterp spec fn minijinja_render(template: Seq<char>, context: Seq<char>) -> Result<Seq<char>, Seq<char>>;

/// Calls minijinja's `Environment::template_from_named_str` and `Template::render`, with
/// the context parsed from JSON text by `serde_json::from_str`; the result and the
/// error's text depend on the template and the context alone.
#[verifier::external_body]
fn render_template(template: &str, context: &str) -> (r: Result<String, String>)
    ensures
        match minijinja_render(template@, context@) {
            Ok(p) => r is Ok && r->Ok_0@ == p,
            Err(e) => r is Err && r->Err_0@ == e,
        },
{
    let ctx: serde_json::Value = match serde_json::from_str(context) {
        Ok(v) => v,
        Err(e) => return Err(format!("{}", e)),
    };
    let env = Environment::new();
    let rendered = match env.template_from_named_str("prompt", template) {
        Ok(t) => t.render(ctx),
        Err(e) => Err(e),
    };
    match rendered { Ok(s) => Ok(s), Err(e) => Err(format!("{}", e)) }
}

/// The prompt from the outcome of rendering: a render error becomes a render failure.
pub fn rendered_prompt(rendered: Result<String, String>) -> (r: Result<String, String>)
    ensures
        match rendered {
            Ok(p) => r == Ok::<String, String>(p),
            Err(e) => r is Err && r->Err_0@ == "Failed to render prompt: "@ + e@,
        },
{
    match rendered {
        Ok(p) => Ok(p),
        Err(e) => Err(concat("Failed to render prompt: ", e.as_str())),
    }
}

/// Renders the prompt template for `issue` and `attempt`, with the whole issue and the
/// attempt number as context. A template that does not compile gives a template error;
/// one that fails to render, a render failure.
pub fn render_prompt(template: &str, issue: &Issue, attempt: usize) -> (r: Result<String, String>)
    ensures
        match minijinja_compile_error(template@) {
            Some(e) => r is Err && r->Err_0@ == "Jinja template error: "@ + e,
            None => match minijinja_render(template@, prompt_context_json(*issue, attempt as nat)) {
                Ok(p) => r is Ok && r->Ok_0@ == p,
                Err(e) => r is Err && r->Err_0@ == "Failed to render prompt: "@ + e,
            },
        },
{
    match compile_template(template) {
        Err(e) => Err(concat("Jinja template error: ", e.as_str())),
        Ok(()) => {
            let context = prompt_context(issue, attempt);
            rendered_prompt(render_template(template, context.as_str()))
        },
    }
}

// ---------------------------------------------------------------------------
// The turn loop
// ---------------------------------------------------------------------------

/// The outcome of the handshake: an error in the answer to `initialize` ends the run.
pub fn initialize_outcome(error_text: Option<String>) -> (r: Result<(), String>)
    ensures
        match error_text {
            None => r is Ok,
            Some(t) => r is Err && r->Err_0@ == "Initialize error: "@ + t@,
        },
{
    match error_text {
        None => Ok(()),
        Some(t) => Err(concat("Initialize error: ", t.as_str())),
    }
}

/// Where the reading of a turn stands.
#[derive(Clone, Copy, Debug, PartialEq, Eq, Structural)]
pub struct TurnState {
    /// How long the agent may stay silent, in milliseconds.
    pub turn_timeout_ms: u64,
    /// Whether the outcome of the turn is decided.
    pub finished: bool,
}

impl TurnState {
    /// A turn that has just started.
    pub fn start(turn_timeout_ms: u64) -> (r: TurnState)
        ensures
            r == (TurnState { turn_timeout_ms, finished: false }),
    {
        TurnState { turn_timeout_ms, finished: false }
    }
}

/// What the runner saw while reading a turn.
#[derive(Clone, Debug)]
pub enum TurnEvent {
    /// A message of the agent, classified, with the error message that a failure carries.
    Agent { kind: AgentMessage, error_message: Option<String> },
    /// No line came for `idle_ms` milliseconds.
    Idle { idle_ms: u64 },
    /// Reading the agent's output failed.
    ReadError { message: String },
    /// The agent's output ended.
    OutputEnded,
}

/// What the runner does next.
#[derive(Debug)]
pub enum TurnAction {
    /// Wait for the next line.
    KeepReading,
    /// Answer the approval request with the decision for its method.
    Approve,
    /// Run the requested tool and send back its result.
    RunTool,
    /// Stop reading: the run ends with this outcome, and only `Ok` runs the `after_run` hook.
    Finish(Result<(), String>),
}

/// A `TurnAction` with its error as text.
pub enum TurnCommand {
    KeepReading,
    Approve,
    RunTool,
    Finish(Result<(), Seq<char>>),
}

impl View for TurnAction {
    type V = TurnCommand;

    open spec fn view(&self) -> TurnCommand {
        match self {
            TurnAction::KeepReading => TurnCommand::KeepReading,
            TurnAction::Approve => TurnCommand::Approve,
            TurnAction::RunTool => TurnCommand::RunTool,
            TurnAction::Finish(Ok(())) => TurnCommand::Finish(Ok(())),
            TurnAction::Finish(Err(e)) => TurnCommand::Finish(Err(e@)),
        }
    }
}

/// The state once the outcome is decided.
pub open spec fn finished_turn(state: TurnState) -> TurnState {
    TurnState { finished: true, ..state }
}

/// A step of the turn loop. Once the outcome is decided nothing changes. `turn/completed`
/// ends the turn with success; a failure, a request for operator input, silence longer
/// than the timeout, a read error and the end of the output end it with an error;
/// approval requests and tool calls are answered; anything else is read past.
pub open spec fn turn_step_spec(state: TurnState, event: TurnEvent) -> (TurnState, TurnCommand) {
    if state.finished {
        (state, TurnCommand::KeepReading)
    } else {
        match event {
            TurnEvent::Agent { kind, error_message } => match kind {
                AgentMessage::TurnCompleted => (finished_turn(state), TurnCommand::Finish(Ok(()))),
                AgentMessage::TurnFailed => (
                    finished_turn(state),
                    TurnCommand::Finish(
                        Err(
                            "Turn failed: "@ + match error_message {
                                Some(m) => m@,
                                None => "Unknown failure"@,
                            },
                        ),
                    ),
                ),
                AgentMessage::CommandApproval => (state, TurnCommand::Approve),
                AgentMessage::PatchApproval => (state, TurnCommand::Approve),
                AgentMessage::InputRequired => (
                    finished_turn(state),
                    TurnCommand::Finish(Err("turn_input_required"@)),
                ),
                AgentMessage::ToolCall => (state, TurnCommand::RunTool),
                AgentMessage::Ignored => (state, TurnCommand::KeepReading),
            },
            TurnEvent::Idle { idle_ms } => if idle_ms > state.turn_timeout_ms {
                (finished_turn(state), TurnCommand::Finish(Err("Turn execution timed out"@)))
            } else {
                (state, TurnCommand::KeepReading)
            },
            TurnEvent::ReadError { message } => (
                finished_turn(state),
                TurnCommand::Finish(Err("Read stream error: "@ + message@)),
            ),
            TurnEvent::OutputEnded => (
                finished_turn(state),
                TurnCommand::Finish(Err("Agent output ended before the turn completed"@)),
            ),
        }
    }
}

/// Decides the next step of the turn loop (see `turn_step_spec`).
pub fn turn_step(state: TurnState, event: TurnEvent) -> (r: (TurnState, TurnAction))
    ensures
        r.0 == turn_step_spec(state, event).0,
        r.1@ == turn_step_spec(state, event).1,
{
    if state.finished {
        return (state, TurnAction::KeepReading);
    }
    let done = TurnState { finished: true, ..state };
    match event {
        TurnEvent::Agent { kind, error_message } => match kind {
            AgentMessage::TurnCompleted => (done, TurnAction::Finish(Ok(()))),
            AgentMessage::TurnFailed => {
                let failure = match &error_message {
                    Some(m) => turn_failure_message(Some(m.as_str())),
                    None => turn_failure_message(None),
                };
                (done, TurnAction::Finish(Err(failure)))
            },
            AgentMessage::CommandApproval => (state, TurnAction::Approve),
            AgentMessage::PatchApproval => (state, TurnAction::Approve),
            AgentMessage::InputRequired => (done, TurnAction::Finish(Err(owned("turn_input_required")))),
            AgentMessage::ToolCall => (state, TurnAction::RunTool),
            AgentMessage::Ignored => (state, TurnAction::KeepReading),
        },
        TurnEvent::Idle { idle_ms } => {
            if idle_ms > state.turn_timeout_ms {
                (done, TurnAction::Finish(Err(owned("Turn execution timed out"))))
            } else {
                (state, TurnAction::KeepReading)
            }
        },
        TurnEvent::ReadError { message } => {
            (done, TurnAction::Finish(Err(concat("Read stream error: ", message.as_str()))))
        },
        TurnEvent::OutputEnded => {
            (done, TurnAction::Finish(Err(owned("Agent output ended before the turn completed"))))
        },
    }
}

} // verus!
