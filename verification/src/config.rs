use vstd::prelude::*;

use crate::strings::{
    concat, concat3, ends_with_char, opt_view, skip_chars, starts_with_char, str_views,
};
use crate::text::{chars_of, owned, str_eq};

verus! {

broadcast use vstd::string::group_string_axioms;

/// Which issue tracker to poll and how.
#[derive(Clone, Debug)]
pub struct TrackerConfig {
    pub kind: String,
    pub endpoint: String,
    pub api_key: Option<String>,
    pub project_slug: String,
    pub assignee: Option<String>,
    pub active_states: Vec<String>,
    pub terminal_states: Vec<String>,
}

/// How often the tracker is polled.
#[derive(Clone, Debug)]
pub struct PollingConfig {
    pub interval_ms: u64,
}

/// Where per-issue workspaces are created.
#[derive(Clone, Debug)]
pub struct WorkspaceConfig {
    pub root: String,
}

/// A per-state cap on concurrently running agents (keyed by the state name as written).
#[derive(Clone, Debug)]
pub struct StateLimit {
    pub state: String,
    pub limit: usize,
}

/// Limits on background agent processes.
#[derive(Clone, Debug)]
pub struct AgentConfig {
    pub max_concurrent_agents: usize,
    pub max_turns: usize,
    pub max_retry_backoff_ms: u64,
    pub max_concurrent_agents_by_state: Vec<StateLimit>,
}

/// How the coding agent process is started and spoken to. The two policy fields hold
/// JSON documents as text.
#[derive(Clone, Debug)]
pub struct CodexConfig {
    pub command: String,
    pub protocol: String,
    pub approval_policy: String,
    pub thread_sandbox: String,
    pub turn_sandbox_policy: Option<String>,
    pub turn_timeout_ms: u64,
    pub read_timeout_ms: u64,
    pub stall_timeout_ms: u64,
}

/// Shell hooks run at the stages of a workspace's life.
#[derive(Clone, Debug)]
pub struct HooksConfig {
    pub after_create: Option<String>,
    pub before_run: Option<String>,
    pub after_run: Option<String>,
    pub before_remove: Option<String>,
    pub timeout_ms: u64,
}

/// The local dashboard server.
#[derive(Clone, Debug)]
pub struct ServerConfig {
    pub port: Option<u16>,
    pub host: String,
}

/// Everything the YAML front matter of `WORKFLOW.md` configures.
#[derive(Clone, Debug)]
pub struct Settings {
    pub tracker: TrackerConfig,
    pub polling: PollingConfig,
    pub workspace: WorkspaceConfig,
    pub agent: AgentConfig,
    pub codex: CodexConfig,
    pub hooks: HooksConfig,
    pub server: ServerConfig,
}

/// Environment variables that were looked up, as `(name, value)` pairs.
#[derive(Clone, Debug)]
pub struct EnvVars {
    pub vars: Vec<(String, String)>,
}

// ---------------------------------------------------------------------------
// Defaults
// ---------------------------------------------------------------------------

/// The approval policy sent to agents unless the workflow sets one: reject sandbox
/// approvals, rule prompts and MCP elicitations.
pub open spec fn default_approval_policy() -> Seq<char> {
    "{\"reject\":{\"mcp_elicitations\":true,\"rules\":true,\"sandbox_approval\":true}}"@
}

impl TrackerConfig {
    /// The in-memory demo tracker with the usual active and terminal state names.
    pub fn defaults() -> (r: TrackerConfig)
        ensures
            r.kind@ == "memory"@,
            r.endpoint@.len() == 0,
            r.api_key is None,
            r.project_slug@.len() == 0,
            r.assignee is None,
            str_views(r.active_states@) == seq!["Todo"@, "In Progress"@],
            str_views(r.terminal_states@) == seq![
                "Closed"@,
                "Cancelled"@,
                "Canceled"@,
                "Duplicate"@,
                "Done"@,
            ],
    {
        let active = vec![owned("Todo"), owned("In Progress")];
        let terminal = vec![
            owned("Closed"),
            owned("Cancelled"),
            owned("Canceled"),
            owned("Duplicate"),
            owned("Done"),
        ];
        let r = TrackerConfig {
            kind: owned("memory"),
            endpoint: String::new(),
            api_key: None,
            project_slug: String::new(),
            assignee: None,
            active_states: active,
            terminal_states: terminal,
        };
        assert(str_views(r.active_states@) =~= seq!["Todo"@, "In Progress"@]);
        assert(str_views(r.terminal_states@) =~= seq![
            "Closed"@,
            "Cancelled"@,
            "Canceled"@,
            "Duplicate"@,
            "Done"@,
        ]);
        r
    }
}

impl PollingConfig {
    /// Poll every 30 seconds.
    pub fn defaults() -> (r: PollingConfig)
        ensures
            r.interval_ms == 30000,
    {
        PollingConfig { interval_ms: 30000 }
    }
}

impl WorkspaceConfig {
    /// Workspaces under `skrvm_workspaces` in the given temporary directory.
    pub fn under_temp_dir(temp_dir: &str) -> (r: WorkspaceConfig)
        ensures
            r.root@ == path_join(temp_dir@, "skrvm_workspaces"@),
    {
        WorkspaceConfig { root: join_path(temp_dir, "skrvm_workspaces") }
    }
}

impl AgentConfig {
    /// Ten concurrent agents, twenty turns, a five minute retry cap and no per-state caps.
    pub fn defaults() -> (r: AgentConfig)
        ensures
            r.max_concurrent_agents == 10,
            r.max_turns == 20,
            r.max_retry_backoff_ms == 300000,
            r.max_concurrent_agents_by_state@.len() == 0,
    {
        AgentConfig {
            max_concurrent_agents: 10,
            max_turns: 20,
            max_retry_backoff_ms: 300000,
            max_concurrent_agents_by_state: Vec::new(),
        }
    }
}

impl CodexConfig {
    /// The `codex app-server` command over JSON-RPC with the default approval policy.
    pub fn defaults() -> (r: CodexConfig)
        ensures
            r.command@ == "codex app-server"@,
            r.protocol@ == "jsonrpc"@,
            r.approval_policy@ == default_approval_policy(),
            r.thread_sandbox@ == "workspace-write"@,
            r.turn_sandbox_policy is None,
            r.turn_timeout_ms == 3600000,
            r.read_timeout_ms == 5000,
            r.stall_timeout_ms == 300000,
    {
        CodexConfig {
            command: owned("codex app-server"),
            protocol: owned("jsonrpc"),
            approval_policy: owned(
                "{\"reject\":{\"mcp_elicitations\":true,\"rules\":true,\"sandbox_approval\":true}}",
            ),
            thread_sandbox: owned("workspace-write"),
            turn_sandbox_policy: None,
            turn_timeout_ms: 3600000,
            read_timeout_ms: 5000,
            stall_timeout_ms: 300000,
        }
    }
}

impl HooksConfig {
    /// No hooks, a one minute timeout.
    pub fn defaults() -> (r: HooksConfig)
        ensures
            r.after_create is None,
            r.before_run is None,
            r.after_run is None,
            r.before_remove is None,
            r.timeout_ms == 60000,
    {
        HooksConfig {
            after_create: None,
            before_run: None,
            after_run: None,
            before_remove: None,
            timeout_ms: 60000,
        }
    }
}

impl ServerConfig {
    /// Listen on 127.0.0.1 on no fixed port.
    pub fn defaults() -> (r: ServerConfig)
        ensures
            r.port is None,
            r.host@ == "127.0.0.1"@,
    {
        ServerConfig { port: None, host: owned("127.0.0.1") }
    }
}

impl Settings {
    /// The zero-configuration settings, with workspaces under the given temporary directory.
    pub fn defaults_in(temp_dir: &str) -> (r: Settings)
        ensures
            r.tracker.kind@ == "memory"@,
            r.tracker.api_key is None,
            r.tracker.assignee is None,
            r.tracker.project_slug@.len() == 0,
            r.tracker.endpoint@.len() == 0,
            str_views(r.tracker.active_states@) == seq!["Todo"@, "In Progress"@],
            str_views(r.tracker.terminal_states@) == seq![
                "Closed"@,
                "Cancelled"@,
                "Canceled"@,
                "Duplicate"@,
                "Done"@,
            ],
            r.polling.interval_ms == 30000,
            r.workspace.root@ == path_join(temp_dir@, "skrvm_workspaces"@),
            r.agent.max_concurrent_agents == 10,
            r.agent.max_turns == 20,
            r.agent.max_retry_backoff_ms == 300000,
            r.agent.max_concurrent_agents_by_state@.len() == 0,
            r.codex.command@ == "codex app-server"@,
            r.codex.protocol@ == "jsonrpc"@,
            r.codex.approval_policy@ == default_approval_policy(),
            r.codex.thread_sandbox@ == "workspace-write"@,
            r.codex.turn_sandbox_policy is None,
            r.codex.turn_timeout_ms == 3600000,
            r.codex.read_timeout_ms == 5000,
            r.codex.stall_timeout_ms == 300000,
            r.hooks.after_create is None,
            r.hooks.before_run is None,
            r.hooks.after_run is None,
            r.hooks.before_remove is None,
            r.hooks.timeout_ms == 60000,
            r.server.port is None,
            r.server.host@ == "127.0.0.1"@,
    {
        Settings {
            tracker: TrackerConfig::defaults(),
            polling: PollingConfig::defaults(),
            workspace: WorkspaceConfig::under_temp_dir(temp_dir),
            agent: AgentConfig::defaults(),
            codex: CodexConfig::defaults(),
            hooks: HooksConfig::defaults(),
            server: ServerConfig::defaults(),
        }
    }
}

// ---------------------------------------------------------------------------
// Validation
// ---------------------------------------------------------------------------

/// An API key that is absent or empty.
pub open spec fn key_missing(key: Option<Seq<char>>) -> bool {
    match key {
        Some(k) => k.len() == 0,
        None => true,
    }
}

/// The first preflight problem of a tracker kind, API key, project slug, endpoint and
/// agent command, if any, as the message reported for it.
pub open spec fn validation_error_of(
    kind: Seq<char>,
    api_key: Option<Seq<char>>,
    slug: Seq<char>,
    endpoint: Seq<char>,
    command: Seq<char>,
) -> Option<Seq<char>> {
    if kind.len() == 0 {
        Some("tracker.kind is missing"@)
    } else if kind != "linear"@ && kind != "jira"@ && kind != "github"@ && kind != "memory"@ {
        Some("Unsupported tracker kind: "@ + kind)
    } else if kind == "linear"@ && key_missing(api_key) {
        Some("Missing Linear API token. Export LINEAR_API_KEY or set tracker.api_key"@)
    } else if kind == "linear"@ && slug.len() == 0 {
        Some("Missing Linear project_slug"@)
    } else if kind == "jira"@ && key_missing(api_key) {
        Some("Missing Jira API token. Export JIRA_API_KEY or set tracker.api_key"@)
    } else if kind == "jira"@ && slug.len() == 0 {
        Some("Missing Jira project_slug"@)
    } else if kind == "jira"@ && endpoint.len() == 0 {
        Some("Missing Jira endpoint"@)
    } else if command.len() == 0 {
        Some("codex.command is empty"@)
    } else {
        None
    }
}

/// The first preflight problem of a configuration, if any.
pub open spec fn validation_error(s: Settings) -> Option<Seq<char>> {
    validation_error_of(
        s.tracker.kind@,
        opt_view(s.tracker.api_key),
        s.tracker.project_slug@,
        s.tracker.endpoint@,
        s.codex.command@,
    )
}

fn missing_key(key: &Option<String>) -> (r: bool)
    ensures
        r == key_missing(opt_view(*key)),
{
    match key {
        Some(k) => k.as_str().is_empty(),
        None => true,
    }
}

impl Settings {
    /// Preflight validation: `Ok` exactly when `validation_error` finds nothing, and the
    /// error carries that message otherwise.
    pub fn validate(&self) -> (r: Result<(), String>)
        ensures
            match r {
                Ok(()) => validation_error(*self) is None,
                Err(e) => validation_error(*self) == Some(e@),
            },
    {
        let kind = self.tracker.kind.as_str();
        if kind.is_empty() {
            return Err(owned("tracker.kind is missing"));
        }
        let is_linear = str_eq(kind, "linear");
        let is_jira = str_eq(kind, "jira");
        let is_github = str_eq(kind, "github");
        let is_memory = str_eq(kind, "memory");
        if !is_linear && !is_jira && !is_github && !is_memory {
            return Err(concat("Unsupported tracker kind: ", kind));
        }
        if is_linear {
            if missing_key(&self.tracker.api_key) {
                return Err(
                    owned("Missing Linear API token. Export LINEAR_API_KEY or set tracker.api_key"),
                );
            }
            if self.tracker.project_slug.as_str().is_empty() {
                return Err(owned("Missing Linear project_slug"));
            }
        }
        if is_jira {
            if missing_key(&self.tracker.api_key) {
                return Err(
                    owned("Missing Jira API token. Export JIRA_API_KEY or set tracker.api_key"),
                );
            }
            if self.tracker.project_slug.as_str().is_empty() {
                return Err(owned("Missing Jira project_slug"));
            }
            if self.tracker.endpoint.as_str().is_empty() {
                return Err(owned("Missing Jira endpoint"));
            }
        }
        if self.codex.command.as_str().is_empty() {
            return Err(owned("codex.command is empty"));
        }
        Ok(())
    }
}

// ---------------------------------------------------------------------------
// Paths
// ---------------------------------------------------------------------------

/// `PathBuf::join` on Unix paths held as text: an absolute `tail` replaces `base`;
/// otherwise `tail` is appended, with a `/` between them unless `base` is empty or
/// already ends with one.
pub open spec fn path_join(base: Seq<char>, tail: Seq<char>) -> Seq<char> {
    if tail.len() > 0 && tail[0] == '/' {
        tail
    } else if base.len() == 0 || base.last() == '/' {
        base + tail
    } else {
        base + seq!['/'] + tail
    }
}

/// Joins a path onto a base directory as `PathBuf::join` does for Unix paths.
pub fn join_path(base: &str, tail: &str) -> (r: String)
    ensures
        r@ == path_join(base@, tail@),
{
    if starts_with_char(tail, '/') {
        return owned(tail);
    }
    if base.is_empty() || ends_with_char(base, '/') {
        concat(base, tail)
    } else {
        let r = concat3(base, "/", tail);
        proof {
            reveal_strlit("/");
            assert("/"@ =~= seq!['/']);
        }
        r
    }
}

/// The directory that `~` stands for, with the rest of `val` joined onto it; `val`
/// itself when it does not start with `~` or no home directory is known.
pub open spec fn expanded_path(val: Seq<char>, home: Option<Seq<char>>) -> Seq<char> {
    if val.len() > 0 && val[0] == '~' {
        match home {
            Some(h) => {
                let suffix = val.drop_first();
                let tail = if suffix.len() > 0 && (suffix[0] == '/' || suffix[0] == '\\') {
                    suffix.drop_first()
                } else {
                    suffix
                };
                path_join(h, tail)
            },
            None => val,
        }
    } else {
        val
    }
}

/// Expands a leading `~` to the home directory.
pub fn expand_path(val: &str, home: &Option<String>) -> (r: String)
    ensures
        r@ == expanded_path(val@, opt_view(*home)),
{
    if !starts_with_char(val, '~') {
        return owned(val);
    }
    match home {
        Some(h) => {
            let suffix = skip_chars(val, 1);
            proof {
                assert(val@.skip(1) =~= val@.drop_first());
            }
            let tail = if starts_with_char(suffix.as_str(), '/') || starts_with_char(
                suffix.as_str(),
                '\\',
            ) {
                skip_chars(suffix.as_str(), 1)
            } else {
                suffix
            };
            join_path(h.as_str(), tail.as_str())
        },
        None => owned(val),
    }
}

// ---------------------------------------------------------------------------
// Environment references
// ---------------------------------------------------------------------------

/// The value recorded for `name` (the first pair with that name).
pub open spec fn env_lookup(vars: Seq<(String, String)>, name: Seq<char>) -> Option<Seq<char>>
    decreases vars.len(),
{
    if vars.len() == 0 {
        None
    } else if vars[0].0@ == name {
        Some(vars[0].1@)
    } else {
        env_lookup(vars.drop_first(), name)
    }
}

impl EnvVars {
    /// The value of the variable `name`, if it was recorded.
    pub fn get(&self, name: &str) -> (r: Option<String>)
        ensures
            opt_view(r) == env_lookup(self.vars@, name@),
    {
        let mut i: usize = 0;
        proof {
            assert(self.vars@.skip(0) =~= self.vars@);
        }
        while i < self.vars.len()
            invariant
                i <= self.vars@.len(),
                env_lookup(self.vars@, name@) == env_lookup(self.vars@.skip(i as int), name@),
            decreases self.vars@.len() - i,
        {
            proof {
                assert(self.vars@.skip(i as int).drop_first() =~= self.vars@.skip(i + 1));
            }
            if str_eq(self.vars[i].0.as_str(), name) {
                return Some(self.vars[i].1.clone());
            }
            i += 1;
        }
        None
    }
}

/// `$NAME` stands for the environment variable `NAME`; any other text stands for itself.
pub open spec fn resolved_ref(val: Seq<char>, env: Seq<(String, String)>) -> Option<Seq<char>> {
    if val.len() > 0 && val[0] == '$' {
        env_lookup(env, val.drop_first())
    } else {
        Some(val)
    }
}

/// Resolves a `$NAME` reference against the recorded environment.
pub fn resolve_env_ref(val: &str, env: &EnvVars) -> (r: Option<String>)
    ensures
        opt_view(r) == resolved_ref(val@, env.vars@),
{
    if starts_with_char(val, '$') {
        let name = skip_chars(val, 1);
        proof {
            assert(val@.skip(1) =~= val@.drop_first());
        }
        env.get(name.as_str())
    } else {
        Some(owned(val))
    }
}

/// `first`, or else the first of the named variables that is set.
pub open spec fn or_env(first: Option<Seq<char>>, env: Seq<(String, String)>, names: Seq<Seq<char>>) -> Option<Seq<char>>
    decreases names.len(),
{
    if first is Some || names.len() == 0 {
        first
    } else {
        or_env(env_lookup(env, names[0]), env, names.drop_first())
    }
}

/// The variables consulted for a missing or unresolved tracker API key.
pub open spec fn api_key_fallbacks() -> Seq<Seq<char>> {
    seq!["JIRA_API_KEY"@, "JIRA_API_TOKEN"@, "LINEAR_API_KEY"@]
}

/// The variables consulted for an unresolved assignee.
pub open spec fn assignee_fallbacks() -> Seq<Seq<char>> {
    seq!["JIRA_ASSIGNEE"@, "LINEAR_ASSIGNEE"@]
}

/// The API key after environment resolution.
pub open spec fn finalized_api_key(key: Option<String>, env: Seq<(String, String)>) -> Option<Seq<char>> {
    match key {
        Some(k) => or_env(resolved_ref(k@, env), env, api_key_fallbacks()),
        None => or_env(None, env, api_key_fallbacks()),
    }
}

/// The assignee after environment resolution.
pub open spec fn finalized_assignee(assignee: Option<String>, env: Seq<(String, String)>) -> Option<Seq<char>> {
    match assignee {
        Some(a) => or_env(resolved_ref(a@, env), env, assignee_fallbacks()),
        None => None,
    }
}

/// The workspace root after resolution, `~` expansion and anchoring at the workflow directory.
pub open spec fn finalized_root(root: Seq<char>, env: Seq<(String, String)>, home: Option<Seq<char>>, dir: Seq<char>) -> Seq<char> {
    let raw = match resolved_ref(root, env) {
        Some(v) => v,
        None => root,
    };
    let expanded = expanded_path(raw, home);
    if expanded.len() > 0 && expanded[0] == '/' {
        expanded
    } else {
        path_join(dir, expanded)
    }
}

/// A text setting after resolution: the variable's value for a `$NAME` reference that is
/// set, the text itself otherwise.
pub open spec fn finalized_text(value: Seq<char>, env: Seq<(String, String)>) -> Seq<char> {
    match resolved_ref(value, env) {
        Some(v) => v,
        None => value,
    }
}

/// A command that starts with `./` or `../` runs from the workflow directory.
pub open spec fn finalized_command(command: Seq<char>, dir: Seq<char>) -> Seq<char> {
    if (command.len() >= 2 && command[0] == '.' && command[1] == '/') || (command.len() >= 3
        && command[0] == '.' && command[1] == '.' && command[2] == '/') {
        path_join(dir, command)
    } else {
        command
    }
}

fn first_env(first: Option<String>, env: &EnvVars, a: &str, b: &str, c: Option<&str>) -> (r: Option<String>)
    ensures
        opt_view(r) == or_env(
            opt_view(first),
            env.vars@,
            match c {
                Some(c) => seq![a@, b@, c@],
                None => seq![a@, b@],
            },
        ),
{
    let ghost names = match c {
        Some(c) => seq![a@, b@, c@],
        None => seq![a@, b@],
    };
    if first.is_some() {
        return first;
    }
    let x = env.get(a);
    let ghost rest1 = match c {
        Some(c) => seq![b@, c@],
        None => seq![b@],
    };
    proof {
        assert(names.drop_first() =~= rest1);
        assert(or_env(None, env.vars@, names) == or_env(opt_view(x), env.vars@, rest1));
    }
    if x.is_some() {
        return x;
    }
    let y = env.get(b);
    let ghost rest2 = match c {
        Some(c) => seq![c@],
        None => seq![],
    };
    proof {
        assert(rest1.drop_first() =~= rest2);
        assert(or_env(None, env.vars@, rest1) == or_env(opt_view(y), env.vars@, rest2));
    }
    if y.is_some() {
        return y;
    }
    match c {
        Some(c) => {
            let z = env.get(c);
            proof {
                assert(rest2.drop_first() =~= Seq::<Seq<char>>::empty());
                assert(or_env(None, env.vars@, rest2) == or_env(opt_view(z), env.vars@, seq![]));
            }
            z
        },
        None => {
            None
        },
    }
}

/// An optional text setting after resolution.
pub open spec fn finalized_opt_text(value: Option<String>, env: Seq<(String, String)>) -> Option<Seq<char>> {
    match value {
        Some(v) => Some(finalized_text(v@, env)),
        None => None,
    }
}

/// A list of text settings after resolution, item by item.
pub open spec fn finalized_texts(values: Seq<String>, env: Seq<(String, String)>) -> Seq<Seq<char>> {
    values.map_values(|v: String| finalized_text(v@, env))
}

/// `new` is `old` finalized against `dir`, `env` and `home`: every string setting that is
/// a `$NAME` reference is read from the environment (the API key and the assignee with
/// their fixed fallback variables), `~` is expanded and relative paths are anchored at
/// `dir`; every number is unchanged.
pub open spec fn is_finalized(
    old: Settings,
    new: Settings,
    dir: Seq<char>,
    env: Seq<(String, String)>,
    home: Option<Seq<char>>,
) -> bool {
    &&& opt_view(new.tracker.api_key) == finalized_api_key(old.tracker.api_key, env)
    &&& opt_view(new.tracker.assignee) == finalized_assignee(old.tracker.assignee, env)
    &&& new.workspace.root@ == finalized_root(old.workspace.root@, env, home, dir)
    &&& new.codex.command@ == finalized_command(finalized_text(old.codex.command@, env), dir)
    &&& new.tracker.kind@ == finalized_text(old.tracker.kind@, env)
    &&& new.tracker.endpoint@ == finalized_text(old.tracker.endpoint@, env)
    &&& new.tracker.project_slug@ == finalized_text(old.tracker.project_slug@, env)
    &&& str_views(new.tracker.active_states@) == finalized_texts(old.tracker.active_states@, env)
    &&& str_views(new.tracker.terminal_states@) == finalized_texts(old.tracker.terminal_states@, env)
    &&& new.polling == old.polling
    &&& new.agent == old.agent
    &&& new.codex.protocol@ == finalized_text(old.codex.protocol@, env)
    &&& new.codex.approval_policy@ == finalized_text(old.codex.approval_policy@, env)
    &&& new.codex.thread_sandbox@ == finalized_text(old.codex.thread_sandbox@, env)
    &&& opt_view(new.codex.turn_sandbox_policy) == finalized_opt_text(old.codex.turn_sandbox_policy, env)
    &&& new.codex.turn_timeout_ms == old.codex.turn_timeout_ms
    &&& new.codex.read_timeout_ms == old.codex.read_timeout_ms
    &&& new.codex.stall_timeout_ms == old.codex.stall_timeout_ms
    &&& opt_view(new.hooks.after_create) == finalized_opt_text(old.hooks.after_create, env)
    &&& opt_view(new.hooks.before_run) == finalized_opt_text(old.hooks.before_run, env)
    &&& opt_view(new.hooks.after_run) == finalized_opt_text(old.hooks.after_run, env)
    &&& opt_view(new.hooks.before_remove) == finalized_opt_text(old.hooks.before_remove, env)
    &&& new.hooks.timeout_ms == old.hooks.timeout_ms
    &&& new.server.port == old.server.port
    &&& new.server.host@ == finalized_text(old.server.host@, env)
}

/// A text setting with a `$NAME` reference read from the environment.
fn resolved_text(value: &str, env: &EnvVars) -> (r: String)
    ensures
        r@ == finalized_text(value@, env.vars@),
{
    match resolve_env_ref(value, env) {
        Some(v) => v,
        None => owned(value),
    }
}

/// An optional text setting with a `$NAME` reference read from the environment.
fn resolved_opt_text(value: &Option<String>, env: &EnvVars) -> (r: Option<String>)
    ensures
        opt_view(r) == finalized_opt_text(*value, env.vars@),
{
    match value {
        Some(v) => Some(resolved_text(v.as_str(), env)),
        None => None,
    }
}

/// A list of text settings, each `$NAME` reference read from the environment.
fn resolved_texts(values: &Vec<String>, env: &EnvVars) -> (r: Vec<String>)
    ensures
        str_views(r@) == finalized_texts(values@, env.vars@),
{
    let mut r: Vec<String> = Vec::new();
    let mut i: usize = 0;
    while i < values.len()
        invariant
            i <= values@.len(),
            str_views(r@) == finalized_texts(values@.take(i as int), env.vars@),
        decreases values@.len() - i,
    {
        let x = resolved_text(values[i].as_str(), env);
        let ghost before = r@;
        r.push(x);
        proof {
            assert(str_views(r@) =~= str_views(before).push(x@));
            assert(values@.take(i + 1) =~= values@.take(i as int).push(values@[i as int]));
            assert(finalized_texts(values@.take(i + 1), env.vars@) =~= finalized_texts(
                values@.take(i as int),
                env.vars@,
            ).push(finalized_text(values@[i as int]@, env.vars@)));
        }
        i += 1;
    }
    proof {
        assert(values@.take(values@.len() as int) =~= values@);
    }
    r
}

impl Settings {
    /// Reads every string setting that is a `$NAME` reference from the recorded
    /// environment (a missing API key or assignee from the fixed fallback variables),
    /// expands `~` in the workspace root with `home`, and anchors a relative root and a
    /// `./` or `../` command at `workflow_dir`. Numbers are left as they were.
    pub fn finalize(&mut self, workflow_dir: &str, env: &EnvVars, home: &Option<String>)
        ensures
            is_finalized(*old(self), *final(self), workflow_dir@, env.vars@, opt_view(*home)),
    {
        let first = match &self.tracker.api_key {
            Some(k) => resolve_env_ref(k.as_str(), env),
            None => None,
        };
        let key = first_env(first, env, "JIRA_API_KEY", "JIRA_API_TOKEN", Some("LINEAR_API_KEY"));
        proof {
            assert(seq!["JIRA_API_KEY"@, "JIRA_API_TOKEN"@, "LINEAR_API_KEY"@] =~= api_key_fallbacks());
        }
        self.tracker.api_key = key;

        let assignee = match &self.tracker.assignee {
            Some(a) => {
                let first = resolve_env_ref(a.as_str(), env);
                proof {
                    assert(seq!["JIRA_ASSIGNEE"@, "LINEAR_ASSIGNEE"@] =~= assignee_fallbacks());
                }
                first_env(first, env, "JIRA_ASSIGNEE", "LINEAR_ASSIGNEE", None)
            },
            None => None,
        };
        self.tracker.assignee = assignee;

        self.tracker.kind = resolved_text(self.tracker.kind.as_str(), env);
        self.tracker.endpoint = resolved_text(self.tracker.endpoint.as_str(), env);
        self.tracker.project_slug = resolved_text(self.tracker.project_slug.as_str(), env);
        self.tracker.active_states = resolved_texts(&self.tracker.active_states, env);
        self.tracker.terminal_states = resolved_texts(&self.tracker.terminal_states, env);
        self.codex.protocol = resolved_text(self.codex.protocol.as_str(), env);
        self.codex.approval_policy = resolved_text(self.codex.approval_policy.as_str(), env);
        self.codex.thread_sandbox = resolved_text(self.codex.thread_sandbox.as_str(), env);
        self.codex.turn_sandbox_policy = resolved_opt_text(&self.codex.turn_sandbox_policy, env);
        self.hooks.after_create = resolved_opt_text(&self.hooks.after_create, env);
        self.hooks.before_run = resolved_opt_text(&self.hooks.before_run, env);
        self.hooks.after_run = resolved_opt_text(&self.hooks.after_run, env);
        self.hooks.before_remove = resolved_opt_text(&self.hooks.before_remove, env);
        self.server.host = resolved_text(self.server.host.as_str(), env);
        self.codex.command = resolved_text(self.codex.command.as_str(), env);

        let raw = match resolve_env_ref(self.workspace.root.as_str(), env) {
            Some(v) => v,
            None => self.workspace.root.clone(),
        };
        let expanded = expand_path(raw.as_str(), home);
        let root = if starts_with_char(expanded.as_str(), '/') {
            expanded
        } else {
            join_path(workflow_dir, expanded.as_str())
        };
        self.workspace.root = root;

        let cmd = chars_of(self.codex.command.as_str());
        let n = cmd.len();
        let relative = (n >= 2 && cmd[0] == '.' && cmd[1] == '/') || (n >= 3 && cmd[0] == '.'
            && cmd[1] == '.' && cmd[2] == '/');
        if relative {
            let command = join_path(workflow_dir, self.codex.command.as_str());
            self.codex.command = command;
        }
    }
}

// ---------------------------------------------------------------------------
// Per-state limits
// ---------------------------------------------------------------------------

/// The cap configured for `state` (the first entry with that exact name).
pub open spec fn state_limit(limits: Seq<StateLimit>, state: Seq<char>) -> Option<usize>
    decreases limits.len(),
{
    if limits.len() == 0 {
        None
    } else if limits[0].state@ == state {
        Some(limits[0].limit)
    } else {
        state_limit(limits.drop_first(), state)
    }
}

impl AgentConfig {
    /// The running-agent cap for issues in `state`: its own entry, else the global cap.
    pub fn limit_for_state(&self, state: &str) -> (r: usize)
        ensures
            r == match state_limit(self.max_concurrent_agents_by_state@, state@) {
                Some(l) => l,
                None => self.max_concurrent_agents,
            },
    {
        let limits = &self.max_concurrent_agents_by_state;
        let mut i: usize = 0;
        proof {
            assert(limits@.skip(0) =~= limits@);
        }
        while i < limits.len()
            invariant
                i <= limits@.len(),
                limits@ == self.max_concurrent_agents_by_state@,
                state_limit(limits@, state@) == state_limit(limits@.skip(i as int), state@),
            decreases limits@.len() - i,
        {
            proof {
                assert(limits@.skip(i as int).drop_first() =~= limits@.skip(i + 1));
            }
            if str_eq(limits[i].state.as_str(), state) {
                proof {
                    assert(limits@.skip(i as int)[0] == limits@[i as int]);
                }
                return limits[i].limit;
            }
            i += 1;
        }
        self.max_concurrent_agents
    }
}

} // verus!
