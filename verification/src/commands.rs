use vstd::prelude::*;
use vstd::string::{StrSliceExecFns, StringExecFns};

use crate::config::Settings;
use crate::keyed::{contains_key, has_key, Keyed};
use crate::orchestrator::{text_less, text_lt};
use crate::path_safety::{
    has_component, path_has_component, path_has_prefix, path_starts_with, paths_equal, same_path,
};
use crate::strings::{
    concat, concat3, contains, contains_seq, ends_with, find, has_prefix, occurs_at,
    replace_char, replace_char_with, skip_chars, starts_with,
};
use crate::text::{chars_of, is_whitespace, is_ws, owned, string_of_range, trim, trim_ws, trim_start_ws};

verus! {

broadcast use vstd::string::group_string_axioms;

/// What the dashboard learns of the local git checkout.
#[derive(Clone, Debug)]
pub struct GitInfo {
    pub project_dir: String,
    pub remote_url: Option<String>,
    pub project_slug: Option<String>,
    pub current_branch: Option<String>,
    pub detected_tracker: Option<String>,
}

/// A workflow as the dashboard edits it.
#[derive(Clone, Debug)]
pub struct SaveWorkflowPayload {
    pub settings: Settings,
    pub prompt_template: String,
    pub project_dir: Option<String>,
}

/// One recorded agent session, from the header line of its history file.
#[derive(Clone, Debug)]
pub struct SessionHistoryEntry {
    pub session_id: String,
    pub issue_id: String,
    pub identifier: String,
    pub title: String,
    pub attempt: usize,
    pub started_at: String,
    pub file_path: String,
}

impl Keyed for SessionHistoryEntry {
    open spec fn key(&self) -> Seq<char> {
        self.session_id@
    }

    fn key_str(&self) -> (r: &str) {
        self.session_id.as_str()
    }
}

// ---------------------------------------------------------------------------
// Git checkout
// ---------------------------------------------------------------------------

/// The value a git command printed: its trimmed output, unless that is empty.
pub open spec fn git_value(stdout: Seq<char>) -> Option<Seq<char>> {
    if trim_ws(stdout).len() == 0 {
        None
    } else {
        Some(trim_ws(stdout))
    }
}

/// Reads the value a git command printed.
pub fn git_output_value(stdout: &str) -> (r: Option<String>)
    ensures
        match r {
            Some(s) => git_value(stdout@) == Some(s@),
            None => git_value(stdout@) is None,
        },
{
    let t = trim(stdout);
    if t.as_str().is_empty() {
        None
    } else {
        Some(t)
    }
}

/// The tracker a remote URL points at: GitHub before GitLab, else none.
pub open spec fn remote_tracker(url: Seq<char>) -> Option<Seq<char>> {
    if contains_seq(url, "github.com"@) {
        Some("github"@)
    } else if contains_seq(url, "gitlab.com"@) {
        Some("gitlab"@)
    } else {
        None
    }
}

/// The index of the first occurrence of `needle` in `hay` (meaningful when there is one).
pub open spec fn first_occurrence(hay: Seq<char>, needle: Seq<char>) -> int {
    choose|i: int| occurs_at(hay, needle, i) && forall|j: int| 0 <= j < i ==> !occurs_at(hay, needle, j)
}

/// The `owner/repo` part of a remote URL: after a known GitHub or GitLab prefix, else
/// after the first `:`, else the whole URL; without a final `.git`; none when empty.
pub open spec fn remote_slug(url: Seq<char>) -> Option<Seq<char>> {
    let cleaned = if has_prefix(url, "git@github.com:"@) {
        url.skip("git@github.com:"@.len() as int)
    } else if has_prefix(url, "https://github.com/"@) {
        url.skip("https://github.com/"@.len() as int)
    } else if has_prefix(url, "git@gitlab.com:"@) {
        url.skip("git@gitlab.com:"@.len() as int)
    } else if has_prefix(url, "https://gitlab.com/"@) {
        url.skip("https://gitlab.com/"@.len() as int)
    } else if contains_seq(url, ":"@) {
        url.skip(first_occurrence(url, ":"@) + 1)
    } else {
        url
    };
    let stripped = if ".git"@.len() <= cleaned.len() && cleaned.skip(
        cleaned.len() - ".git"@.len(),
    ) == ".git"@ {
        cleaned.take(cleaned.len() - ".git"@.len())
    } else {
        cleaned
    };
    if stripped.len() > 0 {
        Some(stripped)
    } else {
        None
    }
}

fn strip_known_prefix(url: &str, prefix: &str) -> (r: Option<String>)
    ensures
        match r {
            Some(s) => has_prefix(url@, prefix@) && s@ == url@.skip(prefix@.len() as int),
            None => !has_prefix(url@, prefix@),
        },
{
    if starts_with(url, prefix) {
        Some(skip_chars(url, prefix.unicode_len()))
    } else {
        None
    }
}

/// Reads the project slug and tracker kind from a git remote URL.
pub fn remote_project_info(url: &str) -> (r: (Option<String>, Option<String>))
    ensures
        match r.0 {
            Some(s) => remote_slug(url@) == Some(s@),
            None => remote_slug(url@) is None,
        },
        match r.1 {
            Some(t) => remote_tracker(url@) == Some(t@),
            None => remote_tracker(url@) is None,
        },
{
    let tracker = if contains(url, "github.com") {
        Some(owned("github"))
    } else if contains(url, "gitlab.com") {
        Some(owned("gitlab"))
    } else {
        None
    };
    let cleaned = match strip_known_prefix(url, "git@github.com:") {
        Some(s) => s,
        None => match strip_known_prefix(url, "https://github.com/") {
            Some(s) => s,
            None => match strip_known_prefix(url, "git@gitlab.com:") {
                Some(s) => s,
                None => match strip_known_prefix(url, "https://gitlab.com/") {
                    Some(s) => s,
                    None => match find(url, ":") {
                        Some(i) => {
                            let _len = url.unicode_len();
                            proof {
                                reveal_strlit(":");
                                let c = first_occurrence(url@, ":"@);
                                assert(occurs_at(url@, ":"@, i as int));
                                assert(c == i) by {
                                    if c < i {
                                        assert(!occurs_at(url@, ":"@, c));
                                    }
                                    if c > i {
                                        assert(!occurs_at(url@, ":"@, i as int));
                                    }
                                }
                                assert(contains_seq(url@, ":"@));
                            }
                            skip_chars(url, i + 1)
                        },
                        None => owned(url),
                    },
                },
            },
        },
    };
    proof {
        reveal_strlit(".git");
    }
    let stripped = if ends_with(cleaned.as_str(), ".git") {
        let v = chars_of(cleaned.as_str());
        string_of_range(&v, 0, v.len() - 4)
    } else {
        cleaned
    };
    let slug = if stripped.as_str().is_empty() {
        None
    } else {
        Some(stripped)
    };
    (slug, tracker)
}

// ---------------------------------------------------------------------------
// Workspace setup checks
// ---------------------------------------------------------------------------

/// Refuses a project directory and a workspace root that are the same path.
pub fn check_distinct_setup_paths(project_dir: &str, workspace_root: &str) -> (r: Result<(), String>)
    ensures
        r is Ok <==> !same_path(project_dir@, workspace_root@),
        r matches Err(e) ==> e@ == "Project directory and workspace root directory cannot be identical"@,
{
    if paths_equal(project_dir, workspace_root) {
        Err(owned("Project directory and workspace root directory cannot be identical"))
    } else {
        Ok(())
    }
}

/// The problem with canonical project and workspace directories, if any: the same
/// directory, or one inside the other.
pub open spec fn canonical_setup_error(project: Seq<char>, workspace: Seq<char>) -> Option<Seq<char>> {
    if same_path(project, workspace) {
        Some("Project directory and workspace root directory cannot resolve to the same path"@)
    } else if path_starts_with(workspace, project) {
        Some("Workspace root directory cannot be inside the project directory"@)
    } else if path_starts_with(project, workspace) {
        Some("Project directory cannot be inside the workspace root directory"@)
    } else {
        None
    }
}

/// Refuses canonical project and workspace directories that coincide or nest.
pub fn check_canonical_setup_paths(project_canon: &str, workspace_canon: &str) -> (r: Result<(), String>)
    ensures
        r is Ok <==> canonical_setup_error(project_canon@, workspace_canon@) is None,
        r matches Err(e) ==> canonical_setup_error(project_canon@, workspace_canon@) == Some(e@),
{
    if paths_equal(project_canon, workspace_canon) {
        Err(owned("Project directory and workspace root directory cannot resolve to the same path"))
    } else if path_has_prefix(workspace_canon, project_canon) {
        Err(owned("Workspace root directory cannot be inside the project directory"))
    } else if path_has_prefix(project_canon, workspace_canon) {
        Err(owned("Project directory cannot be inside the workspace root directory"))
    } else {
        Ok(())
    }
}

/// A transcript may be read when it lies in the archive directory or in a `history`
/// directory.
pub open spec fn transcript_allowed(path: Seq<char>, archive_dir: Seq<char>) -> bool {
    path_starts_with(path, archive_dir) || has_component(path, "history"@)
}

/// Decides whether a canonical transcript path may be read.
pub fn transcript_access_allowed(canonical_path: &str, archive_dir: &str) -> (r: bool)
    ensures
        r == transcript_allowed(canonical_path@, archive_dir@),
{
    path_has_prefix(canonical_path, archive_dir) || path_has_component(canonical_path, "history")
}

// ---------------------------------------------------------------------------
// Agent command
// ---------------------------------------------------------------------------

/// Index of the first white-space character of `s` at or after `from`, or `s.len()`.
pub open spec fn ws_from(s: Seq<char>, from: int) -> int
    decreases s.len() - from,
{
    if from >= s.len() || from < 0 {
        s.len() as int
    } else if is_ws(s[from]) {
        from
    } else {
        ws_from(s, from + 1)
    }
}

/// The first white-space-separated word of `s` (empty when there is none).
pub open spec fn first_word(s: Seq<char>) -> Seq<char> {
    let t = trim_start_ws(s);
    t.take(ws_from(t, 0))
}

proof fn lemma_ws_from_bounds(s: Seq<char>, from: int)
    requires
        0 <= from <= s.len(),
    ensures
        from <= ws_from(s, from) <= s.len(),
    decreases s.len() - from,
{
    if from < s.len() && !is_ws(s[from]) {
        lemma_ws_from_bounds(s, from + 1);
    }
}

proof fn lemma_trim_start_skip(s: Seq<char>, i: int)
    requires
        0 <= i <= s.len(),
        forall|j: int| 0 <= j < i ==> is_ws(s[j]),
    ensures
        trim_start_ws(s) == trim_start_ws(s.skip(i)),
    decreases i,
{
    if i > 0 {
        assert(s.drop_first().skip(i - 1) =~= s.skip(i));
        assert forall|j: int| 0 <= j < i - 1 implies is_ws(s.drop_first()[j]) by {
            assert(s.drop_first()[j] == s[j + 1]);
        }
        lemma_trim_start_skip(s.drop_first(), i - 1);
    } else {
        assert(s.skip(0) =~= s);
    }
}

/// The program an agent command starts: its first word. Fails on a blank command.
pub fn command_first_word(command: &str) -> (r: Result<String, String>)
    ensures
        r is Ok <==> trim_ws(command@).len() > 0,
        r matches Ok(w) ==> w@ == first_word(command@),
        r matches Err(e) ==> e@ == "Command cannot be empty"@,
{
    let v = chars_of(command);
    let mut lo: usize = 0;
    while lo < v.len() && is_whitespace(v[lo])
        invariant
            lo <= v@.len(),
            v@ == command@,
            forall|j: int| 0 <= j < lo ==> is_ws(v@[j]),
        decreases v@.len() - lo,
    {
        lo += 1;
    }
    proof {
        lemma_trim_start_skip(v@, lo as int);
    }
    if lo == v.len() {
        proof {
            assert(v@.skip(lo as int).len() == 0);
            assert(trim_start_ws(command@).len() == 0);
        }
        return Err(owned("Command cannot be empty"));
    }
    let mut hi: usize = lo;
    let ghost t = v@.skip(lo as int);
    proof {
        assert(!is_ws(t[0]));
        assert(trim_start_ws(t) == t);
        assert(trim_start_ws(command@) == t);
    }
    while hi < v.len() && !is_whitespace(v[hi])
        invariant
            lo <= hi <= v@.len(),
            t == v@.skip(lo as int),
            ws_from(t, 0) == ws_from(t, hi - lo),
        decreases v@.len() - hi,
    {
        proof {
            assert(t[hi - lo] == v@[hi as int]);
        }
        hi += 1;
    }
    proof {
        lemma_ws_from_bounds(t, (hi - lo) as int);
        if hi < v.len() {
            assert(t[hi - lo] == v@[hi as int]);
        }
        assert(ws_from(t, 0) == hi - lo);
        assert(t.take(hi - lo) =~= v@.subrange(lo as int, hi as int));
        crate::text::lemma_trim_len(command@);
        assert(trim_ws(command@).len() > 0) by {
            assert(trim_ws(command@) == crate::text::trim_end_ws(t));
            assert(!is_ws(t[0]));
            lemma_trim_end_keeps_nonempty(t);
        }
    }
    Ok(string_of_range(&v, lo, hi))
}

proof fn lemma_trim_end_keeps_nonempty(t: Seq<char>)
    requires
        t.len() > 0,
        !is_ws(t[0]),
    ensures
        crate::text::trim_end_ws(t).len() > 0,
    decreases t.len(),
{
    if is_ws(t.last()) {
        assert(t.len() > 1);
        assert(t.drop_last()[0] == t[0]);
        lemma_trim_end_keeps_nonempty(t.drop_last());
    }
}

// ---------------------------------------------------------------------------
// Workflow files
// ---------------------------------------------------------------------------

/// The text of a saved `WORKFLOW.md`: the YAML between `---` lines, a blank line and the
/// prompt template.
pub fn workflow_file_content(yaml: &str, prompt_template: &str) -> (r: String)
    ensures
        r@ == "---\n"@ + yaml@ + "---\n\n"@ + prompt_template@,
{
    let mut r = concat3("---\n", yaml, "---\n\n");
    r.append(prompt_template);
    r
}

/// The part of the seeded `WORKFLOW.md` before the mock agent's path.
pub open spec fn seed_head() -> Seq<char> {
    "---\n# Skrvm zero-config demo workflow (auto-generated on first run).\n# It runs entirely offline using the in-memory mock tracker and a bundled mock\n# agent. Open the in-app Setup wizard to connect a real tracker and coding agent.\ntracker:\n  kind: \"memory\"\n  project_slug: \"DEMO\"\n  active_states:\n    - \"Todo\"\n  terminal_states:\n    - \"Done\"\npolling:\n  interval_ms: 10000\nworkspace:\n  root: \"~/dev/scratch/skrvm/workspaces\"\nagent:\n  team_profile: \"solo\"\n  max_concurrent_agents: 2\n  max_turns: 5\nagy:\n  command: \""@
}

/// The part of the seeded `WORKFLOW.md` after the mock agent's path.
pub open spec fn seed_tail() -> Seq<char> {
    "\"\n  thread_sandbox: \"workspace-write\"\n---\n\nYou are an elite agentic coding assistant spawned by the Skrvm orchestrator to\nresolve ticket **{{ issue.identifier }}**.\n\n### Task Overview\n\n- **Title**: {{ issue.title }}\n- **Status**: {{ issue.state }}\n\n#### Description\n\n```markdown\n{{ issue.description }}\n```\n"@
}

/// The zero-configuration `WORKFLOW.md`: the memory tracker and the bundled mock agent at
/// `agent_path` (with `"` escaped for the YAML string it stands in).
pub fn default_workflow_content(agent_path: &str) -> (r: String)
    ensures
        r@ == seed_head() + replace_char(agent_path@, '"', "\\\""@) + seed_tail(),
{
    let escaped = replace_char_with(agent_path, '"', "\\\"");
    concat3(
        "---\n# Skrvm zero-config demo workflow (auto-generated on first run).\n# It runs entirely offline using the in-memory mock tracker and a bundled mock\n# agent. Open the in-app Setup wizard to connect a real tracker and coding agent.\ntracker:\n  kind: \"memory\"\n  project_slug: \"DEMO\"\n  active_states:\n    - \"Todo\"\n  terminal_states:\n    - \"Done\"\npolling:\n  interval_ms: 10000\nworkspace:\n  root: \"~/dev/scratch/skrvm/workspaces\"\nagent:\n  team_profile: \"solo\"\n  max_concurrent_agents: 2\n  max_turns: 5\nagy:\n  command: \"",
        escaped.as_str(),
        "\"\n  thread_sandbox: \"workspace-write\"\n---\n\nYou are an elite agentic coding assistant spawned by the Skrvm orchestrator to\nresolve ticket **{{ issue.identifier }}**.\n\n### Task Overview\n\n- **Title**: {{ issue.title }}\n- **Status**: {{ issue.state }}\n\n#### Description\n\n```markdown\n{{ issue.description }}\n```\n",
    )
}

// ---------------------------------------------------------------------------
// Session histories
// ---------------------------------------------------------------------------

/// `entries` with later duplicates of a session id dropped (the first one found wins).
pub open spec fn first_per_session(entries: Seq<SessionHistoryEntry>) -> Seq<SessionHistoryEntry>
    decreases entries.len(),
{
    if entries.len() == 0 {
        seq![]
    } else {
        let prev = first_per_session(entries.drop_last());
        if has_key(prev, entries.last().key()) {
            prev
        } else {
            prev.push(entries.last())
        }
    }
}

/// Where `x` goes among entries sorted newest first: before the first older one.
pub open spec fn newest_first_position(s: Seq<SessionHistoryEntry>, x: SessionHistoryEntry) -> int
    decreases s.len(),
{
    if s.len() == 0 {
        0
    } else if text_lt(s[0].started_at@, x.started_at@) {
        0
    } else {
        1 + newest_first_position(s.drop_first(), x)
    }
}

/// The stable sort of `s` by start time, newest first.
pub open spec fn newest_first(s: Seq<SessionHistoryEntry>) -> Seq<SessionHistoryEntry>
    decreases s.len(),
{
    if s.len() == 0 {
        seq![]
    } else {
        let prev = newest_first(s.drop_last());
        prev.insert(newest_first_position(prev, s.last()), s.last())
    }
}

fn newest_position(s: &Vec<SessionHistoryEntry>, x: &SessionHistoryEntry) -> (r: usize)
    ensures
        r == newest_first_position(s@, *x),
        r <= s@.len(),
{
    let mut i: usize = 0;
    proof {
        assert(s@.skip(0) =~= s@);
    }
    while i < s.len()
        invariant
            i <= s@.len(),
            newest_first_position(s@, *x) == i + newest_first_position(s@.skip(i as int), *x),
        decreases s@.len() - i,
    {
        proof {
            assert(s@.skip(i as int)[0] == s@[i as int]);
            assert(s@.skip(i as int).drop_first() =~= s@.skip(i + 1));
        }
        if text_less(s[i].started_at.as_str(), x.started_at.as_str()) {
            return i;
        }
        i += 1;
    }
    i
}

/// The session list shown on the dashboard: one entry per session id (the first found),
/// newest first, ties in the order found.
pub fn list_session_histories(found: Vec<SessionHistoryEntry>) -> (r: Vec<SessionHistoryEntry>)
    ensures
        r@ == newest_first(first_per_session(found@)),
{
    let ghost orig = found@;
    let mut rest = found;
    let mut unique: Vec<SessionHistoryEntry> = Vec::new();
    let n = rest.len();
    let mut k: usize = 0;
    proof {
        assert(orig.take(0) =~= Seq::<SessionHistoryEntry>::empty());
        assert(orig.skip(0) =~= orig);
    }
    while k < n
        invariant
            n == orig.len(),
            k <= n,
            rest@ == orig.skip(k as int),
            unique@ == first_per_session(orig.take(k as int)),
        decreases n - k,
    {
        let x = rest.remove(0);
        proof {
            assert(x == orig[k as int]);
            assert(orig.skip(k as int).remove(0) =~= orig.skip(k + 1));
            let t = orig.take(k + 1);
            assert(t.drop_last() =~= orig.take(k as int));
            assert(t.last() == x);
        }
        if !contains_key(&unique, x.session_id.as_str()) {
            unique.push(x);
        }
        k += 1;
    }
    proof {
        assert(orig.take(n as int) =~= orig);
    }
    let ghost u = unique@;
    let mut out: Vec<SessionHistoryEntry> = Vec::new();
    let m = unique.len();
    let mut j: usize = 0;
    proof {
        assert(u.take(0) =~= Seq::<SessionHistoryEntry>::empty());
        assert(u.skip(0) =~= u);
    }
    while j < m
        invariant
            m == u.len(),
            j <= m,
            unique@ == u.skip(j as int),
            out@ == newest_first(u.take(j as int)),
        decreases m - j,
    {
        let x = unique.remove(0);
        proof {
            assert(x == u[j as int]);
            assert(u.skip(j as int).remove(0) =~= u.skip(j + 1));
            let t = u.take(j + 1);
            assert(t.drop_last() =~= u.take(j as int));
            assert(t.last() == x);
        }
        let pos = newest_position(&out, &x);
        out.insert(pos, x);
        j += 1;
    }
    proof {
        assert(u.take(m as int) =~= u);
    }
    out
}

// ---------------------------------------------------------------------------
// Prompt templates
// ---------------------------------------------------------------------------

/// The message of the error that minijinja reports when it compiles `template` under the
/// name `prompt`, or none when it compiles.
pub uninterp spec fn minijinja_compile_error(template: Seq<char>) -> Option<Seq<char>>;

/// Calls `minijinja::Environment::add_template` on a fresh environment, which compiles the
/// template; the outcome and the error's text depend on the template alone.
#[verifier::external_body]
pub(crate) fn compile_template(template: &str) -> (r: Result<(), String>)
    ensures
        match r {
            Ok(()) => minijinja_compile_error(template@) is None,
            Err(e) => minijinja_compile_error(template@) == Some(e@),
        },
{
    let mut env = minijinja::Environment::new();
    match env.add_template("prompt", template) {
        Ok(()) => Ok(()),
        Err(e) => Err(format!("{}", e)),
    }
}

/// The answer to a prompt-template check, from the compiler's outcome: the compiler's
/// error becomes a syntax error.
pub fn template_check_result(compiled: Result<(), String>) -> (r: Result<(), String>)
    ensures
        match compiled {
            Ok(()) => r is Ok,
            Err(e) => r matches Err(m) && m@ == "Template syntax error: "@ + e@,
        },
{
    match compiled {
        Ok(()) => Ok(()),
        Err(e) => Err(concat("Template syntax error: ", e.as_str())),
    }
}

/// Checks that a prompt template compiles.
pub fn verify_prompt_template(template: &str) -> (r: Result<(), String>)
    ensures
        r is Ok <==> minijinja_compile_error(template@) is None,
        r matches Err(m) ==> m@ == "Template syntax error: "@ + minijinja_compile_error(
            template@,
        )->0,
{
    let compiled = compile_template(template);
    template_check_result(compiled)
}

} // verus!
