use vstd::prelude::*;

use crate::config::{finalized_api_key, finalized_command, finalized_text, is_finalized, validation_error_of, EnvVars, Settings};
use crate::strings::opt_view;
use crate::text::{
    chars_of, join, join_lines, lines, lines_of, owned, trim, trim_bounds, trim_ws, views,
};

verus! {

broadcast use vstd::string::group_string_axioms;

/// The line that opens and closes the YAML front matter.
pub open spec fn delimiter() -> Seq<char> {
    seq!['-', '-', '-']
}

/// A line that trims to `---`.
pub open spec fn is_delimiter(line: Seq<char>) -> bool {
    trim_ws(line) == delimiter()
}

/// Index of the first delimiter line at or after `from`, or `ls.len()` when there is none.
pub open spec fn delimiter_from(ls: Seq<Seq<char>>, from: int) -> int
    decreases ls.len() - from,
{
    if from >= ls.len() || from < 0 {
        ls.len() as int
    } else if is_delimiter(ls[from]) {
        from
    } else {
        delimiter_from(ls, from + 1)
    }
}

/// How a `WORKFLOW.md` text splits into YAML front matter and prompt template.
///
/// When the first line trims to `---`, the front matter is the lines up to the next line
/// that trims to `---` (or to the end), and the prompt is every line after that delimiter;
/// both are joined with `'\n'`. Otherwise there is no front matter and the whole text is
/// the prompt.
pub open spec fn front_matter_split(content: Seq<char>) -> (Seq<char>, Seq<char>) {
    let ls = lines_of(content);
    if ls.len() > 0 && is_delimiter(ls[0]) {
        let k = delimiter_from(ls, 1);
        let front = join(ls.subrange(1, k), seq!['\n']);
        let prompt = if k < ls.len() {
            join(ls.subrange(k + 1, ls.len() as int), seq!['\n'])
        } else {
            Seq::empty()
        };
        (front, prompt)
    } else {
        (Seq::empty(), content)
    }
}

proof fn lemma_delimiter_from_bounds(ls: Seq<Seq<char>>, from: int)
    requires
        0 <= from <= ls.len(),
    ensures
        from <= delimiter_from(ls, from) <= ls.len(),
        forall|j: int| from <= j < delimiter_from(ls, from) ==> !is_delimiter(#[trigger] ls[j]),
        delimiter_from(ls, from) < ls.len() ==> is_delimiter(ls[delimiter_from(ls, from)]),
    decreases ls.len() - from,
{
    if from < ls.len() && !is_delimiter(ls[from]) {
        lemma_delimiter_from_bounds(ls, from + 1);
    }
}

proof fn lemma_delimiter_from_skip(ls: Seq<Seq<char>>, from: int, i: int)
    requires
        0 <= from <= i <= ls.len(),
        forall|j: int| from <= j < i ==> !is_delimiter(#[trigger] ls[j]),
    ensures
        delimiter_from(ls, from) == delimiter_from(ls, i),
    decreases i - from,
{
    if from < i {
        lemma_delimiter_from_skip(ls, from + 1, i);
    }
}

/// Whether a line trims to `---`.
fn line_is_delimiter(line: &Vec<char>) -> (r: bool)
    ensures
        r == is_delimiter(line@),
{
    let (lo, hi) = trim_bounds(line);
    if hi - lo != 3 {
        proof {
            assert(line@.subrange(lo as int, hi as int).len() != delimiter().len());
        }
        return false;
    }
    let r = line[lo] == '-' && line[lo + 1] == '-' && line[lo + 2] == '-';
    proof {
        let t = line@.subrange(lo as int, hi as int);
        assert(t[0] == line@[lo as int] && t[1] == line@[lo + 1] && t[2] == line@[lo + 2]);
        if r {
            assert(t =~= delimiter());
        } else {
            assert(t != delimiter());
        }
    }
    r
}

/// Splits the front matter (between `---` lines) from the prompt template.
pub fn split_front_matter(content: &str) -> (r: (String, String))
    ensures
        (r.0@, r.1@) == front_matter_split(content@),
{
    let chars = chars_of(content);
    let ls = lines(&chars);
    let ghost sl = views(ls@);
    if ls.len() > 0 && line_is_delimiter(&ls[0]) {
        let mut k: usize = 1;
        while k < ls.len() && !line_is_delimiter(&ls[k])
            invariant
                1 <= k <= ls@.len(),
                sl == views(ls@),
                forall|j: int| 1 <= j < k ==> !is_delimiter(#[trigger] sl[j]),
            decreases ls@.len() - k,
        {
            k += 1;
        }
        proof {
            lemma_delimiter_from_skip(sl, 1, k as int);
            lemma_delimiter_from_bounds(sl, k as int);
        }
        let front = join_lines(&ls, 1, k);
        let prompt = if k < ls.len() {
            join_lines(&ls, k + 1, ls.len())
        } else {
            String::new()
        };
        (front, prompt)
    } else {
        (String::new(), owned(content))
    }
}

// ---------------------------------------------------------------------------
// Workflows
// ---------------------------------------------------------------------------

/// A parsed `WORKFLOW.md`: its settings and the prompt template.
#[derive(Clone, Debug)]
pub struct Workflow {
    pub config: Settings,
    pub prompt_template: String,
}

/// The prompt used when the workflow file has none.
pub open spec fn default_prompt() -> Seq<char> {
    "You are working on a Linear issue.\n\nIdentifier: {{ issue.identifier }}\nTitle: {{ issue.title }}\nBody:\n{{ issue.description }}"@
}

/// The prompt template of a workflow: the trimmed text after the front matter, or the
/// default prompt when that is blank.
pub open spec fn prompt_or_default(prompt: Seq<char>) -> Seq<char> {
    if trim_ws(prompt).len() == 0 {
        default_prompt()
    } else {
        trim_ws(prompt)
    }
}

/// Why a workflow is refused once its settings are finalized, if it is.
pub open spec fn workflow_error(
    settings: Settings,
    dir: Seq<char>,
    env: Seq<(String, String)>,
    home: Option<Seq<char>>,
) -> Option<Seq<char>> {
    validation_error_of(
        finalized_text(settings.tracker.kind@, env),
        finalized_api_key(settings.tracker.api_key, env),
        finalized_text(settings.tracker.project_slug@, env),
        finalized_text(settings.tracker.endpoint@, env),
        finalized_command(finalized_text(settings.codex.command@, env), dir),
    )
}

/// Turns the settings read from the front matter (or the defaults, when there was none)
/// and the prompt text into a workflow: the settings are finalized against the workflow's
/// directory, the environment and the home directory, then validated; a blank prompt is
/// replaced by the default one.
pub fn complete_workflow(
    settings: Settings,
    prompt: &str,
    workflow_dir: &str,
    env: &EnvVars,
    home: &Option<String>,
) -> (r: Result<Workflow, String>)
    ensures
        r is Ok <==> workflow_error(settings, workflow_dir@, env.vars@, opt_view(*home)) is None,
        r matches Err(e) ==> workflow_error(settings, workflow_dir@, env.vars@, opt_view(*home))
            == Some(e@),
        r matches Ok(w) ==> is_finalized(
            settings,
            w.config,
            workflow_dir@,
            env.vars@,
            opt_view(*home),
        ) && w.prompt_template@ == prompt_or_default(prompt@),
{
    let mut config = settings;
    config.finalize(workflow_dir, env, home);
    match config.validate() {
        Ok(()) => {},
        Err(e) => {
            return Err(e);
        },
    }
    let trimmed = trim(prompt);
    let prompt_template = if trimmed.as_str().is_empty() {
        owned(
            "You are working on a Linear issue.\n\nIdentifier: {{ issue.identifier }}\nTitle: {{ issue.title }}\nBody:\n{{ issue.description }}",
        )
    } else {
        trimmed
    };
    Ok(Workflow { config, prompt_template })
}

// ---------------------------------------------------------------------------
// Reloading
// ---------------------------------------------------------------------------

/// What the workflow store remembers of the last file it read: modification time (in
/// nanoseconds from the Unix epoch), size and content hash (0 when nothing was loaded).
#[derive(Clone, Debug)]
pub struct ReloadTracker {
    pub last_mtime: Option<i128>,
    pub last_size: u64,
    pub last_hash: u64,
}

/// Whether a file with this modification time and size must be read: always at first,
/// then whenever either changed since the last look.
pub open spec fn must_read(t: ReloadTracker, mtime: i128, size: u64) -> bool {
    match t.last_mtime {
        Some(m) => mtime != m || size != t.last_size,
        None => true,
    }
}

/// Whether content with this hash is the content already loaded (same non-zero hash).
pub open spec fn holds_content(t: ReloadTracker, hash: u64) -> bool {
    hash == t.last_hash && t.last_hash != 0
}

/// What the tracker remembers after loading a file.
pub open spec fn loaded_state(mtime: i128, size: u64, hash: u64) -> ReloadTracker {
    ReloadTracker { last_mtime: Some(mtime), last_size: size, last_hash: hash }
}

/// What the tracker remembers after looking at a file whose content did not change.
pub open spec fn seen_state(t: ReloadTracker, mtime: i128, size: u64) -> ReloadTracker {
    ReloadTracker { last_mtime: Some(mtime), last_size: size, last_hash: t.last_hash }
}

impl ReloadTracker {
    /// Nothing read yet.
    pub fn new() -> (r: ReloadTracker)
        ensures
            r.last_mtime is None,
            r.last_size == 0,
            r.last_hash == 0,
    {
        ReloadTracker { last_mtime: None, last_size: 0, last_hash: 0 }
    }

    /// Whether the file must be read again (see `must_read`).
    pub fn needs_read(&self, mtime: i128, size: u64) -> (r: bool)
        ensures
            r == must_read(*self, mtime, size),
    {
        match self.last_mtime {
            Some(m) => mtime != m || size != self.last_size,
            None => true,
        }
    }

    /// Whether freshly read content is the content already loaded (see `holds_content`).
    pub fn content_unchanged(&self, hash: u64) -> (r: bool)
        ensures
            r == holds_content(*self, hash),
    {
        hash == self.last_hash && self.last_hash != 0
    }

    /// Remembers the time and size of a file whose content did not change.
    pub fn record_seen(&mut self, mtime: i128, size: u64)
        ensures
            *final(self) == seen_state(*old(self), mtime, size),
    {
        self.last_mtime = Some(mtime);
        self.last_size = size;
    }

    /// Remembers the time, size and hash of a file that was loaded.
    pub fn record_loaded(&mut self, mtime: i128, size: u64, hash: u64)
        ensures
            *final(self) == loaded_state(mtime, size, hash),
    {
        self.last_mtime = Some(mtime);
        self.last_size = size;
        self.last_hash = hash;
    }
}

} // verus!
