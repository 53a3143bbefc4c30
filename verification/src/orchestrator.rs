use vstd::prelude::*;

use vstd::arithmetic::power2::{
    lemma2_to64, lemma_pow2_strictly_increases, lemma_pow2_unfold, pow2,
};

use crate::config::{join_path, path_join, state_limit, AgentConfig, Settings};
use crate::keyed::{
    as_map, contains_key, find_key, has_key, key_set, keys_unique, lemma_empty_map, put, remove_key,
    unique_keys, Keyed,
};
use crate::strings::{clone_opt, concat, concat3, opt_view};
use crate::text::{owned, str_eq, to_lowercase, unicode_lowercase};
use crate::agent_runner::{AgentUpdate, TokenDelta};
use crate::tracker::{decimal, u64_to_decimal, BlockerRef, Issue};

verus! {

broadcast use vstd::string::group_string_axioms;

// ---------------------------------------------------------------------------
// State
// ---------------------------------------------------------------------------

/// A worker that is running for an issue.
#[derive(Clone, Debug)]
pub struct RunningEntry {
    pub pid: Option<u32>,
    pub identifier: String,
    pub issue: Issue,
    pub worker_host: Option<String>,
    pub workspace_path: Option<String>,
    pub session_id: Option<String>,
    pub last_event: Option<String>,
    pub last_message: Option<String>,
    pub last_event_at: Option<String>,
    pub input_tokens: i64,
    pub output_tokens: i64,
    pub total_tokens: i64,
    pub turn_count: usize,
    pub retry_attempt: usize,
    pub started_at: String,
}

/// A scheduled retry (or continuation) of an issue.
#[derive(Clone, Debug)]
pub struct RetryEntry {
    pub issue_id: String,
    pub identifier: String,
    pub attempt: usize,
    pub due_at_ms: u64,
    pub error: Option<String>,
}

/// An issue whose agent is waiting for operator input.
#[derive(Clone, Debug)]
pub struct BlockedEntry {
    pub issue_id: String,
    pub identifier: String,
    pub issue: Issue,
    pub session_id: Option<String>,
    pub error: String,
    pub blocked_at: String,
}

/// Token usage summed over finished workers.
#[derive(Clone, Debug)]
pub struct CodexTotals {
    pub input_tokens: i64,
    pub output_tokens: i64,
    pub total_tokens: i64,
}

/// The scheduler's state. Each of `running`, `blocked`, `retry_attempts`, `claimed` and
/// `completed` is keyed by issue id and stands for a map (or set) with distinct keys.
#[derive(Clone, Debug)]
pub struct OrchestratorState {
    pub poll_interval_ms: u64,
    pub max_concurrent_agents: usize,
    pub running: Vec<RunningEntry>,
    pub completed: Vec<String>,
    pub claimed: Vec<String>,
    pub blocked: Vec<BlockedEntry>,
    pub retry_attempts: Vec<RetryEntry>,
    pub backlog: Vec<Issue>,
    pub codex_totals: CodexTotals,
    pub last_error: Option<String>,
}

impl Keyed for RunningEntry {
    open spec fn key(&self) -> Seq<char> {
        self.issue.id@
    }

    fn key_str(&self) -> (r: &str) {
        self.issue.id.as_str()
    }
}

impl Keyed for BlockedEntry {
    open spec fn key(&self) -> Seq<char> {
        self.issue_id@
    }

    fn key_str(&self) -> (r: &str) {
        self.issue_id.as_str()
    }
}

impl Keyed for RetryEntry {
    open spec fn key(&self) -> Seq<char> {
        self.issue_id@
    }

    fn key_str(&self) -> (r: &str) {
        self.issue_id.as_str()
    }
}

impl OrchestratorState {
    /// Every keyed collection has distinct keys.
    pub open spec fn wf(&self) -> bool {
        &&& unique_keys(self.running@)
        &&& unique_keys(self.completed@)
        &&& unique_keys(self.claimed@)
        &&& unique_keys(self.blocked@)
        &&& unique_keys(self.retry_attempts@)
    }

    /// Running workers by issue id.
    pub open spec fn running_map(&self) -> Map<Seq<char>, RunningEntry> {
        as_map(self.running@)
    }

    /// Blocked issues by issue id.
    pub open spec fn blocked_map(&self) -> Map<Seq<char>, BlockedEntry> {
        as_map(self.blocked@)
    }

    /// Scheduled retries by issue id.
    pub open spec fn retry_map(&self) -> Map<Seq<char>, RetryEntry> {
        as_map(self.retry_attempts@)
    }

    /// Ids of claimed issues.
    pub open spec fn claimed_set(&self) -> Set<Seq<char>> {
        key_set(self.claimed@)
    }

    /// Ids of completed issues.
    pub open spec fn completed_set(&self) -> Set<Seq<char>> {
        key_set(self.completed@)
    }

    /// Every running or blocked issue is claimed.
    pub open spec fn claims_cover_workers(&self) -> bool {
        &&& self.running_map().dom().subset_of(self.claimed_set())
        &&& self.blocked_map().dom().subset_of(self.claimed_set())
    }

    /// At most `max_concurrent_agents` workers run.
    pub open spec fn within_cap(&self) -> bool {
        self.running@.len() <= self.max_concurrent_agents
    }

    /// Decides `wf`: whether every keyed collection has distinct keys.
    pub fn well_formed(&self) -> (r: bool)
        ensures
            r == self.wf(),
    {
        keys_unique(&self.running) && keys_unique(&self.completed) && keys_unique(&self.claimed)
            && keys_unique(&self.blocked) && keys_unique(&self.retry_attempts)
    }

    /// A fresh state for the given configuration: nothing claimed, running or scheduled.
    pub fn new(settings: &Settings) -> (r: OrchestratorState)
        ensures
            r.wf(),
            r.poll_interval_ms == settings.polling.interval_ms,
            r.max_concurrent_agents == settings.agent.max_concurrent_agents,
            r.running_map() == Map::<Seq<char>, RunningEntry>::empty(),
            r.blocked_map() == Map::<Seq<char>, BlockedEntry>::empty(),
            r.retry_map() == Map::<Seq<char>, RetryEntry>::empty(),
            r.claimed_set() == Set::<Seq<char>>::empty(),
            r.completed_set() == Set::<Seq<char>>::empty(),
            r.backlog@.len() == 0,
            r.codex_totals == (CodexTotals { input_tokens: 0, output_tokens: 0, total_tokens: 0 }),
            r.last_error is None,
            r.claims_cover_workers(),
            r.within_cap(),
    {
        let r = OrchestratorState {
            poll_interval_ms: settings.polling.interval_ms,
            max_concurrent_agents: settings.agent.max_concurrent_agents,
            running: Vec::new(),
            completed: Vec::new(),
            claimed: Vec::new(),
            blocked: Vec::new(),
            retry_attempts: Vec::new(),
            backlog: Vec::new(),
            codex_totals: CodexTotals { input_tokens: 0, output_tokens: 0, total_tokens: 0 },
            last_error: None,
        };
        proof {
            lemma_empty_map(r.running@);
            lemma_empty_map(r.blocked@);
            lemma_empty_map(r.retry_attempts@);
            lemma_empty_map(r.claimed@);
            lemma_empty_map(r.completed@);
            assert(r.claimed_set() =~= Set::<Seq<char>>::empty());
            assert(r.completed_set() =~= Set::<Seq<char>>::empty());
        }
        r
    }
}

// ---------------------------------------------------------------------------
// Eligibility
// ---------------------------------------------------------------------------

/// Whether `lower` is one of `states` after lower-casing them.
pub open spec fn in_lowered(states: Seq<String>, lower: Seq<char>) -> bool {
    exists|i: int| 0 <= i < states.len() && unicode_lowercase(#[trigger] states[i]@) == lower
}

fn contains_lowered(states: &Vec<String>, lower: &str) -> (r: bool)
    ensures
        r == in_lowered(states@, lower@),
{
    let mut i: usize = 0;
    while i < states.len()
        invariant
            i <= states@.len(),
            forall|j: int| 0 <= j < i ==> unicode_lowercase(#[trigger] states@[j]@) != lower@,
        decreases states@.len() - i,
    {
        let l = to_lowercase(states[i].as_str());
        if str_eq(l.as_str(), lower) {
            return true;
        }
        i += 1;
    }
    false
}

/// How many running workers are on an issue whose state lower-cases to `lower`.
pub open spec fn count_in_state(rs: Seq<RunningEntry>, lower: Seq<char>) -> nat
    decreases rs.len(),
{
    if rs.len() == 0 {
        0
    } else {
        count_in_state(rs.drop_last(), lower) + if unicode_lowercase(rs.last().issue.state@)
            == lower {
            1nat
        } else {
            0nat
        }
    }
}

proof fn lemma_count_le(rs: Seq<RunningEntry>, lower: Seq<char>)
    ensures
        count_in_state(rs, lower) <= rs.len(),
    decreases rs.len(),
{
    if rs.len() > 0 {
        lemma_count_le(rs.drop_last(), lower);
    }
}

fn running_in_state(rs: &Vec<RunningEntry>, lower: &str) -> (r: usize)
    ensures
        r == count_in_state(rs@, lower@),
{
    let mut n: usize = 0;
    let mut i: usize = 0;
    assert(rs@.take(0) =~= Seq::<RunningEntry>::empty());
    while i < rs.len()
        invariant
            i <= rs@.len(),
            n == count_in_state(rs@.take(i as int), lower@),
            n <= i,
        decreases rs@.len() - i,
    {
        proof {
            let t = rs@.take(i + 1);
            assert(t.drop_last() =~= rs@.take(i as int));
            assert(t.last() == rs@[i as int]);
        }
        let l = to_lowercase(rs[i].issue.state.as_str());
        if str_eq(l.as_str(), lower) {
            n += 1;
        }
        i += 1;
    }
    proof {
        assert(rs@.take(rs@.len() as int) =~= rs@);
    }
    n
}

/// Every blocker that reports a state is in one of the terminal states.
pub open spec fn blockers_clear(blockers: Seq<BlockerRef>, terminal: Seq<String>) -> bool {
    forall|i: int|
        0 <= i < blockers.len() ==> match #[trigger] blockers[i].state {
            Some(s) => in_lowered(terminal, unicode_lowercase(s@)),
            None => true,
        }
}

/// The running-agent cap that applies to issues in the lower-cased state `lower`.
pub open spec fn cap_for(agent: AgentConfig, lower: Seq<char>) -> usize {
    match state_limit(agent.max_concurrent_agents_by_state@, lower) {
        Some(l) => l,
        None => agent.max_concurrent_agents,
    }
}

/// Whether `issue` may be dispatched now: it is not claimed, running, blocked or
/// completed; it is assigned to this worker; its state is active; fewer workers run in its
/// state than that state's cap; and an issue in `Todo` has no blocker in a non-terminal
/// state.
pub open spec fn dispatchable(st: OrchestratorState, issue: Issue, settings: Settings) -> bool {
    let id = issue.id@;
    let lower = unicode_lowercase(issue.state@);
    &&& !st.claimed_set().contains(id)
    &&& !st.running_map().dom().contains(id)
    &&& !st.blocked_map().dom().contains(id)
    &&& !st.completed_set().contains(id)
    &&& issue.assigned_to_worker
    &&& in_lowered(settings.tracker.active_states@, lower)
    &&& count_in_state(st.running@, lower) < cap_for(settings.agent, lower)
    &&& (lower == "todo"@ ==> blockers_clear(issue.blocked_by@, settings.tracker.terminal_states@))
}

fn blockers_are_clear(blockers: &Vec<BlockerRef>, terminal: &Vec<String>) -> (r: bool)
    ensures
        r == blockers_clear(blockers@, terminal@),
{
    let mut i: usize = 0;
    while i < blockers.len()
        invariant
            i <= blockers@.len(),
            forall|j: int|
                0 <= j < i ==> match #[trigger] blockers@[j].state {
                    Some(s) => in_lowered(terminal@, unicode_lowercase(s@)),
                    None => true,
                },
        decreases blockers@.len() - i,
    {
        if let Some(s) = &blockers[i].state {
            let l = to_lowercase(s.as_str());
            if !contains_lowered(terminal, l.as_str()) {
                return false;
            }
        }
        i += 1;
    }
    true
}

impl OrchestratorState {
    /// Decides whether an issue is eligible to be dispatched (see `dispatchable`).
    pub fn should_dispatch(&self, issue: &Issue, settings: &Settings) -> (r: bool)
        ensures
            r == dispatchable(*self, *issue, *settings),
    {
        let id = issue.id.as_str();
        if contains_key(&self.claimed, id) || contains_key(&self.running, id) || contains_key(
            &self.blocked,
            id,
        ) || contains_key(&self.completed, id) {
            return false;
        }
        if !issue.assigned_to_worker {
            return false;
        }
        let lower = to_lowercase(issue.state.as_str());
        if !contains_lowered(&settings.tracker.active_states, lower.as_str()) {
            return false;
        }
        let count = running_in_state(&self.running, lower.as_str());
        let cap = settings.agent.limit_for_state(lower.as_str());
        if count >= cap {
            return false;
        }
        if str_eq(lower.as_str(), "todo") {
            if !blockers_are_clear(&issue.blocked_by, &settings.tracker.terminal_states) {
                return false;
            }
        }
        true
    }

    /// Whether another worker may start: fewer workers run than the configured cap.
    pub fn has_free_slot(&self) -> (r: bool)
        ensures
            r == (self.running@.len() < self.max_concurrent_agents),
    {
        self.running.len() < self.max_concurrent_agents
    }

    /// Free worker slots: the global cap minus the running workers, never below zero.
    pub fn available_slots(&self) -> (r: usize)
        ensures
            r == if self.running@.len() <= self.max_concurrent_agents {
                self.max_concurrent_agents - self.running@.len()
            } else {
                0
            },
    {
        self.max_concurrent_agents.saturating_sub(self.running.len())
    }
}

/// What the dispatch loop of a poll does next.
#[derive(Debug, PartialEq, Eq, Structural)]
pub enum DispatchStep {
    /// Dispatch the candidate at this index.
    Dispatch(usize),
    /// Stop dispatching in this poll.
    Stop,
}

impl OrchestratorState {
    /// The next candidate a poll dispatches, scanning the candidates (in dispatch order)
    /// from index `from`: while a worker slot is free, the first one that may be
    /// dispatched; once every slot is taken, or no candidate is left that may be
    /// dispatched, the poll stops.
    pub fn next_dispatch(&self, ordered: &Vec<Issue>, from: usize, settings: &Settings) -> (r: DispatchStep)
        ensures
            self.running@.len() >= self.max_concurrent_agents ==> r == DispatchStep::Stop,
            self.running@.len() < self.max_concurrent_agents ==> match r {
                DispatchStep::Dispatch(i) => {
                    &&& from <= i < ordered@.len()
                    &&& dispatchable(*self, ordered@[i as int], *settings)
                    &&& forall|j: int|
                        from <= j < i ==> !dispatchable(*self, #[trigger] ordered@[j], *settings)
                },
                DispatchStep::Stop => forall|j: int|
                    from <= j < ordered@.len() ==> !dispatchable(
                        *self,
                        #[trigger] ordered@[j],
                        *settings,
                    ),
            },
    {
        if !self.has_free_slot() {
            return DispatchStep::Stop;
        }
        let mut i: usize = from;
        while i < ordered.len()
            invariant
                i >= from,
                self.running@.len() < self.max_concurrent_agents,
                forall|j: int|
                    from <= j < i ==> !dispatchable(*self, #[trigger] ordered@[j], *settings),
            decreases ordered@.len() - i,
        {
            if self.should_dispatch(&ordered[i], settings) {
                return DispatchStep::Dispatch(i);
            }
            i += 1;
        }
        DispatchStep::Stop
    }

    /// Records what a poll fetched from the tracker: the candidates become the backlog;
    /// on a fetch error the error is recorded and the backlog kept. Returns whether there
    /// are candidates to consider (the fetch succeeded).
    pub fn record_candidates(&mut self, fetched: Result<Vec<Issue>, String>) -> (r: bool)
        ensures
            r == fetched is Ok,
            fetched matches Ok(c) ==> final(self).backlog == c && final(self).last_error == old(
                self,
            ).last_error,
            fetched matches Err(e) ==> final(self).backlog == old(self).backlog
                && final(self).last_error is Some && final(self).last_error->0@
                == "Failed to fetch tracker candidates: "@ + e@,
            final(self).running == old(self).running,
            final(self).claimed == old(self).claimed,
            final(self).completed == old(self).completed,
            final(self).blocked == old(self).blocked,
            final(self).retry_attempts == old(self).retry_attempts,
            final(self).codex_totals == old(self).codex_totals,
            final(self).poll_interval_ms == old(self).poll_interval_ms,
            final(self).max_concurrent_agents == old(self).max_concurrent_agents,
    {
        match fetched {
            Ok(c) => {
                self.backlog = c;
                true
            },
            Err(e) => {
                self.last_error = Some(concat("Failed to fetch tracker candidates: ", e.as_str()));
                false
            },
        }
    }
}

// ---------------------------------------------------------------------------
// Claims and running workers
// ---------------------------------------------------------------------------

impl RunningEntry {
    /// The entry registered when a worker starts on `issue` in `workspace_path`.
    pub fn started(issue: Issue, workspace_path: String, attempt: usize, started_at: String) -> (r: RunningEntry)
        ensures
            r.pid is None,
            r.identifier == issue.identifier,
            r.issue == issue,
            r.worker_host is None,
            r.workspace_path == Some(workspace_path),
            r.session_id is None,
            r.last_event is None,
            r.last_message is None,
            r.last_event_at is None,
            r.input_tokens == 0,
            r.output_tokens == 0,
            r.total_tokens == 0,
            r.turn_count == 0,
            r.retry_attempt == attempt,
            r.started_at == started_at,
    {
        RunningEntry {
            pid: None,
            identifier: issue.identifier.clone(),
            issue,
            worker_host: None,
            workspace_path: Some(workspace_path),
            session_id: None,
            last_event: None,
            last_message: None,
            last_event_at: None,
            input_tokens: 0,
            output_tokens: 0,
            total_tokens: 0,
            turn_count: 0,
            retry_attempt: attempt,
            started_at,
        }
    }
}

/// `after` has the backlog, the last error, the polling interval and the agent cap of
/// `before`.
pub open spec fn keeps_config(before: OrchestratorState, after: OrchestratorState) -> bool {
    &&& after.backlog == before.backlog
    &&& after.last_error == before.last_error
    &&& after.poll_interval_ms == before.poll_interval_ms
    &&& after.max_concurrent_agents == before.max_concurrent_agents
}

impl OrchestratorState {
    /// Claims an issue for dispatch: it becomes claimed and stops counting as completed.
    pub fn claim(&mut self, issue_id: &str)
        requires
            old(self).wf(),
        ensures
            final(self).wf(),
            final(self).claimed_set() == old(self).claimed_set().insert(issue_id@),
            final(self).completed_set() == old(self).completed_set().remove(issue_id@),
            final(self).running == old(self).running,
            final(self).blocked == old(self).blocked,
            final(self).retry_attempts == old(self).retry_attempts,
            final(self).codex_totals == old(self).codex_totals,
            keeps_config(*old(self), *final(self)),
            old(self).within_cap() ==> final(self).within_cap(),
            old(self).claims_cover_workers() ==> final(self).claims_cover_workers(),
    {
        put(&mut self.claimed, owned(issue_id));
        let _ = remove_key(&mut self.completed, issue_id);
    }

    /// Gives up a claim (a workspace hook failed before the worker started).
    pub fn release_claim(&mut self, issue_id: &str)
        requires
            old(self).wf(),
        ensures
            final(self).wf(),
            final(self).claimed_set() == old(self).claimed_set().remove(issue_id@),
            final(self).completed == old(self).completed,
            final(self).running == old(self).running,
            final(self).blocked == old(self).blocked,
            final(self).retry_attempts == old(self).retry_attempts,
            final(self).codex_totals == old(self).codex_totals,
            keeps_config(*old(self), *final(self)),
            old(self).within_cap() ==> final(self).within_cap(),
            old(self).claims_cover_workers() && !old(self).running_map().dom().contains(issue_id@)
                && !old(self).blocked_map().dom().contains(issue_id@)
                ==> final(self).claims_cover_workers(),
    {
        let _ = remove_key(&mut self.claimed, issue_id);
    }

    /// Registers a started worker, replacing any entry for the same issue. A worker starts
    /// only in a free slot, so the cap on running workers holds afterwards.
    pub fn register_running(&mut self, entry: RunningEntry)
        requires
            old(self).wf(),
            old(self).running@.len() < old(self).max_concurrent_agents,
        ensures
            final(self).within_cap(),
            final(self).wf(),
            final(self).running_map() == old(self).running_map().insert(entry.issue.id@, entry),
            !old(self).running_map().dom().contains(entry.issue.id@) ==> final(self).running@ == old(
                self,
            ).running@.push(entry),
            final(self).claimed == old(self).claimed,
            final(self).completed == old(self).completed,
            final(self).blocked == old(self).blocked,
            final(self).retry_attempts == old(self).retry_attempts,
            final(self).codex_totals == old(self).codex_totals,
            keeps_config(*old(self), *final(self)),
            old(self).claims_cover_workers() && old(self).claimed_set().contains(entry.issue.id@)
                ==> final(self).claims_cover_workers(),
    {
        put(&mut self.running, entry);
    }
}

// ---------------------------------------------------------------------------
// Worker progress and exit
// ---------------------------------------------------------------------------

/// What a worker task remembers of its updates: the last session id and token counts
/// seen while its entry was running.
#[derive(Clone, Debug)]
pub struct WorkerTrack {
    pub final_session_id: Option<String>,
    pub final_tokens: TokenDelta,
}

impl WorkerTrack {
    /// Nothing seen yet.
    pub fn new() -> (r: WorkerTrack)
        ensures
            r.final_session_id is None,
            r.final_tokens == (TokenDelta { input_tokens: 0, output_tokens: 0, total_tokens: 0 }),
    {
        WorkerTrack {
            final_session_id: None,
            final_tokens: TokenDelta { input_tokens: 0, output_tokens: 0, total_tokens: 0 },
        }
    }
}

/// A running entry after an update: process, session, turn, last event, message and time
/// are taken from the update, and token counts too when it carries them.
pub open spec fn updated_entry(e: RunningEntry, u: AgentUpdate) -> RunningEntry {
    let e2 = RunningEntry {
        pid: u.pid,
        session_id: u.session_id,
        turn_count: u.turn_count,
        last_event: Some(u.event),
        last_message: u.message,
        last_event_at: Some(u.timestamp),
        ..e
    };
    match u.token_delta {
        Some(d) => RunningEntry {
            input_tokens: d.input_tokens,
            output_tokens: d.output_tokens,
            total_tokens: d.total_tokens,
            ..e2
        },
        None => e2,
    }
}

impl OrchestratorState {
    /// Applies an agent update to the running entry of `issue_id`, if there is one, and
    /// records its session and token counts in `track`. Returns whether an entry was found.
    pub fn apply_agent_update(&mut self, issue_id: &str, update: &AgentUpdate, track: &mut WorkerTrack) -> (r: bool)
        requires
            old(self).wf(),
        ensures
            final(self).wf(),
            r == old(self).running_map().dom().contains(issue_id@),
            r ==> final(self).running_map() == old(self).running_map().insert(
                issue_id@,
                updated_entry(old(self).running_map()[issue_id@], *update),
            ),
            !r ==> final(self).running@ == old(self).running@,
            r ==> final(track).final_session_id == update.session_id,
            r ==> final(track).final_tokens == match update.token_delta {
                Some(d) => d,
                None => old(track).final_tokens,
            },
            !r ==> *final(track) == *old(track),
            final(self).claimed == old(self).claimed,
            final(self).completed == old(self).completed,
            final(self).blocked == old(self).blocked,
            final(self).retry_attempts == old(self).retry_attempts,
            final(self).codex_totals == old(self).codex_totals,
            keeps_config(*old(self), *final(self)),
            final(self).running@.len() == old(self).running@.len(),
            old(self).within_cap() ==> final(self).within_cap(),
            old(self).claims_cover_workers() ==> final(self).claims_cover_workers(),
    {
        if find_key(&self.running, issue_id).is_none() {
            return false;
        }
        match remove_key(&mut self.running, issue_id) {
            Some(mut entry) => {
                entry.pid = update.pid;
                entry.session_id = clone_opt(&update.session_id);
                entry.turn_count = update.turn_count;
                entry.last_event = Some(update.event.clone());
                entry.last_message = clone_opt(&update.message);
                entry.last_event_at = Some(update.timestamp.clone());
                if let Some(d) = &update.token_delta {
                    entry.input_tokens = d.input_tokens;
                    entry.output_tokens = d.output_tokens;
                    entry.total_tokens = d.total_tokens;
                    track.final_tokens = d.copy();
                }
                track.final_session_id = clone_opt(&update.session_id);
                proof {
                    assert(entry.key() == issue_id@);
                    assert(!as_map(self.running@).dom().contains(issue_id@));
                    assert(!has_key(self.running@, issue_id@));
                }
                put(&mut self.running, entry);
                proof {
                    assert(self.running_map() =~= old(self).running_map().insert(
                        issue_id@,
                        updated_entry(old(self).running_map()[issue_id@], *update),
                    ));
                }
                true
            },
            None => {
                false
            },
        }
    }
}

/// Whether a worker result means the agent asked for operator input.
pub open spec fn input_required(result: Result<(), String>) -> bool {
    match result {
        Err(e) => e@ == "turn_input_required"@,
        Ok(()) => false,
    }
}

/// The backoff before retry number `next_attempt` (at least 1): 10 s doubled for every
/// earlier retry, capped at `max_backoff_ms`.
pub open spec fn retry_delay(next_attempt: nat, max_backoff_ms: u64) -> u64 {
    let d = 10000 * pow2((next_attempt - 1) as nat);
    if d < max_backoff_ms {
        d as u64
    } else {
        max_backoff_ms
    }
}

proof fn lemma_delay_reaches_cap(k: nat, n: nat, d: int, max_backoff_ms: u64)
    requires
        k <= n,
        d == 10000 * pow2(k),
        d >= max_backoff_ms,
    ensures
        retry_delay(n + 1, max_backoff_ms) == max_backoff_ms,
{
    if k < n {
        lemma_pow2_strictly_increases(k, n);
    }
    let pk = pow2(k);
    let pn = pow2(n);
    assert(10000 * pk <= 10000 * pn) by (nonlinear_arith)
        requires
            pk <= pn,
    ;
}

/// Computes `retry_delay` for any retry number, doubling only while the delay stays under
/// the cap, so that no product overflows.
pub fn retry_delay_ms(next_attempt: usize, max_backoff_ms: u64) -> (r: u64)
    requires
        next_attempt >= 1,
    ensures
        r == retry_delay(next_attempt as nat, max_backoff_ms),
{
    let ghost n: nat = (next_attempt - 1) as nat;
    let mut d: u64 = 10000;
    let mut k: usize = 0;
    proof {
        lemma2_to64();
    }
    if d >= max_backoff_ms {
        proof {
            lemma_delay_reaches_cap(0, n, d as int, max_backoff_ms);
        }
        return max_backoff_ms;
    }
    while k < next_attempt - 1
        invariant
            1 <= next_attempt,
            n == next_attempt - 1,
            k <= n,
            d == 10000 * pow2(k as nat),
            d < max_backoff_ms,
        decreases next_attempt - 1 - k,
    {
        proof {
            lemma_pow2_unfold((k + 1) as nat);
        }
        if d > max_backoff_ms / 2 {
            proof {
                lemma_delay_reaches_cap((k + 1) as nat, n, 2 * d, max_backoff_ms);
            }
            return max_backoff_ms;
        }
        d = d * 2;
        k += 1;
        if d >= max_backoff_ms {
            proof {
                lemma_delay_reaches_cap(k as nat, n, d as int, max_backoff_ms);
            }
            return max_backoff_ms;
        }
    }
    d
}

/// Whether a successful worker is followed by a continuation run: every protocol but
/// `oneshot` continues.
pub open spec fn continues_after_success(settings: Settings) -> bool {
    settings.codex.protocol@ != "oneshot"@
}

/// Decides whether a successful worker is followed by a continuation run.
pub fn should_schedule_success_continuation(settings: &Settings) -> (r: bool)
    ensures
        r == continues_after_success(*settings),
{
    !str_eq(settings.codex.protocol.as_str(), "oneshot")
}

/// The entry recorded when a worker stops to wait for operator input.
pub open spec fn is_blocked_entry(e: BlockedEntry, issue: Issue, track: WorkerTrack, blocked_at: String) -> bool {
    &&& e.issue_id == issue.id
    &&& e.identifier == issue.identifier
    &&& e.issue == issue
    &&& e.session_id == track.final_session_id
    &&& e.error@ == "Operator manual input required"@
    &&& e.blocked_at == blocked_at
}

/// The continuation scheduled a second after a successful run.
pub open spec fn continuation_entry(issue: Issue, now_ms: u64) -> RetryEntry {
    RetryEntry {
        issue_id: issue.id,
        identifier: issue.identifier,
        attempt: 0,
        due_at_ms: (now_ms + 1000) as u64,
        error: None,
    }
}

/// The retry scheduled after a failed run of attempt `attempt`.
pub open spec fn failure_entry(issue: Issue, attempt: usize, e: String, now_ms: u64, max_backoff_ms: u64) -> RetryEntry {
    RetryEntry {
        issue_id: issue.id,
        identifier: issue.identifier,
        attempt: (attempt + 1) as usize,
        due_at_ms: (now_ms + retry_delay((attempt + 1) as nat, max_backoff_ms)) as u64,
        error: Some(e),
    }
}

/// The finish of a worker can be recorded without overflow: token totals stay in range,
/// the next attempt number fits, and the retry time fits.
pub open spec fn finish_defined(st: OrchestratorState, attempt: usize, result: Result<(), String>, track: WorkerTrack, settings: Settings, now_ms: u64) -> bool {
    &&& i64::MIN <= st.codex_totals.input_tokens + track.final_tokens.input_tokens <= i64::MAX
    &&& i64::MIN <= st.codex_totals.output_tokens + track.final_tokens.output_tokens <= i64::MAX
    &&& i64::MIN <= st.codex_totals.total_tokens + track.final_tokens.total_tokens <= i64::MAX
    &&& match result {
        Ok(()) => now_ms + 1000 <= u64::MAX,
        Err(e) => input_required(result) || (attempt < usize::MAX && now_ms + retry_delay(
            (attempt + 1) as nat,
            settings.agent.max_retry_backoff_ms,
        ) <= u64::MAX),
    }
}

impl OrchestratorState {
    /// Decides `finish_defined`: whether the end of this worker can be recorded without
    /// overflow.
    pub fn finish_is_defined(
        &self,
        attempt: usize,
        result: &Result<(), String>,
        track: &WorkerTrack,
        settings: &Settings,
        now_ms: u64,
    ) -> (r: bool)
        ensures
            r == finish_defined(*self, attempt, *result, *track, *settings, now_ms),
    {
        if self.codex_totals.input_tokens.checked_add(track.final_tokens.input_tokens).is_none() {
            return false;
        }
        if self.codex_totals.output_tokens.checked_add(track.final_tokens.output_tokens).is_none() {
            return false;
        }
        if self.codex_totals.total_tokens.checked_add(track.final_tokens.total_tokens).is_none() {
            return false;
        }
        match result {
            Ok(()) => now_ms.checked_add(1000).is_some(),
            Err(e) => {
                if str_eq(e.as_str(), "turn_input_required") {
                    true
                } else if attempt == usize::MAX {
                    false
                } else {
                    let delay = retry_delay_ms(attempt + 1, settings.agent.max_retry_backoff_ms);
                    now_ms.checked_add(delay).is_some()
                }
            },
        }
    }

    /// Records the end of a worker for `issue`. The entry leaves `running` and its token
    /// counts are added to the totals. A worker that asked for input moves the issue to
    /// `blocked` and keeps the claim; otherwise the claim is released, and a success marks
    /// the issue completed (and schedules a continuation unless the protocol is `oneshot`)
    /// while a failure un-completes it and schedules a retry with exponential backoff.
    pub fn finish_worker(
        &mut self,
        issue: Issue,
        attempt: usize,
        result: Result<(), String>,
        track: WorkerTrack,
        settings: &Settings,
        now_ms: u64,
        now_rfc3339: String,
    )
        requires
            old(self).wf(),
            finish_defined(*old(self), attempt, result, track, *settings, now_ms),
        ensures
            final(self).wf(),
            final(self).running_map() == old(self).running_map().remove(issue.id@),
            final(self).codex_totals.input_tokens == old(self).codex_totals.input_tokens
                + track.final_tokens.input_tokens,
            final(self).codex_totals.output_tokens == old(self).codex_totals.output_tokens
                + track.final_tokens.output_tokens,
            final(self).codex_totals.total_tokens == old(self).codex_totals.total_tokens
                + track.final_tokens.total_tokens,
            input_required(result) ==> {
                &&& final(self).blocked_map() == old(self).blocked_map().insert(
                    issue.id@,
                    final(self).blocked_map()[issue.id@],
                )
                &&& is_blocked_entry(final(self).blocked_map()[issue.id@], issue, track, now_rfc3339)
                &&& final(self).claimed == old(self).claimed
                &&& final(self).completed == old(self).completed
                &&& final(self).retry_attempts == old(self).retry_attempts
            },
            !input_required(result) ==> {
                &&& final(self).blocked == old(self).blocked
                &&& final(self).claimed_set() == old(self).claimed_set().remove(issue.id@)
            },
            result is Ok ==> {
                &&& final(self).completed_set() == old(self).completed_set().insert(issue.id@)
                &&& final(self).retry_map() == if continues_after_success(*settings) {
                    old(self).retry_map().insert(issue.id@, continuation_entry(issue, now_ms))
                } else {
                    old(self).retry_map()
                }
            },
            (result is Err && !input_required(result)) ==> {
                &&& final(self).completed_set() == old(self).completed_set().remove(issue.id@)
                &&& final(self).retry_map() == old(self).retry_map().insert(
                    issue.id@,
                    failure_entry(
                        issue,
                        attempt,
                        result->Err_0,
                        now_ms,
                        settings.agent.max_retry_backoff_ms,
                    ),
                )
            },
            keeps_config(*old(self), *final(self)),
            final(self).running@.len() <= old(self).running@.len(),
            old(self).within_cap() ==> final(self).within_cap(),
            old(self).claims_cover_workers() && old(self).running_map().dom().contains(issue.id@)
                && (input_required(result) || !old(self).blocked_map().dom().contains(issue.id@))
                ==> final(self).claims_cover_workers(),
    {
        let was_blocked = match &result {
            Err(e) => str_eq(e.as_str(), "turn_input_required"),
            Ok(()) => false,
        };
        let _ = remove_key(&mut self.running, issue.id.as_str());
        self.codex_totals.input_tokens = self.codex_totals.input_tokens
            + track.final_tokens.input_tokens;
        self.codex_totals.output_tokens = self.codex_totals.output_tokens
            + track.final_tokens.output_tokens;
        self.codex_totals.total_tokens = self.codex_totals.total_tokens
            + track.final_tokens.total_tokens;
        if was_blocked {
            let entry = BlockedEntry {
                issue_id: issue.id.clone(),
                identifier: issue.identifier.clone(),
                issue,
                session_id: track.final_session_id,
                error: owned("Operator manual input required"),
                blocked_at: now_rfc3339,
            };
            put(&mut self.blocked, entry);
        } else {
            let _ = remove_key(&mut self.claimed, issue.id.as_str());
            match result {
                Ok(()) => {
                    put(&mut self.completed, issue.id.clone());
                    if should_schedule_success_continuation(settings) {
                        let entry = RetryEntry {
                            issue_id: issue.id.clone(),
                            identifier: issue.identifier.clone(),
                            attempt: 0,
                            due_at_ms: now_ms + 1000,
                            error: None,
                        };
                        put(&mut self.retry_attempts, entry);
                    }
                },
                Err(e) => {
                    let next_attempt = attempt + 1;
                    let delay = retry_delay_ms(next_attempt, settings.agent.max_retry_backoff_ms);
                    let _ = remove_key(&mut self.completed, issue.id.as_str());
                    let entry = RetryEntry {
                        issue_id: issue.id.clone(),
                        identifier: issue.identifier.clone(),
                        attempt: next_attempt,
                        due_at_ms: now_ms + delay,
                        error: Some(e),
                    };
                    put(&mut self.retry_attempts, entry);
                },
            }
        }
    }
}

// ---------------------------------------------------------------------------
// Retries
// ---------------------------------------------------------------------------

/// What to do with an issue whose retry came due.
#[derive(Debug, PartialEq, Eq, Structural)]
pub enum RetryStep {
    /// The issue reached a terminal state: archive and remove its workspace.
    CleanupWorkspace,
    /// Dispatch the issue again with this attempt number.
    Redispatch(usize),
    /// Every worker slot is taken: the retry stays scheduled for a later tick.
    Defer,
}

/// Whether the lower-cased state of `issue` is one of the terminal states.
pub open spec fn is_terminal(issue: Issue, settings: Settings) -> bool {
    in_lowered(settings.tracker.terminal_states@, unicode_lowercase(issue.state@))
}

/// Whether the lower-cased state of `issue` is one of the active states.
pub open spec fn is_active(issue: Issue, settings: Settings) -> bool {
    in_lowered(settings.tracker.active_states@, unicode_lowercase(issue.state@))
}

fn terminal_state(issue: &Issue, settings: &Settings) -> (r: bool)
    ensures
        r == is_terminal(*issue, *settings),
{
    let l = to_lowercase(issue.state.as_str());
    contains_lowered(&settings.tracker.terminal_states, l.as_str())
}

fn active_state(issue: &Issue, settings: &Settings) -> (r: bool)
    ensures
        r == is_active(*issue, *settings),
{
    let l = to_lowercase(issue.state.as_str());
    contains_lowered(&settings.tracker.active_states, l.as_str())
}

impl OrchestratorState {
    /// The ids of the retries that are due at `now_ms`.
    pub fn due_retry_ids(&self, now_ms: u64) -> (r: Vec<String>)
        requires
            self.wf(),
        ensures
            unique_keys(r@),
            forall|k: Seq<char>|
                #[trigger] key_set(r@).contains(k) <==> (self.retry_map().dom().contains(k)
                    && now_ms >= self.retry_map()[k].due_at_ms),
    {
        let mut r: Vec<String> = Vec::new();
        let mut i: usize = 0;
        while i < self.retry_attempts.len()
            invariant
                i <= self.retry_attempts@.len(),
                unique_keys(self.retry_attempts@),
                unique_keys(r@),
                forall|k: Seq<char>|
                    #[trigger] has_key(r@, k) <==> exists|j: int|
                        0 <= j < i && #[trigger] self.retry_attempts@[j].key() == k && now_ms
                            >= self.retry_attempts@[j].due_at_ms,
            decreases self.retry_attempts@.len() - i,
        {
            let e = &self.retry_attempts[i];
            if now_ms >= e.due_at_ms {
                let ghost before = r@;
                proof {
                    assert(!has_key(before, e.issue_id@)) by {
                        if has_key(before, e.issue_id@) {
                            let j = choose|j: int|
                                0 <= j < i && #[trigger] self.retry_attempts@[j].key() == e.issue_id@
                                    && now_ms >= self.retry_attempts@[j].due_at_ms;
                            assert(self.retry_attempts@[j].key() == self.retry_attempts@[i as int].key());
                        }
                    }
                }
                r.push(e.issue_id.clone());
                proof {
                    assert forall|a: int, b: int|
                        0 <= a < r@.len() && 0 <= b < r@.len() && a != b implies #[trigger] r@[a].key()
                        != #[trigger] r@[b].key() by {
                        if a < before.len() && b < before.len() {
                            assert(r@[a] == before[a] && r@[b] == before[b]);
                        } else if a < before.len() {
                            assert(r@[a] == before[a]);
                            assert(has_key(before, r@[a].key()));
                        } else if b < before.len() {
                            assert(r@[b] == before[b]);
                            assert(has_key(before, r@[b].key()));
                        }
                    }
                    assert forall|k: Seq<char>|
                        #[trigger] has_key(r@, k) <==> exists|j: int|
                            0 <= j < i + 1 && #[trigger] self.retry_attempts@[j].key() == k && now_ms
                                >= self.retry_attempts@[j].due_at_ms by {
                        if has_key(r@, k) {
                            let a = choose|a: int| 0 <= a < r@.len() && #[trigger] r@[a].key() == k;
                            if a < before.len() {
                                assert(before[a] == r@[a]);
                                assert(has_key(before, k));
                            } else {
                                assert(self.retry_attempts@[i as int].key() == k);
                            }
                        }
                        if exists|j: int|
                            0 <= j < i + 1 && #[trigger] self.retry_attempts@[j].key() == k && now_ms
                                >= self.retry_attempts@[j].due_at_ms {
                            let j = choose|j: int|
                                0 <= j < i + 1 && #[trigger] self.retry_attempts@[j].key() == k
                                    && now_ms >= self.retry_attempts@[j].due_at_ms;
                            if j < i {
                                assert(has_key(before, k));
                                let a = choose|a: int| 0 <= a < before.len() && #[trigger] before[a].key() == k;
                                assert(r@[a] == before[a]);
                            } else {
                                assert(r@[before.len() as int].key() == k);
                            }
                        }
                    }
                }
            } else {
                proof {
                    assert forall|k: Seq<char>|
                        #[trigger] has_key(r@, k) <==> exists|j: int|
                            0 <= j < i + 1 && #[trigger] self.retry_attempts@[j].key() == k && now_ms
                                >= self.retry_attempts@[j].due_at_ms by {
                        if exists|j: int|
                            0 <= j < i + 1 && #[trigger] self.retry_attempts@[j].key() == k && now_ms
                                >= self.retry_attempts@[j].due_at_ms {
                            let j = choose|j: int|
                                0 <= j < i + 1 && #[trigger] self.retry_attempts@[j].key() == k
                                    && now_ms >= self.retry_attempts@[j].due_at_ms;
                            assert(j != i);
                        }
                    }
                }
            }
            i += 1;
        }
        proof {
            assert forall|k: Seq<char>|
                #[trigger] key_set(r@).contains(k) <==> (self.retry_map().dom().contains(k) && now_ms
                    >= self.retry_map()[k].due_at_ms) by {
                if self.retry_map().dom().contains(k) {
                    let j = choose|j: int|
                        0 <= j < self.retry_attempts@.len() && #[trigger] self.retry_attempts@[j].key()
                            == k;
                    crate::keyed::lemma_entry_at(self.retry_attempts@, j);
                }
                if has_key(r@, k) {
                    let j = choose|j: int|
                        0 <= j < i && #[trigger] self.retry_attempts@[j].key() == k && now_ms
                            >= self.retry_attempts@[j].due_at_ms;
                    crate::keyed::lemma_entry_at(self.retry_attempts@, j);
                }
            }
        }
        r
    }

    /// Settles the due retry of `issue`. A terminal issue leaves the schedule, is marked
    /// completed and its workspace is to be cleaned up. Any other issue is to be dispatched
    /// again with the attempt number of the retry (0 when there was none), and leaves the
    /// schedule, when a worker slot is free; when none is, its retry stays as it was.
    pub fn settle_retry(&mut self, issue: &Issue, settings: &Settings) -> (r: RetryStep)
        requires
            old(self).wf(),
        ensures
            final(self).wf(),
            is_terminal(*issue, *settings) ==> r == RetryStep::CleanupWorkspace
                && final(self).retry_map() == old(self).retry_map().remove(issue.id@)
                && final(self).completed_set() == old(self).completed_set().insert(issue.id@),
            !is_terminal(*issue, *settings) && old(self).running@.len()
                < old(self).max_concurrent_agents ==> r == RetryStep::Redispatch(
                if old(self).retry_map().dom().contains(issue.id@) {
                    old(self).retry_map()[issue.id@].attempt
                } else {
                    0
                },
            ) && final(self).retry_map() == old(self).retry_map().remove(issue.id@)
                && final(self).completed == old(self).completed,
            !is_terminal(*issue, *settings) && old(self).running@.len()
                >= old(self).max_concurrent_agents ==> r == RetryStep::Defer
                && final(self).retry_attempts == old(self).retry_attempts
                && final(self).completed == old(self).completed,
            final(self).running == old(self).running,
            final(self).claimed == old(self).claimed,
            final(self).blocked == old(self).blocked,
            final(self).codex_totals == old(self).codex_totals,
            keeps_config(*old(self), *final(self)),
            old(self).within_cap() ==> final(self).within_cap(),
            old(self).claims_cover_workers() ==> final(self).claims_cover_workers(),
    {
        if terminal_state(issue, settings) {
            let _ = remove_key(&mut self.retry_attempts, issue.id.as_str());
            put(&mut self.completed, issue.id.clone());
            RetryStep::CleanupWorkspace
        } else if !self.has_free_slot() {
            RetryStep::Defer
        } else {
            let attempt = match remove_key(&mut self.retry_attempts, issue.id.as_str()) {
                Some(e) => e.attempt,
                None => 0,
            };
            RetryStep::Redispatch(attempt)
        }
    }
}

// ---------------------------------------------------------------------------
// Reconciliation
// ---------------------------------------------------------------------------

/// What reconciliation does with a tracked issue given its refreshed state.
#[derive(Debug, PartialEq, Eq, Structural)]
pub enum ReconcileStep {
    /// Terminal state: stop tracking the issue, release it, and clean up its workspace.
    TerminateAndCleanup,
    /// No longer active or no longer assigned: stop tracking and release it.
    Terminate,
    /// Still active: keep it and refresh its cached snapshot.
    Refresh,
}

/// The reconciliation decision for a refreshed issue.
pub open spec fn reconcile_step_for(issue: Issue, settings: Settings) -> ReconcileStep {
    if is_terminal(issue, settings) {
        ReconcileStep::TerminateAndCleanup
    } else if !is_active(issue, settings) || !issue.assigned_to_worker {
        ReconcileStep::Terminate
    } else {
        ReconcileStep::Refresh
    }
}

impl OrchestratorState {
    /// Reconciles a running worker with the refreshed state of its issue.
    pub fn reconcile_running_issue(&mut self, issue: Issue, settings: &Settings) -> (r: ReconcileStep)
        requires
            old(self).wf(),
        ensures
            final(self).wf(),
            r == reconcile_step_for(issue, *settings),
            r != ReconcileStep::Refresh ==> final(self).running_map() == old(
                self,
            ).running_map().remove(issue.id@) && final(self).claimed_set() == old(
                self,
            ).claimed_set().remove(issue.id@),
            r == ReconcileStep::Refresh ==> final(self).claimed == old(self).claimed && if old(
                self,
            ).running_map().dom().contains(issue.id@) {
                final(self).running_map() == old(self).running_map().insert(
                    issue.id@,
                    RunningEntry { issue: issue, ..old(self).running_map()[issue.id@] },
                )
            } else {
                final(self).running_map() == old(self).running_map()
            },
            final(self).completed == old(self).completed,
            final(self).blocked == old(self).blocked,
            final(self).retry_attempts == old(self).retry_attempts,
            final(self).codex_totals == old(self).codex_totals,
            keeps_config(*old(self), *final(self)),
            final(self).running@.len() <= old(self).running@.len(),
            old(self).within_cap() ==> final(self).within_cap(),
            old(self).claims_cover_workers() && (r == ReconcileStep::Refresh || !old(
                self,
            ).blocked_map().dom().contains(issue.id@)) ==> final(self).claims_cover_workers(),
    {
        if terminal_state(&issue, settings) {
            let _ = remove_key(&mut self.running, issue.id.as_str());
            let _ = remove_key(&mut self.claimed, issue.id.as_str());
            ReconcileStep::TerminateAndCleanup
        } else if !active_state(&issue, settings) || !issue.assigned_to_worker {
            let _ = remove_key(&mut self.running, issue.id.as_str());
            let _ = remove_key(&mut self.claimed, issue.id.as_str());
            ReconcileStep::Terminate
        } else {
            if find_key(&self.running, issue.id.as_str()).is_some() {
                if let Some(mut entry) = remove_key(&mut self.running, issue.id.as_str()) {
                    entry.issue = issue;
                    put(&mut self.running, entry);
                }
            }
            ReconcileStep::Refresh
        }
    }

    /// Reconciles a blocked issue with its refreshed state.
    pub fn reconcile_blocked_issue(&mut self, issue: Issue, settings: &Settings) -> (r: ReconcileStep)
        requires
            old(self).wf(),
        ensures
            final(self).wf(),
            r == reconcile_step_for(issue, *settings),
            r != ReconcileStep::Refresh ==> final(self).blocked_map() == old(
                self,
            ).blocked_map().remove(issue.id@) && final(self).claimed_set() == old(
                self,
            ).claimed_set().remove(issue.id@),
            r == ReconcileStep::Refresh ==> final(self).claimed == old(self).claimed && if old(
                self,
            ).blocked_map().dom().contains(issue.id@) {
                final(self).blocked_map() == old(self).blocked_map().insert(
                    issue.id@,
                    BlockedEntry { issue: issue, ..old(self).blocked_map()[issue.id@] },
                )
            } else {
                final(self).blocked_map() == old(self).blocked_map()
            },
            final(self).completed == old(self).completed,
            final(self).running == old(self).running,
            final(self).retry_attempts == old(self).retry_attempts,
            final(self).codex_totals == old(self).codex_totals,
            keeps_config(*old(self), *final(self)),
            old(self).within_cap() ==> final(self).within_cap(),
            old(self).claims_cover_workers() && (r == ReconcileStep::Refresh || !old(
                self,
            ).running_map().dom().contains(issue.id@)) ==> final(self).claims_cover_workers(),
    {
        if terminal_state(&issue, settings) {
            let _ = remove_key(&mut self.blocked, issue.id.as_str());
            let _ = remove_key(&mut self.claimed, issue.id.as_str());
            ReconcileStep::TerminateAndCleanup
        } else if !active_state(&issue, settings) || !issue.assigned_to_worker {
            let _ = remove_key(&mut self.blocked, issue.id.as_str());
            let _ = remove_key(&mut self.claimed, issue.id.as_str());
            ReconcileStep::Terminate
        } else {
            if find_key(&self.blocked, issue.id.as_str()).is_some() {
                if let Some(mut entry) = remove_key(&mut self.blocked, issue.id.as_str()) {
                    entry.issue = issue;
                    put(&mut self.blocked, entry);
                }
            }
            ReconcileStep::Refresh
        }
    }

    /// An operator releases a blocked issue: it leaves `blocked` and its claim is dropped.
    /// Fails when the issue is not blocked.
    pub fn unblock_issue(&mut self, issue_id: &str) -> (r: Result<(), String>)
        requires
            old(self).wf(),
        ensures
            final(self).wf(),
            r is Ok <==> old(self).blocked_map().dom().contains(issue_id@),
            r is Ok ==> final(self).blocked_map() == old(self).blocked_map().remove(issue_id@)
                && final(self).claimed_set() == old(self).claimed_set().remove(issue_id@),
            r matches Err(e) ==> e@ == "Issue is not currently in a blocked state"@
                && final(self).blocked@ == old(self).blocked@ && final(self).claimed
                == old(self).claimed,
            final(self).running == old(self).running,
            final(self).completed == old(self).completed,
            final(self).retry_attempts == old(self).retry_attempts,
            final(self).codex_totals == old(self).codex_totals,
            keeps_config(*old(self), *final(self)),
            old(self).within_cap() ==> final(self).within_cap(),
            old(self).claims_cover_workers() && !old(self).running_map().dom().contains(issue_id@)
                ==> final(self).claims_cover_workers(),
    {
        if remove_key(&mut self.blocked, issue_id).is_some() {
            let _ = remove_key(&mut self.claimed, issue_id);
            Ok(())
        } else {
            Err(owned("Issue is not currently in a blocked state"))
        }
    }

    /// Adopts a freshly loaded workflow: its polling interval and agent cap, and no error.
    pub fn apply_reloaded_settings(&mut self, settings: &Settings)
        ensures
            final(self).poll_interval_ms == settings.polling.interval_ms,
            final(self).max_concurrent_agents == settings.agent.max_concurrent_agents,
            final(self).last_error is None,
            final(self).running == old(self).running,
            final(self).completed == old(self).completed,
            final(self).claimed == old(self).claimed,
            final(self).blocked == old(self).blocked,
            final(self).retry_attempts == old(self).retry_attempts,
            final(self).backlog == old(self).backlog,
            final(self).codex_totals == old(self).codex_totals,
    {
        self.poll_interval_ms = settings.polling.interval_ms;
        self.max_concurrent_agents = settings.agent.max_concurrent_agents;
        self.last_error = None;
    }
}

// ---------------------------------------------------------------------------
// Dispatch order
// ---------------------------------------------------------------------------

/// Rank used to order dispatch candidates: standard priorities 1..=4 keep their value,
/// anything else (missing or out of range) sorts last.
pub open spec fn rank_of(priority: Option<i64>) -> i64 {
    match priority {
        Some(p) => if 1 <= p <= 4 {
            p
        } else {
            5
        },
        None => 5,
    }
}

/// Normalizes a priority onto the 1..4 scale, with 5 for anything else.
pub fn priority_rank(priority: Option<i64>) -> (rank: i64)
    ensures
        rank == rank_of(priority),
{
    match priority {
        Some(p) => if 1 <= p && p <= 4 {
            p
        } else {
            5
        },
        None => 5,
    }
}

/// Lexicographic order on texts by code point (the order of `String` comparison, which
/// compares UTF-8 bytes, and UTF-8 keeps code point order).
pub open spec fn text_lt(a: Seq<char>, b: Seq<char>) -> bool
    decreases a.len(),
{
    if a.len() == 0 {
        b.len() > 0
    } else if b.len() == 0 {
        false
    } else if a[0] != b[0] {
        (a[0] as u32) < (b[0] as u32)
    } else {
        text_lt(a.drop_first(), b.drop_first())
    }
}

/// The order of `Option<String>`: `None` first, then by text.
pub open spec fn opt_text_lt(a: Option<Seq<char>>, b: Option<Seq<char>>) -> bool {
    match (a, b) {
        (None, Some(_)) => true,
        (Some(x), Some(y)) => text_lt(x, y),
        _ => false,
    }
}

/// Whether `a` goes strictly after `b` in dispatch order: a worse priority rank, or the
/// same rank and a later creation time.
pub open spec fn sorts_after(a: Issue, b: Issue) -> bool {
    let ra = rank_of(a.priority);
    let rb = rank_of(b.priority);
    ra > rb || (ra == rb && opt_text_lt(opt_view(b.created_at), opt_view(a.created_at)))
}

/// Where `x` goes in the sorted `s`: before the first item that sorts after it.
pub open spec fn insert_position(s: Seq<Issue>, x: Issue) -> int
    decreases s.len(),
{
    if s.len() == 0 {
        0
    } else if sorts_after(s[0], x) {
        0
    } else {
        1 + insert_position(s.drop_first(), x)
    }
}

/// The stable sort of `s` into dispatch order (what a stable `sort_by` on rank, then
/// creation time, yields).
pub open spec fn dispatch_sorted(s: Seq<Issue>) -> Seq<Issue>
    decreases s.len(),
{
    if s.len() == 0 {
        seq![]
    } else {
        let prev = dispatch_sorted(s.drop_last());
        prev.insert(insert_position(prev, s.last()), s.last())
    }
}

/// Decides `text_lt`.
pub(crate) fn text_less(a: &str, b: &str) -> (r: bool)
    ensures
        r == text_lt(a@, b@),
{
    let x = crate::text::chars_of(a);
    let y = crate::text::chars_of(b);
    let mut i: usize = 0;
    proof {
        assert(x@.skip(0) =~= x@);
        assert(y@.skip(0) =~= y@);
    }
    loop
        invariant
            i <= x@.len(),
            i <= y@.len(),
            text_lt(a@, b@) == text_lt(x@.skip(i as int), y@.skip(i as int)),
            x@ == a@,
            y@ == b@,
        decreases x@.len() - i,
    {
        if i == x.len() {
            return i < y.len();
        }
        if i == y.len() {
            return false;
        }
        let c = x[i];
        let d = y[i];
        proof {
            assert(x@.skip(i as int)[0] == c);
            assert(y@.skip(i as int)[0] == d);
        }
        if c != d {
            return (c as u32) < (d as u32);
        }
        proof {
            assert(x@.skip(i as int).drop_first() =~= x@.skip(i + 1));
            assert(y@.skip(i as int).drop_first() =~= y@.skip(i + 1));
        }
        i += 1;
    }
}

fn after(a: &Issue, b: &Issue) -> (r: bool)
    ensures
        r == sorts_after(*a, *b),
{
    let ra = priority_rank(a.priority);
    let rb = priority_rank(b.priority);
    if ra != rb {
        return ra > rb;
    }
    match (&b.created_at, &a.created_at) {
        (None, Some(_)) => true,
        (Some(x), Some(y)) => text_less(x.as_str(), y.as_str()),
        _ => false,
    }
}

fn position_for(s: &Vec<Issue>, x: &Issue) -> (r: usize)
    ensures
        r == insert_position(s@, *x),
        r <= s@.len(),
{
    let mut i: usize = 0;
    proof {
        assert(s@.skip(0) =~= s@);
    }
    while i < s.len()
        invariant
            i <= s@.len(),
            insert_position(s@, *x) == i + insert_position(s@.skip(i as int), *x),
        decreases s@.len() - i,
    {
        proof {
            assert(s@.skip(i as int)[0] == s@[i as int]);
            assert(s@.skip(i as int).drop_first() =~= s@.skip(i + 1));
        }
        if after(&s[i], x) {
            return i;
        }
        i += 1;
    }
    i
}

/// Orders dispatch candidates: priority rank first (1..4, then everything else), oldest
/// creation time first within a rank, ties kept in their given order.
pub fn dispatch_order(candidates: Vec<Issue>) -> (r: Vec<Issue>)
    ensures
        r@ == dispatch_sorted(candidates@),
        r@.to_multiset() == candidates@.to_multiset(),
        forall|i: int, j: int|
            0 <= i < j < r@.len() ==> !sorts_after(#[trigger] r@[i], #[trigger] r@[j]),
{
    let ghost orig = candidates@;
    let mut rest = candidates;
    let mut out: Vec<Issue> = Vec::new();
    let mut i: usize = 0;
    let n = rest.len();
    proof {
        assert(orig.take(0) =~= Seq::<Issue>::empty());
        assert(orig.skip(0) =~= orig);
    }
    while i < n
        invariant
            n == orig.len(),
            i <= n,
            rest@ == orig.skip(i as int),
            out@ == dispatch_sorted(orig.take(i as int)),
        decreases n - i,
    {
        let x = rest.remove(0);
        proof {
            assert(x == orig[i as int]);
            assert(orig.skip(i as int).remove(0) =~= orig.skip(i + 1));
            let t = orig.take(i + 1);
            assert(t.drop_last() =~= orig.take(i as int));
            assert(t.last() == x);
        }
        let pos = position_for(&out, &x);
        out.insert(pos, x);
        i += 1;
    }
    proof {
        assert(orig.take(n as int) =~= orig);
        crate::laws::lemma_dispatch_sorted_orders(orig);
    }
    out
}

// ---------------------------------------------------------------------------
// Session history files
// ---------------------------------------------------------------------------

/// The name of the history file of a worker run: `<issue id>-attempt-<n>.jsonl`.
pub fn history_file_name(issue_id: &str, attempt: usize) -> (r: String)
    ensures
        r@ == issue_id@ + "-attempt-"@ + decimal(attempt as int) + ".jsonl"@,
{
    let n = u64_to_decimal(attempt as u64);
    let mut r = concat3(issue_id, "-attempt-", n.as_str());
    r.append(".jsonl");
    r
}

/// Where finished sessions are archived: `.skrvm/archive` under the home directory, or
/// `skrvm_archive` under the temporary directory when no home directory is known.
pub fn archive_dir_for(home: &Option<String>, temp_dir: &str) -> (r: String)
    ensures
        r@ == match home {
            Some(h) => path_join(path_join(h@, ".skrvm"@), "archive"@),
            None => path_join(temp_dir@, "skrvm_archive"@),
        },
{
    match home {
        Some(h) => {
            let d = join_path(h.as_str(), ".skrvm");
            join_path(d.as_str(), "archive")
        },
        None => join_path(temp_dir, "skrvm_archive"),
    }
}

} // verus!
