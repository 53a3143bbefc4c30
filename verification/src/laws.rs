use vstd::prelude::*;

use vstd::arithmetic::power2::{lemma_pow2_strictly_increases, pow2};

use crate::agent_runner::{
    agent_message_for, approval_decision_for, turn_step_spec, AgentMessage, TurnCommand, TurnEvent,
    TurnState,
};
use crate::orchestrator::{
    blockers_clear, cap_for, count_in_state, dispatch_sorted, dispatchable, insert_position,
    is_active, is_terminal, opt_text_lt, rank_of, reconcile_step_for, retry_delay, sorts_after,
    text_lt, OrchestratorState, ReconcileStep, RunningEntry,
};
use crate::commands::{
    first_per_session, newest_first, newest_first_position, remote_slug, remote_tracker,
    SessionHistoryEntry,
};
use crate::config::{expanded_path, finalized_root, path_join, resolved_ref, validation_error, Settings};
use crate::keyed::{has_key, unique_keys, Keyed};
use crate::strings::{has_prefix, occurs_at};
use crate::slug::{
    chars_within, slug_scan, lemma_utf8_size_concat, slug_of, trim_end_char, trim_start_char, truncated, utf8_len,
    utf8_size, SLUG_MAX_BYTES,
};
use crate::tracker::{
    demo_state, github_state, hand_out_due, id_rank, jira_priority_rank, label_state, rank_insert_position,
    sorted_by_ids, Issue,
};
use crate::workflow::{
    delimiter_from, front_matter_split, holds_content, is_delimiter, loaded_state, must_read,
    prompt_or_default, seen_state, ReloadTracker,
};
use crate::path_safety::{
    is_safe_key_char, kept_segments, path_components, path_starts_with, same_path,
    sanitized_key, segment_scan, segments,
};
use crate::text::{ascii_lower, unicode_alphanumeric, is_ws, join, lines_of, newline_from, strip_cr, trim_end_ws, trim_start_ws, trim_ws, unicode_lowercase};

verus! {

broadcast use vstd::string::group_string_axioms;

// ---------------------------------------------------------------------------
// Dispatch eligibility
// ---------------------------------------------------------------------------

/// An issue that is already claimed, running, blocked or completed is never dispatched
/// again.
pub proof fn lemma_taken_issue_not_dispatchable(
    st: OrchestratorState,
    issue: Issue,
    settings: Settings,
)
    requires
        st.claimed_set().contains(issue.id@) || st.running_map().dom().contains(issue.id@)
            || st.blocked_map().dom().contains(issue.id@) || st.completed_set().contains(
            issue.id@,
        ),
    ensures
        !dispatchable(st, issue, settings),
{
}

/// An issue in `Todo` with a blocker whose state is not terminal is not dispatched.
pub proof fn lemma_open_blocker_holds_todo_issue(
    st: OrchestratorState,
    issue: Issue,
    settings: Settings,
    k: int,
)
    requires
        unicode_lowercase(issue.state@) == "todo"@,
        0 <= k < issue.blocked_by@.len(),
        issue.blocked_by@[k].state matches Some(s) && !crate::orchestrator::in_lowered(
            settings.tracker.terminal_states@,
            unicode_lowercase(s@),
        ),
    ensures
        !dispatchable(st, issue, settings),
{
    assert(!blockers_clear(issue.blocked_by@, settings.tracker.terminal_states@));
}

/// Starting a worker on a dispatchable issue never takes its state over that state's
/// cap: with the new entry added, the running workers in the issue's state are at most
/// the cap.
pub proof fn lemma_dispatch_respects_state_cap(
    st: OrchestratorState,
    entry: RunningEntry,
    settings: Settings,
)
    requires
        dispatchable(st, entry.issue, settings),
    ensures
        count_in_state(st.running@.push(entry), unicode_lowercase(entry.issue.state@))
            <= cap_for(settings.agent, unicode_lowercase(entry.issue.state@)),
{
    let rs = st.running@;
    assert(rs.push(entry).drop_last() =~= rs);
}

// ---------------------------------------------------------------------------
// Retry backoff
// ---------------------------------------------------------------------------

/// The backoff before a retry never exceeds the configured cap, and the first retry
/// waits 10 s (or the cap, when it is smaller).
pub proof fn lemma_retry_delay_capped(next_attempt: nat, max_backoff_ms: u64)
    requires
        next_attempt >= 1,
    ensures
        retry_delay(next_attempt, max_backoff_ms) <= max_backoff_ms,
        retry_delay(1, max_backoff_ms) == if 10000 < max_backoff_ms {
            10000
        } else {
            max_backoff_ms
        },
{
    assert(pow2(0) == 1) by {
        vstd::arithmetic::power2::lemma2_to64();
    }
    let d = 10000 * pow2((next_attempt - 1) as nat);
    if d < max_backoff_ms {
        assert(d <= max_backoff_ms);
    }
}

/// Later retries never wait less than earlier ones.
pub proof fn lemma_retry_delay_monotone(a: nat, b: nat, max_backoff_ms: u64)
    requires
        1 <= a <= b,
    ensures
        retry_delay(a, max_backoff_ms) <= retry_delay(b, max_backoff_ms),
{
    if a < b {
        lemma_pow2_strictly_increases((a - 1) as nat, (b - 1) as nat);
    }
    let da = 10000 * pow2((a - 1) as nat);
    let db = 10000 * pow2((b - 1) as nat);
    assert(da <= db);
}

// ---------------------------------------------------------------------------
// Dispatch order
// ---------------------------------------------------------------------------

/// No item of `s` sorts after an item that comes later.
pub open spec fn in_dispatch_order(s: Seq<Issue>) -> bool {
    forall|i: int, j: int| 0 <= i < j < s.len() ==> !sorts_after(#[trigger] s[i], #[trigger] s[j])
}

proof fn lemma_text_lt_irreflexive(a: Seq<char>)
    ensures
        !text_lt(a, a),
    decreases a.len(),
{
    if a.len() > 0 {
        lemma_text_lt_irreflexive(a.drop_first());
    }
}

proof fn lemma_text_lt_transitive(a: Seq<char>, b: Seq<char>, c: Seq<char>)
    requires
        text_lt(a, b),
        text_lt(b, c),
    ensures
        text_lt(a, c),
    decreases a.len(),
{
    if a.len() > 0 && b.len() > 0 && c.len() > 0 && a[0] == b[0] && b[0] == c[0] {
        lemma_text_lt_transitive(a.drop_first(), b.drop_first(), c.drop_first());
    }
}

proof fn lemma_opt_text_lt_transitive(a: Option<Seq<char>>, b: Option<Seq<char>>, c: Option<Seq<char>>)
    requires
        opt_text_lt(a, b),
        opt_text_lt(b, c),
    ensures
        opt_text_lt(a, c),
{
    if a is Some {
        lemma_text_lt_transitive(a->0, b->0, c->0);
    }
}

proof fn lemma_sorts_after_irreflexive(a: Issue)
    ensures
        !sorts_after(a, a),
{
    if let Some(t) = crate::strings::opt_view(a.created_at) {
        lemma_text_lt_irreflexive(t);
    }
}

proof fn lemma_sorts_after_transitive(a: Issue, b: Issue, c: Issue)
    requires
        sorts_after(a, b),
        sorts_after(b, c),
    ensures
        sorts_after(a, c),
{
    let ra = rank_of(a.priority);
    let rb = rank_of(b.priority);
    let rc = rank_of(c.priority);
    if ra == rb && rb == rc {
        lemma_opt_text_lt_transitive(
            crate::strings::opt_view(c.created_at),
            crate::strings::opt_view(b.created_at),
            crate::strings::opt_view(a.created_at),
        );
    }
}

proof fn lemma_insert_position(s: Seq<Issue>, x: Issue)
    ensures
        0 <= insert_position(s, x) <= s.len(),
        forall|k: int| 0 <= k < insert_position(s, x) ==> !sorts_after(#[trigger] s[k], x),
        insert_position(s, x) < s.len() ==> sorts_after(s[insert_position(s, x)], x),
    decreases s.len(),
{
    if s.len() > 0 && !sorts_after(s[0], x) {
        let t = s.drop_first();
        lemma_insert_position(t, x);
        assert forall|k: int| 0 <= k < insert_position(s, x) implies !sorts_after(
            #[trigger] s[k],
            x,
        ) by {
            if k > 0 {
                assert(s[k] == t[k - 1]);
            }
        }
        if insert_position(s, x) < s.len() {
            assert(s[insert_position(s, x)] == t[insert_position(t, x)]);
        }
    }
}

proof fn lemma_insert_keeps_order(s: Seq<Issue>, x: Issue)
    requires
        in_dispatch_order(s),
    ensures
        in_dispatch_order(s.insert(insert_position(s, x), x)),
{
    let p = insert_position(s, x);
    lemma_insert_position(s, x);
    let t = s.insert(p, x);
    assert forall|i: int, j: int| 0 <= i < j < t.len() implies !sorts_after(
        #[trigger] t[i],
        #[trigger] t[j],
    ) by {
        if j < p {
            assert(t[i] == s[i] && t[j] == s[j]);
        } else if j == p {
            assert(t[i] == s[i] && t[j] == x);
        } else if i < p {
            assert(t[i] == s[i] && t[j] == s[j - 1]);
        } else if i == p {
            assert(t[i] == x && t[j] == s[j - 1]);
            if sorts_after(x, s[j - 1]) {
                lemma_sorts_after_transitive(s[p], x, s[j - 1]);
                if p == j - 1 {
                    lemma_sorts_after_irreflexive(s[p]);
                }
            }
        } else {
            assert(t[i] == s[i - 1] && t[j] == s[j - 1]);
        }
    }
}

/// Candidates already in dispatch order keep their order exactly, so issues that tie on
/// rank and creation time stay as they were given.
pub proof fn lemma_dispatch_sorted_keeps_ordered_input(s: Seq<Issue>)
    requires
        in_dispatch_order(s),
    ensures
        dispatch_sorted(s) == s,
    decreases s.len(),
{
    if s.len() > 0 {
        let p = s.drop_last();
        assert(in_dispatch_order(p)) by {
            assert forall|i: int, j: int| 0 <= i < j < p.len() implies !sorts_after(
                #[trigger] p[i],
                #[trigger] p[j],
            ) by {
                assert(p[i] == s[i] && p[j] == s[j]);
            }
        }
        lemma_dispatch_sorted_keeps_ordered_input(p);
        lemma_insert_position(p, s.last());
        if insert_position(p, s.last()) < p.len() {
            let k = insert_position(p, s.last());
            assert(p[k] == s[k]);
            assert(!sorts_after(s[k], s[s.len() - 1]));
        }
        assert(p.insert(p.len() as int, s.last()) =~= s);
    }
}

proof fn lemma_text_lt_total(a: Seq<char>, b: Seq<char>)
    requires
        a != b,
    ensures
        text_lt(a, b) || text_lt(b, a),
    decreases a.len(),
{
    if a.len() > 0 && b.len() > 0 && a[0] == b[0] {
        if a.drop_first() == b.drop_first() {
            assert(a =~= seq![a[0]] + a.drop_first());
            assert(b =~= seq![b[0]] + b.drop_first());
        }
        lemma_text_lt_total(a.drop_first(), b.drop_first());
    } else if a.len() > 0 && b.len() > 0 {
        let ca = a[0];
        let cb = b[0];
        if (ca as u32) == (cb as u32) {
            vstd::utf8::char_u32_cast(ca, ca as u32);
            vstd::utf8::char_u32_cast(cb, cb as u32);
        }
    } else if a.len() == 0 && b.len() == 0 {
        assert(a =~= b);
    }
}

/// Whether two issues tie in dispatch order: same priority rank and creation time.
pub open spec fn dispatch_tie(a: Issue, b: Issue) -> bool {
    rank_of(a.priority) == rank_of(b.priority) && crate::strings::opt_view(a.created_at)
        == crate::strings::opt_view(b.created_at)
}

proof fn lemma_not_after_then_after(a: Issue, b: Issue, c: Issue)
    requires
        !sorts_after(a, b),
        sorts_after(a, c),
    ensures
        sorts_after(b, c),
{
    let ra = rank_of(a.priority);
    let rb = rank_of(b.priority);
    let rc = rank_of(c.priority);
    if !(rb > rc) {
        let ca = crate::strings::opt_view(a.created_at);
        let cb = crate::strings::opt_view(b.created_at);
        let cc = crate::strings::opt_view(c.created_at);
        assert(ra == rb && rb == rc);
        assert(opt_text_lt(cc, ca));
        assert(!opt_text_lt(cb, ca));
        if ca != cb {
            if ca is Some && cb is Some {
                lemma_text_lt_total(ca->0, cb->0);
            }
            assert(opt_text_lt(ca, cb));
            lemma_opt_text_lt_transitive(cc, ca, cb);
        }
    }
}

/// Dispatch order is stable: issues that tie on priority rank and creation time come out
/// in the order they were given.
pub proof fn lemma_dispatch_sorted_stable(s: Seq<Issue>, t: Issue)
    ensures
        dispatch_sorted(s).filter(|y: Issue| dispatch_tie(y, t)) == s.filter(
            |y: Issue| dispatch_tie(y, t),
        ),
    decreases s.len(),
{
    let f = |y: Issue| dispatch_tie(y, t);
    reveal(Seq::filter);
    if s.len() == 0 {
        assert(dispatch_sorted(s) =~= s);
    } else {
        let x = s.last();
        let prev = dispatch_sorted(s.drop_last());
        lemma_dispatch_sorted_stable(s.drop_last(), t);
        lemma_dispatch_sorted_orders(s.drop_last());
        lemma_insert_position(prev, x);
        let p = insert_position(prev, x);
        let front = prev.take(p);
        let back = prev.skip(p);
        assert(prev =~= front + back);
        assert(prev.insert(p, x) =~= front + seq![x] + back);
        Seq::filter_distributes_over_add(front, back, f);
        Seq::filter_distributes_over_add(front + seq![x], back, f);
        Seq::filter_distributes_over_add(front, seq![x], f);
        Seq::<Issue>::empty().lemma_filter_push(x, f);
        assert(Seq::<Issue>::empty().push(x) =~= seq![x]);
        s.drop_last().lemma_filter_push(x, f);
        assert(s.drop_last().push(x) =~= s);
        if f(x) {
            assert forall|j: int| 0 <= j < back.len() implies !f(#[trigger] back[j]) by {
                assert(back[j] == prev[p + j]);
                if j > 0 {
                    assert(!sorts_after(prev[p], prev[p + j]));
                    lemma_not_after_then_after(prev[p], prev[p + j], x);
                }
                lemma_sorts_after_irreflexive(x);
            }
            back.lemma_all_neg_filter_empty(f);
            assert(back.filter(f) =~= Seq::<Issue>::empty());
        }
    }
}

/// Dispatch order is a reordering of the candidates (nothing added, nothing lost) in which
/// no issue sorts after a later one, so priority ranks never decrease along it.
pub proof fn lemma_dispatch_sorted_orders(s: Seq<Issue>)
    ensures
        dispatch_sorted(s).to_multiset() == s.to_multiset(),
        dispatch_sorted(s).len() == s.len(),
        in_dispatch_order(dispatch_sorted(s)),
        forall|i: int, j: int|
            0 <= i < j < dispatch_sorted(s).len() ==> rank_of(
                (#[trigger] dispatch_sorted(s)[i]).priority,
            ) <= rank_of((#[trigger] dispatch_sorted(s)[j]).priority),
    decreases s.len(),
{
    broadcast use vstd::seq_lib::group_to_multiset_ensures;

    if s.len() > 0 {
        let prev = dispatch_sorted(s.drop_last());
        lemma_dispatch_sorted_orders(s.drop_last());
        lemma_insert_position(prev, s.last());
        lemma_insert_keeps_order(prev, s.last());
        vstd::seq_lib::to_multiset_insert(prev, insert_position(prev, s.last()), s.last());
        assert(s.drop_last().push(s.last()) =~= s);
    }
    let r = dispatch_sorted(s);
    assert forall|i: int, j: int| 0 <= i < j < r.len() implies rank_of(
        (#[trigger] r[i]).priority,
    ) <= rank_of((#[trigger] r[j]).priority) by {
        assert(!sorts_after(r[i], r[j]));
    }
}

// ---------------------------------------------------------------------------
// Workspace keys and paths
// ---------------------------------------------------------------------------

/// A sanitized workspace key has as many characters as the identifier, keeps every safe
/// character where it stands, holds only safe characters (so never a `/`), and sanitizing
/// it again changes nothing.
pub proof fn lemma_sanitized_key_is_safe(identifier: Seq<char>)
    ensures
        sanitized_key(identifier).len() == identifier.len(),
        forall|i: int| 0 <= i < identifier.len() ==> is_safe_key_char(#[trigger] sanitized_key(identifier)[i]),
        forall|i: int|
            0 <= i < identifier.len() && is_safe_key_char(identifier[i]) ==> #[trigger] sanitized_key(
                identifier,
            )[i] == identifier[i],
        !sanitized_key(identifier).contains('/'),
        sanitized_key(sanitized_key(identifier)) == sanitized_key(identifier),
{
    let k = sanitized_key(identifier);
    assert(sanitized_key(k) =~= k);
}

proof fn lemma_scan_plain_suffix(p: Seq<char>, q: Seq<char>)
    requires
        !q.contains('/'),
    ensures
        segment_scan(p + q) == (segment_scan(p).0, segment_scan(p).1 + q),
    decreases q.len(),
{
    if q.len() == 0 {
        assert(p + q =~= p);
        assert(segment_scan(p).1 + q =~= segment_scan(p).1);
    } else {
        let q0 = q.drop_last();
        assert(!q0.contains('/')) by {
            if q0.contains('/') {
                let i = choose|i: int| 0 <= i < q0.len() && q0[i] == '/';
                assert(q[i] == '/');
            }
        }
        lemma_scan_plain_suffix(p, q0);
        assert((p + q).drop_last() =~= p + q0);
        assert((p + q).last() == q.last());
        assert(q.last() != '/') by {
            assert(q[q.len() - 1] == q.last());
        }
        assert((segment_scan(p).1 + q0).push(q.last()) =~= segment_scan(p).1 + q);
    }
}

/// A workspace directory named by a sanitized key lies strictly inside the root: its path
/// components are the root's followed by exactly the key. This holds for every identifier
/// whose key is not empty, and is not `.` under a non-empty root (a key `..` is such a
/// component too; resolving it is left to `check_workspace_containment` on canonical
/// paths).
pub proof fn lemma_workspace_path_inside_root(root: Seq<char>, identifier: Seq<char>)
    requires
        sanitized_key(identifier).len() > 0,
        root.len() > 0 ==> sanitized_key(identifier) != seq!['.'],
    ensures
        path_components(path_join(root, sanitized_key(identifier))) == path_components(root).push(
            sanitized_key(identifier),
        ),
        path_starts_with(path_join(root, sanitized_key(identifier)), root),
        !same_path(path_join(root, sanitized_key(identifier)), root),
{
    let k = sanitized_key(identifier);
    lemma_sanitized_key_is_safe(identifier);
    assert(k[0] != '/') by {
        assert(is_safe_key_char(k[0]));
    }
    let joined = path_join(root, k);
    if root.len() == 0 {
        assert(joined =~= k);
        lemma_scan_plain_suffix(Seq::<char>::empty(), k);
        assert(Seq::<char>::empty() + k =~= k);
        assert(segment_scan(Seq::<char>::empty()).1 + k =~= k);
        assert(segments(joined) =~= seq![k]);
        assert(segments(root) =~= seq![Seq::<char>::empty()]);
        assert(seq![k].drop_last() =~= Seq::<Seq<char>>::empty());
        assert(seq![Seq::<char>::empty()].drop_last() =~= Seq::<Seq<char>>::empty());
        assert(kept_segments(Seq::<Seq<char>>::empty(), false) =~= Seq::<Seq<char>>::empty());
        assert(kept_segments(segments(root), false) =~= Seq::<Seq<char>>::empty());
        assert(kept_segments(segments(joined), false) =~= seq![k]);
        assert(path_components(root) =~= Seq::<Seq<char>>::empty());
        assert(path_components(joined) =~= seq![k]);
        let a = path_components(joined);
        let b = path_components(root);
        assert(a.take(b.len() as int) =~= b);
        assert(a.len() != b.len());
    } else {
        let absolute = root[0] == '/';
        let x = segment_scan(root);
        if root.last() == '/' {
            assert(joined == root + k);
            lemma_scan_plain_suffix(root, k);
            let r0 = root.drop_last();
            assert(r0.push('/') =~= root);
            assert(x.1 =~= Seq::<char>::empty());
            assert(x.1 + k =~= k);
            assert(segments(joined) =~= x.0.push(k));
            assert(segments(root) =~= x.0.push(x.1));
            assert(segments(joined).drop_last() =~= x.0);
            assert(segments(root).drop_last() =~= x.0);
            assert(kept_segments(segments(root), absolute) == kept_segments(x.0, absolute));
            assert(kept_segments(segments(joined), absolute) == kept_segments(x.0, absolute).push(k));
        } else {
            let rs = root.push('/');
            assert(joined =~= rs + k);
            lemma_scan_plain_suffix(rs, k);
            assert(rs.drop_last() =~= root);
            assert(segment_scan(rs) == (x.0.push(x.1), Seq::<char>::empty()));
            assert(Seq::<char>::empty() + k =~= k);
            assert(segments(joined) =~= segments(root).push(k));
            assert(segments(joined).drop_last() =~= segments(root));
            assert(kept_segments(segments(joined), absolute) == kept_segments(segments(root), absolute).push(k));
        }
        assert(joined[0] == root[0]);
        assert(path_components(joined) =~= path_components(root).push(k));
        let a = path_components(joined);
        let b = path_components(root);
        assert(a.take(b.len() as int) =~= b);
        assert(a.len() != b.len());
    }
}

// ---------------------------------------------------------------------------
// Workflow reloading
// ---------------------------------------------------------------------------

/// A file that was just loaded is not read again until its modification time or size
/// changes, and its content is recognised as already loaded (unless its hash is zero).
pub proof fn lemma_loaded_file_not_reread(mtime: i128, size: u64, hash: u64, mtime2: i128, size2: u64)
    ensures
        !must_read(loaded_state(mtime, size, hash), mtime, size),
        must_read(loaded_state(mtime, size, hash), mtime2, size2) <==> (mtime2 != mtime || size2
            != size),
        hash != 0 ==> holds_content(loaded_state(mtime, size, hash), hash),
{
}

/// Looking at an unchanged file keeps the loaded content and stops further reads of the
/// same time and size.
pub proof fn lemma_seen_file_keeps_content(t: ReloadTracker, mtime: i128, size: u64, hash: u64)
    ensures
        !must_read(seen_state(t, mtime, size), mtime, size),
        holds_content(seen_state(t, mtime, size), hash) == holds_content(t, hash),
{
}

// ---------------------------------------------------------------------------
// The in-memory demo tracker
// ---------------------------------------------------------------------------

/// After the demo issue is handed out at `at_ms`, polls in the next eleven seconds hand
/// out nothing, and later polls hand it out again.
pub proof fn lemma_demo_handed_out_once_per_window(at_ms: u64, now_ms: u64)
    ensures
        hand_out_due(Some(at_ms), now_ms) <==> now_ms - at_ms >= 11000,
{
}

/// The demo issue reads `Todo` for four seconds after it is handed out and `Done` from
/// then on.
pub proof fn lemma_demo_issue_done_after_four_seconds(at_ms: u64, now_ms: u64)
    ensures
        demo_state(Some(at_ms), now_ms) == if now_ms - at_ms >= 4000 {
            "Done"@
        } else {
            "Todo"@
        },
{
}

// ---------------------------------------------------------------------------
// GitHub issue states
// ---------------------------------------------------------------------------

/// A closed GitHub issue is in the first terminal state, whatever its labels.
pub proof fn lemma_closed_github_issue_is_terminal(
    native: Seq<char>,
    labels: Seq<Seq<char>>,
    active: Seq<Seq<char>>,
    terminal: Seq<Seq<char>>,
)
    requires
        unicode_lowercase(native) == "closed"@,
        terminal.len() > 0,
    ensures
        github_state(native, labels, active, terminal) == terminal[0],
{
}

/// On an open GitHub issue a label naming a terminal state wins over labels naming
/// active states; without one, the first label naming an active state decides.
pub proof fn lemma_github_terminal_label_wins(
    native: Seq<char>,
    labels: Seq<Seq<char>>,
    active: Seq<Seq<char>>,
    terminal: Seq<Seq<char>>,
)
    requires
        unicode_lowercase(native) != "closed"@,
    ensures
        label_state(labels, terminal) matches Some(s) ==> github_state(
            native,
            labels,
            active,
            terminal,
        ) == s,
        label_state(labels, terminal) is None ==> (label_state(labels, active) matches Some(s)
            ==> github_state(native, labels, active, terminal) == s),
{
}

// ---------------------------------------------------------------------------
// Configuration
// ---------------------------------------------------------------------------

/// The memory tracker needs no credentials: any configuration that uses it and names an
/// agent command passes validation.
pub proof fn lemma_memory_tracker_config_valid(s: Settings)
    requires
        s.tracker.kind@ == "memory"@,
        s.codex.command@.len() > 0,
    ensures
        validation_error(s) is None,
{
    reveal_strlit("memory");
    reveal_strlit("linear");
    reveal_strlit("jira");
    reveal_strlit("github");
    assert(s.tracker.kind@[0] != "linear"@[0]);
    assert(s.tracker.kind@[0] != "github"@[0]);
    assert(s.tracker.kind@.len() != "jira"@.len());
}

/// The GitHub tracker is a supported kind that needs no settings beyond its kind: any
/// configuration that uses it and names an agent command passes validation.
pub proof fn lemma_github_tracker_config_valid(s: Settings)
    requires
        s.tracker.kind@ == "github"@,
        s.codex.command@.len() > 0,
    ensures
        validation_error(s) is None,
{
    reveal_strlit("memory");
    reveal_strlit("linear");
    reveal_strlit("jira");
    reveal_strlit("github");
    assert(s.tracker.kind@[0] != "linear"@[0]);
    assert(s.tracker.kind@[0] != "memory"@[0]);
    assert(s.tracker.kind@.len() != "jira"@.len());
}

/// With an absolute workflow directory, the finalized workspace root is absolute, whatever
/// the configured root, environment and home directory.
pub proof fn lemma_finalized_root_absolute(
    root: Seq<char>,
    env: Seq<(String, String)>,
    home: Option<Seq<char>>,
    dir: Seq<char>,
)
    requires
        dir.len() > 0 && dir[0] == '/',
    ensures
        finalized_root(root, env, home, dir).len() > 0,
        finalized_root(root, env, home, dir)[0] == '/',
{
    let raw = match resolved_ref(root, env) {
        Some(v) => v,
        None => root,
    };
    let expanded = expanded_path(raw, home);
    if !(expanded.len() > 0 && expanded[0] == '/') {
        let j = path_join(dir, expanded);
        if dir.last() == '/' {
            assert(j == dir + expanded);
            assert(j[0] == dir[0]);
        } else {
            assert(j == dir + seq!['/'] + expanded);
            assert(j[0] == dir[0]);
        }
    }
}

// ---------------------------------------------------------------------------
// Branch slugs
// ---------------------------------------------------------------------------

proof fn lemma_trim_start_char_shape(s: Seq<char>, ch: char)
    ensures
        exists|i: int| 0 <= i <= s.len() && trim_start_char(s, ch) == s.skip(i),
        trim_start_char(s, ch).len() > 0 ==> trim_start_char(s, ch)[0] != ch,
    decreases s.len(),
{
    if s.len() > 0 && s[0] == ch {
        lemma_trim_start_char_shape(s.drop_first(), ch);
        let i = choose|i: int|
            0 <= i <= s.drop_first().len() && trim_start_char(s.drop_first(), ch)
                == s.drop_first().skip(i);
        assert(s.drop_first().skip(i) =~= s.skip(i + 1));
    } else {
        assert(s.skip(0) =~= s);
    }
}

proof fn lemma_trim_end_char_shape(s: Seq<char>, ch: char)
    ensures
        exists|j: int| 0 <= j <= s.len() && trim_end_char(s, ch) == s.take(j),
        trim_end_char(s, ch).len() > 0 ==> trim_end_char(s, ch).last() != ch,
    decreases s.len(),
{
    if s.len() > 0 && s.last() == ch {
        lemma_trim_end_char_shape(s.drop_last(), ch);
        let j = choose|j: int|
            0 <= j <= s.drop_last().len() && trim_end_char(s.drop_last(), ch)
                == s.drop_last().take(j);
        assert(s.drop_last().take(j) =~= s.take(j));
    } else {
        assert(s.take(s.len() as int) =~= s);
    }
}

proof fn lemma_utf8_size_parts(s: Seq<char>, i: int)
    requires
        0 <= i <= s.len(),
    ensures
        utf8_size(s.take(i)) <= utf8_size(s),
        utf8_size(s.skip(i)) <= utf8_size(s),
{
    assert(s =~= s.take(i) + s.skip(i));
    lemma_utf8_size_concat(s.take(i), s.skip(i));
}

proof fn lemma_chars_within_fits(s: Seq<char>, n: int)
    requires
        n >= 0,
    ensures
        chars_within(s, n) <= s.len(),
        utf8_size(s.take(chars_within(s, n) as int)) <= n,
    decreases s.len(),
{
    if s.len() == 0 || utf8_len(s[0]) > n {
        assert(s.take(0) =~= Seq::<char>::empty());
    } else {
        let t = s.drop_first();
        let c = chars_within(t, n - utf8_len(s[0])) as int;
        lemma_chars_within_fits(t, n - utf8_len(s[0]));
        let p = s.take(c + 1);
        assert(p[0] == s[0]);
        assert(p.drop_first() =~= t.take(c));
    }
}

/// A branch slug never begins or ends with `-` and is at most 50 bytes long in UTF-8.
pub proof fn lemma_slug_shape(text: Seq<char>)
    ensures
        slug_of(text).len() > 0 ==> slug_of(text)[0] != '-' && slug_of(text).last() != '-',
        utf8_size(slug_of(text)) <= SLUG_MAX_BYTES,
{
    let body = crate::slug::slug_body(text);
    let cut = truncated(body, SLUG_MAX_BYTES as int);
    let front = trim_start_char(cut, '-');
    let r = trim_end_char(front, '-');
    lemma_trim_start_char_shape(cut, '-');
    lemma_trim_end_char_shape(front, '-');
    let i = choose|i: int| 0 <= i <= cut.len() && front == cut.skip(i);
    let j = choose|j: int| 0 <= j <= front.len() && r == front.take(j);
    if r.len() > 0 {
        assert(r[0] == front[0]);
    }
    if utf8_size(body) > SLUG_MAX_BYTES {
        lemma_chars_within_fits(body, SLUG_MAX_BYTES as int);
    }
    assert(utf8_size(cut) <= SLUG_MAX_BYTES);
    lemma_utf8_size_parts(cut, i);
    lemma_utf8_size_parts(front, j);
}

/// No two dashes stand next to each other in `s`.
pub open spec fn no_double_dash(s: Seq<char>) -> bool {
    forall|i: int| 0 <= i < s.len() - 1 ==> !(#[trigger] s[i] == '-' && s[i + 1] == '-')
}

proof fn lemma_no_double_dash_subrange(s: Seq<char>, i: int, j: int)
    requires
        no_double_dash(s),
        0 <= i <= j <= s.len(),
    ensures
        no_double_dash(s.subrange(i, j)),
{
    let t = s.subrange(i, j);
    assert forall|k: int| 0 <= k < t.len() - 1 implies !(#[trigger] t[k] == '-' && t[k + 1] == '-') by {
        assert(t[k] == s[i + k] && t[k + 1] == s[i + k + 1]);
    }
}

proof fn lemma_slug_scan_dashes(text: Seq<char>)
    requires
        !unicode_alphanumeric('-'),
    ensures
        no_double_dash(slug_scan(text).0),
        slug_scan(text).1 <==> (slug_scan(text).0.len() > 0 && slug_scan(text).0.last() == '-'),
    decreases text.len(),
{
    if text.len() > 0 {
        lemma_slug_scan_dashes(text.drop_last());
        let prev = slug_scan(text.drop_last());
        let c = text.last();
        let out = slug_scan(text).0;
        if unicode_alphanumeric(c) {
            assert(ascii_lower(c) != '-') by {
                if 'A' <= c && c <= 'Z' {
                    assert(('A' as u32) <= (c as u32) <= ('Z' as u32));
                }
            }
            assert forall|k: int| 0 <= k < out.len() - 1 implies !(#[trigger] out[k] == '-' && out[k
                + 1] == '-') by {
                assert(out[k] == prev.0[k]);
                if k + 1 < prev.0.len() {
                    assert(out[k + 1] == prev.0[k + 1]);
                }
            }
        } else if !prev.1 {
            assert forall|k: int| 0 <= k < out.len() - 1 implies !(#[trigger] out[k] == '-' && out[k
                + 1] == '-') by {
                assert(out[k] == prev.0[k]);
                if k + 1 < prev.0.len() {
                    assert(out[k + 1] == prev.0[k + 1]);
                }
            }
        }
    }
}

/// A branch slug never holds two dashes in a row, since every run of other characters
/// became a single dash. This rests on `-` not counting as alphanumeric, which is what
/// std's `char::is_alphanumeric` documents (a dash is neither alphabetic nor numeric).
pub proof fn lemma_slug_has_no_double_dash(text: Seq<char>)
    ensures
        !unicode_alphanumeric('-') ==> no_double_dash(slug_of(text)),
{
    if !unicode_alphanumeric('-') {
        let scan = slug_scan(text).0;
        lemma_slug_scan_dashes(text);
        let a = trim_start_char(scan, '-');
        lemma_trim_start_char_shape(scan, '-');
        let i = choose|i: int| 0 <= i <= scan.len() && a == scan.skip(i);
        assert(scan.skip(i) =~= scan.subrange(i, scan.len() as int));
        lemma_no_double_dash_subrange(scan, i, scan.len() as int);
        let body = trim_end_char(a, '-');
        lemma_trim_end_char_shape(a, '-');
        let j = choose|j: int| 0 <= j <= a.len() && body == a.take(j);
        assert(a.take(j) =~= a.subrange(0, j));
        lemma_no_double_dash_subrange(a, 0, j);
        let cut = truncated(body, SLUG_MAX_BYTES as int);
        if utf8_size(body) > SLUG_MAX_BYTES {
            let k = chars_within(body, SLUG_MAX_BYTES as int);
            lemma_chars_within_fits(body, SLUG_MAX_BYTES as int);
            assert(body.take(k as int) =~= body.subrange(0, k as int));
            lemma_no_double_dash_subrange(body, 0, k as int);
        }
        let front = trim_start_char(cut, '-');
        lemma_trim_start_char_shape(cut, '-');
        let i2 = choose|i2: int| 0 <= i2 <= cut.len() && front == cut.skip(i2);
        assert(cut.skip(i2) =~= cut.subrange(i2, cut.len() as int));
        lemma_no_double_dash_subrange(cut, i2, cut.len() as int);
        let r = trim_end_char(front, '-');
        lemma_trim_end_char_shape(front, '-');
        let j2 = choose|j2: int| 0 <= j2 <= front.len() && r == front.take(j2);
        assert(front.take(j2) =~= front.subrange(0, j2));
        lemma_no_double_dash_subrange(front, 0, j2);
    }
}

// ---------------------------------------------------------------------------
// Saving and reading back a workflow file
// ---------------------------------------------------------------------------

/// No carriage return stands directly before a line feed.
pub open spec fn no_crlf(s: Seq<char>) -> bool {
    forall|i: int| 0 <= i < s.len() - 1 ==> !(#[trigger] s[i] == '\r' && s[i + 1] == '\n')
}

proof fn lemma_newline_from_props(s: Seq<char>, from: int)
    requires
        0 <= from <= s.len(),
    ensures
        from <= newline_from(s, from) <= s.len(),
        forall|j: int| from <= j < newline_from(s, from) ==> s[j] != '\n',
        newline_from(s, from) < s.len() ==> s[newline_from(s, from)] == '\n',
    decreases s.len() - from,
{
    if from < s.len() && s[from] != '\n' {
        lemma_newline_from_props(s, from + 1);
    }
}

proof fn lemma_newline_from_is(s: Seq<char>, from: int, k: int)
    requires
        0 <= from <= k < s.len(),
        s[k] == '\n',
        forall|j: int| from <= j < k ==> s[j] != '\n',
    ensures
        newline_from(s, from) == k,
    decreases k - from,
{
    if from < k {
        lemma_newline_from_is(s, from + 1, k);
    }
}

proof fn lemma_lines_of_nonempty(s: Seq<char>)
    requires
        s.len() > 0,
    ensures
        lines_of(s).len() > 0,
{
    lemma_newline_from_props(s, 0);
}

/// Lines of a text that ends with a line feed, followed by more text.
proof fn lemma_lines_of_append(a: Seq<char>, b: Seq<char>)
    requires
        a.len() == 0 || a.last() == '\n',
    ensures
        lines_of(a + b) == lines_of(a) + lines_of(b),
    decreases a.len(),
{
    if a.len() == 0 {
        assert(a + b =~= b);
        assert(lines_of(a) + lines_of(b) =~= lines_of(b));
    } else {
        lemma_newline_from_props(a, 0);
        let k = newline_from(a, 0);
        if k == a.len() {
            assert(a[a.len() - 1] == '\n');
        }
        let s = a + b;
        assert forall|j: int| 0 <= j < k implies s[j] != '\n' by {
            assert(s[j] == a[j]);
        }
        assert(s[k] == a[k]);
        lemma_newline_from_is(s, 0, k);
        assert(s.take(k) =~= a.take(k));
        let rest = a.skip(k + 1);
        assert(s.skip(k + 1) =~= rest + b);
        if rest.len() > 0 {
            assert(rest.last() == a.last());
        }
        lemma_lines_of_append(rest, b);
        assert(lines_of(s) =~= lines_of(a) + lines_of(b));
    }
}

proof fn lemma_join_cons(a: Seq<char>, ls: Seq<Seq<char>>, sep: Seq<char>)
    requires
        ls.len() > 0,
    ensures
        join(seq![a] + ls, sep) == a + sep + join(ls, sep),
    decreases ls.len(),
{
    let t = seq![a] + ls;
    assert(t.last() == ls.last());
    if ls.len() == 1 {
        assert(t.len() == 2);
        assert(t.drop_last() =~= seq![a]);
        assert(seq![a].len() == 1 && seq![a][0] == a);
        assert(join(seq![a], sep) == a);
        assert(join(t, sep) == join(t.drop_last(), sep) + sep + t.last());
        assert(join(ls, sep) == ls[0]);
        assert(t.last() == ls[0]);
    } else {
        assert(t.drop_last() =~= seq![a] + ls.drop_last());
        lemma_join_cons(a, ls.drop_last(), sep);
        assert(join(t, sep) =~= a + sep + join(ls, sep));
    }
}

/// `s` with every carriage return that stands just before a line feed dropped.
pub open spec fn lf_only(s: Seq<char>) -> Seq<char>
    decreases s.len(),
{
    if s.len() == 0 {
        s
    } else if s.len() >= 2 && s[0] == '\r' && s[1] == '\n' {
        lf_only(s.drop_first())
    } else {
        seq![s[0]] + lf_only(s.drop_first())
    }
}

proof fn lemma_lf_only_nonempty(s: Seq<char>)
    requires
        s.len() > 0,
    ensures
        lf_only(s).len() > 0,
    decreases s.len(),
{
    if s.len() >= 2 && s[0] == '\r' && s[1] == '\n' {
        lemma_lf_only_nonempty(s.drop_first());
    }
}

proof fn lemma_lf_only_keeps(s: Seq<char>)
    requires
        no_crlf(s),
    ensures
        lf_only(s) == s,
    decreases s.len(),
{
    if s.len() > 0 {
        let t = s.drop_first();
        assert forall|i: int| 0 <= i < t.len() - 1 implies !(#[trigger] t[i] == '\r' && t[i + 1]
            == '\n') by {
            assert(t[i] == s[i + 1] && t[i + 1] == s[i + 2]);
        }
        lemma_lf_only_keeps(t);
        if s.len() >= 2 {
            assert(!(s[0] == '\r' && s[1] == '\n'));
        }
        assert(seq![s[0]] + t =~= s);
    }
}

/// `lf_only` splits over a concatenation that does not cut a `\r\n` pair.
proof fn lemma_lf_only_concat(a: Seq<char>, b: Seq<char>)
    requires
        !(a.len() > 0 && a.last() == '\r' && b.len() > 0 && b[0] == '\n'),
    ensures
        lf_only(a + b) == lf_only(a) + lf_only(b),
    decreases a.len(),
{
    if a.len() == 0 {
        assert(a + b =~= b);
        assert(lf_only(a) + lf_only(b) =~= lf_only(b));
    } else {
        let t = a.drop_first();
        let ab = a + b;
        assert(ab[0] == a[0]);
        assert(ab.drop_first() =~= t + b);
        if t.len() > 0 {
            assert(t.last() == a.last());
            assert(ab[1] == t[0]);
            assert(a[1] == t[0]);
        }
        lemma_lf_only_concat(t, b);
        if ab.len() >= 2 && ab[0] == '\r' && ab[1] == '\n' {
            assert(t.len() > 0);
            assert(lf_only(ab) == lf_only(t + b));
        } else {
            assert(lf_only(ab) == seq![a[0]] + lf_only(t + b));
            assert(lf_only(ab) =~= lf_only(a) + lf_only(b));
        }
    }
}

proof fn lemma_lf_only_all_ws(s: Seq<char>)
    requires
        forall|i: int| 0 <= i < s.len() ==> is_ws(#[trigger] s[i]),
    ensures
        forall|i: int| 0 <= i < lf_only(s).len() ==> is_ws(#[trigger] lf_only(s)[i]),
    decreases s.len(),
{
    if s.len() > 0 {
        let t = s.drop_first();
        assert forall|i: int| 0 <= i < t.len() implies is_ws(#[trigger] t[i]) by {
            assert(t[i] == s[i + 1]);
        }
        lemma_lf_only_all_ws(t);
        if s.len() >= 2 && s[0] == '\r' && s[1] == '\n' {
            assert(lf_only(s) == lf_only(t));
        } else {
            let r = lf_only(s);
            assert forall|i: int| 0 <= i < r.len() implies is_ws(#[trigger] r[i]) by {
                if i > 0 {
                    assert(r[i] == lf_only(t)[i - 1]);
                } else {
                    assert(r[0] == s[0]);
                }
            }
        }
    }
}

/// Joining the lines of a text with line feeds gives the text back with `\r\n` line ends
/// turned into `\n`, less a final line feed.
proof fn lemma_join_lines_of(s: Seq<char>)
    ensures
        join(lines_of(s), seq!['\n']) == if lf_only(s).len() > 0 && lf_only(s).last() == '\n' {
            lf_only(s).drop_last()
        } else {
            lf_only(s)
        },
    decreases s.len(),
{
    if s.len() > 0 {
        lemma_newline_from_props(s, 0);
        let k = newline_from(s, 0);
        if k < s.len() {
            let l = s.take(k);
            let rest = s.skip(k + 1);
            let nl: Seq<char> = seq!['\n'];
            lemma_join_lines_of(rest);
            let lr = lines_of(rest);
            assert(lines_of(s) == seq![strip_cr(l)] + lr);
            assert(s =~= l + (nl + rest));
            assert forall|i: int| 0 <= i < l.len() implies #[trigger] l[i] != '\n' by {
                assert(l[i] == s[i]);
            }
            // the line end of `l` is the only pair that the split can cut
            let lc = strip_cr(l);
            if l.len() > 0 && l.last() == '\r' {
                let l0 = l.drop_last();
                assert(l =~= l0 + seq!['\r']);
                assert(no_crlf(l0)) by {
                    assert forall|i: int| 0 <= i < l0.len() - 1 implies !(#[trigger] l0[i] == '\r'
                        && l0[i + 1] == '\n') by {
                        assert(l0[i + 1] == l[i + 1]);
                    }
                }
                lemma_lf_only_keeps(l0);
                lemma_lf_only_concat(l0, seq!['\r'] + (nl + rest));
                let crl = seq!['\r'] + (nl + rest);
                assert(crl[0] == '\r' && crl[1] == '\n');
                assert(crl.drop_first() =~= nl + rest);
                assert(l0 + crl =~= s);
                assert(lf_only(s) == lc + lf_only(nl + rest));
            } else {
                assert(no_crlf(l)) by {
                    assert forall|i: int| 0 <= i < l.len() - 1 implies !(#[trigger] l[i] == '\r'
                        && l[i + 1] == '\n') by {
                        assert(l[i + 1] != '\n');
                    }
                }
                lemma_lf_only_keeps(l);
                lemma_lf_only_concat(l, nl + rest);
                assert(lf_only(s) == lc + lf_only(nl + rest));
            }
            let nr = nl + rest;
            assert(nr[0] == '\n');
            assert(nr.drop_first() =~= rest);
            assert(lf_only(nr) == seq!['\n'] + lf_only(rest));
            let t = lf_only(rest);
            assert(lf_only(s) =~= lc + seq!['\n'] + t);
            if rest.len() == 0 {
                assert(lr =~= Seq::<Seq<char>>::empty());
                assert(seq![lc] + lr =~= seq![lc]);
                assert(t =~= Seq::<char>::empty());
                assert(lf_only(s).drop_last() =~= lc);
            } else {
                lemma_lines_of_nonempty(rest);
                lemma_lf_only_nonempty(rest);
                lemma_join_cons(lc, lr, nl);
                assert(lf_only(s).last() == t.last());
                if t.last() == '\n' {
                    assert(lf_only(s).drop_last() =~= lc + nl + t.drop_last());
                }
            }
        } else {
            assert(no_crlf(s)) by {
                assert forall|i: int| 0 <= i < s.len() - 1 implies !(#[trigger] s[i] == '\r' && s[i
                    + 1] == '\n') by {
                    assert(s[i + 1] != '\n');
                }
            }
            lemma_lf_only_keeps(s);
            if s.last() == '\n' {
                assert(s[s.len() - 1] == '\n');
            }
        }
    }
}

proof fn lemma_trim_start_shape(s: Seq<char>)
    ensures
        exists|i: int|
            0 <= i <= s.len() && trim_start_ws(s) == s.skip(i) && forall|j: int|
                0 <= j < i ==> is_ws(#[trigger] s[j]),
        trim_start_ws(s).len() > 0 ==> !is_ws(trim_start_ws(s)[0]),
    decreases s.len(),
{
    if s.len() > 0 && is_ws(s[0]) {
        let t = s.drop_first();
        lemma_trim_start_shape(t);
        let i = choose|i: int|
            0 <= i <= t.len() && trim_start_ws(t) == t.skip(i) && forall|j: int|
                0 <= j < i ==> is_ws(#[trigger] t[j]);
        assert(t.skip(i) =~= s.skip(i + 1));
        assert forall|j: int| 0 <= j < i + 1 implies is_ws(#[trigger] s[j]) by {
            if j > 0 {
                assert(s[j] == t[j - 1]);
            }
        }
    } else {
        assert(s.skip(0) =~= s);
    }
}

proof fn lemma_trim_end_shape(s: Seq<char>)
    ensures
        exists|j: int|
            0 <= j <= s.len() && trim_end_ws(s) == s.take(j) && forall|k: int|
                j <= k < s.len() ==> is_ws(#[trigger] s[k]),
        trim_end_ws(s).len() > 0 ==> !is_ws(trim_end_ws(s).last()),
    decreases s.len(),
{
    if s.len() > 0 && is_ws(s.last()) {
        let t = s.drop_last();
        lemma_trim_end_shape(t);
        let j = choose|j: int|
            0 <= j <= t.len() && trim_end_ws(t) == t.take(j) && forall|k: int|
                j <= k < t.len() ==> is_ws(#[trigger] t[k]);
        assert(t.take(j) =~= s.take(j));
        assert forall|k: int| j <= k < s.len() implies is_ws(#[trigger] s[k]) by {
            if k < t.len() {
                assert(s[k] == t[k]);
            }
        }
    } else {
        assert(s.take(s.len() as int) =~= s);
    }
}

proof fn lemma_trim_start_skips_ws(w: Seq<char>, x: Seq<char>)
    requires
        forall|i: int| 0 <= i < w.len() ==> is_ws(#[trigger] w[i]),
    ensures
        trim_start_ws(w + x) == trim_start_ws(x),
    decreases w.len(),
{
    if w.len() == 0 {
        assert(w + x =~= x);
    } else {
        let t = w.drop_first();
        assert forall|i: int| 0 <= i < t.len() implies is_ws(#[trigger] t[i]) by {
            assert(t[i] == w[i + 1]);
        }
        lemma_trim_start_skips_ws(t, x);
        assert((w + x)[0] == w[0]);
        assert((w + x).drop_first() =~= t + x);
    }
}

proof fn lemma_trim_end_skips_ws(x: Seq<char>, w: Seq<char>)
    requires
        forall|i: int| 0 <= i < w.len() ==> is_ws(#[trigger] w[i]),
    ensures
        trim_end_ws(x + w) == trim_end_ws(x),
    decreases w.len(),
{
    if w.len() == 0 {
        assert(x + w =~= x);
    } else {
        let t = w.drop_last();
        assert forall|i: int| 0 <= i < t.len() implies is_ws(#[trigger] t[i]) by {
            assert(t[i] == w[i]);
        }
        lemma_trim_end_skips_ws(x, t);
        assert((x + w).last() == w.last());
        assert(w[w.len() - 1] == w.last());
        assert((x + w).drop_last() =~= x + t);
    }
}

/// Dropping the carriage returns of `\r\n` line ends leaves the trimmed text alone when
/// the trimmed text itself has none.
proof fn lemma_trim_lf_only(p: Seq<char>)
    requires
        no_crlf(trim_ws(p)),
    ensures
        trim_ws(lf_only(p)) == trim_ws(p),
{
    lemma_trim_start_shape(p);
    let ts = trim_start_ws(p);
    let i = choose|i: int|
        0 <= i <= p.len() && ts == p.skip(i) && forall|j: int| 0 <= j < i ==> is_ws(#[trigger] p[j]);
    lemma_trim_end_shape(ts);
    let c = trim_ws(p);
    let j = choose|j: int|
        0 <= j <= ts.len() && trim_end_ws(ts) == ts.take(j) && forall|k: int|
            j <= k < ts.len() ==> is_ws(#[trigger] ts[k]);
    let l = p.take(i);
    let r = ts.skip(j);
    assert(p =~= l + (c + r));
    assert forall|k: int| 0 <= k < l.len() implies is_ws(#[trigger] l[k]) by {
        assert(l[k] == p[k]);
    }
    assert forall|k: int| 0 <= k < r.len() implies is_ws(#[trigger] r[k]) by {
        assert(r[k] == ts[j + k]);
    }
    lemma_lf_only_all_ws(l);
    lemma_lf_only_all_ws(r);
    lemma_lf_only_keeps(c);
    if c.len() > 0 {
        assert(c[0] == ts[0]);
        assert(!is_ws(c[0]));
        assert(c.last() != '\r');
        assert((c + r)[0] == c[0]);
        lemma_lf_only_concat(c, r);
        lemma_lf_only_concat(l, c + r);
        let l2 = lf_only(l);
        let r2 = lf_only(r);
        assert(lf_only(p) =~= l2 + (c + r2));
        lemma_trim_start_skips_ws(l2, c + r2);
        assert((c + r2)[0] == c[0]);
        assert(trim_start_ws(c + r2) == c + r2);
        lemma_trim_end_skips_ws(c, r2);
        assert(c.last() == ts.take(j).last());
        assert(trim_end_ws(c) == c);
    } else {
        assert(c + r =~= r);
        let w = l + r;
        assert forall|k: int| 0 <= k < w.len() implies is_ws(#[trigger] w[k]) by {
            if k < l.len() {
                assert(w[k] == l[k]);
            } else {
                assert(w[k] == r[k - l.len()]);
            }
        }
        assert(p =~= w);
        lemma_lf_only_all_ws(w);
        let w2 = lf_only(w);
        lemma_trim_start_skips_ws(w2, Seq::<char>::empty());
        assert(w2 + Seq::<char>::empty() =~= w2);
        assert(trim_start_ws(Seq::<char>::empty()) =~= Seq::<char>::empty());
        assert(trim_end_ws(Seq::<char>::empty()) =~= Seq::<char>::empty());
    }
}

proof fn lemma_trim_start_push_ws(x: Seq<char>, c: char)
    requires
        is_ws(c),
    ensures
        trim_start_ws(x.push(c)) == if trim_start_ws(x).len() > 0 {
            trim_start_ws(x).push(c)
        } else {
            Seq::<char>::empty()
        },
    decreases x.len(),
{
    if x.len() == 0 {
        let t = x.push(c);
        assert(t[0] == c);
        assert(t.drop_first() =~= Seq::<char>::empty());
        assert(trim_start_ws(Seq::<char>::empty()) =~= Seq::<char>::empty());
        assert(trim_start_ws(t) == trim_start_ws(t.drop_first()));
    } else {
        assert(x.push(c)[0] == x[0]);
        if is_ws(x[0]) {
            assert(x.push(c).drop_first() =~= x.drop_first().push(c));
            lemma_trim_start_push_ws(x.drop_first(), c);
        }
    }
}

/// White space added at either end does not change the trimmed text.
proof fn lemma_trim_ignores_ws_ends(x: Seq<char>, c: char)
    requires
        is_ws(c),
    ensures
        trim_ws(x.push(c)) == trim_ws(x),
        trim_ws(seq![c] + x) == trim_ws(x),
{
    lemma_trim_start_push_ws(x, c);
    let t = trim_start_ws(x);
    if t.len() > 0 {
        assert(t.push(c).drop_last() =~= t);
    }
    let y = seq![c] + x;
    assert(y[0] == c);
    assert(y.drop_first() =~= x);
}

proof fn lemma_delimiter_from_is(ls: Seq<Seq<char>>, from: int, k: int)
    requires
        0 <= from <= k < ls.len(),
        is_delimiter(ls[k]),
        forall|j: int| from <= j < k ==> !is_delimiter(#[trigger] ls[j]),
    ensures
        delimiter_from(ls, from) == k,
    decreases k - from,
{
    if from < k {
        lemma_delimiter_from_is(ls, from + 1, k);
    }
}

/// A saved workflow reads back as written: when the YAML text ends with a line feed, has
/// no line that trims to `---` and no CRLF line ends, and the trimmed prompt has no CRLF
/// line ends, the front matter read from the saved file is the YAML text less its final
/// line feed, and the prompt template read from it is the one saved (both trimmed, a blank
/// one giving the default prompt).
pub proof fn lemma_saved_workflow_reads_back(yaml: Seq<char>, prompt: Seq<char>)
    requires
        yaml.len() == 0 || yaml.last() == '\n',
        no_crlf(yaml),
        no_crlf(trim_ws(prompt)),
        forall|i: int| 0 <= i < lines_of(yaml).len() ==> !is_delimiter(#[trigger] lines_of(yaml)[i]),
    ensures
        front_matter_split("---\n"@ + yaml + "---\n\n"@ + prompt).0 == if yaml.len() == 0 {
            yaml
        } else {
            yaml.drop_last()
        },
        prompt_or_default(front_matter_split("---\n"@ + yaml + "---\n\n"@ + prompt).1)
            == prompt_or_default(prompt),
{
    reveal_strlit("---\n");
    reveal_strlit("---\n\n");
    let d: Seq<char> = seq!['-', '-', '-', '\n'];
    let nl: Seq<char> = seq!['\n'];
    let dash3: Seq<char> = seq!['-', '-', '-'];
    assert("---\n"@ =~= d);
    assert("---\n\n"@ =~= d + nl);
    let content = "---\n"@ + yaml + "---\n\n"@ + prompt;
    let tail = nl + prompt;
    assert(content =~= d + (yaml + (d + tail)));
    // the lines of the pieces
    lemma_newline_from_is(d, 0, 3);
    assert(d.take(3) =~= dash3);
    assert(d.skip(4) =~= Seq::<char>::empty());
    assert(dash3.last() == '-');
    assert(strip_cr(dash3) == dash3);
    assert(lines_of(Seq::<char>::empty()) =~= Seq::<Seq<char>>::empty());
    assert(lines_of(d) == seq![strip_cr(d.take(3))] + lines_of(d.skip(4)));
    assert(lines_of(d) =~= seq![dash3]);
    lemma_newline_from_is(nl, 0, 0);
    assert(nl.take(0) =~= Seq::<char>::empty());
    assert(nl.skip(1) =~= Seq::<char>::empty());
    assert(lines_of(nl) =~= seq![Seq::<char>::empty()]);
    lemma_lines_of_append(nl, prompt);
    lemma_lines_of_append(d, tail);
    lemma_lines_of_append(yaml, d + tail);
    lemma_lines_of_append(d, yaml + (d + tail));
    let ly = lines_of(yaml);
    let lp = lines_of(prompt);
    let empty_line: Seq<char> = Seq::empty();
    let ls = lines_of(content);
    assert(ls =~= seq![dash3] + ly + seq![dash3] + seq![empty_line] + lp);
    // the delimiter lines
    assert(!is_ws('-'));
    assert(trim_start_ws(dash3) == dash3);
    assert(dash3.last() == '-');
    assert(trim_end_ws(dash3) == dash3);
    assert(is_delimiter(dash3));
    let k = (ly.len() + 1) as int;
    assert(ls[0] == dash3);
    assert(ls[k] == dash3);
    assert forall|j: int| 1 <= j < k implies !is_delimiter(#[trigger] ls[j]) by {
        assert(ls[j] == ly[j - 1]);
    }
    lemma_delimiter_from_is(ls, 1, k);
    // the front matter
    assert(ls.subrange(1, k) =~= ly);
    lemma_join_lines_of(yaml);
    lemma_lf_only_keeps(yaml);
    // the prompt
    let after = ls.subrange(k + 1, ls.len() as int);
    assert(after =~= seq![empty_line] + lp);
    let read = front_matter_split(content).1;
    assert(read == join(after, nl));
    if prompt.len() == 0 {
        assert(lp.len() == 0);
        assert(after =~= seq![empty_line]);
        assert(read == empty_line);
        assert(read =~= prompt);
    } else {
        lemma_lines_of_nonempty(prompt);
        lemma_join_cons(empty_line, lp, nl);
        lemma_join_lines_of(prompt);
        let j = join(lp, nl);
        assert(read =~= seq!['\n'] + j);
        lemma_trim_ignores_ws_ends(j, '\n');
        lemma_lf_only_nonempty(prompt);
        let f = lf_only(prompt);
        if f.last() == '\n' {
            assert(f =~= j.push('\n'));
        }
        assert(trim_ws(read) == trim_ws(f));
        lemma_trim_lf_only(prompt);
        assert(trim_ws(read) == trim_ws(prompt));
    }
}

// ---------------------------------------------------------------------------
// Session histories
// ---------------------------------------------------------------------------

/// No entry of `s` started before an entry that comes later.
pub open spec fn newest_first_ordered(s: Seq<SessionHistoryEntry>) -> bool {
    forall|i: int, j: int|
        0 <= i < j < s.len() ==> !text_lt(
            (#[trigger] s[i]).started_at@,
            (#[trigger] s[j]).started_at@,
        )
}

proof fn lemma_first_per_session(s: Seq<SessionHistoryEntry>)
    ensures
        unique_keys(first_per_session(s)),
        forall|k: Seq<char>| #[trigger] has_key(first_per_session(s), k) <==> has_key(s, k),
    decreases s.len(),
{
    if s.len() > 0 {
        let t = s.drop_last();
        let x = s.last();
        let prev = first_per_session(t);
        lemma_first_per_session(t);
        assert forall|k: Seq<char>| #[trigger] has_key(s, k) <==> (has_key(t, k) || x.key() == k) by {
            if has_key(s, k) {
                let i = choose|i: int| 0 <= i < s.len() && #[trigger] s[i].key() == k;
                if i < t.len() {
                    assert(t[i] == s[i]);
                }
            }
            if has_key(t, k) {
                let i = choose|i: int| 0 <= i < t.len() && #[trigger] t[i].key() == k;
                assert(s[i] == t[i]);
            }
            if x.key() == k {
                assert(s[s.len() - 1] == x);
            }
        }
        if !has_key(prev, x.key()) {
            let u = prev.push(x);
            assert forall|k: Seq<char>| #[trigger] has_key(u, k) <==> has_key(s, k) by {
                if has_key(u, k) {
                    let i = choose|i: int| 0 <= i < u.len() && #[trigger] u[i].key() == k;
                    if i < prev.len() {
                        assert(prev[i] == u[i]);
                    }
                }
                if has_key(prev, k) {
                    let i = choose|i: int| 0 <= i < prev.len() && #[trigger] prev[i].key() == k;
                    assert(u[i] == prev[i]);
                }
                if x.key() == k {
                    assert(u[u.len() - 1] == x);
                }
            }
            assert forall|i: int, j: int|
                0 <= i < u.len() && 0 <= j < u.len() && i != j implies #[trigger] u[i].key()
                != #[trigger] u[j].key() by {
                if i < prev.len() && j < prev.len() {
                    assert(u[i] == prev[i] && u[j] == prev[j]);
                } else if i < prev.len() {
                    assert(u[i] == prev[i]);
                } else if j < prev.len() {
                    assert(u[j] == prev[j]);
                }
            }
        }
    }
}

proof fn lemma_newest_first_position(s: Seq<SessionHistoryEntry>, x: SessionHistoryEntry)
    ensures
        0 <= newest_first_position(s, x) <= s.len(),
        forall|k: int|
            0 <= k < newest_first_position(s, x) ==> !text_lt(
                (#[trigger] s[k]).started_at@,
                x.started_at@,
            ),
        newest_first_position(s, x) < s.len() ==> text_lt(
            s[newest_first_position(s, x)].started_at@,
            x.started_at@,
        ),
    decreases s.len(),
{
    if s.len() > 0 && !text_lt(s[0].started_at@, x.started_at@) {
        let t = s.drop_first();
        lemma_newest_first_position(t, x);
        assert forall|k: int| 0 <= k < newest_first_position(s, x) implies !text_lt(
            (#[trigger] s[k]).started_at@,
            x.started_at@,
        ) by {
            if k > 0 {
                assert(s[k] == t[k - 1]);
            }
        }
        if newest_first_position(s, x) < s.len() {
            assert(s[newest_first_position(s, x)] == t[newest_first_position(t, x)]);
        }
    }
}

proof fn lemma_insert_keys(s: Seq<SessionHistoryEntry>, p: int, x: SessionHistoryEntry)
    requires
        0 <= p <= s.len(),
    ensures
        forall|k: Seq<char>| #[trigger] has_key(s.insert(p, x), k) <==> (has_key(s, k) || x.key() == k),
        unique_keys(s) && !has_key(s, x.key()) ==> unique_keys(s.insert(p, x)),
{
    let u = s.insert(p, x);
    assert forall|k: Seq<char>| #[trigger] has_key(u, k) <==> (has_key(s, k) || x.key() == k) by {
        if has_key(u, k) {
            let i = choose|i: int| 0 <= i < u.len() && #[trigger] u[i].key() == k;
            if i < p {
                assert(s[i] == u[i]);
            } else if i > p {
                assert(s[i - 1] == u[i]);
            }
        }
        if has_key(s, k) {
            let i = choose|i: int| 0 <= i < s.len() && #[trigger] s[i].key() == k;
            if i < p {
                assert(u[i] == s[i]);
            } else {
                assert(u[i + 1] == s[i]);
            }
        }
        if x.key() == k {
            assert(u[p] == x);
        }
    }
    if unique_keys(s) && !has_key(s, x.key()) {
        assert forall|i: int, j: int|
            0 <= i < u.len() && 0 <= j < u.len() && i != j implies #[trigger] u[i].key()
            != #[trigger] u[j].key() by {
            let si = if i < p { i } else { i - 1 };
            let sj = if j < p { j } else { j - 1 };
            if i != p && j != p {
                assert(u[i] == s[si] && u[j] == s[sj]);
            } else if i == p {
                assert(u[j] == s[sj]);
            } else {
                assert(u[i] == s[si]);
            }
        }
    }
}

proof fn lemma_newest_first(s: Seq<SessionHistoryEntry>)
    ensures
        newest_first(s).to_multiset() == s.to_multiset(),
        newest_first(s).len() == s.len(),
        newest_first_ordered(newest_first(s)),
        forall|k: Seq<char>| #[trigger] has_key(newest_first(s), k) <==> has_key(s, k),
        unique_keys(s) ==> unique_keys(newest_first(s)),
    decreases s.len(),
{
    broadcast use vstd::seq_lib::group_to_multiset_ensures;

    if s.len() > 0 {
        let t = s.drop_last();
        let x = s.last();
        let prev = newest_first(t);
        lemma_newest_first(t);
        let p = newest_first_position(prev, x);
        lemma_newest_first_position(prev, x);
        vstd::seq_lib::to_multiset_insert(prev, p, x);
        assert(t.push(x) =~= s);
        lemma_insert_keys(prev, p, x);
        let r = prev.insert(p, x);
        assert forall|i: int, j: int| 0 <= i < j < r.len() implies !text_lt(
            (#[trigger] r[i]).started_at@,
            (#[trigger] r[j]).started_at@,
        ) by {
            if j < p {
                assert(r[i] == prev[i] && r[j] == prev[j]);
            } else if j == p {
                assert(r[i] == prev[i] && r[j] == x);
            } else if i < p {
                assert(r[i] == prev[i] && r[j] == prev[j - 1]);
            } else if i == p {
                assert(r[i] == x && r[j] == prev[j - 1]);
                if text_lt(x.started_at@, prev[j - 1].started_at@) {
                    lemma_text_lt_transitive(
                        prev[p].started_at@,
                        x.started_at@,
                        prev[j - 1].started_at@,
                    );
                    if p == j - 1 {
                        lemma_text_lt_irreflexive(prev[p].started_at@);
                    }
                }
            } else {
                assert(r[i] == prev[i - 1] && r[j] == prev[j - 1]);
            }
        }
        assert forall|k: Seq<char>| #[trigger] has_key(s, k) <==> (has_key(t, k) || x.key() == k) by {
            if has_key(s, k) {
                let i = choose|i: int| 0 <= i < s.len() && #[trigger] s[i].key() == k;
                if i < t.len() {
                    assert(t[i] == s[i]);
                }
            }
            if has_key(t, k) {
                let i = choose|i: int| 0 <= i < t.len() && #[trigger] t[i].key() == k;
                assert(s[i] == t[i]);
            }
            if x.key() == k {
                assert(s[s.len() - 1] == x);
            }
        }
        if unique_keys(s) {
            assert(unique_keys(t)) by {
                assert forall|i: int, j: int|
                    0 <= i < t.len() && 0 <= j < t.len() && i != j implies #[trigger] t[i].key()
                    != #[trigger] t[j].key() by {
                    assert(t[i] == s[i] && t[j] == s[j]);
                }
            }
            assert(!has_key(t, x.key())) by {
                if has_key(t, x.key()) {
                    let i = choose|i: int| 0 <= i < t.len() && #[trigger] t[i].key() == x.key();
                    assert(s[i] == t[i]);
                    assert(s[s.len() - 1] == x);
                }
            }
        }
    }
}

/// The session list names every session found exactly once, newest first: no session id
/// repeats, every id found is listed, and no session started before a later one in the
/// list. Each listed entry is one of the entries found.
pub proof fn lemma_session_list_shape(found: Seq<SessionHistoryEntry>)
    ensures
        unique_keys(newest_first(first_per_session(found))),
        forall|k: Seq<char>|
            #[trigger] has_key(newest_first(first_per_session(found)), k) <==> has_key(found, k),
        newest_first_ordered(newest_first(first_per_session(found))),
        forall|e: SessionHistoryEntry|
            newest_first(first_per_session(found)).contains(e) ==> #[trigger] found.contains(e),
{
    let u = first_per_session(found);
    lemma_first_per_session(found);
    lemma_newest_first(u);
    lemma_first_per_session_from(found);
    assert forall|e: SessionHistoryEntry| newest_first(u).contains(e) implies #[trigger] found.contains(e) by {
        broadcast use vstd::seq_lib::group_to_multiset_ensures;

        assert(newest_first(u).to_multiset().count(e) > 0);
        assert(u.to_multiset().count(e) > 0);
    }
}

proof fn lemma_first_per_session_from(s: Seq<SessionHistoryEntry>)
    ensures
        forall|e: SessionHistoryEntry| first_per_session(s).contains(e) ==> #[trigger] s.contains(e),
    decreases s.len(),
{
    if s.len() > 0 {
        let t = s.drop_last();
        lemma_first_per_session_from(t);
        assert forall|e: SessionHistoryEntry| first_per_session(s).contains(e) implies #[trigger] s.contains(e) by {
            let u = first_per_session(s);
            let i = choose|i: int| 0 <= i < u.len() && u[i] == e;
            let prev = first_per_session(t);
            if i < prev.len() {
                assert(prev[i] == u[i]);
                assert(prev.contains(e));
                assert(t.contains(e));
                let j = choose|j: int| 0 <= j < t.len() && t[j] == e;
                assert(s[j] == t[j]);
            } else {
                assert(s[s.len() - 1] == e);
            }
        }
    }
}

// ---------------------------------------------------------------------------
// Refreshed issues in request order
// ---------------------------------------------------------------------------

proof fn lemma_rank_insert_position(s: Seq<Issue>, x: Issue, ids: Seq<String>)
    ensures
        0 <= rank_insert_position(s, x, ids) <= s.len(),
        forall|k: int|
            0 <= k < rank_insert_position(s, x, ids) ==> id_rank(ids, (#[trigger] s[k]).id@)
                <= id_rank(ids, x.id@),
        rank_insert_position(s, x, ids) < s.len() ==> id_rank(
            ids,
            s[rank_insert_position(s, x, ids)].id@,
        ) > id_rank(ids, x.id@),
    decreases s.len(),
{
    if s.len() > 0 && id_rank(ids, s[0].id@) <= id_rank(ids, x.id@) {
        let t = s.drop_first();
        lemma_rank_insert_position(t, x, ids);
        assert forall|k: int| 0 <= k < rank_insert_position(s, x, ids) implies id_rank(
            ids,
            (#[trigger] s[k]).id@,
        ) <= id_rank(ids, x.id@) by {
            if k > 0 {
                assert(s[k] == t[k - 1]);
            }
        }
        if rank_insert_position(s, x, ids) < s.len() {
            assert(s[rank_insert_position(s, x, ids)] == t[rank_insert_position(t, x, ids)]);
        }
    }
}

/// Refreshed issues come back as a reordering of what the tracker returned (nothing
/// added, nothing lost), in the order of the ids they were requested with; issues whose
/// id was not requested come last.
pub proof fn lemma_sorted_by_ids_orders(s: Seq<Issue>, ids: Seq<String>)
    ensures
        sorted_by_ids(s, ids).to_multiset() == s.to_multiset(),
        sorted_by_ids(s, ids).len() == s.len(),
        forall|i: int, j: int|
            0 <= i < j < sorted_by_ids(s, ids).len() ==> id_rank(
                ids,
                (#[trigger] sorted_by_ids(s, ids)[i]).id@,
            ) <= id_rank(ids, (#[trigger] sorted_by_ids(s, ids)[j]).id@),
    decreases s.len(),
{
    broadcast use vstd::seq_lib::group_to_multiset_ensures;

    if s.len() > 0 {
        let prev = sorted_by_ids(s.drop_last(), ids);
        let x = s.last();
        lemma_sorted_by_ids_orders(s.drop_last(), ids);
        let p = rank_insert_position(prev, x, ids);
        lemma_rank_insert_position(prev, x, ids);
        vstd::seq_lib::to_multiset_insert(prev, p, x);
        assert(s.drop_last().push(x) =~= s);
        let r = prev.insert(p, x);
        assert forall|i: int, j: int| 0 <= i < j < r.len() implies id_rank(
            ids,
            (#[trigger] r[i]).id@,
        ) <= id_rank(ids, (#[trigger] r[j]).id@) by {
            if j < p {
                assert(r[i] == prev[i] && r[j] == prev[j]);
            } else if j == p {
                assert(r[i] == prev[i] && r[j] == x);
            } else if i < p {
                assert(r[i] == prev[i] && r[j] == prev[j - 1]);
            } else if i == p {
                assert(r[i] == x && r[j] == prev[j - 1]);
                assert(id_rank(ids, prev[p].id@) <= id_rank(ids, prev[j - 1].id@));
            } else {
                assert(r[i] == prev[i - 1] && r[j] == prev[j - 1]);
            }
        }
    }
}


/// Ordering refreshed issues by id is stable: the issues of any one rank (one requested
/// id, or the unrequested ones) come out in the order the tracker returned them.
pub proof fn lemma_sorted_by_ids_stable(s: Seq<Issue>, ids: Seq<String>, k: int)
    ensures
        sorted_by_ids(s, ids).filter(|y: Issue| id_rank(ids, y.id@) == k) == s.filter(
            |y: Issue| id_rank(ids, y.id@) == k,
        ),
    decreases s.len(),
{
    let f = |y: Issue| id_rank(ids, y.id@) == k;
    reveal(Seq::filter);
    if s.len() == 0 {
        assert(sorted_by_ids(s, ids) =~= s);
    } else {
        let x = s.last();
        let prev = sorted_by_ids(s.drop_last(), ids);
        lemma_sorted_by_ids_stable(s.drop_last(), ids, k);
        lemma_sorted_by_ids_orders(s.drop_last(), ids);
        lemma_rank_insert_position(prev, x, ids);
        let p = rank_insert_position(prev, x, ids);
        let front = prev.take(p);
        let back = prev.skip(p);
        assert(prev =~= front + back);
        assert(prev.insert(p, x) =~= front + seq![x] + back);
        Seq::filter_distributes_over_add(front, back, f);
        Seq::filter_distributes_over_add(front + seq![x], back, f);
        Seq::filter_distributes_over_add(front, seq![x], f);
        Seq::<Issue>::empty().lemma_filter_push(x, f);
        assert(Seq::<Issue>::empty().push(x) =~= seq![x]);
        s.drop_last().lemma_filter_push(x, f);
        assert(s.drop_last().push(x) =~= s);
        if f(x) {
            assert forall|j: int| 0 <= j < back.len() implies !f(#[trigger] back[j]) by {
                assert(back[j] == prev[p + j]);
                if j > 0 {
                    assert(id_rank(ids, prev[p].id@) <= id_rank(ids, prev[p + j].id@));
                }
            }
            back.lemma_all_neg_filter_empty(f);
            assert(back.filter(f) =~= Seq::<Issue>::empty());
        }
    }
}

/// Issues already in the order of the requested ids come back exactly as they were, so
/// issues of equal rank keep the order the tracker gave them.
pub proof fn lemma_sorted_by_ids_keeps_ordered_input(s: Seq<Issue>, ids: Seq<String>)
    requires
        forall|i: int, j: int|
            0 <= i < j < s.len() ==> id_rank(ids, (#[trigger] s[i]).id@) <= id_rank(
                ids,
                (#[trigger] s[j]).id@,
            ),
    ensures
        sorted_by_ids(s, ids) == s,
    decreases s.len(),
{
    if s.len() > 0 {
        let p = s.drop_last();
        assert forall|i: int, j: int| 0 <= i < j < p.len() implies id_rank(
            ids,
            (#[trigger] p[i]).id@,
        ) <= id_rank(ids, (#[trigger] p[j]).id@) by {
            assert(p[i] == s[i] && p[j] == s[j]);
        }
        lemma_sorted_by_ids_keeps_ordered_input(p, ids);
        lemma_rank_insert_position(p, s.last(), ids);
        if rank_insert_position(p, s.last(), ids) < p.len() {
            let k = rank_insert_position(p, s.last(), ids);
            assert(p[k] == s[k]);
            assert(id_rank(ids, s[k].id@) <= id_rank(ids, s[s.len() - 1].id@));
        }
        assert(p.insert(p.len() as int, s.last()) =~= s);
    }
}

// ---------------------------------------------------------------------------
// The turn loop
// ---------------------------------------------------------------------------

/// A run succeeds (and so runs the `after_run` hook) only on `turn/completed`: no other
/// event, neither the end of the agent's output nor silence, ends a turn with success.
pub proof fn lemma_turn_succeeds_only_on_completion(state: TurnState, event: TurnEvent)
    ensures
        (turn_step_spec(state, event).1 == TurnCommand::Finish(Ok(()))) <==> (!state.finished
            && (event matches TurnEvent::Agent { kind, .. } && kind == AgentMessage::TurnCompleted)),
{
}

/// The outcome of a turn is decided once: the step that decides it marks the turn
/// finished, and after that every event leaves the state as it is and decides nothing.
pub proof fn lemma_turn_outcome_decided_once(state: TurnState, event: TurnEvent)
    ensures
        state.finished ==> turn_step_spec(state, event) == (state, TurnCommand::KeepReading),
        turn_step_spec(state, event).1 is Finish ==> !state.finished && turn_step_spec(
            state,
            event,
        ).0.finished,
        turn_step_spec(state, event).0.turn_timeout_ms == state.turn_timeout_ms,
{
}

/// Silence ends a turn exactly when it lasts longer than the turn timeout, and then with
/// a timeout error.
pub proof fn lemma_turn_times_out_after_timeout(state: TurnState, idle_ms: u64)
    requires
        !state.finished,
    ensures
        idle_ms <= state.turn_timeout_ms ==> turn_step_spec(state, TurnEvent::Idle { idle_ms })
            == (state, TurnCommand::KeepReading),
        idle_ms > state.turn_timeout_ms ==> turn_step_spec(state, TurnEvent::Idle { idle_ms }).1
            == TurnCommand::Finish(Err("Turn execution timed out"@)),
{
}


// ---------------------------------------------------------------------------
// Priorities
// ---------------------------------------------------------------------------

/// Whether a priority is one of the standard ones, 1 (most urgent) to 4.
pub open spec fn standard_priority(p: Option<i64>) -> bool {
    p matches Some(n) && 1 <= n <= 4
}

/// A standard priority keeps its number as dispatch rank; anything else (none, or out of
/// range) ranks after every standard priority.
pub proof fn lemma_priority_rank_values(p: Option<i64>)
    ensures
        standard_priority(p) ==> rank_of(p) == p->0,
        !standard_priority(p) ==> rank_of(p) > 4,
        1 <= rank_of(p) <= 5,
{
}

/// Between two candidates, the one with the lower standard priority number goes first,
/// whatever their creation times; a candidate with a standard priority goes before one
/// without.
pub proof fn lemma_lower_priority_number_sorts_first(a: Issue, b: Issue)
    requires
        standard_priority(a.priority),
        !standard_priority(b.priority) || a.priority->0 < b.priority->0,
    ensures
        sorts_after(b, a),
        !sorts_after(a, b),
{
}

/// In dispatch order, standard priorities never decrease along the list, and no issue
/// with a standard priority comes after one without.
pub proof fn lemma_dispatch_order_by_priority(s: Seq<Issue>)
    ensures
        forall|i: int, j: int|
            0 <= i < j < dispatch_sorted(s).len() && standard_priority(
                (#[trigger] dispatch_sorted(s)[j]).priority,
            ) ==> standard_priority((#[trigger] dispatch_sorted(s)[i]).priority)
                && dispatch_sorted(s)[i].priority->0 <= dispatch_sorted(s)[j].priority->0,
{
    lemma_dispatch_sorted_orders(s);
    let r = dispatch_sorted(s);
    assert forall|i: int, j: int|
        0 <= i < j < r.len() && standard_priority((#[trigger] r[j]).priority) implies standard_priority(
        (#[trigger] r[i]).priority,
    ) && r[i].priority->0 <= r[j].priority->0 by {
        assert(rank_of(r[i].priority) <= rank_of(r[j].priority));
    }
}

/// Jira priority names, lower-cased, on the 1..4 scale: `highest` and `critical` are the
/// most urgent, `high` and `major` next, `low`, `minor` and `lowest` the least urgent,
/// and every other name (such as `medium`) is in the middle.
pub proof fn lemma_jira_priority_scale(lower: Seq<char>)
    ensures
        (jira_priority_rank(lower) == 1) <==> (lower == "highest"@ || lower == "critical"@),
        (jira_priority_rank(lower) == 2) <==> (lower == "high"@ || lower == "major"@),
        (jira_priority_rank(lower) == 4) <==> (lower == "low"@ || lower == "minor"@ || lower
            == "lowest"@),
        (jira_priority_rank(lower) == 3) <==> !(lower == "highest"@ || lower == "critical"@
            || lower == "high"@ || lower == "major"@ || lower == "low"@ || lower == "minor"@
            || lower == "lowest"@),
{
    reveal_strlit("highest");
    reveal_strlit("critical");
    reveal_strlit("high");
    reveal_strlit("major");
    reveal_strlit("medium");
    reveal_strlit("normal");
    reveal_strlit("low");
    reveal_strlit("minor");
    reveal_strlit("lowest");
    assert("highest"@.len() == 7 && "critical"@.len() == 8 && "high"@.len() == 4);
    assert("major"@.len() == 5 && "minor"@.len() == 5 && "low"@.len() == 3);
    assert("lowest"@.len() == 6 && "medium"@.len() == 6 && "normal"@.len() == 6);
    assert("major"@[1] != "minor"@[1]);
    assert("lowest"@[0] != "medium"@[0] && "lowest"@[0] != "normal"@[0]);
}

// ---------------------------------------------------------------------------
// Agent messages
// ---------------------------------------------------------------------------

/// Every approval request the agent protocol defines is answered: the command requests
/// (`item/commandExecution/requestApproval`, `execCommandApproval`) and the file-change
/// requests (`item/fileChange/requestApproval`, `applyPatchApproval`) are classified as
/// approvals, no other method is, and during a turn each of them leads to an answer.
pub proof fn lemma_approval_requests_are_answered(method: Seq<char>, state: TurnState, error_message: Option<String>)
    ensures
        (agent_message_for(method) == AgentMessage::CommandApproval) <==> (method
            == "item/commandExecution/requestApproval"@ || method == "execCommandApproval"@),
        (agent_message_for(method) == AgentMessage::PatchApproval) <==> (method
            == "item/fileChange/requestApproval"@ || method == "applyPatchApproval"@),
        (method == "item/commandExecution/requestApproval"@ || method == "execCommandApproval"@
            || method == "item/fileChange/requestApproval"@ || method == "applyPatchApproval"@)
            && !state.finished ==> turn_step_spec(
            state,
            TurnEvent::Agent { kind: agent_message_for(method), error_message },
        ).1 == TurnCommand::Approve,
        approval_decision_for("execCommandApproval"@) == "approved_for_session"@,
        approval_decision_for("applyPatchApproval"@) == "approved_for_session"@,
        approval_decision_for("item/commandExecution/requestApproval"@) == "acceptForSession"@,
        approval_decision_for("item/fileChange/requestApproval"@) == "acceptForSession"@,
{
    reveal_strlit("turn/completed");
    reveal_strlit("turn/failed");
    reveal_strlit("turn/cancelled");
    reveal_strlit("item/commandExecution/requestApproval");
    reveal_strlit("execCommandApproval");
    reveal_strlit("item/fileChange/requestApproval");
    reveal_strlit("applyPatchApproval");
    assert("item/commandExecution/requestApproval"@[5] != "item/fileChange/requestApproval"@[5]);
    assert("execCommandApproval"@[0] != "applyPatchApproval"@[0]);
    assert("execCommandApproval"@.len() != "item/fileChange/requestApproval"@.len());
    assert("item/commandExecution/requestApproval"@.len() != "applyPatchApproval"@.len());
    assert("item/commandExecution/requestApproval"@[0] != "turn/completed"@[0]);
    assert("item/commandExecution/requestApproval"@[0] != "turn/failed"@[0]);
    assert("item/commandExecution/requestApproval"@[0] != "turn/cancelled"@[0]);
    assert("item/fileChange/requestApproval"@[0] != "turn/completed"@[0]);
    assert("item/fileChange/requestApproval"@[0] != "turn/failed"@[0]);
    assert("item/fileChange/requestApproval"@[0] != "turn/cancelled"@[0]);
    assert("execCommandApproval"@[0] != "turn/completed"@[0]);
    assert("execCommandApproval"@[0] != "turn/failed"@[0]);
    assert("execCommandApproval"@[0] != "turn/cancelled"@[0]);
    assert("applyPatchApproval"@[0] != "turn/completed"@[0]);
    assert("applyPatchApproval"@[0] != "turn/failed"@[0]);
    assert("applyPatchApproval"@[0] != "turn/cancelled"@[0]);
    assert("item/commandExecution/requestApproval"@ != "execCommandApproval"@);
    assert("item/commandExecution/requestApproval"@ != "applyPatchApproval"@);
    assert("item/fileChange/requestApproval"@ != "execCommandApproval"@);
    assert("item/fileChange/requestApproval"@ != "applyPatchApproval"@);
}

/// Each protocol method has its one reaction: `turn/completed` ends the turn with
/// success, `turn/failed` and `turn/cancelled` with a failure, `item/tool/requestUserInput`
/// asks for the operator, `item/tool/call` runs a tool; every method outside the protocol
/// is read past.
pub proof fn lemma_agent_methods_classified(method: Seq<char>)
    ensures
        (agent_message_for(method) == AgentMessage::TurnCompleted) <==> method == "turn/completed"@,
        (agent_message_for(method) == AgentMessage::TurnFailed) <==> (method == "turn/failed"@
            || method == "turn/cancelled"@),
        (agent_message_for(method) == AgentMessage::InputRequired) <==> method
            == "item/tool/requestUserInput"@,
        (agent_message_for(method) == AgentMessage::ToolCall) <==> method == "item/tool/call"@,
        (agent_message_for(method) == AgentMessage::Ignored) <==> !(method == "turn/completed"@
            || method == "turn/failed"@ || method == "turn/cancelled"@ || method
            == "item/commandExecution/requestApproval"@ || method == "execCommandApproval"@
            || method == "item/fileChange/requestApproval"@ || method == "applyPatchApproval"@
            || method == "item/tool/requestUserInput"@ || method == "item/tool/call"@),
{
    reveal_strlit("turn/completed");
    reveal_strlit("turn/failed");
    reveal_strlit("turn/cancelled");
    reveal_strlit("item/commandExecution/requestApproval");
    reveal_strlit("execCommandApproval");
    reveal_strlit("item/fileChange/requestApproval");
    reveal_strlit("applyPatchApproval");
    reveal_strlit("item/tool/requestUserInput");
    reveal_strlit("item/tool/call");
    assert("turn/completed"@.len() == 14 && "turn/failed"@.len() == 11 && "turn/cancelled"@.len() == 14);
    assert("turn/completed"@[5] != "turn/cancelled"@[5] || "turn/completed"@[6] != "turn/cancelled"@[6]);
    assert("item/tool/requestUserInput"@.len() == 26 && "item/tool/call"@.len() == 14);
    assert("item/commandExecution/requestApproval"@.len() == 37);
    assert("item/fileChange/requestApproval"@.len() == 31);
    assert("execCommandApproval"@.len() == 19 && "applyPatchApproval"@.len() == 18);
    assert("item/tool/call"@[0] != "turn/completed"@[0] && "item/tool/call"@[0] != "turn/cancelled"@[0]);
}

// ---------------------------------------------------------------------------
// Git remotes
// ---------------------------------------------------------------------------

proof fn lemma_not_prefix(url: Seq<char>, p: Seq<char>, i: int)
    requires
        0 <= i < p.len(),
        i < url.len(),
        url[i] != p[i],
    ensures
        !has_prefix(url, p),
{
    if has_prefix(url, p) {
        assert(url.take(p.len() as int)[i] == url[i]);
    }
}

proof fn lemma_host_slug(s: Seq<char>, which: int)
    requires
        s.len() > 0,
        0 <= which < 4,
    ensures
        ({
            let p = if which == 0 {
                "git@github.com:"@
            } else if which == 1 {
                "https://github.com/"@
            } else if which == 2 {
                "git@gitlab.com:"@
            } else {
                "https://gitlab.com/"@
            };
            &&& remote_slug(p + s + ".git"@) == Some(s)
            &&& !(s.len() >= 4 && s.skip(s.len() - 4) == ".git"@) ==> remote_slug(p + s) == Some(s)
        }),
{
    reveal_strlit(".git");
    let p = if which == 0 {
        "git@github.com:"@
    } else if which == 1 {
        "https://github.com/"@
    } else if which == 2 {
        "git@gitlab.com:"@
    } else {
        "https://gitlab.com/"@
    };
    let git = ".git"@;
    assert(git.len() == 4);
    let t = s + git;
    lemma_known_host_slug(p, t, which);
    assert(p + s + git =~= p + t);
    assert(t.skip(t.len() - 4) =~= git);
    assert(t.take(t.len() - 4) =~= s);
    lemma_known_host_slug(p, s, which);
}

/// The project slug of a clone URL of GitHub or GitLab, over SSH or HTTPS, is exactly the
/// `owner/repo` path after the host, without the `.git` suffix (and with none, when the
/// path has none); and a GitHub URL names the GitHub tracker.
pub proof fn lemma_remote_slug_of_known_hosts(s: Seq<char>)
    requires
        s.len() > 0,
    ensures
        remote_slug("git@github.com:"@ + s + ".git"@) == Some(s),
        remote_slug("https://github.com/"@ + s + ".git"@) == Some(s),
        remote_slug("git@gitlab.com:"@ + s + ".git"@) == Some(s),
        remote_slug("https://gitlab.com/"@ + s + ".git"@) == Some(s),
        !(s.len() >= 4 && s.skip(s.len() - 4) == ".git"@) ==> {
            &&& remote_slug("git@github.com:"@ + s) == Some(s)
            &&& remote_slug("https://github.com/"@ + s) == Some(s)
            &&& remote_slug("git@gitlab.com:"@ + s) == Some(s)
            &&& remote_slug("https://gitlab.com/"@ + s) == Some(s)
        },
        remote_tracker("git@github.com:"@ + s) == Some("github"@),
        remote_tracker("https://github.com/"@ + s) == Some("github"@),
{
    lemma_host_slug(s, 0);
    lemma_host_slug(s, 1);
    lemma_host_slug(s, 2);
    lemma_host_slug(s, 3);
    lemma_github_url_tracker(s);
}

proof fn lemma_github_url_tracker(s: Seq<char>)
    ensures
        remote_tracker("git@github.com:"@ + s) == Some("github"@),
        remote_tracker("https://github.com/"@ + s) == Some("github"@),
{
    reveal_strlit("git@github.com:");
    reveal_strlit("https://github.com/");
    reveal_strlit("github.com");
    let u1 = "git@github.com:"@ + s;
    let u2 = "https://github.com/"@ + s;
    assert(u1.subrange(4, 14) =~= "github.com"@);
    assert(occurs_at(u1, "github.com"@, 4));
    assert(u2.subrange(8, 18) =~= "github.com"@);
    assert(occurs_at(u2, "github.com"@, 8));
}

/// After one of the four known host prefixes (`which` says which), the slug is read from
/// what follows it.
proof fn lemma_known_host_slug(p: Seq<char>, rest: Seq<char>, which: int)
    requires
        0 <= which < 4,
        p == (if which == 0 {
            "git@github.com:"@
        } else if which == 1 {
            "https://github.com/"@
        } else if which == 2 {
            "git@gitlab.com:"@
        } else {
            "https://gitlab.com/"@
        }),
    ensures
        ({
            let cleaned = rest;
            let stripped = if ".git"@.len() <= cleaned.len() && cleaned.skip(
                cleaned.len() - ".git"@.len(),
            ) == ".git"@ {
                cleaned.take(cleaned.len() - ".git"@.len())
            } else {
                cleaned
            };
            remote_slug(p + rest) == if stripped.len() > 0 {
                Some(stripped)
            } else {
                None
            }
        }),
{
    reveal_strlit("git@github.com:");
    reveal_strlit("https://github.com/");
    reveal_strlit("git@gitlab.com:");
    reveal_strlit("https://gitlab.com/");
    let url = p + rest;
    assert(url.take(p.len() as int) =~= p);
    assert(url.skip(p.len() as int) =~= rest);
    if which == 1 {
        lemma_not_prefix(url, "git@github.com:"@, 0);
    } else if which == 2 {
        lemma_not_prefix(url, "git@github.com:"@, 7);
        lemma_not_prefix(url, "https://github.com/"@, 0);
    } else if which == 3 {
        lemma_not_prefix(url, "git@github.com:"@, 0);
        lemma_not_prefix(url, "https://github.com/"@, 11);
        lemma_not_prefix(url, "git@gitlab.com:"@, 0);
    }
}

// ---------------------------------------------------------------------------
// Reconciliation
// ---------------------------------------------------------------------------

/// Reconciliation keeps a tracked issue only while it could still be worked on: an issue
/// in a terminal state is dropped and its workspace cleaned up; any other issue that is no
/// longer in an active state or no longer assigned to this worker is dropped; only an
/// active issue that is still assigned to this worker is kept and refreshed.
pub proof fn lemma_reconcile_keeps_only_assigned_active_issues(issue: Issue, settings: Settings)
    ensures
        is_terminal(issue, settings) ==> reconcile_step_for(issue, settings)
            == ReconcileStep::TerminateAndCleanup,
        !is_terminal(issue, settings) && !issue.assigned_to_worker ==> reconcile_step_for(
            issue,
            settings,
        ) == ReconcileStep::Terminate,
        !is_terminal(issue, settings) && !is_active(issue, settings) ==> reconcile_step_for(
            issue,
            settings,
        ) == ReconcileStep::Terminate,
        (reconcile_step_for(issue, settings) == ReconcileStep::Refresh) <==> (!is_terminal(
            issue,
            settings,
        ) && is_active(issue, settings) && issue.assigned_to_worker),
{
}
} // verus!
