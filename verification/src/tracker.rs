use vstd::prelude::*;
use vstd::string::StringExecFns;
use base64::Engine;

use crate::config::Settings;
use crate::slug::{slug_defined, slug_is_defined, slug_of, slugify};
use crate::strings::{
    clone_opt, concat, concat3, contains, contains_seq, ends_with, ends_with_char, has_prefix,
    opt_view, replace_char, replace_char_with, str_views,
};
use crate::text::{
    all_ascii, ascii_lower, join, eq_ignoring_case, lemma_trim_len, owned, push_char, same_lowercase, str_eq, to_lowercase, trim, trim_ws,
    unicode_lowercase,
};

verus! {

broadcast use vstd::string::group_string_axioms;

/// An issue that blocks another one.
#[derive(Clone, Debug)]
pub struct BlockerRef {
    pub id: String,
    pub identifier: String,
    pub state: Option<String>,
}

/// The tracker-independent form of an issue.
#[derive(Clone, Debug)]
pub struct Issue {
    pub id: String,
    pub identifier: String,
    pub title: String,
    pub description: Option<String>,
    pub priority: Option<i64>,
    pub state: String,
    pub branch_name: Option<String>,
    pub url: Option<String>,
    pub assignee_id: Option<String>,
    pub blocked_by: Vec<BlockerRef>,
    pub labels: Vec<String>,
    pub assigned_to_worker: bool,
    pub created_at: Option<String>,
    pub updated_at: Option<String>,
}

// ---------------------------------------------------------------------------
// Shared rules
// ---------------------------------------------------------------------------

/// Whether an issue is for this worker: without a filter every issue is; with one, only
/// an issue whose assignee matches it.
pub open spec fn assigned_exactly(filter: Option<Seq<char>>, assignee: Option<Seq<char>>) -> bool {
    match (filter, assignee) {
        (Some(f), Some(a)) => f == a,
        (Some(_), None) => false,
        _ => true,
    }
}

fn assigned_to(filter: Option<&str>, assignee: &Option<String>) -> (r: bool)
    ensures
        r == assigned_exactly(
            match filter {
                Some(f) => Some(f@),
                None => None,
            },
            opt_view(*assignee),
        ),
{
    match (filter, assignee) {
        (Some(f), Some(a)) => str_eq(f, a.as_str()),
        (Some(_), None) => false,
        _ => true,
    }
}

/// The branch name made from a lower-cased issue key (or number) and a title slug.
pub open spec fn branch_for(key: Seq<char>, slug: Seq<char>) -> Seq<char> {
    if slug.len() == 0 {
        "feature/issue-"@ + key
    } else {
        "feature/issue-"@ + key + "-"@ + slug
    }
}

fn make_branch(key: &str, title: &str) -> (r: String)
    requires
        slug_defined(title@),
    ensures
        r@ == branch_for(key@, slug_of(title@)),
{
    let slug = slugify(title);
    if slug.as_str().is_empty() {
        concat("feature/issue-", key)
    } else {
        let mut r = concat3("feature/issue-", key, "-");
        r.append(slug.as_str());
        r
    }
}

/// The lower-cased forms of `labels`.
pub open spec fn lowered(labels: Seq<Seq<char>>) -> Seq<Seq<char>> {
    labels.map_values(|l: Seq<char>| unicode_lowercase(l))
}

fn lowercase_all(labels: &Option<Vec<String>>) -> (r: Vec<String>)
    ensures
        str_views(r@) == match labels {
            Some(ls) => lowered(str_views(ls@)),
            None => Seq::empty(),
        },
{
    let mut r: Vec<String> = Vec::new();
    match labels {
        Some(ls) => {
            let mut i: usize = 0;
            while i < ls.len()
                invariant
                    i <= ls@.len(),
                    str_views(r@) == lowered(str_views(ls@)).take(i as int),
                decreases ls@.len() - i,
            {
                r.push(to_lowercase(ls[i].as_str()));
                proof {
                    assert(lowered(str_views(ls@)).take(i + 1) =~= lowered(str_views(ls@)).take(
                        i as int,
                    ).push(unicode_lowercase(ls@[i as int]@)));
                    assert(str_views(r@) =~= lowered(str_views(ls@)).take(i + 1));
                }
                i += 1;
            }
            proof {
                assert(lowered(str_views(ls@)).take(ls@.len() as int) =~= lowered(
                    str_views(ls@),
                ));
            }
        },
        None => {
            assert(str_views(r@) =~= Seq::<Seq<char>>::empty());
        },
    }
    r
}

// ---------------------------------------------------------------------------
// Linear
// ---------------------------------------------------------------------------

/// The issue on the other side of a Linear relation.
#[derive(Clone, Debug)]
pub struct BlockerIssueNode {
    pub id: String,
    pub identifier: String,
    pub state: Option<String>,
}

/// A Linear inverse relation (`type` and the related issue).
#[derive(Clone, Debug)]
pub struct InverseRelationNode {
    pub relation_type: String,
    pub issue: Option<BlockerIssueNode>,
}

/// An issue as Linear's GraphQL API reports it (state, assignee and label objects reduced
/// to the names and ids they carry).
#[derive(Clone, Debug)]
pub struct IssueNode {
    pub id: String,
    pub identifier: String,
    pub title: String,
    pub description: Option<String>,
    pub priority: Option<i64>,
    pub state: Option<String>,
    pub branch_name: Option<String>,
    pub url: Option<String>,
    pub assignee: Option<String>,
    pub labels: Option<Vec<String>>,
    pub inverse_relations: Option<Vec<InverseRelationNode>>,
    pub created_at: Option<String>,
    pub updated_at: Option<String>,
}

/// Whether a Linear relation marks a blocker: its type trims and lower-cases to `blocks`
/// and it names an issue.
pub open spec fn is_linear_blocker(r: InverseRelationNode) -> bool {
    unicode_lowercase(trim_ws(r.relation_type@)) == "blocks"@ && r.issue is Some
}

/// The blockers that a list of Linear relations names, in order.
pub open spec fn linear_blockers(rels: Seq<InverseRelationNode>) -> Seq<BlockerRef>
    decreases rels.len(),
{
    if rels.len() == 0 {
        seq![]
    } else {
        let prev = linear_blockers(rels.drop_last());
        let r = rels.last();
        if is_linear_blocker(r) {
            let b = r.issue->0;
            prev.push(BlockerRef { id: b.id, identifier: b.identifier, state: b.state })
        } else {
            prev
        }
    }
}

fn collect_linear_blockers(rels: &Option<Vec<InverseRelationNode>>) -> (r: Vec<BlockerRef>)
    ensures
        r@ == match rels {
            Some(v) => linear_blockers(v@),
            None => Seq::empty(),
        },
{
    let mut out: Vec<BlockerRef> = Vec::new();
    if let Some(v) = rels {
        let mut i: usize = 0;
        assert(v@.take(0) =~= Seq::<InverseRelationNode>::empty());
        while i < v.len()
            invariant
                i <= v@.len(),
                out@ == linear_blockers(v@.take(i as int)),
            decreases v@.len() - i,
        {
            let rel = &v[i];
            let kind = trim(rel.relation_type.as_str());
            let lower = to_lowercase(kind.as_str());
            let blocks = str_eq(lower.as_str(), "blocks");
            proof {
                let t = v@.take(i + 1);
                assert(t.drop_last() =~= v@.take(i as int));
                assert(t.last() == v@[i as int]);
            }
            if blocks {
                if let Some(b) = &rel.issue {
                    out.push(
                        BlockerRef {
                            id: b.id.clone(),
                            identifier: b.identifier.clone(),
                            state: clone_opt(&b.state),
                        },
                    );
                }
            }
            i += 1;
        }
        proof {
            assert(v@.take(v@.len() as int) =~= v@);
        }
    }
    out
}

/// The branch a Linear issue is worked on: its own branch name, or one made from its
/// identifier and title.
pub open spec fn linear_branch(node: IssueNode) -> Seq<char> {
    match node.branch_name {
        Some(b) => b@,
        None => branch_for(unicode_lowercase(node.identifier@), slug_of(node.title@)),
    }
}

/// What a normalized Linear issue holds: the node's fields, the state (or `Todo`), the
/// branch (`linear_branch`), the `blocks` relations as blockers, the labels lower-cased,
/// and whether the assignee matches the filter.
pub open spec fn is_linear_normalized(i: Issue, node: IssueNode, assignee_filter: Option<Seq<char>>) -> bool {
    &&& i.id == node.id
    &&& i.identifier == node.identifier
    &&& i.title == node.title
    &&& i.description == node.description
    &&& i.priority == node.priority
    &&& i.state@ == match node.state {
        Some(s) => s@,
        None => "Todo"@,
    }
    &&& i.branch_name is Some && i.branch_name->0@ == linear_branch(node)
    &&& i.url == node.url
    &&& i.assignee_id == node.assignee
    &&& i.blocked_by@ == match node.inverse_relations {
        Some(v) => linear_blockers(v@),
        None => Seq::empty(),
    }
    &&& str_views(i.labels@) == match node.labels {
        Some(ls) => lowered(str_views(ls@)),
        None => Seq::empty(),
    }
    &&& i.assigned_to_worker == assigned_exactly(assignee_filter, opt_view(node.assignee))
    &&& i.created_at == node.created_at
    &&& i.updated_at == node.updated_at
}

/// Normalizes a Linear issue. The state defaults to `Todo`, labels are lower-cased,
/// relations of type `blocks` become blockers, and a branch name is made up when Linear
/// has none.
pub fn normalize_issue(node: IssueNode, assignee_filter: Option<&str>) -> (r: Option<Issue>)
    requires
        node.branch_name is None ==> slug_defined(node.title@),
    ensures
        r is Some,
        is_linear_normalized(
            r->0,
            node,
            match assignee_filter {
                Some(f) => Some(f@),
                None => None,
            },
        ),
{
    let state = match node.state {
        Some(s) => s,
        None => owned("Todo"),
    };
    let assigned_to_worker = assigned_to(assignee_filter, &node.assignee);
    let labels = lowercase_all(&node.labels);
    let blocked_by = collect_linear_blockers(&node.inverse_relations);
    let branch_name = match node.branch_name {
        Some(b) => b,
        None => {
            let key = to_lowercase(node.identifier.as_str());
            make_branch(key.as_str(), node.title.as_str())
        },
    };
    Some(
        Issue {
            id: node.id,
            identifier: node.identifier,
            title: node.title,
            description: node.description,
            priority: node.priority,
            state,
            branch_name: Some(branch_name),
            url: node.url,
            assignee_id: node.assignee,
            blocked_by,
            labels,
            assigned_to_worker,
            created_at: node.created_at,
            updated_at: node.updated_at,
        },
    )
}

// ---------------------------------------------------------------------------
// Jira
// ---------------------------------------------------------------------------

/// The priority rank of a Jira priority name, after lower-casing it.
pub open spec fn jira_priority_rank(lower: Seq<char>) -> i64 {
    if lower == "highest"@ || lower == "critical"@ {
        1
    } else if lower == "high"@ || lower == "major"@ {
        2
    } else if lower == "medium"@ || lower == "normal"@ {
        3
    } else if lower == "low"@ || lower == "minor"@ || lower == "lowest"@ {
        4
    } else {
        3
    }
}

/// Maps a Jira priority name onto the 1..4 scale (unknown names are 3).
pub fn map_jira_priority(name: &str) -> (r: i64)
    ensures
        r == jira_priority_rank(unicode_lowercase(name@)),
        all_ascii(name@) ==> r == jira_priority_rank(name@.map_values(|c: char| ascii_lower(c))),
        1 <= r <= 4,
{
    let l = to_lowercase(name);
    let s = l.as_str();
    if str_eq(s, "highest") || str_eq(s, "critical") {
        1
    } else if str_eq(s, "high") || str_eq(s, "major") {
        2
    } else if str_eq(s, "medium") || str_eq(s, "normal") {
        3
    } else if str_eq(s, "low") || str_eq(s, "minor") || str_eq(s, "lowest") {
        4
    } else {
        3
    }
}

/// The character of the standard base64 alphabet for a six-bit value: `A`..`Z`, `a`..`z`,
/// `0`..`9`, `+`, `/`.
pub open spec fn base64_char(v: int) -> char {
    if v < 26 {
        (65 + v) as char
    } else if v < 52 {
        (97 + v - 26) as char
    } else if v < 62 {
        (48 + v - 52) as char
    } else if v == 62 {
        '+'
    } else {
        '/'
    }
}

/// Standard base64 of bytes: each group of three bytes becomes four characters, and a
/// last group of one or two bytes is padded with `=`.
pub open spec fn base64_bytes(b: Seq<u8>) -> Seq<char>
    decreases b.len(),
{
    if b.len() == 0 {
        seq![]
    } else {
        let x = b[0] as int;
        let y = if b.len() > 1 { b[1] as int } else { 0 };
        let z = if b.len() > 2 { b[2] as int } else { 0 };
        let c0 = base64_char(x / 4);
        let c1 = base64_char((x % 4) * 16 + y / 16);
        let c2 = base64_char((y % 16) * 4 + z / 64);
        let c3 = base64_char(z % 64);
        if b.len() == 1 {
            seq![c0, c1, '=', '=']
        } else if b.len() == 2 {
            seq![c0, c1, c2, '=']
        } else {
            seq![c0, c1, c2, c3] + base64_bytes(b.skip(3))
        }
    }
}

/// The standard base64 of the UTF-8 bytes of a text.
pub open spec fn base64_standard(text: Seq<char>) -> Seq<char> {
    base64_bytes(vstd::utf8::encode_utf8(text))
}

/// Calls the `base64` crate's standard engine (`BASE64_STANDARD.encode`), which writes the
/// UTF-8 bytes of the text in the standard alphabet with `=` padding. The engine panics
/// when the encoded length overflows `usize`, and its buffer cannot be allocated beyond
/// `isize::MAX` bytes; the bound on the input (at most four UTF-8 bytes per character)
/// rules both out.
#[verifier::external_body]
fn base64_encode(input: &str) -> (r: String)
    requires
        input@.len() <= usize::MAX / 16,
    ensures
        r@ == base64_standard(input@),
{
    base64::engine::general_purpose::STANDARD.encode(input.as_bytes())
}

/// The `Authorization` header for a Jira API key, from its trimmed form: kept as it is when
/// it already names a scheme, `Basic` over base64 when it holds `user:token`, else `Bearer`.
pub open spec fn jira_auth_header(key: Seq<char>) -> Seq<char> {
    let t = trim_ws(key);
    if has_prefix(t, "Basic "@) || has_prefix(t, "Bearer "@) {
        t
    } else if contains_seq(t, ":"@) {
        "Basic "@ + base64_standard(t)
    } else {
        "Bearer "@ + t
    }
}

/// Builds the Jira `Authorization` header value for an API key.
pub fn get_jira_auth_header(api_key: &str) -> (r: String)
    requires
        api_key@.len() <= usize::MAX / 16,
    ensures
        r@ == jira_auth_header(api_key@),
{
    let t = trim(api_key);
    let s = t.as_str();
    proof {
        lemma_trim_len(api_key@);
    }
    if crate::strings::starts_with(s, "Basic ") || crate::strings::starts_with(s, "Bearer ") {
        t
    } else if contains(s, ":") {
        let encoded = base64_encode(s);
        concat("Basic ", encoded.as_str())
    } else {
        concat("Bearer ", s)
    }
}

/// A Jira issue as the search API reports it (priority, status and assignee objects
/// reduced to the names and ids they carry).
#[derive(Clone, Debug)]
pub struct JiraIssueNode {
    pub id: String,
    pub key: String,
    pub summary: String,
    pub description: Option<String>,
    pub priority: Option<String>,
    pub status: String,
    pub assignee: Option<String>,
    pub labels: Option<Vec<String>>,
    pub created: Option<String>,
    pub updated: Option<String>,
    pub issuelinks: Option<Vec<JiraIssueLink>>,
}

/// A Jira issue link: its type name and the inward issue, if any.
#[derive(Clone, Debug)]
pub struct JiraIssueLink {
    pub link_type: String,
    pub inward_issue: Option<JiraSubIssue>,
}

/// The issue at the inward end of a Jira link.
#[derive(Clone, Debug)]
pub struct JiraSubIssue {
    pub id: String,
    pub key: String,
    pub status: String,
}

/// Whether a Jira link marks a blocker: its lower-cased type mentions `block` or
/// `depend`, and it has an inward issue.
pub open spec fn is_jira_blocker(l: JiraIssueLink) -> bool {
    let t = unicode_lowercase(l.link_type@);
    (contains_seq(t, "block"@) || contains_seq(t, "depend"@)) && l.inward_issue is Some
}

/// The blockers named by a list of Jira links, in order.
pub open spec fn jira_blockers(links: Seq<JiraIssueLink>) -> Seq<BlockerRef>
    decreases links.len(),
{
    if links.len() == 0 {
        seq![]
    } else {
        let prev = jira_blockers(links.drop_last());
        let l = links.last();
        if is_jira_blocker(l) {
            let s = l.inward_issue->0;
            prev.push(BlockerRef { id: s.id, identifier: s.key, state: Some(s.status) })
        } else {
            prev
        }
    }
}

fn collect_jira_blockers(links: &Option<Vec<JiraIssueLink>>) -> (r: Vec<BlockerRef>)
    ensures
        r@ == match links {
            Some(v) => jira_blockers(v@),
            None => Seq::empty(),
        },
{
    let mut out: Vec<BlockerRef> = Vec::new();
    if let Some(v) = links {
        let mut i: usize = 0;
        assert(v@.take(0) =~= Seq::<JiraIssueLink>::empty());
        while i < v.len()
            invariant
                i <= v@.len(),
                out@ == jira_blockers(v@.take(i as int)),
            decreases v@.len() - i,
        {
            let link = &v[i];
            let lower = to_lowercase(link.link_type.as_str());
            let hit = contains(lower.as_str(), "block") || contains(lower.as_str(), "depend");
            proof {
                let t = v@.take(i + 1);
                assert(t.drop_last() =~= v@.take(i as int));
                assert(t.last() == v@[i as int]);
            }
            if hit {
                if let Some(sub) = &link.inward_issue {
                    out.push(
                        BlockerRef {
                            id: sub.id.clone(),
                            identifier: sub.key.clone(),
                            state: Some(sub.status.clone()),
                        },
                    );
                }
            }
            i += 1;
        }
        proof {
            assert(v@.take(v@.len() as int) =~= v@);
        }
    }
    out
}

/// What a normalized Jira issue holds: the key is the identifier, the summary the title,
/// the priority name ranked, labels lower-cased, `block`/`depend` links with an inward
/// issue as blockers, the branch made from the key and summary, and whether the assignee
/// matches the filter.
pub open spec fn is_jira_normalized(i: Issue, node: JiraIssueNode, assignee_filter: Option<Seq<char>>) -> bool {
    &&& i.id == node.id
    &&& i.identifier == node.key
    &&& i.title == node.summary
    &&& i.description == node.description
    &&& i.priority == match node.priority {
        Some(p) => Some(jira_priority_rank(unicode_lowercase(p@))),
        None => None,
    }
    &&& i.state == node.status
    &&& i.branch_name is Some && i.branch_name->0@ == branch_for(
        unicode_lowercase(node.key@),
        slug_of(node.summary@),
    )
    &&& i.url is Some && i.url->0@ == node.key@ + "/browse/"@ + node.key@
    &&& i.assignee_id == node.assignee
    &&& i.blocked_by@ == match node.issuelinks {
        Some(v) => jira_blockers(v@),
        None => Seq::empty(),
    }
    &&& str_views(i.labels@) == match node.labels {
        Some(ls) => lowered(str_views(ls@)),
        None => Seq::empty(),
    }
    &&& i.assigned_to_worker == assigned_exactly(assignee_filter, opt_view(node.assignee))
    &&& i.created_at == node.created
    &&& i.updated_at == node.updated
}

/// Normalizes a Jira issue (see `is_jira_normalized`).
pub fn normalize_jira_issue(node: JiraIssueNode, assignee_filter: Option<&str>) -> (i: Issue)
    requires
        slug_defined(node.summary@),
    ensures
        is_jira_normalized(
            i,
            node,
            match assignee_filter {
                Some(f) => Some(f@),
                None => None,
            },
        ),
{
    let assigned_to_worker = assigned_to(assignee_filter, &node.assignee);
    let labels = lowercase_all(&node.labels);
    let blocked_by = collect_jira_blockers(&node.issuelinks);
    let key_lower = to_lowercase(node.key.as_str());
    let branch_name = make_branch(key_lower.as_str(), node.summary.as_str());
    let url = concat3(node.key.as_str(), "/browse/", node.key.as_str());
    let priority = match &node.priority {
        Some(p) => Some(map_jira_priority(p.as_str())),
        None => None,
    };
    Issue {
        id: node.id,
        identifier: node.key,
        title: node.summary,
        description: node.description,
        priority,
        state: node.status,
        branch_name: Some(branch_name),
        url: Some(url),
        assignee_id: node.assignee,
        blocked_by,
        labels,
        assigned_to_worker,
        created_at: node.created,
        updated_at: node.updated,
    }
}

// ---------------------------------------------------------------------------
// GitHub
// ---------------------------------------------------------------------------

/// A GitHub issue as the REST API reports it (assignee and labels reduced to login and
/// names; `pull_request` records whether the entry is a pull request).
#[derive(Clone, Debug)]
pub struct GitHubIssue {
    pub number: i64,
    pub title: String,
    pub body: Option<String>,
    pub state: String,
    pub html_url: String,
    pub assignee: Option<String>,
    pub labels: Option<Vec<String>>,
    pub created_at: String,
    pub updated_at: String,
    pub pull_request: bool,
}

/// The decimal digit character for `d` (`0 <= d < 10`).
pub open spec fn digit_char(d: nat) -> char {
    ((d + 48) as u8) as char
}

/// The decimal representation of a natural number.
pub open spec fn decimal_nat(n: nat) -> Seq<char>
    decreases n,
{
    if n < 10 {
        seq![digit_char(n)]
    } else {
        decimal_nat(n / 10).push(digit_char(n % 10))
    }
}

/// The decimal representation of an integer, as `to_string` writes it.
pub open spec fn decimal(n: int) -> Seq<char> {
    if n < 0 {
        seq!['-'] + decimal_nat((-n) as nat)
    } else {
        decimal_nat(n as nat)
    }
}

fn push_decimal(out: &mut String, n: u64)
    ensures
        final(out)@ == old(out)@ + decimal_nat(n as nat),
    decreases n,
{
    if n >= 10 {
        push_decimal(out, n / 10);
    }
    let d: u8 = (n % 10) as u8;
    push_char(out, (d + 48) as char);
    proof {
        if n < 10 {
            assert(decimal_nat(n as nat) == seq![digit_char(n as nat)]);
        }
    }
}

/// The decimal text of an `i64`.
pub fn i64_to_decimal(n: i64) -> (r: String)
    ensures
        r@ == decimal(n as int),
{
    let mut out = String::new();
    if n < 0 {
        push_char(&mut out, '-');
        let m: i128 = -(n as i128);
        push_decimal(&mut out, m as u64);
    } else {
        push_decimal(&mut out, n as u64);
    }
    out
}

/// The first of `states` equal to `label` after lower-casing both.
pub open spec fn find_state(states: Seq<Seq<char>>, label: Seq<char>) -> Option<Seq<char>>
    decreases states.len(),
{
    if states.len() == 0 {
        None
    } else if same_lowercase(states[0], label) {
        Some(states[0])
    } else {
        find_state(states.drop_first(), label)
    }
}

/// The state named by the first label that matches one of `states`.
pub open spec fn label_state(labels: Seq<Seq<char>>, states: Seq<Seq<char>>) -> Option<Seq<char>>
    decreases labels.len(),
{
    if labels.len() == 0 {
        None
    } else {
        match find_state(states, labels[0]) {
            Some(s) => Some(s),
            None => label_state(labels.drop_first(), states),
        }
    }
}

/// The state of a GitHub issue. A closed issue takes the first terminal state; an open
/// one the state of its first label naming a terminal state. Failing that, the first label
/// naming an active state decides; failing that, the first terminal state (or `Done`) for a
/// closed issue and the first active state (or `Todo`) for an open one.
pub open spec fn github_state(
    native: Seq<char>,
    labels: Seq<Seq<char>>,
    active: Seq<Seq<char>>,
    terminal: Seq<Seq<char>>,
) -> Seq<char> {
    let closed = unicode_lowercase(native) == "closed"@;
    let first = if closed {
        if terminal.len() > 0 {
            Some(terminal[0])
        } else {
            None
        }
    } else {
        label_state(labels, terminal)
    };
    let resolved = if first is Some {
        first
    } else {
        label_state(labels, active)
    };
    match resolved {
        Some(s) => s,
        None => if closed {
            if terminal.len() > 0 {
                terminal[0]
            } else {
                "Done"@
            }
        } else {
            if active.len() > 0 {
                active[0]
            } else {
                "Todo"@
            }
        },
    }
}

/// Whether a GitHub issue is for this worker: the login is compared with the filter after
/// lower-casing both.
pub open spec fn assigned_ignoring_case(filter: Option<Seq<char>>, assignee: Option<Seq<char>>) -> bool {
    match (filter, assignee) {
        (Some(f), Some(a)) => same_lowercase(f, a),
        (Some(_), None) => false,
        _ => true,
    }
}

fn find_state_exec(states: &Vec<String>, label: &str) -> (r: Option<String>)
    ensures
        opt_view(r) == find_state(str_views(states@), label@),
{
    let mut i: usize = 0;
    proof {
        assert(str_views(states@).skip(0) =~= str_views(states@));
    }
    while i < states.len()
        invariant
            i <= states@.len(),
            find_state(str_views(states@), label@) == find_state(
                str_views(states@).skip(i as int),
                label@,
            ),
        decreases states@.len() - i,
    {
        proof {
            let t = str_views(states@).skip(i as int);
            assert(t.drop_first() =~= str_views(states@).skip(i + 1));
            assert(t[0] == states@[i as int]@);
        }
        if eq_ignoring_case(states[i].as_str(), label) {
            return Some(states[i].clone());
        }
        i += 1;
    }
    None
}

fn label_state_exec(labels: &Vec<String>, states: &Vec<String>) -> (r: Option<String>)
    ensures
        opt_view(r) == label_state(str_views(labels@), str_views(states@)),
{
    let mut i: usize = 0;
    proof {
        assert(str_views(labels@).skip(0) =~= str_views(labels@));
    }
    while i < labels.len()
        invariant
            i <= labels@.len(),
            label_state(str_views(labels@), str_views(states@)) == label_state(
                str_views(labels@).skip(i as int),
                str_views(states@),
            ),
        decreases labels@.len() - i,
    {
        proof {
            let t = str_views(labels@).skip(i as int);
            assert(t.drop_first() =~= str_views(labels@).skip(i + 1));
            assert(t[0] == labels@[i as int]@);
        }
        let found = find_state_exec(states, labels[i].as_str());
        if found.is_some() {
            return found;
        }
        i += 1;
    }
    None
}

fn first_or(states: &Vec<String>, fallback: &str) -> (r: String)
    ensures
        r@ == if states@.len() > 0 {
            states@[0]@
        } else {
            fallback@
        },
{
    if states.len() > 0 {
        states[0].clone()
    } else {
        owned(fallback)
    }
}

/// What a normalized GitHub issue holds: the issue number as id and identifier, the state
/// from `github_state`, the labels as they are, no blockers or priority, the branch made
/// from the number and title, and whether the login matches the configured assignee
/// (ignoring case).
pub open spec fn is_github_normalized(i: Issue, node: GitHubIssue, config: Settings) -> bool {
    &&& i.id@ == decimal(node.number as int)
    &&& i.identifier@ == decimal(node.number as int)
    &&& i.title == node.title
    &&& i.description == node.body
    &&& i.priority is None
    &&& i.state@ == github_state(
        node.state@,
        match node.labels {
            Some(ls) => str_views(ls@),
            None => Seq::empty(),
        },
        str_views(config.tracker.active_states@),
        str_views(config.tracker.terminal_states@),
    )
    &&& i.branch_name is Some && i.branch_name->0@ == branch_for(
        decimal(node.number as int),
        slug_of(node.title@),
    )
    &&& i.url == Some(node.html_url)
    &&& i.assignee_id == node.assignee
    &&& i.blocked_by@.len() == 0
    &&& i.labels@ == match node.labels {
        Some(ls) => ls@,
        None => Seq::empty(),
    }
    &&& i.assigned_to_worker == assigned_ignoring_case(
        opt_view(config.tracker.assignee),
        opt_view(node.assignee),
    )
    &&& i.created_at == Some(node.created_at)
    &&& i.updated_at == Some(node.updated_at)
}

/// Normalizes a GitHub issue against the tracker configuration (see
/// `is_github_normalized`).
pub fn normalize_github_issue(node: GitHubIssue, config: &Settings) -> (i: Issue)
    requires
        slug_defined(node.title@),
    ensures
        is_github_normalized(i, node, *config),
{
    let labels: Vec<String> = match node.labels {
        Some(ls) => ls,
        None => Vec::new(),
    };
    let terminal = &config.tracker.terminal_states;
    let active = &config.tracker.active_states;
    let native_lower = to_lowercase(node.state.as_str());
    let closed = str_eq(native_lower.as_str(), "closed");
    let mut resolved: Option<String> = if closed {
        if terminal.len() > 0 {
            Some(terminal[0].clone())
        } else {
            None
        }
    } else {
        label_state_exec(&labels, terminal)
    };
    if resolved.is_none() {
        resolved = label_state_exec(&labels, active);
    }
    let state = match resolved {
        Some(s) => s,
        None => if closed {
            first_or(terminal, "Done")
        } else {
            first_or(active, "Todo")
        },
    };
    let assigned_to_worker = match (&config.tracker.assignee, &node.assignee) {
        (Some(f), Some(a)) => eq_ignoring_case(f.as_str(), a.as_str()),
        (Some(_), None) => false,
        _ => true,
    };
    let number = i64_to_decimal(node.number);
    let branch_name = make_branch(number.as_str(), node.title.as_str());
    let identifier = number.clone();
    proof {
        assert(str_views(labels@) == match node.labels {
            Some(ls) => str_views(ls@),
            None => Seq::<Seq<char>>::empty(),
        }) by {
            if node.labels is None {
                assert(str_views(labels@) =~= Seq::<Seq<char>>::empty());
            }
        }
    }
    Issue {
        id: number,
        identifier,
        title: node.title,
        description: node.body,
        priority: None,
        state,
        branch_name: Some(branch_name),
        url: Some(node.html_url),
        assignee_id: node.assignee,
        blocked_by: Vec::new(),
        labels,
        assigned_to_worker,
        created_at: Some(node.created_at),
        updated_at: Some(node.updated_at),
    }
}

// ---------------------------------------------------------------------------
// The in-memory demo tracker
// ---------------------------------------------------------------------------

/// The demo issue that the memory tracker serves, in the given state.
pub open spec fn is_demo_issue(i: Issue, state: Seq<char>) -> bool {
    &&& i.id@ == "demo-issue-1"@
    &&& i.identifier@ == "DEMO-101"@
    &&& i.title@ == "Implement vintage macOS-style badges in TodoMVC footer"@
    &&& i.description is Some
    &&& i.description->0@ == "We need to add vintage macOS-styled badges to the Active and Completed filter tabs in the TodoMVC footer to display their respective item counts dynamically. Do not change the behavior of the filters themselves."@
    &&& i.priority == Some(2i64)
    &&& i.state@ == state
    &&& i.branch_name is Some && i.branch_name->0@ == "feature/demo-badges"@
    &&& i.url is Some && i.url->0@ == "https://github.com/drew-simmons/skrvm/issues/101"@
    &&& i.assignee_id is Some && i.assignee_id->0@ == "me"@
    &&& i.blocked_by@.len() == 0
    &&& str_views(i.labels@) == seq!["enhancement"@]
    &&& i.assigned_to_worker
    &&& i.created_at is Some && i.created_at->0@ == "2026-05-30T09:00:00Z"@
    &&& i.updated_at is Some && i.updated_at->0@ == "2026-05-30T09:00:00Z"@
}

/// The demo issue in state `state`.
pub fn demo_issue(state: &str) -> (r: Issue)
    ensures
        is_demo_issue(r, state@),
{
    let labels = vec![owned("enhancement")];
    let r = Issue {
        id: owned("demo-issue-1"),
        identifier: owned("DEMO-101"),
        title: owned("Implement vintage macOS-style badges in TodoMVC footer"),
        description: Some(owned("We need to add vintage macOS-styled badges to the Active and Completed filter tabs in the TodoMVC footer to display their respective item counts dynamically. Do not change the behavior of the filters themselves.")),
        priority: Some(2),
        state: owned(state),
        branch_name: Some(owned("feature/demo-badges")),
        url: Some(owned("https://github.com/drew-simmons/skrvm/issues/101")),
        assignee_id: Some(owned("me")),
        blocked_by: Vec::new(),
        labels,
        assigned_to_worker: true,
        created_at: Some(owned("2026-05-30T09:00:00Z")),
        updated_at: Some(owned("2026-05-30T09:00:00Z")),
    };
    assert(str_views(r.labels@) =~= seq!["enhancement"@]);
    r
}

/// When the memory tracker last handed out its demo issue (milliseconds on a monotonic
/// clock).
#[derive(Clone, Debug)]
pub struct MemoryTrackerState {
    pub dispatched_at_ms: Option<u64>,
}

/// Whole seconds from `since` to `now` (zero when the clock reads earlier).
pub open spec fn elapsed_secs(since: u64, now: u64) -> int {
    if now >= since {
        (now - since) / 1000
    } else {
        0
    }
}

fn elapsed_seconds(since: u64, now: u64) -> (r: u64)
    ensures
        r == elapsed_secs(since, now),
{
    if now >= since {
        (now - since) / 1000
    } else {
        0
    }
}

/// The demo issue's state as the memory tracker reports it: `Done` from four seconds
/// after it was handed out, `Todo` before that or when it was not handed out.
pub open spec fn demo_state(dispatched_at_ms: Option<u64>, now_ms: u64) -> Seq<char> {
    match dispatched_at_ms {
        Some(d) => if elapsed_secs(d, now_ms) >= 4 {
            "Done"@
        } else {
            "Todo"@
        },
        None => "Todo"@,
    }
}

/// Whether the memory tracker may hand out its demo issue at `now_ms`: nothing is handed
/// out, or the last hand-out is more than ten seconds old.
pub open spec fn hand_out_due(dispatched_at_ms: Option<u64>, now_ms: u64) -> bool {
    match dispatched_at_ms {
        Some(d) => elapsed_secs(d, now_ms) > 10,
        None => true,
    }
}

impl MemoryTrackerState {
    /// Nothing handed out yet.
    pub fn new() -> (r: MemoryTrackerState)
        ensures
            r.dispatched_at_ms is None,
    {
        MemoryTrackerState { dispatched_at_ms: None }
    }

    /// The candidates of a poll. A hand-out older than ten seconds is forgotten; when
    /// nothing is handed out, the demo issue is handed out now, in `Todo`.
    pub fn poll_candidates(&mut self, now_ms: u64) -> (r: Vec<Issue>)
        ensures
            ({
                if hand_out_due(old(self).dispatched_at_ms, now_ms) {
                    &&& final(self).dispatched_at_ms == Some(now_ms)
                    &&& r@.len() == 1
                    &&& is_demo_issue(r@[0], "Todo"@)
                } else {
                    &&& final(self).dispatched_at_ms == old(self).dispatched_at_ms
                    &&& r@.len() == 0
                }
            }),
    {
        if let Some(d) = self.dispatched_at_ms {
            if elapsed_seconds(d, now_ms) > 10 {
                self.dispatched_at_ms = None;
            }
        }
        if self.dispatched_at_ms.is_none() {
            self.dispatched_at_ms = Some(now_ms);
            let mut r = Vec::new();
            r.push(demo_issue("Todo"));
            r
        } else {
            Vec::new()
        }
    }

    /// The refreshed states of `ids`: the demo issue for each id that names it, in
    /// `demo_state`; other ids are unknown to this tracker.
    pub fn issue_states(&self, ids: &Vec<String>, now_ms: u64) -> (r: Vec<Issue>)
        ensures
            r@.len() == ids@.filter(|id: String| id@ == "demo-issue-1"@).len(),
            forall|j: int|
                0 <= j < r@.len() ==> is_demo_issue(
                    #[trigger] r@[j],
                    demo_state(self.dispatched_at_ms, now_ms),
                ),
    {
        let ghost pred = |id: String| id@ == "demo-issue-1"@;
        let state: &str = match self.dispatched_at_ms {
            Some(d) => if elapsed_seconds(d, now_ms) >= 4 {
                "Done"
            } else {
                "Todo"
            },
            None => "Todo",
        };
        let mut r: Vec<Issue> = Vec::new();
        let mut i: usize = 0;
        proof {
            assert(ids@.take(0).filter(pred) =~= Seq::<String>::empty());
        }
        while i < ids.len()
            invariant
                i <= ids@.len(),
                pred == (|id: String| id@ == "demo-issue-1"@),
                state@ == demo_state(self.dispatched_at_ms, now_ms),
                r@.len() == ids@.take(i as int).filter(pred).len(),
                forall|j: int|
                    0 <= j < r@.len() ==> is_demo_issue(
                        #[trigger] r@[j],
                        demo_state(self.dispatched_at_ms, now_ms),
                    ),
            decreases ids@.len() - i,
        {
            proof {
                let t = ids@.take(i + 1);
                assert(t.drop_last() =~= ids@.take(i as int));
                reveal(Seq::filter);
                assert(t.filter(pred) == if pred(t.last()) {
                    t.drop_last().filter(pred).push(t.last())
                } else {
                    t.drop_last().filter(pred)
                });
            }
            let hit = str_eq(ids[i].as_str(), "demo-issue-1");
            proof {
                assert(pred(ids@[i as int]) == hit);
                assert(ids@.take(i + 1).last() == ids@[i as int]);
            }
            if hit {
                r.push(demo_issue(state));
            }
            i += 1;
        }
        proof {
            assert(ids@.take(ids@.len() as int) =~= ids@);
        }
        r
    }
}

// ---------------------------------------------------------------------------
// Linear queries
// ---------------------------------------------------------------------------

/// How Linear issues are filtered by assignee.
#[derive(Clone, Debug)]
pub enum AssigneeFilter {
    /// `me`: the viewer's id must be looked up first.
    Viewer,
    /// A given id.
    Id(String),
    /// No filter.
    NoFilter,
}

/// Decides the Linear assignee filter: `me` means the viewer, a non-blank value an id,
/// anything else no filter.
pub fn linear_assignee_filter(assignee: &Option<String>) -> (r: AssigneeFilter)
    ensures
        r == match assignee {
            Some(a) => if a@ == "me"@ {
                AssigneeFilter::Viewer
            } else if trim_ws(a@).len() > 0 {
                AssigneeFilter::Id(*a)
            } else {
                AssigneeFilter::NoFilter
            },
            None => AssigneeFilter::NoFilter,
        },
{
    match assignee {
        Some(a) => if str_eq(a.as_str(), "me") {
            AssigneeFilter::Viewer
        } else if !crate::text::is_blank(a.as_str()) {
            AssigneeFilter::Id(a.clone())
        } else {
            AssigneeFilter::NoFilter
        },
        None => AssigneeFilter::NoFilter,
    }
}

// ---------------------------------------------------------------------------
// Jira queries
// ---------------------------------------------------------------------------

/// A JQL string literal: the text in single quotes, with `'` escaped as `\'`.
pub open spec fn jql_quoted(s: Seq<char>) -> Seq<char> {
    "'"@ + replace_char(s, '\'', "\\'"@) + "'"@
}

/// The quoted forms of `items`, joined with `, `.
pub open spec fn jql_list(items: Seq<Seq<char>>) -> Seq<char> {
    join(items.map_values(|s: Seq<char>| jql_quoted(s)), ", "@)
}

fn quote_jql(s: &str) -> (r: String)
    ensures
        r@ == jql_quoted(s@),
{
    let escaped = replace_char_with(s, '\'', "\\'");
    concat3("'", escaped.as_str(), "'")
}

fn jql_list_of(items: &Vec<String>) -> (r: String)
    ensures
        r@ == jql_list(str_views(items@)),
{
    let ghost q = str_views(items@).map_values(|s: Seq<char>| jql_quoted(s));
    let mut r = String::new();
    let mut i: usize = 0;
    while i < items.len()
        invariant
            i <= items@.len(),
            q == str_views(items@).map_values(|s: Seq<char>| jql_quoted(s)),
            r@ == join(q.take(i as int), ", "@),
        decreases items@.len() - i,
    {
        let ghost before = r@;
        if i > 0 {
            r.append(", ");
        }
        let item = quote_jql(items[i].as_str());
        r.append(item.as_str());
        proof {
            let t = q.take(i + 1);
            assert(t.drop_last() =~= q.take(i as int));
            assert(t.last() == jql_quoted(items@[i as int]@));
            if i == 0 {
                assert(t.len() == 1);
                assert(r@ =~= t[0]);
            }
        }
        i += 1;
    }
    proof {
        assert(q.take(items@.len() as int) =~= q);
    }
    r
}

/// The JQL that selects the configured project's active issues for the worker (the
/// project key is put between quotes as it is; states and assignee are quoted).
pub open spec fn jira_candidate_jql(slug: Seq<char>, active: Seq<Seq<char>>, assignee: Option<Seq<char>>) -> Seq<char> {
    let base = "project = '"@ + slug + "'"@;
    let with_states = if active.len() > 0 {
        base + " AND status in ("@ + jql_list(active) + ")"@
    } else {
        base
    };
    let with_assignee = match assignee {
        Some(a) => if a == "me"@ {
            with_states + " AND assignee = currentUser()"@
        } else if trim_ws(a).len() > 0 {
            with_states + " AND assignee = "@ + jql_quoted(a)
        } else {
            with_states
        },
        None => with_states,
    };
    with_assignee + " ORDER BY created ASC"@
}

/// Builds the JQL that selects candidate issues.
pub fn build_candidate_jql(settings: &Settings) -> (r: String)
    ensures
        r@ == jira_candidate_jql(
            settings.tracker.project_slug@,
            str_views(settings.tracker.active_states@),
            opt_view(settings.tracker.assignee),
        ),
{
    let mut jql = concat3("project = '", settings.tracker.project_slug.as_str(), "'");
    if settings.tracker.active_states.len() > 0 {
        let list = jql_list_of(&settings.tracker.active_states);
        jql.append(" AND status in (");
        jql.append(list.as_str());
        jql.append(")");
    }
    match &settings.tracker.assignee {
        Some(a) => {
            if str_eq(a.as_str(), "me") {
                jql.append(" AND assignee = currentUser()");
            } else if !crate::text::is_blank(a.as_str()) {
                let q = quote_jql(a.as_str());
                jql.append(" AND assignee = ");
                jql.append(q.as_str());
            }
        },
        None => {},
    }
    jql.append(" ORDER BY created ASC");
    jql
}

/// Builds the JQL that selects issues by id.
pub fn build_ids_jql(ids: &Vec<String>) -> (r: String)
    ensures
        r@ == "id in ("@ + jql_list(str_views(ids@)) + ")"@,
{
    let list = jql_list_of(ids);
    concat3("id in (", list.as_str(), ")")
}

/// Builds the JQL that selects the project's issues in the given states.
pub fn build_states_jql(project_slug: &str, states: &Vec<String>) -> (r: String)
    ensures
        r@ == "project = '"@ + project_slug@ + "'"@ + " AND status in ("@ + jql_list(
            str_views(states@),
        ) + ")"@ + " ORDER BY created ASC"@,
{
    let mut jql = concat3("project = '", project_slug, "'");
    let list = jql_list_of(states);
    jql.append(" AND status in (");
    jql.append(list.as_str());
    jql.append(")");
    jql.append(" ORDER BY created ASC");
    jql
}

/// `s` with a `/` added unless it already ends with one.
pub open spec fn with_slash(s: Seq<char>) -> Seq<char> {
    if s.len() > 0 && s.last() == '/' {
        s
    } else {
        s.push('/')
    }
}

/// The Jira search endpoint: a bare site gets `rest/api/2/search`; a REST API URL that
/// does not end in `/search` gets `search`.
pub open spec fn jira_search_url_for(endpoint: Seq<char>) -> Seq<char> {
    if !contains_seq(endpoint, "/rest/api/"@) {
        with_slash(endpoint) + "rest/api/2/search"@
    } else if !(endpoint.len() >= "/search"@.len() && endpoint.skip(
        endpoint.len() - "/search"@.len(),
    ) == "/search"@) {
        with_slash(endpoint) + "search"@
    } else {
        endpoint
    }
}

/// Normalizes the Jira endpoint into its search URL.
pub fn jira_search_url(endpoint: &str) -> (r: String)
    ensures
        r@ == jira_search_url_for(endpoint@),
{
    let mut url = owned(endpoint);
    if !contains(endpoint, "/rest/api/") {
        if !ends_with_char(endpoint, '/') {
            push_char(&mut url, '/');
        }
        url.append("rest/api/2/search");
    } else if !ends_with(endpoint, "/search") {
        if !ends_with_char(endpoint, '/') {
            push_char(&mut url, '/');
        }
        url.append("search");
    }
    url
}

/// The cursor of the next page of a Linear query: the end cursor of this page when the
/// page says more follow and names one; otherwise there is no next page.
pub fn linear_next_cursor(has_next_page: bool, end_cursor: Option<String>) -> (r: Option<String>)
    ensures
        r == (if has_next_page && end_cursor is Some {
            end_cursor
        } else {
            None
        }),
{
    if has_next_page && end_cursor.is_some() {
        end_cursor
    } else {
        None
    }
}

/// Whether a paged Jira search is finished after a page of `count` issues starting at
/// `start_at`, out of `total`.
pub fn jira_search_done(start_at: usize, count: usize, total: usize) -> (r: bool)
    ensures
        r == (start_at + count >= total || count == 0),
{
    count == 0 || start_at >= total || count >= total - start_at
}

// ---------------------------------------------------------------------------
// GitHub queries
// ---------------------------------------------------------------------------

/// The URL of one page of a repository's issues (all states, 50 per page).
pub fn github_issues_page_url(endpoint: &str, project_slug: &str, page: u64) -> (r: String)
    ensures
        r@ == endpoint@ + "/repos/"@ + project_slug@ + "/issues?state=all&per_page=50&page="@
            + decimal(page as int),
{
    let mut url = concat3(endpoint, "/repos/", project_slug);
    url.append("/issues?state=all&per_page=50&page=");
    let n = u64_to_decimal(page);
    url.append(n.as_str());
    url
}

/// The URL of one issue of a repository.
pub fn github_issue_url(endpoint: &str, project_slug: &str, id: &str) -> (r: String)
    ensures
        r@ == endpoint@ + "/repos/"@ + project_slug@ + "/issues/"@ + id@,
{
    let mut url = concat3(endpoint, "/repos/", project_slug);
    url.append("/issues/");
    url.append(id);
    url
}

/// The decimal text of a `u64`.
pub fn u64_to_decimal(n: u64) -> (r: String)
    ensures
        r@ == decimal(n as int),
{
    let mut out = String::new();
    push_decimal(&mut out, n);
    out
}

/// Whether an issue's state is one of `states`, comparing lower-cased.
pub open spec fn state_listed(states: Seq<String>, issue: Issue) -> bool {
    exists|i: int| 0 <= i < states.len() && same_lowercase(#[trigger] states[i]@, issue.state@)
}

/// Decides whether an issue's state is one of `states`, ignoring case.
pub fn has_listed_state(states: &Vec<String>, issue: &Issue) -> (r: bool)
    ensures
        r == state_listed(states@, *issue),
{
    let mut i: usize = 0;
    while i < states.len()
        invariant
            i <= states@.len(),
            forall|j: int| 0 <= j < i ==> !same_lowercase(#[trigger] states@[j]@, issue.state@),
        decreases states@.len() - i,
    {
        if eq_ignoring_case(states[i].as_str(), issue.state.as_str()) {
            return true;
        }
        i += 1;
    }
    false
}

/// Keeps the issues whose state is one of `states` (ignoring case), in order.
pub fn retain_listed_states(issues: Vec<Issue>, states: &Vec<String>) -> (r: Vec<Issue>)
    ensures
        r@ == issues@.filter(|i: Issue| state_listed(states@, i)),
{
    let ghost pred = |i: Issue| state_listed(states@, i);
    let ghost orig = issues@;
    let mut rest = issues;
    let mut out: Vec<Issue> = Vec::new();
    let n = rest.len();
    let mut k: usize = 0;
    proof {
        assert(orig.take(0).filter(pred) =~= Seq::<Issue>::empty());
        assert(orig.skip(0) =~= orig);
    }
    while k < n
        invariant
            n == orig.len(),
            k <= n,
            pred == (|i: Issue| state_listed(states@, i)),
            rest@ == orig.skip(k as int),
            out@ == orig.take(k as int).filter(pred),
        decreases n - k,
    {
        let x = rest.remove(0);
        proof {
            assert(x == orig[k as int]);
            assert(orig.skip(k as int).remove(0) =~= orig.skip(k + 1));
            let t = orig.take(k + 1);
            assert(t.drop_last() =~= orig.take(k as int));
            assert(t.last() == x);
            reveal(Seq::filter);
            assert(t.filter(pred) == if pred(t.last()) {
                t.drop_last().filter(pred).push(t.last())
            } else {
                t.drop_last().filter(pred)
            });
        }
        let keep = has_listed_state(states, &x);
        proof {
            assert(pred(x) == keep);
        }
        if keep {
            out.push(x);
        }
        k += 1;
    }
    proof {
        assert(orig.take(n as int) =~= orig);
    }
    out
}

// ---------------------------------------------------------------------------
// Restoring the order of requested ids
// ---------------------------------------------------------------------------

/// The position of `id` among `ids`, or `usize::MAX` when it is not there.
pub open spec fn id_rank(ids: Seq<String>, id: Seq<char>) -> int
    decreases ids.len(),
{
    if ids.len() == 0 {
        usize::MAX as int
    } else if ids[0]@ == id {
        0
    } else {
        let r = id_rank(ids.drop_first(), id);
        if r == usize::MAX as int {
            r
        } else {
            r + 1
        }
    }
}

/// Where `x` goes among `s` sorted by id rank: before the first item ranked after it.
pub open spec fn rank_insert_position(s: Seq<Issue>, x: Issue, ids: Seq<String>) -> int
    decreases s.len(),
{
    if s.len() == 0 {
        0
    } else if id_rank(ids, s[0].id@) > id_rank(ids, x.id@) {
        0
    } else {
        1 + rank_insert_position(s.drop_first(), x, ids)
    }
}

/// The stable sort of `s` by the position of each issue's id in `ids`.
pub open spec fn sorted_by_ids(s: Seq<Issue>, ids: Seq<String>) -> Seq<Issue>
    decreases s.len(),
{
    if s.len() == 0 {
        seq![]
    } else {
        let prev = sorted_by_ids(s.drop_last(), ids);
        prev.insert(rank_insert_position(prev, s.last(), ids), s.last())
    }
}

fn rank_of_id(ids: &Vec<String>, id: &str) -> (r: usize)
    ensures
        r == id_rank(ids@, id@),
{
    let mut i: usize = 0;
    proof {
        assert(ids@.skip(0) =~= ids@);
    }
    while i < ids.len()
        invariant
            i <= ids@.len(),
            id_rank(ids@, id@) == if id_rank(ids@.skip(i as int), id@) == usize::MAX as int {
                usize::MAX as int
            } else {
                i + id_rank(ids@.skip(i as int), id@)
            },
        decreases ids@.len() - i,
    {
        proof {
            assert(ids@.skip(i as int)[0] == ids@[i as int]);
            assert(ids@.skip(i as int).drop_first() =~= ids@.skip(i + 1));
            lemma_id_rank_bound(ids@.skip(i + 1), id@);
        }
        if str_eq(ids[i].as_str(), id) {
            return i;
        }
        i += 1;
    }
    usize::MAX
}

proof fn lemma_id_rank_bound(ids: Seq<String>, id: Seq<char>)
    ensures
        id_rank(ids, id) == usize::MAX as int || 0 <= id_rank(ids, id) < ids.len(),
    decreases ids.len(),
{
    if ids.len() > 0 && ids[0]@ != id {
        lemma_id_rank_bound(ids.drop_first(), id);
    }
}

fn rank_position(s: &Vec<Issue>, x_rank: usize, x: &Issue, ids: &Vec<String>) -> (r: usize)
    requires
        x_rank == id_rank(ids@, x.id@),
    ensures
        r == rank_insert_position(s@, *x, ids@),
        r <= s@.len(),
{
    let mut i: usize = 0;
    proof {
        assert(s@.skip(0) =~= s@);
    }
    while i < s.len()
        invariant
            i <= s@.len(),
            x_rank == id_rank(ids@, x.id@),
            rank_insert_position(s@, *x, ids@) == i + rank_insert_position(
                s@.skip(i as int),
                *x,
                ids@,
            ),
        decreases s@.len() - i,
    {
        proof {
            assert(s@.skip(i as int)[0] == s@[i as int]);
            assert(s@.skip(i as int).drop_first() =~= s@.skip(i + 1));
        }
        if rank_of_id(ids, s[i].id.as_str()) > x_rank {
            return i;
        }
        i += 1;
    }
    i
}

/// Puts refreshed issues back in the order of the ids they were requested with; issues
/// whose id was not requested go last; ties keep their order.
pub fn order_by_ids(issues: Vec<Issue>, ids: &Vec<String>) -> (r: Vec<Issue>)
    ensures
        r@ == sorted_by_ids(issues@, ids@),
        r@.to_multiset() == issues@.to_multiset(),
        forall|i: int, j: int|
            0 <= i < j < r@.len() ==> id_rank(ids@, (#[trigger] r@[i]).id@) <= id_rank(
                ids@,
                (#[trigger] r@[j]).id@,
            ),
{
    let ghost orig = issues@;
    let mut rest = issues;
    let mut out: Vec<Issue> = Vec::new();
    let n = rest.len();
    let mut k: usize = 0;
    proof {
        assert(orig.take(0) =~= Seq::<Issue>::empty());
        assert(orig.skip(0) =~= orig);
    }
    while k < n
        invariant
            n == orig.len(),
            k <= n,
            rest@ == orig.skip(k as int),
            out@ == sorted_by_ids(orig.take(k as int), ids@),
        decreases n - k,
    {
        let x = rest.remove(0);
        proof {
            assert(x == orig[k as int]);
            assert(orig.skip(k as int).remove(0) =~= orig.skip(k + 1));
            let t = orig.take(k + 1);
            assert(t.drop_last() =~= orig.take(k as int));
            assert(t.last() == x);
        }
        let xr = rank_of_id(ids, x.id.as_str());
        let pos = rank_position(&out, xr, &x, ids);
        out.insert(pos, x);
        k += 1;
    }
    proof {
        assert(orig.take(n as int) =~= orig);
        crate::laws::lemma_sorted_by_ids_orders(orig, ids@);
    }
    out
}

// ---------------------------------------------------------------------------
// Normalizing whatever title comes back
// ---------------------------------------------------------------------------

/// `normalize_issue` when the issue has a branch name or a title whose slug is defined;
/// none otherwise.
pub fn normalize_issue_checked(node: IssueNode, assignee_filter: Option<&str>) -> (r: Option<Issue>)
    ensures
        r is Some <==> (node.branch_name is Some || slug_defined(node.title@)),
        r matches Some(i) ==> is_linear_normalized(
            i,
            node,
            match assignee_filter {
                Some(f) => Some(f@),
                None => None,
            },
        ),
{
    if node.branch_name.is_none() && !slug_is_defined(node.title.as_str()) {
        return None;
    }
    normalize_issue(node, assignee_filter)
}

/// `normalize_jira_issue` when the summary's slug is defined; none otherwise.
pub fn normalize_jira_issue_checked(node: JiraIssueNode, assignee_filter: Option<&str>) -> (r: Option<Issue>)
    ensures
        r is Some <==> slug_defined(node.summary@),
        r matches Some(i) ==> is_jira_normalized(
            i,
            node,
            match assignee_filter {
                Some(f) => Some(f@),
                None => None,
            },
        ),
{
    if !slug_is_defined(node.summary.as_str()) {
        return None;
    }
    Some(normalize_jira_issue(node, assignee_filter))
}

/// `normalize_github_issue` when the title's slug is defined; none otherwise.
pub fn normalize_github_issue_checked(node: GitHubIssue, config: &Settings) -> (r: Option<Issue>)
    ensures
        r is Some <==> slug_defined(node.title@),
        r matches Some(i) ==> is_github_normalized(i, node, *config),
{
    if !slug_is_defined(node.title.as_str()) {
        return None;
    }
    Some(normalize_github_issue(node, config))
}

} // verus!
