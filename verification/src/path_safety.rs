use vstd::prelude::*;

use crate::config::{join_path, path_join};
use crate::laws::lemma_workspace_path_inside_root;
use crate::text::{chars_of, is_ascii_alnum, is_ascii_alphanumeric, push_char, str_eq};

verus! {

broadcast use vstd::string::group_string_axioms;

// ---------------------------------------------------------------------------
// Workspace keys
// ---------------------------------------------------------------------------

/// Characters allowed in a workspace directory name.
pub open spec fn is_safe_key_char(c: char) -> bool {
    is_ascii_alnum(c) || c == '.' || c == '_' || c == '-'
}

/// `identifier` with every character outside `[A-Za-z0-9._-]` replaced by `_`.
pub open spec fn sanitized_key(identifier: Seq<char>) -> Seq<char> {
    identifier.map_values(|c: char| if is_safe_key_char(c) {
        c
    } else {
        '_'
    })
}

/// Sanitizes an issue identifier to be safe for directory names.
/// Only allows alphanumeric characters, dots, underscores, and dashes.
/// All other characters are replaced with underscores.
pub fn sanitize_workspace_key(identifier: &str) -> (r: String)
    ensures
        r@ == sanitized_key(identifier@),
{
    let v = chars_of(identifier);
    let mut r = String::new();
    let mut i: usize = 0;
    while i < v.len()
        invariant
            i <= v@.len(),
            v@ == identifier@,
            r@ == sanitized_key(v@.take(i as int)),
        decreases v@.len() - i,
    {
        let c = v[i];
        if is_ascii_alphanumeric(c) || c == '.' || c == '_' || c == '-' {
            push_char(&mut r, c);
        } else {
            push_char(&mut r, '_');
        }
        proof {
            assert(sanitized_key(v@.take(i + 1)) =~= sanitized_key(v@.take(i as int)).push(
                r@.last(),
            ));
        }
        i += 1;
    }
    proof {
        assert(v@.take(v@.len() as int) =~= v@);
    }
    r
}

// ---------------------------------------------------------------------------
// Path components
// ---------------------------------------------------------------------------

/// One left-to-right pass splitting a path at `/`: the finished segments and the one
/// being read.
pub open spec fn segment_scan(p: Seq<char>) -> (Seq<Seq<char>>, Seq<char>)
    decreases p.len(),
{
    if p.len() == 0 {
        (seq![], seq![])
    } else {
        let prev = segment_scan(p.drop_last());
        let c = p.last();
        if c == '/' {
            (prev.0.push(prev.1), seq![])
        } else {
            (prev.0, prev.1.push(c))
        }
    }
}

/// The pieces of `p` between `/` separators, empty ones included.
pub open spec fn segments(p: Seq<char>) -> Seq<Seq<char>> {
    segment_scan(p).0.push(segment_scan(p).1)
}

/// The named components among `segs`: empty segments and `.` are dropped, except a `.`
/// that begins a relative path.
pub open spec fn kept_segments(segs: Seq<Seq<char>>, absolute: bool) -> Seq<Seq<char>>
    decreases segs.len(),
{
    if segs.len() == 0 {
        seq![]
    } else {
        let prev = kept_segments(segs.drop_last(), absolute);
        let s = segs.last();
        if s.len() > 0 && (s != seq!['.'] || (segs.len() == 1 && !absolute)) {
            prev.push(s)
        } else {
            prev
        }
    }
}

/// The components of a Unix path as `Path::components` yields them: the root (written
/// `/`) when the path is absolute, then its named parts.
pub open spec fn path_components(p: Seq<char>) -> Seq<Seq<char>> {
    let absolute = p.len() > 0 && p[0] == '/';
    let root: Seq<Seq<char>> = if absolute {
        seq![seq!['/']]
    } else {
        seq![]
    };
    root + kept_segments(segments(p), absolute)
}

/// `Path::starts_with`: the components of `base` begin the components of `p`.
pub open spec fn path_starts_with(p: Seq<char>, base: Seq<char>) -> bool {
    let a = path_components(p);
    let b = path_components(base);
    b.len() <= a.len() && a.take(b.len() as int) == b
}

/// `Path` equality: equal components.
pub open spec fn same_path(p: Seq<char>, q: Seq<char>) -> bool {
    path_components(p) == path_components(q)
}

pub fn vec_eq(a: &Vec<char>, b: &Vec<char>) -> (r: bool)
    ensures
        r == (a@ == b@),
{
    if a.len() != b.len() {
        return false;
    }
    let mut i: usize = 0;
    while i < a.len()
        invariant
            a@.len() == b@.len(),
            i <= a@.len(),
            forall|j: int| 0 <= j < i ==> a@[j] == b@[j],
        decreases a@.len() - i,
    {
        if a[i] != b[i] {
            return false;
        }
        i += 1;
    }
    proof {
        assert(a@ =~= b@);
    }
    true
}

/// The views of a vector of character vectors.
pub open spec fn seg_views(v: Seq<Vec<char>>) -> Seq<Seq<char>> {
    v.map_values(|x: Vec<char>| x@)
}

pub fn components(p: &str) -> (r: Vec<Vec<char>>)
    ensures
        seg_views(r@) == path_components(p@),
{
    let chars = chars_of(p);
    let mut done: Vec<Vec<char>> = Vec::new();
    let mut cur: Vec<char> = Vec::new();
    let mut i: usize = 0;
    assert(chars@.take(0) =~= Seq::<char>::empty());
    while i < chars.len()
        invariant
            i <= chars@.len(),
            chars@ == p@,
            (seg_views(done@), cur@) == segment_scan(chars@.take(i as int)),
        decreases chars@.len() - i,
    {
        let c = chars[i];
        proof {
            let t = chars@.take(i + 1);
            assert(t.drop_last() =~= chars@.take(i as int));
            assert(t.last() == c);
        }
        if c == '/' {
            let ghost before = seg_views(done@);
            let ghost cv = cur@;
            let finished = cur;
            done.push(finished);
            cur = Vec::new();
            proof {
                assert(seg_views(done@) =~= before.push(cv));
                assert(cur@ =~= Seq::<char>::empty());
            }
        } else {
            cur.push(c);
        }
        i += 1;
    }
    proof {
        assert(chars@.take(chars@.len() as int) =~= chars@);
    }
    let ghost scanned = seg_views(done@);
    let ghost last = cur@;
    done.push(cur);
    proof {
        assert(seg_views(done@) =~= scanned.push(last));
    }
    let absolute = chars.len() > 0 && chars[0] == '/';
    let mut out: Vec<Vec<char>> = Vec::new();
    if absolute {
        let mut slash: Vec<char> = Vec::new();
        slash.push('/');
        proof {
            assert(slash@ =~= seq!['/']);
        }
        out.push(slash);
    }
    let ghost root: Seq<Seq<char>> = if absolute {
        seq![seq!['/']]
    } else {
        seq![]
    };
    proof {
        assert(seg_views(out@) =~= root);
        assert(seg_views(done@).take(0) =~= Seq::<Seq<char>>::empty());
        assert(root + kept_segments(Seq::<Seq<char>>::empty(), absolute) =~= root);
    }
    let mut k: usize = 0;
    while k < done.len()
        invariant
            k <= done@.len(),
            seg_views(out@) == root + kept_segments(seg_views(done@).take(k as int), absolute),
        decreases done@.len() - k,
    {
        let s = &done[k];
        let is_dot = s.len() == 1 && s[0] == '.';
        proof {
            let t = seg_views(done@).take(k + 1);
            assert(t.drop_last() =~= seg_views(done@).take(k as int));
            assert(t.last() == s@);
            assert(is_dot == (s@ == seq!['.'])) by {
                if s@.len() == 1 && s@[0] == '.' {
                    assert(s@ =~= seq!['.']);
                }
            }
        }
        if s.len() > 0 && (!is_dot || (k == 0 && !absolute)) {
            let ghost before = seg_views(out@);
            out.push(s.clone());
            proof {
                assert(seg_views(out@) =~= before.push(s@));
            }
        }
        k += 1;
    }
    proof {
        assert(seg_views(done@).take(done@.len() as int) =~= seg_views(done@));
    }
    out
}

/// Why a workspace directory is refused.
#[derive(Debug, PartialEq, Eq, Structural)]
pub enum WorkspaceRejection {
    /// The workspace is the root directory itself.
    IdenticalToRoot,
    /// The workspace lies outside the root directory.
    OutsideRoot,
}

/// Whether a sanitized key names a directory strictly inside its parent: it is not empty,
/// not `.` (the parent itself) and not `..` (the parent's parent).
pub open spec fn names_child(key: Seq<char>) -> bool {
    key.len() > 0 && key != seq!['.'] && key != seq!['.', '.']
}

/// The workspace directory of an issue under `root`, decided before anything touches the
/// filesystem: the directory named by the sanitized identifier. A key that would name the
/// root itself or its parent is refused, so an accepted directory lies strictly inside
/// the root, one component below it.
pub fn workspace_dir(root: &str, identifier: &str) -> (r: Result<String, WorkspaceRejection>)
    ensures
        (sanitized_key(identifier@).len() == 0 || sanitized_key(identifier@) == seq!['.']) ==> r
            == Err::<String, WorkspaceRejection>(WorkspaceRejection::IdenticalToRoot),
        sanitized_key(identifier@) == seq!['.', '.'] ==> r == Err::<String, WorkspaceRejection>(
            WorkspaceRejection::OutsideRoot,
        ),
        names_child(sanitized_key(identifier@)) ==> r is Ok && r->Ok_0@ == path_join(
            root@,
            sanitized_key(identifier@),
        ),
        r is Ok ==> path_components(r->Ok_0@) == path_components(root@).push(
            sanitized_key(identifier@),
        ) && path_starts_with(r->Ok_0@, root@) && !same_path(r->Ok_0@, root@),
{
    let key = sanitize_workspace_key(identifier);
    proof {
        reveal_strlit("");
        reveal_strlit(".");
        reveal_strlit("..");
        assert(""@ =~= Seq::<char>::empty());
        assert("."@ =~= seq!['.']);
        assert(".."@ =~= seq!['.', '.']);
        if key@.len() == 0 {
            assert(key@ =~= ""@);
        }
    }
    if str_eq(key.as_str(), "") || str_eq(key.as_str(), ".") {
        Err(WorkspaceRejection::IdenticalToRoot)
    } else if str_eq(key.as_str(), "..") {
        Err(WorkspaceRejection::OutsideRoot)
    } else {
        proof {
            lemma_workspace_path_inside_root(root@, identifier@);
        }
        Ok(join_path(root, key.as_str()))
    }
}

/// Decides whether a canonical workspace path is safely inside the canonical workspace
/// root: it must not be the root itself and must start with it, component by component.
pub fn check_workspace_containment(canonical_workspace: &str, canonical_root: &str) -> (r: Result<(), WorkspaceRejection>)
    ensures
        r == if same_path(canonical_workspace@, canonical_root@) {
            Err(WorkspaceRejection::IdenticalToRoot)
        } else if path_starts_with(canonical_workspace@, canonical_root@) {
            Ok(())
        } else {
            Err(WorkspaceRejection::OutsideRoot)
        },
{
    let a = components(canonical_workspace);
    let b = components(canonical_root);
    if a.len() == b.len() {
        let mut i: usize = 0;
        let mut same = true;
        while i < a.len()
            invariant
                a@.len() == b@.len(),
                i <= a@.len(),
                same == forall|j: int| 0 <= j < i ==> a@[j]@ == b@[j]@,
            decreases a@.len() - i,
        {
            if !vec_eq(&a[i], &b[i]) {
                same = false;
            }
            i += 1;
        }
        proof {
            if same {
                assert(seg_views(a@) =~= seg_views(b@));
            } else {
                let j = choose|j: int| 0 <= j < a@.len() && a@[j]@ != b@[j]@;
                assert(seg_views(a@)[j] != seg_views(b@)[j]);
            }
        }
        if same {
            return Err(WorkspaceRejection::IdenticalToRoot);
        }
    }
    if b.len() > a.len() {
        proof {
            assert(seg_views(a@).len() != seg_views(b@).len());
        }
        return Err(WorkspaceRejection::OutsideRoot);
    }
    let mut i: usize = 0;
    while i < b.len()
        invariant
            b@.len() <= a@.len(),
            seg_views(a@) == path_components(canonical_workspace@),
            seg_views(b@) == path_components(canonical_root@),
            i <= b@.len(),
            forall|j: int| 0 <= j < i ==> a@[j]@ == b@[j]@,
        decreases b@.len() - i,
    {
        if !vec_eq(&a[i], &b[i]) {
            proof {
                assert(seg_views(a@).take(b@.len() as int)[i as int] != seg_views(b@)[i as int]);
                assert(seg_views(a@)[i as int] != seg_views(b@)[i as int]);
                assert(seg_views(a@) != seg_views(b@));
                assert(seg_views(a@).take(b@.len() as int) != seg_views(b@));
                assert(!same_path(canonical_workspace@, canonical_root@));
                assert(!path_starts_with(canonical_workspace@, canonical_root@));
            }
            return Err(WorkspaceRejection::OutsideRoot);
        }
        i += 1;
    }
    proof {
        assert(seg_views(a@).take(b@.len() as int) =~= seg_views(b@));
    }
    Ok(())
}

fn components_equal(a: &Vec<Vec<char>>, b: &Vec<Vec<char>>) -> (r: bool)
    ensures
        r == (seg_views(a@) == seg_views(b@)),
{
    if a.len() != b.len() {
        proof {
            assert(seg_views(a@).len() != seg_views(b@).len());
        }
        return false;
    }
    let mut i: usize = 0;
    while i < a.len()
        invariant
            a@.len() == b@.len(),
            i <= a@.len(),
            forall|j: int| 0 <= j < i ==> a@[j]@ == b@[j]@,
        decreases a@.len() - i,
    {
        if !vec_eq(&a[i], &b[i]) {
            proof {
                assert(seg_views(a@)[i as int] != seg_views(b@)[i as int]);
            }
            return false;
        }
        i += 1;
    }
    proof {
        assert(seg_views(a@) =~= seg_views(b@));
    }
    true
}

fn components_prefix(a: &Vec<Vec<char>>, b: &Vec<Vec<char>>) -> (r: bool)
    ensures
        r == (seg_views(b@).len() <= seg_views(a@).len() && seg_views(a@).take(
            seg_views(b@).len() as int,
        ) == seg_views(b@)),
{
    if b.len() > a.len() {
        return false;
    }
    let mut i: usize = 0;
    while i < b.len()
        invariant
            b@.len() <= a@.len(),
            i <= b@.len(),
            forall|j: int| 0 <= j < i ==> a@[j]@ == b@[j]@,
        decreases b@.len() - i,
    {
        if !vec_eq(&a[i], &b[i]) {
            proof {
                assert(seg_views(a@).take(b@.len() as int)[i as int] != seg_views(b@)[i as int]);
            }
            return false;
        }
        i += 1;
    }
    proof {
        assert(seg_views(a@).take(b@.len() as int) =~= seg_views(b@));
    }
    true
}

/// Whether two paths have the same components (`Path` equality).
pub fn paths_equal(p: &str, q: &str) -> (r: bool)
    ensures
        r == same_path(p@, q@),
{
    let a = components(p);
    let b = components(q);
    components_equal(&a, &b)
}

/// Whether `p` starts with `base`, component by component (`Path::starts_with`).
pub fn path_has_prefix(p: &str, base: &str) -> (r: bool)
    ensures
        r == path_starts_with(p@, base@),
{
    let a = components(p);
    let b = components(base);
    components_prefix(&a, &b)
}

/// Whether one of the components of `p` is `name`.
pub open spec fn has_component(p: Seq<char>, name: Seq<char>) -> bool {
    path_components(p).contains(name)
}

/// Decides whether one of the components of `p` is `name`.
pub fn path_has_component(p: &str, name: &str) -> (r: bool)
    ensures
        r == has_component(p@, name@),
{
    let a = components(p);
    let n = chars_of(name);
    let mut i: usize = 0;
    while i < a.len()
        invariant
            i <= a@.len(),
            n@ == name@,
            seg_views(a@) == path_components(p@),
            forall|j: int| 0 <= j < i ==> a@[j]@ != n@,
        decreases a@.len() - i,
    {
        if vec_eq(&a[i], &n) {
            proof {
                assert(seg_views(a@)[i as int] == name@);
            }
            return true;
        }
        i += 1;
    }
    proof {
        assert forall|j: int| 0 <= j < path_components(p@).len() implies path_components(p@)[j] != name@ by {
            assert(seg_views(a@)[j] == a@[j]@);
        }
    }
    false
}

} // verus!
