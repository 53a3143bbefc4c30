use vstd::prelude::*;
use vstd::pervasive::VecAdditionalExecFns;

use crate::text::str_eq;

verus! {

/// Values filed under a text key. A vector of them with distinct keys stands for a map
/// from key to value (and, for bare strings, for a set).
pub trait Keyed {
    spec fn key(&self) -> Seq<char>;

    fn key_str(&self) -> (r: &str)
        ensures
            r@ == self.key(),
    ;
}

impl Keyed for String {
    open spec fn key(&self) -> Seq<char> {
        self@
    }

    fn key_str(&self) -> (r: &str) {
        self.as_str()
    }
}

/// Whether some item of `s` has key `k`.
pub open spec fn has_key<T: Keyed>(s: Seq<T>, k: Seq<char>) -> bool {
    exists|i: int| 0 <= i < s.len() && #[trigger] s[i].key() == k
}

/// No two items of `s` share a key.
pub open spec fn unique_keys<T: Keyed>(s: Seq<T>) -> bool {
    forall|i: int, j: int|
        0 <= i < s.len() && 0 <= j < s.len() && i != j ==> #[trigger] s[i].key() != #[trigger] s[j].key()
}

/// The item of `s` filed under `k` (meaningful when `has_key(s, k)`).
pub open spec fn entry<T: Keyed>(s: Seq<T>, k: Seq<char>) -> T {
    s[choose|i: int| 0 <= i < s.len() && #[trigger] s[i].key() == k]
}

/// The map that a vector of keyed items stands for.
pub open spec fn as_map<T: Keyed>(s: Seq<T>) -> Map<Seq<char>, T> {
    Map::new(|k: Seq<char>| has_key(s, k), |k: Seq<char>| entry(s, k))
}

/// The keys of `s`, as a set.
pub open spec fn key_set<T: Keyed>(s: Seq<T>) -> Set<Seq<char>> {
    as_map(s).dom()
}

/// With distinct keys, the item filed under the key of `s[i]` is `s[i]`.
pub proof fn lemma_entry_at<T: Keyed>(s: Seq<T>, i: int)
    requires
        unique_keys(s),
        0 <= i < s.len(),
    ensures
        has_key(s, s[i].key()),
        entry(s, s[i].key()) == s[i],
        as_map(s).dom().contains(s[i].key()),
        as_map(s)[s[i].key()] == s[i],
{
    let k = s[i].key();
    assert(has_key(s, k));
    let j = choose|j: int| 0 <= j < s.len() && #[trigger] s[j].key() == k;
    assert(s[j].key() == s[i].key());
    assert(i == j);
}

/// Index of the item of `v` filed under `k`.
pub fn find_key<T: Keyed>(v: &Vec<T>, k: &str) -> (r: Option<usize>)
    ensures
        match r {
            Some(i) => i < v@.len() && v@[i as int].key() == k@,
            None => !has_key(v@, k@),
        },
{
    let mut i: usize = 0;
    while i < v.len()
        invariant
            i <= v@.len(),
            forall|j: int| 0 <= j < i ==> #[trigger] v@[j].key() != k@,
        decreases v@.len() - i,
    {
        if str_eq(v[i].key_str(), k) {
            return Some(i);
        }
        i += 1;
    }
    None
}

/// Whether `v` has an item filed under `k`.
pub fn contains_key<T: Keyed>(v: &Vec<T>, k: &str) -> (r: bool)
    ensures
        r == has_key(v@, k@),
{
    find_key(v, k).is_some()
}

proof fn lemma_remove_map<T: Keyed>(s: Seq<T>, i: int)
    requires
        unique_keys(s),
        0 <= i < s.len(),
    ensures
        unique_keys(s.remove(i)),
        as_map(s.remove(i)) =~= as_map(s).remove(s[i].key()),
{
    let t = s.remove(i);
    let k = s[i].key();
    assert forall|a: int, b: int|
        0 <= a < t.len() && 0 <= b < t.len() && a != b implies #[trigger] t[a].key()
        != #[trigger] t[b].key() by {
        let a2 = if a < i {
            a
        } else {
            a + 1
        };
        let b2 = if b < i {
            b
        } else {
            b + 1
        };
        assert(t[a] == s[a2]);
        assert(t[b] == s[b2]);
    }
    assert forall|k2: Seq<char>| #[trigger] has_key(t, k2) == (has_key(s, k2) && k2 != k) by {
        if has_key(t, k2) {
            let j = choose|j: int| 0 <= j < t.len() && #[trigger] t[j].key() == k2;
            let j2 = if j < i {
                j
            } else {
                j + 1
            };
            assert(t[j] == s[j2]);
            assert(s[j2].key() == k2);
            assert(j2 != i);
        }
        if has_key(s, k2) && k2 != k {
            let j = choose|j: int| 0 <= j < s.len() && #[trigger] s[j].key() == k2;
            assert(j != i);
            let j2 = if j < i {
                j
            } else {
                j - 1
            };
            assert(t[j2] == s[j]);
        }
    }
    assert forall|k2: Seq<char>| #[trigger] has_key(t, k2) implies entry(t, k2) == entry(s, k2) by {
        let j = choose|j: int| 0 <= j < t.len() && #[trigger] t[j].key() == k2;
        lemma_entry_at(t, j);
        let j2 = if j < i {
            j
        } else {
            j + 1
        };
        assert(t[j] == s[j2]);
        lemma_entry_at(s, j2);
    }
}

/// Removes the item filed under `k`, if any, and returns it.
pub fn remove_key<T: Keyed>(v: &mut Vec<T>, k: &str) -> (r: Option<T>)
    requires
        unique_keys(old(v)@),
    ensures
        unique_keys(final(v)@),
        as_map(final(v)@) == as_map(old(v)@).remove(k@),
        match r {
            Some(x) => as_map(old(v)@).dom().contains(k@) && x == as_map(old(v)@)[k@],
            None => !as_map(old(v)@).dom().contains(k@) && final(v)@ == old(v)@,
        },
        r is Some ==> final(v)@.len() + 1 == old(v)@.len(),
        final(v)@.len() <= old(v)@.len(),
{
    match find_key(v, k) {
        Some(i) => {
            proof {
                lemma_remove_map(v@, i as int);
                lemma_entry_at(v@, i as int);
            }
            let x = v.remove(i);
            Some(x)
        },
        None => {
            proof {
                assert(as_map(v@) =~= as_map(v@).remove(k@));
            }
            None
        },
    }
}

proof fn lemma_push_map<T: Keyed>(s: Seq<T>, x: T)
    requires
        unique_keys(s),
        !has_key(s, x.key()),
    ensures
        unique_keys(s.push(x)),
        as_map(s.push(x)) =~= as_map(s).insert(x.key(), x),
{
    let t = s.push(x);
    assert forall|a: int, b: int|
        0 <= a < t.len() && 0 <= b < t.len() && a != b implies #[trigger] t[a].key()
        != #[trigger] t[b].key() by {
        if a < s.len() && b < s.len() {
            assert(t[a] == s[a] && t[b] == s[b]);
        } else if a < s.len() {
            assert(t[a] == s[a]);
        } else if b < s.len() {
            assert(t[b] == s[b]);
        }
    }
    assert forall|k2: Seq<char>| #[trigger] has_key(t, k2) == (has_key(s, k2) || k2 == x.key()) by {
        if has_key(s, k2) {
            let j = choose|j: int| 0 <= j < s.len() && #[trigger] s[j].key() == k2;
            assert(t[j] == s[j]);
        }
        if k2 == x.key() {
            assert(t[s.len() as int] == x);
        }
        if has_key(t, k2) && !(k2 == x.key()) {
            let j = choose|j: int| 0 <= j < t.len() && #[trigger] t[j].key() == k2;
            assert(j < s.len());
            assert(t[j] == s[j]);
        }
    }
    assert forall|k2: Seq<char>| #[trigger] has_key(t, k2) implies entry(t, k2) == (if k2 == x.key() {
        x
    } else {
        entry(s, k2)
    }) by {
        let j = choose|j: int| 0 <= j < t.len() && #[trigger] t[j].key() == k2;
        lemma_entry_at(t, j);
        if j < s.len() {
            assert(t[j] == s[j]);
            lemma_entry_at(s, j);
        } else {
            assert(t[j] == x);
        }
    }
}

proof fn lemma_update_map<T: Keyed>(s: Seq<T>, i: int, x: T)
    requires
        unique_keys(s),
        0 <= i < s.len(),
        s[i].key() == x.key(),
    ensures
        unique_keys(s.update(i, x)),
        as_map(s.update(i, x)) =~= as_map(s).insert(x.key(), x),
{
    let t = s.update(i, x);
    assert forall|a: int, b: int|
        0 <= a < t.len() && 0 <= b < t.len() && a != b implies #[trigger] t[a].key()
        != #[trigger] t[b].key() by {
        assert(t[a].key() == s[a].key());
        assert(t[b].key() == s[b].key());
    }
    assert forall|k2: Seq<char>| #[trigger] has_key(t, k2) == has_key(s, k2) by {
        if has_key(s, k2) {
            let j = choose|j: int| 0 <= j < s.len() && #[trigger] s[j].key() == k2;
            assert(t[j].key() == s[j].key());
        }
        if has_key(t, k2) {
            let j = choose|j: int| 0 <= j < t.len() && #[trigger] t[j].key() == k2;
            assert(t[j].key() == s[j].key());
        }
    }
    lemma_entry_at(s, i);
    assert forall|k2: Seq<char>| #[trigger] has_key(t, k2) implies entry(t, k2) == (if k2 == x.key() {
        x
    } else {
        entry(s, k2)
    }) by {
        let j = choose|j: int| 0 <= j < t.len() && #[trigger] t[j].key() == k2;
        lemma_entry_at(t, j);
        if j != i {
            assert(t[j] == s[j]);
            lemma_entry_at(s, j);
        } else {
            assert(t[j] == x);
        }
    }
}

/// Files `x` under its key, replacing an item already filed there.
pub fn put<T: Keyed>(v: &mut Vec<T>, x: T)
    requires
        unique_keys(old(v)@),
    ensures
        unique_keys(final(v)@),
        as_map(final(v)@) == as_map(old(v)@).insert(x.key(), x),
        !has_key(old(v)@, x.key()) ==> final(v)@ == old(v)@.push(x),
        has_key(old(v)@, x.key()) ==> final(v)@.len() == old(v)@.len(),
        final(v)@.len() <= old(v)@.len() + 1,
{
    match find_key(v, x.key_str()) {
        Some(i) => {
            proof {
                lemma_update_map(v@, i as int, x);
            }
            v.set(i, x);
        },
        None => {
            proof {
                lemma_push_map(v@, x);
            }
            v.push(x);
        },
    }
}

/// Decides whether no two items of `v` share a key.
pub fn keys_unique<T: Keyed>(v: &Vec<T>) -> (r: bool)
    ensures
        r == unique_keys(v@),
{
    let mut i: usize = 0;
    while i < v.len()
        invariant
            i <= v@.len(),
            forall|a: int, b: int|
                0 <= a < i && 0 <= b < v@.len() && a != b ==> #[trigger] v@[a].key() != #[trigger] v@[b].key(),
        decreases v@.len() - i,
    {
        let mut j: usize = 0;
        while j < v.len()
            invariant
                i < v@.len(),
                j <= v@.len(),
                forall|a: int, b: int|
                    0 <= a < i && 0 <= b < v@.len() && a != b ==> #[trigger] v@[a].key() != #[trigger] v@[b].key(),
                forall|b: int| 0 <= b < j && b != i ==> v@[i as int].key() != #[trigger] v@[b].key(),
            decreases v@.len() - j,
        {
            if j != i && str_eq(v[i].key_str(), v[j].key_str()) {
                return false;
            }
            j += 1;
        }
        i += 1;
    }
    true
}

/// The map of an empty vector is empty.
pub proof fn lemma_empty_map<T: Keyed>(s: Seq<T>)
    requires
        s.len() == 0,
    ensures
        unique_keys(s),
        as_map(s) =~= Map::<Seq<char>, T>::empty(),
{
}

} // verus!
