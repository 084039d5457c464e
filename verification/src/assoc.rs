//! Tables keyed by name: a `Vec` of named entries in which no name occurs twice,
//! where inserting a name that is present replaces its entry in place.

use vstd::prelude::*;

verus! {

/// A value filed under a name.
#[derive(Debug, Clone, PartialEq, Eq)]
pub struct Named<V> {
    pub name: String,
    pub value: V,
}

impl<V: DeepView> DeepView for Named<V> {
    type V = (Seq<char>, V::V);

    open spec fn deep_view(&self) -> (Seq<char>, V::V) {
        (self.name@, self.value.deep_view())
    }
}

/// No name occurs twice.
pub open spec fn keys_distinct<W>(s: Seq<(Seq<char>, W)>) -> bool {
    forall|i: int, j: int| 0 <= i < s.len() && 0 <= j < s.len() && i != j ==> #[trigger] s[i].0
        != #[trigger] s[j].0
}

/// Some entry has the name `k`.
pub open spec fn has_key<W>(s: Seq<(Seq<char>, W)>, k: Seq<char>) -> bool {
    exists|i: int| 0 <= i < s.len() && #[trigger] s[i].0 == k
}

/// A position at which the name `k` stands (the only one, where names are distinct).
pub open spec fn key_position<W>(s: Seq<(Seq<char>, W)>, k: Seq<char>) -> int {
    choose|i: int| 0 <= i < s.len() && #[trigger] s[i].0 == k
}

/// The table after filing `w` under `k`: the entry of that name replaced in place,
/// or a new entry at the end.
pub open spec fn spec_insert<W>(s: Seq<(Seq<char>, W)>, k: Seq<char>, w: W) -> Seq<(Seq<char>, W)> {
    if has_key(s, k) {
        s.update(key_position(s, k), (k, w))
    } else {
        s.push((k, w))
    }
}

/// What the table files under `k`.
pub open spec fn spec_lookup<W>(s: Seq<(Seq<char>, W)>, k: Seq<char>) -> Option<W> {
    if has_key(s, k) {
        Some(s[key_position(s, k)].1)
    } else {
        None
    }
}

/// Reading a name back after filing a value under it gives that value; every other
/// name reads as before; and names stay distinct.
pub proof fn lemma_insert_lookup<W>(s: Seq<(Seq<char>, W)>, k: Seq<char>, w: W, other: Seq<char>)
    requires
        keys_distinct(s),
    ensures
        keys_distinct(spec_insert(s, k, w)),
        spec_lookup(spec_insert(s, k, w), k) == Some(w),
        other != k ==> spec_lookup(spec_insert(s, k, w), other) == spec_lookup(s, other),
{
    let t = spec_insert(s, k, w);
    if has_key(s, k) {
        let p: int = key_position(s, k);
        assert(t[p].0 == k);
        assert(has_key(t, k));
        assert forall|i: int, j: int| 0 <= i < t.len() && 0 <= j < t.len() && i != j implies #[trigger] t[i].0
            != #[trigger] t[j].0 by {
            if i == p {
                assert(s[j].0 != s[p].0);
            } else if j == p {
                assert(s[i].0 != s[p].0);
            } else {
                assert(s[i].0 != s[j].0);
            }
        }
        let q: int = key_position(t, k);
        assert(t[q].0 == k);
        assert(q == p);
        if other != k {
            if has_key(s, other) {
                let r: int = key_position(s, other);
                assert(t[r].0 == other);
                assert(has_key(t, other));
                let r2: int = key_position(t, other);
                assert(t[r2].0 == other);
                assert(r2 == r);
            } else {
                if has_key(t, other) {
                    let r2: int = key_position(t, other);
                    assert(s[r2].0 == other);
                }
            }
        }
    } else {
        let p: int = s.len() as int;
        assert(t[p].0 == k);
        assert(has_key(t, k));
        assert forall|i: int, j: int| 0 <= i < t.len() && 0 <= j < t.len() && i != j implies #[trigger] t[i].0
            != #[trigger] t[j].0 by {
            if i == p {
                assert(s[j].0 != k);
            } else if j == p {
                assert(s[i].0 != k);
            } else {
                assert(s[i].0 != s[j].0);
            }
        }
        let q: int = key_position(t, k);
        assert(t[q].0 == k);
        if q != p {
            assert(s[q].0 == k);
        }
        if other != k {
            if has_key(s, other) {
                let r: int = key_position(s, other);
                assert(t[r].0 == other);
                assert(has_key(t, other));
                let r2: int = key_position(t, other);
                assert(t[r2].0 == other);
                assert(r2 != p);
                assert(s[r2].0 == other);
                assert(r2 == r);
            } else {
                if has_key(t, other) {
                    let r2: int = key_position(t, other);
                    assert(t[r2].0 == other);
                    assert(s[r2].0 == other);
                }
            }
        }
    }
}

/// Filing a value with some property in a table whose values all have it keeps
/// every value with it.
pub proof fn lemma_insert_all<W>(s: Seq<(Seq<char>, W)>, k: Seq<char>, w: W, p: spec_fn(W) -> bool)
    requires
        forall|i: int| 0 <= i < s.len() ==> #[trigger] p(s[i].1),
        p(w),
    ensures
        forall|i: int|
            0 <= i < spec_insert(s, k, w).len() ==> #[trigger] p(spec_insert(s, k, w)[i].1),
{
    let t = spec_insert(s, k, w);
    assert forall|i: int| 0 <= i < t.len() implies #[trigger] p(t[i].1) by {
        if has_key(s, k) {
            if i != key_position(s, k) {
                assert(t[i] == s[i]);
            }
        } else {
            if i < s.len() {
                assert(t[i] == s[i]);
            }
        }
    }
}

/// A value read from a table whose values all have some property has it too.
pub proof fn lemma_lookup_all<W>(s: Seq<(Seq<char>, W)>, k: Seq<char>, p: spec_fn(W) -> bool)
    requires
        forall|i: int| 0 <= i < s.len() ==> #[trigger] p(s[i].1),
    ensures
        spec_lookup(s, k) matches Some(w) ==> p(w),
{
    if has_key(s, k) {
        let i = key_position(s, k);
        assert(p(s[i].1));
    }
}

/// After filing a value under `k`, a name has an entry exactly when it had one
/// before or is `k`.
pub proof fn lemma_insert_has_key<W>(s: Seq<(Seq<char>, W)>, k: Seq<char>, w: W, other: Seq<char>)
    requires
        keys_distinct(s),
    ensures
        has_key(spec_insert(s, k, w), other) == (has_key(s, other) || other == k),
{
    lemma_insert_lookup(s, k, w, other);
}

/// Filing a value keeps every name that the table had.
pub proof fn lemma_insert_keeps_keys<W>(s: Seq<(Seq<char>, W)>, k: Seq<char>, w: W, other: Seq<char>)
    requires
        keys_distinct(s),
        has_key(s, other),
    ensures
        has_key(spec_insert(s, k, w), other),
{
    lemma_insert_lookup(s, k, w, other);
}

/// Files `value` under `name`: replaces the entry of that name, or adds one at the end.
pub fn upsert<V: DeepView>(entries: &mut Vec<Named<V>>, name: String, value: V)
    requires
        keys_distinct(old(entries).deep_view()),
    ensures
        final(entries).deep_view() == spec_insert(
            old(entries).deep_view(),
            name@,
            value.deep_view(),
        ),
        keys_distinct(final(entries).deep_view()),
{
    let ghost old_view = entries.deep_view();
    let ghost k = name@;
    let ghost w = value.deep_view();
    let mut i: usize = 0;
    while i < entries.len()
        invariant
            i <= entries.len(),
            entries.deep_view() == old_view,
            old_view == old(entries).deep_view(),
            k == name@,
            w == value.deep_view(),
            keys_distinct(old_view),
            forall|j: int| 0 <= j < i ==> #[trigger] old_view[j].0 != k,
        decreases entries.len() - i,
    {
        if entries[i].name == name {
            assert(old_view[i as int].0 == k);
            assert(has_key(old_view, k));
            assert(old_view[key_position(old_view, k)].0 == k);
            assert(key_position(old_view, k) == i);
            let ghost before = entries@;
            entries[i] = Named { name, value };
            assert(entries@ == before.update(i as int, entries@[i as int]));
            assert(entries.deep_view() =~= old_view.update(i as int, (k, w)));
            assert(has_key(old_view, k));
            assert(spec_insert(old_view, k, w) == old_view.update(i as int, (k, w)));
            proof {
                lemma_insert_lookup(old_view, k, w, k);
            }
            return;
        }
        i = i + 1;
    }
    assert(!has_key(old_view, k));
    entries.push(Named { name, value });
    assert(entries.deep_view() =~= old_view.push((k, w)));
    proof {
        lemma_insert_lookup(old_view, k, w, k);
    }
}

} // verus!
