//! Association tables: the registry's maps (declarations by path, capability
//! bindings by capability path, import aliases, cached variants) are vectors
//! of keyed entries. Lookup finds the first entry whose key matches; tables
//! that overwrite on reinsertion keep their keys unique.

use vstd::prelude::*;

verus! {

/// A view type that carries a text key.
pub trait KeyedView: Sized {
    /// The key the table is searched by.
    spec fn key(self) -> Seq<char>;
}

/// An entry type whose view is keyed; `key_ref` is the key's executable form.
pub trait Keyed: View + Sized where Self::V: KeyedView {
    /// The entry's key.
    fn key_ref(&self) -> (r: &String)
        ensures
            r@ == self@.key(),
    ;
}

/// The views of a table's entries, in table order.
pub open spec fn views<T: View>(s: Seq<T>) -> Seq<T::V> {
    s.map_values(|t: T| t@)
}

/// The first entry with key `k`, if any.
pub open spec fn map_find<V: KeyedView>(s: Seq<V>, k: Seq<char>) -> Option<V>
    decreases s.len(),
{
    if s.len() == 0 {
        None
    } else if s[0].key() == k {
        Some(s[0])
    } else {
        map_find(s.drop_first(), k)
    }
}

/// Whether the table holds an entry with key `k`.
pub open spec fn map_contains<V: KeyedView>(s: Seq<V>, k: Seq<char>) -> bool {
    map_find(s, k) is Some
}

/// The position of the first entry with key `k`; the length when absent.
pub open spec fn map_index_of<V: KeyedView>(s: Seq<V>, k: Seq<char>) -> int
    decreases s.len(),
{
    if s.len() == 0 {
        0
    } else if s[0].key() == k {
        0
    } else {
        1 + map_index_of(s.drop_first(), k)
    }
}

/// The table after `x` is inserted: `x` replaces the first entry with its
/// key, or is appended when no entry has it.
pub open spec fn map_upserted<V: KeyedView>(s: Seq<V>, x: V) -> Seq<V> {
    if map_contains(s, x.key()) {
        s.update(map_index_of(s, x.key()), x)
    } else {
        s.push(x)
    }
}

/// No two entries share a key.
pub open spec fn unique_keys<V: KeyedView>(s: Seq<V>) -> bool {
    forall|i: int, j: int| 0 <= i < j < s.len() ==> s[i].key() != s[j].key()
}

/// A first match at `i`, with no earlier match, is what `map_find` returns.
pub proof fn lemma_map_find_at<V: KeyedView>(s: Seq<V>, k: Seq<char>, i: int)
    requires
        0 <= i < s.len(),
        s[i].key() == k,
        forall|j: int| 0 <= j < i ==> s[j].key() != k,
    ensures
        map_find(s, k) == Some(s[i]),
        map_index_of(s, k) == i,
    decreases i,
{
    if i > 0 {
        lemma_map_find_at(s.drop_first(), k, i - 1);
    }
}

/// When no entry's key matches, `map_find` returns nothing.
pub proof fn lemma_map_find_none<V: KeyedView>(s: Seq<V>, k: Seq<char>)
    requires
        forall|j: int| 0 <= j < s.len() ==> s[j].key() != k,
    ensures
        map_find(s, k) is None,
        map_index_of(s, k) == s.len(),
    decreases s.len(),
{
    if s.len() > 0 {
        lemma_map_find_none(s.drop_first(), k);
    }
}

/// What `map_find` returns is an entry of the table, at `map_index_of`, with
/// the key that was searched; earlier entries have other keys.
pub proof fn lemma_map_find_some<V: KeyedView>(s: Seq<V>, k: Seq<char>)
    requires
        map_find(s, k) is Some,
    ensures
        0 <= map_index_of(s, k) < s.len(),
        s[map_index_of(s, k)] == map_find(s, k)->Some_0,
        map_find(s, k)->Some_0.key() == k,
        forall|j: int| 0 <= j < map_index_of(s, k) ==> s[j].key() != k,
    decreases s.len(),
{
    if s.len() > 0 && s[0].key() != k {
        lemma_map_find_some(s.drop_first(), k);
        assert forall|j: int| 0 <= j < map_index_of(s, k) implies s[j].key() != k by {
            if j > 0 {
                assert(s.drop_first()[j - 1] == s[j]);
            }
        }
    }
}

/// Lookup distributes over concatenation: the left table is searched
/// first.
pub proof fn lemma_map_find_extend<V: KeyedView>(s: Seq<V>, ext: Seq<V>, k: Seq<char>)
    ensures
        map_find(s + ext, k) == if map_find(s, k) is Some {
            map_find(s, k)
        } else {
            map_find(ext, k)
        },
    decreases s.len(),
{
    if s.len() == 0 {
        assert(s + ext =~= ext);
    } else {
        assert((s + ext)[0] == s[0]);
        assert((s + ext).drop_first() =~= s.drop_first() + ext);
        lemma_map_find_extend(s.drop_first(), ext, k);
    }
}

/// When lookup finds nothing, no entry has the key.
pub proof fn lemma_map_find_none_all<V: KeyedView>(s: Seq<V>, k: Seq<char>)
    requires
        map_find(s, k) is None,
    ensures
        forall|j: int| 0 <= j < s.len() ==> (#[trigger] s[j]).key() != k,
    decreases s.len(),
{
    if s.len() > 0 {
        lemma_map_find_none_all(s.drop_first(), k);
        assert forall|j: int| 0 <= j < s.len() implies (#[trigger] s[j]).key() != k by {
            if j > 0 {
                assert(s.drop_first()[j - 1] == s[j]);
            }
        }
    }
}

/// String equality, specified over the character sequences.
pub fn string_eq(a: &String, b: &String) -> (r: bool)
    ensures
        r == (a@ == b@),
{
    a.eq(b)
}

/// Looks up the first entry whose key is `k`.
pub fn map_get<'a, T: Keyed>(v: &'a Vec<T>, k: &String) -> (r: Option<&'a T>) where T::V: KeyedView
    ensures
        match r {
            Some(t) => map_find(views(v@), k@) == Some(t@),
            None => map_find(views(v@), k@) is None,
        },
{
    let ghost vs = views(v@);
    let mut i: usize = 0;
    while i < v.len()
        invariant
            0 <= i <= v@.len(),
            vs == views(v@),
            vs.len() == v@.len(),
            forall|j: int| 0 <= j < i ==> vs[j].key() != k@,
        decreases v@.len() - i,
    {
        if string_eq(v[i].key_ref(), k) {
            proof {
                lemma_map_find_at(vs, k@, i as int);
            }
            return Some(&v[i]);
        }
        i = i + 1;
    }
    proof {
        lemma_map_find_none(vs, k@);
    }
    None
}

/// Replaces the entry whose key equals `x`'s, or appends `x` when there is
/// none: reinsertion overwrites, as a map's insert does.
pub fn map_upsert<T: Keyed>(v: &mut Vec<T>, x: T) where T::V: KeyedView
    ensures
        views(final(v)@) == map_upserted(views(old(v)@), x@),
        unique_keys(views(old(v)@)) ==> unique_keys(views(final(v)@)),
{
    let ghost vs = views(old(v)@);
    let ghost k = x@.key();
    let mut i: usize = 0;
    while i < v.len()
        invariant
            0 <= i <= v@.len(),
            *v == *old(v),
            vs == views(v@),
            vs.len() == v@.len(),
            forall|j: int| 0 <= j < i ==> vs[j].key() != k,
            k == x@.key(),
        decreases v@.len() - i,
    {
        let hit = string_eq(v[i].key_ref(), x.key_ref());
        if hit {
            proof {
                lemma_map_find_at(vs, k, i as int);
            }
            v[i] = x;
            proof {
                assert(views(v@) =~= vs.update(i as int, x@));
                if unique_keys(vs) {
                    assert forall|a: int, b: int|
                        0 <= a < b < views(v@).len() implies views(v@)[a].key()
                        != views(v@)[b].key() by {
                        assert(vs[a].key() != vs[b].key());
                        if a == i {
                            assert(views(v@)[b] == vs[b]);
                        } else if b == i {
                            assert(views(v@)[a] == vs[a]);
                        }
                    }
                }
            }
            return ;
        }
        i = i + 1;
    }
    proof {
        lemma_map_find_none(vs, k);
    }
    v.push(x);
    proof {
        assert(views(v@) =~= vs.push(x@));
        if unique_keys(vs) {
            assert forall|a: int, b: int|
                0 <= a < b < views(v@).len() implies views(v@)[a].key() != views(v@)[b].key() by {
                if b == vs.len() as int {
                    assert(views(v@)[a] == vs[a]);
                    assert(vs[a].key() != k);
                } else {
                    assert(views(v@)[a] == vs[a]);
                    assert(views(v@)[b] == vs[b]);
                }
            }
        }
    }
}

} // verus!
