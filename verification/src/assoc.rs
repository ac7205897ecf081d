//! A small association table keyed by strings, kept with distinct keys.
//! The command registry and the scope frames build on it.

use vstd::prelude::*;

verus! {

/// The map held by an association list; a later entry wins, though the
/// operations below keep the keys distinct.
pub open spec fn assoc_map<V>(s: Seq<(String, V)>) -> Map<Seq<char>, V>
    decreases s.len(),
{
    if s.len() == 0 {
        Map::empty()
    } else {
        assoc_map(s.drop_last()).insert(s.last().0@, s.last().1)
    }
}

/// No two entries share a key.
pub open spec fn distinct_keys<V>(s: Seq<(String, V)>) -> bool {
    forall|i: int, j: int| 0 <= i < j < s.len() ==> s[i].0@ != s[j].0@
}

/// How the map of an association list relates to its entries.
pub proof fn lemma_assoc_map<V>(s: Seq<(String, V)>)
    ensures
        forall|k: Seq<char>| #[trigger] assoc_map(s).contains_key(k) <==> exists|i: int|
            0 <= i < s.len() && #[trigger] s[i].0@ == k,
        distinct_keys(s) ==> forall|i: int| 0 <= i < s.len() ==> assoc_map(s)[#[trigger] s[i].0@]
            == s[i].1,
    decreases s.len(),
{
    if s.len() > 0 {
        lemma_assoc_map(s.drop_last());
        assert forall|k: Seq<char>| #[trigger] assoc_map(s).contains_key(k) implies exists|i: int|
            0 <= i < s.len() && #[trigger] s[i].0@ == k by {
            if k == s.last().0@ {
                assert(s[s.len() - 1].0@ == k);
            } else {
                assert(assoc_map(s.drop_last()).contains_key(k));
                let i = choose|i: int| 0 <= i < s.drop_last().len() && #[trigger] s.drop_last()[i].0@
                    == k;
                assert(s[i].0@ == k);
            }
        }
        assert forall|k: Seq<char>| (exists|i: int| 0 <= i < s.len() && #[trigger] s[i].0@ == k)
            implies #[trigger] assoc_map(s).contains_key(k) by {
            let i = choose|i: int| 0 <= i < s.len() && #[trigger] s[i].0@ == k;
            if i < s.len() - 1 {
                assert(s.drop_last()[i].0@ == k);
                assert(assoc_map(s.drop_last()).contains_key(k));
            } else {
                assert(k == s.last().0@);
            }
        }
        if distinct_keys(s) {
            assert(distinct_keys(s.drop_last())) by {
                assert forall|i: int, j: int| 0 <= i < j < s.drop_last().len() implies s.drop_last()[
                    i].0@ != s.drop_last()[j].0@ by {
                    assert(s[i].0@ != s[j].0@);
                }
            }
            assert forall|i: int| 0 <= i < s.len() implies assoc_map(s)[#[trigger] s[i].0@] == s[
                i].1 by {
                if i < s.len() - 1 {
                    assert(s[i].0@ != s.last().0@);
                    assert(s.drop_last()[i].0@ == s[i].0@);
                }
            }
        }
    }
}

/// Replacing the value at entry `i` updates the map at that entry's key.
pub proof fn lemma_assoc_update<V>(s: Seq<(String, V)>, i: int, e: (String, V))
    requires
        distinct_keys(s),
        0 <= i < s.len(),
        e.0@ == s[i].0@,
    ensures
        distinct_keys(s.update(i, e)),
        assoc_map(s.update(i, e)) == assoc_map(s).insert(e.0@, e.1),
    decreases s.len(),
{
    let t = s.update(i, e);
    assert forall|x: int, y: int| 0 <= x < y < t.len() implies t[x].0@ != t[y].0@ by {
        assert(s[x].0@ != s[y].0@);
    }
    if i == s.len() - 1 {
        assert(t.drop_last() =~= s.drop_last());
        assert(assoc_map(t) == assoc_map(s.drop_last()).insert(e.0@, e.1));
        assert(assoc_map(s) == assoc_map(s.drop_last()).insert(s.last().0@, s.last().1));
        assert(assoc_map(s).insert(e.0@, e.1) =~= assoc_map(s.drop_last()).insert(e.0@, e.1));
    } else {
        lemma_assoc_update(s.drop_last(), i, e);
        assert(t.drop_last() =~= s.drop_last().update(i, e));
        assert(t.last() == s.last());
        lemma_assoc_map(s);
        assert(assoc_map(t) == assoc_map(s.drop_last()).insert(e.0@, e.1).insert(
            s.last().0@,
            s.last().1,
        ));
        assert(e.0@ != s.last().0@);
        assert(assoc_map(s.drop_last()).insert(e.0@, e.1).insert(s.last().0@, s.last().1)
            =~= assoc_map(s.drop_last()).insert(s.last().0@, s.last().1).insert(e.0@, e.1));
    }
}

/// Appending an entry with a fresh key inserts it into the map.
pub proof fn lemma_assoc_push<V>(s: Seq<(String, V)>, e: (String, V))
    requires
        distinct_keys(s),
        !assoc_map(s).contains_key(e.0@),
    ensures
        distinct_keys(s.push(e)),
        assoc_map(s.push(e)) == assoc_map(s).insert(e.0@, e.1),
{
    lemma_assoc_map(s);
    let t = s.push(e);
    assert forall|x: int, y: int| 0 <= x < y < t.len() implies t[x].0@ != t[y].0@ by {
        if y < t.len() - 1 {
            assert(s[x].0@ != s[y].0@);
        } else {
            assert(t[x] == s[x]);
        }
    }
    assert(t.drop_last() =~= s);
}

/// Removing entry `i` removes that entry's key from the map.
pub proof fn lemma_assoc_remove<V>(s: Seq<(String, V)>, i: int)
    requires
        distinct_keys(s),
        0 <= i < s.len(),
    ensures
        distinct_keys(s.remove(i)),
        assoc_map(s.remove(i)) == assoc_map(s).remove(s[i].0@),
    decreases s.len(),
{
    let t = s.remove(i);
    assert forall|x: int, y: int| 0 <= x < y < t.len() implies t[x].0@ != t[y].0@ by {
        let sx: int = if x < i { x } else { x + 1 };
        let sy: int = if y < i { y } else { y + 1 };
        assert(t[x] == s[sx] && t[y] == s[sy]);
        assert(s[sx].0@ != s[sy].0@);
    }
    if i == s.len() - 1 {
        assert(t =~= s.drop_last());
        lemma_assoc_map(s.drop_last());
        assert(!assoc_map(s.drop_last()).contains_key(s.last().0@)) by {
            lemma_assoc_map(s.drop_last());
            if assoc_map(s.drop_last()).contains_key(s.last().0@) {
                let j = choose|j: int| 0 <= j < s.drop_last().len() && #[trigger] s.drop_last()[
                    j].0@ == s.last().0@;
                assert(s[j].0@ == s[s.len() - 1].0@);
            }
        }
        assert(assoc_map(s.remove(i)) =~= assoc_map(s).remove(s[i].0@));
    } else {
        lemma_assoc_remove(s.drop_last(), i);
        assert(t.drop_last() =~= s.drop_last().remove(i));
        assert(t.last() == s.last());
        assert(assoc_map(t) == assoc_map(s.drop_last()).remove(s[i].0@).insert(
            s.last().0@,
            s.last().1,
        ));
        assert(s[i].0@ != s.last().0@);
        assert(assoc_map(s.drop_last()).remove(s[i].0@).insert(s.last().0@, s.last().1)
            =~= assoc_map(s.drop_last()).insert(s.last().0@, s.last().1).remove(s[i].0@));
    }
}

/// Replacing the value at entry `i`, whatever the new value is, updates
/// the map at that entry's key.
pub proof fn lemma_assoc_update_any<V>(s: Seq<(String, V)>, i: int)
    requires
        distinct_keys(s),
        0 <= i < s.len(),
    ensures
        forall|v: V|
            distinct_keys(s.update(i, (s[i].0, v))) && #[trigger] assoc_map(
                s.update(i, (s[i].0, v)),
            ) == assoc_map(s).insert(s[i].0@, v),
{
    assert forall|v: V|
        distinct_keys(s.update(i, (s[i].0, v))) && #[trigger] assoc_map(s.update(i, (s[i].0, v)))
            == assoc_map(s).insert(s[i].0@, v) by {
        lemma_assoc_update(s, i, (s[i].0, v));
    }
}

/// Finds the entry holding `name`, scanning from the front.
pub fn assoc_find<V>(entries: &Vec<(String, V)>, name: &String) -> (r: Option<usize>)
    ensures
        match r {
            Some(i) => i < entries@.len() && entries@[i as int].0@ == name@,
            None => forall|j: int| 0 <= j < entries@.len() ==> entries@[j].0@ != name@,
        },
{
    let mut i: usize = 0;
    while i < entries.len()
        invariant
            i <= entries@.len(),
            forall|j: int| 0 <= j < i ==> entries@[j].0@ != name@,
        decreases entries@.len() - i,
    {
        if entries[i].0 == *name {
            return Some(i);
        }
        i = i + 1;
    }
    None
}

/// What an absent key means for the map.
pub proof fn lemma_assoc_absent<V>(s: Seq<(String, V)>, k: Seq<char>)
    requires
        forall|j: int| 0 <= j < s.len() ==> s[j].0@ != k,
    ensures
        !assoc_map(s).contains_key(k),
{
    lemma_assoc_map(s);
}

} // verus!
