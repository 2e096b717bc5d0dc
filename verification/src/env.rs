//! The environment: one flat name-to-value table, represented as an
//! association list with unique keys and viewed as a `Map` in
//! specifications.

use vstd::prelude::*;
use crate::value::{Val, Value};

verus! {

/// The map an association list denotes: later entries override earlier
/// ones (with unique keys there is nothing to override).
pub open spec fn map_of(entries: Seq<(String, Value)>) -> Map<Seq<char>, Val>
    decreases entries,
{
    if entries.len() == 0 {
        Map::empty()
    } else {
        map_of(entries.drop_last()).insert(entries.last().0@, entries.last().1@)
    }
}

/// No two entries bind the same name.
pub open spec fn keys_unique(entries: Seq<(String, Value)>) -> bool {
    forall|i: int, j: int|
        0 <= i < j < entries.len() ==> #[trigger] entries[i].0@ != #[trigger] entries[j].0@
}

/// The denoted map contains exactly the listed keys, and, at a key whose
/// entry no later entry overrides, the listed value.
pub proof fn lemma_map_of(entries: Seq<(String, Value)>)
    ensures
        forall|k: Seq<char>|
            #[trigger] map_of(entries).contains_key(k) <==> (exists|i: int|
                0 <= i < entries.len() && #[trigger] entries[i].0@ == k),
        forall|i: int|
            0 <= i < entries.len() && (forall|j: int|
                i < j < entries.len() ==> #[trigger] entries[j].0@ != entries[i].0@) ==> map_of(
                entries,
            )[#[trigger] entries[i].0@] == entries[i].1@,
    decreases entries,
{
    if entries.len() > 0 {
        lemma_map_of(entries.drop_last());
        assert(map_of(entries) == map_of(entries.drop_last()).insert(
            entries.last().0@,
            entries.last().1@,
        ));
        assert forall|k: Seq<char>| #[trigger]
            map_of(entries).contains_key(k) implies (exists|i: int|
            0 <= i < entries.len() && #[trigger] entries[i].0@ == k) by {
            if k == entries.last().0@ {
                assert(entries[entries.len() - 1].0@ == k);
            } else {
                assert(map_of(entries.drop_last()).contains_key(k));
                let i = choose|i: int|
                    0 <= i < entries.drop_last().len() && #[trigger] entries.drop_last()[i].0@ == k;
                assert(entries[i].0@ == k);
            }
        }
        assert forall|k: Seq<char>|
            (exists|i: int|
                0 <= i < entries.len() && #[trigger] entries[i].0@ == k) implies #[trigger] map_of(
            entries,
        ).contains_key(k) by {
            let i = choose|i: int| 0 <= i < entries.len() && #[trigger] entries[i].0@ == k;
            if i < entries.len() - 1 {
                assert(entries.drop_last()[i].0@ == k);
            }
        }
        assert forall|i: int|
            0 <= i < entries.len() && (forall|j: int|
                i < j < entries.len() ==> #[trigger] entries[j].0@
                    != entries[i].0@) implies map_of(entries)[#[trigger] entries[i].0@]
            == entries[i].1@ by {
            if i == entries.len() - 1 {
            } else {
                assert(entries[entries.len() - 1].0@ != entries[i].0@);
                assert(entries.drop_last()[i] == entries[i]);
                assert forall|j: int|
                    i < j < entries.drop_last().len() implies #[trigger] entries.drop_last()[j].0@
                    != entries.drop_last()[i].0@ by {
                    assert(entries[j].0@ != entries[i].0@);
                }
            }
        }
    }
}

/// Appending a fresh entry inserts its binding.
pub broadcast proof fn lemma_map_of_push(entries: Seq<(String, Value)>, e: (String, Value))
    ensures
        #[trigger] map_of(entries.push(e)) == map_of(entries).insert(e.0@, e.1@),
{
    assert(entries.push(e).drop_last() =~= entries);
    assert(entries.push(e).last() == e);
}

/// Replacing the entry that holds a key updates its binding, provided no
/// later entry binds the same key.
pub proof fn lemma_map_of_update(entries: Seq<(String, Value)>, i: int, e: (String, Value))
    requires
        0 <= i < entries.len(),
        entries[i].0@ == e.0@,
        forall|j: int| i < j < entries.len() ==> #[trigger] entries[j].0@ != entries[i].0@,
    ensures
        map_of(entries.update(i, e)) == map_of(entries).insert(e.0@, e.1@),
    decreases entries,
{
    if i == entries.len() - 1 {
        assert(entries.update(i, e).drop_last() =~= entries.drop_last());
        assert(entries.update(i, e).last() == e);
        assert(map_of(entries.update(i, e)) =~= map_of(entries).insert(e.0@, e.1@));
    } else {
        assert(entries.update(i, e).drop_last() =~= entries.drop_last().update(i, e));
        assert(entries.drop_last()[i] == entries[i]);
        assert forall|j: int|
            i < j < entries.drop_last().len() implies #[trigger] entries.drop_last()[j].0@
            != entries.drop_last()[i].0@ by {
            assert(entries[j].0@ != entries[i].0@);
        }
        lemma_map_of_update(entries.drop_last(), i, e);
        assert(entries.update(i, e).last() == entries.last());
        assert(entries.last().0@ != entries[i].0@);
        assert(map_of(entries.update(i, e)) == map_of(entries.drop_last()).insert(
            e.0@,
            e.1@,
        ).insert(entries.last().0@, entries.last().1@));
        assert(map_of(entries.update(i, e)) =~= map_of(entries).insert(e.0@, e.1@));
    }
}

} // verus!
