//! Lookup tables over a sequence of text keys.
//!
//! Two tables are built from the keys of a data set: one that gives, for a
//! key, the last position that has it, and one that gives all positions
//! that have it, in order.
use vstd::hash_map::StringHashMap;
use vstd::prelude::*;

verus! {

/// For each key, the last position in `keys` that holds it.
pub open spec fn last_positions(keys: Seq<Seq<char>>) -> Map<Seq<char>, int>
    decreases keys.len(),
{
    if keys.len() == 0 {
        Map::empty()
    } else {
        last_positions(keys.drop_last()).insert(keys.last(), keys.len() - 1)
    }
}

/// The last position that holds the key, if any does.
pub open spec fn last_position(keys: Seq<Seq<char>>, key: Seq<char>) -> Option<int> {
    if last_positions(keys).contains_key(key) {
        Some(last_positions(keys)[key])
    } else {
        None
    }
}

/// All positions in `keys` that hold the key, in rising order.
pub open spec fn positions(keys: Seq<Seq<char>>, key: Seq<char>) -> Seq<int>
    decreases keys.len(),
{
    if keys.len() == 0 {
        Seq::empty()
    } else if keys.last() == key {
        positions(keys.drop_last(), key).push(keys.len() - 1)
    } else {
        positions(keys.drop_last(), key)
    }
}

/// The numbers of a sequence of positions.
pub open spec fn as_ints(v: Seq<usize>) -> Seq<int> {
    v.map_values(|x: usize| x as int)
}

/// An executable table holds the last position of every key.
pub open spec fn is_last_positions(table: Map<Seq<char>, usize>, keys: Seq<Seq<char>>) -> bool {
    &&& table.dom() == last_positions(keys).dom()
    &&& forall|k: Seq<char>| #[trigger]
        table.contains_key(k) ==> table[k] as int == last_positions(keys)[k]
}

/// An executable table holds all positions of every key that occurs.
pub open spec fn is_positions(table: Map<Seq<char>, Vec<usize>>, keys: Seq<Seq<char>>) -> bool {
    &&& forall|k: Seq<char>| #[trigger] table.contains_key(k) <==> positions(keys, k).len() > 0
    &&& forall|k: Seq<char>| #[trigger]
        table.contains_key(k) ==> as_ints(table[k]@) == positions(keys, k)
}

/// The position that `last_position` gives holds the key and no later one
/// does; without a position, none holds it.
pub proof fn lemma_last_position(keys: Seq<Seq<char>>, key: Seq<char>)
    ensures
        match last_position(keys, key) {
            Some(i) => 0 <= i < keys.len() && keys[i] == key && forall|j: int|
                i < j < keys.len() ==> keys[j] != key,
            None => forall|j: int| 0 <= j < keys.len() ==> keys[j] != key,
        },
    decreases keys.len(),
{
    if keys.len() > 0 {
        let front = keys.drop_last();
        lemma_last_position(front, key);
        if keys.last() != key {
            match last_position(front, key) {
                Some(i) => {
                    assert(keys[i] == front[i]);
                    assert forall|j: int| i < j < keys.len() implies keys[j] != key by {
                        if j < front.len() {
                            assert(keys[j] == front[j]);
                        }
                    }
                },
                None => {
                    assert forall|j: int| 0 <= j < keys.len() implies keys[j] != key by {
                        if j < front.len() {
                            assert(keys[j] == front[j]);
                        }
                    }
                },
            }
        }
    }
}

/// `positions` lists exactly the positions that hold the key, each once and
/// in rising order.
pub proof fn lemma_positions(keys: Seq<Seq<char>>, key: Seq<char>)
    ensures
        forall|k: int|
            0 <= k < positions(keys, key).len() ==> 0 <= #[trigger] positions(keys, key)[k]
                < keys.len() && keys[positions(keys, key)[k]] == key,
        forall|a: int, b: int|
            0 <= a < b < positions(keys, key).len() ==> positions(keys, key)[a] < positions(
                keys,
                key,
            )[b],
        forall|i: int|
            0 <= i < keys.len() && keys[i] == key ==> positions(keys, key).contains(i),
    decreases keys.len(),
{
    if keys.len() > 0 {
        let front = keys.drop_last();
        let p = positions(front, key);
        let q = positions(keys, key);
        lemma_positions(front, key);
        assert forall|k: int| 0 <= k < q.len() implies 0 <= #[trigger] q[k] < keys.len()
            && keys[q[k]] == key by {
            if k < p.len() {
                assert(q[k] == p[k]);
                assert(keys[p[k]] == front[p[k]]);
            }
        }
        assert forall|a: int, b: int| 0 <= a < b < q.len() implies q[a] < q[b] by {
            assert(q[a] == p[a]);
            if b < p.len() {
                assert(q[b] == p[b]);
            }
        }
        assert forall|i: int| 0 <= i < keys.len() && keys[i] == key implies q.contains(i) by {
            if i < front.len() {
                assert(front[i] == keys[i]);
                assert(p.contains(i));
                let k = choose|k: int| 0 <= k < p.len() && p[k] == i;
                assert(q[k] == i);
            } else {
                assert(q[q.len() - 1] == i);
            }
        }
    }
}

/// Builds the table of last positions.
pub fn build_last_positions(keys: &Vec<String>) -> (table: StringHashMap<usize>)
    ensures
        is_last_positions(table@, crate::models::stock::string_views(keys@)),
{
    let ghost texts = crate::models::stock::string_views(keys@);
    let mut table: StringHashMap<usize> = StringHashMap::new();
    let mut i: usize = 0;
    while i < keys.len()
        invariant
            i <= keys.len(),
            texts == crate::models::stock::string_views(keys@),
            is_last_positions(table@, texts.take(i as int)),
        decreases keys.len() - i,
    {
        let ghost before = table@;
        table.insert(keys[i].clone(), i);
        proof {
            let next = texts.take(i + 1);
            assert(next.drop_last() =~= texts.take(i as int));
            assert(next.last() == keys@[i as int]@);
            assert(table@.dom() =~= last_positions(next).dom());
            assert forall|k: Seq<char>| #[trigger] table@.contains_key(k) implies table@[k] as int
                == last_positions(next)[k] by {
                if k != keys@[i as int]@ {
                    assert(before.contains_key(k));
                }
            }
        }
        i += 1;
    }
    assert(texts.take(i as int) =~= texts);
    table
}

/// A copy of a list of positions with one more at its end.
fn with_position(list: &Vec<usize>, position: usize) -> (out: Vec<usize>)
    ensures
        out@ == list@.push(position),
{
    let mut out: Vec<usize> = Vec::new();
    let mut i: usize = 0;
    while i < list.len()
        invariant
            i <= list.len(),
            out@ == list@.take(i as int),
        decreases list.len() - i,
    {
        out.push(list[i]);
        i += 1;
    }
    assert(list@.take(i as int) =~= list@);
    out.push(position);
    out
}

/// Builds the table of all positions.
pub fn build_positions(keys: &Vec<String>) -> (table: StringHashMap<Vec<usize>>)
    ensures
        is_positions(table@, crate::models::stock::string_views(keys@)),
{
    let ghost texts = crate::models::stock::string_views(keys@);
    let mut table: StringHashMap<Vec<usize>> = StringHashMap::new();
    let mut i: usize = 0;
    while i < keys.len()
        invariant
            i <= keys.len(),
            texts == crate::models::stock::string_views(keys@),
            is_positions(table@, texts.take(i as int)),
        decreases keys.len() - i,
    {
        let ghost before = table@;
        let ghost front = texts.take(i as int);
        let ghost next = texts.take(i + 1);
        let ghost key = keys@[i as int]@;
        proof {
            assert(next.drop_last() =~= front);
            assert(next.last() == key);
        }
        let list = match table.get(keys[i].as_str()) {
            Some(known) => with_position(known, i),
            None => {
                let mut single: Vec<usize> = Vec::new();
                single.push(i);
                single
            },
        };
        proof {
            if before.contains_key(key) {
                assert(as_ints(list@) =~= as_ints(before[key]@).push(i as int));
            } else {
                assert(positions(front, key) =~= Seq::<int>::empty());
                assert(as_ints(list@) =~= Seq::<int>::empty().push(i as int));
            }
            assert(as_ints(list@) == positions(next, key));
        }
        table.insert(keys[i].clone(), list);
        proof {
            assert forall|k: Seq<char>| #[trigger] table@.contains_key(k) <==> positions(
                next,
                k,
            ).len() > 0 by {
                if k != key {
                    assert(before.contains_key(k) <==> positions(front, k).len() > 0);
                }
            }
            assert forall|k: Seq<char>| #[trigger] table@.contains_key(k) implies as_ints(
                table@[k]@,
            ) == positions(next, k) by {
                if k != key {
                    assert(before.contains_key(k));
                }
            }
        }
        i += 1;
    }
    assert(texts.take(i as int) =~= texts);
    table
}

} // verus!
