//! The adjacency tables of a graph. A table holds for each key the far ends
//! of its edges in one direction, in the order in which the edges were added:
//! the outbound table the destinations of the edges that leave the key, the
//! inbound table the sources of the edges that enter it. The set of edges
//! decides what a table holds: a list is pruned by keeping of it the
//! neighbours with which the set still holds an edge.

use crate::pair_set::PairSet;
use crate::sequence::{
    lemma_filter_is_without, lemma_push_fresh, lemma_without_absent, lemma_without_membership,
    lemma_without_no_duplicates, without,
};
use std::collections::HashMap;
use std::hash::Hash;
use vstd::prelude::*;
use vstd::seq_lib::lemma_seq_contains_after_push;
use vstd::std_specs::hash::obeys_key_model;

verus! {

/// What a table holds for the key `k`: nothing where it has no entry.
pub open spec fn list_of<T>(table: Map<T, Vec<T>>, k: T) -> Seq<T> {
    if table.contains_key(k) {
        table[k]@
    } else {
        Seq::empty()
    }
}

/// The neighbours of each vertex, as a table holds them.
pub open spec fn neighbour_lists<T>(vertices: Set<T>, table: Map<T, Vec<T>>) -> Map<T, Seq<T>> {
    Map::new(|k: T| vertices.contains(k), |k: T| list_of(table, k))
}

/// The edge between a key and one of its neighbours, as a table sees it:
/// seen from the outbound table (`forward`) it leaves the key, seen from
/// the inbound table it enters the key.
pub open spec fn edge<T>(forward: bool, key: T, neighbour: T) -> (T, T) {
    if forward {
        (key, neighbour)
    } else {
        (neighbour, key)
    }
}

/// The end of an edge at which a table has its key.
pub open spec fn key_end<T>(forward: bool, e: (T, T)) -> T {
    if forward {
        e.0
    } else {
        e.1
    }
}

/// The table holds for each key the neighbours with which `edges` holds an
/// edge, each of them once.
pub open spec fn table_matches<T>(
    edges: Set<(T, T)>,
    table: Map<T, Vec<T>>,
    forward: bool,
) -> bool {
    &&& forall|k: T, x: T| #[trigger]
        list_of(table, k).contains(x) <==> edges.contains(edge(forward, k, x))
    &&& forall|k: T| #[trigger] list_of(table, k).no_duplicates()
}

/// The test that keeps of the neighbours of `key` those with which `edges`
/// holds an edge.
pub open spec fn joined_to<T>(edges: Set<(T, T)>, forward: bool, key: T) -> spec_fn(T) -> bool {
    |x: T| edges.contains(edge(forward, key, x))
}

/// The edges of `edges` but those between `key` and one of `done`.
spec fn but_edges_with<T>(edges: Set<(T, T)>, forward: bool, key: T, done: Seq<T>) -> Set<(T, T)> {
    Set::new(
        |e: (T, T)|
            edges.contains(e) && !(key_end(forward, e) == key && done.contains(
                key_end(!forward, e),
            )),
    )
}

/// Whether `edges` holds the edge between `key` and `neighbour`.
fn holds_edge<T: Eq + Hash + Copy>(
    edges: &PairSet<T>,
    forward: bool,
    key: &T,
    neighbour: &T,
) -> (found: bool)
    requires
        edges.wf(),
    ensures
        found == edges@.contains(edge(forward, *key, *neighbour)),
{
    if forward {
        edges.contains(key, neighbour)
    } else {
        edges.contains(neighbour, key)
    }
}

/// Takes the edge between `key` and `neighbour` out of `edges`.
fn take_edge<T: Eq + Hash + Copy>(edges: &mut PairSet<T>, forward: bool, key: &T, neighbour: &T)
    requires
        old(edges).wf(),
    ensures
        final(edges).wf(),
        final(edges)@ == old(edges)@.remove(edge(forward, *key, *neighbour)),
{
    if forward {
        edges.remove(key, neighbour);
    } else {
        edges.remove(neighbour, key);
    }
}

/// Appends `neighbour` to the list of `key`, which begins with it where the
/// table had none for `key`.
pub fn push_neighbour<T: Eq + Hash + Copy>(table: &mut HashMap<T, Vec<T>>, key: T, neighbour: T)
    requires
        obeys_key_model::<T>(),
    ensures
        list_of(final(table)@, key) == list_of(old(table)@, key).push(neighbour),
        forall|k: T| k != key ==> #[trigger] list_of(final(table)@, k) == list_of(old(table)@, k),
{
    table.entry(key).or_insert(Vec::new()).push(neighbour);
}

/// A table that matched `edges` matches them with one edge more, once the
/// new neighbour stands at the end of the list of the key.
pub proof fn lemma_pushed<T>(
    edges: Set<(T, T)>,
    before: Map<T, Vec<T>>,
    after: Map<T, Vec<T>>,
    forward: bool,
    key: T,
    neighbour: T,
)
    requires
        table_matches(edges, before, forward),
        !edges.contains(edge(forward, key, neighbour)),
        list_of(after, key) == list_of(before, key).push(neighbour),
        forall|k: T| k != key ==> #[trigger] list_of(after, k) == list_of(before, k),
    ensures
        table_matches(edges.insert(edge(forward, key, neighbour)), after, forward),
{
    let list = list_of(before, key);
    lemma_push_fresh(list, neighbour);
    assert forall|k: T, x: T| #[trigger]
        list_of(after, k).contains(x) <==> edges.insert(edge(forward, key, neighbour)).contains(
            edge(forward, k, x),
        ) by {
        assert(list_of(before, k).contains(x) <==> edges.contains(edge(forward, k, x)));
    }
}

/// The neighbours in `list` with which `edges` holds an edge of `key`, in
/// their order.
fn kept_neighbours<T: Eq + Hash + Copy>(
    list: &Vec<T>,
    edges: &PairSet<T>,
    forward: bool,
    key: T,
) -> (kept: Vec<T>)
    requires
        edges.wf(),
    ensures
        kept@ == list@.filter(joined_to(edges@, forward, key)),
{
    let ghost test = joined_to(edges@, forward, key);
    let mut kept: Vec<T> = Vec::new();
    let mut i: usize = 0;
    while i < list.len()
        invariant
            i <= list.len(),
            edges.wf(),
            test == joined_to(edges@, forward, key),
            kept@ == list@.take(i as int).filter(test),
        decreases list.len() - i,
    {
        let x = list[i];
        proof {
            assert(list@.take(i + 1) == list@.take(i as int).push(x));
            list@.take(i as int).lemma_filter_push(x, test);
        }
        if holds_edge(edges, forward, &key, &x) {
            kept.push(x);
        }
        i += 1;
    }
    assert(list@.take(i as int) == list@);
    kept
}

/// Drops from the list of `key` the neighbours with which `edges` holds no
/// edge of `key`. A list that becomes empty leaves the table.
pub fn prune<T: Eq + Hash + Copy>(
    table: &mut HashMap<T, Vec<T>>,
    edges: &PairSet<T>,
    forward: bool,
    key: T,
)
    requires
        edges.wf(),
        obeys_key_model::<T>(),
    ensures
        list_of(final(table)@, key) == list_of(old(table)@, key).filter(
            joined_to(edges@, forward, key),
        ),
        forall|k: T| k != key ==> #[trigger] list_of(final(table)@, k) == list_of(old(table)@, k),
{
    match table.remove(&key) {
        Some(list) => {
            let kept = kept_neighbours(&list, edges, forward, key);
            if kept.len() > 0 {
                table.insert(key, kept);
            }
        },
        None => {},
    }
}

/// A table that matched `edges` matches them with one edge less, once the
/// list of the key is pruned: the list then lacks that one neighbour.
pub proof fn lemma_pruned<T>(
    edges: Set<(T, T)>,
    before: Map<T, Vec<T>>,
    after: Map<T, Vec<T>>,
    forward: bool,
    key: T,
    neighbour: T,
)
    requires
        table_matches(edges, before, forward),
        list_of(after, key) == list_of(before, key).filter(
            joined_to(edges.remove(edge(forward, key, neighbour)), forward, key),
        ),
        forall|k: T| k != key ==> #[trigger] list_of(after, k) == list_of(before, k),
    ensures
        table_matches(edges.remove(edge(forward, key, neighbour)), after, forward),
        list_of(after, key) == without(list_of(before, key), neighbour),
{
    let left = edges.remove(edge(forward, key, neighbour));
    let list = list_of(before, key);
    assert forall|i: int| 0 <= i < list.len() implies joined_to(left, forward, key)(
        #[trigger] list[i],
    ) == (list[i] != neighbour) by {
        assert(list.contains(list[i]));
    }
    lemma_filter_is_without(list, joined_to(left, forward, key), neighbour);
    lemma_without_no_duplicates(list, neighbour);
    assert forall|k: T, x: T| #[trigger]
        list_of(after, k).contains(x) <==> left.contains(edge(forward, k, x)) by {
        assert(list_of(before, k).contains(x) <==> edges.contains(edge(forward, k, x)));
        if k == key {
            lemma_without_membership(list, neighbour, x);
        }
    }
}

/// Removes every edge that `near` holds for `key`: from the set of edges,
/// from `near`, which loses its entry for `key`, and from the lists that
/// `far`, the table of the other direction, holds for the neighbours.
pub fn drop_edges_of<T: Eq + Hash + Copy>(
    edges: &mut PairSet<T>,
    near: &mut HashMap<T, Vec<T>>,
    far: &mut HashMap<T, Vec<T>>,
    forward: bool,
    key: T,
)
    requires
        obeys_key_model::<T>(),
        old(edges).wf(),
        table_matches(old(edges)@, old(near)@, forward),
        table_matches(old(edges)@, old(far)@, !forward),
    ensures
        final(edges).wf(),
        table_matches(final(edges)@, final(near)@, forward),
        table_matches(final(edges)@, final(far)@, !forward),
        final(edges)@ == old(edges)@.filter(|e: (T, T)| key_end(forward, e) != key),
        final(near)@ == old(near)@.remove(key),
        forall|w: T| #[trigger] list_of(final(far)@, w) == without(list_of(old(far)@, w), key),
{
    let ghost edges0 = edges@;
    let ghost far0 = far@;
    let neighbours = match near.remove(&key) {
        Some(list) => list,
        None => Vec::new(),
    };
    assert(neighbours@ == list_of(old(near)@, key));
    let mut i: usize = 0;
    while i < neighbours.len()
        invariant
            obeys_key_model::<T>(),
            i <= neighbours.len(),
            edges.wf(),
            neighbours@.no_duplicates(),
            table_matches(edges@, far@, !forward),
            edges@ == but_edges_with(edges0, forward, key, neighbours@.take(i as int)),
            forall|w: T| #[trigger]
                list_of(far@, w) == if neighbours@.take(i as int).contains(w) {
                    without(list_of(far0, w), key)
                } else {
                    list_of(far0, w)
                },
        decreases neighbours.len() - i,
    {
        let w = neighbours[i];
        let ghost done = neighbours@.take(i as int);
        let ghost edges1 = edges@;
        let ghost far1 = far@;
        take_edge(edges, forward, &key, &w);
        prune(far, edges, !forward, w);
        proof {
            lemma_pruned(edges1, far1, far@, !forward, w, key);
            assert(neighbours@.take(i + 1) == done.push(w));
            assert forall|y: T| #[trigger] done.push(w).contains(y) <==> done.contains(y) || y
                == w by {
                lemma_seq_contains_after_push(done, w, y);
            }
        }
        i += 1;
    }
    proof {
        assert(neighbours@.take(i as int) == neighbours@);
        assert forall|w: T| #[trigger] list_of(far@, w) == without(list_of(far0, w), key) by {
            if !neighbours@.contains(w) {
                lemma_without_absent(list_of(far0, w), key);
            }
        }
        assert forall|k: T, x: T| #[trigger]
            list_of(near@, k).contains(x) <==> edges@.contains(edge(forward, k, x)) by {
            assert(list_of(old(near)@, k).contains(x) <==> edges0.contains(edge(forward, k, x)));
        }
        assert forall|k: T| #[trigger] list_of(near@, k).no_duplicates() by {
            assert(list_of(old(near)@, k).no_duplicates());
        }
    }
}

} // verus!
