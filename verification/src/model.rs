//! The mathematical value of a directed graph with labelled vertices, the
//! operations on it, and what holds of them.

use crate::sequence::{
    lemma_push_fresh, lemma_without_absent, lemma_without_membership, lemma_without_no_duplicates,
    without,
};
use vstd::prelude::*;

verus! {

/// What a graph holds: its vertices, its edges, the labels of its vertices,
/// and for each vertex its neighbours in both directions, in the order in
/// which the edges to them were added.
#[verifier::ext_equal]
#[verifier::reject_recursive_types(T)]
pub struct GraphView<T> {
    /// The keys of the vertices.
    pub vertices: Set<T>,
    /// The edges, each an ordered pair of source and destination.
    pub edges: Set<(T, T)>,
    /// The labels, by vertex. A vertex that is no key here has no label.
    pub labels: Map<T, Seq<char>>,
    /// For each vertex, the destinations of its outgoing edges.
    pub outbound: Map<T, Seq<T>>,
    /// For each vertex, the sources of its incoming edges.
    pub inbound: Map<T, Seq<T>>,
}

impl<T> GraphView<T> {
    /// The graph without vertices.
    pub open spec fn empty() -> Self {
        GraphView {
            vertices: Set::empty(),
            edges: Set::empty(),
            labels: Map::empty(),
            outbound: Map::empty(),
            inbound: Map::empty(),
        }
    }

    /// The destinations of the edges that leave `k`, oldest edge first.
    /// Empty for a key that is no vertex.
    pub open spec fn out_neighbours(self, k: T) -> Seq<T> {
        if self.outbound.contains_key(k) {
            self.outbound[k]
        } else {
            Seq::empty()
        }
    }

    /// The sources of the edges that enter `k`, oldest edge first. Empty for
    /// a key that is no vertex.
    pub open spec fn in_neighbours(self, k: T) -> Seq<T> {
        if self.inbound.contains_key(k) {
            self.inbound[k]
        } else {
            Seq::empty()
        }
    }

    /// The label of `k`, if it has one.
    pub open spec fn get_label(self, k: T) -> Option<Seq<char>> {
        if self.labels.contains_key(k) {
            Some(self.labels[k])
        } else {
            None
        }
    }

    /// What holds of every graph: it is finite, only vertices have labels
    /// and neighbours, every edge joins two vertices, and the neighbours of a
    /// vertex are the far ends of its edges, each of them once.
    pub open spec fn valid(self) -> bool {
        &&& self.vertices.finite()
        &&& self.edges.finite()
        &&& self.labels.dom().subset_of(self.vertices)
        &&& self.outbound.dom() == self.vertices
        &&& self.inbound.dom() == self.vertices
        &&& forall|u: T, v: T| #[trigger]
            self.edges.contains((u, v)) ==> self.vertices.contains(u) && self.vertices.contains(v)
        &&& forall|u: T, v: T| #[trigger]
            self.out_neighbours(u).contains(v) <==> self.edges.contains((u, v))
        &&& forall|u: T, v: T| #[trigger]
            self.in_neighbours(v).contains(u) <==> self.edges.contains((u, v))
        &&& forall|u: T| #[trigger] self.out_neighbours(u).no_duplicates()
        &&& forall|v: T| #[trigger] self.in_neighbours(v).no_duplicates()
    }

    /// The graph with `k` among its vertices. A vertex that was there keeps
    /// its label and its edges.
    pub open spec fn add_vertex(self, k: T) -> Self {
        GraphView {
            vertices: self.vertices.insert(k),
            outbound: self.outbound.insert(k, self.out_neighbours(k)),
            inbound: self.inbound.insert(k, self.in_neighbours(k)),
            ..self
        }
    }

    /// The graph with `label` as the label of `k`.
    pub open spec fn set_label(self, k: T, label: Seq<char>) -> Self {
        GraphView { labels: self.labels.insert(k, label), ..self }
    }

    /// The graph with an edge from `u` to `v`. Where that edge is there
    /// already, nothing changes; else `v` becomes the last of the
    /// destinations of `u`, and `u` the last of the sources of `v`.
    pub open spec fn add_edge(self, u: T, v: T) -> Self {
        if self.edges.contains((u, v)) {
            self
        } else {
            GraphView {
                edges: self.edges.insert((u, v)),
                outbound: self.outbound.insert(u, self.out_neighbours(u).push(v)),
                inbound: self.inbound.insert(v, self.in_neighbours(v).push(u)),
                ..self
            }
        }
    }

    /// The graph without the edge from `u` to `v`. The other neighbours of
    /// `u` and `v` keep their order.
    pub open spec fn remove_edge(self, u: T, v: T) -> Self {
        if self.edges.contains((u, v)) {
            GraphView {
                edges: self.edges.remove((u, v)),
                outbound: self.outbound.insert(u, without(self.out_neighbours(u), v)),
                inbound: self.inbound.insert(v, without(self.in_neighbours(v), u)),
                ..self
            }
        } else {
            self
        }
    }

    /// The graph without the vertex `k`, without its label and without the
    /// edges that leave or enter it. The other neighbours of the remaining
    /// vertices keep their order.
    pub open spec fn remove_vertex(self, k: T) -> Self {
        GraphView {
            vertices: self.vertices.remove(k),
            edges: self.edges.filter(|e: (T, T)| e.0 != k && e.1 != k),
            labels: self.labels.remove(k),
            outbound: Map::new(
                |u: T| self.vertices.contains(u) && u != k,
                |u: T| without(self.out_neighbours(u), k),
            ),
            inbound: Map::new(
                |v: T| self.vertices.contains(v) && v != k,
                |v: T| without(self.in_neighbours(v), k),
            ),
        }
    }
}

/// The empty graph is valid.
pub proof fn lemma_empty_valid<T>()
    ensures
        GraphView::<T>::empty().valid(),
{
}

/// Adding a vertex keeps a graph valid. Afterwards the key is a vertex, and
/// the graph has one vertex more than before where the key was none, and as
/// many as before where it was one.
pub proof fn lemma_add_vertex<T>(g: GraphView<T>, k: T)
    requires
        g.valid(),
    ensures
        g.add_vertex(k).valid(),
        g.add_vertex(k).vertices.contains(k),
        g.add_vertex(k).vertices.len() == g.vertices.len() + (if g.vertices.contains(k) {
            0int
        } else {
            1int
        }),
        g.vertices.contains(k) ==> g.add_vertex(k) == g,
{
    let h = g.add_vertex(k);
    assert forall|u: T| #[trigger] h.out_neighbours(u) == g.out_neighbours(u) by {}
    assert forall|v: T| #[trigger] h.in_neighbours(v) == g.in_neighbours(v) by {}
}

/// Setting the label of a vertex keeps a graph valid, and the vertex then
/// has that label. The labels of the other vertices stay as they are.
pub proof fn lemma_set_label<T>(g: GraphView<T>, k: T, label: Seq<char>)
    requires
        g.valid(),
        g.vertices.contains(k),
    ensures
        g.set_label(k, label).valid(),
        g.set_label(k, label).get_label(k) == Some(label),
        forall|j: T| j != k ==> #[trigger] g.set_label(k, label).get_label(j) == g.get_label(j),
{
    let h = g.set_label(k, label);
    assert forall|u: T| #[trigger] h.out_neighbours(u) == g.out_neighbours(u) by {}
    assert forall|v: T| #[trigger] h.in_neighbours(v) == g.in_neighbours(v) by {}
}

/// A key that is no vertex has no label and no neighbours.
pub proof fn lemma_stranger<T>(g: GraphView<T>, k: T)
    requires
        g.valid(),
        !g.vertices.contains(k),
    ensures
        g.get_label(k) is None,
        g.out_neighbours(k) == Seq::<T>::empty(),
        g.in_neighbours(k) == Seq::<T>::empty(),
{
}

/// Adding an edge between two vertices keeps a graph valid. Afterwards the
/// edge is in the graph, the destination is among the outbound neighbours of
/// the source, and the source among the inbound neighbours of the
/// destination. This holds of a loop as of any other edge. The graph has one
/// edge more than before where the edge was new.
pub proof fn lemma_add_edge<T>(g: GraphView<T>, u: T, v: T)
    requires
        g.valid(),
        g.vertices.contains(u),
        g.vertices.contains(v),
    ensures
        g.add_edge(u, v).valid(),
        g.add_edge(u, v).edges.contains((u, v)),
        g.add_edge(u, v).out_neighbours(u).contains(v),
        g.add_edge(u, v).in_neighbours(v).contains(u),
        g.add_edge(u, v).edges.len() == g.edges.len() + (if g.edges.contains((u, v)) {
            0int
        } else {
            1int
        }),
{
    let h = g.add_edge(u, v);
    if !g.edges.contains((u, v)) {
        assert(h.outbound.dom() =~= h.vertices);
        assert(h.inbound.dom() =~= h.vertices);
        lemma_push_fresh(g.out_neighbours(u), v);
        lemma_push_fresh(g.in_neighbours(v), u);
        assert forall|a: T, b: T| #[trigger]
            h.out_neighbours(a).contains(b) <==> h.edges.contains((a, b)) by {
            if a == u {
                assert(g.out_neighbours(u).contains(b) <==> g.edges.contains((u, b)));
            } else {
                assert(h.out_neighbours(a) == g.out_neighbours(a));
            }
        }
        assert forall|a: T, b: T| #[trigger]
            h.in_neighbours(b).contains(a) <==> h.edges.contains((a, b)) by {
            if b == v {
                assert(g.in_neighbours(v).contains(a) <==> g.edges.contains((a, v)));
            } else {
                assert(h.in_neighbours(b) == g.in_neighbours(b));
            }
        }
        assert forall|a: T| #[trigger] h.out_neighbours(a).no_duplicates() by {
            if a != u {
                assert(h.out_neighbours(a) == g.out_neighbours(a));
            }
        }
        assert forall|b: T| #[trigger] h.in_neighbours(b).no_duplicates() by {
            if b != v {
                assert(h.in_neighbours(b) == g.in_neighbours(b));
            }
        }
    }
}

/// Removing an edge keeps a graph valid. Afterwards the edge is not in the
/// graph, its destination is not among the outbound neighbours of its
/// source, and its source not among the inbound neighbours of its
/// destination. The other edges stay, and the graph has one edge less than
/// before where the edge was there.
pub proof fn lemma_remove_edge<T>(g: GraphView<T>, u: T, v: T)
    requires
        g.valid(),
    ensures
        g.remove_edge(u, v).valid(),
        !g.remove_edge(u, v).edges.contains((u, v)),
        !g.remove_edge(u, v).out_neighbours(u).contains(v),
        !g.remove_edge(u, v).in_neighbours(v).contains(u),
        forall|a: T, b: T|
            (a, b) != (u, v) ==> (#[trigger] g.remove_edge(u, v).edges.contains((a, b))
                <==> g.edges.contains((a, b))),
        g.remove_edge(u, v).edges.len() == g.edges.len() - (if g.edges.contains((u, v)) {
            1int
        } else {
            0int
        }),
        g.remove_edge(u, v).vertices == g.vertices,
{
    let h = g.remove_edge(u, v);
    if g.edges.contains((u, v)) {
        assert(h.outbound.dom() =~= h.vertices);
        assert(h.inbound.dom() =~= h.vertices);
        lemma_without_no_duplicates(g.out_neighbours(u), v);
        lemma_without_no_duplicates(g.in_neighbours(v), u);
        assert forall|a: T, b: T| #[trigger]
            h.out_neighbours(a).contains(b) <==> h.edges.contains((a, b)) by {
            if a == u {
                lemma_without_membership(g.out_neighbours(u), v, b);
            } else {
                assert(h.out_neighbours(a) == g.out_neighbours(a));
            }
        }
        assert forall|a: T, b: T| #[trigger]
            h.in_neighbours(b).contains(a) <==> h.edges.contains((a, b)) by {
            if b == v {
                lemma_without_membership(g.in_neighbours(v), u, a);
            } else {
                assert(h.in_neighbours(b) == g.in_neighbours(b));
            }
        }
        assert forall|a: T| #[trigger] h.out_neighbours(a).no_duplicates() by {
            if a != u {
                assert(h.out_neighbours(a) == g.out_neighbours(a));
            }
        }
        assert forall|b: T| #[trigger] h.in_neighbours(b).no_duplicates() by {
            if b != v {
                assert(h.in_neighbours(b) == g.in_neighbours(b));
            }
        }
    }
}

/// Removing a vertex keeps a graph valid. Afterwards the key is no vertex
/// and has no label, no edge leaves or enters it, and it is among the
/// neighbours of no vertex. The edges between the other vertices stay, and
/// so do the other vertices and their labels.
pub proof fn lemma_remove_vertex<T>(g: GraphView<T>, k: T)
    requires
        g.valid(),
    ensures
        g.remove_vertex(k).valid(),
        !g.remove_vertex(k).vertices.contains(k),
        g.remove_vertex(k).get_label(k) is None,
        forall|u: T, v: T| #[trigger]
            g.remove_vertex(k).edges.contains((u, v)) <==> g.edges.contains((u, v)) && u != k && v
                != k,
        forall|u: T| !(#[trigger] g.remove_vertex(k).out_neighbours(u)).contains(k),
        forall|v: T| !(#[trigger] g.remove_vertex(k).in_neighbours(v)).contains(k),
        forall|j: T|
            j != k ==> (#[trigger] g.remove_vertex(k).vertices.contains(j)
                <==> g.vertices.contains(j)),
        forall|j: T| j != k ==> #[trigger] g.remove_vertex(k).get_label(j) == g.get_label(j),
        !g.vertices.contains(k) ==> g.remove_vertex(k) == g,
{
    let h = g.remove_vertex(k);
    assert(h.outbound.dom() =~= h.vertices);
    assert(h.inbound.dom() =~= h.vertices);
    assert forall|u: T| #[trigger]
        h.out_neighbours(u) == (if u == k {
            Seq::<T>::empty()
        } else {
            without(g.out_neighbours(u), k)
        }) by {}
    assert forall|v: T| #[trigger]
        h.in_neighbours(v) == (if v == k {
            Seq::<T>::empty()
        } else {
            without(g.in_neighbours(v), k)
        }) by {}
    assert forall|a: T, b: T| #[trigger]
        h.out_neighbours(a).contains(b) <==> h.edges.contains((a, b)) by {
        lemma_without_membership(g.out_neighbours(a), k, b);
    }
    assert forall|a: T, b: T| #[trigger]
        h.in_neighbours(b).contains(a) <==> h.edges.contains((a, b)) by {
        lemma_without_membership(g.in_neighbours(b), k, a);
    }
    assert forall|a: T| #[trigger] h.out_neighbours(a).no_duplicates() by {
        lemma_without_no_duplicates(g.out_neighbours(a), k);
    }
    assert forall|b: T| #[trigger] h.in_neighbours(b).no_duplicates() by {
        lemma_without_no_duplicates(g.in_neighbours(b), k);
    }
    if !g.vertices.contains(k) {
        assert forall|u: T| without(g.out_neighbours(u), k) == g.out_neighbours(u) by {
            lemma_without_absent(g.out_neighbours(u), k);
        }
        assert forall|v: T| without(g.in_neighbours(v), k) == g.in_neighbours(v) by {
            lemma_without_absent(g.in_neighbours(v), k);
        }
        assert forall|e: (T, T)| g.edges.contains(e) implies e.0 != k && e.1 != k by {
            assert(g.edges.contains((e.0, e.1)));
        }
        assert(h.edges =~= g.edges);
        assert(h.labels =~= g.labels);
        assert(h.outbound =~= g.outbound);
        assert(h.inbound =~= g.inbound);
    }
}

} // verus!
