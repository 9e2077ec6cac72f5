//! A directed graph whose vertices are keys of any hashable, copyable type
//! and may carry a label.

use crate::adjacency::{
    drop_edges_of, lemma_pruned, lemma_pushed, list_of, neighbour_lists, prune, push_neighbour,
    table_matches,
};
use crate::model::GraphView;
use crate::pair_set::PairSet;
use crate::sequence::without;
use std::collections::hash_map::Entry;
use std::collections::HashMap;
use std::collections::HashSet;
use std::hash::Hash;
use vstd::prelude::*;
use vstd::std_specs::hash::obeys_key_model;
use vstd::std_specs::iter::IteratorSpec;
use vstd::std_specs::slice::into_iter_elts;

verus! {

/// Graph operation error.
#[derive(Debug, PartialEq, Eq, Structural)]
pub enum GraphError {
    /// There is no vertex with the given key in the graph.
    NoSuchVertex,
    /// There is no such edge in the graph.
    NoSuchEdge,
}

/// The labels as sequences of characters.
spec fn label_texts<T>(labels: Map<T, String>) -> Map<T, Seq<char>> {
    Map::new(|k: T| labels.contains_key(k), |k: T| labels[k]@)
}

/// Every edge joins two vertices.
spec fn edges_join<T>(vertices: Set<T>, edges: Set<(T, T)>) -> bool {
    forall|u: T, v: T| #[trigger]
        edges.contains((u, v)) ==> vertices.contains(u) && vertices.contains(v)
}

/// A directed graph. Its vertices are keys, its edges ordered pairs of
/// vertices, with at most one edge for a pair and loops allowed. A vertex may
/// have a label. For each vertex the graph keeps its neighbours in both
/// directions, in the order in which the edges were added.
///
/// The value of a graph is its view, a [`GraphView`]. Every function asks for
/// a graph that is well formed and leaves it so; [`Graph::new`] makes one.
#[verifier::reject_recursive_types(T)]
pub struct Graph<T: Eq + Hash + Copy> {
    /// Set of vertices in the graph.
    vertices: HashSet<T>,
    /// Set of edges in the graph.
    edges: PairSet<T>,
    /// Mapping of vertices to their labels.
    vertex_labels: HashMap<T, String>,
    /// Mapping of vertices to their inbound neighbours.
    inbound_table: HashMap<T, Vec<T>>,
    /// Mapping of vertices to their outbound neighbours.
    outbound_table: HashMap<T, Vec<T>>,
}

impl<T: Eq + Hash + Copy> View for Graph<T> {
    type V = GraphView<T>;

    closed spec fn view(&self) -> GraphView<T> {
        GraphView {
            vertices: self.vertices@,
            edges: self.edges@,
            labels: label_texts(self.vertex_labels@),
            outbound: neighbour_lists(self.vertices@, self.outbound_table@),
            inbound: neighbour_lists(self.vertices@, self.inbound_table@),
        }
    }
}

impl<T: Eq + Hash + Copy> Graph<T> {
    /// The graph is well formed: its keys obey the model of hash table keys,
    /// only vertices have labels, every edge joins two vertices, and the two
    /// tables hold for each key the far ends of its edges, each of them once.
    pub closed spec fn wf(&self) -> bool {
        &&& obeys_key_model::<T>()
        &&& self.vertices@.finite()
        &&& self.edges.wf()
        &&& self.vertex_labels@.dom().subset_of(self.vertices@)
        &&& edges_join(self.vertices@, self.edges@)
        &&& table_matches(self.edges@, self.outbound_table@, true)
        &&& table_matches(self.edges@, self.inbound_table@, false)
    }

    /// The neighbours in the value of the graph are what the tables hold:
    /// nothing for a key that is no vertex.
    proof fn lemma_neighbours(&self)
        requires
            self.wf(),
        ensures
            forall|k: T| #[trigger] self@.out_neighbours(k) == list_of(self.outbound_table@, k),
            forall|k: T| #[trigger] self@.in_neighbours(k) == list_of(self.inbound_table@, k),
    {
        assert forall|k: T| #[trigger]
            self@.out_neighbours(k) == list_of(self.outbound_table@, k) by {
            let list = list_of(self.outbound_table@, k);
            if !self.vertices@.contains(k) && list.len() > 0 {
                assert(list.contains(list[0]));
            }
        }
        assert forall|k: T| #[trigger]
            self@.in_neighbours(k) == list_of(self.inbound_table@, k) by {
            let list = list_of(self.inbound_table@, k);
            if !self.vertices@.contains(k) && list.len() > 0 {
                assert(list.contains(list[0]));
            }
        }
    }

    /// The value of a well formed graph is valid.
    pub proof fn lemma_valid(&self)
        requires
            self.wf(),
        ensures
            self@.valid(),
    {
        self.edges.lemma_finite();
        let g = self@;
        assert(g.outbound.dom() =~= g.vertices);
        assert(g.inbound.dom() =~= g.vertices);
    }

    /// Creates a new graph, without vertices.
    ///
    /// The keys have to obey the model of hash table keys, as the integer
    /// types and `bool` do: equal keys have equal hashes, and `==` holds of
    /// two keys exactly when they are the same.
    pub fn new() -> (graph: Graph<T>)
        requires
            obeys_key_model::<T>(),
        ensures
            graph.wf(),
            graph@ == GraphView::<T>::empty(),
    {
        Graph {
            vertices: HashSet::new(),
            edges: PairSet::new(),
            vertex_labels: HashMap::new(),
            inbound_table: HashMap::new(),
            outbound_table: HashMap::new(),
        }
    }

    /// Adds a vertex. Returns whether a vertex with the given key was in the
    /// graph already; such a vertex keeps its label and its edges.
    pub fn add_vertex(&mut self, vertex: T) -> (present: bool)
        requires
            old(self).wf(),
        ensures
            final(self).wf(),
            present == old(self)@.vertices.contains(vertex),
            final(self)@ == old(self)@.add_vertex(vertex),
    {
        proof {
            self.lemma_neighbours();
        }
        !self.vertices.insert(vertex)
    }

    /// Adds a vertex and gives it the label, in place of the label that it
    /// had. Returns whether a vertex with the given key was in the graph
    /// already.
    pub fn add_vertex_with_label(&mut self, vertex: T, label: &str) -> (present: bool)
        requires
            old(self).wf(),
        ensures
            final(self).wf(),
            present == old(self)@.vertices.contains(vertex),
            final(self)@ == old(self)@.add_vertex(vertex).set_label(vertex, label@),
    {
        let present = self.add_vertex(vertex);
        self.vertex_labels.insert(vertex, label.to_owned());
        present
    }

    /// Adds an edge from `source` to `destination`. Fails with
    /// `NoSuchVertex` where one of the two is no vertex. Where the edge is in
    /// the graph already, nothing changes.
    pub fn add_edge(&mut self, source: T, destination: T) -> (result: Result<(), GraphError>)
        requires
            old(self).wf(),
        ensures
            final(self).wf(),
            match result {
                Ok(_) => old(self)@.vertices.contains(source) && old(self)@.vertices.contains(
                    destination,
                ) && final(self)@ == old(self)@.add_edge(source, destination),
                Err(error) => error == GraphError::NoSuchVertex && !(old(self)@.vertices.contains(
                    source,
                ) && old(self)@.vertices.contains(destination)) && final(self)@ == old(self)@,
            },
    {
        if !self.vertices.contains(&source) || !self.vertices.contains(&destination) {
            return Err(GraphError::NoSuchVertex);
        }
        if self.edges.insert(source, destination) {
            push_neighbour(&mut self.outbound_table, source, destination);
            push_neighbour(&mut self.inbound_table, destination, source);
            proof {
                let earlier = old(self);
                lemma_pushed(
                    earlier.edges@,
                    earlier.outbound_table@,
                    self.outbound_table@,
                    true,
                    source,
                    destination,
                );
                lemma_pushed(
                    earlier.edges@,
                    earlier.inbound_table@,
                    self.inbound_table@,
                    false,
                    destination,
                    source,
                );
            }
        }
        Ok(())
    }

    /// Returns the number of vertices.
    pub fn number_of_vertices(&self) -> (count: usize)
        requires
            self.wf(),
        ensures
            count == self@.vertices.len(),
    {
        self.vertices.len()
    }

    /// Returns the number of edges.
    pub fn number_of_edges(&self) -> (count: usize)
        requires
            self.wf(),
        ensures
            count == self@.edges.len(),
    {
        self.edges.len()
    }

    /// Removes a vertex, with its label and with every edge that leaves or
    /// enters it. Fails with `NoSuchVertex` where the key is no vertex.
    pub fn remove_vertex(&mut self, vertex: &T) -> (result: Result<(), GraphError>)
        requires
            old(self).wf(),
        ensures
            final(self).wf(),
            match result {
                Ok(_) => old(self)@.vertices.contains(*vertex) && final(self)@ == old(
                    self,
                )@.remove_vertex(*vertex),
                Err(error) => error == GraphError::NoSuchVertex && !old(self)@.vertices.contains(
                    *vertex,
                ) && final(self)@ == old(self)@,
            },
    {
        if !self.vertices.contains(vertex) {
            return Err(GraphError::NoSuchVertex);
        }
        let key = *vertex;
        self.vertices.remove(vertex);
        self.vertex_labels.remove(vertex);
        drop_edges_of(
            &mut self.edges,
            &mut self.outbound_table,
            &mut self.inbound_table,
            true,
            key,
        );
        let ghost halfway = self.inbound_table@;
        drop_edges_of(
            &mut self.edges,
            &mut self.inbound_table,
            &mut self.outbound_table,
            false,
            key,
        );
        proof {
            let earlier = old(self);
            assert forall|v: T| v != key implies #[trigger] list_of(self.inbound_table@, v)
                == without(list_of(earlier.inbound_table@, v), key) by {
                assert(list_of(halfway, v) == without(list_of(earlier.inbound_table@, v), key));
            }
        }
        Ok(())
    }

    /// Removes the edge from `source` to `destination`. Fails with
    /// `NoSuchEdge` where the graph has no such edge.
    pub fn remove_edge(&mut self, source: &T, destination: &T) -> (result: Result<(), GraphError>)
        requires
            old(self).wf(),
        ensures
            final(self).wf(),
            match result {
                Ok(_) => old(self)@.edges.contains((*source, *destination)) && final(self)@ == old(
                    self,
                )@.remove_edge(*source, *destination),
                Err(error) => error == GraphError::NoSuchEdge && !old(self)@.edges.contains(
                    (*source, *destination),
                ) && final(self)@ == old(self)@,
            },
    {
        if !self.edges.remove(source, destination) {
            return Err(GraphError::NoSuchEdge);
        }
        prune(&mut self.outbound_table, &self.edges, true, *source);
        prune(&mut self.inbound_table, &self.edges, false, *destination);
        proof {
            let earlier = old(self);
            lemma_pruned(
                earlier.edges@,
                earlier.outbound_table@,
                self.outbound_table@,
                true,
                *source,
                *destination,
            );
            lemma_pruned(
                earlier.edges@,
                earlier.inbound_table@,
                self.inbound_table@,
                false,
                *destination,
                *source,
            );
        }
        Ok(())
    }

    /// Returns the label of a vertex, or nothing where the key has no label
    /// or is no vertex.
    pub fn get_label(&self, vertex: &T) -> (label: Option<&String>)
        requires
            self.wf(),
        ensures
            match label {
                Some(text) => self@.get_label(*vertex) == Some(text@),
                None => self@.get_label(*vertex) is None,
            },
    {
        self.vertex_labels.get(vertex)
    }

    /// Returns the label of a vertex for writing, or nothing where the key
    /// has no label or is no vertex. What is written becomes the label.
    pub fn get_label_mut(&mut self, vertex: &T) -> (label: Option<&mut String>)
        requires
            old(self).wf(),
        ensures
            final(self).wf(),
            match label {
                Some(text) => old(self)@.get_label(*vertex) == Some(text@) && final(self)@ == old(
                    self,
                )@.set_label(*vertex, final(text)@),
                None => old(self)@.get_label(*vertex) is None && final(self)@ == old(self)@,
            },
    {
        match self.vertex_labels.entry(*vertex) {
            Entry::Occupied(entry) => Some(entry.into_mut()),
            Entry::Vacant(_) => None,
        }
    }

    /// Sets the label of a vertex, in place of the label that it had.
    /// Fails with `NoSuchVertex` where the key is no vertex.
    pub fn set_label(&mut self, vertex: &T, label: &str) -> (result: Result<(), GraphError>)
        requires
            old(self).wf(),
        ensures
            final(self).wf(),
            match result {
                Ok(_) => old(self)@.vertices.contains(*vertex) && final(self)@ == old(
                    self,
                )@.set_label(*vertex, label@),
                Err(error) => error == GraphError::NoSuchVertex && !old(self)@.vertices.contains(
                    *vertex,
                ) && final(self)@ == old(self)@,
            },
    {
        if !self.vertices.contains(vertex) {
            return Err(GraphError::NoSuchVertex);
        }
        self.vertex_labels.insert(*vertex, label.to_owned());
        Ok(())
    }

    /// Returns an iterator over the inbound neighbours of the given vertex:
    /// the sources of the edges that enter it, in the order in which those
    /// edges were added. It yields nothing where the key has no inbound edge
    /// or is no vertex.
    pub fn in_neighbours(&self, vertex: &T) -> (neighbours: std::slice::Iter<'_, T>)
        requires
            self.wf(),
        ensures
            into_iter_elts(neighbours) == self@.in_neighbours(*vertex),
            self@.in_neighbours(*vertex).len() <= usize::MAX,
            IteratorSpec::decrease(&neighbours) is Some,
            IteratorSpec::initial_value_relation(&neighbours, &neighbours),
    {
        proof {
            self.lemma_neighbours();
        }
        match self.inbound_table.get(vertex) {
            Some(sources) => {
                assert(sources@.len() == sources.len());
                sources.iter()
            },
            None => [].iter(),
        }
    }

    /// Returns an iterator over the outbound neighbours of the given vertex:
    /// the destinations of the edges that leave it, in the order in which
    /// those edges were added. It yields nothing where the key has no
    /// outbound edge or is no vertex.
    pub fn out_neighbours(&self, vertex: &T) -> (neighbours: std::slice::Iter<'_, T>)
        requires
            self.wf(),
        ensures
            into_iter_elts(neighbours) == self@.out_neighbours(*vertex),
            self@.out_neighbours(*vertex).len() <= usize::MAX,
            IteratorSpec::decrease(&neighbours) is Some,
            IteratorSpec::initial_value_relation(&neighbours, &neighbours),
    {
        proof {
            self.lemma_neighbours();
        }
        match self.outbound_table.get(vertex) {
            Some(destinations) => {
                assert(destinations@.len() == destinations.len());
                destinations.iter()
            },
            None => [].iter(),
        }
    }

    /// Returns whether a vertex is in the graph by key.
    pub fn is_vertex_in_graph(&self, vertex: &T) -> (found: bool)
        requires
            self.wf(),
        ensures
            found == self@.vertices.contains(*vertex),
    {
        self.vertices.contains(vertex)
    }

    /// Returns whether an edge is in the graph by the keys of its vertices.
    pub fn is_edge_in_graph(&self, outbound: T, inbound: T) -> (found: bool)
        requires
            self.wf(),
        ensures
            found == self@.edges.contains((outbound, inbound)),
    {
        self.edges.contains(&outbound, &inbound)
    }
}

} // verus!
