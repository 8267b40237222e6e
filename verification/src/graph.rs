//! Vocabulary types for directed graphs: labelled nodes, edges between
//! borrowed nodes, and a graph as plain node and edge lists.
//!
//! Traversal, shortest-path and spanning-tree algorithms are deliberately
//! not part of this crate; these types only give collaborators a shared
//! shape for graph data.

use vstd::prelude::*;
use vstd::std_specs::cmp::PartialEqSpec;

verus! {

/// Relies on `str`'s `PartialEq`: string slices compare equal exactly
/// when their character contents are equal.
#[verifier::external_body]
fn str_eq(a: &str, b: &str) -> (r: bool)
    ensures
        r == (a@ == b@),
{
    a == b
}

/// A node: a string identifier together with a value of type `T`.
pub struct Node<'a, T: Eq> {
    pub id: &'a str,
    pub value: T,
}

impl<'a, T: Eq> Node<'a, T> {
    /// Builds the node with exactly the given identifier and value.
    pub fn new(id: &'a str, value: T) -> (r: Self)
        ensures
            r.id@ == id@,
            r.value == value,
    {
        Self { id, value }
    }
}

impl<'a, T: Eq> PartialEq for Node<'a, T> {
    /// Nodes are equal when both their identifiers and their values are.
    fn eq(&self, other: &Self) -> bool {
        str_eq(self.id, other.id) && self.value == other.value
    }
}

impl<'a, T: Eq> vstd::std_specs::cmp::PartialEqSpecImpl for Node<'a, T> {
    open spec fn obeys_eq_spec() -> bool {
        T::obeys_eq_spec()
    }

    open spec fn eq_spec(&self, other: &Node<'a, T>) -> bool {
        self.id@ == other.id@ && self.value.eq_spec(&other.value)
    }
}

impl<'a, T: Eq> Eq for Node<'a, T> {
}

/// A directed edge between two borrowed nodes.
pub struct Edge<'a, T: Eq> {
    pub subject: &'a Node<'a, T>,
    pub object: &'a Node<'a, T>,
}

impl<'a, T: Eq> Edge<'a, T> {
    /// Builds the edge running from `from` to `to`.
    pub fn new(from: &'a Node<'a, T>, to: &'a Node<'a, T>) -> (r: Self)
        ensures
            r.subject == from,
            r.object == to,
    {
        Edge { subject: from, object: to }
    }
}

/// A directed graph: the nodes it owns references to, and the edges
/// between them.
pub struct Graph<'a, T: Eq> {
    pub nodes: Vec<&'a Node<'a, T>>,
    pub edges: Vec<&'a Edge<'a, T>>,
}

} // verus!
