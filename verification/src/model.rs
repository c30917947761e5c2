//! The data that an evaluation reads, and the mathematical model of each type.

use vstd::prelude::*;

verus! {

/// Identifier of a segment: a name or a number. A name never equals a number.
#[derive(Clone, Debug, PartialEq, Eq)]
pub enum SegmentId {
    Name(String),
    Number(i64),
}

/// Model of a [`SegmentId`].
pub enum SegmentKey {
    Name(Seq<char>),
    Number(int),
}

impl View for SegmentId {
    type V = SegmentKey;

    open spec fn view(&self) -> SegmentKey {
        match self {
            SegmentId::Name(name) => SegmentKey::Name(name@),
            SegmentId::Number(number) => SegmentKey::Number(*number as int),
        }
    }
}

impl SegmentId {
    /// Whether two identifiers denote the same segment.
    pub fn same_as(&self, other: &SegmentId) -> (same: bool)
        ensures
            same == (self@ == other@),
    {
        match self {
            SegmentId::Name(a) => match other {
                SegmentId::Name(b) => *a == *b,
                SegmentId::Number(_) => false,
            },
            SegmentId::Number(a) => match other {
                SegmentId::Name(_) => false,
                SegmentId::Number(b) => *a == *b,
            },
        }
    }

    /// A copy of the identifier.
    pub fn duplicate(&self) -> (copy: SegmentId)
        ensures
            copy@ == self@,
    {
        match self {
            SegmentId::Name(name) => SegmentId::Name(name.clone()),
            SegmentId::Number(number) => SegmentId::Number(*number),
        }
    }
}

/// A point with one coordinate per dimension, and the segment it belongs to.
#[derive(Clone, Debug, PartialEq, Eq)]
pub struct Node {
    pub coords: Vec<i64>,
    pub segment: SegmentId,
}

/// Model of a [`Node`].
pub struct NodeModel {
    pub coords: Seq<int>,
    pub segment: SegmentKey,
}

impl View for Node {
    type V = NodeModel;

    open spec fn view(&self) -> NodeModel {
        NodeModel { coords: ints(self.coords@), segment: self.segment@ }
    }
}

/// The nodes recorded as important under one segment identifier.
#[derive(Clone, Debug, PartialEq, Eq)]
pub struct SegmentNodes {
    pub segment: SegmentId,
    pub nodes: Vec<Node>,
}

/// Model of a [`SegmentNodes`].
pub struct SegmentNodesModel {
    pub segment: SegmentKey,
    pub nodes: Seq<NodeModel>,
}

impl View for SegmentNodes {
    type V = SegmentNodesModel;

    open spec fn view(&self) -> SegmentNodesModel {
        SegmentNodesModel { segment: self.segment@, nodes: models(self.nodes@) }
    }
}

/// The segments declared adjacent to one segment.
#[derive(Clone, Debug, PartialEq, Eq)]
pub struct Adjacency {
    pub segment: SegmentId,
    pub neighbors: Vec<SegmentId>,
}

/// Model of an [`Adjacency`].
pub struct AdjacencyModel {
    pub segment: SegmentKey,
    pub neighbors: Seq<SegmentKey>,
}

impl View for Adjacency {
    type V = AdjacencyModel;

    open spec fn view(&self) -> AdjacencyModel {
        AdjacencyModel { segment: self.segment@, neighbors: models(self.neighbors@) }
    }
}

/// The integers that a sequence of machine integers holds.
pub open spec fn ints(values: Seq<i64>) -> Seq<int> {
    Seq::new(values.len(), |i: int| values[i] as int)
}

/// The models of the items of a sequence, in order.
pub open spec fn models<T: View>(items: Seq<T>) -> Seq<T::V> {
    Seq::new(items.len(), |i: int| items[i]@)
}

} // verus!
