//! The library's model of a walked syntax tree.
use vstd::prelude::*;

verus! {

/// The kinds of node that the library tells apart.
#[derive(PartialEq, Eq, Structural, Clone, Copy, Debug)]
pub enum NodeKind {
    Function,
    AsyncFunction,
    Class,
    Other,
}

/// A decorator: a bare identifier, which can be inspected, or any other
/// expression, carried as its source text and never inspected.
#[derive(Clone, Debug, PartialEq, Eq)]
pub enum Decorator {
    SimpleName(String),
    Complex(String),
}

/// What a decorator is, as plain text.
pub enum DecoratorModel {
    SimpleName(Seq<char>),
    Complex(Seq<char>),
}

impl View for Decorator {
    type V = DecoratorModel;

    open spec fn view(&self) -> DecoratorModel {
        match self {
            Decorator::SimpleName(id) => DecoratorModel::SimpleName(id@),
            Decorator::Complex(src) => DecoratorModel::Complex(src@),
        }
    }
}

/// The plain values of a sequence of decorators.
pub open spec fn decorators_model(ds: Seq<Decorator>) -> Seq<DecoratorModel> {
    ds.map_values(|d: Decorator| d@)
}

impl Decorator {
    /// A copy with the same text.
    pub fn duplicate(&self) -> (r: Decorator)
        ensures
            r@ == self@,
    {
        match self {
            Decorator::SimpleName(id) => Decorator::SimpleName(id.clone()),
            Decorator::Complex(src) => Decorator::Complex(src.clone()),
        }
    }
}

/// One node of a walked tree. `decorators` is present exactly on the nodes
/// that carry a decorator list.
#[derive(Clone, Debug, PartialEq, Eq)]
pub struct Node {
    pub kind: NodeKind,
    pub name: Option<String>,
    pub decorators: Option<Vec<Decorator>>,
}

/// What a node is, as plain values.
pub struct NodeModel {
    pub kind: NodeKind,
    pub name: Option<Seq<char>>,
    pub decorators: Option<Seq<DecoratorModel>>,
}

impl View for Node {
    type V = NodeModel;

    open spec fn view(&self) -> NodeModel {
        NodeModel {
            kind: self.kind,
            name: match self.name {
                Some(n) => Some(n@),
                None => None,
            },
            decorators: match self.decorators {
                Some(ds) => Some(decorators_model(ds@)),
                None => None,
            },
        }
    }
}

/// The plain values of a sequence of nodes.
pub open spec fn nodes_model(ns: Seq<Node>) -> Seq<NodeModel> {
    ns.map_values(|n: Node| n@)
}

} // verus!
