//! The syntax tree of one program unit, and its mathematical model.
use vstd::prelude::*;

verus! {

/// One node of the syntax tree. Every inner node owns its children.
#[derive(Debug, PartialEq)]
#[allow(inconsistent_fields)]
pub enum Node {
    Add { lhs: Box<Node>, rhs: Box<Node> },
    Mul { lhs: Box<Node>, rhs: Box<Node> },
    Number { value: u64 },
    Id { value: String },
    PrintLn { rhs: Box<Node> },
    Assign { id: String, rhs: Box<Node> },
    Declare { id: String, rhs: Option<Box<Node>> },
    Empty,
}

/// The model of a [`Node`]: the same tree, with names as character sequences.
#[allow(inconsistent_fields)]
pub ghost enum NodeView {
    Add { lhs: Box<NodeView>, rhs: Box<NodeView> },
    Mul { lhs: Box<NodeView>, rhs: Box<NodeView> },
    Number { value: u64 },
    Id { value: Seq<char> },
    PrintLn { rhs: Box<NodeView> },
    Assign { id: Seq<char>, rhs: Box<NodeView> },
    Declare { id: Seq<char>, rhs: Option<Box<NodeView>> },
    Empty,
}

impl Node {
    /// The model of this tree.
    pub open spec fn model(self) -> NodeView
        decreases self,
    {
        match self {
            Node::Add { lhs, rhs } => NodeView::Add {
                lhs: Box::new(lhs.model()),
                rhs: Box::new(rhs.model()),
            },
            Node::Mul { lhs, rhs } => NodeView::Mul {
                lhs: Box::new(lhs.model()),
                rhs: Box::new(rhs.model()),
            },
            Node::Number { value } => NodeView::Number { value },
            Node::Id { value } => NodeView::Id { value: value@ },
            Node::PrintLn { rhs } => NodeView::PrintLn { rhs: Box::new(rhs.model()) },
            Node::Assign { id, rhs } => NodeView::Assign { id: id@, rhs: Box::new(rhs.model()) },
            Node::Declare { id, rhs } => NodeView::Declare {
                id: id@,
                rhs: match rhs {
                    Some(init) => Some(Box::new(init.model())),
                    None => None,
                },
            },
            Node::Empty => NodeView::Empty,
        }
    }
}

impl View for Node {
    type V = NodeView;

    open spec fn view(&self) -> NodeView {
        self.model()
    }
}

impl Clone for Node {
    /// A copy of the tree: the same tree.
    fn clone(&self) -> (copy: Self)
        ensures
            copy == *self,
        decreases self,
    {
        match self {
            Node::Add { lhs, rhs } => Node::Add {
                lhs: Box::new((**lhs).clone()),
                rhs: Box::new((**rhs).clone()),
            },
            Node::Mul { lhs, rhs } => Node::Mul {
                lhs: Box::new((**lhs).clone()),
                rhs: Box::new((**rhs).clone()),
            },
            Node::Number { value } => Node::Number { value: *value },
            Node::Id { value } => Node::Id { value: value.clone() },
            Node::PrintLn { rhs } => Node::PrintLn { rhs: Box::new((**rhs).clone()) },
            Node::Assign { id, rhs } => Node::Assign {
                id: id.clone(),
                rhs: Box::new((**rhs).clone()),
            },
            Node::Declare { id, rhs } => Node::Declare {
                id: id.clone(),
                rhs: match rhs {
                    Some(init) => Some(Box::new((**init).clone())),
                    None => None,
                },
            },
            Node::Empty => Node::Empty,
        }
    }
}

/// The models of a sequence of nodes, in order.
pub open spec fn views(nodes: Seq<Node>) -> Seq<NodeView> {
    Seq::new(nodes.len(), |i: int| nodes[i]@)
}

} // verus!
