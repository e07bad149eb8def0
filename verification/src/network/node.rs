//! A scalar computation unit: activation, bias, error term, and the vector of
//! outgoing weights toward the next layer.  All scalars are IEEE 754
//! single-precision bit patterns carried as `u32`.

use vstd::prelude::*;

verus! {

/// One unit of a layer.  `weights[k]` is the strength of this node's
/// connection to node `k` of the next layer.
pub struct Node {
    pub activation: u32,
    pub bias: u32,
    pub error: u32,
    pub weights: Vec<u32>,
}

/// The mathematical value of a `Node`: the same scalars with the weight
/// vector abstracted to a sequence.
#[verifier::ext_equal]
pub struct NodeModel {
    pub activation: u32,
    pub bias: u32,
    pub error: u32,
    pub weights: Seq<u32>,
}

impl View for Node {
    type V = NodeModel;

    open spec fn view(&self) -> NodeModel {
        NodeModel {
            activation: self.activation,
            bias: self.bias,
            error: self.error,
            weights: self.weights@,
        }
    }
}

/// The model of a node as `Layer::new` produces it: all scalars zero, no
/// outgoing weights yet.
pub open spec fn zero_node() -> NodeModel {
    NodeModel { activation: 0u32, bias: 0u32, error: 0u32, weights: Seq::empty() }
}

impl Node {
    fn new() -> (n: Node)
        ensures
            n@ == zero_node(),
    {
        let n = Node { activation: 0, bias: 0, error: 0, weights: Vec::new() };
        proof {
            assert(n@.weights =~= Seq::<u32>::empty());
            assert(n@ =~= zero_node());
        }
        n
    }
}

impl Default for Node {
    fn default() -> (n: Node)
        ensures
            n@ == zero_node(),
    {
        Node::new()
    }
}

} // verus!
