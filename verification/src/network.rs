//! The network core: a fixed topology of layers, and the staged forward,
//! backward, and weight-update passes over it.
//!
//! A pass is split into *task* functions, which read the network and hand
//! out exactly the operands each arithmetic step needs, and *apply*
//! functions, which write the computed results back.  The caller performs
//! the floating-point arithmetic between the two; the library fixes which
//! operands feed each step, where each result lands, and that nothing else
//! moves.

pub mod layer;
pub mod node;

use vstd::prelude::*;

use self::layer::{
    acts_set, errors_set, step_ok, task_of, weights_set, Layer, NodeTask,
};
use self::node::NodeModel;

verus! {

/// The bit pattern of the single-precision value one, the initial weight of
/// every connection.
pub const ONE_BITS: u32 = 0x3F80_0000;

/// The errors the network can report.
///
/// - `InvalidTopology`: construction was asked for zero hidden layers.
/// - `InputSizeMismatch`: a supplied vector's length does not match the
///   width of the layer it is meant for.
/// - `ShapeMismatch`: a weight vector's length does not match the layer it
///   connects to, so a step cannot be formed.
#[derive(Clone, Copy, Debug, PartialEq, Eq, Structural)]
pub enum NetError {
    InvalidTopology,
    InputSizeMismatch,
    ShapeMismatch,
}

/// The operands of one output-node error step: the supplied target value
/// and the node's current activation.
#[derive(Clone, Copy, Debug, PartialEq, Eq, Structural)]
pub struct OutputErrorTask {
    pub target: u32,
    pub activation: u32,
}

/// The operands of one hidden-node error step: the error term of the node
/// at the same position in the next layer, and the node's own activation.
#[derive(Clone, Copy, Debug, PartialEq, Eq, Structural)]
pub struct HiddenErrorTask {
    pub next_error: u32,
    pub activation: u32,
}

/// The operands of one weight-update step: the current weight, the error
/// term of the node the weight leads to, and the activation of the node the
/// weight leaves.
#[derive(Clone, Copy, Debug, PartialEq, Eq, Structural)]
pub struct WeightTask {
    pub weight: u32,
    pub error: u32,
    pub activation: u32,
}

/// The network: an input layer, at least one hidden layer, an output layer.
pub struct FatNet {
    input: Layer,
    hidden: Vec<Layer>,
    output: Layer,
}

/// The mathematical value of a `FatNet`: each layer as a sequence of node
/// models.
#[verifier::ext_equal]
pub struct NetModel {
    pub input: Seq<NodeModel>,
    pub hidden: Seq<Seq<NodeModel>>,
    pub output: Seq<NodeModel>,
}

impl View for FatNet {
    type V = NetModel;

    closed spec fn view(&self) -> NetModel {
        NetModel {
            input: self.input@,
            hidden: Seq::new(self.hidden@.len(), |k: int| self.hidden@[k]@),
            output: self.output@,
        }
    }
}

/// The shape invariant that construction establishes and every pass keeps:
/// at least one hidden layer, all hidden layers of one width, and every
/// weight vector exactly as long as the layer it feeds (the last hidden
/// layer feeds the output layer).
pub open spec fn wf_model(m: NetModel) -> bool {
    &&& m.hidden.len() >= 1
    &&& forall|k: int| 0 <= k < m.hidden.len() ==> (#[trigger] m.hidden[k]).len() == m.hidden[0].len()
    &&& forall|i: int| 0 <= i < m.input.len()
        ==> (#[trigger] m.input[i]).weights.len() == m.hidden[0].len()
    &&& forall|k: int, i: int|
        0 <= k < m.hidden.len() - 1 && 0 <= i < m.hidden[k].len()
            ==> (#[trigger] m.hidden[k][i]).weights.len() == m.hidden[0].len()
    &&& forall|i: int|
        0 <= i < m.hidden[m.hidden.len() - 1].len()
            ==> (#[trigger] m.hidden[m.hidden.len() - 1][i]).weights.len() == m.output.len()
}

/// A freshly constructed node: all scalars zero and `nw` outgoing weights,
/// each the bit pattern of one.
pub open spec fn is_fresh_node(n: NodeModel, nw: int) -> bool {
    &&& n.activation == 0u32
    &&& n.bias == 0u32
    &&& n.error == 0u32
    &&& n.weights.len() == nw
    &&& forall|t: int| 0 <= t < nw ==> n.weights[t] == ONE_BITS
}

/// A freshly constructed layer: `width` fresh nodes of `nw` weights each.
pub open spec fn is_fresh_layer(l: Seq<NodeModel>, width: int, nw: int) -> bool {
    l.len() == width && forall|i: int| 0 <= i < width ==> is_fresh_node(#[trigger] l[i], nw)
}

/// The state `FatNet::new(iw, (d, w), ow)` leaves the network in.
pub open spec fn is_initial(m: NetModel, iw: int, d: int, w: int, ow: int) -> bool {
    &&& is_fresh_layer(m.input, iw, w)
    &&& m.hidden.len() == d
    &&& forall|k: int| 0 <= k < d - 1 ==> is_fresh_layer(#[trigger] m.hidden[k], w, w)
    &&& is_fresh_layer(m.hidden[d - 1], w, ow)
    &&& is_fresh_layer(m.output, ow, 0)
}

/// The layer a forward stage reads: the input layer for stage `0`, hidden
/// layer `k - 1` for stage `k` past that.
pub open spec fn stage_source(m: NetModel, k: int) -> Seq<NodeModel> {
    if k == 0 {
        m.input
    } else {
        m.hidden[k - 1]
    }
}

/// The layer a forward stage writes: hidden layer `k` while there is one,
/// the output layer for the last stage.
pub open spec fn stage_target(m: NetModel, k: int) -> Seq<NodeModel> {
    if k < m.hidden.len() {
        m.hidden[k]
    } else {
        m.output
    }
}

/// `post` is `pre` with the activations of the target layer of stage `k`
/// replaced by `x`, and nothing else moved.
pub open spec fn stage_acts_applied(pre: NetModel, k: int, x: Seq<u32>, post: NetModel) -> bool {
    &&& post.input == pre.input
    &&& post.hidden.len() == pre.hidden.len()
    &&& forall|t: int|
        0 <= t < pre.hidden.len() && t != k ==> #[trigger] post.hidden[t] == pre.hidden[t]
    &&& if k < pre.hidden.len() {
        acts_set(pre.hidden[k], x, post.hidden[k]) && post.output == pre.output
    } else {
        acts_set(pre.output, x, post.output)
    }
}

/// One weight row per node of `layer`, each exactly as long as that node's
/// weight vector.
pub open spec fn rows_fit(rows: Seq<Seq<u32>>, layer: Seq<NodeModel>) -> bool {
    rows.len() == layer.len() && forall|i: int|
        0 <= i < rows.len() ==> (#[trigger] rows[i]).len() == layer[i].weights.len()
}

/// One weight-update step, as `FatNet::apply_weight_updates(k, rows)`
/// performs it: hidden layer `k`, which is followed by another hidden
/// layer, takes `rows` as its new weight vectors, and nothing else moves.
pub open spec fn weight_update_step(
    pre: NetModel,
    k: int,
    rows: Seq<Seq<u32>>,
    post: NetModel,
) -> bool {
    &&& 0 <= k < pre.hidden.len() - 1
    &&& rows_fit(rows, pre.hidden[k])
    &&& weights_set(pre.hidden[k], rows, post.hidden[k])
    &&& post.input == pre.input
    &&& post.output == pre.output
    &&& post.hidden.len() == pre.hidden.len()
    &&& forall|t: int|
        0 <= t < pre.hidden.len() && t != k ==> #[trigger] post.hidden[t] == pre.hidden[t]
}

/// The frozen-weight law: a weight-update step can only move weight
/// vectors of a hidden layer that another hidden layer follows.  The input
/// layer — and with it every input-to-hidden weight — the last hidden
/// layer — and with it every hidden-to-output weight — and the output
/// layer keep their exact bits, as does every scalar field of the layer
/// that was updated.
pub proof fn lemma_weight_update_freezes_edges(
    pre: NetModel,
    k: int,
    rows: Seq<Seq<u32>>,
    post: NetModel,
)
    requires
        weight_update_step(pre, k, rows, post),
    ensures
        post.input == pre.input,
        post.output == pre.output,
        post.hidden[pre.hidden.len() - 1] == pre.hidden[pre.hidden.len() - 1],
        forall|i: int|
            0 <= i < pre.hidden[k].len() ==> (#[trigger] post.hidden[k][i]).activation
                == pre.hidden[k][i].activation && post.hidden[k][i].bias == pre.hidden[k][i].bias
                && post.hidden[k][i].error == pre.hidden[k][i].error,
{
    assert forall|i: int| 0 <= i < pre.hidden[k].len() implies (#[trigger] post.hidden[k][i]).activation
        == pre.hidden[k][i].activation && post.hidden[k][i].bias == pre.hidden[k][i].bias
        && post.hidden[k][i].error == pre.hidden[k][i].error by {
        assert(post.hidden[k][i] == (NodeModel { weights: rows[i], ..pre.hidden[k][i] }));
    }
}

/// The shape invariant depends only on layer widths and weight-vector
/// lengths, so any step that keeps those keeps it.
proof fn lemma_wf_preserved(pre: NetModel, post: NetModel)
    requires
        wf_model(pre),
        post.input.len() == pre.input.len(),
        post.output.len() == pre.output.len(),
        post.hidden.len() == pre.hidden.len(),
        forall|i: int|
            0 <= i < pre.input.len() ==> (#[trigger] post.input[i]).weights.len()
                == pre.input[i].weights.len(),
        forall|k: int|
            0 <= k < pre.hidden.len() ==> (#[trigger] post.hidden[k]).len()
                == pre.hidden[k].len(),
        forall|k: int, i: int|
            0 <= k < pre.hidden.len() && 0 <= i < pre.hidden[k].len()
                ==> (#[trigger] post.hidden[k][i]).weights.len()
                == pre.hidden[k][i].weights.len(),
        forall|i: int|
            0 <= i < pre.output.len() ==> (#[trigger] post.output[i]).weights.len()
                == pre.output[i].weights.len(),
    ensures
        wf_model(post),
{
    assert forall|k: int| 0 <= k < post.hidden.len() implies (#[trigger] post.hidden[k]).len()
        == post.hidden[0].len() by {
        assert(pre.hidden[k].len() == pre.hidden[0].len());
        assert(post.hidden[0].len() == pre.hidden[0].len());
    }
    assert forall|i: int| 0 <= i < post.input.len() implies (#[trigger] post.input[i]).weights.len()
        == post.hidden[0].len() by {
        assert(pre.input[i].weights.len() == pre.hidden[0].len());
        assert(post.hidden[0].len() == pre.hidden[0].len());
    }
    assert forall|k: int, i: int|
        0 <= k < post.hidden.len() - 1 && 0 <= i < post.hidden[k].len() implies (
    #[trigger] post.hidden[k][i]).weights.len() == post.hidden[0].len() by {
        assert(post.hidden[k].len() == pre.hidden[k].len());
        assert(pre.hidden[k][i].weights.len() == pre.hidden[0].len());
        assert(post.hidden[0].len() == pre.hidden[0].len());
    }
    let lk = post.hidden.len() - 1;
    assert forall|i: int| 0 <= i < post.hidden[lk].len() implies (#[trigger] post.hidden[lk][i]).weights.len()
        == post.output.len() by {
        assert(post.hidden[lk].len() == pre.hidden[lk].len());
        assert(pre.hidden[lk][i].weights.len() == pre.output.len());
    }
}

impl FatNet {
    /// The shape invariant, stated of the network itself.
    pub open spec fn wf(&self) -> bool {
        wf_model(self@)
    }

    /// Builds the network: an input layer of `input_width` nodes, `d`
    /// hidden layers of `w` nodes where `(d, w)` is `hidden_shape`, and an
    /// output layer of `output_width` nodes.  Every scalar starts at zero;
    /// every input and hidden node is given one outgoing weight per node of
    /// the following layer, each the bit pattern of one.  Fails with
    /// `InvalidTopology` exactly when `d == 0`.
    pub fn new(input_width: usize, hidden_shape: (usize, usize), output_width: usize) -> (r:
        Result<FatNet, NetError>)
        ensures
            match r {
                Ok(net) => hidden_shape.0 >= 1 && net.wf() && is_initial(
                    net@,
                    input_width as int,
                    hidden_shape.0 as int,
                    hidden_shape.1 as int,
                    output_width as int,
                ),
                Err(e) => e == NetError::InvalidTopology && hidden_shape.0 == 0,
            },
    {
        let (depth, width) = hidden_shape;
        if depth == 0 {
            return Err(NetError::InvalidTopology);
        }
        let mut input = Layer::new(input_width);
        input.fill_weights(width, ONE_BITS);
        let mut hidden: Vec<Layer> = Vec::new();
        let mut k: usize = 0;
        while k + 1 < depth
            invariant
                k + 1 <= depth,
                hidden@.len() == k,
                forall|t: int|
                    0 <= t < k ==> is_fresh_layer(
                        #[trigger] hidden@[t]@,
                        width as int,
                        width as int,
                    ),
            decreases depth - 1 - k,
        {
            let mut l = Layer::new(width);
            l.fill_weights(width, ONE_BITS);
            proof {
                assert forall|i: int| 0 <= i < width implies is_fresh_node(
                    #[trigger] l@[i],
                    width as int,
                ) by {}
            }
            hidden.push(l);
            k += 1;
        }
        let mut last = Layer::new(width);
        last.fill_weights(output_width, ONE_BITS);
        proof {
            assert forall|i: int| 0 <= i < width implies is_fresh_node(
                #[trigger] last@[i],
                output_width as int,
            ) by {}
        }
        hidden.push(last);
        let output = Layer::new(output_width);
        let net = FatNet { input, hidden, output };
        proof {
            assert forall|i: int| 0 <= i < input_width implies is_fresh_node(
                #[trigger] net@.input[i],
                width as int,
            ) by {
                assert(net@.input[i] == net.input@[i]);
            }
            assert(net@.hidden.len() == depth);
            assert forall|t: int| 0 <= t < depth - 1 implies is_fresh_layer(
                #[trigger] net@.hidden[t],
                width as int,
                width as int,
            ) by {
                assert(net@.hidden[t] == net.hidden@[t]@);
            }
            assert(net@.hidden[depth - 1] == net.hidden@[depth - 1]@);
            assert(is_fresh_layer(net@.hidden[depth - 1], width as int, output_width as int));
            assert forall|i: int| 0 <= i < output_width implies is_fresh_node(
                #[trigger] net@.output[i],
                0,
            ) by {}
            assert(is_initial(
                net@,
                input_width as int,
                depth as int,
                width as int,
                output_width as int,
            ));
            assert forall|t: int| 0 <= t < depth implies (#[trigger] net@.hidden[t]).len()
                == net@.hidden[0].len() by {}
            assert(wf_model(net@));
        }
        Ok(net)
    }

    /// The number of hidden layers; the forward pass has one stage per
    /// hidden layer and one more for the output layer.
    pub fn depth(&self) -> (d: usize)
        ensures
            d == self@.hidden.len(),
    {
        self.hidden.len()
    }

    /// The input layer.
    pub fn input_layer(&self) -> (l: &Layer)
        ensures
            l@ == self@.input,
    {
        &self.input
    }

    /// Bounds-checked access to a hidden layer.
    pub fn hidden_layer(&self, k: usize) -> (r: Option<&Layer>)
        ensures
            k < self@.hidden.len() <==> r is Some,
            r matches Some(l) ==> l@ == self@.hidden[k as int],
    {
        if k < self.hidden.len() {
            let l = &self.hidden[k];
            proof {
                assert(self@.hidden[k as int] == self.hidden@[k as int]@);
            }
            Some(l)
        } else {
            None
        }
    }

    /// The output layer.
    pub fn output_layer(&self) -> (l: &Layer)
        ensures
            l@ == self@.output,
    {
        &self.output
    }

    /// Writes `input[i]` into input node `i`'s activation; everything else
    /// is kept.  Fails with `InputSizeMismatch`, touching nothing, when the
    /// vector's length is not the input width.
    pub fn set_input(&mut self, input: &Vec<u32>) -> (r: Result<(), NetError>)
        requires
            old(self).wf(),
        ensures
            final(self).wf(),
            match r {
                Ok(()) => input@.len() == old(self)@.input.len() && acts_set(
                    old(self)@.input,
                    input@,
                    final(self)@.input,
                ) && final(self)@.hidden == old(self)@.hidden && final(self)@.output == old(
                    self,
                )@.output,
                Err(e) => e == NetError::InputSizeMismatch && input@.len() != old(
                    self,
                )@.input.len() && final(self)@ == old(self)@,
            },
    {
        let ghost pre = self@;
        let ghost preh = self.hidden@;
        let r = self.input.set_activations(input);
        proof {
            assert forall|t: int| 0 <= t < preh.len() implies #[trigger] self@.hidden[t]
                == pre.hidden[t] by {
                assert(self@.hidden[t] == self.hidden@[t]@);
                assert(pre.hidden[t] == preh[t]@);
            }
            assert(self@.hidden =~= pre.hidden);
            if r is Err {
                assert(self@ =~= pre);
            }
            let post = self@;
            assert(post.input.len() == pre.input.len());
            assert forall|i: int| 0 <= i < post.input.len() implies (#[trigger] post.input[i]).weights.len()
                == pre.input[i].weights.len() by {
                if r is Ok {
                    assert(acts_set(pre.input, input@, post.input));
                    assert(post.input[i] == (NodeModel {
                        activation: input@[i],
                        ..pre.input[i]
                    }));
                } else {
                    assert(post.input == pre.input);
                }
            }
            assert forall|k2: int| 0 <= k2 < post.hidden.len() implies (#[trigger] post.hidden[k2]).len()
                == pre.hidden[k2].len() by {
                assert(post.hidden[k2] == pre.hidden[k2]);
            }
            assert forall|k2: int, i: int|
                0 <= k2 < post.hidden.len() && 0 <= i < post.hidden[k2].len() implies (
            #[trigger] post.hidden[k2][i]).weights.len() == pre.hidden[k2][i].weights.len() by {
                assert(post.hidden[k2] == pre.hidden[k2]);
            }
            lemma_wf_preserved(pre, post);
        }
        r
    }

    /// The multiply-accumulate tasks of forward stage `stage`: for each node
    /// of the stage's target layer, the source layer's activations paired
    /// with the weights leading to that node, in source order, and the
    /// target node's bias.
    pub fn forward_tasks(&self, stage: usize) -> (r: Vec<NodeTask>)
        requires
            self.wf(),
            stage <= self@.hidden.len(),
        ensures
            r@.len() == stage_target(self@, stage as int).len(),
            forall|j: int|
                0 <= j < r@.len() ==> #[trigger] r@[j]@ == task_of(
                    stage_source(self@, stage as int),
                    stage_target(self@, stage as int)[j].bias,
                    j,
                ),
    {
        let d = self.hidden.len();
        let biases: Vec<u32> = if stage < d {
            let tl = &self.hidden[stage];
            proof {
                assert(self@.hidden[stage as int] == self.hidden@[stage as int]@);
            }
            tl.biases()
        } else {
            self.output.biases()
        };
        let src: &Layer = if stage == 0 {
            &self.input
        } else {
            let sl = &self.hidden[stage - 1];
            proof {
                assert(self@.hidden[stage - 1] == self.hidden@[stage - 1]@);
            }
            sl
        };
        proof {
            assert(src@ == stage_source(self@, stage as int));
            assert(biases@.len() == stage_target(self@, stage as int).len());
            assert forall|i: int| 0 <= i < src@.len() implies (#[trigger] src@[i]).weights.len()
                >= biases@.len() by {
                if stage == 0 {
                    assert(self@.input[i].weights.len() == self@.hidden[0].len());
                } else if stage < d {
                    assert(self@.hidden[stage - 1][i].weights.len() == self@.hidden[0].len());
                    assert(self@.hidden[stage as int].len() == self@.hidden[0].len());
                } else {
                    assert(self@.hidden[d - 1][i].weights.len() == self@.output.len());
                }
            }
            assert(step_ok(src@, biases@.len() as int));
        }
        match src.forward_tasks(&biases) {
            Ok(ts) => {
                proof {
                    assert forall|j: int| 0 <= j < ts@.len() implies #[trigger] ts@[j]@ == task_of(
                        stage_source(self@, stage as int),
                        stage_target(self@, stage as int)[j].bias,
                        j,
                    ) by {
                        assert(ts@[j]@ == task_of(src@, biases@[j], j));
                    }
                }
                ts
            },
            Err(_) => {
                proof {
                    assert(false);
                }
                Vec::new()
            },
        }
    }

    /// Writes the computed activations of forward stage `stage` into the
    /// stage's target layer; everything else is kept.  Fails with
    /// `InputSizeMismatch`, touching nothing, when the vector's length is
    /// not the target layer's width.
    pub fn apply_stage(&mut self, stage: usize, acts: &Vec<u32>) -> (r: Result<(), NetError>)
        requires
            old(self).wf(),
            stage <= old(self)@.hidden.len(),
        ensures
            final(self).wf(),
            match r {
                Ok(()) => acts@.len() == stage_target(old(self)@, stage as int).len()
                    && stage_acts_applied(old(self)@, stage as int, acts@, final(self)@),
                Err(e) => e == NetError::InputSizeMismatch && acts@.len() != stage_target(
                    old(self)@,
                    stage as int,
                ).len() && final(self)@ == old(self)@,
            },
    {
        let ghost pre = self@;
        let ghost preh = self.hidden@;
        let d = self.hidden.len();
        let r = if stage < d {
            proof {
                assert(pre.hidden[stage as int] == self.hidden@[stage as int]@);
            }
            let tgt = &mut self.hidden[stage];
            tgt.set_activations(acts)
        } else {
            self.output.set_activations(acts)
        };
        proof {
            assert forall|t: int| 0 <= t < preh.len() && t != stage implies #[trigger] self@.hidden[t]
                == pre.hidden[t] by {
                assert(self@.hidden[t] == self.hidden@[t]@);
                assert(pre.hidden[t] == preh[t]@);
            }
            if (stage as int) < preh.len() {
                assert(self@.hidden[stage as int] == self.hidden@[stage as int]@);
            }
            if r is Err {
                if (stage as int) < preh.len() {
                    assert(self@.hidden[stage as int] == pre.hidden[stage as int]);
                }
                assert(self@.hidden =~= pre.hidden);
                assert(self@ =~= pre);
            } else {
                assert(self@.hidden.len() == pre.hidden.len());
            }
            // the shape invariant survives: no weight vector and no width moved
            let post = self@;
            assert forall|k2: int| 0 <= k2 < post.hidden.len() implies (#[trigger] post.hidden[k2]).len()
                == pre.hidden[k2].len() by {
                if k2 == stage && r is Ok {
                    assert(acts_set(pre.hidden[k2], acts@, post.hidden[k2]));
                } else {
                    assert(post.hidden[k2] == pre.hidden[k2]);
                }
            }
            assert forall|k2: int, i: int|
                0 <= k2 < post.hidden.len() && 0 <= i < post.hidden[k2].len() implies (
            #[trigger] post.hidden[k2][i]).weights.len() == pre.hidden[k2][i].weights.len() by {
                if k2 == stage && r is Ok {
                    assert(acts_set(pre.hidden[k2], acts@, post.hidden[k2]));
                    assert(post.hidden[k2][i] == (NodeModel {
                        activation: acts@[i],
                        ..pre.hidden[k2][i]
                    }));
                } else {
                    assert(post.hidden[k2] == pre.hidden[k2]);
                }
            }
            assert(post.input.len() == pre.input.len());
            assert(post.output.len() == pre.output.len());
            assert forall|i: int| 0 <= i < post.output.len() implies (#[trigger] post.output[i]).weights.len()
                == pre.output[i].weights.len() by {
                if r is Ok && stage as int >= pre.hidden.len() {
                    assert(acts_set(pre.output, acts@, post.output));
                    assert(post.output[i] == (NodeModel {
                        activation: acts@[i],
                        ..pre.output[i]
                    }));
                }
            }
            lemma_wf_preserved(pre, post);
        }
        r
    }

    /// The output-error tasks for a supplied target vector: for each output
    /// node, the target value and the node's current activation.  Fails
    /// with `InputSizeMismatch` when the vector's length is not the output
    /// width.
    pub fn output_error_tasks(&self, target: &Vec<u32>) -> (r: Result<
        Vec<OutputErrorTask>,
        NetError,
    >)
        ensures
            match r {
                Ok(ts) => target@.len() == self@.output.len() && ts@.len() == self@.output.len()
                    && forall|i: int|
                    0 <= i < ts@.len() ==> #[trigger] ts@[i] == (OutputErrorTask {
                        target: target@[i],
                        activation: self@.output[i].activation,
                    }),
                Err(e) => e == NetError::InputSizeMismatch && target@.len() != self@.output.len(),
            },
    {
        if target.len() != self.output.len() {
            return Err(NetError::InputSizeMismatch);
        }
        let n = target.len();
        let mut out: Vec<OutputErrorTask> = Vec::new();
        let mut i: usize = 0;
        while i < n
            invariant
                i <= n,
                n == self@.output.len(),
                n == target@.len(),
                out@.len() == i,
                forall|t: int|
                    0 <= t < i ==> #[trigger] out@[t] == (OutputErrorTask {
                        target: target@[t],
                        activation: self@.output[t].activation,
                    }),
            decreases n - i,
        {
            proof {
                assert(self@.output[i as int] == self.output.nodes@[i as int]@);
            }
            out.push(OutputErrorTask {
                target: target[i],
                activation: self.output.nodes[i].activation,
            });
            i += 1;
        }
        Ok(out)
    }

    /// Writes the computed output error terms; everything else is kept.
    /// Fails with `InputSizeMismatch`, touching nothing, when the vector's
    /// length is not the output width.
    pub fn apply_output_errors(&mut self, errs: &Vec<u32>) -> (r: Result<(), NetError>)
        requires
            old(self).wf(),
        ensures
            final(self).wf(),
            match r {
                Ok(()) => errs@.len() == old(self)@.output.len() && errors_set(
                    old(self)@.output,
                    errs@,
                    final(self)@.output,
                ) && final(self)@.input == old(self)@.input && final(self)@.hidden == old(
                    self,
                )@.hidden,
                Err(e) => e == NetError::InputSizeMismatch && errs@.len() != old(
                    self,
                )@.output.len() && final(self)@ == old(self)@,
            },
    {
        let ghost pre = self@;
        let ghost preh = self.hidden@;
        let r = self.output.set_errors(errs);
        proof {
            assert forall|t: int| 0 <= t < preh.len() implies #[trigger] self@.hidden[t]
                == pre.hidden[t] by {
                assert(self@.hidden[t] == self.hidden@[t]@);
                assert(pre.hidden[t] == preh[t]@);
            }
            assert(self@.hidden =~= pre.hidden);
            if r is Err {
                assert(self@ =~= pre);
            }
            let post = self@;
            assert(post.output.len() == pre.output.len());
            assert forall|i: int| 0 <= i < post.output.len() implies (#[trigger] post.output[i]).weights.len()
                == pre.output[i].weights.len() by {
                if r is Ok {
                    assert(errors_set(pre.output, errs@, post.output));
                    assert(post.output[i] == (NodeModel { error: errs@[i], ..pre.output[i] }));
                } else {
                    assert(post.output == pre.output);
                }
            }
            assert forall|k2: int| 0 <= k2 < post.hidden.len() implies (#[trigger] post.hidden[k2]).len()
                == pre.hidden[k2].len() by {
                assert(post.hidden[k2] == pre.hidden[k2]);
            }
            assert forall|k2: int, i: int|
                0 <= k2 < post.hidden.len() && 0 <= i < post.hidden[k2].len() implies (
            #[trigger] post.hidden[k2][i]).weights.len() == pre.hidden[k2][i].weights.len() by {
                assert(post.hidden[k2] == pre.hidden[k2]);
            }
            lemma_wf_preserved(pre, post);
        }
        r
    }

    /// The error tasks of hidden layer `k`, where `k` is followed by hidden
    /// layer `k + 1`: for each node, the error term of the node at the same
    /// position in layer `k + 1` and the node's own activation.
    pub fn hidden_error_tasks(&self, k: usize) -> (r: Vec<HiddenErrorTask>)
        requires
            self.wf(),
            k + 1 < self@.hidden.len(),
        ensures
            r@.len() == self@.hidden[k as int].len(),
            forall|i: int|
                0 <= i < r@.len() ==> #[trigger] r@[i] == (HiddenErrorTask {
                    next_error: self@.hidden[k as int + 1][i].error,
                    activation: self@.hidden[k as int][i].activation,
                }),
    {
        proof {
            assert(self@.hidden[k as int] == self.hidden@[k as int]@);
            assert(self@.hidden[k as int + 1] == self.hidden@[k as int + 1]@);
            assert(self@.hidden[k as int].len() == self@.hidden[0].len());
            assert(self@.hidden[k as int + 1].len() == self@.hidden[0].len());
        }
        let d = self.hidden.len();
        let la = &self.hidden[k];
        let lb = &self.hidden[k + 1];
        let n = la.nodes.len();
        let mut out: Vec<HiddenErrorTask> = Vec::new();
        let mut i: usize = 0;
        while i < n
            invariant
                i <= n,
                n == la@.len(),
                la@.len() == lb@.len(),
                la@ == self@.hidden[k as int],
                lb@ == self@.hidden[k as int + 1],
                out@.len() == i,
                forall|t: int|
                    0 <= t < i ==> #[trigger] out@[t] == (HiddenErrorTask {
                        next_error: self@.hidden[k as int + 1][t].error,
                        activation: self@.hidden[k as int][t].activation,
                    }),
            decreases n - i,
        {
            proof {
                assert(la@[i as int] == la.nodes@[i as int]@);
                assert(lb@[i as int] == lb.nodes@[i as int]@);
            }
            out.push(HiddenErrorTask {
                next_error: lb.nodes[i].error,
                activation: la.nodes[i].activation,
            });
            i += 1;
        }
        out
    }

    /// Writes the computed error terms of hidden layer `k`, where `k` is
    /// followed by hidden layer `k + 1`; everything else is kept.  Fails
    /// with `InputSizeMismatch`, touching nothing, when the vector's length
    /// is not the hidden width.
    pub fn apply_hidden_errors(&mut self, k: usize, errs: &Vec<u32>) -> (r: Result<(), NetError>)
        requires
            old(self).wf(),
            k + 1 < old(self)@.hidden.len(),
        ensures
            final(self).wf(),
            match r {
                Ok(()) => errs@.len() == old(self)@.hidden[k as int].len() && errors_set(
                    old(self)@.hidden[k as int],
                    errs@,
                    final(self)@.hidden[k as int],
                ) && final(self)@.input == old(self)@.input && final(self)@.output == old(
                    self,
                )@.output && final(self)@.hidden.len() == old(self)@.hidden.len() && forall|t: int|
                    0 <= t < old(self)@.hidden.len() && t != k ==> #[trigger] final(self)@.hidden[t]
                        == old(self)@.hidden[t],
                Err(e) => e == NetError::InputSizeMismatch
                    && errs@.len() != old(self)@.hidden[k as int].len()
                    && final(self)@ == old(self)@,
            },
    {
        let ghost pre = self@;
        let ghost preh = self.hidden@;
        proof {
            assert(pre.hidden[k as int] == self.hidden@[k as int]@);
        }
        let tgt = &mut self.hidden[k];
        let r = tgt.set_errors(errs);
        proof {
            assert forall|t: int| 0 <= t < preh.len() && t != k implies #[trigger] self@.hidden[t]
                == pre.hidden[t] by {
                assert(self@.hidden[t] == self.hidden@[t]@);
                assert(pre.hidden[t] == preh[t]@);
            }
            assert(self@.hidden[k as int] == self.hidden@[k as int]@);
            if r is Err {
                assert(self@.hidden[k as int] == pre.hidden[k as int]);
                assert(self@.hidden =~= pre.hidden);
                assert(self@ =~= pre);
            }
            let post = self@;
            assert forall|k2: int| 0 <= k2 < post.hidden.len() implies (#[trigger] post.hidden[k2]).len()
                == pre.hidden[k2].len() by {
                if k2 == k && r is Ok {
                    assert(errors_set(pre.hidden[k2], errs@, post.hidden[k2]));
                } else {
                    assert(post.hidden[k2] == pre.hidden[k2]);
                }
            }
            assert forall|k2: int, i: int|
                0 <= k2 < post.hidden.len() && 0 <= i < post.hidden[k2].len() implies (
            #[trigger] post.hidden[k2][i]).weights.len() == pre.hidden[k2][i].weights.len() by {
                if k2 == k && r is Ok {
                    assert(errors_set(pre.hidden[k2], errs@, post.hidden[k2]));
                    assert(post.hidden[k2][i] == (NodeModel {
                        error: errs@[i],
                        ..pre.hidden[k2][i]
                    }));
                } else {
                    assert(post.hidden[k2] == pre.hidden[k2]);
                }
            }
            lemma_wf_preserved(pre, post);
        }
        r
    }

    /// The weight-update tasks of hidden layer `k`, where `k` is followed
    /// by hidden layer `k + 1`: for node `i` and its weight `j`, the weight
    /// itself, the error term of node `j` of layer `k + 1`, and node `i`'s
    /// own activation.
    pub fn weight_tasks(&self, k: usize) -> (r: Vec<Vec<WeightTask>>)
        requires
            self.wf(),
            k + 1 < self@.hidden.len(),
        ensures
            r@.len() == self@.hidden[k as int].len(),
            forall|i: int|
                0 <= i < r@.len() ==> #[trigger] r@[i]@.len() == self@.hidden[k as int][i].weights.len(),
            forall|i: int, j: int|
                0 <= i < r@.len() && 0 <= j < r@[i]@.len() ==> #[trigger] r@[i]@[j] == (WeightTask {
                    weight: self@.hidden[k as int][i].weights[j],
                    error: self@.hidden[k as int + 1][j].error,
                    activation: self@.hidden[k as int][i].activation,
                }),
    {
        proof {
            assert(self@.hidden[k as int] == self.hidden@[k as int]@);
            assert(self@.hidden[k as int + 1] == self.hidden@[k as int + 1]@);
            assert(self@.hidden[k as int + 1].len() == self@.hidden[0].len());
        }
        let d = self.hidden.len();
        let la = &self.hidden[k];
        let lb = &self.hidden[k + 1];
        let n = la.nodes.len();
        let mut out: Vec<Vec<WeightTask>> = Vec::new();
        let mut i: usize = 0;
        while i < n
            invariant
                i <= n,
                n == la@.len(),
                la@ == self@.hidden[k as int],
                lb@ == self@.hidden[k as int + 1],
                lb@.len() == self@.hidden[0].len(),
                self.wf(),
                0 <= k < self@.hidden.len() - 1,
                out@.len() == i,
                forall|t: int|
                    0 <= t < i ==> #[trigger] out@[t]@.len() == self@.hidden[k as int][t].weights.len(),
                forall|t: int, j: int|
                    0 <= t < i && 0 <= j < out@[t]@.len() ==> #[trigger] out@[t]@[j] == (WeightTask {
                        weight: self@.hidden[k as int][t].weights[j],
                        error: self@.hidden[k as int + 1][j].error,
                        activation: self@.hidden[k as int][t].activation,
                    }),
            decreases n - i,
        {
            proof {
                assert(la@[i as int] == la.nodes@[i as int]@);
                assert(self@.hidden[k as int][i as int].weights.len() == self@.hidden[0].len());
            }
            let nw = la.nodes[i].weights.len();
            let mut row: Vec<WeightTask> = Vec::new();
            let mut j: usize = 0;
            while j < nw
                invariant
                    j <= nw,
                    i < n,
                    n == la@.len(),
                    la@ == self@.hidden[k as int],
                    lb@ == self@.hidden[k as int + 1],
                    la@[i as int] == la.nodes@[i as int]@,
                    nw == self@.hidden[k as int][i as int].weights.len(),
                    nw <= lb@.len(),
                    row@.len() == j,
                    forall|t: int|
                        0 <= t < j ==> #[trigger] row@[t] == (WeightTask {
                            weight: self@.hidden[k as int][i as int].weights[t],
                            error: self@.hidden[k as int + 1][t].error,
                            activation: self@.hidden[k as int][i as int].activation,
                        }),
                decreases nw - j,
            {
                proof {
                    assert(lb@[j as int] == lb.nodes@[j as int]@);
                }
                row.push(WeightTask {
                    weight: la.nodes[i].weights[j],
                    error: lb.nodes[j].error,
                    activation: la.nodes[i].activation,
                });
                j += 1;
            }
            out.push(row);
            i += 1;
        }
        out
    }

    /// Replaces the weight vectors of hidden layer `k`, where `k` is
    /// followed by hidden layer `k + 1`, by the supplied rows; every scalar
    /// field and every other layer is kept.  In particular the input
    /// layer's weights, the last hidden layer's weights, and the output
    /// layer never move.  Fails with `ShapeMismatch`, touching nothing,
    /// unless there is exactly one row per node, each as long as the weight
    /// vector it replaces.
    pub fn apply_weight_updates(&mut self, k: usize, rows: Vec<Vec<u32>>) -> (r: Result<
        (),
        NetError,
    >)
        requires
            old(self).wf(),
            k + 1 < old(self)@.hidden.len(),
        ensures
            final(self).wf(),
            match r {
                Ok(()) => weight_update_step(
                    old(self)@,
                    k as int,
                    Seq::new(rows@.len(), |i: int| rows@[i]@),
                    final(self)@,
                ),
                Err(e) => e == NetError::ShapeMismatch && !rows_fit(
                    Seq::new(rows@.len(), |i: int| rows@[i]@),
                    old(self)@.hidden[k as int],
                ) && final(self)@ == old(self)@,
            },
    {
        let ghost pre = self@;
        let ghost preh = self.hidden@;
        let ghost rm = Seq::new(rows@.len(), |i: int| rows@[i]@);
        proof {
            assert(pre.hidden[k as int] == self.hidden@[k as int]@);
        }
        let width = self.hidden[k].nodes.len();
        if rows.len() != width {
            return Err(NetError::ShapeMismatch);
        }
        let mut i: usize = 0;
        while i < width
            invariant
                i <= width,
                width == pre.hidden[k as int].len(),
                rows@.len() == width,
                rm == Seq::new(rows@.len(), |t: int| rows@[t]@),
                pre == self@,
                pre == old(self)@,
                wf_model(pre),
                pre.hidden[k as int] == self.hidden@[k as int]@,
                k < self.hidden@.len(),
                forall|t: int|
                    0 <= t < i ==> (#[trigger] rm[t]).len() == pre.hidden[k as int][t].weights.len(),
            decreases width - i,
        {
            proof {
                assert(pre.hidden[k as int][i as int] == self.hidden@[k as int].nodes@[i as int]@);
                assert(rm[i as int] == rows@[i as int]@);
            }
            if rows[i].len() != self.hidden[k].nodes[i].weights.len() {
                proof {
                    assert(rm[i as int].len() != pre.hidden[k as int][i as int].weights.len());
                    assert(!rows_fit(rm, pre.hidden[k as int]));
                    assert(wf_model(self@));
                }
                return Err(NetError::ShapeMismatch);
            }
            i += 1;
        }
        proof {
            assert(rows_fit(rm, pre.hidden[k as int]));
        }
        let tgt = &mut self.hidden[k];
        let res = tgt.set_weights(rows);
        proof {
            assert forall|t: int| 0 <= t < preh.len() && t != k implies #[trigger] self@.hidden[t]
                == pre.hidden[t] by {
                assert(self@.hidden[t] == self.hidden@[t]@);
                assert(pre.hidden[t] == preh[t]@);
            }
            assert(self@.hidden[k as int] == self.hidden@[k as int]@);
            assert(res is Ok);
            assert(weights_set(pre.hidden[k as int], rm, self@.hidden[k as int]));
            let post = self@;
            assert forall|k2: int| 0 <= k2 < post.hidden.len() implies (#[trigger] post.hidden[k2]).len()
                == pre.hidden[k2].len() by {
                if k2 == k {
                    assert(weights_set(pre.hidden[k2], rm, post.hidden[k2]));
                } else {
                    assert(post.hidden[k2] == pre.hidden[k2]);
                }
            }
            assert forall|k2: int, i2: int|
                0 <= k2 < post.hidden.len() && 0 <= i2 < post.hidden[k2].len() implies (
            #[trigger] post.hidden[k2][i2]).weights.len() == pre.hidden[k2][i2].weights.len() by {
                if k2 == k {
                    assert(weights_set(pre.hidden[k2], rm, post.hidden[k2]));
                    assert(post.hidden[k2][i2] == (NodeModel {
                        weights: rm[i2],
                        ..pre.hidden[k2][i2]
                    }));
                    assert(rm[i2].len() == pre.hidden[k2][i2].weights.len());
                } else {
                    assert(post.hidden[k2] == pre.hidden[k2]);
                }
            }
            assert(post.input.len() == pre.input.len());
            assert(post.output.len() == pre.output.len());
            assert forall|i2: int| 0 <= i2 < post.output.len() implies (#[trigger] post.output[i2]).weights.len()
                == pre.output[i2].weights.len() by {
                assert(post.output == pre.output);
            }
            lemma_wf_preserved(pre, post);
        }
        match res {
            Ok(()) => Ok(()),
            Err(_) => {
                proof {
                    assert(false);
                }
                Err(NetError::ShapeMismatch)
            },
        }
    }

    /// The output layer's activations, in order.
    pub fn get_output(&self) -> (r: Vec<u32>)
        ensures
            r@.len() == self@.output.len(),
            forall|i: int|
                0 <= i < self@.output.len() ==> #[trigger] r@[i] == self@.output[i].activation,
    {
        self.output.activations()
    }
}

impl Default for FatNet {
    /// The demonstration topology: four inputs, two hidden layers of two
    /// nodes, one output.
    fn default() -> (net: FatNet)
        ensures
            net.wf(),
            is_initial(net@, 4, 2, 2, 1),
    {
        match FatNet::new(4, (2, 2), 1) {
            Ok(net) => net,
            Err(_) => {
                proof {
                    assert(false);
                }
                FatNet { input: Layer::new(0), hidden: Vec::new(), output: Layer::new(0) }
            },
        }
    }
}

} // verus!
