//! An ordered, fixed-width collection of nodes, with the operations a pass
//! needs: reading the multiply-accumulate tasks of a forward step and
//! writing back activations, error terms, or weights.

use vstd::prelude::*;

use super::node::{zero_node, Node, NodeModel};
use super::NetError;

verus! {

/// One multiply-accumulate operand pair of a forward step: a source node's
/// activation and the weight connecting it to the target node.
#[derive(Clone, Copy, Debug, PartialEq, Eq, Structural)]
pub struct Term {
    pub activation: u32,
    pub weight: u32,
}

/// Everything the caller needs to compute one target node's new activation:
/// the operand pairs, in source-node order, and the target node's bias.
pub struct NodeTask {
    pub terms: Vec<Term>,
    pub bias: u32,
}

/// The mathematical value of a `NodeTask`.
#[verifier::ext_equal]
pub struct TaskModel {
    pub terms: Seq<Term>,
    pub bias: u32,
}

impl View for NodeTask {
    type V = TaskModel;

    open spec fn view(&self) -> TaskModel {
        TaskModel { terms: self.terms@, bias: self.bias }
    }
}

/// A layer of nodes.  The width is fixed at construction and never changes.
pub struct Layer {
    pub nodes: Vec<Node>,
}

impl View for Layer {
    type V = Seq<NodeModel>;

    open spec fn view(&self) -> Seq<NodeModel> {
        Seq::new(self.nodes@.len(), |i: int| self.nodes@[i]@)
    }
}

/// A forward step from `prev` into a layer of width `width` is well shaped:
/// every source node carries at least `width` outgoing weights.
pub open spec fn step_ok(prev: Seq<NodeModel>, width: int) -> bool {
    forall|i: int| 0 <= i < prev.len() ==> #[trigger] prev[i].weights.len() >= width
}

/// The task that computes target node `j` from the source layer `prev`:
/// operand pairs `(prev[i].activation, prev[i].weights[j])` in source order,
/// and the target node's bias.
pub open spec fn task_of(prev: Seq<NodeModel>, bias: u32, j: int) -> TaskModel {
    TaskModel {
        terms: Seq::new(
            prev.len(),
            |i: int| (Term { activation: prev[i].activation, weight: prev[i].weights[j] }),
        ),
        bias: bias,
    }
}

/// `post` is `pre` with the activations replaced by `x` and every other
/// field of every node kept.
pub open spec fn acts_set(pre: Seq<NodeModel>, x: Seq<u32>, post: Seq<NodeModel>) -> bool {
    post.len() == pre.len() && forall|i: int|
        0 <= i < pre.len() ==> #[trigger] post[i] == (NodeModel { activation: x[i], ..pre[i] })
}

/// `post` is `pre` with the error terms replaced by `x` and every other
/// field of every node kept.
pub open spec fn errors_set(pre: Seq<NodeModel>, x: Seq<u32>, post: Seq<NodeModel>) -> bool {
    post.len() == pre.len() && forall|i: int|
        0 <= i < pre.len() ==> #[trigger] post[i] == (NodeModel { error: x[i], ..pre[i] })
}

/// `post` is `pre` with node `i`'s weight vector replaced by `rows[i]` and
/// every scalar field of every node kept.
pub open spec fn weights_set(pre: Seq<NodeModel>, rows: Seq<Seq<u32>>, post: Seq<NodeModel>) -> bool {
    post.len() == pre.len() && forall|i: int|
        0 <= i < pre.len() ==> #[trigger] post[i] == (NodeModel { weights: rows[i], ..pre[i] })
}

impl Layer {
    /// Allocates `width` nodes with all scalars zero and no weights.
    pub fn new(width: usize) -> (l: Layer)
        ensures
            l@.len() == width,
            forall|i: int| 0 <= i < width ==> #[trigger] l@[i] == zero_node(),
    {
        let mut nodes: Vec<Node> = Vec::new();
        let mut k: usize = 0;
        while k < width
            invariant
                k <= width,
                nodes@.len() == k,
                forall|i: int| 0 <= i < k ==> #[trigger] nodes@[i]@ == zero_node(),
            decreases width - k,
        {
            nodes.push(Node::default());
            k += 1;
        }
        Layer { nodes }
    }

    /// The width of the layer.
    pub fn len(&self) -> (n: usize)
        ensures
            n == self@.len(),
    {
        self.nodes.len()
    }

    /// Bounds-checked read access to a node.
    pub fn get(&self, i: usize) -> (r: Option<&Node>)
        ensures
            i < self@.len() <==> r is Some,
            r matches Some(n) ==> n@ == self@[i as int],
    {
        if i < self.nodes.len() {
            Some(&self.nodes[i])
        } else {
            None
        }
    }

    /// The multiply-accumulate tasks of the forward step from this layer
    /// into a layer of width `next_width` with biases `biases` (one per
    /// target node).  Fails with `ShapeMismatch` when some node of this
    /// layer has fewer than `next_width` outgoing weights.
    pub fn forward_tasks(&self, biases: &Vec<u32>) -> (r: Result<Vec<NodeTask>, NetError>)
        ensures
            match r {
                Ok(ts) => step_ok(self@, biases@.len() as int) && ts@.len() == biases@.len()
                    && forall|j: int| 0 <= j < biases@.len()
                        ==> #[trigger] ts@[j]@ == task_of(self@, biases@[j], j),
                Err(e) => e == NetError::ShapeMismatch && !step_ok(self@, biases@.len() as int),
            },
    {
        let width = biases.len();
        let n = self.nodes.len();
        let mut i: usize = 0;
        while i < n
            invariant
                i <= n,
                n == self@.len(),
                width == biases@.len(),
                forall|t: int| 0 <= t < i ==> #[trigger] self@[t].weights.len() >= width,
            decreases n - i,
        {
            proof {
                assert(self@[i as int] == self.nodes@[i as int]@);
            }
            if self.nodes[i].weights.len() < width {
                proof {
                    assert(self@[i as int].weights.len() < width);
                    assert(!step_ok(self@, width as int));
                }
                return Err(NetError::ShapeMismatch);
            }
            i += 1;
        }
        let mut tasks: Vec<NodeTask> = Vec::new();
        let mut j: usize = 0;
        while j < width
            invariant
                j <= width,
                n == self@.len(),
                width == biases@.len(),
                step_ok(self@, width as int),
                tasks@.len() == j,
                forall|t: int| 0 <= t < j ==> #[trigger] tasks@[t]@ == task_of(self@, biases@[t], t),
            decreases width - j,
        {
            let mut terms: Vec<Term> = Vec::new();
            let mut i: usize = 0;
            while i < n
                invariant
                    i <= n,
                    n == self@.len(),
                    width == biases@.len(),
                    j < width,
                    step_ok(self@, width as int),
                    terms@.len() == i,
                    forall|t: int| 0 <= t < i ==> #[trigger] terms@[t]
                        == (Term {
                            activation: self@[t].activation,
                            weight: self@[t].weights[j as int],
                        }),
                decreases n - i,
            {
                proof {
                    assert(self@[i as int] == self.nodes@[i as int]@);
                    assert(self@[i as int].weights.len() >= width);
                }
                terms.push(Term {
                    activation: self.nodes[i].activation,
                    weight: self.nodes[i].weights[j],
                });
                i += 1;
            }
            let task = NodeTask { terms, bias: biases[j] };
            proof {
                assert(task@.terms =~= task_of(self@, biases@[j as int], j as int).terms);
                assert(task@ =~= task_of(self@, biases@[j as int], j as int));
            }
            tasks.push(task);
            j += 1;
        }
        Ok(tasks)
    }

    /// The activations of the nodes, in order.
    pub fn activations(&self) -> (r: Vec<u32>)
        ensures
            r@.len() == self@.len(),
            forall|i: int| 0 <= i < self@.len() ==> #[trigger] r@[i] == self@[i].activation,
    {
        let n = self.nodes.len();
        let mut out: Vec<u32> = Vec::new();
        let mut i: usize = 0;
        while i < n
            invariant
                i <= n,
                n == self@.len(),
                out@.len() == i,
                forall|t: int| 0 <= t < i ==> #[trigger] out@[t] == self@[t].activation,
            decreases n - i,
        {
            proof {
                assert(self@[i as int] == self.nodes@[i as int]@);
            }
            out.push(self.nodes[i].activation);
            i += 1;
        }
        out
    }

    /// The biases of the nodes, in order.
    pub fn biases(&self) -> (r: Vec<u32>)
        ensures
            r@.len() == self@.len(),
            forall|i: int| 0 <= i < self@.len() ==> #[trigger] r@[i] == self@[i].bias,
    {
        let n = self.nodes.len();
        let mut out: Vec<u32> = Vec::new();
        let mut i: usize = 0;
        while i < n
            invariant
                i <= n,
                n == self@.len(),
                out@.len() == i,
                forall|t: int| 0 <= t < i ==> #[trigger] out@[t] == self@[t].bias,
            decreases n - i,
        {
            out.push(self.nodes[i].bias);
            i += 1;
        }
        out
    }

    /// Writes `acts[i]` into node `i`'s activation; every other field is
    /// kept.  Fails with `InputSizeMismatch`, touching nothing, when the
    /// vector's length is not the layer's width.
    pub fn set_activations(&mut self, acts: &Vec<u32>) -> (r: Result<(), NetError>)
        ensures
            match r {
                Ok(()) => acts@.len() == old(self)@.len() && acts_set(old(self)@, acts@, final(self)@),
                Err(e) => e == NetError::InputSizeMismatch && acts@.len() != old(self)@.len()
                    && final(self)@ == old(self)@,
            },
    {
        if acts.len() != self.nodes.len() {
            return Err(NetError::InputSizeMismatch);
        }
        let n = self.nodes.len();
        let mut j: usize = 0;
        while j < n
            invariant
                j <= n,
                n == old(self)@.len(),
                self@.len() == n,
                acts@.len() == n,
                forall|i: int| 0 <= i < j ==> #[trigger] self@[i]
                    == (NodeModel { activation: acts@[i], ..old(self)@[i] }),
                forall|i: int| j <= i < n ==> #[trigger] self@[i] == old(self)@[i],
            decreases n - j,
        {
            let a = acts[j];
            let ghost prev = self.nodes@;
            let ghost vtop = self@;
            let node = &mut self.nodes[j];
            node.activation = a;
            proof {
                assert forall|i: int| 0 <= i < j + 1 implies #[trigger] self@[i]
                    == (NodeModel { activation: acts@[i], ..old(self)@[i] }) by {
                    assert(self@[i] == self.nodes@[i]@);
                    assert(vtop[i] == prev[i]@);
                    if i < j {
                        assert(self.nodes@[i] == prev[i]);
                    }
                }
                assert forall|i: int| j + 1 <= i < n implies #[trigger] self@[i]
                    == old(self)@[i] by {
                    assert(self@[i] == self.nodes@[i]@);
                    assert(vtop[i] == prev[i]@);
                    assert(self.nodes@[i] == prev[i]);
                }
            }
            j += 1;
        }
        Ok(())
    }

    /// Writes `errs[i]` into node `i`'s error term; every other field is
    /// kept.  Fails with `InputSizeMismatch`, touching nothing, when the
    /// vector's length is not the layer's width.
    pub fn set_errors(&mut self, errs: &Vec<u32>) -> (r: Result<(), NetError>)
        ensures
            match r {
                Ok(()) => errs@.len() == old(self)@.len() && errors_set(old(self)@, errs@, final(self)@),
                Err(e) => e == NetError::InputSizeMismatch && errs@.len() != old(self)@.len()
                    && final(self)@ == old(self)@,
            },
    {
        if errs.len() != self.nodes.len() {
            return Err(NetError::InputSizeMismatch);
        }
        let n = self.nodes.len();
        let mut j: usize = 0;
        while j < n
            invariant
                j <= n,
                n == old(self)@.len(),
                self@.len() == n,
                errs@.len() == n,
                forall|i: int| 0 <= i < j ==> #[trigger] self@[i]
                    == (NodeModel { error: errs@[i], ..old(self)@[i] }),
                forall|i: int| j <= i < n ==> #[trigger] self@[i] == old(self)@[i],
            decreases n - j,
        {
            let e = errs[j];
            let ghost prev = self.nodes@;
            let ghost vtop = self@;
            let node = &mut self.nodes[j];
            node.error = e;
            proof {
                assert forall|i: int| 0 <= i < j + 1 implies #[trigger] self@[i]
                    == (NodeModel { error: errs@[i], ..old(self)@[i] }) by {
                    assert(self@[i] == self.nodes@[i]@);
                    assert(vtop[i] == prev[i]@);
                    if i < j {
                        assert(self.nodes@[i] == prev[i]);
                    }
                }
                assert forall|i: int| j + 1 <= i < n implies #[trigger] self@[i]
                    == old(self)@[i] by {
                    assert(self@[i] == self.nodes@[i]@);
                    assert(vtop[i] == prev[i]@);
                    assert(self.nodes@[i] == prev[i]);
                }
            }
            j += 1;
        }
        Ok(())
    }

    /// Gives every node a fresh weight vector of `count` copies of `value`;
    /// every scalar field is kept.
    pub fn fill_weights(&mut self, count: usize, value: u32)
        ensures
            final(self)@.len() == old(self)@.len(),
            forall|i: int| 0 <= i < old(self)@.len() ==> #[trigger] final(self)@[i]
                == (NodeModel {
                    weights: Seq::new(count as nat, |t: int| value),
                    ..old(self)@[i]
                }),
    {
        let n = self.nodes.len();
        let mut j: usize = 0;
        while j < n
            invariant
                j <= n,
                n == old(self)@.len(),
                self@.len() == n,
                forall|i: int| 0 <= i < j ==> #[trigger] self@[i]
                    == (NodeModel {
                        weights: Seq::new(count as nat, |t: int| value),
                        ..old(self)@[i]
                    }),
                forall|i: int| j <= i < n ==> #[trigger] self@[i] == old(self)@[i],
            decreases n - j,
        {
            let mut w: Vec<u32> = Vec::new();
            let mut t: usize = 0;
            while t < count
                invariant
                    t <= count,
                    w@.len() == t,
                    forall|s: int| 0 <= s < t ==> #[trigger] w@[s] == value,
                decreases count - t,
            {
                w.push(value);
                t += 1;
            }
            proof {
                assert(w@ =~= Seq::new(count as nat, |t: int| value));
            }
            let ghost wm = w@;
            let ghost prev = self.nodes@;
            let ghost vtop = self@;
            let node = &mut self.nodes[j];
            node.weights = w;
            proof {
                assert forall|i: int| 0 <= i < j + 1 implies #[trigger] self@[i]
                    == (NodeModel {
                        weights: Seq::new(count as nat, |t: int| value),
                        ..old(self)@[i]
                    }) by {
                    assert(self@[i] == self.nodes@[i]@);
                    assert(vtop[i] == prev[i]@);
                    if i < j {
                        assert(self.nodes@[i] == prev[i]);
                    }
                }
                assert forall|i: int| j + 1 <= i < n implies #[trigger] self@[i]
                    == old(self)@[i] by {
                    assert(self@[i] == self.nodes@[i]@);
                    assert(vtop[i] == prev[i]@);
                    assert(self.nodes@[i] == prev[i]);
                }
            }
            j += 1;
        }
    }

    /// Replaces node `i`'s weight vector by `rows[i]`; every scalar field is
    /// kept.  Fails with `InputSizeMismatch`, touching nothing, when there is
    /// not exactly one row per node.
    pub fn set_weights(&mut self, rows: Vec<Vec<u32>>) -> (r: Result<(), NetError>)
        ensures
            match r {
                Ok(()) => rows@.len() == old(self)@.len()
                    && weights_set(
                        old(self)@,
                        Seq::new(rows@.len(), |i: int| rows@[i]@),
                        final(self)@,
                    ),
                Err(e) => e == NetError::InputSizeMismatch && rows@.len() != old(self)@.len()
                    && final(self)@ == old(self)@,
            },
    {
        if rows.len() != self.nodes.len() {
            return Err(NetError::InputSizeMismatch);
        }
        let n = self.nodes.len();
        let ghost rows_model = Seq::new(rows@.len(), |i: int| rows@[i]@);
        let mut rows = rows;
        let mut j: usize = 0;
        while j < n
            invariant
                j <= n,
                n == old(self)@.len(),
                self@.len() == n,
                rows@.len() == n - j,
                forall|i: int| 0 <= i < n - j ==> #[trigger] rows@[i]@ == rows_model[i + j],
                forall|i: int| 0 <= i < j ==> #[trigger] self@[i]
                    == (NodeModel { weights: rows_model[i], ..old(self)@[i] }),
                forall|i: int| j <= i < n ==> #[trigger] self@[i] == old(self)@[i],
            decreases n - j,
        {
            let ghost rtop = rows@;
            let row = rows.remove(0);
            let ghost prev = self.nodes@;
            let ghost vtop = self@;
            let node = &mut self.nodes[j];
            node.weights = row;
            proof {
                rtop.remove_ensures(0);
                assert forall|i: int| 0 <= i < n - (j + 1) implies #[trigger] rows@[i]@
                    == rows_model[i + j + 1] by {
                    assert(rows@[i] == rtop[i + 1]);
                    assert(rtop[i + 1]@ == rows_model[i + 1 + j]);
                }
                assert forall|i: int| 0 <= i < j + 1 implies #[trigger] self@[i]
                    == (NodeModel { weights: rows_model[i], ..old(self)@[i] }) by {
                    assert(self@[i] == self.nodes@[i]@);
                    assert(vtop[i] == prev[i]@);
                    if i < j {
                        assert(self.nodes@[i] == prev[i]);
                    } else {
                        assert(rtop[0]@ == rows_model[j as int]);
                    }
                }
                assert forall|i: int| j + 1 <= i < n implies #[trigger] self@[i]
                    == old(self)@[i] by {
                    assert(self@[i] == self.nodes@[i]@);
                    assert(vtop[i] == prev[i]@);
                    assert(self.nodes@[i] == prev[i]);
                }
            }
            j += 1;
        }
        Ok(())
    }
}

} // verus!
