use crate::scalar::Scalar;
use vstd::pervasive::VecAdditionalExecFns;
use vstd::prelude::*;

verus! {

/// How a node was produced, with the operand scalars captured at
/// construction time.  The backward rule of a node reads these captured
/// values, never the current `data` of its operands, so later mutation of an
/// operand's `data` does not change an already built gradient rule.
#[derive(Clone, Copy, Debug)]
pub enum Op {
    Leaf,
    Add { lhs: usize, rhs: usize },
    Mul { lhs: usize, rhs: usize, lhs_data: Scalar, rhs_data: Scalar },
    Pow { base: usize, exponent: i32, base_data: Scalar },
    Relu { arg: usize, out_data: Scalar },
}

/// The tag naming the operation that produced a node; purely descriptive.
/// A subtraction is an addition node relabelled, a division a
/// multiplication node relabelled, since both are built from the primitive
/// rules.
#[derive(Clone, Copy, Debug, PartialEq, Eq, Structural)]
pub enum OpLabel {
    Leaf,
    Add,
    Sub,
    Mul,
    Div,
    Pow,
    Relu,
}

/// One node of the computation graph: the scalar it carries, its
/// accumulated gradient, and the rule that produced it.
#[derive(Clone, Copy, Debug)]
pub struct Node {
    pub data: Scalar,
    pub grad: Scalar,
    pub op: Op,
    pub label: OpLabel,
}

/// The computation graph, an arena of nodes.  A node refers to its operands
/// by index; every operation appends a strictly new node whose operands
/// already exist, so operand indices are always smaller than the node's own
/// index and the graph is acyclic by construction.  Two handles with the
/// same index share one `data`/`grad` storage location, which is exactly
/// the sharing the gradient accumulation relies on.
pub struct Graph {
    pub nodes: Vec<Node>,
}

/// A handle to one node of a graph.  Equality of handles is identity of the
/// underlying storage, not equality of the carried values.
#[derive(Clone, Copy, Debug, PartialEq, Eq, Hash, Structural)]
pub struct Value {
    pub id: usize,
}

/// The operand indices a node propagates its gradient to, in order.  When
/// the two operands of a binary node share one storage location the node
/// records that operand once, and its backward rule doubles the
/// contribution instead.
pub open spec fn children_of(op: Op) -> Seq<usize> {
    match op {
        Op::Leaf => seq![],
        Op::Add { lhs, rhs } => if lhs == rhs {
            seq![lhs]
        } else {
            seq![lhs, rhs]
        },
        Op::Mul { lhs, rhs, .. } => if lhs == rhs {
            seq![lhs]
        } else {
            seq![lhs, rhs]
        },
        Op::Pow { base, .. } => seq![base],
        Op::Relu { arg, .. } => seq![arg],
    }
}

/// A node standing at index `i` is well formed: its scalars are well formed
/// and its operands stand strictly before it.
pub open spec fn node_wf(n: Node, i: int) -> bool {
    &&& n.data.wf()
    &&& n.grad.wf()
    &&& (forall|k: int|
        0 <= k < children_of(n.op).len() ==> (children_of(n.op)[k] as int) < i)
    &&& (match n.op {
        Op::Mul { lhs_data, rhs_data, .. } => lhs_data.wf() && rhs_data.wf(),
        Op::Pow { base_data, .. } => base_data.wf(),
        Op::Relu { out_data, .. } => out_data.wf(),
        _ => true,
    })
}

pub open spec fn nodes_wf(nodes: Seq<Node>) -> bool {
    forall|i: int| 0 <= i < nodes.len() ==> node_wf(#[trigger] nodes[i], i)
}

impl Graph {
    pub open spec fn wf(self) -> bool {
        nodes_wf(self.nodes@)
    }

    pub fn new() -> (g: Graph)
        ensures
            g.wf(),
            g.nodes@.len() == 0,
    {
        Graph { nodes: Vec::new() }
    }

    pub fn len(&self) -> (n: usize)
        ensures
            n == self.nodes@.len(),
    {
        self.nodes.len()
    }

    /// Allocates a fresh leaf: independent gradient storage, gradient zero,
    /// no operands, no backward rule.
    pub fn leaf(&mut self, data: Scalar) -> (v: Value)
        requires
            old(self).wf(),
            data.wf(),
        ensures
            final(self).wf(),
            v.id == old(self).nodes@.len(),
            final(self).nodes@ == old(self).nodes@.push(leaf_node(data)),
    {
        let id = self.nodes.len();
        self.nodes.push(Node { data, grad: Scalar::zero(), op: Op::Leaf, label: OpLabel::Leaf });
        Value { id }
    }
}

/// The node a fresh leaf carries.
pub open spec fn leaf_node(data: Scalar) -> Node {
    Node { data, grad: Scalar::zero_spec(), op: Op::Leaf, label: OpLabel::Leaf }
}

/// The node an addition appends: data is the exact sum of the operands'
/// data, gradient starts at zero.
pub open spec fn add_node(nodes: Seq<Node>, a: usize, b: usize, label: OpLabel) -> Node {
    Node {
        data: Scalar::add_spec(nodes[a as int].data, nodes[b as int].data),
        grad: Scalar::zero_spec(),
        op: Op::Add { lhs: a, rhs: b },
        label,
    }
}

/// The node a multiplication appends; the operands' data is captured in the
/// backward rule at construction time.
pub open spec fn mul_node(nodes: Seq<Node>, a: usize, b: usize, label: OpLabel) -> Node {
    Node {
        data: Scalar::mul_spec(nodes[a as int].data, nodes[b as int].data),
        grad: Scalar::zero_spec(),
        op: Op::Mul {
            lhs: a,
            rhs: b,
            lhs_data: nodes[a as int].data,
            rhs_data: nodes[b as int].data,
        },
        label,
    }
}

/// The node a power appends.
pub open spec fn pow_node(nodes: Seq<Node>, a: usize, e: i32) -> Node {
    Node {
        data: Scalar::pow_spec(nodes[a as int].data, e as int),
        grad: Scalar::zero_spec(),
        op: Op::Pow { base: a, exponent: e, base_data: nodes[a as int].data },
        label: OpLabel::Pow,
    }
}

/// The node a rectifier appends; its own data is captured for the backward
/// rule.
pub open spec fn relu_node(nodes: Seq<Node>, a: usize) -> Node {
    Node {
        data: Scalar::relu_spec(nodes[a as int].data),
        grad: Scalar::zero_spec(),
        op: Op::Relu { arg: a, out_data: Scalar::relu_spec(nodes[a as int].data) },
        label: OpLabel::Relu,
    }
}

/// Appends the addition node of `a` and `b` under the given label.
fn push_add(g: &mut Graph, a: Value, b: Value, label: OpLabel) -> (v: Value)
    requires
        old(g).wf(),
        a.id < old(g).nodes@.len(),
        b.id < old(g).nodes@.len(),
    ensures
        final(g).wf(),
        v.id == old(g).nodes@.len(),
        final(g).nodes@ == old(g).nodes@.push(add_node(old(g).nodes@, a.id, b.id, label)),
{
    let id = g.nodes.len();
    let data = g.nodes[a.id].data.add(&g.nodes[b.id].data);
    g.nodes.push(
        Node { data, grad: Scalar::zero(), op: Op::Add { lhs: a.id, rhs: b.id }, label },
    );
    Value { id }
}

/// Appends the multiplication node of `a` and `b` under the given label.
fn push_mul(g: &mut Graph, a: Value, b: Value, label: OpLabel) -> (v: Value)
    requires
        old(g).wf(),
        a.id < old(g).nodes@.len(),
        b.id < old(g).nodes@.len(),
    ensures
        final(g).wf(),
        v.id == old(g).nodes@.len(),
        final(g).nodes@ == old(g).nodes@.push(mul_node(old(g).nodes@, a.id, b.id, label)),
{
    let id = g.nodes.len();
    let lhs_data = g.nodes[a.id].data;
    let rhs_data = g.nodes[b.id].data;
    let data = lhs_data.mul(&rhs_data);
    g.nodes.push(
        Node {
            data,
            grad: Scalar::zero(),
            op: Op::Mul { lhs: a.id, rhs: b.id, lhs_data, rhs_data },
            label,
        },
    );
    Value { id }
}

/// `a + b`: appends one node whose data is the exact sum.
pub fn add(g: &mut Graph, a: Value, b: Value) -> (v: Value)
    requires
        old(g).wf(),
        a.id < old(g).nodes@.len(),
        b.id < old(g).nodes@.len(),
    ensures
        final(g).wf(),
        v.id == old(g).nodes@.len(),
        final(g).nodes@ == old(g).nodes@.push(add_node(old(g).nodes@, a.id, b.id, OpLabel::Add)),
        final(g).nodes@[v.id as int].data == Scalar::add_spec(
            old(g).nodes@[a.id as int].data,
            old(g).nodes@[b.id as int].data,
        ),
{
    push_add(g, a, b, OpLabel::Add)
}

/// `a * b`: appends one node whose data is the exact product.
pub fn mul(g: &mut Graph, a: Value, b: Value) -> (v: Value)
    requires
        old(g).wf(),
        a.id < old(g).nodes@.len(),
        b.id < old(g).nodes@.len(),
    ensures
        final(g).wf(),
        v.id == old(g).nodes@.len(),
        final(g).nodes@ == old(g).nodes@.push(mul_node(old(g).nodes@, a.id, b.id, OpLabel::Mul)),
        final(g).nodes@[v.id as int].data == Scalar::mul_spec(
            old(g).nodes@[a.id as int].data,
            old(g).nodes@[b.id as int].data,
        ),
{
    push_mul(g, a, b, OpLabel::Mul)
}

/// `a - b`, canonicalized as `a + b * (-1)`: appends a leaf carrying `-1`,
/// the multiplication node, and the addition node relabelled `Sub`.
pub fn sub(g: &mut Graph, a: Value, b: Value) -> (v: Value)
    requires
        old(g).wf(),
        a.id < old(g).nodes@.len(),
        b.id < old(g).nodes@.len(),
    ensures
        final(g).wf(),
        v.id == old(g).nodes@.len() + 2,
        final(g).nodes@ == ({
            let n1 = old(g).nodes@.push(leaf_node(Scalar::Rat { num: -1i64, den: 1 }));
            let n2 = n1.push(mul_node(n1, b.id, old(g).nodes@.len() as usize, OpLabel::Mul));
            n2.push(add_node(n2, a.id, (old(g).nodes@.len() + 1) as usize, OpLabel::Sub))
        }),
{
    let neg_one = g.leaf(Scalar::from_int(-1));
    let m = push_mul(g, b, neg_one, OpLabel::Mul);
    push_add(g, a, m, OpLabel::Sub)
}

/// `a ^ e` for an integer exponent: appends one node.
pub fn powf(g: &mut Graph, a: Value, e: i32) -> (v: Value)
    requires
        old(g).wf(),
        a.id < old(g).nodes@.len(),
    ensures
        final(g).wf(),
        v.id == old(g).nodes@.len(),
        final(g).nodes@ == old(g).nodes@.push(pow_node(old(g).nodes@, a.id, e)),
        final(g).nodes@[v.id as int].data == Scalar::pow_spec(
            old(g).nodes@[a.id as int].data,
            e as int,
        ),
{
    let id = g.nodes.len();
    let base_data = g.nodes[a.id].data;
    let data = base_data.pow(e as i64);
    g.nodes.push(
        Node {
            data,
            grad: Scalar::zero(),
            op: Op::Pow { base: a.id, exponent: e, base_data },
            label: OpLabel::Pow,
        },
    );
    Value { id }
}

/// `a / b`, canonicalized as `a * b ^ (-1)`: appends the power node and the
/// multiplication node relabelled `Div`.
pub fn div(g: &mut Graph, a: Value, b: Value) -> (v: Value)
    requires
        old(g).wf(),
        a.id < old(g).nodes@.len(),
        b.id < old(g).nodes@.len(),
    ensures
        final(g).wf(),
        v.id == old(g).nodes@.len() + 1,
        final(g).nodes@ == ({
            let n1 = old(g).nodes@.push(pow_node(old(g).nodes@, b.id, -1i32));
            n1.push(mul_node(n1, a.id, old(g).nodes@.len() as usize, OpLabel::Div))
        }),
{
    let p = powf(g, b, -1);
    push_mul(g, a, p, OpLabel::Div)
}

/// `max(0, a)`: appends one node.
pub fn relu(g: &mut Graph, a: Value) -> (v: Value)
    requires
        old(g).wf(),
        a.id < old(g).nodes@.len(),
    ensures
        final(g).wf(),
        v.id == old(g).nodes@.len(),
        final(g).nodes@ == old(g).nodes@.push(relu_node(old(g).nodes@, a.id)),
        final(g).nodes@[v.id as int].data == Scalar::relu_spec(old(g).nodes@[a.id as int].data),
{
    let id = g.nodes.len();
    let data = g.nodes[a.id].data.relu();
    g.nodes.push(
        Node {
            data,
            grad: Scalar::zero(),
            op: Op::Relu { arg: a.id, out_data: data },
            label: OpLabel::Relu,
        },
    );
    Value { id }
}

/// Sums a sequence of values by folding `add` over a fresh zero leaf, so
/// the running accumulator is itself part of the graph; the empty sum is
/// the fresh zero leaf alone.
pub fn sum(g: &mut Graph, xs: &Vec<Value>) -> (v: Value)
    requires
        old(g).wf(),
        forall|k: int| 0 <= k < xs@.len() ==> (#[trigger] xs@[k]).id < old(g).nodes@.len(),
    ensures
        final(g).wf(),
        v.id < final(g).nodes@.len(),
        old(g).nodes@.len() <= final(g).nodes@.len(),
        forall|j: int|
            0 <= j < old(g).nodes@.len() ==> final(g).nodes@[j] == old(g).nodes@[j],
        final(g).nodes@[v.id as int].data == sum_data_spec(old(g).nodes@, xs@),
        final(g).nodes@[v.id as int].grad == Scalar::zero_spec(),
        xs@.len() == 0 ==> final(g).nodes@[v.id as int] == leaf_node(Scalar::zero_spec()),
        xs@.len() > 0 ==> final(g).nodes@[v.id as int].label == OpLabel::Add,
{
    let ghost nodes0 = g.nodes@;
    let mut acc = g.leaf(Scalar::zero());
    let mut k: usize = 0;
    while k < xs.len()
        invariant
            g.wf(),
            k <= xs@.len(),
            acc.id < g.nodes@.len(),
            nodes0.len() <= g.nodes@.len(),
            forall|k2: int| 0 <= k2 < xs@.len() ==> (#[trigger] xs@[k2]).id < nodes0.len(),
            forall|j: int| 0 <= j < nodes0.len() ==> g.nodes@[j] == nodes0[j],
            g.nodes@[acc.id as int].data == sum_data_spec(nodes0, xs@.take(k as int)),
            g.nodes@[acc.id as int].grad == Scalar::zero_spec(),
            k == 0 ==> g.nodes@[acc.id as int] == leaf_node(Scalar::zero_spec()),
            k > 0 ==> g.nodes@[acc.id as int].label == OpLabel::Add,
        decreases xs@.len() - k,
    {
        proof {
            assert(xs@.take(k as int + 1).drop_last() =~= xs@.take(k as int));
        }
        acc = crate::value::add(g, acc, xs[k]);
        k = k + 1;
    }
    proof {
        assert(xs@.take(xs@.len() as int) =~= xs@);
    }
    acc
}

/// The exact value of the fold `((0 + x0) + x1) + ...` over the data of the
/// given operands.
pub open spec fn sum_data_spec(nodes: Seq<Node>, xs: Seq<Value>) -> Scalar
    decreases xs.len(),
{
    if xs.len() == 0 {
        Scalar::zero_spec()
    } else {
        Scalar::add_spec(sum_data_spec(nodes, xs.drop_last()), nodes[xs.last().id as int].data)
    }
}

impl Value {
    /// Returns underlying data.
    pub fn get_data(&self, g: &Graph) -> (r: Scalar)
        requires
            self.id < g.nodes@.len(),
        ensures
            r == g.nodes@[self.id as int].data,
    {
        g.nodes[self.id].data
    }

    /// Overwrites the node's data; the captured operand data inside already
    /// built backward rules is deliberately left as it stood.
    pub fn set_data(&self, g: &mut Graph, data: Scalar)
        requires
            old(g).wf(),
            self.id < old(g).nodes@.len(),
            data.wf(),
        ensures
            final(g).wf(),
            final(g).nodes@ == old(g).nodes@.update(
                self.id as int,
                (Node { data, ..old(g).nodes@[self.id as int] }),
            ),
    {
        let n = g.nodes[self.id];
        g.nodes.set(self.id, Node { data, ..n });
    }

    /// Returns the accumulated gradient.
    pub fn get_grad(&self, g: &Graph) -> (r: Scalar)
        requires
            self.id < g.nodes@.len(),
        ensures
            r == g.nodes@[self.id as int].grad,
    {
        g.nodes[self.id].grad
    }

    /// Resets the accumulated gradient to zero.
    pub fn zero_grad(&self, g: &mut Graph)
        requires
            old(g).wf(),
            self.id < old(g).nodes@.len(),
        ensures
            final(g).wf(),
            final(g).nodes@ == old(g).nodes@.update(
                self.id as int,
                (Node { grad: Scalar::zero_spec(), ..old(g).nodes@[self.id as int] }),
            ),
    {
        let n = g.nodes[self.id];
        g.nodes.set(self.id, Node { grad: Scalar::zero(), ..n });
    }

    /// The operands that produced this node, in order; a binary node whose
    /// operands share storage lists that operand once.
    pub fn children(&self, g: &Graph) -> (r: Vec<Value>)
        requires
            self.id < g.nodes@.len(),
        ensures
            r@.map_values(|v: Value| v.id) == children_of(g.nodes@[self.id as int].op),
    {
        let mut r: Vec<Value> = Vec::new();
        match g.nodes[self.id].op {
            Op::Leaf => {},
            Op::Add { lhs, rhs } => {
                r.push(Value { id: lhs });
                if lhs != rhs {
                    r.push(Value { id: rhs });
                }
            },
            Op::Mul { lhs, rhs, .. } => {
                r.push(Value { id: lhs });
                if lhs != rhs {
                    r.push(Value { id: rhs });
                }
            },
            Op::Pow { base, .. } => {
                r.push(Value { id: base });
            },
            Op::Relu { arg, .. } => {
                r.push(Value { id: arg });
            },
        }
        proof {
            assert(r@.map_values(|v: Value| v.id) =~= children_of(g.nodes@[self.id as int].op));
        }
        r
    }

    /// The tag of the operation that produced this node; the empty string
    /// for a leaf.
    pub fn get_op(&self, g: &Graph) -> (r: String)
        requires
            self.id < g.nodes@.len(),
        ensures
            r@ == op_label_str(g.nodes@[self.id as int].label),
    {
        match g.nodes[self.id].label {
            OpLabel::Leaf => String::from_str(""),
            OpLabel::Add => String::from_str("add"),
            OpLabel::Sub => String::from_str("sub"),
            OpLabel::Mul => String::from_str("mul"),
            OpLabel::Div => String::from_str("div"),
            OpLabel::Pow => String::from_str("pow"),
            OpLabel::Relu => String::from_str("relu"),
        }
    }
}

/// Depth-first post-order traversal: marks `i` visited, walks its operands
/// in order, then appends `i` to the ordering.  Every distinct storage
/// location is visited once, so an ordering entry always stands after all
/// ordering entries of its operands.
pub open spec fn topo_spec(nodes: Seq<Node>, i: usize, visited: Seq<bool>, order: Seq<usize>) -> (
    Seq<bool>,
    Seq<usize>,
)
    decreases i,
{
    if i as int >= visited.len() || visited[i as int] {
        (visited, order)
    } else {
        let v1 = visited.update(i as int, true);
        let vo = match nodes[i as int].op {
            Op::Leaf => (v1, order),
            Op::Add { lhs, rhs } => if lhs < i && rhs < i {
                if lhs == rhs {
                    topo_spec(nodes, lhs, v1, order)
                } else {
                    let vo1 = topo_spec(nodes, lhs, v1, order);
                    topo_spec(nodes, rhs, vo1.0, vo1.1)
                }
            } else {
                (v1, order)
            },
            Op::Mul { lhs, rhs, .. } => if lhs < i && rhs < i {
                if lhs == rhs {
                    topo_spec(nodes, lhs, v1, order)
                } else {
                    let vo1 = topo_spec(nodes, lhs, v1, order);
                    topo_spec(nodes, rhs, vo1.0, vo1.1)
                }
            } else {
                (v1, order)
            },
            Op::Pow { base, .. } => if base < i {
                topo_spec(nodes, base, v1, order)
            } else {
                (v1, order)
            },
            Op::Relu { arg, .. } => if arg < i {
                topo_spec(nodes, arg, v1, order)
            } else {
                (v1, order)
            },
        };
        (vo.0, vo.1.push(i))
    }
}

/// The scalar carrying the integer `e`.
pub open spec fn int_scalar(e: i32) -> Scalar {
    Scalar::Rat { num: e as i64, den: 1 }
}

/// The node sequence with the gradient at `j` replaced.
pub open spec fn upd_grad(nodes: Seq<Node>, j: int, gr: Scalar) -> Seq<Node> {
    nodes.update(j, Node { grad: gr, ..nodes[j] })
}

/// One node's backward rule: adds this node's current gradient, weighted by
/// the local derivative captured at construction time, into each operand's
/// gradient.  A binary node whose operands share storage doubles the single
/// contribution.  A rectifier propagates the gradient only where its output
/// was positive.  Leaves propagate nothing.
pub open spec fn step_spec(nodes: Seq<Node>, i: usize) -> Seq<Node> {
    let og = nodes[i as int].grad;
    match nodes[i as int].op {
        Op::Leaf => nodes,
        Op::Add { lhs, rhs } => {
            if lhs == rhs {
                upd_grad(
                    nodes,
                    lhs as int,
                    Scalar::add_spec(
                        nodes[lhs as int].grad,
                        Scalar::mul_spec(Scalar::two_spec(), og),
                    ),
                )
            } else {
                let n1 = upd_grad(
                    nodes,
                    lhs as int,
                    Scalar::add_spec(nodes[lhs as int].grad, og),
                );
                upd_grad(n1, rhs as int, Scalar::add_spec(n1[rhs as int].grad, og))
            }
        },
        Op::Mul { lhs, rhs, lhs_data, rhs_data } => {
            if lhs == rhs {
                upd_grad(
                    nodes,
                    lhs as int,
                    Scalar::add_spec(
                        nodes[lhs as int].grad,
                        Scalar::mul_spec(
                            Scalar::two_spec(),
                            Scalar::mul_spec(lhs_data, og),
                        ),
                    ),
                )
            } else {
                let n1 = upd_grad(
                    nodes,
                    lhs as int,
                    Scalar::add_spec(nodes[lhs as int].grad, Scalar::mul_spec(rhs_data, og)),
                );
                upd_grad(
                    n1,
                    rhs as int,
                    Scalar::add_spec(n1[rhs as int].grad, Scalar::mul_spec(lhs_data, og)),
                )
            }
        },
        Op::Pow { base, exponent, base_data } => {
            upd_grad(
                nodes,
                base as int,
                Scalar::add_spec(
                    nodes[base as int].grad,
                    Scalar::mul_spec(
                        Scalar::mul_spec(
                            int_scalar(exponent),
                            Scalar::pow_spec(base_data, exponent as int - 1),
                        ),
                        og,
                    ),
                ),
            )
        },
        Op::Relu { arg, out_data } => {
            let active = match out_data {
                Scalar::Rat { num, .. } => num > 0,
                Scalar::Undefined => false,
            };
            let delta = if active {
                og
            } else {
                Scalar::zero_spec()
            };
            upd_grad(nodes, arg as int, Scalar::add_spec(nodes[arg as int].grad, delta))
        },
    }
}

/// The reverse walk over a post-order: applies the backward rule of the
/// last ordering entry first, so every node's gradient is complete before
/// the node propagates it.
pub open spec fn walk_spec(nodes: Seq<Node>, order: Seq<usize>) -> Seq<Node>
    decreases order.len(),
{
    if order.len() == 0 {
        nodes
    } else {
        walk_spec(step_spec(nodes, order.last()), order.drop_last())
    }
}

pub open spec fn all_unvisited(n: nat) -> Seq<bool> {
    Seq::new(n, |k: int| false)
}

/// The whole backward pass from `root`: build the post-order of the nodes
/// reachable from `root`, seed the root's gradient with one, then walk the
/// ordering in reverse applying each backward rule.
pub open spec fn backward_spec(nodes: Seq<Node>, root: usize) -> Seq<Node> {
    let order = topo_spec(nodes, root, all_unvisited(nodes.len()), Seq::empty()).1;
    let seeded = upd_grad(nodes, root as int, Scalar::one_spec());
    walk_spec(seeded, order)
}

/// The power of a scalar is always well formed.
pub proof fn lemma_pow_spec_wf(a: Scalar, e: int)
    ensures
        Scalar::pow_spec(a, e).wf(),
    decreases (if e >= 0 { e } else { -e }), (if e >= 0 { 0int } else { 1int }),
{
    if e == 0 {
    } else if e > 0 {
        lemma_pow_spec_wf(a, e - 1);
    } else {
        lemma_pow_spec_wf(Scalar::inv_spec(a), -e);
    }
}

/// A backward rule changes gradients only: length, data, operation and
/// label are kept, and well-formedness is preserved.
pub proof fn lemma_step_preserves(nodes: Seq<Node>, i: usize)
    requires
        nodes_wf(nodes),
        (i as int) < nodes.len(),
    ensures
        step_spec(nodes, i).len() == nodes.len(),
        nodes_wf(step_spec(nodes, i)),
        forall|j: int|
            0 <= j < nodes.len() ==> (#[trigger] step_spec(nodes, i)[j]).data == nodes[j].data
                && step_spec(nodes, i)[j].op == nodes[j].op && step_spec(nodes, i)[j].label
                == nodes[j].label,
{
    assert(node_wf(nodes[i as int], i as int));
    let r = step_spec(nodes, i);
    match nodes[i as int].op {
        Op::Leaf => {},
        Op::Add { lhs, rhs } => {
            assert(children_of(nodes[i as int].op)[0] == lhs);
            if lhs != rhs {
                assert(children_of(nodes[i as int].op)[1] == rhs);
            }
        },
        Op::Mul { lhs, rhs, .. } => {
            assert(children_of(nodes[i as int].op)[0] == lhs);
            if lhs != rhs {
                assert(children_of(nodes[i as int].op)[1] == rhs);
            }
        },
        Op::Pow { base, exponent, base_data } => {
            assert(children_of(nodes[i as int].op)[0] == base);
            lemma_pow_spec_wf(base_data, exponent as int - 1);
        },
        Op::Relu { arg, .. } => {
            assert(children_of(nodes[i as int].op)[0] == arg);
        },
    }
    assert forall|j: int| 0 <= j < r.len() implies node_wf(#[trigger] r[j], j) by {
        assert(node_wf(nodes[j], j));
        assert(r[j].op == nodes[j].op);
    }
}

/// The reverse walk changes gradients only.
pub proof fn lemma_walk_preserves(nodes: Seq<Node>, order: Seq<usize>)
    requires
        nodes_wf(nodes),
        forall|k: int| 0 <= k < order.len() ==> (#[trigger] order[k] as int) < nodes.len(),
    ensures
        walk_spec(nodes, order).len() == nodes.len(),
        nodes_wf(walk_spec(nodes, order)),
        forall|j: int|
            0 <= j < nodes.len() ==> (#[trigger] walk_spec(nodes, order)[j]).data
                == nodes[j].data && walk_spec(nodes, order)[j].op == nodes[j].op && walk_spec(
                nodes,
                order,
            )[j].label == nodes[j].label,
    decreases order.len(),
{
    if order.len() > 0 {
        lemma_step_preserves(nodes, order.last());
        lemma_walk_preserves(step_spec(nodes, order.last()), order.drop_last());
    }
}

/// Peeling the reverse walk from the other end: the rule of the first
/// ordering entry is the last one applied.
pub proof fn lemma_walk_unfold_first(nodes: Seq<Node>, order: Seq<usize>)
    requires
        order.len() > 0,
    ensures
        walk_spec(nodes, order) == step_spec(
            walk_spec(nodes, order.drop_first()),
            order.first(),
        ),
    decreases order.len(),
{
    if order.len() == 1 {
        assert(order.drop_last().len() == 0);
        assert(order.drop_first().len() == 0);
        assert(order.last() == order.first());
        assert(walk_spec(nodes, order.drop_first()) == nodes);
        assert(walk_spec(step_spec(nodes, order.last()), order.drop_last()) == step_spec(
            nodes,
            order.last(),
        ));
        assert(walk_spec(nodes, order) == step_spec(nodes, order.last()));
    } else {
        let stepped = step_spec(nodes, order.last());
        let dl = order.drop_last();
        let df = order.drop_first();
        lemma_walk_unfold_first(stepped, dl);
        assert(dl.first() == order.first());
        assert(dl.drop_first() =~= df.drop_last());
        assert(df.last() == order.last());
        assert(walk_spec(nodes, order) == walk_spec(stepped, dl));
        assert(walk_spec(stepped, dl) == step_spec(walk_spec(stepped, dl.drop_first()), dl.first()));
        assert(walk_spec(nodes, df) == walk_spec(stepped, df.drop_last()));
        assert(walk_spec(stepped, dl.drop_first()) == walk_spec(nodes, df));
    }
}

/// Recursive part of the backward pass: the depth-first traversal,
/// with the visited set held as one flag per node.
fn build_topo(g: &Graph, i: usize, visited: &mut Vec<bool>, order: &mut Vec<usize>)
    requires
        g.wf(),
        i < g.nodes@.len(),
        old(visited)@.len() == g.nodes@.len(),
        forall|k: int|
            0 <= k < old(order)@.len() ==> (#[trigger] old(order)@[k] as int) < g.nodes@.len(),
    ensures
        final(visited)@ == topo_spec(g.nodes@, i, old(visited)@, old(order)@).0,
        final(order)@ == topo_spec(g.nodes@, i, old(visited)@, old(order)@).1,
        final(visited)@.len() == g.nodes@.len(),
        forall|k: int|
            0 <= k < final(order)@.len() ==> (#[trigger] final(order)@[k] as int)
                < g.nodes@.len(),
    decreases i,
{
    if visited[i] {
        return ;
    }
    visited.set(i, true);
    proof {
        assert(node_wf(g.nodes@[i as int], i as int));
    }
    let node = g.nodes[i];
    match node.op {
        Op::Leaf => {},
        Op::Add { lhs, rhs } => {
            proof {
                assert(children_of(node.op)[0] == lhs);
                if lhs != rhs {
                    assert(children_of(node.op)[1] == rhs);
                }
            }
            build_topo(g, lhs, visited, order);
            if lhs != rhs {
                build_topo(g, rhs, visited, order);
            }
        },
        Op::Mul { lhs, rhs, .. } => {
            proof {
                assert(children_of(node.op)[0] == lhs);
                if lhs != rhs {
                    assert(children_of(node.op)[1] == rhs);
                }
            }
            build_topo(g, lhs, visited, order);
            if lhs != rhs {
                build_topo(g, rhs, visited, order);
            }
        },
        Op::Pow { base, .. } => {
            proof {
                assert(children_of(node.op)[0] == base);
            }
            build_topo(g, base, visited, order);
        },
        Op::Relu { arg, .. } => {
            proof {
                assert(children_of(node.op)[0] == arg);
            }
            build_topo(g, arg, visited, order);
        },
    }
    order.push(i);
}

/// Applies one node's backward rule to the graph.
fn apply_step(g: &mut Graph, i: usize)
    requires
        old(g).wf(),
        i < old(g).nodes@.len(),
    ensures
        final(g).wf(),
        final(g).nodes@ == step_spec(old(g).nodes@, i),
        final(g).nodes@.len() == old(g).nodes@.len(),
{
    proof {
        assert(node_wf(g.nodes@[i as int], i as int));
        lemma_step_preserves(g.nodes@, i);
    }
    let node = g.nodes[i];
    let og = node.grad;
    match node.op {
        Op::Leaf => {},
        Op::Add { lhs, rhs } => {
            proof {
                assert(children_of(node.op)[0] == lhs);
                if lhs != rhs {
                    assert(children_of(node.op)[1] == rhs);
                }
            }
            if lhs == rhs {
                let two = Scalar::Rat { num: 2, den: 1 };
                let ng = g.nodes[lhs].grad.add(&two.mul(&og));
                let n = g.nodes[lhs];
                g.nodes.set(lhs, Node { grad: ng, ..n });
            } else {
                let ng1 = g.nodes[lhs].grad.add(&og);
                let n1 = g.nodes[lhs];
                g.nodes.set(lhs, Node { grad: ng1, ..n1 });
                let ng2 = g.nodes[rhs].grad.add(&og);
                let n2 = g.nodes[rhs];
                g.nodes.set(rhs, Node { grad: ng2, ..n2 });
            }
        },
        Op::Mul { lhs, rhs, lhs_data, rhs_data } => {
            proof {
                assert(children_of(node.op)[0] == lhs);
                if lhs != rhs {
                    assert(children_of(node.op)[1] == rhs);
                }
            }
            if lhs == rhs {
                let two = Scalar::Rat { num: 2, den: 1 };
                let ng = g.nodes[lhs].grad.add(&two.mul(&lhs_data.mul(&og)));
                let n = g.nodes[lhs];
                g.nodes.set(lhs, Node { grad: ng, ..n });
            } else {
                let ng1 = g.nodes[lhs].grad.add(&rhs_data.mul(&og));
                let n1 = g.nodes[lhs];
                g.nodes.set(lhs, Node { grad: ng1, ..n1 });
                let ng2 = g.nodes[rhs].grad.add(&lhs_data.mul(&og));
                let n2 = g.nodes[rhs];
                g.nodes.set(rhs, Node { grad: ng2, ..n2 });
            }
        },
        Op::Pow { base, exponent, base_data } => {
            proof {
                assert(children_of(node.op)[0] == base);
                lemma_pow_spec_wf(base_data, exponent as int - 1);
            }
            let e_s = Scalar::from_int(exponent as i64);
            let p = base_data.pow((exponent as i64) - 1);
            let ng = g.nodes[base].grad.add(&e_s.mul(&p).mul(&og));
            let n = g.nodes[base];
            g.nodes.set(base, Node { grad: ng, ..n });
        },
        Op::Relu { arg, out_data } => {
            proof {
                assert(children_of(node.op)[0] == arg);
            }
            let active = match out_data {
                Scalar::Rat { num, den: _ } => num > 0,
                Scalar::Undefined => false,
            };
            let delta = if active {
                og
            } else {
                Scalar::zero()
            };
            let ng = g.nodes[arg].grad.add(&delta);
            let n = g.nodes[arg];
            g.nodes.set(arg, Node { grad: ng, ..n });
        },
    }
}

impl Value {
    /// Applies gradients: builds the post-order of every node reachable
    /// from this one, seeds this node's gradient with one, then walks the
    /// ordering in reverse invoking each node's backward rule, so each
    /// gradient is fully accumulated before it is propagated further.
    pub fn backward(&self, g: &mut Graph)
        requires
            old(g).wf(),
            self.id < old(g).nodes@.len(),
        ensures
            final(g).wf(),
            final(g).nodes@ == backward_spec(old(g).nodes@, self.id),
            final(g).nodes@.len() == old(g).nodes@.len(),
            final(g).nodes@[self.id as int].grad == Scalar::one_spec(),
            forall|j: int|
                0 <= j < old(g).nodes@.len() ==> (#[trigger] final(g).nodes@[j]).data
                    == old(g).nodes@[j].data && final(g).nodes@[j].op == old(g).nodes@[j].op
                    && final(g).nodes@[j].label == old(g).nodes@[j].label,
    {
        let ghost nodes0 = g.nodes@;
        let n = g.nodes.len();
        let mut visited: Vec<bool> = Vec::new();
        let mut k: usize = 0;
        while k < n
            invariant
                k <= n,
                visited@.len() == k,
                forall|j: int| 0 <= j < k ==> visited@[j] == false,
            decreases n - k,
        {
            visited.push(false);
            k = k + 1;
        }
        proof {
            assert(visited@ =~= all_unvisited(nodes0.len()));
        }
        let mut order: Vec<usize> = Vec::new();
        build_topo(g, self.id, &mut visited, &mut order);
        let ghost order_spec = topo_spec(
            nodes0,
            self.id,
            all_unvisited(nodes0.len()),
            Seq::empty(),
        ).1;
        proof {
            assert(order@ == order_spec);
        }
        let root_node = g.nodes[self.id];
        g.nodes.set(self.id, Node { grad: Scalar::one(), ..root_node });
        let ghost seeded = g.nodes@;
        proof {
            assert(seeded == upd_grad(nodes0, self.id as int, Scalar::one_spec()));
            assert forall|j: int| 0 <= j < seeded.len() implies node_wf(
                #[trigger] seeded[j],
                j,
            ) by {
                assert(node_wf(nodes0[j], j));
                assert(seeded[j].op == nodes0[j].op);
            }
        }
        let m = order.len();
        let mut t: usize = m;
        proof {
            assert(order@.subrange(m as int, m as int) =~= Seq::<usize>::empty());
        }
        while t > 0
            invariant
                t <= m,
                m == order@.len(),
                nodes_wf(g.nodes@),
                g.nodes@.len() == seeded.len(),
                seeded.len() == nodes0.len(),
                forall|k2: int|
                    0 <= k2 < order@.len() ==> (#[trigger] order@[k2] as int) < nodes0.len(),
                g.nodes@ == walk_spec(seeded, order@.subrange(t as int, m as int)),
            decreases t,
        {
            t = t - 1;
            proof {
                let sub1 = order@.subrange(t as int, m as int);
                lemma_walk_unfold_first(seeded, sub1);
                assert(sub1.first() == order@[t as int]);
                assert(sub1.drop_first() =~= order@.subrange(t as int + 1, m as int));
            }
            let idx = order[t];
            apply_step(g, idx);
        }
        proof {
            assert(order@.subrange(0, m as int) =~= order@);
            lemma_walk_preserves(seeded, order@);
            crate::laws::lemma_root_gradient_is_one(nodes0, self.id);
        }
    }
}

/// The descriptive tag of each label.
pub open spec fn op_label_str(l: OpLabel) -> Seq<char> {
    match l {
        OpLabel::Leaf => ""@,
        OpLabel::Add => "add"@,
        OpLabel::Sub => "sub"@,
        OpLabel::Mul => "mul"@,
        OpLabel::Div => "div"@,
        OpLabel::Pow => "pow"@,
        OpLabel::Relu => "relu"@,
    }
}

} // verus!
