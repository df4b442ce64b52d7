use crate::scalar::lemma_den_product_bound;
use crate::scalar::Scalar;
use crate::value::add_node;
use crate::value::all_unvisited;
use crate::value::backward_spec;
use crate::value::children_of;
use crate::value::leaf_node;
use crate::value::lemma_step_preserves;
use crate::value::mul_node;
use crate::value::node_wf;
use crate::value::nodes_wf;
use crate::value::relu_node;
use crate::value::step_spec;
use crate::value::topo_spec;
use crate::value::upd_grad;
use crate::value::walk_spec;
use crate::value::Node;
use crate::value::Op;
use crate::value::OpLabel;
use vstd::prelude::*;

verus! {

/// For all nodes: the data of `a + b` is the exact rational sum of the
/// operands' data, whenever numerator and denominator of that sum stay in
/// the 64-bit range.
pub proof fn lemma_add_data_exact(an: i64, ad: i64, bn: i64, bd: i64)
    requires
        ad >= 1,
        bd >= 1,
        Scalar::fits_i64(an * bd + bn * ad),
        ad * bd <= i64::MAX,
    ensures
        ({
            let sum = Scalar::add_spec(
                Scalar::Rat { num: an, den: ad },
                Scalar::Rat { num: bn, den: bd },
            );
            sum.is_defined() && sum.numer() == an * bd + bn * ad && sum.denom() == ad * bd
        }),
{
    lemma_den_product_bound(ad as int, bd as int);
}

/// For all nodes: the data of `a * b` is the exact rational product of the
/// operands' data, whenever numerator and denominator of that product stay
/// in the 64-bit range.
pub proof fn lemma_mul_data_exact(an: i64, ad: i64, bn: i64, bd: i64)
    requires
        ad >= 1,
        bd >= 1,
        Scalar::fits_i64(an * bn),
        ad * bd <= i64::MAX,
    ensures
        ({
            let product = Scalar::mul_spec(
                Scalar::Rat { num: an, den: ad },
                Scalar::Rat { num: bn, den: bd },
            );
            product.is_defined() && product.numer() == an * bn && product.denom() == ad * bd
        }),
{
    lemma_den_product_bound(ad as int, bd as int);
}

/// Adding zero on the left returns a well-formed scalar unchanged.
pub proof fn lemma_add_zero_left(x: Scalar)
    requires
        x.wf(),
    ensures
        Scalar::add_spec(Scalar::zero_spec(), x) == x,
{
}

/// Multiplying a well-formed scalar by one on the right returns it
/// unchanged.
pub proof fn lemma_mul_one_right(x: Scalar)
    requires
        x.wf(),
    ensures
        Scalar::mul_spec(x, Scalar::one_spec()) == x,
{
}

/// Self-reference correctness for addition: backward through `x + x`
/// leaves `x` with gradient exactly two, whatever well-formed value the
/// leaf carries.  The single shared operand is visited once and its
/// contribution doubled.
pub proof fn lemma_self_add_gradient(v: Scalar)
    requires
        v.wf(),
    ensures
        ({
            let base = seq![leaf_node(v)];
            let nodes = base.push(add_node(base, 0, 0, OpLabel::Add));
            backward_spec(nodes, 1)[0].grad == Scalar::two_spec()
        }),
{
    let base = seq![leaf_node(v)];
    let nodes = base.push(add_node(base, 0, 0, OpLabel::Add));
    let vis0 = all_unvisited(2);
    assert(vis0[0] == false && vis0[1] == false);
    let v1 = vis0.update(1, true);
    let t0 = topo_spec(nodes, 0, v1, Seq::empty());
    assert(t0.1 =~= seq![0usize]);
    let t1 = topo_spec(nodes, 1, vis0, Seq::empty());
    assert(t1.1 == t0.1.push(1));
    assert(t1.1 =~= seq![0usize, 1usize]);
    let seeded = upd_grad(nodes, 1, Scalar::one_spec());
    assert(seeded[1].grad == Scalar::one_spec());
    let s1 = step_spec(seeded, 1);
    lemma_mul_one_right(Scalar::two_spec());
    assert(s1[0].grad == Scalar::add_spec(Scalar::zero_spec(), Scalar::two_spec()));
    lemma_add_zero_left(Scalar::two_spec());
    let s0 = step_spec(s1, 0);
    assert(s0 == s1);
    assert(t1.1.last() == 1usize);
    let rest = t1.1.drop_last();
    assert(rest =~= seq![0usize]);
    assert(rest.last() == 0usize);
    assert(rest.drop_last() =~= Seq::<usize>::empty());
    assert(walk_spec(s0, rest.drop_last()) == s0);
    assert(walk_spec(s1, rest) == s0);
    assert(walk_spec(seeded, t1.1) == walk_spec(s1, rest));
    assert(backward_spec(nodes, 1) == s0);
}

/// Self-reference correctness for multiplication: backward through
/// `x * x` leaves `x` with gradient exactly `2 * v`, the derivative of the
/// square, computed from the operand data captured at construction.
pub proof fn lemma_self_mul_gradient(v: Scalar)
    requires
        v.wf(),
    ensures
        ({
            let base = seq![leaf_node(v)];
            let nodes = base.push(mul_node(base, 0, 0, OpLabel::Mul));
            backward_spec(nodes, 1)[0].grad == Scalar::mul_spec(Scalar::two_spec(), v)
        }),
{
    let base = seq![leaf_node(v)];
    let nodes = base.push(mul_node(base, 0, 0, OpLabel::Mul));
    let vis0 = all_unvisited(2);
    assert(vis0[0] == false && vis0[1] == false);
    let v1 = vis0.update(1, true);
    let t0 = topo_spec(nodes, 0, v1, Seq::empty());
    assert(t0.1 =~= seq![0usize]);
    let t1 = topo_spec(nodes, 1, vis0, Seq::empty());
    assert(t1.1 == t0.1.push(1));
    assert(t1.1 =~= seq![0usize, 1usize]);
    let seeded = upd_grad(nodes, 1, Scalar::one_spec());
    assert(seeded[1].grad == Scalar::one_spec());
    let s1 = step_spec(seeded, 1);
    lemma_mul_one_right(v);
    let doubled = Scalar::mul_spec(Scalar::two_spec(), v);
    assert(doubled.wf());
    lemma_add_zero_left(doubled);
    assert(s1[0].grad == doubled);
    let s0 = step_spec(s1, 0);
    assert(s0 == s1);
    assert(t1.1.last() == 1usize);
    let rest = t1.1.drop_last();
    assert(rest =~= seq![0usize]);
    assert(rest.last() == 0usize);
    assert(rest.drop_last() =~= Seq::<usize>::empty());
    assert(walk_spec(s0, rest.drop_last()) == s0);
    assert(walk_spec(s1, rest) == s0);
    assert(walk_spec(seeded, t1.1) == walk_spec(s1, rest));
    assert(backward_spec(nodes, 1) == s0);
}

/// Rectifier boundary: backward through a rectifier whose input was not
/// positive contributes no gradient to its operand, which keeps gradient
/// zero.
pub proof fn lemma_relu_blocks_gradient(v: Scalar)
    requires
        v.wf(),
        v.is_defined(),
        v.numer() <= 0,
    ensures
        ({
            let base = seq![leaf_node(v)];
            let nodes = base.push(relu_node(base, 0));
            backward_spec(nodes, 1)[0].grad == Scalar::zero_spec()
        }),
{
    let base = seq![leaf_node(v)];
    let nodes = base.push(relu_node(base, 0));
    assert(nodes[1].data == Scalar::zero_spec());
    let vis0 = all_unvisited(2);
    assert(vis0[0] == false && vis0[1] == false);
    let v1 = vis0.update(1, true);
    let t0 = topo_spec(nodes, 0, v1, Seq::empty());
    assert(t0.1 =~= seq![0usize]);
    let t1 = topo_spec(nodes, 1, vis0, Seq::empty());
    assert(t1.1 == t0.1.push(1));
    assert(t1.1 =~= seq![0usize, 1usize]);
    let seeded = upd_grad(nodes, 1, Scalar::one_spec());
    let s1 = step_spec(seeded, 1);
    lemma_add_zero_left(Scalar::zero_spec());
    assert(s1[0].grad == Scalar::zero_spec());
    let s0 = step_spec(s1, 0);
    assert(s0 == s1);
    assert(t1.1.last() == 1usize);
    let rest = t1.1.drop_last();
    assert(rest =~= seq![0usize]);
    assert(rest.last() == 0usize);
    assert(rest.drop_last() =~= Seq::<usize>::empty());
    assert(walk_spec(s0, rest.drop_last()) == s0);
    assert(walk_spec(s1, rest) == s0);
    assert(walk_spec(seeded, t1.1) == walk_spec(s1, rest));
    assert(backward_spec(nodes, 1) == s0);
}

/// Gradient reset makes backward passes reproducible: the pass is a
/// function of the graph's structure, data and starting gradients alone,
/// so two graphs that agree on every node's data, operation and label and
/// both start from all-zero gradients — a first-ever run, or a fresh
/// forward pass after `zero_grad` on every surviving node — yield
/// identical gradients, with no residual accumulation.
pub proof fn lemma_backward_reproducible(n1: Seq<Node>, n2: Seq<Node>, root: usize)
    requires
        n1.len() == n2.len(),
        forall|j: int|
            0 <= j < n1.len() ==> (#[trigger] n1[j]).data == n2[j].data && n1[j].op == n2[j].op
                && n1[j].label == n2[j].label,
        forall|j: int|
            0 <= j < n1.len() ==> (#[trigger] n1[j]).grad == Scalar::zero_spec() && n2[j].grad
                == Scalar::zero_spec(),
    ensures
        backward_spec(n1, root) == backward_spec(n2, root),
{
    assert forall|j: int| 0 <= j < n1.len() implies n1[j] == #[trigger] n2[j] by {
        assert(n1[j].data == n2[j].data);
        assert(n1[j].grad == n2[j].grad);
    }
    assert(n1 =~= n2);
}

/// Every entry of the traversal's ordering is bounded by the start node or
/// by a bound that the entries already in the ordering obey.
pub proof fn lemma_topo_entries_bounded(
    nodes: Seq<Node>,
    i: usize,
    visited: Seq<bool>,
    order: Seq<usize>,
    b: usize,
)
    requires
        i <= b,
        forall|k: int| 0 <= k < order.len() ==> (#[trigger] order[k]) <= b,
    ensures
        forall|k: int|
            0 <= k < topo_spec(nodes, i, visited, order).1.len() ==> (#[trigger] topo_spec(
                nodes,
                i,
                visited,
                order,
            ).1[k]) <= b,
    decreases i,
{
    let r = topo_spec(nodes, i, visited, order);
    if i as int >= visited.len() || visited[i as int] {
    } else {
        let v1 = visited.update(i as int, true);
        let inner = match nodes[i as int].op {
            Op::Leaf => order,
            Op::Add { lhs, rhs } => if lhs < i && rhs < i {
                if lhs == rhs {
                    topo_spec(nodes, lhs, v1, order).1
                } else {
                    let vo1 = topo_spec(nodes, lhs, v1, order);
                    topo_spec(nodes, rhs, vo1.0, vo1.1).1
                }
            } else {
                order
            },
            Op::Mul { lhs, rhs, .. } => if lhs < i && rhs < i {
                if lhs == rhs {
                    topo_spec(nodes, lhs, v1, order).1
                } else {
                    let vo1 = topo_spec(nodes, lhs, v1, order);
                    topo_spec(nodes, rhs, vo1.0, vo1.1).1
                }
            } else {
                order
            },
            Op::Pow { base, .. } => if base < i {
                topo_spec(nodes, base, v1, order).1
            } else {
                order
            },
            Op::Relu { arg, .. } => if arg < i {
                topo_spec(nodes, arg, v1, order).1
            } else {
                order
            },
        };
        match nodes[i as int].op {
            Op::Leaf => {},
            Op::Add { lhs, rhs } => {
                if lhs < i && rhs < i {
                    lemma_topo_entries_bounded(nodes, lhs, v1, order, b);
                    if lhs != rhs {
                        let vo1 = topo_spec(nodes, lhs, v1, order);
                        lemma_topo_entries_bounded(nodes, rhs, vo1.0, vo1.1, b);
                    }
                }
            },
            Op::Mul { lhs, rhs, .. } => {
                if lhs < i && rhs < i {
                    lemma_topo_entries_bounded(nodes, lhs, v1, order, b);
                    if lhs != rhs {
                        let vo1 = topo_spec(nodes, lhs, v1, order);
                        lemma_topo_entries_bounded(nodes, rhs, vo1.0, vo1.1, b);
                    }
                }
            },
            Op::Pow { base, .. } => {
                if base < i {
                    lemma_topo_entries_bounded(nodes, base, v1, order, b);
                }
            },
            Op::Relu { arg, .. } => {
                if arg < i {
                    lemma_topo_entries_bounded(nodes, arg, v1, order, b);
                }
            },
        }
        assert(forall|k: int| 0 <= k < inner.len() ==> (#[trigger] inner[k]) <= b);
        assert(r.1 == inner.push(i));
        assert forall|k: int| 0 <= k < r.1.len() implies (#[trigger] r.1[k]) <= b by {
            assert(r.1[k] == inner.push(i)[k]);
            if k >= inner.len() {
                assert(inner.push(i)[k] == i);
            }
        }
    }
}

/// A backward rule at a node standing at or below `root` leaves the root's
/// gradient untouched: it writes only to operand slots, which stand
/// strictly below the node itself.
pub proof fn lemma_step_keeps_root_grad(nodes: Seq<Node>, i: usize, root: usize)
    requires
        nodes_wf(nodes),
        (i as int) < nodes.len(),
        (root as int) < nodes.len(),
        i <= root,
    ensures
        step_spec(nodes, i)[root as int].grad == nodes[root as int].grad,
{
    assert(node_wf(nodes[i as int], i as int));
    match nodes[i as int].op {
        Op::Leaf => {},
        Op::Add { lhs, rhs } => {
            assert(children_of(nodes[i as int].op)[0] == lhs);
            if lhs != rhs {
                assert(children_of(nodes[i as int].op)[1] == rhs);
            }
        },
        Op::Mul { lhs, rhs, .. } => {
            assert(children_of(nodes[i as int].op)[0] == lhs);
            if lhs != rhs {
                assert(children_of(nodes[i as int].op)[1] == rhs);
            }
        },
        Op::Pow { base, .. } => {
            assert(children_of(nodes[i as int].op)[0] == base);
        },
        Op::Relu { arg, .. } => {
            assert(children_of(nodes[i as int].op)[0] == arg);
        },
    }
}

/// The reverse walk over an ordering of nodes at or below `root` keeps the
/// root's gradient.
pub proof fn lemma_walk_keeps_root_grad(nodes: Seq<Node>, order: Seq<usize>, root: usize)
    requires
        nodes_wf(nodes),
        (root as int) < nodes.len(),
        forall|k: int|
            0 <= k < order.len() ==> (#[trigger] order[k]) <= root && (order[k] as int)
                < nodes.len(),
    ensures
        walk_spec(nodes, order)[root as int].grad == nodes[root as int].grad,
    decreases order.len(),
{
    if order.len() > 0 {
        lemma_step_keeps_root_grad(nodes, order.last(), root);
        lemma_step_preserves(nodes, order.last());
        lemma_walk_keeps_root_grad(step_spec(nodes, order.last()), order.drop_last(), root);
    }
}

/// The backward root always self-grades to one: its gradient is seeded
/// with one, and every rule the reverse walk then applies writes only
/// strictly below its own node, so nothing overwrites the seed.
pub proof fn lemma_root_gradient_is_one(nodes: Seq<Node>, root: usize)
    requires
        nodes_wf(nodes),
        (root as int) < nodes.len(),
    ensures
        backward_spec(nodes, root)[root as int].grad == Scalar::one_spec(),
{
    let order = topo_spec(nodes, root, all_unvisited(nodes.len()), Seq::empty()).1;
    lemma_topo_entries_bounded(
        nodes,
        root,
        all_unvisited(nodes.len()),
        Seq::empty(),
        root,
    );
    let seeded = upd_grad(nodes, root as int, Scalar::one_spec());
    assert forall|j: int| 0 <= j < seeded.len() implies node_wf(#[trigger] seeded[j], j) by {
        assert(node_wf(nodes[j], j));
        assert(seeded[j].op == nodes[j].op);
    }
    lemma_walk_keeps_root_grad(seeded, order, root);
    assert(seeded[root as int].grad == Scalar::one_spec());
}

} // verus!
