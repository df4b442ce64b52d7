use crate::scalar::Scalar;
use crate::value::Graph;
use crate::value::Node;
use crate::value::Op;
use crate::value::OpLabel;
use crate::value::Value;
use crate::value::leaf_node;
use vstd::pervasive::VecAdditionalExecFns;
use vstd::prelude::*;

verus! {

/// Denominator of randomly drawn weights: a weight is an exact rational
/// `k / WEIGHT_SCALE` with `k` drawn uniformly from the unit range.
pub const WEIGHT_SCALE: i64 = 1_000_000;

/// The indices of a sequence of handles.
pub open spec fn ids_of(vs: Seq<Value>) -> Seq<usize> {
    vs.map_values(|v: Value| v.id)
}

/// Every index in `ids` stands inside a graph of `n` nodes.
pub open spec fn ids_in(ids: Seq<usize>, n: int) -> bool {
    forall|k: int| 0 <= k < ids.len() ==> (#[trigger] ids[k] as int) < n
}

/// The data carried by each of the given handles.
pub open spec fn datas(nodes: Seq<Node>, vs: Seq<Value>) -> Seq<Scalar> {
    vs.map_values(|v: Value| nodes[v.id as int].data)
}

/// A defined scalar lying in `[-1, 1]`.
pub open spec fn unit_range(s: Scalar) -> bool {
    s is Rat && -s.denom() <= s.numer() <= s.denom()
}

/// A freshly initialized weight node: a leaf with gradient zero whose data
/// is a well-formed scalar in the unit range.
pub open spec fn weight_node(nd: Node) -> bool {
    &&& nd.op == Op::Leaf
    &&& nd.label == OpLabel::Leaf
    &&& nd.grad == Scalar::zero_spec()
    &&& nd.data.wf()
    &&& unit_range(nd.data)
}

/// The common capability set of the network modules: hand out the
/// parameter nodes, and reset their gradients before a new backward pass.
pub trait Module {
    /// The indices of the module's parameter nodes, weights before bias,
    /// neuron-major, then layer-major.
    spec fn param_ids(&self) -> Seq<usize>;

    /// A read view of all parameters, in the deterministic order of
    /// `param_ids`.
    fn parameters(&self) -> (ps: Vec<Value>)
        ensures
            ids_of(ps@) == self.param_ids(),
    ;

    /// Sets the gradient of every parameter node to zero and touches
    /// nothing else; gradients accumulate across backward passes, so this
    /// is required before each new pass.
    fn zero_grad(&self, g: &mut Graph)
        requires
            old(g).wf(),
            ids_in(self.param_ids(), old(g).nodes@.len() as int),
        ensures
            final(g).wf(),
            final(g).nodes@.len() == old(g).nodes@.len(),
            forall|j: int|
                0 <= j < old(g).nodes@.len() ==> (#[trigger] final(g).nodes@[j]).data == old(g).nodes@[j].data && final(g).nodes@[j].op == old(g).nodes@[j].op && final(g).nodes@[j].label == old(g).nodes@[j].label,
            forall|j: usize|
                (j as int) < old(g).nodes@.len() ==> (#[trigger] final(g).nodes@[j as int]).grad
                    == (if self.param_ids().contains(j) {
                    Scalar::zero_spec()
                } else {
                    old(g).nodes@[j as int].grad
                }),
    ;
}

/// Resets the gradient of each listed node to zero.
fn zero_listed_grads(g: &mut Graph, ps: &Vec<Value>)
    requires
        old(g).wf(),
        ids_in(ids_of(ps@), old(g).nodes@.len() as int),
    ensures
        final(g).wf(),
        final(g).nodes@.len() == old(g).nodes@.len(),
        forall|j: int|
            0 <= j < old(g).nodes@.len() ==> (#[trigger] final(g).nodes@[j]).data == old(g).nodes@[j].data && final(g).nodes@[j].op == old(g).nodes@[j].op && final(g).nodes@[j].label == old(g).nodes@[j].label,
        forall|j: usize|
            (j as int) < old(g).nodes@.len() ==> (#[trigger] final(g).nodes@[j as int]).grad == (
            if ids_of(ps@).contains(j) {
                Scalar::zero_spec()
            } else {
                old(g).nodes@[j as int].grad
            }),
{
    let ghost nodes0 = g.nodes@;
    let mut k: usize = 0;
    while k < ps.len()
        invariant
            k <= ps@.len(),
            g.wf(),
            g.nodes@.len() == nodes0.len(),
            ids_in(ids_of(ps@), nodes0.len() as int),
            forall|j: int|
                0 <= j < nodes0.len() ==> (#[trigger] g.nodes@[j]).data == nodes0[j].data
                    && g.nodes@[j].op == nodes0[j].op && g.nodes@[j].label == nodes0[j].label,
            forall|j: usize|
                (j as int) < nodes0.len() ==> #[trigger] node_grad_state(
                    g.nodes@,
                    nodes0,
                    ids_of(ps@),
                    k as int,
                    j,
                ),
        decreases ps@.len() - k,
    {
        proof {
            assert(ids_of(ps@)[k as int] == ps@[k as int].id);
        }
        let id = ps[k].id;
        let ghost old_state = g.nodes@;
        let n = g.nodes[id];
        g.nodes.set(id, Node { grad: Scalar::zero(), ..n });
        proof {
            assert forall|j: usize| (j as int) < nodes0.len() implies #[trigger] node_grad_state(
                g.nodes@,
                nodes0,
                ids_of(ps@),
                (k + 1) as int,
                j,
            ) by {
                assert(node_grad_state(old_state, nodes0, ids_of(ps@), k as int, j));
                if j == id {
                    assert(ids_of(ps@)[k as int] == j);
                }
            }
        }
        k = k + 1;
    }
    proof {
        assert forall|j: usize| (j as int) < nodes0.len() implies (#[trigger] g.nodes@[j as int]).grad
            == (if ids_of(ps@).contains(j) {
            Scalar::zero_spec()
        } else {
            nodes0[j as int].grad
        }) by {
            assert(node_grad_state(g.nodes@, nodes0, ids_of(ps@), ps@.len() as int, j));
            if ids_of(ps@).contains(j) {
                let t = choose|t: int| 0 <= t < ids_of(ps@).len() && ids_of(ps@)[t] == j;
                assert(0 <= t < ps@.len() && ids_of(ps@)[t] == j);
            }
        }
    }
}

/// The gradient at `j` after the first `k` listed nodes were reset.
pub open spec fn node_grad_state(
    nodes: Seq<Node>,
    nodes0: Seq<Node>,
    ids: Seq<usize>,
    k: int,
    j: usize,
) -> bool {
    nodes[j as int].grad == (if (exists|t: int| 0 <= t < k && ids[t] == j) {
        Scalar::zero_spec()
    } else {
        nodes0[j as int].grad
    })
}

/// Relies on rand::random_range over `lo..=hi`: returns a uniform sample
/// from the inclusive range; it panics only on an empty range, which the
/// precondition rules out.
#[verifier::external_body]
fn random_in_range(lo: i64, hi: i64) -> (r: i64)
    requires
        lo <= hi,
    ensures
        lo <= r <= hi,
{
    rand::random_range(lo..=hi)
}

/// Draws a fresh weight uniformly from the exact rationals
/// `-1, ..., -1/WEIGHT_SCALE, 0, 1/WEIGHT_SCALE, ..., 1`.
fn random_weight() -> (r: Scalar)
    ensures
        r.wf(),
        unit_range(r),
{
    let num = random_in_range(-WEIGHT_SCALE, WEIGHT_SCALE);
    Scalar::new(num, WEIGHT_SCALE)
}

/// The activation a neuron applies.
#[derive(Clone, Copy, Debug)]
pub enum NeuronType {
    Linear,
    ReLU,
}

/// One neuron: a weight leaf per input, a bias leaf, and an activation.
#[derive(Debug)]
pub struct Neuron {
    pub w: Vec<Value>,
    pub b: Value,
    pub ntype: NeuronType,
}

/// The data of a neuron's weight nodes, in order.
pub open spec fn weights_data(n: Neuron, nodes: Seq<Node>) -> Seq<Scalar> {
    datas(nodes, n.w@)
}

/// The exact value of the fold `((0 + w0*x0) + w1*x1) + ...`, the order in
/// which the evaluation sums the products.
pub open spec fn dot_fold(ws: Seq<Scalar>, xs: Seq<Scalar>) -> Scalar
    decreases ws.len(),
{
    if ws.len() == 0 || xs.len() == 0 {
        Scalar::zero_spec()
    } else {
        Scalar::add_spec(
            dot_fold(ws.drop_last(), xs.drop_last()),
            Scalar::mul_spec(ws.last(), xs.last()),
        )
    }
}

/// What a neuron's evaluation returns: the activation applied to the
/// folded sum of weighted inputs plus the bias.
pub open spec fn neuron_out(n: Neuron, nodes: Seq<Node>, xs: Seq<Scalar>) -> Scalar {
    let act = Scalar::add_spec(
        dot_fold(weights_data(n, nodes), xs),
        nodes[n.b.id as int].data,
    );
    match n.ntype {
        NeuronType::ReLU => Scalar::relu_spec(act),
        NeuronType::Linear => act,
    }
}

/// A neuron's evaluation reads the graph only at its weight and bias
/// nodes, so extending the graph behind it changes nothing.
pub proof fn lemma_neuron_out_stable(
    n: Neuron,
    nodes1: Seq<Node>,
    nodes2: Seq<Node>,
    xs: Seq<Scalar>,
)
    requires
        nodes1.len() <= nodes2.len(),
        ids_in(n.param_ids(), nodes1.len() as int),
        forall|j: int| 0 <= j < nodes1.len() ==> #[trigger] nodes2[j] == nodes1[j],
    ensures
        neuron_out(n, nodes1, xs) == neuron_out(n, nodes2, xs),
{
    assert forall|k: int| 0 <= k < n.w@.len() implies (#[trigger] n.w@[k]).id
        < nodes1.len() by {
        assert(n.param_ids()[k] == ids_of(n.w@)[k]);
        assert(ids_of(n.w@)[k] == n.w@[k].id);
    }
    assert(n.param_ids()[n.w@.len() as int] == n.b.id);
    assert(weights_data(n, nodes1) =~= weights_data(n, nodes2));
}

/// The data of a set of handles does not change when the graph is extended
/// behind them.
pub proof fn lemma_datas_stable(vs: Seq<Value>, nodes1: Seq<Node>, nodes2: Seq<Node>)
    requires
        nodes1.len() <= nodes2.len(),
        ids_in(ids_of(vs), nodes1.len() as int),
        forall|j: int| 0 <= j < nodes1.len() ==> #[trigger] nodes2[j] == nodes1[j],
    ensures
        datas(nodes1, vs) == datas(nodes2, vs),
{
    assert forall|k: int| 0 <= k < vs.len() implies (#[trigger] vs[k]).id < nodes1.len() by {
        assert(ids_of(vs)[k] == vs[k].id);
    }
    assert(datas(nodes1, vs) =~= datas(nodes2, vs));
}

impl Neuron {
    /// Allocates a neuron with `nin` fresh weight leaves drawn uniformly
    /// from the unit range and a fresh zero bias leaf.
    pub fn new(g: &mut Graph, nin: usize, ntype: NeuronType) -> (n: Neuron)
        requires
            old(g).wf(),
        ensures
            final(g).wf(),
            n.w@.len() == nin,
            n.ntype == ntype,
            final(g).nodes@.len() == old(g).nodes@.len() + nin + 1,
            forall|j: int|
                0 <= j < old(g).nodes@.len() ==> #[trigger] final(g).nodes@[j] == old(g).nodes@[j],
            forall|k: int|
                0 <= k < nin ==> (#[trigger] n.w@[k]).id == old(g).nodes@.len() + k,
            n.b.id == old(g).nodes@.len() + nin,
            forall|k: int|
                0 <= k < nin ==> weight_node(
                    #[trigger] final(g).nodes@[n.w@[k].id as int],
                ),
            final(g).nodes@[n.b.id as int] == leaf_node(Scalar::zero_spec()),
            ids_in(n.param_ids(), final(g).nodes@.len() as int),
    {
        let ghost nodes0 = g.nodes@;
        let mut w: Vec<Value> = Vec::new();
        let mut k: usize = 0;
        while k < nin
            invariant
                k <= nin,
                g.wf(),
                w@.len() == k,
                g.nodes@.len() == nodes0.len() + k,
                forall|j: int| 0 <= j < nodes0.len() ==> #[trigger] g.nodes@[j] == nodes0[j],
                forall|t: int|
                    0 <= t < k ==> (#[trigger] w@[t]).id == nodes0.len() + t,
                forall|t: int|
                    0 <= t < k ==> weight_node(#[trigger] g.nodes@[w@[t].id as int]),
            decreases nin - k,
        {
            let data = random_weight();
            let v = g.leaf(data);
            w.push(v);
            k = k + 1;
        }
        let b = g.leaf(Scalar::zero());
        let n = Neuron { w, b, ntype };
        proof {
            assert forall|k2: int| 0 <= k2 < n.param_ids().len() implies (
            #[trigger] n.param_ids()[k2] as int) < g.nodes@.len() by {
                if k2 < n.w@.len() {
                    assert(n.param_ids()[k2] == ids_of(n.w@)[k2]);
                    assert(ids_of(n.w@)[k2] == n.w@[k2].id);
                } else {
                    assert(n.param_ids()[k2] == n.b.id);
                }
            }
        }
        n
    }

    /// Evaluates the neuron on the given inputs: builds the product,
    /// running-sum, bias and activation nodes in the graph and returns the
    /// output node.  Inputs of the wrong arity are rejected.
    pub fn call(&self, g: &mut Graph, x: &Vec<Value>) -> (r: Option<Value>)
        requires
            old(g).wf(),
            ids_in(self.param_ids(), old(g).nodes@.len() as int),
            ids_in(ids_of(x@), old(g).nodes@.len() as int),
        ensures
            final(g).wf(),
            old(g).nodes@.len() <= final(g).nodes@.len(),
            forall|j: int|
                0 <= j < old(g).nodes@.len() ==> #[trigger] final(g).nodes@[j] == old(g).nodes@[j],
            (r is Some) <==> x@.len() == self.w@.len(),
            r matches Some(v) ==> v.id < final(g).nodes@.len() && final(g).nodes@[v.id as int].data == neuron_out(
                *self,
                old(g).nodes@,
                datas(old(g).nodes@, x@),
            ) && final(g).nodes@[v.id as int].grad
                == Scalar::zero_spec(),
    {
        if x.len() != self.w.len() {
            return None;
        }
        let ghost nodes0 = g.nodes@;
        let ghost xs = datas(nodes0, x@);
        proof {
            assert forall|k: int| 0 <= k < self.w@.len() implies (#[trigger] self.w@[k]).id
                < nodes0.len() by {
                assert(self.param_ids()[k] == ids_of(self.w@)[k]);
                assert(ids_of(self.w@)[k] == self.w@[k].id);
            }
            assert(self.param_ids()[self.w@.len() as int] == self.b.id);
            assert forall|k: int| 0 <= k < x@.len() implies (#[trigger] x@[k]).id
                < nodes0.len() by {
                assert(ids_of(x@)[k] == x@[k].id);
            }
        }
        let mut acc = g.leaf(Scalar::zero());
        let mut k: usize = 0;
        while k < self.w.len()
            invariant
                k <= self.w@.len(),
                self.w@.len() == x@.len(),
                g.wf(),
                acc.id < g.nodes@.len(),
                nodes0.len() <= g.nodes@.len(),
                forall|j: int| 0 <= j < nodes0.len() ==> #[trigger] g.nodes@[j] == nodes0[j],
                forall|k2: int|
                    0 <= k2 < self.w@.len() ==> (#[trigger] self.w@[k2]).id < nodes0.len(),
                forall|k2: int| 0 <= k2 < x@.len() ==> (#[trigger] x@[k2]).id < nodes0.len(),
                self.b.id < nodes0.len(),
                xs == datas(nodes0, x@),
                g.nodes@[acc.id as int].data == dot_fold(
                    weights_data(*self, nodes0).take(k as int),
                    xs.take(k as int),
                ),
            decreases self.w@.len() - k,
        {
            proof {
                assert(weights_data(*self, nodes0)[k as int] == nodes0[self.w@[
                    k as int].id as int].data);
                assert(xs[k as int] == nodes0[x@[k as int].id as int].data);
                assert(weights_data(*self, nodes0).take(k as int + 1).drop_last()
                    =~= weights_data(*self, nodes0).take(k as int));
                assert(xs.take(k as int + 1).drop_last() =~= xs.take(k as int));
            }
            let p = crate::value::mul(g, self.w[k], x[k]);
            acc = crate::value::add(g, acc, p);
            k = k + 1;
        }
        proof {
            assert(weights_data(*self, nodes0).take(self.w@.len() as int) =~= weights_data(
                *self,
                nodes0,
            ));
            assert(xs.take(self.w@.len() as int) =~= xs);
        }
        let act = crate::value::add(g, acc, self.b);
        match self.ntype {
            NeuronType::Linear => Some(act),
            NeuronType::ReLU => Some(crate::value::relu(g, act)),
        }
    }
}

impl Module for Neuron {
    open spec fn param_ids(&self) -> Seq<usize> {
        ids_of(self.w@).push(self.b.id)
    }

    fn parameters(&self) -> (ps: Vec<Value>)
        ensures
            ids_of(ps@) == self.param_ids(),
    {
        let mut ps: Vec<Value> = Vec::new();
        let mut k: usize = 0;
        while k < self.w.len()
            invariant
                k <= self.w@.len(),
                ps@ == self.w@.take(k as int),
            decreases self.w@.len() - k,
        {
            ps.push(self.w[k]);
            k = k + 1;
        }
        proof {
            assert(self.w@.take(self.w@.len() as int) =~= self.w@);
        }
        ps.push(self.b);
        proof {
            assert(ids_of(ps@) =~= self.param_ids());
        }
        ps
    }

    fn zero_grad(&self, g: &mut Graph) {
        let ps = self.parameters();
        zero_listed_grads(g, &ps);
    }
}

/// One layer: an ordered sequence of neurons evaluated on the same inputs.
#[derive(Debug)]
pub struct Layer {
    pub neurons: Vec<Neuron>,
}

/// The parameter indices of a sequence of neurons, in order.
pub open spec fn concat_neuron_ids(ns: Seq<Neuron>) -> Seq<usize>
    decreases ns.len(),
{
    if ns.len() == 0 {
        Seq::empty()
    } else {
        concat_neuron_ids(ns.drop_last()) + ns.last().param_ids()
    }
}

/// What a layer's evaluation returns: one output per neuron, every neuron
/// fed the same inputs.
pub open spec fn layer_out(l: Layer, nodes: Seq<Node>, xs: Seq<Scalar>) -> Seq<Scalar> {
    Seq::new(l.neurons@.len(), |k: int| neuron_out(l.neurons@[k], nodes, xs))
}

pub open spec fn is_relu_neuron(n: Neuron) -> bool {
    n.ntype matches NeuronType::ReLU
}

/// Every neuron of the layer applies the given activation.
pub open spec fn layer_activation(l: Layer, relu: bool) -> bool {
    forall|k: int|
        0 <= k < l.neurons@.len() ==> is_relu_neuron(#[trigger] l.neurons@[k]) == relu
}

impl Layer {
    /// Every neuron of the layer takes `nin` inputs.
    pub open spec fn uniform_arity(self, nin: int) -> bool {
        forall|k: int|
            0 <= k < self.neurons@.len() ==> (#[trigger] self.neurons@[k]).w@.len() == nin
    }

    /// Every neuron's parameters stand inside a graph of `n` nodes.
    pub open spec fn wf_in(self, n: int) -> bool {
        forall|k: int|
            0 <= k < self.neurons@.len() ==> ids_in(
                (#[trigger] self.neurons@[k]).param_ids(),
                n,
            )
    }

    /// Allocates `nout` fresh neurons of `nin` inputs each, all with the
    /// given activation.
    pub fn new(g: &mut Graph, nin: usize, nout: usize, ntype: NeuronType) -> (l: Layer)
        requires
            old(g).wf(),
        ensures
            final(g).wf(),
            l.neurons@.len() == nout,
            l.uniform_arity(nin as int),
            forall|k: int|
                0 <= k < nout ==> (#[trigger] l.neurons@[k]).ntype == ntype,
            l.wf_in(final(g).nodes@.len() as int),
            old(g).nodes@.len() <= final(g).nodes@.len(),
            forall|j: int|
                0 <= j < old(g).nodes@.len() ==> #[trigger] final(g).nodes@[j] == old(
                    g,
                ).nodes@[j],
    {
        let ghost nodes0 = g.nodes@;
        let mut neurons: Vec<Neuron> = Vec::new();
        let mut k: usize = 0;
        while k < nout
            invariant
                k <= nout,
                g.wf(),
                neurons@.len() == k,
                nodes0.len() <= g.nodes@.len(),
                forall|j: int| 0 <= j < nodes0.len() ==> #[trigger] g.nodes@[j] == nodes0[j],
                forall|t: int|
                    0 <= t < k ==> (#[trigger] neurons@[t]).w@.len() == nin,
                forall|t: int| 0 <= t < k ==> (#[trigger] neurons@[t]).ntype == ntype,
                forall|t: int|
                    0 <= t < k ==> ids_in(
                        (#[trigger] neurons@[t]).param_ids(),
                        g.nodes@.len() as int,
                    ),
            decreases nout - k,
        {
            let ghost before = g.nodes@;
            let nu = Neuron::new(g, nin, ntype);
            neurons.push(nu);
            proof {
                assert forall|t: int| 0 <= t < k + 1 implies ids_in(
                    (#[trigger] neurons@[t]).param_ids(),
                    g.nodes@.len() as int,
                ) by {
                    if t < k {
                        assert(ids_in(neurons@[t].param_ids(), before.len() as int));
                    }
                }
            }
            k = k + 1;
        }
        Layer { neurons }
    }

    /// Evaluates every neuron on the same inputs.  Inputs whose length
    /// does not match every neuron's arity are rejected.
    pub fn call(&self, g: &mut Graph, x: &Vec<Value>) -> (r: Option<Vec<Value>>)
        requires
            old(g).wf(),
            self.wf_in(old(g).nodes@.len() as int),
            ids_in(ids_of(x@), old(g).nodes@.len() as int),
        ensures
            final(g).wf(),
            old(g).nodes@.len() <= final(g).nodes@.len(),
            forall|j: int|
                0 <= j < old(g).nodes@.len() ==> #[trigger] final(g).nodes@[j] == old(
                    g,
                ).nodes@[j],
            (r is Some) <==> (forall|k: int|
                0 <= k < self.neurons@.len() ==> (#[trigger] self.neurons@[k]).w@.len()
                    == x@.len()),
            r matches Some(vs) ==> vs@.len() == self.neurons@.len() && ids_in(
                ids_of(vs@),
                final(g).nodes@.len() as int,
            ) && datas(final(g).nodes@, vs@) == layer_out(
                *self,
                old(g).nodes@,
                datas(old(g).nodes@, x@),
            ),
    {
        let ghost nodes0 = g.nodes@;
        let ghost xs = datas(nodes0, x@);
        let mut vs: Vec<Value> = Vec::new();
        let mut k: usize = 0;
        while k < self.neurons.len()
            invariant
                k <= self.neurons@.len(),
                g.wf(),
                vs@.len() == k,
                nodes0 == old(g).nodes@,
                nodes0.len() <= g.nodes@.len(),
                forall|j: int| 0 <= j < nodes0.len() ==> #[trigger] g.nodes@[j] == nodes0[j],
                self.wf_in(nodes0.len() as int),
                ids_in(ids_of(x@), nodes0.len() as int),
                xs == datas(nodes0, x@),
                forall|t: int|
                    0 <= t < k ==> (#[trigger] self.neurons@[t]).w@.len() == x@.len(),
                forall|t: int|
                    0 <= t < k ==> (#[trigger] vs@[t]).id < g.nodes@.len(),
                forall|t: int|
                    0 <= t < k ==> g.nodes@[(#[trigger] vs@[t]).id as int].data == neuron_out(
                        self.neurons@[t],
                        nodes0,
                        xs,
                    ),
            decreases self.neurons@.len() - k,
        {
            let ghost before = g.nodes@;
            proof {
                assert(ids_in(self.neurons@[k as int].param_ids(), nodes0.len() as int));
                assert forall|t: int| 0 <= t < ids_of(x@).len() implies (#[trigger] ids_of(
                    x@,
                )[t] as int) < before.len() by {}
            }
            let res = self.neurons[k].call(g, x);
            match res {
                Option::None => {
                    proof {
                        assert(self.neurons@[k as int].w@.len() != x@.len());
                        assert(nodes0.len() <= before.len());
                        assert forall|j: int| 0 <= j < nodes0.len() implies #[trigger] g.nodes@[j]
                            == nodes0[j] by {
                            assert(g.nodes@[j] == before[j]);
                        }
                    }
                    return None;
                },
                Option::Some(v) => {
                    proof {
                        lemma_neuron_out_stable(self.neurons@[k as int], nodes0, before, xs);
                        lemma_datas_stable(x@, nodes0, before);
                    }
                    vs.push(v);
                },
            }
            k = k + 1;
        }
        proof {
            assert(datas(g.nodes@, vs@) =~= layer_out(*self, nodes0, xs));
        }
        Some(vs)
    }
}

/// A layer's evaluation reads the graph only at its neurons' parameter
/// nodes.
pub proof fn lemma_layer_out_stable(l: Layer, nodes1: Seq<Node>, nodes2: Seq<Node>, xs: Seq<Scalar>)
    requires
        nodes1.len() <= nodes2.len(),
        l.wf_in(nodes1.len() as int),
        forall|j: int| 0 <= j < nodes1.len() ==> #[trigger] nodes2[j] == nodes1[j],
    ensures
        layer_out(l, nodes1, xs) == layer_out(l, nodes2, xs),
{
    assert forall|k: int| 0 <= k < l.neurons@.len() implies neuron_out(
        #[trigger] l.neurons@[k],
        nodes1,
        xs,
    ) == neuron_out(l.neurons@[k], nodes2, xs) by {
        lemma_neuron_out_stable(l.neurons@[k], nodes1, nodes2, xs);
    }
    assert(layer_out(l, nodes1, xs) =~= layer_out(l, nodes2, xs));
}

/// Concatenated parameter indices stay inside the graph.
pub proof fn lemma_concat_ids_in(ns: Seq<Neuron>, n: int)
    requires
        forall|k: int| 0 <= k < ns.len() ==> ids_in((#[trigger] ns[k]).param_ids(), n),
    ensures
        ids_in(concat_neuron_ids(ns), n),
    decreases ns.len(),
{
    if ns.len() > 0 {
        assert forall|k: int| 0 <= k < ns.drop_last().len() implies ids_in(
            (#[trigger] ns.drop_last()[k]).param_ids(),
            n,
        ) by {
            assert(ns.drop_last()[k] == ns[k]);
        }
        lemma_concat_ids_in(ns.drop_last(), n);
        let c = concat_neuron_ids(ns);
        let c1 = concat_neuron_ids(ns.drop_last());
        let p = ns.last().param_ids();
        assert(ids_in(p, n));
        assert forall|k: int| 0 <= k < c.len() implies (#[trigger] c[k] as int) < n by {
            if k < c1.len() {
                assert(c[k] == c1[k]);
            } else {
                assert(c[k] == p[k - c1.len()]);
            }
        }
    }
}

/// The number of parameters of `count` neurons of `nin` inputs each.
pub proof fn lemma_concat_ids_len(ns: Seq<Neuron>, nin: int)
    requires
        forall|k: int| 0 <= k < ns.len() ==> (#[trigger] ns[k]).w@.len() == nin,
        nin >= 0,
    ensures
        concat_neuron_ids(ns).len() == ns.len() * (nin + 1),
    decreases ns.len(),
{
    if ns.len() == 0 {
        assert(0int * (nin + 1) == 0);
    } else {
        assert forall|k: int| 0 <= k < ns.drop_last().len() implies (#[trigger] ns.drop_last()[
            k]).w@.len() == nin by {
            assert(ns.drop_last()[k] == ns[k]);
        }
        lemma_concat_ids_len(ns.drop_last(), nin);
        assert(ns.last().param_ids().len() == nin + 1);
        assert((ns.len() - 1) * (nin + 1) + (nin + 1) == ns.len() * (nin + 1))
            by (nonlinear_arith);
    }
}

impl Module for Layer {
    open spec fn param_ids(&self) -> Seq<usize> {
        concat_neuron_ids(self.neurons@)
    }

    fn parameters(&self) -> (ps: Vec<Value>)
        ensures
            ids_of(ps@) == self.param_ids(),
    {
        let mut ps: Vec<Value> = Vec::new();
        let mut k: usize = 0;
        while k < self.neurons.len()
            invariant
                k <= self.neurons@.len(),
                ids_of(ps@) == concat_neuron_ids(self.neurons@.take(k as int)),
            decreases self.neurons@.len() - k,
        {
            let mut sub = self.neurons[k].parameters();
            proof {
                let taken = self.neurons@.take(k as int + 1);
                assert(taken.drop_last() =~= self.neurons@.take(k as int));
                assert(taken.last() == self.neurons@[k as int]);
                assert(ids_of(ps@ + sub@) =~= ids_of(ps@) + ids_of(sub@));
            }
            ps.append(&mut sub);
            k = k + 1;
        }
        proof {
            assert(self.neurons@.take(self.neurons@.len() as int) =~= self.neurons@);
        }
        ps
    }

    fn zero_grad(&self, g: &mut Graph) {
        let ps = self.parameters();
        zero_listed_grads(g, &ps);
    }
}

/// Multilayer perceptron: an ordered sequence of layers with compatible
/// arities, every layer but the last rectified, the last linear.
#[derive(Debug)]
pub struct MLP {
    pub layers: Vec<Layer>,
}

/// The parameter indices of a sequence of layers, in order.
pub open spec fn concat_layer_ids(ls: Seq<Layer>) -> Seq<usize>
    decreases ls.len(),
{
    if ls.len() == 0 {
        Seq::empty()
    } else {
        concat_layer_ids(ls.drop_last()) + ls.last().param_ids()
    }
}

/// What feeding inputs through a chain of layers returns.
pub open spec fn chain_out(ls: Seq<Layer>, nodes: Seq<Node>, xs: Seq<Scalar>) -> Seq<Scalar>
    decreases ls.len(),
{
    if ls.len() == 0 {
        xs
    } else {
        chain_out(ls.drop_first(), nodes, layer_out(ls.first(), nodes, xs))
    }
}

/// The arities along a chain of layers match an input of width `nin`.
pub open spec fn chain_ok(ls: Seq<Layer>, nin: int) -> bool
    decreases ls.len(),
{
    if ls.len() == 0 {
        true
    } else {
        ls.first().uniform_arity(nin) && chain_ok(
            ls.drop_first(),
            ls.first().neurons@.len() as int,
        )
    }
}

/// The width of what comes out of a chain of layers fed `nin` inputs.
pub open spec fn chain_width(nin: int, ls: Seq<Layer>) -> int {
    if ls.len() == 0 {
        nin
    } else {
        ls.last().neurons@.len() as int
    }
}

/// The arity of layer `j`: the first layer takes the network input, each
/// later one the output of its predecessor.
pub open spec fn mlp_size_at(nin: int, nouts: Seq<usize>, j: int) -> int {
    if j == 0 {
        nin
    } else {
        nouts[j - 1] as int
    }
}

/// The total parameter count of a network of the given shape: each layer
/// contributes one weight per input plus a bias, per neuron.
pub open spec fn mlp_param_count(nin: int, nouts: Seq<usize>) -> int
    decreases nouts.len(),
{
    if nouts.len() == 0 {
        0
    } else {
        let arity = if nouts.len() >= 2 {
            nouts[nouts.len() - 2] as int
        } else {
            nin
        };
        mlp_param_count(nin, nouts.drop_last()) + (nouts.last() as int) * (arity + 1)
    }
}

/// Appending a layer whose arity matches the chain's output width keeps
/// the chain's arities compatible.
pub proof fn lemma_chain_ok_push(ls: Seq<Layer>, l: Layer, nin: int)
    requires
        chain_ok(ls, nin),
        l.uniform_arity(chain_width(nin, ls)),
    ensures
        chain_ok(ls.push(l), nin),
    decreases ls.len(),
{
    if ls.len() == 0 {
        assert(ls.push(l).first() == l);
        assert(ls.push(l).drop_first() =~= Seq::<Layer>::empty());
        assert(chain_ok(Seq::<Layer>::empty(), l.neurons@.len() as int));
        assert(l.uniform_arity(nin));
        assert(chain_ok(ls.push(l), nin));
    } else {
        assert(chain_width(nin, ls) == chain_width(
            ls.first().neurons@.len() as int,
            ls.drop_first(),
        )) by {
            if ls.len() == 1 {
                assert(ls.drop_first().len() == 0);
                assert(ls.last() == ls.first());
            } else {
                assert(ls.drop_first().last() == ls.last());
            }
        }
        lemma_chain_ok_push(ls.drop_first(), l, ls.first().neurons@.len() as int);
        assert(chain_ok(ls.drop_first().push(l), ls.first().neurons@.len() as int));
        assert(ls.push(l).first() == ls.first());
        assert(ls.push(l).drop_first() =~= ls.drop_first().push(l));
        assert(ls.first().uniform_arity(nin));
        assert(chain_ok(ls.push(l), nin));
    }
}

/// Concatenated layer parameter indices stay inside the graph.
pub proof fn lemma_concat_layer_ids_in(ls: Seq<Layer>, n: int)
    requires
        forall|k: int| 0 <= k < ls.len() ==> (#[trigger] ls[k]).wf_in(n),
    ensures
        ids_in(concat_layer_ids(ls), n),
    decreases ls.len(),
{
    if ls.len() > 0 {
        assert forall|k: int| 0 <= k < ls.drop_last().len() implies (#[trigger] ls.drop_last()[
            k]).wf_in(n) by {
            assert(ls.drop_last()[k] == ls[k]);
        }
        lemma_concat_layer_ids_in(ls.drop_last(), n);
        assert forall|k: int| 0 <= k < ls.last().neurons@.len() implies ids_in(
            (#[trigger] ls.last().neurons@[k]).param_ids(),
            n,
        ) by {
            assert(ls.last().wf_in(n));
        }
        lemma_concat_ids_in(ls.last().neurons@, n);
        let c = concat_layer_ids(ls);
        let c1 = concat_layer_ids(ls.drop_last());
        let p = ls.last().param_ids();
        assert forall|k: int| 0 <= k < c.len() implies (#[trigger] c[k] as int) < n by {
            if k < c1.len() {
                assert(c[k] == c1[k]);
            } else {
                assert(c[k] == p[k - c1.len()]);
            }
        }
    }
}

impl MLP {
    /// Every layer's parameters stand inside a graph of `n` nodes.
    pub open spec fn wf_in(self, n: int) -> bool {
        forall|j: int| 0 <= j < self.layers@.len() ==> (#[trigger] self.layers@[j]).wf_in(n)
    }

    /// Allocates a network with `nin` inputs and one layer per entry of
    /// `nouts`, each entry giving the layer's neuron count; every layer
    /// but the last is rectified.  An empty shape is rejected.
    pub fn new(g: &mut Graph, nin: usize, nouts: &Vec<usize>) -> (r: Option<MLP>)
        requires
            old(g).wf(),
        ensures
            final(g).wf(),
            old(g).nodes@.len() <= final(g).nodes@.len(),
            forall|j: int|
                0 <= j < old(g).nodes@.len() ==> #[trigger] final(g).nodes@[j] == old(
                    g,
                ).nodes@[j],
            (r is Some) <==> nouts@.len() > 0,
            r matches Some(m) ==> {
                &&& m.layers@.len() == nouts@.len()
                &&& m.wf_in(final(g).nodes@.len() as int)
                &&& (forall|j: int|
                    0 <= j < nouts@.len() ==> (#[trigger] m.layers@[j]).neurons@.len()
                        == nouts@[j])
                &&& (forall|j: int|
                    0 <= j < nouts@.len() ==> (#[trigger] m.layers@[j]).uniform_arity(
                        mlp_size_at(nin as int, nouts@, j),
                    ))
                &&& (forall|j: int|
                    0 <= j < nouts@.len() - 1 ==> layer_activation(
                        #[trigger] m.layers@[j],
                        true,
                    ))
                &&& layer_activation(m.layers@[nouts@.len() - 1], false)
                &&& chain_ok(m.layers@, nin as int)
                &&& m.param_ids().len() == mlp_param_count(nin as int, nouts@)
            },
    {
        if nouts.len() == 0 {
            return None;
        }
        let ghost nodes0 = g.nodes@;
        let mut layers: Vec<Layer> = Vec::new();
        let mut prev: usize = nin;
        let mut j: usize = 0;
        while j < nouts.len()
            invariant
                0 < nouts@.len(),
                j <= nouts@.len(),
                g.wf(),
                nodes0 == old(g).nodes@,
                nodes0.len() <= g.nodes@.len(),
                forall|t: int| 0 <= t < nodes0.len() ==> #[trigger] g.nodes@[t] == nodes0[t],
                layers@.len() == j,
                prev == mlp_size_at(nin as int, nouts@, j as int),
                forall|t: int|
                    0 <= t < j ==> (#[trigger] layers@[t]).neurons@.len() == nouts@[t],
                forall|t: int|
                    0 <= t < j ==> (#[trigger] layers@[t]).uniform_arity(
                        mlp_size_at(nin as int, nouts@, t),
                    ),
                forall|t: int|
                    0 <= t < j && t < nouts@.len() - 1 ==> layer_activation(
                        #[trigger] layers@[t],
                        true,
                    ),
                forall|t: int|
                    0 <= t < j && t == nouts@.len() - 1 ==> layer_activation(
                        #[trigger] layers@[t],
                        false,
                    ),
                forall|t: int|
                    0 <= t < j ==> (#[trigger] layers@[t]).wf_in(g.nodes@.len() as int),
                chain_ok(layers@, nin as int),
                concat_layer_ids(layers@).len() == mlp_param_count(
                    nin as int,
                    nouts@.take(j as int),
                ),
            decreases nouts@.len() - j,
        {
            let ntype = if j != nouts.len() - 1 {
                NeuronType::ReLU
            } else {
                NeuronType::Linear
            };
            let ghost before = g.nodes@;
            let l = Layer::new(g, prev, nouts[j], ntype);
            proof {
                assert(chain_width(nin as int, layers@) == prev as int);
                lemma_chain_ok_push(layers@, l, nin as int);
                lemma_concat_ids_len(l.neurons@, prev as int);
                assert(l.param_ids().len() == (nouts@[j as int] as int) * (prev as int + 1));
                let taken = nouts@.take(j as int + 1);
                assert(taken.drop_last() =~= nouts@.take(j as int));
                assert(taken.last() == nouts@[j as int]);
                assert(layers@.push(l).drop_last() =~= layers@);
                assert(layers@.push(l).last() == l);
                if j as int + 1 >= 2 {
                    assert(taken[taken.len() - 2] == nouts@[j as int - 1]);
                }
                assert forall|t: int| 0 <= t < j implies (#[trigger] layers@[t]).wf_in(
                    g.nodes@.len() as int,
                ) by {
                    assert(layers@[t].wf_in(before.len() as int));
                    assert forall|k: int| 0 <= k < layers@[t].neurons@.len() implies ids_in(
                        (#[trigger] layers@[t].neurons@[k]).param_ids(),
                        g.nodes@.len() as int,
                    ) by {
                        assert(ids_in(layers@[t].neurons@[k].param_ids(), before.len() as int));
                    }
                }
            }
            layers.push(l);
            prev = nouts[j];
            j = j + 1;
        }
        let m = MLP { layers };
        proof {
            assert(nouts@.take(nouts@.len() as int) =~= nouts@);
        }
        Some(m)
    }

    /// Feeds the inputs through the first layer, then each layer's output
    /// sequence into the next.  Inputs whose width does not match the
    /// chain of arities are rejected; a network without layers returns no
    /// outputs.
    pub fn call(&self, g: &mut Graph, x: &Vec<Value>) -> (r: Option<Vec<Value>>)
        requires
            old(g).wf(),
            self.wf_in(old(g).nodes@.len() as int),
            ids_in(ids_of(x@), old(g).nodes@.len() as int),
        ensures
            final(g).wf(),
            old(g).nodes@.len() <= final(g).nodes@.len(),
            forall|j: int|
                0 <= j < old(g).nodes@.len() ==> #[trigger] final(g).nodes@[j] == old(
                    g,
                ).nodes@[j],
            (r is Some) <==> chain_ok(self.layers@, x@.len() as int),
            r matches Some(vs) ==> ids_in(ids_of(vs@), final(g).nodes@.len() as int),
            self.layers@.len() == 0 ==> (r matches Some(vs) ==> vs@.len() == 0),
            self.layers@.len() > 0 ==> (r matches Some(vs) ==> vs@.len()
                == self.layers@.last().neurons@.len() && datas(final(g).nodes@, vs@)
                == chain_out(self.layers@, old(g).nodes@, datas(old(g).nodes@, x@))),
    {
        if self.layers.len() == 0 {
            return Some(Vec::new());
        }
        let ghost nodes0 = g.nodes@;
        let ghost xs0 = datas(nodes0, x@);
        let mut cur: Vec<Value> = Vec::new();
        let mut k: usize = 0;
        while k < x.len()
            invariant
                k <= x@.len(),
                cur@ == x@.take(k as int),
            decreases x@.len() - k,
        {
            cur.push(x[k]);
            k = k + 1;
        }
        proof {
            assert(x@.take(x@.len() as int) =~= x@);
            assert(ids_of(cur@) == ids_of(x@));
            assert(self.layers@.skip(0) =~= self.layers@);
            assert(datas(g.nodes@, cur@) == xs0);
        }
        let mut j: usize = 0;
        while j < self.layers.len()
            invariant
                0 < self.layers@.len(),
                j <= self.layers@.len(),
                g.wf(),
                nodes0 == old(g).nodes@,
                self.wf_in(nodes0.len() as int),
                nodes0.len() <= g.nodes@.len(),
                forall|t: int| 0 <= t < nodes0.len() ==> #[trigger] g.nodes@[t] == nodes0[t],
                xs0 == datas(nodes0, x@),
                ids_in(ids_of(cur@), g.nodes@.len() as int),
                chain_ok(self.layers@, x@.len() as int) <==> chain_ok(
                    self.layers@.skip(j as int),
                    cur@.len() as int,
                ),
                chain_out(self.layers@, nodes0, xs0) == chain_out(
                    self.layers@.skip(j as int),
                    nodes0,
                    datas(g.nodes@, cur@),
                ),
                j > 0 ==> cur@.len() == self.layers@[j - 1].neurons@.len(),
                j == 0 ==> cur@ == x@,
            decreases self.layers@.len() - j,
        {
            let ghost before = g.nodes@;
            let ghost skipped = self.layers@.skip(j as int);
            proof {
                assert(skipped.first() == self.layers@[j as int]);
                assert(self.layers@[j as int].wf_in(nodes0.len() as int));
                assert forall|k2: int| 0 <= k2 < self.layers@[j as int].neurons@.len() implies
                    ids_in(
                    (#[trigger] self.layers@[j as int].neurons@[k2]).param_ids(),
                    before.len() as int,
                ) by {
                    assert(ids_in(
                        self.layers@[j as int].neurons@[k2].param_ids(),
                        nodes0.len() as int,
                    ));
                }
            }
            let res = self.layers[j].call(g, &cur);
            match res {
                Option::None => {
                    proof {
                        assert(!skipped.first().uniform_arity(cur@.len() as int));
                        assert(!chain_ok(skipped, cur@.len() as int));
                        assert forall|t: int| 0 <= t < nodes0.len() implies #[trigger] g.nodes@[t]
                            == nodes0[t] by {
                            assert(g.nodes@[t] == before[t]);
                        }
                    }
                    return None;
                },
                Option::Some(next) => {
                    proof {
                        let d_in = datas(before, cur@);
                        lemma_layer_out_stable(self.layers@[j as int], nodes0, before, d_in);
                        assert(datas(g.nodes@, next@) == layer_out(
                            self.layers@[j as int],
                            nodes0,
                            d_in,
                        ));
                        assert(skipped.drop_first() =~= self.layers@.skip(j as int + 1));
                        assert(chain_out(skipped, nodes0, d_in) == chain_out(
                            skipped.drop_first(),
                            nodes0,
                            layer_out(skipped.first(), nodes0, d_in),
                        ));
                        assert(chain_ok(skipped, cur@.len() as int) == chain_ok(
                            skipped.drop_first(),
                            skipped.first().neurons@.len() as int,
                        ));
                    }
                    cur = next;
                },
            }
            j = j + 1;
        }
        proof {
            let done = self.layers@.skip(self.layers@.len() as int);
            assert(done =~= Seq::<Layer>::empty());
            assert(chain_ok(done, cur@.len() as int));
            assert(chain_out(done, nodes0, datas(g.nodes@, cur@)) == datas(g.nodes@, cur@));
            assert(self.layers@[self.layers@.len() - 1] == self.layers@.last());
        }
        Some(cur)
    }
}

impl Module for MLP {
    open spec fn param_ids(&self) -> Seq<usize> {
        concat_layer_ids(self.layers@)
    }

    fn parameters(&self) -> (ps: Vec<Value>)
        ensures
            ids_of(ps@) == self.param_ids(),
    {
        let mut ps: Vec<Value> = Vec::new();
        let mut k: usize = 0;
        while k < self.layers.len()
            invariant
                k <= self.layers@.len(),
                ids_of(ps@) == concat_layer_ids(self.layers@.take(k as int)),
            decreases self.layers@.len() - k,
        {
            let mut sub = self.layers[k].parameters();
            proof {
                let taken = self.layers@.take(k as int + 1);
                assert(taken.drop_last() =~= self.layers@.take(k as int));
                assert(taken.last() == self.layers@[k as int]);
                assert(ids_of(ps@ + sub@) =~= ids_of(ps@) + ids_of(sub@));
            }
            ps.append(&mut sub);
            k = k + 1;
        }
        proof {
            assert(self.layers@.take(self.layers@.len() as int) =~= self.layers@);
        }
        ps
    }

    fn zero_grad(&self, g: &mut Graph) {
        let ps = self.parameters();
        zero_listed_grads(g, &ps);
    }
}

} // verus!
