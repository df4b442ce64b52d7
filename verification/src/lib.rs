pub mod laws;
pub mod modules;
pub mod scalar;
pub mod value;

pub use modules::Layer;
pub use modules::Module;
pub use modules::Neuron;
pub use modules::NeuronType;
pub use modules::MLP;
pub use scalar::Scalar;
pub use value::Graph;
pub use value::Node;
pub use value::Op;
pub use value::OpLabel;
pub use value::Value;

use vstd::prelude::*;

verus! {

/// Allocates a fresh leaf node carrying the given value.
pub fn new_value(g: &mut Graph, data: Scalar) -> (v: Value)
    requires
        old(g).wf(),
        data.wf(),
    ensures
        final(g).wf(),
        v.id == old(g).nodes@.len(),
        final(g).nodes@ == old(g).nodes@.push(value::leaf_node(data)),
{
    g.leaf(data)
}

/// Allocates a multilayer perceptron of the given shape; an empty shape is
/// rejected.
pub fn new_mlp(g: &mut Graph, nin: usize, nouts: &Vec<usize>) -> (r: Option<MLP>)
    requires
        old(g).wf(),
    ensures
        final(g).wf(),
        old(g).nodes@.len() <= final(g).nodes@.len(),
        forall|j: int|
            0 <= j < old(g).nodes@.len() ==> #[trigger] final(g).nodes@[j] == old(g).nodes@[j],
        (r is Some) <==> nouts@.len() > 0,
        r matches Some(m) ==> m.layers@.len() == nouts@.len() && m.param_ids().len()
            == modules::mlp_param_count(nin as int, nouts@),
{
    MLP::new(g, nin, nouts)
}

} // verus!
