use micrograd::modules::Module;
use micrograd::scalar::Scalar;
use micrograd::Graph;
use micrograd::Layer;
use micrograd::Neuron;
use micrograd::NeuronType;
use micrograd::MLP;

#[test]
fn can_create_neuron() {
    let mut g = Graph::new();
    let neuron = Neuron::new(&mut g, 2, NeuronType::ReLU);

    assert_eq!(neuron.w.len(), 2);
    assert_eq!(neuron.parameters().len(), 3);
    assert!(matches!(neuron.ntype, NeuronType::ReLU));
}

#[test]
fn can_create_layer() {
    let mut g = Graph::new();
    let layer = Layer::new(&mut g, 3, 4, NeuronType::Linear);

    assert_eq!(layer.neurons.len(), 4);
    assert_eq!(layer.parameters().len(), 16);
}

#[test]
fn can_create_mlp() {
    let mut g = Graph::new();
    let layer = MLP::new(&mut g, 2, &vec![16, 16, 1]).unwrap();

    assert_eq!(layer.layers.len(), 2 + 1);
    assert_eq!(layer.parameters().len(), 337);
}

#[test]
fn can_process_data_in_neuron() {
    let mut g = Graph::new();
    let w0 = g.leaf(Scalar::from_int(10));
    let w1 = g.leaf(Scalar::from_int(100));
    let b = g.leaf(Scalar::from_int(3));
    let neuron = Neuron { w: vec![w0, w1], b, ntype: NeuronType::Linear };

    let x = vec![g.leaf(Scalar::new(12, 10)), g.leaf(Scalar::new(13, 10))];
    let result = neuron.call(&mut g, &x).unwrap();

    assert_eq!(result.get_data(&g), Scalar::from_int(145));
    assert_eq!(result.get_grad(&g), Scalar::from_int(0));
}

#[test]
fn neuron_rejects_wrong_arity() {
    let mut g = Graph::new();
    let neuron = Neuron::new(&mut g, 2, NeuronType::Linear);
    let x = vec![g.leaf(Scalar::from_int(1))];
    assert!(neuron.call(&mut g, &x).is_none());

    let y = vec![
        g.leaf(Scalar::from_int(1)),
        g.leaf(Scalar::from_int(2)),
        g.leaf(Scalar::from_int(3)),
    ];
    assert!(neuron.call(&mut g, &y).is_none());
}

#[test]
fn mlp_rejects_empty_shape() {
    let mut g = Graph::new();
    assert!(MLP::new(&mut g, 2, &Vec::new()).is_none());
}

#[test]
fn mlp_rejects_wrong_input_width() {
    let mut g = Graph::new();
    let mlp = MLP::new(&mut g, 2, &vec![3, 1]).unwrap();
    let x = vec![
        g.leaf(Scalar::from_int(1)),
        g.leaf(Scalar::from_int(2)),
        g.leaf(Scalar::from_int(3)),
    ];
    assert!(mlp.call(&mut g, &x).is_none());
}

#[test]
fn mlp_feeds_layers_in_order() {
    let mut g = Graph::new();
    let mlp = MLP::new(&mut g, 2, &vec![3, 1]).unwrap();
    let x = vec![g.leaf(Scalar::from_int(1)), g.leaf(Scalar::from_int(2))];
    let out = mlp.call(&mut g, &x).unwrap();
    assert_eq!(out.len(), 1);
    assert!(matches!(mlp.layers[0].neurons[0].ntype, NeuronType::ReLU));
    assert!(matches!(mlp.layers[1].neurons[0].ntype, NeuronType::Linear));
}

#[test]
fn fresh_weights_lie_in_the_unit_range() {
    let mut g = Graph::new();
    let neuron = Neuron::new(&mut g, 5, NeuronType::Linear);
    for k in 0..neuron.w.len() {
        match neuron.w[k].get_data(&g) {
            Scalar::Rat { num, den } => {
                assert!(den >= 1);
                assert!(-den <= num && num <= den);
            },
            Scalar::Undefined => panic!("a weight must be a defined scalar"),
        }
    }
    assert_eq!(neuron.b.get_data(&g), Scalar::from_int(0));
}

#[test]
fn zero_grad_makes_backward_reproducible() {
    let mut g = Graph::new();
    let w0 = g.leaf(Scalar::from_int(2));
    let w1 = g.leaf(Scalar::from_int(-3));
    let b = g.leaf(Scalar::from_int(1));
    let neuron = Neuron { w: vec![w0, w1], b, ntype: NeuronType::Linear };
    let x = vec![g.leaf(Scalar::from_int(5)), g.leaf(Scalar::from_int(7))];

    let y1 = neuron.call(&mut g, &x).unwrap();
    y1.backward(&mut g);
    let params = neuron.parameters();
    let mut first: Vec<Scalar> = Vec::new();
    for k in 0..params.len() {
        first.push(params[k].get_grad(&g));
    }

    neuron.zero_grad(&mut g);
    for k in 0..params.len() {
        assert_eq!(params[k].get_grad(&g), Scalar::from_int(0));
    }

    let y2 = neuron.call(&mut g, &x).unwrap();
    y2.backward(&mut g);
    for k in 0..params.len() {
        assert_eq!(params[k].get_grad(&g), first[k]);
    }
}
