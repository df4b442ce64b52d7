use micrograd::scalar::Scalar;
use micrograd::value::add;
use micrograd::value::div;
use micrograd::value::mul;
use micrograd::value::powf;
use micrograd::value::relu;
use micrograd::value::sub;
use micrograd::value::sum;
use micrograd::Graph;

#[test]
fn can_sum_values() {
    let mut g = Graph::new();
    let lhs = g.leaf(Scalar::from_int(3));
    let rhs = g.leaf(Scalar::from_int(2));

    let result1 = add(&mut g, lhs, rhs);
    let result2 = add(&mut g, lhs, rhs);

    assert_eq!(result1.get_data(&g), Scalar::from_int(5));
    assert_eq!(result1.get_op(&g), "add");
    assert_eq!(result1.children(&g).len(), 2);
    assert_eq!(result2.get_data(&g), Scalar::from_int(5));

    let a = g.leaf(Scalar::from_int(3));
    let b = g.leaf(Scalar::from_int(2));
    let result = add(&mut g, a, b);
    assert_eq!(result.get_data(&g), Scalar::from_int(5));
    assert_eq!(result.get_op(&g), "add");

    let c = g.leaf(Scalar::from_int(3));
    let d = g.leaf(Scalar::from_int(2));
    let e = add(&mut g, c, d);
    let f = g.leaf(Scalar::from_int(2));
    let result = add(&mut g, e, f);
    assert_eq!(result.get_data(&g), Scalar::from_int(7));
    assert_eq!(result.get_op(&g), "add");
}

#[test]
fn can_multiply_values() {
    let mut g = Graph::new();
    let lhs = g.leaf(Scalar::from_int(3));
    let rhs = g.leaf(Scalar::from_int(2));

    let result = mul(&mut g, lhs, rhs);

    assert_eq!(result.get_data(&g), Scalar::from_int(6));
    assert_eq!(result.get_op(&g), "mul");
    assert_eq!(result.children(&g).len(), 2);

    let a = g.leaf(Scalar::new(34, 10));
    let b = g.leaf(Scalar::from_int(2));
    let result = mul(&mut g, a, b);
    assert_eq!(result.get_data(&g), Scalar::new(68, 10));
    assert_eq!(result.get_op(&g), "mul");

    let c = g.leaf(Scalar::from_int(2));
    let d = g.leaf(Scalar::new(34, 10));
    let result = mul(&mut g, c, d);
    assert_eq!(result.get_data(&g), Scalar::new(68, 10));
    assert_eq!(result.get_op(&g), "mul");
}

#[test]
fn can_subtract_values() {
    let mut g = Graph::new();
    let lhs = g.leaf(Scalar::from_int(3));
    let rhs = g.leaf(Scalar::from_int(2));

    let result = sub(&mut g, lhs, rhs);
    assert_eq!(result.get_data(&g), Scalar::from_int(1));
    assert_eq!(result.get_op(&g), "sub");
    assert_eq!(result.children(&g).len(), 2);

    let a = g.leaf(Scalar::from_int(3));
    let b = g.leaf(Scalar::from_int(2));
    let result = sub(&mut g, a, b);
    assert_eq!(result.get_data(&g), Scalar::from_int(1));
    assert_eq!(result.get_op(&g), "sub");

    let c = g.leaf(Scalar::from_int(3));
    let d = g.leaf(Scalar::from_int(2));
    let result = sub(&mut g, c, d);
    assert_eq!(result.get_data(&g), Scalar::from_int(1));
    assert_eq!(result.get_op(&g), "sub");
}

#[test]
fn can_divide_values() {
    let mut g = Graph::new();
    let lhs = g.leaf(Scalar::from_int(3));
    let rhs = g.leaf(Scalar::from_int(2));

    let result = div(&mut g, lhs, rhs);

    assert_eq!(result.get_data(&g), Scalar::new(15, 10));
    assert_eq!(result.get_op(&g), "div");
    assert_eq!(result.children(&g).len(), 2);

    let a = g.leaf(Scalar::from_int(5));
    let b = g.leaf(Scalar::from_int(2));
    let result = div(&mut g, a, b);
    assert_eq!(result.get_data(&g), Scalar::new(25, 10));
    assert_eq!(result.get_op(&g), "div");

    let c = g.leaf(Scalar::from_int(5));
    let d = g.leaf(Scalar::from_int(2));
    let result = div(&mut g, c, d);
    assert_eq!(result.get_data(&g), Scalar::new(25, 10));
    assert_eq!(result.get_op(&g), "div");
}

#[test]
fn can_pow_value() {
    let mut g = Graph::new();
    let base = g.leaf(Scalar::from_int(5));
    let result = powf(&mut g, base, 2);
    assert_eq!(result.get_data(&g), Scalar::from_int(25));
    assert_eq!(result.get_op(&g), "pow");
    assert_eq!(result.children(&g).len(), 1);
}

#[test]
fn can_relu_value() {
    let mut g = Graph::new();
    let a = g.leaf(Scalar::from_int(5));
    let result = relu(&mut g, a);
    assert_eq!(result.get_data(&g), Scalar::from_int(5));
    assert_eq!(result.get_op(&g), "relu");
    assert_eq!(result.children(&g).len(), 1);

    let b = g.leaf(Scalar::from_int(-1));
    let result = relu(&mut g, b);
    assert_eq!(result.get_data(&g), Scalar::from_int(0));
    assert_eq!(result.get_op(&g), "relu");
    assert_eq!(result.children(&g).len(), 1);
}

#[test]
fn can_calculate_simple_gradient() {
    let mut g = Graph::new();
    let x = g.leaf(Scalar::from_int(-4));
    let c = g.leaf(Scalar::new(25, 10));
    let z = mul(&mut g, c, x);
    z.backward(&mut g);
    assert_eq!(x.get_grad(&g), Scalar::new(25, 10));
}

#[test]
fn can_calculate_gradient_with_double_borrowing() {
    let mut g = Graph::new();
    let x = g.leaf(Scalar::from_int(-4));
    let z = mul(&mut g, x, x);
    z.backward(&mut g);
    assert_eq!(x.get_grad(&g), Scalar::from_int(-8));

    let x = g.leaf(Scalar::from_int(-4));
    let z = add(&mut g, x, x);
    z.backward(&mut g);
    assert_eq!(x.get_grad(&g), Scalar::from_int(2))
}

#[test]
fn can_calculate_reference_gradients() {
    let mut g = Graph::new();
    let x = g.leaf(Scalar::from_int(-4));
    let two = g.leaf(Scalar::from_int(2));
    let t1 = mul(&mut g, two, x);
    let two2 = g.leaf(Scalar::from_int(2));
    let t2 = add(&mut g, t1, two2);
    let z = add(&mut g, t2, x);
    let rz = relu(&mut g, z);
    let zx = mul(&mut g, z, x);
    let q = add(&mut g, rz, zx);
    let zz = mul(&mut g, z, z);
    let h = relu(&mut g, zz);
    let hq = add(&mut g, h, q);
    let qx = mul(&mut g, q, x);
    let y = add(&mut g, hq, qx);
    y.backward(&mut g);

    assert_eq!(x.get_grad(&g), Scalar::from_int(46));
    assert_eq!(y.get_grad(&g), Scalar::from_int(1));
}

#[test]
fn sum_folds_from_a_zero_leaf() {
    let mut g = Graph::new();
    let xs = vec![
        g.leaf(Scalar::from_int(1)),
        g.leaf(Scalar::from_int(2)),
        g.leaf(Scalar::from_int(3)),
    ];
    let total = sum(&mut g, &xs);
    assert_eq!(total.get_data(&g), Scalar::from_int(6));
    assert_eq!(total.get_op(&g), "add");

    let none: Vec<micrograd::Value> = Vec::new();
    let empty = sum(&mut g, &none);
    assert_eq!(empty.get_data(&g), Scalar::from_int(0));
    assert_eq!(empty.get_op(&g), "");
    assert_eq!(empty.children(&g).len(), 0);
}

#[test]
fn division_by_zero_is_undefined() {
    let mut g = Graph::new();
    let a = g.leaf(Scalar::from_int(1));
    let b = g.leaf(Scalar::from_int(0));
    let q = div(&mut g, a, b);
    assert_eq!(q.get_data(&g), Scalar::Undefined);
}

#[test]
fn negative_exponent_inverts() {
    let mut g = Graph::new();
    let a = g.leaf(Scalar::from_int(5));
    let r = powf(&mut g, a, -1);
    assert_eq!(r.get_data(&g), Scalar::new(1, 5));

    let b = g.leaf(Scalar::new(3, 2));
    let r = powf(&mut g, b, -2);
    assert_eq!(r.get_data(&g), Scalar::new(4, 9));
}

#[test]
fn relu_blocks_gradient_for_negative_input() {
    let mut g = Graph::new();
    let x = g.leaf(Scalar::from_int(-1));
    let y = relu(&mut g, x);
    y.backward(&mut g);
    assert_eq!(x.get_grad(&g), Scalar::from_int(0));
    assert_eq!(y.get_grad(&g), Scalar::from_int(1));
}

#[test]
fn set_data_overwrites_a_leaf() {
    let mut g = Graph::new();
    let x = g.leaf(Scalar::from_int(7));
    x.set_data(&mut g, Scalar::from_int(9));
    assert_eq!(x.get_data(&g), Scalar::from_int(9));
}

#[test]
fn scalar_equality_is_of_values() {
    assert_eq!(Scalar::new(1, 2), Scalar::new(2, 4));
    assert_ne!(Scalar::new(1, 2), Scalar::new(1, 3));
    assert_eq!(Scalar::new(1, -2), Scalar::new(-1, 2));
    assert_eq!(Scalar::Undefined, Scalar::Undefined);
    assert_ne!(Scalar::Undefined, Scalar::from_int(0));
    assert_eq!(Scalar::new(3, 0), Scalar::Undefined);
}
