use ndkernels::autograd::dot_backwards::DotBackwards;
use ndkernels::autograd::gradient_function::{GradientFunction, Tensor};
use ndkernels::autograd::graph::Graph;
use ndkernels::ndarray::NdArray;
use ndkernels::ops::{Add, Mul, Sub};

fn array<T: Copy>(data: Vec<T>, shape: Vec<usize>) -> NdArray<T> {
    NdArray::contiguous(data, shape).unwrap()
}

fn handle(f: GradientFunction) -> usize {
    match f {
        GradientFunction::Node(j) => j,
        GradientFunction::NoOp => panic!("no node"),
    }
}

fn read<T: Copy>(graph: &Graph<T>, f: GradientFunction) -> Option<(Vec<T>, Vec<usize>)> {
    graph.read_accumulated_gradient(f).map(|g| {
        assert_eq!(g.data.len(), g.shape.iter().product::<usize>());
        (g.data, g.shape)
    })
}

#[test]
fn dot_backwards_new_keeps_operands_and_next_functions() {
    let lhs = Tensor::new(array(vec![2i32, 3], vec![2]), GradientFunction::Node(4));
    let rhs = Tensor::constant(array(vec![4i32, 5, 6, 7], vec![2, 2]));
    let node = DotBackwards::new(&lhs, &rhs);
    assert_eq!(node.lhs.data, vec![2, 3]);
    assert_eq!(node.lhs.shape, vec![2]);
    assert_eq!(node.lhs.stride, vec![1]);
    assert_eq!(node.rhs.data, vec![4, 5, 6, 7]);
    assert_eq!(node.rhs.shape, vec![2, 2]);
    assert_eq!(node.rhs.stride, vec![2, 1]);
    assert_eq!(node.next_functions, [GradientFunction::Node(4), GradientFunction::NoOp]);
    assert_eq!(lhs.grad_fn(), GradientFunction::Node(4));
    assert_eq!(rhs.get_ndarray().data, vec![4, 5, 6, 7]);
}

#[test]
fn dot_backward_sends_each_operand_times_the_gradient_to_the_other_side() {
    let lhs = Tensor::constant(array(vec![2i32, 3], vec![2]));
    let rhs = Tensor::constant(array(vec![4i32, 5], vec![2]));
    let node = DotBackwards::new(&lhs, &rhs);
    let (grad_lhs, grad_rhs) = node.backward::<Mul>(&array(vec![1, 1], vec![2]));
    assert_eq!(grad_lhs.data, vec![4, 5]);
    assert_eq!(grad_lhs.shape, vec![2]);
    assert_eq!(grad_rhs.data, vec![2, 3]);
    assert_eq!(grad_rhs.shape, vec![2]);
    let (grad_lhs, grad_rhs) = node.backward::<Mul>(&array(vec![10, -1], vec![2]));
    assert_eq!(grad_lhs.data, vec![40, -5]);
    assert_eq!(grad_rhs.data, vec![20, -3]);
}

#[test]
fn dot_backward_broadcasts_a_column_against_a_row() {
    let lhs = Tensor::constant(array(vec![1i64], vec![1, 1]));
    let rhs = Tensor::constant(array(vec![2i64, 3, 5], vec![3, 1]));
    let node = DotBackwards::new(&lhs, &rhs);
    let row = array(vec![10i64, 20, 30, 40], vec![1, 4]);
    let (to_lhs, to_rhs) = node.backward::<Mul>(&row);
    assert_eq!(to_lhs.shape, vec![3, 4]);
    assert_eq!(to_lhs.data.len(), 12);
    for i in 0..3 {
        for j in 0..4 {
            assert_eq!(to_lhs.data[i * 4 + j], node.rhs.data[i] * row.data[j]);
        }
    }
    assert_eq!(to_rhs.shape, vec![1, 4]);
    assert_eq!(to_rhs.data, vec![10, 20, 30, 40]);
}

#[test]
fn dot_backward_broadcasts_a_matrix_against_a_column() {
    let lhs = Tensor::constant(array(vec![7i32], vec![]));
    let rhs = Tensor::constant(array(vec![1i32, 2, 3, 4], vec![2, 2]));
    let node = DotBackwards::new(&lhs, &rhs);
    let (to_lhs, to_rhs) = node.backward::<Mul>(&array(vec![10, 20], vec![2, 1]));
    assert_eq!(to_lhs.shape, vec![2, 2]);
    assert_eq!(to_lhs.data, vec![10, 20, 60, 80]);
    assert_eq!(to_rhs.shape, vec![2, 1]);
    assert_eq!(to_rhs.data, vec![70, 140]);
}

#[test]
fn dot_backward_broadcasts_a_one_element_gradient() {
    let lhs = Tensor::constant(array(vec![2i32, 3], vec![2]));
    let rhs = Tensor::constant(array(vec![4i32, 5], vec![2]));
    let node = DotBackwards::new(&lhs, &rhs);
    let (to_lhs, to_rhs) = node.backward::<Mul>(&array(vec![7], vec![1]));
    assert_eq!((to_lhs.data, to_lhs.shape), (vec![28, 35], vec![2]));
    assert_eq!((to_rhs.data, to_rhs.shape), (vec![14, 21], vec![2]));
    let (to_lhs, _) = node.backward::<Mul>(&array(vec![7], vec![]));
    assert_eq!((to_lhs.data, to_lhs.shape), (vec![28, 35], vec![2]));
}

#[test]
fn dot_backward_reads_operands_through_their_strides() {
    // the stored right operand is a 2x3 matrix read as its 3x2 transpose,
    // the gradient repeats one row
    let lhs = Tensor::constant(array(vec![1i32], vec![1]));
    let transposed =
        NdArray { data: vec![1i32, 2, 3, 4, 5, 6], shape: vec![3, 2], stride: vec![1, 3] };
    let rhs = Tensor::constant(transposed);
    let node = DotBackwards::new(&lhs, &rhs);
    let grad = NdArray { data: vec![10i32, 100], shape: vec![3, 2], stride: vec![0, 1] };
    let (to_lhs, to_rhs) = node.backward::<Mul>(&grad);
    assert_eq!(to_lhs.shape, vec![3, 2]);
    assert_eq!(to_lhs.data, vec![10, 400, 20, 500, 30, 600]);
    assert_eq!(to_rhs.shape, vec![3, 2]);
    assert_eq!(to_rhs.data, vec![10, 100, 10, 100, 10, 100]);
}

#[test]
fn dot_backward_with_unit_axes_in_every_position() {
    let lhs = Tensor::constant(array(vec![2i32, 3], vec![1, 2, 1]));
    let rhs = Tensor::constant(array(vec![5i32, 7, 11], vec![3, 1, 1]));
    let node = DotBackwards::new(&lhs, &rhs);
    let (to_lhs, to_rhs) = node.backward::<Mul>(&array(vec![1, 10], vec![1, 1, 2]));
    assert_eq!(to_lhs.shape, vec![3, 1, 2]);
    assert_eq!(to_lhs.data, vec![5, 50, 7, 70, 11, 110]);
    assert_eq!(to_rhs.shape, vec![1, 2, 2]);
    assert_eq!(to_rhs.data, vec![2, 20, 3, 30]);
}

#[test]
fn dot_backward_leaves_the_record_and_the_gradient_unchanged() {
    let lhs = Tensor::new(array(vec![2i32, 3], vec![2, 1]), GradientFunction::Node(0));
    let rhs = Tensor::constant(array(vec![4i32, 5, 6], vec![1, 3]));
    let node = DotBackwards::new(&lhs, &rhs);
    let grad = array(vec![1i32, 2, 3, 4, 5, 6], vec![2, 3]);
    let (first_lhs, first_rhs) = node.backward::<Mul>(&grad);
    let (second_lhs, second_rhs) = node.backward::<Mul>(&grad);
    assert_eq!(first_lhs.data, second_lhs.data);
    assert_eq!(first_lhs.shape, second_lhs.shape);
    assert_eq!(first_rhs.data, second_rhs.data);
    assert_eq!(first_lhs.data, vec![4, 10, 18, 16, 25, 36]);
    assert_eq!(first_rhs.data, vec![2, 4, 6, 12, 15, 18]);
    assert_eq!(node.lhs.data, vec![2, 3]);
    assert_eq!(node.lhs.shape, vec![2, 1]);
    assert_eq!(node.rhs.data, vec![4, 5, 6]);
    assert_eq!(node.rhs.shape, vec![1, 3]);
    assert_eq!(node.next_functions, [GradientFunction::Node(0), GradientFunction::NoOp]);
    assert_eq!(grad.data, vec![1, 2, 3, 4, 5, 6]);
    assert_eq!(grad.shape, vec![2, 3]);
}

#[test]
fn dot_backward_with_another_multiplication() {
    let lhs = Tensor::constant(array(vec![2i32, 3], vec![2]));
    let rhs = Tensor::constant(array(vec![4i32, 5], vec![2]));
    let node = DotBackwards::new(&lhs, &rhs);
    let (to_lhs, to_rhs) = node.backward::<Sub>(&array(vec![1, 1], vec![2]));
    assert_eq!(to_lhs.data, vec![3, 4]);
    assert_eq!(to_rhs.data, vec![1, 2]);
}

#[test]
fn leaf_used_twice_accumulates_both_contributions() {
    let mut graph: Graph<i64> = Graph::new();
    let x = Tensor::new(array(vec![3i64, -4, 5], vec![3]), graph.leaf(vec![3]));
    let square = DotBackwards::new(&x, &x);
    assert!(graph.can_record(&square));
    let y = graph.record_op(square);
    assert_eq!(graph.len(), 2);
    graph.start_backward::<Add, Mul>(handle(y), &array(vec![1, 1, 1], vec![3]));
    assert_eq!(read(&graph, x.grad_fn()), Some((vec![6, -8, 10], vec![3])));
    assert_eq!(read(&graph, y), Some((vec![1, 1, 1], vec![3])));
}

#[test]
fn gradient_is_absent_before_any_backward_pass() {
    let mut graph: Graph<i32> = Graph::new();
    let x = Tensor::new(array(vec![1, 2], vec![2]), graph.leaf(vec![2]));
    let y = graph.record_op(DotBackwards::new(&x, &x));
    assert!(graph.read_accumulated_gradient(x.grad_fn()).is_none());
    assert!(graph.read_accumulated_gradient(y).is_none());
    assert!(graph.read_accumulated_gradient(GradientFunction::NoOp).is_none());
    assert!(graph.read_accumulated_gradient(GradientFunction::Node(99)).is_none());
}

#[test]
fn untracked_operand_receives_nothing() {
    let mut graph: Graph<i32> = Graph::new();
    let k = Tensor::constant(array(vec![10, 20], vec![2]));
    let x = Tensor::new(array(vec![2, 3], vec![2]), graph.leaf(vec![2]));
    let y = graph.record_op(DotBackwards::new(&k, &x));
    graph.start_backward::<Add, Mul>(handle(y), &array(vec![1, 2], vec![2]));
    assert_eq!(read(&graph, x.grad_fn()), Some((vec![10, 40], vec![2])));
    assert_eq!(read(&graph, k.grad_fn()), None);
}

#[test]
fn gradients_flow_through_a_chain() {
    // z = (x * w) * x: dz/dx = 2 x w, dz/dw = x^2
    let mut graph: Graph<i32> = Graph::new();
    let x = Tensor::new(array(vec![2, 3], vec![2]), graph.leaf(vec![2]));
    let w = Tensor::new(array(vec![5, 7], vec![2]), graph.leaf(vec![2]));
    let y = graph.multiply::<Mul>(&x, &w).unwrap();
    assert_eq!(y.ndarray.data, vec![10, 21]);
    let z = graph.record_op(DotBackwards::new(&y, &x));
    graph.start_backward::<Add, Mul>(handle(z), &array(vec![1, 1], vec![2]));
    assert_eq!(read(&graph, y.grad_fn()), Some((vec![2, 3], vec![2])));
    assert_eq!(read(&graph, w.grad_fn()), Some((vec![4, 9], vec![2])));
    assert_eq!(read(&graph, x.grad_fn()), Some((vec![20, 42], vec![2])));
}

#[test]
fn shared_node_propagates_once_with_the_sum_of_its_contributions() {
    // y = x * x; z = y * y: dz/dy = 2 y, dz/dx = 2 y * 2 x = 4 x^3
    let mut graph: Graph<i64> = Graph::new();
    let x = Tensor::new(array(vec![3, -2], vec![2]), graph.leaf(vec![2]));
    let y = graph.multiply::<Mul>(&x, &x).unwrap();
    let z = graph.multiply::<Mul>(&y, &y).unwrap();
    assert_eq!(z.ndarray.data, vec![81, 16]);
    graph.start_backward::<Add, Mul>(handle(z.grad_fn()), &array(vec![1, 1], vec![2]));
    assert_eq!(read(&graph, y.grad_fn()), Some((vec![18, 8], vec![2])));
    assert_eq!(read(&graph, x.grad_fn()), Some((vec![108, -32], vec![2])));
}

#[test]
fn node_waits_for_consumers_outside_the_pass() {
    // y feeds both z and a second consumer recorded later; a pass from z
    // alone leaves y short of one contribution, so y does not propagate
    let mut graph: Graph<i32> = Graph::new();
    let x = Tensor::new(array(vec![2], vec![1]), graph.leaf(vec![1]));
    let k = Tensor::constant(array(vec![3], vec![1]));
    let y = graph.multiply::<Mul>(&x, &k).unwrap();
    let z = graph.multiply::<Mul>(&y, &k).unwrap();
    let other = graph.multiply::<Mul>(&y, &k).unwrap();
    graph.start_backward::<Add, Mul>(handle(z.grad_fn()), &array(vec![1], vec![1]));
    assert_eq!(read(&graph, y.grad_fn()), Some((vec![3], vec![1])));
    assert_eq!(read(&graph, x.grad_fn()), None);
    assert_eq!(read(&graph, other.grad_fn()), None);
}

#[test]
fn each_pass_starts_from_cleared_accumulators() {
    let mut graph: Graph<i32> = Graph::new();
    let x = Tensor::new(array(vec![2, 3], vec![2]), graph.leaf(vec![2]));
    let y = graph.record_op(DotBackwards::new(&x, &x));
    graph.start_backward::<Add, Mul>(handle(y), &array(vec![1, 1], vec![2]));
    graph.start_backward::<Add, Mul>(handle(y), &array(vec![10, 10], vec![2]));
    assert_eq!(read(&graph, x.grad_fn()), Some((vec![40, 60], vec![2])));
}

#[test]
fn backward_from_a_leaf_stores_the_seed() {
    let mut graph: Graph<u8> = Graph::new();
    let x = graph.leaf(vec![3]);
    graph.start_backward::<Add, Mul>(handle(x), &array(vec![7, 8, 9], vec![3]));
    assert_eq!(read(&graph, x), Some((vec![7, 8, 9], vec![3])));
}

#[test]
fn gradients_wrap_like_the_element_type() {
    let mut graph: Graph<u8> = Graph::new();
    let x = Tensor::new(array(vec![200], vec![1]), graph.leaf(vec![1]));
    let y = graph.record_op(DotBackwards::new(&x, &x));
    graph.start_backward::<Add, Mul>(handle(y), &array(vec![1], vec![1]));
    assert_eq!(read(&graph, x.grad_fn()), Some((vec![144], vec![1])));
}

#[test]
fn gradients_of_broadcast_operands_take_the_shape_of_the_seed() {
    // y[i][j] = x[i][0] * w[0][j]; the gradient that reaches x is w,
    // repeated along the rows, times the seed
    let mut graph: Graph<i32> = Graph::new();
    let x = Tensor::new(array(vec![1, 2, 3], vec![3, 1]), graph.leaf(vec![3, 1]));
    let w = Tensor::new(array(vec![10, 20, 30, 40], vec![1, 4]), graph.leaf(vec![1, 4]));
    let y = graph.multiply::<Mul>(&x, &w).unwrap();
    assert_eq!(y.ndarray.shape, vec![3, 4]);
    assert_eq!(y.ndarray.data, vec![10, 20, 30, 40, 20, 40, 60, 80, 30, 60, 90, 120]);
    let seed = array(vec![1, 1, 1, 1, 2, 2, 2, 2, 3, 3, 3, 3], vec![3, 4]);
    graph.start_backward::<Add, Mul>(handle(y.grad_fn()), &seed);
    assert_eq!(
        read(&graph, x.grad_fn()),
        Some((vec![10, 20, 30, 40, 20, 40, 60, 80, 30, 60, 90, 120], vec![3, 4]))
    );
    assert_eq!(
        read(&graph, w.grad_fn()),
        Some((vec![1, 1, 1, 1, 4, 4, 4, 4, 9, 9, 9, 9], vec![3, 4]))
    );
}

#[test]
fn broadcast_operand_used_twice_sums_both_contributions() {
    // y = x * m with x a column; z = y * x
    let mut graph: Graph<i32> = Graph::new();
    let x = Tensor::new(array(vec![2, 3], vec![2, 1]), graph.leaf(vec![2, 1]));
    let m = Tensor::constant(array(vec![1, 2, 3, 4], vec![2, 2]));
    let y = graph.multiply::<Mul>(&x, &m).unwrap();
    assert_eq!(y.ndarray.data, vec![2, 4, 9, 12]);
    let z = graph.multiply::<Mul>(&y, &x).unwrap();
    assert_eq!(z.ndarray.data, vec![4, 8, 27, 36]);
    graph.start_backward::<Add, Mul>(handle(z.grad_fn()), &array(vec![1, 1, 1, 1], vec![2, 2]));
    // dz/dx = y (from z) + m * x (through y) = 2 x m
    assert_eq!(read(&graph, x.grad_fn()), Some((vec![4, 8, 18, 24], vec![2, 2])));
    assert_eq!(read(&graph, y.grad_fn()), Some((vec![2, 2, 3, 3], vec![2, 2])));
}

#[test]
fn operations_that_do_not_fit_the_graph_are_refused() {
    let mut graph: Graph<i32> = Graph::new();
    let x = Tensor::new(array(vec![1, 2], vec![2]), graph.leaf(vec![2]));
    let three = Tensor::constant(array(vec![1, 2, 3], vec![3]));
    let one = Tensor::constant(array(vec![1], vec![1]));
    let wide = Tensor::new(array(vec![1, 2, 3], vec![3]), graph.leaf(vec![3]));
    let dangling = Tensor::new(array(vec![1, 2], vec![2]), GradientFunction::Node(17));
    assert!(!graph.can_record(&DotBackwards::new(&x, &three)));
    assert!(!graph.can_record(&DotBackwards::new(&x, &dangling)));
    let mismatched = DotBackwards {
        next_functions: [x.grad_fn(), wide.grad_fn()],
        lhs: array(vec![1, 2], vec![2]),
        rhs: array(vec![3, 4], vec![2]),
    };
    assert!(!graph.can_record(&mismatched));
    assert!(graph.can_record(&DotBackwards::new(&x, &x)));
    assert!(graph.can_record(&DotBackwards::new(&x, &one)));
    assert!(graph.can_record(&DotBackwards::new(&one, &one)));
}

#[test]
fn forward_product_records_its_backward_function() {
    let mut graph: Graph<i32> = Graph::new();
    let x = Tensor::new(array(vec![2, -3, 4], vec![3]), graph.leaf(vec![3]));
    let w = Tensor::constant(array(vec![5, 6, 7], vec![3]));
    let y = graph.multiply::<Mul>(&x, &w).unwrap();
    assert_eq!(y.ndarray.data, vec![10, -18, 28]);
    assert_eq!(y.grad_fn(), GradientFunction::Node(1));
    let z = graph.multiply::<Mul>(&y, &x).unwrap();
    assert_eq!(z.ndarray.data, vec![20, 54, 112]);
    graph.start_backward::<Add, Mul>(handle(z.grad_fn()), &array(vec![1, 1, 1], vec![3]));
    // z = x * w * x, so dz/dx = 2 x w
    assert_eq!(read(&graph, x.grad_fn()), Some((vec![20, -36, 56], vec![3])));
}

#[test]
fn forward_product_refuses_operands_that_do_not_fit() {
    let mut graph: Graph<i32> = Graph::new();
    let x = Tensor::new(array(vec![1, 2], vec![2]), graph.leaf(vec![2]));
    let three = Tensor::constant(array(vec![1, 2, 3], vec![3]));
    let dangling = Tensor::new(array(vec![1, 2], vec![2]), GradientFunction::Node(9));
    assert!(graph.multiply::<Mul>(&x, &three).is_none());
    assert!(graph.multiply::<Mul>(&dangling, &x).is_none());
    assert_eq!(graph.len(), 1);
    assert!(graph.multiply::<Mul>(&x, &x).is_some());
    assert_eq!(graph.len(), 2);
}

#[test]
fn arrays_are_built_contiguous_or_refused() {
    let a = NdArray::contiguous(vec![1u8, 2, 3, 4, 5, 6], vec![2, 3]).unwrap();
    assert_eq!(a.stride, vec![3, 1]);
    let b = NdArray::contiguous(vec![1u8, 2, 3, 4, 5, 6, 7, 8], vec![2, 2, 2]).unwrap();
    assert_eq!(b.stride, vec![4, 2, 1]);
    let scalar = NdArray::contiguous(vec![9u8], vec![]).unwrap();
    assert_eq!(scalar.stride, Vec::<usize>::new());
    assert!(NdArray::contiguous(vec![1u8, 2, 3], vec![2, 2]).is_none());
    assert!(NdArray::contiguous(vec![1u8], vec![usize::MAX, 2]).is_none());
    assert!(NdArray::contiguous(Vec::<u8>::new(), vec![3, 0]).is_some());
    let copy = a.duplicate();
    assert_eq!((copy.data, copy.shape, copy.stride), (a.data, a.shape, a.stride));
}

#[test]
fn arrays_combine_under_broadcasting() {
    let a = array(vec![1i32, 2, 3, 4], vec![2, 2]);
    let b = array(vec![10i32, 20], vec![2, 1]);
    let product = a.zip::<Mul>(&b).unwrap();
    assert_eq!((product.data, product.shape, product.stride), (vec![10, 20, 60, 80], vec![2, 2], vec![2, 1]));
    let sum = b.zip::<Add>(&a).unwrap();
    assert_eq!(sum.data, vec![11, 12, 23, 24]);
    assert!(a.zip::<Add>(&array(vec![1, 2, 3], vec![3])).is_none());
}

#[test]
fn seed_may_be_larger_than_the_value_of_the_root() {
    let mut graph: Graph<i32> = Graph::new();
    let x = Tensor::new(array(vec![2, 3], vec![2]), graph.leaf(vec![2]));
    let w = Tensor::constant(array(vec![5, 7], vec![2]));
    let y = graph.multiply::<Mul>(&x, &w).unwrap();
    let seed = array(vec![1, 1, 10, 10, 100, 100], vec![3, 2]);
    graph.start_backward::<Add, Mul>(handle(y.grad_fn()), &seed);
    assert_eq!(read(&graph, x.grad_fn()), Some((vec![5, 7, 50, 70, 500, 700], vec![3, 2])));
}

#[test]
fn node_shapes_can_be_read_back() {
    let mut graph: Graph<i32> = Graph::new();
    let x = Tensor::new(array(vec![1, 2, 3], vec![3, 1]), graph.leaf(vec![3, 1]));
    let w = Tensor::constant(array(vec![1, 2], vec![1, 2]));
    let y = graph.multiply::<Mul>(&x, &w).unwrap();
    assert_eq!(graph.node_shape(handle(x.grad_fn())), Some(vec![3, 1]));
    assert_eq!(graph.node_shape(handle(y.grad_fn())), Some(vec![3, 2]));
    assert_eq!(graph.node_shape(2), None);
}

#[test]
fn seed_may_be_smaller_than_the_value_of_the_root() {
    // a one-element seed against two-element operands
    let mut graph: Graph<i32> = Graph::new();
    let k = Tensor::constant(array(vec![4, 5], vec![2]));
    let x = Tensor::new(array(vec![2, 3], vec![2]), graph.leaf(vec![2]));
    let y = graph.multiply::<Mul>(&k, &x).unwrap();
    graph.start_backward::<Add, Mul>(handle(y.grad_fn()), &array(vec![7], vec![1]));
    assert_eq!(read(&graph, x.grad_fn()), Some((vec![28, 35], vec![2])));
    assert_eq!(read(&graph, k.grad_fn()), None);
    assert_eq!(read(&graph, y.grad_fn()), Some((vec![7], vec![1])));
    graph.start_backward::<Add, Mul>(handle(y.grad_fn()), &array(vec![7], vec![]));
    assert_eq!(read(&graph, x.grad_fn()), Some((vec![28, 35], vec![2])));
}

#[test]
fn contributions_of_different_shapes_are_added_under_broadcasting() {
    // y = c * r with c a column and r a row; the seed is a single element,
    // so c receives the row and r receives the column; z = y * c sends c a
    // second contribution of the full shape
    let mut graph: Graph<i32> = Graph::new();
    let c = Tensor::new(array(vec![1, 2], vec![2, 1]), graph.leaf(vec![2, 1]));
    let r = Tensor::new(array(vec![10, 20, 30], vec![1, 3]), graph.leaf(vec![1, 3]));
    let y = graph.multiply::<Mul>(&c, &r).unwrap();
    assert_eq!(y.ndarray.data, vec![10, 20, 30, 20, 40, 60]);
    graph.start_backward::<Add, Mul>(handle(y.grad_fn()), &array(vec![1], vec![1, 1]));
    assert_eq!(read(&graph, c.grad_fn()), Some((vec![10, 20, 30], vec![1, 3])));
    assert_eq!(read(&graph, r.grad_fn()), Some((vec![1, 2], vec![2, 1])));
    let z = graph.multiply::<Mul>(&y, &c).unwrap();
    assert_eq!(z.ndarray.data, vec![10, 20, 30, 40, 80, 120]);
    graph.start_backward::<Add, Mul>(handle(z.grad_fn()), &array(vec![1], vec![1, 1]));
    // y receives c (a column); c receives y (from z) and then r * c (through y)
    assert_eq!(read(&graph, y.grad_fn()), Some((vec![1, 2], vec![2, 1])));
    assert_eq!(read(&graph, c.grad_fn()), Some((vec![20, 40, 60, 40, 80, 120], vec![2, 3])));
    assert_eq!(read(&graph, r.grad_fn()), Some((vec![1, 4], vec![2, 1])));
}

#[test]
fn arrays_are_checked_against_their_buffer() {
    let transposed = NdArray::new(vec![1u8, 2, 3, 4, 5, 6], vec![3, 2], vec![1, 3]).unwrap();
    assert!(transposed.is_valid());
    assert_eq!(transposed.stride, vec![1, 3]);
    assert!(NdArray::new(vec![1u8, 2, 3], vec![2, 2], vec![2, 1]).is_none());
    assert!(NdArray::new(vec![1u8, 2, 3], vec![3], vec![1, 1]).is_none());
    assert!(NdArray::new(vec![7u8], vec![4, 4], vec![0, 0]).is_some());
    let broken = NdArray { data: vec![1u8, 2], shape: vec![3], stride: vec![1] };
    assert!(!broken.is_valid());
}

#[test]
fn operands_that_reach_past_their_buffer_are_refused() {
    let mut graph: Graph<i32> = Graph::new();
    let x = Tensor::new(array(vec![1, 2], vec![2]), graph.leaf(vec![2]));
    let broken = Tensor::constant(NdArray { data: vec![1], shape: vec![2], stride: vec![1] });
    assert!(!graph.can_record(&DotBackwards::new(&x, &broken)));
    assert!(graph.multiply::<Mul>(&broken, &x).is_none());
    assert_eq!(graph.len(), 1);
}
