use miniature::backprop::GradStep;
use miniature::datasets::{parse_images, parse_labels, DatasetError, MNISTLoader};
use miniature::functions::{
    add, argmax, argmax_rows, broadcast, cross_entropy_loss, forward_elementwise2, matmul,
    matmul_fold, mean, mul, neg, onehot, relu, softmax, square, transpose,
};
use miniature::graph::{backward, start_backward, GradError, Graph};
use miniature::ops::{Add, Broadcast, MatMul, Mean, Onehot, Op};
use miniature::parametric_functions::linear;
use miniature::shape::{checked_size, size_of};

fn mul_add(acc: f64, a: f64, b: f64) -> f64 {
    acc + a * b
}

fn sum_step(acc: f64, a: f64, _: f64) -> f64 {
    acc + a
}

fn mean_of(sum: f64, n: usize) -> f64 {
    sum / n as f64
}

fn softmax_row(row: Vec<f64>, log: bool) -> Vec<f64> {
    let max = row.iter().cloned().fold(f64::NEG_INFINITY, f64::max);
    let sum: f64 = row.iter().map(|v| (v - max).exp()).sum();
    row.iter().map(|v| if log { v - max - sum.ln() } else { (v - max).exp() / sum }).collect()
}

fn elem_rule(step: GradStep, acc: f64, a: f64, b: f64, d: f64) -> f64 {
    match step {
        GradStep::AddX | GradStep::AddY | GradStep::SubX | GradStep::Mean => acc + d,
        GradStep::SubY | GradStep::Neg => acc - d,
        GradStep::MulX => acc + b * d,
        GradStep::MulY => acc + a * d,
        GradStep::DivX => acc + d / b,
        GradStep::DivY => acc - a / (b * b) * d,
        GradStep::Square => acc + 2.0 * a * d,
        GradStep::Log => acc + d / a,
        GradStep::ReLu => {
            if a > 0.0 {
                acc + d
            } else {
                acc
            }
        }
    }
}

fn row_grad_rule(log: bool, y: Vec<f64>, d: Vec<f64>, acc: Vec<f64>) -> Vec<f64> {
    if log {
        let sum: f64 = d.iter().sum();
        (0..acc.len()).map(|j| acc[j] + d[j] - y[j].exp() * sum).collect()
    } else {
        let sum: f64 = y.iter().zip(&d).map(|(a, b)| a * b).sum();
        (0..acc.len()).map(|j| acc[j] + y[j] * (d[j] - sum)).collect()
    }
}

fn run_backward(g: &mut Graph<f64>, root: usize) -> Result<Vec<usize>, GradError> {
    backward(g, root, elem_rule, mul_add, mean_of, row_grad_rule)
}

fn close(a: f64, b: f64) -> bool {
    (a - b).abs() < 1e-6
}

#[test]
fn onehot_of_three_over_five_classes() {
    let mut g = Graph::new(0.0f64, 1.0f64);
    let x = g.variable(vec![1]);
    g.set_data(x, &[3.0]);
    let out = onehot(&mut g, x, &vec![3], 5);
    assert_eq!(g.vars[out].shape, vec![1, 5]);
    assert_eq!(g.vars[out].data, vec![0.0, 0.0, 0.0, 1.0, 0.0]);
    assert!(!g.vars[out].need_grad);
    assert!(matches!(run_backward(&mut g, out), Err(GradError::NoGradient(0))));
    assert_eq!(g.vars[out].grad, vec![0.0; 5]);
}

#[test]
fn argmax_of_a_row_and_no_gradient() {
    let mut g = Graph::new(0.0f64, 1.0f64);
    let x = g.variable(vec![1, 3]);
    g.set_data(x, &[0.1, 0.9, 0.2]);
    let out = argmax(&mut g, x, |a: f64, b: f64| a > b, |k: usize| k as f64);
    assert_eq!(g.vars[out].shape, vec![1]);
    assert_eq!(g.vars[out].data, vec![1.0]);
    assert!(!g.vars[out].need_grad);
    assert!(matches!(run_backward(&mut g, out), Err(GradError::NoGradient(0))));
}

#[test]
fn argmax_ties_keep_the_first() {
    assert_eq!(argmax_rows(&vec![0.1f32, 0.9, 0.2], 1, 3, |a: f32, b: f32| a > b), vec![1]);
    assert_eq!(argmax_rows(&vec![2, 5, 5, 1, 7, 7, 7, 0], 2, 4, |a: i32, b: i32| a > b), vec![1, 0]);
}

#[test]
fn sum_gradient_reaches_both_leaves() {
    let mut g = Graph::new(0.0f64, 1.0f64);
    let x = g.variable(vec![2]);
    let y = g.variable(vec![2]);
    g.set_grad(x, &[0.5, -1.0]);
    let z = add(&mut g, x, y, |a: f64, b: f64| a + b);
    assert_eq!(run_backward(&mut g, z).unwrap(), vec![0]);
    assert_eq!(g.vars[x].grad, vec![1.5, 0.0]);
    assert_eq!(g.vars[y].grad, vec![1.0, 1.0]);
}

#[test]
fn two_squares_of_one_leaf() {
    let mut g = Graph::new(0.0f64, 1.0f64);
    let x = g.variable(vec![2]);
    g.set_data(x, &[3.0, -2.0]);
    let a = square(&mut g, x, |v: f64| v * v);
    let b = square(&mut g, x, |v: f64| v * v);
    let z = add(&mut g, a, b, |p: f64, q: f64| p + q);
    assert_eq!(g.vars[z].data, vec![18.0, 8.0]);
    assert_eq!(run_backward(&mut g, z).unwrap(), vec![2, 1, 0]);
    assert_eq!(g.vars[x].grad, vec![12.0, -8.0]);
}

#[test]
fn diamond_runs_each_node_once() {
    let mut g = Graph::new(0.0f64, 1.0f64);
    let x = g.variable(vec![2]);
    g.set_data(x, &[3.0, -2.0]);
    let h = neg(&mut g, x, |v: f64| -v);
    let a = square(&mut g, h, |v: f64| v * v);
    let b = square(&mut g, h, |v: f64| v * v);
    let z = add(&mut g, a, b, |p: f64, q: f64| p + q);
    let order = run_backward(&mut g, z).unwrap();
    assert_eq!(order, vec![3, 2, 1, 0]);
    // each node once: d(2 * (-x)^2)/dx = 4x
    assert_eq!(g.vars[x].grad, vec![12.0, -8.0]);
    assert_eq!(g.vars[h].grad, vec![-12.0, 8.0]);
}

#[test]
fn leaf_used_twice_in_one_node() {
    let mut g = Graph::new(0.0f64, 1.0f64);
    let x = g.variable(vec![2]);
    g.set_data(x, &[3.0, -1.0]);
    let y = mul(&mut g, x, x, |a: f64, b: f64| a * b);
    assert_eq!(run_backward(&mut g, y).unwrap(), vec![0]);
    assert_eq!(g.vars[x].grad, vec![6.0, -2.0]);
}

#[test]
fn backward_from_leaf_does_nothing() {
    let mut g = Graph::new(0.0f64, 1.0f64);
    let x = g.variable(vec![2, 2]);
    assert!(run_backward(&mut g, x).unwrap().is_empty());
    assert_eq!(g.vars[x].grad, vec![0.0; 4]);
}

#[test]
fn cross_entropy_populates_logit_gradients() {
    let mut g = Graph::new(0.0f64, 1.0f64);
    let labels = g.variable(vec![2]);
    let t = onehot(&mut g, labels, &vec![1, 0], 3);
    let x = g.variable(vec![2, 3]);
    g.set_data(x, &[1.0, 2.0, 3.0, 0.0, 0.0, 0.0]);
    let loss = cross_entropy_loss(
        &mut g,
        x,
        t,
        |row: Vec<f64>| softmax_row(row, true),
        |a: f64, b: f64| a * b,
        |a: f64| -a,
        sum_step,
        mean_of,
    );
    assert_eq!(g.vars[loss].shape, vec![1]);
    let order = run_backward(&mut g, loss).unwrap();
    assert_eq!(order, vec![4, 3, 2, 1]);
    // the mean runs over all six elements: the gradient is (softmax(x) - t) / 6
    let p0 = softmax_row(vec![1.0, 2.0, 3.0], false);
    let third = 1.0 / 3.0;
    let want = [p0[0] / 6.0, (p0[1] - 1.0) / 6.0, p0[2] / 6.0, (third - 1.0) / 6.0, third / 6.0, third / 6.0];
    for i in 0..6 {
        assert!(close(g.vars[x].grad[i], want[i]), "{} {}", g.vars[x].grad[i], want[i]);
    }
    let expected_loss = (-(p0[1].ln()) + 3.0f64.ln()) / 6.0;
    assert!(close(g.vars[loss].data[0], expected_loss));
}

#[test]
fn gradient_matches_finite_differences() {
    let f = |v: &[f64]| -> (f64, Vec<f64>) {
        let mut g = Graph::new(0.0f64, 1.0f64);
        let x = g.variable(vec![1, 3]);
        g.set_data(x, v);
        let s = softmax(&mut g, x, |row: Vec<f64>| softmax_row(row, false));
        let w = g.variable(vec![1, 3]);
        g.set_data(w, &[1.0, -2.0, 0.5]);
        let p = mul(&mut g, s, w, |a: f64, b: f64| a * b);
        let q = square(&mut g, p, |a: f64| a * a);
        let m = mean(&mut g, q, sum_step, mean_of);
        run_backward(&mut g, m).unwrap();
        (g.vars[m].data[0], g.vars[x].grad.clone())
    };
    let v = [0.3, -0.7, 1.1];
    let (_, analytic) = f(&v);
    let eps = 1e-6;
    for i in 0..3 {
        let mut up = v;
        up[i] += eps;
        let mut down = v;
        down[i] -= eps;
        let numeric = (f(&up).0 - f(&down).0) / (2.0 * eps);
        assert!((numeric - analytic[i]).abs() < 1e-6, "{} {}", numeric, analytic[i]);
    }
}

#[test]
fn softmax_rows_sum_to_one() {
    let mut g = Graph::new(0.0f64, 1.0f64);
    let x = g.variable(vec![3, 4]);
    g.set_data(x, &[1.0, 2.0, 3.0, 4.0, -1.0, 0.0, 0.0, 5.0, 100.0, 100.0, 100.0, 100.0]);
    let s = softmax(&mut g, x, |row: Vec<f64>| softmax_row(row, false));
    for r in 0..3 {
        let row = &g.vars[s].data[r * 4..r * 4 + 4];
        assert!((row.iter().sum::<f64>() - 1.0).abs() < 0.01);
        assert!(row.iter().all(|v| (0.0..=1.0).contains(v)));
    }
}

#[test]
fn identity_times_identity() {
    let mut g = Graph::new(0.0f64, 1.0f64);
    let x = g.variable(vec![2, 2]);
    let y = g.variable(vec![2, 2]);
    g.set_data(x, &[1.0, 0.0, 0.0, 1.0]);
    g.set_data(y, &[1.0, 0.0, 0.0, 1.0]);
    let out = matmul(&mut g, x, y, mul_add);
    assert_eq!(g.vars[out].data, vec![1.0, 0.0, 0.0, 1.0]);
}

#[test]
fn matmul_forward_and_backward() {
    let mut g = Graph::new(0.0f64, 1.0f64);
    let x = g.variable(vec![1, 1]);
    let y = g.variable(vec![1, 1]);
    g.set_data(x, &[2.0]);
    g.set_data(y, &[3.0]);
    let out = matmul(&mut g, x, y, mul_add);
    assert_eq!(g.vars[out].data, vec![6.0]);
    run_backward(&mut g, out).unwrap();
    assert_eq!(g.vars[x].grad, vec![3.0]);
    assert_eq!(g.vars[y].grad, vec![2.0]);
}

#[test]
fn mean_of_one_value() {
    let mut g = Graph::new(0.0f64, 1.0f64);
    let x = g.variable(vec![1]);
    g.set_data(x, &[4.0]);
    let m = mean(&mut g, x, sum_step, mean_of);
    assert_eq!(g.vars[m].data, vec![4.0]);
}

#[test]
fn broadcast_repeats_each_slice_and_sums_back() {
    let mut g = Graph::new(0.0f64, 1.0f64);
    let x = g.variable(vec![1, 2, 3]);
    g.set_data(x, &[1.0, 2.0, 3.0, 4.0, 5.0, 6.0]);
    let out = broadcast(&mut g, x, vec![3, 2, 3]);
    assert_eq!(g.vars[out].shape, vec![3, 2, 3]);
    let mut want = vec![];
    for _ in 0..3 {
        want.extend_from_slice(&[1.0, 2.0, 3.0, 4.0, 5.0, 6.0]);
    }
    assert_eq!(g.vars[out].data, want);
    let w = g.variable(vec![3, 2, 3]);
    let dout: Vec<f64> = (1..=18).map(|v| v as f64).collect();
    g.set_data(w, &dout);
    let p = mul(&mut g, out, w, |a: f64, b: f64| a * b);
    let m = mean(&mut g, p, sum_step, mean_of);
    run_backward(&mut g, m).unwrap();
    for j in 0..6 {
        let sum = (dout[j] + dout[j + 6] + dout[j + 12]) / 18.0;
        assert!(close(g.vars[x].grad[j], sum));
    }
}

#[test]
fn cross_entropy_records_its_composition() {
    let mut g = Graph::new(0.0f64, 1.0f64);
    let x = g.variable(vec![32, 10]);
    let t = g.variable(vec![32, 10]);
    let loss = cross_entropy_loss(
        &mut g,
        x,
        t,
        |row: Vec<f64>| softmax_row(row, true),
        |a: f64, b: f64| a * b,
        |a: f64| -a,
        sum_step,
        mean_of,
    );
    assert_eq!(loss, 5);
    let names: Vec<&str> = g.nodes.iter().map(|n| n.op.get_name()).collect();
    assert_eq!(names, vec!["LogSoftmax", "Mul", "Neg", "Mean"]);
    assert_eq!(g.nodes[1].inputs, vec![t, 2]);
    assert_eq!(run_backward(&mut g, loss).unwrap(), vec![3, 2, 1, 0]);
}

#[test]
fn start_backward_seeds_and_orders() {
    let mut g = Graph::new(0.0f64, 1.0f64);
    let x = g.variable(vec![2]);
    let a = square(&mut g, x, |v: f64| v * v);
    let b = relu(&mut g, a, |v: f64| if v > 0.0 { v } else { 0.0 });
    assert_eq!(start_backward(&mut g, b).unwrap(), vec![1, 0]);
    assert_eq!(g.vars[b].grad, vec![1.0, 1.0]);
    assert_eq!(g.vars[x].grad, vec![0.0, 0.0]);
}

#[test]
fn elementwise_kernels() {
    let mut g = Graph::new(0.0f32, 1.0f32);
    let x = g.variable(vec![2]);
    let y = g.variable(vec![2]);
    g.set_data(x, &[1.0, 2.0]);
    g.set_data(y, &[3.0, 4.0]);
    let out = mul(&mut g, x, y, |a: f32, b: f32| a * b);
    assert_eq!(g.vars[out].data, vec![3.0, 8.0]);
    forward_elementwise2(&mut g, out, |a: f32, b: f32| a + b);
    assert_eq!(g.vars[out].data, vec![4.0, 6.0]);
}

#[test]
fn transpose_of_two_by_three() {
    assert_eq!(transpose(&vec![1, 2, 3, 4, 5, 6], 2, 3), vec![1, 4, 2, 5, 3, 6]);
    assert_eq!(transpose(&Vec::<i32>::new(), 0, 4), Vec::<i32>::new());
}

#[test]
fn matrix_product_over_a_step() {
    let x = vec![1, 2, 3, 4, 5, 6];
    let y = vec![7, 8, 9, 10, 11, 12];
    let step = |acc: i64, a: i64, b: i64| acc + a * b;
    assert_eq!(matmul_fold(&x, &y, &vec![0; 4], 2, 3, 2, &step), vec![58, 64, 139, 154]);
    assert_eq!(matmul_fold(&x, &y, &vec![1, 1, 1, 1], 2, 3, 2, &step), vec![59, 65, 140, 155]);
    let ordered = |acc: i64, a: i64, b: i64| 10 * acc + a * b;
    assert_eq!(matmul_fold(&vec![1, 2], &vec![3, 4], &vec![0], 1, 2, 1, &ordered), vec![38]);
}

#[test]
fn gradient_descent_step() {
    let mut g = Graph::new(0.0f32, 1.0f32);
    let p = g.variable(vec![1]);
    g.set_data(p, &[1.0]);
    g.set_grad(p, &[2.0]);
    let lr = 0.1f32;
    g.update_data(p, |d: f32, grad: f32| d - lr * grad);
    assert!((g.vars[p].data[0] - 0.8).abs() < 1e-6);
    assert_eq!(g.vars[p].grad, vec![2.0]);
}

#[test]
fn shape_validation() {
    assert!(Add {}.validate(&vec![2, 3], &vec![2, 3], &vec![2, 3]));
    assert!(!Add {}.validate(&vec![2, 3], &vec![3, 2], &vec![2, 3]));
    assert!(MatMul {}.validate(&vec![2, 4], &vec![4, 3], &vec![2, 3]));
    assert!(!MatMul {}.validate(&vec![2, 4], &vec![3, 3], &vec![2, 3]));
    let b = Broadcast { shape: vec![3, 2, 3] };
    assert!(b.validate(&vec![1, 2, 3], &vec![3, 2, 3]));
    assert!(!b.validate(&vec![1, 1, 3], &vec![3, 2, 3]));
    assert!(!b.validate(&vec![3, 2, 3], &vec![3, 2, 3]));
    assert!(Mean {}.validate(&vec![4, 5], &vec![1, 1]));
    assert!(!Mean {}.validate(&vec![4, 5], &vec![2]));
    assert!(Onehot { num_classes: 5 }.validate(&vec![4], &vec![4, 5]));
    assert!(!Onehot { num_classes: 5 }.validate(&vec![4], &vec![4, 6]));
    assert_eq!(Op::Add(Add {}).get_name(), "Add");
    assert!(!Op::Onehot(Onehot { num_classes: 2 }).has_gradient());
}

#[test]
fn sizes() {
    assert_eq!(size_of(&vec![1, 2, 3]), 6);
    assert_eq!(size_of(&vec![]), 1);
    assert_eq!(size_of(&vec![4, 0, 5]), 0);
    assert_eq!(checked_size(&vec![2, 3, 7]), Some(42));
    assert_eq!(checked_size(&vec![usize::MAX, 2]), None);
    assert_eq!(checked_size(&vec![usize::MAX, 2, 0]), Some(0));
}

#[test]
fn linear_layer() {
    let mut g = Graph::new(0.0f64, 1.0f64);
    let fc = linear(&mut g, 2, 3);
    assert_eq!(fc.get_params(), vec![0, 1]);
    assert_eq!(g.vars[fc.weight].shape, vec![2, 3]);
    assert_eq!(g.vars[fc.bias].shape, vec![1, 3]);
    assert_eq!(g.vars[fc.bias].data, vec![0.0; 3]);
    g.set_data(fc.weight, &[1.0, 2.0, 3.0, 4.0, 5.0, 6.0]);
    g.set_data(fc.bias, &[10.0, 20.0, 30.0]);
    let x = g.variable(vec![1, 2]);
    g.set_data(x, &[1.0, 1.0]);
    let out = fc.call(&mut g, x, mul_add, |a: f64, b: f64| a + b);
    assert_eq!(g.vars[out].shape, vec![1, 3]);
    assert_eq!(g.vars[out].data, vec![15.0, 27.0, 39.0]);
    assert_eq!(run_backward(&mut g, out).unwrap(), vec![2, 1, 0]);
    assert_eq!(g.vars[fc.bias].grad, vec![1.0, 1.0, 1.0]);
    assert_eq!(g.vars[fc.weight].grad, vec![1.0; 6]);
}

fn image_file(count: u32, h: u32, w: u32, pixels: &[u8]) -> Vec<u8> {
    let mut b = vec![0, 0, 8, 3];
    b.extend_from_slice(&count.to_be_bytes());
    b.extend_from_slice(&h.to_be_bytes());
    b.extend_from_slice(&w.to_be_bytes());
    b.extend_from_slice(pixels);
    b
}

fn label_file(labels: &[u8]) -> Vec<u8> {
    let mut b = vec![0, 0, 8, 1];
    b.extend_from_slice(&(labels.len() as u32).to_be_bytes());
    b.extend_from_slice(labels);
    b
}

#[test]
fn parse_image_file() {
    let bytes = image_file(2, 1, 2, &[10, 20, 30, 40, 99]);
    let set = parse_images(&bytes).unwrap();
    assert_eq!((set.count, set.height, set.width), (2, 1, 2));
    assert_eq!(set.pixels, vec![10, 20, 30, 40]);
    assert!(matches!(parse_images(&bytes[..10].to_vec()), Err(DatasetError::Header)));
    assert!(matches!(parse_images(&bytes[..19].to_vec()), Err(DatasetError::Truncated)));
    let big = image_file(0x0100_0000, 1, 1, &[]);
    assert!(matches!(parse_images(&big), Err(DatasetError::Truncated)));
}

#[test]
fn parse_label_file() {
    let bytes = label_file(&[7, 2, 1]);
    assert_eq!(parse_labels(&bytes).unwrap(), vec![7, 2, 1]);
    assert!(matches!(parse_labels(&vec![0, 0, 8]), Err(DatasetError::Header)));
    assert!(matches!(parse_labels(&bytes[..10].to_vec()), Err(DatasetError::Truncated)));
}

#[test]
fn loader_batches() {
    let train = image_file(3, 1, 2, &[1, 2, 3, 4, 5, 6]);
    let train_labels = label_file(&[7, 8, 9]);
    let test = image_file(1, 1, 2, &[11, 12]);
    let test_labels = label_file(&[4]);
    let loader = MNISTLoader::new(&train, &train_labels, &test, &test_labels).unwrap();

    let batch = loader.gather(vec![2, 0, 2]);
    assert_eq!(batch.pixels, vec![5, 6, 1, 2, 5, 6]);
    assert_eq!(batch.labels, vec![9, 7, 9]);

    let sample = loader.sample(50);
    assert_eq!(sample.indices.len(), 50);
    for (b, &i) in sample.indices.iter().enumerate() {
        assert!(i < 3);
        assert_eq!(sample.pixels[2 * b], (2 * i + 1) as u8);
        assert_eq!(sample.labels[b], 7 + i as u8);
    }

    let (pixels, labels) = loader.get_test_data();
    assert_eq!(pixels, vec![11, 12]);
    assert_eq!(labels, vec![4]);
}

#[test]
fn loader_accepts_label_counts_that_differ() {
    let train = image_file(3, 1, 2, &[1, 2, 3, 4, 5, 6]);
    let test = image_file(1, 1, 2, &[11, 12]);
    let loader = MNISTLoader::new(&train, &label_file(&[7, 8]), &test, &label_file(&[4, 5])).unwrap();
    assert_eq!(loader.train_labels, vec![7, 8]);
    assert_eq!(loader.test_labels, vec![4, 5]);
}
