use miniature::backprop::GradStep;
use miniature::functions::{
    add, argmax, broadcast, cross_entropy_loss, div, log, log_softmax, matmul, mean, mul, neg, onehot, relu,
    softmax, sub,
};
use miniature::graph::{backward, GradError, Graph};
use miniature::parametric_functions::linear;
use miniature::variable::Variable;
use rand::Rng;

fn random_values(n: usize) -> Vec<f32> {
    let mut rng = rand::thread_rng();
    (0..n).map(|_| rng.gen::<f32>() - 0.5).collect()
}

fn random_variable(g: &mut Graph<f32>, shape: Vec<usize>) -> usize {
    let n: usize = shape.iter().product();
    let x = g.variable(shape);
    g.set_data(x, &random_values(n));
    x
}

fn mul_add(acc: f32, a: f32, b: f32) -> f32 {
    acc + a * b
}

fn sum_step(acc: f32, a: f32, _: f32) -> f32 {
    acc + a
}

fn mean_of(sum: f32, n: usize) -> f32 {
    sum / n as f32
}

fn softmax_row(row: Vec<f32>, log: bool) -> Vec<f32> {
    let max = row.iter().cloned().fold(f32::NEG_INFINITY, f32::max);
    let sum: f32 = row.iter().map(|v| (v - max).exp()).sum();
    row.iter().map(|v| if log { v - max - sum.ln() } else { (v - max).exp() / sum }).collect()
}

fn elem_rule(step: GradStep, acc: f32, a: f32, b: f32, d: f32) -> f32 {
    match step {
        GradStep::AddX | GradStep::AddY | GradStep::SubX | GradStep::Mean => acc + d,
        GradStep::SubY | GradStep::Neg => acc - d,
        GradStep::MulX => acc + b * d,
        GradStep::MulY => acc + a * d,
        GradStep::DivX => acc + d / b,
        GradStep::DivY => acc - a / (b * b) * d,
        GradStep::Square => acc + 2.0 * a * d,
        GradStep::Log => acc + d / a,
        GradStep::ReLu => {
            if a > 0.0 {
                acc + d
            } else {
                acc
            }
        }
    }
}

fn row_grad_rule(log: bool, y: Vec<f32>, d: Vec<f32>, acc: Vec<f32>) -> Vec<f32> {
    if log {
        let sum: f32 = d.iter().sum();
        (0..acc.len()).map(|j| acc[j] + d[j] - y[j].exp() * sum).collect()
    } else {
        let sum: f32 = y.iter().zip(&d).map(|(a, b)| a * b).sum();
        (0..acc.len()).map(|j| acc[j] + y[j] * (d[j] - sum)).collect()
    }
}

fn run_backward(g: &mut Graph<f32>, root: usize) -> Result<Vec<usize>, GradError> {
    backward(g, root, elem_rule, mul_add, mean_of, row_grad_rule)
}

fn assert_eq_close(x: f32, y: f32, atol: f32) {
    if (x - y).abs() > atol {
        panic!("abs({} - {}) = {}", x, y, (x - y).abs());
    }
}

#[test]
fn create_variable() {
    let mut variable = Variable::new(vec![1, 2, 3], 0.0f32);
    assert_eq!(variable.size(), 6);

    variable.data[0] = 1.0;
    variable.fill_data(0.0);
    assert_eq!(variable.data[0], 0.0);

    variable.grad[0] = 1.0;
    variable.fill_grad(0.0);
    assert_eq!(variable.grad[0], 0.0);
}

#[test]
fn add_variables() {
    let mut g = Graph::new(0.0f32, 1.0f32);
    let x = random_variable(&mut g, vec![1, 2, 3]);
    let y = random_variable(&mut g, vec![1, 2, 3]);
    let output = add(&mut g, x, y, |a: f32, b: f32| a + b);
    assert!(run_backward(&mut g, output).is_ok());

    for i in 0..g.vars[x].size() {
        assert_eq!(g.vars[x].data[i] + g.vars[y].data[i], g.vars[output].data[i]);
    }
}

#[test]
fn sub_variables() {
    let mut g = Graph::new(0.0f32, 1.0f32);
    let x = g.variable(vec![1, 2, 3]);
    let y = g.variable(vec![1, 2, 3]);
    let output = sub(&mut g, x, y, |a: f32, b: f32| a - b);
    assert!(run_backward(&mut g, output).is_ok());

    for i in 0..g.vars[x].size() {
        assert_eq!(g.vars[output].data[i], g.vars[x].data[i] - g.vars[y].data[i]);
    }
}

#[test]
fn mod_mul_variables() {
    let mut g = Graph::new(0.0f32, 1.0f32);
    let x = random_variable(&mut g, vec![1, 2, 3]);
    let y = random_variable(&mut g, vec![1, 2, 3]);
    let output = mul(&mut g, x, y, |a: f32, b: f32| a * b);
    assert!(run_backward(&mut g, output).is_ok());

    for i in 0..g.vars[x].size() {
        assert_eq!(g.vars[output].data[i], g.vars[x].data[i] * g.vars[y].data[i]);
    }
}

#[test]
fn mod_div_variables() {
    let mut g = Graph::new(0.0f32, 1.0f32);
    let x = random_variable(&mut g, vec![1, 2, 3]);
    let y = random_variable(&mut g, vec![1, 2, 3]);
    let output = div(&mut g, x, y, |a: f32, b: f32| a / b);
    assert!(run_backward(&mut g, output).is_ok());

    for i in 0..g.vars[x].size() {
        assert_eq!(g.vars[output].data[i], g.vars[x].data[i] / g.vars[y].data[i]);
    }
}

#[test]
fn neg_variables() {
    let mut g = Graph::new(0.0f32, 1.0f32);
    let x = random_variable(&mut g, vec![1, 2, 3]);
    let output = neg(&mut g, x, |a: f32| -a);
    assert!(run_backward(&mut g, output).is_ok());

    for i in 0..g.vars[x].size() {
        assert_eq!(g.vars[output].data[i], -g.vars[x].data[i]);
    }
}

#[test]
fn log_variables() {
    let mut g = Graph::new(0.0f32, 1.0f32);
    let x = random_variable(&mut g, vec![1, 2, 3]);
    let shifted: Vec<f32> = g.vars[x].data.iter().map(|v| v + 1.0).collect();
    g.set_data(x, &shifted);
    let output = log(&mut g, x, |a: f32| a.ln());
    assert!(run_backward(&mut g, output).is_ok());

    for i in 0..g.vars[x].size() {
        assert_eq!(g.vars[output].data[i], g.vars[x].data[i].ln());
    }
}

#[test]
fn relu_variables() {
    let mut g = Graph::new(0.0f32, 1.0f32);
    let x = g.variable(vec![1, 2, 3]);
    let output = relu(&mut g, x, |a: f32| if a > 0.0 { a } else { 0.0 });
    assert!(run_backward(&mut g, output).is_ok());

    for i in 0..g.vars[x].size() {
        if g.vars[x].data[i] > 0.0 {
            assert_eq!(g.vars[output].data[i], g.vars[x].data[i]);
        } else {
            assert_eq!(g.vars[output].data[i], 0.0);
        }
    }
}

#[test]
fn argmax_variables() {
    let mut g = Graph::new(0.0f32, 1.0f32);
    let x = random_variable(&mut g, vec![10, 5]);
    let output = argmax(&mut g, x, |a: f32, b: f32| a > b, |k: usize| k as f32);
    assert_eq!(g.vars[output].shape.len(), 1);
    assert_eq!(g.vars[output].shape[0], 10);

    let x_data = &g.vars[x].data;
    let output_data = &g.vars[output].data;
    for i in 0..g.vars[x].shape[0] {
        let offset = i * g.vars[x].shape[1];
        let mut max = x_data[offset];
        let mut max_index = 0;
        for j in 1..g.vars[x].shape[1] {
            if x_data[j + offset] > max {
                max = x_data[j + offset];
                max_index = j;
            }
        }
        assert_eq!(output_data[i] as usize, max_index);
    }
}

#[test]
fn broadcast_variables() {
    let mut g = Graph::new(0.0f32, 1.0f32);
    let x = random_variable(&mut g, vec![1, 2, 3]);
    let output = broadcast(&mut g, x, vec![3, 2, 3]);
    assert!(run_backward(&mut g, output).is_ok());

    for i in 0..g.vars[output].shape[0] {
        let offset = i * g.vars[x].size();
        for j in 0..g.vars[x].size() {
            assert_eq!(g.vars[output].data[j + offset], g.vars[x].data[j]);
        }
    }
}

#[test]
fn matmul_variables() {
    let mut g = Graph::new(0.0f32, 1.0f32);
    let x = g.variable(vec![2, 2]);
    let y = g.variable(vec![2, 2]);
    g.set_data(x, &[1.0, 0.0, 0.0, 1.0]);
    g.set_data(y, &[1.0, 0.0, 0.0, 1.0]);
    let output = matmul(&mut g, x, y, mul_add);
    let data = &g.vars[output].data;
    assert_eq!(data[0], 1.0);
    assert_eq!(data[1], 0.0);
    assert_eq!(data[2], 0.0);
    assert_eq!(data[3], 1.0);
}

#[test]
fn matmul_backward() {
    let mut g = Graph::new(0.0f32, 1.0f32);
    let x = g.variable(vec![2, 2]);
    let y = g.variable(vec![2, 2]);
    let output = matmul(&mut g, x, y, mul_add);
    assert!(run_backward(&mut g, output).is_ok());
}

#[test]
fn onehot_variables() {
    let mut g = Graph::new(0.0f32, 1.0f32);
    let x = g.variable(vec![10]);
    let mut rng = rand::thread_rng();
    let labels: Vec<usize> = (0..10).map(|_| rng.gen_range(0, 20)).collect();
    let values: Vec<f32> = labels.iter().map(|l| *l as f32).collect();
    g.set_data(x, &values);
    let output = onehot(&mut g, x, &labels, 20);
    assert_eq!(g.vars[output].shape[0], 10);
    assert_eq!(g.vars[output].shape[1], 20);

    for i in 0..g.vars[x].size() {
        let offset = i * 20;
        for j in 0..20 as usize {
            if g.vars[x].data[i] == j as f32 {
                assert_eq!(g.vars[output].data[j + offset], 1.0);
            } else {
                assert_eq!(g.vars[output].data[j + offset], 0.0);
            }
        }
    }
}

#[test]
fn cross_entropy_loss_variables() {
    let mut g = Graph::new(0.0f32, 1.0f32);
    let x = g.variable(vec![32, 10]);
    let y = g.variable(vec![32, 10]);
    let output = cross_entropy_loss(
        &mut g,
        x,
        y,
        |row: Vec<f32>| softmax_row(row, true),
        |a: f32, b: f32| a * b,
        |a: f32| -a,
        sum_step,
        mean_of,
    );
    assert!(run_backward(&mut g, output).is_ok());

    assert_eq!(g.vars[output].shape.len(), 1);
    assert_eq!(g.vars[output].shape[0], 1);
}

#[test]
fn div_div_variables() {
    let mut g = Graph::new(0.0f32, 1.0f32);
    let x = g.variable(vec![1, 2, 3]);
    let y = g.variable(vec![1, 2, 3]);
    g.vars[x].fill_data(1.0);
    g.vars[y].fill_data(1.0);
    let h = div(&mut g, x, y, |a: f32, b: f32| a / b);
    let z = g.variable(vec![1, 2, 3]);
    g.vars[z].fill_data(1.0);
    let output = div(&mut g, h, z, |a: f32, b: f32| a / b);
    assert!(run_backward(&mut g, output).is_ok());
}

#[test]
fn mul_mul_variables() {
    let mut g = Graph::new(0.0f32, 1.0f32);
    let x = g.variable(vec![1, 2, 3]);
    let y = g.variable(vec![1, 2, 3]);
    g.vars[x].fill_data(1.0);
    g.vars[y].fill_data(1.0);
    let h = mul(&mut g, x, y, |a: f32, b: f32| a * b);
    let z = g.variable(vec![1, 2, 3]);
    g.vars[z].fill_data(1.0);
    let output = mul(&mut g, h, z, |a: f32, b: f32| a * b);
    assert!(run_backward(&mut g, output).is_ok());
}

#[test]
fn linear_forward_backward() {
    let mut g = Graph::new(0.0f32, 1.0f32);
    let fc1 = linear(&mut g, 100, 200);
    let fc2 = linear(&mut g, 200, 10);

    let x = random_variable(&mut g, vec![32, 100]);
    let h = fc1.call(&mut g, x, mul_add, |a: f32, b: f32| a + b);
    let output = fc2.call(&mut g, h, mul_add, |a: f32, b: f32| a + b);

    assert_eq!(g.vars[output].shape[0], 32);
    assert_eq!(g.vars[output].shape[1], 10);

    assert!(run_backward(&mut g, output).is_ok());
}

#[test]
fn sgd_update() {
    let mut g = Graph::new(0.0f32, 1.0f32);
    let x = random_variable(&mut g, vec![1, 2, 3]);
    let y = random_variable(&mut g, vec![1, 2, 3]);
    let params = vec![x, y];
    let lr = 0.1f32;

    for &p in &params {
        g.vars[p].fill_grad(0.0);
    }
    for &p in &params {
        let before = g.vars[p].data.clone();
        g.update_data(p, |d: f32, grad: f32| d - lr * grad);
        assert_eq!(g.vars[p].data, before);
    }
}

#[test]
fn mean_variables() {
    let mut g = Graph::new(0.0f32, 1.0f32);
    let x = random_variable(&mut g, vec![1, 2, 3]);
    let output = mean(&mut g, x, sum_step, mean_of);
    assert!(run_backward(&mut g, output).is_ok());

    let mut sum = 0.0;
    for i in 0..g.vars[x].size() {
        sum += g.vars[x].data[i];
    }
    assert_eq!(g.vars[output].data[0], sum / g.vars[x].size() as f32);
}

#[test]
fn softmax_variables() {
    let mut g = Graph::new(0.0f32, 1.0f32);
    let x = random_variable(&mut g, vec![2, 10]);
    let output = softmax(&mut g, x, |row: Vec<f32>| softmax_row(row, false));
    for i in 0..g.vars[output].shape[0] {
        let offset = i * g.vars[output].shape[1];
        let mut sum = 0.0;
        for j in 0..g.vars[output].shape[1] {
            sum += g.vars[output].data[j + offset];
        }
        assert_eq_close(sum, 1.0, 0.01);
    }
    assert!(run_backward(&mut g, output).is_ok());
}

#[test]
fn log_softmax_variables() {
    let mut g = Graph::new(0.0f32, 1.0f32);
    let x = random_variable(&mut g, vec![32, 10]);
    let output = log_softmax(&mut g, x, |row: Vec<f32>| softmax_row(row, true));
    assert!(run_backward(&mut g, output).is_ok());

    let s = softmax(&mut g, x, |row: Vec<f32>| softmax_row(row, false));
    let test_output = log(&mut g, s, |a: f32| a.ln());
    for i in 0..g.vars[output].size() {
        assert_eq_close(g.vars[output].data[i], g.vars[test_output].data[i], 0.001);
    }
}
