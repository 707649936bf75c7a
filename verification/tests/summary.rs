use price_sampler::observation::Observation;
use price_sampler::summary::summarize;

fn plus(a: u64, b: u64) -> u64 {
    (f64::from_bits(a) + f64::from_bits(b)).to_bits()
}

fn divide(total: u64, count: usize) -> u64 {
    (f64::from_bits(total) / count as f64).to_bits()
}

fn samples(values: &[f64]) -> Vec<Observation> {
    values.iter().map(|value| Observation::from_bits(value.to_bits()).unwrap()).collect()
}

fn mean(values: &[f64]) -> Option<f64> {
    summarize(&samples(values), plus, divide).map(f64::from_bits)
}

#[test]
fn no_samples_have_no_mean() {
    assert_eq!(summarize(&Vec::new(), plus, divide), None);
    assert_ne!(mean(&[]), Some(0.0));
}

#[test]
fn the_mean_of_zeros_is_zero_and_not_absent() {
    assert_eq!(mean(&[0.0]), Some(0.0));
    assert_eq!(mean(&[0.0, 0.0, 0.0]), Some(0.0));
}

#[test]
fn the_mean_of_one_sample_is_that_sample() {
    for value in [100.0, -3.5, 67321.45, 5e-324, f64::MAX] {
        assert_eq!(mean(&[value]), Some(value));
    }
    assert_eq!(mean(&[-0.0]).map(f64::to_bits), Some((-0.0_f64).to_bits()));
}

#[test]
fn the_mean_is_the_sum_divided_by_the_count() {
    assert_eq!(mean(&[100.0, 101.5, 99.25]), Some(100.25));
    assert_eq!(mean(&[1.0, 2.0]), Some(1.5));
    assert_eq!(mean(&[1.0, 2.0, 3.0, 4.0]), Some(2.5));
    assert_eq!(mean(&[-1.0, 1.0]), Some(0.0));
    assert_eq!(mean(&[0.1, 0.2]), Some((0.1 + 0.2) / 2.0));
}

#[test]
fn the_mean_agrees_with_the_sum_of_an_iterator() {
    let values: Vec<f64> = (0..500).map(|i| 60_000.0 + (i as f64) * 0.37 - ((i % 13) as f64) * 1.01).collect();
    let sum: f64 = values.iter().sum();
    let expected = sum / values.len() as f64;
    assert_eq!(mean(&values), Some(expected));
    let exact: f64 = values.iter().map(|v| v / values.len() as f64).sum();
    assert!((mean(&values).unwrap() - exact).abs() <= 1e-9 * exact.abs());
}

#[test]
fn the_samples_are_summed_in_arrival_order() {
    assert_eq!(mean(&[1e16, 1.0, -1e16]), Some(0.0));
    assert_eq!(mean(&[1e16, -1e16, 1.0]), Some(1.0 / 3.0));
    assert_eq!(mean(&[1.0, 1e16, -1e16]), Some(0.0));
}

#[test]
fn a_sum_that_overflows_gives_an_infinite_mean() {
    assert_eq!(mean(&[f64::MAX, f64::MAX]), Some(f64::INFINITY));
    assert_eq!(mean(&[f64::MIN, f64::MIN]), Some(f64::NEG_INFINITY));
}

#[test]
fn the_operations_are_applied_as_given() {
    let calls = std::cell::RefCell::new(Vec::new());
    let spy_plus = |a: u64, b: u64| {
        calls.borrow_mut().push((a, b));
        a * 10 + b
    };
    let spy_divide = |total: u64, count: usize| total * 100 + count as u64;
    let digits: Vec<Observation> = [1_u64, 2, 3, 4].iter().map(|bits| Observation::from_bits(*bits).unwrap()).collect();
    assert_eq!(summarize(&digits, &spy_plus, &spy_divide), Some(123_404));
    assert_eq!(calls.borrow().as_slice(), &[(1, 2), (12, 3), (123, 4)]);
    let one: Vec<Observation> = vec![Observation::from_bits(9).unwrap()];
    assert_eq!(summarize(&one, &spy_plus, &spy_divide), Some(901));
    assert_eq!(calls.borrow().len(), 3);
}

#[test]
fn generated_samples_have_the_mean_of_their_iterator_sum() {
    let mut state: u64 = 12345;
    for round in 1..300_usize {
        let mut values = Vec::new();
        for _ in 0..(round % 40 + 1) {
            state = state.wrapping_mul(6364136223846793005).wrapping_add(1442695040888963407);
            let value = f64::from_bits(state);
            if value.is_finite() {
                values.push(value);
            }
        }
        if values.is_empty() {
            assert_eq!(mean(&values), None);
            continue;
        }
        let mut sum = values[0];
        for value in &values[1..] {
            sum += value;
        }
        let expected = sum / values.len() as f64;
        assert_eq!(mean(&values).map(f64::to_bits), Some(expected.to_bits()));
    }
}
