use gas_simulation::distribution::maxwell_boltzmann_2d_pdf;
use gas_simulation::histogram::update_histogram;
use gas_simulation::num::isqrt;
use gas_simulation::thermo::{calculate_entropy, calculate_temperature, ln_milli};

#[test]
fn isqrt_values() {
    assert_eq!(isqrt(0), 0);
    assert_eq!(isqrt(15), 3);
    assert_eq!(isqrt(16), 4);
    assert_eq!(isqrt(1_000_000_000_000), 1_000_000);
}

#[test]
fn temperature_exact_value() {
    // mass * sum(v^2) / (2 * k_B * n) = 4 * 25 / (2 * 2 * 2) = 12.
    let speeds_sq = vec![9u64, 16u64];
    assert_eq!(calculate_temperature(4, 2, &speeds_sq), 12);
}

#[test]
fn temperature_reorder_invariant() {
    let a = vec![4u64, 9u64, 25u64, 25u64];
    let b = vec![25u64, 25u64, 9u64, 4u64];
    assert_eq!(
        calculate_temperature(7, 3, &a),
        calculate_temperature(7, 3, &b)
    );
}

#[test]
fn ln_milli_values() {
    assert_eq!(ln_milli(1), 0);
    assert_eq!(ln_milli(2), 693);
    assert_eq!(ln_milli(3), 693 + 346);
    assert_eq!(ln_milli(8), 3 * 693);
    assert_eq!(ln_milli(1024), 10 * 693);
}

#[test]
fn entropy_exact_value() {
    // n * (2500 + ln(c_den * t) - ln(c_num)) = 2 * (2500 + 2079 - 1039).
    assert_eq!(calculate_entropy(2, 8, 3, 1), 7080);
}

#[test]
fn entropy_grows_with_temperature() {
    let low = calculate_entropy(3, 10, 7, 2);
    let mid = calculate_entropy(3, 50, 7, 2);
    let high = calculate_entropy(3, 5000, 7, 2);
    assert!(low <= mid);
    assert!(mid <= high);
}

#[test]
fn histogram_counts_and_bound() {
    // width 2, bins (0,2), (2,4), (4,6) over speeds; squared speeds 1, 5
    // and 100 land in bins 0, 1 and nowhere (past the top edge).
    let counts = update_histogram(&vec![1u64, 5u64, 100u64], 2, 3);
    assert_eq!(counts, vec![1, 1, 0]);
    assert!(counts.iter().sum::<u64>() <= 3);
}

#[test]
fn histogram_boundary_speed_is_excluded() {
    // A squared speed exactly on the first threshold (speed 2, width 2)
    // falls in no bin: the intervals are open on both ends.
    let counts = update_histogram(&vec![4u64], 2, 2);
    assert_eq!(counts, vec![0, 0]);
}

#[test]
fn histogram_zero_speed_is_excluded() {
    let counts = update_histogram(&vec![0u64], 2, 2);
    assert_eq!(counts, vec![0, 0]);
}

#[test]
fn pdf_zero_speed_is_zero() {
    assert_eq!(maxwell_boltzmann_2d_pdf(0, 1), 0);
}

#[test]
fn pdf_exact_value() {
    // x = 500 milli-nats: octave 0, remainder 500, e = 1000 - 500*500/693
    // = 640; result = 1 * 640 * 1000 / 1.
    assert_eq!(maxwell_boltzmann_2d_pdf(1, 1), 640_000);
}

#[test]
fn pdf_tail_value() {
    // x = 4500 milli-nats: octave 6, remainder 342, e = (1000 - 246) / 64
    // = 11; result = 3 * 11 * 1000 / 1, close to 3 * exp(-4.5) in ppm.
    assert_eq!(maxwell_boltzmann_2d_pdf(3, 1), 33_000);
}
