use quantum_simulator::bits::{is_power_of_two, log2, test_bit, flip_bit};
use quantum_simulator::error::SimError;
use quantum_simulator::gates::{cnot, h};
use quantum_simulator::scalar::{
    apart, distance, dot, norm_squared, normalized, tolerance, within_tolerance, Scalar,
};
use quantum_simulator::state_vector::{check_valid, QuantumStateVector};
use quantum_simulator::text::basis_label;
use rand::distr::{Distribution, StandardUniform};
use rand::Rng;

/// Double-precision amplitudes.
#[derive(Clone, Copy, Debug, PartialEq)]
struct R(f64);

impl Scalar for R {
    fn from_u32(n: u32) -> Self {
        R(n as f64)
    }

    fn plus(self, rhs: Self) -> Self {
        R(self.0 + rhs.0)
    }

    fn minus(self, rhs: Self) -> Self {
        R(self.0 - rhs.0)
    }

    fn times(self, rhs: Self) -> Self {
        R(self.0 * rhs.0)
    }

    fn over(self, rhs: Self) -> Self {
        R(self.0 / rhs.0)
    }

    fn neg(self) -> Self {
        R(-self.0)
    }

    fn abs(self) -> Self {
        R(self.0.abs())
    }

    fn sqrt(self) -> Self {
        R(self.0.sqrt())
    }

    fn less_than(self, rhs: Self) -> bool {
        self.0 < rhs.0
    }

    fn at_least(self, rhs: Self) -> bool {
        self.0 >= rhs.0
    }

    fn show(self, decimals: usize) -> String {
        format!("{:.*}", decimals, self.0)
    }
}

fn amplitudes(values: &[f64]) -> Vec<R> {
    values.iter().map(|v| R(*v)).collect()
}

fn state(values: &[f64]) -> QuantumStateVector<R> {
    QuantumStateVector::new(&amplitudes(values)).unwrap()
}

fn values(psi: &QuantumStateVector<R>) -> Vec<f64> {
    psi.amplitudes().iter().map(|a| a.0).collect()
}

impl Distribution<R> for StandardUniform {
    fn sample<G: Rng + ?Sized>(&self, rng: &mut G) -> R {
        R(rng.random::<f64>())
    }
}

#[test]
fn test_valid_qsv() {
    let x = 1.0_f64 / (2.0_f64).sqrt();
    let _psi = QuantumStateVector::new(&[R(x), R(x)]).unwrap();
}

#[test]
#[should_panic]
fn test_invalid_qsv() {
    let x = 1.0_f64 / (2.0_f64).sqrt();
    let _psi = QuantumStateVector::new(&[R(x), R(x), R(x)]).unwrap();
}

#[test]
fn quantum_state_vector_test_valid_qsv() {
    let x = 1.0_f64 / (2.0_f64).sqrt();
    let _psi = QuantumStateVector::new(&[R(x), R(x)]).unwrap();
}

#[test]
#[should_panic]
fn quantum_state_vector_test_invalid_qsv() {
    let x = 1.0_f64 / (2.0_f64).sqrt();
    let _psi = QuantumStateVector::new(&[R(x), R(x), R(x)]).unwrap();
}

#[test]
fn test_measure_00() {
    let psi = state(&[1.0, 0.0, 0.0, 0.0]); // |00>
    let (bit, psi) = psi.measure(0).unwrap();
    assert_eq!(bit, 0);
    assert!(psi.approx_eq(&state(&[1.0, 0.0, 0.0, 0.0]))); // |00>
}

#[test]
fn test_measure_01() {
    let psi = state(&[0.0, 1.0, 0.0, 0.0]); // |01>
    let (bit, psi) = psi.measure(0).unwrap();
    assert_eq!(bit, 1);
    assert!(psi.approx_eq(&state(&[0.0, 1.0, 0.0, 0.0]))); // |01>
}

#[test]
fn test_measure_bell() {
    for _ in 0..10 {
        let psi = state(&[1.0, 0.0, 0.0, 0.0]); // |00>
        let psi = h(psi, 1).unwrap();
        let psi = cnot(psi, 1, 0).unwrap();
        let (bit1, psi) = psi.measure(1).unwrap();

        let (bit2, _) = psi.measure(0).unwrap();
        assert_eq!(bit1, bit2)
    }
}

#[test]
fn test_cnot_control0_target1_distinct() {
    let psi = state(&[
        0.619, // |00>
        0.309, // |01>
        0.722, // |10>
        0.008, // |11>
    ]);

    let psi = psi.cnot(0, 1).unwrap();

    assert_eq!(
        psi.into_amplitudes(),
        amplitudes(&[
            0.619, // |00>
            0.008, // |11>
            0.722, // |10>
            0.309, // |01>
        ])
    );
}

#[test]
fn states_that_are_not_normalized_are_rejected() {
    assert_eq!(
        QuantumStateVector::new(&[R(1.0), R(1.0)]).err(),
        Some(SimError::InvalidState)
    );
    assert_eq!(
        QuantumStateVector::from_vec(amplitudes(&[0.5, 0.5, 0.5, 0.4])).err(),
        Some(SimError::InvalidState)
    );
    assert_eq!(
        QuantumStateVector::new(&[R(f64::NAN), R(0.0)]).err(),
        Some(SimError::InvalidState)
    );
}

#[test]
fn states_whose_length_is_no_power_of_two_are_rejected() {
    assert_eq!(
        QuantumStateVector::new(&[R(0.0), R(1.0), R(1.0)]).err(),
        Some(SimError::InvalidState)
    );
    assert_eq!(
        QuantumStateVector::new(&[R(1.0), R(0.0), R(0.0)]).err(),
        Some(SimError::InvalidState)
    );
    assert_eq!(
        QuantumStateVector::<R>::from_vec(vec![]).err(),
        Some(SimError::InvalidState)
    );
}

#[test]
fn the_norm_may_miss_one_by_less_than_the_tolerance() {
    // 1.0004 and 0.9996 squared are within 1/1000 of 1; 1.0005 squared is not.
    assert!(QuantumStateVector::new(&[R(1.0004), R(0.0)]).is_ok());
    assert!(QuantumStateVector::new(&[R(0.9996), R(0.0)]).is_ok());
    assert!(QuantumStateVector::new(&[R(1.0005), R(0.0)]).is_err());
    assert!(QuantumStateVector::new(&[R(0.9994), R(0.0)]).is_err());
}

#[test]
fn a_register_without_qubits_has_one_amplitude() {
    let psi = state(&[1.0]);
    assert_eq!(psi.len(), 1);
    assert_eq!(psi.qubits(), 0);
    assert_eq!(psi.to_string(), "\u{3c8} = (1.00000)|0>   ");
}

#[test]
fn length_and_qubits_are_counted() {
    let psi = state(&[0.0, 0.0, 0.0, 0.0, 0.0, 1.0, 0.0, 0.0]);
    assert_eq!(psi.len(), 8);
    assert_eq!(psi.qubits(), 3);
    assert_eq!(values(&psi), vec![0.0, 0.0, 0.0, 0.0, 0.0, 1.0, 0.0, 0.0]);
}

#[test]
fn a_state_is_one_row_as_a_matrix() {
    let psi = state(&[0.6, 0.0, 0.0, 0.8]);
    let m = psi.to_matrix();
    assert_eq!(m.rows(), 1);
    assert_eq!(m.cols(), 4);
    assert_eq!(m.into_rows(), vec![amplitudes(&[0.6, 0.0, 0.0, 0.8])]);
}

#[test]
fn swap_exchanges_two_entries() {
    let mut v = amplitudes(&[0.1, 0.2, 0.3, 0.4]);
    QuantumStateVector::swap(&mut v, 1, 3);
    assert_eq!(v, amplitudes(&[0.1, 0.4, 0.3, 0.2]));
    QuantumStateVector::swap(&mut v, 2, 2);
    assert_eq!(v, amplitudes(&[0.1, 0.4, 0.3, 0.2]));
}

#[test]
fn states_are_compared_within_the_tolerance() {
    let a = state(&[0.6, 0.8]);
    assert!(a.approx_eq(&state(&[0.6009, 0.7991])));
    assert!(!a.approx_eq(&state(&[0.6011, 0.7991])));
    assert!(!a.approx_eq(&state(&[0.8, 0.6])));
    assert!(!a.approx_eq(&state(&[0.6, 0.8, 0.0, 0.0])));
    assert!(!state(&[0.6, 0.8, 0.0, 0.0]).approx_eq(&a));
}

#[test]
fn states_are_compared_within_a_given_bound() {
    let a = state(&[0.6, 0.8]);
    let b = state(&[0.6004, 0.7997]);
    assert!(a.approx_eq_within(&b, R(1e-3)));
    assert!(!a.approx_eq_within(&b, R(1e-4)));
    assert!(a.approx_eq_within(&state(&[0.8, 0.6]), R(0.25)));
    assert!(!a.approx_eq_within(&state(&[0.8, 0.6]), R(0.125)));
    assert!(!a.approx_eq_within(&a, R(0.0)));
}

#[test]
fn state_text_pairs_amplitudes_with_labels() {
    let psi = state(&[0.6, 0.0, 0.0, -0.8]);
    assert_eq!(
        psi.to_string(),
        "\u{3c8} = (0.60000)|00>   (0.00000)|01>   (0.00000)|10>   (-0.80000)|11>   "
    );
    let x = 1.0 / 2f64.sqrt();
    let psi = state(&[0.0, 0.0, 0.0, 0.0, x, 0.0, x, 0.0]);
    assert_eq!(
        psi.to_string(),
        "\u{3c8} = (0.00000)|000>   (0.00000)|001>   (0.00000)|010>   (0.00000)|011>   (0.70711)|100>   (0.00000)|101>   (0.70711)|110>   (0.00000)|111>   "
    );
}

#[test]
fn basis_labels_are_binary_with_the_highest_qubit_first() {
    assert_eq!(basis_label(0, 0), "0");
    assert_eq!(basis_label(0, 1), "0");
    assert_eq!(basis_label(1, 1), "1");
    assert_eq!(basis_label(1, 3), "001");
    assert_eq!(basis_label(6, 3), "110");
    assert_eq!(basis_label(5, 8), "00000101");
}

#[test]
fn zero_probability_sums_the_squares_where_the_qubit_is_zero() {
    let psi = state(&[0.5, 0.5, 0.5, 0.5]);
    assert_eq!(psi.zero_probability(0), R(0.5));
    assert_eq!(psi.zero_probability(1), R(0.5));
    let psi = state(&[0.6, 0.0, 0.0, 0.8]);
    assert_eq!(psi.zero_probability(0), R(0.0 + 0.6 * 0.6 + 0.0 * 0.0));
    assert_eq!(psi.zero_probability(1), R(0.0 + 0.6 * 0.6 + 0.0 * 0.0));
    let psi = state(&[0.0, 0.6, 0.8, 0.0]);
    assert_eq!(psi.zero_probability(0), R(0.0 + 0.0 * 0.0 + 0.8 * 0.8));
    assert_eq!(psi.zero_probability(1), R(0.0 + 0.0 * 0.0 + 0.6 * 0.6));
    // A qubit that the register does not have reads as 0 in every basis state.
    assert_eq!(psi.zero_probability(70), R(0.0 + 0.0 + 0.6 * 0.6 + 0.8 * 0.8 + 0.0));
}

#[test]
fn the_sample_decides_the_outcome() {
    // The probability of measuring 0 on qubit 0 is 0.36.
    let (bit, psi) = state(&[0.6, 0.8]).measure_with(0, R(0.35)).unwrap();
    assert_eq!(bit, 0);
    assert_eq!(values(&psi), vec![1.0, 0.0]);
    let (bit, psi) = state(&[0.6, 0.8]).measure_with(0, R(0.36)).unwrap();
    assert_eq!(bit, 1);
    assert_eq!(values(&psi), vec![0.0, 1.0]);
    let (bit, _) = state(&[0.6, 0.8]).measure_with(0, R(0.0)).unwrap();
    assert_eq!(bit, 0);
    let (bit, _) = state(&[0.6, 0.8]).measure_with(0, R(0.999)).unwrap();
    assert_eq!(bit, 1);
}

#[test]
fn measurement_keeps_the_length_and_renormalizes() {
    let (bit, psi) = state(&[0.5, 0.5, 0.5, 0.5]).measure_with(1, R(0.75)).unwrap();
    assert_eq!(bit, 1);
    assert_eq!(psi.len(), 4);
    let x = 0.5 / (0.5_f64).sqrt();
    assert_eq!(values(&psi), vec![0.0, 0.0, x, x]);
    let (bit, psi) = state(&[0.5, 0.5, 0.5, 0.5]).measure_with(0, R(0.25)).unwrap();
    assert_eq!(bit, 0);
    assert_eq!(values(&psi), vec![x, 0.0, x, 0.0]);
}

#[test]
fn measuring_a_bell_state_fixes_both_qubits() {
    let x = 1.0 / 2f64.sqrt();
    for (sample, expected) in [(0.1, 0u8), (0.9, 1u8)] {
        let (first, psi) = state(&[x, 0.0, 0.0, x]).measure_with(1, R(sample)).unwrap();
        assert_eq!(first, expected);
        for second_sample in [0.0, 0.3, 0.7, 0.999] {
            let amplitudes: Vec<R> = psi.amplitudes().clone();
            let again = QuantumStateVector::from_vec(amplitudes).unwrap();
            let (second, _) = again.measure_with(0, R(second_sample)).unwrap();
            assert_eq!(second, first);
        }
    }
}

#[test]
fn measurement_draws_its_own_sample() {
    let x = 1.0 / 2f64.sqrt();
    let mut zeros = 0;
    let mut ones = 0;
    for _ in 0..200 {
        let (bit, psi) = state(&[x, x]).measure(0).unwrap();
        if bit == 0 {
            zeros += 1;
            assert_eq!(values(&psi), vec![x / (x * x).sqrt(), 0.0]);
        } else {
            assert_eq!(bit, 1);
            ones += 1;
            assert_eq!(values(&psi), vec![0.0, x / (x * x).sqrt()]);
        }
    }
    // Both outcomes have the probability 1/2: that one of them stays out in
    // 200 measurements has the probability 2^-199.
    assert!(zeros > 0 && ones > 0);
    assert_eq!(
        state(&[1.0, 0.0, 0.0, 0.0]).measure(2).err(),
        Some(SimError::IndexOutOfRange)
    );
}

#[test]
fn measurement_rejects_a_target_whose_square_reaches_the_length() {
    assert_eq!(
        state(&[1.0, 0.0, 0.0, 0.0]).measure_with(2, R(0.5)).err(),
        Some(SimError::IndexOutOfRange)
    );
    assert_eq!(
        state(&[1.0, 0.0]).measure_with(2, R(0.5)).err(),
        Some(SimError::IndexOutOfRange)
    );
    assert_eq!(
        state(&[1.0]).measure_with(1, R(0.5)).err(),
        Some(SimError::IndexOutOfRange)
    );
    assert_eq!(
        state(&[1.0, 0.0]).measure_with(usize::MAX, R(0.5)).err(),
        Some(SimError::IndexOutOfRange)
    );
    // 1 * 1 < 2: qubit 1 of a register of one qubit is accepted, and reads as 0.
    let (bit, psi) = state(&[0.6, 0.8]).measure_with(1, R(0.5)).unwrap();
    assert_eq!(bit, 0);
    assert!(psi.approx_eq(&state(&[0.6, 0.8])));
    // 3 * 3 < 16, and 4 * 4 is not.
    let mut sixteen = vec![0.0; 16];
    sixteen[8] = 1.0;
    let (bit, _) = state(&sixteen).measure_with(3, R(0.5)).unwrap();
    assert_eq!(bit, 1);
    assert_eq!(
        state(&sixteen).measure_with(4, R(0.5)).err(),
        Some(SimError::IndexOutOfRange)
    );
}

#[test]
fn a_target_is_accepted_when_its_square_is_below_the_length() {
    let psi = state(&[1.0, 0.0, 0.0, 0.0]);
    assert!(psi.accepts_target(0));
    assert!(psi.accepts_target(1));
    assert!(!psi.accepts_target(2));
    assert!(!psi.accepts_target(3));
    assert!(!psi.accepts_target(usize::MAX));
    assert!(state(&[1.0]).accepts_target(0));
    assert!(!state(&[1.0]).accepts_target(1));
}

#[test]
fn collapse_onto_an_outcome_without_weight_is_rejected() {
    assert_eq!(
        state(&[1.0, 0.0]).collapse(0, 1).err(),
        Some(SimError::InvalidState)
    );
    assert_eq!(
        state(&[0.6, 0.8]).collapse(0, 2).err(),
        Some(SimError::InvalidState)
    );
    // A sample that is not less than the probability 1 of measuring 0 asks for
    // the outcome 1, which has no weight.
    assert_eq!(
        state(&[1.0, 0.0]).measure_with(0, R(1.0)).err(),
        Some(SimError::InvalidState)
    );
}

#[test]
fn collapse_keeps_what_agrees_with_the_outcome() {
    let psi = state(&[0.5, 0.5, 0.5, 0.5]).collapse(0, 1).unwrap();
    let x = 0.5 / (0.5_f64).sqrt();
    assert_eq!(values(&psi), vec![0.0, x, 0.0, x]);
}

#[test]
fn check_valid_asks_for_norm_and_length() {
    assert!(check_valid(&amplitudes(&[1.0])));
    assert!(check_valid(&amplitudes(&[0.6, 0.8])));
    assert!(!check_valid(&amplitudes(&[0.6, 0.8, 0.0])));
    assert!(!check_valid(&amplitudes(&[0.6, 0.7])));
    assert!(!check_valid(&amplitudes(&[])));
}

#[test]
fn powers_of_two_are_recognized() {
    for n in 0..(usize::BITS as usize) {
        assert!(is_power_of_two(1usize << n));
        assert_eq!(log2(1usize << n), n);
    }
    for len in [0usize, 3, 5, 6, 7, 9, 12, 1000, usize::MAX] {
        assert!(!is_power_of_two(len));
    }
}

#[test]
fn bits_are_read_and_flipped() {
    assert!(test_bit(6, 1));
    assert!(test_bit(6, 2));
    assert!(!test_bit(6, 0));
    assert!(!test_bit(6, 3));
    assert!(!test_bit(usize::MAX, 64));
    assert!(!test_bit(usize::MAX, 1000));
    assert_eq!(flip_bit(6, 0), 7);
    assert_eq!(flip_bit(6, 1), 4);
    assert_eq!(flip_bit(0, 63), 1u64 << 63);
}

#[test]
fn the_tolerance_is_a_thousandth() {
    assert_eq!(tolerance::<R>(), R(1e-3));
    assert_eq!(distance(R(0.25), R(1.0)), R(0.75));
    assert!(within_tolerance(R(1.0), R(1.0009)));
    assert!(!within_tolerance(R(1.0), R(1.0011)));
    assert!(!within_tolerance(R(f64::NAN), R(1.0)));
    assert!(apart(R(1.0), R(1.0011), R(1e-3)));
    assert!(!apart(R(1.0), R(1.0009), R(1e-3)));
    assert!(!apart(R(f64::NAN), R(1.0), R(1e-3)));
    assert!(apart(R(1.0), R(1.5), R(0.5)));
    assert!(!apart(R(1.0), R(1.25), R(0.5)));
}

#[test]
fn sums_of_products_go_from_left_to_right() {
    let a = amplitudes(&[1.0, 2.0, 3.0]);
    let b = amplitudes(&[4.0, 5.0, 6.0]);
    assert_eq!(dot(&a, &b, 3), R(32.0));
    assert_eq!(dot(&a, &b, 2), R(14.0));
    assert_eq!(dot(&a, &b, 0), R(0.0));
    assert_eq!(norm_squared(&a), R(14.0));
    assert_eq!(norm_squared(&amplitudes(&[1.0e8, 1.0, 1.0e-8])), R((1.0e16 + 1.0) + 1.0e-16));
    assert!(normalized(&amplitudes(&[0.6, 0.8])));
    assert!(!normalized(&amplitudes(&[0.6, 0.6])));
}
