//! The state of a register of qubits: one amplitude for each basis state.

use crate::bits::{
    bit_is_set, is_power_of_two, is_register_len, lemma_register_len_positive, log2, qubit_count,
    register_len, test_bit,
};
use crate::error::SimError;
use crate::matrix::{is_rectangular, rows_view, Matrix};
use crate::scalar::{
    apart, is_apart, is_constant, is_less, is_norm_squared, is_normalized, is_product,
    is_quotient, is_shown, is_sqrt, is_sum, is_tolerance, norm_squared, normalized, tolerance,
    Scalar,
};
use crate::text::{basis_label, is_text_with, label};
use rand::distr::{Distribution, StandardUniform};
use rand::random;
use vstd::prelude::*;
use vstd::slice::slice_to_vec;

verus! {

/// `ok` is the verdict on `amplitudes` as a state: the kernel's answer to
/// whether their squares sum to 1 within the tolerance, and that their number
/// is a power of two.
pub open spec fn is_valid_state<T: Scalar>(amplitudes: Seq<T>, ok: bool) -> bool {
    exists|unit: bool|
        #![trigger is_normalized(amplitudes, unit)]
        is_normalized(amplitudes, unit) && ok == (unit && is_register_len(amplitudes.len()))
}

/// `out` is the verdict on whether `a` and `b` are equal within `bound`:
/// they are when they are equally long and the kernel finds no pair of
/// amplitudes in the same place that differ by `bound` or more.
pub open spec fn is_approx_eq_within<T: Scalar>(a: Seq<T>, b: Seq<T>, bound: T, out: bool) -> bool {
    if out {
        &&& a.len() == b.len()
        &&& forall|i: int| 0 <= i < a.len() ==> is_apart(#[trigger] a[i], b[i], bound, false)
    } else {
        ||| a.len() != b.len()
        ||| exists|i: int| 0 <= i < a.len() && is_apart(#[trigger] a[i], b[i], bound, true)
    }
}

/// `out` is the verdict on whether `a` and `b` are equal within the
/// tolerance.
pub open spec fn is_approx_eq<T: Scalar>(a: Seq<T>, b: Seq<T>, out: bool) -> bool {
    exists|e: T|
        #![trigger is_approx_eq_within(a, b, e, out)]
        is_tolerance(e) && is_approx_eq_within(a, b, e, out)
}

/// `rand::random` hands back what the standard uniform distribution of `T`
/// samples from the generator of the running thread.  The value is up to
/// chance, so nothing is claimed of it.  The call panics only if the
/// operating system cannot seed the thread's generator.
pub assume_specification<T>[ rand::random::<T> ]() -> (sample: T) where
    StandardUniform: Distribution<T>,
;

/// `s` with the entries `i` and `j` exchanged.
pub open spec fn swapped<T>(s: Seq<T>, i: int, j: int) -> Seq<T> {
    s.update(i, s[j]).update(j, s[i])
}

/// `out` is the kernel's value for the sum of the squares of those of the
/// first `n` amplitudes of `v` at whose basis index qubit `target` is 0, added
/// in the order of the indices, starting from the kernel's 0: the probability
/// of measuring 0.
pub open spec fn is_zero_weight<T: Scalar>(v: Seq<T>, target: u64, n: nat, out: T) -> bool
    decreases n,
{
    if n == 0 {
        is_constant(0, out)
    } else if bit_is_set((n - 1) as u64, target) {
        is_zero_weight(v, target, (n - 1) as nat, out)
    } else {
        exists|acc: T, p: T|
            #![trigger is_sum(acc, p, out)]
            is_zero_weight(v, target, (n - 1) as nat, acc) && is_product(v[n - 1], v[n - 1], p)
                && is_sum(acc, p, out)
    }
}

/// The value that a measurement of qubit `target` finds in basis state
/// `index`.
pub open spec fn bit_value(index: u64, target: u64) -> u8 {
    if bit_is_set(index, target) {
        1
    } else {
        0
    }
}

/// `c` is `v` collapsed onto the outcome `outcome` of measuring qubit
/// `target`: an amplitude stays where the qubit has that value in its basis
/// state, and is the kernel's 0 where it has not.
pub open spec fn is_collapsed<T: Scalar>(v: Seq<T>, target: u64, outcome: u8, c: Seq<T>) -> bool {
    &&& c.len() == v.len()
    &&& forall|i: int|
        0 <= i < v.len() ==> if bit_value(i as u64, target) == outcome {
            #[trigger] c[i] == v[i]
        } else {
            is_constant(0, c[i])
        }
}

/// `r` is `c` with every entry divided by `divisor`.
pub open spec fn is_scaled<T: Scalar>(c: Seq<T>, divisor: T, r: Seq<T>) -> bool {
    &&& r.len() == c.len()
    &&& forall|i: int| 0 <= i < c.len() ==> is_quotient(c[i], divisor, #[trigger] r[i])
}

/// `positive` is the kernel's answer to whether its 0 is less than `total`.
pub open spec fn is_positive<T: Scalar>(total: T, positive: bool) -> bool {
    exists|zero: T|
        #![trigger is_less(zero, total, positive)]
        is_constant(0, zero) && is_less(zero, total, positive)
}

/// `out` is `c` divided by its norm, the root of the sum `total` of its
/// squares, and `ok` is the verdict on `out` as a state.
pub open spec fn is_renormalized<T: Scalar>(c: Seq<T>, total: T, ok: bool, out: Seq<T>) -> bool {
    exists|root: T|
        #![trigger is_scaled(c, root, out)]
        is_sqrt(total, root) && is_scaled(c, root, out) && is_valid_state(out, ok)
}

/// What becomes of the amplitudes `v` when qubit `target` has been measured
/// as `outcome`: they are collapsed onto the outcome and, if the sum of their
/// squares is then positive, divided by their norm and checked.  `ok` says
/// whether a state came out, and `out` is that state's amplitudes.
pub open spec fn is_collapse_of<T: Scalar>(
    v: Seq<T>,
    target: u64,
    outcome: u8,
    ok: bool,
    out: Seq<T>,
) -> bool {
    exists|c: Seq<T>, total: T, positive: bool|
        #![trigger is_collapsed(v, target, outcome, c), is_positive(total, positive)]
        is_collapsed(v, target, outcome, c) && is_norm_squared(c, total) && is_positive(
            total,
            positive,
        ) && if positive {
            is_renormalized(c, total, ok, out)
        } else {
            !ok
        }
}

/// What a measurement of qubit `target` makes of the amplitudes `v` when the
/// sample drawn is `sample`: the outcome `bit` is 0 if the kernel finds the
/// sample less than the probability of measuring 0, and 1 if not, and the
/// amplitudes are collapsed onto it.
pub open spec fn is_measurement<T: Scalar>(
    v: Seq<T>,
    target: u64,
    sample: T,
    bit: u8,
    ok: bool,
    out: Seq<T>,
) -> bool {
    exists|p0: T|
        #![trigger is_zero_weight(v, target, v.len(), p0)]
        is_zero_weight(v, target, v.len(), p0) && is_less(sample, p0, bit == 0) && bit <= 1
            && is_collapse_of(v, target, bit, ok, out)
}

/// The number of digits behind the point with which an amplitude is
/// written.
pub const AMPLITUDE_DECIMALS: usize = 5;

/// The text of one basis state: the amplitude in brackets, then the label as
/// a ket.
pub open spec fn entry_text(amplitude: Seq<char>, label: Seq<char>) -> Seq<char> {
    "("@ + amplitude + ")|"@ + label + ">   "@
}

/// `out` is the text of the first `n` basis states of `v`: the heading, then
/// for each basis state in turn the kernel's notation of its amplitude
/// beside its label.
pub open spec fn is_state_text<T: Scalar>(v: Seq<T>, n: nat, out: Seq<char>) -> bool
    decreases n,
{
    if n == 0 {
        out == "ψ = "@
    } else {
        exists|prev: Seq<char>, amplitude: String|
            #![trigger is_text_with(prev, entry_text(amplitude@, label((n - 1) as u64, qubit_count(v.len()) as nat)), out)]
            is_state_text(v, (n - 1) as nat, prev) && is_shown(
                v[n - 1],
                AMPLITUDE_DECIMALS,
                amplitude,
            ) && is_text_with(
                prev,
                entry_text(amplitude@, label((n - 1) as u64, qubit_count(v.len()) as nat)),
                out,
            )
    }
}

/// Amplitudes that passed the check of a state are as many as a power of
/// two, and the kernel found the sum of their squares within the tolerance of
/// 1.
pub proof fn lemma_valid_state<T: Scalar>(amplitudes: Seq<T>)
    requires
        is_valid_state(amplitudes, true),
    ensures
        is_register_len(amplitudes.len()),
        is_normalized(amplitudes, true),
{
}

/// Whether `amplitudes` make a state: their squares sum to 1 within the
/// tolerance and their number is a power of two.
pub fn check_valid<T: Scalar>(amplitudes: &Vec<T>) -> (ok: bool)
    ensures
        is_valid_state(amplitudes@, ok),
{
    let unit = normalized(amplitudes);
    let power_of_two = is_power_of_two(amplitudes.len());
    unit && power_of_two
}

/// The state of a register: the amplitude of basis state `i` stands at index
/// `i`, and bit `k` of `i` is the value of qubit `k` in that basis state.
///
/// The number of amplitudes is a power of two.  A state comes into being
/// only through a check that the squares of its amplitudes sum to 1 within the
/// tolerance, or by permuting the amplitudes of a state.
pub struct QuantumStateVector<T> {
    state_vector: Vec<T>,
}

impl<T> View for QuantumStateVector<T> {
    type V = Seq<T>;

    closed spec fn view(&self) -> Seq<T> {
        self.state_vector@
    }
}

impl<T> QuantumStateVector<T> {
    #[verifier::type_invariant]
    spec fn well_formed(&self) -> bool {
        is_register_len(self.state_vector@.len())
    }

    /// The number of qubits of the register.
    pub open spec fn num_qubits(&self) -> u64 {
        qubit_count(self@.len())
    }

    /// The number of basis states.
    pub fn len(&self) -> (n: usize)
        ensures
            n == self@.len(),
            is_register_len(n as nat),
    {
        proof {
            use_type_invariant(self);
        }
        self.state_vector.len()
    }

    /// The number of qubits of the register.
    pub fn qubits(&self) -> (n: usize)
        ensures
            n == self.num_qubits(),
            n < 64,
            self@.len() == register_len(n as u64),
            self@.len() <= usize::MAX,
    {
        proof {
            use_type_invariant(self);
        }
        log2(self.state_vector.len())
    }

    /// The amplitudes, by basis index.
    pub fn amplitudes(&self) -> (v: &Vec<T>)
        ensures
            v@ == self@,
            is_register_len(v@.len()),
    {
        proof {
            use_type_invariant(self);
        }
        &self.state_vector
    }

    /// The amplitudes, by basis index; the state is given up.
    pub fn into_amplitudes(self) -> (v: Vec<T>)
        ensures
            v@ == self@,
            is_register_len(v@.len()),
    {
        proof {
            use_type_invariant(&self);
        }
        self.state_vector
    }

    /// The state with the given amplitudes, which are those of a state in
    /// another order.
    pub(crate) fn from_permuted(v: Vec<T>) -> (r: Self)
        requires
            is_register_len(v@.len()),
        ensures
            r@ == v@,
    {
        QuantumStateVector { state_vector: v }
    }
}

impl<T: Copy> QuantumStateVector<T> {
    /// Exchanges the entries `i` and `j` of a buffer of amplitudes.
    pub fn swap(amplitudes: &mut Vec<T>, i: usize, j: usize)
        requires
            i < old(amplitudes).len(),
            j < old(amplitudes).len(),
        ensures
            final(amplitudes)@ == swapped(old(amplitudes)@, i as int, j as int),
    {
        let a = amplitudes[i];
        let b = amplitudes[j];
        amplitudes.set(i, b);
        amplitudes.set(j, a);
    }
}

impl<T: Scalar> QuantumStateVector<T> {
    /// The state with the given amplitudes.
    ///
    /// Fails with `InvalidState` when the check of [`check_valid`] fails.
    pub fn new(vals: &[T]) -> (r: Result<Self, SimError>)
        ensures
            is_valid_state(vals@, r.is_ok()),
            r.is_ok() ==> r.unwrap()@ == vals@ && is_normalized(vals@, true),
            r.is_err() ==> r == Err::<Self, SimError>(SimError::InvalidState),
    {
        Self::from_vec(slice_to_vec(vals))
    }

    /// The state with the given amplitudes.
    ///
    /// Fails with `InvalidState` when the check of [`check_valid`] fails.
    pub fn from_vec(v: Vec<T>) -> (r: Result<Self, SimError>)
        ensures
            is_valid_state(v@, r.is_ok()),
            r.is_ok() ==> r.unwrap()@ == v@ && is_normalized(v@, true),
            r.is_err() ==> r == Err::<Self, SimError>(SimError::InvalidState),
    {
        if !check_valid(&v) {
            return Err(SimError::InvalidState);
        }
        Ok(QuantumStateVector { state_vector: v })
    }

    /// The state as a matrix of one row.
    pub fn to_matrix(&self) -> (m: Matrix<T>)
        ensures
            m@ == seq![self@],
    {
        proof {
            use_type_invariant(self);
            lemma_register_len_positive(self.state_vector@.len());
        }
        let row = slice_to_vec(self.state_vector.as_slice());
        let mut rows: Vec<Vec<T>> = Vec::new();
        rows.push(row);
        proof {
            assert(rows_view(rows@) =~= seq![self@]);
            assert(is_rectangular(rows_view(rows@)));
        }
        let m = Matrix::new(rows);
        m.unwrap()
    }

    /// The probability of measuring 0 on qubit `target`: the sum of the
    /// squares of the amplitudes of the basis states in which the qubit is 0.
    pub fn zero_probability(&self, target: usize) -> (p0: T)
        ensures
            is_zero_weight(self@, target as u64, self@.len(), p0),
    {
        let mut zero_prob = T::from_u32(0);
        let mut i: usize = 0;
        while i < self.state_vector.len()
            invariant
                i <= self.state_vector.len(),
                is_zero_weight(self.state_vector@, target as u64, i as nat, zero_prob),
            decreases self.state_vector.len() - i,
        {
            if !test_bit(i, target) {
                let p = self.state_vector[i].times(self.state_vector[i]);
                let next = zero_prob.plus(p);
                assert(is_sum(zero_prob, p, next));
                zero_prob = next;
            }
            i = i + 1;
        }
        zero_prob
    }

    /// The state after qubit `target` has been measured as `outcome`: the
    /// amplitudes of the basis states in which the qubit has another value
    /// are set to 0, and the others are divided by the norm of what is left.
    /// The vector keeps its length, and the measured qubit its place.
    ///
    /// Fails with `InvalidState` when the sum of the squares of what is left
    /// is not positive, or when the amplitudes that come out do not pass the
    /// check of a state.
    pub fn collapse(self, target: usize, outcome: u8) -> (r: Result<Self, SimError>)
        ensures
            exists|out: Seq<T>|
                #![trigger is_collapse_of(self@, target as u64, outcome, r.is_ok(), out)]
                is_collapse_of(self@, target as u64, outcome, r.is_ok(), out) && (r.is_ok()
                    ==> r.unwrap()@ == out),
            r.is_err() ==> r == Err::<Self, SimError>(SimError::InvalidState),
            r.is_ok() ==> r.unwrap()@.len() == self@.len() && is_normalized(r.unwrap()@, true),
    {
        let ghost before = self@;
        let ghost t = target as u64;
        let mut v = self.state_vector;
        let len = v.len();
        let zero = T::from_u32(0);
        let mut i: usize = 0;
        while i < len
            invariant
                i <= len,
                len == v.len(),
                len == before.len(),
                t == target,
                is_constant(0, zero),
                forall|k: int|
                    0 <= k < i ==> if bit_value(k as u64, t) == outcome {
                        #[trigger] v@[k] == before[k]
                    } else {
                        is_constant(0, v@[k])
                    },
                forall|k: int| i <= k < len ==> #[trigger] v@[k] == before[k],
            decreases len - i,
        {
            let bit: u8 = if test_bit(i, target) {
                1
            } else {
                0
            };
            if bit != outcome {
                v.set(i, zero);
            }
            i = i + 1;
        }
        let ghost collapsed = v@;
        assert(is_collapsed(before, t, outcome, collapsed));
        let total = norm_squared(&v);
        let positive = zero.less_than(total);
        assert(is_positive(total, positive)) by {
            assert(is_less(zero, total, positive));
        }
        if !positive {
            let r = Err(SimError::InvalidState);
            assert(is_collapse_of(before, t, outcome, r.is_ok(), collapsed));
            return r;
        }
        let root = total.sqrt();
        let mut i: usize = 0;
        while i < len
            invariant
                i <= len,
                len == v.len(),
                len == collapsed.len(),
                forall|k: int| 0 <= k < i ==> is_quotient(collapsed[k], root, #[trigger] v@[k]),
                forall|k: int| i <= k < len ==> #[trigger] v@[k] == collapsed[k],
            decreases len - i,
        {
            let q = v[i].over(root);
            v.set(i, q);
            i = i + 1;
        }
        let ghost scaled = v@;
        let r = Self::from_vec(v);
        proof {
            assert(is_scaled(collapsed, root, scaled));
            assert(is_renormalized(collapsed, total, r.is_ok(), scaled));
            assert(is_collapse_of(before, t, outcome, r.is_ok(), scaled));
        }
        r
    }

    /// Whether a measurement accepts `target`: whether its square is less
    /// than the number of basis states.
    pub fn accepts_target(&self, target: usize) -> (ok: bool)
        ensures
            ok == (target * target < self@.len()),
    {
        let len = self.len();
        match target.checked_mul(target) {
            Some(square) => square < len,
            None => false,
        }
    }

    /// Measures qubit `target` with the given sample, a number drawn
    /// uniformly from the numbers from 0 up to, and without, 1: the outcome
    /// is 0 when the sample is less than the probability of measuring 0, and
    /// 1 when it is not.  Returns the outcome and the state collapsed onto
    /// it.
    ///
    /// Fails with `IndexOutOfRange` when the square of `target` is not less
    /// than the number of basis states, and with `InvalidState` when
    /// [`Self::collapse`] fails.
    pub fn measure_with(self, target: usize, sample: T) -> (r: Result<(u8, Self), SimError>)
        ensures
            target * target >= self@.len() ==> r == Err::<(u8, Self), SimError>(
                SimError::IndexOutOfRange,
            ),
            target * target < self@.len() ==> exists|bit: u8, out: Seq<T>|
                #![trigger is_measurement(self@, target as u64, sample, bit, r.is_ok(), out)]
                {
                    &&& is_measurement(self@, target as u64, sample, bit, r.is_ok(), out)
                    &&& r.is_ok() ==> r.unwrap().0 == bit && r.unwrap().1@ == out
                    &&& r.is_err() ==> r == Err::<(u8, Self), SimError>(SimError::InvalidState)
                },
            r.is_ok() ==> r.unwrap().0 <= 1 && r.unwrap().1@.len() == self@.len() && is_normalized(
                r.unwrap().1@,
                true,
            ),
    {
        if !self.accepts_target(target) {
            return Err(SimError::IndexOutOfRange);
        }
        let ghost before = self@;
        let zero_prob = self.zero_probability(target);
        let bit: u8 = if sample.less_than(zero_prob) {
            0
        } else {
            1
        };
        let ghost t = target as u64;
        let collapsed = self.collapse(target, bit);
        let ghost out = choose|out: Seq<T>|
            #![trigger is_collapse_of(before, t, bit, collapsed.is_ok(), out)]
            is_collapse_of(before, t, bit, collapsed.is_ok(), out) && (collapsed.is_ok()
                ==> collapsed.unwrap()@ == out);
        let r = match collapsed {
            Ok(state) => Ok((bit, state)),
            Err(e) => Err(e),
        };
        assert(is_measurement(before, t, sample, bit, r.is_ok(), out));
        r
    }

    /// The state as text: every amplitude beside the label of its basis
    /// state, in the order of the basis indices.
    pub fn to_string(&self) -> (s: String)
        ensures
            is_state_text(self@, self@.len(), s@),
    {
        let qubits = self.qubits();
        let len = self.state_vector.len();
        let mut s = String::new();
        s.push_str("ψ = ");
        assert(s@ =~= "ψ = "@);
        let mut i: usize = 0;
        while i < len
            invariant
                i <= len,
                len == self.state_vector@.len(),
                qubits < 64,
                qubits == qubit_count(len as nat),
                len == register_len(qubits as u64),
                is_state_text(self.state_vector@, i as nat, s@),
            decreases len - i,
        {
            let ghost prev = s@;
            let amplitude = self.state_vector[i].show(AMPLITUDE_DECIMALS);
            let name = basis_label(i, qubits);
            s.push_str("(");
            s.push_str(amplitude.as_str());
            s.push_str(")|");
            s.push_str(name.as_str());
            s.push_str(">   ");
            proof {
                let v = self.state_vector@;
                let n = (i + 1) as nat;
                assert(s@ =~= prev + entry_text(amplitude@, name@));
                assert(is_text_with(
                    prev,
                    entry_text(amplitude@, label((n - 1) as u64, qubit_count(v.len()) as nat)),
                    s@,
                ));
            }
            i = i + 1;
        }
        s
    }

    /// Whether the amplitudes of `self` and `other` agree, place by place,
    /// within the tolerance.  States of different lengths do not agree.
    pub fn approx_eq(&self, other: &Self) -> (out: bool)
        ensures
            is_approx_eq(self@, other@, out),
    {
        let e = tolerance::<T>();
        let out = self.approx_eq_within(other, e);
        assert(is_approx_eq_within(self@, other@, e, out));
        out
    }

    /// Whether the amplitudes of `self` and `other` agree, place by place,
    /// within `bound`: no two of them differ by `bound` or more.  States of
    /// different lengths do not agree.
    pub fn approx_eq_within(&self, other: &Self, bound: T) -> (out: bool)
        ensures
            is_approx_eq_within(self@, other@, bound, out),
    {
        if self.state_vector.len() != other.state_vector.len() {
            return false;
        }
        let mut i: usize = 0;
        while i < self.state_vector.len()
            invariant
                i <= self.state_vector.len(),
                self.state_vector.len() == other.state_vector.len(),
                forall|k: int|
                    0 <= k < i ==> is_apart(
                        #[trigger] self.state_vector@[k],
                        other.state_vector@[k],
                        bound,
                        false,
                    ),
            decreases self.state_vector.len() - i,
        {
            if apart(self.state_vector[i], other.state_vector[i], bound) {
                assert(is_apart(self@[i as int], other@[i as int], bound, true));
                return false;
            }
            i = i + 1;
        }
        true
    }
}

impl<T: Scalar> QuantumStateVector<T> where StandardUniform: Distribution<T> {
    /// Measures qubit `target`: draws a sample and measures with it, as
    /// [`Self::measure_with`] does.  Returns the outcome and the state
    /// collapsed onto it.
    ///
    /// Fails with `IndexOutOfRange` when the square of `target` is not less
    /// than the number of basis states, and with `InvalidState` when
    /// [`Self::collapse`] fails.
    pub fn measure(self, target: usize) -> (r: Result<(u8, Self), SimError>)
        ensures
            target * target >= self@.len() ==> r == Err::<(u8, Self), SimError>(
                SimError::IndexOutOfRange,
            ),
            target * target < self@.len() ==> exists|sample: T, bit: u8, out: Seq<T>|
                #![trigger is_measurement(self@, target as u64, sample, bit, r.is_ok(), out)]
                {
                    &&& is_measurement(self@, target as u64, sample, bit, r.is_ok(), out)
                    &&& r.is_ok() ==> r.unwrap().0 == bit && r.unwrap().1@ == out
                    &&& r.is_err() ==> r == Err::<(u8, Self), SimError>(SimError::InvalidState)
                },
            r.is_ok() ==> r.unwrap().0 <= 1 && r.unwrap().1@.len() == self@.len() && is_normalized(
                r.unwrap().1@,
                true,
            ),
    {
        if !self.accepts_target(target) {
            return Err(SimError::IndexOutOfRange);
        }
        let sample = random::<T>();
        self.measure_with(target, sample)
    }
}

} // verus!
