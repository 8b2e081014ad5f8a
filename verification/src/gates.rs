//! The gates: the controlled NOT, which permutes amplitudes, and the
//! Hadamard gate, which is applied as a matrix.

use crate::bits::{
    bit_is_set, cnot_source, flip_bit, is_register_len, lemma_cnot_source_in_register,
    lemma_cnot_source_involution, lemma_flip_changes_bit, lemma_flip_in_register,
    lemma_flip_involution, lemma_flip_keeps_other_bits, lemma_qubit_count, partner_so_far,
    qubit_count, register_len, test_bit, with_bit_flipped,
};
use crate::error::SimError;
use crate::matrix::{is_hadamard, is_identity, is_rectangular, rows_view, Matrix};
use crate::matrix_operations::{
    column, dot_product, is_kronecker, tensor_product, transpose, transposed,
};
use crate::scalar::{is_constant, is_dot, is_normalized, Scalar};
use crate::state_vector::{is_valid_state, swapped, QuantumStateVector};
use vstd::prelude::*;
use vstd::seq_lib::to_multiset_update;

verus! {

/// The amplitudes `s` after a controlled NOT: the amplitude at each basis
/// index comes from the index that [`cnot_source`] names.
pub open spec fn cnot_applied<T>(s: Seq<T>, control: u64, target: u64) -> Seq<T> {
    Seq::new(s.len(), |i: int| s[cnot_source(i as u64, control, target) as int])
}

/// The amplitudes `s` once a controlled NOT has gone through the basis
/// indices below `done`.
pub open spec fn cnot_partial<T>(s: Seq<T>, control: u64, target: u64, done: u64) -> Seq<T> {
    Seq::new(s.len(), |i: int| s[partner_so_far(i as u64, control, target, done) as int])
}

/// Exchanging two entries of a sequence keeps what it holds.
pub proof fn lemma_swap_permutes<T>(s: Seq<T>, i: int, j: int)
    requires
        0 <= i < s.len(),
        0 <= j < s.len(),
    ensures
        swapped(s, i, j).to_multiset() == s.to_multiset(),
{
    let s1 = s.update(i, s[j]);
    s.to_multiset_ensures();
    assert(s.contains(s[i]) && s.contains(s[j]));
    to_multiset_update(s, i, s[j]);
    to_multiset_update(s1, j, s[i]);
    assert(s1.update(j, s[i]).to_multiset() =~= s.to_multiset());
}

/// What a controlled NOT does when it reaches basis index `done`: where
/// qubit `control` is 1 and the index is the lower one of its pair, the
/// amplitudes of the pair change places; elsewhere nothing moves.
proof fn lemma_cnot_step<T>(s: Seq<T>, control: u64, target: u64, qubits: u64, done: u64)
    requires
        qubits < 64,
        s.len() == register_len(qubits),
        control < qubits,
        target < qubits,
        done < s.len(),
    ensures
        with_bit_flipped(done, target) < s.len(),
        bit_is_set(done, control) && done < with_bit_flipped(done, target) ==> cnot_partial(
            s,
            control,
            target,
            (done + 1) as u64,
        ) == swapped(
            cnot_partial(s, control, target, done),
            done as int,
            with_bit_flipped(done, target) as int,
        ),
        !(bit_is_set(done, control) && done < with_bit_flipped(done, target)) ==> cnot_partial(
            s,
            control,
            target,
            (done + 1) as u64,
        ) == cnot_partial(s, control, target, done),
{
    let next = (done + 1) as u64;
    let pair = with_bit_flipped(done, target);
    let before = cnot_partial(s, control, target, done);
    let after = cnot_partial(s, control, target, next);
    let expected = if bit_is_set(done, control) && done < pair {
        swapped(before, done as int, pair as int)
    } else {
        before
    };
    lemma_flip_changes_bit(done, target);
    lemma_flip_in_register(done, target, qubits);
    lemma_flip_involution(done, target);
    if control != target {
        lemma_flip_keeps_other_bits(done, target, control);
    }
    assert forall|x: int| 0 <= x < s.len() implies after[x] == expected[x] by {
        let index = x as u64;
        lemma_flip_changes_bit(index, target);
        lemma_flip_involution(index, target);
        lemma_flip_in_register(index, target, qubits);
        if control != target {
            lemma_flip_keeps_other_bits(index, target, control);
        }
    }
    assert(after =~= expected);
}

/// Applying a controlled NOT twice, with the same control and target, gives
/// back the amplitudes it started from, each in its place.
pub proof fn lemma_cnot_self_inverse<T>(s: Seq<T>, control: u64, target: u64)
    requires
        is_register_len(s.len()),
        control < qubit_count(s.len()),
        target < qubit_count(s.len()),
    ensures
        cnot_applied(cnot_applied(s, control, target), control, target) == s,
{
    let n = qubit_count(s.len());
    let once = cnot_applied(s, control, target);
    let twice = cnot_applied(once, control, target);
    assert forall|i: int| 0 <= i < s.len() implies twice[i] == s[i] by {
        let x = i as u64;
        lemma_cnot_source_in_register(x, control, target, n);
        lemma_cnot_source_involution(x, control, target);
    }
    assert(twice =~= s);
}

/// A controlled NOT permutes the amplitudes: it keeps their number, and
/// with it the register, and it keeps what they are, and with it the sum of
/// their squares.
pub proof fn lemma_cnot_permutes<T>(s: Seq<T>, control: u64, target: u64)
    requires
        is_register_len(s.len()),
        control < qubit_count(s.len()),
        target < qubit_count(s.len()),
    ensures
        cnot_applied(s, control, target).len() == s.len(),
        cnot_applied(s, control, target).to_multiset() == s.to_multiset(),
{
    let qubits = qubit_count(s.len());
    lemma_cnot_partial_permutes(s, control, target, qubits, s.len() as u64);
    assert forall|x: int| 0 <= x < s.len() implies cnot_partial(
        s,
        control,
        target,
        s.len() as u64,
    )[x] == cnot_applied(s, control, target)[x] by {
        let index = x as u64;
        lemma_flip_changes_bit(index, target);
        lemma_flip_in_register(index, target, qubits);
    }
    assert(cnot_partial(s, control, target, s.len() as u64) =~= cnot_applied(s, control, target));
}

/// However far a controlled NOT has gone, the amplitudes are those it
/// started from, in another order.
proof fn lemma_cnot_partial_permutes<T>(
    s: Seq<T>,
    control: u64,
    target: u64,
    qubits: u64,
    done: u64,
)
    requires
        qubits < 64,
        s.len() == register_len(qubits),
        control < qubits,
        target < qubits,
        done <= s.len(),
    ensures
        cnot_partial(s, control, target, done).to_multiset() == s.to_multiset(),
    decreases done,
{
    if done == 0 {
        assert(cnot_partial(s, control, target, 0) =~= s);
    } else {
        let prev = (done - 1) as u64;
        lemma_cnot_partial_permutes(s, control, target, qubits, prev);
        lemma_cnot_step(s, control, target, qubits, prev);
        lemma_swap_permutes(
            cnot_partial(s, control, target, prev),
            prev as int,
            with_bit_flipped(prev, target) as int,
        );
    }
}

/// `f` is the factor that a qubit contributes to the operator of a Hadamard
/// gate: a Hadamard matrix for the target, an identity matrix of two rows for
/// any other qubit.
pub open spec fn is_gate_factor<T: Scalar>(is_target: bool, f: Seq<Seq<T>>) -> bool {
    if is_target {
        is_hadamard(f)
    } else {
        is_identity(2, f)
    }
}

/// `op` is what folding the factors of the first `folded` qubits, counted
/// from the most significant one down, into a tensor product gives: the
/// matrix of the single entry 1, multiplied from the right by one factor
/// after the other.
pub open spec fn is_hadamard_operator<T: Scalar>(
    qubits: nat,
    target: nat,
    folded: nat,
    op: Seq<Seq<T>>,
) -> bool
    decreases folded,
{
    if folded == 0 {
        op.len() == 1 && op[0].len() == 1 && is_constant(1, op[0][0])
    } else {
        exists|prev: Seq<Seq<T>>, factor: Seq<Seq<T>>|
            #![trigger is_kronecker(prev, factor, op)]
            is_hadamard_operator(qubits, target, (folded - 1) as nat, prev) && is_gate_factor(
                qubits - folded == target,
                factor,
            ) && is_kronecker(prev, factor, op)
    }
}

/// `out` is what applying the matrix `op` to the amplitudes `v` gives: entry
/// `i` is the kernel's value for the sum of the products of row `i` of `op`
/// and `v`.
pub open spec fn is_applied<T: Scalar>(op: Seq<Seq<T>>, v: Seq<T>, out: Seq<T>) -> bool {
    &&& out.len() == op.len()
    &&& forall|i: int| 0 <= i < op.len() ==> is_dot(op[i], v, v.len(), #[trigger] out[i])
}

/// `out` is what a Hadamard gate on qubit `target` makes of the amplitudes
/// `v`, before the result is checked.
pub open spec fn is_hadamard_applied<T: Scalar>(v: Seq<T>, target: nat, out: Seq<T>) -> bool {
    exists|op: Seq<Seq<T>>|
        #![trigger is_applied(op, v, out)]
        is_hadamard_operator(
            qubit_count(v.len()) as nat,
            target,
            qubit_count(v.len()) as nat,
            op,
        ) && is_applied(op, v, out)
}

/// The operator folded from the factors of `folded` qubits is square, with a
/// row for each basis state of a register of that many qubits.
pub proof fn lemma_hadamard_operator_shape<T: Scalar>(
    qubits: nat,
    target: nat,
    folded: nat,
    op: Seq<Seq<T>>,
)
    requires
        folded < 64,
        is_hadamard_operator(qubits, target, folded, op),
    ensures
        op.len() == register_len(folded as u64),
        forall|i: int| 0 <= i < op.len() ==> (#[trigger] op[i]).len() == register_len(folded as u64),
    decreases folded,
{
    if folded == 0 {
        assert(register_len(0) == 1) by (bit_vector);
    } else {
        let (prev, factor) = choose|prev: Seq<Seq<T>>, factor: Seq<Seq<T>>|
            #![trigger is_kronecker(prev, factor, op)]
            is_hadamard_operator(qubits, target, (folded - 1) as nat, prev) && is_gate_factor(
                qubits - folded == target,
                factor,
            ) && is_kronecker(prev, factor, op);
        lemma_hadamard_operator_shape(qubits, target, (folded - 1) as nat, prev);
        let k: u64 = (folded - 1) as u64;
        let k1: u64 = folded as u64;
        assert((1u64 << k) * 2 == (1u64 << k1) && (1u64 << k) > 0) by (bit_vector)
            requires
                k1 == k + 1,
                k1 < 64,
        ;
        assert(factor.len() == 2 && factor[0].len() == 2);
        assert(prev[0].len() == register_len(k));
    }
}

/// A Hadamard gate keeps the number of amplitudes, and with it the register.
pub proof fn lemma_hadamard_keeps_register<T: Scalar>(v: Seq<T>, target: nat, out: Seq<T>)
    requires
        is_register_len(v.len()),
        is_hadamard_applied(v, target, out),
    ensures
        out.len() == v.len(),
{
    let n = qubit_count(v.len());
    let op = choose|op: Seq<Seq<T>>|
        #![trigger is_applied(op, v, out)]
        is_hadamard_operator(n as nat, target, n as nat, op) && is_applied(op, v, out);
    lemma_hadamard_operator_shape(n as nat, target, n as nat, op);
}

impl<T: Scalar> QuantumStateVector<T> {
    /// The state in which a controlled NOT has acted on `self`: in every
    /// basis state in which qubit `control` is 1, qubit `target` is flipped.
    ///
    /// Fails with `IndexOutOfRange` when the register has no qubit `control`
    /// or no qubit `target`.
    pub fn cnot(self, control: usize, target: usize) -> (r: Result<Self, SimError>)
        ensures
            control < self.num_qubits() && target < self.num_qubits() ==> r.is_ok()
                && r.unwrap()@ == cnot_applied(self@, control as u64, target as u64)
                && r.unwrap()@.to_multiset() == self@.to_multiset(),
            !(control < self.num_qubits() && target < self.num_qubits()) ==> r == Err::<
                Self,
                SimError,
            >(SimError::IndexOutOfRange),
    {
        let qubits = self.qubits();
        if control >= qubits || target >= qubits {
            return Err(SimError::IndexOutOfRange);
        }
        let ghost before = self@;
        let ghost c = control as u64;
        let ghost t = target as u64;
        let mut v = self.into_amplitudes();
        let len = v.len();
        assert(cnot_partial(before, c, t, 0) =~= before);
        let mut i: usize = 0;
        while i < len
            invariant
                i <= len,
                len == before.len(),
                qubits < 64,
                control < qubits,
                target < qubits,
                c == control,
                t == target,
                len == register_len(qubits as u64),
                v@ == cnot_partial(before, c, t, i as u64),
            decreases len - i,
        {
            proof {
                lemma_cnot_step(before, c, t, qubits as u64, i as u64);
            }
            if test_bit(i, control) {
                let j = flip_bit(i, target);
                if (i as u64) < j {
                    QuantumStateVector::swap(&mut v, i, j as usize);
                }
            }
            i = i + 1;
        }
        proof {
            assert forall|x: int| 0 <= x < len implies #[trigger] v@[x] == cnot_applied(
                before,
                c,
                t,
            )[x] by {
                let index = x as u64;
                lemma_flip_changes_bit(index, t);
                lemma_flip_in_register(index, t, qubits as u64);
            }
            assert(v@ =~= cnot_applied(before, c, t));
            lemma_qubit_count(qubits as u64);
            lemma_cnot_permutes(before, c, t);
        }
        Ok(QuantumStateVector::from_permuted(v))
    }
}

/// Applies a controlled NOT: in every basis state in which qubit `control`
/// is 1, qubit `target` is flipped.  Qubit 0 is the least significant bit of
/// the basis index.
///
/// Fails with `IndexOutOfRange` when the register has no qubit `control` or
/// no qubit `target`.
pub fn cnot<T: Scalar>(psi: QuantumStateVector<T>, control: usize, target: usize) -> (r: Result<
    QuantumStateVector<T>,
    SimError,
>)
    ensures
        control < psi.num_qubits() && target < psi.num_qubits() ==> r.is_ok() && r.unwrap()@
            == cnot_applied(psi@, control as u64, target as u64) && r.unwrap()@.to_multiset()
            == psi@.to_multiset(),
        !(control < psi.num_qubits() && target < psi.num_qubits()) ==> r == Err::<
            QuantumStateVector<T>,
            SimError,
        >(SimError::IndexOutOfRange),
{
    psi.cnot(control, target)
}

/// The operator of a Hadamard gate on qubit `target` of a register of
/// `qubits` qubits: the tensor product of one factor for each qubit, from the
/// most significant qubit down to qubit 0, so that the bits of a row index
/// are the qubits of a basis index.
pub fn hadamard_operator<T: Scalar>(qubits: usize, target: usize) -> (op: Matrix<T>)
    requires
        qubits < 64,
        register_len(qubits as u64) <= usize::MAX,
    ensures
        is_hadamard_operator(qubits as nat, target as nat, qubits as nat, op@),
        op.nrows() == register_len(qubits as u64),
        op.ncols() == register_len(qubits as u64),
        is_rectangular(op@),
{
    let mut unit_row: Vec<T> = Vec::new();
    unit_row.push(T::from_u32(1));
    let mut unit: Vec<Vec<T>> = Vec::new();
    unit.push(unit_row);
    proof {
        assert(rows_view(unit@)[0] == unit_row@);
        assert(is_rectangular(rows_view(unit@)));
        assert(register_len(0) == 1) by (bit_vector);
    }
    let mut op = Matrix::new(unit).unwrap();
    let mut i: usize = qubits;
    while i > 0
        invariant
            i <= qubits,
            qubits < 64,
            register_len(qubits as u64) <= usize::MAX,
            is_hadamard_operator(qubits as nat, target as nat, (qubits - i) as nat, op@),
            op.nrows() == register_len((qubits - i) as u64),
            op.ncols() == register_len((qubits - i) as u64),
            is_rectangular(op@),
        decreases i,
    {
        i = i - 1;
        let factor = if i == target {
            Matrix::hadamard()
        } else {
            Matrix::identity(2).unwrap()
        };
        let ghost prev = op@;
        proof {
            let k: u64 = (qubits - i - 1) as u64;
            let k1: u64 = (qubits - i) as u64;
            let n: u64 = qubits as u64;
            assert((1u64 << k) * 2 == (1u64 << k1) && (1u64 << k1) <= (1u64 << n)) by (bit_vector)
                requires
                    k1 == k + 1,
                    k1 <= n,
                    n < 64,
            ;
            assert(factor@.len() == 2 && factor@[0].len() == 2);
        }
        op = tensor_product(op, factor);
        proof {
            assert(is_gate_factor(qubits - (qubits - i) == target, factor@));
            assert(is_kronecker(prev, factor@, op@));
            assert(op@[0].len() == prev[0].len() * factor@[0].len());
        }
    }
    op
}

/// Applies a Hadamard gate to qubit `target`.  Qubit 0 is the least
/// significant bit of the basis index.
///
/// Fails with `IndexOutOfRange` when the register has no qubit `target`, and
/// with `InvalidState` when the amplitudes that come out do not pass the check
/// of a state.
pub fn h<T: Scalar>(psi: QuantumStateVector<T>, target: usize) -> (r: Result<
    QuantumStateVector<T>,
    SimError,
>)
    ensures
        target >= psi.num_qubits() ==> r == Err::<QuantumStateVector<T>, SimError>(
            SimError::IndexOutOfRange,
        ),
        target < psi.num_qubits() ==> exists|out: Seq<T>|
            #![trigger is_hadamard_applied(psi@, target as nat, out)]
            {
                &&& is_hadamard_applied(psi@, target as nat, out)
                &&& is_valid_state(out, r.is_ok())
                &&& r.is_ok() ==> r.unwrap()@ == out
                &&& r.is_err() ==> r == Err::<QuantumStateVector<T>, SimError>(
                    SimError::InvalidState,
                )
            },
        r.is_ok() ==> r.unwrap()@.len() == psi@.len() && is_normalized(r.unwrap()@, true),
{
    let num_qubits = psi.qubits();
    if target >= num_qubits {
        return Err(SimError::IndexOutOfRange);
    }
    let ghost v = psi@;
    let op = hadamard_operator::<T>(num_qubits, target);
    let ghost opv = op@;
    let psi_transposed = transpose(psi.to_matrix());
    let ghost column_vector = psi_transposed@;
    proof {
        assert(column_vector =~= transposed(seq![v]));
        assert(column(column_vector, 0) =~= v);
    }
    let final_col_vector = dot_product(op, psi_transposed).unwrap();
    let ghost product = final_col_vector@;
    let mut rows = transpose(final_col_vector).into_rows();
    let amplitudes = rows.remove(0);
    proof {
        assert(amplitudes@ == transposed(product)[0]);
        assert(amplitudes@ =~= column(product, 0));
        assert forall|i: int| 0 <= i < opv.len() implies is_dot(
            opv[i],
            v,
            v.len(),
            #[trigger] amplitudes@[i],
        ) by {
            assert(amplitudes@[i] == product[i][0]);
        }
        assert(is_applied(opv, v, amplitudes@));
        assert(is_hadamard_applied(v, target as nat, amplitudes@));
    }
    QuantumStateVector::from_vec(amplitudes)
}

} // verus!
