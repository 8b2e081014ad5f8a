//! Basis-index arithmetic: qubit `k` of a basis index is bit `k` of the index,
//! bit 0 being the least significant one.

use vstd::arithmetic::power2::pow2;
use vstd::bits::{lemma_u64_pow2_no_overflow, lemma_u64_shl_is_mul, lemma_u64_shr_is_div};
use vstd::prelude::*;

verus! {

/// Widest register the index arithmetic can address: basis indices are held in
/// 64 bits.
pub const MAX_QUBITS: usize = 64;

/// The value of qubit `qubit` in basis state `index` is 1.
///
/// A qubit beyond the 64 bits of an index reads as 0.
pub open spec fn bit_is_set(index: u64, qubit: u64) -> bool {
    qubit < 64 && (index >> qubit) & 1 == 1
}

/// The basis index that differs from `index` in qubit `qubit` only.
pub open spec fn with_bit_flipped(index: u64, qubit: u64) -> u64 {
    index ^ (1u64 << qubit)
}

/// The number of basis states of a register of `qubits` qubits.
pub open spec fn register_len(qubits: u64) -> u64 {
    1u64 << qubits
}

/// `len` is the number of basis states of some register: a power of two.
pub open spec fn is_register_len(len: nat) -> bool {
    exists|n: u64| n < 64 && len == #[trigger] register_len(n)
}

/// The number of qubits of a register of `len` basis states.
pub open spec fn qubit_count(len: nat) -> u64 {
    choose|n: u64| n < 64 && len == #[trigger] register_len(n)
}

/// A register of `n` qubits has `2^n` basis states.
pub proof fn lemma_register_len_is_pow2(n: u64)
    requires
        n < 64,
    ensures
        register_len(n) == pow2(n as nat),
{
    lemma_u64_pow2_no_overflow(n as nat);
    lemma_u64_shl_is_mul(1, n);
}

/// Qubit `qubit` of basis state `index` is the binary digit of `index` that
/// counts `2^qubit`.
pub proof fn lemma_bit_is_binary_digit(index: u64, qubit: u64)
    requires
        qubit < 64,
    ensures
        bit_is_set(index, qubit) == ((index as nat / pow2(qubit as nat)) % 2 == 1),
{
    let shifted = index >> qubit;
    lemma_u64_shr_is_div(index, qubit);
    assert(shifted & 1 == shifted % 2) by (bit_vector);
}

/// Two registers of the same length have the same number of qubits.
pub proof fn lemma_register_len_injective(a: u64, b: u64)
    requires
        a < 64,
        b < 64,
        register_len(a) == register_len(b),
    ensures
        a == b,
{
    assert(a == b) by (bit_vector)
        requires
            a < 64,
            b < 64,
            1u64 << a == 1u64 << b,
    ;
}

/// The qubit count of a register length is the exponent that gives it.
pub proof fn lemma_qubit_count(n: u64)
    requires
        n < 64,
    ensures
        is_register_len(register_len(n) as nat),
        qubit_count(register_len(n) as nat) == n,
{
    let len = register_len(n) as nat;
    assert(is_register_len(len));
    lemma_register_len_injective(qubit_count(len), n);
}

/// A nonzero word that shares no bit with its predecessor has exactly one bit.
proof fn lemma_single_bit(x: u64)
    requires
        x != 0,
        x & ((x - 1) as u64) == 0,
    ensures
        exists|n: u64| n < 64 && x == #[trigger] register_len(n),
    decreases x,
{
    let p: u64 = (x - 1) as u64;
    if x & 1 == 1 {
        assert(x == 1u64 << 0u64) by (bit_vector)
            requires
                x != 0,
                p == x - 1,
                x & p == 0,
                x & 1 == 1,
        ;
        assert(x == register_len(0));
    } else {
        let y: u64 = x >> 1;
        assert(y != 0 && y < x && x == y << 1) by (bit_vector)
            requires
                y == x >> 1,
                x != 0,
                x & 1 != 1,
        ;
        let q: u64 = (y - 1) as u64;
        assert(y & q == 0) by (bit_vector)
            requires
                y == x >> 1,
                x != 0,
                y != 0,
                p == x - 1,
                q == y - 1,
                x & p == 0,
                x & 1 != 1,
        ;
        lemma_single_bit(y);
        let m = choose|n: u64| n < 64 && y == #[trigger] register_len(n);
        let m1: u64 = if m < 63 { (m + 1) as u64 } else { 0 };
        assert(m < 63 && x == 1u64 << m1) by (bit_vector)
            requires
                m < 64,
                y == 1u64 << m,
                x == y << 1,
                x != 0,
                m < 63 ==> m1 == m + 1,
        ;
        assert(x == register_len(m1));
    }
}

/// A word with exactly one bit shares no bit with its predecessor.
proof fn lemma_single_bit_mask(n: u64)
    requires
        n < 64,
    ensures
        register_len(n) != 0,
        register_len(n) & ((register_len(n) - 1) as u64) == 0,
{
    let x: u64 = 1u64 << n;
    assert(x != 0) by (bit_vector)
        requires
            n < 64,
            x == 1u64 << n,
    ;
    let p: u64 = (x - 1) as u64;
    assert(x & p == 0) by (bit_vector)
        requires
            n < 64,
            x == 1u64 << n,
            p == x - 1,
    ;
}

/// A register has at least one basis state.
pub proof fn lemma_register_len_positive(len: nat)
    requires
        is_register_len(len),
    ensures
        len > 0,
{
    let n = qubit_count(len);
    lemma_single_bit_mask(n);
}

/// Whether `len` is a power of two, by the test `len & (len - 1) == 0` on a
/// nonzero length.
pub fn is_power_of_two(len: usize) -> (b: bool)
    ensures
        b == is_register_len(len as nat),
{
    if len == 0 {
        assert forall|n: u64| n < 64 implies #[trigger] register_len(n) != 0 by {
            lemma_single_bit_mask(n);
        }
        return false;
    }
    let x: u64 = len as u64;
    let single: bool = x & (x - 1) == 0;
    proof {
        if single {
            lemma_single_bit(x);
        } else {
            assert forall|n: u64| n < 64 implies #[trigger] register_len(n) != x by {
                lemma_single_bit_mask(n);
            }
        }
    }
    single
}

/// The number of qubits of a register of `len` basis states.
pub fn log2(len: usize) -> (n: usize)
    requires
        is_register_len(len as nat),
    ensures
        n == qubit_count(len as nat),
        n < 64,
        len == register_len(n as u64),
{
    let x: u64 = len as u64;
    let mut n: u64 = 0;
    while n < 63 && (1u64 << n) != x
        invariant
            n < 64,
            x == len,
            is_register_len(len as nat),
            forall|k: u64| k < n ==> #[trigger] register_len(k) != x,
        decreases 64 - n,
    {
        n = n + 1;
    }
    proof {
        let w = qubit_count(len as nat);
        assert(w < 64 && x == register_len(w));
        if (1u64 << n) != x {
            assert(w >= n);
            assert(w == n);
        }
        lemma_register_len_injective(w, n);
    }
    n as usize
}

/// Whether qubit `qubit` has the value 1 in basis state `index`.
pub fn test_bit(index: usize, qubit: usize) -> (b: bool)
    ensures
        b == bit_is_set(index as u64, qubit as u64),
{
    if qubit >= MAX_QUBITS {
        false
    } else {
        ((index as u64) >> (qubit as u64)) & 1 == 1
    }
}

/// Flipping a qubit twice gives the index back.
pub proof fn lemma_flip_involution(index: u64, qubit: u64)
    requires
        qubit < 64,
    ensures
        with_bit_flipped(with_bit_flipped(index, qubit), qubit) == index,
{
    assert((index ^ (1u64 << qubit)) ^ (1u64 << qubit) == index) by (bit_vector);
}

/// Flipping a qubit changes that qubit and moves the index up when the qubit
/// was 0, down when it was 1.
pub proof fn lemma_flip_changes_bit(index: u64, qubit: u64)
    requires
        qubit < 64,
    ensures
        bit_is_set(with_bit_flipped(index, qubit), qubit) != bit_is_set(index, qubit),
        bit_is_set(index, qubit) ==> with_bit_flipped(index, qubit) < index,
        !bit_is_set(index, qubit) ==> with_bit_flipped(index, qubit) > index,
{
    let j = index ^ (1u64 << qubit);
    assert(((j >> qubit) & 1 == 1) != ((index >> qubit) & 1 == 1)) by (bit_vector)
        requires
            qubit < 64,
            j == index ^ (1u64 << qubit),
    ;
    assert(((index >> qubit) & 1 == 1) ==> j < index) by (bit_vector)
        requires
            qubit < 64,
            j == index ^ (1u64 << qubit),
    ;
    assert(!((index >> qubit) & 1 == 1) ==> j > index) by (bit_vector)
        requires
            qubit < 64,
            j == index ^ (1u64 << qubit),
    ;
}

/// Flipping one qubit leaves every other qubit as it was.
pub proof fn lemma_flip_keeps_other_bits(index: u64, qubit: u64, other: u64)
    requires
        qubit < 64,
        other != qubit,
    ensures
        bit_is_set(with_bit_flipped(index, qubit), other) == bit_is_set(index, other),
{
    if other < 64 {
        let j = index ^ (1u64 << qubit);
        assert(((j >> other) & 1 == 1) == ((index >> other) & 1 == 1)) by (bit_vector)
            requires
                qubit < 64,
                other < 64,
                other != qubit,
                j == index ^ (1u64 << qubit),
        ;
    }
}

/// Flipping a qubit of the register stays inside the register.
pub proof fn lemma_flip_in_register(index: u64, qubit: u64, qubits: u64)
    requires
        qubits < 64,
        qubit < qubits,
        index < register_len(qubits),
    ensures
        with_bit_flipped(index, qubit) < register_len(qubits),
{
    assert((index ^ (1u64 << qubit)) < (1u64 << qubits)) by (bit_vector)
        requires
            qubits < 64,
            qubit < qubits,
            index < (1u64 << qubits),
    ;
}

/// The basis index whose amplitude a controlled NOT moves to `index`: the
/// index with qubit `target` flipped where qubit `control` is 1, the index
/// itself elsewhere.  With the control as its own target nothing moves.
pub open spec fn cnot_source(index: u64, control: u64, target: u64) -> u64 {
    if control != target && bit_is_set(index, control) {
        with_bit_flipped(index, target)
    } else {
        index
    }
}

/// The lower of the two basis indices that differ in qubit `qubit` only and
/// of which `index` is one.
pub open spec fn lower_of_pair(index: u64, qubit: u64) -> u64 {
    if bit_is_set(index, qubit) {
        with_bit_flipped(index, qubit)
    } else {
        index
    }
}

/// The basis index whose amplitude stands at `index` once a controlled NOT
/// has gone through the basis indices below `done`: a pair is exchanged when
/// its lower index is reached.
pub open spec fn partner_so_far(index: u64, control: u64, target: u64, done: u64) -> u64 {
    if lower_of_pair(index, target) < done {
        cnot_source(index, control, target)
    } else {
        index
    }
}

/// A controlled NOT is its own inverse on basis indices.
pub proof fn lemma_cnot_source_involution(index: u64, control: u64, target: u64)
    requires
        control < 64,
        target < 64,
    ensures
        cnot_source(cnot_source(index, control, target), control, target) == index,
{
    if control != target && bit_is_set(index, control) {
        lemma_flip_keeps_other_bits(index, target, control);
        lemma_flip_involution(index, target);
    }
}

/// A controlled NOT on qubits of the register maps the register to itself.
pub proof fn lemma_cnot_source_in_register(index: u64, control: u64, target: u64, qubits: u64)
    requires
        qubits < 64,
        target < qubits,
        index < register_len(qubits),
    ensures
        cnot_source(index, control, target) < register_len(qubits),
{
    lemma_flip_in_register(index, target, qubits);
}

/// The basis index that differs from `index` in qubit `qubit` only.
pub fn flip_bit(index: usize, qubit: usize) -> (j: u64)
    requires
        qubit < 64,
    ensures
        j == with_bit_flipped(index as u64, qubit as u64),
{
    (index as u64) ^ (1u64 << (qubit as u64))
}

} // verus!
