//! The pieces of text that the renderings of matrices and states are made of.

use crate::bits::{bit_is_set, register_len, test_bit};
use vstd::prelude::*;

verus! {

/// `String::push` of the standard library appends one character to the end
/// of the string.
pub assume_specification[ String::push ](s: &mut String, ch: char)
    ensures
        final(s)@ == old(s)@.push(ch),
;

/// `String::push_str` of the standard library appends a string slice to the
/// end of the string.
pub assume_specification[ String::push_str ](s: &mut String, string: &str)
    ensures
        final(s)@ == old(s)@ + string@,
;

/// `out` is the text `prev` with `piece` behind it.
pub open spec fn is_text_with(prev: Seq<char>, piece: Seq<char>, out: Seq<char>) -> bool {
    out == prev + piece
}

/// The binary digit of a qubit value.
pub open spec fn digit(set: bool) -> char {
    if set {
        '1'
    } else {
        '0'
    }
}

/// The label of basis state `index` of a register of `qubits` qubits: the
/// values of the qubits as binary digits, the most significant qubit first.
/// The one basis state of a register without qubits has the label `0`.
pub open spec fn label(index: u64, qubits: nat) -> Seq<char> {
    if qubits == 0 {
        seq!['0']
    } else {
        Seq::new(qubits, |k: int| digit(bit_is_set(index, (qubits - 1 - k) as u64)))
    }
}

/// The label of basis state `index` of a register of `qubits` qubits.
pub fn basis_label(index: usize, qubits: usize) -> (s: String)
    requires
        qubits < 64,
        index < register_len(qubits as u64),
    ensures
        s@ == label(index as u64, qubits as nat),
{
    let mut s = String::new();
    if qubits == 0 {
        s.push('0');
        assert(s@ =~= seq!['0']);
        return s;
    }
    let mut k: usize = 0;
    while k < qubits
        invariant
            k <= qubits,
            qubits < 64,
            s@.len() == k,
            forall|x: int|
                0 <= x < k ==> #[trigger] s@[x] == digit(
                    bit_is_set(index as u64, (qubits - 1 - x) as u64),
                ),
        decreases qubits - k,
    {
        let set = test_bit(index, qubits - 1 - k);
        s.push(if set { '1' } else { '0' });
        k = k + 1;
    }
    assert(s@ =~= label(index as u64, qubits as nat));
    s
}

} // verus!
