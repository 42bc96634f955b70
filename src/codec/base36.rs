//! Base-36 numerals, most significant digit first.

use vstd::prelude::*;

use crate::codec::{numeral, Codec};

verus! {

/// The base-36 alphabet: decimal digits, then lower-case letters.
pub open spec fn base36_alphabet() -> Seq<char> {
    seq![
        '0', '1', '2', '3', '4', '5', '6', '7', '8', '9',
        'a', 'b', 'c', 'd', 'e', 'f', 'g', 'h', 'i', 'j',
        'k', 'l', 'm', 'n', 'o', 'p', 'q', 'r', 's', 't',
        'u', 'v', 'w', 'x', 'y', 'z',
    ]
}

/// `n` in base 36, most significant digit first.
pub fn encode(n: u64) -> (r: String)
    ensures
        r@ == numeral(base36_alphabet(), n as nat),
{
    let alphabet: [char; 36] = [
        '0', '1', '2', '3', '4', '5', '6', '7', '8', '9',
        'a', 'b', 'c', 'd', 'e', 'f', 'g', 'h', 'i', 'j',
        'k', 'l', 'm', 'n', 'o', 'p', 'q', 'r', 's', 't',
        'u', 'v', 'w', 'x', 'y', 'z',
    ];
    assert(alphabet@ =~= base36_alphabet());
    let codec = Codec::new(&alphabet);
    codec.encode(n)
}

} // verus!
