//! Base-36 numerals, most significant digit first.

use vstd::prelude::*;

use crate::codec::numeral;
use crate::codec::base36::base36_alphabet;

verus! {

/// `n` in base 36 (digits, then lower-case letters), most significant digit first.
pub fn encode(n: u64) -> (r: String)
    ensures
        r@ == numeral(base36_alphabet(), n as nat),
{
    crate::codec::base36::encode(n)
}

} // verus!
