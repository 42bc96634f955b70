//! Base-92 numerals for entity tags, most significant digit first.
//!
//! The alphabet is every printable US-ASCII character that may stand inside a
//! quoted entity-tag except `"` and `,`, in code order.

use vstd::prelude::*;

use crate::codec::{lemma_codec_round_trip, numeral, numeral_value, Codec};

verus! {

/// The radix of entity-tag numerals.
pub const BASE: u64 = 92;

/// The most digits a `u64` takes in base 92.
pub const MAX_CAP: usize = 10;

/// The `i`-th symbol: `!`, then `#` to `+`, then `-` to `~`.
pub open spec fn etag_symbol(i: int) -> char {
    if i == 0 {
        '!'
    } else if i < 10 {
        (34 + i) as char
    } else {
        (35 + i) as char
    }
}

pub open spec fn etag_alphabet() -> Seq<char> {
    Seq::new(92, |i: int| etag_symbol(i))
}

/// `n` in base 92, most significant digit first.
pub open spec fn etag_numeral(n: nat) -> Seq<char> {
    numeral(etag_alphabet(), n)
}

/// The number that `s` spells in base 92, most significant digit first;
/// `None` where `s` holds a character outside the alphabet.
pub open spec fn etag_value(s: Seq<char>) -> Option<nat> {
    numeral_value(etag_alphabet(), s)
}

pub proof fn lemma_etag_alphabet_distinct()
    ensures
        etag_alphabet().no_duplicates(),
        etag_alphabet().len() == BASE,
{
    let a = etag_alphabet();
    assert forall|i: int, j: int| 0 <= i < a.len() && 0 <= j < a.len() && i != j implies a[i]
        != a[j] by {
        let ci: int = if i == 0 { 33 } else if i < 10 { 34 + i } else { 35 + i };
        let cj: int = if j == 0 { 33 } else if j < 10 { 34 + j } else { 35 + j };
        assert(a[i] == ci as char);
        assert(a[j] == cj as char);
        assert(ci != cj);
    }
}

/// Decoding an entity-tag numeral gives back the number it was made from.
pub proof fn lemma_etag_round_trip(n: u64)
    ensures
        etag_value(etag_numeral(n as nat)) == Some(n as nat),
{
    lemma_etag_alphabet_distinct();
    lemma_codec_round_trip(etag_alphabet(), n as nat);
}

/// The alphabet of entity-tag numerals, in digit order.
pub fn alphabet() -> (r: Vec<char>)
    ensures
        r@ == etag_alphabet(),
{
    let symbols: [char; 92] = [
        '!', '#', '$', '%', '&', '\'', '(', ')', '*', '+', '-', '.', '/',
        '0', '1', '2', '3', '4', '5', '6', '7', '8', '9',
        ':', ';', '<', '=', '>', '?', '@',
        'A', 'B', 'C', 'D', 'E', 'F', 'G', 'H', 'I', 'J', 'K', 'L', 'M',
        'N', 'O', 'P', 'Q', 'R', 'S', 'T', 'U', 'V', 'W', 'X', 'Y', 'Z',
        '[', '\\', ']', '^', '_', '`',
        'a', 'b', 'c', 'd', 'e', 'f', 'g', 'h', 'i', 'j', 'k', 'l', 'm',
        'n', 'o', 'p', 'q', 'r', 's', 't', 'u', 'v', 'w', 'x', 'y', 'z',
        '{', '|', '}', '~',
    ];
    assert(symbols@ =~= etag_alphabet());
    let mut v: Vec<char> = Vec::with_capacity(92);
    let mut i: usize = 0;
    while i < 92
        invariant
            i <= 92,
            symbols@ == etag_alphabet(),
            v@ == etag_alphabet().subrange(0, i as int),
        decreases 92 - i,
    {
        v.push(symbols[i]);
        i += 1;
        assert(v@ =~= etag_alphabet().subrange(0, i as int));
    }
    assert(v@ =~= etag_alphabet());
    v
}

fn codec() -> (r: Codec)
    ensures
        r.wf(),
        r.symbols() == etag_alphabet(),
{
    let a = alphabet();
    Codec::new(a.as_slice())
}

/// `n` in base 92, most significant digit first.
pub fn encode(n: u64) -> (r: String)
    ensures
        r@ == etag_numeral(n as nat),
{
    codec().encode(n)
}

/// The number that `s` spells in base 92; `None` where `s` holds a character
/// outside the alphabet or the number exceeds `u64::MAX`.
pub fn decode(s: &str) -> (r: Option<u64>)
    ensures
        r == (match etag_value(s@) {
            Some(v) => if v <= u64::MAX {
                Some(v as u64)
            } else {
                None
            },
            None => None,
        }),
{
    codec().decode(s)
}

} // verus!
