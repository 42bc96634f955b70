//! Positional numerals over an arbitrary alphabet, most significant digit first.

pub mod base36;
pub mod revvec;

use vstd::prelude::*;

use crate::codec::revvec::RevVec;
use crate::text::{chars_of, reversed, string_of};

verus! {

/// Digits of `n` in radix `b`, least significant first; zero is the single digit 0.
pub open spec fn digits_le(n: nat, b: nat) -> Seq<nat>
    decreases n,
    via digits_le_decreases
{
    if b < 2 || n < b {
        seq![n]
    } else {
        seq![n % b] + digits_le(n / b, b)
    }
}

#[via_fn]
proof fn digits_le_decreases(n: nat, b: nat) {
    if !(b < 2 || n < b) {
        assert(n / b < n) by (nonlinear_arith)
            requires
                b >= 2,
                n >= b,
        ;
    }
}

/// The number that digits `d` (least significant first) stand for in radix `b`.
pub open spec fn value_le(d: Seq<nat>, b: nat) -> nat
    decreases d.len(),
{
    if d.len() == 0 {
        0
    } else {
        d[0] + b * value_le(d.drop_first(), b)
    }
}

/// The symbols of alphabet `a` that spell digits `d`.
pub open spec fn spell(a: Seq<char>, d: Seq<nat>) -> Seq<char> {
    d.map_values(|x: nat| a[x as int])
}

/// `k` is the first position of `c` in `a`.
pub open spec fn is_first_index(a: Seq<char>, c: char, k: int) -> bool {
    0 <= k < a.len() && a[k] == c && forall|j: int| 0 <= j < k ==> a[j] != c
}

/// The first position of `c` in `a` (meaningful where `a` contains `c`).
pub open spec fn symbol_index(a: Seq<char>, c: char) -> nat {
    (choose|k: int| is_first_index(a, c, k)) as nat
}

/// Digits that the characters of `s` stand for in alphabet `a`.
pub open spec fn digit_values(a: Seq<char>, s: Seq<char>) -> Seq<nat> {
    s.map_values(|c: char| symbol_index(a, c))
}

/// Every character of `s` belongs to alphabet `a`.
pub open spec fn all_symbols(a: Seq<char>, s: Seq<char>) -> bool {
    forall|i: int| 0 <= i < s.len() ==> a.contains(#[trigger] s[i])
}

/// The number that `s` spells in alphabet `a`, least significant digit first;
/// `None` where `s` holds a character outside `a`.
pub open spec fn decoded_le(a: Seq<char>, s: Seq<char>) -> Option<nat> {
    if all_symbols(a, s) {
        Some(value_le(digit_values(a, s), a.len()))
    } else {
        None
    }
}

pub proof fn lemma_first_index_unique(a: Seq<char>, c: char, k: int)
    requires
        is_first_index(a, c, k),
    ensures
        symbol_index(a, c) == k,
{
    let j = choose|j: int| is_first_index(a, c, j);
    assert(is_first_index(a, c, j));
    if j < k {
        assert(a[j] != c);
    } else if k < j {
        assert(a[k] != c);
    }
}

pub proof fn lemma_contains_first_index(a: Seq<char>, c: char)
    requires
        a.contains(c),
    ensures
        is_first_index(a, c, symbol_index(a, c) as int),
    decreases a.len(),
{
    let i = choose|i: int| 0 <= i < a.len() && a[i] == c;
    if a[0] == c {
        lemma_first_index_unique(a, c, 0);
    } else {
        let t = a.drop_first();
        assert(t[i - 1] == c);
        lemma_contains_first_index(t, c);
        let k = symbol_index(t, c) as int;
        assert(is_first_index(a, c, k + 1)) by {
            assert forall|j: int| 0 <= j < k + 1 implies a[j] != c by {
                if j > 0 {
                    assert(a[j] == t[j - 1]);
                }
            }
        }
        lemma_first_index_unique(a, c, k + 1);
    }
}

pub proof fn lemma_digits_le_bounded(n: nat, b: nat)
    requires
        b >= 2,
    ensures
        forall|i: int| 0 <= i < digits_le(n, b).len() ==> #[trigger] digits_le(n, b)[i] < b,
    decreases n,
{
    if n >= b {
        assert(n / b < n) by (nonlinear_arith)
            requires
                b >= 2,
                n >= b,
        ;
        lemma_digits_le_bounded(n / b, b);
        let d = digits_le(n, b);
        assert forall|i: int| 0 <= i < d.len() implies #[trigger] d[i] < b by {
            if i > 0 {
                assert(d[i] == digits_le(n / b, b)[i - 1]);
            }
        }
    }
}

pub proof fn lemma_value_of_digits_le(n: nat, b: nat)
    requires
        b >= 2,
    ensures
        value_le(digits_le(n, b), b) == n,
    decreases n,
{
    let d = digits_le(n, b);
    if n < b {
        assert(d == seq![n]);
        assert(d.drop_first() =~= Seq::<nat>::empty());
        assert(value_le(d.drop_first(), b) == 0);
        assert(value_le(d, b) == d[0] + b * value_le(d.drop_first(), b));
    } else {
        assert(n / b < n) by (nonlinear_arith)
            requires
                b >= 2,
                n >= b,
        ;
        lemma_value_of_digits_le(n / b, b);
        assert(d == seq![n % b] + digits_le(n / b, b));
        assert(d[0] == n % b);
        assert(d.drop_first() =~= digits_le(n / b, b));
        assert(n % b + b * (n / b) == n) by (nonlinear_arith)
            requires
                b >= 2,
        ;
        assert(value_le(d, b) == d[0] + b * value_le(d.drop_first(), b));
    }
}

/// The indices of the symbols that spell digits below the radix are those digits,
/// in an alphabet without repeated symbols.
pub proof fn lemma_digit_values_of_spell(a: Seq<char>, d: Seq<nat>)
    requires
        a.no_duplicates(),
        forall|i: int| 0 <= i < d.len() ==> #[trigger] d[i] < a.len(),
    ensures
        all_symbols(a, spell(a, d)),
        digit_values(a, spell(a, d)) == d,
{
    let s = spell(a, d);
    assert forall|i: int| 0 <= i < s.len() implies a.contains(#[trigger] s[i]) by {
        assert(a[d[i] as int] == s[i]);
    }
    assert forall|i: int| 0 <= i < s.len() implies #[trigger] digit_values(a, s)[i] == d[i] by {
        let k = d[i] as int;
        assert(is_first_index(a, s[i], k)) by {
            assert forall|j: int| 0 <= j < k implies a[j] != s[i] by {
                assert(a[j] != a[k]);
            }
        }
        lemma_first_index_unique(a, s[i], k);
    }
    assert(digit_values(a, s) =~= d);
}

/// `n` written in alphabet `a`, most significant digit first.
pub open spec fn numeral(a: Seq<char>, n: nat) -> Seq<char> {
    spell(a, digits_le(n, a.len())).reverse()
}

/// The number that `s` spells in alphabet `a`, most significant digit first;
/// `None` where `s` holds a character outside `a`.
pub open spec fn numeral_value(a: Seq<char>, s: Seq<char>) -> Option<nat> {
    decoded_le(a, s.reverse())
}

/// Decoding what `Codec::encode` writes gives back the number, for an alphabet
/// of at least two symbols in which no symbol repeats.
pub proof fn lemma_codec_round_trip(a: Seq<char>, n: nat)
    requires
        a.len() >= 2,
        a.no_duplicates(),
    ensures
        numeral_value(a, numeral(a, n)) == Some(n),
{
    let s = spell(a, digits_le(n, a.len()));
    assert(s.reverse().reverse() =~= s);
    lemma_digits_le_bounded(n, a.len());
    lemma_digit_values_of_spell(a, digits_le(n, a.len()));
    lemma_value_of_digits_le(n, a.len());
}

proof fn lemma_value_le_step(d: Seq<nat>, b: nat, i: int)
    requires
        0 <= i < d.len(),
    ensures
        value_le(d.subrange(i, d.len() as int), b) == d[i] + b * value_le(
            d.subrange(i + 1, d.len() as int),
            b,
        ),
{
    assert(d.subrange(i, d.len() as int).drop_first() =~= d.subrange(i + 1, d.len() as int));
}

/// Encodes and decodes numbers in the numeral system of an alphabet,
/// most significant digit first.
pub struct Codec {
    alphabet: Vec<char>,
}

impl Codec {
    /// The alphabet; the radix is its length.
    pub closed spec fn symbols(&self) -> Seq<char> {
        self.alphabet@
    }

    pub open spec fn wf(&self) -> bool {
        self.symbols().len() >= 2
    }

    pub fn new(alphabet: &[char]) -> (r: Codec)
        requires
            alphabet@.len() >= 2,
        ensures
            r.wf(),
            r.symbols() == alphabet@,
    {
        let mut v: Vec<char> = Vec::new();
        let mut i: usize = 0;
        while i < alphabet.len()
            invariant
                i <= alphabet@.len(),
                v@ == alphabet@.subrange(0, i as int),
            decreases alphabet@.len() - i,
        {
            v.push(alphabet[i]);
            i += 1;
            assert(v@ =~= alphabet@.subrange(0, i as int));
        }
        assert(v@ =~= alphabet@);
        Codec { alphabet: v }
    }

    /// The digits of `x`, most significant first, each written as its symbol.
    pub fn encode(&self, x: u64) -> (r: String)
        requires
            self.wf(),
        ensures
            r@ == numeral(self.symbols(), x as nat),
    {
        let len = self.alphabet.len();
        let radix = len as u64;
        let ghost a = self.symbols();
        let ghost b = a.len();
        let mut n = x;
        let mut digits: RevVec<char> = RevVec::new();
        while n >= radix
            invariant
                radix == b,
                radix == len as u64,
                len == a.len(),
                b == a.len(),
                b >= 2,
                a == self.alphabet@,
                spell(a, digits_le(n as nat, b)).reverse() + digits@ == spell(a, digits_le(x as nat, b)).reverse(),
            decreases n,
        {
            let rem = n % radix;
            assert(rem < radix);
            let ghost prev = digits@;
            digits.push(self.alphabet[rem as usize]);
            proof {
                let dn = digits_le(n as nat, b);
                assert((n as nat) % b == rem as nat);
                assert((n as nat) / b == (n / radix) as nat);
                assert(dn == seq![(n as nat) % b] + digits_le((n / radix) as nat, b));
                assert(digits@ == seq![a[rem as int]] + prev);
                assert(spell(a, dn) =~= seq![a[rem as int]] + spell(a, digits_le((n / radix) as nat, b)));
                assert(spell(a, dn).reverse() =~= spell(a, digits_le((n / radix) as nat, b)).reverse()
                    + seq![a[rem as int]]);
                assert(spell(a, digits_le((n / radix) as nat, b)).reverse() + digits@ =~= spell(a, dn).reverse()
                    + prev);
            }
            n = n / radix;
        }
        let ghost prev = digits@;
        digits.push(self.alphabet[n as usize]);
        proof {
            assert(spell(a, digits_le(n as nat, b)) =~= seq![a[n as int]]);
            assert(spell(a, digits_le(n as nat, b)).reverse() =~= seq![a[n as int]]);
            assert(digits@ =~= spell(a, digits_le(x as nat, b)).reverse());
        }
        let v = digits.into_vec();
        string_of(v.as_slice())
    }

    /// The first position of `c` in the alphabet.
    fn position(&self, c: char) -> (r: Option<usize>)
        ensures
            r.is_some() == self.symbols().contains(c),
            r.is_some() ==> r.unwrap() == symbol_index(self.symbols(), c),
    {
        let mut i: usize = 0;
        while i < self.alphabet.len()
            invariant
                i <= self.alphabet@.len(),
                forall|j: int| 0 <= j < i ==> self.alphabet@[j] != c,
            decreases self.alphabet@.len() - i,
        {
            if self.alphabet[i] == c {
                proof {
                    lemma_first_index_unique(self.symbols(), c, i as int);
                }
                return Some(i);
            }
            i += 1;
        }
        None
    }

    /// The number that `x` spells, most significant digit first; `None` where
    /// `x` holds a character outside the alphabet or the number exceeds `u64::MAX`.
    pub fn decode(&self, x: &str) -> (r: Option<u64>)
        requires
            self.wf(),
        ensures
            r == (match numeral_value(self.symbols(), x@) {
                Some(v) => if v <= u64::MAX {
                    Some(v as u64)
                } else {
                    None
                },
                None => None,
            }),
    {
        let little = reversed(x);
        self.decode_le(little.as_str())
    }

    /// The number that `x` spells, least significant digit first.
    fn decode_le(&self, x: &str) -> (r: Option<u64>)
        requires
            self.wf(),
        ensures
            r == (match decoded_le(self.symbols(), x@) {
                Some(v) => if v <= u64::MAX {
                    Some(v as u64)
                } else {
                    None
                },
                None => None,
            }),
    {
        let a = Ghost(self.symbols());
        let chars = chars_of(x);
        let mut idxs: Vec<u64> = Vec::new();
        let mut i: usize = 0;
        while i < chars.len()
            invariant
                i <= chars@.len(),
                chars@ == x@,
                a@ == self.symbols(),
                idxs@.len() == i,
                forall|j: int| 0 <= j < i ==> a@.contains(#[trigger] chars@[j]),
                forall|j: int|
                    0 <= j < i ==> idxs@[j] as nat == symbol_index(a@, #[trigger] chars@[j]),
            decreases chars@.len() - i,
        {
            let c = chars[i];
            let p = self.position(c);
            if p.is_none() {
                assert(!a@.contains(x@[i as int]));
                assert(!all_symbols(a@, x@));
                return None;
            }
            let k = p.unwrap();
            let ghost prev = idxs@;
            idxs.push(k as u64);
            assert(idxs@[i as int] as nat == symbol_index(a@, chars@[i as int]));
            assert(forall|j: int| 0 <= j < i ==> idxs@[j] == prev[j]);
            i += 1;
        }
        let ghost d = digit_values(a@, x@);
        assert(all_symbols(a@, x@));
        assert(forall|j: int| 0 <= j < d.len() ==> d[j] == idxs@[j] as nat);
        let radix = self.alphabet.len() as u64;
        let mut acc: u64 = 0;
        let mut k: usize = idxs.len();
        assert(d.subrange(k as int, d.len() as int) =~= Seq::<nat>::empty());
        while k > 0
            invariant
                k <= d.len(),
                a@ == self.symbols(),
                d == digit_values(a@, x@),
                all_symbols(a@, x@),
                d.len() == idxs@.len(),
                radix == a@.len(),
                radix >= 2,
                forall|j: int| 0 <= j < d.len() ==> d[j] == idxs@[j] as nat,
                acc as nat == value_le(d.subrange(k as int, d.len() as int), radix as nat),
            decreases k,
        {
            proof {
                lemma_value_le_step(d, radix as nat, k - 1);
                lemma_value_le_suffix_grows(d, radix as nat, k - 1);
            }
            let digit = idxs[k - 1];
            assert(digit as nat == d[k - 1]);
            let ghost total = value_le(d, radix as nat);
            assert(decoded_le(a@, x@) == Some(total));
            let m = acc.checked_mul(radix);
            if m.is_none() {
                assert(radix as nat * acc as nat > u64::MAX);
                assert(total > u64::MAX);
                return None;
            }
            let s = m.unwrap().checked_add(digit);
            if s.is_none() {
                assert(total > u64::MAX);
                return None;
            }
            acc = s.unwrap();
            k -= 1;
        }
        assert(d.subrange(0, d.len() as int) =~= d);
        Some(acc)
    }
}

/// The value of a suffix never exceeds the value of the whole digit sequence.
proof fn lemma_value_le_suffix_grows(d: Seq<nat>, b: nat, i: int)
    requires
        0 <= i <= d.len(),
        b >= 1,
    ensures
        value_le(d.subrange(i, d.len() as int), b) <= value_le(d, b),
    decreases i,
{
    if i > 0 {
        lemma_value_le_suffix_grows(d, b, i - 1);
        lemma_value_le_step(d, b, i - 1);
        let v = value_le(d.subrange(i, d.len() as int), b);
        assert(v <= b * v) by (nonlinear_arith)
            requires
                b >= 1,
        ;
    } else {
        assert(d.subrange(0, d.len() as int) =~= d);
    }
}

} // verus!
