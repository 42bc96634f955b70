//! Reading an `Accept-Encoding` field into codings and quality values.

use hyper::header::Header;
use vstd::prelude::*;

use crate::negotiate::{Coding, QualityItem};
use crate::text::chars_of;

verus! {

/// The position of the last semicolon in `s`, if any.
pub open spec fn last_semicolon(s: Seq<char>) -> Option<nat>
    decreases s.len(),
{
    if s.len() == 0 {
        None
    } else if s.last() == ';' {
        Some((s.len() - 1) as nat)
    } else {
        last_semicolon(s.drop_last())
    }
}

pub open spec fn is_digit(c: char) -> bool {
    '0' <= c && c <= '9'
}

pub open spec fn digit_of(c: char) -> nat {
    (c as nat - '0' as nat) as nat
}

/// A quality value (RFC 7231 section 5.3.1) in thousandths: `0`, `0.` and up
/// to three digits, `1`, or `1.` and up to three zeros.
pub open spec fn qvalue(t: Seq<char>) -> Option<u16> {
    if t.len() == 1 && t[0] == '0' {
        Some(0)
    } else if t.len() == 1 && t[0] == '1' {
        Some(1000)
    } else if 2 <= t.len() <= 5 && t[0] == '0' && t[1] == '.' && forall|i: int|
        2 <= i < t.len() ==> is_digit(#[trigger] t[i]) {
        let d1 = if t.len() > 2 { digit_of(t[2]) } else { 0 };
        let d2 = if t.len() > 3 { digit_of(t[3]) } else { 0 };
        let d3 = if t.len() > 4 { digit_of(t[4]) } else { 0 };
        Some((d1 * 100 + d2 * 10 + d3) as u16)
    } else if 2 <= t.len() <= 5 && t[0] == '1' && t[1] == '.' && forall|i: int|
        2 <= i < t.len() ==> #[trigger] t[i] == '0' {
        Some(1000)
    } else {
        None
    }
}

/// The coding a token names; tokens compare exactly.
pub open spec fn coding_of(s: Seq<char>) -> Coding {
    if s == "gzip"@ {
        Coding::Gzip
    } else if s == "identity"@ {
        Coding::Identity
    } else if s == "*"@ {
        Coding::Star
    } else {
        Coding::Other
    }
}

/// `a` holds exactly the characters of `lit`.
fn same_chars(a: &Vec<char>, lit: &str) -> (r: bool)
    ensures
        r == (a@ == lit@),
{
    let b = chars_of(lit);
    if a.len() != b.len() {
        return false;
    }
    let mut i: usize = 0;
    while i < a.len()
        invariant
            i <= a@.len(),
            a@.len() == b@.len(),
            b@ == lit@,
            forall|j: int| 0 <= j < i ==> a@[j] == b@[j],
        decreases a@.len() - i,
    {
        if a[i] != b[i] {
            return false;
        }
        i += 1;
    }
    assert(a@ =~= b@);
    true
}

fn coding(s: &Vec<char>) -> (r: Coding)
    ensures
        r == coding_of(s@),
{
    if same_chars(s, "gzip") {
        Coding::Gzip
    } else if same_chars(s, "identity") {
        Coding::Identity
    } else if same_chars(s, "*") {
        Coding::Star
    } else {
        Coding::Other
    }
}

/// The digit at `from + i`, 0 past the end, `None` for a non-digit.
fn digit_or_zero(t: &Vec<char>, from: usize, i: usize) -> (r: Option<u16>)
    requires
        from <= t@.len(),
        i <= 4,
    ensures
        from + i < t@.len() ==> r == (if is_digit(t@[from + i]) {
            Some(digit_of(t@[from + i]) as u16)
        } else {
            None
        }),
        from + i >= t@.len() ==> r == Some(0u16),
        r matches Some(d) ==> d <= 9,
{
    if i < t.len() - from {
        let c = t[from + i];
        if '0' <= c && c <= '9' {
            Some((c as u32 - '0' as u32) as u16)
        } else {
            None
        }
    } else {
        Some(0)
    }
}

fn quality(t: &Vec<char>, from: usize) -> (r: Option<u16>)
    requires
        from <= t@.len(),
    ensures
        r == qvalue(t@.subrange(from as int, t@.len() as int)),
{
    let ghost s = t@.subrange(from as int, t@.len() as int);
    let len = t.len();
    let n = len - from;
    if n == 1 && t[from] == '0' {
        return Some(0);
    }
    if n == 1 && t[from] == '1' {
        return Some(1000);
    }
    if n < 2 || n > 5 || t[from + 1] != '.' {
        return None;
    }
    if t[from] == '0' {
        let d1 = digit_or_zero(t, from, 2);
        let d2 = digit_or_zero(t, from, 3);
        let d3 = digit_or_zero(t, from, 4);
        match (d1, d2, d3) {
            (Some(a), Some(b), Some(c)) => {
                assert forall|j: int| 2 <= j < s.len() implies is_digit(#[trigger] s[j]) by {
                    assert(j == 2 || j == 3 || j == 4);
                }
                return Some(a * 100 + b * 10 + c);
            },
            _ => {
                return None;
            },
        }
    }
    if t[from] == '1' {
        let mut i: usize = 2;
        while i < n
            invariant
                2 <= i <= n,
                n == s.len(),
                from + n == t@.len(),
                len == t@.len(),
                s[0] == '1',
                s == t@.subrange(from as int, t@.len() as int),
                forall|j: int| 2 <= j < i ==> #[trigger] s[j] == '0',
            decreases n - i,
        {
            if t[from + i] != '0' {
                assert(s[i as int] == t@[from + i]);
                return None;
            }
            i += 1;
        }
        return Some(1000);
    }
    None
}

/// The display form of each item that hyper's `Accept-Encoding` parser reads
/// from `raw`: the coding, then `; q=` and the quality where it is not 1.
pub uninterp spec fn accept_encoding_renderings(raw: Seq<char>) -> Option<Seq<Seq<char>>>;

pub open spec fn views(v: Seq<String>) -> Seq<Seq<char>> {
    v.map_values(|s: String| s@)
}

/// Relies on `hyper::header::AcceptEncoding::parse_header` and the `Display` of
/// each `QualityItem` it yields; both depend on the field's text alone.
#[verifier::external_body]
fn hyper_accept_encoding(raw: &str) -> (r: Option<Vec<String>>)
    ensures
        r.is_some() == accept_encoding_renderings(raw@).is_some(),
        r.is_some() ==> views(r.unwrap()@) == accept_encoding_renderings(raw@).unwrap(),
{
    let parsed = hyper::header::AcceptEncoding::parse_header(&hyper::header::Raw::from(raw));
    parsed.ok().map(|ae| ae.0.iter().map(|qi| qi.to_string()).collect())
}

/// The coding and quality that a displayed item stands for: the quality follows
/// the last `; q=`, and is 1 where there is none.
pub open spec fn rendering_item(s: Seq<char>) -> QualityItem {
    match last_semicolon(s) {
        Some(j) => if j + 4 <= s.len() && s[j as int + 1] == ' ' && s[j as int + 2] == 'q' && s[j as int + 3]
            == '=' {
            QualityItem {
                item: coding_of(s.subrange(0, j as int)),
                quality: match qvalue(s.subrange(j as int + 4, s.len() as int)) {
                    Some(q) => q,
                    None => 1000,
                },
            }
        } else {
            QualityItem { item: coding_of(s), quality: 1000 }
        },
        None => QualityItem { item: coding_of(s), quality: 1000 },
    }
}

fn item_of(s: &str) -> (r: QualityItem)
    ensures
        r == rendering_item(s@),
{
    let c = chars_of(s);
    let mut k: usize = c.len();
    assert(c@.subrange(0, k as int) =~= c@);
    while k > 0 && c[k - 1] != ';'
        invariant
            k <= c@.len(),
            c@ == s@,
            last_semicolon(s@) == last_semicolon(c@.subrange(0, k as int)),
        decreases k,
    {
        assert(c@.subrange(0, k as int).drop_last() =~= c@.subrange(0, k - 1));
        k -= 1;
    }
    if k == 0 {
        assert(last_semicolon(c@.subrange(0, 0)) == None::<nat>);
        return QualityItem { item: coding(&c), quality: 1000 };
    }
    let j = k - 1;
    assert(last_semicolon(s@) == Some(j as nat));
    if 4 <= c.len() - j && c[j + 1] == ' ' && c[j + 2] == 'q' && c[j + 3] == '=' {
        let mut name: Vec<char> = Vec::new();
        let mut i: usize = 0;
        while i < j
            invariant
                i <= j,
                j < c@.len(),
                name@ == c@.subrange(0, i as int),
            decreases j - i,
        {
            name.push(c[i]);
            i += 1;
            assert(name@ =~= c@.subrange(0, i as int));
        }
        let q = match quality(&c, j + 4) {
            Some(q) => q,
            None => 1000,
        };
        QualityItem { item: coding(&name), quality: q }
    } else {
        QualityItem { item: coding(&c), quality: 1000 }
    }
}

/// The codings and qualities that displayed items stand for, in order.
pub fn items_from_renderings(v: &Vec<String>) -> (r: Vec<QualityItem>)
    ensures
        r@ == views(v@).map_values(|s: Seq<char>| rendering_item(s)),
{
    let mut out: Vec<QualityItem> = Vec::new();
    let mut i: usize = 0;
    while i < v.len()
        invariant
            i <= v@.len(),
            out@ == views(v@).subrange(0, i as int).map_values(|s: Seq<char>| rendering_item(s)),
        decreases v@.len() - i,
    {
        out.push(item_of(v[i].as_str()));
        i += 1;
        assert(out@ =~= views(v@).subrange(0, i as int).map_values(|s: Seq<char>| rendering_item(s)));
    }
    assert(views(v@).subrange(0, v@.len() as int) =~= views(v@));
    out
}

/// The codings and quality values of an `Accept-Encoding` value, in order, as
/// hyper reads them; `None` where hyper does not accept the field.
pub fn parse_accept_encoding(raw: &str) -> (r: Option<Vec<QualityItem>>)
    ensures
        r.is_some() == accept_encoding_renderings(raw@).is_some(),
        r.is_some() ==> r.unwrap()@ == accept_encoding_renderings(raw@).unwrap().map_values(
            |s: Seq<char>| rendering_item(s),
        ),
{
    match hyper_accept_encoding(raw) {
        None => None,
        Some(v) => Some(items_from_renderings(&v)),
    }
}

} // verus!
