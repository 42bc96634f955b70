//! Hop-by-hop header fields, which concern one connection only.

use vstd::prelude::*;

use crate::http::{eq_ignore_case, fields, same_name, Header};

verus! {

/// `name` is one of the hop-by-hop fields (compared without regard to ASCII case).
pub open spec fn is_hop_name(name: Seq<char>) -> bool {
    same_name(name, "Connection"@) || same_name(name, "Keep-Alive"@) || same_name(
        name,
        "Proxy-Authenticate"@,
    ) || same_name(name, "Proxy-Authorization"@) || same_name(name, "Te"@) || same_name(
        name,
        "Trailers"@,
    ) || same_name(name, "Transfer-Encoding"@) || same_name(name, "Upgrade"@)
}

/// The fields of `hs` that are not hop-by-hop, in order.
pub open spec fn end_to_end(hs: Seq<(Seq<char>, Seq<char>)>) -> Seq<(Seq<char>, Seq<char>)> {
    hs.filter(|f: (Seq<char>, Seq<char>)| !is_hop_name(f.0))
}

/// No field of `hs` is hop-by-hop.
pub open spec fn no_hop_fields(hs: Seq<(Seq<char>, Seq<char>)>) -> bool {
    forall|i: int| 0 <= i < hs.len() ==> !is_hop_name(#[trigger] hs[i].0)
}

/// A name whose length differs from every hop-by-hop name is not one of them.
pub proof fn lemma_not_hop_by_length(name: Seq<char>)
    requires
        name.len() != 10 && name.len() != 18 && name.len() != 19 && name.len() != 2 && name.len()
            != 8 && name.len() != 17 && name.len() != 7,
    ensures
        !is_hop_name(name),
{
    reveal_strlit("Connection");
    reveal_strlit("Keep-Alive");
    reveal_strlit("Proxy-Authenticate");
    reveal_strlit("Proxy-Authorization");
    reveal_strlit("Te");
    reveal_strlit("Trailers");
    reveal_strlit("Transfer-Encoding");
    reveal_strlit("Upgrade");
}

/// Leaving fields out of a list without hop-by-hop fields leaves none.
pub proof fn lemma_filter_keeps_no_hop(
    hs: Seq<(Seq<char>, Seq<char>)>,
    pred: spec_fn((Seq<char>, Seq<char>)) -> bool,
)
    requires
        no_hop_fields(hs),
    ensures
        no_hop_fields(hs.filter(pred)),
    decreases hs.len(),
{
    reveal(Seq::filter);
    if hs.len() > 0 {
        lemma_filter_keeps_no_hop(hs.drop_last(), pred);
        assert(!is_hop_name(hs[hs.len() - 1].0));
    }
}

/// Whether a header is hop-by-hop, so that a proxy must not pass it on.
pub fn is_hop_header(header: &str) -> (r: bool)
    ensures
        r == is_hop_name(header@),
{
    eq_ignore_case(header, "Connection") || eq_ignore_case(header, "Keep-Alive") || eq_ignore_case(
        header,
        "Proxy-Authenticate",
    ) || eq_ignore_case(header, "Proxy-Authorization") || eq_ignore_case(header, "Te")
        || eq_ignore_case(header, "Trailers") || eq_ignore_case(header, "Transfer-Encoding")
        || eq_ignore_case(header, "Upgrade")
}

/// A new header list with the hop-by-hop fields left out.
pub fn without_hop_headers(headers: &Vec<Header>) -> (r: Vec<Header>)
    ensures
        fields(r@) == end_to_end(fields(headers@)),
        no_hop_fields(fields(r@)),
{
    let mut kept: Vec<Header> = Vec::new();
    let mut i: usize = 0;
    while i < headers.len()
        invariant
            i <= headers@.len(),
            fields(kept@) == end_to_end(fields(headers@).subrange(0, i as int)),
            no_hop_fields(fields(kept@)),
        decreases headers@.len() - i,
    {
        let ghost before = fields(headers@).subrange(0, i as int);
        let ghost old_kept = kept@;
        let ghost x = headers@[i as int]@;
        assert(fields(headers@).subrange(0, i + 1) =~= before.push(x));
        if !is_hop_header(headers[i].name.as_str()) {
            kept.push(headers[i].copy());
            assert(fields(kept@) =~= fields(old_kept).push(x));
        }
        proof {
            reveal(Seq::filter);
            assert(before.push(x).drop_last() =~= before);
            assert(fields(kept@) =~= end_to_end(before.push(x)));
        }
        i += 1;
    }
    assert(fields(headers@).subrange(0, headers@.len() as int) =~= fields(headers@));
    kept
}

} // verus!
