//! Time spans in milliseconds.

use vstd::prelude::*;

use crate::http::{field, fields, get_header, set_header, without_field, Header};

verus! {

/// Whole milliseconds in a span of `secs` seconds and `subsec_nanos` nanoseconds.
pub open spec fn millis_of(secs: nat, subsec_nanos: nat) -> nat {
    secs * 1000 + subsec_nanos / 1_000_000
}

/// Whole milliseconds in a span of `secs` seconds and `subsec_nanos` nanoseconds.
pub fn duration_as_millis(secs: u64, subsec_nanos: u32) -> (r: u64)
    requires
        subsec_nanos < 1_000_000_000,
        millis_of(secs as nat, subsec_nanos as nat) <= u64::MAX,
    ensures
        r == millis_of(secs as nat, subsec_nanos as nat),
{
    secs * 1_000 + (subsec_nanos as u64) / 1_000_000
}

const NANOS_PER_MILLI: u64 = 1_000_000;

const MILLIS_PER_SEC: u64 = 1_000;

/// Whole milliseconds in a span of `secs` seconds and `subsec_nanos` nanoseconds.
pub fn as_millis(secs: u64, subsec_nanos: u32) -> (r: u64)
    requires
        subsec_nanos < 1_000_000_000,
        millis_of(secs as nat, subsec_nanos as nat) <= u64::MAX,
    ensures
        r == millis_of(secs as nat, subsec_nanos as nat),
{
    secs * MILLIS_PER_SEC + (subsec_nanos as u64) / NANOS_PER_MILLI
}

/// The header list after `item` is added to `Vary`: unchanged under `Vary: *`,
/// appended to an existing list, or a new list of one.
pub open spec fn vary_fields(hs: Seq<(Seq<char>, Seq<char>)>, item: Seq<char>) -> Seq<
    (Seq<char>, Seq<char>),
> {
    match field(hs, "Vary"@) {
        Some(v) => if v == "*"@ {
            hs
        } else {
            without_field(hs, "Vary"@).push(("Vary"@, v + seq![',', ' '] + item))
        },
        None => without_field(hs, "Vary"@).push(("Vary"@, item)),
    }
}

/// Adds `item` to the `Vary` field.
pub fn append_header_vary(headers: &mut Vec<Header>, item: &str)
    ensures
        fields(final(headers)@) == vary_fields(fields(old(headers)@), item@),
{
    match get_header(headers, "Vary") {
        Some(v) => {
            let star = "*".to_owned();
            if v == star {
                return;
            }
            let mut list = v;
            list.append(", ");
            list.append(item);
            proof {
                reveal_strlit(", ");
            }
            assert(list@ =~= field(fields(old(headers)@), "Vary"@).unwrap() + seq![',', ' '] + item@);
            set_header(headers, "Vary", list);
        },
        None => {
            set_header(headers, "Vary", item.to_owned());
        },
    }
}

} // verus!
