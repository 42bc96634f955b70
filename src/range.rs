//! Evaluating a `Range` request header against the length of a file.

use vstd::prelude::*;

verus! {

/// One byte-range of a `Range: bytes=...` header.
#[derive(PartialEq, Eq, Structural, Clone, Copy, Debug)]
pub enum ByteRangeSpec {
    /// `a-b`: bytes `a` through `b`.
    FromTo(u64, u64),
    /// `a-`: bytes from `a` to the end.
    AllFrom(u64),
    /// `-n`: the last `n` bytes.
    Last(u64),
}

/// A parsed `Range` header.
pub enum RangeHeader {
    /// `bytes=` with its byte-ranges, in the order given.
    Bytes(Vec<ByteRangeSpec>),
    /// A unit other than bytes, with its unit and range set.
    Unregistered(String, String),
}

/// What the client asked for, checked against the file length.
#[derive(PartialEq, Eq, Structural, Clone, Copy, Debug)]
pub enum RequestedRange {
    /// No range was asked for: serve the whole file.
    NoRange,
    /// A range was asked for and cannot be served.
    NotSatisfiable,
    /// Bytes `start` through `end`, both inclusive.
    Satisfiable(u64, u64),
}

/// The inclusive byte span that `s` asks for in a file of `len > 0` bytes, or
/// `None` where it asks for nothing that the file holds.
pub open spec fn span_of(s: ByteRangeSpec, len: nat) -> Option<(nat, nat)> {
    match s {
        ByteRangeSpec::FromTo(a, b) => {
            let end = if b < len - 1 { b as nat } else { (len - 1) as nat };
            if a > end || a >= len {
                None
            } else {
                Some((a as nat, end))
            }
        },
        ByteRangeSpec::AllFrom(a) => if a >= len {
            None
        } else {
            Some((a as nat, (len - 1) as nat))
        },
        ByteRangeSpec::Last(n) => if n == 0 {
            None
        } else {
            let take = if n < len { n as nat } else { len };
            Some(((len - take) as nat, (len - 1) as nat))
        },
    }
}

/// The outcome for the first of `specs` on a file of `len` bytes.
pub open spec fn outcome_of_specs(specs: Seq<ByteRangeSpec>, len: nat) -> RequestedRange {
    if specs.len() == 0 || len == 0 {
        RequestedRange::NotSatisfiable
    } else {
        match span_of(specs[0], len) {
            Some((a, b)) => RequestedRange::Satisfiable(a as u64, b as u64),
            None => RequestedRange::NotSatisfiable,
        }
    }
}

/// The outcome of a request's `Range` field on a file of `len` bytes.
pub open spec fn range_outcome(has_header: bool, value: Option<&RangeHeader>, len: nat) -> RequestedRange {
    match value {
        None => if has_header {
            RequestedRange::NotSatisfiable
        } else {
            RequestedRange::NoRange
        },
        Some(RangeHeader::Unregistered(_, _)) => RequestedRange::NotSatisfiable,
        Some(RangeHeader::Bytes(specs)) => outcome_of_specs(specs@, len),
    }
}

/// `has_header` says whether the request carried a `Range` field at all;
/// `header_value` is that field where it could be parsed.
pub fn parse_range_header(
    has_header: bool,
    header_value: Option<&RangeHeader>,
    file_len: u64,
) -> (r: RequestedRange)
    ensures
        r == range_outcome(has_header, header_value, file_len as nat),
        header_value.is_none() ==> r == (if has_header {
            RequestedRange::NotSatisfiable
        } else {
            RequestedRange::NoRange
        }),
        header_value matches Some(RangeHeader::Unregistered(_, _)) ==> r
            == RequestedRange::NotSatisfiable,
        header_value matches Some(RangeHeader::Bytes(specs)) ==> r == outcome_of_specs(
            specs@,
            file_len as nat,
        ),
{
    match header_value {
        Some(RangeHeader::Bytes(byte_ranges)) => {
            if byte_ranges.len() == 0 {
                return RequestedRange::NotSatisfiable;
            }
            // Even `0-0` lies outside an empty file.
            if file_len == 0 {
                return RequestedRange::NotSatisfiable;
            }
            let max_end = file_len - 1;
            match byte_ranges[0] {
                ByteRangeSpec::FromTo(start, end) => {
                    let end = if end < max_end {
                        end
                    } else {
                        max_end
                    };
                    if start > end {
                        RequestedRange::NotSatisfiable
                    } else {
                        RequestedRange::Satisfiable(start, end)
                    }
                },
                ByteRangeSpec::AllFrom(start) => {
                    if start > max_end {
                        RequestedRange::NotSatisfiable
                    } else {
                        RequestedRange::Satisfiable(start, max_end)
                    }
                },
                ByteRangeSpec::Last(suffix_len) => {
                    if suffix_len == 0 {
                        return RequestedRange::NotSatisfiable;
                    }
                    let take = if suffix_len < file_len {
                        suffix_len
                    } else {
                        file_len
                    };
                    RequestedRange::Satisfiable(file_len - take, max_end)
                },
            }
        },
        // Only byte ranges are served.
        Some(RangeHeader::Unregistered(_, _)) => RequestedRange::NotSatisfiable,
        None => {
            if has_header {
                RequestedRange::NotSatisfiable
            } else {
                RequestedRange::NoRange
            }
        },
    }
}

} // verus!
