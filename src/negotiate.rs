//! Entity-tag preconditions and content-coding negotiation.

use vstd::prelude::*;

verus! {

/// An entity tag: an opaque tag, weak or strong.
pub struct EntityTag {
    pub weak: bool,
    pub tag: String,
}

impl EntityTag {
    pub fn strong(tag: String) -> (r: EntityTag)
        ensures
            !r.weak,
            r.tag@ == tag@,
    {
        EntityTag { weak: false, tag }
    }

    pub fn weak(tag: String) -> (r: EntityTag)
        ensures
            r.weak,
            r.tag@ == tag@,
    {
        EntityTag { weak: true, tag }
    }

    /// Strong comparison: both strong, and the same tag.
    pub fn strong_eq(&self, other: &EntityTag) -> (r: bool)
        ensures
            r == (!self.weak && !other.weak && self.tag@ == other.tag@),
    {
        !self.weak && !other.weak && self.tag == other.tag
    }

    /// Weak comparison: the same tag, weak or not.
    pub fn weak_eq(&self, other: &EntityTag) -> (r: bool)
        ensures
            r == (self.tag@ == other.tag@),
    {
        self.tag == other.tag
    }
}

/// The value of an `If-Match` or `If-None-Match` field.
pub enum ETagCondition {
    /// `*`
    Any,
    /// A list of entity tags.
    Items(Vec<EntityTag>),
}

/// Some candidate has the same tag as `etag`.
fn some_weak_eq(candidates: &Vec<EntityTag>, etag: &EntityTag) -> (r: bool)
    ensures
        r == exists|i: int| 0 <= i < candidates@.len() && (#[trigger] candidates@[i]).tag@ == etag.tag@,
{
    let mut i: usize = 0;
    while i < candidates.len()
        invariant
            i <= candidates@.len(),
            forall|j: int| 0 <= j < i ==> (#[trigger] candidates@[j]).tag@ != etag.tag@,
        decreases candidates@.len() - i,
    {
        if candidates[i].weak_eq(etag) {
            assert(candidates@[i as int].tag@ == etag.tag@);
            return true;
        }
        i += 1;
    }
    false
}

/// Some candidate equals `etag` by strong comparison.
fn some_strong_eq(candidates: &Vec<EntityTag>, etag: &EntityTag) -> (r: bool)
    ensures
        r == exists|i: int|
            0 <= i < candidates@.len() && !(#[trigger] candidates@[i]).weak && !etag.weak
                && candidates@[i].tag@ == etag.tag@,
{
    let mut i: usize = 0;
    while i < candidates.len()
        invariant
            i <= candidates@.len(),
            forall|j: int|
                0 <= j < i ==> !(!(#[trigger] candidates@[j]).weak && !etag.weak
                    && candidates@[j].tag@ == etag.tag@),
        decreases candidates@.len() - i,
    {
        if candidates[i].strong_eq(etag) {
            assert(!candidates@[i as int].weak && candidates@[i as int].tag@ == etag.tag@);
            return true;
        }
        i += 1;
    }
    false
}

/// `If-None-Match` lets the request through: absent, or no tag equals `tag` weakly.
pub open spec fn none_match_spec(header_value: Option<&ETagCondition>, tag: Seq<char>) -> bool {
    match header_value {
        None => true,
        Some(ETagCondition::Any) => false,
        Some(ETagCondition::Items(v)) => !exists|i: int|
            0 <= i < v@.len() && (#[trigger] v@[i]).tag@ == tag,
    }
}

/// `If-Match` lets the request through: absent, `*`, or some tag equals the
/// entity tag (`weak`, `tag`) strongly.
pub open spec fn any_match_spec(header_value: Option<&ETagCondition>, weak: bool, tag: Seq<char>) -> bool {
    match header_value {
        None => true,
        Some(ETagCondition::Any) => true,
        Some(ETagCondition::Items(v)) => exists|i: int|
            0 <= i < v@.len() && !(#[trigger] v@[i]).weak && !weak && v@[i].tag@ == tag,
    }
}

/// `false` where `If-None-Match` matches `etag` by weak comparison, or is `*`.
pub fn none_match(header_value: Option<&ETagCondition>, etag: &EntityTag) -> (r: bool)
    ensures
        r == none_match_spec(header_value, etag.tag@),
{
    match header_value {
        None => true,
        Some(ETagCondition::Any) => false,
        Some(ETagCondition::Items(candidates)) => !some_weak_eq(candidates, etag),
    }
}

/// `true` where `If-Match` is absent or `*`, or one of its tags equals `etag`
/// by strong comparison.
pub fn any_match(header_value: Option<&ETagCondition>, etag: &EntityTag) -> (r: bool)
    ensures
        r == any_match_spec(header_value, etag.weak, etag.tag@),
{
    match header_value {
        None => true,
        Some(ETagCondition::Any) => true,
        Some(ETagCondition::Items(candidates)) => some_strong_eq(candidates, etag),
    }
}

/// A content-coding named in `Accept-Encoding`.
#[derive(PartialEq, Eq, Structural, Clone, Copy, Debug)]
pub enum Coding {
    Gzip,
    Identity,
    /// `*`: any coding not named otherwise.
    Star,
    /// Any other coding.
    Other,
}

/// A coding with its quality value in thousandths (`q=0.5` is 500).
#[derive(PartialEq, Eq, Structural, Clone, Copy, Debug)]
pub struct QualityItem {
    pub item: Coding,
    pub quality: u16,
}

/// The quality given last to coding `c`, if any.
pub open spec fn quality_of(items: Seq<QualityItem>, c: Coding) -> Option<u16>
    decreases items.len(),
{
    if items.len() == 0 {
        None
    } else if items.last().item == c {
        Some(items.last().quality)
    } else {
        quality_of(items.drop_last(), c)
    }
}

/// Effective quality of gzip: its own, else that of `*`, else 0.
pub open spec fn gzip_quality(items: Seq<QualityItem>) -> u16 {
    match quality_of(items, Coding::Gzip) {
        Some(q) => q,
        None => match quality_of(items, Coding::Star) {
            Some(q) => q,
            None => 0,
        },
    }
}

/// Effective quality of identity: its own, else that of `*`, else 1.
pub open spec fn identity_quality(items: Seq<QualityItem>) -> u16 {
    match quality_of(items, Coding::Identity) {
        Some(q) => q,
        None => match quality_of(items, Coding::Star) {
            Some(q) => q,
            None => 1000,
        },
    }
}

/// Gzip is picked when it is acceptable and at least as wanted as identity.
pub open spec fn picks_gzip(items: Seq<QualityItem>) -> bool {
    gzip_quality(items) > 0 && gzip_quality(items) >= identity_quality(items)
}

/// `Some(Gzip)` where the client's `Accept-Encoding` prefers gzip
/// (RFC 7231 section 5.3.4); `None` where the field is absent or does not.
pub fn negotiate_encoding(header_value: Option<&Vec<QualityItem>>) -> (r: Option<Coding>)
    ensures
        r == (match header_value {
            None => None,
            Some(v) => if picks_gzip(v@) {
                Some(Coding::Gzip)
            } else {
                None
            },
        }),
{
    let items = match header_value {
        None => {
            return None;
        },
        Some(v) => v,
    };
    let mut gzip_q: Option<u16> = None;
    let mut identity_q: Option<u16> = None;
    let mut star_q: Option<u16> = None;
    let mut i: usize = 0;
    while i < items.len()
        invariant
            i <= items@.len(),
            gzip_q == quality_of(items@.subrange(0, i as int), Coding::Gzip),
            identity_q == quality_of(items@.subrange(0, i as int), Coding::Identity),
            star_q == quality_of(items@.subrange(0, i as int), Coding::Star),
        decreases items@.len() - i,
    {
        let qi = items[i];
        match qi.item {
            Coding::Gzip => {
                gzip_q = Some(qi.quality);
            },
            Coding::Identity => {
                identity_q = Some(qi.quality);
            },
            Coding::Star => {
                star_q = Some(qi.quality);
            },
            Coding::Other => {},
        }
        i += 1;
        assert(items@.subrange(0, i as int).drop_last() =~= items@.subrange(0, i - 1));
    }
    assert(items@.subrange(0, items@.len() as int) =~= items@);
    let gzip = match gzip_q {
        Some(q) => q,
        None => match star_q {
            Some(q) => q,
            None => 0,
        },
    };
    // Identity is acceptable unless excluded by `identity;q=0`, or by `*;q=0`
    // without a more specific entry for identity.
    let identity = match identity_q {
        Some(q) => q,
        None => match star_q {
            Some(q) => q,
            None => 1000,
        },
    };
    if gzip > 0 && gzip >= identity {
        Some(Coding::Gzip)
    } else {
        None
    }
}

} // verus!
