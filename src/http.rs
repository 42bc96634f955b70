//! Requests and responses as the pipeline sees them: a method, a path and
//! header fields whose names compare without regard to ASCII case.

use vstd::prelude::*;

use crate::text::chars_of;

verus! {

/// `c` with an upper-case ASCII letter mapped to lower case.
pub open spec fn lower_char(c: char) -> char {
    if 'A' <= c && c <= 'Z' {
        ((c as u32) + 32) as char
    } else {
        c
    }
}

/// Two header names are the same name when they agree up to ASCII case.
pub open spec fn same_name(a: Seq<char>, b: Seq<char>) -> bool {
    a.len() == b.len() && forall|i: int| 0 <= i < a.len() ==> lower_char(#[trigger] a[i]) == lower_char(b[i])
}

pub fn lower(c: char) -> (r: char)
    ensures
        r == lower_char(c),
{
    if 'A' <= c && c <= 'Z' {
        ((c as u8) + 32) as char
    } else {
        c
    }
}

/// Whether `a` and `b` agree up to ASCII case.
pub fn eq_ignore_case(a: &str, b: &str) -> (r: bool)
    ensures
        r == same_name(a@, b@),
{
    let x = chars_of(a);
    let y = chars_of(b);
    if x.len() != y.len() {
        return false;
    }
    let mut i: usize = 0;
    while i < x.len()
        invariant
            x@ == a@,
            y@ == b@,
            x@.len() == y@.len(),
            i <= x@.len(),
            forall|j: int| 0 <= j < i ==> lower_char(#[trigger] x@[j]) == lower_char(y@[j]),
        decreases x@.len() - i,
    {
        if lower(x[i]) != lower(y[i]) {
            return false;
        }
        i += 1;
    }
    true
}

/// A header field.
pub struct Header {
    pub name: String,
    pub value: String,
}

impl View for Header {
    type V = (Seq<char>, Seq<char>);

    open spec fn view(&self) -> (Seq<char>, Seq<char>) {
        (self.name@, self.value@)
    }
}

impl Header {
    pub fn new(name: &str, value: String) -> (r: Header)
        ensures
            r@ == (name@, value@),
    {
        Header { name: name.to_owned(), value }
    }

    pub fn copy(&self) -> (r: Header)
        ensures
            r@ == self@,
    {
        Header { name: self.name.clone(), value: self.value.clone() }
    }
}

/// The fields of a header list as name and value pairs.
pub open spec fn fields(hs: Seq<Header>) -> Seq<(Seq<char>, Seq<char>)> {
    hs.map_values(|h: Header| h@)
}

/// The value of the first field named `name`.
pub open spec fn field(hs: Seq<(Seq<char>, Seq<char>)>, name: Seq<char>) -> Option<Seq<char>>
    decreases hs.len(),
{
    if hs.len() == 0 {
        None
    } else if same_name(hs[0].0, name) {
        Some(hs[0].1)
    } else {
        field(hs.drop_first(), name)
    }
}

/// The fields not named `name`, in order.
pub open spec fn without_field(hs: Seq<(Seq<char>, Seq<char>)>, name: Seq<char>) -> Seq<
    (Seq<char>, Seq<char>),
> {
    hs.filter(|f: (Seq<char>, Seq<char>)| !same_name(f.0, name))
}

/// No field of `hs` is named `name`.
pub open spec fn lacks_field(hs: Seq<(Seq<char>, Seq<char>)>, name: Seq<char>) -> bool {
    forall|i: int| 0 <= i < hs.len() ==> !same_name(#[trigger] hs[i].0, name)
}

pub proof fn lemma_without_field_lacks(hs: Seq<(Seq<char>, Seq<char>)>, name: Seq<char>)
    ensures
        lacks_field(without_field(hs, name), name),
{
    let pred = |f: (Seq<char>, Seq<char>)| !same_name(f.0, name);
    assert forall|i: int| 0 <= i < without_field(hs, name).len() implies !same_name(
        #[trigger] without_field(hs, name)[i].0,
        name,
    ) by {
        hs.lemma_filter_pred(pred, i);
    }
}

/// Looking a name up after a field of that name was placed last, where no other
/// field had it, finds that field.
pub proof fn lemma_field_of_last(
    hs: Seq<(Seq<char>, Seq<char>)>,
    f: (Seq<char>, Seq<char>),
    name: Seq<char>,
)
    requires
        lacks_field(hs, name),
        same_name(f.0, name),
    ensures
        field(hs.push(f), name) == Some(f.1),
    decreases hs.len(),
{
    if hs.len() > 0 {
        assert(!same_name(hs[0].0, name));
        assert(hs.push(f).drop_first() =~= hs.drop_first().push(f));
        lemma_field_of_last(hs.drop_first(), f, name);
    }
}

proof fn lemma_same_name_trans(a: Seq<char>, b: Seq<char>, c: Seq<char>)
    requires
        same_name(a, b),
    ensures
        same_name(a, c) == same_name(b, c),
{
    if same_name(a, c) {
        assert forall|i: int| 0 <= i < b.len() implies lower_char(#[trigger] b[i]) == lower_char(c[i]) by {
            assert(lower_char(a[i]) == lower_char(b[i]));
        }
    }
    if same_name(b, c) {
        assert forall|i: int| 0 <= i < a.len() implies lower_char(#[trigger] a[i]) == lower_char(c[i]) by {
            assert(lower_char(a[i]) == lower_char(b[i]));
        }
    }
}

/// Removing the fields named `n` leaves the lookup of every other name as it was.
pub proof fn lemma_field_after_remove(
    hs: Seq<(Seq<char>, Seq<char>)>,
    n: Seq<char>,
    m: Seq<char>,
)
    ensures
        field(without_field(hs, n), m) == (if same_name(n, m) {
            None
        } else {
            field(hs, m)
        }),
    decreases hs.len(),
{
    let pred = |f: (Seq<char>, Seq<char>)| !same_name(f.0, n);
    if same_name(n, m) {
        lemma_without_field_lacks(hs, n);
        let w = without_field(hs, n);
        assert forall|i: int| 0 <= i < w.len() implies !same_name(#[trigger] w[i].0, m) by {
            lemma_same_name_trans(n, m, w[i].0);
            lemma_same_name_sym(w[i].0, m);
            lemma_same_name_sym(w[i].0, n);
        }
        lemma_field_lacking(w, m);
    } else if hs.len() > 0 {
        let h0 = seq![hs[0]];
        let rest = hs.drop_first();
        assert(hs =~= h0 + rest);
        Seq::filter_distributes_over_add(h0, rest, pred);
        reveal(Seq::filter);
        assert(h0.drop_last() =~= Seq::<(Seq<char>, Seq<char>)>::empty());
        assert(h0.last() == hs[0]);
        assert(h0.drop_last().filter(pred) =~= Seq::<(Seq<char>, Seq<char>)>::empty());
        lemma_field_after_remove(rest, n, m);
        if pred(hs[0]) {
            assert(h0.filter(pred) =~= h0);
            assert((h0 + rest.filter(pred)).drop_first() =~= rest.filter(pred));
        } else {
            assert(h0.filter(pred) =~= Seq::<(Seq<char>, Seq<char>)>::empty());
            assert(h0.filter(pred) + rest.filter(pred) =~= rest.filter(pred));
            lemma_same_name_trans(hs[0].0, n, m);
        }
    }
}

pub proof fn lemma_same_name_sym(a: Seq<char>, b: Seq<char>)
    ensures
        same_name(a, b) == same_name(b, a),
{
}

proof fn lemma_field_lacking(hs: Seq<(Seq<char>, Seq<char>)>, m: Seq<char>)
    requires
        lacks_field(hs, m),
    ensures
        field(hs, m).is_none(),
    decreases hs.len(),
{
    if hs.len() > 0 {
        lemma_field_lacking(hs.drop_first(), m);
    }
}

/// Looking a name up after a field was placed last finds the earlier field of
/// that name, if any, else the new one.
pub proof fn lemma_field_after_push(
    hs: Seq<(Seq<char>, Seq<char>)>,
    f: (Seq<char>, Seq<char>),
    m: Seq<char>,
)
    ensures
        field(hs.push(f), m) == (match field(hs, m) {
            Some(v) => Some(v),
            None => if same_name(f.0, m) {
                Some(f.1)
            } else {
                None
            },
        }),
    decreases hs.len(),
{
    if hs.len() > 0 {
        assert(hs.push(f).drop_first() =~= hs.drop_first().push(f));
        assert(hs.push(f)[0] == hs[0]);
        lemma_field_after_push(hs.drop_first(), f, m);
    } else {
        assert(hs.push(f).drop_first() =~= Seq::<(Seq<char>, Seq<char>)>::empty());
        assert(hs.push(f)[0] == f);
        assert(field(Seq::<(Seq<char>, Seq<char>)>::empty(), m).is_none());
    }
}

/// After `set_header(n, v)` a lookup of `n` finds `v`, and every other name
/// finds what it found before.
pub proof fn lemma_field_after_set(
    hs: Seq<(Seq<char>, Seq<char>)>,
    n: Seq<char>,
    v: Seq<char>,
    m: Seq<char>,
)
    ensures
        field(without_field(hs, n).push((n, v)), m) == (if same_name(n, m) {
            Some(v)
        } else {
            field(hs, m)
        }),
{
    lemma_field_after_remove(hs, n, m);
    lemma_field_after_push(without_field(hs, n), (n, v), m);
}

/// A name agrees with itself.
pub proof fn lemma_same_name_refl(a: Seq<char>)
    ensures
        same_name(a, a),
{
}

/// The value of the first field named `name`.
pub fn get_header(headers: &Vec<Header>, name: &str) -> (r: Option<String>)
    ensures
        r.is_some() == field(fields(headers@), name@).is_some(),
        r.is_some() ==> r.unwrap()@ == field(fields(headers@), name@).unwrap(),
{
    let mut i: usize = 0;
    assert(fields(headers@).subrange(0, headers@.len() as int) =~= fields(headers@));
    while i < headers.len()
        invariant
            i <= headers@.len(),
            field(fields(headers@), name@) == field(fields(headers@).subrange(i as int, headers@.len() as int), name@),
        decreases headers@.len() - i,
    {
        let ghost rest = fields(headers@).subrange(i as int, headers@.len() as int);
        assert(rest.drop_first() =~= fields(headers@).subrange(i + 1, headers@.len() as int));
        if eq_ignore_case(headers[i].name.as_str(), name) {
            return Some(headers[i].value.clone());
        }
        i += 1;
    }
    None
}

/// Removes every field named `name`, keeping the others in order.
pub fn remove_header(headers: &mut Vec<Header>, name: &str)
    ensures
        fields(final(headers)@) == without_field(fields(old(headers)@), name@),
{
    let mut kept: Vec<Header> = Vec::new();
    let mut i: usize = 0;
    while i < headers.len()
        invariant
            i <= headers@.len(),
            headers@ == old(headers)@,
            fields(kept@) == without_field(fields(headers@).subrange(0, i as int), name@),
        decreases headers@.len() - i,
    {
        let ghost before = fields(headers@).subrange(0, i as int);
        assert(fields(headers@).subrange(0, i + 1) =~= before.push(headers@[i as int]@));
        let ghost old_kept = kept@;
        let ghost x = headers@[i as int]@;
        if !eq_ignore_case(headers[i].name.as_str(), name) {
            kept.push(headers[i].copy());
            assert(fields(kept@) =~= fields(old_kept).push(x));
        }
        proof {
            let f = |g: (Seq<char>, Seq<char>)| !same_name(g.0, name@);
            reveal(Seq::filter);
            assert(before.push(x).drop_last() =~= before);
            assert(before.push(x).last() == x);
            assert(before.push(x).filter(f) == if f(x) {
                before.filter(f).push(x)
            } else {
                before.filter(f)
            });
            assert(fields(kept@) =~= without_field(fields(headers@).subrange(0, i + 1), name@));
        }
        i += 1;
    }
    assert(fields(headers@).subrange(0, headers@.len() as int) =~= fields(headers@));
    *headers = kept;
}

/// Replaces every field named `name` by one field with `value`, placed last.
pub fn set_header(headers: &mut Vec<Header>, name: &str, value: String)
    ensures
        fields(final(headers)@) == without_field(fields(old(headers)@), name@).push((name@, value@)),
{
    remove_header(headers, name);
    let h = Header::new(name, value);
    headers.push(h);
    assert(fields(headers@) =~= without_field(fields(old(headers)@), name@).push((name@, value@)));
}

/// The fields of a response leaving the pipeline: any `Server` field replaced by `Server: prox`.
pub open spec fn with_server_fields(hs: Seq<(Seq<char>, Seq<char>)>) -> Seq<(Seq<char>, Seq<char>)> {
    without_field(hs, "Server"@).push(("Server"@, "prox"@))
}

/// The request methods that the pipeline tells apart.
#[derive(PartialEq, Eq, Structural, Clone, Copy, Debug)]
pub enum Method {
    Get,
    Head,
    Options,
    Post,
    Put,
    Delete,
    Patch,
    Trace,
    Connect,
    Other,
}

/// What a response carries after its head.
pub enum Body {
    /// Nothing.
    Empty,
    /// A short text.
    Text(String),
    /// Bytes `start` (inclusive) to `end` (exclusive) of the requested file, read in chunks.
    File { start: u64, end: u64 },
    /// A directory listing, produced in parts.
    Listing,
    /// Whatever the next stage or the upstream server produced, untouched.
    Passed,
}

impl Body {
    /// The body reads the requested file.
    pub open spec fn reads_file(&self) -> bool {
        self is File
    }
}

/// A response head and what its body is made of.
pub struct Response {
    pub status: u16,
    pub headers: Vec<Header>,
    pub body: Body,
}

impl Response {
    /// The response's header fields.
    pub open spec fn fields(&self) -> Seq<(Seq<char>, Seq<char>)> {
        fields(self.headers@)
    }

    /// The value of the response's first field named `name`.
    pub open spec fn field(&self, name: Seq<char>) -> Option<Seq<char>> {
        field(self.fields(), name)
    }
}

} // verus!
