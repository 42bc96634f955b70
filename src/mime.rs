//! Content types by file extension, and which of them are worth compressing.

use vstd::prelude::*;

use crate::http::{eq_ignore_case, same_name};
use crate::text::chars_of;

verus! {

/// The content type of a file, and whether compressing it pays.
pub struct MimeRecord {
    pub mime: String,
    pub compressible: bool,
}

/// Extension, content type and compressibility of the known file kinds.
pub open spec fn mime_table() -> Seq<(Seq<char>, Seq<char>, bool)> {
    seq![
        ("html"@, "text/html; charset=utf-8"@, true),
        ("htm"@, "text/html; charset=utf-8"@, true),
        ("txt"@, "text/plain; charset=utf-8"@, true),
        ("css"@, "text/css; charset=utf-8"@, true),
        ("js"@, "application/javascript; charset=utf-8"@, true),
        ("mjs"@, "application/javascript; charset=utf-8"@, true),
        ("json"@, "application/json"@, true),
        ("xml"@, "application/xml"@, true),
        ("svg"@, "image/svg+xml"@, true),
        ("csv"@, "text/csv; charset=utf-8"@, true),
        ("md"@, "text/markdown; charset=utf-8"@, true),
        ("png"@, "image/png"@, false),
        ("jpg"@, "image/jpeg"@, false),
        ("jpeg"@, "image/jpeg"@, false),
        ("gif"@, "image/gif"@, false),
        ("bmp"@, "image/bmp"@, false),
        ("ico"@, "image/x-icon"@, false),
        ("woff"@, "font/woff"@, false),
        ("woff2"@, "font/woff2"@, false),
        ("pdf"@, "application/pdf"@, false),
        ("zip"@, "application/zip"@, false),
        ("gz"@, "application/gzip"@, false),
        ("mp4"@, "video/mp4"@, false),
        ("mp3"@, "audio/mpeg"@, false),
    ]
}

fn table() -> (r: Vec<(&'static str, &'static str, bool)>)
    ensures
        r@.len() == mime_table().len(),
        forall|i: int|
            0 <= i < r@.len() ==> (#[trigger] r@[i]).0@ == mime_table()[i].0 && r@[i].1@ == mime_table()[i].1
                && r@[i].2 == mime_table()[i].2,
{
    let v: Vec<(&'static str, &'static str, bool)> = vec![
        ("html", "text/html; charset=utf-8", true),
        ("htm", "text/html; charset=utf-8", true),
        ("txt", "text/plain; charset=utf-8", true),
        ("css", "text/css; charset=utf-8", true),
        ("js", "application/javascript; charset=utf-8", true),
        ("mjs", "application/javascript; charset=utf-8", true),
        ("json", "application/json", true),
        ("xml", "application/xml", true),
        ("svg", "image/svg+xml", true),
        ("csv", "text/csv; charset=utf-8", true),
        ("md", "text/markdown; charset=utf-8", true),
        ("png", "image/png", false),
        ("jpg", "image/jpeg", false),
        ("jpeg", "image/jpeg", false),
        ("gif", "image/gif", false),
        ("bmp", "image/bmp", false),
        ("ico", "image/x-icon", false),
        ("woff", "font/woff", false),
        ("woff2", "font/woff2", false),
        ("pdf", "application/pdf", false),
        ("zip", "application/zip", false),
        ("gz", "application/gzip", false),
        ("mp4", "video/mp4", false),
        ("mp3", "audio/mpeg", false),
    ];
    v
}

/// The extension of the last segment of `p`: what follows its last dot, unless
/// that dot begins the segment.
pub open spec fn extension_of(p: Seq<char>) -> Option<Seq<char>>
    decreases p.len(),
{
    if p.len() == 0 || p.last() == '/' {
        None
    } else if p.last() == '.' {
        let before = p.drop_last();
        if before.len() == 0 || before.last() == '/' {
            None
        } else {
            Some(Seq::empty())
        }
    } else {
        match extension_of(p.drop_last()) {
            Some(e) => Some(e.push(p.last())),
            None => None,
        }
    }
}

/// The first table row, from index `k` on, whose extension is `ext` (without regard to case).
pub open spec fn row_for(ext: Seq<char>, k: int) -> Option<int>
    decreases mime_table().len() - k,
{
    if k < 0 || k >= mime_table().len() {
        None
    } else if same_name(mime_table()[k].0, ext) {
        Some(k)
    } else {
        row_for(ext, k + 1)
    }
}

/// The record for a path: by its extension, else `application/octet-stream`,
/// not compressible.
pub open spec fn mime_of(p: Seq<char>) -> (Seq<char>, bool) {
    match extension_of(p) {
        Some(e) => match row_for(e, 0) {
            Some(k) => (mime_table()[k].1, mime_table()[k].2),
            None => ("application/octet-stream"@, false),
        },
        None => ("application/octet-stream"@, false),
    }
}

fn extension(p: &str) -> (r: Option<Vec<char>>)
    ensures
        r.is_some() == extension_of(p@).is_some(),
        r.is_some() ==> r.unwrap()@ == extension_of(p@).unwrap(),
{
    let c = chars_of(p);
    let mut k = c.len();
    // Walk back over the extension's characters.
    while k > 0 && c[k - 1] != '.' && c[k - 1] != '/'
        invariant
            k <= c@.len(),
            c@ == p@,
            forall|j: int| k <= j < c@.len() ==> c@[j] != '.' && c@[j] != '/',
        decreases k,
    {
        k -= 1;
    }
    proof {
        lemma_extension_tail(p@, k as int);
    }
    if k == 0 || c[k - 1] == '/' {
        return None;
    }
    // The dot at `k - 1` must not begin the segment.
    if k == 1 || c[k - 2] == '/' {
        return None;
    }
    let mut e: Vec<char> = Vec::new();
    let mut i = k;
    while i < c.len()
        invariant
            k <= i <= c@.len(),
            e@ == c@.subrange(k as int, i as int),
        decreases c@.len() - i,
    {
        e.push(c[i]);
        i += 1;
        assert(e@ =~= c@.subrange(k as int, i as int));
    }
    Some(e)
}

proof fn lemma_extension_tail(p: Seq<char>, k: int)
    requires
        0 <= k <= p.len(),
        forall|j: int| k <= j < p.len() ==> p[j] != '.' && p[j] != '/',
    ensures
        (k == 0 || p[k - 1] == '/') ==> extension_of(p) is None,
        k > 0 && p[k - 1] == '.' && (k == 1 || p[k - 2] == '/') ==> extension_of(p) is None,
        k > 1 && p[k - 1] == '.' && p[k - 2] != '/' ==> extension_of(p) == Some(p.subrange(k, p.len() as int)),
    decreases p.len() - k,
{
    if p.len() > k {
        let q = p.drop_last();
        lemma_extension_tail(q, k);
        assert(p.subrange(k, p.len() as int) =~= q.subrange(k, q.len() as int).push(p.last()));
    } else {
        if k > 0 {
            assert(p.drop_last().len() == k - 1);
        }
        assert(p.subrange(k, p.len() as int) =~= Seq::<char>::empty());
    }
}

/// Guesses a file's content type from its extension.
pub fn guess_mime_by_path(path: &str) -> (r: MimeRecord)
    ensures
        (r.mime@, r.compressible) == mime_of(path@),
{
    let t = table();
    match extension(path) {
        None => MimeRecord { mime: "application/octet-stream".to_owned(), compressible: false },
        Some(e) => {
            let ext = crate::text::string_of(e.as_slice());
            assert(extension_of(path@) == Some(ext@));
            let mut k: usize = 0;
            while k < t.len()
                invariant
                    k <= t@.len(),
                    t@.len() == mime_table().len(),
                    forall|i: int|
                        0 <= i < t@.len() ==> (#[trigger] t@[i]).0@ == mime_table()[i].0 && t@[i].1@
                            == mime_table()[i].1 && t@[i].2 == mime_table()[i].2,
                    row_for(ext@, 0) == row_for(ext@, k as int),
                extension_of(path@) == Some(ext@),
                decreases t@.len() - k,
            {
                if eq_ignore_case(t[k].0, ext.as_str()) {
                    return MimeRecord { mime: t[k].1.to_owned(), compressible: t[k].2 };
                }
                k += 1;
            }
            MimeRecord { mime: "application/octet-stream".to_owned(), compressible: false }
        },
    }
}

/// The position of the first `;` in `ct`, or its length.
pub open spec fn semicolon_at(ct: Seq<char>) -> nat
    decreases ct.len(),
{
    if ct.len() == 0 || ct[0] == ';' {
        0
    } else {
        1 + semicolon_at(ct.drop_first())
    }
}

/// `ct` up to its first `;`: the type without parameters.
pub open spec fn essence(ct: Seq<char>) -> Seq<char> {
    ct.subrange(0, semicolon_at(ct) as int)
}

proof fn lemma_semicolon_at(s: Seq<char>, k: int)
    requires
        0 <= k <= s.len(),
        k == s.len() || s[k] == ';',
        forall|j: int| 0 <= j < k ==> s[j] != ';',
    ensures
        semicolon_at(s) == k,
    decreases k,
{
    if k > 0 {
        lemma_semicolon_at(s.drop_first(), k - 1);
    }
}

fn essence_of(ct: &str) -> (r: String)
    ensures
        r@ == essence(ct@),
{
    let c = chars_of(ct);
    let mut v: Vec<char> = Vec::new();
    let mut i: usize = 0;
    while i < c.len() && c[i] != ';'
        invariant
            i <= c@.len(),
            c@ == ct@,
            v@ == c@.subrange(0, i as int),
            forall|j: int| 0 <= j < i ==> c@[j] != ';',
        decreases c@.len() - i,
    {
        v.push(c[i]);
        i += 1;
        assert(v@ =~= c@.subrange(0, i as int));
    }
    proof {
        lemma_semicolon_at(ct@, i as int);
    }
    crate::text::string_of(v.as_slice())
}

/// Whether a response of content type `ct` is worth compressing.
pub fn is_mime_compressible(ct: &str) -> (r: bool)
    ensures
        r == compressible_type(ct@),
{
    let t = table();
    let e = essence_of(ct);
    let mut k: usize = 0;
    while k < t.len()
        invariant
            k <= t@.len(),
            e@ == essence(ct@),
            t@.len() == mime_table().len(),
            forall|i: int|
                0 <= i < t@.len() ==> (#[trigger] t@[i]).0@ == mime_table()[i].0 && t@[i].1@
                    == mime_table()[i].1 && t@[i].2 == mime_table()[i].2,
            forall|i: int|
                0 <= i < k ==> !(mime_table()[i].2 && same_name(essence(#[trigger] mime_table()[i].1), essence(ct@))),
        decreases t@.len() - k,
    {
        if t[k].2 {
            let te = essence_of(t[k].1);
            if eq_ignore_case(te.as_str(), e.as_str()) {
                return true;
            }
        }
        k += 1;
    }
    false
}

/// A content type is compressible where some compressible row has its type,
/// parameters aside.
pub open spec fn compressible_type(ct: Seq<char>) -> bool {
    exists|i: int|
        0 <= i < mime_table().len() && mime_table()[i].2 && same_name(
            essence(#[trigger] mime_table()[i].1),
            essence(ct),
        )
}

} // verus!
