//! A file about to be served: what its headers and entity tag are made of.

use vstd::prelude::*;

use crate::etag::{encode, etag_numeral, lemma_etag_round_trip};
use crate::negotiate::EntityTag;
use crate::text::string_of;

verus! {

/// Whether an entity tag claims byte-for-byte or only semantic equality.
#[derive(PartialEq, Eq, Structural, Clone, Copy, Debug)]
pub enum ETagKind {
    Strong,
    Weak,
}

/// The opaque tag of a file: its inode, length and modification time in
/// milliseconds since the epoch, each in base 92, joined by `$`.
pub open spec fn etag_text(inode: nat, len: nat, mtime_ms: nat) -> Seq<char> {
    etag_numeral(inode) + seq!['$'] + etag_numeral(len) + seq!['$'] + etag_numeral(mtime_ms)
}

/// Metadata of a regular file read when it was opened.
pub struct Entity {
    pub inode: u64,
    pub len: u64,
    /// Modification time in milliseconds since the epoch (0 for earlier times).
    pub mtime_ms: u64,
    pub content_type: String,
    /// Whether the content type is worth compressing.
    pub compressible: bool,
}

impl Entity {
    pub fn new(inode: u64, len: u64, mtime_ms: u64, content_type: String, compressible: bool) -> (r:
        Entity)
        ensures
            r.inode == inode,
            r.len == len,
            r.mtime_ms == mtime_ms,
            r.content_type@ == content_type@,
            r.compressible == compressible,
    {
        Entity { inode, len, mtime_ms, content_type, compressible }
    }

    /// The entity length, before any transfer coding.
    pub fn len(&self) -> (r: u64)
        ensures
            r == self.len,
    {
        self.len
    }

    pub fn content_type(&self) -> (r: &str)
        ensures
            r@ == self.content_type@,
    {
        self.content_type.as_str()
    }

    /// Modification time in whole seconds since the epoch, the resolution of HTTP dates.
    pub open spec fn modified_secs(&self) -> nat {
        self.mtime_ms as nat / 1000
    }

    pub fn last_modified(&self) -> (r: u64)
        ensures
            r == self.modified_secs(),
    {
        self.mtime_ms / 1000
    }

    pub fn etag(&self, kind: &ETagKind) -> (r: EntityTag)
        ensures
            r.tag@ == etag_text(self.inode as nat, self.len as nat, self.mtime_ms as nat),
            r.weak == (*kind == ETagKind::Weak),
    {
        let sep: [char; 1] = ['$'];
        let dollar = string_of(&sep);
        let mut tag = encode(self.inode);
        tag.append(dollar.as_str());
        tag.append(encode(self.len).as_str());
        tag.append(dollar.as_str());
        tag.append(encode(self.mtime_ms).as_str());
        assert(tag@ =~= etag_text(self.inode as nat, self.len as nat, self.mtime_ms as nat));
        match kind {
            ETagKind::Strong => EntityTag::strong(tag),
            ETagKind::Weak => EntityTag::weak(tag),
        }
    }
}

/// Two files with the same inode, length and modification time have the same
/// tag; where only the modification time differs, the tags differ.
pub proof fn lemma_etag_tracks_mtime(inode: u64, len: u64, m1: u64, m2: u64)
    ensures
        (etag_text(inode as nat, len as nat, m1 as nat) == etag_text(inode as nat, len as nat, m2 as nat))
            == (m1 == m2),
{
    let p = etag_numeral(inode as nat) + seq!['$'] + etag_numeral(len as nat) + seq!['$'];
    let a = etag_text(inode as nat, len as nat, m1 as nat);
    let b = etag_text(inode as nat, len as nat, m2 as nat);
    assert(a =~= p + etag_numeral(m1 as nat));
    assert(b =~= p + etag_numeral(m2 as nat));
    if a == b {
        assert(a.subrange(p.len() as int, a.len() as int) =~= etag_numeral(m1 as nat));
        assert(b.subrange(p.len() as int, b.len() as int) =~= etag_numeral(m2 as nat));
        lemma_etag_round_trip(m1);
        lemma_etag_round_trip(m2);
    }
}

} // verus!
