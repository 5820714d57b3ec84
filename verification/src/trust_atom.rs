//! Trust atoms: writing one as a pair of links, reading links back into
//! atoms, and the link selections behind querying and deleting them.

use vstd::prelude::*;
use vstd::string::*;
use vstd::utf8::*;
use std::collections::BTreeMap;
use crate::header::LinkDirection;
use crate::hash::{read_hash, read_hash_text};
use crate::link_tag::{create_link_tag, link_tag_text, LinkTag};
use crate::text::{decode_text, option_views, split_nul, split_on_nul, string_views};
use crate::value::{normalize_value, normalized_value, ValueError};

verus! {

broadcast use vstd::seq::group_seq_axioms;

/// A link as the DHT hands it out: its target, its tag, when it was made,
/// and the hash of the action that made it. Hashes are raw bytes.
pub struct Link {
    pub target: Vec<u8>,
    pub tag: Vec<u8>,
    pub timestamp: i64,
    pub create_link_hash: Vec<u8>,
}

/// A trust atom as clients see it: who rates what, the content rated, the
/// value given, and extra fields.
pub struct TrustAtom {
    pub source_hash: Vec<u8>,
    pub target_hash: Vec<u8>,
    pub content: Option<String>,
    pub value: Option<String>,
    pub extra: Option<BTreeMap<String, String>>,
}

/// What a client asks to create.
pub struct TrustAtomInput {
    pub target: Vec<u8>,
    pub content: Option<String>,
    pub value: Option<String>,
    pub extra: Option<BTreeMap<String, String>>,
}

/// A query over trust atoms; exactly one of `source` and `target` is set.
pub struct QueryInput {
    pub source: Option<Vec<u8>>,
    pub target: Option<Vec<u8>>,
    pub content_full: Option<String>,
    pub content_starts_with: Option<String>,
    pub content_not_starts_with: Option<String>,
    pub value_starts_with: Option<String>,
}

/// A query over the calling agent's own trust atoms.
pub struct QueryMineInput {
    pub target: Option<Vec<u8>>,
    pub content_full: Option<String>,
    pub content_starts_with: Option<String>,
    pub content_not_starts_with: Option<String>,
    pub value_starts_with: Option<String>,
}

/// How many links a deletion removed.
#[derive(Clone, Copy, Debug, PartialEq, Eq, Structural)]
pub struct DeleteReport {
    pub trust_atoms_deleted: usize,
    pub forward_links_deleted: usize,
    pub backward_links_deleted: usize,
}

/// A trust atom read from a link, before its extra fields are fetched:
/// `extra_hash` is the raw hash of the entry that holds them.
pub struct AtomLink {
    pub source_hash: Vec<u8>,
    pub target_hash: Vec<u8>,
    pub content: Option<String>,
    pub value: Option<String>,
    pub extra_hash: Option<Vec<u8>>,
}

/// Source, target, content, value and extra hash of a read link.
pub type AtomLinkView = (Seq<u8>, Seq<u8>, Option<Seq<char>>, Option<Seq<char>>, Option<Seq<u8>>);

/// The view of an optional string.
pub open spec fn opt_text(s: Option<String>) -> Option<Seq<char>> {
    match s {
        Some(t) => Some(t@),
        None => None,
    }
}

/// The view of optional bytes.
pub open spec fn opt_bytes(b: Option<Vec<u8>>) -> Option<Seq<u8>> {
    match b {
        Some(v) => Some(v@),
        None => None,
    }
}

impl View for AtomLink {
    type V = AtomLinkView;

    open spec fn view(&self) -> AtomLinkView {
        (
            self.source_hash@,
            self.target_hash@,
            opt_text(self.content),
            opt_text(self.value),
            opt_bytes(self.extra_hash),
        )
    }
}

/// The links and the atom that creating a trust atom produces.
pub struct NewTrustAtom {
    pub forward_tag: LinkTag,
    pub reverse_tag: LinkTag,
    pub trust_atom: TrustAtom,
}

/// The chunks a trust atom's link tags carry, in order: content, value,
/// bucket, extra hash.
pub open spec fn atom_chunks(
    content: Option<Seq<char>>,
    value: Option<Seq<char>>,
    bucket: Seq<char>,
    extra_hash: Option<Seq<char>>,
) -> Seq<Option<Seq<char>>> {
    seq![content, value, Some(bucket), extra_hash]
}

/// The value chunk a trust atom's tags carry: the normalized value, or
/// nothing when the value is absent or refused.
pub open spec fn value_chunk(value: Option<Seq<char>>) -> Option<Seq<char>> {
    match value {
        Some(v) => match normalized_value(v) {
            Ok(t) => Some(t),
            Err(_) => None,
        },
        None => None,
    }
}

/// A text, or `None` when it is empty.
pub open spec fn non_empty(s: Seq<char>) -> Option<Seq<char>> {
    if s.len() == 0 {
        None
    } else {
        Some(s)
    }
}

/// Why a link could not be read as a trust atom.
#[derive(Clone, Copy, Debug, PartialEq, Eq, Structural)]
pub enum ConvertError {
    /// The tag is not UTF-8.
    NotUtf8,
    /// The tag has fewer than four chunks, or its first chunk is shorter
    /// than the header.
    MalformedTag,
    /// The extra chunk is not the text of a hash.
    BadExtraHash,
}

/// The content, value and extra texts of a tag's text: the first chunk
/// past its two header characters, the second chunk, and the fourth.
pub open spec fn tag_fields(text: Seq<char>) -> Option<(Seq<char>, Seq<char>, Seq<char>)> {
    let chunks = split_nul(text);
    if chunks.len() < 4 || chunks[0].len() < 2 {
        None
    } else {
        Some((chunks[0].skip(2), chunks[1], chunks[3]))
    }
}

/// Reading a link from `base` in `direction`: source and target are base
/// and link target, swapped for reverse links; empty fields are absent; a
/// non-empty extra chunk must be a hash text.
pub open spec fn read_link(
    link_target: Seq<u8>,
    tag: Seq<u8>,
    direction: LinkDirection,
    base: Seq<u8>,
) -> Result<AtomLinkView, ConvertError> {
    if !valid_utf8(tag) {
        Err(ConvertError::NotUtf8)
    } else {
        match tag_fields(decode_utf8(tag)) {
            None => Err(ConvertError::MalformedTag),
            Some((content, value, extra)) => {
                let (source, target) = match direction {
                    LinkDirection::Forward => (base, link_target),
                    LinkDirection::Reverse => (link_target, base),
                };
                if extra.len() == 0 {
                    Ok((source, target, non_empty(content), non_empty(value), None))
                } else {
                    match read_hash_text(extra) {
                        None => Err(ConvertError::BadExtraHash),
                        Some(h) => Ok((source, target, non_empty(content), non_empty(value), Some(h))),
                    }
                }
            },
        }
    }
}

/// A copy of the bytes.
pub fn copy_bytes(b: &[u8]) -> (c: Vec<u8>)
    ensures
        c@ == b@,
{
    vstd::slice::slice_to_vec(b)
}

/// A copy of an optional string.
pub fn copy_opt_string(s: &Option<String>) -> (c: Option<String>)
    ensures
        opt_text(c) == opt_text(*s),
{
    match s {
        Some(t) => Some(t.clone()),
        None => None,
    }
}

/// The string, or `None` when it is empty.
fn non_empty_string(s: &str) -> (r: Option<String>)
    ensures
        opt_text(r) == non_empty(s@),
{
    if s.unicode_len() == 0 {
        None
    } else {
        Some(String::from_str(s))
    }
}

/// Builds the two link tags and the atom for a new trust atom. The value is
/// normalized first and a refused value is an error; the tags carry the
/// content, the normalized value, the bucket and the extra hash text, and
/// the atom keeps the value as given.
pub fn create(
    agent: &[u8],
    target: &[u8],
    content: Option<String>,
    value: Option<String>,
    extra: Option<BTreeMap<String, String>>,
    bucket: String,
    extra_hash: Option<String>,
) -> (created: Result<NewTrustAtom, ValueError>)
    ensures
        match value {
            Some(v) => match normalized_value(v@) {
                Err(k) => (created matches Err(e) && e.kind() == k && e.given() == v@),
                Ok(_) => created is Ok,
            },
            None => created is Ok,
        },
        created matches Ok(n) ==> {
            let chunks = atom_chunks(
                opt_text(content),
                value_chunk(opt_text(value)),
                bucket@,
                opt_text(extra_hash),
            );
            &&& n.forward_tag.0@ == encode_utf8(link_tag_text(LinkDirection::Forward, chunks))
            &&& n.reverse_tag.0@ == encode_utf8(link_tag_text(LinkDirection::Reverse, chunks))
            &&& n.trust_atom.source_hash@ == agent@
            &&& n.trust_atom.target_hash@ == target@
            &&& opt_text(n.trust_atom.content) == opt_text(content)
            &&& opt_text(n.trust_atom.value) == opt_text(value)
            &&& n.trust_atom.extra == extra
        },
        created matches Ok(n) ==> match value {
            Some(v) => normalized_value(v@) matches Ok(t) && n.forward_tag.0@ == encode_utf8(
                link_tag_text(
                    LinkDirection::Forward,
                    seq![opt_text(content), Some(t), Some(bucket@), opt_text(extra_hash)],
                ),
            ) && n.reverse_tag.0@ == encode_utf8(
                link_tag_text(
                    LinkDirection::Reverse,
                    seq![opt_text(content), Some(t), Some(bucket@), opt_text(extra_hash)],
                ),
            ),
            None => n.forward_tag.0@ == encode_utf8(
                link_tag_text(
                    LinkDirection::Forward,
                    seq![opt_text(content), None, Some(bucket@), opt_text(extra_hash)],
                ),
            ),
        },
{
    let normalized = match normalize_value(copy_opt_string(&value)) {
        Ok(v) => v,
        Err(e) => return Err(e),
    };
    let mut chunks: Vec<Option<String>> = Vec::new();
    chunks.push(copy_opt_string(&content));
    chunks.push(normalized);
    chunks.push(Some(bucket));
    chunks.push(extra_hash);
    proof {
        assert(option_views(chunks@) =~= atom_chunks(
            opt_text(content),
            value_chunk(opt_text(value)),
            bucket@,
            opt_text(extra_hash),
        ));
    }
    let forward_tag = create_link_tag(&LinkDirection::Forward, chunks.as_slice());
    let reverse_tag = create_link_tag(&LinkDirection::Reverse, chunks.as_slice());
    let trust_atom = TrustAtom {
        source_hash: copy_bytes(agent),
        target_hash: copy_bytes(target),
        content,
        value,
        extra,
    };
    Ok(NewTrustAtom { forward_tag, reverse_tag, trust_atom })
}

/// Reads a link from `link_base` as a trust atom, as `read_link` says.
pub fn convert_link_to_trust_atom(
    link: &Link,
    link_direction: &LinkDirection,
    link_base: &[u8],
) -> (atom: Result<AtomLink, ConvertError>)
    ensures
        match atom {
            Ok(a) => read_link(link.target@, link.tag@, *link_direction, link_base@) == Ok::<
                AtomLinkView,
                ConvertError,
            >(a@),
            Err(e) => read_link(link.target@, link.tag@, *link_direction, link_base@) == Err::<
                AtomLinkView,
                ConvertError,
            >(e),
        },
{
    let text = match decode_text(link.tag.as_slice()) {
        Some(t) => t,
        None => return Err(ConvertError::NotUtf8),
    };
    let chunks = split_on_nul(text.as_str());
    proof {
        assert(string_views(chunks@).len() == chunks@.len());
    }
    if chunks.len() < 4 {
        return Err(ConvertError::MalformedTag);
    }
    proof {
        assert(string_views(chunks@)[0] == chunks@[0]@);
        assert(string_views(chunks@)[1] == chunks@[1]@);
        assert(string_views(chunks@)[3] == chunks@[3]@);
    }
    let first = chunks[0].as_str();
    let first_len = first.unicode_len();
    if first_len < 2 {
        return Err(ConvertError::MalformedTag);
    }
    let content_text = first.substring_char(2, first_len);
    assert(content_text@ =~= first@.skip(2));
    let content = non_empty_string(content_text);
    let value = non_empty_string(chunks[1].as_str());
    let extra_text = chunks[3].as_str();
    let extra_hash = if extra_text.unicode_len() == 0 {
        None
    } else {
        match read_hash(extra_text) {
            Some(h) => Some(h),
            None => return Err(ConvertError::BadExtraHash),
        }
    };
    let (source_hash, target_hash) = match link_direction {
        LinkDirection::Forward => (copy_bytes(link_base), copy_bytes(link.target.as_slice())),
        LinkDirection::Reverse => (copy_bytes(link.target.as_slice()), copy_bytes(link_base)),
    };
    Ok(AtomLink { source_hash, target_hash, content, value, extra_hash })
}

impl AtomLink {
    /// The trust atom this link reads as, given the extra fields fetched
    /// from the entry at `extra_hash` (or none).
    pub fn into_trust_atom(self, extra: Option<BTreeMap<String, String>>) -> (atom: TrustAtom)
        ensures
            atom.source_hash@ == self.source_hash@,
            atom.target_hash@ == self.target_hash@,
            opt_text(atom.content) == opt_text(self.content),
            opt_text(atom.value) == opt_text(self.value),
            atom.extra == extra,
    {
        TrustAtom {
            source_hash: self.source_hash,
            target_hash: self.target_hash,
            content: self.content,
            value: self.value,
            extra,
        }
    }
}

/// Reads every link as a trust atom, stopping at the first that cannot be
/// read.
pub fn convert_links_to_trust_atoms(
    links: &[Link],
    link_direction: &LinkDirection,
    link_base: &[u8],
) -> (atoms: Result<Vec<AtomLink>, ConvertError>)
    ensures
        match atoms {
            Ok(v) => v@.len() == links@.len() && forall|i: int|
                0 <= i < links@.len() ==> read_link(
                    links@[i].target@,
                    links@[i].tag@,
                    *link_direction,
                    link_base@,
                ) == Ok::<AtomLinkView, ConvertError>(#[trigger] v@[i]@),
            Err(e) => exists|k: int|
                0 <= k < links@.len() && read_link(
                    links@[k].target@,
                    links@[k].tag@,
                    *link_direction,
                    link_base@,
                ) == Err::<AtomLinkView, ConvertError>(e) && forall|i: int|
                    0 <= i < k ==> (#[trigger] read_link(
                        links@[i].target@,
                        links@[i].tag@,
                        *link_direction,
                        link_base@,
                    )) is Ok,
        },
{
    let mut atoms: Vec<AtomLink> = Vec::new();
    let n = links.len();
    for i in 0..n
        invariant
            n == links@.len(),
            atoms@.len() == i,
            forall|j: int|
                0 <= j < i ==> read_link(
                    links@[j].target@,
                    links@[j].tag@,
                    *link_direction,
                    link_base@,
                ) == Ok::<AtomLinkView, ConvertError>(#[trigger] atoms@[j]@),
    {
        match convert_link_to_trust_atom(&links[i], link_direction, link_base) {
            Ok(a) => atoms.push(a),
            Err(e) => {
                assert forall|j: int| 0 <= j < i implies (#[trigger] read_link(
                    links@[j].target@,
                    links@[j].tag@,
                    *link_direction,
                    link_base@,
                )) is Ok by {
                    assert(read_link(
                        links@[j].target@,
                        links@[j].tag@,
                        *link_direction,
                        link_base@,
                    ) == Ok::<AtomLinkView, ConvertError>(atoms@[j]@));
                }
                return Err(e);
            },
        }
    }
    Ok(atoms)
}

} // verus!
