//! Building link tags from chunks, and cutting them back into chunks.

use vstd::prelude::*;
use vstd::utf8::*;
use crate::header::{build_header, header_bytes, header_text, lemma_header_text_encoding, LinkDirection};
use crate::text::{
    chunk_texts, concat_all, join_nul, lemma_encode_utf8_concat, option_views, string_views,
};

verus! {

broadcast use vstd::seq::group_seq_axioms;

/// The raw bytes of a Holochain link tag.
pub struct LinkTag(pub Vec<u8>);

/// `n` NUL characters.
pub open spec fn nuls(n: nat) -> Seq<char> {
    Seq::new(n, |i: int| '\0')
}

/// The text of a link tag: the header, then the chunks joined by NULs, an
/// absent chunk leaving its place empty.
pub open spec fn link_tag_text(direction: LinkDirection, chunks: Seq<Option<Seq<char>>>) -> Seq<char> {
    header_text(direction) + join_nul(chunk_texts(chunks))
}

/// The text of a search tag: the header, `nul_count` NULs, then the chunks
/// joined by NULs.
pub open spec fn search_tag_text(
    direction: LinkDirection,
    chunks: Seq<Option<Seq<char>>>,
    nul_count: nat,
) -> Seq<char> {
    header_text(direction) + nuls(nul_count) + join_nul(chunk_texts(chunks))
}

/// What the loop over the chunks has laid down after `i` of them: the
/// first `i` joined, followed by a NUL while more chunks are to come.
pub open spec fn joined_so_far(texts: Seq<Seq<char>>, i: int) -> Seq<char> {
    if i == 0 {
        Seq::empty()
    } else if i < texts.len() {
        join_nul(texts.take(i)) + seq!['\0']
    } else {
        join_nul(texts.take(i))
    }
}

/// A string holding one NUL.
pub fn nul_string() -> (s: String)
    ensures
        s@ == seq!['\0'],
{
    let lit = "\0";
    proof {
        reveal_strlit("\0");
    }
    String::from_str(lit)
}

/// Appends `more` to `out`.
pub fn append_bytes(out: &mut Vec<u8>, more: &[u8])
    ensures
        final(out)@ == old(out)@ + more@,
{
    let n = more.len();
    for k in 0..n
        invariant
            n == more@.len(),
            out@ == old(out)@ + more@.take(k as int),
    {
        out.push(more[k]);
        assert(more@.take(k + 1) =~= more@.take(k as int).push(more@[k as int]));
    }
    assert(more@.take(n as int) =~= more@);
}

/// Appends the chunks, with a NUL between each two, to `pieces`.
fn push_joined(pieces: &mut Vec<String>, chunk_options: &[Option<String>])
    ensures
        concat_all(string_views(final(pieces)@)) == concat_all(string_views(old(pieces)@))
            + join_nul(chunk_texts(option_views(chunk_options@))),
{
    let ghost texts = chunk_texts(option_views(chunk_options@));
    let ghost start = concat_all(string_views(pieces@));
    let n = chunk_options.len();
    for i in 0..n
        invariant
            n == chunk_options@.len(),
            texts == chunk_texts(option_views(chunk_options@)),
            concat_all(string_views(pieces@)) == start + joined_so_far(texts, i as int),
    {
        let ghost before = pieces@;
        let ghost t = texts[i as int];
        assert(texts.take(i + 1).drop_last() =~= texts.take(i as int));
        assert(texts.take(i + 1).last() == t);
        if let Some(chunk) = &chunk_options[i] {
            pieces.push(chunk.clone());
            assert(string_views(pieces@).drop_last() =~= string_views(before));
        } else {
            assert(t =~= Seq::<char>::empty());
        }
        assert(concat_all(string_views(pieces@)) =~= start + joined_so_far(texts, i as int) + t);
        if i + 1 < n {
            let ghost mid = pieces@;
            pieces.push(nul_string());
            assert(string_views(pieces@).drop_last() =~= string_views(mid));
        }
        if i == 0 {
            assert(texts.take(1) =~= seq![t]);
        }
        assert(concat_all(string_views(pieces@)) =~= start + joined_so_far(texts, i + 1));
    }
    assert(texts.take(n as int) =~= texts);
}

/// Builds a link tag from optional chunks: the header for `link_direction`,
/// then each chunk's text, with a NUL between each two chunks; an absent
/// chunk leaves its place empty.
pub fn create_link_tag(link_direction: &LinkDirection, chunk_options: &[Option<String>]) -> (tag: LinkTag)
    ensures
        tag.0@ == encode_utf8(link_tag_text(*link_direction, option_views(chunk_options@))),
        tag.0@ == header_bytes(*link_direction)
            + encode_utf8(join_nul(chunk_texts(option_views(chunk_options@)))),
{
    let mut pieces: Vec<String> = Vec::new();
    assert(concat_all(string_views(pieces@)) =~= Seq::<char>::empty());
    push_joined(&mut pieces, chunk_options);
    let ghost joined = join_nul(chunk_texts(option_views(chunk_options@)));
    assert(Seq::<char>::empty() + joined =~= joined);
    create_link_tag_metal(link_direction, pieces)
}

/// Builds a search tag: the header for `link_direction`, `nul_count` NULs,
/// then the chunks as `create_link_tag` lays them out.
pub fn build_link_tag(
    link_direction: &LinkDirection,
    chunk_options: &[Option<String>],
    nul_count: u8,
) -> (tag: LinkTag)
    ensures
        tag.0@ == encode_utf8(
            search_tag_text(*link_direction, option_views(chunk_options@), nul_count as nat),
        ),
{
    let mut pieces: Vec<String> = Vec::new();
    let mut count: u8 = 0;
    while nul_count > count
        invariant
            count <= nul_count,
            concat_all(string_views(pieces@)) == nuls(count as nat),
        decreases nul_count - count,
    {
        let ghost before = pieces@;
        pieces.push(nul_string());
        assert(string_views(pieces@).drop_last() =~= string_views(before));
        count += 1;
        assert(concat_all(string_views(pieces@)) =~= nuls(count as nat));
    }
    push_joined(&mut pieces, chunk_options);
    let tag = create_link_tag_metal(link_direction, pieces);
    proof {
        let h = header_text(*link_direction);
        let n = nuls(nul_count as nat);
        let j = join_nul(chunk_texts(option_views(chunk_options@)));
        assert(h + (n + j) =~= h + n + j);
    }
    tag
}

/// Builds a link tag from pieces already laid out: the header for
/// `link_direction` followed by every piece in order.
pub fn create_link_tag_metal(link_direction: &LinkDirection, chunks: Vec<String>) -> (tag: LinkTag)
    ensures
        tag.0@ == encode_utf8(header_text(*link_direction) + concat_all(string_views(chunks@))),
        tag.0@ == header_bytes(*link_direction) + encode_utf8(concat_all(string_views(chunks@))),
{
    let mut link_tag_bytes = build_header(*link_direction);
    let ghost views = string_views(chunks@);
    let n = chunks.len();
    proof {
        assert(views.take(0) =~= Seq::<Seq<char>>::empty());
        assert(encode_utf8(Seq::<char>::empty()) =~= Seq::<u8>::empty());
        assert(link_tag_bytes@ =~= header_bytes(*link_direction) + encode_utf8(
            concat_all(views.take(0)),
        ));
    }
    for k in 0..n
        invariant
            n == chunks@.len(),
            views == string_views(chunks@),
            link_tag_bytes@ == header_bytes(*link_direction) + encode_utf8(
                concat_all(views.take(k as int)),
            ),
    {
        let piece = chunks[k].as_str();
        let bytes = piece.as_bytes();
        let ghost before = link_tag_bytes@;
        append_bytes(&mut link_tag_bytes, bytes);
        proof {
            assert(views.take(k + 1).drop_last() =~= views.take(k as int));
            assert(views.take(k + 1).last() == piece@);
            lemma_encode_utf8_concat(concat_all(views.take(k as int)), piece@);
            assert(link_tag_bytes@ =~= header_bytes(*link_direction) + encode_utf8(
                concat_all(views.take(k + 1)),
            ));
        }
    }
    proof {
        assert(views.take(n as int) =~= views);
        lemma_header_text_encoding(*link_direction);
        lemma_encode_utf8_concat(header_text(*link_direction), concat_all(views));
    }
    LinkTag(link_tag_bytes)
}

} // verus!
