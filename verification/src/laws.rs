//! What holds across the functions of the trust atom format.

use vstd::prelude::*;
use vstd::utf8::*;
use crate::header::{header_bytes, header_text, LinkDirection};
use crate::delete::hashes_to_delete;
use crate::hash::{hash_from_text, hash_text, read_hash_text};
use crate::link_tag::{link_tag_text, nuls, search_tag_text};
use crate::text::{
    all_nul_free, bytes_start_with, chunk_text, chunk_texts, join_nul, lemma_encode_prefix_iff, lemma_encode_utf8_concat, lemma_split_join,
    lemma_split_nul_len, lemma_split_nul_prefix, nul_count, nul_free, split_nul, starts_with,
};
use crate::trust_atom::{atom_chunks, non_empty, read_link, tag_fields, value_chunk, ConvertError, Link};
use crate::value::{
    decimal_from_str, decimal_round_sf, has_exponent, lemma_rounded_value_shape, lemma_rounded_value_within, normalized_value,
    rounded_value_text, within_nines,
};
use crate::validation::{create_link_verdict, ValidateCallbackResult};
use crate::query::{meets_filters, placed_at, tag_filter_text, AtomFilterView};
use crate::trust_atom::AtomLinkView;

verus! {

broadcast use vstd::seq::group_seq_axioms;

/// Chunk texts of an atom's tag, written out.
proof fn lemma_atom_chunk_texts(
    content: Option<Seq<char>>,
    value: Option<Seq<char>>,
    bucket: Seq<char>,
    extra: Option<Seq<char>>,
)
    ensures
        chunk_texts(atom_chunks(content, value, bucket, extra)) == seq![
            chunk_text(content),
            chunk_text(value),
            bucket,
            chunk_text(extra),
        ],
        join_nul(chunk_texts(atom_chunks(content, value, bucket, extra))) == chunk_text(content)
            + seq!['\0'] + chunk_text(value) + seq!['\0'] + bucket + seq!['\0'] + chunk_text(extra),
{
    let texts = chunk_texts(atom_chunks(content, value, bucket, extra));
    assert(texts =~= seq![chunk_text(content), chunk_text(value), bucket, chunk_text(extra)]);
    let t3 = texts.drop_last();
    let t2 = t3.drop_last();
    let t1 = t2.drop_last();
    assert(t1 =~= seq![chunk_text(content)]);
    assert(join_nul(t1) == chunk_text(content));
    assert(t2.last() == chunk_text(value));
    assert(join_nul(t2) == join_nul(t1) + seq!['\0'] + chunk_text(value));
    assert(t3.last() == bucket);
    assert(join_nul(t3) == join_nul(t2) + seq!['\0'] + bucket);
    assert(texts.last() == chunk_text(extra));
    assert(join_nul(texts) == join_nul(t3) + seq!['\0'] + chunk_text(extra));
}

/// The header text holds no NUL.
proof fn lemma_header_nul_free(direction: LinkDirection)
    ensures
        nul_free(header_text(direction)),
        header_text(direction).len() == 2,
{
}

/// How a trust atom's tag text cuts at its NULs: the header with the
/// content, then value, bucket and extra.
pub proof fn lemma_atom_tag_chunks(
    direction: LinkDirection,
    content: Option<Seq<char>>,
    value: Option<Seq<char>>,
    bucket: Seq<char>,
    extra: Option<Seq<char>>,
)
    requires
        nul_free(chunk_text(content)),
        nul_free(chunk_text(value)),
        nul_free(bucket),
        nul_free(chunk_text(extra)),
    ensures
        split_nul(link_tag_text(direction, atom_chunks(content, value, bucket, extra))) == seq![
            header_text(direction) + chunk_text(content),
            chunk_text(value),
            bucket,
            chunk_text(extra),
        ],
{
    lemma_atom_chunk_texts(content, value, bucket, extra);
    let texts = chunk_texts(atom_chunks(content, value, bucket, extra));
    assert(all_nul_free(texts)) by {
        assert forall|i: int| 0 <= i < texts.len() implies nul_free(#[trigger] texts[i]) by {
            if i == 0 {
            } else if i == 1 {
            } else if i == 2 {
            } else {
            }
        }
    }
    lemma_split_join(texts);
    lemma_header_nul_free(direction);
    lemma_split_nul_prefix(header_text(direction), join_nul(texts));
    assert(split_nul(link_tag_text(direction, atom_chunks(content, value, bucket, extra))) =~= seq![
        header_text(direction) + chunk_text(content),
        chunk_text(value),
        bucket,
        chunk_text(extra),
    ]);
}

/// Reading gives back what writing put in: a link whose tag was written
/// from a trust atom's chunks (none holding a NUL) reads back as an atom
/// with the same content and value (an empty one reading as absent), with
/// source and target placed by the direction; the only way it can fail is
/// a non-empty extra chunk that is not a hash text.
pub proof fn law_read_back_written_tag(
    direction: LinkDirection,
    base: Seq<u8>,
    link_target: Seq<u8>,
    content: Option<Seq<char>>,
    value: Option<Seq<char>>,
    bucket: Seq<char>,
    extra: Option<Seq<char>>,
)
    requires
        nul_free(chunk_text(content)),
        nul_free(chunk_text(value)),
        nul_free(bucket),
        nul_free(chunk_text(extra)),
    ensures
        ({
            let tag = encode_utf8(link_tag_text(direction, atom_chunks(content, value, bucket, extra)));
            let (source, target) = match direction {
                LinkDirection::Forward => (base, link_target),
                LinkDirection::Reverse => (link_target, base),
            };
            &&& tag_fields(decode_utf8(tag)) == Some(
                (chunk_text(content), chunk_text(value), chunk_text(extra)),
            )
            &&& match read_link(link_target, tag, direction, base) {
                Ok(atom) => {
                    &&& atom.0 == source
                    &&& atom.1 == target
                    &&& atom.2 == non_empty(chunk_text(content))
                    &&& atom.3 == non_empty(chunk_text(value))
                    &&& atom.4 == if chunk_text(extra).len() == 0 {
                        None
                    } else {
                        read_hash_text(chunk_text(extra))
                    }
                },
                Err(e) => {
                    &&& e == ConvertError::BadExtraHash
                    &&& chunk_text(extra).len() > 0
                    &&& read_hash_text(chunk_text(extra)) is None
                },
            }
        }),
{
    let text = link_tag_text(direction, atom_chunks(content, value, bucket, extra));
    encode_utf8_decode_utf8(text);
    encode_utf8_valid_utf8(text);
    lemma_atom_tag_chunks(direction, content, value, bucket, extra);
    let first = header_text(direction) + chunk_text(content);
    assert(first.skip(2) =~= chunk_text(content));
}

/// A tag written from a trust atom's chunks passes validation when the tag
/// holds at most 999 bytes, its content at most 900, its value at most 12
/// characters and is empty or a value within -0.999999999..0.999999999, its
/// bucket exactly 9 characters, no chunk holds a NUL, and the link's base
/// is both the validating agent and the author.
pub proof fn law_written_tag_is_valid(
    direction: LinkDirection,
    agent: Seq<u8>,
    content: Option<Seq<char>>,
    value: Option<Seq<char>>,
    bucket: Seq<char>,
    extra: Option<Seq<char>>,
)
    requires
        nul_free(chunk_text(content)),
        nul_free(chunk_text(value)),
        nul_free(bucket),
        nul_free(chunk_text(extra)),
        chunk_text(value).len() <= 12,
        chunk_text(value).len() == 0 || within_nines(chunk_text(value)),
        bucket.len() == 9,
        encode_utf8(chunk_text(content)).len() <= 900,
        encode_utf8(link_tag_text(direction, atom_chunks(content, value, bucket, extra))).len() <= 999,
    ensures
        create_link_verdict(
            agent,
            agent,
            agent,
            encode_utf8(link_tag_text(direction, atom_chunks(content, value, bucket, extra))),
        ) == Ok::<ValidateCallbackResult, crate::validation::LinkTagError>(
            ValidateCallbackResult::Valid,
        ),
{
    let text = link_tag_text(direction, atom_chunks(content, value, bucket, extra));
    encode_utf8_decode_utf8(text);
    encode_utf8_valid_utf8(text);
    lemma_atom_tag_chunks(direction, content, value, bucket, extra);
    let first = header_text(direction) + chunk_text(content);
    assert(first.take(2) =~= header_text(direction));
    assert(starts_with(first, header_text(direction)));
    assert(first.skip(2) =~= chunk_text(content));
}

/// The value chunk a trust atom's tags carry has at most 12 characters, is
/// empty or a value within -0.999999999..0.999999999, and holds no NUL.
proof fn lemma_value_chunk_fits(value: Option<Seq<char>>)
    ensures
        chunk_text(value_chunk(value)).len() <= 12,
        chunk_text(value_chunk(value)).len() == 0 || within_nines(chunk_text(value_chunk(value))),
        nul_free(chunk_text(value_chunk(value))),
{
    if let Some(v) = value {
        if !has_exponent(v) {
            if let Some((m, sc)) = decimal_from_str(v) {
                if let Some((m2, s2)) = decimal_round_sf(m, sc, 9) {
                    if rounded_value_text(m2, s2) is Some {
                        lemma_rounded_value_shape(m2, s2);
                        lemma_rounded_value_within(m2, s2);
                        let t = rounded_value_text(m2, s2)->0;
                        assert forall|i: int| 0 <= i < t.len() implies t[i] != '\0' by {
                            if t.len() >= 3 && t[0] == '-' && t[1] == '.' && i >= 2 {
                                assert(t[i] == t.skip(2)[i - 2]);
                            } else if t.len() >= 2 && t[0] == '.' && i >= 1 {
                                assert(t[i] == t.skip(1)[i - 1]);
                            }
                        }
                    }
                }
            }
        }
    }
}

/// A trust atom as `create` writes it passes validation when its bucket has
/// exactly 9 characters, its content and extra hash hold no NUL, its
/// content holds at most 900 bytes and the whole tag at most 999, and the
/// link's base is both the validating agent and the author.
pub proof fn law_created_tag_is_valid(
    direction: LinkDirection,
    agent: Seq<u8>,
    content: Option<Seq<char>>,
    value: Option<Seq<char>>,
    bucket: Seq<char>,
    extra: Option<Seq<char>>,
)
    requires
        nul_free(chunk_text(content)),
        nul_free(bucket),
        nul_free(chunk_text(extra)),
        bucket.len() == 9,
        encode_utf8(chunk_text(content)).len() <= 900,
        encode_utf8(link_tag_text(direction, atom_chunks(content, value_chunk(value), bucket, extra))).len() <= 999,
    ensures
        create_link_verdict(
            agent,
            agent,
            agent,
            encode_utf8(link_tag_text(direction, atom_chunks(content, value_chunk(value), bucket, extra))),
        ) == Ok::<ValidateCallbackResult, crate::validation::LinkTagError>(
            ValidateCallbackResult::Valid,
        ),
{
    lemma_value_chunk_fits(value);
    law_written_tag_is_valid(direction, agent, content, value_chunk(value), bucket, extra);
}

/// The forward and reverse tags of the same chunks have the same length
/// and differ only in the last header byte, the arrow.
pub proof fn law_directions_differ_only_in_arrow(chunks: Seq<Option<Seq<char>>>)
    ensures
        ({
            let f = encode_utf8(link_tag_text(LinkDirection::Forward, chunks));
            let r = encode_utf8(link_tag_text(LinkDirection::Reverse, chunks));
            &&& f.len() == r.len()
            &&& f.take(4) == r.take(4)
            &&& f.skip(5) == r.skip(5)
            &&& f[4] != r[4]
        }),
{
    let rest = join_nul(chunk_texts(chunks));
    crate::header::lemma_header_text_encoding(LinkDirection::Forward);
    crate::header::lemma_header_text_encoding(LinkDirection::Reverse);
    lemma_encode_utf8_concat(header_text(LinkDirection::Forward), rest);
    lemma_encode_utf8_concat(header_text(LinkDirection::Reverse), rest);
    let f = encode_utf8(link_tag_text(LinkDirection::Forward, chunks));
    let r = encode_utf8(link_tag_text(LinkDirection::Reverse, chunks));
    assert(f.take(4) =~= r.take(4));
    assert(f.skip(5) =~= r.skip(5));
}

/// The search text for a full content is the header, the content and a
/// NUL; a link of a trust atom carries that prefix, as text and as bytes,
/// exactly when its content is that content (neither holding a NUL).
pub proof fn law_full_content_search(
    direction: LinkDirection,
    content_full: Seq<char>,
    content: Option<Seq<char>>,
    value: Option<Seq<char>>,
    bucket: Seq<char>,
    extra: Option<Seq<char>>,
)
    requires
        nul_free(content_full),
        nul_free(chunk_text(content)),
    ensures
        ({
            let filter = search_tag_text(direction, seq![Some(content_full)], 0) + seq!['\0'];
            let tag = link_tag_text(direction, atom_chunks(content, value, bucket, extra));
            &&& filter == header_text(direction) + content_full + seq!['\0']
            &&& starts_with(tag, filter) <==> chunk_text(content) == content_full
            &&& bytes_start_with(encode_utf8(tag), encode_utf8(filter)) <==> chunk_text(content)
                == content_full
        }),
{
    let h = header_text(direction);
    let c = chunk_text(content);
    let filter = search_tag_text(direction, seq![Some(content_full)], 0) + seq!['\0'];
    let tag = link_tag_text(direction, atom_chunks(content, value, bucket, extra));
    lemma_atom_chunk_texts(content, value, bucket, extra);
    let after = chunk_text(value) + seq!['\0'] + bucket + seq!['\0'] + chunk_text(extra);
    assert(chunk_texts(seq![Some(content_full)]) =~= seq![content_full]);
    assert(nuls(0) =~= Seq::<char>::empty());
    assert(filter =~= h + content_full + seq!['\0']);
    assert(tag =~= h + c + seq!['\0'] + after);
    lemma_encode_prefix_iff(filter, tag);
    if c == content_full {
        assert(tag.take(filter.len() as int) =~= filter);
    }
    if starts_with(tag, filter) {
        if c.len() < content_full.len() {
            assert(tag[2 + c.len() as int] == '\0');
            assert(filter[2 + c.len() as int] == content_full[c.len() as int]);
            assert(tag.take(filter.len() as int)[2 + c.len() as int] == tag[2 + c.len() as int]);
        } else if c.len() > content_full.len() {
            assert(filter[2 + content_full.len() as int] == '\0');
            assert(tag[2 + content_full.len() as int] == c[content_full.len() as int]);
            assert(tag.take(filter.len() as int)[2 + content_full.len() as int] == tag[2 + content_full.len() as int]);
        } else {
            assert forall|i: int| 0 <= i < c.len() implies c[i] == content_full[i] by {
                assert(tag.take(filter.len() as int)[2 + i] == tag[2 + i]);
            }
            assert(c =~= content_full);
        }
    }
}

/// The search text for a content prefix is the header and the prefix; a
/// link of a trust atom carries it exactly when its content begins with the
/// prefix (the prefix holding no NUL).
pub proof fn law_content_prefix_search(
    direction: LinkDirection,
    prefix: Seq<char>,
    content: Option<Seq<char>>,
    value: Option<Seq<char>>,
    bucket: Seq<char>,
    extra: Option<Seq<char>>,
)
    requires
        nul_free(prefix),
    ensures
        ({
            let filter = search_tag_text(direction, seq![Some(prefix)], 0);
            let tag = link_tag_text(direction, atom_chunks(content, value, bucket, extra));
            &&& filter == header_text(direction) + prefix
            &&& starts_with(tag, filter) <==> starts_with(chunk_text(content), prefix)
            &&& bytes_start_with(encode_utf8(tag), encode_utf8(filter)) <==> starts_with(
                chunk_text(content),
                prefix,
            )
        }),
{
    let h = header_text(direction);
    let c = chunk_text(content);
    let filter = search_tag_text(direction, seq![Some(prefix)], 0);
    let tag = link_tag_text(direction, atom_chunks(content, value, bucket, extra));
    lemma_atom_chunk_texts(content, value, bucket, extra);
    let after = chunk_text(value) + seq!['\0'] + bucket + seq!['\0'] + chunk_text(extra);
    assert(chunk_texts(seq![Some(prefix)]) =~= seq![prefix]);
    assert(nuls(0) =~= Seq::<char>::empty());
    assert(filter =~= h + prefix);
    assert(tag =~= h + c + seq!['\0'] + after);
    lemma_encode_prefix_iff(filter, tag);
    if starts_with(c, prefix) {
        assert(tag.take(filter.len() as int) =~= filter);
    }
    if starts_with(tag, filter) {
        if c.len() < prefix.len() {
            assert(tag[2 + c.len() as int] == '\0');
            assert(tag.take(filter.len() as int)[2 + c.len() as int] == tag[2 + c.len() as int]);
            assert(filter[2 + c.len() as int] == prefix[c.len() as int]);
        } else {
            assert forall|i: int| 0 <= i < prefix.len() implies c[i] == prefix[i] by {
                assert(tag.take(filter.len() as int)[2 + i] == tag[2 + i]);
            }
            assert(c.take(prefix.len() as int) =~= prefix);
        }
    }
}

/// The tag bytes carry the search prefix, when there is one.
pub open spec fn passes_tag_search(tag: Seq<u8>, search: Option<Seq<char>>) -> bool {
    match search {
        None => true,
        Some(t) => bytes_start_with(tag, encode_utf8(t)),
    }
}

/// The host's tag search drops no atom that meets a query's filters: a
/// link written for a trust atom (no chunk holding a NUL) that reads as an
/// atom meeting every filter carries the tag prefix the query searches with
/// (the full content and the content prefix holding no NUL). With
/// `answer_query` keeping exactly the read atoms that meet every filter, a
/// query answers with exactly the written atoms that meet them all.
pub proof fn law_matching_atom_passes_tag_search(
    direction: LinkDirection,
    base: Seq<u8>,
    link_target: Seq<u8>,
    content: Option<Seq<char>>,
    value: Option<Seq<char>>,
    bucket: Seq<char>,
    extra: Option<Seq<char>>,
    filter: AtomFilterView,
)
    requires
        nul_free(chunk_text(content)),
        nul_free(chunk_text(value)),
        nul_free(bucket),
        nul_free(chunk_text(extra)),
        nul_free(chunk_text(filter.0)),
        nul_free(chunk_text(filter.1)),
    ensures
        ({
            let tag = encode_utf8(link_tag_text(direction, atom_chunks(content, value, bucket, extra)));
            read_link(link_target, tag, direction, base) matches Ok(atom) && meets_filters(atom, filter)
                ==> passes_tag_search(tag, tag_filter_text(direction, filter.0, filter.1))
        }),
{
    law_read_back_written_tag(direction, base, link_target, content, value, bucket, extra);
    let c = chunk_text(content);
    assert(chunk_text(non_empty(c)) == c);
    match filter.0 {
        Some(full) => {
            law_full_content_search(direction, full, content, value, bucket, extra);
        },
        None => match filter.1 {
            Some(p) => {
                law_content_prefix_search(direction, p, content, value, bucket, extra);
            },
            None => {},
        },
    }
}

/// A trust atom as `create` writes it is found by every query whose
/// filters it meets: its link reads back as an atom placed at the query's
/// base, and when that atom meets the filters the link carries the tag
/// prefix the host searches with, so `answer_query` keeps it. This holds
/// when the content, bucket and extra hash hold no NUL, the full content
/// and content prefix hold none either, and a non-empty extra hash text
/// decodes.
pub proof fn law_created_atom_is_found(
    direction: LinkDirection,
    base: Seq<u8>,
    link_target: Seq<u8>,
    content: Option<Seq<char>>,
    value: Option<Seq<char>>,
    bucket: Seq<char>,
    extra: Option<Seq<char>>,
    filter: AtomFilterView,
)
    requires
        nul_free(chunk_text(content)),
        nul_free(bucket),
        nul_free(chunk_text(extra)),
        nul_free(chunk_text(filter.0)),
        nul_free(chunk_text(filter.1)),
        chunk_text(extra).len() == 0 || read_hash_text(chunk_text(extra)) is Some,
    ensures
        ({
            let tag = encode_utf8(link_tag_text(direction, atom_chunks(content, value_chunk(value), bucket, extra)));
            &&& read_link(link_target, tag, direction, base) is Ok
            &&& placed_at(read_link(link_target, tag, direction, base)->Ok_0, direction, base)
            &&& meets_filters(read_link(link_target, tag, direction, base)->Ok_0, filter) ==> passes_tag_search(
                tag,
                tag_filter_text(direction, filter.0, filter.1),
            )
        }),
{
    lemma_value_chunk_fits(value);
    law_read_back_written_tag(direction, base, link_target, content, value_chunk(value), bucket, extra);
    law_matching_atom_passes_tag_search(direction, base, link_target, content, value_chunk(value), bucket, extra, filter);
}

/// Deleting the trust atoms about `other_end` removes exactly the links
/// that point at `other_end` and whose tag opens with the direction's
/// header: their creation hashes, in the order of the links, and no others.
pub proof fn law_delete_takes_only_links_to_other_end(
    links: Seq<Link>,
    other_end: Seq<u8>,
    direction: LinkDirection,
)
    ensures
        hashes_to_delete(links, other_end, direction) == links.filter(
            |l: Link| l.target@ == other_end && l.tag@.take(5) == header_bytes(direction),
        ).map_values(|l: Link| l.create_link_hash@),
    decreases links.len(),
{
    let pred = |l: Link| l.target@ == other_end && l.tag@.take(5) == header_bytes(direction);
    let hash = |l: Link| l.create_link_hash@;
    reveal_with_fuel(Seq::<_>::filter, 1);
    if links.len() == 0 {
        assert(links.filter(pred).map_values(hash) =~= Seq::<Seq<u8>>::empty());
    } else {
        law_delete_takes_only_links_to_other_end(links.drop_last(), other_end, direction);
        let front = links.drop_last().filter(pred);
        if pred(links.last()) {
            assert(front.push(links.last()).map_values(hash) =~= front.map_values(hash).push(
                links.last().create_link_hash@,
            ));
        }
    }
}

/// A trust atom link is valid exactly when its base is both the validating
/// agent and the author, and its tag is at most 999 bytes of UTF-8 text
/// holding exactly three NULs, so four chunks: a header (`Ŧ→` or `Ŧ↩`)
/// with at most 900 bytes of content, a value of at most 12 characters that
/// is empty or within -0.999999999..0.999999999, a 9-character bucket, and
/// the extra hash.
pub proof fn law_valid_link_creation(base: Seq<u8>, agent: Seq<u8>, author: Seq<u8>, tag: Seq<u8>)
    ensures
        create_link_verdict(base, agent, author, tag) == Ok::<ValidateCallbackResult, crate::validation::LinkTagError>(
            ValidateCallbackResult::Valid,
        ) <==> {
            let text = decode_utf8(tag);
            let chunks = split_nul(text);
            &&& base == agent && base == author
            &&& tag.len() <= 999
            &&& valid_utf8(tag)
            &&& nul_count(text) == 3
            &&& chunks.len() == 4
            &&& (starts_with(chunks[0], header_text(LinkDirection::Forward)) || starts_with(
                chunks[0],
                header_text(LinkDirection::Reverse),
            ))
            &&& encode_utf8(chunks[0].skip(2)).len() <= 900
            &&& chunks[1].len() <= 12
            &&& (chunks[1].len() == 0 || within_nines(chunks[1]))
            &&& chunks[2].len() == 9
        },
{
    lemma_split_nul_len(decode_utf8(tag));
}

/// A query with no filters keeps every atom.
pub proof fn law_no_filter_keeps_all(atom: AtomLinkView)
    ensures
        meets_filters(atom, (None, None, None, None)),
{
}

/// Each filter narrows a query on its own: adding a filter keeps exactly
/// the atoms the other filters keep that also pass it. A full content keeps
/// the atoms with that content (an absent content read as empty); a content
/// prefix those whose content begins with it; a value prefix those whose
/// value begins with it; an excluded prefix drops exactly the atoms that
/// have a content beginning with it, so an atom without content is never
/// dropped by it.
pub proof fn law_filters_are_anded(atom: AtomLinkView, filter: AtomFilterView)
    ensures
        filter.0 matches Some(c) ==> (meets_filters(atom, filter) <==> meets_filters(
            atom,
            (None, filter.1, filter.2, filter.3),
        ) && chunk_text(atom.2) == c),
        filter.1 matches Some(p) ==> (meets_filters(atom, filter) <==> meets_filters(
            atom,
            (filter.0, None, filter.2, filter.3),
        ) && starts_with(chunk_text(atom.2), p)),
        filter.2 matches Some(p) ==> (meets_filters(atom, filter) <==> meets_filters(
            atom,
            (filter.0, filter.1, None, filter.3),
        ) && !(atom.2 matches Some(c) && starts_with(c, p))),
        filter.3 matches Some(v) ==> (meets_filters(atom, filter) <==> meets_filters(
            atom,
            (filter.0, filter.1, filter.2, None),
        ) && starts_with(chunk_text(atom.3), v)),
{
}

/// A trust atom is written with its normalized value: when normalizing a
/// value `v` gives the text `t`, the value chunk of the atom's tags is `t`,
/// never empty, so the atom reads back with the value `t` (zero included,
/// written `0`); a value that normalizing refuses leaves the chunk empty.
pub proof fn law_created_value_reads_back(
    direction: LinkDirection,
    base: Seq<u8>,
    link_target: Seq<u8>,
    content: Option<Seq<char>>,
    v: Seq<char>,
    bucket: Seq<char>,
    extra: Option<Seq<char>>,
)
    requires
        nul_free(chunk_text(content)),
        nul_free(bucket),
        nul_free(chunk_text(extra)),
    ensures
        ({
            let tag = encode_utf8(link_tag_text(direction, atom_chunks(content, value_chunk(Some(v)), bucket, extra)));
            match normalized_value(v) {
                Ok(t) => {
                    &&& t.len() > 0
                    &&& value_chunk(Some(v)) == Some(t)
                    &&& tag_fields(decode_utf8(tag)) matches Some(fields) && fields.1 == t
                    &&& read_link(link_target, tag, direction, base) matches Ok(atom) ==> atom.3 == Some(t)
                },
                Err(_) => value_chunk(Some(v)) is None,
            }
        }),
{
    lemma_value_chunk_fits(Some(v));
    if let Ok(t) = normalized_value(v) {
        if let Some((m, sc)) = decimal_from_str(v) {
            if let Some((m2, s2)) = decimal_round_sf(m, sc, 9) {
                lemma_rounded_value_shape(m2, s2);
            }
        }
    }
    law_read_back_written_tag(direction, base, link_target, content, value_chunk(Some(v)), bucket, extra);
}

/// Reading a hash text from a tag reads every text that starts with `u`
/// just as the hash decoder does, whatever characters follow (base64 uses
/// `-` and `_` too); in particular the text written for a hash reads back
/// exactly when the decoder accepts it.
pub proof fn law_hash_texts_read_as_decoded(text: Seq<char>, raw: Seq<u8>)
    ensures
        text.len() > 0 && text[0] == 'u' ==> read_hash_text(text) == hash_from_text(text),
        read_hash_text(hash_text(raw)) == hash_from_text(hash_text(raw)),
{
    assert(hash_text(raw)[0] == 'u');
}

} // verus!
