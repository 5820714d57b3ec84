//! Turning a query into the links to fetch and the atoms to keep.

use vstd::prelude::*;
use vstd::utf8::*;
use crate::header::LinkDirection;
use crate::link_tag::{build_link_tag, search_tag_text, LinkTag};
use vstd::string::*;
use crate::text::{chunk_text, lemma_encode_nul, lemma_encode_utf8_concat, option_views, starts_with, text_starts_with};
use crate::trust_atom::{
    convert_links_to_trust_atoms, copy_bytes, copy_opt_string, opt_text, read_link, AtomLink, AtomLinkView, ConvertError, Link,
};

verus! {

broadcast use vstd::seq::group_seq_axioms;

/// The filters a query applies to the atoms it reads; each one that is
/// given must hold (they are ANDed).
pub struct AtomFilter {
    /// The content, exactly.
    pub content_full: Option<String>,
    /// A prefix of the content.
    pub content_starts_with: Option<String>,
    /// A prefix the content must not have (an atom without content passes).
    pub content_not_starts_with: Option<String>,
    /// A prefix of the value.
    pub value_starts_with: Option<String>,
}

/// Full content, content prefix, excluded content prefix and value prefix.
pub type AtomFilterView = (Option<Seq<char>>, Option<Seq<char>>, Option<Seq<char>>, Option<Seq<char>>);

impl View for AtomFilter {
    type V = AtomFilterView;

    open spec fn view(&self) -> AtomFilterView {
        (
            opt_text(self.content_full),
            opt_text(self.content_starts_with),
            opt_text(self.content_not_starts_with),
            opt_text(self.value_starts_with),
        )
    }
}

/// Where to look for links, which tag prefix the host may narrow them by,
/// and the filters the atoms read from them must meet.
pub struct LinkQuery {
    pub direction: LinkDirection,
    pub base: Vec<u8>,
    pub tag_filter: Option<LinkTag>,
    pub filter: AtomFilter,
}

/// A query that cannot be answered.
#[derive(Clone, Copy, Debug, PartialEq, Eq, Structural)]
pub enum QueryError {
    /// Neither a source nor a target was given.
    NoSourceOrTarget,
    /// Both a source and a target were given.
    SourceAndTarget,
}

/// The tag prefix the host searches with, as text: a full content is
/// followed by a NUL so that only that content matches; else a content
/// prefix is left open; without a content filter there is no prefix. The
/// value and the excluded prefix are not searched by tag.
pub open spec fn tag_filter_text(
    direction: LinkDirection,
    content_full: Option<Seq<char>>,
    content_starts_with: Option<Seq<char>>,
) -> Option<Seq<char>> {
    match content_full {
        Some(c) => Some(search_tag_text(direction, seq![Some(c)], 0) + seq!['\0']),
        None => match content_starts_with {
            Some(p) => Some(search_tag_text(direction, seq![Some(p)], 0)),
            None => None,
        },
    }
}

/// The query answered in `direction` from `base` with the given filters.
pub open spec fn plan_is(
    plan: Result<LinkQuery, QueryError>,
    direction: LinkDirection,
    base: Seq<u8>,
    filter: AtomFilterView,
) -> bool {
    plan matches Ok(q) && q.direction == direction && q.base@ == base && q.filter@ == filter && match tag_filter_text(direction, filter.0, filter.1) {
        None => q.tag_filter is None,
        Some(t) => q.tag_filter matches Some(tag) && tag.0@ == encode_utf8(t),
    }
}

/// The filters as given to a query.
pub open spec fn given_filter(
    content_full: Option<String>,
    content_starts_with: Option<String>,
    content_not_starts_with: Option<String>,
    value_starts_with: Option<String>,
) -> AtomFilterView {
    (opt_text(content_full), opt_text(content_starts_with), opt_text(content_not_starts_with), opt_text(value_starts_with))
}

/// Plans a query: links from the source (forward) or to the target
/// (reverse), exactly one of which must be given; the host narrows them by
/// the tag prefix `tag_filter_text` gives, and `answer_query` keeps the
/// atoms meeting every filter.
pub fn query(
    source: Option<Vec<u8>>,
    target: Option<Vec<u8>>,
    content_full: Option<String>,
    content_starts_with: Option<String>,
    content_not_starts_with: Option<String>,
    value_starts_with: Option<String>,
) -> (plan: Result<LinkQuery, QueryError>)
    ensures
        match (source, target) {
            (Some(s), None) => plan_is(
                plan,
                LinkDirection::Forward,
                s@,
                given_filter(content_full, content_starts_with, content_not_starts_with, value_starts_with),
            ),
            (None, Some(t)) => plan_is(
                plan,
                LinkDirection::Reverse,
                t@,
                given_filter(content_full, content_starts_with, content_not_starts_with, value_starts_with),
            ),
            (None, None) => plan matches Err(e) && e == QueryError::NoSourceOrTarget,
            (Some(_), Some(_)) => plan matches Err(e) && e == QueryError::SourceAndTarget,
        },
{
    let (link_direction, link_base) = match (source, target) {
        (Some(source), None) => (LinkDirection::Forward, source),
        (None, Some(target)) => (LinkDirection::Reverse, target),
        (None, None) => return Err(QueryError::NoSourceOrTarget),
        (Some(_), Some(_)) => return Err(QueryError::SourceAndTarget),
    };
    let tag_filter = match &content_full {
        Some(c) => {
            let ghost chunks_view = seq![Some(c@)];
            let chunks = vec![Some(c.clone())];
            assert(option_views(chunks@) =~= chunks_view);
            let tag = build_link_tag(&link_direction, chunks.as_slice(), 0);
            Some(with_nul(tag, Ghost(search_tag_text(link_direction, chunks_view, 0))))
        },
        None => match &content_starts_with {
            Some(p) => {
                let chunks = vec![Some(p.clone())];
                assert(option_views(chunks@) =~= seq![Some(p@)]);
                Some(build_link_tag(&link_direction, chunks.as_slice(), 0))
            },
            None => None,
        },
    };
    let filter = AtomFilter { content_full, content_starts_with, content_not_starts_with, value_starts_with };
    Ok(LinkQuery { direction: link_direction, base: link_base, tag_filter, filter })
}

/// The tag with a NUL appended, which ends a full content.
fn with_nul(tag: LinkTag, Ghost(text): Ghost<Seq<char>>) -> (ended: LinkTag)
    requires
        tag.0@ == encode_utf8(text),
    ensures
        ended.0@ == encode_utf8(text + seq!['\0']),
{
    let LinkTag(mut bytes) = tag;
    let ghost before = bytes@;
    bytes.push(0u8);
    proof {
        lemma_encode_nul();
        lemma_encode_utf8_concat(text, seq!['\0']);
        assert(bytes@ =~= before + seq![0u8]);
    }
    LinkTag(bytes)
}

/// Plans a query over the calling agent's own trust atoms: the forward
/// links from `agent`, with the same filters as `query`. The target
/// argument is not used to narrow the search.
pub fn query_mine(
    agent: Vec<u8>,
    target: Option<Vec<u8>>,
    content_full: Option<String>,
    content_starts_with: Option<String>,
    content_not_starts_with: Option<String>,
    value_starts_with: Option<String>,
) -> (plan: Result<LinkQuery, QueryError>)
    ensures
        plan_is(
            plan,
            LinkDirection::Forward,
            agent@,
            given_filter(content_full, content_starts_with, content_not_starts_with, value_starts_with),
        ),
{
    query(Some(agent), None, content_full, content_starts_with, content_not_starts_with, value_starts_with)
}

/// An atom survives a `content_not_starts_with` filter when it has no
/// content or its content does not begin with the prefix.
pub open spec fn keeps_content(atom: AtomLinkView, prefix: Seq<char>) -> bool {
    match atom.2 {
        None => true,
        Some(c) => !starts_with(c, prefix),
    }
}

/// The atom meets every filter that is given: its content (empty when
/// absent) equals the full content and begins with the content prefix, it
/// passes the excluded prefix, and its value (empty when absent) begins
/// with the value prefix.
pub open spec fn meets_filters(atom: AtomLinkView, filter: AtomFilterView) -> bool {
    &&& (filter.0 matches Some(c) ==> chunk_text(atom.2) == c)
    &&& (filter.1 matches Some(p) ==> starts_with(chunk_text(atom.2), p))
    &&& (filter.2 matches Some(p) ==> keeps_content(atom, p))
    &&& (filter.3 matches Some(v) ==> starts_with(chunk_text(atom.3), v))
}

/// The views of read atoms.
pub open spec fn atom_views(atoms: Seq<AtomLink>) -> Seq<AtomLinkView> {
    atoms.map_values(|a: AtomLink| a@)
}

/// A copy of a read atom.
pub fn copy_atom_link(a: &AtomLink) -> (c: AtomLink)
    ensures
        c@ == a@,
{
    AtomLink {
        source_hash: copy_bytes(a.source_hash.as_slice()),
        target_hash: copy_bytes(a.target_hash.as_slice()),
        content: copy_opt_string(&a.content),
        value: copy_opt_string(&a.value),
        extra_hash: match &a.extra_hash {
            Some(h) => Some(copy_bytes(h.as_slice())),
            None => None,
        },
    }
}

/// Whether the text is given and the other begins with it.
fn opt_starts_with(s: &Option<String>, prefix: &String) -> (b: bool)
    ensures
        b == starts_with(chunk_text(opt_text(*s)), prefix@),
{
    match s {
        Some(t) => text_starts_with(t.as_str(), prefix.as_str()),
        None => {
            proof {
                assert(Seq::<char>::empty().take(0) =~= Seq::<char>::empty());
                if prefix@.len() == 0 {
                    assert(prefix@ =~= Seq::<char>::empty());
                }
            }
            prefix.unicode_len() == 0
        },
    }
}

/// Whether the atom meets every filter that is given.
fn atom_meets(a: &AtomLink, filter: &AtomFilter) -> (b: bool)
    ensures
        b == meets_filters(a@, filter@),
{
    let full = match &filter.content_full {
        Some(c) => match &a.content {
            Some(t) => t.as_str().unicode_len() == c.as_str().unicode_len() && text_starts_with(t.as_str(), c.as_str()),
            None => c.unicode_len() == 0,
        },
        None => true,
    };
    proof {
        let f = filter@;
        let av = a@;
        if f.0 is Some && av.2 is Some {
            let c = f.0->0;
            let t = av.2->0;
            assert(t.take(t.len() as int) =~= t);
            if t.len() == c.len() && starts_with(t, c) {
                assert(t.take(c.len() as int) =~= t);
            }
        }
        if f.0 is Some && av.2 is None && f.0->0.len() == 0 {
            assert(chunk_text(av.2) =~= f.0->0);
        }
    }
    let prefix = match &filter.content_starts_with {
        Some(p) => opt_starts_with(&a.content, p),
        None => true,
    };
    let excluded = match &filter.content_not_starts_with {
        Some(p) => match &a.content {
            Some(t) => !text_starts_with(t.as_str(), p.as_str()),
            None => true,
        },
        None => true,
    };
    let value = match &filter.value_starts_with {
        Some(v) => opt_starts_with(&a.value, v),
        None => true,
    };
    full && prefix && excluded && value
}

/// Keeps, in order, the atoms that meet every filter that is given.
pub fn select_atoms(atoms: &Vec<AtomLink>, filter: &AtomFilter) -> (kept: Vec<AtomLink>)
    ensures
        atom_views(kept@) == atom_views(atoms@).filter(|a: AtomLinkView| meets_filters(a, filter@)),
{
    let ghost pred = |a: AtomLinkView| meets_filters(a, filter@);
    let mut kept: Vec<AtomLink> = Vec::new();
    let n = atoms.len();
    for i in 0..n
        invariant
            n == atoms@.len(),
            pred == (|a: AtomLinkView| meets_filters(a, filter@)),
            atom_views(kept@) == atom_views(atoms@.take(i as int)).filter(pred),
    {
        let a = &atoms[i];
        let keep = atom_meets(a, filter);
        let ghost before = kept@;
        if keep {
            kept.push(copy_atom_link(a));
            assert(atom_views(kept@) =~= atom_views(before).push(a@));
        }
        proof {
            let s = atom_views(atoms@.take(i + 1));
            assert(s.drop_last() =~= atom_views(atoms@.take(i as int)));
            assert(s.last() == a@);
            reveal_with_fuel(Seq::<_>::filter, 1);
        }
    }
    assert(atoms@.take(n as int) =~= atoms@);
    kept
}

/// What reading each link gives, when every one reads.
pub open spec fn read_views(links: Seq<Link>, direction: LinkDirection, base: Seq<u8>) -> Seq<AtomLinkView> {
    Seq::new(links.len(), |i: int| read_link(links[i].target@, links[i].tag@, direction, base)->Ok_0)
}

/// The atom is placed at `base` as the direction says: its source for
/// forward links, its target for reverse links.
pub open spec fn placed_at(atom: AtomLinkView, direction: LinkDirection, base: Seq<u8>) -> bool {
    match direction {
        LinkDirection::Forward => atom.0 == base,
        LinkDirection::Reverse => atom.1 == base,
    }
}

/// Answers a planned query from the links the host gave for it: every link
/// is read as a trust atom (the first that cannot be read is the error),
/// and the atoms meeting every filter of the plan are kept, in order. So
/// each kept atom sits at the plan's base and meets every filter, and every
/// read atom meeting them all is in the answer.
pub fn answer_query(plan: &LinkQuery, links: &[Link]) -> (answer: Result<Vec<AtomLink>, ConvertError>)
    ensures
        match answer {
            Ok(v) => {
                &&& forall|i: int|
                    0 <= i < links@.len() ==> (#[trigger] read_link(
                        links@[i].target@,
                        links@[i].tag@,
                        plan.direction,
                        plan.base@,
                    )) is Ok
                &&& atom_views(v@) == read_views(links@, plan.direction, plan.base@).filter(
                    |a: AtomLinkView| meets_filters(a, plan.filter@),
                )
                &&& forall|i: int|
                    0 <= i < links@.len() && meets_filters(
                        #[trigger] read_views(links@, plan.direction, plan.base@)[i],
                        plan.filter@,
                    ) ==> atom_views(v@).contains(read_views(links@, plan.direction, plan.base@)[i])
                &&& forall|i: int|
                    0 <= i < v@.len() ==> meets_filters(#[trigger] v@[i]@, plan.filter@) && placed_at(
                        v@[i]@,
                        plan.direction,
                        plan.base@,
                    )
            },
            Err(e) => exists|k: int|
                0 <= k < links@.len() && read_link(links@[k].target@, links@[k].tag@, plan.direction, plan.base@)
                    == Err::<AtomLinkView, ConvertError>(e) && forall|i: int|
                    0 <= i < k ==> (#[trigger] read_link(
                        links@[i].target@,
                        links@[i].tag@,
                        plan.direction,
                        plan.base@,
                    )) is Ok,
        },
{
    let atoms = match convert_links_to_trust_atoms(links, &plan.direction, plan.base.as_slice()) {
        Ok(atoms) => atoms,
        Err(e) => return Err(e),
    };
    let kept = select_atoms(&atoms, &plan.filter);
    proof {
        let views = read_views(links@, plan.direction, plan.base@);
        assert forall|i: int| 0 <= i < links@.len() implies (#[trigger] read_link(
            links@[i].target@,
            links@[i].tag@,
            plan.direction,
            plan.base@,
        )) is Ok by {
            assert(read_link(links@[i].target@, links@[i].tag@, plan.direction, plan.base@) == Ok::<
                AtomLinkView,
                ConvertError,
            >(atoms@[i]@));
        }
        assert(atom_views(atoms@) =~= views);
        let pred = |a: AtomLinkView| meets_filters(a, plan.filter@);
        let q = |a: AtomLinkView| placed_at(a, plan.direction, plan.base@);
        assert forall|i: int| 0 <= i < views.len() implies #[trigger] q(views[i]) by {
            assert(read_link(links@[i].target@, links@[i].tag@, plan.direction, plan.base@) == Ok::<
                AtomLinkView,
                ConvertError,
            >(atoms@[i]@));
        }
        lemma_filter_keeps(views, pred, q);
        assert forall|i: int| 0 <= i < links@.len() && meets_filters(#[trigger] views[i], plan.filter@) implies atom_views(
            kept@,
        ).contains(views[i]) by {
            views.lemma_filter_contains(pred, i);
        }
        assert forall|i: int| 0 <= i < kept@.len() implies meets_filters(#[trigger] kept@[i]@, plan.filter@)
            && placed_at(kept@[i]@, plan.direction, plan.base@) by {
            assert(atom_views(kept@)[i] == kept@[i]@);
            assert(pred(views.filter(pred)[i]));
            assert(q(views.filter(pred)[i]));
        }
    }
    Ok(kept)
}

/// What holds of every item holds of every item a filter keeps, and so does
/// the filter's predicate.
proof fn lemma_filter_keeps(s: Seq<AtomLinkView>, pred: spec_fn(AtomLinkView) -> bool, q: spec_fn(AtomLinkView) -> bool)
    requires
        forall|i: int| 0 <= i < s.len() ==> #[trigger] q(s[i]),
    ensures
        forall|i: int|
            0 <= i < s.filter(pred).len() ==> pred(#[trigger] s.filter(pred)[i]) && q(s.filter(pred)[i]),
    decreases s.len(),
{
    reveal_with_fuel(Seq::<_>::filter, 1);
    if s.len() > 0 {
        let front = s.drop_last();
        assert forall|i: int| 0 <= i < front.len() implies #[trigger] q(front[i]) by {
            assert(front[i] == s[i]);
        }
        lemma_filter_keeps(front, pred, q);
        let last = s[s.len() - 1];
        assert(q(last));
        let ff = front.filter(pred);
        assert forall|i: int| 0 <= i < s.filter(pred).len() implies pred(#[trigger] s.filter(pred)[i]) && q(
            s.filter(pred)[i],
        ) by {
            if pred(last) {
                assert(s.filter(pred) == ff.push(last));
                if i < ff.len() {
                    assert(s.filter(pred)[i] == ff[i]);
                }
            } else {
                assert(s.filter(pred) == ff);
            }
        }
    }
}

} // verus!
