//! Which links deleting the trust atoms about a target removes.

use vstd::prelude::*;
use crate::header::{build_header, header_bytes, LinkDirection};
use crate::trust_atom::{copy_bytes, DeleteReport, Link};
use crate::validation::bytes_equal;

verus! {

broadcast use vstd::seq::group_seq_axioms;

/// The link points at `other_end` and its tag opens with the header for
/// `direction`.
pub open spec fn marks_atom(link: Link, other_end: Seq<u8>, direction: LinkDirection) -> bool {
    link.target@ == other_end && link.tag@.take(5) == header_bytes(direction)
}

/// The creation hashes of the links that `marks_atom`, in order.
pub open spec fn hashes_to_delete(links: Seq<Link>, other_end: Seq<u8>, direction: LinkDirection) -> Seq<
    Seq<u8>,
>
    decreases links.len(),
{
    if links.len() == 0 {
        Seq::empty()
    } else {
        let front = hashes_to_delete(links.drop_last(), other_end, direction);
        if marks_atom(links.last(), other_end, direction) {
            front.push(links.last().create_link_hash@)
        } else {
            front
        }
    }
}

/// The views of byte vectors.
pub open spec fn byte_views(v: Seq<Vec<u8>>) -> Seq<Seq<u8>> {
    v.map_values(|b: Vec<u8>| b@)
}

/// Picks the links to delete: those pointing at `other_end` whose tag opens
/// with the header for `link_direction`. A link pointing at `other_end`
/// must have a tag of at least five bytes, the header's length.
pub fn links_to_delete(links: &[Link], other_end: &[u8], link_direction: LinkDirection) -> (hashes:
    Vec<Vec<u8>>)
    requires
        forall|i: int|
            0 <= i < links@.len() && (#[trigger] links@[i]).target@ == other_end@ ==> links@[i].tag@.len()
                >= 5,
    ensures
        byte_views(hashes@) == hashes_to_delete(links@, other_end@, link_direction),
        byte_views(hashes@) == links@.filter(
            |l: Link| l.target@ == other_end@ && l.tag@.take(5) == header_bytes(link_direction),
        ).map_values(|l: Link| l.create_link_hash@),
{
    let header = build_header(link_direction);
    let mut hashes: Vec<Vec<u8>> = Vec::new();
    let n = links.len();
    for i in 0..n
        invariant
            n == links@.len(),
            header@ == header_bytes(link_direction),
            forall|i: int|
                0 <= i < links@.len() && (#[trigger] links@[i]).target@ == other_end@
                    ==> links@[i].tag@.len() >= 5,
            byte_views(hashes@) == hashes_to_delete(links@.take(i as int), other_end@, link_direction),
    {
        let link = &links[i];
        assert(links@.take(i + 1).drop_last() =~= links@.take(i as int));
        assert(links@.take(i + 1).last() == *link);
        let ghost before = hashes@;
        if bytes_equal(link.target.as_slice(), other_end) {
            assert(links@[i as int].target@ == other_end@);
            let start = vstd::slice::slice_subrange(link.tag.as_slice(), 0, 5);
            if bytes_equal(start, header.as_slice()) {
                hashes.push(copy_bytes(link.create_link_hash.as_slice()));
                assert(byte_views(hashes@) =~= byte_views(before).push(link.create_link_hash@));
            }
        }
    }
    assert(links@.take(n as int) =~= links@);
    proof {
        crate::laws::law_delete_takes_only_links_to_other_end(links@, other_end@, link_direction);
        let oe = other_end@;
        assert((|l: Link| l.target@ == other_end@ && l.tag@.take(5) == header_bytes(link_direction)) =~= (|l: Link|
            l.target@ == oe && l.tag@.take(5) == header_bytes(link_direction)));
    }
    hashes
}

/// The forward and reverse link counts of a deletion disagree.
#[derive(Clone, Copy, Debug, PartialEq, Eq, Structural)]
pub enum DeleteError {
    CountMismatch { forward: usize, reverse: usize },
}

/// Reports a deletion: as many trust atoms as forward links when the
/// forward and reverse counts agree, else an error naming both.
pub fn delete_report(forward_count: usize, reverse_count: usize) -> (report: Result<DeleteReport, DeleteError>)
    ensures
        forward_count == reverse_count ==> report == Ok::<DeleteReport, DeleteError>(
            DeleteReport {
                trust_atoms_deleted: forward_count,
                forward_links_deleted: forward_count,
                backward_links_deleted: reverse_count,
            },
        ),
        forward_count != reverse_count ==> report == Err::<DeleteReport, DeleteError>(
            DeleteError::CountMismatch { forward: forward_count, reverse: reverse_count },
        ),
{
    if forward_count == reverse_count {
        Ok(DeleteReport {
            forward_links_deleted: forward_count,
            backward_links_deleted: reverse_count,
            trust_atoms_deleted: forward_count,
        })
    } else {
        Err(DeleteError::CountMismatch { forward: forward_count, reverse: reverse_count })
    }
}

} // verus!
