//! Link selections that rolling up trust atoms relies on.

use vstd::prelude::*;
use crate::trust_atom::{copy_bytes, AtomLink, AtomLinkView, Link};
use crate::query::atom_views;
use crate::validation::bytes_equal;
use crate::delete::byte_views;

verus! {

/// Finds the latest link to `target`: the one with the greatest timestamp,
/// and of those the last in the list (links sorted stably by timestamp,
/// then the last one taken). `None` when no link points at `target`.
pub fn latest_link_index(links: &[Link], target: &[u8]) -> (latest: Option<usize>)
    ensures
        match latest {
            None => forall|j: int| 0 <= j < links@.len() ==> (#[trigger] links@[j]).target@ != target@,
            Some(i) => {
                &&& i < links@.len()
                &&& links@[i as int].target@ == target@
                &&& forall|j: int|
                    0 <= j < links@.len() && (#[trigger] links@[j]).target@ == target@ ==> {
                        &&& links@[j].timestamp <= links@[i as int].timestamp
                        &&& j > i ==> links@[j].timestamp < links@[i as int].timestamp
                    }
            },
        },
{
    let mut best: Option<usize> = None;
    let n = links.len();
    for k in 0..n
        invariant
            n == links@.len(),
            match best {
                None => forall|j: int| 0 <= j < k ==> (#[trigger] links@[j]).target@ != target@,
                Some(i) => {
                    &&& i < k
                    &&& links@[i as int].target@ == target@
                    &&& forall|j: int|
                        0 <= j < k && (#[trigger] links@[j]).target@ == target@ ==> {
                            &&& links@[j].timestamp <= links@[i as int].timestamp
                            &&& j > i ==> links@[j].timestamp < links@[i as int].timestamp
                        }
                },
            },
    {
        if bytes_equal(links[k].target.as_slice(), target) {
            match best {
                None => {
                    best = Some(k);
                },
                Some(i) => {
                    if links[k].timestamp >= links[i].timestamp {
                        best = Some(k);
                    }
                },
            }
        }
    }
    best
}

/// The list holds these bytes.
pub open spec fn holds(agents: Seq<Seq<u8>>, candidate: Seq<u8>) -> bool {
    exists|i: int| 0 <= i < agents.len() && agents[i] == candidate
}

/// Adds an agent that has done at least one rollup to the list, unless it
/// is already there.
pub fn add_rolled_up_agent(agents: &mut Vec<Vec<u8>>, candidate: &[u8], has_rollup_links: bool)
    ensures
        has_rollup_links && !holds(byte_views(old(agents)@), candidate@) ==> byte_views(final(agents)@)
            == byte_views(old(agents)@).push(candidate@),
        !(has_rollup_links && !holds(byte_views(old(agents)@), candidate@)) ==> byte_views(
            final(agents)@,
        ) == byte_views(old(agents)@),
{
    if !has_rollup_links {
        return;
    }
    let n = agents.len();
    for i in 0..n
        invariant
            n == agents@.len(),
            agents@ == old(agents)@,
            forall|j: int| 0 <= j < i ==> (#[trigger] byte_views(agents@)[j]) != candidate@,
    {
        if bytes_equal(agents[i].as_slice(), candidate) {
            assert(byte_views(agents@)[i as int] == candidate@);
            return;
        }
    }
    assert(!holds(byte_views(old(agents)@), candidate@)) by {
        assert forall|j: int| 0 <= j < byte_views(old(agents)@).len() implies
            #[trigger] byte_views(old(agents)@)[j] != candidate@ by {}
    }
    let ghost before = agents@;
    agents.push(copy_bytes(candidate));
    assert(byte_views(agents@) =~= byte_views(before).push(candidate@));
}

/// A target is rolled up when it is neither the agent itself nor one of the
/// agents whose rollups are taken in.
pub fn is_rollup_target(target: &[u8], me: &[u8], agents: &Vec<Vec<u8>>) -> (rolled: bool)
    ensures
        rolled == (target@ != me@ && !holds(byte_views(agents@), target@)),
{
    if bytes_equal(target, me) {
        return false;
    }
    let n = agents.len();
    for i in 0..n
        invariant
            n == agents@.len(),
            forall|j: int| 0 <= j < i ==> (#[trigger] byte_views(agents@)[j]) != target@,
    {
        if bytes_equal(agents[i].as_slice(), target) {
            assert(byte_views(agents@)[i as int] == target@);
            return false;
        }
    }
    assert(!holds(byte_views(agents@), target@)) by {
        assert forall|j: int| 0 <= j < byte_views(agents@).len() implies
            #[trigger] byte_views(agents@)[j] != target@ by {}
    }
    true
}

/// Source, content and value of a rating taken into a rollup.
pub type AgentRatingView = (Seq<u8>, Seq<char>, Seq<char>);

/// The ratings among `atoms` that count towards a rollup: those whose
/// source is one of `agents` and that have both a content and a value, in
/// order.
pub open spec fn agent_ratings(atoms: Seq<AtomLinkView>, agents: Seq<Seq<u8>>) -> Seq<AgentRatingView>
    decreases atoms.len(),
{
    if atoms.len() == 0 {
        Seq::empty()
    } else {
        let front = agent_ratings(atoms.drop_last(), agents);
        let a = atoms.last();
        match (a.2, a.3) {
            (Some(content), Some(value)) => if holds(agents, a.0) {
                front.push((a.0, content, value))
            } else {
                front
            },
            _ => front,
        }
    }
}

/// The views of rating triples.
pub open spec fn rating_views(ratings: Seq<(Vec<u8>, String, String)>) -> Seq<AgentRatingView> {
    ratings.map_values(|r: (Vec<u8>, String, String)| (r.0@, r.1@, r.2@))
}

/// Picks, in order, the ratings whose source is one of `agents` and that
/// have both a content and a value, as `agent_ratings` says.
pub fn ratings_by_agents(atoms: &Vec<AtomLink>, agents: &Vec<Vec<u8>>) -> (ratings: Vec<(Vec<u8>, String, String)>)
    ensures
        rating_views(ratings@) == agent_ratings(atom_views(atoms@), byte_views(agents@)),
{
    let mut ratings: Vec<(Vec<u8>, String, String)> = Vec::new();
    let n = atoms.len();
    for i in 0..n
        invariant
            n == atoms@.len(),
            rating_views(ratings@) == agent_ratings(atom_views(atoms@.take(i as int)), byte_views(agents@)),
    {
        let a = &atoms[i];
        let ghost front = atom_views(atoms@.take(i as int));
        proof {
            assert(atom_views(atoms@.take(i + 1)).drop_last() =~= front);
            assert(atom_views(atoms@.take(i + 1)).last() == a@);
        }
        let ghost before = ratings@;
        match (&a.content, &a.value) {
            (Some(content), Some(value)) => {
                let mut from_agent = false;
                let m = agents.len();
                for j in 0..m
                    invariant
                        m == agents@.len(),
                        from_agent <==> exists|k: int| 0 <= k < j && byte_views(agents@)[k] == a.source_hash@,
                {
                    if !from_agent && bytes_equal(agents[j].as_slice(), a.source_hash.as_slice()) {
                        from_agent = true;
                    }
                    assert(byte_views(agents@)[j as int] == agents@[j as int]@);
                }
                assert(from_agent == holds(byte_views(agents@), a.source_hash@));
                if from_agent {
                    ratings.push((copy_bytes(a.source_hash.as_slice()), content.clone(), value.clone()));
                    assert(rating_views(ratings@) =~= rating_views(before).push(
                        (a.source_hash@, content@, value@),
                    ));
                }
            },
            _ => {},
        }
    }
    assert(atoms@.take(n as int) =~= atoms@);
    ratings
}

/// Target, tag, timestamp and creation hash of a link.
pub type LinkView = (Seq<u8>, Seq<u8>, i64, Seq<u8>);

/// The views of links.
pub open spec fn link_views(links: Seq<Link>) -> Seq<LinkView> {
    links.map_values(|l: Link| (l.target@, l.tag@, l.timestamp, l.create_link_hash@))
}

/// Two links are equal, field by field.
fn same_link(a: &Link, b: &Link) -> (same: bool)
    ensures
        same == ((a.target@, a.tag@, a.timestamp, a.create_link_hash@) == (
            b.target@,
            b.tag@,
            b.timestamp,
            b.create_link_hash@,
        )),
{
    bytes_equal(a.target.as_slice(), b.target.as_slice()) && bytes_equal(a.tag.as_slice(), b.tag.as_slice())
        && a.timestamp == b.timestamp && bytes_equal(
        a.create_link_hash.as_slice(),
        b.create_link_hash.as_slice(),
    )
}

/// Adds a link to the list unless an equal one is already there, so that
/// each latest link is taken once.
pub fn push_new_link(links: &mut Vec<Link>, link: Link)
    ensures
        ({
            let v = (link.target@, link.tag@, link.timestamp, link.create_link_hash@);
            &&& link_views(old(links)@).contains(v) ==> link_views(final(links)@) == link_views(old(links)@)
            &&& !link_views(old(links)@).contains(v) ==> link_views(final(links)@) == link_views(
                old(links)@,
            ).push(v)
        }),
{
    let ghost v = (link.target@, link.tag@, link.timestamp, link.create_link_hash@);
    let n = links.len();
    for i in 0..n
        invariant
            n == links@.len(),
            links@ == old(links)@,
            v == (link.target@, link.tag@, link.timestamp, link.create_link_hash@),
            forall|j: int| 0 <= j < i ==> (#[trigger] link_views(links@)[j]) != v,
    {
        if same_link(&links[i], &link) {
            assert(link_views(links@)[i as int] == v);
            return;
        }
    }
    assert(!link_views(old(links)@).contains(v)) by {
        assert forall|j: int| 0 <= j < link_views(old(links)@).len() implies #[trigger] link_views(
            old(links)@,
        )[j] != v by {}
    }
    let ghost before = links@;
    links.push(link);
    assert(link_views(links@) =~= link_views(before).push(v));
}

} // verus!
