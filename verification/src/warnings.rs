//! Segments that the adjacency of a request names and nothing else knows.

use vstd::prelude::*;
use crate::model::models;
use crate::model::Adjacency;
use crate::model::AdjacencyModel;
use crate::model::SegmentId;
use crate::model::SegmentKey;
use crate::model::SegmentNodes;
use crate::model::SegmentNodesModel;

verus! {

/// Whether a segment is the candidate's own or has an entry among the important nodes.
pub open spec fn is_known_segment(
    important: Seq<SegmentNodesModel>,
    home: SegmentKey,
    segment: SegmentKey,
) -> bool {
    segment == home || exists|e: int|
        0 <= e < important.len() && (#[trigger] important[e]).segment == segment
}

/// Every segment that the adjacency names: entry by entry, the entry's own segment and
/// then its neighbours.
pub open spec fn references(adjacent: Seq<AdjacencyModel>) -> Seq<SegmentKey>
    decreases adjacent.len(),
{
    if adjacent.len() == 0 {
        Seq::empty()
    } else {
        references(adjacent.drop_last()).push(adjacent.last().segment) + adjacent.last().neighbors
    }
}

/// The segments among `segments` that are not known, in order and as often as named.
pub open spec fn unknown_among(
    segments: Seq<SegmentKey>,
    important: Seq<SegmentNodesModel>,
    home: SegmentKey,
) -> Seq<SegmentKey>
    decreases segments.len(),
{
    if segments.len() == 0 {
        Seq::empty()
    } else {
        let earlier = unknown_among(segments.drop_last(), important, home);
        if is_known_segment(important, home, segments.last()) {
            earlier
        } else {
            earlier.push(segments.last())
        }
    }
}

/// The references of the adjacency to segments that are not known.
pub open spec fn unknown_references(
    adjacent: Seq<AdjacencyModel>,
    important: Seq<SegmentNodesModel>,
    home: SegmentKey,
) -> Seq<SegmentKey> {
    unknown_among(references(adjacent), important, home)
}

/// Whether a segment is the candidate's own or has an entry among the important nodes.
pub fn segment_is_known(important: &Vec<SegmentNodes>, home: &SegmentId, segment: &SegmentId) -> (known:
    bool)
    ensures
        known == is_known_segment(models(important@), home@, segment@),
{
    if segment.same_as(home) {
        return true;
    }
    let mut e: usize = 0;
    while e < important.len()
        invariant
            e <= important.len(),
            segment@ != home@,
            forall|j: int| 0 <= j < e ==> (#[trigger] models(important@)[j]).segment != segment@,
        decreases important.len() - e,
    {
        if important[e].segment.same_as(segment) {
            assert(models(important@)[e as int].segment == segment@);
            return true;
        }
        e = e + 1;
    }
    false
}

/// The segments that the adjacency names but that are neither `home`, the candidate's
/// segment, nor listed among the important nodes. They are reported and refuse nothing.
pub fn unknown_segment_references(
    home: &SegmentId,
    important_nodes: &Vec<SegmentNodes>,
    adjacent_segments: &Vec<Adjacency>,
) -> (unknown: Vec<SegmentId>)
    ensures
        models(unknown@) == unknown_references(
            models(adjacent_segments@),
            models(important_nodes@),
            home@,
        ),
{
    let ghost declared = models(adjacent_segments@);
    let ghost listed = models(important_nodes@);
    let mut unknown: Vec<SegmentId> = Vec::new();
    let mut e: usize = 0;
    assert(declared.take(0) =~= Seq::empty());
    assert(models(unknown@) =~= unknown_among(references(declared.take(0)), listed, home@));
    while e < adjacent_segments.len()
        invariant
            e <= adjacent_segments.len(),
            declared == models(adjacent_segments@),
            listed == models(important_nodes@),
            models(unknown@) == unknown_among(references(declared.take(e as int)), listed, home@),
        decreases adjacent_segments.len() - e,
    {
        let entry = &adjacent_segments[e];
        let ghost before = references(declared.take(e as int));
        assert(declared.take(e + 1).drop_last() =~= declared.take(e as int));
        assert(declared.take(e + 1).last() == entry@);
        let ghost named = models(entry.neighbors@);
        assert(entry@.neighbors == named);
        assert(before.push(entry.segment@).drop_last() =~= before);
        if !segment_is_known(important_nodes, home, &entry.segment) {
            let ghost old_unknown = unknown@;
            unknown.push(entry.segment.duplicate());
            assert(models(unknown@) =~= models(old_unknown).push(entry.segment@));
        }
        let ghost with_key = before.push(entry.segment@);
        assert(with_key + named.take(0) =~= with_key);
        let mut k: usize = 0;
        while k < entry.neighbors.len()
            invariant
                k <= entry.neighbors.len(),
                listed == models(important_nodes@),
                named == models(entry.neighbors@),
                models(unknown@) == unknown_among(with_key + named.take(k as int), listed, home@),
            decreases entry.neighbors.len() - k,
        {
            let neighbor = &entry.neighbors[k];
            assert(named[k as int] == neighbor@);
            assert(with_key + named.take(k + 1) =~= (with_key + named.take(k as int)).push(
                neighbor@,
            ));
            assert((with_key + named.take(k as int)).push(neighbor@).drop_last() =~= with_key
                + named.take(k as int));
            if !segment_is_known(important_nodes, home, neighbor) {
                let ghost old_unknown = unknown@;
                unknown.push(neighbor.duplicate());
                assert(models(unknown@) =~= models(old_unknown).push(neighbor@));
            }
            k = k + 1;
        }
        assert(named.take(k as int) =~= named);
        e = e + 1;
    }
    assert(declared.take(e as int) =~= declared);
    unknown
}

} // verus!
