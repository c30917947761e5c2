//! What holds of every evaluation.

use vstd::prelude::*;
use crate::coverage::coverage_met;
use crate::coverage::known_cells;
use crate::coverage::known_nodes;
use crate::coverage::listed_nodes;
use crate::coverage::nodes_in;
use crate::coverage::COVERAGE_SCALE;
use crate::error::ImportanceError;
use crate::error::Parameter;
use crate::evaluator::evaluate;
use crate::evaluator::judgement;
use crate::evaluator::lemma_staleness_bounded;
use crate::evaluator::outcome;
use crate::evaluator::rejection;
use crate::evaluator::touches;
use crate::evaluator::ImportanceResult;
use crate::evaluator::Reason;
use crate::evaluator::NOVELTY_SCORE;
use crate::grid::cell_of;
use crate::model::Adjacency;
use crate::model::AdjacencyModel;
use crate::model::Node;
use crate::model::NodeModel;
use crate::model::SegmentKey;
use crate::model::SegmentNodes;
use crate::model::SegmentNodesModel;

verus! {

/// Whether the `k`-th node of the `e`-th entry of the important nodes is recorded under
/// `segment` and lies in `cell`.
pub open spec fn listed_at(
    important: Seq<SegmentNodesModel>,
    steps: Seq<int>,
    segment: SegmentKey,
    cell: Seq<int>,
    e: int,
    k: int,
) -> bool {
    &&& 0 <= e < important.len()
    &&& 0 <= k < important[e].nodes.len()
    &&& important[e].segment == segment
    &&& cell_of(important[e].nodes[k].coords, steps) == cell
}

/// Whether the `i`-th recent node belongs to `segment` and lies in `cell`.
pub open spec fn visited_at(
    recent: Seq<NodeModel>,
    steps: Seq<int>,
    segment: SegmentKey,
    cell: Seq<int>,
    i: int,
) -> bool {
    0 <= i < recent.len() && touches(recent[i], steps, segment, cell)
}

/// Where the minimum coverage is between zero and one, a candidate whose number of
/// coordinates differs from the number of grid steps is refused for its dimensions.
pub proof fn lemma_dimension_mismatch_is_refused(
    node: NodeModel,
    recent: Seq<NodeModel>,
    important: Seq<SegmentNodesModel>,
    adjacent: Seq<AdjacencyModel>,
    steps: Seq<int>,
    min: int,
)
    requires
        0 <= min <= COVERAGE_SCALE,
        node.coords.len() != steps.len(),
    ensures
        outcome(node, recent, important, adjacent, steps, min) == Err::<
            ImportanceResult,
            ImportanceError,
        >(ImportanceError::DimensionMismatch { expected: steps.len() as usize }),
{
}

/// A minimum coverage below zero or above one is refused as an invalid parameter,
/// whatever else the request holds.
pub proof fn lemma_coverage_out_of_range_is_refused(
    node: NodeModel,
    recent: Seq<NodeModel>,
    important: Seq<SegmentNodesModel>,
    adjacent: Seq<AdjacencyModel>,
    steps: Seq<int>,
    min: int,
)
    requires
        min < 0 || min > COVERAGE_SCALE,
    ensures
        outcome(node, recent, important, adjacent, steps, min) == Err::<
            ImportanceResult,
            ImportanceError,
        >(ImportanceError::InvalidParameter(Parameter::MinSegmentCoverage)),
{
}

/// Two evaluations of the same request give the same result.
pub proof fn lemma_evaluate_is_idempotent(
    node: Node,
    recent_nodes: Vec<Node>,
    important_nodes: Vec<SegmentNodes>,
    adjacent_segments: Vec<Adjacency>,
    grid_steps: Vec<i64>,
    min_segment_coverage: i64,
    first: Result<ImportanceResult, ImportanceError>,
    second: Result<ImportanceResult, ImportanceError>,
)
    requires
        call_ensures(
            evaluate,
            (
                &node,
                &recent_nodes,
                &important_nodes,
                &adjacent_segments,
                &grid_steps,
                min_segment_coverage,
            ),
            first,
        ),
        call_ensures(
            evaluate,
            (
                &node,
                &recent_nodes,
                &important_nodes,
                &adjacent_segments,
                &grid_steps,
                min_segment_coverage,
            ),
            second,
        ),
    ensures
        first == second,
{
}

/// A judgement marks a candidate important exactly when its reason is not redundancy;
/// a redundant candidate scores nothing, and no candidate scores more than a novel one.
pub proof fn lemma_judgement_is_consistent(
    novel: bool,
    covered: bool,
    bridging: bool,
    age: nat,
    recent: nat,
)
    requires
        age <= recent,
    ensures
        ({
            let result = judgement(novel, covered, bridging, age, recent);
            &&& result.important <==> result.reason != Reason::Redundant
            &&& !result.important ==> result.score == 0
            &&& result.important ==> result.score > 0
            &&& result.score <= NOVELTY_SCORE
        }),
{
    lemma_staleness_bounded(age, recent);
}

/// A recent node of a segment is among the nodes of that segment.
proof fn lemma_nodes_in_holds(nodes: Seq<NodeModel>, segment: SegmentKey, i: int)
    requires
        0 <= i < nodes.len(),
        nodes[i].segment == segment,
    ensures
        nodes_in(nodes, segment).contains(nodes[i]),
    decreases nodes.len(),
{
    let earlier = nodes_in(nodes.drop_last(), segment);
    if i == nodes.len() - 1 {
        assert(earlier.push(nodes.last())[earlier.len() as int] == nodes[i]);
    } else {
        lemma_nodes_in_holds(nodes.drop_last(), segment, i);
        let j = choose|j: int| 0 <= j < earlier.len() && earlier[j] == nodes.drop_last()[i];
        assert(nodes_in(nodes, segment)[j] == nodes[i]);
    }
}

/// Every node among the nodes of a segment is a recent node of that segment.
proof fn lemma_nodes_in_source(nodes: Seq<NodeModel>, segment: SegmentKey, j: int) -> (i: int)
    requires
        0 <= j < nodes_in(nodes, segment).len(),
    ensures
        0 <= i < nodes.len(),
        nodes[i].segment == segment,
        nodes[i] == nodes_in(nodes, segment)[j],
    decreases nodes.len(),
{
    let earlier = nodes_in(nodes.drop_last(), segment);
    if nodes.last().segment == segment && j == earlier.len() {
        nodes.len() - 1
    } else {
        lemma_nodes_in_source(nodes.drop_last(), segment, j)
    }
}

/// A node recorded under a segment is among the nodes listed for that segment.
proof fn lemma_listed_nodes_holds(
    important: Seq<SegmentNodesModel>,
    segment: SegmentKey,
    e: int,
    k: int,
)
    requires
        0 <= e < important.len(),
        0 <= k < important[e].nodes.len(),
        important[e].segment == segment,
    ensures
        listed_nodes(important, segment).contains(important[e].nodes[k]),
    decreases important.len(),
{
    let earlier = listed_nodes(important.drop_last(), segment);
    if e == important.len() - 1 {
        assert((earlier + important.last().nodes)[earlier.len() + k] == important[e].nodes[k]);
    } else {
        lemma_listed_nodes_holds(important.drop_last(), segment, e, k);
        let j = choose|j: int|
            0 <= j < earlier.len() && earlier[j] == important.drop_last()[e].nodes[k];
        assert(listed_nodes(important, segment)[j] == important[e].nodes[k]);
    }
}

/// Every node listed for a segment is recorded under that segment.
proof fn lemma_listed_nodes_source(
    important: Seq<SegmentNodesModel>,
    segment: SegmentKey,
    j: int,
) -> (at: (int, int))
    requires
        0 <= j < listed_nodes(important, segment).len(),
    ensures
        0 <= at.0 < important.len(),
        0 <= at.1 < important[at.0].nodes.len(),
        important[at.0].segment == segment,
        important[at.0].nodes[at.1] == listed_nodes(important, segment)[j],
    decreases important.len(),
{
    let earlier = listed_nodes(important.drop_last(), segment);
    if important.last().segment == segment && j >= earlier.len() {
        (important.len() - 1, j - earlier.len())
    } else {
        lemma_listed_nodes_source(important.drop_last(), segment, j)
    }
}

/// A cell is among the known cells of a segment exactly when a node recorded as
/// important under the segment, or a recent node of the segment, lies in it.
pub proof fn lemma_known_cells_are_occupied(
    important: Seq<SegmentNodesModel>,
    recent: Seq<NodeModel>,
    steps: Seq<int>,
    segment: SegmentKey,
    cell: Seq<int>,
)
    ensures
        known_cells(important, recent, steps, segment).contains(cell) <==> (exists|
            e: int,
            k: int,
        | #[trigger]
            listed_at(important, steps, segment, cell, e, k)) || (exists|i: int| #[trigger]
            visited_at(recent, steps, segment, cell, i)),
{
    let nodes = known_nodes(important, recent, segment);
    let listed = listed_nodes(important, segment);
    let visited = nodes_in(recent, segment);
    let cells = known_cells(important, recent, steps, segment);
    if cells.contains(cell) {
        let j = choose|j: int| 0 <= j < cells.len() && cells[j] == cell;
        assert(cells[j] == cell_of(nodes[j].coords, steps));
        if j < listed.len() {
            let at = lemma_listed_nodes_source(important, segment, j);
            assert(listed_at(important, steps, segment, cell, at.0, at.1));
        } else {
            let i = lemma_nodes_in_source(recent, segment, j - listed.len());
            assert(visited_at(recent, steps, segment, cell, i));
        }
    }
    if exists|e: int, k: int| #[trigger] listed_at(important, steps, segment, cell, e, k) {
        let (e, k) = choose|e: int, k: int| #[trigger]
            listed_at(important, steps, segment, cell, e, k);
        lemma_listed_nodes_holds(important, segment, e, k);
        let j = choose|j: int| 0 <= j < listed.len() && listed[j] == important[e].nodes[k];
        assert(nodes[j] == important[e].nodes[k]);
        assert(cells[j] == cell);
    }
    if exists|i: int| #[trigger] visited_at(recent, steps, segment, cell, i) {
        let i = choose|i: int| #[trigger] visited_at(recent, steps, segment, cell, i);
        lemma_nodes_in_holds(recent, segment, i);
        let j = choose|j: int| 0 <= j < visited.len() && visited[j] == recent[i];
        assert(nodes[listed.len() + j] == recent[i]);
        assert(cells[listed.len() + j] == cell);
    }
}

/// A candidate that is not refused and lands in a cell that no known node of its
/// segment occupies is important, for the novelty of the cell.
pub proof fn lemma_novel_cell_is_important(
    node: NodeModel,
    recent: Seq<NodeModel>,
    important: Seq<SegmentNodesModel>,
    adjacent: Seq<AdjacencyModel>,
    steps: Seq<int>,
    min: int,
)
    requires
        rejection(node, recent, important, steps, min) is None,
        !known_cells(important, recent, steps, node.segment).contains(
            cell_of(node.coords, steps),
        ),
    ensures
        outcome(node, recent, important, adjacent, steps, min) == Ok::<
            ImportanceResult,
            ImportanceError,
        >(ImportanceResult { important: true, score: NOVELTY_SCORE, reason: Reason::NovelCell }),
{
}

/// A candidate that is not refused and lands in a cell that a recent node of its
/// segment occupies, in a segment whose coverage has reached the minimum, is redundant.
pub proof fn lemma_revisited_cell_is_redundant(
    node: NodeModel,
    recent: Seq<NodeModel>,
    important: Seq<SegmentNodesModel>,
    adjacent: Seq<AdjacencyModel>,
    steps: Seq<int>,
    min: int,
    i: int,
)
    requires
        rejection(node, recent, important, steps, min) is None,
        visited_at(recent, steps, node.segment, cell_of(node.coords, steps), i),
        coverage_met(known_cells(important, recent, steps, node.segment), steps.len(), min),
    ensures
        outcome(node, recent, important, adjacent, steps, min) == Ok::<
            ImportanceResult,
            ImportanceError,
        >(ImportanceResult { important: false, score: 0, reason: Reason::Redundant }),
{
    lemma_known_cells_are_occupied(
        important,
        recent,
        steps,
        node.segment,
        cell_of(node.coords, steps),
    );
}

} // verus!
