//! The judgement on a candidate node.

use vstd::prelude::*;
use vstd::arithmetic::div_mod::lemma_fundamental_div_mod;
use vstd::arithmetic::div_mod::lemma_mod_bound;
use crate::coverage::collect_cells;
use crate::coverage::coverage_met;
use crate::coverage::dimensioned;
use crate::coverage::entries_dimensioned;
use crate::coverage::holds_cell;
use crate::coverage::is_covered;
use crate::coverage::known_cells;
use crate::coverage::COVERAGE_SCALE;
use crate::error::ImportanceError;
use crate::error::Parameter;
use crate::grid::cell_of;
use crate::grid::locate;
use crate::grid::same_cell;
use crate::grid::steps_positive;
use crate::model::ints;
use crate::model::models;
use crate::model::Adjacency;
use crate::model::AdjacencyModel;
use crate::model::Node;
use crate::model::NodeModel;
use crate::model::SegmentId;
use crate::model::SegmentKey;
use crate::model::SegmentNodes;
use crate::model::SegmentNodesModel;

verus! {

/// The score of a node that lands in an unoccupied cell: one, in millionths.
pub const NOVELTY_SCORE: u64 = 1_000_000;

/// What an adjacent segment that is short of coverage adds to the score, in millionths.
pub const BRIDGE_WEIGHT: u64 = 500_000;

/// What the oldest possible last visit of a cell adds to the score, in millionths.
pub const STALE_WEIGHT: u64 = 500_000;

/// Why a candidate is important, or that it is not.
#[derive(Clone, Copy, Debug, PartialEq, Eq, Structural)]
pub enum Reason {
    /// No known node of the segment lies in the candidate's cell.
    NovelCell,
    /// The cell is occupied, but a neighbouring segment is short of coverage.
    BridgesSegment,
    /// The cell is occupied, but its last visit is not the latest one.
    ReplacesStale,
    /// The candidate adds nothing.
    Redundant,
}

impl Reason {
    /// The name of the reason as it stands in a response.
    pub open spec fn label(self) -> Seq<char> {
        match self {
            Reason::NovelCell => "NovelCell"@,
            Reason::BridgesSegment => "BridgesSegment"@,
            Reason::ReplacesStale => "ReplacesStale"@,
            Reason::Redundant => "Redundant"@,
        }
    }

    /// The name of the reason as it stands in a response.
    pub fn name(&self) -> (text: &'static str)
        ensures
            text@ == self.label(),
    {
        match self {
            Reason::NovelCell => "NovelCell",
            Reason::BridgesSegment => "BridgesSegment",
            Reason::ReplacesStale => "ReplacesStale",
            Reason::Redundant => "Redundant",
        }
    }
}

/// The judgement on a candidate. The score counts millionths.
#[derive(Clone, Copy, Debug, PartialEq, Eq, Structural)]
pub struct ImportanceResult {
    pub important: bool,
    pub score: u64,
    pub reason: Reason,
}

/// What the age of a cell's last visit adds to the score: the share `age / recent` of
/// the weight, rounded up, and nothing where there is no recent node.
pub open spec fn staleness(age: nat, recent: nat) -> nat {
    if recent == 0 {
        0
    } else {
        ((age * STALE_WEIGHT + recent - 1) / (recent as int)) as nat
    }
}

/// The judgement, from what was found about the candidate.
///
/// A candidate in a cell that no known node of its segment occupies is important. One in
/// an occupied cell is redundant once its segment is covered. Where the segment is short
/// of coverage, the candidate is important if a neighbouring segment is short of
/// coverage too, or else if the cell's last visit has aged.
pub open spec fn judgement(
    novel: bool,
    covered: bool,
    bridging: bool,
    age: nat,
    recent: nat,
) -> ImportanceResult {
    if novel {
        ImportanceResult { important: true, score: NOVELTY_SCORE, reason: Reason::NovelCell }
    } else if covered {
        ImportanceResult { important: false, score: 0, reason: Reason::Redundant }
    } else if bridging {
        ImportanceResult {
            important: true,
            score: (BRIDGE_WEIGHT + staleness(age, recent)) as u64,
            reason: Reason::BridgesSegment,
        }
    } else if age > 0 {
        ImportanceResult {
            important: true,
            score: staleness(age, recent) as u64,
            reason: Reason::ReplacesStale,
        }
    } else {
        ImportanceResult { important: false, score: 0, reason: Reason::Redundant }
    }
}

/// Whether a node is a visit of `cell` in `segment`.
pub open spec fn touches(
    node: NodeModel,
    steps: Seq<int>,
    segment: SegmentKey,
    cell: Seq<int>,
) -> bool {
    node.segment == segment && cell_of(node.coords, steps) == cell
}

/// The age of the last visit of `cell`: the number of recent nodes that follow the last
/// one that visited it, and the number of all recent nodes where none did.
pub open spec fn age_of(
    recent: Seq<NodeModel>,
    steps: Seq<int>,
    segment: SegmentKey,
    cell: Seq<int>,
) -> nat
    decreases recent.len(),
{
    if recent.len() == 0 {
        0
    } else if touches(recent.last(), steps, segment, cell) {
        0
    } else {
        1 + age_of(recent.drop_last(), steps, segment, cell)
    }
}

/// Whether the nodes known in `segment` cover less of it than `min` millionths.
pub open spec fn under_covered(
    important: Seq<SegmentNodesModel>,
    recent: Seq<NodeModel>,
    steps: Seq<int>,
    min: int,
    segment: SegmentKey,
) -> bool {
    !coverage_met(known_cells(important, recent, steps, segment), steps.len(), min)
}

/// Whether the `k`-th neighbour of the `e`-th adjacency entry is a segment other than
/// `home`, declared adjacent to `home`, that is short of coverage.
pub open spec fn bridge_at(
    adjacent: Seq<AdjacencyModel>,
    important: Seq<SegmentNodesModel>,
    recent: Seq<NodeModel>,
    steps: Seq<int>,
    min: int,
    home: SegmentKey,
    e: int,
    k: int,
) -> bool {
    &&& 0 <= e < adjacent.len()
    &&& 0 <= k < adjacent[e].neighbors.len()
    &&& adjacent[e].segment == home
    &&& adjacent[e].neighbors[k] != home
    &&& under_covered(important, recent, steps, min, adjacent[e].neighbors[k])
}

/// Whether some segment declared adjacent to `home` is short of coverage.
pub open spec fn bridges(
    adjacent: Seq<AdjacencyModel>,
    important: Seq<SegmentNodesModel>,
    recent: Seq<NodeModel>,
    steps: Seq<int>,
    min: int,
    home: SegmentKey,
) -> bool {
    exists|e: int, k: int| #[trigger] bridge_at(adjacent, important, recent, steps, min, home, e, k)
}

/// Why a request is refused, if it is: the minimum coverage is checked first, then the
/// dimensions of every node, then the grid steps.
pub open spec fn rejection(
    node: NodeModel,
    recent: Seq<NodeModel>,
    important: Seq<SegmentNodesModel>,
    steps: Seq<int>,
    min: int,
) -> Option<ImportanceError> {
    if min < 0 || min > COVERAGE_SCALE {
        Some(ImportanceError::InvalidParameter(Parameter::MinSegmentCoverage))
    } else if node.coords.len() != steps.len() || !dimensioned(recent, steps.len())
        || !entries_dimensioned(important, steps.len()) {
        Some(ImportanceError::DimensionMismatch { expected: steps.len() as usize })
    } else if !steps_positive(steps) {
        Some(ImportanceError::InvalidParameter(Parameter::GridSteps))
    } else {
        None
    }
}

/// The judgement on a candidate that is not refused.
pub open spec fn assessment(
    node: NodeModel,
    recent: Seq<NodeModel>,
    important: Seq<SegmentNodesModel>,
    adjacent: Seq<AdjacencyModel>,
    steps: Seq<int>,
    min: int,
) -> ImportanceResult {
    let cell = cell_of(node.coords, steps);
    let home = known_cells(important, recent, steps, node.segment);
    judgement(
        !home.contains(cell),
        coverage_met(home, steps.len(), min),
        bridges(adjacent, important, recent, steps, min, node.segment),
        age_of(recent, steps, node.segment, cell),
        recent.len(),
    )
}

/// What an evaluation gives.
pub open spec fn outcome(
    node: NodeModel,
    recent: Seq<NodeModel>,
    important: Seq<SegmentNodesModel>,
    adjacent: Seq<AdjacencyModel>,
    steps: Seq<int>,
    min: int,
) -> Result<ImportanceResult, ImportanceError> {
    match rejection(node, recent, important, steps, min) {
        Some(error) => Err(error),
        None => Ok(assessment(node, recent, important, adjacent, steps, min)),
    }
}

/// The age of a last visit adds at most the whole weight to the score, and something as
/// soon as the visit is not the latest.
pub proof fn lemma_staleness_bounded(age: nat, recent: nat)
    requires
        age <= recent,
    ensures
        staleness(age, recent) <= STALE_WEIGHT,
        age > 0 ==> staleness(age, recent) > 0,
{
    if recent > 0 {
        let x: int = age * STALE_WEIGHT + recent - 1;
        let r: int = recent as int;
        let q: int = x / r;
        lemma_fundamental_div_mod(x, r);
        lemma_mod_bound(x, r);
        assert(q <= 500_000) by (nonlinear_arith)
            requires
                x == r * q + x % r,
                0 <= x % r < r,
                x <= r * 500_000 + r - 1,
                r > 0,
        ;
        assert(x <= r * 500_000 + r - 1) by (nonlinear_arith)
            requires
                x == age * 500_000 + r - 1,
                age <= r,
        ;
        if age > 0 {
            assert(q >= 1) by (nonlinear_arith)
                requires
                    x == r * q + x % r,
                    0 <= x % r < r,
                    x >= r,
                    r > 0,
            ;
        }
        assert(q >= 0) by (nonlinear_arith)
            requires
                x == r * q + x % r,
                0 <= x % r < r,
                x >= 0,
                r > 0,
        ;
    }
}

/// Judges a candidate from what was found about it: whether its cell is unoccupied,
/// whether its segment is covered, whether a neighbouring segment is short of coverage,
/// and the age of the cell's last visit among `recent` recent nodes.
pub fn decide(novel: bool, covered: bool, bridging: bool, age: usize, recent: usize) -> (result:
    ImportanceResult)
    requires
        age <= recent,
    ensures
        result == judgement(novel, covered, bridging, age as nat, recent as nat),
{
    if novel {
        return ImportanceResult { important: true, score: NOVELTY_SCORE, reason: Reason::NovelCell };
    }
    if covered {
        return ImportanceResult { important: false, score: 0, reason: Reason::Redundant };
    }
    proof {
        lemma_staleness_bounded(age as nat, recent as nat);
    }
    let stale: u64 = if recent == 0 {
        0
    } else {
        ((age as u128 * (STALE_WEIGHT as u128) + (recent as u128 - 1)) / (recent as u128)) as u64
    };
    assert(stale == staleness(age as nat, recent as nat));
    if bridging {
        ImportanceResult {
            important: true,
            score: BRIDGE_WEIGHT + stale,
            reason: Reason::BridgesSegment,
        }
    } else if age > 0 {
        ImportanceResult { important: true, score: stale, reason: Reason::ReplacesStale }
    } else {
        ImportanceResult { important: false, score: 0, reason: Reason::Redundant }
    }
}

/// The age of the last visit of `cell` in `segment` among the recent nodes.
pub fn last_visit_age(
    cell: &Vec<i64>,
    segment: &SegmentId,
    recent: &Vec<Node>,
    steps: &Vec<i64>,
) -> (age: usize)
    requires
        steps_positive(ints(steps@)),
        dimensioned(models(recent@), steps.len() as nat),
    ensures
        age == age_of(models(recent@), ints(steps@), segment@, ints(cell@)),
        age <= recent.len(),
{
    let ghost visited = models(recent@);
    let ghost grid = ints(steps@);
    let mut left: usize = recent.len();
    let mut age: usize = 0;
    assert(visited.take(left as int) =~= visited);
    while left > 0
        invariant
            left <= recent.len(),
            age == recent.len() - left,
            visited == models(recent@),
            grid == ints(steps@),
            steps_positive(grid),
            dimensioned(visited, steps.len() as nat),
            age_of(visited, grid, segment@, ints(cell@)) == age + age_of(
                visited.take(left as int),
                grid,
                segment@,
                ints(cell@),
            ),
        decreases left,
    {
        let node = &recent[left - 1];
        assert(visited.take(left as int).last() == visited[left - 1]);
        assert(visited[left - 1] == node@);
        assert(visited.take(left as int).drop_last() =~= visited.take(left - 1));
        if node.segment.same_as(segment) {
            assert(visited[left - 1].coords.len() == steps.len());
            let visit = locate(&node.coords, steps);
            if same_cell(&visit, cell) {
                return age;
            }
        }
        left = left - 1;
        age = age + 1;
    }
    age
}

/// Whether some segment declared adjacent to `home` is short of coverage.
pub fn has_bridge(
    home: &SegmentId,
    recent: &Vec<Node>,
    important: &Vec<SegmentNodes>,
    adjacent: &Vec<Adjacency>,
    steps: &Vec<i64>,
    min: i64,
) -> (found: bool)
    requires
        steps_positive(ints(steps@)),
        dimensioned(models(recent@), steps.len() as nat),
        entries_dimensioned(models(important@), steps.len() as nat),
    ensures
        found == bridges(
            models(adjacent@),
            models(important@),
            models(recent@),
            ints(steps@),
            min as int,
            home@,
        ),
{
    let ghost declared = models(adjacent@);
    let ghost listed = models(important@);
    let ghost visited = models(recent@);
    let ghost grid = ints(steps@);
    let mut e: usize = 0;
    while e < adjacent.len()
        invariant
            e <= adjacent.len(),
            declared == models(adjacent@),
            listed == models(important@),
            visited == models(recent@),
            grid == ints(steps@),
            steps_positive(grid),
            dimensioned(visited, steps.len() as nat),
            entries_dimensioned(listed, steps.len() as nat),
            forall|i: int, k: int|
                0 <= i < e ==> !#[trigger] bridge_at(
                    declared,
                    listed,
                    visited,
                    grid,
                    min as int,
                    home@,
                    i,
                    k,
                ),
        decreases adjacent.len() - e,
    {
        let entry = &adjacent[e];
        assert(declared[e as int] == entry@);
        if entry.segment.same_as(home) {
            let mut k: usize = 0;
            while k < entry.neighbors.len()
                invariant
                    k <= entry.neighbors.len(),
                    e < adjacent.len(),
                    declared == models(adjacent@),
                    declared[e as int] == entry@,
                    entry.segment@ == home@,
                    listed == models(important@),
                    visited == models(recent@),
                    grid == ints(steps@),
                    steps_positive(grid),
                    dimensioned(visited, steps.len() as nat),
                    entries_dimensioned(listed, steps.len() as nat),
                    forall|j: int|
                        0 <= j < k ==> !#[trigger] bridge_at(
                            declared,
                            listed,
                            visited,
                            grid,
                            min as int,
                            home@,
                            e as int,
                            j,
                        ),
                decreases entry.neighbors.len() - k,
            {
                let neighbor = &entry.neighbors[k];
                assert(declared[e as int].neighbors[k as int] == neighbor@);
                if !neighbor.same_as(home) {
                    let cells = collect_cells(neighbor, recent, important, steps);
                    if !is_covered(&cells, steps.len(), min) {
                        assert(grid.len() == steps.len());
                        assert(bridge_at(
                            declared,
                            listed,
                            visited,
                            grid,
                            min as int,
                            home@,
                            e as int,
                            k as int,
                        ));
                        return true;
                    }
                }
                k = k + 1;
            }
        }
        e = e + 1;
    }
    false
}

/// Whether every node has `dims` coordinates.
pub fn all_dimensioned(nodes: &Vec<Node>, dims: usize) -> (all: bool)
    ensures
        all == dimensioned(models(nodes@), dims as nat),
{
    let mut i: usize = 0;
    while i < nodes.len()
        invariant
            i <= nodes.len(),
            forall|j: int| 0 <= j < i ==> (#[trigger] models(nodes@)[j]).coords.len() == dims,
        decreases nodes.len() - i,
    {
        if nodes[i].coords.len() != dims {
            assert(models(nodes@)[i as int].coords.len() != dims);
            return false;
        }
        i = i + 1;
    }
    true
}

/// Whether every node of every entry has `dims` coordinates.
pub fn all_entries_dimensioned(important: &Vec<SegmentNodes>, dims: usize) -> (all: bool)
    ensures
        all == entries_dimensioned(models(important@), dims as nat),
{
    let mut e: usize = 0;
    while e < important.len()
        invariant
            e <= important.len(),
            forall|j: int| 0 <= j < e ==> dimensioned((#[trigger] models(important@)[j]).nodes, dims as nat),
        decreases important.len() - e,
    {
        assert(models(important@)[e as int].nodes == models(important[e as int].nodes@));
        if !all_dimensioned(&important[e].nodes, dims) {
            return false;
        }
        e = e + 1;
    }
    true
}

/// Whether every grid step is positive.
pub fn all_positive(steps: &Vec<i64>) -> (all: bool)
    ensures
        all == steps_positive(ints(steps@)),
{
    let mut d: usize = 0;
    while d < steps.len()
        invariant
            d <= steps.len(),
            forall|j: int| 0 <= j < d ==> ints(steps@)[j] > 0,
        decreases steps.len() - d,
    {
        if steps[d] <= 0 {
            assert(ints(steps@)[d as int] <= 0);
            return false;
        }
        d = d + 1;
    }
    true
}

/// Judges the candidate `node` against the recent nodes and the important nodes of its
/// segment, on the grid with the given steps. `min_segment_coverage` counts millionths.
pub fn evaluate(
    node: &Node,
    recent_nodes: &Vec<Node>,
    important_nodes: &Vec<SegmentNodes>,
    adjacent_segments: &Vec<Adjacency>,
    grid_steps: &Vec<i64>,
    min_segment_coverage: i64,
) -> (result: Result<ImportanceResult, ImportanceError>)
    ensures
        result == outcome(
            node@,
            models(recent_nodes@),
            models(important_nodes@),
            models(adjacent_segments@),
            ints(grid_steps@),
            min_segment_coverage as int,
        ),
{
    if min_segment_coverage < 0 || min_segment_coverage > COVERAGE_SCALE {
        return Err(ImportanceError::InvalidParameter(Parameter::MinSegmentCoverage));
    }
    let dims = grid_steps.len();
    if node.coords.len() != dims || !all_dimensioned(recent_nodes, dims)
        || !all_entries_dimensioned(important_nodes, dims) {
        return Err(ImportanceError::DimensionMismatch { expected: dims });
    }
    if !all_positive(grid_steps) {
        return Err(ImportanceError::InvalidParameter(Parameter::GridSteps));
    }
    let cell = locate(&node.coords, grid_steps);
    let home = collect_cells(&node.segment, recent_nodes, important_nodes, grid_steps);
    let novel = !holds_cell(&home, &cell);
    let covered = is_covered(&home, dims, min_segment_coverage);
    let bridging = has_bridge(
        &node.segment,
        recent_nodes,
        important_nodes,
        adjacent_segments,
        grid_steps,
        min_segment_coverage,
    );
    let age = last_visit_age(&cell, &node.segment, recent_nodes, grid_steps);
    Ok(decide(novel, covered, bridging, age, recent_nodes.len()))
}

} // verus!
