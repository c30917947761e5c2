//! How much of a segment the known nodes cover: the cells they occupy, out of the cells
//! of the box that bounds them.

use vstd::prelude::*;
use crate::grid::cell_of;
use crate::grid::locate;
use crate::grid::same_cell;
use crate::grid::steps_positive;
use crate::model::ints;
use crate::model::models;
use crate::model::Node;
use crate::model::NodeModel;
use crate::model::SegmentId;
use crate::model::SegmentKey;
use crate::model::SegmentNodes;
use crate::model::SegmentNodesModel;

verus! {

/// The number of millionths in a coverage ratio of one.
pub const COVERAGE_SCALE: i64 = 1_000_000;

/// The nodes recorded as important under `segment`: the nodes of every entry with that
/// identifier, in order.
pub open spec fn listed_nodes(important: Seq<SegmentNodesModel>, segment: SegmentKey) -> Seq<
    NodeModel,
>
    decreases important.len(),
{
    if important.len() == 0 {
        Seq::empty()
    } else {
        let earlier = listed_nodes(important.drop_last(), segment);
        if important.last().segment == segment {
            earlier + important.last().nodes
        } else {
            earlier
        }
    }
}

/// The nodes of `nodes` that belong to `segment`, in order.
pub open spec fn nodes_in(nodes: Seq<NodeModel>, segment: SegmentKey) -> Seq<NodeModel>
    decreases nodes.len(),
{
    if nodes.len() == 0 {
        Seq::empty()
    } else {
        let earlier = nodes_in(nodes.drop_last(), segment);
        if nodes.last().segment == segment {
            earlier.push(nodes.last())
        } else {
            earlier
        }
    }
}

/// The nodes known in `segment`: those recorded as important under it, then the recent
/// nodes that belong to it.
pub open spec fn known_nodes(
    important: Seq<SegmentNodesModel>,
    recent: Seq<NodeModel>,
    segment: SegmentKey,
) -> Seq<NodeModel> {
    listed_nodes(important, segment) + nodes_in(recent, segment)
}

/// The cells of a sequence of nodes, in order.
pub open spec fn cells_of(nodes: Seq<NodeModel>, steps: Seq<int>) -> Seq<Seq<int>> {
    Seq::new(nodes.len(), |i: int| cell_of(nodes[i].coords, steps))
}

/// The cells of the nodes known in `segment`.
pub open spec fn known_cells(
    important: Seq<SegmentNodesModel>,
    recent: Seq<NodeModel>,
    steps: Seq<int>,
    segment: SegmentKey,
) -> Seq<Seq<int>> {
    cells_of(known_nodes(important, recent, segment), steps)
}

/// Whether every node has `dims` coordinates.
pub open spec fn dimensioned(nodes: Seq<NodeModel>, dims: nat) -> bool {
    forall|i: int| 0 <= i < nodes.len() ==> (#[trigger] nodes[i]).coords.len() == dims
}

/// Whether every node of every entry has `dims` coordinates.
pub open spec fn entries_dimensioned(important: Seq<SegmentNodesModel>, dims: nat) -> bool {
    forall|e: int| 0 <= e < important.len() ==> dimensioned((#[trigger] important[e]).nodes, dims)
}

/// The number of distinct cells among `cells`.
pub open spec fn occupied_count(cells: Seq<Seq<int>>) -> nat {
    cells.to_set().len()
}

/// The least index that the cells have along axis `d`.
pub open spec fn lowest(cells: Seq<Seq<int>>, d: int) -> int
    decreases cells.len(),
{
    if cells.len() <= 1 {
        cells[0][d]
    } else {
        let earlier = lowest(cells.drop_last(), d);
        if cells.last()[d] < earlier {
            cells.last()[d]
        } else {
            earlier
        }
    }
}

/// The greatest index that the cells have along axis `d`.
pub open spec fn highest(cells: Seq<Seq<int>>, d: int) -> int
    decreases cells.len(),
{
    if cells.len() <= 1 {
        cells[0][d]
    } else {
        let earlier = highest(cells.drop_last(), d);
        if cells.last()[d] > earlier {
            cells.last()[d]
        } else {
            earlier
        }
    }
}

/// The number of cells along axis `d` of the box that bounds the cells.
pub open spec fn extent(cells: Seq<Seq<int>>, d: int) -> int {
    highest(cells, d) - lowest(cells, d) + 1
}

/// The number of cells of the bounding box over the first `dims` axes.
pub open spec fn volume(cells: Seq<Seq<int>>, dims: nat) -> int
    decreases dims,
{
    if dims == 0 {
        1
    } else {
        volume(cells, (dims - 1) as nat) * extent(cells, dims - 1)
    }
}

/// The number of cells that the segment could address: those of the box that bounds its
/// known cells, and none where no cell is known.
pub open spec fn total_cells(cells: Seq<Seq<int>>, dims: nat) -> int {
    if cells.len() == 0 {
        0
    } else {
        volume(cells, dims)
    }
}

/// Whether the occupied share of the addressable cells reaches `min` millionths. A
/// segment without known cells has a share of zero.
pub open spec fn coverage_met(cells: Seq<Seq<int>>, dims: nat, min: int) -> bool {
    if cells.len() == 0 {
        min <= 0
    } else {
        occupied_count(cells) * COVERAGE_SCALE >= min * total_cells(cells, dims)
    }
}

/// The models of a sequence of cells.
pub open spec fn cell_models(cells: Seq<Vec<i64>>) -> Seq<Seq<int>> {
    Seq::new(cells.len(), |i: int| ints(cells[i]@))
}

/// Along every axis the least index is at most the greatest, and both are indices of
/// some cell, between which every cell lies.
pub proof fn lemma_bounds(cells: Seq<Seq<int>>, d: int)
    requires
        cells.len() > 0,
    ensures
        lowest(cells, d) <= highest(cells, d),
        forall|i: int| 0 <= i < cells.len() ==> lowest(cells, d) <= (#[trigger] cells[i])[d] <= highest(cells, d),
        exists|i: int| 0 <= i < cells.len() && (#[trigger] cells[i])[d] == lowest(cells, d),
        exists|i: int| 0 <= i < cells.len() && (#[trigger] cells[i])[d] == highest(cells, d),
    decreases cells.len(),
{
    if cells.len() <= 1 {
        assert(cells[0][d] == lowest(cells, d));
        assert(cells[0][d] == highest(cells, d));
    } else {
        let earlier = cells.drop_last();
        lemma_bounds(earlier, d);
        assert forall|i: int| 0 <= i < cells.len() implies lowest(cells, d) <= (#[trigger] cells[i])[d] <= highest(cells, d) by {
            if i < earlier.len() {
                assert(earlier[i] == cells[i]);
            }
        }
        let lo = choose|i: int| 0 <= i < earlier.len() && (#[trigger] earlier[i])[d] == lowest(earlier, d);
        let hi = choose|i: int| 0 <= i < earlier.len() && (#[trigger] earlier[i])[d] == highest(earlier, d);
        assert(earlier[lo] == cells[lo]);
        assert(earlier[hi] == cells[hi]);
        let last = cells.len() - 1;
        if cells.last()[d] < lowest(earlier, d) {
            assert(cells[last][d] == lowest(cells, d));
        } else {
            assert(cells[lo][d] == lowest(cells, d));
        }
        if cells.last()[d] > highest(earlier, d) {
            assert(cells[last][d] == highest(cells, d));
        } else {
            assert(cells[hi][d] == highest(cells, d));
        }
    }
}

/// The bounding box of known cells holds at least one cell, and no fewer with more axes.
pub proof fn lemma_volume_grows(cells: Seq<Seq<int>>, few: nat, many: nat)
    requires
        cells.len() > 0,
        few <= many,
    ensures
        1 <= volume(cells, few) <= volume(cells, many),
    decreases many,
{
    if many == 0 {
    } else if few == many {
        lemma_volume_grows(cells, (few - 1) as nat, (many - 1) as nat);
        lemma_bounds(cells, many - 1);
        assert(volume(cells, (many - 1) as nat) * extent(cells, many - 1) >= 1) by (nonlinear_arith)
            requires
                volume(cells, (many - 1) as nat) >= 1,
                extent(cells, many - 1) >= 1,
        ;
    } else {
        lemma_volume_grows(cells, few, (many - 1) as nat);
        lemma_bounds(cells, many - 1);
        assert(volume(cells, (many - 1) as nat) * extent(cells, many - 1) >= volume(
            cells,
            (many - 1) as nat,
        )) by (nonlinear_arith)
            requires
                volume(cells, (many - 1) as nat) >= 1,
                extent(cells, many - 1) >= 1,
        ;
    }
}

/// The cells of the nodes known in `segment`.
pub fn collect_cells(
    segment: &SegmentId,
    recent: &Vec<Node>,
    important: &Vec<SegmentNodes>,
    steps: &Vec<i64>,
) -> (cells: Vec<Vec<i64>>)
    requires
        steps_positive(ints(steps@)),
        dimensioned(models(recent@), steps.len() as nat),
        entries_dimensioned(models(important@), steps.len() as nat),
    ensures
        cell_models(cells@) == known_cells(
            models(important@),
            models(recent@),
            ints(steps@),
            segment@,
        ),
        forall|i: int| 0 <= i < cells.len() ==> (#[trigger] cells[i]).len() == steps.len(),
{
    let ghost listed = models(important@);
    let ghost visited = models(recent@);
    let ghost grid = ints(steps@);
    let mut cells: Vec<Vec<i64>> = Vec::new();
    let mut e: usize = 0;
    assert(listed.take(0) =~= Seq::empty());
    assert(cell_models(cells@) =~= cells_of(listed_nodes(listed.take(0), segment@), grid));
    while e < important.len()
        invariant
            e <= important.len(),
            listed == models(important@),
            grid == ints(steps@),
            steps_positive(grid),
            entries_dimensioned(listed, steps.len() as nat),
            cell_models(cells@) == cells_of(listed_nodes(listed.take(e as int), segment@), grid),
            forall|i: int| 0 <= i < cells.len() ==> (#[trigger] cells[i]).len() == steps.len(),
        decreases important.len() - e,
    {
        let entry = &important[e];
        let ghost before = listed_nodes(listed.take(e as int), segment@);
        assert(listed.take(e + 1).drop_last() =~= listed.take(e as int));
        assert(listed.take(e + 1).last() == listed[e as int]);
        assert(listed[e as int] == entry@);
        if entry.segment.same_as(segment) {
            let ghost entry_nodes = models(entry.nodes@);
            assert(dimensioned(listed[e as int].nodes, steps.len() as nat));
            let mut k: usize = 0;
            assert(before + entry_nodes.take(0) =~= before);
            while k < entry.nodes.len()
                invariant
                    k <= entry.nodes.len(),
                    entry_nodes == models(entry.nodes@),
                    grid == ints(steps@),
                    steps_positive(grid),
                    dimensioned(entry_nodes, steps.len() as nat),
                    cell_models(cells@) == cells_of(before + entry_nodes.take(k as int), grid),
                    forall|i: int| 0 <= i < cells.len() ==> (#[trigger] cells[i]).len() == steps.len(),
                decreases entry.nodes.len() - k,
            {
                assert(entry_nodes[k as int].coords.len() == steps.len());
                assert(entry_nodes[k as int] == entry.nodes[k as int]@);
                let cell = locate(&entry.nodes[k].coords, steps);
                let ghost old_cells = cells@;
                cells.push(cell);
                assert(before + entry_nodes.take(k + 1) =~= (before + entry_nodes.take(
                    k as int,
                )).push(entry_nodes[k as int]));
                assert(cell_models(cells@) =~= cell_models(old_cells).push(ints(cell@)));
                assert(cell_models(cells@) =~= cells_of(before + entry_nodes.take(k + 1), grid));
                k = k + 1;
            }
            assert(entry_nodes.take(k as int) =~= entry_nodes);
        }
        e = e + 1;
    }
    assert(listed.take(e as int) =~= listed);
    let ghost from_list = listed_nodes(listed, segment@);
    let mut r: usize = 0;
    assert(visited.take(0) =~= Seq::empty());
    assert(from_list + nodes_in(visited.take(0), segment@) =~= from_list);
    while r < recent.len()
        invariant
            r <= recent.len(),
            visited == models(recent@),
            grid == ints(steps@),
            steps_positive(grid),
            dimensioned(visited, steps.len() as nat),
            cell_models(cells@) == cells_of(
                from_list + nodes_in(visited.take(r as int), segment@),
                grid,
            ),
            forall|i: int| 0 <= i < cells.len() ==> (#[trigger] cells[i]).len() == steps.len(),
        decreases recent.len() - r,
    {
        let node = &recent[r];
        let ghost before = from_list + nodes_in(visited.take(r as int), segment@);
        assert(visited.take(r + 1).drop_last() =~= visited.take(r as int));
        assert(visited.take(r + 1).last() == visited[r as int]);
        assert(visited[r as int] == node@);
        if node.segment.same_as(segment) {
            assert(visited[r as int].coords.len() == steps.len());
            let cell = locate(&node.coords, steps);
            let ghost old_cells = cells@;
            cells.push(cell);
            assert(from_list + nodes_in(visited.take(r + 1), segment@) =~= before.push(node@));
            assert(cell_models(cells@) =~= cell_models(old_cells).push(ints(cell@)));
            assert(cell_models(cells@) =~= cells_of(before.push(node@), grid));
        }
        r = r + 1;
    }
    assert(visited.take(r as int) =~= visited);
    cells
}

/// Whether `cell` is among `cells`.
pub fn holds_cell(cells: &Vec<Vec<i64>>, cell: &Vec<i64>) -> (found: bool)
    ensures
        found == cell_models(cells@).contains(ints(cell@)),
{
    let mut i: usize = 0;
    while i < cells.len()
        invariant
            i <= cells.len(),
            forall|j: int| 0 <= j < i ==> cell_models(cells@)[j] != ints(cell@),
        decreases cells.len() - i,
    {
        if same_cell(&cells[i], cell) {
            assert(cell_models(cells@)[i as int] == ints(cell@));
            return true;
        }
        i = i + 1;
    }
    false
}

/// The number of distinct cells among `cells`.
pub fn count_occupied(cells: &Vec<Vec<i64>>) -> (count: usize)
    ensures
        count == occupied_count(cell_models(cells@)),
{
    let ghost all = cell_models(cells@);
    let ghost mut distinct: Seq<Seq<int>> = Seq::empty();
    let mut count: usize = 0;
    let mut i: usize = 0;
    while i < cells.len()
        invariant
            i <= cells.len(),
            all == cell_models(cells@),
            distinct.no_duplicates(),
            forall|cell: Seq<int>| distinct.contains(cell) <==> all.take(i as int).contains(cell),
            count == distinct.len(),
            count <= i,
        decreases cells.len() - i,
    {
        let ghost earlier = all.take(i as int);
        let ghost current = all[i as int];
        let mut seen = false;
        let mut j: usize = 0;
        while j < i
            invariant
                j <= i,
                i < cells.len(),
                all == cell_models(cells@),
                current == all[i as int],
                seen <==> exists|k: int| 0 <= k < j && all[k] == current,
            decreases i - j,
        {
            if same_cell(&cells[j], &cells[i]) {
                assert(all[j as int] == current);
                seen = true;
            }
            j = j + 1;
        }
        assert(all.take(i + 1) =~= earlier.push(current));
        assert(seen <==> earlier.contains(current)) by {
            if seen {
                let k = choose|k: int| 0 <= k < i && all[k] == current;
                assert(earlier[k] == current);
            }
            if earlier.contains(current) {
                let k = choose|k: int| 0 <= k < earlier.len() && earlier[k] == current;
                assert(all[k] == current);
            }
        }
        if !seen {
            proof {
                let ghost grown = distinct.push(current);
                assert(!distinct.contains(current));
                assert(grown.no_duplicates());
                assert forall|cell: Seq<int>| grown.contains(cell) <==> all.take(i + 1).contains(
                    cell,
                ) by {
                    lemma_push_contains(distinct, current, cell);
                    lemma_push_contains(earlier, current, cell);
                }
                distinct = grown;
            }
            count = count + 1;
        } else {
            assert forall|cell: Seq<int>| distinct.contains(cell) <==> all.take(i + 1).contains(
                cell,
            ) by {
                lemma_push_contains(earlier, current, cell);
            }
        }
        i = i + 1;
    }
    proof {
        assert(all.take(i as int) =~= all);
        assert(distinct.to_set() =~= all.to_set());
        distinct.unique_seq_to_set();
    }
    count
}

/// A sequence with one more item holds what it held before, and that item.
proof fn lemma_push_contains(items: Seq<Seq<int>>, last: Seq<int>, cell: Seq<int>)
    ensures
        items.push(last).contains(cell) <==> items.contains(cell) || cell == last,
{
    let grown = items.push(last);
    if grown.contains(cell) {
        let k = choose|k: int| 0 <= k < grown.len() && grown[k] == cell;
        if k < items.len() {
            assert(items[k] == cell);
        }
    }
    if items.contains(cell) {
        let k = choose|k: int| 0 <= k < items.len() && items[k] == cell;
        assert(grown[k] == cell);
    }
    if cell == last {
        assert(grown[items.len() as int] == cell);
    }
}

/// The least and the greatest index that the cells have along axis `d`.
pub fn span(cells: &Vec<Vec<i64>>, d: usize) -> (bounds: (i64, i64))
    requires
        cells.len() > 0,
        forall|i: int| 0 <= i < cells.len() ==> d < (#[trigger] cells[i]).len(),
    ensures
        bounds.0 == lowest(cell_models(cells@), d as int),
        bounds.1 == highest(cell_models(cells@), d as int),
{
    let ghost all = cell_models(cells@);
    let mut low: i64 = cells[0][d];
    let mut high: i64 = cells[0][d];
    let mut i: usize = 1;
    assert(all.take(1)[0] == all[0]);
    assert(all[0][d as int] == cells[0][d as int] as int);
    while i < cells.len()
        invariant
            1 <= i <= cells.len(),
            all == cell_models(cells@),
            forall|i: int| 0 <= i < cells.len() ==> d < (#[trigger] cells[i]).len(),
            low == lowest(all.take(i as int), d as int),
            high == highest(all.take(i as int), d as int),
        decreases cells.len() - i,
    {
        assert(all.take(i + 1).drop_last() =~= all.take(i as int));
        assert(all.take(i + 1).last() == all[i as int]);
        assert(all[i as int][d as int] == cells[i as int][d as int] as int);
        let index: i64 = cells[i][d];
        if index < low {
            low = index;
        }
        if index > high {
            high = index;
        }
        i = i + 1;
    }
    assert(all.take(i as int) =~= all);
    (low, high)
}

/// The number of cells of the box that bounds the cells, where it fits the machine's
/// widest integer.
pub fn bounding_volume(cells: &Vec<Vec<i64>>, dims: usize) -> (cells_in_box: Option<u128>)
    requires
        cells.len() > 0,
        forall|i: int| 0 <= i < cells.len() ==> (#[trigger] cells[i]).len() == dims,
    ensures
        match cells_in_box {
            Some(count) => count == volume(cell_models(cells@), dims as nat),
            None => volume(cell_models(cells@), dims as nat) > u128::MAX,
        },
{
    let ghost all = cell_models(cells@);
    let mut product: u128 = 1;
    let mut d: usize = 0;
    while d < dims
        invariant
            d <= dims,
            cells.len() > 0,
            all == cell_models(cells@),
            forall|i: int| 0 <= i < cells.len() ==> (#[trigger] cells[i]).len() == dims,
            product == volume(all, d as nat),
        decreases dims - d,
    {
        let bounds = span(cells, d);
        proof {
            lemma_bounds(all, d as int);
        }
        let width: u128 = (bounds.1 as i128 - bounds.0 as i128 + 1) as u128;
        assert(width == extent(all, d as int));
        match product.checked_mul(width) {
            Some(next) => {
                product = next;
            },
            None => {
                proof {
                    lemma_volume_grows(all, (d + 1) as nat, dims as nat);
                }
                return None;
            },
        }
        d = d + 1;
    }
    Some(product)
}

/// Whether the known cells of a segment cover at least `min` millionths of the cells
/// that it could address.
pub fn is_covered(cells: &Vec<Vec<i64>>, dims: usize, min: i64) -> (covered: bool)
    requires
        forall|i: int| 0 <= i < cells.len() ==> (#[trigger] cells[i]).len() == dims,
    ensures
        covered == coverage_met(cell_models(cells@), dims as nat, min as int),
{
    let ghost all = cell_models(cells@);
    if min <= 0 {
        proof {
            if cells.len() > 0 {
                lemma_volume_grows(all, 0, dims as nat);
                assert(min * total_cells(all, dims as nat) <= 0) by (nonlinear_arith)
                    requires
                        min <= 0,
                        total_cells(all, dims as nat) >= 1,
                ;
                assert(occupied_count(all) * COVERAGE_SCALE >= 0) by (nonlinear_arith)
                    requires
                        occupied_count(all) >= 0,
                        COVERAGE_SCALE == 1_000_000,
                ;
            }
        }
        return true;
    }
    if cells.len() == 0 {
        return false;
    }
    let occupied: u128 = count_occupied(cells) as u128;
    let reached: u128 = occupied * 1_000_000;
    match bounding_volume(cells, dims) {
        None => {
            assert(min * total_cells(all, dims as nat) > reached) by (nonlinear_arith)
                requires
                    min >= 1,
                    total_cells(all, dims as nat) > u128::MAX,
                    reached <= u128::MAX,
            ;
            false
        },
        Some(total) => match total.checked_mul(min as u128) {
            None => {
                assert(min * total_cells(all, dims as nat) == total * (min as u128)) by (nonlinear_arith)
                    requires
                        total_cells(all, dims as nat) == total,
                        min >= 1,
                ;
                false
            },
            Some(needed) => {
                assert(min * total_cells(all, dims as nat) == needed) by (nonlinear_arith)
                    requires
                        total_cells(all, dims as nat) == total,
                        needed == total * (min as u128),
                        min >= 1,
                ;
                reached >= needed
            },
        },
    }
}

} // verus!
