//! The occupied cells of a segment fit in the box that bounds them, so that a coverage
//! is a share between nothing and the whole.

use vstd::prelude::*;
use vstd::relations::injective_on;
use vstd::set_lib::lemma_len_subset;
use vstd::set_lib::lemma_map_size;
use vstd::set_lib::lemma_set_disjoint_lens;
use crate::coverage::extent;
use crate::coverage::highest;
use crate::coverage::lemma_bounds;
use crate::coverage::lowest;
use crate::coverage::occupied_count;
use crate::coverage::total_cells;
use crate::coverage::volume;

verus! {

/// Whether a cell with `dims` indices lies, along each axis, between the least and the
/// greatest index of the cells.
pub open spec fn in_box(cells: Seq<Seq<int>>, dims: nat, cell: Seq<int>) -> bool {
    &&& cell.len() == dims
    &&& forall|d: int| 0 <= d < dims ==> lowest(cells, d) <= #[trigger] cell[d] <= highest(cells, d)
}

/// The box that bounds the cells over the first `dims` axes.
pub open spec fn bounding_box(cells: Seq<Seq<int>>, dims: nat) -> Set<Seq<int>> {
    Set::new(|cell: Seq<int>| in_box(cells, dims, cell))
}

/// The cells of the box over `dims + 1` axes whose last index is one of the first
/// `layers` indices of that axis.
spec fn layered(cells: Seq<Seq<int>>, dims: nat, layers: nat) -> Set<Seq<int>> {
    Set::new(
        |cell: Seq<int>|
            cell.len() == dims + 1 && in_box(cells, dims, cell.drop_last()) && lowest(
                cells,
                dims as int,
            ) <= cell[dims as int] < lowest(cells, dims as int) + layers,
    )
}

/// The bounding box holds as many cells as the product of its extents.
pub proof fn lemma_box_size(cells: Seq<Seq<int>>, dims: nat)
    requires
        cells.len() > 0,
    ensures
        bounding_box(cells, dims).finite(),
        bounding_box(cells, dims).len() == volume(cells, dims),
    decreases dims, 0nat, 0nat,
{
    if dims == 0 {
        assert(bounding_box(cells, 0) =~= set![Seq::<int>::empty()]) by {
            assert forall|cell: Seq<int>| bounding_box(cells, 0).contains(cell) implies cell
                == Seq::<int>::empty() by {
                assert(cell =~= Seq::<int>::empty());
            }
            assert(in_box(cells, 0, Seq::<int>::empty()));
        }
    } else {
        let below = (dims - 1) as nat;
        lemma_bounds(cells, below as int);
        let layers = extent(cells, below as int) as nat;
        lemma_layered_size(cells, below, layers);
        assert(bounding_box(cells, dims) =~= layered(cells, below, layers)) by {
            assert forall|cell: Seq<int>| bounding_box(cells, dims).contains(cell) implies layered(
                cells,
                below,
                layers,
            ).contains(cell) by {
                assert forall|d: int| 0 <= d < below implies lowest(cells, d)
                    <= #[trigger] cell.drop_last()[d] <= highest(cells, d) by {
                    assert(cell.drop_last()[d] == cell[d]);
                }
                assert(lowest(cells, below as int) <= cell[below as int] <= highest(
                    cells,
                    below as int,
                ));
            }
            assert forall|cell: Seq<int>| layered(cells, below, layers).contains(
                cell,
            ) implies bounding_box(cells, dims).contains(cell) by {
                assert forall|d: int| 0 <= d < dims implies lowest(cells, d) <= #[trigger] cell[d]
                    <= highest(cells, d) by {
                    if d < below {
                        assert(cell.drop_last()[d] == cell[d]);
                    }
                }
            }
        }
    }
}

/// The first `layers` layers of the box over one more axis hold `layers` times the
/// cells of the box.
proof fn lemma_layered_size(cells: Seq<Seq<int>>, dims: nat, layers: nat)
    requires
        cells.len() > 0,
    ensures
        layered(cells, dims, layers).finite(),
        layered(cells, dims, layers).len() == volume(cells, dims) * layers,
    decreases dims, 1nat, layers,
{
    if layers == 0 {
        assert(layered(cells, dims, 0) =~= Set::<Seq<int>>::empty());
        assert(volume(cells, dims) * 0 == 0);
    } else {
        let fewer = (layers - 1) as nat;
        lemma_layered_size(cells, dims, fewer);
        lemma_box_size(cells, dims);
        let top: int = lowest(cells, dims as int) + layers - 1;
        let base = bounding_box(cells, dims);
        let lift = |cell: Seq<int>| cell.push(top);
        let layer = base.map(lift);
        assert(injective_on(lift, base)) by {
            assert forall|a: Seq<int>, b: Seq<int>|
                base.contains(a) && base.contains(b) && #[trigger] lift(a) == #[trigger] lift(
                    b,
                ) implies a == b by {
                assert(a.push(top).drop_last() =~= a);
                assert(b.push(top).drop_last() =~= b);
            }
        }
        lemma_map_size(base, layer, lift);
        let lower = layered(cells, dims, fewer);
        assert(layered(cells, dims, layers) =~= lower + layer) by {
            assert forall|cell: Seq<int>| layered(cells, dims, layers).contains(cell) implies (
            lower + layer).contains(cell) by {
                if cell[dims as int] == top {
                    assert(cell =~= lift(cell.drop_last()));
                    assert(base.contains(cell.drop_last()));
                    assert(layer.contains(cell));
                } else {
                    assert(lower.contains(cell));
                }
            }
            assert forall|cell: Seq<int>| (lower + layer).contains(cell) implies layered(
                cells,
                dims,
                layers,
            ).contains(cell) by {
                if layer.contains(cell) {
                    let below = choose|below: Seq<int>| base.contains(below) && cell == lift(below);
                    assert(cell.drop_last() =~= below);
                }
            }
        }
        assert(lower.disjoint(layer)) by {
            assert forall|cell: Seq<int>| lower.contains(cell) implies !layer.contains(cell) by {
                if layer.contains(cell) {
                    let below = choose|below: Seq<int>| base.contains(below) && cell == lift(below);
                    assert(cell[dims as int] == top);
                }
            }
        }
        lemma_set_disjoint_lens(lower, layer);
        assert(volume(cells, dims) * fewer + volume(cells, dims) == volume(cells, dims) * layers)
            by (nonlinear_arith)
            requires
                fewer + 1 == layers,
        ;
    }
}

/// The known cells of a segment are cells of its bounding box: no more cells are
/// occupied than the segment can address, and a coverage never exceeds one.
pub proof fn lemma_occupied_cells_fit(cells: Seq<Seq<int>>, dims: nat)
    requires
        cells.len() > 0,
        forall|i: int| 0 <= i < cells.len() ==> (#[trigger] cells[i]).len() == dims,
    ensures
        1 <= occupied_count(cells) <= total_cells(cells, dims),
{
    lemma_box_size(cells, dims);
    let occupied = cells.to_set();
    let around = bounding_box(cells, dims);
    assert(occupied.subset_of(around)) by {
        assert forall|cell: Seq<int>| occupied.contains(cell) implies around.contains(cell) by {
            let i = choose|i: int| 0 <= i < cells.len() && cells[i] == cell;
            assert forall|d: int| 0 <= d < dims implies lowest(cells, d) <= #[trigger] cell[d]
                <= highest(cells, d) by {
                lemma_bounds(cells, d);
                assert(lowest(cells, d) <= cells[i][d] <= highest(cells, d));
            }
        }
    }
    lemma_len_subset(occupied, around);
    assert(occupied.contains(cells[0]));
    assert(occupied.len() >= 1) by {
        if occupied.len() == 0 {
            assert(occupied =~= Set::empty());
        }
    }
}

} // verus!
