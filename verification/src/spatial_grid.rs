use vstd::prelude::*;
use vstd::arithmetic::div_mod::{lemma_div_is_ordered, lemma_fundamental_div_mod};
use crate::battle_unit::{dist_sq_xyz, sq};
use crate::fixed::{ceil_div, floor_div};
use crate::{COORD_LIMIT, STAT_LIMIT};

verus! {

/// A cell coordinate of an in-bounds position is itself in bounds.
pub proof fn lemma_cell_key_bounds(cell_size: int, x: int)
    requires
        1 <= cell_size,
        -COORD_LIMIT <= x <= COORD_LIMIT,
    ensures
        -COORD_LIMIT <= cell_key(cell_size, x) <= COORD_LIMIT,
{
    lemma_fundamental_div_mod(x, cell_size);
    assert(-COORD_LIMIT <= x / cell_size <= COORD_LIMIT) by (nonlinear_arith)
        requires
            1 <= cell_size,
            -COORD_LIMIT <= x <= COORD_LIMIT,
            x == cell_size * (x / cell_size) + (x % cell_size),
            0 <= (x % cell_size) < cell_size,
    ;
}

/// Mutable access to one cell.
fn cell_mut(cells: &mut Vec<GridCell>, i: usize) -> (c: &mut GridCell)
    requires
        i < old(cells)@.len(),
    ensures
        *c == old(cells)@[i as int],
        final(cells)@ == old(cells)@.update(i as int, *final(c)),
{
    &mut cells[i]
}

/// One occupied cell of the grid: its integer cell coordinates and the
/// unit indices inserted into it, in insertion order.
pub struct GridCell {
    pub cx: i64,
    pub cy: i64,
    pub cz: i64,
    pub items: Vec<usize>,
}

/// Uniform spatial hash over 3D space. Occupied cells are kept in first-
/// insertion order, so every query result is deterministic.
pub struct SpatialGrid {
    pub cell_size: i64,
    pub cells: Vec<GridCell>,
}

/// Cell coordinate of a position along one axis: floor of `x / cell_size`.
pub open spec fn cell_key(cell_size: int, x: int) -> int {
    x / cell_size
}

pub open spec fn cell_has_key(c: GridCell, kx: int, ky: int, kz: int) -> bool {
    c.cx == kx && c.cy == ky && c.cz == kz
}

pub open spec fn has_cell(cells: Seq<GridCell>, kx: int, ky: int, kz: int) -> bool {
    exists|j: int| 0 <= j < cells.len() && cell_has_key(#[trigger] cells[j], kx, ky, kz)
}

/// Well-formed grid: positive cell size, cell coordinates in range, and no
/// two cells with the same coordinates.
pub open spec fn wf_grid(g: SpatialGrid) -> bool {
    &&& 0 < g.cell_size <= STAT_LIMIT
    &&& forall|j: int| 0 <= j < g.cells@.len() ==> -COORD_LIMIT <= (#[trigger] g.cells@[j]).cx
        <= COORD_LIMIT && -COORD_LIMIT <= g.cells@[j].cy <= COORD_LIMIT && -COORD_LIMIT
        <= g.cells@[j].cz <= COORD_LIMIT
    &&& forall|j: int, k: int| 0 <= j < k < g.cells@.len() ==> !cell_has_key(
        #[trigger] g.cells@[j],
        (#[trigger] g.cells@[k]).cx as int,
        g.cells@[k].cy as int,
        g.cells@[k].cz as int,
    )
}

/// The cell lies within Chebyshev distance `r` of the query cell.
pub open spec fn cell_within(c: GridCell, kx: int, ky: int, kz: int, r: int) -> bool {
    &&& -r <= c.cx - kx <= r
    &&& -r <= c.cy - ky <= r
    &&& -r <= c.cz - kz <= r
}

/// Concatenation, in grid order, of the contents of every cell within
/// Chebyshev distance `r` of the query cell.
pub open spec fn nearby_spec(cells: Seq<GridCell>, kx: int, ky: int, kz: int, r: int) -> Seq<
    usize,
>
    decreases cells.len(),
{
    if cells.len() == 0 {
        Seq::empty()
    } else {
        nearby_spec(cells.drop_last(), kx, ky, kz, r) + (if cell_within(cells.last(), kx, ky, kz,
            r) {
            cells.last().items@
        } else {
            Seq::empty()
        })
    }
}

/// The query radius in cells: `range / cell_size` rounded up, at least 1.
pub open spec fn grid_radius(cell_size: int, range: int) -> int {
    let q = (range + cell_size - 1) / cell_size;
    if q < 1 {
        1
    } else {
        q
    }
}

/// The grid holds `idx` somewhere.
pub open spec fn grid_has(g: SpatialGrid, idx: usize) -> bool {
    exists|j: int, p: int| 0 <= j < g.cells@.len() && 0 <= p < g.cells@[j].items@.len()
        && #[trigger] g.cells@[j].items@[p] == idx
}

/// How one insertion changes the cells: the index joins the cell of its
/// position, which is created at the back when new; no other cell moves.
pub open spec fn insert_effect(
    g0: SpatialGrid,
    g1: SpatialGrid,
    index: usize,
    x: int,
    y: int,
    z: int,
) -> bool {
    let kx = cell_key(g0.cell_size as int, x);
    let ky = cell_key(g0.cell_size as int, y);
    let kz = cell_key(g0.cell_size as int, z);
    if has_cell(g0.cells@, kx, ky, kz) {
        &&& g1.cells@.len() == g0.cells@.len()
        &&& forall|j: int| 0 <= j < g0.cells@.len() && !cell_has_key(
            #[trigger] g0.cells@[j],
            kx,
            ky,
            kz,
        ) ==> g1.cells@[j] == g0.cells@[j]
        &&& forall|j: int| 0 <= j < g0.cells@.len() && cell_has_key(
            #[trigger] g0.cells@[j],
            kx,
            ky,
            kz,
        ) ==> cell_has_key(g1.cells@[j], kx, ky, kz) && g1.cells@[j].items@
            == g0.cells@[j].items@.push(index)
    } else {
        &&& g1.cells@.len() == g0.cells@.len() + 1
        &&& forall|j: int| 0 <= j < g0.cells@.len() ==> g1.cells@[j] == g0.cells@[j]
        &&& cell_has_key(g1.cells@.last(), kx, ky, kz)
        &&& g1.cells@.last().items@ =~= seq![index]
    }
}

impl SpatialGrid {
    pub fn new(cell_size: i64) -> (r: SpatialGrid)
        requires
            0 < cell_size <= STAT_LIMIT,
        ensures
            wf_grid(r),
            r.cell_size == cell_size,
            r.cells@.len() == 0,
    {
        SpatialGrid { cell_size, cells: Vec::new() }
    }

    /// Empty every cell.
    pub fn clear(&mut self)
        ensures
            final(self).cell_size == old(self).cell_size,
            final(self).cells@.len() == 0,
            wf_grid(*old(self)) ==> wf_grid(*final(self)),
    {
        self.cells.clear();
    }

    /// Append a unit index to the cell of its position, creating the cell
    /// at the back of the grid when it is new.
    pub fn insert(&mut self, index: usize, x: i64, y: i64, z: i64)
        requires
            wf_grid(*old(self)),
            -COORD_LIMIT <= x <= COORD_LIMIT,
            -COORD_LIMIT <= y <= COORD_LIMIT,
            -COORD_LIMIT <= z <= COORD_LIMIT,
        ensures
            wf_grid(*final(self)),
            final(self).cell_size == old(self).cell_size,
            insert_effect(*old(self), *final(self), index, x as int, y as int, z as int),
    {
        proof {
            lemma_cell_key_bounds(self.cell_size as int, x as int);
            lemma_cell_key_bounds(self.cell_size as int, y as int);
            lemma_cell_key_bounds(self.cell_size as int, z as int);
        }
        let kx = floor_div(x, self.cell_size);
        let ky = floor_div(y, self.cell_size);
        let kz = floor_div(z, self.cell_size);
        let n = self.cells.len();
        let mut j: usize = 0;
        while j < n
            invariant
                *self == *old(self),
                wf_grid(*self),
                n == self.cells@.len(),
                j <= n,
                kx as int == cell_key(self.cell_size as int, x as int),
                ky as int == cell_key(self.cell_size as int, y as int),
                kz as int == cell_key(self.cell_size as int, z as int),
                -COORD_LIMIT <= kx <= COORD_LIMIT,
                -COORD_LIMIT <= ky <= COORD_LIMIT,
                -COORD_LIMIT <= kz <= COORD_LIMIT,
                forall|t: int| 0 <= t < j ==> !cell_has_key(
                    #[trigger] self.cells@[t],
                    kx as int,
                    ky as int,
                    kz as int,
                ),
            decreases n - j,
        {
            let hit = self.cells[j].cx == kx && self.cells[j].cy == ky && self.cells[j].cz == kz;
            if hit {
                proof {
                    assert(cell_has_key(old(self).cells@[j as int], kx as int, ky as int,
                        kz as int));
                    assert(has_cell(old(self).cells@, kx as int, ky as int, kz as int));
                    assert forall|t: int|
                        0 <= t < old(self).cells@.len() && cell_has_key(
                            #[trigger] old(self).cells@[t],
                            kx as int,
                            ky as int,
                            kz as int,
                        ) implies t == j as int by {
                        if t < j as int {
                            assert(!cell_has_key(old(self).cells@[t],
                                old(self).cells@[j as int].cx as int,
                                old(self).cells@[j as int].cy as int,
                                old(self).cells@[j as int].cz as int));
                        }
                        if (j as int) < t {
                            assert(!cell_has_key(old(self).cells@[j as int],
                                old(self).cells@[t].cx as int, old(self).cells@[t].cy as int,
                                old(self).cells@[t].cz as int));
                        }
                    }
                }
                let cell = cell_mut(&mut self.cells, j);
                cell.items.push(index);
                proof {
                    assert(self.cells@.len() == old(self).cells@.len());
                    assert(self.cells@[j as int].items@ == old(self).cells@[j as int].items@.push(
                        index,
                    ));
                    assert(self.cells@[j as int].cx == old(self).cells@[j as int].cx
                        && self.cells@[j as int].cy == old(self).cells@[j as int].cy
                        && self.cells@[j as int].cz == old(self).cells@[j as int].cz);
                    assert(forall|t: int| 0 <= t < old(self).cells@.len() && t != j as int
                        ==> self.cells@[t] == old(self).cells@[t]);
                    assert(cell_has_key(self.cells@[j as int], kx as int, ky as int, kz as int));
                    assert(wf_grid(*self));
                }
                return ;
            }
            j += 1;
        }
        proof {
            assert(!has_cell(old(self).cells@, kx as int, ky as int, kz as int));
        }
        self.cells.push(GridCell { cx: kx, cy: ky, cz: kz, items: vec![index] });
        proof {
            assert(self.cells@.last().items@ =~= seq![index]);
            assert(forall|t: int| 0 <= t < old(self).cells@.len() ==> self.cells@[t]
                == old(self).cells@[t]);
            assert(wf_grid(*self));
        }
    }

    /// Every unit index in every cell within the rounded-up Chebyshev cell
    /// radius of the query position, in grid order: a superset of the
    /// units within the Euclidean ball of the given range.
    pub fn get_nearby(&self, x: i64, y: i64, z: i64, range: i64) -> (r: Vec<usize>)
        requires
            wf_grid(*self),
            -COORD_LIMIT <= x <= COORD_LIMIT,
            -COORD_LIMIT <= y <= COORD_LIMIT,
            -COORD_LIMIT <= z <= COORD_LIMIT,
            0 <= range <= STAT_LIMIT,
        ensures
            r@ == nearby_spec(
                self.cells@,
                cell_key(self.cell_size as int, x as int),
                cell_key(self.cell_size as int, y as int),
                cell_key(self.cell_size as int, z as int),
                grid_radius(self.cell_size as int, range as int),
            ),
    {
        proof {
            lemma_cell_key_bounds(self.cell_size as int, x as int);
            lemma_cell_key_bounds(self.cell_size as int, y as int);
            lemma_cell_key_bounds(self.cell_size as int, z as int);
        }
        let kx = floor_div(x, self.cell_size);
        let ky = floor_div(y, self.cell_size);
        let kz = floor_div(z, self.cell_size);
        let mut rad = ceil_div(range, self.cell_size);
        if rad < 1 {
            rad = 1;
        }
        let mut out: Vec<usize> = Vec::new();
        let mut j: usize = 0;
        while j < self.cells.len()
            invariant
                wf_grid(*self),
                j <= self.cells@.len(),
                -COORD_LIMIT <= kx <= COORD_LIMIT,
                -COORD_LIMIT <= ky <= COORD_LIMIT,
                -COORD_LIMIT <= kz <= COORD_LIMIT,
                kx as int == cell_key(self.cell_size as int, x as int),
                ky as int == cell_key(self.cell_size as int, y as int),
                kz as int == cell_key(self.cell_size as int, z as int),
                rad as int == grid_radius(self.cell_size as int, range as int),
                0 <= rad,
                out@ == nearby_spec(
                    self.cells@.subrange(0, j as int),
                    kx as int,
                    ky as int,
                    kz as int,
                    rad as int,
                ),
            decreases self.cells@.len() - j,
        {
            proof {
                assert(self.cells@.subrange(0, j + 1).drop_last() =~= self.cells@.subrange(
                    0,
                    j as int,
                ));
                assert(self.cells@.subrange(0, j + 1).last() == self.cells@[j as int]);
            }
            let c = &self.cells[j];
            let within = c.cx - kx >= -rad && c.cx - kx <= rad && c.cy - ky >= -rad && c.cy - ky
                <= rad && c.cz - kz >= -rad && c.cz - kz <= rad;
            if within {
                let mut p: usize = 0;
                let ghost out_before = out@;
                while p < c.items.len()
                    invariant
                        p <= c.items@.len(),
                        out@ == out_before + c.items@.subrange(0, p as int),
                    decreases c.items@.len() - p,
                {
                    out.push(c.items[p]);
                    proof {
                        assert(c.items@.subrange(0, p + 1) =~= c.items@.subrange(0, p as int).push(
                            c.items@[p as int],
                        ));
                    }
                    p += 1;
                }
                proof {
                    assert(c.items@.subrange(0, c.items@.len() as int) =~= c.items@);
                }
            }
            j += 1;
        }
        proof {
            assert(self.cells@.subrange(0, self.cells@.len() as int) =~= self.cells@);
        }
        out
    }

    /// Number of occupied cells, and total inserted indices (capped at the
    /// machine limit).
    pub fn stats(&self) -> (r: (usize, usize))
        ensures
            r.0 == self.cells@.len(),
            r.1 == ({
                let t = items_total(self.cells@);
                if t <= usize::MAX {
                    t
                } else {
                    usize::MAX as int
                }
            }),
    {
        let mut total: usize = 0;
        let mut j: usize = 0;
        while j < self.cells.len()
            invariant
                j <= self.cells@.len(),
                total == ({
                    let t = items_total(self.cells@.subrange(0, j as int));
                    if t <= usize::MAX {
                        t
                    } else {
                        usize::MAX as int
                    }
                }),
            decreases self.cells@.len() - j,
        {
            proof {
                assert(self.cells@.subrange(0, j + 1).drop_last() =~= self.cells@.subrange(
                    0,
                    j as int,
                ));
                assert(self.cells@.subrange(0, j + 1).last() == self.cells@[j as int]);
                lemma_items_total_nonneg(self.cells@.subrange(0, j as int));
            }
            let l = self.cells[j].items.len();
            if total > usize::MAX - l {
                total = usize::MAX;
            } else {
                total = total + l;
            }
            j += 1;
        }
        proof {
            assert(self.cells@.subrange(0, self.cells@.len() as int) =~= self.cells@);
        }
        (self.cells.len(), total)
    }
}

/// Total number of indices held across all cells.
pub open spec fn items_total(cells: Seq<GridCell>) -> int
    decreases cells.len(),
{
    if cells.len() == 0 {
        0
    } else {
        items_total(cells.drop_last()) + cells.last().items@.len()
    }
}

pub proof fn lemma_items_total_nonneg(cells: Seq<GridCell>)
    ensures
        items_total(cells) >= 0,
    decreases cells.len(),
{
    if cells.len() > 0 {
        lemma_items_total_nonneg(cells.drop_last());
    }
}

/// Shifting a position by at most `range` moves its cell coordinate by
/// at most the query radius.
proof fn lemma_key_shift(cs: int, x: int, d: int, range: int)
    requires
        1 <= cs,
        0 <= d <= range,
    ensures
        cell_key(cs, x) <= cell_key(cs, x + d) <= cell_key(cs, x) + grid_radius(cs, range),
{
    lemma_div_is_ordered(x, x + d, cs);
    lemma_fundamental_div_mod(x, cs);
    lemma_fundamental_div_mod(x + d, cs);
    let k1 = x / cs;
    let r1 = x % cs;
    lemma_fundamental_div_mod(r1 + d, cs);
    let st = (r1 + d) / cs;
    let r2 = (r1 + d) % cs;
    assert((x + d) / cs == k1 + st) by (nonlinear_arith)
        requires
            1 <= cs,
            x == cs * k1 + r1,
            0 <= r1 < cs,
            r1 + d == cs * st + r2,
            0 <= r2 < cs,
            (x + d) == cs * ((x + d) / cs) + (x + d) % cs,
            0 <= ((x + d) % cs) < cs,
    ;
    lemma_div_is_ordered(r1 + d, range + cs - 1, cs);
    assert(st <= (range + cs - 1) / cs);
}

/// A position within Euclidean `range` of the query position lies in a
/// cell within the query's Chebyshev cell radius.
pub proof fn lemma_ball_in_radius(
    cs: int,
    qx: int,
    qy: int,
    qz: int,
    px: int,
    py: int,
    pz: int,
    range: int,
)
    requires
        1 <= cs,
        0 <= range,
        dist_sq_xyz(px, py, pz, qx, qy, qz) <= sq(range),
    ensures
        -grid_radius(cs, range) <= cell_key(cs, px) - cell_key(cs, qx) <= grid_radius(cs, range),
        -grid_radius(cs, range) <= cell_key(cs, py) - cell_key(cs, qy) <= grid_radius(cs, range),
        -grid_radius(cs, range) <= cell_key(cs, pz) - cell_key(cs, qz) <= grid_radius(cs, range),
{
    assert(-range <= px - qx <= range && -range <= py - qy <= range && -range <= pz - qz
        <= range) by (nonlinear_arith)
        requires
            sq(px - qx) + sq(py - qy) + sq(pz - qz) <= sq(range),
            0 <= range,
    ;
    lemma_axis_in_radius(cs, qx, px, range);
    lemma_axis_in_radius(cs, qy, py, range);
    lemma_axis_in_radius(cs, qz, pz, range);
}

proof fn lemma_axis_in_radius(cs: int, q: int, p: int, range: int)
    requires
        1 <= cs,
        0 <= range,
        -range <= p - q <= range,
    ensures
        -grid_radius(cs, range) <= cell_key(cs, p) - cell_key(cs, q) <= grid_radius(cs, range),
{
    if p >= q {
        lemma_key_shift(cs, q, p - q, range);
    } else {
        lemma_key_shift(cs, p, q - p, range);
    }
}

/// Everything stored in a cell within the Chebyshev radius appears in
/// the query result.
pub proof fn lemma_nearby_includes_cell(
    cells: Seq<GridCell>,
    kx: int,
    ky: int,
    kz: int,
    r: int,
    j: int,
    p: int,
)
    requires
        0 <= j < cells.len(),
        cell_within(cells[j], kx, ky, kz, r),
        0 <= p < cells[j].items@.len(),
    ensures
        nearby_spec(cells, kx, ky, kz, r).contains(cells[j].items@[p]),
    decreases cells.len(),
{
    let last = cells.len() - 1;
    if j == last {
        let prefix = nearby_spec(cells.drop_last(), kx, ky, kz, r);
        assert(nearby_spec(cells, kx, ky, kz, r)[prefix.len() + p] == cells[j].items@[p]);
    } else {
        lemma_nearby_includes_cell(cells.drop_last(), kx, ky, kz, r, j, p);
        let prev = nearby_spec(cells.drop_last(), kx, ky, kz, r);
        let k = choose|k: int| 0 <= k < prev.len() && prev[k] == cells.drop_last()[j].items@[p];
        assert(nearby_spec(cells, kx, ky, kz, r)[k] == prev[k]);
    }
}

/// The grid query covers the Euclidean ball: a unit index stored in the
/// cell of a position within `range` of the query position is always
/// among the returned indices.
pub proof fn lemma_get_nearby_superset(
    g: SpatialGrid,
    qx: int,
    qy: int,
    qz: int,
    px: int,
    py: int,
    pz: int,
    range: int,
    j: int,
    p: int,
)
    requires
        wf_grid(g),
        0 <= range,
        dist_sq_xyz(px, py, pz, qx, qy, qz) <= sq(range),
        0 <= j < g.cells@.len(),
        cell_has_key(
            g.cells@[j],
            cell_key(g.cell_size as int, px),
            cell_key(g.cell_size as int, py),
            cell_key(g.cell_size as int, pz),
        ),
        0 <= p < g.cells@[j].items@.len(),
    ensures
        nearby_spec(
            g.cells@,
            cell_key(g.cell_size as int, qx),
            cell_key(g.cell_size as int, qy),
            cell_key(g.cell_size as int, qz),
            grid_radius(g.cell_size as int, range),
        ).contains(g.cells@[j].items@[p]),
{
    lemma_ball_in_radius(g.cell_size as int, qx, qy, qz, px, py, pz, range);
    lemma_nearby_includes_cell(
        g.cells@,
        cell_key(g.cell_size as int, qx),
        cell_key(g.cell_size as int, qy),
        cell_key(g.cell_size as int, qz),
        grid_radius(g.cell_size as int, range),
        j,
        p,
    );
}

} // verus!
