use vstd::prelude::*;
use crate::battle_unit::{dist_sq_between, dist_sq_units, dist_sq_xyz, sq, wf_unit, BattleUnit};
use crate::tags::copy_bytes;
use crate::targeting::{find_best_spec, find_best_target, lemma_find_best_target_blind,
    same_but_target, same_units_but_targets, valid_candidate};
use crate::weapons::{fire_ok, is_point_defense, pd_tag, shot_damage, try_fire_weapon};
use crate::battle_unit::{apply_damage, dist_units, regen_shield_spec, wf_weapon, Weapon};
use crate::fixed::sat_add_i64;
use crate::spatial_grid::{cell_key, grid_has, wf_grid, SpatialGrid};
use crate::tags::{contains_seq, contains_x, has_prefix, has_prefix_x, lower_seq, lower_vec};
use crate::weapons::{tok_cr, tok_hm, tok_missile, tok_nm, tok_nuke, tok_pr, tok_rocket, tok_sm};
use crate::{COORD_LIMIT, STAT_LIMIT};

verus! {

/// Grid cell edge length (scaled world units).
pub const CELL_SIZE: i64 = 100_000;

/// Ticks between periodic target re-evaluations.
pub const RETARGET_INTERVAL: u64 = 20;

/// Ticks without combat after which a battle is declared a stalemate.
pub const STALEMATE_TICKS: u64 = 1200;

/// Squared displacement (scaled) beyond which an external position update
/// clears the moved unit's target.
pub const MOVE_EPS_SQ: i64 = 10_000;

/// An externally driven position change for one unit.
pub struct PositionUpdate {
    pub id: u32,
    pub x: i64,
    pub y: i64,
    pub z: i64,
    /// Advisory; a large enough displacement always clears the target.
    pub clear_target: bool,
}

/// One weapon discharge reported by a tick.
pub struct WeaponFired {
    pub attacker_id: u32,
    pub target_id: u32,
    pub weapon_type: Vec<u8>,
    pub impact_time: u32,
}

/// A unit whose displacement this tick was significant.
pub struct MovedUnit {
    pub id: u32,
    pub x: i64,
    pub y: i64,
    pub z: i64,
}

/// A unit that took damage this tick and survived.
pub struct DamagedUnit {
    pub id: u32,
    pub hp: i64,
    pub shield: i64,
}

/// The report of one tick.
pub struct TickResult {
    pub moved: Vec<MovedUnit>,
    pub damaged: Vec<DamagedUnit>,
    pub destroyed: Vec<u32>,
    pub tick: u64,
    pub weapons_fired: Vec<WeaponFired>,
}

/// One planned hit, queued between the fire pass and the damage pass.
pub struct DamageEntry {
    pub target_idx: usize,
    pub damage: i64,
    pub attacker_idx: usize,
}

/// The battle simulator: unit storage, the spatial grid, and the tick and
/// stalemate counters.
pub struct BattleSimulator {
    pub units: Vec<BattleUnit>,
    pub grid: SpatialGrid,
    pub tick: u64,
    pub last_combat_tick: u64,
}

/// Every unit is well formed and ids are pairwise distinct.
pub open spec fn wf_units(units: Seq<BattleUnit>) -> bool {
    &&& forall|i: int| 0 <= i < units.len() ==> wf_unit(#[trigger] units[i])
    &&& forall|i: int, j: int| 0 <= i < j < units.len() ==> (#[trigger] units[i]).id != (
    #[trigger] units[j]).id
}

/// A set target names a living unit of another faction, never the holder
/// itself.
pub open spec fn target_ok(units: Seq<BattleUnit>, i: int) -> bool {
    match units[i].target_id {
        Option::None => true,
        Option::Some(t) => t != units[i].id && exists|j: int|
            0 <= j < units.len() && (#[trigger] units[j]).id == t && units[j].alive
                && units[j].faction_id != units[i].faction_id,
    }
}

pub open spec fn targets_ok(units: Seq<BattleUnit>) -> bool {
    forall|i: int| 0 <= i < units.len() ==> target_ok(units, i)
}

/// The grid is exactly the rebuild over the unit storage: every entry is
/// a living unit index filed under the cell of its position, indices
/// within a cell ascend (insertion order), cells stand in order of their
/// first insertion, and every living unit is present.
#[verifier::opaque]
pub open spec fn grid_rebuilt(g: SpatialGrid, units: Seq<BattleUnit>, cs: int) -> bool {
    &&& g.cell_size == cs
    &&& forall|j: int| 0 <= j < g.cells@.len() ==> (#[trigger] g.cells@[j]).items@.len() > 0
    &&& forall|j: int, p: int|
        0 <= j < g.cells@.len() && 0 <= p < g.cells@[j].items@.len() ==> (
        #[trigger] g.cells@[j].items@[p]) < units.len() && units[g.cells@[j].items@[p] as int].alive
            && g.cells@[j].cx == cell_key(cs, units[g.cells@[j].items@[p] as int].pos_x as int)
            && g.cells@[j].cy == cell_key(cs, units[g.cells@[j].items@[p] as int].pos_y as int)
            && g.cells@[j].cz == cell_key(cs, units[g.cells@[j].items@[p] as int].pos_z as int)
    &&& forall|i: int| 0 <= i < units.len() && (#[trigger] units[i]).alive ==> grid_has(
        g,
        i as usize,
    )
    &&& forall|j: int, p: int, p2: int|
        0 <= j < g.cells@.len() && 0 <= p < p2 < g.cells@[j].items@.len() ==> (
        #[trigger] g.cells@[j].items@[p]) < (#[trigger] g.cells@[j].items@[p2])
    &&& forall|j1: int, j2: int| 0 <= j1 < j2 < g.cells@.len() ==> (
    #[trigger] g.cells@[j1]).items@[0] < (#[trigger] g.cells@[j2]).items@[0]
}

/// The grid holds exactly the indices of the living units.
pub open spec fn grid_maps(g: SpatialGrid, units: Seq<BattleUnit>) -> bool {
    &&& forall|idx: usize| #[trigger] grid_has(g, idx) ==> idx < units.len()
        && units[idx as int].alive
    &&& forall|i: int| 0 <= i < units.len() && (#[trigger] units[i]).alive ==> grid_has(
        g,
        i as usize,
    )
}

/// The simulator's between-calls invariant.
pub open spec fn wf_sim(s: BattleSimulator) -> bool {
    &&& wf_units(s.units@)
    &&& targets_ok(s.units@)
    &&& wf_grid(s.grid)
    &&& s.grid.cell_size == CELL_SIZE
    &&& s.last_combat_tick <= s.tick
}

impl BattleSimulator {
    /// Build a simulator over a batch of ingested units. The ingress
    /// boundary has already normalized and checked each record and
    /// strips any preset target.
    pub fn new(units: Vec<BattleUnit>) -> (r: BattleSimulator)
        requires
            wf_units(units@),
            forall|i: int| 0 <= i < units@.len() ==> (#[trigger] units@[i]).target_id is None,
        ensures
            wf_sim(r),
            r.units@ == units@,
            r.tick == 0,
            r.last_combat_tick == 0,
            r.grid.cells@.len() == 0,
            r.grid.cell_size == CELL_SIZE,
    {
        BattleSimulator {
            units,
            grid: SpatialGrid::new(CELL_SIZE),
            tick: 0,
            last_combat_tick: 0,
        }
    }

    /// Add one ingested unit mid-battle; its id must be fresh and its
    /// target not yet set.
    pub fn add_unit(&mut self, unit: BattleUnit)
        requires
            wf_sim(*old(self)),
            wf_unit(unit),
            unit.target_id is None,
            forall|i: int| 0 <= i < old(self).units@.len() ==> (#[trigger] old(
                self,
            ).units@[i]).id != unit.id,
        ensures
            wf_sim(*final(self)),
            final(self).units@ == old(self).units@.push(unit),
            final(self).tick == old(self).tick,
            final(self).last_combat_tick == old(self).last_combat_tick,
            final(self).grid == old(self).grid,
    {
        self.units.push(unit);
        proof {
            assert forall|i: int| 0 <= i < self.units@.len() implies target_ok(self.units@, i) by {
                if i < old(self).units@.len() {
                    assert(target_ok(old(self).units@, i));
                    match old(self).units@[i].target_id {
                        Option::None => {},
                        Option::Some(t) => {
                            let j = choose|j: int|
                                0 <= j < old(self).units@.len() && (#[trigger] old(
                                    self,
                                ).units@[j]).id == t && old(self).units@[j].alive && old(
                                    self,
                                ).units@[j].faction_id != old(self).units@[i].faction_id;
                            assert(self.units@[j].id == t);
                        },
                    }
                }
            }
        }
    }

    /// Rebuild the spatial grid so that it holds exactly the living units,
    /// each filed under the cell of its position.
    fn rebuild_spatial_grid(&mut self)
        requires
            wf_units(old(self).units@),
            wf_grid(old(self).grid),
            0 < old(self).grid.cell_size <= STAT_LIMIT,
        ensures
            final(self).units@ == old(self).units@,
            final(self).tick == old(self).tick,
            final(self).last_combat_tick == old(self).last_combat_tick,
            wf_grid(final(self).grid),
            final(self).grid.cell_size == old(self).grid.cell_size,
            grid_maps(final(self).grid, final(self).units@),
            grid_rebuilt(final(self).grid, final(self).units@, old(self).grid.cell_size as int),
    {
        self.grid.clear();
        let n = self.units.len();
        let mut i: usize = 0;
        while i < n
            invariant
                self.units@ == old(self).units@,
                self.tick == old(self).tick,
                self.last_combat_tick == old(self).last_combat_tick,
                wf_units(self.units@),
                wf_grid(self.grid),
                self.grid.cell_size == old(self).grid.cell_size,
                0 < self.grid.cell_size <= STAT_LIMIT,
                n == self.units@.len(),
                i <= n,
                forall|idx: usize| #[trigger] grid_has(self.grid, idx) ==> idx < i
                    && self.units@[idx as int].alive,
                forall|t: int| 0 <= t < i && (#[trigger] self.units@[t]).alive ==> grid_has(
                    self.grid,
                    t as usize,
                ),
                forall|j: int| 0 <= j < self.grid.cells@.len() ==> (
                #[trigger] self.grid.cells@[j]).items@.len() > 0,
                forall|j: int, p: int|
                    0 <= j < self.grid.cells@.len() && 0 <= p < self.grid.cells@[j].items@.len()
                        ==> (#[trigger] self.grid.cells@[j].items@[p]) < i
                        && self.units@[self.grid.cells@[j].items@[p] as int].alive
                        && self.grid.cells@[j].cx == cell_key(
                        self.grid.cell_size as int,
                        self.units@[self.grid.cells@[j].items@[p] as int].pos_x as int,
                    ) && self.grid.cells@[j].cy == cell_key(
                        self.grid.cell_size as int,
                        self.units@[self.grid.cells@[j].items@[p] as int].pos_y as int,
                    ) && self.grid.cells@[j].cz == cell_key(
                        self.grid.cell_size as int,
                        self.units@[self.grid.cells@[j].items@[p] as int].pos_z as int,
                    ),
                forall|j: int, p: int, p2: int|
                    0 <= j < self.grid.cells@.len() && 0 <= p < p2
                        < self.grid.cells@[j].items@.len() ==> (
                    #[trigger] self.grid.cells@[j].items@[p]) < (
                    #[trigger] self.grid.cells@[j].items@[p2]),
                forall|j1: int, j2: int| 0 <= j1 < j2 < self.grid.cells@.len() ==> (
                #[trigger] self.grid.cells@[j1]).items@[0] < (
                #[trigger] self.grid.cells@[j2]).items@[0],
            decreases n - i,
        {
            let alive = self.units[i].alive;
            if alive {
                let (x, y, z) = (self.units[i].pos_x, self.units[i].pos_y, self.units[i].pos_z);
                let ghost g0 = self.grid;
                self.grid.insert(i, x, y, z);
                proof {
                    lemma_insert_membership(g0, self.grid, i, x as int, y as int, z as int);
                    let cs = self.grid.cell_size as int;
                    let kx = cell_key(cs, x as int);
                    let ky = cell_key(cs, y as int);
                    let kz = cell_key(cs, z as int);
                    let hit = crate::spatial_grid::has_cell(g0.cells@, kx, ky, kz);
                    assert forall|j: int| 0 <= j < self.grid.cells@.len() implies (
                    #[trigger] self.grid.cells@[j]).items@.len() > 0 by {
                        if j < g0.cells@.len() {
                            if hit && crate::spatial_grid::cell_has_key(g0.cells@[j], kx, ky,
                                kz) {
                                assert(self.grid.cells@[j].items@
                                    == g0.cells@[j].items@.push(i));
                            } else {
                                assert(self.grid.cells@[j] == g0.cells@[j]);
                            }
                        } else {
                            assert(!hit);
                            assert(self.grid.cells@[j].items@ =~= seq![i]);
                        }
                    }
                    assert forall|j: int, p: int|
                        0 <= j < self.grid.cells@.len() && 0 <= p
                            < self.grid.cells@[j].items@.len() implies (
                    #[trigger] self.grid.cells@[j].items@[p]) < i + 1
                        && self.units@[self.grid.cells@[j].items@[p] as int].alive
                        && self.grid.cells@[j].cx == cell_key(
                        cs,
                        self.units@[self.grid.cells@[j].items@[p] as int].pos_x as int,
                    ) && self.grid.cells@[j].cy == cell_key(
                        cs,
                        self.units@[self.grid.cells@[j].items@[p] as int].pos_y as int,
                    ) && self.grid.cells@[j].cz == cell_key(
                        cs,
                        self.units@[self.grid.cells@[j].items@[p] as int].pos_z as int,
                    ) by {
                        if j < g0.cells@.len() {
                            if hit && crate::spatial_grid::cell_has_key(g0.cells@[j], kx, ky,
                                kz) {
                                assert(self.grid.cells@[j].items@
                                    == g0.cells@[j].items@.push(i));
                                assert(crate::spatial_grid::cell_has_key(self.grid.cells@[j],
                                    kx, ky, kz));
                                if p < g0.cells@[j].items@.len() {
                                    assert(self.grid.cells@[j].items@[p]
                                        == g0.cells@[j].items@[p]);
                                } else {
                                    assert(self.grid.cells@[j].items@[p] == i);
                                }
                            } else {
                                assert(self.grid.cells@[j] == g0.cells@[j]);
                            }
                        } else {
                            assert(!hit);
                            assert(self.grid.cells@[j].items@ =~= seq![i]);
                            assert(self.grid.cells@[j].items@[p] == i);
                            assert(crate::spatial_grid::cell_has_key(self.grid.cells@[j], kx,
                                ky, kz));
                        }
                    }
                    assert forall|j: int, p: int, p2: int|
                        0 <= j < self.grid.cells@.len() && 0 <= p < p2
                            < self.grid.cells@[j].items@.len() implies (
                    #[trigger] self.grid.cells@[j].items@[p]) < (
                    #[trigger] self.grid.cells@[j].items@[p2]) by {
                        if j < g0.cells@.len() {
                            if hit && crate::spatial_grid::cell_has_key(g0.cells@[j], kx, ky,
                                kz) {
                                assert(self.grid.cells@[j].items@
                                    == g0.cells@[j].items@.push(i));
                                if p2 < g0.cells@[j].items@.len() {
                                    assert(self.grid.cells@[j].items@[p]
                                        == g0.cells@[j].items@[p]
                                        && self.grid.cells@[j].items@[p2]
                                        == g0.cells@[j].items@[p2]);
                                } else {
                                    assert(self.grid.cells@[j].items@[p]
                                        == g0.cells@[j].items@[p]
                                        && self.grid.cells@[j].items@[p2] == i);
                                    assert(g0.cells@[j].items@[p] < i);
                                }
                            } else {
                                assert(self.grid.cells@[j] == g0.cells@[j]);
                            }
                        } else {
                            assert(self.grid.cells@[j].items@ =~= seq![i]);
                        }
                    }
                    assert forall|j1: int, j2: int|
                        0 <= j1 < j2 < self.grid.cells@.len() implies (
                    #[trigger] self.grid.cells@[j1]).items@[0] < (
                    #[trigger] self.grid.cells@[j2]).items@[0] by {
                        if hit {
                            assert forall|j: int|
                                0 <= j < self.grid.cells@.len() implies self.grid.cells@[j].items@[0]
                                == g0.cells@[j].items@[0] by {
                                if crate::spatial_grid::cell_has_key(g0.cells@[j], kx, ky, kz) {
                                    assert(self.grid.cells@[j].items@
                                        == g0.cells@[j].items@.push(i));
                                    assert(g0.cells@[j].items@.len() > 0);
                                } else {
                                    assert(self.grid.cells@[j] == g0.cells@[j]);
                                }
                            }
                        } else {
                            if j2 < g0.cells@.len() {
                                assert(self.grid.cells@[j1] == g0.cells@[j1]
                                    && self.grid.cells@[j2] == g0.cells@[j2]);
                            } else {
                                assert(self.grid.cells@[j1] == g0.cells@[j1]);
                                assert(self.grid.cells@[j2].items@ =~= seq![i]);
                                assert(g0.cells@[j1].items@[0] < i);
                            }
                        }
                    }
                }
            }
            i += 1;
        }
        proof {
            reveal(grid_rebuilt);
        }
    }

    /// Clear the target of every living unit that has one; the count of
    /// targets cleared is returned.
    pub fn force_retarget_all(&mut self) -> (r: u32)
        requires
            wf_sim(*old(self)),
            old(self).units@.len() <= u32::MAX,
        ensures
            wf_sim(*final(self)),
            final(self).units@.len() == old(self).units@.len(),
            forall|i: int| 0 <= i < old(self).units@.len() ==> final(self).units@[i] == (
            if old(self).units@[i].alive && old(self).units@[i].target_id is Some {
                BattleUnit { target_id: Option::None, ..old(self).units@[i] }
            } else {
                old(self).units@[i]
            }),
            r == cleared_count(old(self).units@, old(self).units@.len() as int),
            final(self).tick == old(self).tick,
            final(self).last_combat_tick == old(self).last_combat_tick,
            final(self).grid == old(self).grid,
    {
        let mut changed: u32 = 0;
        let n = self.units.len();
        let mut i: usize = 0;
        while i < n
            invariant
                n == self.units@.len(),
                self.units@.len() == old(self).units@.len(),
                self.units@.len() <= u32::MAX,
                i <= n,
                self.tick == old(self).tick,
                self.last_combat_tick == old(self).last_combat_tick,
                self.grid == old(self).grid,
                changed == cleared_count(old(self).units@, i as int),
                changed <= i,
                forall|t: int| 0 <= t < i ==> self.units@[t] == (
                if old(self).units@[t].alive && old(self).units@[t].target_id is Some {
                    BattleUnit { target_id: Option::None, ..old(self).units@[t] }
                } else {
                    old(self).units@[t]
                }),
                forall|t: int| i <= t < n ==> self.units@[t] == old(self).units@[t],
            decreases n - i,
        {
            let do_clear = self.units[i].alive && self.units[i].target_id.is_some();
            if do_clear {
                let u = unit_mut(&mut self.units, i);
                u.target_id = None;
                changed = changed + 1;
            }
            i += 1;
        }
        proof {
            assert forall|i: int| 0 <= i < self.units@.len() implies wf_unit(
                #[trigger] self.units@[i],
            ) by {
                assert(wf_unit(old(self).units@[i]));
            }
            assert forall|i: int| 0 <= i < self.units@.len() implies target_ok(self.units@, i) by {
                lemma_target_ok_after_clears(old(self).units@, self.units@, i);
            }
        }
        changed
    }

    /// Clear one living unit's target, by id; whether the unit was found.
    pub fn force_retarget_unit(&mut self, unit_id: u32) -> (r: bool)
        requires
            wf_sim(*old(self)),
        ensures
            wf_sim(*final(self)),
            final(self).units@.len() == old(self).units@.len(),
            r == exists|j: int| 0 <= j < old(self).units@.len() && (#[trigger] old(
                self,
            ).units@[j]).id == unit_id && old(self).units@[j].alive,
            forall|i: int| 0 <= i < old(self).units@.len() ==> final(self).units@[i] == (
            if old(self).units@[i].id == unit_id && old(self).units@[i].alive {
                BattleUnit { target_id: Option::None, ..old(self).units@[i] }
            } else {
                old(self).units@[i]
            }),
            final(self).tick == old(self).tick,
            final(self).last_combat_tick == old(self).last_combat_tick,
            final(self).grid == old(self).grid,
    {
        let n = self.units.len();
        let mut i: usize = 0;
        let mut found = false;
        while i < n
            invariant
                n == self.units@.len(),
                self.units@.len() == old(self).units@.len(),
                wf_units(old(self).units@),
                i <= n,
                self.tick == old(self).tick,
                self.last_combat_tick == old(self).last_combat_tick,
                self.grid == old(self).grid,
                !found ==> self.units@ == old(self).units@ && forall|t: int| 0 <= t < i ==> !((
                #[trigger] old(self).units@[t]).id == unit_id && old(self).units@[t].alive),
                found ==> exists|j: int| 0 <= j < i && (#[trigger] old(self).units@[j]).id
                    == unit_id && old(self).units@[j].alive,
                found ==> forall|t: int| 0 <= t < n ==> self.units@[t] == (
                if old(self).units@[t].id == unit_id && old(self).units@[t].alive {
                    BattleUnit { target_id: Option::None, ..old(self).units@[t] }
                } else {
                    old(self).units@[t]
                }),
            decreases n - i,
        {
            if !found {
                let hit = self.units[i].id == unit_id && self.units[i].alive;
                if hit {
                    let u = unit_mut(&mut self.units, i);
                    u.target_id = None;
                    found = true;
                    proof {
                        assert forall|t: int| 0 <= t < n implies self.units@[t] == (
                        if old(self).units@[t].id == unit_id && old(self).units@[t].alive {
                            BattleUnit { target_id: Option::None, ..old(self).units@[t] }
                        } else {
                            old(self).units@[t]
                        }) by {
                            if t != i as int && old(self).units@[t].id == unit_id && old(
                                self,
                            ).units@[t].alive {
                                assert(old(self).units@[t].id != old(self).units@[i as int].id);
                            }
                        }
                    }
                }
            }
            i += 1;
        }
        proof {
            assert forall|i: int| 0 <= i < self.units@.len() implies wf_unit(
                #[trigger] self.units@[i],
            ) by {
                assert(wf_unit(old(self).units@[i]));
            }
            assert forall|i: int| 0 <= i < self.units@.len() implies target_ok(self.units@, i) by {
                lemma_target_ok_after_clears(old(self).units@, self.units@, i);
            }
        }
        found
    }
}

/// Number of living units with a set target among the first `n`.
pub open spec fn cleared_count(units: Seq<BattleUnit>, n: int) -> int
    decreases n,
{
    if n <= 0 {
        0
    } else {
        cleared_count(units, n - 1) + (if units[n - 1].alive && units[n - 1].target_id is Some {
            1int
        } else {
            0int
        })
    }
}

/// Mutable access to one unit.
fn unit_mut(units: &mut Vec<BattleUnit>, i: usize) -> (u: &mut BattleUnit)
    requires
        i < old(units)@.len(),
    ensures
        *u == old(units)@[i as int],
        final(units)@ == old(units)@.update(i as int, *final(u)),
{
    &mut units[i]
}

/// Target validity survives any step that keeps each unit's identity,
/// liveness and faction, and either keeps or clears each target.
proof fn lemma_target_ok_after_clears(pre: Seq<BattleUnit>, post: Seq<BattleUnit>, i: int)
    requires
        pre.len() == post.len(),
        0 <= i < post.len(),
        targets_ok(pre),
        forall|t: int| 0 <= t < pre.len() ==> (#[trigger] post[t]).id == pre[t].id
            && post[t].alive == pre[t].alive && post[t].faction_id == pre[t].faction_id,
        post[i].target_id == pre[i].target_id || post[i].target_id is None,
    ensures
        target_ok(post, i),
{
    assert(target_ok(pre, i));
    match post[i].target_id {
        Option::None => {},
        Option::Some(t) => {
            assert(pre[i].target_id == Option::Some(t));
            let j = choose|j: int|
                0 <= j < pre.len() && (#[trigger] pre[j]).id == t && pre[j].alive
                    && pre[j].faction_id != pre[i].faction_id;
            assert(post[j].id == t && post[j].alive && post[j].faction_id != post[i].faction_id);
        },
    }
}

/// How one insertion changes grid membership: the inserted index joins,
/// everything else stays exactly as it was.
proof fn lemma_insert_membership(g0: SpatialGrid, g1: SpatialGrid, index: usize, x: int, y: int, z: int)
    requires
        wf_grid(g0),
        -COORD_LIMIT <= x <= COORD_LIMIT,
        -COORD_LIMIT <= y <= COORD_LIMIT,
        -COORD_LIMIT <= z <= COORD_LIMIT,
        crate::spatial_grid::insert_effect(g0, g1, index, x, y, z),
    ensures
        forall|t: usize| #[trigger] grid_has(g1, t) <==> grid_has(g0, t) || t == index,
{
    let kx = crate::spatial_grid::cell_key(g0.cell_size as int, x);
    let ky = crate::spatial_grid::cell_key(g0.cell_size as int, y);
    let kz = crate::spatial_grid::cell_key(g0.cell_size as int, z);
    if crate::spatial_grid::has_cell(g0.cells@, kx, ky, kz) {
        assert forall|t: usize| #[trigger] grid_has(g1, t) implies grid_has(g0, t) || t
            == index by {
            let (j, p) = choose|j: int, p: int|
                0 <= j < g1.cells@.len() && 0 <= p < g1.cells@[j].items@.len()
                    && #[trigger] g1.cells@[j].items@[p] == t;
            if crate::spatial_grid::cell_has_key(g0.cells@[j], kx, ky, kz) {
                if p < g0.cells@[j].items@.len() {
                    assert(g0.cells@[j].items@[p] == t);
                } else {
                    assert(t == index);
                }
            } else {
                assert(g0.cells@[j].items@[p] == t);
            }
        }
        assert forall|t: usize| grid_has(g0, t) || t == index implies #[trigger] grid_has(
            g1,
            t,
        ) by {
            if grid_has(g0, t) {
                let (j, p) = choose|j: int, p: int|
                    0 <= j < g0.cells@.len() && 0 <= p < g0.cells@[j].items@.len()
                        && #[trigger] g0.cells@[j].items@[p] == t;
                if crate::spatial_grid::cell_has_key(g0.cells@[j], kx, ky, kz) {
                    assert(g1.cells@[j].items@[p] == t);
                } else {
                    assert(g1.cells@[j].items@[p] == t);
                }
            } else {
                let j = choose|j: int|
                    0 <= j < g0.cells@.len() && crate::spatial_grid::cell_has_key(
                        #[trigger] g0.cells@[j],
                        kx,
                        ky,
                        kz,
                    );
                assert(g1.cells@[j].items@[g0.cells@[j].items@.len() as int] == index);
            }
        }
    } else {
        assert forall|t: usize| #[trigger] grid_has(g1, t) implies grid_has(g0, t) || t
            == index by {
            let (j, p) = choose|j: int, p: int|
                0 <= j < g1.cells@.len() && 0 <= p < g1.cells@[j].items@.len()
                    && #[trigger] g1.cells@[j].items@[p] == t;
            if j < g0.cells@.len() {
                assert(g0.cells@[j].items@[p] == t);
            } else {
                assert(g1.cells@[j].items@ =~= seq![index]);
                assert(t == index);
            }
        }
        assert forall|t: usize| grid_has(g0, t) || t == index implies #[trigger] grid_has(
            g1,
            t,
        ) by {
            if grid_has(g0, t) {
                let (j, p) = choose|j: int, p: int|
                    0 <= j < g0.cells@.len() && 0 <= p < g0.cells@[j].items@.len()
                        && #[trigger] g0.cells@[j].items@[p] == t;
                assert(g1.cells@[j].items@[p] == t);
            } else {
                assert(g1.cells@[g0.cells@.len() as int].items@[0] == index);
            }
        }
    }
}

/// A unit after an external position update: placed at the new position,
/// velocity zeroed, target cleared when the displacement is significant.
pub open spec fn moved_unit_spec(u: BattleUnit, x: int, y: int, z: int) -> BattleUnit {
    let cleared = u.target_id is Some && dist_sq_xyz(
        x,
        y,
        z,
        u.pos_x as int,
        u.pos_y as int,
        u.pos_z as int,
    ) > MOVE_EPS_SQ;
    BattleUnit {
        pos_x: x as i64,
        pos_y: y as i64,
        pos_z: z as i64,
        vel_x: 0,
        vel_y: 0,
        vel_z: 0,
        target_id: if cleared {
            Option::None
        } else {
            u.target_id
        },
        ..u
    }
}

/// Some living unit bears this id.
pub open spec fn has_live_id(units: Seq<BattleUnit>, id: u32) -> bool {
    exists|j: int| 0 <= j < units.len() && (#[trigger] units[j]).id == id && units[j].alive
}

/// The unit sequence after one external position update.
pub open spec fn apply_update_spec(units: Seq<BattleUnit>, up: PositionUpdate) -> Seq<BattleUnit> {
    Seq::new(
        units.len(),
        |i: int|
            if units[i].id == up.id && units[i].alive {
                moved_unit_spec(units[i], up.x as int, up.y as int, up.z as int)
            } else {
                units[i]
            },
    )
}

/// The unit sequence after a batch of external position updates.
pub open spec fn apply_updates_spec(units: Seq<BattleUnit>, ups: Seq<PositionUpdate>) -> Seq<
    BattleUnit,
>
    decreases ups.len(),
{
    if ups.len() == 0 {
        units
    } else {
        apply_update_spec(apply_updates_spec(units, ups.drop_last()), ups.last())
    }
}

/// How many of the updates name a living unit.
pub open spec fn applied_count_spec(units: Seq<BattleUnit>, ups: Seq<PositionUpdate>) -> int
    decreases ups.len(),
{
    if ups.len() == 0 {
        0
    } else {
        applied_count_spec(units, ups.drop_last()) + (if has_live_id(units, ups.last().id) {
            1int
        } else {
            0int
        })
    }
}

impl BattleSimulator {
    /// Apply one external position change to the living unit with the
    /// given id, zeroing its velocity and, when it moved far enough,
    /// clearing its target so that it re-acquires at the new position.
    pub fn update_single_position(
        &mut self,
        unit_id: u32,
        x: i64,
        y: i64,
        z: i64,
        clear_target: bool,
    ) -> (r: bool)
        requires
            wf_sim(*old(self)),
            -COORD_LIMIT <= x <= COORD_LIMIT,
            -COORD_LIMIT <= y <= COORD_LIMIT,
            -COORD_LIMIT <= z <= COORD_LIMIT,
        ensures
            wf_sim(*final(self)),
            final(self).units@.len() == old(self).units@.len(),
            r == has_live_id(old(self).units@, unit_id),
            forall|i: int| 0 <= i < old(self).units@.len() ==> final(self).units@[i] == (
            if old(self).units@[i].id == unit_id && old(self).units@[i].alive {
                moved_unit_spec(old(self).units@[i], x as int, y as int, z as int)
            } else {
                old(self).units@[i]
            }),
            final(self).tick == old(self).tick,
            final(self).last_combat_tick == old(self).last_combat_tick,
            final(self).grid == old(self).grid,
    {
        let n = self.units.len();
        let mut i: usize = 0;
        let mut found = false;
        while i < n
            invariant
                n == self.units@.len(),
                self.units@.len() == old(self).units@.len(),
                wf_units(old(self).units@),
                -COORD_LIMIT <= x <= COORD_LIMIT,
                -COORD_LIMIT <= y <= COORD_LIMIT,
                -COORD_LIMIT <= z <= COORD_LIMIT,
                i <= n,
                self.tick == old(self).tick,
                self.last_combat_tick == old(self).last_combat_tick,
                self.grid == old(self).grid,
                !found ==> self.units@ == old(self).units@ && forall|t: int| 0 <= t < i ==> !((
                #[trigger] old(self).units@[t]).id == unit_id && old(self).units@[t].alive),
                found ==> exists|j: int| 0 <= j < i && (#[trigger] old(self).units@[j]).id
                    == unit_id && old(self).units@[j].alive,
                found ==> forall|t: int| 0 <= t < n ==> self.units@[t] == (
                if old(self).units@[t].id == unit_id && old(self).units@[t].alive {
                    moved_unit_spec(old(self).units@[t], x as int, y as int, z as int)
                } else {
                    old(self).units@[t]
                }),
            decreases n - i,
        {
            if !found {
                let hit = self.units[i].id == unit_id && self.units[i].alive;
                if hit {
                    let (ox, oy, oz) = (
                        self.units[i].pos_x,
                        self.units[i].pos_y,
                        self.units[i].pos_z,
                    );
                    let move_dist_sq = dist_sq_between(x, y, z, ox, oy, oz);
                    let had_target = self.units[i].target_id.is_some();
                    let u = unit_mut(&mut self.units, i);
                    u.pos_x = x;
                    u.pos_y = y;
                    u.pos_z = z;
                    u.vel_x = 0;
                    u.vel_y = 0;
                    u.vel_z = 0;
                    if had_target && move_dist_sq > (MOVE_EPS_SQ as u128) {
                        u.target_id = None;
                    }
                    found = true;
                    proof {
                        assert forall|t: int| 0 <= t < n implies self.units@[t] == (
                        if old(self).units@[t].id == unit_id && old(self).units@[t].alive {
                            moved_unit_spec(old(self).units@[t], x as int, y as int, z as int)
                        } else {
                            old(self).units@[t]
                        }) by {
                            if t != i as int && old(self).units@[t].id == unit_id && old(
                                self,
                            ).units@[t].alive {
                                assert(old(self).units@[t].id != old(self).units@[i as int].id);
                            }
                        }
                    }
                }
            }
            i += 1;
        }
        proof {
            assert forall|i: int| 0 <= i < self.units@.len() implies wf_unit(
                #[trigger] self.units@[i],
            ) by {
                assert(wf_unit(old(self).units@[i]));
            }
            assert forall|i: int| 0 <= i < self.units@.len() implies target_ok(self.units@, i) by {
                lemma_target_ok_after_clears(old(self).units@, self.units@, i);
            }
        }
        found
    }

    /// Apply a batch of external position updates; the grid is rebuilt
    /// when any unit moved. The count of units updated is returned.
    pub fn update_positions(&mut self, updates: &Vec<PositionUpdate>) -> (r: u32)
        requires
            wf_sim(*old(self)),
            updates@.len() <= u32::MAX,
            forall|k: int| 0 <= k < updates@.len() ==> -COORD_LIMIT <= (
            #[trigger] updates@[k]).x <= COORD_LIMIT && -COORD_LIMIT <= updates@[k].y
                <= COORD_LIMIT && -COORD_LIMIT <= updates@[k].z <= COORD_LIMIT,
        ensures
            wf_sim(*final(self)),
            final(self).units@ == apply_updates_spec(old(self).units@, updates@),
            r == applied_count_spec(old(self).units@, updates@),
            r > 0 ==> grid_maps(final(self).grid, final(self).units@),
            final(self).tick == old(self).tick,
            final(self).last_combat_tick == old(self).last_combat_tick,
    {
        let mut count: u32 = 0;
        let mut k: usize = 0;
        let m = updates.len();
        while k < m
            invariant
                wf_sim(*self),
                m == updates@.len(),
                updates@.len() <= u32::MAX,
                k <= m,
                forall|t: int| 0 <= t < updates@.len() ==> -COORD_LIMIT <= (
                #[trigger] updates@[t]).x <= COORD_LIMIT && -COORD_LIMIT <= updates@[t].y
                    <= COORD_LIMIT && -COORD_LIMIT <= updates@[t].z <= COORD_LIMIT,
                self.units@ == apply_updates_spec(old(self).units@, updates@.subrange(0, k as int)),
                count == applied_count_spec(old(self).units@, updates@.subrange(0, k as int)),
                count <= k,
                self.units@.len() == old(self).units@.len(),
                forall|t: int| 0 <= t < old(self).units@.len() ==> (#[trigger] self.units@[t]).id
                    == old(self).units@[t].id && self.units@[t].alive == old(self).units@[t].alive,
                self.tick == old(self).tick,
                self.last_combat_tick == old(self).last_combat_tick,
                self.grid == old(self).grid,
            decreases m - k,
        {
            proof {
                assert(updates@.subrange(0, k + 1).drop_last() =~= updates@.subrange(0, k as int));
                assert(updates@.subrange(0, k + 1).last() == updates@[k as int]);
            }
            let up_id = updates[k].id;
            let (ux, uy, uz) = (updates[k].x, updates[k].y, updates[k].z);
            let uc = updates[k].clear_target;
            let ghost pre_units = self.units@;
            let ok = self.update_single_position(up_id, ux, uy, uz, uc);
            proof {
                assert(self.units@ =~= apply_update_spec(pre_units, updates@[k as int]));
                if ok {
                    let j = choose|j: int|
                        0 <= j < pre_units.len() && (#[trigger] pre_units[j]).id == up_id
                            && pre_units[j].alive;
                    assert(old(self).units@[j].id == up_id && old(self).units@[j].alive);
                } else {
                    if has_live_id(old(self).units@, up_id) {
                        let j = choose|j: int|
                            0 <= j < old(self).units@.len() && (#[trigger] old(
                                self,
                            ).units@[j]).id == up_id && old(self).units@[j].alive;
                        assert(pre_units[j].id == up_id && pre_units[j].alive);
                    }
                }
            }
            if ok {
                count = count + 1;
            }
            k += 1;
        }
        proof {
            assert(updates@.subrange(0, updates@.len() as int) =~= updates@);
        }
        if count > 0 {
            self.rebuild_spatial_grid();
        }
        count
    }
}

/// Some living unit belongs to this faction.
pub open spec fn live_faction(units: Seq<BattleUnit>, f: u32) -> bool {
    exists|i: int| 0 <= i < units.len() && (#[trigger] units[i]).alive && units[i].faction_id == f
}

/// At least two factions still have living units.
pub open spec fn multiple_live(units: Seq<BattleUnit>) -> bool {
    exists|f: u32, g: u32|
        f != g && #[trigger] live_faction(units, f) && #[trigger] live_faction(units, g)
}

/// Living units of faction `f` among the first `n`.
pub open spec fn count_alive(units: Seq<BattleUnit>, f: u32, n: int) -> int
    decreases n,
{
    if n <= 0 {
        0
    } else {
        count_alive(units, f, n - 1) + (if units[n - 1].alive && units[n - 1].faction_id == f {
            1int
        } else {
            0int
        })
    }
}

/// The per-faction tallies of the first `n` units, in order of first
/// living appearance.
pub open spec fn counts_spec(units: Seq<BattleUnit>, n: int) -> Seq<(u32, int)>
    decreases n,
{
    if n <= 0 {
        Seq::empty()
    } else {
        let prev = counts_spec(units, n - 1);
        let u = units[n - 1];
        if !u.alive {
            prev
        } else if exists|k: int| 0 <= k < prev.len() && (#[trigger] prev[k]).0 == u.faction_id {
            Seq::new(
                prev.len(),
                |k: int|
                    if prev[k].0 == u.faction_id {
                        (prev[k].0, prev[k].1 + 1)
                    } else {
                        prev[k]
                    },
            )
        } else {
            prev.push((u.faction_id, 1))
        }
    }
}

/// The first tally holding the strictly largest count.
pub open spec fn pick_best_count(counts: Seq<(u32, int)>, n: int) -> Option<(u32, int)>
    decreases n,
{
    if n <= 0 {
        None
    } else {
        let prev = pick_best_count(counts, n - 1);
        let c = counts[n - 1];
        match prev {
            Option::None => if c.1 > 0 {
                Option::Some(c)
            } else {
                Option::None
            },
            Option::Some(b) => if c.1 > b.1 {
                Option::Some(c)
            } else {
                prev
            },
        }
    }
}

/// The simulator counts as stalemated: enough ticks elapsed, more than
/// one faction lives, and no damage for the whole stalemate window.
pub open spec fn stalemate_spec(s: BattleSimulator) -> bool {
    &&& s.tick >= STALEMATE_TICKS
    &&& multiple_live(s.units@)
    &&& s.tick - s.last_combat_tick >= STALEMATE_TICKS
}

impl BattleSimulator {
    /// Sorted, deduplicated faction ids of the living units.
    pub fn get_active_factions(&self) -> (r: Vec<u32>)
        ensures
            forall|k: int, l: int| 0 <= k < l < r@.len() ==> r@[k] < r@[l],
            forall|f: u32| r@.contains(f) <==> live_faction(self.units@, f),
    {
        let mut out: Vec<u32> = Vec::new();
        let n = self.units.len();
        let mut i: usize = 0;
        while i < n
            invariant
                n == self.units@.len(),
                i <= n,
                forall|k: int, l: int| 0 <= k < l < out@.len() ==> out@[k] < out@[l],
                forall|f: u32| out@.contains(f) <==> exists|t: int|
                    0 <= t < i && (#[trigger] self.units@[t]).alive && self.units@[t].faction_id
                        == f,
            decreases n - i,
        {
            let alive = self.units[i].alive;
            let f = self.units[i].faction_id;
            if alive {
                let mut j: usize = 0;
                while j < out.len() && out[j] < f
                    invariant
                        j <= out@.len(),
                        forall|k: int, l: int| 0 <= k < l < out@.len() ==> out@[k] < out@[l],
                        forall|k: int| 0 <= k < j ==> out@[k] < f,
                    decreases out@.len() - j,
                {
                    j += 1;
                }
                let ghost out0 = out@;
                if j == out.len() || out[j] != f {
                    out.insert(j, f);
                    proof {
                        assert forall|k: int, l: int|
                            0 <= k < l < out@.len() implies out@[k] < out@[l] by {
                            if l < j {
                            } else if k < j && l == j {
                            } else if k == j {
                                assert(out@[l] == out0[l - 1]);
                                assert(out0[l - 1] >= f);
                                assert(out0[l - 1] != f) by {
                                    if out0[l - 1] == f {
                                        assert(out0.contains(f)) by {
                                            assert(out0[l - 1] == f);
                                        }
                                    }
                                }
                            } else if k > j {
                                assert(out@[k] == out0[k - 1] && out@[l] == out0[l - 1]);
                            } else {
                                assert(k < j && l > j);
                                assert(out@[k] == out0[k] && out@[l] == out0[l - 1]);
                                assert(out0[l - 1] >= f);
                                assert(out0[l - 1] != f) by {
                                    if out0[l - 1] == f {
                                        assert(out0.contains(f)) by {
                                            assert(out0[l - 1] == f);
                                        }
                                    }
                                }
                            }
                        }
                        assert forall|g: u32| out@.contains(g) implies (exists|t: int|
                            0 <= t < i + 1 && (#[trigger] self.units@[t]).alive
                                && self.units@[t].faction_id == g) by {
                            let k = choose|k: int| 0 <= k < out@.len() && out@[k] == g;
                            if k < j {
                                assert(out0[k] == g);
                                assert(out0.contains(g));
                            } else if k == j {
                                assert(g == f);
                                assert(self.units@[i as int].alive && self.units@[i as int].faction_id == g);
                            } else {
                                assert(out0[k - 1] == g);
                                assert(out0.contains(g));
                            }
                        }
                        assert forall|g: u32| (exists|t: int|
                            0 <= t < i + 1 && (#[trigger] self.units@[t]).alive
                                && self.units@[t].faction_id == g) implies out@.contains(g) by {
                            if g == f {
                                assert(out@[j as int] == g);
                            } else {
                                let t = choose|t: int|
                                    0 <= t < i + 1 && (#[trigger] self.units@[t]).alive
                                        && self.units@[t].faction_id == g;
                                assert(0 <= t < i);
                                assert(out0.contains(g));
                                let k = choose|k: int| 0 <= k < out0.len() && out0[k] == g;
                                if k < j {
                                    assert(out@[k] == g);
                                } else {
                                    assert(out@[k + 1] == g);
                                }
                            }
                        }
                    }
                } else {
                    proof {
                        assert(out@[j as int] == f);
                        assert(out@.contains(f));
                        assert forall|g: u32| (exists|t: int|
                            0 <= t < i + 1 && (#[trigger] self.units@[t]).alive
                                && self.units@[t].faction_id == g) implies out@.contains(g) by {
                            if g != f {
                                let t = choose|t: int|
                                    0 <= t < i + 1 && (#[trigger] self.units@[t]).alive
                                        && self.units@[t].faction_id == g;
                                assert(0 <= t < i);
                            }
                        }
                    }
                }
            } else {
                proof {
                    assert forall|g: u32| (exists|t: int|
                        0 <= t < i + 1 && (#[trigger] self.units@[t]).alive
                            && self.units@[t].faction_id == g) implies out@.contains(g) by {
                        let t = choose|t: int|
                            0 <= t < i + 1 && (#[trigger] self.units@[t]).alive
                                && self.units@[t].faction_id == g;
                        assert(0 <= t < i);
                    }
                }
            }
            i += 1;
        }
        out
    }

    /// Per-faction living-unit tallies, in order of first living
    /// appearance.
    pub fn get_faction_counts(&self) -> (r: Vec<(u32, usize)>)
        ensures
            r@.len() == counts_spec(self.units@, self.units@.len() as int).len(),
            forall|k: int| 0 <= k < r@.len() ==> (#[trigger] r@[k]).0 == counts_spec(
                self.units@,
                self.units@.len() as int,
            )[k].0 && r@[k].1 == counts_spec(self.units@, self.units@.len() as int)[k].1,
    {
        let n = self.units.len();
        let mut out: Vec<(u32, usize)> = Vec::new();
        let mut i: usize = 0;
        while i < n
            invariant
                n == self.units@.len(),
                i <= n,
                out@.len() == counts_spec(self.units@, i as int).len(),
                forall|k: int| 0 <= k < out@.len() ==> (#[trigger] out@[k]).0 == counts_spec(
                    self.units@,
                    i as int,
                )[k].0 && out@[k].1 == counts_spec(self.units@, i as int)[k].1,
                forall|k: int, l: int| 0 <= k < l < out@.len() ==> (#[trigger] out@[k]).0 != (
                #[trigger] out@[l]).0,
                forall|k: int| 0 <= k < out@.len() ==> 1 <= (#[trigger] out@[k]).1 <= i,
            decreases n - i,
        {
            let ghost prev = counts_spec(self.units@, i as int);
            let alive = self.units[i].alive;
            let f = self.units[i].faction_id;
            if alive {
                let mut j: usize = 0;
                let mut found = false;
                while j < out.len() && !found
                    invariant
                        j <= out@.len(),
                        found ==> j < out@.len() && out@[j as int].0 == f,
                        !found ==> forall|k: int| 0 <= k < j ==> (#[trigger] out@[k]).0 != f,
                    decreases out@.len() - j + (if found { 0int } else { 1int }),
                {
                    if out[j].0 == f {
                        found = true;
                    } else {
                        j += 1;
                    }
                }
                if found {
                    let c = out[j].1;
                    out.set(j, (f, c + 1));
                    proof {
                        assert(exists|k: int| 0 <= k < prev.len() && (#[trigger] prev[k]).0 == f)
                            by {
                            assert(prev[j as int].0 == f);
                        }
                        let next = counts_spec(self.units@, i + 1);
                        assert(next =~= Seq::new(
                            prev.len(),
                            |k: int|
                                if prev[k].0 == f {
                                    (prev[k].0, prev[k].1 + 1)
                                } else {
                                    prev[k]
                                },
                        ));
                        assert forall|k: int| 0 <= k < out@.len() implies (#[trigger] out@[k]).0
                            == next[k].0 && out@[k].1 == next[k].1 by {
                            if k != j as int {
                                assert(out@[k].0 != f);
                            }
                        }
                    }
                } else {
                    out.push((f, 1));
                    proof {
                        let next = counts_spec(self.units@, i + 1);
                        assert(!exists|k: int| 0 <= k < prev.len() && (#[trigger] prev[k]).0 == f)
                            by {
                            if exists|k: int| 0 <= k < prev.len() && (#[trigger] prev[k]).0 == f {
                                let k = choose|k: int|
                                    0 <= k < prev.len() && (#[trigger] prev[k]).0 == f;
                                assert(out@[k].0 == f);
                            }
                        }
                        assert(next == prev.push((f, 1int)));
                    }
                }
            }
            i += 1;
        }
        out
    }

    /// Whether the battle has gone a full stalemate window with living
    /// rivals but no damage.
    pub fn is_stalemate(&self) -> (r: bool)
        requires
            wf_sim(*self),
        ensures
            r == stalemate_spec(*self),
    {
        if self.tick < STALEMATE_TICKS {
            return false;
        }
        let factions = self.get_active_factions();
        let many = factions.len() > 1;
        proof {
            lemma_factions_len(factions@, self.units@);
        }
        many && self.tick - self.last_combat_tick >= STALEMATE_TICKS
    }

    /// The battle is over: at most one faction lives, or a stalemate.
    pub fn is_battle_ended(&self) -> (r: bool)
        requires
            wf_sim(*self),
        ensures
            r == (!multiple_live(self.units@) || stalemate_spec(*self)),
    {
        let factions = self.get_active_factions();
        proof {
            lemma_factions_len(factions@, self.units@);
        }
        if factions.len() <= 1 {
            return true;
        }
        self.is_stalemate()
    }

    pub fn is_battle_over(&self) -> (r: bool)
        requires
            wf_sim(*self),
        ensures
            r == (!multiple_live(self.units@) || stalemate_spec(*self)),
    {
        self.is_battle_ended()
    }
}

/// A sorted deduplicated faction list has two or more entries exactly
/// when more than one faction lives.
proof fn lemma_factions_len(fs: Seq<u32>, units: Seq<BattleUnit>)
    requires
        forall|k: int, l: int| 0 <= k < l < fs.len() ==> fs[k] < fs[l],
        forall|f: u32| fs.contains(f) <==> live_faction(units, f),
    ensures
        fs.len() > 1 <==> multiple_live(units),
        fs.len() == 0 <==> !exists|f: u32| live_faction(units, f),
{
    if fs.len() > 1 {
        assert(fs[0] < fs[1]);
        assert(fs.contains(fs[0])) by {
            assert(fs[0] == fs[0]);
        }
        assert(fs.contains(fs[1])) by {
            assert(fs[1] == fs[1]);
        }
        assert(live_faction(units, fs[0]) && live_faction(units, fs[1]) && fs[0] != fs[1]);
    }
    if multiple_live(units) {
        let (f, g) = choose|f: u32, g: u32|
            f != g && #[trigger] live_faction(units, f) && #[trigger] live_faction(units, g);
        assert(fs.contains(f) && fs.contains(g));
        let k = choose|k: int| 0 <= k < fs.len() && fs[k] == f;
        let l = choose|l: int| 0 <= l < fs.len() && fs[l] == g;
        assert(k != l);
        assert(fs.len() > 1);
    }
    if fs.len() == 0 {
        assert forall|f: u32| !live_faction(units, f) by {
            if live_faction(units, f) {
                assert(fs.contains(f));
            }
        }
    } else {
        assert(fs.contains(fs[0])) by {
            assert(fs[0] == fs[0]);
        }
        assert(live_faction(units, fs[0]));
    }
}

/// Lowercase tokens that drive the projectile-speed table.
pub open spec fn tok_laser() -> Seq<u8> {
    seq![108u8, 97u8, 115u8, 101u8, 114u8]
}

pub open spec fn tok_ion() -> Seq<u8> {
    seq![105u8, 111u8, 110u8]
}

pub open spec fn tok_beam() -> Seq<u8> {
    seq![98u8, 101u8, 97u8, 109u8]
}

/// Projectile speed (world units per second) by weapon tag; instantaneous
/// energy weapons have no finite speed.
pub open spec fn projectile_speed_spec(tag: Seq<u8>) -> Option<int> {
    let lt = lower_seq(tag);
    if contains_seq(lt, tok_laser()) || contains_seq(lt, tok_ion()) || contains_seq(
        lt,
        tok_beam(),
    ) {
        None
    } else if contains_seq(lt, tok_missile()) || has_prefix(lt, tok_hm()) || has_prefix(
        lt,
        tok_sm(),
    ) {
        Some(50int)
    } else if contains_seq(lt, tok_rocket()) || has_prefix(lt, tok_pr()) || has_prefix(
        lt,
        tok_cr(),
    ) {
        Some(80int)
    } else if contains_seq(lt, tok_nuke()) || has_prefix(lt, tok_nm()) {
        Some(30int)
    } else {
        Some(100int)
    }
}

/// Milliseconds until impact at a scaled distance: distance over speed,
/// zero for energy weapons, capped at the reporting type's limit.
pub open spec fn impact_time_spec(distance: int, tag: Seq<u8>) -> int {
    match projectile_speed_spec(tag) {
        Option::None => 0,
        Option::Some(s) => {
            let t = distance / s;
            if t > u32::MAX {
                u32::MAX as int
            } else {
                t
            }
        },
    }
}

/// Projectile speed for a weapon tag; `None` is instantaneous.
pub fn get_projectile_speed(weapon_tag: &Vec<u8>) -> (r: Option<i64>)
    ensures
        ((r is None) <==> (projectile_speed_spec(weapon_tag@) is None)),
        (r matches Some(v) ==> projectile_speed_spec(weapon_tag@) == Some(v as int)),
{
    let lt = lower_vec(weapon_tag);
    let laser: Vec<u8> = vec![108u8, 97u8, 115u8, 101u8, 114u8];
    let ion: Vec<u8> = vec![105u8, 111u8, 110u8];
    let beam: Vec<u8> = vec![98u8, 101u8, 97u8, 109u8];
    let missile: Vec<u8> = vec![109u8, 105u8, 115u8, 115u8, 105u8, 108u8, 101u8];
    let rocket: Vec<u8> = vec![114u8, 111u8, 99u8, 107u8, 101u8, 116u8];
    let nuke: Vec<u8> = vec![110u8, 117u8, 107u8, 101u8];
    let hm: Vec<u8> = vec![104u8, 109u8];
    let sm: Vec<u8> = vec![115u8, 109u8];
    let pr: Vec<u8> = vec![112u8, 114u8];
    let cr: Vec<u8> = vec![99u8, 114u8];
    let nm: Vec<u8> = vec![110u8, 109u8];
    proof {
        assert(laser@ =~= tok_laser());
        assert(ion@ =~= tok_ion());
        assert(beam@ =~= tok_beam());
        assert(missile@ =~= tok_missile());
        assert(rocket@ =~= tok_rocket());
        assert(nuke@ =~= tok_nuke());
        assert(hm@ =~= tok_hm());
        assert(sm@ =~= tok_sm());
        assert(pr@ =~= tok_pr());
        assert(cr@ =~= tok_cr());
        assert(nm@ =~= tok_nm());
    }
    if contains_x(&lt, &laser) || contains_x(&lt, &ion) || contains_x(&lt, &beam) {
        None
    } else if contains_x(&lt, &missile) || has_prefix_x(&lt, &hm) || has_prefix_x(&lt, &sm) {
        Some(50)
    } else if contains_x(&lt, &rocket) || has_prefix_x(&lt, &pr) || has_prefix_x(&lt, &cr) {
        Some(80)
    } else if contains_x(&lt, &nuke) || has_prefix_x(&lt, &nm) {
        Some(30)
    } else {
        Some(100)
    }
}

/// Milliseconds until a discharge at the given scaled distance lands.
pub fn calculate_impact_time(distance: i64, weapon_tag: &Vec<u8>) -> (r: u32)
    requires
        0 <= distance,
    ensures
        r == impact_time_spec(distance as int, weapon_tag@),
{
    match get_projectile_speed(weapon_tag) {
        Option::None => 0,
        Option::Some(s) => {
            let t = distance / s;
            if t > (u32::MAX as i64) {
                u32::MAX
            } else {
                t as u32
            }
        },
    }
}

impl BattleSimulator {
    /// The battle's winner: the sole living faction on a clean end, the
    /// most numerous faction on a stalemate (earliest seen on ties), and
    /// nothing while the battle is still running.
    pub fn get_winner(&self) -> (r: Option<u32>)
        requires
            wf_sim(*self),
        ensures
            (!exists|f: u32| live_faction(self.units@, f)) ==> r is None,
            forall|f: u32|
                (live_faction(self.units@, f) && (forall|g: u32| live_faction(self.units@, g)
                    ==> g == f)) ==> r == Some(f),
            (multiple_live(self.units@) && stalemate_spec(*self)) ==> ({
                let counts = counts_spec(self.units@, self.units@.len() as int);
                match pick_best_count(counts, counts.len() as int) {
                    Option::None => r is None,
                    Option::Some(b) => r == Some(b.0),
                }
            }),
            (multiple_live(self.units@) && !stalemate_spec(*self)) ==> r is None,
    {
        let factions = self.get_active_factions();
        proof {
            lemma_factions_len(factions@, self.units@);
        }
        if factions.len() == 1 {
            proof {
                let f0 = factions@[0];
                assert(factions@.contains(f0)) by {
                    assert(factions@[0] == f0);
                }
                assert(live_faction(self.units@, f0));
                assert forall|g: u32| live_faction(self.units@, g) implies g == f0 by {
                    assert(factions@.contains(g));
                    let k = choose|k: int| 0 <= k < factions@.len() && factions@[k] == g;
                    assert(k == 0);
                }
            }
            Some(factions[0])
        } else if factions.len() > 1 && self.is_stalemate() {
            let counts = self.get_faction_counts();
            let mut best_faction: Option<u32> = None;
            let mut best_count: usize = 0;
            let m = counts.len();
            let ghost cspec = counts_spec(self.units@, self.units@.len() as int);
            let mut k: usize = 0;
            while k < m
                invariant
                    m == counts@.len(),
                    counts@.len() == cspec.len(),
                    forall|t: int| 0 <= t < counts@.len() ==> (#[trigger] counts@[t]).0
                        == cspec[t].0 && counts@[t].1 == cspec[t].1,
                    k <= m,
                    match pick_best_count(cspec, k as int) {
                        Option::None => best_faction is None && best_count == 0,
                        Option::Some(b) => best_faction == Some(b.0) && best_count == b.1,
                    },
                decreases m - k,
            {
                let c = counts[k];
                if c.1 > best_count {
                    best_faction = Some(c.0);
                    best_count = c.1;
                }
                k += 1;
            }
            best_faction
        } else {
            None
        }
    }
}

/// A target id is still worth keeping for an attacker: it names a living
/// enemy inside the attacker's weapon range.
pub open spec fn target_valid_spec(units: Seq<BattleUnit>, ai: int, tid: u32) -> bool {
    &&& units[ai].max_weapon_range > 0
    &&& exists|j: int|
        0 <= j < units.len() && (#[trigger] units[j]).id == tid && units[j].alive
            && units[j].faction_id != units[ai].faction_id && dist_sq_units(units[ai], units[j])
            <= sq(units[ai].max_weapon_range as int)
}

/// The nearest living enemy within weapon range among the first `n`
/// units, earliest on exact ties.
pub open spec fn fallback_scan(units: Seq<BattleUnit>, ai: int, n: int) -> Option<usize>
    decreases n,
{
    if n <= 0 {
        None
    } else {
        let prev = fallback_scan(units, ai, n - 1);
        let c = n - 1;
        if !(c != ai && units[c].alive && units[c].faction_id != units[ai].faction_id
            && dist_sq_units(units[ai], units[c]) <= sq(units[ai].max_weapon_range as int)) {
            prev
        } else {
            match prev {
                Option::None => Option::Some(c as usize),
                Option::Some(b) => if dist_sq_units(units[ai], units[c]) < dist_sq_units(
                    units[ai],
                    units[b as int],
                ) {
                    Option::Some(c as usize)
                } else {
                    prev
                },
            }
        }
    }
}

/// What the battlefield-wide fallback search returns: nothing for an
/// unarmed unit, else the nearest living enemy within weapon range.
pub open spec fn find_any_spec(units: Seq<BattleUnit>, ai: int) -> Option<usize> {
    if units[ai].max_weapon_range <= 0 {
        None
    } else {
        fallback_scan(units, ai, units.len() as int)
    }
}

pub proof fn lemma_fallback_valid(units: Seq<BattleUnit>, ai: int, n: int)
    requires
        0 <= ai < units.len(),
        n <= units.len(),
        units.len() <= usize::MAX,
    ensures
        fallback_scan(units, ai, n) matches Some(b) ==> 0 <= b < n && b != ai
            && units[b as int].alive && units[b as int].faction_id != units[ai].faction_id
            && dist_sq_units(units[ai], units[b as int]) <= sq(units[ai].max_weapon_range as int),
    decreases n,
{
    if n > 0 {
        lemma_fallback_valid(units, ai, n - 1);
        let prev = fallback_scan(units, ai, n - 1);
        let c = n - 1;
        if c != ai && units[c].alive && units[c].faction_id != units[ai].faction_id
            && dist_sq_units(units[ai], units[c]) <= sq(units[ai].max_weapon_range as int) {
            match prev {
                Option::None => {
                    assert(fallback_scan(units, ai, n) == Option::Some(c as usize));
                },
                Option::Some(b) => {
                    if dist_sq_units(units[ai], units[c]) < dist_sq_units(
                        units[ai],
                        units[b as int],
                    ) {
                        assert(fallback_scan(units, ai, n) == Option::Some(c as usize));
                    } else {
                        assert(fallback_scan(units, ai, n) == prev);
                    }
                },
            }
        } else {
            assert(fallback_scan(units, ai, n) == prev);
        }
    }
}

impl BattleSimulator {
    /// Whether an attacker's recorded target id still names a living
    /// enemy within its weapon range.
    pub fn is_target_valid(&self, attacker_idx: usize, target_id: u32) -> (r: bool)
        requires
            wf_units(self.units@),
            attacker_idx < self.units@.len(),
        ensures
            r == target_valid_spec(self.units@, attacker_idx as int, target_id),
    {
        let n = self.units.len();
        let mut j: usize = 0;
        let mut found: Option<usize> = None;
        while j < n
            invariant
                n == self.units@.len(),
                j <= n,
                wf_units(self.units@),
                attacker_idx < n,
                found is None ==> forall|t: int| 0 <= t < j ==> (#[trigger] self.units@[t]).id
                    != target_id,
                found matches Some(k) ==> k < n && self.units@[k as int].id == target_id,
            decreases n - j + (if found is None { 1int } else { 0int }),
        {
            if found.is_none() && self.units[j].id == target_id {
                found = Some(j);
            }
            j += 1;
        }
        match found {
            Option::None => {
                proof {
                    if target_valid_spec(self.units@, attacker_idx as int, target_id) {
                        let k = choose|k: int|
                            0 <= k < self.units@.len() && (#[trigger] self.units@[k]).id
                                == target_id && self.units@[k].alive && self.units@[k].faction_id
                                != self.units@[attacker_idx as int].faction_id && dist_sq_units(
                                self.units@[attacker_idx as int],
                                self.units@[k],
                            ) <= sq(self.units@[attacker_idx as int].max_weapon_range as int);
                        assert(false);
                    }
                }
                false
            },
            Option::Some(ti) => {
                let target = &self.units[ti];
                if !target.alive {
                    proof {
                        lemma_unique_id_invalid(self.units@, attacker_idx as int, ti as int,
                            target_id);
                    }
                    return false;
                }
                let attacker = &self.units[attacker_idx];
                if target.faction_id == attacker.faction_id {
                    proof {
                        lemma_unique_id_invalid(self.units@, attacker_idx as int, ti as int,
                            target_id);
                    }
                    return false;
                }
                let max_range = attacker.max_weapon_range;
                if max_range <= 0 {
                    return false;
                }
                let dsq = attacker.distance_sq(target);
                proof {
                    assert((max_range as int) * (max_range as int) == sq(max_range as int)
                        && 0 <= sq(max_range as int) <= 1_000_000_000_000_000_000_000_000)
                        by (nonlinear_arith)
                        requires
                            0 <= max_range <= STAT_LIMIT,
                    ;
                }
                let range_sq: u128 = (max_range as u128) * (max_range as u128);
                let ok = dsq <= range_sq;
                proof {
                    if !ok {
                        lemma_unique_id_invalid(self.units@, attacker_idx as int, ti as int,
                            target_id);
                    }
                }
                ok
            },
        }
    }

    /// Battlefield-wide fallback: the nearest living enemy within weapon
    /// range, if the spatial search found nothing.
    pub fn find_any_enemy(&self, attacker_idx: usize) -> (r: Option<usize>)
        requires
            wf_units(self.units@),
            attacker_idx < self.units@.len(),
        ensures
            r == find_any_spec(self.units@, attacker_idx as int),
            (r matches Some(b) ==> b < self.units@.len() && b != attacker_idx
                && self.units@[b as int].alive && self.units@[b as int].faction_id
                != self.units@[attacker_idx as int].faction_id),
    {
        let n = self.units.len();
        proof {
            lemma_fallback_valid(self.units@, attacker_idx as int, self.units@.len() as int);
        }
        let attacker_range = self.units[attacker_idx].max_weapon_range;
        if attacker_range <= 0 {
            return None;
        }
        proof {
            assert((attacker_range as int) * (attacker_range as int) == sq(attacker_range as int)
                && 0 <= sq(attacker_range as int) <= 1_000_000_000_000_000_000_000_000)
                by (nonlinear_arith)
                requires
                    0 <= attacker_range <= STAT_LIMIT,
            ;
        }
        let range_sq: u128 = (attacker_range as u128) * (attacker_range as u128);
        let mut best: Option<usize> = None;
        let mut best_dist_sq: u128 = 0;
        let mut c: usize = 0;
        while c < n
            invariant
                n == self.units@.len(),
                c <= n,
                wf_units(self.units@),
                attacker_idx < n,
                attacker_range == self.units@[attacker_idx as int].max_weapon_range,
                attacker_range > 0,
                range_sq as int == sq(attacker_range as int),
                best == fallback_scan(self.units@, attacker_idx as int, c as int),
                (best matches Some(b) ==> b < n && best_dist_sq == dist_sq_units(
                    self.units@[attacker_idx as int],
                    self.units@[b as int],
                )),
            decreases n - c,
        {
            if c != attacker_idx && self.units[c].alive && self.units[c].faction_id
                != self.units[attacker_idx].faction_id {
                let d = self.units[attacker_idx].distance_sq(&self.units[c]);
                if d <= range_sq {
                    let take = match best {
                        Option::None => true,
                        Option::Some(_) => d < best_dist_sq,
                    };
                    if take {
                        best = Some(c);
                        best_dist_sq = d;
                    }
                }
            }
            c += 1;
        }
        best
    }

    /// The target acquisition and validation pass of a tick: every living
    /// armed unit without a fresh valid target re-acquires through the
    /// grid, falling back to a battlefield-wide scan. The result is
    /// exactly `acquired_units` of the incoming state.
    fn acquire_targets(&mut self)
        requires
            wf_units(old(self).units@),
            targets_ok(old(self).units@),
            wf_grid(old(self).grid),
        ensures
            final(self).units@.len() == old(self).units@.len(),
            final(self).tick == old(self).tick,
            final(self).last_combat_tick == old(self).last_combat_tick,
            final(self).grid == old(self).grid,
            wf_units(final(self).units@),
            targets_ok(final(self).units@),
            final(self).units@ == acquired_units(
                old(self).units@,
                old(self).grid,
                old(self).tick as int,
            ),
            forall|i: int| 0 <= i < old(self).units@.len() ==> final(self).units@[i] == (
            BattleUnit { target_id: final(self).units@[i].target_id, ..old(self).units@[i] }),
            forall|i: int| 0 <= i < old(self).units@.len() && !((#[trigger] old(
                self,
            ).units@[i]).alive && old(self).units@[i].has_weapons) ==> final(self).units@[i]
                == old(self).units@[i],
            (old(self).tick % RETARGET_INTERVAL != 0 && (forall|i: int|
                0 <= i < old(self).units@.len() && (#[trigger] old(self).units@[i]).alive && old(
                    self,
                ).units@[i].has_weapons ==> old(self).units@[i].target_id is Some && (old(
                    self,
                ).units@[i].target_id matches Some(t) && target_valid_spec(
                    old(self).units@,
                    i,
                    t,
                )))) ==> final(self).units@ == old(self).units@,
    {
        let ghost pre = old(self).units@;
        let ghost g = old(self).grid;
        let ghost tk = old(self).tick as int;
        let n = self.units.len();
        let mut i: usize = 0;
        while i < n
            invariant
                n == self.units@.len(),
                self.units@.len() == pre.len(),
                pre == old(self).units@,
                g == old(self).grid,
                tk == old(self).tick as int,
                i <= n,
                self.tick == old(self).tick,
                self.last_combat_tick == old(self).last_combat_tick,
                self.grid == old(self).grid,
                wf_grid(self.grid),
                wf_units(pre),
                targets_ok(pre),
                wf_units(self.units@),
                targets_ok(self.units@),
                forall|t: int| i <= t < n ==> self.units@[t] == pre[t],
                forall|t: int| 0 <= t < i ==> self.units@[t] == (BattleUnit {
                    target_id: acquire_target_spec(pre, g, tk, t),
                    ..pre[t]
                }),
            decreases n - i,
        {
            proof {
                assert(same_units_but_targets(pre, self.units@)) by {
                    assert forall|t: int| 0 <= t < pre.len() implies same_but_target(
                        pre[t],
                        #[trigger] self.units@[t],
                    ) by {
                        if t >= i {
                            assert(self.units@[t] == pre[t]);
                        }
                    }
                }
            }
            let skip = !self.units[i].alive || !self.units[i].has_weapons;
            if !skip {
                let current = self.units[i].target_id;
                let mut should = current.is_none() || self.tick % RETARGET_INTERVAL == 0;
                if !should {
                    if let Some(t) = current {
                        let fresh = self.is_target_valid(i, t);
                        proof {
                            lemma_target_valid_blind(pre, self.units@, i as int, t);
                        }
                        should = !fresh;
                    }
                }
                proof {
                    assert(should == should_retarget_spec(pre, tk, i as int));
                }
                if should {
                    let ghost units_before = self.units@;
                    {
                        let u = unit_mut(&mut self.units, i);
                        u.target_id = None;
                    }
                    proof {
                        assert forall|t: int| 0 <= t < n implies target_ok(self.units@, t) by {
                            lemma_target_ok_after_clears(units_before, self.units@, t);
                        }
                        assert(same_units_but_targets(self.units@, pre)) by {
                            assert forall|t: int| 0 <= t < pre.len() implies same_but_target(
                                self.units@[t],
                                #[trigger] pre[t],
                            ) by {
                                if t > i as int {
                                    assert(self.units@[t] == pre[t]);
                                }
                            }
                        }
                        assert(same_but_target(self.units@[i as int], pre[i as int]));
                        lemma_find_best_target_blind(self.units@[i as int], pre[i as int],
                            self.units@, pre, g);
                        lemma_fallback_blind(self.units@, pre, i as int,
                            self.units@.len() as int);
                    }
                    let choice = find_best_target(&self.units[i], &self.units, &self.grid);
                    match choice {
                        Option::Some(e) => {
                            let tid = self.units[e].id;
                            let ghost before = self.units@;
                            let u = unit_mut(&mut self.units, i);
                            u.target_id = Some(tid);
                            proof {
                                reveal(acquire_target_spec);
                                assert(valid_candidate(before[i as int], before, e as int));
                                assert(before[e as int].id == tid);
                                assert(pre[e as int].id == tid);
                                assert(acquire_target_spec(pre, g, tk, i as int) == Some(tid));
                                assert forall|t: int| 0 <= t < n implies target_ok(
                                    self.units@,
                                    t,
                                ) by {
                                    if t == i as int {
                                        assert(self.units@[e as int].id == tid
                                            && self.units@[e as int].alive
                                            && self.units@[e as int].faction_id
                                            != self.units@[t].faction_id);
                                    } else {
                                        lemma_target_ok_after_clears(before, self.units@, t);
                                    }
                                }
                            }
                        },
                        Option::None => {
                            proof {
                                reveal(acquire_target_spec);
                                assert(acquire_target_spec(pre, g, tk, i as int)
                                    == match find_any_spec(pre, i as int) {
                                    Option::Some(e2) => Option::Some(pre[e2 as int].id),
                                    Option::None => Option::None,
                                });
                            }
                            let fb = self.find_any_enemy(i);
                            if let Some(e2) = fb {
                                let tid = self.units[e2].id;
                                let ghost before = self.units@;
                                let u = unit_mut(&mut self.units, i);
                                u.target_id = Some(tid);
                                proof {
                                    assert(before[e2 as int].id == tid);
                                    assert(pre[e2 as int].id == tid);
                                    assert(acquire_target_spec(pre, g, tk, i as int) == Some(
                                        tid,
                                    ));
                                    assert forall|t: int| 0 <= t < n implies target_ok(
                                        self.units@,
                                        t,
                                    ) by {
                                        if t == i as int {
                                            assert(self.units@[e2 as int].id == tid
                                                && self.units@[e2 as int].alive
                                                && self.units@[e2 as int].faction_id
                                                != self.units@[t].faction_id);
                                            assert(tid != self.units@[t].id) by {
                                                if e2 as int != t {
                                                    assert(before[e2 as int].id != before[t].id);
                                                }
                                            }
                                        } else {
                                            lemma_target_ok_after_clears(before, self.units@, t);
                                        }
                                    }
                                }
                            } else {
                                proof {
                                    assert(acquire_target_spec(pre, g, tk, i as int)
                                        == Option::<u32>::None);
                                }
                            }
                        },
                    }
                } else {
                    proof {
                        reveal(acquire_target_spec);
                        assert(acquire_target_spec(pre, g, tk, i as int)
                            == pre[i as int].target_id);
                        assert(self.units@[i as int] == (BattleUnit {
                            target_id: acquire_target_spec(pre, g, tk, i as int),
                            ..pre[i as int]
                        }));
                    }
                }
            } else {
                proof {
                    reveal(acquire_target_spec);
                    assert(acquire_target_spec(pre, g, tk, i as int) == pre[i as int].target_id);
                    assert(self.units@[i as int] == (BattleUnit {
                        target_id: acquire_target_spec(pre, g, tk, i as int),
                        ..pre[i as int]
                    }));
                }
            }
            i += 1;
        }
        proof {
            reveal(acquired_units);
            assert(self.units@ =~= acquired_units(pre, g, tk));
            assert forall|t: int|
                0 <= t < pre.len() && !((#[trigger] pre[t]).alive && pre[t].has_weapons) implies self.units@[t]
                == pre[t] by {
                reveal(acquire_target_spec);
                assert(acquire_target_spec(pre, g, tk, t) == pre[t].target_id);
            }
            if old(self).tick % RETARGET_INTERVAL != 0 && (forall|t: int|
                0 <= t < pre.len() && (#[trigger] pre[t]).alive && pre[t].has_weapons
                    ==> pre[t].target_id is Some && (pre[t].target_id matches Some(tt)
                    && target_valid_spec(pre, t, tt))) {
                assert forall|t: int| 0 <= t < pre.len() implies #[trigger] self.units@[t]
                    == pre[t] by {
                    reveal(acquire_target_spec);
                    assert(acquire_target_spec(pre, g, tk, t) == pre[t].target_id);
                }
                assert(self.units@ =~= pre);
            }
        }
    }
}

/// With unique ids, failing any validity test at the unit bearing the id
/// refutes the whole validity claim.
proof fn lemma_unique_id_invalid(units: Seq<BattleUnit>, ai: int, ti: int, tid: u32)
    requires
        wf_units(units),
        0 <= ai < units.len(),
        0 <= ti < units.len(),
        units[ti].id == tid,
        !(units[ti].alive && units[ti].faction_id != units[ai].faction_id && dist_sq_units(
            units[ai],
            units[ti],
        ) <= sq(units[ai].max_weapon_range as int)),
    ensures
        !target_valid_spec(units, ai, tid),
{
    if target_valid_spec(units, ai, tid) {
        let k = choose|k: int|
            0 <= k < units.len() && (#[trigger] units[k]).id == tid && units[k].alive && units[k].faction_id
                != units[ai].faction_id && dist_sq_units(units[ai], units[k]) <= sq(
                units[ai].max_weapon_range as int,
            );
        if k != ti {
            assert(units[k].id != units[ti].id);
        }
    }
}

/// One planned discharge, carried from the read-only fire pass to the
/// commit pass.
pub struct FirePlan {
    pub attacker_idx: usize,
    pub target_idx: usize,
    pub weapon_idx: usize,
    pub damage: i64,
    pub distance: i64,
}

/// A planned discharge is genuine: a living armed attacker, its recorded
/// target alive at the planned index, and the weapon cleared to fire with
/// exactly the computed damage at the computed distance.
pub open spec fn plan_entry_ok(units: Seq<BattleUnit>, e: FirePlan, now: int, tick: int) -> bool {
    &&& e.attacker_idx < units.len()
    &&& e.target_idx < units.len()
    &&& units[e.attacker_idx as int].alive
    &&& units[e.attacker_idx as int].has_weapons
    &&& units[e.attacker_idx as int].target_id == Some(units[e.target_idx as int].id)
    &&& units[e.target_idx as int].alive
    &&& e.weapon_idx < units[e.attacker_idx as int].weapons@.len()
    &&& fire_ok(
        units[e.attacker_idx as int],
        units[e.target_idx as int],
        units[e.attacker_idx as int].weapons@[e.weapon_idx as int],
        now,
        tick,
    )
    &&& e.damage == shot_damage(
        units[e.attacker_idx as int].weapons@[e.weapon_idx as int],
        units[e.target_idx as int],
        dist_units(units[e.attacker_idx as int], units[e.target_idx as int]),
    )
    &&& 1000 <= e.damage <= 1_000_000_000_000_000_000
    &&& e.distance == dist_units(units[e.attacker_idx as int], units[e.target_idx as int])
}

/// No weapon anywhere is cleared to fire at this clock and tick.
pub open spec fn no_fire_possible(units: Seq<BattleUnit>, now: int, tick: int) -> bool {
    forall|a: int, t: int, w: int|
        0 <= a < units.len() && 0 <= t < units.len() && 0 <= w < units[a].weapons@.len()
            && units[a].alive && units[a].has_weapons && units[a].target_id == Some(units[t].id)
            && units[t].alive ==> !#[trigger] fire_ok(units[a], units[t], units[a].weapons@[w],
            now, tick)
}

/// The changed weapons of `b` differ from `a` only by a discharge at
/// `now`.
pub open spec fn refired_weapon(wa: Weapon, wb: Weapon, now: int) -> bool {
    &&& wb == (Weapon { last_fired: wb.last_fired, ..wa })
    &&& (wb.last_fired == wa.last_fired || wb.last_fired == now)
}

pub open spec fn refired_unit(a: BattleUnit, b: BattleUnit, now: int) -> bool {
    &&& b == (BattleUnit { weapons: b.weapons, ..a })
    &&& b.weapons@.len() == a.weapons@.len()
    &&& forall|k: int| 0 <= k < a.weapons@.len() ==> refired_weapon(
        a.weapons@[k],
        #[trigger] b.weapons@[k],
        now,
    )
}

/// Mutable access to one weapon.
fn weapon_mut(ws: &mut Vec<Weapon>, i: usize) -> (w: &mut Weapon)
    requires
        i < old(ws)@.len(),
    ensures
        *w == old(ws)@[i as int],
        final(ws)@ == old(ws)@.update(i as int, *final(w)),
{
    &mut ws[i]
}

impl BattleSimulator {
    /// The read-only fire pass of a tick: every weapon of every living
    /// armed unit with a target is tried in declared order, and each
    /// cleared discharge is recorded; the result is exactly `plan_spec`
    /// of the current state. The acquisition pass has already repaired
    /// every dangling target.
    fn plan_fires(&self, now: i64) -> (r: Vec<FirePlan>)
        requires
            wf_units(self.units@),
            targets_ok(self.units@),
        ensures
            r@ == plan_spec(self.units@, now as int, self.tick as int, self.units@.len() as int),
            forall|k: int| 0 <= k < r@.len() ==> plan_entry_ok(
                self.units@,
                #[trigger] r@[k],
                now as int,
                self.tick as int,
            ),
            no_fire_possible(self.units@, now as int, self.tick as int) ==> r@.len() == 0,
    {
        let mut plan: Vec<FirePlan> = Vec::new();
        let n = self.units.len();
        proof {
            reveal(plan_spec);
            assert(plan@ =~= plan_spec(self.units@, now as int, self.tick as int, 0));
        }
        let mut a: usize = 0;
        while a < n
            invariant
                n == self.units@.len(),
                a <= n,
                wf_units(self.units@),
                targets_ok(self.units@),
                plan@ == plan_spec(self.units@, now as int, self.tick as int, a as int),
                forall|k: int| 0 <= k < plan@.len() ==> plan_entry_ok(
                    self.units@,
                    #[trigger] plan@[k],
                    now as int,
                    self.tick as int,
                ),
                no_fire_possible(self.units@, now as int, self.tick as int) ==> plan@.len() == 0,
            decreases n - a,
        {
            let engaged = self.units[a].alive && self.units[a].has_weapons
                && self.units[a].target_id.is_some();
            if engaged {
                let tid = match self.units[a].target_id {
                    Option::Some(t) => t,
                    Option::None => {
                        proof {
                            assert(false);
                        }
                        0
                    },
                };
                let mut ti_opt: Option<usize> = None;
                let mut j: usize = 0;
                while j < n
                    invariant
                        n == self.units@.len(),
                        j <= n,
                        ti_opt is None ==> forall|t: int| 0 <= t < j ==> !((
                        #[trigger] self.units@[t]).id == tid && self.units@[t].alive),
                        ti_opt matches Some(ti) ==> ti < n && self.units@[ti as int].id == tid
                            && self.units@[ti as int].alive && forall|t: int|
                            0 <= t < ti ==> !((#[trigger] self.units@[t]).id == tid
                                && self.units@[t].alive),
                    decreases n - j + (if ti_opt is None { 1int } else { 0int }),
                {
                    if ti_opt.is_none() && self.units[j].id == tid && self.units[j].alive {
                        ti_opt = Some(j);
                    }
                    j += 1;
                }
                let ti = match ti_opt {
                    Option::Some(ti) => ti,
                    Option::None => {
                        proof {
                            assert(target_ok(self.units@, a as int));
                            let jj = choose|jj: int|
                                0 <= jj < self.units@.len() && (#[trigger] self.units@[jj]).id
                                    == tid && self.units@[jj].alive && self.units@[jj].faction_id
                                    != self.units@[a as int].faction_id;
                            assert(false);
                        }
                        0
                    },
                };
                proof {
                    reveal(live_idx_from);
                    lemma_live_idx_skip(self.units@, tid, 0, ti as int);
                    assert(live_idx_from(self.units@, tid, 0) == ti as int);
                }
                let wn = self.units[a].weapons.len();
                proof {
                    reveal(plan_for_weapons);
                    assert(plan@ =~= plan_spec(self.units@, now as int, self.tick as int,
                        a as int) + plan_for_weapons(self.units@, a as int, ti as int, now as int,
                        self.tick as int, 0));
                }
                let mut w: usize = 0;
                while w < wn
                    invariant
                        n == self.units@.len(),
                        a < n,
                        ti < n,
                        wn == self.units@[a as int].weapons@.len(),
                        w <= wn,
                        wf_units(self.units@),
                        self.units@[a as int].alive,
                        self.units@[a as int].has_weapons,
                        self.units@[a as int].target_id == Some(self.units@[ti as int].id),
                        self.units@[ti as int].alive,
                        plan@ == plan_spec(self.units@, now as int, self.tick as int, a as int)
                            + plan_for_weapons(self.units@, a as int, ti as int, now as int,
                            self.tick as int, w as int),
                        forall|k: int| 0 <= k < plan@.len() ==> plan_entry_ok(
                            self.units@,
                            #[trigger] plan@[k],
                            now as int,
                            self.tick as int,
                        ),
                        no_fire_possible(self.units@, now as int, self.tick as int)
                            ==> plan@.len() == 0,
                    decreases wn - w,
                {
                    let pd = is_point_defense(&self.units[a].weapons[w]);
                    if !pd {
                        let shot = try_fire_weapon(&self.units[a], &self.units[ti],
                            &self.units[a].weapons[w], now, self.tick);
                        if let Some(damage) = shot {
                            let distance = self.units[a].distance(&self.units[ti]);
                            proof {
                                if no_fire_possible(self.units@, now as int, self.tick as int) {
                                    assert(!fire_ok(self.units@[a as int], self.units@[ti as int],
                                        self.units@[a as int].weapons@[w as int], now as int,
                                        self.tick as int));
                                }
                            }
                            plan.push(
                                FirePlan {
                                    attacker_idx: a,
                                    target_idx: ti,
                                    weapon_idx: w,
                                    damage,
                                    distance,
                                },
                            );
                            proof {
                                reveal(plan_for_weapons);
                                assert(plan@ =~= plan_spec(self.units@, now as int,
                                    self.tick as int, a as int) + plan_for_weapons(self.units@,
                                    a as int, ti as int, now as int, self.tick as int, w + 1));
                            }
                        } else {
                            proof {
                                reveal(plan_for_weapons);
                                assert(plan_for_weapons(self.units@, a as int, ti as int,
                                    now as int, self.tick as int, w + 1) =~= plan_for_weapons(
                                    self.units@, a as int, ti as int, now as int,
                                    self.tick as int, w as int));
                            }
                        }
                    } else {
                        proof {
                            reveal(plan_for_weapons);
                            assert(pd_tag(self.units@[a as int].weapons@[w as int].tag@));
                            assert(!fire_ok(self.units@[a as int], self.units@[ti as int],
                                self.units@[a as int].weapons@[w as int], now as int,
                                self.tick as int));
                            assert(plan_for_weapons(self.units@, a as int, ti as int, now as int,
                                self.tick as int, w + 1) =~= plan_for_weapons(self.units@,
                                a as int, ti as int, now as int, self.tick as int, w as int));
                        }
                    }
                    w += 1;
                }
                proof {
                    reveal(plan_entries_for);
                    reveal(plan_spec);
                    reveal(live_idx_from);
                    assert(plan_entries_for(self.units@, a as int, now as int, self.tick as int)
                        == plan_for_weapons(self.units@, a as int, ti as int, now as int,
                        self.tick as int, wn as int));
                    assert(plan@ == plan_spec(self.units@, now as int, self.tick as int, a + 1));
                }
            } else {
                proof {
                    reveal(plan_entries_for);
                    reveal(plan_spec);
                    assert(plan_entries_for(self.units@, a as int, now as int, self.tick as int)
                        =~= Seq::<FirePlan>::empty());
                    assert(plan@ =~= plan_spec(self.units@, now as int, self.tick as int, a + 1));
                }
            }
            a += 1;
        }
        plan
    }

    /// The commit pass of a tick: each planned discharge stamps its
    /// weapon's clock, queues its damage, and is reported.
    fn commit_fires(&mut self, plan: &Vec<FirePlan>, now: i64) -> (r: (
        Vec<DamageEntry>,
        Vec<WeaponFired>,
    ))
        requires
            wf_units(old(self).units@),
            targets_ok(old(self).units@),
            -crate::TIME_LIMIT <= now <= crate::TIME_LIMIT,
            forall|k: int| 0 <= k < plan@.len() ==> plan_entry_ok(
                old(self).units@,
                #[trigger] plan@[k],
                now as int,
                old(self).tick as int,
            ),
        ensures
            final(self).units@.len() == old(self).units@.len(),
            final(self).tick == old(self).tick,
            final(self).last_combat_tick == old(self).last_combat_tick,
            final(self).grid == old(self).grid,
            wf_units(final(self).units@),
            targets_ok(final(self).units@),
            forall|i: int| 0 <= i < old(self).units@.len() ==> refired_unit(
                old(self).units@[i],
                #[trigger] final(self).units@[i],
                now as int,
            ),
            forall|i: int| 0 <= i < old(self).units@.len() && !(#[trigger] old(
                self,
            ).units@[i]).alive ==> final(self).units@[i] == old(self).units@[i],
            forall|i: int, w: int|
                0 <= i < old(self).units@.len() && 0 <= w < old(self).units@[i].weapons@.len()
                    ==> (#[trigger] final(self).units@[i].weapons@[w]).last_fired == (
                if plan_stamped(plan@, i, w) {
                    now
                } else {
                    old(self).units@[i].weapons@[w].last_fired
                }),
            commit_rel(old(self).units@, final(self).units@, plan@, now as int),
            plan@.len() == 0 ==> final(self).units@ == old(self).units@,
            r.0@.len() == plan@.len(),
            forall|k: int| 0 <= k < plan@.len() ==> (#[trigger] r.0@[k]).target_idx == plan@[k].target_idx
                && r.0@[k].attacker_idx == plan@[k].attacker_idx && r.0@[k].damage
                == plan@[k].damage,
            r.1@.len() == plan@.len(),
            forall|k: int| 0 <= k < plan@.len() ==> (#[trigger] r.1@[k]).attacker_id == old(
                self,
            ).units@[plan@[k].attacker_idx as int].id && r.1@[k].target_id == old(
                self,
            ).units@[plan@[k].target_idx as int].id && r.1@[k].weapon_type@ == old(
                self,
            ).units@[plan@[k].attacker_idx as int].weapons@[plan@[k].weapon_idx as int].tag@
                && r.1@[k].impact_time == impact_time_spec(
                plan@[k].distance as int,
                old(self).units@[plan@[k].attacker_idx as int].weapons@[plan@[k].weapon_idx as int].tag@,
            ),
    {
        let mut queue: Vec<DamageEntry> = Vec::new();
        let mut fired: Vec<WeaponFired> = Vec::new();
        let m = plan.len();
        let mut k: usize = 0;
        while k < m
            invariant
                m == plan@.len(),
                k <= m,
                self.units@.len() == old(self).units@.len(),
                self.tick == old(self).tick,
                self.last_combat_tick == old(self).last_combat_tick,
                self.grid == old(self).grid,
                -crate::TIME_LIMIT <= now <= crate::TIME_LIMIT,
                wf_units(old(self).units@),
                forall|t: int| 0 <= t < plan@.len() ==> plan_entry_ok(
                    old(self).units@,
                    #[trigger] plan@[t],
                    now as int,
                    old(self).tick as int,
                ),
                forall|i: int| 0 <= i < old(self).units@.len() ==> refired_unit(
                    old(self).units@[i],
                    #[trigger] self.units@[i],
                    now as int,
                ),
                forall|i: int| 0 <= i < old(self).units@.len() && !(#[trigger] old(
                    self,
                ).units@[i]).alive ==> self.units@[i] == old(self).units@[i],
                forall|i: int, w2: int|
                    0 <= i < old(self).units@.len() && 0 <= w2
                        < old(self).units@[i].weapons@.len() ==> (
                    #[trigger] self.units@[i].weapons@[w2]).last_fired == (if stamped_before(
                        plan@,
                        i,
                        w2,
                        k as int,
                    ) {
                        now
                    } else {
                        old(self).units@[i].weapons@[w2].last_fired
                    }),
                k == 0 ==> self.units@ == old(self).units@,
                queue@.len() == k,
                forall|t: int| 0 <= t < k ==> (#[trigger] queue@[t]).target_idx
                    == plan@[t].target_idx && queue@[t].attacker_idx == plan@[t].attacker_idx
                    && queue@[t].damage == plan@[t].damage,
                fired@.len() == k,
                forall|t: int| 0 <= t < k ==> (#[trigger] fired@[t]).attacker_id == old(
                    self,
                ).units@[plan@[t].attacker_idx as int].id && fired@[t].target_id == old(
                    self,
                ).units@[plan@[t].target_idx as int].id && fired@[t].weapon_type@ == old(
                    self,
                ).units@[plan@[t].attacker_idx as int].weapons@[plan@[t].weapon_idx as int].tag@
                    && fired@[t].impact_time == impact_time_spec(
                    plan@[t].distance as int,
                    old(
                        self,
                    ).units@[plan@[t].attacker_idx as int].weapons@[plan@[t].weapon_idx as int].tag@,
                ),
            decreases m - k,
        {
            let a = plan[k].attacker_idx;
            let ti = plan[k].target_idx;
            let w = plan[k].weapon_idx;
            let damage = plan[k].damage;
            let distance = plan[k].distance;
            proof {
                assert(plan_entry_ok(old(self).units@, plan@[k as int], now as int,
                    old(self).tick as int));
                assert(refired_unit(old(self).units@[a as int], self.units@[a as int], now as int));
            }
            let attacker_id = self.units[a].id;
            let target_id = self.units[ti].id;
            let tag_copy = copy_bytes(&self.units[a].weapons[w].tag);
            proof {
                assert(refired_weapon(old(self).units@[a as int].weapons@[w as int],
                    self.units@[a as int].weapons@[w as int], now as int));
                assert(distance >= 0) by {
                    assert(plan@[k as int].distance == dist_units(
                        old(self).units@[plan@[k as int].attacker_idx as int],
                        old(self).units@[plan@[k as int].target_idx as int],
                    ));
                }
            }
            let impact = calculate_impact_time(distance, &tag_copy);
            let ghost units_before = self.units@;
            {
                let u = unit_mut(&mut self.units, a);
                let wp = weapon_mut(&mut u.weapons, w);
                wp.last_fired = now;
            }
            proof {
                assert forall|i: int, w2: int|
                    0 <= i < old(self).units@.len() && 0 <= w2
                        < old(self).units@[i].weapons@.len() implies (
                #[trigger] self.units@[i].weapons@[w2]).last_fired == (if stamped_before(
                    plan@,
                    i,
                    w2,
                    k + 1,
                ) {
                    now
                } else {
                    old(self).units@[i].weapons@[w2].last_fired
                }) by {
                    lemma_stamped_step(plan@, i, w2, k as int);
                    if i == a as int && w2 == w as int {
                        assert(plan@[k as int].attacker_idx == i && plan@[k as int].weapon_idx
                            == w2);
                        assert(self.units@[i].weapons@[w2].last_fired == now);
                    } else {
                        assert(!(plan@[k as int].attacker_idx == i && plan@[k as int].weapon_idx
                            == w2));
                        if i != a as int {
                            assert(self.units@[i] == units_before[i]);
                        } else {
                            assert(self.units@[i].weapons@[w2] == units_before[i].weapons@[w2]);
                        }
                    }
                }
                assert forall|i: int| 0 <= i < old(self).units@.len() implies refired_unit(
                    old(self).units@[i],
                    #[trigger] self.units@[i],
                    now as int,
                ) by {
                    if i != a as int {
                        assert(self.units@[i] == units_before[i]);
                    } else {
                        assert(self.units@[i].weapons@ == units_before[i].weapons@.update(
                            w as int,
                            Weapon { last_fired: now, ..units_before[i].weapons@[w as int] },
                        ));
                        assert forall|t: int|
                            0 <= t < old(self).units@[i].weapons@.len() implies refired_weapon(
                            old(self).units@[i].weapons@[t],
                            #[trigger] self.units@[i].weapons@[t],
                            now as int,
                        ) by {
                            if t != w as int {
                                assert(self.units@[i].weapons@[t]
                                    == units_before[i].weapons@[t]);
                            }
                        }
                    }
                }
            }
            queue.push(DamageEntry { target_idx: ti, damage, attacker_idx: a });
            fired.push(
                WeaponFired { attacker_id, target_id, weapon_type: tag_copy, impact_time: impact },
            );
            k += 1;
        }
        proof {
            assert forall|i: int| 0 <= i < self.units@.len() implies wf_unit(
                #[trigger] self.units@[i],
            ) by {
                assert(wf_unit(old(self).units@[i]));
                assert(refired_unit(old(self).units@[i], self.units@[i], now as int));
                assert forall|t: int| 0 <= t < self.units@[i].weapons@.len() implies wf_weapon(
                    #[trigger] self.units@[i].weapons@[t],
                ) by {
                    assert(wf_weapon(old(self).units@[i].weapons@[t]));
                    assert(refired_weapon(old(self).units@[i].weapons@[t],
                        self.units@[i].weapons@[t], now as int));
                }
                assert(crate::battle_unit::max_range_of(self.units@[i].weapons@)
                    == crate::battle_unit::max_range_of(old(self).units@[i].weapons@)) by {
                    lemma_max_range_same(old(self).units@[i].weapons@, self.units@[i].weapons@);
                }
            }
            assert forall|i: int| 0 <= i < self.units@.len() implies target_ok(self.units@, i) by {
                lemma_target_ok_after_clears(old(self).units@, self.units@, i);
            }
            assert(commit_rel(old(self).units@, self.units@, plan@, now as int)) by {
                assert forall|i: int, w2: int|
                    0 <= i < old(self).units@.len() && 0 <= w2
                        < old(self).units@[i].weapons@.len() implies (
                #[trigger] self.units@[i].weapons@[w2]) == (Weapon {
                    last_fired: (if plan_stamped(plan@, i, w2) {
                        now
                    } else {
                        old(self).units@[i].weapons@[w2].last_fired
                    }),
                    ..old(self).units@[i].weapons@[w2]
                }) by {
                    assert(refired_unit(old(self).units@[i], self.units@[i], now as int));
                    assert(refired_weapon(old(self).units@[i].weapons@[w2],
                        self.units@[i].weapons@[w2], now as int));
                }
            }
        }
        (queue, fired)
    }
}

/// Weapon sequences that agree on every `max_range` have the same
/// largest range.
proof fn lemma_max_range_same(a: Seq<Weapon>, b: Seq<Weapon>)
    requires
        a.len() == b.len(),
        forall|k: int| 0 <= k < a.len() ==> (#[trigger] b[k]).max_range == a[k].max_range,
    ensures
        crate::battle_unit::max_range_of(a) == crate::battle_unit::max_range_of(b),
    decreases a.len(),
{
    if a.len() > 0 {
        lemma_max_range_same(a.drop_last(), b.drop_last());
    }
}

/// Sum of the queued damage against target index `t` among the first `n`
/// queue entries.
pub open spec fn agg_damage(q: Seq<DamageEntry>, t: int, n: int) -> int
    decreases n,
{
    if n <= 0 {
        0
    } else {
        agg_damage(q, t, n - 1) + (if q[n - 1].target_idx == t {
            q[n - 1].damage as int
        } else {
            0
        })
    }
}

/// Sum of the queued damage credited to attacker index `a` among the
/// first `n` queue entries.
pub open spec fn dealt_damage(q: Seq<DamageEntry>, a: int, n: int) -> int
    decreases n,
{
    if n <= 0 {
        0
    } else {
        dealt_damage(q, a, n - 1) + (if q[n - 1].attacker_idx == a {
            q[n - 1].damage as int
        } else {
            0
        })
    }
}

pub open spec fn sat_of(x: int) -> int {
    if x > i64::MAX {
        i64::MAX as int
    } else {
        x
    }
}

/// The aggregated (saturated) damage total applied to target index `t`.
pub open spec fn unit_total(q: Seq<DamageEntry>, t: int) -> int {
    sat_of(agg_damage(q, t, q.len() as int))
}

/// A unit after its aggregated damage total, untouched when nothing was
/// queued against it.
pub open spec fn post_damage_unit(u: BattleUnit, total: int) -> BattleUnit {
    if total > 0 {
        apply_damage(u, total)
    } else {
        u
    }
}

/// The damage pass destroys unit `i`: it was alive, damage was queued
/// against it, and the total exhausts it.
pub open spec fn is_destroyed(units: Seq<BattleUnit>, q: Seq<DamageEntry>, i: int) -> bool {
    unit_total(q, i) > 0 && units[i].alive && !apply_damage(units[i], unit_total(q, i)).alive
}

/// Ids of the units the damage pass destroys, in index order.
pub open spec fn destroyed_list(units: Seq<BattleUnit>, q: Seq<DamageEntry>, n: int) -> Seq<u32>
    decreases n,
{
    if n <= 0 {
        Seq::empty()
    } else {
        destroyed_list(units, q, n - 1) + (if is_destroyed(units, q, n - 1) {
            seq![units[n - 1].id]
        } else {
            Seq::empty()
        })
    }
}

/// Reports for the units that took damage and survived, in index order.
pub open spec fn damaged_list(units: Seq<BattleUnit>, q: Seq<DamageEntry>, n: int) -> Seq<
    DamagedUnit,
>
    decreases n,
{
    if n <= 0 {
        Seq::empty()
    } else {
        damaged_list(units, q, n - 1) + ({
            let i = n - 1;
            if unit_total(q, i) > 0 && !is_destroyed(units, q, i) {
                seq![
                    DamagedUnit {
                        id: units[i].id,
                        hp: apply_damage(units[i], unit_total(q, i)).hp,
                        shield: apply_damage(units[i], unit_total(q, i)).shield,
                    },
                ]
            } else {
                Seq::empty()
            }
        })
    }
}

/// A unit after the whole damage pass: its aggregated total applied, its
/// own hits credited, and its target cleared when the pass destroyed the
/// pointee.
pub open spec fn apply_phase_unit(
    units: Seq<BattleUnit>,
    q: Seq<DamageEntry>,
    i: int,
) -> BattleUnit {
    let u1 = post_damage_unit(units[i], unit_total(q, i));
    let u2 = BattleUnit {
        damage_dealt: sat_of(u1.damage_dealt + dealt_damage(q, i, q.len() as int)) as i64,
        ..u1
    };
    match u2.target_id {
        Option::Some(t) => if destroyed_list(units, q, units.len() as int).contains(t) {
            BattleUnit { target_id: Option::None, ..u2 }
        } else {
            u2
        },
        Option::None => u2,
    }
}

/// Queued damage sums are never negative.
proof fn lemma_agg_nonneg(q: Seq<DamageEntry>, t: int, n: int)
    requires
        n <= q.len(),
        forall|k: int| 0 <= k < q.len() ==> (#[trigger] q[k]).damage >= 0,
    ensures
        agg_damage(q, t, n) >= 0,
        dealt_damage(q, t, n) >= 0,
    decreases n,
{
    if n > 0 {
        lemma_agg_nonneg(q, t, n - 1);
    }
}

/// An id stands in the destroyed list exactly when its unit was
/// destroyed.
proof fn lemma_destroyed_contains(
    units: Seq<BattleUnit>,
    q: Seq<DamageEntry>,
    n: int,
    id: u32,
)
    requires
        n <= units.len(),
    ensures
        destroyed_list(units, q, n).contains(id) <==> exists|i: int|
            0 <= i < n && #[trigger] is_destroyed(units, q, i) && units[i].id == id,
    decreases n,
{
    if n > 0 {
        lemma_destroyed_contains(units, q, n - 1, id);
        let prev = destroyed_list(units, q, n - 1);
        let cur = destroyed_list(units, q, n);
        if is_destroyed(units, q, n - 1) {
            assert(cur == prev + seq![units[n - 1].id]);
            if cur.contains(id) {
                let k = choose|k: int| 0 <= k < cur.len() && cur[k] == id;
                if k < prev.len() {
                    assert(prev[k] == id);
                    assert(prev.contains(id));
                } else {
                    assert(id == units[n - 1].id);
                }
            }
            if exists|i: int| 0 <= i < n && #[trigger] is_destroyed(units, q, i) && units[i].id
                == id {
                let i = choose|i: int|
                    0 <= i < n && #[trigger] is_destroyed(units, q, i) && units[i].id == id;
                if i < n - 1 {
                    assert(prev.contains(id));
                    let k = choose|k: int| 0 <= k < prev.len() && prev[k] == id;
                    assert(cur[k] == id);
                } else {
                    assert(cur[prev.len() as int] == id);
                }
            }
        } else {
            assert(cur =~= prev);
            if cur.contains(id) {
                assert(prev.contains(id));
            }
            if exists|i: int| 0 <= i < n && #[trigger] is_destroyed(units, q, i) && units[i].id
                == id {
                let i = choose|i: int|
                    0 <= i < n && #[trigger] is_destroyed(units, q, i) && units[i].id == id;
                assert(i < n - 1);
                let k = choose|k: int| 0 <= k < prev.len() && prev[k] == id;
                assert(cur[k] == id);
            }
        }
    }
}

/// Whether a vector of ids holds a given id.
fn contains_u32(v: &Vec<u32>, x: u32) -> (r: bool)
    ensures
        r == v@.contains(x),
{
    let mut i: usize = 0;
    while i < v.len()
        invariant
            i <= v@.len(),
            forall|k: int| 0 <= k < i ==> v@[k] != x,
        decreases v@.len() - i,
    {
        if v[i] == x {
            proof {
                assert(v@[i as int] == x);
            }
            return true;
        }
        i += 1;
    }
    false
}

impl BattleSimulator {
    /// The damage pass of a tick: aggregate the queue per target, apply
    /// each total once, report destructions and damage, credit each
    /// attacker, and clear every target that points at a destroyed unit.
    fn apply_damage_queue(&mut self, queue: &Vec<DamageEntry>) -> (r: (Vec<u32>, Vec<DamagedUnit>))
        requires
            wf_units(old(self).units@),
            targets_ok(old(self).units@),
            forall|k: int| 0 <= k < queue@.len() ==> (#[trigger] queue@[k]).target_idx < old(
                self,
            ).units@.len() && queue@[k].attacker_idx < old(self).units@.len() && queue@[k].damage
                >= 0,
        ensures
            final(self).units@.len() == old(self).units@.len(),
            final(self).tick == old(self).tick,
            final(self).last_combat_tick == old(self).last_combat_tick,
            final(self).grid == old(self).grid,
            wf_units(final(self).units@),
            targets_ok(final(self).units@),
            forall|i: int| 0 <= i < old(self).units@.len() ==> final(self).units@[i]
                == apply_phase_unit(old(self).units@, queue@, i),
            r.0@ == destroyed_list(old(self).units@, queue@, old(self).units@.len() as int),
            r.1@ == damaged_list(old(self).units@, queue@, old(self).units@.len() as int),
            queue@.len() == 0 ==> final(self).units@ == old(self).units@,
    {
        let n = self.units.len();
        let m = queue.len();

        let mut totals: Vec<i64> = Vec::new();
        let mut i: usize = 0;
        while i < n
            invariant
                i <= n,
                totals@.len() == i,
                forall|t: int| 0 <= t < i ==> totals@[t] == 0,
            decreases n - i,
        {
            totals.push(0);
            i += 1;
        }

        let mut k: usize = 0;
        while k < m
            invariant
                m == queue@.len(),
                k <= m,
                n == old(self).units@.len(),
                totals@.len() == n,
                forall|t: int| 0 <= t < queue@.len() ==> (#[trigger] queue@[t]).target_idx < n
                    && queue@[t].attacker_idx < n && queue@[t].damage >= 0,
                forall|t: int| 0 <= t < n ==> totals@[t] == sat_of(
                    agg_damage(queue@, t, k as int),
                ) && totals@[t] >= 0,
            decreases m - k,
        {
            let et = queue[k].target_idx;
            let ed = queue[k].damage;
            proof {
                lemma_agg_nonneg(queue@, et as int, k as int);
            }
            let cur = totals[et];
            let nv = sat_add_i64(cur, ed);
            totals.set(et, nv);
            k += 1;
        }
        proof {
            assert forall|t: int| 0 <= t < n implies totals@[t] == unit_total(queue@, t) by {
                assert(totals@[t] == sat_of(agg_damage(queue@, t, m as int)));
            }
        }

        let mut destroyed: Vec<u32> = Vec::new();
        let mut damaged: Vec<DamagedUnit> = Vec::new();
        let mut s: usize = 0;
        while s < n
            invariant
                n == old(self).units@.len(),
                n == self.units@.len(),
                s <= n,
                m == queue@.len(),
                totals@.len() == n,
                self.tick == old(self).tick,
                self.last_combat_tick == old(self).last_combat_tick,
                self.grid == old(self).grid,
                wf_units(old(self).units@),
                forall|t: int| 0 <= t < n ==> totals@[t] == unit_total(queue@, t),
                forall|t: int| 0 <= t < s ==> self.units@[t] == post_damage_unit(
                    old(self).units@[t],
                    unit_total(queue@, t),
                ),
                forall|t: int| s <= t < n ==> self.units@[t] == old(self).units@[t],
                forall|t: int| 0 <= t < n ==> wf_unit(#[trigger] self.units@[t]),
                destroyed@ == destroyed_list(old(self).units@, queue@, s as int),
                damaged@ == damaged_list(old(self).units@, queue@, s as int),
            decreases n - s,
        {
            let total = totals[s];
            if total > 0 {
                let was_alive = self.units[s].alive;
                let ghost before = self.units@;
                let id: u32;
                let hp_now: i64;
                let shield_now: i64;
                let now_alive: bool;
                {
                    let u = unit_mut(&mut self.units, s);
                    u.take_damage(total);
                    id = u.id;
                    hp_now = u.hp;
                    shield_now = u.shield;
                    now_alive = u.alive;
                }
                proof {
                    assert(self.units@[s as int] == apply_damage(old(self).units@[s as int],
                        total as int));
                }
                if was_alive && !now_alive {
                    destroyed.push(id);
                    proof {
                        assert(is_destroyed(old(self).units@, queue@, s as int));
                        assert(destroyed@ =~= destroyed_list(old(self).units@, queue@, s + 1));
                        assert(damaged@ =~= damaged_list(old(self).units@, queue@, s + 1));
                    }
                } else {
                    damaged.push(DamagedUnit { id, hp: hp_now, shield: shield_now });
                    proof {
                        assert(!is_destroyed(old(self).units@, queue@, s as int));
                        assert(destroyed@ =~= destroyed_list(old(self).units@, queue@, s + 1));
                        assert(damaged@ =~= damaged_list(old(self).units@, queue@, s + 1));
                    }
                }
            } else {
                proof {
                    assert(destroyed@ =~= destroyed_list(old(self).units@, queue@, s + 1));
                    assert(damaged@ =~= damaged_list(old(self).units@, queue@, s + 1));
                }
            }
            s += 1;
        }

        let mut c: usize = 0;
        while c < m
            invariant
                n == old(self).units@.len(),
                n == self.units@.len(),
                c <= m,
                m == queue@.len(),
                self.tick == old(self).tick,
                self.last_combat_tick == old(self).last_combat_tick,
                self.grid == old(self).grid,
                wf_units(old(self).units@),
                forall|t: int| 0 <= t < queue@.len() ==> (#[trigger] queue@[t]).target_idx < n
                    && queue@[t].attacker_idx < n && queue@[t].damage >= 0,
                forall|t: int| 0 <= t < n ==> self.units@[t] == (BattleUnit {
                    damage_dealt: sat_of(
                        post_damage_unit(old(self).units@[t], unit_total(queue@, t)).damage_dealt
                            + dealt_damage(queue@, t, c as int),
                    ) as i64,
                    ..post_damage_unit(old(self).units@[t], unit_total(queue@, t))
                }),
                forall|t: int| 0 <= t < n ==> wf_unit(#[trigger] self.units@[t]),
            decreases m - c,
        {
            let a = queue[c].attacker_idx;
            let d = queue[c].damage;
            proof {
                lemma_agg_nonneg(queue@, a as int, c as int);
                assert(post_damage_unit(old(self).units@[a as int], unit_total(
                    queue@,
                    a as int,
                )).damage_dealt >= 0) by {
                    assert(wf_unit(old(self).units@[a as int]));
                }
            }
            let u = unit_mut(&mut self.units, a);
            let nv = sat_add_i64(u.damage_dealt, d);
            u.damage_dealt = nv;
            c += 1;
        }

        let mut z: usize = 0;
        while z < n
            invariant
                n == old(self).units@.len(),
                n == self.units@.len(),
                z <= n,
                m == queue@.len(),
                self.tick == old(self).tick,
                self.last_combat_tick == old(self).last_combat_tick,
                self.grid == old(self).grid,
                wf_units(old(self).units@),
                destroyed@ == destroyed_list(old(self).units@, queue@, n as int),
                damaged@ == damaged_list(old(self).units@, queue@, n as int),
                forall|t: int| 0 <= t < z ==> self.units@[t] == apply_phase_unit(
                    old(self).units@,
                    queue@,
                    t,
                ),
                forall|t: int| z <= t < n ==> self.units@[t] == (BattleUnit {
                    damage_dealt: sat_of(
                        post_damage_unit(old(self).units@[t], unit_total(queue@, t)).damage_dealt
                            + dealt_damage(queue@, t, m as int),
                    ) as i64,
                    ..post_damage_unit(old(self).units@[t], unit_total(queue@, t))
                }),
                forall|t: int| 0 <= t < n ==> wf_unit(#[trigger] self.units@[t]),
            decreases n - z,
        {
            let topt = self.units[z].target_id;
            if let Some(t) = topt {
                if contains_u32(&destroyed, t) {
                    let u = unit_mut(&mut self.units, z);
                    u.target_id = None;
                }
            }
            z += 1;
        }

        proof {
            assert forall|i2: int| 0 <= i2 < self.units@.len() implies target_ok(
                self.units@,
                i2,
            ) by {
                match self.units@[i2].target_id {
                    Option::None => {},
                    Option::Some(t) => {
                        assert(self.units@[i2] == apply_phase_unit(old(self).units@, queue@, i2));
                        assert(old(self).units@[i2].target_id == Option::Some(t));
                        assert(!destroyed_list(old(self).units@, queue@, n as int).contains(t));
                        assert(target_ok(old(self).units@, i2));
                        let j = choose|j: int|
                            0 <= j < old(self).units@.len() && (#[trigger] old(
                                self,
                            ).units@[j]).id == t && old(self).units@[j].alive && old(
                                self,
                            ).units@[j].faction_id != old(self).units@[i2].faction_id;
                        assert(self.units@[j] == apply_phase_unit(old(self).units@, queue@, j));
                        if !self.units@[j].alive {
                            assert(is_destroyed(old(self).units@, queue@, j));
                            lemma_destroyed_contains(old(self).units@, queue@, n as int, t);
                        }
                    },
                }
            }
            if queue@.len() == 0 {
                assert forall|i2: int| 0 <= i2 < n implies self.units@[i2] == old(
                    self,
                ).units@[i2] by {
                    assert(self.units@[i2] == apply_phase_unit(old(self).units@, queue@, i2));
                    assert(unit_total(queue@, i2) == 0);
                    assert(dealt_damage(queue@, i2, 0) == 0);
                    assert(wf_unit(old(self).units@[i2]));
                    match old(self).units@[i2].target_id {
                        Option::None => {},
                        Option::Some(t) => {
                            lemma_destroyed_contains(old(self).units@, queue@, n as int, t);
                            if destroyed_list(old(self).units@, queue@, n as int).contains(t) {
                                let w = choose|w: int|
                                    0 <= w < n && #[trigger] is_destroyed(
                                        old(self).units@,
                                        queue@,
                                        w,
                                    ) && old(self).units@[w].id == t;
                                assert(unit_total(queue@, w) == 0);
                            }
                        },
                    }
                }
                assert(self.units@ =~= old(self).units@);
            }
        }
        (destroyed, damaged)
    }
}

impl BattleSimulator {
    /// The shield regeneration pass of a tick.
    fn regen_all(&mut self, dt: i64)
        requires
            wf_units(old(self).units@),
            targets_ok(old(self).units@),
            0 <= dt <= crate::DT_LIMIT,
        ensures
            final(self).units@.len() == old(self).units@.len(),
            final(self).tick == old(self).tick,
            final(self).last_combat_tick == old(self).last_combat_tick,
            final(self).grid == old(self).grid,
            wf_units(final(self).units@),
            targets_ok(final(self).units@),
            forall|i: int| 0 <= i < old(self).units@.len() ==> final(self).units@[i] == (
            if old(self).units@[i].alive {
                regen_shield_spec(old(self).units@[i], dt as int)
            } else {
                old(self).units@[i]
            }),
    {
        let n = self.units.len();
        let mut i: usize = 0;
        while i < n
            invariant
                n == old(self).units@.len(),
                n == self.units@.len(),
                i <= n,
                0 <= dt <= crate::DT_LIMIT,
                self.tick == old(self).tick,
                self.last_combat_tick == old(self).last_combat_tick,
                self.grid == old(self).grid,
                wf_units(old(self).units@),
                forall|t: int| 0 <= t < i ==> self.units@[t] == (
                if old(self).units@[t].alive {
                    regen_shield_spec(old(self).units@[t], dt as int)
                } else {
                    old(self).units@[t]
                }),
                forall|t: int| i <= t < n ==> self.units@[t] == old(self).units@[t],
                forall|t: int| 0 <= t < n ==> wf_unit(#[trigger] self.units@[t]),
            decreases n - i,
        {
            let alive = self.units[i].alive;
            if alive {
                let u = unit_mut(&mut self.units, i);
                u.regen_shield(dt);
            }
            i += 1;
        }
        proof {
            assert forall|t: int| 0 <= t < self.units@.len() implies target_ok(self.units@, t) by {
                lemma_target_ok_after_clears(old(self).units@, self.units@, t);
            }
        }
    }
}

/// Weapons of `b` differ from `a` only in their discharge clocks.
pub open spec fn same_identity(a: BattleUnit, b: BattleUnit) -> bool {
    &&& b.id == a.id
    &&& b.faction_id == a.faction_id
    &&& b.player_id == a.player_id
    &&& b.max_hp == a.max_hp
    &&& b.max_shield == a.max_shield
    &&& b.shield_regen == a.shield_regen
    &&& b.armor == a.armor
    &&& b.max_speed == a.max_speed
    &&& b.unit_type@ == a.unit_type@
    &&& b.is_ship == a.is_ship
    &&& b.is_station == a.is_station
    &&& b.has_weapons == a.has_weapons
    &&& b.view_range == a.view_range
    &&& b.max_weapon_range == a.max_weapon_range
    &&& b.weapons@.len() == a.weapons@.len()
    &&& forall|k: int| 0 <= k < a.weapons@.len() ==> (#[trigger] b.weapons@[k]) == (Weapon {
        last_fired: b.weapons@[k].last_fired,
        ..a.weapons@[k]
    })
}

/// Ids of the units that died during a tick, in index order.
pub open spec fn tick_destroyed(pre: Seq<BattleUnit>, post: Seq<BattleUnit>, n: int) -> Seq<u32>
    decreases n,
{
    if n <= 0 {
        Seq::empty()
    } else {
        tick_destroyed(pre, post, n - 1) + (if pre[n - 1].alive && !post[n - 1].alive {
            seq![pre[n - 1].id]
        } else {
            Seq::empty()
        })
    }
}

/// Every living unit's every weapon is still cooling down at `now`.
pub open spec fn all_on_cooldown(units: Seq<BattleUnit>, now: int) -> bool {
    forall|a: int, w: int|
        0 <= a < units.len() && units[a].alive && 0 <= w < units[a].weapons@.len() ==> now < (
        #[trigger] units[a].weapons@[w]).last_fired + units[a].weapons@[w].cooldown
}

/// Every living armed unit holds a target that is valid at `units`.
pub open spec fn all_targets_fresh(units: Seq<BattleUnit>) -> bool {
    forall|i: int|
        0 <= i < units.len() && (#[trigger] units[i]).alive && units[i].has_weapons
            ==> units[i].target_id is Some && (units[i].target_id matches Some(t)
            && target_valid_spec(units, i, t))
}

/// The per-phase destroyed list coincides with the tick-level one when
/// liveness before and after agree pointwise.
proof fn lemma_tick_destroyed_agrees(
    pre: Seq<BattleUnit>,
    mid: Seq<BattleUnit>,
    post: Seq<BattleUnit>,
    q: Seq<DamageEntry>,
    n: int,
)
    requires
        n <= pre.len(),
        n <= mid.len(),
        n <= post.len(),
        forall|i: int| 0 <= i < n ==> (#[trigger] pre[i]).alive == mid[i].alive && pre[i].id
            == mid[i].id,
        forall|i: int| 0 <= i < n ==> (#[trigger] post[i]).alive == post_damage_unit(
            mid[i],
            unit_total(q, i),
        ).alive,
    ensures
        destroyed_list(mid, q, n) == tick_destroyed(pre, post, n),
    decreases n,
{
    if n > 0 {
        lemma_tick_destroyed_agrees(pre, mid, post, q, n - 1);
        let i = n - 1;
        assert(is_destroyed(mid, q, i) == (pre[i].alive && !post[i].alive)) by {
            if unit_total(q, i) == 0 {
                assert(post_damage_unit(mid[i], unit_total(q, i)) == mid[i]);
            }
        }
        assert(destroyed_list(mid, q, n) =~= tick_destroyed(pre, post, n));
    }
}

/// With no queued damage, nothing is destroyed and nothing is damaged.
proof fn lemma_empty_queue_lists(units: Seq<BattleUnit>, q: Seq<DamageEntry>, n: int)
    requires
        q.len() == 0,
        n <= units.len(),
    ensures
        destroyed_list(units, q, n) == Seq::<u32>::empty(),
        damaged_list(units, q, n) == Seq::<DamagedUnit>::empty(),
    decreases n,
{
    if n > 0 {
        lemma_empty_queue_lists(units, q, n - 1);
        assert(unit_total(q, n - 1) == 0);
        assert(destroyed_list(units, q, n) =~= Seq::<u32>::empty());
        assert(damaged_list(units, q, n) =~= Seq::<DamagedUnit>::empty());
    }
}

/// A queue that never names index `i` contributes no damage to it and
/// credits it nothing.
proof fn lemma_agg_zero(q: Seq<DamageEntry>, i: int, n: int)
    requires
        n <= q.len(),
    ensures
        (forall|k: int| 0 <= k < q.len() ==> (#[trigger] q[k]).target_idx != i) ==> agg_damage(
            q,
            i,
            n,
        ) == 0,
        (forall|k: int| 0 <= k < q.len() ==> (#[trigger] q[k]).attacker_idx != i)
            ==> dealt_damage(q, i, n) == 0,
    decreases n,
{
    if n > 0 {
        lemma_agg_zero(q, i, n - 1);
    }
}

/// A member of the damaged report names a unit that survived the pass.
proof fn lemma_damaged_member(
    units: Seq<BattleUnit>,
    q: Seq<DamageEntry>,
    n: int,
    k: int,
)
    requires
        n <= units.len(),
        0 <= k < damaged_list(units, q, n).len(),
    ensures
        exists|i: int|
            0 <= i < n && unit_total(q, i) > 0 && !is_destroyed(units, q, i)
                && #[trigger] damaged_list(units, q, n)[k] == (DamagedUnit {
                id: units[i].id,
                hp: apply_damage(units[i], unit_total(q, i)).hp,
                shield: apply_damage(units[i], unit_total(q, i)).shield,
            }),
    decreases n,
{
    if n > 0 {
        let prev = damaged_list(units, q, n - 1);
        if k < prev.len() {
            lemma_damaged_member(units, q, n - 1, k);
            let i = choose|i: int|
                0 <= i < n - 1 && unit_total(q, i) > 0 && !is_destroyed(units, q, i)
                    && #[trigger] damaged_list(units, q, n - 1)[k] == (DamagedUnit {
                    id: units[i].id,
                    hp: apply_damage(units[i], unit_total(q, i)).hp,
                    shield: apply_damage(units[i], unit_total(q, i)).shield,
                });
            assert(damaged_list(units, q, n)[k] == damaged_list(units, q, n - 1)[k]);
        } else {
            assert(unit_total(q, n - 1) > 0 && !is_destroyed(units, q, n - 1));
            assert(damaged_list(units, q, n)[k] == (DamagedUnit {
                id: units[n - 1].id,
                hp: apply_damage(units[n - 1], unit_total(q, n - 1)).hp,
                shield: apply_damage(units[n - 1], unit_total(q, n - 1)).shield,
            }));
        }
    }
}

/// Positive aggregated damage means some queue entry names the target.
proof fn lemma_agg_pos(q: Seq<DamageEntry>, i: int, n: int)
    requires
        n <= q.len(),
        agg_damage(q, i, n) > 0,
    ensures
        exists|k: int| 0 <= k < n && (#[trigger] q[k]).target_idx == i,
    decreases n,
{
    if n > 0 {
        if q[n - 1].target_idx == i {
        } else {
            lemma_agg_pos(q, i, n - 1);
        }
    }
}


/// Phase relation: target acquisition changed nothing but targets, and
/// left dead or unarmed units alone.
pub open spec fn rel_acquire(s0: Seq<BattleUnit>, s1: Seq<BattleUnit>) -> bool {
    &&& s1.len() == s0.len()
    &&& forall|i: int| 0 <= i < s0.len() ==> #[trigger] s1[i] == (BattleUnit {
        target_id: s1[i].target_id,
        ..s0[i]
    })
    &&& forall|i: int| 0 <= i < s0.len() && !((#[trigger] s0[i]).alive && s0[i].has_weapons)
        ==> s1[i] == s0[i]
}

/// Phase relation: the commit pass only stamped discharge clocks, and
/// left dead units alone.
pub open spec fn rel_commit(s1: Seq<BattleUnit>, s2: Seq<BattleUnit>, now: int) -> bool {
    &&& s2.len() == s1.len()
    &&& forall|i: int| 0 <= i < s1.len() ==> refired_unit(s1[i], #[trigger] s2[i], now)
    &&& forall|i: int| 0 <= i < s1.len() && !(#[trigger] s1[i]).alive ==> s2[i] == s1[i]
}

/// Phase relation: the damage pass produced exactly the composed
/// per-unit outcome.
pub open spec fn rel_apply(s2: Seq<BattleUnit>, s3: Seq<BattleUnit>, q: Seq<DamageEntry>) -> bool {
    &&& s3.len() == s2.len()
    &&& forall|i: int| 0 <= i < s2.len() ==> #[trigger] s3[i] == apply_phase_unit(s2, q, i)
}

/// Phase relation: regeneration touched only living units' shields.
pub open spec fn rel_regen(s3: Seq<BattleUnit>, s4: Seq<BattleUnit>, dt: int) -> bool {
    &&& s4.len() == s3.len()
    &&& forall|i: int| 0 <= i < s3.len() ==> #[trigger] s4[i] == (if s3[i].alive {
        regen_shield_spec(s3[i], dt)
    } else {
        s3[i]
    })
}


/// Every damaged entry names a unit that was alive before the tick and
/// is still alive after it.
pub open spec fn damaged_sound(
    pre: Seq<BattleUnit>,
    post: Seq<BattleUnit>,
    dm: Seq<DamagedUnit>,
) -> bool {
    forall|k: int| #![trigger dm[k]] 0 <= k < dm.len() ==> has_live_id(pre, dm[k].id)
        && has_live_id(post, dm[k].id)
}

/// Some living armed unit bears the attacker id, and some living unit of
/// another faction bears the target id.
pub open spec fn hostile_pair(units: Seq<BattleUnit>, aid: u32, tid: u32) -> bool {
    exists|a: int, t: int|
        0 <= a < units.len() && 0 <= t < units.len() && (#[trigger] units[a]).alive
            && units[a].has_weapons && (#[trigger] units[t]).alive && units[a].faction_id
            != units[t].faction_id && units[a].id == aid && units[t].id == tid
}

/// Every reported discharge pairs a living armed attacker with a living
/// enemy of another faction.
pub open spec fn fired_sound(pre: Seq<BattleUnit>, wf: Seq<WeaponFired>) -> bool {
    forall|k: int| #![trigger wf[k]] 0 <= k < wf.len() ==> hostile_pair(
        pre,
        wf[k].attacker_id,
        wf[k].target_id,
    )
}

/// The whole-tick unit relation assembled from the four phases.
proof fn lemma_tick_units(
    s0: Seq<BattleUnit>,
    s1: Seq<BattleUnit>,
    s2: Seq<BattleUnit>,
    s3: Seq<BattleUnit>,
    s4: Seq<BattleUnit>,
    plang: Seq<FirePlan>,
    q: Seq<DamageEntry>,
    now: int,
    tick: int,
    dt: int,
)
    requires
        rel_acquire(s0, s1),
        rel_commit(s1, s2, now),
        rel_apply(s2, s3, q),
        rel_regen(s3, s4, dt),
        wf_units(s2),
        q.len() == plang.len(),
        forall|k: int| 0 <= k < plang.len() ==> plan_entry_ok(s1, #[trigger] plang[k], now, tick),
        forall|k: int| 0 <= k < q.len() ==> (#[trigger] q[k]).target_idx
            == plang[k].target_idx && q[k].attacker_idx == plang[k].attacker_idx && q[k].damage
            == plang[k].damage,
    ensures
        forall|i: int| 0 <= i < s0.len() ==> same_identity(s0[i], #[trigger] s4[i]),
        forall|i: int| 0 <= i < s0.len() && (#[trigger] s4[i]).alive ==> s0[i].alive,
        forall|i: int| 0 <= i < s0.len() && !(#[trigger] s0[i]).alive ==> s4[i] == (BattleUnit {
            target_id: s4[i].target_id,
            ..s0[i]
        }) && (s4[i].target_id == s0[i].target_id || s4[i].target_id is None),
        forall|i: int| 0 <= i < s0.len() ==> (#[trigger] s0[i]).alive == s2[i].alive && s0[i].id
            == s2[i].id,
        forall|i: int| 0 <= i < s0.len() ==> (#[trigger] s4[i]).alive == post_damage_unit(
            s2[i],
            unit_total(q, i),
        ).alive && s4[i].id == s2[i].id,
{
    let n = s0.len() as int;
    assert forall|i: int| 0 <= i < n implies (#[trigger] s3[i]).weapons == s2[i].weapons
        && s3[i].alive == post_damage_unit(s2[i], unit_total(q, i)).alive && s3[i].id
        == s2[i].id by {
        assert(s3[i] == apply_phase_unit(s2, q, i));
    }
    assert forall|i: int| 0 <= i < n implies (#[trigger] s4[i]).weapons == s3[i].weapons
        && s4[i].alive == s3[i].alive && s4[i].id == s3[i].id && s4[i].target_id
        == s3[i].target_id by {
        if s3[i].alive {
            assert(s4[i] == regen_shield_spec(s3[i], dt));
        }
    }
    assert forall|i: int| 0 <= i < n implies same_identity(s0[i], #[trigger] s4[i]) by {
        assert(s1[i] == (BattleUnit { target_id: s1[i].target_id, ..s0[i] }));
        assert(refired_unit(s1[i], s2[i], now));
        assert(s3[i] == apply_phase_unit(s2, q, i));
        if s3[i].alive {
            assert(s4[i] == regen_shield_spec(s3[i], dt));
        } else {
            assert(s4[i] == s3[i]);
        }
        assert(s4[i].weapons == s2[i].weapons);
        assert forall|k: int| 0 <= k < s0[i].weapons@.len() implies (
        #[trigger] s4[i].weapons@[k]) == (Weapon {
            last_fired: s4[i].weapons@[k].last_fired,
            ..s0[i].weapons@[k]
        }) by {
            assert(refired_weapon(s1[i].weapons@[k], s2[i].weapons@[k], now));
        }
    }
    assert forall|i: int| 0 <= i < n && (#[trigger] s4[i]).alive implies s0[i].alive by {
        assert(s1[i].alive == s0[i].alive);
        assert(s2[i].alive == s1[i].alive);
        if !s2[i].alive {
            assert(wf_unit(s2[i]));
            assert(s2[i].hp == 0);
            assert(!post_damage_unit(s2[i], unit_total(q, i)).alive);
        }
    }
    assert forall|i: int| 0 <= i < n && !(#[trigger] s0[i]).alive implies s4[i] == (BattleUnit {
        target_id: s4[i].target_id,
        ..s0[i]
    }) && (s4[i].target_id == s0[i].target_id || s4[i].target_id is None) by {
        assert(s1[i] == s0[i]);
        assert(s2[i] == s1[i]);
        assert forall|k: int| 0 <= k < q.len() implies (#[trigger] q[k]).target_idx != i
            && q[k].attacker_idx != i by {
            assert(plan_entry_ok(s1, plang[k], now, tick));
        }
        lemma_agg_zero(q, i, q.len() as int);
        assert(unit_total(q, i) == 0);
        assert(dealt_damage(q, i, q.len() as int) == 0);
        assert(s3[i] == apply_phase_unit(s2, q, i));
        assert(post_damage_unit(s2[i], 0) == s2[i]);
        assert(wf_unit(s2[i]));
        assert(sat_of(s2[i].damage_dealt + 0) == s2[i].damage_dealt as int);
        assert(!s3[i].alive);
        assert(s4[i] == s3[i]);
    }
    assert forall|i: int| 0 <= i < n implies ((#[trigger] s0[i]).alive == s2[i].alive && s0[i].id
        == s2[i].id) by {
        assert(s1[i].alive == s0[i].alive && s1[i].id == s0[i].id);
    }
}

/// Every damaged entry of the report names a unit that survived.
proof fn lemma_tick_damaged(
    s0: Seq<BattleUnit>,
    s1: Seq<BattleUnit>,
    s2: Seq<BattleUnit>,
    s4: Seq<BattleUnit>,
    plang: Seq<FirePlan>,
    q: Seq<DamageEntry>,
    dm: Seq<DamagedUnit>,
    now: int,
    tick: int,
)
    requires
        s1.len() == s0.len(),
        s2.len() == s0.len(),
        s4.len() == s0.len(),
        forall|i: int| 0 <= i < s0.len() ==> (#[trigger] s0[i]).alive == s1[i].alive && s0[i].id
            == s1[i].id,
        forall|i: int| 0 <= i < s0.len() ==> (#[trigger] s0[i]).alive == s2[i].alive && s0[i].id
            == s2[i].id,
        forall|i: int| 0 <= i < s0.len() ==> (#[trigger] s4[i]).alive == post_damage_unit(
            s2[i],
            unit_total(q, i),
        ).alive && s4[i].id == s2[i].id,
        q.len() == plang.len(),
        forall|k: int| 0 <= k < plang.len() ==> plan_entry_ok(s1, #[trigger] plang[k], now, tick),
        forall|k: int| 0 <= k < q.len() ==> (#[trigger] q[k]).target_idx == plang[k].target_idx
            && q[k].attacker_idx == plang[k].attacker_idx && q[k].damage == plang[k].damage,
        dm == damaged_list(s2, q, s0.len() as int),
    ensures
        damaged_sound(s0, s4, dm),
{
    let n = s0.len() as int;
    assert forall|k: int| #![trigger dm[k]] 0 <= k < dm.len() implies has_live_id(s0, dm[k].id)
        && has_live_id(s4, dm[k].id) by {
        lemma_damaged_member(s2, q, n, k);
        let i = choose|i: int|
            0 <= i < n && unit_total(q, i) > 0 && !is_destroyed(s2, q, i)
                && #[trigger] damaged_list(s2, q, n)[k] == (DamagedUnit {
                id: s2[i].id,
                hp: apply_damage(s2[i], unit_total(q, i)).hp,
                shield: apply_damage(s2[i], unit_total(q, i)).shield,
            });
        assert(agg_damage(q, i, q.len() as int) > 0) by {
            if agg_damage(q, i, q.len() as int) <= 0 {
                assert(unit_total(q, i) <= 0);
            }
        }
        lemma_agg_pos(q, i, q.len() as int);
        let ke = choose|ke: int| 0 <= ke < q.len() && (#[trigger] q[ke]).target_idx == i;
        assert(plan_entry_ok(s1, plang[ke], now, tick));
        assert(s1[i].alive);
        assert(s0[i].alive);
        assert(s2[i].alive);
        assert(s4[i].alive == apply_damage(s2[i], unit_total(q, i)).alive);
        assert(s4[i].alive);
        assert(s4[i].id == s2[i].id && s2[i].id == s0[i].id);
        assert(dm[k].id == s2[i].id);
        assert(0 <= i < s0.len() && s0[i].alive && s4[i].alive && s4[i].id == dm[k].id);
        assert(has_live_id(s0, dm[k].id));
        assert(has_live_id(s4, dm[k].id));
    }
}

/// Every reported discharge pairs a living armed attacker with a living
/// enemy.
proof fn lemma_tick_fired(
    s0: Seq<BattleUnit>,
    s1: Seq<BattleUnit>,
    plang: Seq<FirePlan>,
    wf: Seq<WeaponFired>,
    now: int,
    tick: int,
)
    requires
        rel_acquire(s0, s1),
        wf_units(s1),
        targets_ok(s1),
        forall|k: int| 0 <= k < plang.len() ==> plan_entry_ok(s1, #[trigger] plang[k], now, tick),
        wf.len() == plang.len(),
        forall|k: int| 0 <= k < plang.len() ==> (#[trigger] wf[k]).attacker_id
            == s1[plang[k].attacker_idx as int].id && wf[k].target_id
            == s1[plang[k].target_idx as int].id,
    ensures
        fired_sound(s0, wf),
{
    assert forall|k: int| #![trigger wf[k]] 0 <= k < wf.len() implies hostile_pair(
        s0,
        wf[k].attacker_id,
        wf[k].target_id,
    ) by {
        assert(plan_entry_ok(s1, plang[k], now, tick));
        let a = plang[k].attacker_idx as int;
        let t = plang[k].target_idx as int;
        assert(target_ok(s1, a));
        let j = choose|j: int|
            0 <= j < s1.len() && (#[trigger] s1[j]).id == s1[t].id && s1[j].alive
                && s1[j].faction_id != s1[a].faction_id;
        if j != t {
            assert(s1[j].id != s1[t].id);
        }
        assert(s1[a].faction_id != s1[t].faction_id);
        assert(s1[a] == (BattleUnit { target_id: s1[a].target_id, ..s0[a] }));
        assert(s1[t] == (BattleUnit { target_id: s1[t].target_id, ..s0[t] }));
        assert(s0[a].alive && s0[a].has_weapons && s0[t].alive && s0[a].faction_id
            != s0[t].faction_id);
        assert(wf[k].attacker_id == s0[a].id && wf[k].target_id == s0[t].id);
        assert(0 <= a < s0.len() && 0 <= t < s0.len() && s0[a].alive && s0[a].has_weapons
            && s0[t].alive && s0[a].faction_id != s0[t].faction_id && s0[a].id
            == wf[k].attacker_id && s0[t].id == wf[k].target_id);
        assert(hostile_pair(s0, wf[k].attacker_id, wf[k].target_id));
    }
}


/// When every living weapon is cooling down, nothing can fire after the
/// acquisition pass either.
proof fn lemma_no_fire_when_cooling(
    s0: Seq<BattleUnit>,
    s1: Seq<BattleUnit>,
    now: int,
    tick: int,
)
    requires
        rel_acquire(s0, s1),
        all_on_cooldown(s0, now),
    ensures
        no_fire_possible(s1, now, tick),
{
    assert forall|a: int, t: int, w: int|
        0 <= a < s1.len() && 0 <= t < s1.len() && 0 <= w < s1[a].weapons@.len() && s1[a].alive
            && s1[a].has_weapons && s1[a].target_id == Some(s1[t].id) && s1[t].alive implies !#[trigger] fire_ok(
        s1[a],
        s1[t],
        s1[a].weapons@[w],
        now,
        tick,
    ) by {
        assert(s1[a] == (BattleUnit { target_id: s1[a].target_id, ..s0[a] }));
        assert(s1[a].weapons == s0[a].weapons);
        assert(s0[a].alive);
        assert(now < s0[a].weapons@[w].last_fired + s0[a].weapons@[w].cooldown);
    }
}

/// With no time passing and every weapon cooling down, a tick leaves all
/// but the targets untouched.
proof fn lemma_tick_quiet(
    s0: Seq<BattleUnit>,
    s1: Seq<BattleUnit>,
    s2: Seq<BattleUnit>,
    s3: Seq<BattleUnit>,
    s4: Seq<BattleUnit>,
    q: Seq<DamageEntry>,
    now: int,
    tick: int,
)
    requires
        rel_acquire(s0, s1),
        rel_apply(s2, s3, q),
        rel_regen(s3, s4, 0),
        s2 == s1,
        q.len() == 0,
    ensures
        forall|i: int| 0 <= i < s0.len() ==> #[trigger] s4[i] == (BattleUnit {
            target_id: s4[i].target_id,
            ..s0[i]
        }),
        forall|i: int| 0 <= i < s0.len() ==> (#[trigger] s4[i]).target_id == s1[i].target_id,
{
    assert forall|i: int| 0 <= i < s0.len() implies #[trigger] s4[i] == (BattleUnit {
        target_id: s4[i].target_id,
        ..s0[i]
    }) && s4[i].target_id == s1[i].target_id by {
        assert(s3[i] == apply_phase_unit(s2, q, i));
        assert(unit_total(q, i) == 0);
        assert(dealt_damage(q, i, 0) == 0);
        assert(post_damage_unit(s2[i], 0) == s2[i]);
        match s2[i].target_id {
            Option::None => {},
            Option::Some(t2) => {
                lemma_destroyed_contains(s2, q, s2.len() as int, t2);
                if destroyed_list(s2, q, s2.len() as int).contains(t2) {
                    let w = choose|w: int|
                        0 <= w < s2.len() && #[trigger] is_destroyed(s2, q, w) && s2[w].id == t2;
                    assert(unit_total(q, w) == 0);
                }
            },
        }
        assert(sat_of(s2[i].damage_dealt + 0) == s2[i].damage_dealt as int || s2[i].damage_dealt
            == i64::MAX);
        assert(s3[i] == s2[i] || s3[i] == (BattleUnit {
            damage_dealt: s2[i].damage_dealt,
            ..s2[i]
        }));
        assert(s3[i] == s2[i]);
        if s3[i].alive {
            assert(s4[i] == regen_shield_spec(s3[i], 0));
            assert((s3[i].shield_regen as int) * 0 == 0);
            if s3[i].shield < s3[i].max_shield && s3[i].shield_regen > 0 {
                assert(s4[i] == (BattleUnit { shield: s3[i].shield, ..s3[i] }));
            }
            assert(s4[i] == s3[i]);
        } else {
            assert(s4[i] == s3[i]);
        }
        assert(s1[i] == (BattleUnit { target_id: s1[i].target_id, ..s0[i] }));
    }
}

impl BattleSimulator {
    /// Advance the battle by one tick: rebuild the grid over the living
    /// units, acquire and validate targets, resolve weapon fire, apply
    /// the aggregated damage, regenerate shields, track stalemates, and
    /// report what happened. The movement phase is externally driven, so
    /// the moved report is always empty.
    #[verifier::rlimit(100)]
    #[verifier::spinoff_prover]
    pub fn simulate_tick(&mut self, dt: i64, now: i64) -> (r: TickResult)
        requires
            wf_sim(*old(self)),
            old(self).tick < u64::MAX,
            0 <= dt <= crate::DT_LIMIT,
            -crate::TIME_LIMIT <= now <= crate::TIME_LIMIT,
        ensures
            wf_sim(*final(self)),
            final(self).tick == old(self).tick + 1,
            r.tick == final(self).tick,
            final(self).units@.len() == old(self).units@.len(),
            forall|i: int| 0 <= i < old(self).units@.len() ==> same_identity(
                old(self).units@[i],
                #[trigger] final(self).units@[i],
            ),
            forall|i: int| 0 <= i < old(self).units@.len() && (#[trigger] final(self).units@[i]).alive ==> old(self).units@[i].alive,
            forall|i: int| 0 <= i < old(self).units@.len() && !(#[trigger] old(
                self,
            ).units@[i]).alive ==> final(self).units@[i] == (BattleUnit {
                target_id: final(self).units@[i].target_id,
                ..old(self).units@[i]
            }) && (final(self).units@[i].target_id == old(self).units@[i].target_id || final(self).units@[i].target_id is None),
            r.moved@.len() == 0,
            r.destroyed@ == tick_destroyed(
                old(self).units@,
                final(self).units@,
                old(self).units@.len() as int,
            ),
            damaged_sound(old(self).units@, final(self).units@, r.damaged@),
            final(self).last_combat_tick == (if r.damaged@.len() > 0 || r.destroyed@.len() > 0 {
                final(self).tick
            } else {
                old(self).last_combat_tick
            }),
            fired_sound(old(self).units@, r.weapons_fired@),
            tick_effects(old(self).units@, final(self).units@, r),
            grid_rebuilt(final(self).grid, old(self).units@, CELL_SIZE as int),
            tick_post(
                old(self).units@,
                final(self).grid,
                final(self).units@,
                r,
                dt as int,
                now as int,
                old(self).tick + 1,
            ),
            (dt == 0 && all_on_cooldown(old(self).units@, now as int)) ==> (r.destroyed@.len() == 0
                && r.damaged@.len() == 0 && r.weapons_fired@.len() == 0 && final(self).last_combat_tick == old(self).last_combat_tick && (forall|i: int|
                0 <= i < old(self).units@.len() ==> #[trigger] final(self).units@[i] == (
                BattleUnit {
                    target_id: final(self).units@[i].target_id,
                    ..old(self).units@[i]
                }))),
            (dt == 0 && all_on_cooldown(old(self).units@, now as int) && (old(self).tick + 1)
                % (RETARGET_INTERVAL as int) != 0 && all_targets_fresh(old(self).units@)) ==> final(self).units@ == old(self).units@,
    {
        self.tick = self.tick + 1;
        self.rebuild_spatial_grid();
        let ghost s0 = self.units@;
        self.acquire_targets();
        let ghost s1 = self.units@;
        let plan = self.plan_fires(now);
        let ghost plang = plan@;
        let (queue, weapons_fired) = self.commit_fires(&plan, now);
        let ghost s2 = self.units@;
        let ghost queueg = queue@;
        proof {
            assert forall|k: int| 0 <= k < queueg.len() implies (#[trigger] queueg[k]).target_idx
                < s2.len() && queueg[k].attacker_idx < s2.len() && queueg[k].damage >= 0 by {
                assert(plan_entry_ok(s1, plang[k], now as int, self.tick as int));
            }
        }
        let (destroyed, damaged) = self.apply_damage_queue(&queue);
        let ghost s3 = self.units@;
        self.regen_all(dt);
        let ghost s4 = self.units@;
        let combat = damaged.len() > 0 || destroyed.len() > 0;
        if combat {
            self.last_combat_tick = self.tick;
        }
        let moved: Vec<MovedUnit> = Vec::new();
        let result = TickResult {
            moved,
            damaged,
            destroyed,
            tick: self.tick,
            weapons_fired,
        };
        proof {
            let n = s0.len() as int;
            assert(s0 == old(self).units@);
            assert(rel_acquire(s0, s1));
            assert(rel_commit(s1, s2, now as int));
            assert(rel_apply(s2, s3, queueg));
            assert(rel_regen(s3, s4, dt as int));
            lemma_tick_units(s0, s1, s2, s3, s4, plang, queueg, now as int, self.tick as int,
                dt as int);
            lemma_tick_destroyed_agrees(s0, s2, s4, queueg, n);
            lemma_tick_damaged(s0, s1, s2, s4, plang, queueg, result.damaged@, now as int,
                self.tick as int);
            lemma_tick_fired(s0, s1, plang, result.weapons_fired@, now as int, self.tick as int);
            lemma_assemble_tick_post(s0, self.grid, s1, s2, s3, s4, plang, queueg, result,
                dt as int, now as int, self.tick as int);
            assert(tick_effects(s0, s4, result)) by {
                assert forall|i: int| 0 <= i < s0.len() implies (#[trigger] s4[i]).id
                    == s0[i].id by {
                    assert(same_identity(s0[i], s4[i]));
                }
            }
            if dt == 0 && all_on_cooldown(s0, now as int) {
                lemma_no_fire_when_cooling(s0, s1, now as int, self.tick as int);
                assert(plang.len() == 0);
                assert(queueg.len() == 0);
                assert(s2 == s1);
                lemma_empty_queue_lists(s2, queueg, n);
                assert(result.destroyed@.len() == 0);
                assert(result.damaged@.len() == 0);
                assert(result.weapons_fired@.len() == 0);
                lemma_tick_quiet(s0, s1, s2, s3, s4, queueg, now as int, self.tick as int);
                if (old(self).tick + 1) % (RETARGET_INTERVAL as int) != 0 && all_targets_fresh(
                    s0,
                ) {
                    assert(s1 == s0);
                    assert forall|i: int| 0 <= i < n implies #[trigger] s4[i] == s0[i] by {
                        assert(s4[i] == (BattleUnit { target_id: s4[i].target_id, ..s0[i] }));
                        assert(s4[i].target_id == s1[i].target_id);
                    }
                    assert(s4 =~= s0);
                }
            }
        }
        result
    }
}

/// What one tick guarantees of its report, relative to the unit states
/// before and after it.
pub open spec fn tick_effects(pre: Seq<BattleUnit>, post: Seq<BattleUnit>, r: TickResult) -> bool {
    &&& post.len() == pre.len()
    &&& forall|i: int| 0 <= i < pre.len() ==> (#[trigger] post[i]).id == pre[i].id
    &&& forall|i: int| 0 <= i < pre.len() && (#[trigger] post[i]).alive ==> pre[i].alive
    &&& r.moved@.len() == 0
    &&& r.destroyed@ == tick_destroyed(pre, post, pre.len() as int)
    &&& damaged_sound(pre, post, r.damaged@)
}

/// An id stands in the tick's destroyed report exactly when its unit
/// died this tick.
pub proof fn lemma_tick_destroyed_contains(
    pre: Seq<BattleUnit>,
    post: Seq<BattleUnit>,
    n: int,
    id: u32,
)
    requires
        n <= pre.len(),
    ensures
        tick_destroyed(pre, post, n).contains(id) <==> exists|i: int|
            0 <= i < n && (#[trigger] pre[i]).alive && !post[i].alive && pre[i].id == id,
    decreases n,
{
    if n > 0 {
        lemma_tick_destroyed_contains(pre, post, n - 1, id);
        let prev = tick_destroyed(pre, post, n - 1);
        let cur = tick_destroyed(pre, post, n);
        if pre[n - 1].alive && !post[n - 1].alive {
            assert(cur == prev + seq![pre[n - 1].id]);
            if cur.contains(id) {
                let k = choose|k: int| 0 <= k < cur.len() && cur[k] == id;
                if k < prev.len() {
                    assert(prev[k] == id);
                    assert(prev.contains(id));
                } else {
                    assert(id == pre[n - 1].id);
                }
            }
            if exists|i: int|
                0 <= i < n && (#[trigger] pre[i]).alive && !post[i].alive && pre[i].id == id {
                let i = choose|i: int|
                    0 <= i < n && (#[trigger] pre[i]).alive && !post[i].alive && pre[i].id == id;
                if i < n - 1 {
                    let k = choose|k: int| 0 <= k < prev.len() && prev[k] == id;
                    assert(cur[k] == id);
                } else {
                    assert(cur[prev.len() as int] == id);
                }
            }
        } else {
            assert(cur =~= prev);
            if cur.contains(id) {
                assert(prev.contains(id));
            }
            if exists|i: int|
                0 <= i < n && (#[trigger] pre[i]).alive && !post[i].alive && pre[i].id == id {
                let i = choose|i: int|
                    0 <= i < n && (#[trigger] pre[i]).alive && !post[i].alive && pre[i].id == id;
                assert(i < n - 1);
                let k = choose|k: int| 0 <= k < prev.len() && prev[k] == id;
                assert(cur[k] == id);
            }
        }
    }
}

/// A unit that one tick reports destroyed appears in no later tick's
/// destroyed, damaged, or moved report: destruction is final.
pub proof fn lemma_destroyed_is_final(
    s0: Seq<BattleUnit>,
    s1: Seq<BattleUnit>,
    s2: Seq<BattleUnit>,
    r1: TickResult,
    r2: TickResult,
    id: u32,
)
    requires
        tick_effects(s0, s1, r1),
        tick_effects(s1, s2, r2),
        wf_units(s1),
        wf_units(s2),
        r1.destroyed@.contains(id),
    ensures
        !r2.destroyed@.contains(id),
        forall|k: int| 0 <= k < r2.damaged@.len() ==> (#[trigger] r2.damaged@[k]).id != id,
        r2.moved@.len() == 0,
{
    lemma_tick_destroyed_contains(s0, s1, s0.len() as int, id);
    let i = choose|i: int|
        0 <= i < s0.len() && (#[trigger] s0[i]).alive && !s1[i].alive && s0[i].id == id;
    assert(s1[i].id == id);
    assert(!s2[i].alive);
    lemma_tick_destroyed_contains(s1, s2, s1.len() as int, id);
    if r2.destroyed@.contains(id) {
        let j = choose|j: int|
            0 <= j < s1.len() && (#[trigger] s1[j]).alive && !s2[j].alive && s1[j].id == id;
        if j != i {
            assert(s1[j].id != s1[i].id);
        }
    }
    assert forall|k: int| 0 <= k < r2.damaged@.len() implies (#[trigger] r2.damaged@[k]).id
        != id by {
        if r2.damaged@[k].id == id {
            assert(has_live_id(s2, id));
            let j = choose|j: int|
                0 <= j < s2.len() && (#[trigger] s2[j]).id == id && s2[j].alive;
            if j != i {
                assert(s2[j].id != s2[i].id);
            }
        }
    }
}

/// Weapon-fire monotonicity: once a weapon discharges at some clock value
/// and its clock is stamped, its next discharge cannot come before a full
/// cooldown has elapsed.
pub proof fn lemma_fire_monotonic(
    attacker1: BattleUnit,
    target1: BattleUnit,
    w1: Weapon,
    attacker2: BattleUnit,
    target2: BattleUnit,
    w2: Weapon,
    now1: int,
    now2: int,
    tick1: int,
    tick2: int,
)
    requires
        fire_ok(attacker1, target1, w1, now1, tick1),
        w2.last_fired == now1,
        w2.cooldown == w1.cooldown,
        fire_ok(attacker2, target2, w2, now2, tick2),
    ensures
        now2 >= now1 + w1.cooldown,
{
}

/// Damage aggregation: two hits queued against one target in either
/// order total the same, and give the same unit state, as their sum
/// applied once.
pub proof fn lemma_damage_order_irrelevant(u: BattleUnit, e1: DamageEntry, e2: DamageEntry)
    requires
        e1.target_idx == e2.target_idx,
        e1.damage >= 0,
        e2.damage >= 0,
    ensures
        unit_total(seq![e1, e2], e1.target_idx as int) == unit_total(
            seq![e2, e1],
            e1.target_idx as int,
        ),
        unit_total(seq![e1, e2], e1.target_idx as int) == sat_of(e1.damage + e2.damage),
        post_damage_unit(u, unit_total(seq![e1, e2], e1.target_idx as int)) == post_damage_unit(
            u,
            unit_total(seq![e2, e1], e1.target_idx as int),
        ),
{
    let t = e1.target_idx as int;
    let q1 = seq![e1, e2];
    let q2 = seq![e2, e1];
    assert(agg_damage(q1, t, 0) == 0 && agg_damage(q2, t, 0) == 0);
    assert(q1[0] == e1 && q1[1] == e2 && q2[0] == e2 && q2[1] == e1);
    assert(agg_damage(q1, t, 1) == e1.damage);
    assert(agg_damage(q2, t, 1) == e2.damage);
    assert(agg_damage(q1, t, 2) == e1.damage + e2.damage);
    assert(agg_damage(q2, t, 2) == e2.damage + e1.damage);
}

impl BattleSimulator {
    /// Read access to the unit storage.
    pub fn get_units(&self) -> (r: &Vec<BattleUnit>)
        ensures
            r@ == self.units@,
    {
        &self.units
    }

    /// A copy of every unit record, for result reporting.
    pub fn get_results(&self) -> (r: Vec<BattleUnit>)
        ensures
            r@.len() == self.units@.len(),
            forall|i: int| 0 <= i < self.units@.len() ==> unit_like(
                #[trigger] r@[i],
                self.units@[i],
            ),
    {
        let n = self.units.len();
        let mut out: Vec<BattleUnit> = Vec::new();
        let mut i: usize = 0;
        while i < n
            invariant
                n == self.units@.len(),
                i <= n,
                out@.len() == i,
                forall|t: int| 0 <= t < i ==> unit_like(#[trigger] out@[t], self.units@[t]),
            decreases n - i,
        {
            let copied = copy_unit(&self.units[i]);
            out.push(copied);
            i += 1;
        }
        out
    }
}

/// Field-wise equality of weapons, down to the byte strings.
pub open spec fn weapon_like(a: Weapon, b: Weapon) -> bool {
    &&& a.tag@ == b.tag@
    &&& a.dps == b.dps
    &&& a.fire_rate == b.fire_rate
    &&& a.max_range == b.max_range
    &&& a.optimal_range == b.optimal_range
    &&& a.target_armor_max == b.target_armor_max
    &&& a.cooldown == b.cooldown
    &&& a.last_fired == b.last_fired
    &&& a.sequence@ == b.sequence@
}

/// Field-wise equality of unit records, down to the byte strings.
pub open spec fn unit_like(a: BattleUnit, b: BattleUnit) -> bool {
    &&& a.id == b.id
    &&& a.faction_id == b.faction_id
    &&& a.player_id == b.player_id
    &&& a.max_hp == b.max_hp
    &&& a.hp == b.hp
    &&& a.max_shield == b.max_shield
    &&& a.shield == b.shield
    &&& a.armor == b.armor
    &&& a.shield_regen == b.shield_regen
    &&& a.pos_x == b.pos_x
    &&& a.pos_y == b.pos_y
    &&& a.pos_z == b.pos_z
    &&& a.vel_x == b.vel_x
    &&& a.vel_y == b.vel_y
    &&& a.vel_z == b.vel_z
    &&& a.max_speed == b.max_speed
    &&& a.weapons@.len() == b.weapons@.len()
    &&& (forall|k: int| 0 <= k < b.weapons@.len() ==> weapon_like(
        #[trigger] a.weapons@[k],
        b.weapons@[k],
    ))
    &&& a.max_weapon_range == b.max_weapon_range
    &&& a.target_id == b.target_id
    &&& a.alive == b.alive
    &&& a.damage_dealt == b.damage_dealt
    &&& a.damage_taken == b.damage_taken
    &&& a.unit_type@ == b.unit_type@
    &&& a.is_ship == b.is_ship
    &&& a.is_station == b.is_station
    &&& a.has_weapons == b.has_weapons
    &&& a.view_range == b.view_range
}

/// An element-wise copy of a fire pattern.
fn copy_bools(v: &Vec<bool>) -> (r: Vec<bool>)
    ensures
        r@ == v@,
{
    let mut r: Vec<bool> = Vec::new();
    let mut i: usize = 0;
    while i < v.len()
        invariant
            i <= v@.len(),
            r@ == v@.subrange(0, i as int),
        decreases v@.len() - i,
    {
        r.push(v[i]);
        proof {
            assert(v@.subrange(0, i + 1) =~= v@.subrange(0, i as int).push(v@[i as int]));
        }
        i += 1;
    }
    proof {
        assert(v@.subrange(0, v@.len() as int) =~= v@);
    }
    r
}

/// A field-wise copy of a weapon.
fn copy_weapon(w: &Weapon) -> (r: Weapon)
    ensures
        weapon_like(r, *w),
{
    Weapon {
        tag: copy_bytes(&w.tag),
        dps: w.dps,
        fire_rate: w.fire_rate,
        max_range: w.max_range,
        optimal_range: w.optimal_range,
        target_armor_max: w.target_armor_max,
        cooldown: w.cooldown,
        last_fired: w.last_fired,
        sequence: copy_bools(&w.sequence),
    }
}

/// A field-wise copy of a unit record.
pub fn copy_unit(u: &BattleUnit) -> (r: BattleUnit)
    ensures
        unit_like(r, *u),
{
    let mut weapons: Vec<Weapon> = Vec::new();
    let mut i: usize = 0;
    while i < u.weapons.len()
        invariant
            i <= u.weapons@.len(),
            weapons@.len() == i,
            forall|k: int| 0 <= k < i ==> weapon_like(#[trigger] weapons@[k], u.weapons@[k]),
        decreases u.weapons@.len() - i,
    {
        weapons.push(copy_weapon(&u.weapons[i]));
        i += 1;
    }
    BattleUnit {
        id: u.id,
        faction_id: u.faction_id,
        player_id: u.player_id,
        max_hp: u.max_hp,
        hp: u.hp,
        max_shield: u.max_shield,
        shield: u.shield,
        armor: u.armor,
        shield_regen: u.shield_regen,
        pos_x: u.pos_x,
        pos_y: u.pos_y,
        pos_z: u.pos_z,
        vel_x: u.vel_x,
        vel_y: u.vel_y,
        vel_z: u.vel_z,
        max_speed: u.max_speed,
        weapons,
        max_weapon_range: u.max_weapon_range,
        target_id: u.target_id,
        alive: u.alive,
        damage_dealt: u.damage_dealt,
        damage_taken: u.damage_taken,
        unit_type: copy_bytes(&u.unit_type),
        is_ship: u.is_ship,
        is_station: u.is_station,
        has_weapons: u.has_weapons,
        view_range: u.view_range,
    }
}

/// The standing state invariants, spelled out: hull points stay within
/// their bounds and decide liveness, shields stay within their bounds,
/// and every set target names a living enemy of another faction, never
/// the holder itself.
pub proof fn lemma_state_invariants(s: BattleSimulator, i: int)
    requires
        wf_sim(s),
        0 <= i < s.units@.len(),
    ensures
        0 <= s.units@[i].hp <= s.units@[i].max_hp,
        s.units@[i].alive <==> s.units@[i].hp > 0,
        0 <= s.units@[i].shield <= s.units@[i].max_shield,
        s.units@[i].target_id matches Some(t) ==> t != s.units@[i].id && exists|j: int|
            0 <= j < s.units@.len() && (#[trigger] s.units@[j]).id == t && s.units@[j].alive
                && s.units@[j].faction_id != s.units@[i].faction_id,
{
    assert(wf_unit(s.units@[i]));
    assert(target_ok(s.units@, i));
}

/// Target validity never reads recorded targets.
proof fn lemma_target_valid_blind(a: Seq<BattleUnit>, b: Seq<BattleUnit>, i: int, tid: u32)
    requires
        same_units_but_targets(a, b),
        0 <= i < a.len(),
    ensures
        target_valid_spec(a, i, tid) == target_valid_spec(b, i, tid),
{
    assert(same_but_target(a[i], b[i]));
    if target_valid_spec(a, i, tid) {
        let j = choose|j: int|
            0 <= j < a.len() && (#[trigger] a[j]).id == tid && a[j].alive && a[j].faction_id
                != a[i].faction_id && dist_sq_units(a[i], a[j]) <= sq(
                a[i].max_weapon_range as int,
            );
        assert(same_but_target(a[j], b[j]));
        assert(b[j].id == tid && b[j].alive && b[j].faction_id != b[i].faction_id
            && dist_sq_units(b[i], b[j]) <= sq(b[i].max_weapon_range as int));
    }
    if target_valid_spec(b, i, tid) {
        let j = choose|j: int|
            0 <= j < b.len() && (#[trigger] b[j]).id == tid && b[j].alive && b[j].faction_id
                != b[i].faction_id && dist_sq_units(b[i], b[j]) <= sq(
                b[i].max_weapon_range as int,
            );
        assert(same_but_target(a[j], b[j]));
        assert(a[j].id == tid && a[j].alive && a[j].faction_id != a[i].faction_id
            && dist_sq_units(a[i], a[j]) <= sq(a[i].max_weapon_range as int));
    }
}

/// The battlefield-wide fallback never reads recorded targets.
proof fn lemma_fallback_blind(a: Seq<BattleUnit>, b: Seq<BattleUnit>, i: int, n: int)
    requires
        same_units_but_targets(a, b),
        0 <= i < a.len(),
        n <= a.len(),
        a.len() <= usize::MAX,
    ensures
        fallback_scan(a, i, n) == fallback_scan(b, i, n),
        n == a.len() ==> find_any_spec(a, i) == find_any_spec(b, i),
    decreases n,
{
    assert(same_but_target(a[i], b[i]));
    if n > 0 {
        lemma_fallback_blind(a, b, i, n - 1);
        let c = n - 1;
        assert(same_but_target(a[c], b[c]));
        match fallback_scan(a, i, n - 1) {
            Option::None => {},
            Option::Some(bst) => {
                lemma_fallback_valid(a, i, n - 1);
                assert(same_but_target(a[bst as int], b[bst as int]));
            },
        }
    }
    if n == a.len() {
    }
}

/// Whether the acquisition pass re-evaluates unit `i`'s target: it has
/// none, the tick is a retarget checkpoint, or the target went stale.
pub open spec fn should_retarget_spec(units: Seq<BattleUnit>, tick: int, i: int) -> bool {
    ||| units[i].target_id is None
    ||| tick % (RETARGET_INTERVAL as int) == 0
    ||| (units[i].target_id matches Some(t) && !target_valid_spec(units, i, t))
}

/// The target the acquisition pass leaves on unit `i`: unchanged for the
/// dead, the unarmed, and holders of fresh valid targets; otherwise the
/// grid search's choice, the fallback's choice, or none.
#[verifier::opaque]
pub open spec fn acquire_target_spec(
    units: Seq<BattleUnit>,
    g: SpatialGrid,
    tick: int,
    i: int,
) -> Option<u32> {
    if !(units[i].alive && units[i].has_weapons) {
        units[i].target_id
    } else if !should_retarget_spec(units, tick, i) {
        units[i].target_id
    } else {
        match find_best_spec(units[i], units, g) {
            Option::Some(e) => Option::Some(units[e as int].id),
            Option::None => match find_any_spec(units, i) {
                Option::Some(e2) => Option::Some(units[e2 as int].id),
                Option::None => Option::None,
            },
        }
    }
}

/// The whole unit storage after the acquisition pass.
#[verifier::opaque]
pub open spec fn acquired_units(units: Seq<BattleUnit>, g: SpatialGrid, tick: int) -> Seq<
    BattleUnit,
> {
    Seq::new(
        units.len(),
        |i: int| BattleUnit { target_id: acquire_target_spec(units, g, tick, i), ..units[i] },
    )
}

/// The first index at or after `k` holding a living unit with this id,
/// or -1 when there is none.
#[verifier::opaque]
pub open spec fn live_idx_from(units: Seq<BattleUnit>, tid: u32, k: int) -> int
    decreases units.len() - k,
{
    if k >= units.len() {
        -1
    } else if units[k].id == tid && units[k].alive {
        k
    } else {
        live_idx_from(units, tid, k + 1)
    }
}

proof fn lemma_live_idx_skip(units: Seq<BattleUnit>, tid: u32, k: int, j: int)
    requires
        0 <= k <= j <= units.len(),
        forall|t: int| k <= t < j ==> !((#[trigger] units[t]).id == tid && units[t].alive),
    ensures
        live_idx_from(units, tid, k) == live_idx_from(units, tid, j),
    decreases j - k,
{
    reveal(live_idx_from);
    if k < j {
        lemma_live_idx_skip(units, tid, k + 1, j);
    }
}

/// The discharges of one attacker's first `wn` weapons at its resolved
/// target, in declared order.
#[verifier::opaque]
pub open spec fn plan_for_weapons(
    units: Seq<BattleUnit>,
    a: int,
    ti: int,
    now: int,
    tick: int,
    wn: int,
) -> Seq<FirePlan>
    decreases wn,
{
    if wn <= 0 {
        Seq::empty()
    } else {
        plan_for_weapons(units, a, ti, now, tick, wn - 1) + (if fire_ok(
            units[a],
            units[ti],
            units[a].weapons@[wn - 1],
            now,
            tick,
        ) {
            seq![
                FirePlan {
                    attacker_idx: a as usize,
                    target_idx: ti as usize,
                    weapon_idx: (wn - 1) as usize,
                    damage: shot_damage(
                        units[a].weapons@[wn - 1],
                        units[ti],
                        dist_units(units[a], units[ti]),
                    ) as i64,
                    distance: dist_units(units[a], units[ti]) as i64,
                },
            ]
        } else {
            Seq::empty()
        })
    }
}

/// The discharges one attacker contributes to the tick's fire plan.
#[verifier::opaque]
pub open spec fn plan_entries_for(units: Seq<BattleUnit>, a: int, now: int, tick: int) -> Seq<
    FirePlan,
> {
    if !(units[a].alive && units[a].has_weapons && units[a].target_id is Some) {
        Seq::empty()
    } else {
        match units[a].target_id {
            Option::Some(tid) => {
                let ti = live_idx_from(units, tid, 0);
                if ti >= 0 {
                    plan_for_weapons(units, a, ti, now, tick, units[a].weapons@.len() as int)
                } else {
                    Seq::empty()
                }
            },
            Option::None => Seq::empty(),
        }
    }
}

/// The tick's whole fire plan: every cleared discharge of the first `n`
/// attackers, in attacker and weapon order.
#[verifier::opaque]
pub open spec fn plan_spec(units: Seq<BattleUnit>, now: int, tick: int, n: int) -> Seq<FirePlan>
    decreases n,
{
    if n <= 0 {
        Seq::empty()
    } else {
        plan_spec(units, now, tick, n - 1) + plan_entries_for(units, n - 1, now, tick)
    }
}

/// One of the first `c` plan entries stamps weapon `w` of attacker `a`.
pub open spec fn stamped_before(plan: Seq<FirePlan>, a: int, w: int, c: int) -> bool {
    exists|p: int| 0 <= p < c && (#[trigger] plan[p]).attacker_idx == a && plan[p].weapon_idx == w
}

/// Some plan entry stamps weapon `w` of attacker `a`.
pub open spec fn plan_stamped(plan: Seq<FirePlan>, a: int, w: int) -> bool {
    stamped_before(plan, a, w, plan.len() as int)
}

proof fn lemma_stamped_step(plan: Seq<FirePlan>, a: int, w: int, c: int)
    requires
        0 <= c < plan.len(),
    ensures
        stamped_before(plan, a, w, c + 1) == (stamped_before(plan, a, w, c) || (plan[c].attacker_idx
            == a && plan[c].weapon_idx == w)),
{
    if stamped_before(plan, a, w, c + 1) {
        let p = choose|p: int|
            0 <= p < c + 1 && (#[trigger] plan[p]).attacker_idx == a && plan[p].weapon_idx == w;
        if p < c {
            assert(stamped_before(plan, a, w, c));
        }
    }
    if stamped_before(plan, a, w, c) {
        let p = choose|p: int|
            0 <= p < c && (#[trigger] plan[p]).attacker_idx == a && plan[p].weapon_idx == w;
        assert(stamped_before(plan, a, w, c + 1));
    }
    if plan[c].attacker_idx == a && plan[c].weapon_idx == w {
        assert(stamped_before(plan, a, w, c + 1));
    }
}

/// The commit pass, exactly: every unit keeps all its fields but its
/// weapons' discharge clocks, and a clock reads `now` exactly when some
/// plan entry stamps that weapon.
pub open spec fn commit_rel(
    s1: Seq<BattleUnit>,
    s2: Seq<BattleUnit>,
    plan: Seq<FirePlan>,
    now: int,
) -> bool {
    &&& s2.len() == s1.len()
    &&& forall|i: int| 0 <= i < s1.len() ==> #[trigger] s2[i] == (BattleUnit {
        weapons: s2[i].weapons,
        ..s1[i]
    })
    &&& forall|i: int| 0 <= i < s1.len() ==> (#[trigger] s2[i]).weapons@.len()
        == s1[i].weapons@.len()
    &&& forall|i: int, k: int|
        0 <= i < s1.len() && 0 <= k < s1[i].weapons@.len() ==> (
        #[trigger] s2[i].weapons@[k]) == (Weapon {
            last_fired: (if plan_stamped(plan, i, k) {
                now as i64
            } else {
                s1[i].weapons@[k].last_fired
            }),
            ..s1[i].weapons@[k]
        })
}

/// The damage queue a fire plan induces.
pub open spec fn queue_of(plan: Seq<FirePlan>) -> Seq<DamageEntry> {
    Seq::new(
        plan.len(),
        |k: int|
            DamageEntry {
                target_idx: plan[k].target_idx,
                damage: plan[k].damage,
                attacker_idx: plan[k].attacker_idx,
            },
    )
}

/// A unit after the regeneration pass.
pub open spec fn regen_unit_spec(u: BattleUnit, dt: int) -> BattleUnit {
    if u.alive {
        regen_shield_spec(u, dt)
    } else {
        u
    }
}

/// The whole tick pipeline, as one relation from the pre-tick units to
/// the post-tick units and the report: targets are re-acquired over the
/// rebuilt grid (`acquired_units`), the cleared discharges are exactly
/// `plan_spec` of that state, the planned weapons and no others are
/// stamped with `now` (`commit_rel`), the induced damage queue is
/// aggregated and applied per unit (`apply_phase_unit`), shields then
/// regenerate, and the report carries exactly the resulting destroyed
/// and damaged lists and one entry per planned discharge.
pub open spec fn tick_post(
    pre: Seq<BattleUnit>,
    g: SpatialGrid,
    post: Seq<BattleUnit>,
    r: TickResult,
    dt: int,
    now: int,
    tick: int,
) -> bool {
    let s1 = acquired_units(pre, g, tick);
    let plan = plan_spec(s1, now, tick, pre.len() as int);
    let q = queue_of(plan);
    exists|s2: Seq<BattleUnit>|
        #[trigger] commit_rel(s1, s2, plan, now) && post.len() == pre.len() && (forall|i: int|
            0 <= i < pre.len() ==> #[trigger] post[i] == regen_unit_spec(
                apply_phase_unit(s2, q, i),
                dt,
            )) && r.destroyed@ == destroyed_list(s2, q, pre.len() as int) && r.damaged@
            == damaged_list(s2, q, pre.len() as int) && r.weapons_fired@.len() == plan.len() && (
        forall|k: int|
            0 <= k < plan.len() ==> (#[trigger] r.weapons_fired@[k]).attacker_id
                == s1[plan[k].attacker_idx as int].id && r.weapons_fired@[k].target_id
                == s1[plan[k].target_idx as int].id && r.weapons_fired@[k].weapon_type@
                == s1[plan[k].attacker_idx as int].weapons@[plan[k].weapon_idx as int].tag@
                && r.weapons_fired@[k].impact_time == impact_time_spec(
                plan[k].distance as int,
                s1[plan[k].attacker_idx as int].weapons@[plan[k].weapon_idx as int].tag@,
            ))
}

/// Assembling the phase results into the whole-tick relation.
proof fn lemma_assemble_tick_post(
    pre: Seq<BattleUnit>,
    g: SpatialGrid,
    s1: Seq<BattleUnit>,
    s2: Seq<BattleUnit>,
    s3: Seq<BattleUnit>,
    s4: Seq<BattleUnit>,
    plang: Seq<FirePlan>,
    queueg: Seq<DamageEntry>,
    r: TickResult,
    dt: int,
    now: int,
    tick: int,
)
    requires
        s1 == acquired_units(pre, g, tick),
        s1.len() == pre.len(),
        s2.len() == pre.len(),
        plang == plan_spec(s1, now, tick, pre.len() as int),
        commit_rel(s1, s2, plang, now),
        queueg.len() == plang.len(),
        forall|k: int| 0 <= k < plang.len() ==> (#[trigger] queueg[k]).target_idx
            == plang[k].target_idx && queueg[k].attacker_idx == plang[k].attacker_idx
            && queueg[k].damage == plang[k].damage,
        rel_apply(s2, s3, queueg),
        rel_regen(s3, s4, dt),
        r.destroyed@ == destroyed_list(s2, queueg, pre.len() as int),
        r.damaged@ == damaged_list(s2, queueg, pre.len() as int),
        r.weapons_fired@.len() == plang.len(),
        forall|k: int| 0 <= k < plang.len() ==> (#[trigger] r.weapons_fired@[k]).attacker_id
            == s1[plang[k].attacker_idx as int].id && r.weapons_fired@[k].target_id
            == s1[plang[k].target_idx as int].id && r.weapons_fired@[k].weapon_type@
            == s1[plang[k].attacker_idx as int].weapons@[plang[k].weapon_idx as int].tag@
            && r.weapons_fired@[k].impact_time == impact_time_spec(
            plang[k].distance as int,
            s1[plang[k].attacker_idx as int].weapons@[plang[k].weapon_idx as int].tag@,
        ),
    ensures
        tick_post(pre, g, s4, r, dt, now, tick),
{
    let q = queue_of(plang);
    assert(queueg =~= q);
    assert forall|i: int| 0 <= i < pre.len() implies #[trigger] s4[i] == regen_unit_spec(
        apply_phase_unit(s2, q, i),
        dt,
    ) by {
        assert(s3[i] == apply_phase_unit(s2, queueg, i));
        if s3[i].alive {
            assert(s4[i] == regen_shield_spec(s3[i], dt));
        } else {
            assert(s4[i] == s3[i]);
        }
    }
    assert(s4.len() == s3.len() && s3.len() == s2.len());
    assert(commit_rel(s1, s2, plang, now));
}

/// Equal scalars and views in, equal scalars and views out of the damage
/// rule: it never reads a unit's weapon list.
proof fn lemma_apply_damage_like(a: BattleUnit, b: BattleUnit, d: int)
    requires
        unit_like(a, b),
    ensures
        unit_like(apply_damage(a, d), apply_damage(b, d)),
{
}

/// Units that agree field-wise are destroyed together and reported alike.
proof fn lemma_lists_like(
    s2a: Seq<BattleUnit>,
    s2b: Seq<BattleUnit>,
    q: Seq<DamageEntry>,
    n: int,
)
    requires
        s2a.len() == s2b.len(),
        n <= s2a.len(),
        forall|i: int| 0 <= i < s2a.len() ==> unit_like(#[trigger] s2a[i], s2b[i]),
    ensures
        destroyed_list(s2a, q, n) == destroyed_list(s2b, q, n),
        damaged_list(s2a, q, n) == damaged_list(s2b, q, n),
    decreases n,
{
    if n > 0 {
        lemma_lists_like(s2a, s2b, q, n - 1);
        let i = n - 1;
        lemma_apply_damage_like(s2a[i], s2b[i], unit_total(q, i));
        assert(is_destroyed(s2a, q, i) == is_destroyed(s2b, q, i));
        assert(destroyed_list(s2a, q, n) =~= destroyed_list(s2b, q, n));
        assert(damaged_list(s2a, q, n) =~= damaged_list(s2b, q, n));
    }
}

/// The tick relation is deterministic: two outcomes of the same pre-tick
/// state under the same clock and delta carry the same reports and agree
/// on every unit, field by field.
pub proof fn lemma_tick_post_deterministic(
    pre: Seq<BattleUnit>,
    g: SpatialGrid,
    post_a: Seq<BattleUnit>,
    r_a: TickResult,
    post_b: Seq<BattleUnit>,
    r_b: TickResult,
    dt: int,
    now: int,
    tick: int,
)
    requires
        tick_post(pre, g, post_a, r_a, dt, now, tick),
        tick_post(pre, g, post_b, r_b, dt, now, tick),
    ensures
        post_a.len() == post_b.len(),
        forall|i: int| 0 <= i < pre.len() ==> unit_like(#[trigger] post_a[i], post_b[i]),
        r_a.destroyed@ == r_b.destroyed@,
        r_a.damaged@ == r_b.damaged@,
        r_a.weapons_fired@.len() == r_b.weapons_fired@.len(),
        forall|k: int| 0 <= k < r_a.weapons_fired@.len() ==> (
        #[trigger] r_a.weapons_fired@[k]).attacker_id == r_b.weapons_fired@[k].attacker_id
            && r_a.weapons_fired@[k].target_id == r_b.weapons_fired@[k].target_id
            && r_a.weapons_fired@[k].weapon_type@ == r_b.weapons_fired@[k].weapon_type@
            && r_a.weapons_fired@[k].impact_time == r_b.weapons_fired@[k].impact_time,
{
    reveal(acquired_units);
    let s1 = acquired_units(pre, g, tick);
    assert(s1.len() == pre.len());
    let plan = plan_spec(s1, now, tick, pre.len() as int);
    let q = queue_of(plan);
    let s2a = choose|s2: Seq<BattleUnit>|
        #[trigger] commit_rel(s1, s2, plan, now) && post_a.len() == pre.len() && (forall|i: int|
            0 <= i < pre.len() ==> #[trigger] post_a[i] == regen_unit_spec(
                apply_phase_unit(s2, q, i),
                dt,
            )) && r_a.destroyed@ == destroyed_list(s2, q, pre.len() as int) && r_a.damaged@
            == damaged_list(s2, q, pre.len() as int) && r_a.weapons_fired@.len() == plan.len() && (
        forall|k: int|
            0 <= k < plan.len() ==> (#[trigger] r_a.weapons_fired@[k]).attacker_id
                == s1[plan[k].attacker_idx as int].id && r_a.weapons_fired@[k].target_id
                == s1[plan[k].target_idx as int].id && r_a.weapons_fired@[k].weapon_type@
                == s1[plan[k].attacker_idx as int].weapons@[plan[k].weapon_idx as int].tag@
                && r_a.weapons_fired@[k].impact_time == impact_time_spec(
                plan[k].distance as int,
                s1[plan[k].attacker_idx as int].weapons@[plan[k].weapon_idx as int].tag@,
            ));
    let s2b = choose|s2: Seq<BattleUnit>|
        #[trigger] commit_rel(s1, s2, plan, now) && post_b.len() == pre.len() && (forall|i: int|
            0 <= i < pre.len() ==> #[trigger] post_b[i] == regen_unit_spec(
                apply_phase_unit(s2, q, i),
                dt,
            )) && r_b.destroyed@ == destroyed_list(s2, q, pre.len() as int) && r_b.damaged@
            == damaged_list(s2, q, pre.len() as int) && r_b.weapons_fired@.len() == plan.len() && (
        forall|k: int|
            0 <= k < plan.len() ==> (#[trigger] r_b.weapons_fired@[k]).attacker_id
                == s1[plan[k].attacker_idx as int].id && r_b.weapons_fired@[k].target_id
                == s1[plan[k].target_idx as int].id && r_b.weapons_fired@[k].weapon_type@
                == s1[plan[k].attacker_idx as int].weapons@[plan[k].weapon_idx as int].tag@
                && r_b.weapons_fired@[k].impact_time == impact_time_spec(
                plan[k].distance as int,
                s1[plan[k].attacker_idx as int].weapons@[plan[k].weapon_idx as int].tag@,
            ));
    assert forall|i: int| 0 <= i < s2a.len() implies unit_like(#[trigger] s2a[i], s2b[i]) by {
        assert(s2a[i] == (BattleUnit { weapons: s2a[i].weapons, ..s1[i] }));
        assert(s2b[i] == (BattleUnit { weapons: s2b[i].weapons, ..s1[i] }));
        assert forall|k: int| 0 <= k < s2a[i].weapons@.len() implies weapon_like(
            #[trigger] s2a[i].weapons@[k],
            s2b[i].weapons@[k],
        ) by {
            assert(s2a[i].weapons@[k] == (Weapon {
                last_fired: (if plan_stamped(plan, i, k) {
                    now as i64
                } else {
                    s1[i].weapons@[k].last_fired
                }),
                ..s1[i].weapons@[k]
            }));
            assert(s2b[i].weapons@[k] == (Weapon {
                last_fired: (if plan_stamped(plan, i, k) {
                    now as i64
                } else {
                    s1[i].weapons@[k].last_fired
                }),
                ..s1[i].weapons@[k]
            }));
        }
    }
    lemma_lists_like(s2a, s2b, q, pre.len() as int);
    assert forall|i: int| 0 <= i < pre.len() implies unit_like(
        #[trigger] post_a[i],
        post_b[i],
    ) by {
        lemma_apply_damage_like(s2a[i], s2b[i], unit_total(q, i));
        assert(unit_like(apply_phase_unit(s2a, q, i), apply_phase_unit(s2b, q, i)));
        assert(unit_like(
            regen_unit_spec(apply_phase_unit(s2a, q, i), dt),
            regen_unit_spec(apply_phase_unit(s2b, q, i), dt),
        ));
    }
}

} // verus!
