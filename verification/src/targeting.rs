use vstd::prelude::*;
use crate::battle_unit::{dist_sq_units, wf_unit, BattleUnit};
use crate::spatial_grid::{cell_key, grid_radius, nearby_spec, wf_grid, SpatialGrid};
use crate::weapons::{is_point_defense, pd_tag};

verus! {

/// Priority score of a target for an attacker; higher wins, 0 disqualifies.
/// Ships prefer armed ships, then unarmed ships, then armed stations, then
/// unarmed stations; stations only ever engage ships.
pub open spec fn target_priority(attacker: BattleUnit, target: BattleUnit) -> int {
    if attacker.is_station {
        if target.is_ship && target.has_weapons {
            100
        } else if target.is_ship {
            50
        } else {
            0
        }
    } else {
        if target.is_ship {
            if target.has_weapons {
                100
            } else {
                50
            }
        } else if target.is_station {
            if target.has_weapons {
                30
            } else {
                10
            }
        } else {
            1
        }
    }
}

pub fn calculate_target_priority(attacker: &BattleUnit, target: &BattleUnit) -> (r: i64)
    ensures
        r == target_priority(*attacker, *target),
{
    if attacker.is_station {
        if target.is_ship && target.has_weapons {
            100
        } else if target.is_ship {
            50
        } else {
            0
        }
    } else {
        if target.is_ship {
            if target.has_weapons {
                100
            } else {
                50
            }
        } else if target.is_station {
            if target.has_weapons {
                30
            } else {
                10
            }
        } else {
            1
        }
    }
}

/// An index the attacker may engage: in bounds, another faction, alive,
/// not itself, and of positive priority.
pub open spec fn valid_candidate(unit: BattleUnit, units: Seq<BattleUnit>, idx: int) -> bool {
    &&& 0 <= idx < units.len()
    &&& units[idx].id != unit.id
    &&& units[idx].alive
    &&& units[idx].faction_id != unit.faction_id
    &&& target_priority(unit, units[idx]) > 0
}

/// Candidate `i` beats candidate `j`: strictly higher priority, or equal
/// priority and strictly nearer.
pub open spec fn strictly_better(unit: BattleUnit, units: Seq<BattleUnit>, i: int, j: int) -> bool {
    let pi = target_priority(unit, units[i]);
    let pj = target_priority(unit, units[j]);
    ||| pi > pj
    ||| (pi == pj && dist_sq_units(unit, units[i]) < dist_sq_units(unit, units[j]))
}

/// The best target among a candidate list: highest priority, then nearest,
/// earliest listed on exact ties.
pub open spec fn pick_best(unit: BattleUnit, units: Seq<BattleUnit>, cands: Seq<usize>) -> Option<
    usize,
>
    decreases cands.len(),
{
    if cands.len() == 0 {
        None
    } else {
        let prev = pick_best(unit, units, cands.drop_last());
        let c = cands.last();
        if !valid_candidate(unit, units, c as int) {
            prev
        } else {
            match prev {
                Option::None => Option::Some(c),
                Option::Some(b) => if strictly_better(unit, units, c as int, b as int) {
                    Option::Some(c)
                } else {
                    prev
                },
            }
        }
    }
}

/// The candidate list a grid search yields for a unit: every index within
/// the Chebyshev cell radius of the larger of its weapon and view ranges.
pub open spec fn search_candidates(unit: BattleUnit, g: SpatialGrid) -> Seq<usize> {
    let range = if unit.max_weapon_range > unit.view_range {
        unit.max_weapon_range
    } else {
        unit.view_range
    };
    nearby_spec(
        g.cells@,
        cell_key(g.cell_size as int, unit.pos_x as int),
        cell_key(g.cell_size as int, unit.pos_y as int),
        cell_key(g.cell_size as int, unit.pos_z as int),
        grid_radius(g.cell_size as int, range as int),
    )
}

/// What a grid-driven target search returns: nothing for a dead or unarmed
/// unit, else the best candidate the grid yields.
pub open spec fn find_best_spec(unit: BattleUnit, units: Seq<BattleUnit>, g: SpatialGrid) -> Option<
    usize,
> {
    if !unit.alive || !unit.spec_can_attack() {
        None
    } else {
        pick_best(unit, units, search_candidates(unit, g))
    }
}

/// A picked best target is always a valid candidate.
pub proof fn lemma_pick_best_valid(unit: BattleUnit, units: Seq<BattleUnit>, cands: Seq<usize>)
    ensures
        pick_best(unit, units, cands) matches Some(i) ==> valid_candidate(unit, units, i as int),
    decreases cands.len(),
{
    if cands.len() > 0 {
        lemma_pick_best_valid(unit, units, cands.drop_last());
    }
}

/// Grid-driven search for the preferred enemy of a unit.
pub fn find_best_target(
    unit: &BattleUnit,
    all_units: &Vec<BattleUnit>,
    grid: &SpatialGrid,
) -> (r: Option<usize>)
    requires
        wf_unit(*unit),
        wf_grid(*grid),
        forall|i: int| 0 <= i < all_units@.len() ==> wf_unit(#[trigger] all_units@[i]),
    ensures
        r == find_best_spec(*unit, all_units@, *grid),
        (r matches Some(i) ==> valid_candidate(*unit, all_units@, i as int)),
{
    proof {
        lemma_pick_best_valid(*unit, all_units@, search_candidates(*unit, *grid));
    }
    if !unit.alive || !unit.can_attack() {
        return None;
    }

    let search_range = if unit.max_weapon_range > unit.view_range {
        unit.max_weapon_range
    } else {
        unit.view_range
    };
    let nearby = grid.get_nearby(unit.pos_x, unit.pos_y, unit.pos_z, search_range);

    let mut best: Option<usize> = None;
    let mut best_priority: i64 = 0;
    let mut best_dist_sq: u128 = 0;
    let mut k: usize = 0;
    while k < nearby.len()
        invariant
            wf_unit(*unit),
            forall|i: int| 0 <= i < all_units@.len() ==> wf_unit(#[trigger] all_units@[i]),
            k <= nearby@.len(),
            best == pick_best(*unit, all_units@, nearby@.subrange(0, k as int)),
            (best matches Some(b) ==> valid_candidate(*unit, all_units@, b as int)
                && best_priority == target_priority(*unit, all_units@[b as int])
                && best_dist_sq == dist_sq_units(*unit, all_units@[b as int])),
            (best is None ==> best_priority == 0),
        decreases nearby@.len() - k,
    {
        proof {
            assert(nearby@.subrange(0, k + 1).drop_last() =~= nearby@.subrange(0, k as int));
            assert(nearby@.subrange(0, k + 1).last() == nearby@[k as int]);
        }
        let idx = nearby[k];
        if idx < all_units.len() {
            let other = &all_units[idx];
            if other.id != unit.id && other.alive && other.faction_id != unit.faction_id {
                let priority = calculate_target_priority(unit, other);
                if priority > 0 {
                    let d = unit.distance_sq(other);
                    let take = match best {
                        Option::None => true,
                        Option::Some(_) => priority > best_priority || (priority == best_priority
                            && d < best_dist_sq),
                    };
                    if take {
                        best = Some(idx);
                        best_priority = priority;
                        best_dist_sq = d;
                    }
                }
            }
        }
        k += 1;
    }
    proof {
        assert(nearby@.subrange(0, nearby@.len() as int) =~= nearby@);
    }
    best
}

/// A station index the attacker may bombard: in bounds, another faction,
/// alive, not itself, and a station.
pub open spec fn valid_station_candidate(
    unit: BattleUnit,
    units: Seq<BattleUnit>,
    idx: int,
) -> bool {
    &&& 0 <= idx < units.len()
    &&& units[idx].id != unit.id
    &&& units[idx].alive
    &&& units[idx].faction_id != unit.faction_id
    &&& units[idx].is_station
}

/// The nearest hostile station among a candidate list, earliest listed on
/// exact ties.
pub open spec fn pick_nearest_station(
    unit: BattleUnit,
    units: Seq<BattleUnit>,
    cands: Seq<usize>,
) -> Option<usize>
    decreases cands.len(),
{
    if cands.len() == 0 {
        None
    } else {
        let prev = pick_nearest_station(unit, units, cands.drop_last());
        let c = cands.last();
        if !valid_station_candidate(unit, units, c as int) {
            prev
        } else {
            match prev {
                Option::None => Option::Some(c),
                Option::Some(b) => if dist_sq_units(unit, units[c as int]) < dist_sq_units(
                    unit,
                    units[b as int],
                ) {
                    Option::Some(c)
                } else {
                    prev
                },
            }
        }
    }
}

pub open spec fn siege_candidates(unit: BattleUnit, g: SpatialGrid, siege_range: int) -> Seq<
    usize,
> {
    nearby_spec(
        g.cells@,
        cell_key(g.cell_size as int, unit.pos_x as int),
        cell_key(g.cell_size as int, unit.pos_y as int),
        cell_key(g.cell_size as int, unit.pos_z as int),
        grid_radius(g.cell_size as int, siege_range),
    )
}

pub open spec fn find_siege_spec(
    unit: BattleUnit,
    units: Seq<BattleUnit>,
    g: SpatialGrid,
    siege_range: int,
) -> Option<usize> {
    if !unit.alive {
        None
    } else {
        pick_nearest_station(unit, units, siege_candidates(unit, g, siege_range))
    }
}

pub proof fn lemma_pick_station_valid(unit: BattleUnit, units: Seq<BattleUnit>, cands: Seq<usize>)
    ensures
        pick_nearest_station(unit, units, cands) matches Some(i) ==> valid_station_candidate(
            unit,
            units,
            i as int,
        ),
    decreases cands.len(),
{
    if cands.len() > 0 {
        lemma_pick_station_valid(unit, units, cands.drop_last());
    }
}

/// Station-only nearest-enemy search used by siege weapons.
pub fn find_siege_target(
    unit: &BattleUnit,
    all_units: &Vec<BattleUnit>,
    grid: &SpatialGrid,
    siege_range: i64,
) -> (r: Option<usize>)
    requires
        wf_unit(*unit),
        wf_grid(*grid),
        0 <= siege_range <= crate::STAT_LIMIT,
        forall|i: int| 0 <= i < all_units@.len() ==> wf_unit(#[trigger] all_units@[i]),
    ensures
        r == find_siege_spec(*unit, all_units@, *grid, siege_range as int),
        (r matches Some(i) ==> valid_station_candidate(*unit, all_units@, i as int)),
{
    proof {
        lemma_pick_station_valid(*unit, all_units@, siege_candidates(*unit, *grid,
            siege_range as int));
    }
    if !unit.alive {
        return None;
    }
    let nearby = grid.get_nearby(unit.pos_x, unit.pos_y, unit.pos_z, siege_range);

    let mut best: Option<usize> = None;
    let mut best_dist_sq: u128 = 0;
    let mut k: usize = 0;
    while k < nearby.len()
        invariant
            wf_unit(*unit),
            forall|i: int| 0 <= i < all_units@.len() ==> wf_unit(#[trigger] all_units@[i]),
            k <= nearby@.len(),
            best == pick_nearest_station(*unit, all_units@, nearby@.subrange(0, k as int)),
            (best matches Some(b) ==> valid_station_candidate(*unit, all_units@, b as int)
                && best_dist_sq == dist_sq_units(*unit, all_units@[b as int])),
        decreases nearby@.len() - k,
    {
        proof {
            assert(nearby@.subrange(0, k + 1).drop_last() =~= nearby@.subrange(0, k as int));
            assert(nearby@.subrange(0, k + 1).last() == nearby@[k as int]);
        }
        let idx = nearby[k];
        if idx < all_units.len() {
            let other = &all_units[idx];
            if other.id != unit.id && other.alive && other.faction_id != unit.faction_id
                && other.is_station {
                let d = unit.distance_sq(other);
                let take = match best {
                    Option::None => true,
                    Option::Some(_) => d < best_dist_sq,
                };
                if take {
                    best = Some(idx);
                    best_dist_sq = d;
                }
            }
        }
        k += 1;
    }
    proof {
        assert(nearby@.subrange(0, nearby@.len() as int) =~= nearby@);
    }
    best
}

/// The unit mounts at least one point-defense weapon.
pub open spec fn has_am_weapon(u: BattleUnit) -> bool {
    exists|k: int| 0 <= k < u.weapons@.len() && pd_tag((#[trigger] u.weapons@[k]).tag@)
}

fn check_has_am(u: &BattleUnit) -> (r: bool)
    ensures
        r == has_am_weapon(*u),
{
    let mut k: usize = 0;
    while k < u.weapons.len()
        invariant
            k <= u.weapons@.len(),
            forall|t: int| 0 <= t < k ==> !pd_tag((#[trigger] u.weapons@[t]).tag@),
        decreases u.weapons@.len() - k,
    {
        if is_point_defense(&u.weapons[k]) {
            return true;
        }
        k += 1;
    }
    false
}

/// The interception pairs one defender contributes: one pair per nearby
/// living enemy, in grid order.
pub open spec fn am_pairs_for(
    units: Seq<BattleUnit>,
    d: usize,
    cands: Seq<usize>,
) -> Seq<(usize, usize)>
    decreases cands.len(),
{
    if cands.len() == 0 {
        Seq::empty()
    } else {
        am_pairs_for(units, d, cands.drop_last()) + ({
            let e = cands.last();
            if e < units.len() && units[e as int].faction_id != units[d as int].faction_id
                && units[e as int].alive {
                seq![(d, e)]
            } else {
                Seq::empty()
            }
        })
    }
}

/// The candidate list for a defender: every index within the Chebyshev
/// cell radius of its weapon range.
pub open spec fn am_candidates(units: Seq<BattleUnit>, g: SpatialGrid, d: int) -> Seq<usize> {
    nearby_spec(
        g.cells@,
        cell_key(g.cell_size as int, units[d].pos_x as int),
        cell_key(g.cell_size as int, units[d].pos_y as int),
        cell_key(g.cell_size as int, units[d].pos_z as int),
        grid_radius(g.cell_size as int, units[d].max_weapon_range as int),
    )
}

/// All interception pairs of the first `n` defenders, in index order.
pub open spec fn am_pairs_spec(units: Seq<BattleUnit>, g: SpatialGrid, n: int) -> Seq<
    (usize, usize),
>
    decreases n,
{
    if n <= 0 {
        Seq::empty()
    } else {
        am_pairs_spec(units, g, n - 1) + ({
            let d = n - 1;
            if units[d].alive && has_am_weapon(units[d]) {
                am_pairs_for(units, d as usize, am_candidates(units, g, d))
            } else {
                Seq::empty()
            }
        })
    }
}

/// Pair every living unit that mounts point-defense with each nearby
/// living enemy, for the interception phase.
pub fn find_am_targets(all_units: &Vec<BattleUnit>, grid: &SpatialGrid) -> (r: Vec<(usize, usize)>)
    requires
        wf_grid(*grid),
        forall|i: int| 0 <= i < all_units@.len() ==> wf_unit(#[trigger] all_units@[i]),
    ensures
        r@ == am_pairs_spec(all_units@, *grid, all_units@.len() as int),
{
    let mut out: Vec<(usize, usize)> = Vec::new();
    let mut d: usize = 0;
    while d < all_units.len()
        invariant
            wf_grid(*grid),
            forall|i: int| 0 <= i < all_units@.len() ==> wf_unit(#[trigger] all_units@[i]),
            d <= all_units@.len(),
            out@ == am_pairs_spec(all_units@, *grid, d as int),
        decreases all_units@.len() - d,
    {
        let unit = &all_units[d];
        if unit.alive && check_has_am(unit) {
            let nearby = grid.get_nearby(unit.pos_x, unit.pos_y, unit.pos_z,
                unit.max_weapon_range);
            let ghost out_before = out@;
            let mut k: usize = 0;
            while k < nearby.len()
                invariant
                    forall|i: int| 0 <= i < all_units@.len() ==> wf_unit(
                        #[trigger] all_units@[i],
                    ),
                    d < all_units@.len(),
                    *unit == all_units@[d as int],
                    k <= nearby@.len(),
                    out@ == out_before + am_pairs_for(all_units@, d, nearby@.subrange(
                        0,
                        k as int,
                    )),
                decreases nearby@.len() - k,
            {
                proof {
                    assert(nearby@.subrange(0, k + 1).drop_last() =~= nearby@.subrange(
                        0,
                        k as int,
                    ));
                    assert(nearby@.subrange(0, k + 1).last() == nearby@[k as int]);
                }
                let e = nearby[k];
                if e < all_units.len() {
                    let enemy = &all_units[e];
                    if enemy.faction_id != unit.faction_id && enemy.alive {
                        out.push((d, e));
                    }
                }
                k += 1;
            }
            proof {
                assert(nearby@.subrange(0, nearby@.len() as int) =~= nearby@);
            }
        }
        d += 1;
    }
    out
}

/// Units that agree everywhere but possibly in their recorded targets.
pub open spec fn same_but_target(a: BattleUnit, b: BattleUnit) -> bool {
    b == (BattleUnit { target_id: b.target_id, ..a })
}

pub open spec fn same_units_but_targets(a: Seq<BattleUnit>, b: Seq<BattleUnit>) -> bool {
    &&& a.len() == b.len()
    &&& forall|i: int| 0 <= i < a.len() ==> same_but_target(a[i], #[trigger] b[i])
}

/// Target selection never reads recorded targets: any retargeting of the
/// stored units, or of the searcher, leaves the choice unchanged.
pub proof fn lemma_pick_best_target_blind(
    u1: BattleUnit,
    u2: BattleUnit,
    a: Seq<BattleUnit>,
    b: Seq<BattleUnit>,
    cands: Seq<usize>,
)
    requires
        same_but_target(u1, u2),
        same_units_but_targets(a, b),
    ensures
        pick_best(u1, a, cands) == pick_best(u2, b, cands),
    decreases cands.len(),
{
    if cands.len() > 0 {
        lemma_pick_best_target_blind(u1, u2, a, b, cands.drop_last());
        lemma_pick_best_valid(u1, a, cands.drop_last());
        lemma_pick_best_valid(u2, b, cands.drop_last());
        let c = cands.last() as int;
        if 0 <= c < a.len() {
            assert(same_but_target(a[c], b[c]));
            assert(target_priority(u1, a[c]) == target_priority(u2, b[c]));
            assert(valid_candidate(u1, a, c) == valid_candidate(u2, b, c));
            match pick_best(u1, a, cands.drop_last()) {
                Option::None => {},
                Option::Some(bst) => {
                    assert(valid_candidate(u1, a, bst as int));
                    assert(same_but_target(a[bst as int], b[bst as int]));
                    assert(target_priority(u1, a[bst as int]) == target_priority(
                        u2,
                        b[bst as int],
                    ));
                    assert(strictly_better(u1, a, c, bst as int) == strictly_better(
                        u2,
                        b,
                        c,
                        bst as int,
                    ));
                },
            }
        } else {
            assert(!valid_candidate(u1, a, c) && !valid_candidate(u2, b, c));
        }
    }
}

pub proof fn lemma_find_best_target_blind(
    u1: BattleUnit,
    u2: BattleUnit,
    a: Seq<BattleUnit>,
    b: Seq<BattleUnit>,
    g: SpatialGrid,
)
    requires
        same_but_target(u1, u2),
        same_units_but_targets(a, b),
    ensures
        find_best_spec(u1, a, g) == find_best_spec(u2, b, g),
{
    assert(u2.weapons == u1.weapons);
    assert(search_candidates(u1, g) == search_candidates(u2, g));
    lemma_pick_best_target_blind(u1, u2, a, b, search_candidates(u1, g));
}

} // verus!
