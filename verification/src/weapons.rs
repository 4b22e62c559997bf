use vstd::prelude::*;
use crate::battle_unit::{dist_sq_units, dist_units, sq, wf_unit, wf_weapon, BattleUnit, Weapon};
use crate::tags::{contains_seq, contains_x, has_prefix, has_prefix_x, lower_seq, lower_vec};
use crate::STAT_LIMIT;

verus! {

/// Lowercase token byte strings that drive weapon classification.
pub open spec fn tok_am() -> Seq<u8> {
    seq![97u8, 109u8]
}

pub open spec fn tok_anti_missile() -> Seq<u8> {
    seq![97u8, 110u8, 116u8, 105u8, 45u8, 109u8, 105u8, 115u8, 115u8, 105u8, 108u8, 101u8]
}

pub open spec fn tok_nm() -> Seq<u8> {
    seq![110u8, 109u8]
}

pub open spec fn tok_nuke() -> Seq<u8> {
    seq![110u8, 117u8, 107u8, 101u8]
}

pub open spec fn tok_missile() -> Seq<u8> {
    seq![109u8, 105u8, 115u8, 115u8, 105u8, 108u8, 101u8]
}

pub open spec fn tok_rocket() -> Seq<u8> {
    seq![114u8, 111u8, 99u8, 107u8, 101u8, 116u8]
}

pub open spec fn tok_torpedo() -> Seq<u8> {
    seq![116u8, 111u8, 114u8, 112u8, 101u8, 100u8, 111u8]
}

pub open spec fn tok_hm() -> Seq<u8> {
    seq![104u8, 109u8]
}

pub open spec fn tok_sm() -> Seq<u8> {
    seq![115u8, 109u8]
}

pub open spec fn tok_cr() -> Seq<u8> {
    seq![99u8, 114u8]
}

pub open spec fn tok_pr() -> Seq<u8> {
    seq![112u8, 114u8]
}

/// Point-defense (anti-missile) weapon: never fires in the main combat pass.
pub open spec fn pd_tag(tag: Seq<u8>) -> bool {
    ||| has_prefix(lower_seq(tag), tok_am())
    ||| contains_seq(lower_seq(tag), tok_anti_missile())
}

/// Siege weapon: fires only at stations.
pub open spec fn siege_tag(tag: Seq<u8>) -> bool {
    ||| has_prefix(lower_seq(tag), tok_nm())
    ||| contains_seq(lower_seq(tag), tok_nuke())
}

/// Weapon whose projectiles can be intercepted.
pub open spec fn interceptable_tag(tag: Seq<u8>) -> bool {
    ||| contains_seq(lower_seq(tag), tok_missile())
    ||| contains_seq(lower_seq(tag), tok_rocket())
    ||| contains_seq(lower_seq(tag), tok_torpedo())
    ||| has_prefix(lower_seq(tag), tok_nm())
    ||| has_prefix(lower_seq(tag), tok_hm())
    ||| has_prefix(lower_seq(tag), tok_sm())
    ||| has_prefix(lower_seq(tag), tok_cr())
    ||| has_prefix(lower_seq(tag), tok_pr())
}

pub fn is_point_defense(weapon: &Weapon) -> (r: bool)
    ensures
        r == pd_tag(weapon.tag@),
{
    let lt = lower_vec(&weapon.tag);
    let am: Vec<u8> = vec![97u8, 109u8];
    let anti: Vec<u8> = vec![
        97u8,
        110u8,
        116u8,
        105u8,
        45u8,
        109u8,
        105u8,
        115u8,
        115u8,
        105u8,
        108u8,
        101u8,
    ];
    proof {
        assert(am@ =~= tok_am());
        assert(anti@ =~= tok_anti_missile());
    }
    has_prefix_x(&lt, &am) || contains_x(&lt, &anti)
}

pub fn is_siege_weapon(weapon: &Weapon) -> (r: bool)
    ensures
        r == siege_tag(weapon.tag@),
{
    let lt = lower_vec(&weapon.tag);
    let nm: Vec<u8> = vec![110u8, 109u8];
    let nuke: Vec<u8> = vec![110u8, 117u8, 107u8, 101u8];
    proof {
        assert(nm@ =~= tok_nm());
        assert(nuke@ =~= tok_nuke());
    }
    has_prefix_x(&lt, &nm) || contains_x(&lt, &nuke)
}

pub fn is_interceptable(weapon: &Weapon) -> (r: bool)
    ensures
        r == interceptable_tag(weapon.tag@),
{
    let lt = lower_vec(&weapon.tag);
    let missile: Vec<u8> = vec![109u8, 105u8, 115u8, 115u8, 105u8, 108u8, 101u8];
    let rocket: Vec<u8> = vec![114u8, 111u8, 99u8, 107u8, 101u8, 116u8];
    let torpedo: Vec<u8> = vec![116u8, 111u8, 114u8, 112u8, 101u8, 100u8, 111u8];
    let nm: Vec<u8> = vec![110u8, 109u8];
    let hm: Vec<u8> = vec![104u8, 109u8];
    let sm: Vec<u8> = vec![115u8, 109u8];
    let cr: Vec<u8> = vec![99u8, 114u8];
    let pr: Vec<u8> = vec![112u8, 114u8];
    proof {
        assert(missile@ =~= tok_missile());
        assert(rocket@ =~= tok_rocket());
        assert(torpedo@ =~= tok_torpedo());
        assert(nm@ =~= tok_nm());
        assert(hm@ =~= tok_hm());
        assert(sm@ =~= tok_sm());
        assert(cr@ =~= tok_cr());
        assert(pr@ =~= tok_pr());
    }
    contains_x(&lt, &missile) || contains_x(&lt, &rocket) || contains_x(&lt, &torpedo)
        || has_prefix_x(&lt, &nm) || has_prefix_x(&lt, &hm) || has_prefix_x(&lt, &sm)
        || has_prefix_x(&lt, &cr) || has_prefix_x(&lt, &pr)
}

/// Damage multiplier (per mille) against a given armor tier: full damage up
/// to the weapon's rated tier, then 1/2, 1/4, and 1/10 for each tier above.
pub open spec fn armor_mult(target_armor: int, weapon_armor_max: int) -> int {
    let diff = target_armor - weapon_armor_max;
    if diff <= 0 {
        1000
    } else if diff == 1 {
        500
    } else if diff == 2 {
        250
    } else {
        100
    }
}

pub fn calculate_armor_effectiveness(target_armor: i64, weapon_armor_max: i64) -> (r: i64)
    requires
        -STAT_LIMIT <= target_armor <= STAT_LIMIT,
        -STAT_LIMIT <= weapon_armor_max <= STAT_LIMIT,
    ensures
        r == armor_mult(target_armor as int, weapon_armor_max as int),
{
    let diff = target_armor - weapon_armor_max;
    if diff <= 0 {
        1000
    } else if diff == 1 {
        500
    } else if diff == 2 {
        250
    } else {
        100
    }
}

/// Range falloff multiplier (per mille): full damage up to the optimal
/// range, 1/10 at and beyond the maximum range, interpolated in between
/// with a floor of 1/10.
pub open spec fn range_mult(distance: int, optimal_range: int, max_range: int) -> int {
    if distance <= optimal_range {
        1000
    } else if distance >= max_range {
        100
    } else {
        let fall = 1000 - ((distance - optimal_range) * 900) / (max_range - optimal_range);
        if fall < 100 {
            100
        } else {
            fall
        }
    }
}

pub fn calculate_range_falloff(distance: i64, optimal_range: i64, max_range: i64) -> (r: i64)
    requires
        0 <= distance <= 4_000_000_000_000,
        0 <= optimal_range <= STAT_LIMIT,
        0 <= max_range <= STAT_LIMIT,
    ensures
        r == range_mult(distance as int, optimal_range as int, max_range as int),
        100 <= r <= 1000,
{
    if distance <= optimal_range {
        1000
    } else if distance >= max_range {
        100
    } else {
        let fall = 1000 - ((distance - optimal_range) * 900) / (max_range - optimal_range);
        proof {
            assert(((distance - optimal_range) * 900) / (max_range - optimal_range) >= 0)
                by (nonlinear_arith)
                requires
                    distance > optimal_range,
                    max_range > optimal_range,
            ;
        }
        if fall < 100 {
            100
        } else {
            fall
        }
    }
}

/// Whether the fire/skip pattern permits firing on this tick.
pub open spec fn seq_gate(pattern: Seq<bool>, tick: int) -> bool {
    pattern.len() == 0 || pattern[tick % pattern.len() as int]
}

pub fn can_fire_sequence(weapon: &Weapon, tick: u64) -> (r: bool)
    ensures
        r == seq_gate(weapon.sequence@, tick as int),
{
    if weapon.sequence.len() == 0 {
        return true;
    }
    let idx: usize = (tick % (weapon.sequence.len() as u64)) as usize;
    weapon.sequence[idx]
}

/// All the conditions under which a weapon discharges at its holder's
/// target: pattern gate, cooldown elapsed, target within the weapon's
/// maximum range, stations only for siege weapons, and never for
/// point-defense mounts.
pub open spec fn fire_ok(
    attacker: BattleUnit,
    target: BattleUnit,
    w: Weapon,
    now: int,
    tick: int,
) -> bool {
    &&& seq_gate(w.sequence@, tick)
    &&& now >= w.last_fired + w.cooldown
    &&& dist_sq_units(attacker, target) <= sq(w.max_range as int)
    &&& (siege_tag(w.tag@) ==> target.is_station)
    &&& !pd_tag(w.tag@)
}

/// The damage of one discharge: damage per shot, scaled down by range
/// falloff and armor effectiveness, never below one full point.
pub open spec fn shot_damage(w: Weapon, target: BattleUnit, distance: int) -> int {
    let base = if w.fire_rate > 0 {
        (w.dps * 1000) / (w.fire_rate as int)
    } else {
        w.dps as int
    };
    let after_range = (base * range_mult(distance, w.optimal_range as int, w.max_range as int))
        / 1000;
    let after_armor = (after_range * armor_mult(target.armor as int, w.target_armor_max as int))
        / 1000;
    if after_armor < 1000 {
        1000
    } else {
        after_armor
    }
}

/// Try to fire a weapon at a target: the damage of one discharge when every
/// firing condition holds, nothing otherwise.
pub fn try_fire_weapon(
    attacker: &BattleUnit,
    target: &BattleUnit,
    weapon: &Weapon,
    current_time: i64,
    current_tick: u64,
) -> (r: Option<i64>)
    requires
        wf_unit(*attacker),
        wf_unit(*target),
        wf_weapon(*weapon),
    ensures
        ((r is Some) <==> fire_ok(*attacker, *target, *weapon, current_time as int,
            current_tick as int)),
        (r matches Some(d) ==> d == shot_damage(*weapon, *target, dist_units(*attacker, *target))
            && 1000 <= d <= 1_000_000_000_000_000_000),
{
    if !can_fire_sequence(weapon, current_tick) {
        return None;
    }
    if current_time < weapon.last_fired + weapon.cooldown {
        return None;
    }
    let dsq = attacker.distance_sq(target);
    proof {
        assert((weapon.max_range as int) * (weapon.max_range as int) == sq(weapon.max_range as int)
            && 0 <= sq(weapon.max_range as int) <= 1_000_000_000_000_000_000_000_000)
            by (nonlinear_arith)
            requires
                0 <= weapon.max_range <= STAT_LIMIT,
        ;
    }
    let range_sq: u128 = (weapon.max_range as u128) * (weapon.max_range as u128);
    if dsq > range_sq {
        return None;
    }
    if is_siege_weapon(weapon) && !target.is_station {
        return None;
    }
    if is_point_defense(weapon) {
        return None;
    }

    let base: i64 = if weapon.fire_rate > 0 {
        (weapon.dps * 1000) / weapon.fire_rate
    } else {
        weapon.dps
    };
    proof {
        if weapon.fire_rate > 0 {
            vstd::arithmetic::div_mod::lemma_div_nonincreasing(
                (weapon.dps * 1000) as int,
                weapon.fire_rate as int,
            );
            vstd::arithmetic::div_mod::lemma_div_pos_is_pos(
                (weapon.dps * 1000) as int,
                weapon.fire_rate as int,
            );
        }
        assert(0 <= base <= 1_000_000_000_000_000);
    }
    let dist = attacker.distance(target);
    let rm = calculate_range_falloff(dist, weapon.optimal_range, weapon.max_range);
    proof {
        assert(0 <= (base as int) * (rm as int) <= 1_000_000_000_000_000_000) by (nonlinear_arith)
            requires
                0 <= base <= 1_000_000_000_000_000,
                0 <= rm <= 1000,
        ;
    }
    let after_range = (base * rm) / 1000;
    let am = calculate_armor_effectiveness(target.armor, weapon.target_armor_max);
    proof {
        assert(0 <= (after_range as int) * (am as int) <= 1_000_000_000_000_000_000)
            by (nonlinear_arith)
            requires
                0 <= after_range <= 1_000_000_000_000_000,
                0 <= am <= 1000,
        ;
    }
    let after_armor = (after_range * am) / 1000;
    let damage = if after_armor < 1000 {
        1000
    } else {
        after_armor
    };
    Some(damage)
}

/// All the conditions under which a point-defense mount intercepts a
/// missile at the given position: cooldown elapsed and missile in range.
pub open spec fn intercept_ok(
    defender: BattleUnit,
    w: Weapon,
    mx: int,
    my: int,
    mz: int,
    now: int,
) -> bool {
    &&& pd_tag(w.tag@)
    &&& now >= w.last_fired + w.cooldown
    &&& crate::battle_unit::dist_sq_xyz(
        mx,
        my,
        mz,
        defender.pos_x as int,
        defender.pos_y as int,
        defender.pos_z as int,
    ) <= sq(w.max_range as int)
}

/// Whether a point-defense mount can intercept a missile at a position.
pub fn try_intercept_missile(
    defender: &BattleUnit,
    weapon: &Weapon,
    missile_pos_x: i64,
    missile_pos_y: i64,
    missile_pos_z: i64,
    current_time: i64,
) -> (r: bool)
    requires
        wf_unit(*defender),
        wf_weapon(*weapon),
        -crate::COORD_LIMIT <= missile_pos_x <= crate::COORD_LIMIT,
        -crate::COORD_LIMIT <= missile_pos_y <= crate::COORD_LIMIT,
        -crate::COORD_LIMIT <= missile_pos_z <= crate::COORD_LIMIT,
    ensures
        r == intercept_ok(*defender, *weapon, missile_pos_x as int, missile_pos_y as int,
            missile_pos_z as int, current_time as int),
{
    if !is_point_defense(weapon) {
        return false;
    }
    if current_time < weapon.last_fired + weapon.cooldown {
        return false;
    }
    let dsq = crate::battle_unit::dist_sq_between(missile_pos_x, missile_pos_y, missile_pos_z,
        defender.pos_x, defender.pos_y, defender.pos_z);
    proof {
        assert((weapon.max_range as int) * (weapon.max_range as int) == sq(weapon.max_range as int)
            && 0 <= sq(weapon.max_range as int) <= 1_000_000_000_000_000_000_000_000)
            by (nonlinear_arith)
            requires
                0 <= weapon.max_range <= STAT_LIMIT,
        ;
    }
    let range_sq: u128 = (weapon.max_range as u128) * (weapon.max_range as u128);
    dsq <= range_sq
}

} // verus!
