use vstd::prelude::*;
use crate::battle_unit::{dist_units, integrate_spec, move_away_spec, move_towards_spec, wf_unit,
    BattleUnit};
use crate::DT_LIMIT;

verus! {

/// Unit state after one movement step against an optional target: close in
/// beyond the first weapon's optimal range, back off inside eight tenths
/// of it, hold station in between, then integrate the position. A unit
/// without a target stops, so its position does not change. A dead unit,
/// or a station, does not move at all.
pub open spec fn update_movement_spec(u: BattleUnit, target: Option<BattleUnit>, dt: int) -> BattleUnit {
    if !u.alive || u.is_station {
        u
    } else {
        match target {
            Option::None => integrate_spec(BattleUnit { vel_x: 0, vel_y: 0, vel_z: 0, ..u }, dt),
            Option::Some(t) => {
                let d = dist_units(u, t);
                let optimal = if u.weapons@.len() > 0 {
                    u.weapons@[0].optimal_range as int
                } else {
                    0
                };
                let steered = if d > optimal {
                    move_towards_spec(u, t.pos_x as int, t.pos_y as int, t.pos_z as int)
                } else if d < (optimal * 800) / 1000 {
                    move_away_spec(u, t.pos_x as int, t.pos_y as int, t.pos_z as int)
                } else {
                    BattleUnit { vel_x: 0, vel_y: 0, vel_z: 0, ..u }
                };
                integrate_spec(steered, dt)
            },
        }
    }
}

/// One movement step for a unit chasing (or keeping range from) a target.
pub fn update_movement(unit: &mut BattleUnit, target: Option<&BattleUnit>, dt: i64)
    requires
        wf_unit(*old(unit)),
        (target matches Some(t) ==> wf_unit(*t)),
        0 <= dt <= DT_LIMIT,
    ensures
        *final(unit) == update_movement_spec(
            *old(unit),
            match target {
                Option::None => Option::None,
                Option::Some(t) => Option::Some(*t),
            },
            dt as int,
        ),
        wf_unit(*final(unit)),
{
    if !unit.alive || unit.is_station {
        return ;
    }
    if let Some(t) = target {
        let d = unit.distance(t);
        let optimal: i64 = if unit.weapons.len() > 0 {
            unit.weapons[0].optimal_range
        } else {
            0
        };
        if d > optimal {
            unit.move_towards(t.pos_x, t.pos_y, t.pos_z);
        } else if d < (optimal * 800) / 1000 {
            unit.move_away(t.pos_x, t.pos_y, t.pos_z);
        } else {
            unit.stop();
        }
    } else {
        unit.stop();
    }
    unit.update_position(dt);
}

} // verus!
