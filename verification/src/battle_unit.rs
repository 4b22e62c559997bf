use vstd::prelude::*;
use vstd::arithmetic::div_mod::{lemma_div_is_ordered, lemma_div_multiples_vanish,
    lemma_div_pos_is_pos};
use vstd::arithmetic::mul::lemma_mul_inequality;
use crate::fixed::{clamp, clamp_i64, floor_div, isqrt, sat_add, sat_add_i64, sqrt_floor,
    lemma_sqrt_floor_bounds};
use crate::tags::{contains_seq, contains_x, lower_seq, lower_vec};
use crate::{COORD_LIMIT, DT_LIMIT, SPEED_LIMIT, STAT_LIMIT, TIME_LIMIT};

verus! {

/// One weapon mount. All fractional quantities are scaled by `SCALE`:
/// damage per second, ranges and world distances in thousandths of a unit,
/// cooldown and clock values in milliseconds.
#[derive(Clone)]
pub struct Weapon {
    /// Classification tag (byte string, matched case-insensitively).
    pub tag: Vec<u8>,
    pub dps: i64,
    /// Shots per second, scaled.
    pub fire_rate: i64,
    pub max_range: i64,
    pub optimal_range: i64,
    /// Highest armor tier this weapon damages in full.
    pub target_armor_max: i64,
    /// Seconds between discharges, in milliseconds.
    pub cooldown: i64,
    /// Absolute clock value of the last discharge, in milliseconds.
    pub last_fired: i64,
    /// Fire/skip pattern, indexed by tick number; empty means always permitted.
    pub sequence: Vec<bool>,
}

/// One combat unit: flat value record.
#[derive(Clone)]
pub struct BattleUnit {
    pub id: u32,
    pub faction_id: u32,
    pub player_id: Option<u32>,

    pub max_hp: i64,
    pub hp: i64,
    pub max_shield: i64,
    pub shield: i64,
    /// Armor tier: 0 none, 1 light, 2 medium, 3 heavy, 4 super.
    pub armor: i64,
    /// Shield points regained per second, scaled.
    pub shield_regen: i64,

    pub pos_x: i64,
    pub pos_y: i64,
    pub pos_z: i64,

    pub vel_x: i64,
    pub vel_y: i64,
    pub vel_z: i64,
    pub max_speed: i64,

    pub weapons: Vec<Weapon>,
    /// Largest `max_range` among the weapons, 0 when unarmed.
    pub max_weapon_range: i64,

    pub target_id: Option<u32>,
    pub alive: bool,

    pub damage_dealt: i64,
    pub damage_taken: i64,

    /// Type tag used to classify ship against station at ingestion.
    pub unit_type: Vec<u8>,
    pub is_ship: bool,
    pub is_station: bool,
    pub has_weapons: bool,
    pub view_range: i64,
}

/// Largest `max_range` among a weapon sequence, 0 when there is none.
pub open spec fn max_range_of(ws: Seq<Weapon>) -> int
    decreases ws.len(),
{
    if ws.len() == 0 {
        0
    } else {
        let rest = max_range_of(ws.drop_last());
        if ws.last().max_range > rest {
            ws.last().max_range as int
        } else {
            rest
        }
    }
}

pub open spec fn wf_weapon(w: Weapon) -> bool {
    &&& 0 <= w.dps <= STAT_LIMIT
    &&& 0 <= w.fire_rate <= STAT_LIMIT
    &&& 0 <= w.max_range <= STAT_LIMIT
    &&& 0 <= w.optimal_range <= STAT_LIMIT
    &&& 0 <= w.target_armor_max <= 4
    &&& 0 <= w.cooldown <= STAT_LIMIT
    &&& -TIME_LIMIT <= w.last_fired <= TIME_LIMIT
}

/// Well-formed unit: the schema every unit satisfies between ticks.
pub open spec fn wf_unit(u: BattleUnit) -> bool {
    &&& 0 <= u.hp <= u.max_hp <= STAT_LIMIT
    &&& u.alive == (u.hp > 0)
    &&& 0 <= u.shield <= u.max_shield <= STAT_LIMIT
    &&& 0 <= u.shield_regen <= STAT_LIMIT
    &&& 0 <= u.armor <= 4
    &&& -COORD_LIMIT <= u.pos_x <= COORD_LIMIT
    &&& -COORD_LIMIT <= u.pos_y <= COORD_LIMIT
    &&& -COORD_LIMIT <= u.pos_z <= COORD_LIMIT
    &&& -SPEED_LIMIT <= u.vel_x <= SPEED_LIMIT
    &&& -SPEED_LIMIT <= u.vel_y <= SPEED_LIMIT
    &&& -SPEED_LIMIT <= u.vel_z <= SPEED_LIMIT
    &&& 0 <= u.max_speed <= SPEED_LIMIT
    &&& forall|i: int| 0 <= i < u.weapons@.len() ==> wf_weapon(#[trigger] u.weapons@[i])
    &&& u.max_weapon_range == max_range_of(u.weapons@)
    &&& 0 <= u.max_weapon_range <= STAT_LIMIT
    &&& 0 <= u.view_range <= STAT_LIMIT
    &&& 0 <= u.damage_dealt
    &&& 0 <= u.damage_taken
}

pub open spec fn sq(x: int) -> int {
    x * x
}

/// Squared Euclidean distance between two positions.
pub open spec fn dist_sq_xyz(ax: int, ay: int, az: int, bx: int, by: int, bz: int) -> int {
    sq(ax - bx) + sq(ay - by) + sq(az - bz)
}

pub open spec fn dist_sq_units(a: BattleUnit, b: BattleUnit) -> int {
    dist_sq_xyz(a.pos_x as int, a.pos_y as int, a.pos_z as int, b.pos_x as int, b.pos_y as int,
        b.pos_z as int)
}

/// Scaled distance between two units (floor of the real distance).
pub open spec fn dist_units(a: BattleUnit, b: BattleUnit) -> int {
    sqrt_floor(dist_sq_units(a, b) as nat) as int
}

/// Largest possible squared distance between in-bounds positions.
pub proof fn lemma_dist_sq_bound(ax: int, ay: int, az: int, bx: int, by: int, bz: int)
    requires
        -COORD_LIMIT <= ax <= COORD_LIMIT,
        -COORD_LIMIT <= ay <= COORD_LIMIT,
        -COORD_LIMIT <= az <= COORD_LIMIT,
        -COORD_LIMIT <= bx <= COORD_LIMIT,
        -COORD_LIMIT <= by <= COORD_LIMIT,
        -COORD_LIMIT <= bz <= COORD_LIMIT,
    ensures
        0 <= dist_sq_xyz(ax, ay, az, bx, by, bz) <= 12_000_000_000_000_000_000_000_000,
{
    assert(0 <= sq(ax - bx) <= 4_000_000_000_000_000_000_000_000) by (nonlinear_arith)
        requires
            -2_000_000_000_000 <= ax - bx <= 2_000_000_000_000,
    ;
    assert(0 <= sq(ay - by) <= 4_000_000_000_000_000_000_000_000) by (nonlinear_arith)
        requires
            -2_000_000_000_000 <= ay - by <= 2_000_000_000_000,
    ;
    assert(0 <= sq(az - bz) <= 4_000_000_000_000_000_000_000_000) by (nonlinear_arith)
        requires
            -2_000_000_000_000 <= az - bz <= 2_000_000_000_000,
    ;
}

/// The floor square root of a bounded squared distance is at most 3.5e12.
pub proof fn lemma_dist_bound(n: nat)
    requires
        n <= 12_000_000_000_000_000_000_000_000,
    ensures
        sqrt_floor(n) <= 3_500_000_000_000,
{
    lemma_sqrt_floor_bounds(n);
    let s = sqrt_floor(n) as int;
    if s > 3_500_000_000_000 {
        assert(s * s > 12_000_000_000_000_000_000_000_000) by (nonlinear_arith)
            requires
                s > 3_500_000_000_000,
        ;
    }
}

/// Squared distance computed exactly, without overflow, as an unsigned wide value.
pub fn dist_sq_between(ax: i64, ay: i64, az: i64, bx: i64, by: i64, bz: i64) -> (r: u128)
    requires
        -COORD_LIMIT <= ax <= COORD_LIMIT,
        -COORD_LIMIT <= ay <= COORD_LIMIT,
        -COORD_LIMIT <= az <= COORD_LIMIT,
        -COORD_LIMIT <= bx <= COORD_LIMIT,
        -COORD_LIMIT <= by <= COORD_LIMIT,
        -COORD_LIMIT <= bz <= COORD_LIMIT,
    ensures
        r as int == dist_sq_xyz(ax as int, ay as int, az as int, bx as int, by as int, bz as int),
        r <= 12_000_000_000_000_000_000_000_000,
{
    proof {
        lemma_dist_sq_bound(ax as int, ay as int, az as int, bx as int, by as int, bz as int);
    }
    let dx: i64 = ax - bx;
    let dy: i64 = ay - by;
    let dz: i64 = az - bz;
    proof {
        assert(0 <= (dx as int) * (dx as int) <= 4_000_000_000_000_000_000_000_000)
            by (nonlinear_arith)
            requires
                -2_000_000_000_000 <= dx <= 2_000_000_000_000,
        ;
        assert(0 <= (dy as int) * (dy as int) <= 4_000_000_000_000_000_000_000_000)
            by (nonlinear_arith)
            requires
                -2_000_000_000_000 <= dy <= 2_000_000_000_000,
        ;
        assert(0 <= (dz as int) * (dz as int) <= 4_000_000_000_000_000_000_000_000)
            by (nonlinear_arith)
            requires
                -2_000_000_000_000 <= dz <= 2_000_000_000_000,
        ;
    }
    let sx: i128 = (dx as i128) * (dx as i128);
    let sy: i128 = (dy as i128) * (dy as i128);
    let sz: i128 = (dz as i128) * (dz as i128);
    (sx + sy + sz) as u128
}

/// State of a unit after one raw damage total has been applied, per the
/// shields-then-armored-hull rule.
pub open spec fn apply_damage(u: BattleUnit, d: int) -> BattleUnit {
    let taken = sat_add(u.damage_taken as int, d);
    if u.shield > 0 && d <= u.shield {
        BattleUnit { shield: (u.shield - d) as i64, damage_taken: taken as i64, ..u }
    } else {
        let spill = if u.shield > 0 {
            d - u.shield
        } else {
            d
        };
        let reduced = spill - u.armor * 500;
        let applied = if reduced > 1000 {
            reduced
        } else {
            1000
        };
        let new_hp = if u.hp - applied <= 0 {
            0
        } else {
            u.hp - applied
        };
        BattleUnit {
            shield: 0,
            hp: new_hp as i64,
            alive: new_hp > 0,
            damage_taken: taken as i64,
            ..u
        }
    }
}

impl BattleUnit {
    /// The unit can take part in combat.
    pub open spec fn spec_can_attack(self) -> bool {
        self.has_weapons && self.weapons@.len() > 0
    }

    pub fn can_attack(&self) -> (r: bool)
        ensures
            r == self.spec_can_attack(),
    {
        self.has_weapons && self.weapons.len() > 0
    }

    /// Squared distance to another unit.
    pub fn distance_sq(&self, other: &BattleUnit) -> (r: u128)
        requires
            wf_unit(*self),
            wf_unit(*other),
        ensures
            r as int == dist_sq_units(*self, *other),
            r <= 12_000_000_000_000_000_000_000_000,
    {
        dist_sq_between(self.pos_x, self.pos_y, self.pos_z, other.pos_x, other.pos_y, other.pos_z)
    }

    /// Scaled distance to another unit (floor of the real distance).
    pub fn distance(&self, other: &BattleUnit) -> (r: i64)
        requires
            wf_unit(*self),
            wf_unit(*other),
        ensures
            r == dist_units(*self, *other),
            0 <= r <= 3_500_000_000_000,
    {
        let dsq = self.distance_sq(other);
        let r = isqrt(dsq);
        proof {
            lemma_dist_bound(dsq as nat);
        }
        r as i64
    }

    /// Euler position integration, clamped to the world bounds.
    pub fn update_position(&mut self, dt: i64)
        requires
            wf_unit(*old(self)),
            0 <= dt <= DT_LIMIT,
        ensures
            *final(self) == integrate_spec(*old(self), dt as int),
            wf_unit(*final(self)),
    {
        proof {
            assert(-1_000_000_000_000_000 <= (self.vel_x as int) * dt <= 1_000_000_000_000_000
                && -1_000_000_000_000_000 <= (self.vel_y as int) * dt <= 1_000_000_000_000_000
                && -1_000_000_000_000_000 <= (self.vel_z as int) * dt <= 1_000_000_000_000_000)
                by (nonlinear_arith)
                requires
                    -SPEED_LIMIT <= self.vel_x <= SPEED_LIMIT,
                    -SPEED_LIMIT <= self.vel_y <= SPEED_LIMIT,
                    -SPEED_LIMIT <= self.vel_z <= SPEED_LIMIT,
                    0 <= dt <= DT_LIMIT,
            ;
        }
        let sx = floor_div(self.vel_x * dt, 1000);
        let sy = floor_div(self.vel_y * dt, 1000);
        let sz = floor_div(self.vel_z * dt, 1000);
        self.pos_x = clamp_i64(self.pos_x + sx, -COORD_LIMIT, COORD_LIMIT);
        self.pos_y = clamp_i64(self.pos_y + sy, -COORD_LIMIT, COORD_LIMIT);
        self.pos_z = clamp_i64(self.pos_z + sz, -COORD_LIMIT, COORD_LIMIT);
    }

    /// Zero the velocity.
    pub fn stop(&mut self)
        ensures
            *final(self) == (BattleUnit { vel_x: 0, vel_y: 0, vel_z: 0, ..*old(self) }),
    {
        self.vel_x = 0;
        self.vel_y = 0;
        self.vel_z = 0;
    }

    /// Shield regeneration over `dt` milliseconds.
    pub fn regen_shield(&mut self, dt: i64)
        requires
            wf_unit(*old(self)),
            0 <= dt <= DT_LIMIT,
        ensures
            *final(self) == regen_shield_spec(*old(self), dt as int),
            wf_unit(*final(self)),
    {
        if self.shield < self.max_shield && self.shield_regen > 0 {
            proof {
                assert(0 <= (self.shield_regen as int) * dt <= 1_000_000_000_000_000_000)
                    by (nonlinear_arith)
                    requires
                        0 <= self.shield_regen <= STAT_LIMIT,
                        0 <= dt <= DT_LIMIT,
                ;
            }
            let gain = (self.shield_regen * dt) / 1000;
            let grown = self.shield + gain;
            if grown < self.max_shield {
                self.shield = grown;
            } else {
                self.shield = self.max_shield;
            }
        }
    }

    /// Apply one aggregated damage total: shields absorb first, the spill
    /// hits the hull after a flat per-tier armor reduction, with a floor of
    /// one full point per hit; a unit whose hull is exhausted dies.
    pub fn take_damage(&mut self, damage: i64)
        requires
            wf_unit(*old(self)),
            damage >= 0,
        ensures
            *final(self) == apply_damage(*old(self), damage as int),
            wf_unit(*final(self)),
    {
        self.damage_taken = sat_add_i64(self.damage_taken, damage);

        if self.shield > 0 && damage <= self.shield {
            self.shield = self.shield - damage;
        } else {
            let spill = if self.shield > 0 {
                damage - self.shield
            } else {
                damage
            };
            self.shield = 0;
            let reduction = self.armor * 500;
            let applied = if spill > reduction && spill - reduction > 1000 {
                spill - reduction
            } else {
                1000
            };
            if applied >= self.hp {
                self.hp = 0;
                self.alive = false;
            } else {
                self.hp = self.hp - applied;
            }
        }
    }
}

/// One velocity component of magnitude `ms`, directed along `d`, for a
/// mover at distance `dist`: `d * ms / dist` rounded towards zero.
pub open spec fn scaled_component(d: int, ms: int, dist: int) -> int {
    if d >= 0 {
        (d * ms) / dist
    } else {
        -(((-d) * ms) / dist)
    }
}

/// Unit with its velocity redirected along the displacement `(dx, dy, dz)`
/// at full speed; unchanged when the displacement is zero.
pub open spec fn steer_spec(u: BattleUnit, dx: int, dy: int, dz: int) -> BattleUnit {
    let dsq = sq(dx) + sq(dy) + sq(dz);
    if dsq == 0 {
        u
    } else {
        let dist = sqrt_floor(dsq as nat) as int;
        BattleUnit {
            vel_x: scaled_component(dx, u.max_speed as int, dist) as i64,
            vel_y: scaled_component(dy, u.max_speed as int, dist) as i64,
            vel_z: scaled_component(dz, u.max_speed as int, dist) as i64,
            ..u
        }
    }
}

pub open spec fn move_towards_spec(u: BattleUnit, tx: int, ty: int, tz: int) -> BattleUnit {
    steer_spec(u, tx - u.pos_x, ty - u.pos_y, tz - u.pos_z)
}

pub open spec fn move_away_spec(u: BattleUnit, tx: int, ty: int, tz: int) -> BattleUnit {
    steer_spec(u, u.pos_x - tx, u.pos_y - ty, u.pos_z - tz)
}

/// A component of a displacement never exceeds the floor-rooted length of
/// the whole displacement.
proof fn lemma_component_le_dist(d: int, dsq: nat, dist: int)
    requires
        sq(d) <= dsq,
        dist == sqrt_floor(dsq) as int,
    ensures
        -dist <= d <= dist,
{
    lemma_sqrt_floor_bounds(dsq);
    if d > dist {
        assert(sq(d) >= (dist + 1) * (dist + 1)) by (nonlinear_arith)
            requires
                d >= dist + 1,
                dist >= 0,
        ;
    }
    if d < -dist {
        assert(sq(d) >= (dist + 1) * (dist + 1)) by (nonlinear_arith)
            requires
                -d >= dist + 1,
                dist >= 0,
        ;
    }
}

/// One scaled velocity component: `|d| * ms / dist`, signed like `d`.
fn scaled_vel(d: i64, ms: i64, dist: i64) -> (r: i64)
    requires
        0 < dist,
        -dist <= d <= dist,
        0 <= ms <= SPEED_LIMIT,
    ensures
        r == scaled_component(d as int, ms as int, dist as int),
        -ms <= r <= ms,
{
    let ad: i64 = if d < 0 {
        -d
    } else {
        d
    };
    proof {
        assert(0 <= (ad as int) * (ms as int) <= 0x7fff_ffff_ffff_ffff * 1_000_000_000)
            by (nonlinear_arith)
            requires
                0 <= ad <= 0x7fff_ffff_ffff_ffff,
                0 <= ms <= 1_000_000_000,
        ;
    }
    let prod: i128 = (ad as i128) * (ms as i128);
    proof {
        lemma_mul_inequality(ad as int, dist as int, ms as int);
        lemma_div_is_ordered((ad as int) * (ms as int), (dist as int) * (ms as int), dist as int);
        lemma_div_multiples_vanish(ms as int, dist as int);
        if ad > 0 && ms > 0 {
            lemma_div_pos_is_pos((ad as int) * (ms as int), dist as int);
        }
        assert((ad as int) * (ms as int) >= 0) by (nonlinear_arith)
            requires
                ad >= 0,
                ms >= 0,
        ;
        assert((dist as int) * (ms as int) == (ms as int) * (dist as int)) by (nonlinear_arith);
    }
    let q: i128 = prod / (dist as i128);
    let qi: i64 = q as i64;
    if d < 0 {
        -qi
    } else {
        qi
    }
}

impl BattleUnit {
    /// Point the velocity at the target position, at full speed.
    pub fn move_towards(&mut self, target_x: i64, target_y: i64, target_z: i64)
        requires
            wf_unit(*old(self)),
            -COORD_LIMIT <= target_x <= COORD_LIMIT,
            -COORD_LIMIT <= target_y <= COORD_LIMIT,
            -COORD_LIMIT <= target_z <= COORD_LIMIT,
        ensures
            *final(self) == move_towards_spec(
                *old(self),
                target_x as int,
                target_y as int,
                target_z as int,
            ),
            wf_unit(*final(self)),
    {
        let dx = target_x - self.pos_x;
        let dy = target_y - self.pos_y;
        let dz = target_z - self.pos_z;
        self.steer(dx, dy, dz);
    }

    /// Point the velocity straight away from the target position.
    pub fn move_away(&mut self, target_x: i64, target_y: i64, target_z: i64)
        requires
            wf_unit(*old(self)),
            -COORD_LIMIT <= target_x <= COORD_LIMIT,
            -COORD_LIMIT <= target_y <= COORD_LIMIT,
            -COORD_LIMIT <= target_z <= COORD_LIMIT,
        ensures
            *final(self) == move_away_spec(
                *old(self),
                target_x as int,
                target_y as int,
                target_z as int,
            ),
            wf_unit(*final(self)),
    {
        let dx = self.pos_x - target_x;
        let dy = self.pos_y - target_y;
        let dz = self.pos_z - target_z;
        self.steer(dx, dy, dz);
    }

    fn steer(&mut self, dx: i64, dy: i64, dz: i64)
        requires
            wf_unit(*old(self)),
            -2_000_000_000_000 <= dx <= 2_000_000_000_000,
            -2_000_000_000_000 <= dy <= 2_000_000_000_000,
            -2_000_000_000_000 <= dz <= 2_000_000_000_000,
        ensures
            *final(self) == steer_spec(*old(self), dx as int, dy as int, dz as int),
            wf_unit(*final(self)),
    {
        proof {
            assert(0 <= sq(dx as int) <= 4_000_000_000_000_000_000_000_000) by (nonlinear_arith)
                requires
                    -2_000_000_000_000 <= dx <= 2_000_000_000_000,
            ;
            assert(0 <= sq(dy as int) <= 4_000_000_000_000_000_000_000_000) by (nonlinear_arith)
                requires
                    -2_000_000_000_000 <= dy <= 2_000_000_000_000,
            ;
            assert(0 <= sq(dz as int) <= 4_000_000_000_000_000_000_000_000) by (nonlinear_arith)
                requires
                    -2_000_000_000_000 <= dz <= 2_000_000_000_000,
            ;
        }
        let sx: i128 = (dx as i128) * (dx as i128);
        let sy: i128 = (dy as i128) * (dy as i128);
        let sz: i128 = (dz as i128) * (dz as i128);
        let dsq: u128 = (sx + sy + sz) as u128;
        if dsq == 0 {
            return ;
        }
        let dist64 = isqrt(dsq);
        proof {
            lemma_dist_bound(dsq as nat);
            if dist64 == 0 {
                lemma_sqrt_floor_bounds(dsq as nat);
            }
            lemma_component_le_dist(dx as int, dsq as nat, dist64 as int);
            lemma_component_le_dist(dy as int, dsq as nat, dist64 as int);
            lemma_component_le_dist(dz as int, dsq as nat, dist64 as int);
        }
        let dist: i64 = dist64 as i64;
        self.vel_x = scaled_vel(dx, self.max_speed, dist);
        self.vel_y = scaled_vel(dy, self.max_speed, dist);
        self.vel_z = scaled_vel(dz, self.max_speed, dist);
    }
}

/// Lowercase byte strings that mark a unit type as a station.
pub open spec fn tok_station() -> Seq<u8> {
    seq![115u8, 116u8, 97u8, 116u8, 105u8, 111u8, 110u8]
}

pub open spec fn tok_outpost() -> Seq<u8> {
    seq![111u8, 117u8, 116u8, 112u8, 111u8, 115u8, 116u8]
}

pub open spec fn tok_platform() -> Seq<u8> {
    seq![112u8, 108u8, 97u8, 116u8, 102u8, 111u8, 114u8, 109u8]
}

/// Type tags classified as stations, case-insensitively.
pub open spec fn is_station_type(t: Seq<u8>) -> bool {
    ||| contains_seq(lower_seq(t), tok_station())
    ||| contains_seq(lower_seq(t), tok_outpost())
    ||| contains_seq(lower_seq(t), tok_platform())
}

/// Derived fields after ingestion: the armed flag raised when weapons
/// exist, a zero weapon range replaced by the real largest range, and an
/// unclassified unit sorted into ship or station by its type tag.
pub open spec fn normalize_spec(u: BattleUnit) -> BattleUnit {
    let hw = u.has_weapons || u.weapons@.len() > 0;
    let mwr = if u.max_weapon_range == 0 && u.weapons@.len() > 0 {
        max_range_of(u.weapons@)
    } else {
        u.max_weapon_range as int
    };
    let station = if !u.is_ship && !u.is_station {
        is_station_type(u.unit_type@)
    } else {
        u.is_station
    };
    let ship = if !u.is_ship && !u.is_station {
        !is_station_type(u.unit_type@)
    } else {
        u.is_ship
    };
    BattleUnit {
        has_weapons: hw,
        max_weapon_range: mwr as i64,
        is_ship: ship,
        is_station: station,
        ..u
    }
}

impl BattleUnit {
    /// Fill the derived fields after ingestion.
    pub fn normalize(&mut self)
        ensures
            *final(self) == normalize_spec(*old(self)),
    {
        if !self.has_weapons && self.weapons.len() > 0 {
            self.has_weapons = true;
        }
        if self.max_weapon_range == 0 && self.weapons.len() > 0 {
            self.max_weapon_range = compute_max_range(&self.weapons);
        }
        if !self.is_ship && !self.is_station {
            let lt = lower_vec(&self.unit_type);
            let station_tok: Vec<u8> = vec![115u8, 116u8, 97u8, 116u8, 105u8, 111u8, 110u8];
            let outpost_tok: Vec<u8> = vec![111u8, 117u8, 116u8, 112u8, 111u8, 115u8, 116u8];
            let platform_tok: Vec<u8> = vec![112u8, 108u8, 97u8, 116u8, 102u8, 111u8, 114u8, 109u8];
            proof {
                assert(station_tok@ =~= tok_station());
                assert(outpost_tok@ =~= tok_outpost());
                assert(platform_tok@ =~= tok_platform());
            }
            let is_station = contains_x(&lt, &station_tok) || contains_x(&lt, &outpost_tok)
                || contains_x(&lt, &platform_tok);
            if is_station {
                self.is_station = true;
            } else {
                self.is_ship = true;
            }
        }
    }
}

/// Position after Euler integration over `dt` milliseconds, clamped to
/// the world bounds.
pub open spec fn integrate_spec(u: BattleUnit, dt: int) -> BattleUnit {
    BattleUnit {
        pos_x: clamp(u.pos_x + (u.vel_x * dt) / 1000, -COORD_LIMIT as int, COORD_LIMIT as int)
            as i64,
        pos_y: clamp(u.pos_y + (u.vel_y * dt) / 1000, -COORD_LIMIT as int, COORD_LIMIT as int)
            as i64,
        pos_z: clamp(u.pos_z + (u.vel_z * dt) / 1000, -COORD_LIMIT as int, COORD_LIMIT as int)
            as i64,
        ..u
    }
}

/// Shield level after regeneration over `dt` milliseconds.
pub open spec fn regen_shield_spec(u: BattleUnit, dt: int) -> BattleUnit {
    if u.shield < u.max_shield && u.shield_regen > 0 {
        let grown = u.shield + (u.shield_regen * dt) / 1000;
        let capped = if grown < u.max_shield {
            grown
        } else {
            u.max_shield as int
        };
        BattleUnit { shield: capped as i64, ..u }
    } else {
        u
    }
}

pub fn check_weapon(w: &Weapon) -> (r: bool)
    ensures
        r == wf_weapon(*w),
{
    0 <= w.dps && w.dps <= STAT_LIMIT && 0 <= w.fire_rate && w.fire_rate <= STAT_LIMIT && 0
        <= w.max_range && w.max_range <= STAT_LIMIT && 0 <= w.optimal_range && w.optimal_range
        <= STAT_LIMIT && 0 <= w.target_armor_max && w.target_armor_max <= 4 && 0 <= w.cooldown
        && w.cooldown <= STAT_LIMIT && -TIME_LIMIT <= w.last_fired && w.last_fired <= TIME_LIMIT
}

/// Largest `max_range` among the weapons, computed.
pub fn compute_max_range(ws: &Vec<Weapon>) -> (r: i64)
    ensures
        r == max_range_of(ws@),
{
    let mut r: i64 = 0;
    let mut i: usize = 0;
    while i < ws.len()
        invariant
            i <= ws@.len(),
            r == max_range_of(ws@.subrange(0, i as int)),
        decreases ws@.len() - i,
    {
        proof {
            assert(ws@.subrange(0, i + 1).drop_last() =~= ws@.subrange(0, i as int));
            assert(ws@.subrange(0, i + 1).last() == ws@[i as int]);
        }
        if ws[i].max_range > r {
            r = ws[i].max_range;
        }
        i += 1;
    }
    proof {
        assert(ws@.subrange(0, ws@.len() as int) =~= ws@);
    }
    r
}

/// Whether a unit record satisfies the between-ticks schema: the ingress
/// boundary rejects records for which this is false.
pub fn check_unit(u: &BattleUnit) -> (r: bool)
    ensures
        r == wf_unit(*u),
{
    let scalars_ok = 0 <= u.hp && u.hp <= u.max_hp && u.max_hp <= STAT_LIMIT && u.alive == (u.hp
        > 0) && 0 <= u.shield && u.shield <= u.max_shield && u.max_shield <= STAT_LIMIT && 0
        <= u.shield_regen && u.shield_regen <= STAT_LIMIT && 0 <= u.armor && u.armor <= 4
        && -COORD_LIMIT <= u.pos_x && u.pos_x <= COORD_LIMIT && -COORD_LIMIT <= u.pos_y && u.pos_y
        <= COORD_LIMIT && -COORD_LIMIT <= u.pos_z && u.pos_z <= COORD_LIMIT && -SPEED_LIMIT
        <= u.vel_x && u.vel_x <= SPEED_LIMIT && -SPEED_LIMIT <= u.vel_y && u.vel_y <= SPEED_LIMIT
        && -SPEED_LIMIT <= u.vel_z && u.vel_z <= SPEED_LIMIT && 0 <= u.max_speed && u.max_speed
        <= SPEED_LIMIT && 0 <= u.view_range && u.view_range <= STAT_LIMIT && 0 <= u.damage_dealt
        && 0 <= u.damage_taken && 0 <= u.max_weapon_range && u.max_weapon_range <= STAT_LIMIT;
    if !scalars_ok {
        return false;
    }
    let mut i: usize = 0;
    while i < u.weapons.len()
        invariant
            i <= u.weapons@.len(),
            forall|j: int| 0 <= j < i ==> wf_weapon(#[trigger] u.weapons@[j]),
        decreases u.weapons@.len() - i,
    {
        if !check_weapon(&u.weapons[i]) {
            return false;
        }
        i += 1;
    }
    u.max_weapon_range == compute_max_range(&u.weapons)
}

} // verus!
