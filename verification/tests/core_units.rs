use battle_core::battle_unit::{check_unit, compute_max_range, BattleUnit, Weapon};
use battle_core::movement::update_movement;

fn base_unit(id: u32, faction: u32) -> BattleUnit {
    BattleUnit {
        id,
        faction_id: faction,
        player_id: None,
        max_hp: 10_000,
        hp: 10_000,
        max_shield: 0,
        shield: 0,
        armor: 0,
        shield_regen: 0,
        pos_x: 0,
        pos_y: 0,
        pos_z: 0,
        vel_x: 0,
        vel_y: 0,
        vel_z: 0,
        max_speed: 0,
        weapons: Vec::new(),
        max_weapon_range: 0,
        target_id: None,
        alive: true,
        damage_dealt: 0,
        damage_taken: 0,
        unit_type: Vec::new(),
        is_ship: true,
        is_station: false,
        has_weapons: false,
        view_range: 0,
    }
}

fn laser_weapon() -> Weapon {
    Weapon {
        tag: b"laser".to_vec(),
        dps: 100_000,
        fire_rate: 1_000,
        max_range: 100_000,
        optimal_range: 50_000,
        target_armor_max: 0,
        cooldown: 1_000,
        last_fired: -10_000,
        sequence: Vec::new(),
    }
}

#[test]
fn test_shield_absorbs_then_spills() {
    // Raw damage 50 against shield 30, hull 10, armor tier 2:
    // spill 20, flat reduction 1, hull takes 19, unit destroyed.
    let mut u = base_unit(1, 1);
    u.max_shield = 30_000;
    u.shield = 30_000;
    u.armor = 2;
    u.take_damage(50_000);
    assert_eq!(u.shield, 0);
    assert_eq!(u.hp, 0);
    assert!(!u.alive);
    assert_eq!(u.damage_taken, 50_000);
}

#[test]
fn test_damage_within_shield() {
    let mut u = base_unit(1, 1);
    u.max_shield = 30_000;
    u.shield = 30_000;
    u.take_damage(10_000);
    assert_eq!(u.shield, 20_000);
    assert_eq!(u.hp, 10_000);
    assert!(u.alive);
}

#[test]
fn test_minimum_damage_floor() {
    // Armor reduction would cancel the hit, but one full point always lands.
    let mut u = base_unit(1, 1);
    u.armor = 4;
    u.take_damage(1_500);
    assert_eq!(u.hp, 10_000 - 1_000);
}

#[test]
fn test_shield_regen_caps_at_max() {
    let mut u = base_unit(1, 1);
    u.max_shield = 5_000;
    u.shield = 4_000;
    u.shield_regen = 2_000; // two points per second
    u.regen_shield(1_000); // one second
    assert_eq!(u.shield, 5_000);

    let mut v = base_unit(2, 1);
    v.max_shield = 5_000;
    v.shield = 1_000;
    v.shield_regen = 2_000;
    v.regen_shield(500); // half a second: one point
    assert_eq!(v.shield, 2_000);
}

#[test]
fn test_distance_is_euclidean() {
    let mut a = base_unit(1, 1);
    let mut b = base_unit(2, 2);
    a.pos_x = 0;
    a.pos_y = 0;
    b.pos_x = 3_000;
    b.pos_y = 4_000;
    assert_eq!(a.distance(&b), 5_000);
    assert_eq!(a.distance_sq(&b), 25_000_000);
}

#[test]
fn test_move_towards_full_speed() {
    let mut u = base_unit(1, 1);
    u.max_speed = 5_000;
    u.move_towards(3_000, 4_000, 0);
    assert_eq!((u.vel_x, u.vel_y, u.vel_z), (3_000, 4_000, 0));
    u.move_away(3_000, 4_000, 0);
    assert_eq!((u.vel_x, u.vel_y, u.vel_z), (-3_000, -4_000, 0));
}

#[test]
fn test_update_position_integrates() {
    let mut u = base_unit(1, 1);
    u.max_speed = 5_000;
    u.vel_x = 2_000;
    u.vel_y = -1_000;
    u.update_position(500); // half a second
    assert_eq!((u.pos_x, u.pos_y, u.pos_z), (1_000, -500, 0));
}

#[test]
fn test_stop_zeroes_velocity() {
    let mut u = base_unit(1, 1);
    u.vel_x = 7;
    u.vel_y = 8;
    u.vel_z = 9;
    u.stop();
    assert_eq!((u.vel_x, u.vel_y, u.vel_z), (0, 0, 0));
}

#[test]
fn test_normalize_classifies_station() {
    let mut u = base_unit(1, 1);
    u.is_ship = false;
    u.is_station = false;
    u.unit_type = b"Defense Station Mk2".to_vec();
    u.normalize();
    assert!(u.is_station);
    assert!(!u.is_ship);

    let mut v = base_unit(2, 1);
    v.is_ship = false;
    v.is_station = false;
    v.unit_type = b"Frigate".to_vec();
    v.normalize();
    assert!(v.is_ship);
    assert!(!v.is_station);
}

#[test]
fn test_normalize_derives_weapon_fields() {
    let mut u = base_unit(1, 1);
    u.weapons = vec![laser_weapon()];
    u.has_weapons = false;
    u.max_weapon_range = 0;
    u.normalize();
    assert!(u.has_weapons);
    assert_eq!(u.max_weapon_range, 100_000);
}

#[test]
fn test_check_unit_rejects_bad_hull() {
    let mut u = base_unit(1, 1);
    assert!(check_unit(&u));
    u.hp = u.max_hp + 1;
    assert!(!check_unit(&u));
}

#[test]
fn test_check_unit_rejects_wrong_weapon_range() {
    let mut u = base_unit(1, 1);
    u.weapons = vec![laser_weapon()];
    u.has_weapons = true;
    u.max_weapon_range = 1; // not the real largest range
    assert!(!check_unit(&u));
    u.max_weapon_range = compute_max_range(&u.weapons);
    assert!(check_unit(&u));
}

#[test]
fn test_can_attack_needs_weapons() {
    let mut u = base_unit(1, 1);
    u.has_weapons = true;
    assert!(!u.can_attack());
    u.weapons = vec![laser_weapon()];
    assert!(u.can_attack());
}

#[test]
fn test_update_movement_chases_and_backs_off() {
    // Beyond the first weapon's optimal range the unit closes in; well
    // inside it, the unit backs away.
    let mut chaser = base_unit(1, 1);
    chaser.max_speed = 10_000;
    chaser.weapons = vec![laser_weapon()];
    chaser.has_weapons = true;
    chaser.max_weapon_range = 100_000;
    let mut target = base_unit(2, 2);
    target.pos_x = 80_000;

    update_movement(&mut chaser, Some(&target), 1_000);
    assert_eq!(chaser.vel_x, 10_000);
    assert_eq!(chaser.pos_x, 10_000);

    let mut crowder = base_unit(3, 1);
    crowder.max_speed = 10_000;
    crowder.weapons = vec![laser_weapon()];
    crowder.has_weapons = true;
    crowder.max_weapon_range = 100_000;
    crowder.pos_x = 70_000; // ten units from the target, optimal is fifty
    update_movement(&mut crowder, Some(&target), 1_000);
    assert_eq!(crowder.vel_x, -10_000);
    assert_eq!(crowder.pos_x, 60_000);

    // A unit without a target stops and stays put.
    let mut idle = base_unit(4, 1);
    idle.vel_x = 5_000;
    update_movement(&mut idle, None, 1_000);
    assert_eq!(idle.vel_x, 0);
    assert_eq!(idle.pos_x, 0);

    // Stations never move.
    let mut fort = base_unit(5, 1);
    fort.is_ship = false;
    fort.is_station = true;
    fort.max_speed = 10_000;
    fort.weapons = vec![laser_weapon()];
    fort.has_weapons = true;
    fort.max_weapon_range = 100_000;
    update_movement(&mut fort, Some(&target), 1_000);
    assert_eq!((fort.vel_x, fort.pos_x), (0, 0));
}
