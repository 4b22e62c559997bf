use battle_core::battle_unit::{BattleUnit, Weapon};
use battle_core::simulator::calculate_impact_time;
use battle_core::weapons::{
    calculate_armor_effectiveness, calculate_range_falloff, can_fire_sequence, is_interceptable,
    is_point_defense, is_siege_weapon, try_fire_weapon, try_intercept_missile,
};

fn fire_unit(id: u32, faction: u32, x: i64) -> BattleUnit {
    BattleUnit {
        id,
        faction_id: faction,
        player_id: None,
        max_hp: 1_000_000,
        hp: 1_000_000,
        max_shield: 0,
        shield: 0,
        armor: 0,
        shield_regen: 0,
        pos_x: x,
        pos_y: 0,
        pos_z: 0,
        vel_x: 0,
        vel_y: 0,
        vel_z: 0,
        max_speed: 0,
        weapons: Vec::new(),
        max_weapon_range: 0,
        target_id: None,
        alive: true,
        damage_dealt: 0,
        damage_taken: 0,
        unit_type: Vec::new(),
        is_ship: true,
        is_station: false,
        has_weapons: false,
        view_range: 0,
    }
}

fn weapon_with_tag(tag: &[u8]) -> Weapon {
    Weapon {
        tag: tag.to_vec(),
        dps: 100_000,
        fire_rate: 1_000,
        max_range: 100_000,
        optimal_range: 50_000,
        target_armor_max: 0,
        cooldown: 1_000,
        last_fired: -10_000,
        sequence: Vec::new(),
    }
}

#[test]
fn test_armor_effectiveness() {
    // Weapon can handle the armor tier: full damage.
    assert_eq!(calculate_armor_effectiveness(1, 2), 1_000);
    assert_eq!(calculate_armor_effectiveness(2, 2), 1_000);
    // One tier above: half damage.
    assert_eq!(calculate_armor_effectiveness(3, 2), 500);
    // Two tiers above: quarter damage.
    assert_eq!(calculate_armor_effectiveness(4, 2), 250);
    // Three or more tiers above: a tenth.
    assert_eq!(calculate_armor_effectiveness(5, 2), 100);
}

#[test]
fn test_range_falloff() {
    // At optimal range: full damage.
    assert_eq!(calculate_range_falloff(50_000, 50_000, 100_000), 1_000);
    // Halfway between optimal and max.
    assert_eq!(calculate_range_falloff(75_000, 50_000, 100_000), 550);
    // At max range.
    assert_eq!(calculate_range_falloff(100_000, 50_000, 100_000), 100);
    // Beyond max range.
    assert_eq!(calculate_range_falloff(150_000, 50_000, 100_000), 100);
}

#[test]
fn test_classification_tags() {
    assert!(is_point_defense(&weapon_with_tag(b"AM-2 turret")));
    assert!(is_point_defense(&weapon_with_tag(b"Anti-Missile battery")));
    assert!(!is_point_defense(&weapon_with_tag(b"laser")));

    assert!(is_siege_weapon(&weapon_with_tag(b"NM1")));
    assert!(is_siege_weapon(&weapon_with_tag(b"Tactical Nuke")));
    assert!(!is_siege_weapon(&weapon_with_tag(b"laser")));

    assert!(is_interceptable(&weapon_with_tag(b"HM7")));
    assert!(is_interceptable(&weapon_with_tag(b"Photon Torpedo")));
    assert!(is_interceptable(&weapon_with_tag(b"CR missile rack")));
    assert!(!is_interceptable(&weapon_with_tag(b"ion beam")));
}

#[test]
fn test_sequence_gating() {
    // Pattern fire/skip/fire/skip: tick 1 lands on a skip.
    let mut w = weapon_with_tag(b"laser");
    w.sequence = vec![true, false, true, false];
    assert!(can_fire_sequence(&w, 0));
    assert!(!can_fire_sequence(&w, 1));
    assert!(can_fire_sequence(&w, 2));
    assert!(can_fire_sequence(&w, 4));

    let a = fire_unit(1, 1, 0);
    let b = fire_unit(2, 2, 10_000);
    assert_eq!(try_fire_weapon(&a, &b, &w, 0, 1), None);
    assert!(try_fire_weapon(&a, &b, &w, 0, 2).is_some());
}

#[test]
fn test_try_fire_damage_with_falloff() {
    // Base 100 at three quarters of max range: multiplier 0.55.
    let a = fire_unit(1, 1, 0);
    let b = fire_unit(2, 2, 75_000);
    let w = weapon_with_tag(b"laser");
    assert_eq!(try_fire_weapon(&a, &b, &w, 0, 0), Some(55_000));
}

#[test]
fn test_try_fire_armor_scaling() {
    // Target four tiers above a tier-one weapon: a tenth of the damage.
    let a = fire_unit(1, 1, 0);
    let mut b = fire_unit(2, 2, 10_000);
    b.armor = 4;
    let mut w = weapon_with_tag(b"laser");
    w.target_armor_max = 1;
    assert_eq!(try_fire_weapon(&a, &b, &w, 0, 0), Some(10_000));
}

#[test]
fn test_try_fire_respects_range_and_cooldown() {
    let a = fire_unit(1, 1, 0);
    let far = fire_unit(2, 2, 150_000);
    let near = fire_unit(3, 2, 10_000);
    let w = weapon_with_tag(b"laser");
    assert_eq!(try_fire_weapon(&a, &far, &w, 0, 0), None);
    let mut cooling = weapon_with_tag(b"laser");
    cooling.last_fired = 0;
    assert_eq!(try_fire_weapon(&a, &near, &cooling, 500, 0), None);
    assert!(try_fire_weapon(&a, &near, &cooling, 1_000, 0).is_some());
}

#[test]
fn test_fire_monotonicity_by_cooldown() {
    // After a discharge stamps the clock, the next one waits out the cooldown.
    let a = fire_unit(1, 1, 0);
    let b = fire_unit(2, 2, 10_000);
    let mut w = weapon_with_tag(b"laser");
    assert!(try_fire_weapon(&a, &b, &w, 2_000, 0).is_some());
    w.last_fired = 2_000;
    assert_eq!(try_fire_weapon(&a, &b, &w, 2_500, 0), None);
    assert_eq!(try_fire_weapon(&a, &b, &w, 2_999, 0), None);
    assert!(try_fire_weapon(&a, &b, &w, 3_000, 0).is_some());
}

#[test]
fn test_siege_only_hits_stations() {
    // A nuke never fires at a ship in range, but does at a station.
    let a = fire_unit(1, 1, 0);
    let ship = fire_unit(2, 2, 10_000);
    let mut station = fire_unit(3, 2, 10_000);
    station.is_ship = false;
    station.is_station = true;
    let w = weapon_with_tag(b"NM1");
    assert_eq!(try_fire_weapon(&a, &ship, &w, 0, 0), None);
    assert!(try_fire_weapon(&a, &station, &w, 0, 0).is_some());
}

#[test]
fn test_point_defense_never_fires_at_units() {
    let a = fire_unit(1, 1, 0);
    let b = fire_unit(2, 2, 10_000);
    let w = weapon_with_tag(b"AM-2 turret");
    assert_eq!(try_fire_weapon(&a, &b, &w, 0, 0), None);
}

#[test]
fn test_intercept_missile() {
    let d = fire_unit(1, 1, 0);
    let am = weapon_with_tag(b"AM-2 turret");
    let laser = weapon_with_tag(b"laser");
    assert!(try_intercept_missile(&d, &am, 50_000, 0, 0, 0));
    assert!(!try_intercept_missile(&d, &am, 150_000, 0, 0, 0));
    assert!(!try_intercept_missile(&d, &laser, 50_000, 0, 0, 0));
}

#[test]
fn test_impact_time_table() {
    // Energy weapons land instantly; a missile at 50 units flies a second.
    assert_eq!(calculate_impact_time(50_000, &b"laser".to_vec()), 0);
    assert_eq!(calculate_impact_time(50_000, &b"ion lance".to_vec()), 0);
    assert_eq!(calculate_impact_time(50_000, &b"HM7".to_vec()), 1_000);
    assert_eq!(calculate_impact_time(80_000, &b"proton rocket".to_vec()), 1_000);
    assert_eq!(calculate_impact_time(30_000, &b"NM1".to_vec()), 1_000);
    assert_eq!(calculate_impact_time(100_000, &b"railgun".to_vec()), 1_000);
}
