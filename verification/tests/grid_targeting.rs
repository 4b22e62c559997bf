use battle_core::battle_unit::{BattleUnit, Weapon};
use battle_core::spatial_grid::SpatialGrid;
use battle_core::targeting::{calculate_target_priority, find_am_targets, find_best_target, find_siege_target};

fn make_unit(id: u32, faction: u32, is_ship: bool, is_station: bool, has_weapons: bool) -> BattleUnit {
    BattleUnit {
        id,
        faction_id: faction,
        player_id: None,
        max_hp: 10_000,
        hp: 10_000,
        max_shield: 0,
        shield: 0,
        armor: 0,
        shield_regen: 0,
        pos_x: 0,
        pos_y: 0,
        pos_z: 0,
        vel_x: 0,
        vel_y: 0,
        vel_z: 0,
        max_speed: 0,
        weapons: if has_weapons {
            vec![Weapon {
                tag: b"laser".to_vec(),
                dps: 100_000,
                fire_rate: 1_000,
                max_range: 100_000,
                optimal_range: 50_000,
                target_armor_max: 0,
                cooldown: 1_000,
                last_fired: 0,
                sequence: Vec::new(),
            }]
        } else {
            Vec::new()
        },
        max_weapon_range: if has_weapons { 100_000 } else { 0 },
        target_id: None,
        alive: true,
        damage_dealt: 0,
        damage_taken: 0,
        unit_type: Vec::new(),
        is_ship,
        is_station,
        has_weapons,
        view_range: 150_000,
    }
}

#[test]
fn test_spatial_grid() {
    let mut grid = SpatialGrid::new(1_000_000);

    // Insert units.
    grid.insert(0, 500_000, 500_000, 0);
    grid.insert(1, 600_000, 600_000, 0);
    grid.insert(2, 5_000_000, 5_000_000, 0);

    // Query nearby.
    let nearby = grid.get_nearby(500_000, 500_000, 0, 200_000);

    assert!(nearby.contains(&0));
    assert!(nearby.contains(&1));
    assert!(!nearby.contains(&2));
}

#[test]
fn test_spatial_grid_radius_grows_with_range() {
    // A range spanning several cells reaches further out than one cell.
    let mut grid = SpatialGrid::new(100_000);
    grid.insert(0, 0, 0, 0);
    grid.insert(1, 450_000, 0, 0);
    let narrow = grid.get_nearby(0, 0, 0, 100_000);
    assert!(!narrow.contains(&1));
    let wide = grid.get_nearby(0, 0, 0, 500_000);
    assert!(wide.contains(&1));
}

#[test]
fn test_spatial_grid_clear_and_stats() {
    let mut grid = SpatialGrid::new(100_000);
    grid.insert(0, 0, 0, 0);
    grid.insert(1, 10_000, 0, 0);
    grid.insert(2, 500_000, 0, 0);
    assert_eq!(grid.stats(), (2, 3));
    grid.clear();
    assert_eq!(grid.stats(), (0, 0));
}

#[test]
fn test_target_priority_ship_vs_ship() {
    let attacker = make_unit(1, 1, true, false, true);

    let armed_ship = make_unit(2, 2, true, false, true);
    let unarmed_ship = make_unit(3, 2, true, false, false);
    let armed_station = make_unit(4, 2, false, true, true);
    let unarmed_station = make_unit(5, 2, false, true, false);

    assert_eq!(calculate_target_priority(&attacker, &armed_ship), 100);
    assert_eq!(calculate_target_priority(&attacker, &unarmed_ship), 50);
    assert_eq!(calculate_target_priority(&attacker, &armed_station), 30);
    assert_eq!(calculate_target_priority(&attacker, &unarmed_station), 10);
}

#[test]
fn test_target_priority_station_defensive() {
    let attacker = make_unit(1, 1, false, true, true);

    let armed_ship = make_unit(2, 2, true, false, true);
    let enemy_station = make_unit(3, 2, false, true, true);

    // Stations should target ships.
    assert_eq!(calculate_target_priority(&attacker, &armed_ship), 100);

    // Stations should NOT target other stations.
    assert_eq!(calculate_target_priority(&attacker, &enemy_station), 0);
}

#[test]
fn test_find_best_target_prefers_armed_ship() {
    // A nearer unarmed ship loses to a farther armed ship.
    let attacker = make_unit(1, 1, true, false, true);
    let mut unarmed = make_unit(2, 2, true, false, false);
    unarmed.pos_x = 10_000;
    let mut armed = make_unit(3, 2, true, false, true);
    armed.pos_x = 40_000;
    let units = vec![attacker, unarmed, armed];

    let mut grid = SpatialGrid::new(100_000);
    for (i, u) in units.iter().enumerate() {
        grid.insert(i, u.pos_x, u.pos_y, u.pos_z);
    }
    assert_eq!(find_best_target(&units[0], &units, &grid), Some(2));
}

#[test]
fn test_find_best_target_ties_break_by_distance() {
    let attacker = make_unit(1, 1, true, false, true);
    let mut far = make_unit(2, 2, true, false, true);
    far.pos_x = 60_000;
    let mut near = make_unit(3, 2, true, false, true);
    near.pos_x = 20_000;
    let units = vec![attacker, far, near];

    let mut grid = SpatialGrid::new(100_000);
    for (i, u) in units.iter().enumerate() {
        grid.insert(i, u.pos_x, u.pos_y, u.pos_z);
    }
    assert_eq!(find_best_target(&units[0], &units, &grid), Some(2));
}

#[test]
fn test_find_best_target_ignores_allies_and_dead() {
    let attacker = make_unit(1, 1, true, false, true);
    let ally = make_unit(2, 1, true, false, true);
    let mut dead = make_unit(3, 2, true, false, true);
    dead.alive = false;
    dead.hp = 0;
    let units = vec![attacker, ally, dead];

    let mut grid = SpatialGrid::new(100_000);
    for (i, u) in units.iter().enumerate() {
        if u.alive {
            grid.insert(i, u.pos_x, u.pos_y, u.pos_z);
        }
    }
    assert_eq!(find_best_target(&units[0], &units, &grid), None);
}

#[test]
fn test_find_siege_target_only_stations() {
    let attacker = make_unit(1, 1, true, false, true);
    let mut ship = make_unit(2, 2, true, false, true);
    ship.pos_x = 10_000;
    let mut station = make_unit(3, 2, false, true, true);
    station.pos_x = 50_000;
    let units = vec![attacker, ship, station];

    let mut grid = SpatialGrid::new(100_000);
    for (i, u) in units.iter().enumerate() {
        grid.insert(i, u.pos_x, u.pos_y, u.pos_z);
    }
    assert_eq!(find_siege_target(&units[0], &units, &grid, 100_000), Some(2));
}

#[test]
fn test_find_am_targets_pairs_defenders_with_enemies() {
    let mut defender = make_unit(1, 1, true, false, true);
    defender.weapons[0].tag = b"AM-2 turret".to_vec();
    let enemy = make_unit(2, 2, true, false, true);
    let ally = make_unit(3, 1, true, false, true);
    let unarmed = make_unit(4, 1, true, false, false);
    let units = vec![defender, enemy, ally, unarmed];

    let mut grid = SpatialGrid::new(100_000);
    for (i, u) in units.iter().enumerate() {
        grid.insert(i, u.pos_x, u.pos_y, u.pos_z);
    }
    let pairs = find_am_targets(&units, &grid);
    assert_eq!(pairs, vec![(0, 1)]);
}
