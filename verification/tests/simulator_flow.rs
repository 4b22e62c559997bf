use battle_core::battle_unit::{BattleUnit, Weapon};
use battle_core::simulator::{BattleSimulator, PositionUpdate};

fn sim_unit(id: u32, faction: u32, x: i64) -> BattleUnit {
    BattleUnit {
        id,
        faction_id: faction,
        player_id: None,
        max_hp: 10_000,
        hp: 10_000,
        max_shield: 0,
        shield: 0,
        armor: 0,
        shield_regen: 0,
        pos_x: x,
        pos_y: 0,
        pos_z: 0,
        vel_x: 0,
        vel_y: 0,
        vel_z: 0,
        max_speed: 0,
        weapons: Vec::new(),
        max_weapon_range: 0,
        target_id: None,
        alive: true,
        damage_dealt: 0,
        damage_taken: 0,
        unit_type: Vec::new(),
        is_ship: true,
        is_station: false,
        has_weapons: false,
        view_range: 0,
    }
}

fn armed(mut u: BattleUnit, last_fired: i64) -> BattleUnit {
    u.weapons = vec![Weapon {
        tag: b"laser".to_vec(),
        dps: 100_000,
        fire_rate: 1_000,
        max_range: 100_000,
        optimal_range: 50_000,
        target_armor_max: 0,
        cooldown: 1_000,
        last_fired,
        sequence: Vec::new(),
    }];
    u.has_weapons = true;
    u.max_weapon_range = 100_000;
    u
}

#[test]
fn test_basic_kill() {
    // An armed unit one-shots an unarmed neighbour on the first tick.
    let a = armed(sim_unit(1, 1, 0), -10_000);
    let b = sim_unit(2, 2, 10_000);
    let mut sim = BattleSimulator::new(vec![a, b]);
    let result = sim.simulate_tick(50, 0);

    assert_eq!(result.tick, 1);
    assert_eq!(result.weapons_fired.len(), 1);
    assert_eq!(result.weapons_fired[0].attacker_id, 1);
    assert_eq!(result.weapons_fired[0].target_id, 2);
    assert_eq!(result.weapons_fired[0].weapon_type, b"laser".to_vec());
    assert_eq!(result.weapons_fired[0].impact_time, 0);
    assert_eq!(result.destroyed, vec![2]);
    assert!(result.damaged.is_empty());
    assert!(result.moved.is_empty());
    assert!(!sim.get_units()[1].alive);
    assert_eq!(sim.get_units()[0].damage_dealt, 100_000);
}

#[test]
fn test_damaged_report_for_survivor() {
    let a = armed(sim_unit(1, 1, 0), -10_000);
    let mut b = sim_unit(2, 2, 10_000);
    b.max_hp = 1_000_000;
    b.hp = 1_000_000;
    let mut sim = BattleSimulator::new(vec![a, b]);
    let result = sim.simulate_tick(50, 0);

    assert!(result.destroyed.is_empty());
    assert_eq!(result.damaged.len(), 1);
    assert_eq!(result.damaged[0].id, 2);
    assert_eq!(result.damaged[0].hp, 900_000);
    assert_eq!(result.damaged[0].shield, 0);
}

#[test]
fn test_destroyed_is_final() {
    // A unit destroyed on one tick never reappears in any later report.
    let a = armed(sim_unit(1, 1, 0), -10_000);
    let b = sim_unit(2, 2, 10_000);
    let mut sim = BattleSimulator::new(vec![a, b]);
    let first = sim.simulate_tick(50, 0);
    assert_eq!(first.destroyed, vec![2]);
    for t in 1..50i64 {
        let r = sim.simulate_tick(50, t * 50);
        assert!(!r.destroyed.contains(&2));
        assert!(r.damaged.iter().all(|d| d.id != 2));
        assert!(r.moved.is_empty());
    }
}

#[test]
fn test_noop_tick_changes_nothing() {
    // With no time passing and every weapon cooling down, only the tick
    // counter moves.
    let a = armed(sim_unit(1, 1, 0), 0);
    let b = armed(sim_unit(2, 2, 10_000), 0);
    let mut sim = BattleSimulator::new(vec![a, b]);
    let r1 = sim.simulate_tick(0, 500);
    assert!(r1.weapons_fired.is_empty());
    assert!(r1.destroyed.is_empty() && r1.damaged.is_empty());
    let r2 = sim.simulate_tick(0, 500);
    assert_eq!(r2.tick, 2);
    assert!(r2.weapons_fired.is_empty());
    assert!(r2.destroyed.is_empty() && r2.damaged.is_empty());
    let units = sim.get_units();
    assert_eq!(units[0].hp, 10_000);
    assert_eq!(units[1].hp, 10_000);
    assert_eq!(units[0].weapons[0].last_fired, 0);
    assert_eq!(units[1].weapons[0].last_fired, 0);
}

#[test]
fn test_damage_aggregation_order_independent() {
    // Two attackers hitting one target leave it the same whichever way
    // the unit list orders them.
    let a1 = armed(sim_unit(1, 1, 0), -10_000);
    let a2 = armed(sim_unit(2, 1, 20_000), -10_000);
    let mut b = sim_unit(3, 2, 10_000);
    b.max_hp = 1_000_000;
    b.hp = 1_000_000;
    b.max_shield = 150_000;
    b.shield = 150_000;

    let mut sim1 = BattleSimulator::new(vec![a1.clone(), a2.clone(), b.clone()]);
    let mut sim2 = BattleSimulator::new(vec![a2, a1, b]);
    sim1.simulate_tick(50, 0);
    sim2.simulate_tick(50, 0);
    let u1 = &sim1.get_units()[2];
    let u2 = &sim2.get_units()[2];
    assert_eq!(u1.hp, u2.hp);
    assert_eq!(u1.shield, u2.shield);
    // The two hits are summed before application: 200 against shield 150,
    // the spill of 50 reaches the hull in one application.
    assert_eq!(u1.shield, 0);
    assert_eq!(u1.hp, 950_000);
}

#[test]
fn test_stalemate_and_winner() {
    // Two factions too far apart to fight: after the stalemate window the
    // battle ends and the larger faction wins.
    let a1 = sim_unit(1, 1, 0);
    let a2 = sim_unit(2, 1, 10_000);
    let b1 = sim_unit(3, 2, 900_000_000);
    let mut sim = BattleSimulator::new(vec![a1, a2, b1]);
    assert!(!sim.is_battle_ended());
    for t in 0..1201i64 {
        sim.simulate_tick(50, t * 50);
    }
    assert!(sim.is_stalemate());
    assert!(sim.is_battle_ended());
    assert!(sim.is_battle_over());
    assert_eq!(sim.get_winner(), Some(1));
}

#[test]
fn test_clean_victory_winner() {
    let a = armed(sim_unit(1, 1, 0), -10_000);
    let b = sim_unit(2, 2, 10_000);
    let mut sim = BattleSimulator::new(vec![a, b]);
    assert_eq!(sim.get_winner(), None);
    sim.simulate_tick(50, 0);
    assert!(sim.is_battle_ended());
    assert_eq!(sim.get_winner(), Some(1));
}

#[test]
fn test_active_factions_sorted_dedup() {
    let units = vec![
        sim_unit(1, 7, 0),
        sim_unit(2, 3, 10_000),
        sim_unit(3, 7, 20_000),
        sim_unit(4, 5, 30_000),
    ];
    let sim = BattleSimulator::new(units);
    assert_eq!(sim.get_active_factions(), vec![3, 5, 7]);
}

#[test]
fn test_faction_counts_first_seen_order() {
    let mut dead = sim_unit(4, 9, 30_000);
    dead.alive = false;
    dead.hp = 0;
    let units = vec![sim_unit(1, 7, 0), sim_unit(2, 3, 10_000), sim_unit(3, 7, 20_000), dead];
    let sim = BattleSimulator::new(units);
    assert_eq!(sim.get_faction_counts(), vec![(7, 2), (3, 1)]);
}

#[test]
fn test_update_single_position_moves_and_clears_target() {
    let a = armed(sim_unit(1, 1, 0), 0);
    let b = armed(sim_unit(2, 2, 10_000), 0);
    let mut sim = BattleSimulator::new(vec![a, b]);
    sim.simulate_tick(0, 0);
    assert_eq!(sim.get_units()[0].target_id, Some(2));

    // A significant external move clears the target.
    assert!(sim.update_single_position(1, 50_000, 0, 0, false));
    assert_eq!(sim.get_units()[0].pos_x, 50_000);
    assert_eq!(sim.get_units()[0].target_id, None);

    // An unknown id changes nothing.
    assert!(!sim.update_single_position(99, 0, 0, 0, false));
}

#[test]
fn test_update_positions_batch() {
    let a = sim_unit(1, 1, 0);
    let b = sim_unit(2, 2, 10_000);
    let mut sim = BattleSimulator::new(vec![a, b]);
    let updates = vec![
        PositionUpdate { id: 1, x: 1_000, y: 2_000, z: 3_000, clear_target: false },
        PositionUpdate { id: 42, x: 0, y: 0, z: 0, clear_target: false },
    ];
    assert_eq!(sim.update_positions(&updates), 1);
    assert_eq!(sim.get_units()[0].pos_y, 2_000);
}

#[test]
fn test_force_retarget() {
    let a = armed(sim_unit(1, 1, 0), 0);
    let b = armed(sim_unit(2, 2, 10_000), 0);
    let mut sim = BattleSimulator::new(vec![a, b]);
    sim.simulate_tick(0, 0);
    assert_eq!(sim.force_retarget_all(), 2);
    assert_eq!(sim.get_units()[0].target_id, None);
    assert_eq!(sim.get_units()[1].target_id, None);
    assert_eq!(sim.force_retarget_all(), 0);

    sim.simulate_tick(0, 0);
    assert!(sim.force_retarget_unit(1));
    assert_eq!(sim.get_units()[0].target_id, None);
    assert!(!sim.force_retarget_unit(77));
}

#[test]
fn test_add_unit_mid_battle() {
    let a = sim_unit(1, 1, 0);
    let mut sim = BattleSimulator::new(vec![a]);
    assert!(sim.is_battle_ended());
    sim.add_unit(sim_unit(2, 2, 10_000));
    assert!(!sim.is_battle_ended());
    assert_eq!(sim.get_units().len(), 2);
}

#[test]
fn test_get_results_copies_state() {
    let a = armed(sim_unit(1, 1, 0), -10_000);
    let b = sim_unit(2, 2, 10_000);
    let mut sim = BattleSimulator::new(vec![a, b]);
    sim.simulate_tick(50, 0);
    let results = sim.get_results();
    assert_eq!(results.len(), 2);
    assert_eq!(results[0].id, 1);
    assert_eq!(results[0].damage_dealt, 100_000);
    assert!(!results[1].alive);
    assert_eq!(results[1].damage_taken, 100_000);
}

#[test]
fn test_fallback_scan_reaches_zero_priority_enemy() {
    // A station never scores another station in the priority search, yet
    // the battlefield-wide fallback still engages an enemy in weapon
    // range.
    let mut a = armed(sim_unit(1, 1, 0), -10_000);
    a.is_ship = false;
    a.is_station = true;
    let mut b = sim_unit(2, 2, 10_000);
    b.is_ship = false;
    b.is_station = true;
    let mut sim = BattleSimulator::new(vec![a, b]);
    let r = sim.simulate_tick(50, 0);
    assert_eq!(r.weapons_fired.len(), 1);
    assert_eq!(r.destroyed, vec![2]);
}

#[test]
fn test_stalemate_winner_tie_breaks_by_first_seen() {
    // Equal headcounts: the faction seen first in unit order wins.
    let units = vec![
        sim_unit(1, 4, 0),
        sim_unit(2, 9, 10_000),
        sim_unit(3, 4, 20_000),
        sim_unit(4, 9, 900_000_000),
    ];
    let mut sim = BattleSimulator::new(units);
    for t in 0..1201i64 {
        sim.simulate_tick(50, t * 50);
    }
    assert!(sim.is_battle_ended());
    assert_eq!(sim.get_winner(), Some(4));
}

#[test]
fn test_damage_lands_before_regen() {
    // The damaged report carries the shield as the hit left it; the
    // regeneration that closes the tick comes after.
    let a = armed(sim_unit(1, 1, 0), -10_000);
    let mut b = sim_unit(2, 2, 10_000);
    b.max_hp = 1_000_000;
    b.hp = 1_000_000;
    b.max_shield = 150_000;
    b.shield = 150_000;
    b.shield_regen = 20_000;
    let mut sim = BattleSimulator::new(vec![a, b]);
    let r = sim.simulate_tick(1_000, 0);
    assert_eq!(r.damaged[0].shield, 50_000);
    assert_eq!(sim.get_units()[1].shield, 70_000);
    assert_eq!(sim.get_units()[1].hp, 1_000_000);
}
