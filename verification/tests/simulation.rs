use robot_fleet::config::SimulationConfig;
use robot_fleet::geometry::Vec2;
use robot_fleet::robot::{BatteryTier, Robot, RobotState, RobotTimers};
use robot_fleet::stations::{Station, StationId, StationKind, StationRegistry};
use robot_fleet::world::{setup_simulation, World};

fn v(x: i64, y: i64) -> Vec2 {
    Vec2 { x, y }
}

fn base_config() -> SimulationConfig {
    SimulationConfig {
        robot_count: 1,
        robot_speed: 10_000,
        collision_radius: 10_000,
        state_change_radius: 1_000,
        low_battery_threshold: 200,
        dead_battery_threshold: 100,
        drain_idle: 10,
        drain_move: 10,
        charging_time: 1_000,
        pickup_stations: vec![],
        dropoff_stations: vec![],
        charger_stations: vec![],
    }
}

/// Validity is decided exactly: thresholds must be ordered `dead < low`.
#[test]
fn config_validity() {
    let good = base_config();
    assert!(good.is_valid());
    let mut bad = base_config();
    bad.dead_battery_threshold = 300;
    assert!(!bad.is_valid());
    let mut bad2 = base_config();
    bad2.charging_time = 0;
    assert!(!bad2.is_valid());
}

/// Setup places robots in a row at hundred-unit intervals, idle with full
/// batteries, and all stations unbooked.
#[test]
fn setup_initial_state() {
    let mut cfg = base_config();
    cfg.robot_count = 3;
    cfg.pickup_stations = vec![v(0, 0)];
    cfg.dropoff_stations = vec![v(1_000, 0)];
    cfg.charger_stations = vec![v(2_000, 0)];
    let w = setup_simulation(cfg);
    assert_eq!(w.robots.len(), 3);
    for (i, r) in w.robots.iter().enumerate() {
        assert_eq!(r.id, i as u64);
        assert_eq!(r.pos, v(100_000 * i as i64, 50_000));
        assert_eq!(r.state, RobotState::Idle);
        assert_eq!(r.battery, 100_000);
        assert_eq!(r.reservation, None);
        assert_eq!(r.memory, None);
    }
    assert_eq!(w.stations.pickups[0], Station { pos: v(0, 0), booked: false });
    assert_eq!(w.stations.dropoffs[0], Station { pos: v(1_000, 0), booked: false });
    assert_eq!(w.stations.chargers[0], Station { pos: v(2_000, 0), booked: false });
}

/// A robot idling with no station available drains 1 battery unit per time
/// unit for ten time units: 100 down to 90.
#[test]
fn idle_drain_ten_units() {
    let mut cfg = base_config();
    cfg.drain_idle = 1_000;
    cfg.low_battery_threshold = 10_000;
    cfg.dead_battery_threshold = 5_000;
    let mut w = setup_simulation(cfg);
    for _ in 0..10 {
        w.tick(1_000);
        assert_eq!(w.robots[0].state, RobotState::Idle);
    }
    assert_eq!(w.robots[0].battery, 90_000);
}

/// Crossing the dead threshold kills the robot on that tick, and it stays
/// dead with its battery frozen for all subsequent ticks.
#[test]
fn death_is_terminal() {
    let mut cfg = base_config();
    cfg.drain_idle = 1_000_000;
    cfg.low_battery_threshold = 10_000;
    cfg.dead_battery_threshold = 5_000;
    let mut w = setup_simulation(cfg);
    w.tick(100);
    assert_eq!(w.robots[0].state, RobotState::Dead);
    assert_eq!(w.robots[0].battery, 0);
    for _ in 0..5 {
        w.tick(100);
        assert_eq!(w.robots[0].state, RobotState::Dead);
        assert_eq!(w.robots[0].battery, 0);
    }
}

/// The full work cycle with one free pickup and one free dropoff: Idle
/// through both dwells and back to Idle, with both stations released by
/// the end.
#[test]
fn end_to_end_cycle() {
    let mut cfg = base_config();
    cfg.pickup_stations = vec![v(0, 50_000)];
    cfg.dropoff_stations = vec![v(0, 50_000)];
    let mut w = setup_simulation(cfg);
    let dt = 500;

    w.tick(dt);
    assert_eq!(w.robots[0].state, RobotState::MovingToPickup);
    assert_eq!(
        w.robots[0].reservation,
        Some(StationId { kind: StationKind::Pickup, index: 0 })
    );
    assert!(w.stations.pickups[0].booked);

    w.tick(dt);
    assert_eq!(w.robots[0].state, RobotState::PickingUp);

    w.tick(dt);
    assert_eq!(w.robots[0].state, RobotState::PickingUp);

    w.tick(dt);
    assert_eq!(w.robots[0].state, RobotState::WaitingForDropoff);
    assert_eq!(w.robots[0].reservation, None);
    assert!(!w.stations.pickups[0].booked);

    w.tick(dt);
    assert_eq!(w.robots[0].state, RobotState::MovingToDropoff);
    assert!(w.stations.dropoffs[0].booked);

    w.tick(dt);
    assert_eq!(w.robots[0].state, RobotState::DroppingOff);

    w.tick(dt);
    assert_eq!(w.robots[0].state, RobotState::DroppingOff);

    w.tick(dt);
    assert_eq!(w.robots[0].state, RobotState::Idle);
    assert_eq!(w.robots[0].reservation, None);
    assert!(!w.stations.pickups[0].booked);
    assert!(!w.stations.dropoffs[0].booked);
}

/// The low-battery interrupt mid-pickup saves `MovingToPickup` (not
/// `PickingUp`) and the pickup reservation; completing the charge restores
/// exactly that state and reservation, and the pickup stays booked across
/// the whole detour.
#[test]
fn interrupt_and_resume() {
    let mut cfg = base_config();
    cfg.pickup_stations = vec![v(0, 50_000)];
    cfg.dropoff_stations = vec![v(0, 50_000)];
    cfg.charger_stations = vec![v(0, 50_000)];
    cfg.drain_idle = 100;
    cfg.drain_move = 100;
    cfg.low_battery_threshold = 99_901;
    cfg.dead_battery_threshold = 0;
    let mut w = setup_simulation(cfg);
    let dt = 500;
    let pickup = StationId { kind: StationKind::Pickup, index: 0 };
    let charger = StationId { kind: StationKind::Charger, index: 0 };

    w.tick(dt);
    assert_eq!(w.robots[0].state, RobotState::MovingToPickup);
    assert_eq!(w.robots[0].battery, 99_950);

    // The state machine enters PickingUp this tick; the battery pass then
    // drops the battery below the low threshold and interrupts.
    w.tick(dt);
    assert_eq!(w.robots[0].battery, 99_900);
    assert_eq!(w.robots[0].state, RobotState::WaitingForCharger);
    let memory = w.robots[0].memory.unwrap();
    assert_eq!(memory.resume_state, RobotState::MovingToPickup);
    assert_eq!(memory.resume_reservation, Some(pickup));
    assert_eq!(w.robots[0].reservation, Some(pickup));
    assert!(w.stations.pickups[0].booked);

    w.tick(dt);
    assert_eq!(w.robots[0].state, RobotState::MovingToCharger);
    assert_eq!(w.robots[0].reservation, Some(charger));
    assert!(w.stations.chargers[0].booked);
    assert!(w.stations.pickups[0].booked);

    w.tick(dt);
    assert_eq!(w.robots[0].state, RobotState::Charging);

    // While charging, the battery rises (25 per time unit) and clamps at
    // capacity; no interrupt can fire again.
    let before = w.robots[0].battery;
    w.tick(dt);
    assert_eq!(w.robots[0].state, RobotState::Charging);
    assert!(w.robots[0].battery >= before);
    assert_eq!(w.robots[0].battery, 100_000);

    w.tick(dt);
    assert_eq!(w.robots[0].state, RobotState::MovingToPickup);
    assert_eq!(w.robots[0].reservation, Some(pickup));
    assert_eq!(w.robots[0].memory, None);
    assert!(!w.stations.chargers[0].booked);
    assert!(w.stations.pickups[0].booked);
}

/// While Charging the battery gains exactly 25 units per time unit.
#[test]
fn charging_gains_exactly() {
    let mut cfg = base_config();
    cfg.charger_stations = vec![v(0, 0)];
    cfg.charging_time = 100_000;
    let charger = StationId { kind: StationKind::Charger, index: 0 };
    let robot = Robot {
        id: 0,
        pos: v(0, 0),
        speed: cfg.robot_speed,
        target: v(0, 0),
        state: RobotState::Charging,
        timers: RobotTimers { work: 0, charge: 0 },
        battery: 40_000,
        reservation: Some(charger),
        memory: None,
    };
    let mut w = World {
        config: cfg,
        robots: vec![robot],
        stations: StationRegistry {
            pickups: vec![],
            dropoffs: vec![],
            chargers: vec![Station { pos: v(0, 0), booked: true }],
        },
    };
    w.tick(400);
    assert_eq!(w.robots[0].state, RobotState::Charging);
    assert_eq!(w.robots[0].battery, 50_000);
    w.tick(400);
    assert_eq!(w.robots[0].battery, 60_000);
}

/// Under contention the robot processed first claims the only pickup;
/// the later robot sees it booked and keeps waiting.
#[test]
fn contention_first_robot_wins() {
    let mut cfg = base_config();
    cfg.robot_count = 2;
    cfg.pickup_stations = vec![v(0, 50_000)];
    let mut w = setup_simulation(cfg);
    w.tick(500);
    assert_eq!(w.robots[0].state, RobotState::MovingToPickup);
    assert_eq!(
        w.robots[0].reservation,
        Some(StationId { kind: StationKind::Pickup, index: 0 })
    );
    assert_eq!(w.robots[1].state, RobotState::Idle);
    assert_eq!(w.robots[1].reservation, None);
    assert!(w.stations.pickups[0].booked);
}

/// A moving robot is displaced toward its target by speed times tick
/// duration, and slows proportionally on arrival so it lands on the
/// target without overshoot.
#[test]
fn movement_toward_target() {
    let mut cfg = base_config();
    cfg.pickup_stations = vec![v(100_000, 50_000)];
    let mut w = setup_simulation(cfg);
    w.tick(1_000);
    assert_eq!(w.robots[0].state, RobotState::MovingToPickup);
    assert_eq!(w.robots[0].pos, v(0, 50_000));
    // Ten units per time unit over one time unit: ten units forward.
    w.tick(1_000);
    assert_eq!(w.robots[0].pos, v(10_000, 50_000));

    let mut cfg2 = base_config();
    cfg2.pickup_stations = vec![v(5_000, 50_000)];
    let mut w2 = setup_simulation(cfg2);
    w2.tick(1_000);
    // Five units out: half the arrival radius, so effective speed is
    // half of nominal and the robot lands exactly on the target.
    w2.tick(1_000);
    assert_eq!(w2.robots[0].pos, v(5_000, 50_000));
    assert_eq!(w2.robots[0].state, RobotState::PickingUp);
}

/// Death does not release a held reservation: the station a robot died
/// holding stays booked for good, so no other robot can ever claim it.
/// This is deliberate — the dead robot still counts as its one holder.
#[test]
fn death_keeps_reservation() {
    let mut cfg = base_config();
    cfg.robot_count = 2;
    cfg.pickup_stations = vec![v(500_000, 50_000)];
    cfg.drain_move = 1_000_000;
    cfg.drain_idle = 10;
    cfg.low_battery_threshold = 10_000;
    cfg.dead_battery_threshold = 5_000;
    let mut w = setup_simulation(cfg);
    // Robot 0 books the pickup and starts moving; the battery pass of the
    // same tick drains it below the dead threshold, reservation in hand.
    w.tick(100);
    assert_eq!(w.robots[0].state, RobotState::Dead);
    for _ in 0..20 {
        w.tick(100);
    }
    assert_eq!(w.robots[0].state, RobotState::Dead);
    assert_eq!(
        w.robots[0].reservation,
        Some(StationId { kind: StationKind::Pickup, index: 0 })
    );
    assert!(w.stations.pickups[0].booked);
    assert_eq!(w.robots[1].state, RobotState::Idle);
}

fn references(r: &Robot, kind: StationKind, index: usize) -> bool {
    let sid = StationId { kind, index };
    r.reservation == Some(sid)
        || r.memory.map_or(false, |m| m.resume_reservation == Some(sid))
}

fn assert_exclusive(w: &World) {
    let pools = [
        (StationKind::Pickup, &w.stations.pickups),
        (StationKind::Dropoff, &w.stations.dropoffs),
        (StationKind::Charger, &w.stations.chargers),
    ];
    for (kind, pool) in pools {
        for (index, station) in pool.iter().enumerate() {
            let holders = w
                .robots
                .iter()
                .filter(|r| references(r, kind, index))
                .count();
            assert!(holders <= 1);
            assert_eq!(station.booked, holders == 1);
        }
    }
}

/// Booking exclusivity holds at every tick of a contended run: each booked
/// station is referenced by exactly one robot, free stations by none.
#[test]
fn booking_exclusive_over_contended_run() {
    let mut cfg = base_config();
    cfg.robot_count = 4;
    cfg.pickup_stations = vec![v(20_000, 40_000)];
    cfg.dropoff_stations = vec![v(60_000, 60_000)];
    cfg.charger_stations = vec![v(40_000, 50_000)];
    cfg.drain_idle = 2_000;
    cfg.drain_move = 4_000;
    cfg.low_battery_threshold = 60_000;
    cfg.dead_battery_threshold = 2_000;
    cfg.charging_time = 3_000;
    let mut w = setup_simulation(cfg);
    assert_exclusive(&w);
    for _ in 0..300 {
        w.tick(500);
        assert_exclusive(&w);
        assert!(w.robots.iter().all(|r| r.battery <= 100_000));
        assert!(w
            .robots
            .iter()
            .all(|r| r.state == RobotState::Dead || r.battery >= 2_000));
    }
}

/// The display tier is nominal above half charge, low at or below, and
/// terminal once dead.
#[test]
fn battery_tier_for_display() {
    let mut cfg = base_config();
    cfg.drain_idle = 1_000_000;
    cfg.low_battery_threshold = 10_000;
    cfg.dead_battery_threshold = 5_000;
    let mut w = setup_simulation(cfg);
    assert_eq!(w.robots[0].battery_tier(), BatteryTier::Nominal);
    w.robots[0].battery = 50_000;
    assert_eq!(w.robots[0].battery_tier(), BatteryTier::Low);
    w.robots[0].battery = 100_000;
    w.tick(100);
    assert_eq!(w.robots[0].battery_tier(), BatteryTier::Terminal);
}
