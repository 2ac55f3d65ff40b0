use robot_fleet::geometry::Vec2;
use robot_fleet::stations::{Station, StationId, StationKind, StationRegistry};

fn station(x: i64) -> Station {
    Station { pos: Vec2 { x, y: 0 }, booked: false }
}

fn registry() -> StationRegistry {
    StationRegistry {
        pickups: vec![station(0), station(1_000)],
        dropoffs: vec![station(2_000)],
        chargers: vec![],
    }
}

/// Reservation scans in registration order and books within the same scan:
/// first-found-wins, and an exhausted pool yields `None`.
#[test]
fn reserve_first_found_wins() {
    let mut reg = registry();
    let first = reg.reserve(StationKind::Pickup);
    assert_eq!(first, Some(StationId { kind: StationKind::Pickup, index: 0 }));
    assert!(reg.pickups[0].booked);
    assert!(!reg.pickups[1].booked);
    let second = reg.reserve(StationKind::Pickup);
    assert_eq!(second, Some(StationId { kind: StationKind::Pickup, index: 1 }));
    let third = reg.reserve(StationKind::Pickup);
    assert_eq!(third, None);
}

/// Pools are independent: booking a pickup leaves dropoffs and chargers
/// untouched, and an empty pool has nothing to reserve.
#[test]
fn reserve_pools_are_independent() {
    let mut reg = registry();
    assert!(reg.reserve(StationKind::Pickup).is_some());
    assert!(!reg.dropoffs[0].booked);
    assert_eq!(reg.reserve(StationKind::Charger), None);
    let d = reg.reserve(StationKind::Dropoff);
    assert_eq!(d, Some(StationId { kind: StationKind::Dropoff, index: 0 }));
    assert!(reg.dropoffs[0].booked);
}

/// Release frees exactly the named station, after which it can be
/// reserved again.
#[test]
fn release_frees_station() {
    let mut reg = registry();
    let sid = reg.reserve(StationKind::Pickup).unwrap();
    assert!(reg.pickups[0].booked);
    reg.release(sid);
    assert!(!reg.pickups[0].booked);
    let again = reg.reserve(StationKind::Pickup);
    assert_eq!(again, Some(StationId { kind: StationKind::Pickup, index: 0 }));
}

/// A stale or out-of-range id is a silent no-op on release.
#[test]
fn release_stale_id_is_noop() {
    let mut reg = registry();
    reg.reserve(StationKind::Pickup);
    reg.release(StationId { kind: StationKind::Charger, index: 5 });
    reg.release(StationId { kind: StationKind::Pickup, index: 99 });
    assert!(reg.pickups[0].booked);
    assert!(!reg.pickups[1].booked);
}
