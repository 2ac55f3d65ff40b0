//! The immutable simulation configuration and the global fixed-point
//! parameters of the kernel.

use crate::geometry::{in_coord_range, Vec2, COORD_LIMIT};
use vstd::prelude::*;

verus! {

/// Battery capacity: 100 units, in milli-units.
pub const BATTERY_MAX: i64 = 100_000;

/// Dwell duration for picking up or dropping off: 1 time unit, in
/// milli-time-units.
pub const WORK_DURATION: i64 = 1000;

/// Charging rate: 25 battery units per time unit, in milli-units.
pub const CHARGE_RATE: i64 = 25_000;

/// Largest admitted tick duration: 100 time units, in milli-time-units.
pub const MAX_DT: i64 = 100_000;

/// Largest admitted robot speed and drain rate: 1000 units per time unit.
pub const MAX_RATE: i64 = 1_000_000;

/// Largest admitted charging duration, in milli-time-units.
pub const MAX_TIMER: i64 = 1_000_000_000;

/// Largest admitted robot count.
pub const MAX_ROBOTS: usize = 10_000;

/// Largest admitted station count per pool.
pub const MAX_STATIONS: usize = 10_000;

/// Initialization parameters, supplied once and immutable during the run.
/// Scalars are fixed-point milli-units (a speed of 1.5 units per time unit
/// is stored as 1500); station entries are positions in milli-units.
pub struct SimulationConfig {
    pub robot_count: usize,
    pub robot_speed: i64,
    pub collision_radius: i64,
    pub state_change_radius: i64,
    pub low_battery_threshold: i64,
    pub dead_battery_threshold: i64,
    pub drain_idle: i64,
    pub drain_move: i64,
    pub charging_time: i64,
    pub pickup_stations: Vec<Vec2>,
    pub dropoff_stations: Vec<Vec2>,
    pub charger_stations: Vec<Vec2>,
}

impl SimulationConfig {
    /// Physically sensible parameters: radii and rates non-negative and in
    /// fixed-point range, thresholds ordered `dead < low`, positive charging
    /// time, and station positions inside the coordinate range.
    pub open spec fn valid(self) -> bool {
        &&& self.robot_count <= MAX_ROBOTS
        &&& 0 <= self.robot_speed <= MAX_RATE
        &&& 0 <= self.collision_radius <= COORD_LIMIT
        &&& 0 <= self.state_change_radius <= COORD_LIMIT
        &&& 0 <= self.dead_battery_threshold
        &&& self.dead_battery_threshold < self.low_battery_threshold
        &&& self.low_battery_threshold <= BATTERY_MAX
        &&& 0 <= self.drain_idle <= MAX_RATE
        &&& 0 <= self.drain_move <= MAX_RATE
        &&& 0 < self.charging_time <= MAX_TIMER
        &&& self.pickup_stations@.len() <= MAX_STATIONS
        &&& self.dropoff_stations@.len() <= MAX_STATIONS
        &&& self.charger_stations@.len() <= MAX_STATIONS
        &&& forall|i: int|
            0 <= i < self.pickup_stations@.len() ==> in_coord_range(#[trigger] self.pickup_stations@[i])
        &&& forall|i: int|
            0 <= i < self.dropoff_stations@.len() ==> in_coord_range(
                #[trigger] self.dropoff_stations@[i],
            )
        &&& forall|i: int|
            0 <= i < self.charger_stations@.len() ==> in_coord_range(
                #[trigger] self.charger_stations@[i],
            )
    }

    /// Decides [`SimulationConfig::valid`] at run time, for callers that
    /// receive a configuration from outside.
    pub fn is_valid(&self) -> (b: bool)
        ensures
            b == self.valid(),
    {
        let scalars_ok = self.robot_count <= MAX_ROBOTS && 0 <= self.robot_speed
            && self.robot_speed <= MAX_RATE && 0 <= self.collision_radius && self.collision_radius
            <= COORD_LIMIT && 0 <= self.state_change_radius && self.state_change_radius
            <= COORD_LIMIT && 0 <= self.dead_battery_threshold && self.dead_battery_threshold
            < self.low_battery_threshold && self.low_battery_threshold <= BATTERY_MAX && 0
            <= self.drain_idle && self.drain_idle <= MAX_RATE && 0 <= self.drain_move
            && self.drain_move <= MAX_RATE && 0 < self.charging_time && self.charging_time
            <= MAX_TIMER && self.pickup_stations.len() <= MAX_STATIONS && self.dropoff_stations.len()
            <= MAX_STATIONS && self.charger_stations.len() <= MAX_STATIONS;
        if !scalars_ok {
            return false;
        }
        stations_in_range(&self.pickup_stations) && stations_in_range(&self.dropoff_stations)
            && stations_in_range(&self.charger_stations)
    }
}

/// Whether every listed position lies inside the coordinate range.
fn stations_in_range(v: &Vec<Vec2>) -> (b: bool)
    ensures
        b == forall|i: int| 0 <= i < v@.len() ==> in_coord_range(#[trigger] v@[i]),
{
    let n = v.len();
    let mut i: usize = 0;
    while i < n
        invariant
            i <= n,
            n == v@.len(),
            forall|j: int| 0 <= j < i ==> in_coord_range(#[trigger] v@[j]),
        decreases n - i,
    {
        let p = v[i];
        if !(-COORD_LIMIT <= p.x && p.x <= COORD_LIMIT && -COORD_LIMIT <= p.y && p.y
            <= COORD_LIMIT) {
            return false;
        }
        i += 1;
    }
    true
}

} // verus!
