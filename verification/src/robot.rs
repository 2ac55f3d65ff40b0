//! The robot record: its state machine enum, timers, and the saved task
//! context used across a charging detour.

use crate::config::{SimulationConfig, BATTERY_MAX, MAX_DT, MAX_RATE, WORK_DURATION};
use crate::geometry::{in_coord_range, Vec2};
use crate::stations::StationId;
use vstd::prelude::*;

verus! {

/// The ten-state per-robot state machine. `Dead` is absorbing.
#[derive(Clone, Copy, PartialEq, Eq, Structural, Debug)]
pub enum RobotState {
    Idle,
    MovingToPickup,
    PickingUp,
    WaitingForDropoff,
    MovingToDropoff,
    DroppingOff,
    WaitingForCharger,
    MovingToCharger,
    Charging,
    Dead,
}

/// The suspended task context a robot preserves while diverted to charge:
/// populated exactly when the low-battery interrupt fires, cleared the
/// instant charging completes.
#[derive(Clone, Copy, PartialEq, Eq, Structural, Debug)]
pub struct SavedMemory {
    pub resume_state: RobotState,
    pub resume_target: Vec2,
    pub resume_reservation: Option<StationId>,
}

/// Elapsed-time accumulators in milli-time-units, advanced by the tick
/// driver's fixed step.
#[derive(Clone, Copy, PartialEq, Eq, Structural, Debug)]
pub struct RobotTimers {
    /// Dwell timer for PickingUp / DroppingOff; compared against
    /// [`crate::config::WORK_DURATION`].
    pub work: i64,
    /// Charging timer; compared against the configured charging time.
    pub charge: i64,
}

/// One robot record. Scalars are fixed-point milli-units; `battery` ranges
/// over `[0, BATTERY_MAX]` while the robot lives.
#[derive(Clone, Copy, PartialEq, Eq, Structural, Debug)]
pub struct Robot {
    pub id: u64,
    pub pos: Vec2,
    pub speed: i64,
    pub target: Vec2,
    pub state: RobotState,
    pub timers: RobotTimers,
    pub battery: i64,
    pub reservation: Option<StationId>,
    pub memory: Option<SavedMemory>,
}

/// The derived battery status the presentation layer consumes; it plays no
/// part in the kernel's own decisions.
#[derive(Clone, Copy, PartialEq, Eq, Structural, Debug)]
pub enum BatteryTier {
    /// More than half charge left.
    Nominal,
    /// At or below half charge.
    Low,
    /// Dead: terminal.
    Terminal,
}

/// The battery tier of a robot: `Terminal` once dead, `Nominal` above 50
/// units, `Low` at or below.
pub open spec fn battery_tier_of(r: Robot) -> BatteryTier {
    if r.state == RobotState::Dead {
        BatteryTier::Terminal
    } else if r.battery > 50_000 {
        BatteryTier::Nominal
    } else {
        BatteryTier::Low
    }
}

impl Robot {
    /// Reports [`battery_tier_of`] for display.
    pub fn battery_tier(&self) -> (t: BatteryTier)
        ensures
            t == battery_tier_of(*self),
    {
        if matches!(self.state, RobotState::Dead) {
            BatteryTier::Terminal
        } else if self.battery > 50_000 {
            BatteryTier::Nominal
        } else {
            BatteryTier::Low
        }
    }
}

/// The states in which a robot is displaced by the movement pass.
pub open spec fn is_moving_state(s: RobotState) -> bool {
    s == RobotState::MovingToPickup || s == RobotState::MovingToDropoff || s
        == RobotState::MovingToCharger
}

/// The states of an already-running charging detour, in which the
/// low-battery interrupt must not fire again.
pub open spec fn is_charging_related(s: RobotState) -> bool {
    s == RobotState::WaitingForCharger || s == RobotState::MovingToCharger || s
        == RobotState::Charging
}

/// The state recorded for resumption: mid-dwell states collapse to their
/// movement phase, so re-entry restarts the approach and its timer cleanly.
pub open spec fn collapse_resume_state(s: RobotState) -> RobotState {
    if s == RobotState::PickingUp {
        RobotState::MovingToPickup
    } else if s == RobotState::DroppingOff {
        RobotState::MovingToDropoff
    } else {
        s
    }
}

/// The physical per-robot invariant: position and target in coordinate
/// range, speed and battery in range, a live robot's battery at or above
/// the dead threshold, and both timers within their inductive bounds — a
/// dwell or charge timer is strictly below its duration while its state is
/// active, and never further above it than one tick can carry it.
pub open spec fn robot_phys_ok(cfg: SimulationConfig, r: Robot) -> bool {
    &&& in_coord_range(r.pos)
    &&& in_coord_range(r.target)
    &&& 0 <= r.speed <= MAX_RATE
    &&& -100_000_000 <= r.battery <= BATTERY_MAX
    &&& (r.state != RobotState::Dead ==> r.battery >= cfg.dead_battery_threshold)
    &&& 0 <= r.timers.work <= WORK_DURATION + MAX_DT
    &&& ((r.state == RobotState::PickingUp || r.state == RobotState::DroppingOff)
        ==> r.timers.work < WORK_DURATION)
    &&& 0 <= r.timers.charge <= cfg.charging_time + MAX_DT
    &&& (r.state == RobotState::Charging ==> r.timers.charge < cfg.charging_time)
}

/// Decides [`is_moving_state`].
pub fn moving_state(s: RobotState) -> (b: bool)
    ensures
        b == is_moving_state(s),
{
    match s {
        RobotState::MovingToPickup | RobotState::MovingToDropoff | RobotState::MovingToCharger =>
            true,
        _ => false,
    }
}

/// Decides [`is_charging_related`].
pub fn charging_related(s: RobotState) -> (b: bool)
    ensures
        b == is_charging_related(s),
{
    match s {
        RobotState::WaitingForCharger | RobotState::MovingToCharger | RobotState::Charging => true,
        _ => false,
    }
}

} // verus!
