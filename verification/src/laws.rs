//! The global guarantees of the kernel, stated as theorems over the spec
//! functions that the executable passes are proved to implement.

use crate::battery::{battery_step_robot, drain_amount};
use crate::config::{SimulationConfig, BATTERY_MAX};
use crate::geometry::Vec2;
use crate::machine::machine_step_robot;
use crate::movement::moved_pos;
use crate::robot::{Robot, RobotState, SavedMemory};
use crate::stations::{Station, StationId};
use crate::world::{holds_ref, sid_ok, station_of, World};
use vstd::prelude::*;

verus! {

/// Booking exclusivity: in a well-formed world, at most one robot's
/// references (active reservation or saved memory) name any station, and a
/// station a robot references is booked. Every pass of [`World::tick`]
/// preserves well-formedness, so this holds at every tick.
pub proof fn booking_exclusivity(w: World, i: int, j: int, sid: StationId)
    requires
        w.wf(),
        0 <= i < w.robots@.len(),
        0 <= j < w.robots@.len(),
        i != j,
        sid_ok(w.stations.pickups@, w.stations.dropoffs@, w.stations.chargers@, sid),
        holds_ref(w.robots@[i], sid),
    ensures
        !holds_ref(w.robots@[j], sid),
        station_of(w.stations.pickups@, w.stations.dropoffs@, w.stations.chargers@, sid).booked,
{
    assert(crate::world::holds_at(w.robots@, i, sid));
    if holds_ref(w.robots@[j], sid) {
        assert(crate::world::holds_at(w.robots@, j, sid));
        assert(false);
    }
}

/// Battery bounds: in a well-formed world, every robot's battery is at most
/// full capacity; a live robot's battery is non-negative (it sits at or
/// above the dead threshold); and a battery below the dead threshold means
/// the robot is Dead — permanently, by [`dead_is_absorbing`].
pub proof fn battery_bounds(w: World, i: int)
    requires
        w.wf(),
        0 <= i < w.robots@.len(),
    ensures
        w.robots@[i].battery <= BATTERY_MAX,
        w.robots@[i].state != RobotState::Dead ==> 0 <= w.robots@[i].battery,
        w.robots@[i].state != RobotState::Dead ==> w.config.dead_battery_threshold
            <= w.robots@[i].battery,
        w.robots@[i].battery < w.config.dead_battery_threshold ==> w.robots@[i].state
            == RobotState::Dead,
{
    assert(crate::robot::robot_phys_ok(w.config, w.robots@[i]));
}

/// Charging monotonicity: while a robot is Charging, one state-machine step
/// never decreases its battery — it gains exactly 25 battery units per time
/// unit, clamped to capacity.
pub proof fn charging_monotonic(
    cfg: SimulationConfig,
    r: Robot,
    ps: Seq<Station>,
    ds: Seq<Station>,
    cs: Seq<Station>,
    dt: i64,
)
    requires
        r.state == RobotState::Charging,
        r.battery <= BATTERY_MAX,
        0 <= dt,
    ensures
        ({
            let (r2, _, _, _) = machine_step_robot(cfg, r, ps, ds, cs, dt);
            &&& r.battery <= r2.battery <= BATTERY_MAX
            &&& (r.battery + 25 * dt <= BATTERY_MAX ==> r2.battery == r.battery + 25 * dt)
            &&& (r.battery + 25 * dt > BATTERY_MAX ==> r2.battery == BATTERY_MAX)
        }),
{
}

/// Interrupt fidelity, capture half: the low-battery interrupt on a robot
/// mid-pickup saves `MovingToPickup` — not `PickingUp` — together with the
/// pickup reservation it holds and its target, and forces the robot to
/// `WaitingForCharger` without touching that reservation.
pub proof fn interrupt_saves_task(cfg: SimulationConfig, r: Robot, dt: i64)
    requires
        r.state == RobotState::PickingUp,
        0 <= cfg.drain_idle <= 1_000_000,
        0 < dt <= 100_000,
        r.battery <= BATTERY_MAX,
        cfg.dead_battery_threshold <= r.battery - drain_amount(cfg.drain_idle, dt),
        r.battery - drain_amount(cfg.drain_idle, dt) < cfg.low_battery_threshold,
    ensures
        battery_step_robot(cfg, r, dt) == (Robot {
            state: RobotState::WaitingForCharger,
            battery: (r.battery - drain_amount(cfg.drain_idle, dt)) as i64,
            memory: Some(
                SavedMemory {
                    resume_state: RobotState::MovingToPickup,
                    resume_target: r.target,
                    resume_reservation: r.reservation,
                },
            ),
            ..r
        }),
{
    crate::battery::lemma_drain_bounds(cfg.drain_idle, dt);
}

/// Interrupt fidelity, restore half: when the charging timer completes on a
/// robot with a saved task, the step releases the charger and restores the
/// saved state, target and reservation exactly, clearing the memory.
pub proof fn charging_restores_task(
    cfg: SimulationConfig,
    r: Robot,
    ps: Seq<Station>,
    ds: Seq<Station>,
    cs: Seq<Station>,
    dt: i64,
)
    requires
        r.state == RobotState::Charging,
        r.timers.charge + dt >= cfg.charging_time,
        r.timers.charge + dt <= 0x7fff_ffff_ffff_ffff,
    ensures
        ({
            let (r2, _, _, _) = machine_step_robot(cfg, r, ps, ds, cs, dt);
            &&& (r.memory matches Some(m) ==> {
                &&& r2.state == m.resume_state
                &&& r2.target == m.resume_target
                &&& r2.reservation == m.resume_reservation
                &&& r2.memory is None
            })
            &&& (r.memory is None ==> r2.state == RobotState::Idle && r2.reservation is None)
        }),
{
}

/// Dead is absorbing: a dead robot is skipped by all three passes — it does
/// not move, takes no transition, and its battery is left alone.
pub proof fn dead_is_absorbing(
    cfg: SimulationConfig,
    r: Robot,
    ps: Seq<Station>,
    ds: Seq<Station>,
    cs: Seq<Station>,
    obstacles: Seq<(u64, Vec2)>,
    dt: i64,
)
    requires
        r.state == RobotState::Dead,
    ensures
        moved_pos(cfg, r, obstacles, dt) == r.pos,
        machine_step_robot(cfg, r, ps, ds, cs, dt) == (r, ps, ds, cs),
        battery_step_robot(cfg, r, dt) == r,
{
}

} // verus!
