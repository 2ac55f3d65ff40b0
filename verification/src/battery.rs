//! The battery model: per-tick drain for every live, non-charging robot,
//! the terminal death transition, and the low-battery interrupt that
//! captures the robot's task context and diverts it to a charger.

use crate::config::{SimulationConfig, MAX_DT};
use crate::geometry::{lemma_sdiv_bound, lemma_sdiv_nonneg, mul_div_trunc, sdiv};
use crate::robot::{
    collapse_resume_state, is_charging_related, is_moving_state, moving_state, charging_related,
    robot_phys_ok, Robot, RobotState, SavedMemory,
};
use vstd::prelude::*;

verus! {

/// The battery drained in one tick: `rate` milli-units per time unit over
/// `dt` milli-time-units, truncated: the two rate factors cancel one
/// scale factor of 1000.
pub open spec fn drain_amount(rate: i64, dt: i64) -> int {
    (rate * dt) / 1000
}

/// One tick of the battery model for one robot. Dead and charging robots
/// are skipped entirely. Every other robot drains at the moving or idle
/// rate; a robot that falls below the dead threshold dies where it stands,
/// keeping whatever reservation it held; one that falls below the low
/// threshold outside a charging detour saves its task context — with
/// mid-dwell states collapsed to their movement phase — and is forced to
/// `WaitingForCharger`, keeping its current reservation.
pub open spec fn battery_step_robot(cfg: SimulationConfig, r: Robot, dt: i64) -> Robot {
    if r.state == RobotState::Dead || r.state == RobotState::Charging {
        r
    } else {
        let rate = if is_moving_state(r.state) {
            cfg.drain_move
        } else {
            cfg.drain_idle
        };
        let b = (r.battery - drain_amount(rate, dt)) as i64;
        if b < cfg.dead_battery_threshold {
            Robot { state: RobotState::Dead, battery: b, ..r }
        } else if b < cfg.low_battery_threshold && !is_charging_related(r.state) {
            Robot {
                state: RobotState::WaitingForCharger,
                battery: b,
                memory: Some(
                    SavedMemory {
                        resume_state: collapse_resume_state(r.state),
                        resume_target: r.target,
                        resume_reservation: r.reservation,
                    },
                ),
                ..r
            }
        } else {
            Robot { battery: b, ..r }
        }
    }
}

/// The drained amount of one tick lies in `[0, 100_000_000]` for admitted
/// rates and tick durations.
pub proof fn lemma_drain_bounds(rate: i64, dt: i64)
    requires
        0 <= rate <= 1_000_000,
        0 < dt <= MAX_DT,
    ensures
        0 <= drain_amount(rate, dt) <= 100_000_000,
{
    assert(0 <= rate * dt <= 100_000_000_000) by (nonlinear_arith)
        requires
            0 <= rate <= 1_000_000,
            0 < dt <= 100_000,
    ;
    lemma_sdiv_nonneg(rate * dt, 1000);
    lemma_sdiv_bound(rate * dt, 1000, 100_000_000);
}

/// Runs one tick of the battery model on one robot, exactly as
/// [`battery_step_robot`] states it.
pub fn battery_step_one(cfg: &SimulationConfig, r: &mut Robot, dt: i64)
    requires
        cfg.valid(),
        robot_phys_ok(*cfg, *old(r)),
        0 < dt <= MAX_DT,
    ensures
        *final(r) == battery_step_robot(*cfg, *old(r), dt),
{
    let skip = match r.state {
        RobotState::Dead | RobotState::Charging => true,
        _ => false,
    };
    if skip {
        return ;
    }
    let rate = if moving_state(r.state) {
        cfg.drain_move
    } else {
        cfg.drain_idle
    };
    proof {
        lemma_drain_bounds(rate, dt);
        assert(0 <= rate * dt <= 100_000_000_000) by (nonlinear_arith)
            requires
                0 <= rate <= 1_000_000,
                0 < dt <= 100_000,
        ;
    }
    let drained = mul_div_trunc(rate, dt, 1000);
    proof {
        assert(sdiv(rate * dt, 1000) == drain_amount(rate, dt));
    }
    r.battery = r.battery - drained;
    if r.battery < cfg.dead_battery_threshold {
        r.state = RobotState::Dead;
    } else if r.battery < cfg.low_battery_threshold && !charging_related(r.state) {
        r.memory = Some(
            SavedMemory {
                resume_state: collapse_resume(r.state),
                resume_target: r.target,
                resume_reservation: r.reservation,
            },
        );
        r.state = RobotState::WaitingForCharger;
    }
}

/// Decides [`collapse_resume_state`].
fn collapse_resume(s: RobotState) -> (c: RobotState)
    ensures
        c == collapse_resume_state(s),
{
    match s {
        RobotState::PickingUp => RobotState::MovingToPickup,
        RobotState::DroppingOff => RobotState::MovingToDropoff,
        _ => s,
    }
}

} // verus!
