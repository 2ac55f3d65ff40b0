//! The robot state machine: one tick of the work-cycle transition table for
//! one robot, including station reservation and release, dwell timers, the
//! charging dwell with its battery gain, and resumption of the saved task
//! context when charging completes.

use crate::config::{SimulationConfig, BATTERY_MAX, MAX_DT, WORK_DURATION};
use crate::geometry::dist;
use crate::geometry::distance_between;
use crate::robot::{robot_phys_ok, Robot, RobotState, RobotTimers};
use crate::stations::{
    first_free, lemma_first_free_some, release_pool, Station, StationId, StationKind,
    StationRegistry,
};
use vstd::prelude::*;

verus! {

/// The pool with the booking flag of entry `i` set.
pub open spec fn book(s: Seq<Station>, i: int) -> Seq<Station> {
    s.update(i, Station { pos: s[i].pos, booked: true })
}

/// The pool after releasing a reservation against one kind: only a present
/// reservation of that kind frees its entry, anything else is a no-op.
pub open spec fn release_res(s: Seq<Station>, resv: Option<StationId>, kind: StationKind) -> Seq<
    Station,
> {
    match resv {
        Some(sid) => release_pool(s, sid, kind),
        None => s,
    }
}

/// One tick of the state machine for one robot, over the three station
/// pools: the transition table of the work cycle.
///
/// - A waiting robot (`Idle`, `WaitingForDropoff`, `WaitingForCharger`)
///   books the first free station of the kind it needs and moves toward it;
///   if none is free it simply waits and retries next tick. The charger
///   reservation overwrites the task reservation, which survives inside the
///   saved memory.
/// - A moving robot that comes within the state-change radius of its target
///   begins its dwell, resetting the dwell timer.
/// - A dwelling robot (`PickingUp`, `DroppingOff`) advances its work timer
///   by the tick and, once the dwell duration has elapsed, releases its
///   reservation and moves on.
/// - A `Charging` robot gains 25 battery units per time unit, clamped to
///   capacity, regardless of the timer; once the charging time has elapsed
///   it releases the charger and restores its saved state, target and
///   reservation — or becomes `Idle` with no reservation if nothing was
///   saved — clearing the saved memory either way.
/// - A `Dead` robot is not processed at all.
pub open spec fn machine_step_robot(
    cfg: SimulationConfig,
    r: Robot,
    ps: Seq<Station>,
    ds: Seq<Station>,
    cs: Seq<Station>,
    dt: i64,
) -> (Robot, Seq<Station>, Seq<Station>, Seq<Station>) {
    match r.state {
        RobotState::Idle => match first_free(ps) {
            Some(i) => (
                Robot {
                    state: RobotState::MovingToPickup,
                    target: ps[i].pos,
                    reservation: Some(StationId { kind: StationKind::Pickup, index: i as usize }),
                    ..r
                },
                book(ps, i),
                ds,
                cs,
            ),
            None => (r, ps, ds, cs),
        },
        RobotState::MovingToPickup => if dist(r.pos, r.target) < cfg.state_change_radius {
            (
                Robot {
                    state: RobotState::PickingUp,
                    timers: RobotTimers { work: 0, charge: r.timers.charge },
                    ..r
                },
                ps,
                ds,
                cs,
            )
        } else {
            (r, ps, ds, cs)
        },
        RobotState::PickingUp => {
            let w = (r.timers.work + dt) as i64;
            if w >= WORK_DURATION {
                (
                    Robot {
                        state: RobotState::WaitingForDropoff,
                        reservation: None,
                        timers: RobotTimers { work: w, charge: r.timers.charge },
                        ..r
                    },
                    release_res(ps, r.reservation, StationKind::Pickup),
                    ds,
                    cs,
                )
            } else {
                (
                    Robot { timers: RobotTimers { work: w, charge: r.timers.charge }, ..r },
                    ps,
                    ds,
                    cs,
                )
            }
        },
        RobotState::WaitingForDropoff => match first_free(ds) {
            Some(i) => (
                Robot {
                    state: RobotState::MovingToDropoff,
                    target: ds[i].pos,
                    reservation: Some(StationId { kind: StationKind::Dropoff, index: i as usize }),
                    ..r
                },
                ps,
                book(ds, i),
                cs,
            ),
            None => (r, ps, ds, cs),
        },
        RobotState::MovingToDropoff => if dist(r.pos, r.target) < cfg.state_change_radius {
            (
                Robot {
                    state: RobotState::DroppingOff,
                    timers: RobotTimers { work: 0, charge: r.timers.charge },
                    ..r
                },
                ps,
                ds,
                cs,
            )
        } else {
            (r, ps, ds, cs)
        },
        RobotState::DroppingOff => {
            let w = (r.timers.work + dt) as i64;
            if w >= WORK_DURATION {
                (
                    Robot {
                        state: RobotState::Idle,
                        reservation: None,
                        timers: RobotTimers { work: w, charge: r.timers.charge },
                        ..r
                    },
                    ps,
                    release_res(ds, r.reservation, StationKind::Dropoff),
                    cs,
                )
            } else {
                (
                    Robot { timers: RobotTimers { work: w, charge: r.timers.charge }, ..r },
                    ps,
                    ds,
                    cs,
                )
            }
        },
        RobotState::WaitingForCharger => match first_free(cs) {
            Some(i) => (
                Robot {
                    state: RobotState::MovingToCharger,
                    target: cs[i].pos,
                    reservation: Some(StationId { kind: StationKind::Charger, index: i as usize }),
                    ..r
                },
                ps,
                ds,
                book(cs, i),
            ),
            None => (r, ps, ds, cs),
        },
        RobotState::MovingToCharger => if dist(r.pos, r.target) < cfg.state_change_radius {
            (
                Robot {
                    state: RobotState::Charging,
                    timers: RobotTimers { work: r.timers.work, charge: 0 },
                    ..r
                },
                ps,
                ds,
                cs,
            )
        } else {
            (r, ps, ds, cs)
        },
        RobotState::Charging => {
            let c = (r.timers.charge + dt) as i64;
            let gained = r.battery + 25 * dt;
            let b = if gained > BATTERY_MAX {
                BATTERY_MAX
            } else {
                gained as i64
            };
            if c >= cfg.charging_time {
                let cs2 = release_res(cs, r.reservation, StationKind::Charger);
                match r.memory {
                    Some(m) => (
                        Robot {
                            state: m.resume_state,
                            target: m.resume_target,
                            reservation: m.resume_reservation,
                            memory: None,
                            battery: b,
                            timers: RobotTimers { work: r.timers.work, charge: c },
                            ..r
                        },
                        ps,
                        ds,
                        cs2,
                    ),
                    None => (
                        Robot {
                            state: RobotState::Idle,
                            reservation: None,
                            memory: None,
                            battery: b,
                            timers: RobotTimers { work: r.timers.work, charge: c },
                            ..r
                        },
                        ps,
                        ds,
                        cs2,
                    ),
                }
            } else {
                (
                    Robot {
                        battery: b,
                        timers: RobotTimers { work: r.timers.work, charge: c },
                        ..r
                    },
                    ps,
                    ds,
                    cs,
                )
            }
        },
        RobotState::Dead => (r, ps, ds, cs),
    }
}

/// Runs one tick of the state machine on one robot against the registry,
/// exactly as [`machine_step_robot`] states it.
pub fn machine_step_one(cfg: &SimulationConfig, r: &mut Robot, st: &mut StationRegistry, dt: i64)
    requires
        cfg.valid(),
        robot_phys_ok(*cfg, *old(r)),
        0 < dt <= MAX_DT,
    ensures
        ({
            let (r2, ps2, ds2, cs2) = machine_step_robot(
                *cfg,
                *old(r),
                old(st).pickups@,
                old(st).dropoffs@,
                old(st).chargers@,
                dt,
            );
            &&& *final(r) == r2
            &&& final(st).pickups@ == ps2
            &&& final(st).dropoffs@ == ds2
            &&& final(st).chargers@ == cs2
        }),
{
    match r.state {
        RobotState::Idle => {
            proof {
                lemma_first_free_some(st.pickups@);
            }
            match st.reserve(StationKind::Pickup) {
                Some(sid) => {
                    proof {
                        assert(old(st).pickups@.len() == old(st).pickups.len());
                    }
                    let p = st.pickups[sid.index].pos;
                    r.state = RobotState::MovingToPickup;
                    r.target = p;
                    r.reservation = Some(sid);
                },
                None => {},
            }
        },
        RobotState::MovingToPickup => {
            let d = distance_between(r.pos, r.target);
            if d < cfg.state_change_radius {
                r.state = RobotState::PickingUp;
                r.timers.work = 0;
            }
        },
        RobotState::PickingUp => {
            r.timers.work = r.timers.work + dt;
            if r.timers.work >= WORK_DURATION {
                match r.reservation {
                    Some(sid) => if matches!(sid.kind, StationKind::Pickup) {
                        st.release(sid);
                    },
                    None => {},
                }
                r.reservation = None;
                r.state = RobotState::WaitingForDropoff;
            }
        },
        RobotState::WaitingForDropoff => {
            proof {
                lemma_first_free_some(st.dropoffs@);
            }
            match st.reserve(StationKind::Dropoff) {
                Some(sid) => {
                    proof {
                        assert(old(st).dropoffs@.len() == old(st).dropoffs.len());
                    }
                    let p = st.dropoffs[sid.index].pos;
                    r.state = RobotState::MovingToDropoff;
                    r.target = p;
                    r.reservation = Some(sid);
                },
                None => {},
            }
        },
        RobotState::MovingToDropoff => {
            let d = distance_between(r.pos, r.target);
            if d < cfg.state_change_radius {
                r.state = RobotState::DroppingOff;
                r.timers.work = 0;
            }
        },
        RobotState::DroppingOff => {
            r.timers.work = r.timers.work + dt;
            if r.timers.work >= WORK_DURATION {
                match r.reservation {
                    Some(sid) => if matches!(sid.kind, StationKind::Dropoff) {
                        st.release(sid);
                    },
                    None => {},
                }
                r.reservation = None;
                r.state = RobotState::Idle;
            }
        },
        RobotState::WaitingForCharger => {
            proof {
                lemma_first_free_some(st.chargers@);
            }
            match st.reserve(StationKind::Charger) {
                Some(sid) => {
                    proof {
                        assert(old(st).chargers@.len() == old(st).chargers.len());
                    }
                    let p = st.chargers[sid.index].pos;
                    r.state = RobotState::MovingToCharger;
                    r.target = p;
                    r.reservation = Some(sid);
                },
                None => {},
            }
        },
        RobotState::MovingToCharger => {
            let d = distance_between(r.pos, r.target);
            if d < cfg.state_change_radius {
                r.state = RobotState::Charging;
                r.timers.charge = 0;
            }
        },
        RobotState::Charging => {
            r.timers.charge = r.timers.charge + dt;
            let gained = r.battery + 25 * dt;
            r.battery = if gained > BATTERY_MAX {
                BATTERY_MAX
            } else {
                gained
            };
            if r.timers.charge >= cfg.charging_time {
                match r.reservation {
                    Some(sid) => if matches!(sid.kind, StationKind::Charger) {
                        st.release(sid);
                    },
                    None => {},
                }
                match r.memory {
                    Some(m) => {
                        r.state = m.resume_state;
                        r.target = m.resume_target;
                        r.reservation = m.resume_reservation;
                    },
                    None => {
                        r.state = RobotState::Idle;
                        r.reservation = None;
                    },
                }
                r.memory = None;
            }
        },
        RobotState::Dead => {},
    }
}

} // verus!
