//! The world: configuration, robot table and station registry, the fixed
//! per-tick pass order, and the global well-formedness invariant — booking
//! exclusivity, battery bounds and reference validity — that every pass
//! preserves.

use crate::battery::{battery_step_one, battery_step_robot};
use crate::config::{SimulationConfig, BATTERY_MAX, MAX_DT, MAX_ROBOTS, MAX_STATIONS, WORK_DURATION};
use crate::geometry::{dist, in_coord_range, Vec2};
use crate::machine::{book, machine_step_one, machine_step_robot};
use crate::movement::{compute_moved_pos, moved_pos};
use crate::robot::{
    is_charging_related, robot_phys_ok, Robot, RobotState, RobotTimers, SavedMemory,
};
use crate::stations::{
    first_free, lemma_first_free_some, release_pool, Station, StationId, StationKind,
    StationRegistry,
};
use vstd::prelude::*;

verus! {

/// Whether a robot references a station, through its active reservation or
/// through the reservation saved across a charging detour.
pub open spec fn holds_ref(r: Robot, sid: StationId) -> bool {
    ||| r.reservation == Some(sid)
    ||| (r.memory matches Some(m) && m.resume_reservation == Some(sid))
}

/// [`holds_ref`] at an index of the robot table: the quantified form the
/// booking invariant is stated over.
pub open spec fn holds_at(robots: Seq<Robot>, i: int, sid: StationId) -> bool {
    holds_ref(robots[i], sid)
}

/// The pool a kind tag selects among the three tables.
pub open spec fn pool_of(
    ps: Seq<Station>,
    ds: Seq<Station>,
    cs: Seq<Station>,
    kind: StationKind,
) -> Seq<Station> {
    match kind {
        StationKind::Pickup => ps,
        StationKind::Dropoff => ds,
        StationKind::Charger => cs,
    }
}

/// Whether a station id names an entry of its table.
pub open spec fn sid_ok(
    ps: Seq<Station>,
    ds: Seq<Station>,
    cs: Seq<Station>,
    sid: StationId,
) -> bool {
    sid.index < pool_of(ps, ds, cs, sid.kind).len()
}

/// The station an id names.
pub open spec fn station_of(
    ps: Seq<Station>,
    ds: Seq<Station>,
    cs: Seq<Station>,
    sid: StationId,
) -> Station {
    pool_of(ps, ds, cs, sid.kind)[sid.index as int]
}

/// Booking exclusivity over the whole world: a station is booked exactly
/// when some robot references it, and no station is ever referenced by two
/// robots.
pub open spec fn booking_ok(
    robots: Seq<Robot>,
    ps: Seq<Station>,
    ds: Seq<Station>,
    cs: Seq<Station>,
) -> bool {
    &&& (forall|sid: StationId|
        sid_ok(ps, ds, cs, sid) && (#[trigger] station_of(ps, ds, cs, sid)).booked
            ==> exists|i: int| 0 <= i < robots.len() && holds_at(robots, i, sid))
    &&& (forall|i: int, sid: StationId|
        0 <= i < robots.len() && sid_ok(ps, ds, cs, sid) && #[trigger] holds_at(robots, i, sid)
            ==> station_of(ps, ds, cs, sid).booked)
    &&& (forall|i: int, j: int, sid: StationId|
        #![trigger holds_at(robots, i, sid), holds_at(robots, j, sid)]
        0 <= i < robots.len() && 0 <= j < robots.len() && i != j && holds_at(robots, i, sid)
            ==> !holds_at(robots, j, sid))
}

/// The saved task context is internally consistent: only resumable states,
/// with a saved reservation exactly matching the resume state's kind.
pub open spec fn mem_ok(
    m: SavedMemory,
    ps: Seq<Station>,
    ds: Seq<Station>,
    cs: Seq<Station>,
) -> bool {
    &&& in_coord_range(m.resume_target)
    &&& (m.resume_reservation matches Some(sid) ==> sid_ok(ps, ds, cs, sid))
    &&& match m.resume_state {
        RobotState::Idle | RobotState::WaitingForDropoff => m.resume_reservation is None,
        RobotState::MovingToPickup => m.resume_reservation matches Some(sid) && sid.kind
            == StationKind::Pickup,
        RobotState::MovingToDropoff => m.resume_reservation matches Some(sid) && sid.kind
            == StationKind::Dropoff,
        _ => false,
    }
}

/// Which references a robot may hold in each state: reservations name valid
/// stations of the kind the state works on, saved memory exists only during
/// a charging detour (or frozen on a dead robot), and a robot still waiting
/// for a charger holds exactly the reservation its memory saved.
pub open spec fn refs_ok(
    r: Robot,
    ps: Seq<Station>,
    ds: Seq<Station>,
    cs: Seq<Station>,
) -> bool {
    &&& (r.reservation matches Some(sid) ==> sid_ok(ps, ds, cs, sid))
    &&& (r.memory matches Some(m) ==> {
        &&& (is_charging_related(r.state) || r.state == RobotState::Dead)
        &&& mem_ok(m, ps, ds, cs)
    })
    &&& match r.state {
        RobotState::Idle | RobotState::WaitingForDropoff => r.reservation is None,
        RobotState::MovingToPickup | RobotState::PickingUp => r.reservation matches Some(sid)
            && sid.kind == StationKind::Pickup,
        RobotState::MovingToDropoff | RobotState::DroppingOff => r.reservation matches Some(sid)
            && sid.kind == StationKind::Dropoff,
        RobotState::MovingToCharger | RobotState::Charging => r.reservation matches Some(sid)
            && sid.kind == StationKind::Charger,
        RobotState::WaitingForCharger => match r.memory {
            Some(m) => r.reservation == m.resume_reservation,
            None => r.reservation is None,
        },
        RobotState::Dead => true,
    }
}

/// All stations of a pool lie in the coordinate range.
pub open spec fn pool_positions_ok(s: Seq<Station>) -> bool {
    forall|i: int| 0 <= i < s.len() ==> in_coord_range((#[trigger] s[i]).pos)
}

/// The full well-formedness invariant of a world state.
pub open spec fn wf_state(
    cfg: SimulationConfig,
    robots: Seq<Robot>,
    ps: Seq<Station>,
    ds: Seq<Station>,
    cs: Seq<Station>,
) -> bool {
    &&& cfg.valid()
    &&& robots.len() <= MAX_ROBOTS
    &&& ps.len() <= MAX_STATIONS
    &&& ds.len() <= MAX_STATIONS
    &&& cs.len() <= MAX_STATIONS
    &&& pool_positions_ok(ps)
    &&& pool_positions_ok(ds)
    &&& pool_positions_ok(cs)
    &&& (forall|i: int| 0 <= i < robots.len() ==> robot_phys_ok(cfg, #[trigger] robots[i]))
    &&& (forall|i: int| 0 <= i < robots.len() ==> refs_ok(#[trigger] robots[i], ps, ds, cs))
    &&& (forall|i: int| 0 <= i < robots.len() ==> (#[trigger] robots[i]).id == i as u64)
    &&& booking_ok(robots, ps, ds, cs)
}

/// Two robot values that reference exactly the same stations.
pub open spec fn same_refs(a: Robot, b: Robot) -> bool {
    forall|sid: StationId| #![trigger holds_ref(a, sid)] #![trigger holds_ref(b, sid)]
        holds_ref(a, sid) == holds_ref(b, sid)
}

/// Replacing robots by reference-equal values preserves the booking
/// invariant.
pub proof fn lemma_booking_same_refs_all(
    robots: Seq<Robot>,
    robots2: Seq<Robot>,
    ps: Seq<Station>,
    ds: Seq<Station>,
    cs: Seq<Station>,
)
    requires
        booking_ok(robots, ps, ds, cs),
        robots2.len() == robots.len(),
        forall|k: int| 0 <= k < robots.len() ==> same_refs(#[trigger] robots[k], robots2[k]),
    ensures
        booking_ok(robots2, ps, ds, cs),
{
    assert forall|sid: StationId|
        sid_ok(ps, ds, cs, sid) && (#[trigger] station_of(ps, ds, cs, sid)).booked implies exists|
        i: int,
    | 0 <= i < robots2.len() && holds_at(robots2, i, sid) by {
        let i = choose|i: int| 0 <= i < robots.len() && holds_at(robots, i, sid);
        assert(holds_ref(robots[i], sid));
        assert(holds_ref(robots2[i], sid));
        assert(holds_at(robots2, i, sid));
    }
    assert forall|i: int, sid: StationId|
        0 <= i < robots2.len() && sid_ok(ps, ds, cs, sid) && #[trigger] holds_at(
            robots2,
            i,
            sid,
        ) implies station_of(ps, ds, cs, sid).booked by {
        assert(holds_ref(robots[i], sid));
        assert(holds_at(robots, i, sid));
    }
    assert forall|i: int, j: int, sid: StationId|
        #![trigger holds_at(robots2, i, sid), holds_at(robots2, j, sid)]
        0 <= i < robots2.len() && 0 <= j < robots2.len() && i != j && holds_at(
            robots2,
            i,
            sid,
        ) implies !holds_at(robots2, j, sid) by {
        assert(holds_ref(robots[i], sid) == holds_ref(robots2[i], sid));
        assert(holds_ref(robots[j], sid) == holds_ref(robots2[j], sid));
        assert(holds_at(robots, i, sid));
        if holds_at(robots, j, sid) {
            assert(false);
        }
    }
}

/// The three pools with one station's booking flag replaced.
pub open spec fn set_booked(
    ps: Seq<Station>,
    ds: Seq<Station>,
    cs: Seq<Station>,
    sid: StationId,
    b: bool,
) -> (Seq<Station>, Seq<Station>, Seq<Station>) {
    let pool = pool_of(ps, ds, cs, sid.kind);
    let pool2 = pool.update(
        sid.index as int,
        Station { pos: pool[sid.index as int].pos, booked: b },
    );
    match sid.kind {
        StationKind::Pickup => (pool2, ds, cs),
        StationKind::Dropoff => (ps, pool2, cs),
        StationKind::Charger => (ps, ds, pool2),
    }
}

/// How the updated pools read back through `station_of` and `sid_ok`.
pub proof fn lemma_set_booked_station_of(
    ps: Seq<Station>,
    ds: Seq<Station>,
    cs: Seq<Station>,
    sid: StationId,
    b: bool,
)
    requires
        sid_ok(ps, ds, cs, sid),
    ensures
        ({
            let (p2, d2, c2) = set_booked(ps, ds, cs, sid, b);
            &&& p2.len() == ps.len()
            &&& d2.len() == ds.len()
            &&& c2.len() == cs.len()
            &&& forall|sid2: StationId|
                sid_ok(p2, d2, c2, sid2) == sid_ok(ps, ds, cs, sid2)
            &&& station_of(p2, d2, c2, sid) == (Station {
                pos: station_of(ps, ds, cs, sid).pos,
                booked: b,
            })
            &&& forall|sid2: StationId|
                sid2 != sid && sid_ok(ps, ds, cs, sid2) ==> #[trigger] station_of(p2, d2, c2, sid2)
                    == station_of(ps, ds, cs, sid2)
        }),
{
    let (p2, d2, c2) = set_booked(ps, ds, cs, sid, b);
    assert forall|sid2: StationId|
        sid2 != sid && sid_ok(ps, ds, cs, sid2) implies #[trigger] station_of(p2, d2, c2, sid2)
        == station_of(ps, ds, cs, sid2) by {
        if sid2.kind == sid.kind {
            assert(sid2.index != sid.index);
        }
    }
}

/// Booking a free station for a robot that adds exactly that reference
/// preserves the booking invariant.
pub proof fn lemma_booking_reserve(
    robots: Seq<Robot>,
    i: int,
    r2: Robot,
    ps: Seq<Station>,
    ds: Seq<Station>,
    cs: Seq<Station>,
    nsid: StationId,
)
    requires
        booking_ok(robots, ps, ds, cs),
        0 <= i < robots.len(),
        sid_ok(ps, ds, cs, nsid),
        !station_of(ps, ds, cs, nsid).booked,
        holds_ref(r2, nsid),
        forall|sid: StationId|
            sid != nsid ==> #[trigger] holds_ref(r2, sid) == holds_ref(robots[i], sid),
    ensures
        ({
            let (p2, d2, c2) = set_booked(ps, ds, cs, nsid, true);
            booking_ok(robots.update(i, r2), p2, d2, c2)
        }),
{
    let robots2 = robots.update(i, r2);
    let (p2, d2, c2) = set_booked(ps, ds, cs, nsid, true);
    lemma_set_booked_station_of(ps, ds, cs, nsid, true);
    assert forall|sid: StationId|
        sid_ok(p2, d2, c2, sid) && (#[trigger] station_of(p2, d2, c2, sid)).booked implies exists|
        k: int,
    | 0 <= k < robots2.len() && holds_at(robots2, k, sid) by {
        if sid == nsid {
            assert(holds_at(robots2, i, sid));
        } else {
            assert(station_of(ps, ds, cs, sid).booked);
            let k = choose|k: int| 0 <= k < robots.len() && holds_at(robots, k, sid);
            if k == i {
                assert(holds_ref(r2, sid) == holds_ref(robots[i], sid));
                assert(holds_at(robots2, i, sid));
            } else {
                assert(holds_at(robots2, k, sid));
            }
        }
    }
    assert forall|k: int, sid: StationId|
        0 <= k < robots2.len() && sid_ok(p2, d2, c2, sid) && #[trigger] holds_at(
            robots2,
            k,
            sid,
        ) implies station_of(p2, d2, c2, sid).booked by {
        if sid == nsid {
        } else {
            if k == i {
                assert(holds_ref(r2, sid) == holds_ref(robots[i], sid));
                assert(holds_at(robots, k, sid));
            } else {
                assert(holds_at(robots, k, sid));
            }
            assert(station_of(ps, ds, cs, sid).booked);
        }
    }
    assert forall|k: int, j: int, sid: StationId|
        #![trigger holds_at(robots2, k, sid), holds_at(robots2, j, sid)]
        0 <= k < robots2.len() && 0 <= j < robots2.len() && k != j && holds_at(
            robots2,
            k,
            sid,
        ) implies !holds_at(robots2, j, sid) by {
        if holds_at(robots2, j, sid) {
            if sid == nsid {
                let other: int = if k == i {
                    j
                } else {
                    k
                };
                assert(other != i);
                assert(holds_at(robots, other, sid));
                assert(station_of(ps, ds, cs, sid).booked);
                assert(false);
            } else {
                assert(holds_at(robots, k, sid));
                assert(holds_at(robots, j, sid));
                assert(false);
            }
        }
    }
}

/// Releasing the one reference to a booked station, by the robot that holds
/// it, preserves the booking invariant.
pub proof fn lemma_booking_release(
    robots: Seq<Robot>,
    i: int,
    r2: Robot,
    ps: Seq<Station>,
    ds: Seq<Station>,
    cs: Seq<Station>,
    rel: StationId,
)
    requires
        booking_ok(robots, ps, ds, cs),
        0 <= i < robots.len(),
        sid_ok(ps, ds, cs, rel),
        holds_ref(robots[i], rel),
        !holds_ref(r2, rel),
        forall|sid: StationId|
            sid != rel ==> #[trigger] holds_ref(r2, sid) == holds_ref(robots[i], sid),
    ensures
        ({
            let (p2, d2, c2) = set_booked(ps, ds, cs, rel, false);
            booking_ok(robots.update(i, r2), p2, d2, c2)
        }),
{
    let robots2 = robots.update(i, r2);
    let (p2, d2, c2) = set_booked(ps, ds, cs, rel, false);
    lemma_set_booked_station_of(ps, ds, cs, rel, false);
    assert(holds_at(robots, i, rel));
    assert forall|sid: StationId|
        sid_ok(p2, d2, c2, sid) && (#[trigger] station_of(p2, d2, c2, sid)).booked implies exists|
        k: int,
    | 0 <= k < robots2.len() && holds_at(robots2, k, sid) by {
        assert(sid != rel);
        assert(station_of(ps, ds, cs, sid).booked);
        let k = choose|k: int| 0 <= k < robots.len() && holds_at(robots, k, sid);
        if k == i {
            assert(holds_ref(r2, sid) == holds_ref(robots[i], sid));
            assert(holds_at(robots2, i, sid));
        } else {
            assert(holds_at(robots2, k, sid));
        }
    }
    assert forall|k: int, sid: StationId|
        0 <= k < robots2.len() && sid_ok(p2, d2, c2, sid) && #[trigger] holds_at(
            robots2,
            k,
            sid,
        ) implies station_of(p2, d2, c2, sid).booked by {
        if sid == rel {
            if k == i {
                assert(false);
            } else {
                assert(holds_at(robots, k, sid));
                assert(holds_at(robots, i, sid));
                assert(false);
            }
        } else {
            if k == i {
                assert(holds_ref(r2, sid) == holds_ref(robots[i], sid));
            }
            assert(holds_at(robots, k, sid));
            assert(station_of(ps, ds, cs, sid).booked);
        }
    }
    assert forall|k: int, j: int, sid: StationId|
        #![trigger holds_at(robots2, k, sid), holds_at(robots2, j, sid)]
        0 <= k < robots2.len() && 0 <= j < robots2.len() && k != j && holds_at(
            robots2,
            k,
            sid,
        ) implies !holds_at(robots2, j, sid) by {
        if holds_at(robots2, j, sid) {
            if k == i {
                assert(sid != rel);
                assert(holds_ref(r2, sid) == holds_ref(robots[i], sid));
            }
            if j == i {
                assert(sid != rel);
                assert(holds_ref(r2, sid) == holds_ref(robots[i], sid));
            }
            assert(holds_at(robots, k, sid));
            assert(holds_at(robots, j, sid));
            assert(false);
        }
    }
}

/// Reference validity depends on the pools only through their lengths.
pub proof fn lemma_refs_ok_same_lens(
    r: Robot,
    ps: Seq<Station>,
    ds: Seq<Station>,
    cs: Seq<Station>,
    p2: Seq<Station>,
    d2: Seq<Station>,
    c2: Seq<Station>,
)
    requires
        refs_ok(r, ps, ds, cs),
        p2.len() == ps.len(),
        d2.len() == ds.len(),
        c2.len() == cs.len(),
    ensures
        refs_ok(r, p2, d2, c2),
{
    assert forall|sid: StationId|
        sid_ok(ps, ds, cs, sid) implies sid_ok(p2, d2, c2, sid) by {
        match sid.kind {
            StationKind::Pickup => {},
            StationKind::Dropoff => {},
            StationKind::Charger => {},
        }
    }
}

/// Replacing one robot by a reference-equal value preserves the booking
/// invariant.
pub proof fn lemma_booking_update_same(
    robots: Seq<Robot>,
    i: int,
    r2: Robot,
    ps: Seq<Station>,
    ds: Seq<Station>,
    cs: Seq<Station>,
)
    requires
        booking_ok(robots, ps, ds, cs),
        0 <= i < robots.len(),
        same_refs(robots[i], r2),
    ensures
        booking_ok(robots.update(i, r2), ps, ds, cs),
{
    let robots2 = robots.update(i, r2);
    assert forall|k: int| 0 <= k < robots.len() implies same_refs(
        #[trigger] robots[k],
        robots2[k],
    ) by {
        if k == i {
            assert(robots2[k] == r2);
        } else {
            assert(robots2[k] == robots[k]);
            assert forall|sid: StationId| #![trigger holds_ref(robots[k], sid)]
                holds_ref(robots[k], sid) == holds_ref(robots2[k], sid) by {}
        }
    }
    lemma_booking_same_refs_all(robots, robots2, ps, ds, cs);
}

/// Assembles the well-formedness of an updated world from its per-robot
/// and per-pool pieces.
proof fn lemma_wf_assemble(
    cfg: SimulationConfig,
    robots: Seq<Robot>,
    i: int,
    r2: Robot,
    ps: Seq<Station>,
    ds: Seq<Station>,
    cs: Seq<Station>,
    p2: Seq<Station>,
    d2: Seq<Station>,
    c2: Seq<Station>,
)
    requires
        wf_state(cfg, robots, ps, ds, cs),
        0 <= i < robots.len(),
        p2.len() == ps.len(),
        d2.len() == ds.len(),
        c2.len() == cs.len(),
        pool_positions_ok(p2),
        pool_positions_ok(d2),
        pool_positions_ok(c2),
        booking_ok(robots.update(i, r2), p2, d2, c2),
        robot_phys_ok(cfg, r2),
        refs_ok(r2, p2, d2, c2),
        r2.id == robots[i].id,
    ensures
        wf_state(cfg, robots.update(i, r2), p2, d2, c2),
{
    let robots2 = robots.update(i, r2);
    assert forall|j: int| 0 <= j < robots2.len() implies robot_phys_ok(
        cfg,
        #[trigger] robots2[j],
    ) by {
        if j != i {
            assert(robots2[j] == robots[j]);
            assert(robot_phys_ok(cfg, robots[j]));
        }
    }
    assert forall|j: int| 0 <= j < robots2.len() implies refs_ok(
        #[trigger] robots2[j],
        p2,
        d2,
        c2,
    ) by {
        if j != i {
            assert(robots2[j] == robots[j]);
            assert(refs_ok(robots[j], ps, ds, cs));
            lemma_refs_ok_same_lens(robots[j], ps, ds, cs, p2, d2, c2);
        }
    }
    assert forall|j: int| 0 <= j < robots2.len() implies (#[trigger] robots2[j]).id
        == j as u64 by {
        if j != i {
            assert(robots2[j] == robots[j]);
        } else {
            assert(robots2[j] == r2);
        }
    }
}

/// One state-machine step on any robot of a well-formed world keeps the
/// world well-formed.
pub proof fn lemma_machine_step_wf(
    cfg: SimulationConfig,
    robots: Seq<Robot>,
    ps: Seq<Station>,
    ds: Seq<Station>,
    cs: Seq<Station>,
    dt: i64,
    i: int,
)
    requires
        wf_state(cfg, robots, ps, ds, cs),
        0 <= i < robots.len(),
        0 < dt <= MAX_DT,
    ensures
        ({
            let (r2, p2, d2, c2) = machine_step_robot(cfg, robots[i], ps, ds, cs, dt);
            wf_state(cfg, robots.update(i, r2), p2, d2, c2)
        }),
{
    let r = robots[i];
    let (r2, p2, d2, c2) = machine_step_robot(cfg, r, ps, ds, cs, dt);
    let robots2 = robots.update(i, r2);
    assert(robot_phys_ok(cfg, r));
    assert(refs_ok(r, ps, ds, cs));
    match r.state {
        RobotState::Idle => match first_free(ps) {
            Some(k) => {
                lemma_first_free_some(ps);
                let nsid = StationId { kind: StationKind::Pickup, index: k as usize };
                assert(nsid.index as int == k);
                let sb = set_booked(ps, ds, cs, nsid, true);
                assert(sb.0 == book(ps, k));
                assert(r.memory is None);
                assert forall|sid: StationId| sid != nsid implies #[trigger] holds_ref(r2, sid)
                    == holds_ref(r, sid) by {}
                lemma_booking_reserve(robots, i, r2, ps, ds, cs, nsid);
                assert forall|idx: int| 0 <= idx < p2.len() implies in_coord_range(
                    (#[trigger] p2[idx]).pos,
                ) by {
                    if idx != k {
                        assert(p2[idx] == ps[idx]);
                    } else {
                        assert(p2[idx].pos == ps[k].pos);
                    }
                }
                assert(in_coord_range(ps[k].pos));
                lemma_wf_assemble(cfg, robots, i, r2, ps, ds, cs, p2, d2, c2);
            },
            None => {
                assert(robots2 =~= robots);
            },
        },
        RobotState::WaitingForDropoff => match first_free(ds) {
            Some(k) => {
                lemma_first_free_some(ds);
                let nsid = StationId { kind: StationKind::Dropoff, index: k as usize };
                assert(nsid.index as int == k);
                let sb = set_booked(ps, ds, cs, nsid, true);
                assert(sb.1 == book(ds, k));
                assert(r.memory is None);
                assert forall|sid: StationId| sid != nsid implies #[trigger] holds_ref(r2, sid)
                    == holds_ref(r, sid) by {}
                lemma_booking_reserve(robots, i, r2, ps, ds, cs, nsid);
                assert forall|idx: int| 0 <= idx < d2.len() implies in_coord_range(
                    (#[trigger] d2[idx]).pos,
                ) by {
                    if idx != k {
                        assert(d2[idx] == ds[idx]);
                    } else {
                        assert(d2[idx].pos == ds[k].pos);
                    }
                }
                assert(in_coord_range(ds[k].pos));
                lemma_wf_assemble(cfg, robots, i, r2, ps, ds, cs, p2, d2, c2);
            },
            None => {
                assert(robots2 =~= robots);
            },
        },
        RobotState::WaitingForCharger => match first_free(cs) {
            Some(k) => {
                lemma_first_free_some(cs);
                let nsid = StationId { kind: StationKind::Charger, index: k as usize };
                assert(nsid.index as int == k);
                let sb = set_booked(ps, ds, cs, nsid, true);
                assert(sb.2 == book(cs, k));
                assert forall|sid: StationId| sid != nsid implies #[trigger] holds_ref(r2, sid)
                    == holds_ref(r, sid) by {
                    match r.memory {
                        Some(m) => {
                            assert(r.reservation == m.resume_reservation);
                        },
                        None => {
                            assert(r.reservation is None);
                        },
                    }
                }
                assert(holds_ref(r2, nsid));
                lemma_booking_reserve(robots, i, r2, ps, ds, cs, nsid);
                assert forall|idx: int| 0 <= idx < c2.len() implies in_coord_range(
                    (#[trigger] c2[idx]).pos,
                ) by {
                    if idx != k {
                        assert(c2[idx] == cs[idx]);
                    } else {
                        assert(c2[idx].pos == cs[k].pos);
                    }
                }
                assert(in_coord_range(cs[k].pos));
                lemma_wf_assemble(cfg, robots, i, r2, ps, ds, cs, p2, d2, c2);
            },
            None => {
                assert(robots2 =~= robots);
            },
        },
        RobotState::MovingToPickup => {
            if dist(r.pos, r.target) < cfg.state_change_radius {
                assert forall|sid: StationId| #![trigger holds_ref(r, sid)]
                    holds_ref(r, sid) == holds_ref(r2, sid) by {}
                lemma_booking_update_same(robots, i, r2, ps, ds, cs);
                lemma_wf_assemble(cfg, robots, i, r2, ps, ds, cs, p2, d2, c2);
            } else {
                assert(robots2 =~= robots);
            }
        },
        RobotState::MovingToDropoff => {
            if dist(r.pos, r.target) < cfg.state_change_radius {
                assert forall|sid: StationId| #![trigger holds_ref(r, sid)]
                    holds_ref(r, sid) == holds_ref(r2, sid) by {}
                lemma_booking_update_same(robots, i, r2, ps, ds, cs);
                lemma_wf_assemble(cfg, robots, i, r2, ps, ds, cs, p2, d2, c2);
            } else {
                assert(robots2 =~= robots);
            }
        },
        RobotState::MovingToCharger => {
            if dist(r.pos, r.target) < cfg.state_change_radius {
                assert forall|sid: StationId| #![trigger holds_ref(r, sid)]
                    holds_ref(r, sid) == holds_ref(r2, sid) by {}
                lemma_booking_update_same(robots, i, r2, ps, ds, cs);
                lemma_wf_assemble(cfg, robots, i, r2, ps, ds, cs, p2, d2, c2);
            } else {
                assert(robots2 =~= robots);
            }
        },
        RobotState::PickingUp => {
            let w = (r.timers.work + dt) as i64;
            if w >= WORK_DURATION {
                match r.reservation {
                    Some(rel) => {
                        assert(rel.kind == StationKind::Pickup);
                        assert(sid_ok(ps, ds, cs, rel));
                        let sb = set_booked(ps, ds, cs, rel, false);
                        assert(sb.0 == release_pool(ps, rel, StationKind::Pickup));
                        assert(r.memory is None);
                        assert(holds_ref(r, rel));
                        assert(!holds_ref(r2, rel));
                        assert forall|sid: StationId| sid != rel implies #[trigger] holds_ref(
                            r2,
                            sid,
                        ) == holds_ref(r, sid) by {}
                        lemma_booking_release(robots, i, r2, ps, ds, cs, rel);
                        assert forall|idx: int| 0 <= idx < p2.len() implies in_coord_range(
                            (#[trigger] p2[idx]).pos,
                        ) by {
                            if idx != rel.index as int {
                                assert(p2[idx] == ps[idx]);
                            } else {
                                assert(p2[idx].pos == ps[idx].pos);
                            }
                        }
                        lemma_wf_assemble(cfg, robots, i, r2, ps, ds, cs, p2, d2, c2);
                    },
                    None => {
                        assert(false);
                    },
                }
            } else {
                assert forall|sid: StationId| #![trigger holds_ref(r, sid)]
                    holds_ref(r, sid) == holds_ref(r2, sid) by {}
                lemma_booking_update_same(robots, i, r2, ps, ds, cs);
                lemma_wf_assemble(cfg, robots, i, r2, ps, ds, cs, p2, d2, c2);
            }
        },
        RobotState::DroppingOff => {
            let w = (r.timers.work + dt) as i64;
            if w >= WORK_DURATION {
                match r.reservation {
                    Some(rel) => {
                        assert(rel.kind == StationKind::Dropoff);
                        assert(sid_ok(ps, ds, cs, rel));
                        let sb = set_booked(ps, ds, cs, rel, false);
                        assert(sb.1 == release_pool(ds, rel, StationKind::Dropoff));
                        assert(r.memory is None);
                        assert(holds_ref(r, rel));
                        assert(!holds_ref(r2, rel));
                        assert forall|sid: StationId| sid != rel implies #[trigger] holds_ref(
                            r2,
                            sid,
                        ) == holds_ref(r, sid) by {}
                        lemma_booking_release(robots, i, r2, ps, ds, cs, rel);
                        assert forall|idx: int| 0 <= idx < d2.len() implies in_coord_range(
                            (#[trigger] d2[idx]).pos,
                        ) by {
                            if idx != rel.index as int {
                                assert(d2[idx] == ds[idx]);
                            } else {
                                assert(d2[idx].pos == ds[idx].pos);
                            }
                        }
                        lemma_wf_assemble(cfg, robots, i, r2, ps, ds, cs, p2, d2, c2);
                    },
                    None => {
                        assert(false);
                    },
                }
            } else {
                assert forall|sid: StationId| #![trigger holds_ref(r, sid)]
                    holds_ref(r, sid) == holds_ref(r2, sid) by {}
                lemma_booking_update_same(robots, i, r2, ps, ds, cs);
                lemma_wf_assemble(cfg, robots, i, r2, ps, ds, cs, p2, d2, c2);
            }
        },
        RobotState::Charging => {
            let c = (r.timers.charge + dt) as i64;
            if c >= cfg.charging_time {
                match r.reservation {
                    Some(rel) => {
                        assert(rel.kind == StationKind::Charger);
                        assert(sid_ok(ps, ds, cs, rel));
                        let sb = set_booked(ps, ds, cs, rel, false);
                        assert(sb.2 == release_pool(cs, rel, StationKind::Charger));
                        assert(holds_ref(r, rel));
                        match r.memory {
                            Some(m) => {
                                assert(mem_ok(m, ps, ds, cs));
                                assert(r2.reservation == m.resume_reservation);
                                assert(!holds_ref(r2, rel));
                                assert forall|sid: StationId| sid != rel implies #[trigger] holds_ref(
                                    r2,
                                    sid,
                                ) == holds_ref(r, sid) by {}
                            },
                            None => {
                                assert(!holds_ref(r2, rel));
                                assert forall|sid: StationId| sid != rel implies #[trigger] holds_ref(
                                    r2,
                                    sid,
                                ) == holds_ref(r, sid) by {}
                            },
                        }
                        lemma_booking_release(robots, i, r2, ps, ds, cs, rel);
                        assert forall|idx: int| 0 <= idx < c2.len() implies in_coord_range(
                            (#[trigger] c2[idx]).pos,
                        ) by {
                            if idx != rel.index as int {
                                assert(c2[idx] == cs[idx]);
                            } else {
                                assert(c2[idx].pos == cs[idx].pos);
                            }
                        }
                        lemma_wf_assemble(cfg, robots, i, r2, ps, ds, cs, p2, d2, c2);
                    },
                    None => {
                        assert(false);
                    },
                }
            } else {
                assert forall|sid: StationId| #![trigger holds_ref(r, sid)]
                    holds_ref(r, sid) == holds_ref(r2, sid) by {}
                lemma_booking_update_same(robots, i, r2, ps, ds, cs);
                lemma_wf_assemble(cfg, robots, i, r2, ps, ds, cs, p2, d2, c2);
            }
        },
        RobotState::Dead => {
            assert(robots2 =~= robots);
        },
    }
}

/// One battery step on any robot of a well-formed world keeps the world
/// well-formed.
pub proof fn lemma_battery_step_wf(
    cfg: SimulationConfig,
    robots: Seq<Robot>,
    ps: Seq<Station>,
    ds: Seq<Station>,
    cs: Seq<Station>,
    dt: i64,
    i: int,
)
    requires
        wf_state(cfg, robots, ps, ds, cs),
        0 <= i < robots.len(),
        0 < dt <= MAX_DT,
    ensures
        wf_state(cfg, robots.update(i, battery_step_robot(cfg, robots[i], dt)), ps, ds, cs),
{
    let r = robots[i];
    let r2 = battery_step_robot(cfg, r, dt);
    let robots2 = robots.update(i, r2);
    assert(robot_phys_ok(cfg, r));
    assert(refs_ok(r, ps, ds, cs));
    if r.state == RobotState::Dead || r.state == RobotState::Charging {
        assert(robots2 =~= robots);
    } else {
        let rate = if crate::robot::is_moving_state(r.state) {
            cfg.drain_move
        } else {
            cfg.drain_idle
        };
        crate::battery::lemma_drain_bounds(rate, dt);
        assert forall|sid: StationId| #![trigger holds_ref(r, sid)]
            holds_ref(r, sid) == holds_ref(r2, sid) by {
            if !(r2.state == RobotState::Dead) && r2.state == RobotState::WaitingForCharger
                && r.state != RobotState::WaitingForCharger {
            }
        }
        lemma_booking_update_same(robots, i, r2, ps, ds, cs);
        lemma_wf_assemble(cfg, robots, i, r2, ps, ds, cs, ps, ds, cs);
    }
}

/// The positions snapshot the movement pass works from: all robots' ids
/// and positions as they stood before any movement this tick.
pub open spec fn snapshot_of(robots: Seq<Robot>) -> Seq<(u64, Vec2)> {
    robots.map_values(|r: Robot| (r.id, r.pos))
}

/// All robots after the movement pass: each displaced from the common
/// snapshot, everything else unchanged.
pub open spec fn moved_robots(cfg: SimulationConfig, robots: Seq<Robot>, dt: i64) -> Seq<Robot> {
    robots.map_values(
        |r: Robot| Robot { pos: moved_pos(cfg, r, snapshot_of(robots), dt), ..r },
    )
}

/// All robots after the battery pass.
pub open spec fn drained_robots(cfg: SimulationConfig, robots: Seq<Robot>, dt: i64) -> Seq<
    Robot,
> {
    robots.map_values(|r: Robot| battery_step_robot(cfg, r, dt))
}

/// The state-machine pass folded over the first `n` robots in table order:
/// later robots see the station bookings earlier robots made this tick.
pub open spec fn machine_pass(
    cfg: SimulationConfig,
    robots: Seq<Robot>,
    ps: Seq<Station>,
    ds: Seq<Station>,
    cs: Seq<Station>,
    dt: i64,
    n: int,
) -> (Seq<Robot>, Seq<Station>, Seq<Station>, Seq<Station>)
    decreases n,
{
    if n <= 0 {
        (robots, ps, ds, cs)
    } else {
        let prev = machine_pass(cfg, robots, ps, ds, cs, dt, n - 1);
        let step = machine_step_robot(cfg, prev.0[n - 1], prev.1, prev.2, prev.3, dt);
        (prev.0.update(n - 1, step.0), step.1, step.2, step.3)
    }
}

/// The simulation world: the immutable configuration, the robot table and
/// the station registry.
pub struct World {
    pub config: SimulationConfig,
    pub robots: Vec<Robot>,
    pub stations: StationRegistry,
}

impl World {
    /// The global well-formedness invariant, established by
    /// [`setup_simulation`] and preserved by every pass of [`World::tick`].
    pub open spec fn wf(self) -> bool {
        wf_state(
            self.config,
            self.robots@,
            self.stations.pickups@,
            self.stations.dropoffs@,
            self.stations.chargers@,
        )
    }

    /// The movement pass: snapshots all robot positions, then displaces
    /// every robot in a moving state by its blended direction, as
    /// [`moved_pos`] states. Stations, reservations, batteries and states
    /// are untouched.
    pub fn movement_system(&mut self, dt: i64)
        requires
            old(self).wf(),
            0 < dt <= MAX_DT,
        ensures
            final(self).wf(),
            final(self).config == old(self).config,
            final(self).stations.pickups@ == old(self).stations.pickups@,
            final(self).stations.dropoffs@ == old(self).stations.dropoffs@,
            final(self).stations.chargers@ == old(self).stations.chargers@,
            final(self).robots@ == moved_robots(old(self).config, old(self).robots@, dt),
    {
        let n = self.robots.len();
        let mut snap: Vec<(u64, Vec2)> = Vec::new();
        let mut i: usize = 0;
        while i < n
            invariant
                i <= n,
                n == self.robots@.len(),
                *self == *old(self),
                snap@.len() == i,
                forall|j: int|
                    0 <= j < i ==> snap@[j] == (self.robots@[j].id, self.robots@[j].pos),
            decreases n - i,
        {
            let r = self.robots[i];
            snap.push((r.id, r.pos));
            i = i + 1;
        }
        proof {
            assert(snap@ =~= snapshot_of(old(self).robots@));
        }
        let mut i: usize = 0;
        while i < n
            invariant
                i <= n,
                0 < dt <= MAX_DT,
                old(self).wf(),
                n == self.robots@.len(),
                n == old(self).robots@.len(),
                self.config == old(self).config,
                self.stations.pickups@ == old(self).stations.pickups@,
                self.stations.dropoffs@ == old(self).stations.dropoffs@,
                self.stations.chargers@ == old(self).stations.chargers@,
                snap@ == snapshot_of(old(self).robots@),
                wf_state(
                    self.config,
                    self.robots@,
                    self.stations.pickups@,
                    self.stations.dropoffs@,
                    self.stations.chargers@,
                ),
                forall|j: int|
                    i <= j < n ==> #[trigger] self.robots@[j] == old(self).robots@[j],
                forall|j: int|
                    0 <= j < i ==> #[trigger] self.robots@[j] == (Robot {
                        pos: moved_pos(
                            old(self).config,
                            old(self).robots@[j],
                            snapshot_of(old(self).robots@),
                            dt,
                        ),
                        ..old(self).robots@[j]
                    }),
            decreases n - i,
        {
            proof {
                assert(robot_phys_ok(self.config, self.robots@[i as int]));
                assert forall|k: int| 0 <= k < snap@.len() implies in_coord_range(
                    (#[trigger] snap@[k]).1,
                ) by {
                    assert(robot_phys_ok(old(self).config, old(self).robots@[k]));
                }
            }
            let r = self.robots[i];
            let p = compute_moved_pos(&self.config, &r, &snap, dt);
            let r2 = Robot { pos: p, ..r };
            proof {
                assert forall|sid: StationId| #![trigger holds_ref(r, sid)]
                    holds_ref(r, sid) == holds_ref(r2, sid) by {}
                lemma_booking_update_same(
                    self.robots@,
                    i as int,
                    r2,
                    self.stations.pickups@,
                    self.stations.dropoffs@,
                    self.stations.chargers@,
                );
                lemma_wf_assemble(
                    self.config,
                    self.robots@,
                    i as int,
                    r2,
                    self.stations.pickups@,
                    self.stations.dropoffs@,
                    self.stations.chargers@,
                    self.stations.pickups@,
                    self.stations.dropoffs@,
                    self.stations.chargers@,
                );
            }
            self.robots.set(i, r2);
            i = i + 1;
        }
        proof {
            assert(self.robots@ =~= moved_robots(old(self).config, old(self).robots@, dt));
        }
    }

    /// The state-machine pass: each robot takes one step of the transition
    /// table, in table order, so that a robot processed earlier claims a
    /// contended station first and later robots in the same tick see it as
    /// booked — exactly the fold [`machine_pass`] states.
    pub fn robot_state_machine(&mut self, dt: i64)
        requires
            old(self).wf(),
            0 < dt <= MAX_DT,
        ensures
            final(self).wf(),
            final(self).config == old(self).config,
            ({
                let fold = machine_pass(
                    old(self).config,
                    old(self).robots@,
                    old(self).stations.pickups@,
                    old(self).stations.dropoffs@,
                    old(self).stations.chargers@,
                    dt,
                    old(self).robots@.len() as int,
                );
                &&& final(self).robots@ == fold.0
                &&& final(self).stations.pickups@ == fold.1
                &&& final(self).stations.dropoffs@ == fold.2
                &&& final(self).stations.chargers@ == fold.3
            }),
    {
        let n = self.robots.len();
        let mut i: usize = 0;
        while i < n
            invariant
                i <= n,
                0 < dt <= MAX_DT,
                n == self.robots@.len(),
                self.config == old(self).config,
                wf_state(
                    self.config,
                    self.robots@,
                    self.stations.pickups@,
                    self.stations.dropoffs@,
                    self.stations.chargers@,
                ),
                ({
                    let fold = machine_pass(
                        old(self).config,
                        old(self).robots@,
                        old(self).stations.pickups@,
                        old(self).stations.dropoffs@,
                        old(self).stations.chargers@,
                        dt,
                        i as int,
                    );
                    &&& self.robots@ == fold.0
                    &&& self.stations.pickups@ == fold.1
                    &&& self.stations.dropoffs@ == fold.2
                    &&& self.stations.chargers@ == fold.3
                }),
            decreases n - i,
        {
            proof {
                lemma_machine_step_wf(
                    self.config,
                    self.robots@,
                    self.stations.pickups@,
                    self.stations.dropoffs@,
                    self.stations.chargers@,
                    dt,
                    i as int,
                );
            }
            let mut r = self.robots[i];
            machine_step_one(&self.config, &mut r, &mut self.stations, dt);
            self.robots.set(i, r);
            i = i + 1;
        }
    }

    /// The battery pass: every robot drains, dies or is interrupted as
    /// [`battery_step_robot`] states, independently of the others. It runs
    /// strictly after the state machine, so its interrupt overrides the
    /// state set earlier in the same tick.
    pub fn battery_system(&mut self, dt: i64)
        requires
            old(self).wf(),
            0 < dt <= MAX_DT,
        ensures
            final(self).wf(),
            final(self).config == old(self).config,
            final(self).stations.pickups@ == old(self).stations.pickups@,
            final(self).stations.dropoffs@ == old(self).stations.dropoffs@,
            final(self).stations.chargers@ == old(self).stations.chargers@,
            final(self).robots@ == drained_robots(old(self).config, old(self).robots@, dt),
    {
        let n = self.robots.len();
        let mut i: usize = 0;
        while i < n
            invariant
                i <= n,
                0 < dt <= MAX_DT,
                n == self.robots@.len(),
                self.config == old(self).config,
                self.stations.pickups@ == old(self).stations.pickups@,
                self.stations.dropoffs@ == old(self).stations.dropoffs@,
                self.stations.chargers@ == old(self).stations.chargers@,
                wf_state(
                    self.config,
                    self.robots@,
                    self.stations.pickups@,
                    self.stations.dropoffs@,
                    self.stations.chargers@,
                ),
                forall|j: int|
                    i <= j < n ==> #[trigger] self.robots@[j] == old(self).robots@[j],
                forall|j: int|
                    0 <= j < i ==> #[trigger] self.robots@[j] == battery_step_robot(
                        old(self).config,
                        old(self).robots@[j],
                        dt,
                    ),
            decreases n - i,
        {
            proof {
                lemma_battery_step_wf(
                    self.config,
                    self.robots@,
                    self.stations.pickups@,
                    self.stations.dropoffs@,
                    self.stations.chargers@,
                    dt,
                    i as int,
                );
            }
            let mut r = self.robots[i];
            battery_step_one(&self.config, &mut r, dt);
            self.robots.set(i, r);
            i = i + 1;
        }
        proof {
            assert(self.robots@ =~= drained_robots(old(self).config, old(self).robots@, dt));
        }
    }

    /// One simulation tick, in the fixed order the kernel requires:
    /// movement first, from a snapshot of last tick's positions; then the
    /// state machine; then the battery model, whose interrupt overrides
    /// the state the machine just set.
    pub fn tick(&mut self, dt: i64)
        requires
            old(self).wf(),
            0 < dt <= MAX_DT,
        ensures
            final(self).wf(),
            final(self).config == old(self).config,
            ({
                let cfg = old(self).config;
                let moved = moved_robots(cfg, old(self).robots@, dt);
                let fold = machine_pass(
                    cfg,
                    moved,
                    old(self).stations.pickups@,
                    old(self).stations.dropoffs@,
                    old(self).stations.chargers@,
                    dt,
                    old(self).robots@.len() as int,
                );
                &&& final(self).robots@ == drained_robots(cfg, fold.0, dt)
                &&& final(self).stations.pickups@ == fold.1
                &&& final(self).stations.dropoffs@ == fold.2
                &&& final(self).stations.chargers@ == fold.3
            }),
    {
        proof {
            assert(moved_robots(old(self).config, old(self).robots@, dt).len()
                == old(self).robots@.len());
        }
        self.movement_system(dt);
        self.robot_state_machine(dt);
        self.battery_system(dt);
    }
}

/// The robot record the simulation starts each robot with: robots stand in
/// a row at hundred-unit intervals, idle, with a full battery.
pub open spec fn initial_robot(cfg: SimulationConfig, i: int) -> Robot {
    Robot {
        id: i as u64,
        pos: Vec2 { x: (100_000 * i) as i64, y: 50_000 },
        speed: cfg.robot_speed,
        target: Vec2 { x: 0, y: 0 },
        state: RobotState::Idle,
        timers: RobotTimers { work: 0, charge: 0 },
        battery: BATTERY_MAX,
        reservation: None,
        memory: None,
    }
}

/// One station table from its configured positions, all unbooked.
fn make_stations(positions: &Vec<Vec2>) -> (v: Vec<Station>)
    ensures
        v@.len() == positions@.len(),
        forall|i: int|
            0 <= i < v@.len() ==> v@[i] == (Station { pos: positions@[i], booked: false }),
{
    let n = positions.len();
    let mut v: Vec<Station> = Vec::new();
    let mut i: usize = 0;
    while i < n
        invariant
            i <= n,
            n == positions@.len(),
            v@.len() == i,
            forall|j: int|
                0 <= j < i ==> v@[j] == (Station { pos: positions@[j], booked: false }),
        decreases n - i,
    {
        let p = positions[i];
        v.push(Station { pos: p, booked: false });
        i = i + 1;
    }
    v
}

/// Builds the initial world from a configuration: one station per listed
/// position with its booking flag clear, and `robot_count` idle robots
/// with full batteries, standing in a row.
pub fn setup_simulation(config: SimulationConfig) -> (w: World)
    requires
        config.valid(),
    ensures
        w.wf(),
        w.config == config,
        w.robots@.len() == config.robot_count,
        forall|i: int|
            0 <= i < config.robot_count ==> w.robots@[i] == initial_robot(config, i),
        w.stations.pickups@.len() == config.pickup_stations@.len(),
        w.stations.dropoffs@.len() == config.dropoff_stations@.len(),
        w.stations.chargers@.len() == config.charger_stations@.len(),
        forall|i: int|
            0 <= i < config.pickup_stations@.len() ==> w.stations.pickups@[i] == (Station {
                pos: config.pickup_stations@[i],
                booked: false,
            }),
        forall|i: int|
            0 <= i < config.dropoff_stations@.len() ==> w.stations.dropoffs@[i] == (Station {
                pos: config.dropoff_stations@[i],
                booked: false,
            }),
        forall|i: int|
            0 <= i < config.charger_stations@.len() ==> w.stations.chargers@[i] == (Station {
                pos: config.charger_stations@[i],
                booked: false,
            }),
{
    let pickups = make_stations(&config.pickup_stations);
    let dropoffs = make_stations(&config.dropoff_stations);
    let chargers = make_stations(&config.charger_stations);
    let n = config.robot_count;
    let mut robots: Vec<Robot> = Vec::new();
    let mut i: usize = 0;
    while i < n
        invariant
            i <= n,
            n == config.robot_count,
            config.valid(),
            robots@.len() == i,
            forall|j: int| 0 <= j < i ==> robots@[j] == initial_robot(config, j),
        decreases n - i,
    {
        let x = (i as i64) * 100_000;
        robots.push(
            Robot {
                id: i as u64,
                pos: Vec2 { x, y: 50_000 },
                speed: config.robot_speed,
                target: Vec2 { x: 0, y: 0 },
                state: RobotState::Idle,
                timers: RobotTimers { work: 0, charge: 0 },
                battery: BATTERY_MAX,
                reservation: None,
                memory: None,
            },
        );
        i = i + 1;
    }
    let w = World { config, robots, stations: StationRegistry { pickups, dropoffs, chargers } };
    proof {
        let ps = w.stations.pickups@;
        let ds = w.stations.dropoffs@;
        let cs = w.stations.chargers@;
        assert forall|j: int| 0 <= j < w.robots@.len() implies robot_phys_ok(
            w.config,
            #[trigger] w.robots@[j],
        ) by {
            assert(w.robots@[j] == initial_robot(w.config, j));
        }
        assert forall|j: int| 0 <= j < w.robots@.len() implies refs_ok(
            #[trigger] w.robots@[j],
            ps,
            ds,
            cs,
        ) by {
            assert(w.robots@[j] == initial_robot(w.config, j));
        }
        assert forall|sid: StationId| sid_ok(ps, ds, cs, sid) implies !(
        #[trigger] station_of(ps, ds, cs, sid)).booked by {
            match sid.kind {
                StationKind::Pickup => {},
                StationKind::Dropoff => {},
                StationKind::Charger => {},
            }
        }
        assert forall|j: int, sid: StationId|
            0 <= j < w.robots@.len() implies !(#[trigger] holds_at(w.robots@, j, sid)) by {
            assert(w.robots@[j] == initial_robot(w.config, j));
        }
        assert forall|idx: int| 0 <= idx < ps.len() implies in_coord_range(
            (#[trigger] ps[idx]).pos,
        ) by {
            assert(in_coord_range(w.config.pickup_stations@[idx]));
        }
        assert forall|idx: int| 0 <= idx < ds.len() implies in_coord_range(
            (#[trigger] ds[idx]).pos,
        ) by {
            assert(in_coord_range(w.config.dropoff_stations@[idx]));
        }
        assert forall|idx: int| 0 <= idx < cs.len() implies in_coord_range(
            (#[trigger] cs[idx]).pos,
        ) by {
            assert(in_coord_range(w.config.charger_stations@[idx]));
        }
        assert forall|j: int| 0 <= j < w.robots@.len() implies (#[trigger] w.robots@[j]).id
            == j as u64 by {
            assert(w.robots@[j] == initial_robot(w.config, j));
        }
    }
    w
}

} // verus!
