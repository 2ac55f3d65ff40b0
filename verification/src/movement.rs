//! The movement pass for one robot: blend the goal direction with the
//! avoidance force — or flee on critical overlap — renormalize, slow down
//! on arrival, and integrate the displacement over one tick. Only robots in
//! a moving state are displaced; everything else stands still.

use crate::avoidance::{avoid_force, calculate_avoidance_force};
use crate::config::{SimulationConfig, MAX_DT, MAX_RATE, MAX_ROBOTS};
use crate::geometry::{
    abs_i, clamp64, clamp_i, dist, distance_between, in_coord_range, isqrt,
    lemma_dist_ge_components, lemma_sdiv_bound, lemma_sdiv_nonneg, lemma_sqrt_floor_bounds,
    lemma_sqrt_ge_xy, mul_div_trunc, sdiv, sqrt_floor, Vec2, Vec2i, COORD_LIMIT,
};
use crate::robot::{is_moving_state, moving_state, Robot};
use vstd::prelude::*;

verus! {

/// A robot closer to its target than this stands still rather than hunting
/// the exact point: a hundredth of a unit, in milli-units.
pub const GOAL_EPS: i64 = 10;

/// The squared fixed-point magnitude below which the blended direction is
/// treated as zero and the robot does not move.
pub const FINAL_EPS_SQ: i64 = 100;

/// Inside this distance of the target (ten units, in milli-units) the
/// effective speed scales down proportionally, clamped to `[0.1, 1.0]` of
/// nominal, to avoid overshoot jitter.
pub const ARRIVE_RADIUS: i64 = 10_000;

/// The unit vector toward the target, scaled by 1000, or zero when the
/// robot is within [`GOAL_EPS`] of it.
pub open spec fn goal_direction(pos: Vec2, target: Vec2) -> Vec2i {
    let d = dist(pos, target);
    if d > GOAL_EPS {
        Vec2i { x: sdiv((target.x - pos.x) * 1000, d), y: sdiv((target.y - pos.y) * 1000, d) }
    } else {
        Vec2i { x: 0, y: 0 }
    }
}

/// The effective speed given the distance to the target, in milli-units per
/// time unit.
pub open spec fn effective_speed(speed: i64, d_target: int) -> int {
    if d_target < ARRIVE_RADIUS {
        sdiv(speed * clamp_i(sdiv(d_target * 1000, 10_000), 100, 1000), 1000)
    } else {
        speed as int
    }
}

/// The position of one robot after one tick of movement, computed from a
/// snapshot of all robot positions taken before any movement this tick.
/// The final direction is the goal direction plus the repulsion force — or
/// the repulsion alone on critical overlap — and, when its magnitude is
/// above [`FINAL_EPS_SQ`], the robot is displaced along it by its effective
/// speed over the tick, confined to the coordinate range.
pub open spec fn moved_pos(
    cfg: SimulationConfig,
    r: Robot,
    obstacles: Seq<(u64, Vec2)>,
    dt: i64,
) -> Vec2 {
    if !is_moving_state(r.state) {
        r.pos
    } else {
        let sep_crit = avoid_force(r.id, r.pos, obstacles, cfg.collision_radius);
        let sep = sep_crit.0;
        let critical = sep_crit.1;
        let d_t = dist(r.pos, r.target);
        let g = goal_direction(r.pos, r.target);
        let fx = if critical {
            sep.x
        } else {
            g.x + sep.x
        };
        let fy = if critical {
            sep.y
        } else {
            g.y + sep.y
        };
        if fx * fx + fy * fy > FINAL_EPS_SQ {
            let len = sqrt_floor((fx * fx + fy * fy) as nat) as int;
            let mx = sdiv(fx * 1000, len);
            let my = sdiv(fy * 1000, len);
            let eff = effective_speed(r.speed, d_t);
            Vec2 {
                x: clamp_i(
                    r.pos.x + sdiv(mx * eff * dt, 1_000_000),
                    -COORD_LIMIT as int,
                    COORD_LIMIT as int,
                ) as i64,
                y: clamp_i(
                    r.pos.y + sdiv(my * eff * dt, 1_000_000),
                    -COORD_LIMIT as int,
                    COORD_LIMIT as int,
                ) as i64,
            }
        } else {
            r.pos
        }
    }
}

/// Computes one robot's new position for this tick, exactly as
/// [`moved_pos`] states it.
pub fn compute_moved_pos(
    cfg: &SimulationConfig,
    r: &Robot,
    obstacles: &Vec<(u64, Vec2)>,
    dt: i64,
) -> (p: Vec2)
    requires
        cfg.valid(),
        in_coord_range(r.pos),
        in_coord_range(r.target),
        0 <= r.speed <= MAX_RATE,
        0 < dt <= MAX_DT,
        obstacles@.len() <= MAX_ROBOTS,
        forall|k: int| 0 <= k < obstacles@.len() ==> in_coord_range(#[trigger] obstacles@[k].1),
    ensures
        p == moved_pos(*cfg, *r, obstacles@, dt),
        in_coord_range(p),
{
    if !moving_state(r.state) {
        return r.pos;
    }
    let sep = calculate_avoidance_force(r.id, r.pos, obstacles, cfg.collision_radius);
    let sepv = sep.0;
    let critical = sep.1;
    let d_t = distance_between(r.pos, r.target);
    let mut gx: i64 = 0;
    let mut gy: i64 = 0;
    if d_t > GOAL_EPS {
        proof {
            lemma_dist_ge_components(r.pos, r.target);
        }
        gx = mul_div_trunc(r.target.x - r.pos.x, 1000, d_t);
        gy = mul_div_trunc(r.target.y - r.pos.y, 1000, d_t);
        proof {
            lemma_sdiv_bound((r.target.x - r.pos.x) * 1000, d_t as int, 1000);
            lemma_sdiv_bound((r.target.y - r.pos.y) * 1000, d_t as int, 1000);
        }
    }
    let fx = if critical {
        sepv.x
    } else {
        gx + sepv.x
    };
    let fy = if critical {
        sepv.y
    } else {
        gy + sepv.y
    };
    proof {
        assert(-31_000_000 <= fx <= 31_000_000);
        assert(-31_000_000 <= fy <= 31_000_000);
        assert(0 <= fx * fx <= 1_000_000_000_000_000) by (nonlinear_arith)
            requires
                -31_000_000 <= fx <= 31_000_000,
        ;
        assert(0 <= fy * fy <= 1_000_000_000_000_000) by (nonlinear_arith)
            requires
                -31_000_000 <= fy <= 31_000_000,
        ;
        lemma_sqrt_ge_xy(fx as int, fy as int);
    }
    let l2 = fx * fx + fy * fy;
    if l2 > FINAL_EPS_SQ {
        let len_u = isqrt(l2 as u64);
        proof {
            lemma_sqrt_floor_bounds(l2 as nat);
            let s = sqrt_floor(l2 as nat);
            if s == 0 {
                assert((l2 as nat) < (s + 1) * (s + 1));
                assert((s + 1) * (s + 1) == 1) by (nonlinear_arith)
                    requires
                        s == 0,
                ;
                assert(false);
            }
            assert(len_u * len_u <= l2 as u64);
            assert(len_u <= 50_000_000) by (nonlinear_arith)
                requires
                    (len_u as nat) * (len_u as nat) <= 2_000_000_000_000_000 as nat,
            ;
        }
        let len = len_u as i64;
        let mx = mul_div_trunc(fx, 1000, len);
        let my = mul_div_trunc(fy, 1000, len);
        proof {
            lemma_sdiv_bound(fx * 1000, len as int, 1000);
            lemma_sdiv_bound(fy * 1000, len as int, 1000);
        }
        let eff: i64;
        if d_t < ARRIVE_RADIUS {
            let factor = clamp64(mul_div_trunc(d_t, 1000, 10_000), 100, 1000);
            proof {
                assert(0 <= r.speed * factor <= 1_000_000_000) by (nonlinear_arith)
                    requires
                        0 <= r.speed <= 1_000_000,
                        100 <= factor <= 1000,
                ;
            }
            eff = mul_div_trunc(r.speed, factor, 1000);
            proof {
                lemma_sdiv_nonneg(r.speed * factor, 1000);
                lemma_sdiv_bound(r.speed * factor, 1000, 1_000_000);
            }
        } else {
            eff = r.speed;
        }
        proof {
            assert(eff as int == effective_speed(r.speed, d_t as int));
            assert(-1_000_000_000 <= mx * eff <= 1_000_000_000) by (nonlinear_arith)
                requires
                    -1000 <= mx <= 1000,
                    0 <= eff <= 1_000_000,
            ;
            assert(-1_000_000_000 <= my * eff <= 1_000_000_000) by (nonlinear_arith)
                requires
                    -1000 <= my <= 1000,
                    0 <= eff <= 1_000_000,
            ;
        }
        let tx = mx * eff;
        let ty = my * eff;
        proof {
            assert(-100_000_000_000_000 <= tx * dt <= 100_000_000_000_000) by (nonlinear_arith)
                requires
                    -1_000_000_000 <= tx <= 1_000_000_000,
                    0 < dt <= 100_000,
            ;
            assert(-100_000_000_000_000 <= ty * dt <= 100_000_000_000_000) by (nonlinear_arith)
                requires
                    -1_000_000_000 <= ty <= 1_000_000_000,
                    0 < dt <= 100_000,
            ;
        }
        let dx = mul_div_trunc(tx, dt, 1_000_000);
        let dy = mul_div_trunc(ty, dt, 1_000_000);
        proof {
            lemma_sdiv_bound(tx * dt, 1_000_000, 100_000_000);
            lemma_sdiv_bound(ty * dt, 1_000_000, 100_000_000);
        }
        let px = clamp64(r.pos.x + dx, -COORD_LIMIT, COORD_LIMIT);
        let py = clamp64(r.pos.y + dy, -COORD_LIMIT, COORD_LIMIT);
        Vec2 { x: px, y: py }
    } else {
        r.pos
    }
}

} // verus!
