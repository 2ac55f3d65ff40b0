//! The avoidance engine: a pure per-robot repulsion force over a snapshot of
//! all robot positions, with a priority tie-break — the lower id yields
//! gently, the higher id resists strongly — and a critical-overlap flag that
//! suspends goal-seeking.

use crate::config::MAX_ROBOTS;
use crate::geometry::{
    abs_i, dist, in_coord_range, lemma_dist_ge_components, lemma_sdiv_bound, lemma_sdiv_nonneg,
    mul_div_trunc, sdiv, v2i, Vec2, Vec2i, COORD_LIMIT, SCALE,
};
use crate::geometry::distance_between;
use vstd::prelude::*;

verus! {

/// Avoidance weight applied by the yielder (lower id): one half.
pub const YIELD_WEIGHT_DIV: i64 = 2000;

/// Avoidance weight applied by the holder (higher id): three.
pub const HOLD_WEIGHT_MUL: i64 = 3;

/// The repulsion one obstacle adds for a robot, and whether it puts the
/// robot in critical overlap. An obstacle with the robot's own id is the
/// robot itself and contributes nothing. Inside the collision radius the
/// direction away from the obstacle is normalized to `SCALE` and weighted by
/// `strength = SCALE - d * SCALE / radius`; two coincident robots have no
/// defined direction and contribute no force. Only the holder of a pair can
/// be in critical overlap, at less than half the collision radius.
pub open spec fn avoid_contrib(
    me_id: u64,
    me_pos: Vec2,
    other_id: u64,
    other_pos: Vec2,
    radius: i64,
) -> (Vec2i, bool) {
    if other_id == me_id {
        (Vec2i { x: 0, y: 0 }, false)
    } else {
        let d = dist(me_pos, other_pos);
        if d < radius {
            let critical = me_id > other_id && 2 * d < radius;
            if d == 0 {
                (Vec2i { x: 0, y: 0 }, critical)
            } else {
                let dirx = sdiv((me_pos.x - other_pos.x) * (SCALE as int), d);
                let diry = sdiv((me_pos.y - other_pos.y) * (SCALE as int), d);
                let strength = (SCALE as int) - (d * (SCALE as int)) / (radius as int);
                if me_id < other_id {
                    (
                        Vec2i {
                            x: sdiv(dirx * strength, YIELD_WEIGHT_DIV as int),
                            y: sdiv(diry * strength, YIELD_WEIGHT_DIV as int),
                        },
                        false,
                    )
                } else {
                    (
                        Vec2i {
                            x: sdiv(dirx * strength * (HOLD_WEIGHT_MUL as int), SCALE as int),
                            y: sdiv(diry * strength * (HOLD_WEIGHT_MUL as int), SCALE as int),
                        },
                        critical,
                    )
                }
            }
        } else {
            (Vec2i { x: 0, y: 0 }, false)
        }
    }
}

/// The summed repulsion over a snapshot of obstacles, and whether any of
/// them puts the robot in critical overlap.
pub open spec fn avoid_force(
    me_id: u64,
    me_pos: Vec2,
    obstacles: Seq<(u64, Vec2)>,
    radius: i64,
) -> (Vec2i, bool)
    decreases obstacles.len(),
{
    if obstacles.len() == 0 {
        (Vec2i { x: 0, y: 0 }, false)
    } else {
        let (acc, crit) = avoid_force(me_id, me_pos, obstacles.drop_last(), radius);
        let (c, cc) = avoid_contrib(
            me_id,
            me_pos,
            obstacles.last().0,
            obstacles.last().1,
            radius,
        );
        (Vec2i { x: acc.x + c.x, y: acc.y + c.y }, crit || cc)
    }
}

/// Every single contribution is at most three scale units in magnitude.
pub proof fn lemma_contrib_bound(me_id: u64, me_pos: Vec2, other_id: u64, other_pos: Vec2, radius: i64)
    requires
        in_coord_range(me_pos),
        in_coord_range(other_pos),
        0 <= radius <= COORD_LIMIT,
    ensures
        abs_i(avoid_contrib(me_id, me_pos, other_id, other_pos, radius).0.x) <= 3000,
        abs_i(avoid_contrib(me_id, me_pos, other_id, other_pos, radius).0.y) <= 3000,
{
    if other_id != me_id {
        let d = dist(me_pos, other_pos);
        lemma_dist_ge_components(me_pos, other_pos);
        if 0 < d < radius {
            let dx = me_pos.x - other_pos.x;
            let dy = me_pos.y - other_pos.y;
            let dirx = sdiv(dx * (SCALE as int), d);
            let diry = sdiv(dy * (SCALE as int), d);
            lemma_sdiv_bound(dx * (SCALE as int), d, SCALE as int);
            lemma_sdiv_bound(dy * (SCALE as int), d, SCALE as int);
            let strength = (SCALE as int) - (d * (SCALE as int)) / (radius as int);
            lemma_sdiv_nonneg(d * (SCALE as int), radius as int);
            lemma_sdiv_bound(d * (SCALE as int), radius as int, SCALE as int);
            assert(0 <= strength <= SCALE);
            assert(-1_000_000 <= dirx * strength <= 1_000_000) by (nonlinear_arith)
                requires
                    -1000 <= dirx <= 1000,
                    0 <= strength <= 1000,
            ;
            assert(-1_000_000 <= diry * strength <= 1_000_000) by (nonlinear_arith)
                requires
                    -1000 <= diry <= 1000,
                    0 <= strength <= 1000,
            ;
            lemma_sdiv_bound(dirx * strength, YIELD_WEIGHT_DIV as int, 500);
            lemma_sdiv_bound(diry * strength, YIELD_WEIGHT_DIV as int, 500);
            lemma_sdiv_bound(dirx * strength * (HOLD_WEIGHT_MUL as int), SCALE as int, 3 * SCALE as int);
            lemma_sdiv_bound(diry * strength * (HOLD_WEIGHT_MUL as int), SCALE as int, 3 * SCALE as int);
        }
    }
}

/// Computes the separation force for one robot from a snapshot of all robot
/// positions taken before any movement this tick. Returns the summed
/// repulsion vector (fixed-point, `SCALE` = unit length) and the
/// critical-overlap flag, exactly as [`avoid_force`] states them.
pub fn calculate_avoidance_force(
    current_id: u64,
    current_pos: Vec2,
    obstacles: &Vec<(u64, Vec2)>,
    collision_radius: i64,
) -> (r: (Vec2, bool))
    requires
        in_coord_range(current_pos),
        0 <= collision_radius <= COORD_LIMIT,
        obstacles@.len() <= MAX_ROBOTS,
        forall|k: int| 0 <= k < obstacles@.len() ==> in_coord_range(#[trigger] obstacles@[k].1),
    ensures
        v2i(r.0) == avoid_force(current_id, current_pos, obstacles@, collision_radius).0,
        r.1 == avoid_force(current_id, current_pos, obstacles@, collision_radius).1,
        abs_i(r.0.x as int) <= 3000 * obstacles@.len(),
        abs_i(r.0.y as int) <= 3000 * obstacles@.len(),
{
    let n = obstacles.len();
    let mut sx: i64 = 0;
    let mut sy: i64 = 0;
    let mut crit: bool = false;
    let mut i: usize = 0;
    while i < n
        invariant
            i <= n,
            n == obstacles@.len(),
            obstacles@.len() <= MAX_ROBOTS,
            in_coord_range(current_pos),
            0 <= collision_radius <= COORD_LIMIT,
            forall|k: int| 0 <= k < obstacles@.len() ==> in_coord_range(#[trigger] obstacles@[k].1),
            sx as int == avoid_force(
                current_id,
                current_pos,
                obstacles@.take(i as int),
                collision_radius,
            ).0.x,
            sy as int == avoid_force(
                current_id,
                current_pos,
                obstacles@.take(i as int),
                collision_radius,
            ).0.y,
            crit == avoid_force(
                current_id,
                current_pos,
                obstacles@.take(i as int),
                collision_radius,
            ).1,
            abs_i(sx as int) <= 3000 * i,
            abs_i(sy as int) <= 3000 * i,
        decreases n - i,
    {
        let (other_id, other_pos) = obstacles[i];
        let ghost cpair = avoid_contrib(
            current_id,
            current_pos,
            other_id,
            other_pos,
            collision_radius,
        );
        let mut cx: i64 = 0;
        let mut cy: i64 = 0;
        if other_id != current_id {
            let d = distance_between(current_pos, other_pos);
            if d < collision_radius {
                if d > 0 {
                    let dx = current_pos.x - other_pos.x;
                    let dy = current_pos.y - other_pos.y;
                    proof {
                        lemma_dist_ge_components(current_pos, other_pos);
                    }
                    let dirx = mul_div_trunc(dx, SCALE, d);
                    let diry = mul_div_trunc(dy, SCALE, d);
                    let q = mul_div_trunc(d, SCALE, collision_radius);
                    proof {
                        lemma_sdiv_bound(dx * (SCALE as int), d as int, SCALE as int);
                        lemma_sdiv_bound(dy * (SCALE as int), d as int, SCALE as int);
                        lemma_sdiv_nonneg(d * (SCALE as int), collision_radius as int);
                        lemma_sdiv_bound(d * (SCALE as int), collision_radius as int, SCALE as int);
                    }
                    let strength = SCALE - q;
                    proof {
                        assert(-1_000_000 <= dirx * strength <= 1_000_000) by (nonlinear_arith)
                            requires
                                -1000 <= dirx <= 1000,
                                0 <= strength <= 1000,
                        ;
                        assert(-1_000_000 <= diry * strength <= 1_000_000) by (nonlinear_arith)
                            requires
                                -1000 <= diry <= 1000,
                                0 <= strength <= 1000,
                        ;
                    }
                    if current_id < other_id {
                        cx = mul_div_trunc(dirx, strength, YIELD_WEIGHT_DIV);
                        cy = mul_div_trunc(diry, strength, YIELD_WEIGHT_DIV);
                    } else {
                        cx = mul_div_trunc(dirx * strength, HOLD_WEIGHT_MUL, SCALE);
                        cy = mul_div_trunc(diry * strength, HOLD_WEIGHT_MUL, SCALE);
                        if 2 * d < collision_radius {
                            crit = true;
                        }
                    }
                } else {
                    if current_id > other_id {
                        crit = true;
                    }
                }
            }
        }
        proof {
            assert(cx as int == cpair.0.x);
            assert(cy as int == cpair.0.y);
            lemma_contrib_bound(current_id, current_pos, other_id, other_pos, collision_radius);
            assert(obstacles@.take(i + 1 as int).drop_last() =~= obstacles@.take(i as int));
            assert(obstacles@.take(i + 1 as int).last() == obstacles@[i as int]);
        }
        sx = sx + cx;
        sy = sy + cy;
        i = i + 1;
    }
    proof {
        assert(obstacles@.take(n as int) =~= obstacles@);
    }
    (Vec2 { x: sx, y: sy }, crit)
}

} // verus!
