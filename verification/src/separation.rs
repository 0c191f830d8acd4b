//! The Separation Force Computer and the Steering Clamp.
//!
//! Each tick, every unordered pair of rooms is tested for axis-aligned
//! overlap. For a room with overlapping neighbors, the repulsion points away
//! from the centroid of those neighbors and its magnitude is the stiffness
//! times the mean penetration depth. A room with no overlapping neighbor is
//! stopped outright: acceleration and velocity both zeroed.

use vstd::prelude::*;
use crate::components::{Room, Vec2, Acceleration, Velocity, rooms_wf};
use crate::config::SeparationCfg;
use crate::fixed::{
    abs_i, div_t, fmul_s, sqrt_i, is_sqrt, SCALE, LIM, div_i64, div_i128, isqrt_u128,
    lemma_div_t_bound, lemma_div_t_mul_le, lemma_component_le_sqrt,
};

verus! {

/// Magnitude bound on any acceleration the force computer can produce:
/// `LIM * LIM / SCALE` rounded up.
pub const ACC_LIM: i64 = 16_700_000_000_000;

/// Half of a non-negative extent, rounded down.
pub open spec fn half(a: int) -> int {
    a / 2
}

/// Overlap extent of two rooms along the x axis: positive iff their
/// projections on x properly intersect.
pub open spec fn overlap_x(a: Room, b: Room) -> int {
    half(a.size.0.x as int) + half(b.size.0.x as int) - abs_i(b.position.0.x - a.position.0.x)
}

/// Overlap extent along the y axis.
pub open spec fn overlap_y(a: Room, b: Room) -> int {
    half(a.size.0.y as int) + half(b.size.0.y as int) - abs_i(b.position.0.y - a.position.0.y)
}

/// The separating-axis test: two rooms overlap iff both extents are
/// strictly positive. Rooms whose edges exactly coincide do not overlap.
pub open spec fn overlaps(a: Room, b: Room) -> bool {
    overlap_x(a, b) > 0 && overlap_y(a, b) > 0
}

/// Penetration depth of an overlapping pair: the smaller overlap extent.
pub open spec fn penetration(a: Room, b: Room) -> int {
    if overlap_x(a, b) <= overlap_y(a, b) { overlap_x(a, b) } else { overlap_y(a, b) }
}

/// Overlap is symmetric in its two rooms.
pub proof fn lemma_overlap_symmetric(a: Room, b: Room)
    ensures
        overlaps(a, b) == overlaps(b, a),
        overlap_x(a, b) == overlap_x(b, a),
        overlap_y(a, b) == overlap_y(b, a),
        penetration(a, b) == penetration(b, a),
{
}

/// Edge-touching rooms are never counted as overlapping: a zero overlap
/// extent on either axis defeats the strict test.
pub proof fn lemma_edge_touch_excluded(a: Room, b: Room)
    requires
        overlap_x(a, b) == 0 || overlap_y(a, b) == 0,
    ensures
        !overlaps(a, b),
{
}

/// Two rooms at the same position that overlap each other: each gets zero
/// acceleration despite the nonzero penetration — the room sits exactly on
/// the centroid of its one neighbor, and the direction of a zero vector is
/// the zero vector by policy.
pub proof fn lemma_degenerate_centroid(s: Seq<Room>, cfg: SeparationCfg)
    requires
        s.len() == 2,
        s[0].position == s[1].position,
        overlaps(s[0], s[1]),
    ensures
        nbr_count(s, 0) == 1,
        nbr_count(s, 1) == 1,
        accel_x(s, 0, cfg) == 0,
        accel_y(s, 0, cfg) == 0,
        accel_x(s, 1, cfg) == 0,
        accel_y(s, 1, cfg) == 0,
{
    lemma_overlap_symmetric(s[0], s[1]);
    assert(nbr_count_upto(s, 0, 0) == 0 && nbr_sum_x_upto(s, 0, 0) == 0 && nbr_sum_y_upto(s, 0, 0)
        == 0);
    assert(nbr_count_upto(s, 0, 1) == 0 && nbr_sum_x_upto(s, 0, 1) == 0 && nbr_sum_y_upto(s, 0, 1)
        == 0);
    assert(nbr_count_upto(s, 0, 2) == 1);
    assert(nbr_count_upto(s, 1, 0) == 0 && nbr_sum_x_upto(s, 1, 0) == 0 && nbr_sum_y_upto(s, 1, 0)
        == 0);
    assert(nbr_count_upto(s, 1, 1) == 1 && nbr_sum_x_upto(s, 1, 1) == s[0].position.0.x as int
        && nbr_sum_y_upto(s, 1, 1) == s[0].position.0.y as int);
    assert(nbr_count_upto(s, 1, 2) == 1);
    assert(nbr_sum_x_upto(s, 0, 2) == s[1].position.0.x as int);
    assert(nbr_sum_y_upto(s, 0, 2) == s[1].position.0.y as int);
    assert(nbr_sum_x_upto(s, 1, 2) == s[0].position.0.x as int);
    assert(nbr_sum_y_upto(s, 1, 2) == s[0].position.0.y as int);
    assert(forall|a: int| #[trigger] div_t(a, 1) == a) by {
        assert forall|a: int| #[trigger] div_t(a, 1) == a by {
            if a >= 0 {
                assert(a / 1 == a) by (nonlinear_arith);
            } else {
                assert((-a) / 1 == -a) by (nonlinear_arith);
            }
        }
    }
}

/// Half of a non-negative bounded `i64`, matching `half`.
pub fn half_i64(a: i64) -> (r: i64)
    requires
        0 <= a,
    ensures
        r == half(a as int),
{
    ((a as u64) / 2) as i64
}

/// Absolute value of a bounded `i64`.
pub fn abs_i64(a: i64) -> (r: i64)
    requires
        a > i64::MIN,
    ensures
        r == abs_i(a as int),
{
    if a < 0 { -a } else { a }
}

/// Executable separating-axis test, exact against `overlaps`. Wide
/// intermediate arithmetic: only the sizes need to be bounded, the
/// positions may be anything an `i64` holds.
pub fn rooms_overlap(a: &Room, b: &Room) -> (r: bool)
    requires
        a.size_ok(),
        b.size_ok(),
    ensures
        r == overlaps(*a, *b),
{
    let hax = ((a.size.0.x as u64) / 2) as i128;
    let hbx = ((b.size.0.x as u64) / 2) as i128;
    let dx = (b.position.0.x as i128) - (a.position.0.x as i128);
    let adx: i128 = if dx < 0 { -dx } else { dx };
    let ox = hax + hbx - adx;
    let hay = ((a.size.0.y as u64) / 2) as i128;
    let hby = ((b.size.0.y as u64) / 2) as i128;
    let dy = (b.position.0.y as i128) - (a.position.0.y as i128);
    let ady: i128 = if dy < 0 { -dy } else { dy };
    let oy = hay + hby - ady;
    ox > 0 && oy > 0
}

/// Executable overlap extent along x, exact against `overlap_x`.
pub fn overlap_x_i64(a: &Room, b: &Room) -> (r: i64)
    requires
        a.wf(),
        b.wf(),
    ensures
        r == overlap_x(*a, *b),
        -2 * LIM <= r <= LIM,
{
    let ha = half_i64(a.size.0.x);
    let hb = half_i64(b.size.0.x);
    let d = abs_i64(b.position.0.x - a.position.0.x);
    ha + hb - d
}

/// Executable overlap extent along y, exact against `overlap_y`.
pub fn overlap_y_i64(a: &Room, b: &Room) -> (r: i64)
    requires
        a.wf(),
        b.wf(),
    ensures
        r == overlap_y(*a, *b),
        -2 * LIM <= r <= LIM,
{
    let ha = half_i64(a.size.0.y);
    let hb = half_i64(b.size.0.y);
    let d = abs_i64(b.position.0.y - a.position.0.y);
    ha + hb - d
}

/// How many of the rooms before index `k` overlap room `i`.
pub open spec fn nbr_count_upto(s: Seq<Room>, i: int, k: int) -> int
    decreases k,
{
    if k <= 0 {
        0
    } else {
        nbr_count_upto(s, i, k - 1) + if k - 1 != i && overlaps(s[i], s[k - 1]) { 1int } else { 0int }
    }
}

/// Sum of the x positions of the rooms before index `k` that overlap room `i`.
pub open spec fn nbr_sum_x_upto(s: Seq<Room>, i: int, k: int) -> int
    decreases k,
{
    if k <= 0 {
        0
    } else {
        nbr_sum_x_upto(s, i, k - 1) + if k - 1 != i && overlaps(s[i], s[k - 1]) {
            s[k - 1].position.0.x as int
        } else {
            0int
        }
    }
}

/// Sum of the y positions of the rooms before index `k` that overlap room `i`.
pub open spec fn nbr_sum_y_upto(s: Seq<Room>, i: int, k: int) -> int
    decreases k,
{
    if k <= 0 {
        0
    } else {
        nbr_sum_y_upto(s, i, k - 1) + if k - 1 != i && overlaps(s[i], s[k - 1]) {
            s[k - 1].position.0.y as int
        } else {
            0int
        }
    }
}

/// Sum of the penetration depths between room `i` and the rooms before
/// index `k` that overlap it.
pub open spec fn pen_sum_upto(s: Seq<Room>, i: int, k: int) -> int
    decreases k,
{
    if k <= 0 {
        0
    } else {
        pen_sum_upto(s, i, k - 1) + if k - 1 != i && overlaps(s[i], s[k - 1]) {
            penetration(s[i], s[k - 1])
        } else {
            0int
        }
    }
}

/// Number of rooms overlapping room `i`.
pub open spec fn nbr_count(s: Seq<Room>, i: int) -> int {
    nbr_count_upto(s, i, s.len() as int)
}

/// Sum of the x positions of the rooms overlapping room `i`.
pub open spec fn nbr_sum_x(s: Seq<Room>, i: int) -> int {
    nbr_sum_x_upto(s, i, s.len() as int)
}

/// Sum of the y positions of the rooms overlapping room `i`.
pub open spec fn nbr_sum_y(s: Seq<Room>, i: int) -> int {
    nbr_sum_y_upto(s, i, s.len() as int)
}

/// Sum of penetration depths between room `i` and its overlapping neighbors.
pub open spec fn pen_sum(s: Seq<Room>, i: int) -> int {
    pen_sum_upto(s, i, s.len() as int)
}

/// Neighbor counts are never negative.
pub proof fn lemma_nbr_count_nonneg(s: Seq<Room>, i: int, k: int)
    ensures
        nbr_count_upto(s, i, k) >= 0,
    decreases k,
{
    if k > 0 {
        lemma_nbr_count_nonneg(s, i, k - 1);
    }
}

/// The x component of the repulsion acceleration of room `i`: away from the
/// centroid of its overlapping neighbors, scaled by stiffness times mean
/// penetration, or zero when the room sits exactly on that centroid.
pub open spec fn accel_x(s: Seq<Room>, i: int, cfg: SeparationCfg) -> int
    recommends
        nbr_count(s, i) > 0,
{
    let cnt = nbr_count(s, i);
    let dx = s[i].position.0.x - div_t(nbr_sum_x(s, i), cnt);
    let dy = s[i].position.0.y - div_t(nbr_sum_y(s, i), cnt);
    if dx == 0 && dy == 0 {
        0
    } else {
        let len = sqrt_i(dx * dx + dy * dy);
        let mag = fmul_s(cfg.stiffness as int, div_t(pen_sum(s, i), cnt));
        fmul_s(div_t(dx * (SCALE as int), len), mag)
    }
}

/// The y component of the repulsion acceleration of room `i`.
pub open spec fn accel_y(s: Seq<Room>, i: int, cfg: SeparationCfg) -> int
    recommends
        nbr_count(s, i) > 0,
{
    let cnt = nbr_count(s, i);
    let dx = s[i].position.0.x - div_t(nbr_sum_x(s, i), cnt);
    let dy = s[i].position.0.y - div_t(nbr_sum_y(s, i), cnt);
    if dx == 0 && dy == 0 {
        0
    } else {
        let len = sqrt_i(dx * dx + dy * dy);
        let mag = fmul_s(cfg.stiffness as int, div_t(pen_sum(s, i), cnt));
        fmul_s(div_t(dy * (SCALE as int), len), mag)
    }
}

/// What `separation_forces` guarantees of room `i` after the pass, relative
/// to the snapshot `s0` the pass read.
pub open spec fn sep_room_post(s0: Seq<Room>, r1: Room, cfg: SeparationCfg, i: int) -> bool {
    &&& r1.position == s0[i].position
    &&& r1.size == s0[i].size
    &&& (nbr_count(s0, i) == 0 ==> r1.acceleration.0.is_zero() && r1.velocity.0.is_zero())
    &&& (nbr_count(s0, i) > 0 ==> {
        &&& r1.acceleration.0.x as int == accel_x(s0, i, cfg)
        &&& r1.acceleration.0.y as int == accel_y(s0, i, cfg)
        &&& r1.velocity == s0[i].velocity
    })
    &&& abs_i(r1.acceleration.0.x as int) <= ACC_LIM
    &&& abs_i(r1.acceleration.0.y as int) <= ACC_LIM
}

/// One room's computed response, held until the apply phase.
struct Response {
    acc: Vec2,
    stop: bool,
}

impl Response {
    /// The response matches the specification for room `i` of snapshot `s0`.
    spec fn ok(self, s0: Seq<Room>, cfg: SeparationCfg, i: int) -> bool {
        &&& self.stop == (nbr_count(s0, i) == 0)
        &&& (self.stop ==> self.acc.is_zero())
        &&& (!self.stop ==> self.acc.x as int == accel_x(s0, i, cfg) && self.acc.y as int
            == accel_y(s0, i, cfg))
        &&& abs_i(self.acc.x as int) <= ACC_LIM
        &&& abs_i(self.acc.y as int) <= ACC_LIM
    }
}

/// Compute the response of room `i` against the full snapshot.
fn room_response(rooms: &Vec<Room>, i: usize, config: &SeparationCfg) -> (resp: Response)
    requires
        rooms_wf(rooms@),
        config.wf(),
        i < rooms@.len(),
    ensures
        resp.ok(rooms@, *config, i as int),
{
    let ghost s0 = rooms@;
    let n = rooms.len();
    let mut cnt: usize = 0;
    let mut sx: i128 = 0;
    let mut sy: i128 = 0;
    let mut sp: i128 = 0;
    let mut j: usize = 0;
    while j < n
        invariant
            rooms@ == s0,
            n == s0.len(),
            rooms_wf(s0),
            i < n,
            j <= n,
            cnt as int == nbr_count_upto(s0, i as int, j as int),
            sx as int == nbr_sum_x_upto(s0, i as int, j as int),
            sy as int == nbr_sum_y_upto(s0, i as int, j as int),
            sp as int == pen_sum_upto(s0, i as int, j as int),
            cnt <= j,
            abs_i(sx as int) <= cnt * (LIM as int),
            abs_i(sy as int) <= cnt * (LIM as int),
            0 <= sp as int <= cnt * (LIM as int),
        decreases n - j,
    {
        if j != i {
            let a = rooms[i];
            let b = rooms[j];
            assert(a == s0[i as int] && b == s0[j as int]);
            assert(s0[i as int].wf() && s0[j as int].wf());
            let ox = overlap_x_i64(&a, &b);
            let oy = overlap_y_i64(&a, &b);
            if ox > 0 && oy > 0 {
                let pen: i64 = if ox <= oy { ox } else { oy };
                assert(pen as int == penetration(s0[i as int], s0[j as int]));
                assert(0 < pen <= LIM);
                cnt = cnt + 1;
                sx = sx + b.position.0.x as i128;
                sy = sy + b.position.0.y as i128;
                sp = sp + pen as i128;
            }
        }
        j = j + 1;
    }
    assert(cnt as int == nbr_count(s0, i as int));
    assert(sx as int == nbr_sum_x(s0, i as int));
    assert(sy as int == nbr_sum_y(s0, i as int));
    assert(sp as int == pen_sum(s0, i as int));
    if cnt == 0 {
        Response { acc: Vec2 { x: 0, y: 0 }, stop: true }
    } else {
        let cx128 = div_i128(sx, cnt as i128);
        let cy128 = div_i128(sy, cnt as i128);
        proof {
            lemma_div_t_bound(sx as int, cnt as int, LIM as int);
            lemma_div_t_bound(sy as int, cnt as int, LIM as int);
        }
        assert(s0[i as int].wf());
        let dx: i64 = rooms[i].position.0.x - (cx128 as i64);
        let dy: i64 = rooms[i].position.0.y - (cy128 as i64);
        if dx == 0 && dy == 0 {
            // the room sits exactly on the neighbor centroid: no direction
            Response { acc: Vec2 { x: 0, y: 0 }, stop: false }
        } else {
            assert(0 <= (dx as int) * (dx as int) <= 4_000_000_000_000_000_000 && 0 <= (dy as int)
                * (dy as int) <= 4_000_000_000_000_000_000) by (nonlinear_arith)
                requires
                    -2_000_000_000 <= dx as int <= 2_000_000_000,
                    -2_000_000_000 <= dy as int <= 2_000_000_000;
            let l2: i128 = (dx as i128) * (dx as i128) + (dy as i128) * (dy as i128);
            assert(0 < l2 <= 8_000_000_000_000_000_000) by (nonlinear_arith)
                requires
                    -2 * (LIM as int) <= dx as int <= 2 * (LIM as int),
                    -2 * (LIM as int) <= dy as int <= 2 * (LIM as int),
                    !(dx as int == 0 && dy as int == 0),
                    l2 as int == (dx as int) * (dx as int) + (dy as int) * (dy as int),
                    LIM == 1_000_000_000;
            let len_u = isqrt_u128(l2 as u128);
            assert(len_u as int * (len_u as int) <= l2 as int);
            assert(len_u < 3_000_000_000) by (nonlinear_arith)
                requires
                    len_u as int * (len_u as int) <= l2 as int,
                    l2 as int <= 8_000_000_000_000_000_000,
                    len_u >= 0;
            let len: i64 = len_u as i64;
            proof {
                assert(l2 as u128 as int == l2 as int);
            }
            assert(len_u >= 1) by (nonlinear_arith)
                requires
                    (l2 as int) < ((len_u as int) + 1) * ((len_u as int) + 1),
                    (l2 as int) >= 1,
                    len_u >= 0;
            assert(len >= 1);
            proof {
                lemma_component_le_sqrt(dx as int, l2 as int, len as int);
                lemma_component_le_sqrt(dy as int, l2 as int, len as int);
            }
            let dirx = div_i64(dx * SCALE, len);
            let diry = div_i64(dy * SCALE, len);
            proof {
                lemma_div_t_bound(dx as int * (SCALE as int), len as int, SCALE as int);
                lemma_div_t_bound(dy as int * (SCALE as int), len as int, SCALE as int);
            }
            let mp128 = div_i128(sp, cnt as i128);
            proof {
                lemma_div_t_bound(sp as int, cnt as int, LIM as int);
            }
            assert(abs_i((config.stiffness as int) * (mp128 as int)) <= (SCALE as int) * (
            ACC_LIM as int)) by (nonlinear_arith)
                requires
                    0 <= config.stiffness as int <= LIM as int,
                    abs_i(mp128 as int) <= LIM as int,
                    LIM == 1_000_000_000,
                    SCALE == 60000,
                    ACC_LIM == 16_700_000_000_000;
            let mag128 = div_i128((config.stiffness as i128) * mp128, SCALE as i128);
            proof {
                lemma_div_t_bound(
                    (config.stiffness as i128 * mp128) as int,
                    SCALE as int,
                    ACC_LIM as int,
                );
            }
            assert(abs_i((dirx as int) * (mag128 as int)) <= (SCALE as int) * (ACC_LIM as int))
                by (nonlinear_arith)
                requires
                    abs_i(dirx as int) <= SCALE as int,
                    abs_i(mag128 as int) <= ACC_LIM as int;
            assert(abs_i((diry as int) * (mag128 as int)) <= (SCALE as int) * (ACC_LIM as int))
                by (nonlinear_arith)
                requires
                    abs_i(diry as int) <= SCALE as int,
                    abs_i(mag128 as int) <= ACC_LIM as int;
            let ax128 = div_i128((dirx as i128) * mag128, SCALE as i128);
            let ay128 = div_i128((diry as i128) * mag128, SCALE as i128);
            proof {
                lemma_div_t_bound((dirx as i128 * mag128) as int, SCALE as int, ACC_LIM as int);
                lemma_div_t_bound((diry as i128 * mag128) as int, SCALE as int, ACC_LIM as int);
            }
            Response { acc: Vec2 { x: ax128 as i64, y: ay128 as i64 }, stop: false }
        }
    }
}

/// The Separation Force Computer. Reads the snapshot of positions and sizes,
/// writes every acceleration, and forcibly stops (acceleration and velocity
/// both zero) every room with no overlapping neighbor this tick.
pub fn separation_forces(rooms: &mut Vec<Room>, config: &SeparationCfg)
    requires
        rooms_wf(old(rooms)@),
        config.wf(),
    ensures
        final(rooms)@.len() == old(rooms)@.len(),
        forall|i: int|
            0 <= i < old(rooms)@.len() ==> sep_room_post(
                old(rooms)@,
                #[trigger] final(rooms)@[i],
                *config,
                i,
            ),
{
    let ghost s0 = rooms@;
    let n = rooms.len();
    let mut resps: Vec<Response> = Vec::new();
    let mut i: usize = 0;
    while i < n
        invariant
            rooms@ == s0,
            n == s0.len(),
            rooms_wf(s0),
            config.wf(),
            i <= n,
            resps@.len() == i as int,
            forall|t: int| 0 <= t < i ==> (#[trigger] resps@[t]).ok(s0, *config, t),
        decreases n - i,
    {
        let resp = room_response(rooms, i, config);
        resps.push(resp);
        i = i + 1;
    }
    let mut k: usize = 0;
    while k < n
        invariant
            n == s0.len(),
            rooms@.len() == n,
            resps@.len() == n,
            rooms_wf(s0),
            config.wf(),
            k <= n,
            forall|t: int| 0 <= t < n ==> (#[trigger] resps@[t]).ok(s0, *config, t),
            forall|t: int| k <= t < n ==> rooms@[t] == s0[t],
            forall|t: int| 0 <= t < k ==> sep_room_post(s0, #[trigger] rooms@[t], *config, t),
        decreases n - k,
    {
        let mut room = rooms[k];
        let resp_acc = resps[k].acc;
        let resp_stop = resps[k].stop;
        room.acceleration = Acceleration(resp_acc);
        if resp_stop {
            room.velocity = Velocity(Vec2 { x: 0, y: 0 });
        }
        rooms.set(k, room);
        k = k + 1;
    }
}

/// Squared magnitude of a vector.
pub open spec fn norm2(a: Vec2) -> int {
    (a.x as int) * (a.x as int) + (a.y as int) * (a.y as int)
}

/// The x component after the steering clamp: unchanged when the magnitude is
/// within `max`, else rescaled by `max / |a|`.
pub open spec fn clamped_x(a: Vec2, max: int) -> int {
    if norm2(a) <= max * max {
        a.x as int
    } else {
        div_t((a.x as int) * max, sqrt_i(norm2(a)))
    }
}

/// The y component after the steering clamp.
pub open spec fn clamped_y(a: Vec2, max: int) -> int {
    if norm2(a) <= max * max {
        a.y as int
    } else {
        div_t((a.y as int) * max, sqrt_i(norm2(a)))
    }
}

/// Every acceleration component is within the force computer's bound.
pub open spec fn accels_bounded(s: Seq<Room>) -> bool {
    forall|i: int|
        0 <= i < s.len() ==> abs_i((#[trigger] s[i]).acceleration.0.x as int) <= ACC_LIM && abs_i(
            s[i].acceleration.0.y as int,
        ) <= ACC_LIM
}

/// The rescaled vector's squared magnitude stays within one raw fixed-point
/// quantum of the cap: `|clamped|^2 <= (max + 1)^2`.
proof fn lemma_clamp_norm_bound(ax: int, ay: int, max: int, len: int, nx: int, ny: int)
    requires
        0 <= max,
        is_sqrt(ax * ax + ay * ay, len),
        ax * ax + ay * ay > max * max,
        nx == div_t(ax * max, len),
        ny == div_t(ay * max, len),
        len >= 1,
    ensures
        nx * nx + ny * ny <= (max + 1) * (max + 1),
{
    let l2 = ax * ax + ay * ay;
    if max == 0 {
        assert(nx == 0 && ny == 0);
        assert(nx * nx + ny * ny <= (max + 1) * (max + 1)) by (nonlinear_arith)
            requires nx == 0 && ny == 0 && max == 0;
    } else {
        assert(len >= max) by (nonlinear_arith)
            requires
                l2 < (len + 1) * (len + 1),
                max * max < l2,
                0 <= len,
                0 <= max;
        lemma_div_t_mul_le(ax * max, len);
        lemma_div_t_mul_le(ay * max, len);
        assert(abs_i(ax * max) == abs_i(ax) * max) by (nonlinear_arith)
            requires max >= 0;
        assert(abs_i(ay * max) == abs_i(ay) * max) by (nonlinear_arith)
            requires max >= 0;
        assert(nx * nx * (len * len) <= (ax * ax) * (max * max)) by (nonlinear_arith)
            requires
                abs_i(nx) * len <= abs_i(ax) * max,
                len >= 1,
                max >= 0;
        assert(ny * ny * (len * len) <= (ay * ay) * (max * max)) by (nonlinear_arith)
            requires
                abs_i(ny) * len <= abs_i(ay) * max,
                len >= 1,
                max >= 0;
        assert((nx * nx + ny * ny) * (len * len) <= l2 * (max * max)) by (nonlinear_arith)
            requires
                nx * nx * (len * len) <= (ax * ax) * (max * max),
                ny * ny * (len * len) <= (ay * ay) * (max * max),
                l2 == ax * ax + ay * ay;
        assert(l2 * (max * max) < ((len + 1) * (len + 1)) * (max * max)) by (nonlinear_arith)
            requires
                l2 < (len + 1) * (len + 1),
                max >= 1;
        assert(((len + 1) * (len + 1)) * (max * max) <= ((max + 1) * (max + 1)) * (len * len))
            by (nonlinear_arith)
            requires
                0 <= max <= len;
        assert(nx * nx + ny * ny <= (max + 1) * (max + 1)) by (nonlinear_arith)
            requires
                (nx * nx + ny * ny) * (len * len) < ((max + 1) * (max + 1)) * (len * len),
                len >= 1;
    }
}

/// Clamp one acceleration vector to magnitude `max_force`, exactly as
/// `clamped_x` / `clamped_y` state, with the clamped magnitude within one
/// raw quantum of the cap.
fn clamp_acc(a: Vec2, max_force: i64) -> (r: Vec2)
    requires
        abs_i(a.x as int) <= ACC_LIM,
        abs_i(a.y as int) <= ACC_LIM,
        0 <= max_force <= LIM,
    ensures
        r.x as int == clamped_x(a, max_force as int),
        r.y as int == clamped_y(a, max_force as int),
        norm2(r) <= ((max_force as int) + 1) * ((max_force as int) + 1),
        abs_i(r.x as int) <= (max_force as int) + 1,
        abs_i(r.y as int) <= (max_force as int) + 1,
        abs_i(r.x as int) <= ACC_LIM,
        abs_i(r.y as int) <= ACC_LIM,
{
    assert(0 <= (a.x as int) * (a.x as int) <= 278_890_000_000_000_000_000_000_000 && 0 <= (
    a.y as int) * (a.y as int) <= 278_890_000_000_000_000_000_000_000) by (nonlinear_arith)
        requires
            abs_i(a.x as int) <= ACC_LIM,
            abs_i(a.y as int) <= ACC_LIM,
            ACC_LIM == 16_700_000_000_000;
    let l2: i128 = (a.x as i128) * (a.x as i128) + (a.y as i128) * (a.y as i128);
    assert(0 <= (max_force as int) * (max_force as int) <= 1_000_000_000_000_000_000)
        by (nonlinear_arith)
        requires
            0 <= max_force as int <= LIM as int,
            LIM == 1_000_000_000;
    let m2: i128 = (max_force as i128) * (max_force as i128);
    if l2 <= m2 {
        assert(norm2(a) <= ((max_force as int) + 1) * ((max_force as int) + 1)) by (nonlinear_arith)
            requires
                norm2(a) <= (max_force as int) * (max_force as int),
                max_force as int >= 0;
        assert(abs_i(a.x as int) <= max_force as int && abs_i(a.y as int) <= max_force as int)
            by (nonlinear_arith)
            requires
                (a.x as int) * (a.x as int) + (a.y as int) * (a.y as int) <= (max_force as int) * (
                max_force as int),
                max_force as int >= 0;
        a
    } else {
        let len_u = isqrt_u128(l2 as u128);
        proof {
            assert(l2 as u128 as int == l2 as int);
        }
        assert(len_u >= 1) by (nonlinear_arith)
            requires
                (l2 as int) < ((len_u as int) + 1) * ((len_u as int) + 1),
                (l2 as int) >= 1,
                len_u >= 0;
        assert(len_u < 30_000_000_000_000) by (nonlinear_arith)
            requires
                (len_u as int) * (len_u as int) <= l2 as int,
                l2 as int <= 557_780_000_000_000_000_000_000_000,
                len_u >= 0;
        let len: i64 = len_u as i64;
        proof {
            lemma_component_le_sqrt(a.x as int, l2 as int, len as int);
            lemma_component_le_sqrt(a.y as int, l2 as int, len as int);
            assert(abs_i((a.x as int) * (max_force as int)) <= (len as int) * (max_force as int)
                && abs_i((a.y as int) * (max_force as int)) <= (len as int) * (max_force as int))
                by (nonlinear_arith)
                requires
                    abs_i(a.x as int) <= len as int,
                    abs_i(a.y as int) <= len as int,
                    max_force as int >= 0;
        }
        assert(abs_i((a.x as int) * (max_force as int)) <= 16_700_000_000_000_000_000_000_000
            && abs_i((a.y as int) * (max_force as int)) <= 16_700_000_000_000_000_000_000_000)
            by (nonlinear_arith)
            requires
                abs_i(a.x as int) <= ACC_LIM,
                abs_i(a.y as int) <= ACC_LIM,
                0 <= max_force as int <= LIM as int,
                ACC_LIM == 16_700_000_000_000,
                LIM == 1_000_000_000;
        let nx128 = div_i128((a.x as i128) * (max_force as i128), len as i128);
        let ny128 = div_i128((a.y as i128) * (max_force as i128), len as i128);
        proof {
            lemma_div_t_bound(
                (a.x as int) * (max_force as int),
                len as int,
                max_force as int,
            );
            lemma_div_t_bound(
                (a.y as int) * (max_force as int),
                len as int,
                max_force as int,
            );
            lemma_clamp_norm_bound(
                a.x as int,
                a.y as int,
                max_force as int,
                len as int,
                nx128 as int,
                ny128 as int,
            );
        }
        Vec2 { x: nx128 as i64, y: ny128 as i64 }
    }
}

/// What `clamp_steering` guarantees of room `i` after the pass.
pub open spec fn clamp_room_post(s0: Seq<Room>, r1: Room, cfg: SeparationCfg, i: int) -> bool {
    &&& r1.position == s0[i].position
    &&& r1.size == s0[i].size
    &&& r1.velocity == s0[i].velocity
    &&& r1.acceleration.0.x as int == clamped_x(s0[i].acceleration.0, cfg.max_force as int)
    &&& r1.acceleration.0.y as int == clamped_y(s0[i].acceleration.0, cfg.max_force as int)
    &&& norm2(r1.acceleration.0) <= ((cfg.max_force as int) + 1) * ((cfg.max_force as int) + 1)
    &&& abs_i(r1.acceleration.0.x as int) <= (cfg.max_force as int) + 1
    &&& abs_i(r1.acceleration.0.y as int) <= (cfg.max_force as int) + 1
    &&& abs_i(r1.acceleration.0.x as int) <= ACC_LIM
    &&& abs_i(r1.acceleration.0.y as int) <= ACC_LIM
}

/// The Steering Clamp: cap every room's acceleration magnitude at
/// `max_force`, preserving its direction; nothing else changes.
pub fn clamp_steering(rooms: &mut Vec<Room>, config: &SeparationCfg)
    requires
        accels_bounded(old(rooms)@),
        config.wf(),
    ensures
        final(rooms)@.len() == old(rooms)@.len(),
        forall|i: int|
            0 <= i < old(rooms)@.len() ==> clamp_room_post(
                old(rooms)@,
                #[trigger] final(rooms)@[i],
                *config,
                i,
            ),
{
    let ghost s0 = rooms@;
    let n = rooms.len();
    let mut k: usize = 0;
    while k < n
        invariant
            n == s0.len(),
            rooms@.len() == n,
            accels_bounded(s0),
            config.wf(),
            k <= n,
            forall|t: int| k <= t < n ==> rooms@[t] == s0[t],
            forall|t: int| 0 <= t < k ==> clamp_room_post(s0, #[trigger] rooms@[t], *config, t),
        decreases n - k,
    {
        let mut room = rooms[k];
        assert(room == s0[k as int]);
        assert(abs_i(s0[k as int].acceleration.0.x as int) <= ACC_LIM && abs_i(
            s0[k as int].acceleration.0.y as int,
        ) <= ACC_LIM);
        room.acceleration = Acceleration(clamp_acc(room.acceleration.0, config.max_force));
        rooms.set(k, room);
        k = k + 1;
    }
}

} // verus!
