//! The visibility engine: a discrete ray-marched field of view. A cell is
//! visible from the origin when it lies on the field within the view radius
//! and the ray toward it meets no wall strictly before the cell itself, so a
//! wall cell at the rim of an open area is itself visible.

use vstd::prelude::*;
use vstd::math::abs;

use crate::field::{Field, MAX_FIELD_SIDE};
use crate::fixmath::sgn;
use crate::pos::{Pos, COORD_LIMIT};

verus! {

/// How far a candidate point strays from the ideal straight line from
/// (ax, ay) to (bx, by): the magnitude of the cross product of the
/// candidate's offset with the line's direction.
pub open spec fn line_dev(ax: int, ay: int, bx: int, by: int, px: int, py: int) -> int {
    abs((px - ax) * (by - ay) - (py - ay) * (bx - ax)) as int
}

/// The point after (x, y) on the marched ray from (ax, ay) to (bx, by):
/// one axis-aligned step toward the target, along whichever axis keeps the
/// point closer to the ideal line.
pub open spec fn ray_next(ax: int, ay: int, bx: int, by: int, x: int, y: int) -> (int, int) {
    let sx = sgn(bx - x);
    let sy = sgn(by - y);
    if x == bx {
        (x, y + sy)
    } else if y == by {
        (x + sx, y)
    } else if line_dev(ax, ay, bx, by, x + sx, y) <= line_dev(ax, ay, bx, by, x, y + sy) {
        (x + sx, y)
    } else {
        (x, y + sy)
    }
}

/// The marched ray from (x, y) to (bx, by), as begun at (ax, ay): the
/// current point followed by the rest of the ray. Ends exactly at the
/// target, stepping one axis-aligned cell at a time.
pub open spec fn ray_seq(ax: int, ay: int, bx: int, by: int, x: int, y: int) -> Seq<(int, int)>
    decreases abs(bx - x) + abs(by - y),
{
    if x == bx && y == by {
        seq![(x, y)]
    } else {
        let nxt = ray_next(ax, ay, bx, by, x, y);
        seq![(x, y)] + ray_seq(ax, ay, bx, by, nxt.0, nxt.1)
    }
}

/// The whole line from (ax, ay) to (bx, by).
pub open spec fn line_seq(ax: int, ay: int, bx: int, by: int) -> Seq<(int, int)> {
    ray_seq(ax, ay, bx, by, ax, ay)
}

/// A ray holds at least its start point and ends exactly at its target.
pub proof fn lemma_ray_seq_shape(ax: int, ay: int, bx: int, by: int, x: int, y: int)
    ensures
        ray_seq(ax, ay, bx, by, x, y).len() >= 1,
        ray_seq(ax, ay, bx, by, x, y)[0] == (x, y),
        ray_seq(ax, ay, bx, by, x, y).last() == (bx, by),
    decreases abs(bx - x) + abs(by - y),
{
    if x == bx && y == by {
    } else {
        let nxt = ray_next(ax, ay, bx, by, x, y);
        lemma_ray_seq_shape(ax, ay, bx, by, nxt.0, nxt.1);
    }
}

/// Whether the cell (px, py) is visible from (ox, oy) on field `f` within
/// `radius`: on the field, within Euclidean distance, and with no wall on
/// the marched ray strictly before the cell.
pub open spec fn visible_spec(f: Field, ox: int, oy: int, radius: int, px: int, py: int) -> bool {
    let line = line_seq(ox, oy, px, py);
    &&& f.on_field(px, py)
    &&& (px - ox) * (px - ox) + (py - oy) * (py - oy) <= radius * radius
    &&& ray_clear(f, line)
}

/// No wall stands on the line strictly before its last point.
pub open spec fn ray_clear(f: Field, line: Seq<(int, int)>) -> bool {
    forall|i: int| 0 <= i < line.len() - 1 ==> !f.wall_at(#[trigger] line[i].0, line[i].1)
}

/// Whether v lies on the closed segment between p and q, in either order.
pub open spec fn within_seg(p: int, q: int, v: int) -> bool {
    (p <= v <= q) || (q <= v <= p)
}

/// The magnitude of a product of two bounded values.
proof fn lemma_mul_mag_bound(a: int, b: int, c: int)
    requires
        -c <= a <= c,
        -c <= b <= c,
        c >= 0,
    ensures
        -(c * c) <= a * b <= c * c,
{
    assert(-(c * c) <= a * b <= c * c) by (nonlinear_arith)
        requires -c <= a <= c, -c <= b <= c, c >= 0;
}

/// The deviation of a candidate point from the ideal line, at run time.
fn dev(a: Pos, b: Pos, px: i32, py: i32) -> (d: i64)
    requires
        a.in_range(),
        b.in_range(),
        -2 * COORD_LIMIT < px < 2 * COORD_LIMIT,
        -2 * COORD_LIMIT < py < 2 * COORD_LIMIT,
    ensures
        d == line_dev(a.x as int, a.y as int, b.x as int, b.y as int, px as int, py as int),
        d >= 0,
{
    let ux: i64 = px as i64 - a.x as i64;
    let uy: i64 = py as i64 - a.y as i64;
    let wx: i64 = b.x as i64 - a.x as i64;
    let wy: i64 = b.y as i64 - a.y as i64;
    proof {
        lemma_mul_mag_bound(ux as int, wy as int, 3 * COORD_LIMIT as int);
        lemma_mul_mag_bound(uy as int, wx as int, 3 * COORD_LIMIT as int);
    }
    let cross: i64 = ux * wy - uy * wx;
    if cross >= 0 {
        cross
    } else {
        -cross
    }
}

/// The next point on the marched ray, at run time.
fn next_on_ray(a: Pos, b: Pos, x: i32, y: i32) -> (n: (i32, i32))
    requires
        a.in_range(),
        b.in_range(),
        within_seg(a.x as int, b.x as int, x as int),
        within_seg(a.y as int, b.y as int, y as int),
        !(x == b.x && y == b.y),
    ensures
        (n.0 as int, n.1 as int) == ray_next(
            a.x as int, a.y as int, b.x as int, b.y as int, x as int, y as int),
        within_seg(a.x as int, b.x as int, n.0 as int),
        within_seg(a.y as int, b.y as int, n.1 as int),
        abs(b.x - n.0) + abs(b.y - n.1) < abs(b.x - x) + abs(b.y - y),
{
    let sx: i32 = if b.x > x {
        1
    } else if b.x < x {
        -1
    } else {
        0
    };
    let sy: i32 = if b.y > y {
        1
    } else if b.y < y {
        -1
    } else {
        0
    };
    if x == b.x {
        (x, y + sy)
    } else if y == b.y {
        (x + sx, y)
    } else {
        let dev_x = dev(a, b, x + sx, y);
        let dev_y = dev(a, b, x, y + sy);
        if dev_x <= dev_y {
            (x + sx, y)
        } else {
            (x, y + sy)
        }
    }
}

/// Whether the marched ray from `a` to `b` meets no wall strictly before
/// reaching `b`.
pub fn line_clear(f: &Field, a: Pos, b: Pos) -> (r: bool)
    requires
        f.wf(),
        a.in_range(),
        b.in_range(),
    ensures
        r == ray_clear(*f, line_seq(a.x as int, a.y as int, b.x as int, b.y as int)),
{
    let ghost line = line_seq(a.x as int, a.y as int, b.x as int, b.y as int);
    let mut x: i32 = a.x;
    let mut y: i32 = a.y;
    let ghost mut k: int = 0;
    proof {
        lemma_ray_seq_shape(a.x as int, a.y as int, b.x as int, b.y as int, x as int, y as int);
        assert(line.subrange(k, line.len() as int) =~= line);
    }
    while !(x == b.x && y == b.y)
        invariant
            f.wf(),
            a.in_range(),
            b.in_range(),
            within_seg(a.x as int, b.x as int, x as int),
            within_seg(a.y as int, b.y as int, y as int),
            0 <= k < line.len(),
            line == line_seq(a.x as int, a.y as int, b.x as int, b.y as int),
            line.subrange(k, line.len() as int) == ray_seq(
                a.x as int, a.y as int, b.x as int, b.y as int, x as int, y as int),
            forall|i: int| 0 <= i < k ==> !f.wall_at(#[trigger] line[i].0, line[i].1),
        decreases abs(b.x - x) + abs(b.y - y),
    {
        let ghost rem = ray_seq(a.x as int, a.y as int, b.x as int, b.y as int, x as int, y as int);
        proof {
            lemma_ray_seq_shape(
                a.x as int, a.y as int, b.x as int, b.y as int, x as int, y as int);
            assert(line[k] == rem[0]);
            assert(rem.len() >= 2);
        }
        if f.is_wall(x, y) {
            proof {
                assert(0 <= k < line.len() - 1 && f.wall_at(line[k].0, line[k].1));
            }
            return false;
        }
        let n = next_on_ray(a, b, x, y);
        proof {
            let nxt = ray_next(a.x as int, a.y as int, b.x as int, b.y as int, x as int, y as int);
            let rest = ray_seq(a.x as int, a.y as int, b.x as int, b.y as int, nxt.0, nxt.1);
            assert(rem == seq![(x as int, y as int)] + rest);
            assert(line.subrange(k + 1, line.len() as int) =~= rest) by {
                assert forall|i: int| 0 <= i < line.len() - (k + 1)
                    implies line.subrange(k + 1, line.len() as int)[i] == rest[i] by {
                    assert(line.subrange(k, line.len() as int)[i + 1] == rem[i + 1]);
                }
            }
            k = k + 1;
        }
        x = n.0;
        y = n.1;
    }
    proof {
        let rem = ray_seq(a.x as int, a.y as int, b.x as int, b.y as int, x as int, y as int);
        assert(rem.len() == 1);
        assert(k == line.len() - 1);
    }
    true
}

/// What a computed field of view looks like: exactly the visible cells,
/// listed in strictly increasing (y, x) order, so the list is duplicate-free
/// and is a function of the field, origin and radius alone.
pub open spec fn fov_chars(f: Field, origin: Pos, radius: int, s: Seq<Pos>) -> bool {
    &&& forall|k: int| 0 <= k < s.len()
        ==> visible_spec(f, origin.x as int, origin.y as int, radius,
            (#[trigger] s[k]).x as int, s[k].y as int)
    &&& forall|px: int, py: int|
        #[trigger] visible_spec(f, origin.x as int, origin.y as int, radius, px, py)
            ==> exists|k: int| 0 <= k < s.len() && #[trigger] s[k] == (Pos {
                x: px as i32,
                y: py as i32,
            })
    &&& forall|k1: int, k2: int|
        0 <= k1 < k2 < s.len() ==> s[k1].y < s[k2].y || (s[k1].y == s[k2].y && s[k1].x < s[k2].x)
}

/// A visible cell lies no further than `radius` from the origin on either
/// axis.
proof fn lemma_visible_in_box(f: Field, ox: int, oy: int, radius: int, px: int, py: int)
    requires
        visible_spec(f, ox, oy, radius, px, py),
        radius >= 0,
    ensures
        ox - radius <= px <= ox + radius,
        oy - radius <= py <= oy + radius,
        f.on_field(px, py),
{
    assert((px - ox) * (px - ox) + (py - oy) * (py - oy) <= radius * radius);
    assert(ox - radius <= px <= ox + radius && oy - radius <= py <= oy + radius)
        by (nonlinear_arith)
        requires
            (px - ox) * (px - ox) + (py - oy) * (py - oy) <= radius * radius,
            radius >= 0;
}

/// Recompute the field of view from an origin. The result is characterised
/// exactly by `fov_chars`, so recomputing from an unchanged origin always
/// yields the same set of cells.
pub fn compute_fov(f: &Field, origin: Pos, radius: i32) -> (v: Vec<Pos>)
    requires
        f.wf(),
        origin.in_range(),
        0 <= radius <= MAX_FIELD_SIDE as i32,
    ensures
        fov_chars(*f, origin, radius as int, v@),
        forall|k: int| 0 <= k < v@.len() ==> (#[trigger] v@[k]).in_range(),
{
    let w = f.width();
    let h = f.height();
    let x0: i32 = origin.x - radius;
    let x0: i32 = if x0 > 0 {
        x0
    } else {
        0
    };
    let y0: i32 = origin.y - radius;
    let y0: i32 = if y0 > 0 {
        y0
    } else {
        0
    };
    let ghost ox = origin.x as int;
    let ghost oy = origin.y as int;
    let ghost rad = radius as int;
    let mut v: Vec<Pos> = Vec::new();
    let mut y: i32 = y0;
    proof {
        assert forall|px: int, py: int|
            visible_spec(*f, ox, oy, rad, px, py) && py < y0
            implies exists|k: int| 0 <= k < v@.len() && #[trigger] v@[k] == (Pos {
                x: px as i32,
                y: py as i32,
            }) by {
            lemma_visible_in_box(*f, ox, oy, rad, px, py);
        }
    }
    while y < h as i32 && y <= origin.y + radius
        invariant
            f.wf(),
            origin.in_range(),
            0 <= radius <= MAX_FIELD_SIDE as i32,
            w == f.width_spec(),
            h == f.height_spec(),
            ox == origin.x as int,
            oy == origin.y as int,
            rad == radius as int,
            x0 == if ox - rad > 0 { ox - rad } else { 0 },
            y0 == if oy - rad > 0 { oy - rad } else { 0 },
            y0 <= y,
            forall|k: int| 0 <= k < v@.len() ==> (#[trigger] v@[k]).in_range()
                && visible_spec(*f, ox, oy, rad, v@[k].x as int, v@[k].y as int)
                && v@[k].y < y,
            forall|px: int, py: int|
                #[trigger] visible_spec(*f, ox, oy, rad, px, py) && py < y
                    ==> exists|k: int| 0 <= k < v@.len() && #[trigger] v@[k] == (Pos {
                        x: px as i32,
                        y: py as i32,
                    }),
            forall|k1: int, k2: int|
                0 <= k1 < k2 < v@.len()
                    ==> v@[k1].y < v@[k2].y || (v@[k1].y == v@[k2].y && v@[k1].x < v@[k2].x),
        decreases h as int - y,
    {
        let mut x: i32 = x0;
        proof {
            assert forall|px: int, py: int|
                visible_spec(*f, ox, oy, rad, px, py) && (py < y || (py == y && px < x0))
                implies exists|k: int| 0 <= k < v@.len() && #[trigger] v@[k] == (Pos {
                    x: px as i32,
                    y: py as i32,
                }) by {
                lemma_visible_in_box(*f, ox, oy, rad, px, py);
            }
        }
        while x < w as i32 && x <= origin.x + radius
            invariant
                f.wf(),
                origin.in_range(),
                0 <= radius <= MAX_FIELD_SIDE as i32,
                w == f.width_spec(),
                h == f.height_spec(),
                ox == origin.x as int,
                oy == origin.y as int,
                rad == radius as int,
                x0 == if ox - rad > 0 { ox - rad } else { 0 },
                0 <= y < h as i32,
                x0 <= x,
                forall|k: int| 0 <= k < v@.len() ==> (#[trigger] v@[k]).in_range()
                    && visible_spec(*f, ox, oy, rad, v@[k].x as int, v@[k].y as int)
                    && (v@[k].y < y || (v@[k].y == y && v@[k].x < x)),
                forall|px: int, py: int|
                    #[trigger] visible_spec(*f, ox, oy, rad, px, py)
                        && (py < y || (py == y && px < x))
                        ==> exists|k: int| 0 <= k < v@.len() && #[trigger] v@[k] == (Pos {
                            x: px as i32,
                            y: py as i32,
                        }),
                forall|k1: int, k2: int|
                    0 <= k1 < k2 < v@.len()
                        ==> v@[k1].y < v@[k2].y || (v@[k1].y == v@[k2].y && v@[k1].x < v@[k2].x),
            decreases w as int - x,
        {
            let p = Pos { x, y };
            let dx: i64 = x as i64 - origin.x as i64;
            let dy: i64 = y as i64 - origin.y as i64;
            proof {
                crate::pos::lemma_square_bound(dx as int, 2 * COORD_LIMIT as int);
                crate::pos::lemma_square_bound(dy as int, 2 * COORD_LIMIT as int);
                crate::pos::lemma_square_bound(radius as int, 2 * COORD_LIMIT as int);
            }
            let ghost prev = v@;
            let within = dx * dx + dy * dy <= (radius as i64) * (radius as i64);
            let seen = within && line_clear(f, origin, p);
            proof {
                assert(seen == visible_spec(*f, ox, oy, rad, x as int, y as int));
            }
            if seen {
                v.push(p);
            }
            proof {
                assert forall|px: int, py: int|
                    visible_spec(*f, ox, oy, rad, px, py) && (py < y || (py == y && px < x + 1))
                    implies exists|k: int| 0 <= k < v@.len() && #[trigger] v@[k] == (Pos {
                        x: px as i32,
                        y: py as i32,
                    }) by {
                    let q = Pos { x: px as i32, y: py as i32 };
                    if py == y && px == x {
                        assert(v@[v@.len() - 1] == q);
                    } else {
                        let k = choose|k: int| 0 <= k < prev.len() && #[trigger] prev[k] == q;
                        assert(v@[k] == q);
                    }
                }
            }
            x = x + 1;
        }
        proof {
            assert forall|px: int, py: int|
                visible_spec(*f, ox, oy, rad, px, py) && py < y + 1
                implies exists|k: int| 0 <= k < v@.len() && #[trigger] v@[k] == (Pos {
                    x: px as i32,
                    y: py as i32,
                }) by {
                if py == y {
                    lemma_visible_in_box(*f, ox, oy, rad, px, py);
                }
            }
        }
        y = y + 1;
    }
    proof {
        assert forall|px: int, py: int| visible_spec(*f, ox, oy, rad, px, py)
            implies exists|k: int| 0 <= k < v@.len() && #[trigger] v@[k] == (Pos {
                x: px as i32,
                y: py as i32,
            }) by {
            lemma_visible_in_box(*f, ox, oy, rad, px, py);
        }
    }
    v
}

/// Strict (y, x) ordering of positions.
pub open spec fn pos_lex_lt(p: Pos, q: Pos) -> bool {
    p.y < q.y || (p.y == q.y && p.x < q.x)
}

/// Recomputing the field of view from the same field, origin and radius can
/// only ever yield the very same list of cells: the computation is
/// deterministic, so the memoised view never needs refreshing while the
/// player stands still.
pub proof fn lemma_fov_recompute_same(f: Field, origin: Pos, radius: int, s1: Seq<Pos>, s2: Seq<Pos>)
    requires
        fov_chars(f, origin, radius, s1),
        fov_chars(f, origin, radius, s2),
    ensures
        s1 == s2,
        forall|p: Pos| s1.contains(p) <==> s2.contains(p),
{
    assert forall|p: Pos| s1.contains(p) implies s2.contains(p) by {
        lemma_fov_member_carries(f, origin, radius, s1, s2, p);
    }
    assert forall|p: Pos| s2.contains(p) implies s1.contains(p) by {
        lemma_fov_member_carries(f, origin, radius, s2, s1, p);
    }
    assert forall|k1: int, k2: int| 0 <= k1 < k2 < s1.len()
        implies pos_lex_lt(s1[k1], s1[k2]) by {}
    assert forall|k1: int, k2: int| 0 <= k1 < k2 < s2.len()
        implies pos_lex_lt(s2[k1], s2[k2]) by {}
    lemma_lex_sorted_members_unique(s1, s2);
}

/// Two strictly (y, x)-ordered lists with the same members are the same
/// list.
proof fn lemma_lex_sorted_members_unique(s1: Seq<Pos>, s2: Seq<Pos>)
    requires
        forall|k1: int, k2: int| 0 <= k1 < k2 < s1.len() ==> pos_lex_lt(s1[k1], s1[k2]),
        forall|k1: int, k2: int| 0 <= k1 < k2 < s2.len() ==> pos_lex_lt(s2[k1], s2[k2]),
        forall|p: Pos| s1.contains(p) <==> s2.contains(p),
    ensures
        s1 == s2,
    decreases s1.len(),
{
    if s1.len() == 0 {
        if s2.len() > 0 {
            assert(s2.contains(s2[0]));
            assert(s1.contains(s2[0]));
        }
        assert(s1 =~= s2);
    } else {
        assert(s2.len() > 0) by {
            assert(s1.contains(s1[0]));
            assert(s2.contains(s1[0]));
        }
        assert(s1[0] == s2[0]) by {
            assert(s2.contains(s1[0])) by {
                assert(s1.contains(s1[0]));
            }
            assert(s1.contains(s2[0])) by {
                assert(s2.contains(s2[0]));
            }
            let j = choose|j: int| 0 <= j < s2.len() && s2[j] == s1[0];
            let i = choose|i: int| 0 <= i < s1.len() && s1[i] == s2[0];
            if j > 0 {
                assert(pos_lex_lt(s2[0], s1[0]));
                if i > 0 {
                    assert(pos_lex_lt(s1[0], s2[0]));
                }
            }
        }
        let t1 = s1.subrange(1, s1.len() as int);
        let t2 = s2.subrange(1, s2.len() as int);
        assert forall|p: Pos| t1.contains(p) implies t2.contains(p) by {
            lemma_lex_tail_member(s1, s2, p);
        }
        assert forall|p: Pos| t2.contains(p) implies t1.contains(p) by {
            lemma_lex_tail_member(s2, s1, p);
        }
        lemma_lex_sorted_members_unique(t1, t2);
        assert forall|k: int| 0 <= k < s1.len() implies s1[k] == s2[k] by {
            if k > 0 {
                assert(t1[k - 1] == s1[k]);
                assert(t2[k - 1] == s2[k]);
            }
        }
        assert(s1 =~= s2);
    }
}

/// A member of the tail of one ordered list is a member of the tail of the
/// other, given the lists share their members and their head.
proof fn lemma_lex_tail_member(s1: Seq<Pos>, s2: Seq<Pos>, p: Pos)
    requires
        s1.len() > 0,
        s2.len() > 0,
        s1[0] == s2[0],
        forall|k1: int, k2: int| 0 <= k1 < k2 < s1.len() ==> pos_lex_lt(s1[k1], s1[k2]),
        forall|k1: int, k2: int| 0 <= k1 < k2 < s2.len() ==> pos_lex_lt(s2[k1], s2[k2]),
        forall|q: Pos| s1.contains(q) <==> s2.contains(q),
        s1.subrange(1, s1.len() as int).contains(p),
    ensures
        s2.subrange(1, s2.len() as int).contains(p),
{
    let t1 = s1.subrange(1, s1.len() as int);
    let k = choose|k: int| 0 <= k < t1.len() && t1[k] == p;
    assert(s1[k + 1] == p);
    assert(pos_lex_lt(s1[0], p));
    assert(s1.contains(p));
    assert(s2.contains(p));
    let j = choose|j: int| 0 <= j < s2.len() && s2[j] == p;
    assert(j != 0);
    assert(s2.subrange(1, s2.len() as int)[j - 1] == p);
}

/// A member of one characterised field-of-view list is a member of any
/// other.
proof fn lemma_fov_member_carries(
    f: Field,
    origin: Pos,
    radius: int,
    s1: Seq<Pos>,
    s2: Seq<Pos>,
    p: Pos,
)
    requires
        fov_chars(f, origin, radius, s1),
        fov_chars(f, origin, radius, s2),
        s1.contains(p),
    ensures
        s2.contains(p),
{
    let k = choose|k: int| 0 <= k < s1.len() && s1[k] == p;
    assert(visible_spec(f, origin.x as int, origin.y as int, radius, p.x as int, p.y as int));
    let j = choose|j: int| 0 <= j < s2.len() && s2[j] == (Pos {
        x: p.x as int as i32,
        y: p.y as int as i32,
    });
    assert(s2[j] == p);
}

} // verus!
