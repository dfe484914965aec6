use vstd::prelude::*;

verus! {

/// A probe's position and velocity.
#[derive(Debug, Clone, Copy, PartialEq, Eq, Structural)]
pub struct Probe {
    pub x: i32,
    pub y: i32,
    pub x_vel: i32,
    pub y_vel: i32,
}

/// Position and velocity as integers.
pub struct Motion {
    pub x: int,
    pub y: int,
    pub vx: int,
    pub vy: int,
}

impl Probe {
    pub open spec fn motion(self) -> Motion {
        Motion { x: self.x as int, y: self.y as int, vx: self.x_vel as int, vy: self.y_vel as int }
    }
}

/// One step: the probe moves by its velocity, drag brings the horizontal
/// velocity one closer to zero, and gravity lowers the vertical one by one.
pub open spec fn stepped(m: Motion) -> Motion {
    Motion {
        x: m.x + m.vx,
        y: m.y + m.vy,
        vx: if m.vx > 0 {
            m.vx - 1
        } else if m.vx < 0 {
            m.vx + 1
        } else {
            0
        },
        vy: m.vy - 1,
    }
}

/// The lowest height the probe may pass through and still go on: 0, or the
/// bottom of the target when that is lower.
pub open spec fn floor_of(t: ((i32, i32), (i32, i32))) -> int {
    if t.0.1 < 0 {
        t.0.1 as int
    } else {
        0
    }
}

pub open spec fn in_target(t: ((i32, i32), (i32, i32)), x: int, y: int) -> bool {
    t.0.0 <= x <= t.1.0 && t.0.1 <= y <= t.1.1
}

/// `s` with `p` added at the end unless it is already there.
pub open spec fn with_point(s: Seq<(i32, i32)>, p: (i32, i32)) -> Seq<(i32, i32)> {
    if s.contains(p) {
        s
    } else {
        s.push(p)
    }
}

/// Flying on from `m` with the points `seen` so far: whether the target is
/// hit, and every point passed, once each, in the order first reached. The
/// flight stops after a step that leaves the probe at x = 0 outside the
/// target's columns, or below both 0 and the target; or on reaching the
/// target.
pub open spec fn flight(m: Motion, t: ((i32, i32), (i32, i32)), seen: Seq<(i32, i32)>) -> (
    bool,
    Seq<(i32, i32)>,
)
    decreases (if m.vy >= 0 {
        m.vy + 1
    } else {
        0
    }), m.y - floor_of(t),
{
    let n = stepped(m);
    if n.x == 0 && (n.x < t.0.0 || n.x > t.1.0) {
        (false, seen)
    } else if n.y < 0 && n.y < t.0.1 {
        (false, seen)
    } else {
        let seen2 = with_point(seen, (n.x as i32, n.y as i32));
        if in_target(t, n.x, n.y) {
            (true, seen2)
        } else {
            flight(n, t, seen2)
        }
    }
}

/// How far from the origin a start position or a target corner may lie.
pub const FIELD_LIMIT: i32 = 1048576;

/// How large a start velocity may be.
pub const SPEED_LIMIT: i32 = 1024;

pub open spec fn start_ok(p: Probe, t: ((i32, i32), (i32, i32))) -> bool {
    &&& -FIELD_LIMIT <= p.x <= FIELD_LIMIT
    &&& -FIELD_LIMIT <= p.y <= FIELD_LIMIT
    &&& -SPEED_LIMIT <= p.x_vel <= SPEED_LIMIT
    &&& -SPEED_LIMIT <= p.y_vel <= SPEED_LIMIT
    &&& -FIELD_LIMIT <= t.0.0 <= FIELD_LIMIT
    &&& -FIELD_LIMIT <= t.0.1 <= FIELD_LIMIT
    &&& -FIELD_LIMIT <= t.1.0 <= FIELD_LIMIT
    &&& -FIELD_LIMIT <= t.1.1 <= FIELD_LIMIT
}

/// What stays the same from step to step: 2y + vy(vy + 1), and 2x +
/// vx(vx + 1) or 2x - vx(1 - vx) by the sign of vx.
pub open spec fn energy_y(m: Motion) -> int {
    2 * m.y + m.vy * (m.vy + 1)
}

pub open spec fn energy_x(m: Motion) -> int {
    if m.vx >= 0 {
        2 * m.x + m.vx * (m.vx + 1)
    } else {
        2 * m.x - m.vx * (m.vx - 1)
    }
}

impl Probe {
    /// Moves the probe one step (see `stepped`) and returns its new
    /// position and velocity.
    pub fn next(&mut self) -> (r: ((i32, i32), (i32, i32)))
        requires
            old(self).x + old(self).x_vel <= i32::MAX,
            old(self).x + old(self).x_vel >= i32::MIN,
            old(self).y + old(self).y_vel <= i32::MAX,
            old(self).y + old(self).y_vel >= i32::MIN,
            old(self).y_vel > i32::MIN,
        ensures
            final(self).motion() == stepped(old(self).motion()),
            r == ((final(self).x, final(self).y), (final(self).x_vel, final(self).y_vel)),
    {
        self.x = self.x + self.x_vel;
        self.y = self.y + self.y_vel;
        if self.x_vel > 0 {
            self.x_vel = self.x_vel - 1;
        } else if self.x_vel < 0 {
            self.x_vel = self.x_vel + 1;
        }
        self.y_vel = self.y_vel - 1;
        ((self.x, self.y), (self.x_vel, self.y_vel))
    }
}

proof fn lemma_step_keeps_energy(m: Motion)
    ensures
        energy_y(stepped(m)) == energy_y(m),
        energy_x(stepped(m)) == energy_x(m),
{
    let n = stepped(m);
    assert(energy_y(n) == energy_y(m)) by (nonlinear_arith)
        requires
            n.y == m.y + m.vy,
            n.vy == m.vy - 1,
    ;
    if m.vx > 0 {
        assert(energy_x(n) == energy_x(m)) by (nonlinear_arith)
            requires
                n.x == m.x + m.vx,
                n.vx == m.vx - 1,
                m.vx > 0,
                energy_x(n) == 2 * n.x + n.vx * (n.vx + 1),
                energy_x(m) == 2 * m.x + m.vx * (m.vx + 1),
        ;
    } else if m.vx < 0 {
        assert(energy_x(n) == energy_x(m)) by (nonlinear_arith)
            requires
                n.x == m.x + m.vx,
                n.vx == m.vx + 1,
                m.vx < 0,
                n.vx <= 0,
                n.vx < 0 ==> energy_x(n) == 2 * n.x - n.vx * (n.vx - 1),
                n.vx == 0 ==> energy_x(n) == 2 * n.x,
                energy_x(m) == 2 * m.x - m.vx * (m.vx - 1),
        ;
    }
}

/// Flies the probe until it stops (see `flight`): whether it hit the
/// target area `((x1, y1), (x2, y2))`, and the points it passed.
pub fn run_probe(probe: Probe, target_area: &((i32, i32), (i32, i32))) -> (r: (bool, Vec<(i32, i32)>))
    requires
        start_ok(probe, *target_area),
    ensures
        (r.0, r.1@) == flight(probe.motion(), *target_area, Seq::empty()),
{
    let t = *target_area;
    let mut p = probe;
    let mut steps: Vec<(i32, i32)> = Vec::new();
    let ghost ey = energy_y(probe.motion());
    let ghost ex = energy_x(probe.motion());
    loop
        invariant
            start_ok(probe, t),
            t == *target_area,
            energy_y(p.motion()) == ey,
            energy_x(p.motion()) == ex,
            ey == energy_y(probe.motion()),
            ex == energy_x(probe.motion()),
            p.y >= floor_of(t) || p.y == probe.y,
            -SPEED_LIMIT <= p.x_vel <= SPEED_LIMIT,
            flight(probe.motion(), t, Seq::empty()) == flight(p.motion(), t, steps@),
        decreases (if p.y_vel >= 0 {
            p.y_vel + 1
        } else {
            0
        }), p.y - floor_of(t),
    {
        proof {
            lemma_bounds(probe, p, t);
            lemma_step_keeps_energy(p.motion());
        }
        let (pos, _) = p.next();
        let (x, y) = pos;
        if x == 0 && (x < t.0.0 || x > t.1.0) {
            return (false, steps);
        }
        if y < 0 && y < t.0.1 {
            return (false, steps);
        }
        let mut k: usize = 0;
        while k < steps.len() && !(steps[k].0 == x && steps[k].1 == y)
            invariant
                k <= steps.len(),
                forall|l: int| 0 <= l < k ==> steps@[l] != (x, y),
            decreases steps.len() - k,
        {
            k = k + 1;
        }
        if k == steps.len() {
            steps.push((x, y));
        } else {
            proof {
                assert(steps@[k as int] == (x, y));
                assert(steps@.contains((x, y)));
            }
        }
        if x >= t.0.0 && x <= t.1.0 && y >= t.0.1 && y <= t.1.1 {
            return (true, steps);
        }
    }
}

proof fn lemma_bounds(start: Probe, p: Probe, t: ((i32, i32), (i32, i32)))
    requires
        start_ok(start, t),
        energy_y(p.motion()) == energy_y(start.motion()),
        energy_x(p.motion()) == energy_x(start.motion()),
        p.y >= floor_of(t) || p.y == start.y,
        -SPEED_LIMIT <= p.x_vel <= SPEED_LIMIT,
    ensures
        -4000 <= p.y_vel <= 4000,
        -4000000 <= p.y <= 4000000,
        -4000000 <= p.x <= 4000000,
{
    let m = p.motion();
    let s = start.motion();
    assert(-2097152 - 1048576 - 1024 <= energy_y(s) <= 2097152 + 1049600) by (nonlinear_arith)
        requires
            -1048576 <= s.y <= 1048576,
            -1024 <= s.vy <= 1024,
            energy_y(s) == 2 * s.y + s.vy * (s.vy + 1),
    ;
    assert(m.vy * (m.vy + 1) >= 0) by (nonlinear_arith);
    assert(m.y >= -1048576);
    assert(m.vy * (m.vy + 1) <= 8000000) by (nonlinear_arith)
        requires
            m.vy * (m.vy + 1) == energy_y(s) - 2 * m.y,
            energy_y(s) <= 2097152 + 1049600,
            m.y >= -1048576,
    ;
    assert(-4000 <= m.vy <= 4000) by (nonlinear_arith)
        requires
            m.vy * (m.vy + 1) <= 8000000,
    ;
    assert(-4000000 <= m.y <= 4000000) by (nonlinear_arith)
        requires
            2 * m.y == energy_y(s) - m.vy * (m.vy + 1),
            m.vy * (m.vy + 1) >= 0,
            m.vy * (m.vy + 1) <= 8000000,
            -2097152 - 1048576 - 1024 <= energy_y(s) <= 2097152 + 1049600,
            m.y >= -1048576,
    ;
    assert(-4000000 <= m.x <= 4000000) by (nonlinear_arith)
        requires
            -1048576 <= s.x <= 1048576,
            -1024 <= s.vx <= 1024,
            -1024 <= m.vx <= 1024,
            m.vx >= 0 ==> energy_x(m) == 2 * m.x + m.vx * (m.vx + 1),
            m.vx < 0 ==> energy_x(m) == 2 * m.x - m.vx * (m.vx - 1),
            s.vx >= 0 ==> energy_x(s) == 2 * s.x + s.vx * (s.vx + 1),
            s.vx < 0 ==> energy_x(s) == 2 * s.x - s.vx * (s.vx - 1),
            energy_x(m) == energy_x(s),
    ;
}

/// The smallest and largest x and y among `points`, the target corners and
/// the origin.
pub open spec fn covers(points: Seq<(i32, i32)>, t: ((i32, i32), (i32, i32)), b: (int, int, int, int)) -> bool {
    let (x1, y1, x2, y2) = b;
    &&& x1 <= 0 <= x2 && y1 <= 0 <= y2
    &&& x1 <= t.0.0 && t.1.0 <= x2 && y1 <= t.0.1 && t.1.1 <= y2
    &&& forall|k: int| 0 <= k < points.len() ==> x1 <= (#[trigger] points[k]).0 <= x2 && y1 <= points[k].1 <= y2
}

/// The character drawn at (x, y): 'S' (83) at the origin, '#' (35) where
/// the probe passed, 'T' (84) in the target, '.' (46) elsewhere.
pub open spec fn map_char(points: Seq<(i32, i32)>, t: ((i32, i32), (i32, i32)), x: int, y: int) -> u8 {
    if x == 0 && y == 0 {
        83
    } else if exists|k: int| 0 <= k < points.len() && points[k].0 == x && #[trigger] points[k].1 == y {
        35
    } else if in_target(t, x, y) {
        84
    } else {
        46
    }
}

fn passed(points: &Vec<(i32, i32)>, x: i32, y: i32) -> (r: bool)
    ensures
        r == exists|k: int| 0 <= k < points@.len() && points@[k].0 == x && #[trigger] points@[k].1 == y,
{
    let mut k: usize = 0;
    while k < points.len()
        invariant
            k <= points.len(),
            forall|l: int| 0 <= l < k ==> !(points@[l].0 == x && points@[l].1 == y),
        decreases points.len() - k,
    {
        if points[k].0 == x && points[k].1 == y {
            return true;
        }
        k = k + 1;
    }
    false
}

/// A picture of a flight: the rectangle that holds the origin, the target
/// and every point passed, as rows of characters from the top row down
/// (see `map_char`), with the rectangle's corners `(x1, y1, x2, y2)`.
pub fn probe_map(points: &Vec<(i32, i32)>, target_area: &((i32, i32), (i32, i32))) -> (r: (
    Vec<Vec<u8>>,
    (i32, i32, i32, i32),
))
    requires
        -FIELD_LIMIT <= target_area.0.0 <= FIELD_LIMIT,
        -FIELD_LIMIT <= target_area.0.1 <= FIELD_LIMIT,
        -FIELD_LIMIT <= target_area.1.0 <= FIELD_LIMIT,
        -FIELD_LIMIT <= target_area.1.1 <= FIELD_LIMIT,
        forall|k: int|
            0 <= k < points.len() ==> -FIELD_LIMIT <= (#[trigger] points@[k]).0 <= FIELD_LIMIT
                && -FIELD_LIMIT <= points@[k].1 <= FIELD_LIMIT,
    ensures
        ({
            let (x1, y1, x2, y2) = r.1;
            &&& covers(points@, *target_area, (x1 as int, y1 as int, x2 as int, y2 as int))
            &&& r.0.len() == y2 - y1 + 1
            &&& forall|row: int|
                0 <= row < r.0.len() ==> (#[trigger] r.0[row]).len() == x2 - x1 + 1
            &&& forall|row: int, col: int|
                0 <= row < r.0.len() && 0 <= col <= x2 - x1 ==> #[trigger] r.0[row]@[col] == map_char(
                    points@,
                    *target_area,
                    x1 + col,
                    y2 - row,
                )
        }),
{
    let t = *target_area;
    let mut x1: i32 = if t.0.0 < 0 { t.0.0 } else { 0 };
    let mut x2: i32 = if t.1.0 > 0 { t.1.0 } else { 0 };
    let mut y1: i32 = if t.0.1 < 0 { t.0.1 } else { 0 };
    let mut y2: i32 = if t.1.1 > 0 { t.1.1 } else { 0 };
    let mut k: usize = 0;
    while k < points.len()
        invariant
            t == *target_area,
            -FIELD_LIMIT <= x1 && x2 <= FIELD_LIMIT && -FIELD_LIMIT <= y1 && y2 <= FIELD_LIMIT,
            forall|l: int|
                0 <= l < points.len() ==> -FIELD_LIMIT <= (#[trigger] points@[l]).0 <= FIELD_LIMIT
                    && -FIELD_LIMIT <= points@[l].1 <= FIELD_LIMIT,
            k <= points.len(),
            x1 <= 0 <= x2 && y1 <= 0 <= y2,
            x1 <= t.0.0 && t.1.0 <= x2 && y1 <= t.0.1 && t.1.1 <= y2,
            forall|l: int| 0 <= l < k ==> x1 <= (#[trigger] points@[l]).0 <= x2 && y1 <= points@[l].1 <= y2,
        decreases points.len() - k,
    {
        let (x, y) = points[k];
        if x < x1 {
            x1 = x;
        }
        if x > x2 {
            x2 = x;
        }
        if y < y1 {
            y1 = y;
        }
        if y > y2 {
            y2 = y;
        }
        k = k + 1;
    }
    let mut rows: Vec<Vec<u8>> = Vec::new();
    let mut y: i32 = y2;
    while y >= y1
        invariant
            t == *target_area,
            -FIELD_LIMIT <= x1 <= x2 <= FIELD_LIMIT,
            -FIELD_LIMIT <= y1 <= y2 <= FIELD_LIMIT,
            y1 - 1 <= y <= y2,
            rows.len() == y2 - y,
            forall|row: int| 0 <= row < rows.len() ==> (#[trigger] rows[row]).len() == x2 - x1 + 1,
            forall|row: int, col: int|
                0 <= row < rows.len() && 0 <= col <= x2 - x1 ==> #[trigger] rows[row]@[col] == map_char(
                    points@,
                    t,
                    x1 + col,
                    y2 - row,
                ),
        decreases y - y1 + 1,
    {
        let mut line: Vec<u8> = Vec::new();
        let mut x: i32 = x1;
        while x <= x2
            invariant
                t == *target_area,
                -FIELD_LIMIT <= x1 <= x2 <= FIELD_LIMIT,
                -FIELD_LIMIT <= y1 <= y <= y2 <= FIELD_LIMIT,
                x1 <= x <= x2 + 1,
                line.len() == x - x1,
                forall|col: int| 0 <= col < line.len() ==> #[trigger] line@[col] == map_char(points@, t, x1 + col, y as int),
            decreases x2 + 1 - x,
        {
            let c: u8 = if x == 0 && y == 0 {
                83
            } else if passed(points, x, y) {
                35
            } else if x >= t.0.0 && x <= t.1.0 && y >= t.0.1 && y <= t.1.1 {
                84
            } else {
                46
            };
            line.push(c);
            x = x + 1;
        }
        let ghost before = rows@;
        rows.push(line);
        proof {
            assert forall|row: int, col: int|
                0 <= row < rows.len() && 0 <= col <= x2 - x1 implies #[trigger] rows[row]@[col] == map_char(
                    points@,
                    t,
                    x1 + col,
                    y2 - row,
                ) by {
                if row < before.len() {
                    assert(rows[row] == before[row]);
                }
            }
        }
        y = y - 1;
    }
    (rows, (x1, y1, x2, y2))
}

} // verus!
