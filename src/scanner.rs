use vstd::prelude::*;

verus! {

/// How far from the origin a beacon coordinate may lie: far enough below
/// `i32::MAX` that differences and negations of coordinates fit.
pub const COORD_LIMIT: i32 = 536870912;

/// A position relative to a scanner.
#[derive(Debug, Clone, Copy, PartialEq, Eq, Structural)]
pub struct Loc {
    pub x: i32,
    pub y: i32,
    pub z: i32,
}

impl Loc {
    pub fn new(x: i32, y: i32, z: i32) -> (r: Loc)
        ensures
            r == (Loc { x, y, z }),
    {
        Loc { x, y, z }
    }

    /// Every coordinate lies within `COORD_LIMIT` of zero.
    pub open spec fn bounded(self) -> bool {
        &&& -COORD_LIMIT <= self.x <= COORD_LIMIT
        &&& -COORD_LIMIT <= self.y <= COORD_LIMIT
        &&& -COORD_LIMIT <= self.z <= COORD_LIMIT
    }
}

/// The beacons one scanner sees, in its own frame; how many of the six
/// facings have been tried; and the offset found by the last match.
#[derive(Debug)]
pub struct Scanner {
    pub beacons: Vec<Loc>,
    pub axis: i32,
    pub correction: (i32, i32, i32),
}

/// The turn that moves a scanner from facing `axis` to the next one: four
/// quarter turns about the y axis, then the two remaining facings.
pub open spec fn turn(axis: i32, b: Loc) -> Loc {
    if axis <= 3 {
        Loc { x: b.z, y: b.y, z: (-b.x) as i32 }
    } else if axis == 4 {
        Loc { x: b.x, y: (-b.z) as i32, z: b.y }
    } else {
        Loc { x: b.x, y: (-b.y) as i32, z: (-b.z) as i32 }
    }
}

/// A quarter turn about the z axis.
pub open spec fn quarter_turn(b: Loc) -> Loc {
    Loc { x: (-b.y) as i32, y: b.x, z: b.z }
}

/// The offset from beacon `a` to beacon `b`.
pub open spec fn offset(a: Loc, b: Loc) -> (i32, i32, i32) {
    ((b.x - a.x) as i32, (b.y - a.y) as i32, (b.z - a.z) as i32)
}

/// `b` moved back by `c`.
pub open spec fn shifted(b: Loc, c: (i32, i32, i32)) -> Loc {
    Loc { x: (b.x - c.0) as i32, y: (b.y - c.1) as i32, z: (b.z - c.2) as i32 }
}

/// The offsets of all pairs (known beacon `i'`, own beacon `j'`) that come
/// before (i, j), known beacons in the outer order.
pub open spec fn offsets_before(known: Seq<Loc>, own: Seq<Loc>, i: int, j: int) -> Seq<
    (i32, i32, i32),
>
    decreases i, j,
{
    if i <= 0 && j <= 0 {
        Seq::empty()
    } else if j > 0 {
        offsets_before(known, own, i, j - 1).push(offset(known[i], own[j - 1]))
    } else {
        offsets_before(known, own, i - 1, own.len() as int)
    }
}

/// How many times `d` occurs in `s`.
pub open spec fn occurrences(s: Seq<(i32, i32, i32)>, d: (i32, i32, i32)) -> nat
    decreases s.len(),
{
    if s.len() == 0 {
        0
    } else {
        occurrences(s.drop_last(), d) + if s.last() == d {
            1nat
        } else {
            0nat
        }
    }
}

/// Going through the pairs from (i, j) on, the first offset that some pair
/// shows for the fourth time.
pub open spec fn fourth_offset_from(known: Seq<Loc>, own: Seq<Loc>, i: int, j: int) -> Option<
    (i32, i32, i32),
>
    decreases known.len() - i, own.len() - j,
{
    if i >= known.len() || i < 0 || j < 0 {
        None
    } else if j >= own.len() {
        fourth_offset_from(known, own, i + 1, 0)
    } else {
        let d = offset(known[i], own[j]);
        if occurrences(offsets_before(known, own, i, j), d) + 1 == 4 {
            Some(d)
        } else {
            fourth_offset_from(known, own, i, j + 1)
        }
    }
}

/// The first offset shown by four pairs of a known beacon and an own one.
pub open spec fn fourth_offset(known: Seq<Loc>, own: Seq<Loc>) -> Option<(i32, i32, i32)> {
    fourth_offset_from(known, own, 0, 0)
}

/// Every beacon in `s` is bounded.
pub open spec fn all_bounded(s: Seq<Loc>) -> bool {
    forall|i: int| 0 <= i < s.len() ==> (#[trigger] s[i]).bounded()
}

/// `counts` holds, once each, every offset in `seen` with how often it occurs.
pub open spec fn tallies(counts: Seq<((i32, i32, i32), u32)>, seen: Seq<(i32, i32, i32)>) -> bool {
    &&& forall|k: int| 0 <= k < counts.len() ==> #[trigger] counts[k].1 == occurrences(seen, counts[k].0)
    &&& forall|k: int, l: int| 0 <= k < l < counts.len() ==> #[trigger] counts[k].0 != #[trigger] counts[l].0
    &&& forall|d: (i32, i32, i32)|
        occurrences(seen, d) > 0 ==> exists|k: int| 0 <= k < counts.len() && #[trigger] counts[k].0 == d
}

proof fn lemma_occurrences_le_len(s: Seq<(i32, i32, i32)>, d: (i32, i32, i32))
    ensures
        occurrences(s, d) <= s.len(),
    decreases s.len(),
{
    if s.len() > 0 {
        lemma_occurrences_le_len(s.drop_last(), d);
    }
}

fn same_offset(a: (i32, i32, i32), b: (i32, i32, i32)) -> (r: bool)
    ensures
        r == (a == b),
{
    a.0 == b.0 && a.1 == b.1 && a.2 == b.2
}

impl Scanner {
    pub fn new() -> (r: Scanner)
        ensures
            r.beacons@ == Seq::<Loc>::empty(),
            r.axis == 0,
            r.correction == (0i32, 0i32, 0i32),
    {
        Scanner { beacons: Vec::new(), axis: 0, correction: (0, 0, 0) }
    }

    /// Turns the scanner to its next facing (see `turn`).
    pub fn change_axis(&mut self)
        requires
            0 <= old(self).axis < 6,
            all_bounded(old(self).beacons@),
        ensures
            final(self).axis == old(self).axis + 1,
            final(self).correction == old(self).correction,
            final(self).beacons@ == old(self).beacons@.map_values(|b: Loc| turn(old(self).axis, b)),
            all_bounded(final(self).beacons@),
    {
        let axis = self.axis;
        let mut i: usize = 0;
        while i < self.beacons.len()
            invariant
                axis == old(self).axis,
                0 <= axis < 6,
                all_bounded(old(self).beacons@),
                self.axis == old(self).axis,
                self.correction == old(self).correction,
                self.beacons.len() == old(self).beacons.len(),
                i <= self.beacons.len(),
                forall|k: int| 0 <= k < i ==> #[trigger] self.beacons[k] == turn(axis, old(self).beacons[k]),
                forall|k: int| i <= k < self.beacons.len() ==> #[trigger] self.beacons[k] == old(self).beacons[k],
            decreases self.beacons.len() - i,
        {
            let b = self.beacons[i];
            assert(old(self).beacons@[i as int].bounded());
            let turned = if axis <= 3 {
                Loc::new(b.z, b.y, -b.x)
            } else if axis == 4 {
                Loc::new(b.x, -b.z, b.y)
            } else {
                Loc::new(b.x, -b.y, -b.z)
            };
            self.beacons.set(i, turned);
            i = i + 1;
        }
        self.axis = axis + 1;
        proof {
            assert(self.beacons@ =~= old(self).beacons@.map_values(|b: Loc| turn(axis, b)));
            assert forall|k: int| 0 <= k < self.beacons.len() implies (#[trigger] self.beacons@[k]).bounded() by {
                assert(old(self).beacons@[k].bounded());
            }
        }
    }

    /// Turns the scanner a quarter turn about its z axis.
    pub fn rotate_axis(&mut self)
        requires
            all_bounded(old(self).beacons@),
        ensures
            final(self).axis == old(self).axis,
            final(self).correction == old(self).correction,
            final(self).beacons@ == old(self).beacons@.map_values(|b: Loc| quarter_turn(b)),
            all_bounded(final(self).beacons@),
    {
        let mut i: usize = 0;
        while i < self.beacons.len()
            invariant
                all_bounded(old(self).beacons@),
                self.axis == old(self).axis,
                self.correction == old(self).correction,
                self.beacons.len() == old(self).beacons.len(),
                i <= self.beacons.len(),
                forall|k: int| 0 <= k < i ==> #[trigger] self.beacons[k] == quarter_turn(old(self).beacons[k]),
                forall|k: int| i <= k < self.beacons.len() ==> #[trigger] self.beacons[k] == old(self).beacons[k],
            decreases self.beacons.len() - i,
        {
            let b = self.beacons[i];
            assert(old(self).beacons@[i as int].bounded());
            self.beacons.set(i, Loc::new(-b.y, b.x, b.z));
            i = i + 1;
        }
        proof {
            assert(self.beacons@ =~= old(self).beacons@.map_values(|b: Loc| quarter_turn(b)));
            assert forall|k: int| 0 <= k < self.beacons.len() implies (#[trigger] self.beacons@[k]).bounded() by {
                assert(old(self).beacons@[k].bounded());
            }
        }
    }

    /// Moves every beacon back by the correction found by `all_match`.
    pub fn align(&mut self)
        requires
            all_bounded(old(self).beacons@),
            -2 * COORD_LIMIT <= old(self).correction.0 <= 2 * COORD_LIMIT,
            -2 * COORD_LIMIT <= old(self).correction.1 <= 2 * COORD_LIMIT,
            -2 * COORD_LIMIT <= old(self).correction.2 <= 2 * COORD_LIMIT,
        ensures
            final(self).axis == old(self).axis,
            final(self).correction == old(self).correction,
            final(self).beacons@ == old(self).beacons@.map_values(
                |b: Loc| shifted(b, old(self).correction),
            ),
    {
        let c = self.correction;
        let mut i: usize = 0;
        while i < self.beacons.len()
            invariant
                all_bounded(old(self).beacons@),
                c == old(self).correction,
                -2 * COORD_LIMIT <= c.0 <= 2 * COORD_LIMIT,
                -2 * COORD_LIMIT <= c.1 <= 2 * COORD_LIMIT,
                -2 * COORD_LIMIT <= c.2 <= 2 * COORD_LIMIT,
                self.axis == old(self).axis,
                self.correction == old(self).correction,
                self.beacons.len() == old(self).beacons.len(),
                i <= self.beacons.len(),
                forall|k: int| 0 <= k < i ==> #[trigger] self.beacons[k] == shifted(old(self).beacons[k], c),
                forall|k: int| i <= k < self.beacons.len() ==> #[trigger] self.beacons[k] == old(self).beacons[k],
            decreases self.beacons.len() - i,
        {
            let b = self.beacons[i];
            assert(old(self).beacons@[i as int].bounded());
            self.beacons.set(i, Loc::new(b.x - c.0, b.y - c.1, b.z - c.2));
            i = i + 1;
        }
        proof {
            assert(self.beacons@ =~= old(self).beacons@.map_values(|b: Loc| shifted(b, c)));
        }
    }

    /// Looks for an offset that four pairs of a known beacon and one of this
    /// scanner's beacons share, going through the known beacons in order and,
    /// for each, through this scanner's beacons. The first offset to be seen
    /// four times becomes the correction; returns whether there was one.
    pub fn all_match(&mut self, other: &Vec<Loc>) -> (r: bool)
        requires
            all_bounded(old(self).beacons@),
            all_bounded(other@),
            other.len() * old(self).beacons.len() <= u32::MAX,
        ensures
            final(self).beacons == old(self).beacons,
            final(self).axis == old(self).axis,
            r == fourth_offset(other@, old(self).beacons@) is Some,
            r ==> final(self).correction == fourth_offset(other@, old(self).beacons@)->0,
            !r ==> final(self).correction == old(self).correction,
    {
        let ghost known = other@;
        let ghost own = self.beacons@;
        let mut counts: Vec<((i32, i32, i32), u32)> = Vec::new();
        let mut i: usize = 0;
        while i < other.len()
            invariant
                known == other@,
                own == self.beacons@,
                *self == *old(self),
                all_bounded(own),
                all_bounded(known),
                other.len() * self.beacons.len() <= u32::MAX,
                i <= other.len(),
                fourth_offset(known, own) == fourth_offset_from(known, own, i as int, 0),
                tallies(counts@, offsets_before(known, own, i as int, 0)),
                offsets_before(known, own, i as int, 0).len() == i * own.len(),
            decreases other.len() - i,
        {
            let a = other[i];
            let mut j: usize = 0;
            while j < self.beacons.len()
                invariant
                    known == other@,
                    own == self.beacons@,
                    *self == *old(self),
                    all_bounded(own),
                    all_bounded(known),
                    other.len() * self.beacons.len() <= u32::MAX,
                    i < other.len(),
                    a == known[i as int],
                    j <= self.beacons.len(),
                    fourth_offset(known, own) == fourth_offset_from(known, own, i as int, j as int),
                    tallies(counts@, offsets_before(known, own, i as int, j as int)),
                    offsets_before(known, own, i as int, j as int).len() == i * own.len() + j,
                decreases self.beacons.len() - j,
            {
                let b = self.beacons[j];
                proof {
                    assert(known[i as int].bounded());
                    assert(own[j as int].bounded());
                }
                let d = (b.x - a.x, b.y - a.y, b.z - a.z);
                let ghost seen = offsets_before(known, own, i as int, j as int);
                let ghost next_seen = seen.push(d);
                assert(offsets_before(known, own, i as int, j + 1) == next_seen);
                proof {
                    lemma_occurrences_le_len(seen, d);
                    assert((i * own.len() + j) < other.len() * self.beacons.len()) by (nonlinear_arith)
                        requires
                            i < other.len(),
                            j < self.beacons.len(),
                            own.len() == self.beacons.len(),
                    ;
                }
                let mut k: usize = 0;
                while k < counts.len() && !same_offset(counts[k].0, d)
                    invariant
                        k <= counts.len(),
                        forall|l: int| 0 <= l < k ==> (#[trigger] counts@[l]).0 != d,
                    decreases counts.len() - k,
                {
                    k = k + 1;
                }
                let ghost before = counts@;
                let entry: u32 = if k < counts.len() {
                    let c = counts[k].1 + 1;
                    counts.set(k, (d, c));
                    c
                } else {
                    counts.push((d, 1));
                    1
                };
                proof {
                    assert(next_seen.drop_last() =~= seen);
                    assert(occurrences(next_seen, d) == occurrences(seen, d) + 1);
                    assert forall|e: (i32, i32, i32)| e != d implies occurrences(next_seen, e)
                        == occurrences(seen, e) by {}
                    if k == before.len() {
                        if occurrences(seen, d) > 0 {
                            let l = choose|l: int| 0 <= l < before.len() && #[trigger] before[l].0 == d;
                            assert(before[l].0 != d);
                        }
                    }
                    assert(entry == occurrences(next_seen, d));
                    assert forall|l: int| 0 <= l < counts.len() && l != k implies #[trigger] counts@[l]
                        == before[l] by {}
                    assert forall|l: int| 0 <= l < counts.len() implies #[trigger] counts@[l].1
                        == occurrences(next_seen, counts@[l].0) by {
                        if l != k {
                            assert(before[l].0 != d);
                        }
                    }
                    assert forall|l: int, m: int| 0 <= l < m < counts.len() implies #[trigger] counts@[l].0
                        != #[trigger] counts@[m].0 by {
                        if m == k && k == before.len() {
                            assert(before[l].0 != d);
                        }
                    }
                    assert forall|d2: (i32, i32, i32)| occurrences(next_seen, d2) > 0 implies exists|l: int|
                        0 <= l < counts.len() && #[trigger] counts@[l].0 == d2 by {
                        if d2 == d {
                            assert(counts@[k as int].0 == d);
                        } else {
                            let l = choose|l: int| 0 <= l < before.len() && #[trigger] before[l].0 == d2;
                            assert(counts@[l].0 == d2);
                        }
                    }
                    assert(tallies(counts@, next_seen));
                }
                if entry == 4 {
                    self.correction = d;
                    return true;
                }
                j = j + 1;
            }
            proof {
                assert(offsets_before(known, own, i + 1, 0) == offsets_before(known, own, i as int, own.len() as int));
                assert((i + 1) * own.len() == i * own.len() + own.len()) by (nonlinear_arith);
            }
            i = i + 1;
        }
        false
    }
}

/// The index of the first ',' (44) in `s` at or after `from`, or the length
/// of `s` when there is none.
pub open spec fn next_comma(s: Seq<u8>, from: int) -> int
    decreases s.len() - from,
{
    if from >= s.len() || from < 0 {
        s.len() as int
    } else if s[from] == 44 {
        from
    } else {
        next_comma(s, from + 1)
    }
}

/// The value of the decimal digits `s[from..to]`, when all are digits.
pub open spec fn digits_of(s: Seq<u8>, from: int, to: int) -> Option<nat>
    decreases to - from,
{
    if to <= from {
        Some(0)
    } else if !(48 <= s[to - 1] <= 57) {
        None
    } else {
        match digits_of(s, from, to - 1) {
            Some(v) => Some(v * 10 + (s[to - 1] - 48) as nat),
            None => None,
        }
    }
}

/// The integer written in `s[from..to]`: an optional sign ('+' is 43, '-'
/// is 45) and at least one digit, when it fits in an `i32`.
pub open spec fn coordinate(s: Seq<u8>, from: int, to: int) -> Option<i32> {
    let signed = from < to && (s[from] == 45 || s[from] == 43);
    let start = if signed {
        from + 1
    } else {
        from
    };
    if start >= to {
        None
    } else {
        with_sign(digits_of(s, start, to), signed && s[from] == 45)
    }
}

/// A magnitude with its sign, when it fits in an `i32`.
pub open spec fn with_sign(magnitude: Option<nat>, negative: bool) -> Option<i32> {
    match magnitude {
        Some(v) => {
            let value = if negative {
                -(v as int)
            } else {
                v as int
            };
            if i32::MIN <= value <= i32::MAX {
                Some(value as i32)
            } else {
                None
            }
        },
        None => None,
    }
}

/// The beacon a line states: comma-separated x, y and, when present, z (0
/// when absent); fields after the third are ignored.
pub open spec fn beacon_of(line: Seq<u8>) -> Option<Loc> {
    let c1 = next_comma(line, 0);
    let c2 = next_comma(line, c1 + 1);
    let c3 = next_comma(line, c2 + 1);
    if c1 >= line.len() {
        None
    } else {
        match (coordinate(line, 0, c1), coordinate(line, c1 + 1, c2)) {
            (Some(x), Some(y)) => if c2 >= line.len() {
                Some(Loc { x, y, z: 0 })
            } else {
                match coordinate(line, c2 + 1, c3) {
                    Some(z) => Some(Loc { x, y, z }),
                    None => None,
                }
            },
            _ => None,
        }
    }
}

/// A line that opens the report of the next scanner: it starts with
/// "--- scanner ".
pub open spec fn is_header(line: Seq<u8>) -> bool {
    line.len() >= 12 && line.take(12) == seq![45u8, 45, 45, 32, 115, 99, 97, 110, 110, 101, 114, 32]
}

/// `s` with `b` added at the end unless it is already there.
pub open spec fn insert_beacon(s: Seq<Loc>, b: Loc) -> Seq<Loc> {
    if s.contains(b) {
        s
    } else {
        s.push(b)
    }
}

/// The scanners completed and the one being read after the first `n`
/// lines; `None` when a line is malformed or a beacon comes before any
/// header.
pub open spec fn report_prefix(lines: Seq<Seq<u8>>, n: int) -> Option<(Seq<Seq<Loc>>, Option<Seq<Loc>>)>
    decreases n,
{
    if n <= 0 {
        Some((Seq::empty(), None))
    } else {
        match report_prefix(lines, n - 1) {
            None => None,
            Some((done, current)) => {
                let line = lines[n - 1];
                if is_header(line) {
                    match current {
                        Some(c) => Some((done.push(c), Some(Seq::empty()))),
                        None => Some((done, Some(Seq::empty()))),
                    }
                } else if line.len() == 0 {
                    Some((done, current))
                } else {
                    match (current, beacon_of(line)) {
                        (Some(c), Some(b)) => Some((done, Some(insert_beacon(c, b)))),
                        _ => None,
                    }
                }
            },
        }
    }
}

/// The beacons of every scanner in a report, in order.
pub open spec fn report_of(lines: Seq<Seq<u8>>) -> Option<Seq<Seq<Loc>>> {
    match report_prefix(lines, lines.len() as int) {
        Some((done, Some(c))) => Some(done.push(c)),
        Some((done, None)) => Some(done),
        None => None,
    }
}

proof fn lemma_report_fails_on(lines: Seq<Seq<u8>>, k: int, n: int)
    requires
        0 <= k <= n,
        report_prefix(lines, k) is None,
    ensures
        report_prefix(lines, n) is None,
    decreases n - k,
{
    if k < n {
        lemma_report_fails_on(lines, k + 1, n);
    }
}

fn find_comma(s: &Vec<u8>, from: usize) -> (r: usize)
    requires
        from <= s.len(),
    ensures
        r == next_comma(s@, from as int),
        from <= r <= s.len(),
{
    let mut i = from;
    while i < s.len() && s[i] != 44
        invariant
            from <= i <= s.len(),
            next_comma(s@, from as int) == next_comma(s@, i as int),
        decreases s.len() - i,
    {
        i = i + 1;
    }
    i
}

proof fn lemma_digits_none_extends(s: Seq<u8>, from: int, k: int, to: int)
    requires
        from <= k <= to,
        digits_of(s, from, k) is None,
    ensures
        digits_of(s, from, to) is None,
    decreases to - k,
{
    if k < to {
        lemma_digits_none_extends(s, from, k + 1, to);
    }
}

proof fn lemma_digits_grow(s: Seq<u8>, from: int, k: int, to: int)
    requires
        from <= k <= to,
    ensures
        digits_of(s, from, k) matches Some(a) ==> digits_of(s, from, to) matches Some(b) ==> a
            <= b,
    decreases to - k,
{
    if k < to {
        lemma_digits_grow(s, from, k + 1, to);
        if digits_of(s, from, k + 1) is None {
            lemma_digits_none_extends(s, from, k + 1, to);
        }
    }
}

fn parse_coordinate(s: &Vec<u8>, from: usize, to: usize) -> (r: Option<i32>)
    requires
        from <= to <= s.len(),
    ensures
        r == coordinate(s@, from as int, to as int),
{
    let signed = from < to && (s[from] == 45 || s[from] == 43);
    let negative = signed && s[from] == 45;
    let start = if signed {
        from + 1
    } else {
        from
    };
    if start >= to {
        return None;
    }
    let ghost whole = digits_of(s@, start as int, to as int);
    let mut magnitude: u32 = 0;
    let mut i = start;
    while i < to
        invariant
            start <= i <= to <= s.len(),
            whole == digits_of(s@, start as int, to as int),
            coordinate(s@, from as int, to as int) == with_sign(whole, negative),
            digits_of(s@, start as int, i as int) == Some(magnitude as nat),
            magnitude <= 2147483648u32,
        decreases to - i,
    {
        let c = s[i];
        if c < 48 || c > 57 {
            proof {
                lemma_digits_none_extends(s@, start as int, i + 1, to as int);
            }
            return None;
        }
        let d = (c - 48) as u32;
        if magnitude > (2147483648u32 - d) / 10 {
            proof {
                lemma_digits_grow(s@, start as int, i + 1, to as int);
                assert(digits_of(s@, start as int, i + 1) == Some((magnitude * 10 + d) as nat));
            }
            return None;
        }
        magnitude = magnitude * 10 + d;
        i = i + 1;
    }
    if negative {
        if magnitude == 2147483648u32 {
            Some(i32::MIN)
        } else {
            Some(0 - magnitude as i32)
        }
    } else if magnitude > 2147483647u32 {
        None
    } else {
        Some(magnitude as i32)
    }
}

fn parse_beacon(line: &Vec<u8>) -> (r: Option<Loc>)
    ensures
        r == beacon_of(line@),
{
    let c1 = find_comma(line, 0);
    if c1 >= line.len() {
        return None;
    }
    let c2 = find_comma(line, c1 + 1);
    let x = match parse_coordinate(line, 0, c1) {
        Some(v) => v,
        None => return None,
    };
    let y = match parse_coordinate(line, c1 + 1, c2) {
        Some(v) => v,
        None => return None,
    };
    if c2 >= line.len() {
        return Some(Loc::new(x, y, 0));
    }
    let c3 = find_comma(line, c2 + 1);
    match parse_coordinate(line, c2 + 1, c3) {
        Some(z) => Some(Loc::new(x, y, z)),
        None => None,
    }
}

fn header_line(line: &Vec<u8>) -> (r: bool)
    ensures
        r == is_header(line@),
{
    let expected: [u8; 12] = [45, 45, 45, 32, 115, 99, 97, 110, 110, 101, 114, 32];
    if line.len() < 12 {
        return false;
    }
    let mut i: usize = 0;
    while i < 12
        invariant
            line.len() >= 12,
            i <= 12,
            expected@ == seq![45u8, 45, 45, 32, 115, 99, 97, 110, 110, 101, 114, 32],
            forall|k: int| 0 <= k < i ==> line@[k] == #[trigger] expected@[k],
        decreases 12 - i,
    {
        if line[i] != expected[i] {
            proof {
                assert(line@.take(12)[i as int] != seq![45u8, 45, 45, 32, 115, 99, 97, 110, 110, 101, 114, 32][i as int]);
            }
            return false;
        }
        i = i + 1;
    }
    proof {
        assert(line@.take(12) =~= seq![45u8, 45, 45, 32, 115, 99, 97, 110, 110, 101, 114, 32]);
    }
    true
}

fn add_beacon(beacons: &mut Vec<Loc>, b: Loc)
    ensures
        final(beacons)@ == insert_beacon(old(beacons)@, b),
{
    let mut i: usize = 0;
    while i < beacons.len()
        invariant
            i <= beacons.len(),
            beacons@ == old(beacons)@,
            forall|k: int| 0 <= k < i ==> beacons@[k] != b,
        decreases beacons.len() - i,
    {
        if beacons[i] == b {
            proof {
                assert(beacons@.contains(b));
            }
            return;
        }
        i = i + 1;
    }
    beacons.push(b);
}

/// The beacon lists of a scanner report, one scanner after another.
pub open spec fn beacon_lists(scanners: Seq<Scanner>) -> Seq<Seq<Loc>> {
    scanners.map_values(|s: Scanner| s.beacons@)
}

/// Reads a scanner report, one line per entry: a header line starting with
/// "--- scanner " opens the next scanner, every other non-empty line gives
/// one beacon of the current scanner as `x,y` or `x,y,z`; a beacon seen
/// twice is kept once. `None` when a line is malformed or a beacon comes
/// before the first header.
pub fn parse_input(lines: &Vec<Vec<u8>>) -> (r: Option<Vec<Scanner>>)
    ensures
        match report_of(lines@.map_values(|l: Vec<u8>| l@)) {
            Some(lists) => r matches Some(v) && beacon_lists(v@) == lists && forall|k: int|
                0 <= k < v.len() ==> (#[trigger] v@[k]).axis == 0 && v@[k].correction == (0i32, 0i32, 0i32),
            None => r is None,
        },
{
    let ghost text = lines@.map_values(|l: Vec<u8>| l@);
    let mut scanners: Vec<Scanner> = Vec::new();
    let mut current: Option<Scanner> = None;
    let mut n: usize = 0;
    while n < lines.len()
        invariant
            text == lines@.map_values(|l: Vec<u8>| l@),
            n <= lines.len(),
            report_prefix(text, n as int) matches Some((done, cur)) && beacon_lists(scanners@) == done
                && (match current {
                Some(c) => cur == Some(c.beacons@) && c.axis == 0 && c.correction == (0i32, 0i32, 0i32),
                None => cur is None,
            }),
            forall|k: int|
                0 <= k < scanners.len() ==> (#[trigger] scanners@[k]).axis == 0 && scanners@[k].correction == (0i32, 0i32, 0i32),
        decreases lines.len() - n,
    {
        let line = &lines[n];
        assert(text[n as int] == line@);
        let ghost before = scanners@;
        if header_line(line) {
            match current {
                Some(c) => {
                    scanners.push(c);
                    proof {
                        assert(beacon_lists(scanners@) =~= beacon_lists(before).push(c.beacons@));
                    }
                },
                None => {},
            }
            current = Some(Scanner::new());
        } else if line.len() == 0 {
        } else {
            let b = match parse_beacon(line) {
                Some(b) => b,
                None => {
                    proof {
                        lemma_report_fails_on(text, n + 1, text.len() as int);
                    }
                    return None;
                },
            };
            match current {
                Some(mut c) => {
                    add_beacon(&mut c.beacons, b);
                    current = Some(c);
                },
                None => {
                    proof {
                        lemma_report_fails_on(text, n + 1, text.len() as int);
                    }
                    return None;
                },
            }
        }
        n = n + 1;
    }
    match current {
        Some(c) => {
            let ghost before = scanners@;
            scanners.push(c);
            proof {
                assert(beacon_lists(scanners@) =~= beacon_lists(before).push(c.beacons@));
            }
        },
        None => {},
    }
    Some(scanners)
}

} // verus!
