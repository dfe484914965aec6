use vstd::prelude::*;

verus! {

/// The rule of the enhancement: entry `k` says whether a pixel whose 3x3
/// window reads `k` in binary becomes lit.
#[derive(Debug, Clone, Copy)]
pub struct EnhancementAlgorithm(pub [bool; 512]);

/// A rectangle of pixels `x1..=x2` by `y1..=y2`, stored row by row; every
/// pixel outside it has one common value that is not stored.
#[derive(Debug)]
pub struct Image {
    pub lit: Vec<bool>,
    pub x1: i32,
    pub x2: i32,
    pub y1: i32,
    pub y2: i32,
}

/// Whether the pixels outside the image are lit after `round` rounds: they
/// all share one value, which flips each round when the rule lights an
/// all-dark window.
pub open spec fn outside_lit(alg: EnhancementAlgorithm, round: nat) -> bool {
    alg.0[0] && round % 2 == 1
}

impl Image {
    pub open spec fn width(&self) -> int {
        self.x2 - self.x1 + 1
    }

    pub open spec fn height(&self) -> int {
        self.y2 - self.y1 + 1
    }

    /// The rectangle is non-empty, one stored value per pixel, and it can
    /// grow by one pixel on each side.
    pub open spec fn wf(&self) -> bool {
        &&& self.x1 <= self.x2
        &&& self.y1 <= self.y2
        &&& i32::MIN + 2 <= self.x1
        &&& i32::MIN + 2 <= self.y1
        &&& self.x2 <= i32::MAX - 2
        &&& self.y2 <= i32::MAX - 2
        &&& self.lit.len() == self.width() * self.height()
    }

    /// Whether pixel (x, y) is lit, `default` standing for every pixel
    /// outside the rectangle.
    pub open spec fn pixel(&self, x: int, y: int, default: bool) -> bool {
        if x < self.x1 || x > self.x2 || y < self.y1 || y > self.y2 {
            default
        } else {
            self.lit[(y - self.y1) * self.width() + (x - self.x1)]
        }
    }

    /// The first `n` pixels of the 3x3 window around (x, y), read row by
    /// row, as a binary number whose first pixel is most significant.
    pub open spec fn window_prefix(&self, x: int, y: int, default: bool, n: nat) -> nat
        decreases n,
    {
        if n == 0 {
            0
        } else {
            let k = n - 1;
            2 * self.window_prefix(x, y, default, k as nat) + if self.pixel(
                x - 1 + k % 3,
                y - 1 + k / 3,
                default,
            ) {
                1nat
            } else {
                0nat
            }
        }
    }

    /// The 3x3 window around (x, y) as a nine-bit number.
    pub open spec fn window(&self, x: int, y: int, default: bool) -> nat {
        self.window_prefix(x, y, default, 9)
    }
}

/// Row `y` of `rows` has a '#' (35) at column `x`.
pub open spec fn lit_at(rows: Seq<Vec<u8>>, x: int, y: int) -> bool {
    0 <= y < rows.len() && 0 <= x < rows[y].len() && rows[y]@[x] == 35
}

/// Every character of every row is '#' or '.' (46).
pub open spec fn rows_ok(rows: Seq<Vec<u8>>) -> bool {
    forall|y: int, x: int|
        0 <= y < rows.len() && 0 <= x < rows[y].len() ==> (#[trigger] rows[y]@[x] == 35 || rows[y]@[x]
            == 46)
}

/// Some pixel is lit.
pub open spec fn some_lit(rows: Seq<Vec<u8>>) -> bool {
    exists|x: int, y: int| #[trigger] lit_at(rows, x, y)
}

/// The rectangle `x1..=x2` by `y1..=y2` is the smallest that holds every
/// lit pixel of `rows`.
pub open spec fn bounding_box(rows: Seq<Vec<u8>>, x1: int, x2: int, y1: int, y2: int) -> bool {
    &&& forall|x: int, y: int| #[trigger] lit_at(rows, x, y) ==> x1 <= x <= x2 && y1 <= y <= y2
    &&& exists|y: int| #[trigger] lit_at(rows, x1, y)
    &&& exists|y: int| #[trigger] lit_at(rows, x2, y)
    &&& exists|x: int| #[trigger] lit_at(rows, x, y1)
    &&& exists|x: int| #[trigger] lit_at(rows, x, y2)
}

/// How many of the first `n` entries of `s` are true.
pub open spec fn count_true(s: Seq<bool>, n: int) -> nat
    decreases n,
{
    if n <= 0 {
        0
    } else {
        count_true(s, n - 1) + if s[n - 1] {
            1nat
        } else {
            0nat
        }
    }
}

proof fn lemma_window_prefix_bound(img: &Image, x: int, y: int, default: bool, n: nat)
    requires
        n <= 9,
    ensures
        img.window_prefix(x, y, default, n) < vstd::arithmetic::power2::pow2(n),
    decreases n,
{
    if n > 0 {
        lemma_window_prefix_bound(img, x, y, default, (n - 1) as nat);
        vstd::arithmetic::power2::lemma_pow2_unfold(n);
    } else {
        vstd::arithmetic::power2::lemma2_to64();
    }
}

proof fn lemma_index_in_grid(r: int, c: int, w: int, h: int)
    requires
        0 <= r < h,
        0 <= c < w,
    ensures
        0 <= r * w + c < w * h,
        w * h == h * w,
{
    assert(w * h == h * w) by (nonlinear_arith);
    assert(r * w + c < w * h) by (nonlinear_arith)
        requires
            0 <= r < h,
            0 <= c < w,
    ;
    assert(0 <= r * w) by (nonlinear_arith)
        requires
            0 <= r,
            0 <= w,
    ;
}

impl Image {
    /// Reads an image from its rows of text, top to bottom, '#' for a lit
    /// pixel and '.' for a dark one. The rectangle kept is the bounding box
    /// of the lit pixels. `None` when a character is neither, or no pixel
    /// is lit.
    pub fn from_rows(rows: &Vec<Vec<u8>>) -> (r: Option<Image>)
        requires
            rows.len() <= 1000000,
            forall|y: int| 0 <= y < rows.len() ==> (#[trigger] rows[y]).len() <= 1000000,
        ensures
            r is Some <==> rows_ok(rows@) && some_lit(rows@),
            r matches Some(img) ==> {
                &&& img.wf()
                &&& bounding_box(rows@, img.x1 as int, img.x2 as int, img.y1 as int, img.y2 as int)
                &&& forall|x: int, y: int|
                    img.x1 <= x <= img.x2 && img.y1 <= y <= img.y2 ==> #[trigger] img.pixel(
                        x,
                        y,
                        false,
                    ) == lit_at(rows@, x, y)
            },
    {
        let mut found = false;
        let mut x1: usize = 0;
        let mut x2: usize = 0;
        let mut y1: usize = 0;
        let mut y2: usize = 0;
        let mut y: usize = 0;
        while y < rows.len()
            invariant
                rows.len() <= 1000000,
                forall|k: int| 0 <= k < rows.len() ==> (#[trigger] rows[k]).len() <= 1000000,
                y <= rows.len(),
                forall|yy: int, x: int|
                    0 <= yy < y && 0 <= x < rows[yy].len() ==> (#[trigger] rows[yy]@[x] == 35
                        || rows[yy]@[x] == 46),
                found == exists|x: int, yy: int| yy < y && #[trigger] lit_at(rows@, x, yy),
                found ==> {
                    &&& forall|x: int, yy: int|
                        yy < y && #[trigger] lit_at(rows@, x, yy) ==> x1 <= x <= x2 && y1 <= yy
                            <= y2
                    &&& exists|yy: int| #[trigger] lit_at(rows@, x1 as int, yy)
                    &&& exists|yy: int| #[trigger] lit_at(rows@, x2 as int, yy)
                    &&& exists|x: int| #[trigger] lit_at(rows@, x, y1 as int)
                    &&& exists|x: int| #[trigger] lit_at(rows@, x, y2 as int)
                    &&& y2 < y
                    &&& x1 <= x2 < 1000000
                    &&& y1 <= y2
                },
            decreases rows.len() - y,
        {
            let row = &rows[y];
            let mut x: usize = 0;
            while x < row.len()
                invariant
                    rows.len() <= 1000000,
                    forall|k: int| 0 <= k < rows.len() ==> (#[trigger] rows[k]).len() <= 1000000,
                    y < rows.len(),
                    *row == rows[y as int],
                    x <= row.len(),
                    forall|yy: int, xx: int|
                        0 <= yy < y && 0 <= xx < rows[yy].len() ==> (#[trigger] rows[yy]@[xx] == 35
                            || rows[yy]@[xx] == 46),
                    forall|xx: int| 0 <= xx < x ==> (#[trigger] row@[xx] == 35 || row@[xx] == 46),
                    found == exists|xx: int, yy: int|
                        (yy < y || (yy == y && xx < x)) && #[trigger] lit_at(rows@, xx, yy),
                    found ==> {
                        &&& forall|xx: int, yy: int|
                            (yy < y || (yy == y && xx < x)) && #[trigger] lit_at(rows@, xx, yy)
                                ==> x1 <= xx <= x2 && y1 <= yy <= y2
                        &&& exists|yy: int| #[trigger] lit_at(rows@, x1 as int, yy)
                        &&& exists|yy: int| #[trigger] lit_at(rows@, x2 as int, yy)
                        &&& exists|xx: int| #[trigger] lit_at(rows@, xx, y1 as int)
                        &&& exists|xx: int| #[trigger] lit_at(rows@, xx, y2 as int)
                        &&& y2 <= y
                        &&& x1 <= x2 < 1000000
                        &&& y1 <= y2
                    },
                decreases row.len() - x,
            {
                let c = row[x];
                if c == 35 {
                    proof {
                        assert(lit_at(rows@, x as int, y as int));
                    }
                    if !found {
                        x1 = x;
                        x2 = x;
                        y1 = y;
                        y2 = y;
                        found = true;
                    } else {
                        if x < x1 {
                            x1 = x;
                        }
                        if x > x2 {
                            x2 = x;
                        }
                        y2 = y;
                    }
                } else if c != 46 {
                    proof {
                        assert(!(rows@[y as int]@[x as int] == 35 || rows@[y as int]@[x as int] == 46));
                    }
                    return None;
                }
                x = x + 1;
            }
            y = y + 1;
        }
        if !found {
            return None;
        }
        let w = x2 - x1 + 1;
        let h = y2 - y1 + 1;
        proof {
            assert(w * h <= 1000000 * 1000000) by (nonlinear_arith)
                requires
                    w <= 1000000,
                    h <= 1000000,
            ;
        }
        let mut lit: Vec<bool> = Vec::new();
        let mut yy: usize = y1;
        while yy <= y2
            invariant
                y1 <= yy <= y2 + 1,
                y2 < rows.len(),
                x1 <= x2 < 1000000,
                w == x2 - x1 + 1,
                h == y2 - y1 + 1,
                lit.len() == (yy - y1) * w,
                forall|rr: int, cc: int|
                    0 <= rr < yy - y1 && 0 <= cc < w ==> #[trigger] lit[rr * w + cc] == lit_at(
                        rows@,
                        x1 + cc,
                        y1 + rr,
                    ),
            decreases y2 + 1 - yy,
        {
            let row = &rows[yy];
            let mut xx: usize = x1;
            while xx <= x2
                invariant
                    y1 <= yy <= y2,
                    y2 < rows.len(),
                    *row == rows[yy as int],
                    x1 <= xx <= x2 + 1,
                    x2 < 1000000,
                    w == x2 - x1 + 1,
                    lit.len() == (yy - y1) * w + (xx - x1),
                    forall|rr: int, cc: int|
                        0 <= rr < yy - y1 && 0 <= cc < w ==> #[trigger] lit[rr * w + cc] == lit_at(
                            rows@,
                            x1 + cc,
                            y1 + rr,
                        ),
                    forall|cc: int|
                        0 <= cc < xx - x1 ==> #[trigger] lit[(yy - y1) * w + cc] == lit_at(
                            rows@,
                            x1 + cc,
                            yy as int,
                        ),
                decreases x2 + 1 - xx,
            {
                let ghost before = lit@;
                lit.push(xx < row.len() && row[xx] == 35);
                proof {
                    assert forall|rr: int, cc: int|
                        0 <= rr < yy - y1 && 0 <= cc < w implies #[trigger] lit[rr * w + cc]
                        == lit_at(rows@, x1 + cc, y1 + rr) by {
                        lemma_index_in_grid(rr, cc, w as int, yy - y1);
                        assert(lit[rr * w + cc] == before[rr * w + cc]);
                    }
                    assert forall|cc: int| 0 <= cc < xx + 1 - x1 implies #[trigger] lit[(yy - y1) * w
                        + cc] == lit_at(rows@, x1 + cc, yy as int) by {
                        if cc < xx - x1 {
                            assert(lit[(yy - y1) * w + cc] == before[(yy - y1) * w + cc]);
                        }
                    }
                }
                xx = xx + 1;
            }
            proof {
                assert((yy + 1 - y1) * w == (yy - y1) * w + w) by (nonlinear_arith);
                assert forall|rr: int, cc: int|
                    0 <= rr < yy + 1 - y1 && 0 <= cc < w implies #[trigger] lit[rr * w + cc]
                    == lit_at(rows@, x1 + cc, y1 + rr) by {
                    lemma_index_in_grid(rr, cc, w as int, yy + 1 - y1);
                }
            }
            yy = yy + 1;
        }
        assert(lit.len() == w * h) by (nonlinear_arith)
            requires
                lit.len() == (yy - y1) * w,
                yy - y1 == h,
        ;
        let img = Image { lit, x1: x1 as i32, x2: x2 as i32, y1: y1 as i32, y2: y2 as i32 };
        proof {
            assert forall|x: int, y: int|
                img.x1 <= x <= img.x2 && img.y1 <= y <= img.y2 implies #[trigger] img.pixel(x, y, false)
                == lit_at(rows@, x, y) by {
                assert(img.lit[(y - y1) * w + (x - x1)] == lit_at(rows@, x1 + (x - x1), y1 + (y - y1)));
            }
        }
        Some(img)
    }

    /// How many pixels of the rectangle are lit.
    pub fn lit_count(&self) -> (r: usize)
        ensures
            r == count_true(self.lit@, self.lit.len() as int),
    {
        let mut count: usize = 0;
        let mut i: usize = 0;
        while i < self.lit.len()
            invariant
                i <= self.lit.len(),
                count == count_true(self.lit@, i as int),
                count <= i,
            decreases self.lit.len() - i,
        {
            if self.lit[i] {
                count = count + 1;
            }
            i = i + 1;
        }
        count
    }

    /// Whether pixel (x, y) is lit, `default` standing for every pixel
    /// outside the rectangle.
    pub fn pixel_at(&self, x: i32, y: i32, default: bool) -> (r: bool)
        requires
            self.wf(),
        ensures
            r == self.pixel(x as int, y as int, default),
    {
        if x < self.x1 || x > self.x2 || y < self.y1 || y > self.y2 {
            return default;
        }
        let w = (self.x2 as i64 - self.x1 as i64 + 1) as usize;
        let row = (y as i64 - self.y1 as i64) as usize;
        let col = (x as i64 - self.x1 as i64) as usize;
        proof {
            lemma_index_in_grid(row as int, col as int, w as int, self.height());
        }
        self.lit[row * w + col]
    }

    /// The 3x3 window around (x, y), read row by row, as a nine-bit number
    /// whose first pixel is most significant.
    pub fn pixel_window(&self, x: i32, y: i32, default: bool) -> (r: u16)
        requires
            self.wf(),
            i32::MIN < x < i32::MAX,
            i32::MIN < y < i32::MAX,
        ensures
            r == self.window(x as int, y as int, default),
    {
        let mut result: u16 = 0;
        let mut idx: usize = 0;
        while idx < 9
            invariant
                self.wf(),
                i32::MIN < x < i32::MAX,
                i32::MIN < y < i32::MAX,
                idx <= 9,
                result == self.window_prefix(x as int, y as int, default, idx as nat),
            decreases 9 - idx,
        {
            proof {
                lemma_window_prefix_bound(self, x as int, y as int, default, idx as nat);
                vstd::arithmetic::power2::lemma_pow2_strictly_increases(idx as nat, 9);
                vstd::arithmetic::power2::lemma2_to64();
            }
            let x_pos = x - 1 + (idx % 3) as i32;
            let y_pos = y - 1 + (idx / 3) as i32;
            let bit: u16 = if self.pixel_at(x_pos, y_pos, default) {
                1
            } else {
                0
            };
            result = result * 2 + bit;
            idx = idx + 1;
        }
        result
    }
}

/// A rule written as 512 characters, '#' (35) for a lit entry and '.' (46)
/// for a dark one.
pub open spec fn rule_text_ok(s: Seq<u8>) -> bool {
    s.len() == 512 && forall|i: int| 0 <= i < 512 ==> (#[trigger] s[i] == 35 || s[i] == 46)
}

impl EnhancementAlgorithm {
    /// Reads a rule written as 512 characters of '#' and '.'.
    pub fn parse(s: &[u8]) -> (r: Option<EnhancementAlgorithm>)
        ensures
            rule_text_ok(s@) ==> (r matches Some(alg) && forall|i: int|
                0 <= i < 512 ==> #[trigger] alg.0[i] == (s@[i] == 35)),
            !rule_text_ok(s@) ==> r is None,
    {
        if s.len() != 512 {
            return None;
        }
        let mut alg: [bool; 512] = [false;512];
        let mut idx: usize = 0;
        while idx < 512
            invariant
                s@.len() == 512,
                idx <= 512,
                forall|i: int| 0 <= i < idx ==> (#[trigger] s@[i] == 35 || s@[i] == 46),
                forall|i: int| 0 <= i < idx ==> #[trigger] alg[i] == (s@[i] == 35),
                forall|i: int| idx <= i < 512 ==> !#[trigger] alg[i],
            decreases 512 - idx,
        {
            if s[idx] == 35 {
                alg.set(idx, true);
            } else if s[idx] != 46 {
                return None;
            }
            idx = idx + 1;
        }
        Some(EnhancementAlgorithm(alg))
    }

    /// One round of enhancement. The rectangle grows by one pixel on each
    /// side, each pixel in it taking the rule's entry for its window in
    /// `image`; `round` counts the rounds done before, which fixes the value
    /// of the pixels outside.
    pub fn enhance(&self, image: Image, round: usize) -> (r: Image)
        requires
            image.wf(),
            image.width() + 2 <= i32::MAX,
            image.height() + 2 <= i32::MAX,
            (image.width() + 2) * (image.height() + 2) <= usize::MAX,
        ensures
            r.x1 == image.x1 - 1,
            r.x2 == image.x2 + 1,
            r.y1 == image.y1 - 1,
            r.y2 == image.y2 + 1,
            r.lit.len() == r.width() * r.height(),
            forall|row: int, col: int|
                0 <= row < r.height() && 0 <= col < r.width() ==> #[trigger] r.lit[row * r.width()
                    + col] == self.0[image.window(
                    r.x1 + col,
                    r.y1 + row,
                    outside_lit(*self, round as nat),
                ) as int],
    {
        let x1 = image.x1 - 1;
        let x2 = image.x2 + 1;
        let y1 = image.y1 - 1;
        let y2 = image.y2 + 1;
        let default = self.0[0] && round % 2 == 1;
        let w = (x2 - x1 + 1) as usize;
        let h = (y2 - y1 + 1) as usize;
        let mut lit: Vec<bool> = Vec::new();
        let mut row: usize = 0;
        while row < h
            invariant
                image.wf(),
                w == x2 - x1 + 1,
                h == y2 - y1 + 1,
                x1 == image.x1 - 1,
                x2 == image.x2 + 1,
                y1 == image.y1 - 1,
                y2 == image.y2 + 1,
                w * h <= usize::MAX,
                w <= i32::MAX,
                h <= i32::MAX,
                default == outside_lit(*self, round as nat),
                row <= h,
                lit.len() == row * w,
                forall|rr: int, cc: int|
                    0 <= rr < row && 0 <= cc < w ==> #[trigger] lit[rr * w + cc] == self.0[image.window(
                        x1 + cc,
                        y1 + rr,
                        default,
                    ) as int],
            decreases h - row,
        {
            let mut col: usize = 0;
            while col < w
                invariant
                    image.wf(),
                    w == x2 - x1 + 1,
                    h == y2 - y1 + 1,
                    x1 == image.x1 - 1,
                    x2 == image.x2 + 1,
                    y1 == image.y1 - 1,
                    y2 == image.y2 + 1,
                    w * h <= usize::MAX,
                    w <= i32::MAX,
                    h <= i32::MAX,
                    default == outside_lit(*self, round as nat),
                    row < h,
                    col <= w,
                    lit.len() == row * w + col,
                    forall|rr: int, cc: int|
                        0 <= rr < row && 0 <= cc < w ==> #[trigger] lit[rr * w + cc] == self.0[image.window(
                            x1 + cc,
                            y1 + rr,
                            default,
                        ) as int],
                    forall|cc: int|
                        0 <= cc < col ==> #[trigger] lit[row * w + cc] == self.0[image.window(
                            x1 + cc,
                            y1 + row,
                            default,
                        ) as int],
                decreases w - col,
            {
                proof {
                    lemma_index_in_grid(row as int, col as int, w as int, h as int);
                }
                let x = x1 + col as i32;
                let y = y1 + row as i32;
                let window = image.pixel_window(x, y, default);
                proof {
                    lemma_window_prefix_bound(&image, x as int, y as int, default, 9);
                    vstd::arithmetic::power2::lemma2_to64();
                }
                let ghost before = lit@;
                lit.push(self.0[window as usize]);
                proof {
                    assert forall|rr: int, cc: int|
                        0 <= rr < row && 0 <= cc < w implies #[trigger] lit[rr * w + cc]
                        == self.0[image.window(x1 + cc, y1 + rr, default) as int] by {
                        lemma_index_in_grid(rr, cc, w as int, row as int);
                        assert(lit[rr * w + cc] == before[rr * w + cc]);
                    }
                    assert forall|cc: int| 0 <= cc < col + 1 implies #[trigger] lit[row * w + cc]
                        == self.0[image.window(x1 + cc, y1 + row, default) as int] by {
                        if cc < col {
                            assert(lit[row * w + cc] == before[row * w + cc]);
                        }
                    }
                }
                col = col + 1;
            }
            proof {
                assert((row + 1) * w == row * w + w) by (nonlinear_arith);
                assert forall|rr: int, cc: int|
                    0 <= rr < row + 1 && 0 <= cc < w implies #[trigger] lit[rr * w + cc]
                    == self.0[image.window(x1 + cc, y1 + rr, default) as int] by {
                    lemma_index_in_grid(rr, cc, w as int, row + 1);
                }
            }
            row = row + 1;
        }
        assert(lit.len() == w * h) by (nonlinear_arith)
            requires
                lit.len() == row * w,
                row == h,
        ;
        Image { lit, x1, x2, y1, y2 }
    }
}

} // verus!
