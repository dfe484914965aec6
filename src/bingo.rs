use vstd::prelude::*;

verus! {

/// A five-by-five bingo board in row-major order; a called number is
/// crossed out by becoming `None`.
#[derive(Debug, Clone, Copy)]
pub struct BingoBoard(pub [Option<u8>; 25]);

impl BingoBoard {
    /// Every cell of row `y` is crossed out.
    pub open spec fn row_done(&self, y: int) -> bool {
        forall|i: int| 0 <= i < 5 ==> (#[trigger] self.0[5 * y + i]) is None
    }

    /// Every cell of column `x` is crossed out.
    pub open spec fn col_done(&self, x: int) -> bool {
        forall|i: int| 0 <= i < 5 ==> (#[trigger] self.0[x + 5 * i]) is None
    }

    /// Some row or column is fully crossed out.
    pub open spec fn has_bingo(&self) -> bool {
        (exists|y: int| 0 <= y < 5 && #[trigger] self.row_done(y)) || (exists|x: int|
            0 <= x < 5 && #[trigger] self.col_done(x))
    }

    /// The cells of row `y`, left to right.
    pub fn row(&self, y: usize) -> (r: [Option<u8>; 5])
        requires
            y < 5,
        ensures
            forall|i: int| 0 <= i < 5 ==> #[trigger] r[i] == self.0[5 * y + i],
    {
        let mut row: [Option<u8>; 5] = [None;5];
        let mut i: usize = 0;
        while i < 5
            invariant
                y < 5,
                i <= 5,
                forall|j: int| 0 <= j < i ==> #[trigger] row[j] == self.0[5 * y + j],
            decreases 5 - i,
        {
            row.set(i, self.0[y * 5 + i]);
            i = i + 1;
        }
        row
    }

    /// The cells of column `x`, top to bottom.
    pub fn col(&self, x: usize) -> (r: [Option<u8>; 5])
        requires
            x < 5,
        ensures
            forall|i: int| 0 <= i < 5 ==> #[trigger] r[i] == self.0[x + 5 * i],
    {
        let mut col: [Option<u8>; 5] = [None;5];
        let mut pos = x;
        let mut i: usize = 0;
        while i < 5
            invariant
                x < 5,
                i <= 5,
                pos == x + 5 * i,
                forall|j: int| 0 <= j < i ==> #[trigger] col[j] == self.0[x + 5 * j],
            decreases 5 - i,
        {
            col.set(i, self.0[pos]);
            pos = pos + 5;
            i = i + 1;
        }
        col
    }

    /// Whether some row or column is fully crossed out.
    pub fn bingo(&self) -> (r: bool)
        ensures
            r == self.has_bingo(),
    {
        let mut y: usize = 0;
        while y < 5
            invariant
                y <= 5,
                forall|k: int| 0 <= k < y ==> !#[trigger] self.row_done(k),
            decreases 5 - y,
        {
            let row = self.row(y);
            proof {
                if self.row_done(y as int) {
                    assert forall|i: int| 0 <= i < 5 implies (#[trigger] row[i]) is None by {
                        assert(self.0[5 * y + i] is None);
                    }
                }
            }
            if all_crossed(&row) {
                assert(self.row_done(y as int)) by {
                    assert forall|i: int| 0 <= i < 5 implies (#[trigger] self.0[5 * y + i]) is None by {
                        assert(row[i] == self.0[5 * y + i]);
                    }
                }
                return true;
            }
            y = y + 1;
        }
        let mut x: usize = 0;
        while x < 5
            invariant
                x <= 5,
                forall|k: int| 0 <= k < 5 ==> !#[trigger] self.row_done(k),
                forall|k: int| 0 <= k < x ==> !#[trigger] self.col_done(k),
            decreases 5 - x,
        {
            let col = self.col(x);
            proof {
                if self.col_done(x as int) {
                    assert forall|i: int| 0 <= i < 5 implies (#[trigger] col[i]) is None by {
                        assert(self.0[x + 5 * i] is None);
                    }
                }
            }
            if all_crossed(&col) {
                assert(self.col_done(x as int)) by {
                    assert forall|i: int| 0 <= i < 5 implies (#[trigger] self.0[x + 5 * i]) is None by {
                        assert(col[i] == self.0[x + 5 * i]);
                    }
                }
                return true;
            }
            x = x + 1;
        }
        false
    }

    /// Crosses out every cell that holds `num`.
    pub fn remove(&mut self, num: u8)
        ensures
            forall|i: int|
                0 <= i < 25 ==> #[trigger] final(self).0[i] == if old(self).0[i] == Some(num) {
                    None
                } else {
                    old(self).0[i]
                },
    {
        let mut idx: usize = 0;
        while idx < 25
            invariant
                idx <= 25,
                forall|i: int|
                    0 <= i < idx ==> #[trigger] self.0[i] == if old(self).0[i] == Some(num) {
                        None
                    } else {
                        old(self).0[i]
                    },
                forall|i: int| idx <= i < 25 ==> #[trigger] self.0[i] == old(self).0[i],
            decreases 25 - idx,
        {
            if self.0[idx] == Some(num) {
                self.0.set(idx, None);
            }
            idx = idx + 1;
        }
    }

    /// The sum of the numbers not yet crossed out.
    pub fn unmarked_sum(&self) -> (r: u32)
        ensures
            r == unmarked_total(self.0@, 25),
    {
        let mut sum: u32 = 0;
        let mut i: usize = 0;
        while i < 25
            invariant
                i <= 25,
                sum == unmarked_total(self.0@, i as int),
                sum <= 255 * i,
            decreases 25 - i,
        {
            if let Some(v) = self.0[i] {
                sum = sum + v as u32;
            }
            i = i + 1;
        }
        sum
    }
}

/// The sum of the numbers still present among the first `n` cells.
pub open spec fn unmarked_total(cells: Seq<Option<u8>>, n: int) -> nat
    decreases n,
{
    if n <= 0 {
        0
    } else {
        unmarked_total(cells, n - 1) + match cells[n - 1] {
            Some(v) => v as nat,
            None => 0,
        }
    }
}

/// Whether every one of five cells is crossed out.
fn all_crossed(cells: &[Option<u8>; 5]) -> (r: bool)
    ensures
        r == forall|i: int| 0 <= i < 5 ==> (#[trigger] cells[i]) is None,
{
    let mut i: usize = 0;
    while i < 5
        invariant
            i <= 5,
            forall|j: int| 0 <= j < i ==> (#[trigger] cells[j]) is None,
        decreases 5 - i,
    {
        if cells[i].is_some() {
            return false;
        }
        i = i + 1;
    }
    true
}

} // verus!
