use vstd::prelude::*;

verus! {

/// Dots on a sheet of transparent paper, with the sheet's size.
#[derive(Debug)]
pub struct Paper {
    pub points: Vec<(usize, usize)>,
    pub width: usize,
    pub height: usize,
}

/// Where coordinate `c` lands when the sheet folds onto itself along `line`.
pub open spec fn reflect(c: usize, line: usize) -> usize {
    if c > line {
        (line - (c - line)) as usize
    } else {
        c
    }
}

impl Paper {
    /// An empty sheet.
    pub fn new() -> (r: Paper)
        ensures
            r.points@ == Seq::<(usize, usize)>::empty(),
            r.width == 0,
            r.height == 0,
    {
        Paper { points: Vec::new(), width: 0, height: 0 }
    }

    /// Adds a dot and grows the sheet to cover it.
    pub fn add_point(&mut self, x: usize, y: usize)
        requires
            x < usize::MAX,
            y < usize::MAX,
        ensures
            final(self).points@ == old(self).points@.push((x, y)),
            final(self).width == if old(self).width > x + 1 {
                old(self).width as int
            } else {
                x + 1
            },
            final(self).height == if old(self).height > y + 1 {
                old(self).height as int
            } else {
                y + 1
            },
    {
        self.points.push((x, y));
        if x + 1 > self.width {
            self.width = x + 1;
        }
        if y + 1 > self.height {
            self.height = y + 1;
        }
    }

    /// Folds the left half over the right along the middle column, an odd
    /// width leaving one column for the crease; the sheet keeps the left
    /// half.
    pub fn fold_x(&mut self)
        requires
            old(self).width % 2 == 1,
            forall|i: int| 0 <= i < old(self).points.len() ==> (#[trigger] old(self).points[i]).0 < old(self).width,
        ensures
            final(self).width == old(self).width / 2,
            final(self).height == old(self).height,
            final(self).points.len() == old(self).points.len(),
            forall|i: int|
                0 <= i < old(self).points.len() ==> #[trigger] final(self).points[i] == (
                    reflect(old(self).points[i].0, old(self).width / 2),
                    old(self).points[i].1,
                ),
    {
        let line = self.width / 2;
        let mut i: usize = 0;
        while i < self.points.len()
            invariant
                line == old(self).width / 2,
                self.width == old(self).width,
                self.height == old(self).height,
                self.points.len() == old(self).points.len(),
                i <= self.points.len(),
                forall|j: int| 0 <= j < i ==> #[trigger] self.points[j] == (
                    reflect(old(self).points[j].0, line),
                    old(self).points[j].1,
                ),
                forall|j: int| i <= j < self.points.len() ==> #[trigger] self.points[j] == old(self).points[j],
                forall|j: int| 0 <= j < old(self).points.len() ==> (#[trigger] old(self).points[j]).0 < old(self).width,
            decreases self.points.len() - i,
        {
            let (x, y) = self.points[i];
            if x > line {
                self.points.set(i, (line - (x - line), y));
            }
            i = i + 1;
        }
        self.width = line;
    }

    /// Folds the bottom half up along the middle row, an odd height leaving
    /// one row for the crease; the sheet keeps the top half.
    pub fn fold_y(&mut self)
        requires
            old(self).height % 2 == 1,
            forall|i: int| 0 <= i < old(self).points.len() ==> (#[trigger] old(self).points[i]).1 < old(self).height,
        ensures
            final(self).height == old(self).height / 2,
            final(self).width == old(self).width,
            final(self).points.len() == old(self).points.len(),
            forall|i: int|
                0 <= i < old(self).points.len() ==> #[trigger] final(self).points[i] == (
                    old(self).points[i].0,
                    reflect(old(self).points[i].1, old(self).height / 2),
                ),
    {
        let line = self.height / 2;
        let mut i: usize = 0;
        while i < self.points.len()
            invariant
                line == old(self).height / 2,
                self.width == old(self).width,
                self.height == old(self).height,
                self.points.len() == old(self).points.len(),
                i <= self.points.len(),
                forall|j: int| 0 <= j < i ==> #[trigger] self.points[j] == (
                    old(self).points[j].0,
                    reflect(old(self).points[j].1, line),
                ),
                forall|j: int| i <= j < self.points.len() ==> #[trigger] self.points[j] == old(self).points[j],
                forall|j: int| 0 <= j < old(self).points.len() ==> (#[trigger] old(self).points[j]).1 < old(self).height,
            decreases self.points.len() - i,
        {
            let (x, y) = self.points[i];
            if y > line {
                self.points.set(i, (x, line - (y - line)));
            }
            i = i + 1;
        }
        self.height = line;
    }
}

} // verus!
