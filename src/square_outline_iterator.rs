use vstd::prelude::*;

verus! {

/// Number of points on the outline of a square of side `side`.
pub open spec fn outline_len(side: int) -> int {
    if side < 1 {
        0
    } else {
        4 * (side - 1)
    }
}

/// The `k`-th point of the outline of the square of side `side` whose top left corner is
/// `(tlx, tly)`: the top side from left to right, then the right side downwards, the bottom
/// side from right to left and the left side upwards.
pub open spec fn outline_point(tlx: int, tly: int, side: int, k: int) -> (int, int) {
    let l = side - 1;
    let side_index = k / l;
    let p = k % l;
    if side_index == 0 {
        (tlx + p, tly)
    } else if side_index == 1 {
        (tlx + l, tly + p)
    } else if side_index == 2 {
        (tlx + l - p, tly + l)
    } else {
        (tlx, tly + l - p)
    }
}

/// Walks the outline of a square, one point at a time.
pub struct SquareOutlineIterator {
    top_left_x: isize,
    top_left_y: isize,
    side_length: usize,
    index: usize,
}

impl SquareOutlineIterator {
    pub closed spec fn tlx(&self) -> int {
        self.top_left_x as int
    }

    pub closed spec fn tly(&self) -> int {
        self.top_left_y as int
    }

    pub closed spec fn side(&self) -> int {
        self.side_length as int
    }

    /// How many points have been handed out.
    pub closed spec fn position(&self) -> int {
        self.index as int
    }

    pub closed spec fn wf(&self) -> bool {
        &&& self.top_left_x + self.side_length <= isize::MAX
        &&& self.top_left_y + self.side_length <= isize::MAX
        &&& 4 * self.side_length <= usize::MAX
        &&& self.index <= outline_len(self.side_length as int)
    }

    /// The points still to come.
    pub open spec fn remaining(&self) -> Seq<(int, int)> {
        Seq::new(
            (outline_len(self.side()) - self.position()) as nat,
            |k: int| outline_point(self.tlx(), self.tly(), self.side(), self.position() + k),
        )
    }

    pub fn new(top_left_x: isize, top_left_y: isize, side_length: usize) -> (r: Self)
        requires
            top_left_x + side_length <= isize::MAX,
            top_left_y + side_length <= isize::MAX,
            4 * side_length <= usize::MAX,
        ensures
            r.wf(),
            r.tlx() == top_left_x,
            r.tly() == top_left_y,
            r.side() == side_length,
            r.position() == 0,
    {
        SquareOutlineIterator { top_left_x, top_left_y, side_length, index: 0 }
    }

    pub fn next(&mut self) -> (r: Option<(isize, isize)>)
        requires
            old(self).wf(),
        ensures
            final(self).wf(),
            final(self).tlx() == old(self).tlx(),
            final(self).tly() == old(self).tly(),
            final(self).side() == old(self).side(),
            old(self).remaining().len() == 0 ==> r is None && final(self).position() == old(self).position(),
            old(self).remaining().len() > 0 ==> (r matches Some(q) && q.0 == old(self).remaining()[0].0
                && q.1 == old(self).remaining()[0].1) && final(self).position() == old(self).position() + 1,
            final(self).remaining() == (if old(self).remaining().len() == 0 {
                old(self).remaining()
            } else {
                old(self).remaining().drop_first()
            }),
    {
        if self.side_length < 1 || self.index >= 4 * (self.side_length - 1) {
            return None;
        }
        let l = self.side_length - 1;
        let side_index = self.index / l;
        let position_index = self.index % l;
        proof {
            let k = self.index as int;
            let li = l as int;
            assert(0 <= k / li < 4 && 0 <= k % li < li) by (nonlinear_arith)
                requires
                    0 <= k < 4 * li,
                    li > 0,
            ;
        }
        let (dx, dy) = if side_index == 0 {
            (position_index, 0)
        } else if side_index == 1 {
            (l, position_index)
        } else if side_index == 2 {
            (l - position_index, l)
        } else {
            (0, l - position_index)
        };
        let ghost old_self = *self;
        self.index += 1;
        proof {
            assert(self.remaining() =~= old_self.remaining().drop_first());
        }
        Some((self.top_left_x + dx as isize, self.top_left_y + dy as isize))
    }

    /// The points still to come, in order.
    pub fn collect(self) -> (r: Vec<(isize, isize)>)
        requires
            self.wf(),
        ensures
            r@.len() == self.remaining().len(),
            forall|k: int|
                0 <= k < r@.len() ==> (#[trigger] r@[k]).0 == self.remaining()[k].0 && r@[k].1
                    == self.remaining()[k].1,
    {
        let mut it = self;
        let mut r: Vec<(isize, isize)> = Vec::new();
        let ghost all = self.remaining();
        loop
            invariant
                all == self.remaining(),
                it.wf(),
                r@.len() + it.remaining().len() == all.len(),
                it.remaining() == all.subrange(r@.len() as int, all.len() as int),
                forall|k: int|
                    0 <= k < r@.len() ==> (#[trigger] r@[k]).0 == all[k].0 && r@[k].1 == all[k].1,
            decreases it.remaining().len(),
        {
            let ghost before = it.remaining();
            match it.next() {
                Some(q) => {
                    r.push(q);
                    proof {
                        assert(before[0] == all[r@.len() - 1]);
                        assert(it.remaining() =~= all.subrange(r@.len() as int, all.len() as int));
                    }
                },
                None => {
                    return r;
                },
            }
        }
    }
}

} // verus!
