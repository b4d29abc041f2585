use vstd::prelude::*;

verus! {

/// Element types that a tape can hold. Each has a blank value, which fills
/// the cells that a tape gains when it grows.
pub trait Blank: Sized {
    spec fn blank_spec() -> Self;

    fn blank() -> (r: Self)
        ensures
            r == Self::blank_spec(),
    ;
}

impl Blank for u8 {
    open spec fn blank_spec() -> u8 {
        0
    }

    fn blank() -> (r: u8) {
        0
    }
}

/// The cells of a tape after its cursor moved right from `cursor`: when the
/// new position falls at or past the end, the length doubles and the new
/// cells are blank.
pub open spec fn grown<T: Blank>(cells: Seq<T>, cursor: int) -> Seq<T> {
    if cursor + 1 >= cells.len() {
        cells + Seq::new(cells.len(), |i: int| T::blank_spec())
    } else {
        cells
    }
}

/// A growable sequence of cells with a cursor on one of them.
pub struct Tape<T: Blank> {
    pub cursor: usize,
    pub data: Vec<T>,
}

impl<T: Blank> Tape<T> {
    /// The cursor stands on a cell.
    pub open spec fn wf(&self) -> bool {
        self.cursor < self.data@.len()
    }

    /// A tape over `data`, with the cursor on its first cell.
    pub fn new(data: Vec<T>) -> (r: Self)
        requires
            data@.len() > 0,
        ensures
            r.wf(),
            r.cursor == 0,
            r.data@ == data@,
    {
        Tape { data, cursor: 0 }
    }

    /// Moves the cursor one cell right, doubling the tape first where the
    /// cursor would otherwise leave it.
    pub fn mv_right(&mut self)
        requires
            old(self).wf(),
        ensures
            final(self).wf(),
            final(self).cursor == old(self).cursor + 1,
            final(self).data@ == grown(old(self).data@, old(self).cursor as int),
    {
        let ghost start = self.data@;
        let n = self.data.len();
        self.cursor = self.cursor + 1;
        if self.cursor >= n {
            let mut i: usize = 0;
            while i < n
                invariant
                    i <= n,
                    n == start.len(),
                    self.cursor == n,
                    self.data@ =~= start + Seq::new(i as nat, |k: int| T::blank_spec()),
                decreases n - i,
            {
                self.data.push(T::blank());
                i = i + 1;
                assert(self.data@ =~= start + Seq::new(i as nat, |k: int| T::blank_spec()));
            }
            assert(self.data@ =~= grown(start, self.cursor - 1));
        }
    }

    /// Moves the cursor one cell left.
    pub fn mv_left(&mut self)
        requires
            old(self).wf(),
            old(self).cursor > 0,
        ensures
            final(self).wf(),
            final(self).cursor == old(self).cursor - 1,
            final(self).data@ == old(self).data@,
    {
        self.cursor = self.cursor - 1;
    }

    /// The cell under the cursor.
    pub fn cell(&self) -> (r: &T)
        requires
            self.wf(),
        ensures
            *r == self.data@[self.cursor as int],
    {
        &self.data[self.cursor]
    }

    /// The cell under the cursor, to be written.
    pub fn cell_mut(&mut self) -> (r: &mut T)
        requires
            old(self).wf(),
        ensures
            *r == old(self).data@[old(self).cursor as int],
            final(self).cursor == old(self).cursor,
            final(self).data@ == old(self).data@.update(old(self).cursor as int, *final(r)),
    {
        &mut self.data[self.cursor]
    }
}

} // verus!
