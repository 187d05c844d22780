//! Type-erased component columns.
//!
//! A column owns one contiguous byte buffer holding `len` cells of
//! `size` bytes each, where `size` is the byte size of the component type
//! stored in it; the archetype that owns the column keeps `len` and the
//! [`crate::type_info::TypeInfo`] beside it. A column also carries the
//! borrow state used by queries: a shared-reader count and an
//! exclusive-writer flag forming a many-readers-or-one-writer lock.

use vstd::prelude::*;

verus! {

/// The bytes of cell `row` in a column buffer of cells of `size` bytes.
pub open spec fn cell(data: Seq<u8>, size: int, row: int) -> Seq<u8> {
    data.subrange(row * size, row * size + size)
}

/// One component column: `data` plus its borrow state.
pub struct Column {
    pub data: Vec<u8>,
    pub shared_count: u32,
    pub exclusive: bool,
}

impl Column {
    /// A fresh column is empty and unborrowed.
    pub fn new() -> (r: Column)
        ensures
            r.data@ =~= Seq::<u8>::empty(),
            r.shared_count == 0,
            !r.exclusive,
    {
        Column { data: Vec::new(), shared_count: 0, exclusive: false }
    }

    /// Copy cell `row` out of the column.
    pub fn read_cell(&self, size: usize, row: usize) -> (r: Vec<u8>)
        requires
            (row + 1) * (size as int) <= self.data@.len(),
        ensures
            r@ == cell(self.data@, size as int, row as int),
    {
        let n: usize = self.data.len();
        proof {
            lemma_cell_bounds(n as int, size as int, row as int);
        }
        let base: usize = row * size;
        let mut out: Vec<u8> = Vec::new();
        let mut i: usize = 0;
        while i < size
            invariant
                i <= size,
                base == row * size,
                base + size <= self.data@.len(),
                base + size <= usize::MAX,
                out@ == self.data@.subrange(base as int, base + i),
            decreases size - i,
        {
            out.push(self.data[base + i]);
            assert(out@ =~= self.data@.subrange(base as int, base + i + 1));
            i += 1;
        }
        out
    }

    /// Overwrite cell `row` with `bytes`; every other byte is unchanged.
    pub fn write_cell(&mut self, size: usize, row: usize, bytes: &Vec<u8>)
        requires
            (row + 1) * (size as int) <= old(self).data@.len(),
            bytes@.len() == size,
        ensures
            final(self).data@.len() == old(self).data@.len(),
            cell(final(self).data@, size as int, row as int) == bytes@,
            forall|k: int|
                0 <= k < old(self).data@.len() && !(row * size <= k < row * size + size)
                    ==> final(self).data@[k] == old(self).data@[k],
            final(self).shared_count == old(self).shared_count,
            final(self).exclusive == old(self).exclusive,
    {
        let n: usize = self.data.len();
        proof {
            lemma_cell_bounds(n as int, size as int, row as int);
        }
        let base: usize = row * size;
        let mut i: usize = 0;
        while i < size
            invariant
                i <= size,
                base == row * size,
                base + size <= self.data@.len(),
                base + size <= usize::MAX,
                bytes@.len() == size,
                self.data@.len() == old(self).data@.len(),
                self.data@.subrange(base as int, base + i) == bytes@.subrange(0, i as int),
                forall|k: int|
                    0 <= k < self.data@.len() && !(base <= k < base + i)
                        ==> self.data@[k] == old(self).data@[k],
                self.shared_count == old(self).shared_count,
                self.exclusive == old(self).exclusive,
            decreases size - i,
        {
            self.data.set(base + i, bytes[i]);
            assert(self.data@.subrange(base as int, base + i + 1) =~= bytes@.subrange(
                0,
                i + 1,
            ));
            i += 1;
        }
        assert(cell(self.data@, size as int, row as int) =~= bytes@);
    }

    /// Append one cell at the end of the column.
    pub fn push_cell(&mut self, bytes: &Vec<u8>)
        ensures
            final(self).data@ == old(self).data@ + bytes@,
            final(self).shared_count == old(self).shared_count,
            final(self).exclusive == old(self).exclusive,
    {
        let mut i: usize = 0;
        while i < bytes.len()
            invariant
                i <= bytes@.len(),
                self.data@ == old(self).data@ + bytes@.subrange(0, i as int),
                self.shared_count == old(self).shared_count,
                self.exclusive == old(self).exclusive,
            decreases bytes@.len() - i,
        {
            self.data.push(bytes[i]);
            assert(self.data@ =~= old(self).data@ + bytes@.subrange(0, i + 1));
            i += 1;
        }
        assert(self.data@ =~= old(self).data@ + bytes@);
    }

    /// Remove cell `row` by moving the last cell into its place and
    /// shortening the buffer by one cell. `len` is the cell count.
    pub fn swap_remove_cell(&mut self, size: usize, row: usize, len: usize)
        requires
            old(self).data@.len() == len * size,
            row < len,
        ensures
            final(self).data@.len() == (len - 1) * size,
            forall|r2: int|
                0 <= r2 < len - 1 && r2 != row ==> cell(final(self).data@, size as int, r2)
                    == cell(old(self).data@, size as int, r2),
            row < len - 1 ==> cell(final(self).data@, size as int, row as int) == cell(
                old(self).data@,
                size as int,
                len - 1,
            ),
            final(self).shared_count == old(self).shared_count,
            final(self).exclusive == old(self).exclusive,
    {
        let n: usize = self.data.len();
        proof {
            lemma_row_in_bounds(len as int, size as int, len - 1);
            lemma_row_in_bounds(len as int, size as int, row as int);
        }
        if row + 1 < len {
            let last = self.read_cell(size, len - 1);
            self.write_cell(size, row, &last);
        }
        let new_bytes: usize = (len - 1) * size;
        self.data.truncate(new_bytes);
        proof {
            let d0 = old(self).data@;
            let d1 = final(self).data@;
            let s = size as int;
            assert forall|r2: int| 0 <= r2 < len - 1 && r2 != row implies cell(d1, s, r2)
                == cell(d0, s, r2) by {
                lemma_row_in_bounds(len as int, s, r2);
                lemma_row_in_bounds(len - 1, s, r2);
                lemma_cell_disjoint(s, r2, row as int);
                assert(cell(d1, s, r2) =~= cell(d0, s, r2));
            }
            if row < len - 1 {
                lemma_row_in_bounds(len - 1, s, row as int);
                assert(cell(d1, s, row as int) =~= cell(d0, s, len - 1));
            }
        }
    }

    /// Start a shared borrow if no exclusive borrow is held and the
    /// reader count has room; report whether it was taken. A shared and
    /// an exclusive borrow can never be held at the same time.
    pub fn try_borrow(&mut self) -> (r: bool)
        ensures
            r == (!old(self).exclusive && old(self).shared_count < u32::MAX),
            final(self).exclusive == old(self).exclusive,
            r ==> final(self).shared_count == old(self).shared_count + 1,
            !r ==> final(self).shared_count == old(self).shared_count,
            final(self).data == old(self).data,
    {
        if !self.exclusive && self.shared_count < u32::MAX {
            self.shared_count = self.shared_count + 1;
            true
        } else {
            false
        }
    }

    /// Start an exclusive borrow if nothing is borrowed; report whether
    /// it was taken.
    pub fn try_borrow_mut(&mut self) -> (r: bool)
        ensures
            r == (!old(self).exclusive && old(self).shared_count == 0),
            r ==> final(self).exclusive,
            !r ==> final(self).exclusive == old(self).exclusive,
            final(self).shared_count == old(self).shared_count,
            final(self).data == old(self).data,
    {
        if !self.exclusive && self.shared_count == 0 {
            self.exclusive = true;
            true
        } else {
            false
        }
    }

    /// Start a shared borrow. Starting one while an exclusive borrow is
    /// held is a program bug, excluded by the precondition.
    pub fn borrow(&mut self)
        requires
            !old(self).exclusive,
            old(self).shared_count < u32::MAX,
        ensures
            final(self).shared_count == old(self).shared_count + 1,
            final(self).exclusive == old(self).exclusive,
            final(self).data == old(self).data,
    {
        self.shared_count = self.shared_count + 1;
    }

    /// End one shared borrow.
    pub fn release(&mut self)
        requires
            old(self).shared_count > 0,
        ensures
            final(self).shared_count == old(self).shared_count - 1,
            final(self).exclusive == old(self).exclusive,
            final(self).data == old(self).data,
    {
        self.shared_count = self.shared_count - 1;
    }

    /// Start an exclusive borrow. Starting one while any borrow is held
    /// is a program bug, excluded by the precondition.
    pub fn borrow_mut(&mut self)
        requires
            !old(self).exclusive,
            old(self).shared_count == 0,
        ensures
            final(self).exclusive,
            final(self).shared_count == old(self).shared_count,
            final(self).data == old(self).data,
    {
        self.exclusive = true;
    }

    /// End the exclusive borrow.
    pub fn release_mut(&mut self)
        requires
            old(self).exclusive,
        ensures
            !final(self).exclusive,
            final(self).shared_count == old(self).shared_count,
            final(self).data == old(self).data,
    {
        self.exclusive = false;
    }
}

/// Cell `row` lies within a buffer of at least `(row + 1) * size` bytes.
pub proof fn lemma_cell_bounds(len: int, size: int, row: int)
    requires
        0 <= size,
        0 <= row,
        (row + 1) * size <= len,
    ensures
        0 <= row * size,
        row * size + size == (row + 1) * size,
        row * size + size <= len,
{
    assert(row * size >= 0 && (row + 1) * size == row * size + size) by (nonlinear_arith)
        requires
            0 <= size,
            0 <= row,
    ;
}

/// Distinct rows occupy disjoint byte ranges.
pub proof fn lemma_cell_disjoint(size: int, r1: int, r2: int)
    requires
        0 <= size,
        0 <= r1,
        0 <= r2,
        r1 != r2,
    ensures
        r1 < r2 ==> r1 * size + size <= r2 * size,
        r2 < r1 ==> r2 * size + size <= r1 * size,
{
    assert((r1 < r2 ==> r1 * size + size <= r2 * size) && (r2 < r1 ==> r2 * size + size <= r1
        * size)) by (nonlinear_arith)
        requires
            0 <= size,
            0 <= r1,
            0 <= r2,
            r1 != r2,
    ;
}

/// Rows below `len` fit in a buffer of `len * size` bytes.
pub proof fn lemma_row_in_bounds(len: int, size: int, row: int)
    requires
        0 <= size,
        0 <= row < len,
    ensures
        0 <= row * size,
        row * size + size == (row + 1) * size,
        (row + 1) * size <= len * size,
{
    assert(0 <= row * size && row * size + size == (row + 1) * size && (row + 1) * size <= len
        * size) by (nonlinear_arith)
        requires
            0 <= size,
            0 <= row < len,
    ;
}

} // verus!
