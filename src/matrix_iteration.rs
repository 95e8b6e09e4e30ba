use vstd::prelude::*;

verus! {

/// A matrix of `rows` by `cols` elements, stored row after row.
#[derive(Debug)]
pub struct Matrix<T> {
    rows: usize,
    cols: usize,
    data: Vec<T>,
}

/// The position, in row-major storage, of the `k`-th element in column-major order.
pub open spec fn column_major(rows: int, cols: int, k: int) -> int {
    (k % rows) * cols + k / rows
}

impl<T> Matrix<T> {
    pub closed spec fn spec_rows(&self) -> nat {
        self.rows as nat
    }

    pub closed spec fn spec_cols(&self) -> nat {
        self.cols as nat
    }

    /// The elements row after row, each row left to right.
    pub closed spec fn row_order(&self) -> Seq<T> {
        self.data@
    }

    /// The elements column after column, each column top to bottom.
    pub closed spec fn col_order(&self) -> Seq<T> {
        Seq::new(
            (self.rows * self.cols) as nat,
            |k: int| self.data@[column_major(self.rows as int, self.cols as int, k)],
        )
    }

    pub closed spec fn wf(&self) -> bool {
        self.rows * self.cols == self.data@.len()
    }
}

impl<T: Clone> Matrix<T> {
    /// A matrix of `rows` by `cols` elements, cloned from `data` given row after row.
    pub fn new(rows: usize, cols: usize, data: &[T]) -> (r: Matrix<T>)
        requires
            rows * cols == data@.len(),
        ensures
            r.wf(),
            r.spec_rows() == rows,
            r.spec_cols() == cols,
            r.row_order().len() == data@.len(),
            forall|i: int| 0 <= i < data@.len() ==> cloned(#[trigger] data@[i], r.row_order()[i]),
    {
        let mut v: Vec<T> = Vec::with_capacity(data.len());
        let mut i: usize = 0;
        while i < data.len()
            invariant
                i <= data@.len(),
                v@.len() == i,
                forall|j: int| 0 <= j < i ==> cloned(#[trigger] data@[j], v@[j]),
            decreases data@.len() - i,
        {
            v.push(data[i].clone());
            i = i + 1;
        }
        Matrix { rows, cols, data: v }
    }

    /// The elements row by row.
    pub fn by_row(&self) -> (r: RowIter<'_, T>)
        requires
            self.wf(),
        ensures
            r.wf(),
            r.remaining() == self.row_order(),
    {
        let r = RowIter { curr: 0, matrix: self };
        assert(r.remaining() =~= self.row_order());
        r
    }

    /// The elements column by column.
    pub fn by_col(&self) -> (r: ColIter<'_, T>)
        requires
            self.wf(),
        ensures
            r.wf(),
            r.remaining() == self.col_order(),
    {
        let r = ColIter { curr: 0, matrix: self };
        assert(r.remaining() =~= self.col_order());
        r
    }
}

/// Walks a matrix row by row.
pub struct RowIter<'a, T> {
    curr: usize,
    matrix: &'a Matrix<T>,
}

impl<'a, T> RowIter<'a, T> {
    pub closed spec fn wf(&self) -> bool {
        self.matrix.wf() && self.curr <= self.matrix.data@.len()
    }

    /// The elements still to come.
    pub closed spec fn remaining(&self) -> Seq<T> {
        self.matrix.data@.subrange(self.curr as int, self.matrix.data@.len() as int)
    }

    /// The next element, if any is left.
    pub fn next(&mut self) -> (r: Option<&'a T>)
        requires
            old(self).wf(),
        ensures
            final(self).wf(),
            old(self).remaining().len() == 0 ==> r is None && final(self).remaining() == old(self).remaining(),
            old(self).remaining().len() > 0 ==> r == Some(&old(self).remaining()[0])
                && final(self).remaining() == old(self).remaining().drop_first(),
    {
        if self.curr < self.matrix.data.len() {
            let item = &self.matrix.data[self.curr];
            self.curr = self.curr + 1;
            proof {
                assert(self.remaining() =~= old(self).remaining().drop_first());
            }
            Some(item)
        } else {
            None
        }
    }
}

/// Walks a matrix column by column.
pub struct ColIter<'a, T> {
    curr: usize,
    matrix: &'a Matrix<T>,
}

impl<'a, T> ColIter<'a, T> {
    pub closed spec fn wf(&self) -> bool {
        self.matrix.wf() && self.curr <= self.matrix.data@.len()
    }

    /// The elements still to come.
    pub closed spec fn remaining(&self) -> Seq<T> {
        self.matrix.col_order().subrange(self.curr as int, self.matrix.data@.len() as int)
    }

    /// The next element, if any is left.
    pub fn next(&mut self) -> (r: Option<&'a T>)
        requires
            old(self).wf(),
        ensures
            final(self).wf(),
            old(self).remaining().len() == 0 ==> r is None && final(self).remaining() == old(self).remaining(),
            old(self).remaining().len() > 0 ==> r == Some(&old(self).remaining()[0])
                && final(self).remaining() == old(self).remaining().drop_first(),
    {
        if self.curr < self.matrix.data.len() {
            let rows = self.matrix.rows;
            let cols = self.matrix.cols;
            let k = self.curr;
            proof {
                assert(0 <= k % rows < rows && k / rows < cols && (k % rows) * cols + k / rows < rows * cols) by (nonlinear_arith)
                    requires
                        k < rows * cols,
                ;
            }
            let item = &self.matrix.data[(k % rows) * cols + k / rows];
            self.curr = self.curr + 1;
            proof {
                assert(self.remaining() =~= old(self).remaining().drop_first());
            }
            Some(item)
        } else {
            None
        }
    }
}

} // verus!
