use vstd::prelude::*;

verus! {

/// Why an operation on a table was refused.
#[derive(Clone, Copy, Debug, PartialEq, Eq, Structural)]
pub enum TableError {
    /// A row's length differs from the table's column count.
    WrongNumberCols,
    /// The target width cannot hold even the narrowest grid.
    NotEnoughCols,
}

/// A rectangular grid of text cells; row 0 holds the headers.
#[derive(Clone, Debug)]
pub struct Table {
    num_cols: usize,
    rows: Vec<Vec<String>>,
}

/// Every row of `v` has as many cells as the first one.
pub open spec fn is_grid(v: Seq<Seq<Seq<char>>>) -> bool {
    &&& v.len() >= 1
    &&& forall|i: int| 0 <= i < v.len() ==> #[trigger] v[i].len() == v[0].len()
}

impl View for Table {
    type V = Seq<Seq<Seq<char>>>;

    closed spec fn view(&self) -> Seq<Seq<Seq<char>>> {
        self.rows.deep_view()
    }
}

impl Table {
    /// The fixed column count matches the header row and every row.
    pub closed spec fn wf(&self) -> bool {
        &&& is_grid(self@)
        &&& self.num_cols == self@[0].len()
    }

    /// A well-formed table is a grid.
    pub proof fn lemma_grid(&self)
        requires
            self.wf(),
        ensures
            is_grid(self@),
    {
    }

    /// A table whose only row is `headers`.
    pub fn new(headers: Vec<String>) -> (r: Self)
        ensures
            r.wf(),
            r@ == seq![headers.deep_view()],
            r@.len() == 1,
    {
        let mut rows: Vec<Vec<String>> = Vec::new();
        let cols = headers.len();
        rows.push(headers);
        let r = Self { num_cols: cols, rows };
        proof {
            assert(r@ =~= seq![headers.deep_view()]);
        }
        r
    }

    /// Appends `row` when its length is the column count; otherwise leaves
    /// the table as it was.
    pub fn add_row(&mut self, row: Vec<String>) -> (r: Result<(), TableError>)
        requires
            old(self).wf(),
        ensures
            final(self).wf(),
            row@.len() == old(self)@[0].len() ==> {
                &&& r is Ok
                &&& final(self)@ == old(self)@.push(row.deep_view())
                &&& final(self)@.len() == old(self)@.len() + 1
            },
            row@.len() != old(self)@[0].len() ==> {
                &&& r == Err::<(), TableError>(TableError::WrongNumberCols)
                &&& final(self)@ == old(self)@
                &&& final(self)@.len() == old(self)@.len()
            },
    {
        if row.len() == self.num_cols {
            let ghost before = self@;
            self.rows.push(row);
            proof {
                assert(self@ =~= before.push(row.deep_view()));
            }
            return Ok(());
        }
        Err(TableError::WrongNumberCols)
    }

    /// The number of columns.
    pub fn num_cols(&self) -> (r: usize)
        requires
            self.wf(),
        ensures
            r == self@[0].len(),
    {
        self.num_cols
    }

    /// All rows, the header row first.
    pub fn rows(&self) -> (r: &Vec<Vec<String>>)
        ensures
            r.deep_view() == self@,
    {
        &self.rows
    }
}

} // verus!
