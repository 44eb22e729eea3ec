//! A simple table of rows and headers, ready for text rendering.

use vstd::prelude::*;

use crate::strings::views_of;

verus! {

/// A table: a header row and any number of data rows.
#[derive(Debug)]
pub struct Table {
    /// The column headers.
    pub headers: Vec<String>,
    /// The data rows, each as one cell per column.
    pub rows: Vec<Vec<String>>,
}

impl Table {
    /// A table with the given column headers and no rows yet.
    pub fn new(headers: Vec<&str>) -> (r: Table)
        ensures
            views_of(r.headers@) == headers@.map_values(|h: &str| h@),
            r.rows@.len() == 0,
    {
        let n = headers.len();
        let mut hs: Vec<String> = Vec::new();
        let mut i: usize = 0;
        while i < n
            invariant
                0 <= i <= n,
                n == headers@.len(),
                hs@.len() == i,
                forall|j: int| 0 <= j < i ==> hs@[j]@ == headers@[j]@,
            decreases n - i,
        {
            hs.push(headers[i].to_owned());
            i += 1;
        }
        proof {
            assert(views_of(hs@) =~= headers@.map_values(|h: &str| h@));
        }
        Table { headers: hs, rows: Vec::new() }
    }

    /// Append one data row.
    pub fn add_row(&mut self, row: Vec<&str>)
        ensures
            final(self).headers@ == old(self).headers@,
            final(self).rows@.len() == old(self).rows@.len() + 1,
            forall|j: int| 0 <= j < old(self).rows@.len() ==> final(self).rows@[j] == old(
                self,
            ).rows@[j],
            views_of(final(self).rows@.last()@) == row@.map_values(|c: &str| c@),
    {
        let n = row.len();
        let mut cells: Vec<String> = Vec::new();
        let mut i: usize = 0;
        while i < n
            invariant
                0 <= i <= n,
                n == row@.len(),
                cells@.len() == i,
                forall|j: int| 0 <= j < i ==> cells@[j]@ == row@[j]@,
            decreases n - i,
        {
            cells.push(row[i].to_owned());
            i += 1;
        }
        proof {
            assert(views_of(cells@) =~= row@.map_values(|c: &str| c@));
        }
        self.rows.push(cells);
    }

    /// The column headers.
    pub fn headers(&self) -> (r: &Vec<String>)
        ensures
            r@ == self.headers@,
    {
        &self.headers
    }

    /// The data rows.
    pub fn rows(&self) -> (r: &Vec<Vec<String>>)
        ensures
            r@ == self.rows@,
    {
        &self.rows
    }
}

} // verus!
