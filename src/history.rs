//! The browser-history reader's logic: which visited URLs a history table
//! yields. Opening and querying the database file is left to the caller.

use vstd::prelude::*;

verus! {

/// One row of the history table, most recent visit first; a column that is
/// absent or of another type reads as `None`.
#[derive(Debug)]
pub struct History {
    pub url: Option<String>,
    pub title: Option<String>,
    /// Microseconds since the Unix epoch, as stored.
    pub last_visit_date: Option<u32>,
}

/// The `url` column of the rows, as character sequences.
pub open spec fn url_column(rows: Seq<History>) -> Seq<Option<Seq<char>>> {
    rows.map_values(
        |h: History|
            match h.url {
                Some(u) => Some(u@),
                None => None,
            },
    )
}

/// The URLs present in the column, in row order.
pub open spec fn present_urls(col: Seq<Option<Seq<char>>>) -> Seq<Seq<char>>
    decreases col.len(),
{
    if col.len() == 0 {
        Seq::empty()
    } else {
        let before = present_urls(col.drop_last());
        match col.last() {
            Some(u) => before.push(u),
            None => before,
        }
    }
}

/// A browser profile's history database, read from a copy of its file.
pub struct Firefox {
    history_file: String,
}

impl Firefox {
    pub closed spec fn history_file_view(&self) -> Seq<char> {
        self.history_file@
    }

    pub fn new(history_file: String) -> (r: Firefox)
        ensures
            r.history_file_view() == history_file@,
    {
        Firefox { history_file }
    }

    /// Path of the database file.
    pub fn history_file(&self) -> (r: &String)
        ensures
            r@ == self.history_file_view(),
    {
        &self.history_file
    }

    /// The URLs of the rows, in row order, rows without one skipped.
    pub fn urls_from_rows(rows: &Vec<History>) -> (r: Vec<String>)
        ensures
            r@.map_values(|u: String| u@) == present_urls(url_column(rows@)),
    {
        let ghost col = url_column(rows@);
        let mut out: Vec<String> = Vec::new();
        let mut i: usize = 0;
        while i < rows.len()
            invariant
                col == url_column(rows@),
                i <= rows@.len(),
                out@.map_values(|u: String| u@) == present_urls(col.subrange(0, i as int)),
            decreases rows@.len() - i,
        {
            let ghost before = out@.map_values(|u: String| u@);
            assert(col.subrange(0, i + 1).drop_last() =~= col.subrange(0, i as int));
            match &rows[i].url {
                Some(u) => {
                    out.push(u.clone());
                    assert(out@.map_values(|u: String| u@) =~= before.push(u@));
                },
                None => {},
            }
            i = i + 1;
        }
        assert(col.subrange(0, i as int) =~= col);
        out
    }
}

} // verus!
