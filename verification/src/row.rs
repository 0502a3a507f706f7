//! A row of characters in columns.

use vstd::prelude::*;
use crate::text::to_text;

verus! {

/// Row of characters in columns.
pub struct Row {
    /// Characters in a row.
    pub columns: Vec<char>,
}

impl View for Row {
    type V = Seq<char>;

    /// The characters of the row.
    open spec fn view(&self) -> Seq<char> {
        self.columns@
    }
}

impl Row {
    /// Creates a new row with specified characters.
    pub fn new(columns: Vec<char>) -> (row: Self)
        ensures
            row@ == columns@,
    {
        Self { columns }
    }

    /// Converts the row into its string representation.
    pub fn to_string(&self) -> (text: String)
        ensures
            text@ == self@,
    {
        to_text(&self.columns)
    }
}

/// The characters of a sequence of rows, row by row.
pub open spec fn grid_of(rows: Seq<Row>) -> Seq<Seq<char>> {
    Seq::new(rows.len(), |i: int| rows[i]@)
}

} // verus!
