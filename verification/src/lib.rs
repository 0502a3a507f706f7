//! Editing plane for decision tables drawn with box-drawing characters.
//!
//! A table is held as rows of characters. The cursor is confined to the
//! content of the cells, and inserting or deleting a character widens or
//! narrows the column under the cursor in every row it runs through, so that
//! the lines of the table stay unbroken.
//!
//! - [`glyph`] classifies the characters, [`scan`] finds the dividers of a
//!   cell in a row, [`text`] reads the rows from a text and writes them back.
//! - [`model`] defines every operation on a grid of characters with a cursor.
//! - [`plane`], [`cursor`] and [`edit`] hold the plane and its operations,
//!   each proved to do what the model says.
//! - [`laws`], [`confinement`], [`alignment`], [`rectangle`] and [`inverse`]
//!   state what follows for every table.

pub mod alignment;
pub mod confinement;
pub mod cursor;
pub mod edit;
pub mod glyph;
pub mod inverse;
pub mod laws;
pub mod model;
pub mod plane;
pub mod rectangle;
pub mod row;
pub mod scan;
pub mod text;

pub use plane::Plane;
pub use row::Row;
