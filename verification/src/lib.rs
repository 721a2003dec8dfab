//! A small column-oriented table engine with typed cells, and what a
//! museum revenue model needs around it.
//!
//! A [`DataFrame`] keeps labelled columns of [`ColumnVal`] cells. Its
//! operations are stated over a mathematical model, [`Table`]: the labels
//! in display order, and a map from each label to its column. The laws
//! that relate the operations are proved in [`laws`].
//!
//! Doubles are carried as their IEEE-754 bit patterns. The library reads
//! none from text: the operations that read cells take the reader of
//! doubles from their caller.

pub mod binning;
pub mod cell;
pub mod error;
pub mod frame;
pub mod laws;
pub mod museum;
pub mod records;
pub mod table;
pub mod text;

pub use cell::{Cell, ColumnVal};
pub use error::FrameError;
pub use frame::{DataFrame, Label};
pub use table::Table;
