//! Typed cells, their mathematical values, and how cells are read from text.
use crate::text::{bool_of, int_of, parse_bool, parse_int};
use vstd::prelude::*;

verus! {

/// One typed entry of a column.
///
/// A floating-point entry is carried as the bit pattern of its IEEE-754
/// double: the table stores and copies such entries and never computes
/// with them.
#[derive(Debug, PartialEq, Eq)]
pub enum ColumnVal {
    /// Text.
    One(String),
    /// A boolean.
    Two(bool),
    /// The bits of a double.
    Three(u64),
    /// A signed integer.
    Four(i64),
}

/// The mathematical value of a [`ColumnVal`].
pub enum Cell {
    Text(Seq<char>),
    Flag(bool),
    Double(u64),
    Whole(i64),
}

impl Cell {
    /// The type tag of the cell's variant: 1 text, 2 boolean, 3 double, 4 integer.
    pub open spec fn tag(self) -> u32 {
        match self {
            Cell::Text(_) => 1,
            Cell::Flag(_) => 2,
            Cell::Double(_) => 3,
            Cell::Whole(_) => 4,
        }
    }
}

/// Whether `tag` is one of the four type tags.
pub open spec fn recognized(tag: u32) -> bool {
    1 <= tag <= 4
}

/// The cell that `text` denotes under the type tag `tag`, where `bits` is
/// what the text denotes as a double.
pub open spec fn cell_from(text: Seq<char>, tag: u32, bits: Option<u64>) -> Option<Cell> {
    if tag == 1 {
        Some(Cell::Text(text))
    } else if tag == 2 {
        match bool_of(text) {
            Some(b) => Some(Cell::Flag(b)),
            None => None,
        }
    } else if tag == 3 {
        match bits {
            Some(x) => Some(Cell::Double(x)),
            None => None,
        }
    } else if tag == 4 {
        match int_of(text) {
            Some(i) => Some(Cell::Whole(i)),
            None => None,
        }
    } else {
        None
    }
}

/// The cell that `text` denotes under the type tag `tag`, where `double`
/// gives the bits of the double that a text denotes.
pub open spec fn cell_of(
    text: Seq<char>,
    tag: u32,
    double: spec_fn(Seq<char>) -> Option<u64>,
) -> Option<Cell> {
    cell_from(text, tag, double(text))
}

/// Whether `reader` computes `double`: whatever it returns for a text is
/// what `double` gives for the characters of that text.
pub open spec fn reads<F: Fn(&str) -> Option<u64>>(
    reader: F,
    double: spec_fn(Seq<char>) -> Option<u64>,
) -> bool {
    forall|text: &str, bits: Option<u64>| #[trigger]
        call_ensures(reader, (text,), bits) ==> bits == double(text@)
}

/// Whether `reader` may return `bits` for a text of the characters `text`.
pub open spec fn may_read<F: Fn(&str) -> Option<u64>>(
    reader: F,
    text: Seq<char>,
    bits: Option<u64>,
) -> bool {
    exists|s: &str| s@ == text && call_ensures(reader, (s,), bits)
}

/// Whether `cell` is what `text` reads as under the type tag `tag`, where
/// a double is what `reader` has returned for the text.
pub open spec fn is_reading<F: Fn(&str) -> Option<u64>>(
    reader: F,
    text: Seq<char>,
    tag: u32,
    cell: Cell,
) -> bool {
    if tag == 3 {
        cell matches Cell::Double(x) && may_read(reader, text, Some(x))
    } else {
        cell_from(text, tag, None) == Some(cell)
    }
}

/// Whether `text` does not read under the type tag `tag`, where `reader`
/// has found no double in the text.
pub open spec fn fails_reading<F: Fn(&str) -> Option<u64>>(
    reader: F,
    text: Seq<char>,
    tag: u32,
) -> bool {
    if tag == 3 {
        may_read(reader, text, None)
    } else {
        cell_from(text, tag, None) is None
    }
}

/// Whether `test` computes `p`: whatever it returns for a cell is what `p`
/// gives for the value of that cell.
pub open spec fn decides<P: Fn(&ColumnVal) -> bool>(test: P, p: spec_fn(Cell) -> bool) -> bool {
    forall|cell: &ColumnVal, kept: bool| #[trigger]
        call_ensures(test, (cell,), kept) ==> kept == p(cell@)
}

/// Whether all cells of a column have the same variant.
pub open spec fn uniform(column: Seq<Cell>) -> bool {
    forall|i: int, j: int|
        0 <= i < column.len() && 0 <= j < column.len() ==> column[i].tag() == column[j].tag()
}

impl View for ColumnVal {
    type V = Cell;

    open spec fn view(&self) -> Cell {
        match self {
            ColumnVal::One(s) => Cell::Text(s@),
            ColumnVal::Two(b) => Cell::Flag(*b),
            ColumnVal::Three(x) => Cell::Double(*x),
            ColumnVal::Four(i) => Cell::Whole(*i),
        }
    }
}

impl DeepView for ColumnVal {
    type V = Cell;

    open spec fn deep_view(&self) -> Cell {
        self@
    }
}

impl Clone for ColumnVal {
    fn clone(&self) -> (copy: Self)
        ensures
            copy == *self,
    {
        match self {
            ColumnVal::One(s) => ColumnVal::One(s.clone()),
            ColumnVal::Two(b) => ColumnVal::Two(*b),
            ColumnVal::Three(x) => ColumnVal::Three(*x),
            ColumnVal::Four(i) => ColumnVal::Four(*i),
        }
    }
}

impl ColumnVal {
    /// Reads a cell of the type that `tag` names from `text`, given in
    /// `bits` what the text denotes as a double.
    pub fn from_text(text: &str, tag: u32, bits: Option<u64>) -> (cell: Option<ColumnVal>)
        ensures
            cell.deep_view() == cell_from(text@, tag, bits),
    {
        if tag == 1 {
            Some(ColumnVal::One(text.to_owned()))
        } else if tag == 2 {
            match parse_bool(text) {
                Some(b) => Some(ColumnVal::Two(b)),
                None => None,
            }
        } else if tag == 3 {
            match bits {
                Some(x) => Some(ColumnVal::Three(x)),
                None => None,
            }
        } else if tag == 4 {
            match parse_int(text) {
                Some(i) => Some(ColumnVal::Four(i)),
                None => None,
            }
        } else {
            None
        }
    }

    /// The type tag of the variant.
    pub fn tag(&self) -> (tag: u32)
        ensures
            tag == self@.tag(),
    {
        match self {
            ColumnVal::One(_) => 1,
            ColumnVal::Two(_) => 2,
            ColumnVal::Three(_) => 3,
            ColumnVal::Four(_) => 4,
        }
    }

    /// The text of a text cell, and `None` for any other cell.
    pub fn text(&self) -> (text: Option<String>)
        ensures
            match text {
                Some(s) => self@ == Cell::Text(s@),
                None => !(self@ is Text),
            },
    {
        match self {
            ColumnVal::One(s) => Some(s.clone()),
            _ => None,
        }
    }

    /// The value of a boolean cell, and `None` for any other cell.
    pub fn flag(&self) -> (flag: Option<bool>)
        ensures
            match flag {
                Some(b) => self@ == Cell::Flag(b),
                None => !(self@ is Flag),
            },
    {
        match self {
            ColumnVal::Two(b) => Some(*b),
            _ => None,
        }
    }

    /// The bits of a double cell, and `None` for any other cell.
    pub fn double_bits(&self) -> (bits: Option<u64>)
        ensures
            match bits {
                Some(x) => self@ == Cell::Double(x),
                None => !(self@ is Double),
            },
    {
        match self {
            ColumnVal::Three(x) => Some(*x),
            _ => None,
        }
    }

    /// The value of an integer cell, and `None` for any other cell.
    pub fn whole(&self) -> (whole: Option<i64>)
        ensures
            match whole {
                Some(i) => self@ == Cell::Whole(i),
                None => !(self@ is Whole),
            },
    {
        match self {
            ColumnVal::Four(i) => Some(*i),
            _ => None,
        }
    }
}

} // verus!
