//! The mathematical model of a table and of the operations on it.
use crate::cell::{cell_of, fails_reading, is_reading, recognized, uniform, Cell};
use crate::error::FrameError;
use vstd::prelude::*;

verus! {

/// Whether every text of `values` denotes a cell under `tag`.
pub open spec fn readable(
    values: Seq<Seq<char>>,
    tag: u32,
    double: spec_fn(Seq<char>) -> Option<u64>,
) -> bool {
    forall|i: int| 0 <= i < values.len() ==> cell_of(#[trigger] values[i], tag, double) is Some
}

/// The column that the texts of `values` denote under `tag`.
pub open spec fn column_of(
    values: Seq<Seq<char>>,
    tag: u32,
    double: spec_fn(Seq<char>) -> Option<u64>,
) -> Seq<Cell> {
    Seq::new(values.len(), |i: int| cell_of(values[i], tag, double).unwrap())
}

/// Whether two columns may be joined end to end: their first cells, where
/// both have one, are of the same variant.
pub open spec fn compatible(left: Seq<Cell>, right: Seq<Cell>) -> bool {
    left.len() == 0 || right.len() == 0 || left[0].tag() == right[0].tag()
}

/// The entries of `column` at the positions that `keep` marks, in order.
pub open spec fn pick<A>(column: Seq<A>, keep: Seq<bool>) -> Seq<A>
    decreases keep.len(),
{
    if keep.len() == 0 || column.len() == 0 {
        Seq::empty()
    } else if keep.last() {
        pick(column.drop_last(), keep.drop_last()).push(column.last())
    } else {
        pick(column.drop_last(), keep.drop_last())
    }
}

/// Picking from equally long columns by the same marks gives equally long columns.
pub proof fn lemma_pick_len<A, B>(left: Seq<A>, right: Seq<B>, keep: Seq<bool>)
    requires
        left.len() == right.len(),
    ensures
        pick(left, keep).len() == pick(right, keep).len(),
        pick(left, keep).len() <= left.len(),
    decreases keep.len(),
{
    if keep.len() > 0 && left.len() > 0 {
        lemma_pick_len(left.drop_last(), right.drop_last(), keep.drop_last());
    }
}

/// Every entry picked from a column is an entry of that column.
pub proof fn lemma_pick_within<A>(column: Seq<A>, keep: Seq<bool>)
    ensures
        forall|i: int|
            0 <= i < pick(column, keep).len() ==> column.contains(#[trigger] pick(column, keep)[i]),
    decreases keep.len(),
{
    if keep.len() > 0 && column.len() > 0 {
        let rest = pick(column.drop_last(), keep.drop_last());
        lemma_pick_within(column.drop_last(), keep.drop_last());
        assert forall|i: int| 0 <= i < pick(column, keep).len() implies column.contains(
            #[trigger] pick(column, keep)[i],
        ) by {
            if i < rest.len() {
                assert(column.drop_last().contains(rest[i]));
                let j = column.drop_last().index_of(rest[i]);
                assert(column[j] == rest[i]);
            } else {
                assert(column[column.len() - 1] == pick(column, keep)[i]);
            }
        }
    }
}

/// What is picked from a column of one variant is of one variant.
pub proof fn lemma_pick_uniform(column: Seq<Cell>, keep: Seq<bool>)
    requires
        uniform(column),
    ensures
        uniform(pick(column, keep)),
{
    lemma_pick_within(column, keep);
}

/// Whether every one of the first `width` positions has a recognised tag in `types`.
pub open spec fn typed(width: nat, types: Seq<u32>) -> bool {
    &&& width <= types.len()
    &&& forall|j: int| 0 <= j < width ==> recognized(#[trigger] types[j])
}

/// Whether every row after the first is as wide as the first.
pub open spec fn rectangular(rows: Seq<Seq<Seq<char>>>) -> bool {
    forall|i: int| 1 <= i < rows.len() ==> (#[trigger] rows[i]).len() == rows[0].len()
}

/// The texts at position `j` of every row after the first.
pub open spec fn entries(rows: Seq<Seq<Seq<char>>>, j: int) -> Seq<Seq<char>> {
    Seq::new((rows.len() - 1) as nat, |i: int| rows[i + 1][j])
}

/// Whether every cell of `table` is what the entry at its place in `rows`
/// reads as under the tag of its column, where a double is what `reader`
/// has returned for the entry.
pub open spec fn read_from<F: Fn(&str) -> Option<u64>>(
    reader: F,
    rows: Seq<Seq<Seq<char>>>,
    types: Seq<u32>,
    table: Table,
) -> bool {
    forall|i: int, j: int|
        1 <= i < rows.len() && 0 <= j < rows[0].len() ==> is_reading(
            reader,
            #[trigger] rows[i][j],
            types[j],
            table.data[rows[0][j]][i - 1],
        )
}

/// Whether an entry of `rows` does not read under the tag of its column,
/// where `reader` has found no double in it.
pub open spec fn entry_fails<F: Fn(&str) -> Option<u64>>(
    reader: F,
    rows: Seq<Seq<Seq<char>>>,
    types: Seq<u32>,
) -> bool {
    exists|i: int, j: int|
        1 <= i < rows.len() && 0 <= j < rows[0].len() && fails_reading(
            reader,
            #[trigger] rows[i][j],
            types[j],
        )
}

/// A table: labels in display order, and the column that each label names.
#[verifier::ext_equal]
pub struct Table {
    pub labels: Seq<Seq<char>>,
    pub data: Map<Seq<char>, Seq<Cell>>,
}

impl Table {
    /// The table without labels and columns.
    pub open spec fn empty() -> Table {
        Table { labels: Seq::empty(), data: Map::empty() }
    }

    /// Whether `label` names a column.
    pub open spec fn has(self, label: Seq<char>) -> bool {
        self.data.contains_key(label)
    }

    /// The number of columns.
    pub open spec fn width(self) -> nat {
        self.data.dom().len()
    }

    /// The number of rows: the length of the first listed column, and 0
    /// where there is none.
    pub open spec fn rows(self) -> nat {
        if self.labels.len() == 0 {
            0
        } else {
            self.data[self.labels[0]].len()
        }
    }

    /// The invariants of a table: the listed labels are exactly the labels
    /// that name a column, all columns are equally long, and each column
    /// holds cells of one variant.
    pub open spec fn well_formed(self) -> bool {
        &&& forall|l: Seq<char>| self.has(l) <==> self.labels.contains(l)
        &&& forall|l: Seq<char>| self.has(l) ==> (#[trigger] self.data[l]).len() == self.rows()
        &&& forall|l: Seq<char>| self.has(l) ==> uniform(#[trigger] self.data[l])
    }

    /// The cells of row `i`, in display order.
    pub open spec fn row(self, i: int) -> Seq<Cell> {
        Seq::new(self.labels.len(), |j: int| self.data[self.labels[j]][i])
    }

    /// The cells of row `i` under the labels of `labels`, in that order.
    pub open spec fn row_under(self, labels: Seq<Seq<char>>, i: int) -> Seq<Cell> {
        Seq::new(labels.len(), |j: int| self.data[labels[j]][i])
    }

    /// The first `n` rows under the labels of `labels`, one after another.
    pub open spec fn rows_under(self, labels: Seq<Seq<char>>, n: nat) -> Seq<Cell>
        decreases n,
    {
        if n == 0 {
            Seq::empty()
        } else {
            self.rows_under(labels, (n - 1) as nat) + self.row_under(labels, n - 1)
        }
    }

    /// The outcome of laying out the columns that `labels` names as a
    /// matrix of numbers in row-major order: every label must name a
    /// column, and none of these columns may hold text.
    pub open spec fn numeric_layout(self, labels: Seq<Seq<char>>) -> Result<Seq<Cell>, FrameError> {
        if exists|j: int| 0 <= j < labels.len() && !self.has(#[trigger] labels[j]) {
            Err(FrameError::UnknownColumn)
        } else if exists|j: int, i: int|
            0 <= j < labels.len() && 0 <= i < self.data[labels[j]].len()
                && #[trigger] self.data[labels[j]][i] is Text {
            Err(FrameError::SchemaMismatch)
        } else {
            Ok(self.rows_under(labels, self.rows()))
        }
    }

    /// The outcome of projecting onto `labels`.
    pub open spec fn projected(self, labels: Seq<Seq<char>>) -> Result<Table, FrameError> {
        if forall|i: int| 0 <= i < labels.len() ==> self.has(#[trigger] labels[i]) {
            Ok(Table { labels, data: self.data.restrict(labels.to_set()) })
        } else {
            Err(FrameError::UnknownColumn)
        }
    }

    /// The outcome of appending to a table the column that `values` denote
    /// under `tag`, as `label`.
    pub open spec fn with_column(
        self,
        values: Seq<Seq<char>>,
        label: Seq<char>,
        tag: u32,
        double: spec_fn(Seq<char>) -> Option<u64>,
    ) -> Result<Table, FrameError> {
        if values.len() != self.rows() {
            Err(FrameError::RowCountMismatch)
        } else if !recognized(tag) {
            Err(FrameError::UnknownType)
        } else if !readable(values, tag, double) {
            Err(FrameError::ParseFailure)
        } else {
            Ok(
                Table {
                    labels: self.labels.push(label),
                    data: self.data.insert(label, column_of(values, tag, double)),
                },
            )
        }
    }

    /// Whether `other` has the same labels as `self` and, under each, a
    /// compatible column.
    pub open spec fn fits(self, other: Table) -> bool {
        &&& forall|l: Seq<char>| self.has(l) <==> other.has(l)
        &&& forall|l: Seq<char>| self.has(l) ==> compatible(#[trigger] self.data[l], other.data[l])
    }

    /// The rows of `self` followed by the rows of `other`.
    pub open spec fn joined(self, other: Table) -> Table {
        Table {
            labels: self.labels,
            data: Map::new(|l: Seq<char>| self.has(l), |l: Seq<char>| self.data[l] + other.data[l]),
        }
    }

    /// The outcome of merging `other` into `self`.
    pub open spec fn merged(self, other: Table) -> Result<Table, FrameError> {
        if self.fits(other) {
            Ok(self.joined(other))
        } else {
            Err(FrameError::SchemaMismatch)
        }
    }

    /// The table restricted to the rows that `keep` marks.
    pub open spec fn selected(self, keep: Seq<bool>) -> Table {
        Table {
            labels: self.labels,
            data: Map::new(|l: Seq<char>| self.has(l), |l: Seq<char>| pick(self.data[l], keep)),
        }
    }

    /// The outcome of keeping the rows whose cell under `label` satisfies `p`.
    pub open spec fn filtered(self, label: Seq<char>, p: spec_fn(Cell) -> bool) -> Result<
        Table,
        FrameError,
    > {
        if self.has(label) {
            Ok(self.selected(self.data[label].map_values(p)))
        } else {
            Err(FrameError::UnknownColumn)
        }
    }

    /// The columns that the labels of `labels` name, in that order; a label
    /// that names no column contributes nothing.
    pub open spec fn gathered(self, labels: Seq<Seq<char>>) -> Seq<Seq<Cell>>
        decreases labels.len(),
    {
        if labels.len() == 0 {
            Seq::empty()
        } else if self.has(labels.last()) {
            self.gathered(labels.drop_last()).push(self.data[labels.last()])
        } else {
            self.gathered(labels.drop_last())
        }
    }

    /// Why rows of text are no table under the type tags `types`, whatever
    /// their entries hold: a column of the first row has no recognised tag;
    /// or two columns have the same label, or a row is not as wide as the first.
    pub open spec fn misfit(rows: Seq<Seq<Seq<char>>>, types: Seq<u32>) -> Option<FrameError> {
        if rows.len() == 0 {
            None
        } else if !typed(rows[0].len(), types) {
            Some(FrameError::UnknownType)
        } else if !rows[0].no_duplicates() || !rectangular(rows) {
            Some(FrameError::SchemaMismatch)
        } else {
            None
        }
    }

    /// The outcome of reading a table from rows of text, the first of which
    /// names the columns, under the type tags `types`.
    pub open spec fn ingested(
        rows: Seq<Seq<Seq<char>>>,
        types: Seq<u32>,
        double: spec_fn(Seq<char>) -> Option<u64>,
    ) -> Result<Table, FrameError> {
        if rows.len() == 0 {
            Ok(Table::empty())
        } else if Table::misfit(rows, types) is Some {
            Err(Table::misfit(rows, types).unwrap())
        } else if exists|j: int|
            0 <= j < rows[0].len() && !readable(entries(rows, j), types[j], double) {
            Err(FrameError::ParseFailure)
        } else {
            Ok(
                Table {
                    labels: rows[0],
                    data: Map::new(
                        |l: Seq<char>| rows[0].contains(l),
                        |l: Seq<char>|
                            column_of(
                                entries(rows, rows[0].index_of(l)),
                                types[rows[0].index_of(l)],
                                double,
                            ),
                    ),
                },
            )
        }
    }
}

} // verus!
