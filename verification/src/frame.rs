//! The table engine: labelled columns of typed cells.
use crate::cell::{
    cell_of, decides, fails_reading, is_reading, reads, recognized, uniform, Cell, ColumnVal,
};
use crate::error::FrameError;
use crate::records::{csv_records, split_records};
use crate::table::{
    column_of, compatible, entries, entry_fails, lemma_pick_len, lemma_pick_uniform, pick,
    read_from, readable, typed, Table,
};
use vstd::set_lib::lemma_subset_equality;
use vstd::prelude::*;

verus! {

/// The name of a column.
pub type Label = String;

/// A table of labelled columns.
///
/// `labels` lists the labels in display order. `names` holds each label
/// that names a column once, and `columns` the column of each name.
#[derive(Debug)]
pub struct DataFrame {
    labels: Vec<Label>,
    names: Vec<Label>,
    columns: Vec<Vec<ColumnVal>>,
}

impl View for DataFrame {
    type V = Table;

    closed spec fn view(&self) -> Table {
        Table {
            labels: self.labels.deep_view(),
            data: Map::new(
                |l: Seq<char>| self.names.deep_view().contains(l),
                |l: Seq<char>| self.columns[self.names.deep_view().index_of(l)].deep_view(),
            ),
        }
    }
}

/// Where `label` stands in `names`, if it does.
fn position(names: &Vec<Label>, label: &String) -> (at: Option<usize>)
    ensures
        match at {
            Some(i) => i < names.len() && names[i as int]@ == label@,
            None => !names.deep_view().contains(label@),
        },
{
    let mut i: usize = 0;
    while i < names.len()
        invariant
            i <= names.len(),
            forall|k: int| 0 <= k < i ==> names[k]@ != label@,
        decreases names.len() - i,
    {
        if names[i] == *label {
            return Some(i);
        }
        i += 1;
    }
    None
}

/// A copy of a column.
fn copy_column(column: &Vec<ColumnVal>) -> (copy: Vec<ColumnVal>)
    ensures
        copy@ == column@,
{
    let mut copy: Vec<ColumnVal> = Vec::new();
    let mut i: usize = 0;
    while i < column.len()
        invariant
            i <= column.len(),
            copy@ == column@.take(i as int),
        decreases column.len() - i,
    {
        copy.push(column[i].clone());
        i += 1;
    }
    copy
}

/// A copy of a list of labels.
fn copy_labels(labels: &Vec<Label>) -> (copy: Vec<Label>)
    ensures
        copy@ == labels@,
{
    let mut copy: Vec<Label> = Vec::new();
    let mut i: usize = 0;
    while i < labels.len()
        invariant
            i <= labels.len(),
            copy@ == labels@.take(i as int),
        decreases labels.len() - i,
    {
        copy.push(labels[i].clone());
        i += 1;
    }
    copy
}

/// A copy of a list of columns.
fn copy_columns(columns: &Vec<Vec<ColumnVal>>) -> (copy: Vec<Vec<ColumnVal>>)
    ensures
        copy.len() == columns.len(),
        forall|i: int| 0 <= i < columns.len() ==> copy[i]@ == columns[i]@,
{
    let mut copy: Vec<Vec<ColumnVal>> = Vec::new();
    let mut i: usize = 0;
    while i < columns.len()
        invariant
            i <= columns.len(),
            copy.len() == i,
            forall|k: int| 0 <= k < i ==> copy[k]@ == columns[k]@,
        decreases columns.len() - i,
    {
        copy.push(copy_column(&columns[i]));
        i += 1;
    }
    copy
}

/// The texts at position `j` of every row after the first.
fn column_texts<'a>(rows: &'a Vec<Vec<String>>, j: usize) -> (texts: Vec<&'a str>)
    requires
        rows.len() > 0,
        forall|i: int| 1 <= i < rows.len() ==> j < rows[i].len(),
    ensures
        texts.deep_view() == entries(rows.deep_view(), j as int),
{
    let mut texts: Vec<&'a str> = Vec::new();
    let mut i: usize = 1;
    while i < rows.len()
        invariant
            1 <= i <= rows.len(),
            texts.len() == i - 1,
            forall|i: int| 1 <= i < rows.len() ==> j < rows[i].len(),
            forall|k: int| 0 <= k < i - 1 ==> texts[k]@ == rows[k + 1][j as int]@,
        decreases rows.len() - i,
    {
        texts.push(rows[i][j].as_str());
        i += 1;
    }
    texts
}

/// Reads the column that the texts of `values` denote under `tag`.
fn read_column<F: Fn(&str) -> Option<u64>>(values: &Vec<&str>, tag: u32, read_double: &F) -> (column:
    Option<Vec<ColumnVal>>)
    requires
        forall|text: &str| call_requires(*read_double, (text,)),
    ensures
        column matches Some(c) ==> c.len() == values.len() && forall|i: int|
            0 <= i < c.len() ==> (#[trigger] c[i])@.tag() == tag,
        column matches Some(c) ==> forall|i: int|
            0 <= i < c.len() ==> is_reading(
                *read_double,
                values.deep_view()[i],
                tag,
                #[trigger] c.deep_view()[i],
            ),
        column is None ==> exists|i: int|
            0 <= i < values.len() && fails_reading(
                *read_double,
                #[trigger] values.deep_view()[i],
                tag,
            ),
        forall|double: spec_fn(Seq<char>) -> Option<u64>| #[trigger]
            reads(*read_double, double) ==> match column {
                Some(c) => readable(values.deep_view(), tag, double) && c.deep_view() == column_of(
                    values.deep_view(),
                    tag,
                    double,
                ),
                None => !readable(values.deep_view(), tag, double),
            },
{
    let mut column: Vec<ColumnVal> = Vec::new();
    let mut i: usize = 0;
    while i < values.len()
        invariant
            i <= values.len(),
            column.len() == i,
            forall|text: &str| call_requires(*read_double, (text,)),
            forall|k: int| 0 <= k < i ==> (#[trigger] column[k])@.tag() == tag,
            forall|k: int|
                0 <= k < i ==> is_reading(*read_double, values[k]@, tag, (#[trigger] column[k])@),
            forall|double: spec_fn(Seq<char>) -> Option<u64>| #[trigger]
                reads(*read_double, double) ==> forall|k: int|
                    0 <= k < i ==> cell_of(values[k]@, tag, double) == Some(column[k]@),
        decreases values.len() - i,
    {
        let text: &str = values[i];
        let bits = if tag == 3 {
            read_double(text)
        } else {
            None
        };
        match ColumnVal::from_text(text, tag, bits) {
            Some(cell) => {
                column.push(cell);
            },
            None => {
                assert(fails_reading(*read_double, values.deep_view()[i as int], tag));
                return None;
            },
        }
        i += 1;
    }
    assert forall|double: spec_fn(Seq<char>) -> Option<u64>| #[trigger]
        reads(*read_double, double) implies readable(values.deep_view(), tag, double)
        && column.deep_view() == column_of(values.deep_view(), tag, double) by {}
    Some(column)
}

/// The cells of `left` followed by the cells of `right`.
fn join_columns(left: &Vec<ColumnVal>, right: &Vec<ColumnVal>) -> (joined: Vec<ColumnVal>)
    ensures
        joined@ == left@ + right@,
        joined.deep_view() == left.deep_view() + right.deep_view(),
{
    let mut joined = copy_column(left);
    let mut i: usize = 0;
    while i < right.len()
        invariant
            i <= right.len(),
            joined@ == left@ + right@.take(i as int),
        decreases right.len() - i,
    {
        joined.push(right[i].clone());
        i += 1;
    }
    joined
}

/// The cells of `column` at the positions that `keep` marks.
fn pick_column(column: &Vec<ColumnVal>, keep: &Vec<bool>) -> (picked: Vec<ColumnVal>)
    requires
        keep.len() == column.len(),
    ensures
        picked.deep_view() == pick(column.deep_view(), keep@),
{
    let ghost cells = column.deep_view();
    let mut picked: Vec<ColumnVal> = Vec::new();
    let mut i: usize = 0;
    while i < column.len()
        invariant
            i <= column.len(),
            keep.len() == column.len(),
            cells == column.deep_view(),
            picked.deep_view() == pick(cells.take(i as int), keep@.take(i as int)),
        decreases column.len() - i,
    {
        if keep[i] {
            picked.push(column[i].clone());
        }
        i += 1;
        proof {
            assert(cells.take(i as int).drop_last() =~= cells.take(i - 1));
            assert(keep@.take(i as int).drop_last() =~= keep@.take(i - 1));
        }
    }
    assert(cells.take(column.len() as int) =~= cells);
    assert(keep@.take(column.len() as int) =~= keep@);
    picked
}

/// A result with the table that a frame stands for in place of the frame.
pub open spec fn outcome(result: Result<DataFrame, FrameError>) -> Result<Table, FrameError> {
    match result {
        Ok(frame) => Ok(frame@),
        Err(e) => Err(e),
    }
}

impl Clone for DataFrame {
    fn clone(&self) -> (copy: Self)
        ensures
            copy@ == self@,
    {
        proof {
            use_type_invariant(self);
        }
        let labels = copy_labels(&self.labels);
        let names = copy_labels(&self.names);
        let columns = copy_columns(&self.columns);
        assert forall|i: int| 0 <= i < columns.len() implies columns[i].deep_view()
            == self.columns[i].deep_view() by {}
        let copy = DataFrame { labels, names, columns };
        copy
    }
}

impl DataFrame {
    #[verifier::type_invariant]
    spec fn inv(&self) -> bool {
        &&& self.names.deep_view().no_duplicates()
        &&& self.columns.len() == self.names.len()
        &&& forall|l: Seq<char>|
            self.labels.deep_view().contains(l) <==> self.names.deep_view().contains(l)
        &&& forall|i: int, j: int|
            0 <= i < self.columns.len() && 0 <= j < self.columns.len() ==> self.columns[i].len()
                == self.columns[j].len()
        &&& forall|i: int|
            0 <= i < self.columns.len() ==> uniform(#[trigger] self.columns[i].deep_view())
    }

    /// What the invariant says of the view.
    proof fn lemma_view(&self)
        requires
            self.inv(),
        ensures
            self@.well_formed(),
            self@.labels == self.labels.deep_view(),
            forall|l: Seq<char>| self@.has(l) <==> self.names.deep_view().contains(l),
            forall|i: int|
                0 <= i < self.names.len() ==> self@.has(#[trigger] self.names[i]@)
                    && self@.data[self.names[i]@] == self.columns[i].deep_view(),
    {
        let names = self.names.deep_view();
        assert forall|i: int| 0 <= i < self.names.len() implies self@.has(
            #[trigger] self.names[i]@,
        ) && self@.data[self.names[i]@] == self.columns[i].deep_view() by {
            assert(names[i] == self.names[i]@);
        }
    }

    /// An empty table: no labels, no columns.
    pub fn new() -> (frame: Self)
        ensures
            frame@ == Table::empty(),
    {
        let frame = DataFrame { labels: Vec::new(), names: Vec::new(), columns: Vec::new() };
        frame
    }

    /// Reads a table from rows of text. The first row names the columns;
    /// every further row gives one entry to each column, read under the
    /// type tag that `types` holds at the column's position. `read_double`
    /// reads the entries of the columns tagged 3.
    ///
    /// No rows give the empty table. A column whose position has no
    /// recognised tag gives `UnknownType`; failing that, two columns of one
    /// label or a row that is not as wide as the first give
    /// `SchemaMismatch`; failing that, an entry that does not read under
    /// its column's tag gives `ParseFailure`.
    #[verifier::loop_isolation(false)]
    pub fn ingest<F: Fn(&str) -> Option<u64>>(
        rows: &Vec<Vec<String>>,
        types: &Vec<u32>,
        read_double: F,
    ) -> (result: Result<DataFrame, FrameError>)
        requires
            forall|text: &str| call_requires(read_double, (text,)),
        ensures
            forall|double: spec_fn(Seq<char>) -> Option<u64>| #[trigger]
                reads(read_double, double) ==> outcome(result) == Table::ingested(
                    rows.deep_view(),
                    types@,
                    double,
                ),
            match result {
                Ok(frame) => {
                    &&& Table::misfit(rows.deep_view(), types@) is None
                    &&& frame@.well_formed()
                    &&& rows.len() == 0 ==> frame@ == Table::empty()
                    &&& rows.len() > 0 ==> frame@.labels == rows[0].deep_view() && frame@.width()
                        == rows[0].len()
                    &&& forall|l: Seq<char>|
                        frame@.has(l) ==> (#[trigger] frame@.data[l]).len() == rows.len() - 1
                    &&& read_from(read_double, rows.deep_view(), types@, frame@)
                },
                Err(e) => Table::misfit(rows.deep_view(), types@) == Some(e) || {
                    &&& Table::misfit(rows.deep_view(), types@) is None
                    &&& e == FrameError::ParseFailure
                    &&& entry_fails(read_double, rows.deep_view(), types@)
                },
            },
    {
        if rows.len() == 0 {
            let frame = DataFrame::new();
            proof {
                use_type_invariant(&frame);
            }
            return Ok(frame);
        }
        let ghost texts = rows.deep_view();
        let header = &rows[0];
        let width = header.len();
        if types.len() < width {
            return Err(FrameError::UnknownType);
        }
        let mut j: usize = 0;
        while j < width
            invariant
                j <= width,
                forall|k: int| 0 <= k < j ==> recognized(#[trigger] types@[k]),
            decreases width - j,
        {
            if types[j] < 1 || types[j] > 4 {
                return Err(FrameError::UnknownType);
            }
            j += 1;
        }
        let mut names: Vec<Label> = Vec::new();
        j = 0;
        while j < width
            invariant
                j <= width,
                width == header.len(),
                names@ == header@.take(j as int),
                names.deep_view().no_duplicates(),
            decreases width - j,
        {
            let ghost before = names.deep_view();
            match position(&names, &header[j]) {
                Some(k) => {
                    proof {
                        assert(texts[0][k as int] == header@[k as int]@);
                        assert(texts[0][j as int] == header@[j as int]@);
                    }
                    return Err(FrameError::SchemaMismatch);
                },
                None => {},
            }
            names.push(header[j].clone());
            j += 1;
            proof {
                assert(names.deep_view() =~= before.push(header[j - 1]@));
            }
        }
        assert(names.deep_view() =~= header.deep_view());
        let mut i: usize = 1;
        while i < rows.len()
            invariant
                1 <= i <= rows.len(),
                width == rows[0].len(),
                forall|k: int| 1 <= k < i ==> (#[trigger] rows[k]).len() == width,
            decreases rows.len() - i,
        {
            if rows[i].len() != width {
                assert(texts[i as int].len() != texts[0].len());
                return Err(FrameError::SchemaMismatch);
            }
            i += 1;
        }
        let mut columns: Vec<Vec<ColumnVal>> = Vec::new();
        j = 0;
        while j < width
            invariant
                j <= width,
                width == rows[0].len(),
                rows.len() > 0,
                texts == rows.deep_view(),
                columns.len() == j,
                typed(width as nat, types@),
                forall|text: &str| call_requires(read_double, (text,)),
                forall|k: int| 1 <= k < rows.len() ==> (#[trigger] rows[k]).len() == width,
                forall|k: int| 0 <= k < j ==> (#[trigger] columns[k]).len() == rows.len() - 1,
                forall|k: int| 0 <= k < j ==> uniform(#[trigger] columns[k].deep_view()),
                forall|k: int, i: int|
                    0 <= k < j && 1 <= i < rows.len() ==> is_reading(
                        read_double,
                        #[trigger] texts[i][k],
                        types@[k],
                        columns[k].deep_view()[i - 1],
                    ),
                forall|double: spec_fn(Seq<char>) -> Option<u64>, k: int|
                    reads(read_double, double) && 0 <= k < j ==> #[trigger] readable(
                        entries(texts, k),
                        types@[k],
                        double,
                    ),
                forall|double: spec_fn(Seq<char>) -> Option<u64>, k: int|
                    reads(read_double, double) && 0 <= k < j ==> columns[k].deep_view()
                        == #[trigger] column_of(entries(texts, k), types@[k], double),
            decreases width - j,
        {
            let values = column_texts(rows, j);
            match read_column(&values, types[j], &read_double) {
                Some(column) => {
                    columns.push(column);
                },
                None => {
                    proof {
                        let m = choose|m: int|
                            0 <= m < values.len() && fails_reading(
                                *&read_double,
                                #[trigger] values.deep_view()[m],
                                types@[j as int],
                            );
                    }
                    return Err(FrameError::ParseFailure);
                },
            }
            j += 1;
        }
        let labels = copy_labels(&names);
        let frame = DataFrame { labels, names, columns };
        proof {
            header.deep_view().unique_seq_to_set();
            assert forall|double: spec_fn(Seq<char>) -> Option<u64>| #[trigger]
                reads(read_double, double) implies Ok::<Table, FrameError>(frame@)
                == Table::ingested(texts, types@, double) by {
                let expected = Table::ingested(texts, types@, double).unwrap();
                assert(frame@ =~= expected);
            }
        }
        Ok(frame)
    }

    /// Reads a table from comma-separated text, as [`DataFrame::ingest`]
    /// reads it from the records of the text, and puts it in place of
    /// `self`. Text that cannot be split into records gives
    /// `ParseFailure`. On an error `self` stays as it was.
    pub fn read_csv<F: Fn(&str) -> Option<u64>>(
        &mut self,
        text: &[u8],
        types: &Vec<u32>,
        read_double: F,
    ) -> (result: Result<(), FrameError>)
        requires
            forall|field: &str| call_requires(read_double, (field,)),
        ensures
            final(self)@.well_formed(),
            result is Err ==> final(self)@ == old(self)@,
            csv_records(text@) is None ==> result == Err::<(), FrameError>(
                FrameError::ParseFailure,
            ),
            csv_records(text@) matches Some(rows) ==> forall|
                double: spec_fn(Seq<char>) -> Option<u64>,
            | #[trigger]
                reads(read_double, double) ==> match Table::ingested(rows, types@, double) {
                    Ok(table) => result is Ok && final(self)@ == table,
                    Err(e) => result == Err::<(), FrameError>(e),
                },
            csv_records(text@) matches Some(rows) ==> match result {
                Ok(_) => Table::misfit(rows, types@) is None && read_from(
                    read_double,
                    rows,
                    types@,
                    final(self)@,
                ),
                Err(e) => Table::misfit(rows, types@) == Some(e) || {
                    &&& Table::misfit(rows, types@) is None
                    &&& e == FrameError::ParseFailure
                    &&& entry_fails(read_double, rows, types@)
                },
            },
    {
        proof {
            use_type_invariant(&*self);
        }
        let rows = match split_records(text) {
            Some(rows) => rows,
            None => {
                return Err(FrameError::ParseFailure);
            },
        };
        match DataFrame::ingest(&rows, types, read_double) {
            Ok(frame) => {
                *self = frame;
                Ok(())
            },
            Err(e) => Err(e),
        }
    }

    /// The column that `label` names, together with the label.
    pub fn find_column(&self, label: &str) -> (found: Result<(Label, Vec<ColumnVal>), FrameError>)
        ensures
            match found {
                Ok((name, column)) => self@.has(label@) && name@ == label@ && column.deep_view()
                    == self@.data[label@],
                Err(e) => e == FrameError::UnknownColumn && !self@.has(label@),
            },
    {
        proof {
            use_type_invariant(self);
            self.lemma_view();
        }
        let name = label.to_owned();
        match position(&self.names, &name) {
            Some(i) => {
                let column = copy_column(&self.columns[i]);
                Ok((name, column))
            },
            None => Err(FrameError::UnknownColumn),
        }
    }

    /// The table with only the columns that `cols` names, listed in the
    /// order of `cols`. A label of `cols` that names no column gives
    /// `UnknownColumn`.
    #[verifier::loop_isolation(false)]
    pub fn restrict_columns(&self, cols: Vec<&str>) -> (result: Result<DataFrame, FrameError>)
        ensures
            outcome(result) == self@.projected(cols.deep_view()),
            result matches Ok(frame) ==> {
                &&& frame@.well_formed()
                &&& frame@.labels == cols.deep_view()
                &&& cols.len() > 0 ==> frame@.rows() == self@.rows()
            },
    {
        proof {
            use_type_invariant(self);
            self.lemma_view();
        }
        let ghost wanted = cols.deep_view();
        let mut labels: Vec<Label> = Vec::new();
        let mut names: Vec<Label> = Vec::new();
        let mut columns: Vec<Vec<ColumnVal>> = Vec::new();
        let mut i: usize = 0;
        while i < cols.len()
            invariant
                i <= cols.len(),
                labels.deep_view() == wanted.take(i as int),
                names.deep_view().no_duplicates(),
                columns.len() == names.len(),
                forall|l: Seq<char>| names.deep_view().contains(l) <==> labels.deep_view().contains(l),
                forall|m: int| 0 <= m < names.len() ==> self@.has(#[trigger] names.deep_view()[m]),
                forall|m: int|
                    0 <= m < names.len() ==> (#[trigger] columns[m]).deep_view()
                        == self@.data[names.deep_view()[m]],
            decreases cols.len() - i,
        {
            let name = cols[i].to_owned();
            assert(wanted[i as int] == name@);
            let at = match position(&self.names, &name) {
                Some(at) => at,
                None => {
                    return Err(FrameError::UnknownColumn);
                },
            };
            let ghost listed = labels.deep_view();
            let ghost named = names.deep_view();
            let seen = position(&names, &name);
            let fresh = seen.is_none();
            proof {
                if seen is Some {
                    assert(named[seen.unwrap() as int] == name@);
                }
            }
            if fresh {
                names.push(name.clone());
                columns.push(copy_column(&self.columns[at]));
            }
            labels.push(name);
            i += 1;
            proof {
                assert(labels.deep_view() =~= wanted.take(i as int));
                if fresh {
                    assert(names.deep_view() =~= named.push(name@));
                }
                assert forall|l: Seq<char>|
                    names.deep_view().contains(l) <==> labels.deep_view().contains(l) by {
                    if names.deep_view().contains(l) {
                        let m = names.deep_view().index_of(l);
                        if m < named.len() {
                            assert(named.contains(l));
                            let n = listed.index_of(l);
                        } else {
                            assert(labels.deep_view()[labels.len() - 1] == l);
                        }
                    }
                    if labels.deep_view().contains(l) {
                        let n = labels.deep_view().index_of(l);
                        if n < listed.len() {
                            assert(listed.contains(l));
                            let m = named.index_of(l);
                            assert(names.deep_view()[m] == l);
                        } else if fresh {
                            assert(names.deep_view()[names.len() - 1] == l);
                        } else {
                            let m = named.index_of(l);
                        }
                    }
                }
            }
        }
        proof {
            assert(wanted.take(cols.len() as int) =~= wanted);
        }
        let frame = DataFrame { labels, names, columns };
        proof {
            let expected = Table { labels: wanted, data: self@.data.restrict(wanted.to_set()) };
            assert forall|n: int| 0 <= n < wanted.len() implies self@.has(#[trigger] wanted[n]) by {
                assert(frame.labels.deep_view().contains(wanted[n]));
                let m = frame.names.deep_view().index_of(wanted[n]);
            }
            assert(frame@.data =~= expected.data);
        }
        Ok(frame)
    }

    /// The table with one more column: the cells that the texts of
    /// `new_data` denote under the type tag `col_val_number`, as `label`.
    /// `read_double` reads them where the tag is 3. The label joins the end
    /// of the display order; a column that it named before is replaced.
    ///
    /// A column that is not as long as the table's columns gives
    /// `RowCountMismatch`, before anything is read; failing that, an
    /// unrecognised tag gives `UnknownType`; failing that, a text that does
    /// not read under the tag gives `ParseFailure`.
    pub fn add_column<F: Fn(&str) -> Option<u64>>(
        &self,
        new_data: Vec<&str>,
        label: &str,
        col_val_number: u32,
        read_double: F,
    ) -> (result: Result<DataFrame, FrameError>)
        requires
            self@.labels.len() > 0,
            forall|text: &str| call_requires(read_double, (text,)),
        ensures
            forall|double: spec_fn(Seq<char>) -> Option<u64>| #[trigger]
                reads(read_double, double) ==> outcome(result) == self@.with_column(
                    new_data.deep_view(),
                    label@,
                    col_val_number,
                    double,
                ),
            new_data.len() != self@.rows() ==> result == Err::<DataFrame, FrameError>(
                FrameError::RowCountMismatch,
            ),
            match result {
                Ok(frame) => {
                    &&& new_data.len() == self@.rows()
                    &&& recognized(col_val_number)
                    &&& frame@.well_formed()
                    &&& frame@.labels == self@.labels.push(label@)
                    &&& frame@.rows() == self@.rows()
                    &&& frame@.has(label@)
                    &&& frame@.data == self@.data.insert(label@, frame@.data[label@])
                    &&& forall|i: int|
                        0 <= i < new_data.len() ==> is_reading(
                            read_double,
                            #[trigger] new_data.deep_view()[i],
                            col_val_number,
                            frame@.data[label@][i],
                        )
                },
                Err(e) => if new_data.len() != self@.rows() {
                    e == FrameError::RowCountMismatch
                } else if !recognized(col_val_number) {
                    e == FrameError::UnknownType
                } else {
                    e == FrameError::ParseFailure && exists|i: int|
                        0 <= i < new_data.len() && fails_reading(
                            read_double,
                            #[trigger] new_data.deep_view()[i],
                            col_val_number,
                        )
                },
            },
    {
        proof {
            use_type_invariant(self);
            self.lemma_view();
            assert(self.labels.deep_view().contains(self.labels.deep_view()[0]));
        }
        let rows = self.columns[0].len();
        if new_data.len() != rows {
            return Err(FrameError::RowCountMismatch);
        }
        if col_val_number < 1 || col_val_number > 4 {
            return Err(FrameError::UnknownType);
        }
        let column = match read_column(&new_data, col_val_number, &read_double) {
            Some(column) => column,
            None => {
                proof {
                    let m = choose|m: int|
                        0 <= m < new_data.len() && fails_reading(
                            *&read_double,
                            #[trigger] new_data.deep_view()[m],
                            col_val_number,
                        );
                }
                return Err(FrameError::ParseFailure);
            },
        };
        let ghost cells = column.deep_view();
        let name = label.to_owned();
        let mut labels = copy_labels(&self.labels);
        labels.push(name.clone());
        let mut names = copy_labels(&self.names);
        let mut columns = copy_columns(&self.columns);
        let found = position(&self.names, &name);
        match found {
            Some(at) => {
                columns.set(at, column);
            },
            None => {
                names.push(name);
                columns.push(column);
            },
        }
        proof {
            assert(labels.deep_view() =~= self.labels.deep_view().push(label@));
            if found is Some {
            } else {
                assert(names.deep_view() =~= self.names.deep_view().push(label@));
            }
            assert forall|l: Seq<char>|
                labels.deep_view().contains(l) <==> names.deep_view().contains(l) by {
                if labels.deep_view().contains(l) {
                    let i = labels.deep_view().index_of(l);
                    if i < self.labels.len() {
                        assert(self.labels.deep_view().contains(l));
                        let j = self.names.deep_view().index_of(l);
                        assert(names.deep_view()[j] == l);
                    } else {
                        if found is Some {
                        } else {
                            assert(names.deep_view()[names.len() - 1] == l);
                        }
                    }
                }
                if names.deep_view().contains(l) {
                    let j = names.deep_view().index_of(l);
                    if j < self.names.len() {
                        let i = self.labels.deep_view().index_of(l);
                        assert(labels.deep_view()[i] == l);
                    } else {
                        assert(labels.deep_view()[labels.len() - 1] == l);
                    }
                }
            }
            assert forall|i: int| 0 <= i < columns.len() implies (#[trigger] columns[i]).len()
                == rows && uniform(columns[i].deep_view()) by {
                if found == Some(i as usize) || i == self.columns.len() {
                } else {
                    assert(columns[i].deep_view() == self.columns[i].deep_view());
                }
            }
        }
        let frame = DataFrame { labels, names, columns };
        proof {
            frame.lemma_view();
            let expected = Table {
                labels: self@.labels.push(label@),
                data: self@.data.insert(label@, cells),
            };
            assert forall|l: Seq<char>|
                frame@.data.dom().contains(l) <==> expected.data.dom().contains(l) by {
                if frame@.has(l) {
                    let j = frame.names.deep_view().index_of(l);
                }
                if self@.has(l) {
                    let j = self.names.deep_view().index_of(l);
                    assert(frame.names.deep_view()[j] == l);
                }
                if l == label@ {
                    if found is Some {
                    } else {
                        assert(frame.names.deep_view()[frame.names.len() - 1] == l);
                    }
                }
            }
            assert(frame@ =~= expected);
        }
        Ok(frame)
    }

    /// The rows of `self` followed by the rows of `other_frame`, column by
    /// column, in the display order of `self`.
    ///
    /// The two tables must have the same labels, and under each label
    /// columns whose first cells, where both have one, are of one variant:
    /// anything else gives `SchemaMismatch`.
    #[verifier::loop_isolation(false)]
    pub fn merge_frame(&self, other_frame: &DataFrame) -> (result: Result<DataFrame, FrameError>)
        ensures
            outcome(result) == self@.merged(other_frame@),
            (exists|l: Seq<char>| self@.has(l) != other_frame@.has(l)) ==> result == Err::<
                DataFrame,
                FrameError,
            >(FrameError::SchemaMismatch),
            result matches Ok(frame) ==> {
                &&& frame@.well_formed()
                &&& frame@.labels == self@.labels
                &&& frame@.rows() == self@.rows() + other_frame@.rows()
            },
    {
        proof {
            use_type_invariant(self);
            use_type_invariant(other_frame);
            self.lemma_view();
            other_frame.lemma_view();
        }
        let ghost mine = self.names.deep_view();
        let ghost theirs = other_frame.names.deep_view();
        proof {
            mine.unique_seq_to_set();
            theirs.unique_seq_to_set();
        }
        if self.names.len() != other_frame.names.len() {
            proof {
                if self@.fits(other_frame@) {
                    assert(mine.to_set() =~= theirs.to_set());
                }
            }
            return Err(FrameError::SchemaMismatch);
        }
        let mut columns: Vec<Vec<ColumnVal>> = Vec::new();
        let mut k: usize = 0;
        while k < self.names.len()
            invariant
                k <= self.names.len(),
                columns.len() == k,
                forall|m: int| 0 <= m < k ==> theirs.contains(#[trigger] mine[m]),
                forall|m: int|
                    0 <= m < k ==> compatible(
                        #[trigger] self@.data[mine[m]],
                        other_frame@.data[mine[m]],
                    ),
                forall|m: int|
                    0 <= m < k ==> (#[trigger] columns[m]).deep_view() == self@.data[mine[m]]
                        + other_frame@.data[mine[m]],
            decreases self.names.len() - k,
        {
            let at = match position(&other_frame.names, &self.names[k]) {
                Some(at) => at,
                None => {
                    return Err(FrameError::SchemaMismatch);
                },
            };
            let left = &self.columns[k];
            let right = &other_frame.columns[at];
            if left.len() > 0 && right.len() > 0 && left[0].tag() != right[0].tag() {
                return Err(FrameError::SchemaMismatch);
            }
            columns.push(join_columns(left, right));
            k += 1;
        }
        let labels = copy_labels(&self.labels);
        let names = copy_labels(&self.names);
        proof {
            lemma_subset_equality(mine.to_set(), theirs.to_set());
        }
        let frame = DataFrame { labels, names, columns };
        proof {
            assert(frame@ =~= self@.joined(other_frame@));
            if self@.labels.len() > 0 {
            } else if other_frame@.labels.len() > 0 {
                assert(other_frame.labels.deep_view().contains(other_frame@.labels[0]));
            }
        }
        Ok(frame)
    }

    /// The rows whose cell under `label` passes `operation`, in their
    /// order: every column keeps its cells of those rows and loses the
    /// others. A label that names no column gives `UnknownColumn`.
    #[verifier::loop_isolation(false)]
    pub fn filter<P: Fn(&ColumnVal) -> bool>(&self, label: &str, operation: P) -> (result: Result<
        DataFrame,
        FrameError,
    >)
        requires
            forall|cell: &ColumnVal|
                self@.has(label@) && self@.data[label@].contains(cell@) ==> call_requires(
                    operation,
                    (cell,),
                ),
        ensures
            match result {
                Ok(frame) => {
                    &&& self@.has(label@)
                    &&& frame@.well_formed()
                    &&& frame@.labels == self@.labels
                    &&& frame@.rows() <= self@.rows()
                    &&& exists|keep: Seq<bool>|
                        {
                            &&& keep.len() == self@.data[label@].len()
                            &&& frame@ == self@.selected(keep)
                            &&& forall|i: int|
                                0 <= i < keep.len() ==> exists|cell: &ColumnVal|
                                    cell@ == self@.data[label@][i] && call_ensures(
                                        operation,
                                        (cell,),
                                        #[trigger] keep[i],
                                    )
                        }
                },
                Err(e) => e == FrameError::UnknownColumn && !self@.has(label@),
            },
            forall|p: spec_fn(Cell) -> bool| #[trigger]
                decides(operation, p) ==> outcome(result) == self@.filtered(label@, p),
    {
        proof {
            use_type_invariant(self);
            self.lemma_view();
        }
        let name = label.to_owned();
        let at = match position(&self.names, &name) {
            Some(at) => at,
            None => {
                return Err(FrameError::UnknownColumn);
            },
        };
        let tested = &self.columns[at];
        let mut keep: Vec<bool> = Vec::new();
        let mut i: usize = 0;
        while i < tested.len()
            invariant
                i <= tested.len(),
                keep.len() == i,
                forall|k: int| 0 <= k < i ==> call_ensures(operation, (&tested[k],), #[trigger] keep[k]),
            decreases tested.len() - i,
        {
            assert(tested.deep_view()[i as int] == tested[i as int]@);
            let kept = operation(&tested[i]);
            keep.push(kept);
            i += 1;
        }
        let mut columns: Vec<Vec<ColumnVal>> = Vec::new();
        let mut k: usize = 0;
        while k < self.columns.len()
            invariant
                k <= self.columns.len(),
                columns.len() == k,
                forall|m: int|
                    0 <= m < k ==> (#[trigger] columns[m]).deep_view() == pick(
                        self.columns[m].deep_view(),
                        keep@,
                    ),
            decreases self.columns.len() - k,
        {
            columns.push(pick_column(&self.columns[k], &keep));
            k += 1;
        }
        let labels = copy_labels(&self.labels);
        let names = copy_labels(&self.names);
        proof {
            assert forall|a: int, b: int|
                0 <= a < columns.len() && 0 <= b < columns.len() implies columns[a].len()
                == columns[b].len() by {
                lemma_pick_len(self.columns[a].deep_view(), self.columns[b].deep_view(), keep@);
            }
            assert forall|a: int| 0 <= a < columns.len() implies uniform(
                #[trigger] columns[a].deep_view(),
            ) by {
                lemma_pick_uniform(self.columns[a].deep_view(), keep@);
            }
        }
        let frame = DataFrame { labels, names, columns };
        proof {
            assert(frame@ =~= self@.selected(keep@));
            assert forall|i: int| 0 <= i < keep@.len() implies exists|cell: &ColumnVal|
                cell@ == self@.data[label@][i] && call_ensures(
                    operation,
                    (cell,),
                    #[trigger] keep@[i],
                ) by {
                let cell = &tested[i];
                assert(tested.deep_view()[i] == tested[i]@);
            }
            assert(frame@.rows() <= self@.rows()) by {
                if self@.labels.len() > 0 {
                    let first = self@.labels[0];
                    lemma_pick_len(self@.data[first], self@.data[first], keep@);
                }
            }
            assert forall|p: spec_fn(Cell) -> bool| #[trigger] decides(operation, p) implies keep@
                == self@.data[label@].map_values(p) by {}
        }
        Ok(frame)
    }

    /// What `op` makes of the columns that `labels` names, in the order of
    /// `labels`. A label that names no column is passed over: `op` is
    /// called once, on the columns that were found.
    #[verifier::loop_isolation(false)]
    pub fn column_op<G: Fn(&[Vec<ColumnVal>]) -> Vec<ColumnVal>>(
        &self,
        labels: &[String],
        op: G,
    ) -> (output: Vec<ColumnVal>)
        requires
            forall|columns: &[Vec<ColumnVal>]|
                columns.deep_view() == self@.gathered(labels.deep_view()) ==> call_requires(
                    op,
                    (columns,),
                ),
        ensures
            exists|columns: &[Vec<ColumnVal>]|
                columns.deep_view() == self@.gathered(labels.deep_view()) && call_ensures(
                    op,
                    (columns,),
                    output,
                ),
    {
        proof {
            use_type_invariant(self);
            self.lemma_view();
        }
        let ghost wanted = labels.deep_view();
        let mut columns: Vec<Vec<ColumnVal>> = Vec::new();
        let mut i: usize = 0;
        while i < labels.len()
            invariant
                i <= labels.len(),
                columns.deep_view() == self@.gathered(wanted.take(i as int)),
            decreases labels.len() - i,
        {
            let found = position(&self.names, &labels[i]);
            match found {
                Some(at) => {
                    columns.push(copy_column(&self.columns[at]));
                },
                None => {},
            }
            i += 1;
            proof {
                assert(wanted.take(i as int).drop_last() =~= wanted.take(i - 1));
            }
        }
        assert(wanted.take(labels.len() as int) =~= wanted);
        let gathered = columns.as_slice();
        assert(gathered.deep_view() =~= columns.deep_view());
        op(gathered)
    }

    /// The columns that `labels` names as a matrix in row-major order: the
    /// cells of the first row in the order of `labels`, then those of the
    /// second row, and so on. The matrix is one of numbers: a label that
    /// names no column gives `UnknownColumn`; failing that, a column that
    /// holds text gives `SchemaMismatch`.
    #[verifier::loop_isolation(false)]
    pub fn numeric_layout(&self, labels: &[String]) -> (layout: Result<Vec<ColumnVal>, FrameError>)
        ensures
            match layout {
                Ok(cells) => self@.numeric_layout(labels.deep_view()) == Ok::<
                    Seq<Cell>,
                    FrameError,
                >(cells.deep_view()),
                Err(e) => self@.numeric_layout(labels.deep_view()) == Err::<Seq<Cell>, FrameError>(e),
            },
    {
        proof {
            use_type_invariant(self);
            self.lemma_view();
        }
        let ghost wanted = labels.deep_view();
        let mut places: Vec<usize> = Vec::new();
        let mut j: usize = 0;
        while j < labels.len()
            invariant
                j <= labels.len(),
                places.len() == j,
                forall|k: int|
                    0 <= k < j ==> (#[trigger] places[k]) < self.names.len()
                        && self.names[places[k] as int]@ == wanted[k],
            decreases labels.len() - j,
        {
            assert(wanted[j as int] == labels[j as int]@);
            match position(&self.names, &labels[j]) {
                Some(at) => {
                    places.push(at);
                },
                None => {
                    assert(!self@.has(wanted[j as int]));
                    return Err(FrameError::UnknownColumn);
                },
            }
            j += 1;
        }
        assert forall|k: int| 0 <= k < wanted.len() implies self@.has(#[trigger] wanted[k])
            && self@.data[wanted[k]] == self.columns[places[k] as int].deep_view() by {
            assert(self.names.deep_view()[places[k] as int] == self.names[places[k] as int]@);
        }
        j = 0;
        while j < places.len()
            invariant
                j <= places.len(),
                forall|k: int, i: int|
                    0 <= k < j && 0 <= i < self@.data[wanted[k]].len()
                        ==> !(#[trigger] self@.data[wanted[k]][i] is Text),
            decreases places.len() - j,
        {
            let column = &self.columns[places[j]];
            proof {
                assert(self@.data[wanted[j as int]] == column.deep_view());
                assert(column.deep_view().len() == column.len());
                if column.len() > 0 {
                    assert(column.deep_view()[0] == column[0]@);
                }
            }
            if column.len() > 0 && column[0].tag() == 1 {
                assert(self@.data[wanted[j as int]][0] is Text);
                return Err(FrameError::SchemaMismatch);
            }
            proof {
                assert forall|i: int| 0 <= i < column.len() implies !(
                #[trigger] self@.data[wanted[j as int]][i] is Text) by {
                    assert(column.deep_view()[i].tag() == column.deep_view()[0].tag());
                }
            }
            j += 1;
        }
        let rows = self.row_count();
        let mut cells: Vec<ColumnVal> = Vec::new();
        let mut i: usize = 0;
        while i < rows
            invariant
                i <= rows,
                cells.deep_view() == self@.rows_under(wanted, i as nat),
            decreases rows - i,
        {
            let ghost above = cells.deep_view();
            j = 0;
            while j < places.len()
                invariant
                    j <= places.len(),
                    i < rows,
                    cells.deep_view() == above + self@.row_under(wanted, i as int).take(j as int),
                decreases places.len() - j,
            {
                let ghost before = cells.deep_view();
                let column = &self.columns[places[j]];
                proof {
                    assert(self@.has(wanted[j as int]));
                    assert(self@.data[wanted[j as int]] == column.deep_view());
                    assert(column.deep_view().len() == column.len());
                    assert(column.deep_view()[i as int] == column[i as int]@);
                }
                cells.push(column[i].clone());
                j += 1;
                proof {
                    assert(cells.deep_view() =~= before.push(self@.data[wanted[j - 1]][i as int]));
                    assert(self@.row_under(wanted, i as int).take(j as int) =~= self@.row_under(
                        wanted,
                        i as int,
                    ).take(j - 1).push(self@.data[wanted[j - 1]][i as int]));
                    assert(cells.deep_view() =~= above + self@.row_under(wanted, i as int).take(
                        j as int,
                    ));
                }
            }
            assert(self@.row_under(wanted, i as int).take(places.len() as int)
                =~= self@.row_under(wanted, i as int));
            i += 1;
        }
        Ok(cells)
    }

    /// The labels in display order.
    pub fn labels(&self) -> (labels: Vec<Label>)
        ensures
            labels.deep_view() == self@.labels,
    {
        proof {
            use_type_invariant(self);
        }
        let labels = copy_labels(&self.labels);
        labels
    }

    /// The number of columns.
    pub fn column_count(&self) -> (count: usize)
        ensures
            count == self@.width(),
    {
        proof {
            use_type_invariant(self);
            self.names.deep_view().unique_seq_to_set();
        }
        self.names.len()
    }

    /// The number of rows: the length of the columns, and 0 without columns.
    pub fn row_count(&self) -> (count: usize)
        ensures
            count == self@.rows(),
    {
        proof {
            use_type_invariant(self);
            self.lemma_view();
        }
        if self.columns.len() == 0 {
            0
        } else {
            proof {
                assert(self.names.deep_view()[0] == self.names[0]@);
            }
            self.columns[0].len()
        }
    }

    /// The cells of row `index`, in display order; `None` where the table
    /// has no such row.
    #[verifier::loop_isolation(false)]
    pub fn row(&self, index: usize) -> (row: Option<Vec<ColumnVal>>)
        ensures
            match row {
                Some(cells) => index < self@.rows() && cells.deep_view() == self@.row(index as int),
                None => index >= self@.rows(),
            },
    {
        if index >= self.row_count() {
            return None;
        }
        proof {
            use_type_invariant(self);
            self.lemma_view();
        }
        let mut cells: Vec<ColumnVal> = Vec::new();
        let mut j: usize = 0;
        while j < self.labels.len()
            invariant
                j <= self.labels.len(),
                cells.len() == j,
                forall|k: int|
                    0 <= k < j ==> (#[trigger] cells[k])@ == self@.data[self@.labels[k]][index as int],
            decreases self.labels.len() - j,
        {
            assert(self@.labels[j as int] == self.labels[j as int]@);
            match position(&self.names, &self.labels[j]) {
                Some(at) => {
                    cells.push(self.columns[at][index].clone());
                },
                None => {
                },
            }
            j += 1;
        }
        Some(cells)
    }
}

} // verus!
