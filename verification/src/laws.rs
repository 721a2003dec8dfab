//! Laws of the table operations, stated over the model.
use crate::cell::Cell;
use crate::error::FrameError;
use crate::table::{compatible, lemma_pick_len, pick, Table};
use vstd::prelude::*;

verus! {

/// Picking by marks that are all set gives the column back.
proof fn lemma_pick_all<A>(column: Seq<A>, keep: Seq<bool>)
    requires
        keep.len() == column.len(),
        forall|i: int| 0 <= i < keep.len() ==> keep[i],
    ensures
        pick(column, keep) == column,
    decreases keep.len(),
{
    if keep.len() > 0 {
        lemma_pick_all(column.drop_last(), keep.drop_last());
    }
}

/// Every cell picked by the marks that `p` gives satisfies `p`.
proof fn lemma_pick_passes(column: Seq<Cell>, p: spec_fn(Cell) -> bool)
    ensures
        forall|i: int|
            0 <= i < pick(column, column.map_values(p)).len() ==> p(
                #[trigger] pick(column, column.map_values(p))[i],
            ),
    decreases column.len(),
{
    let keep = column.map_values(p);
    let picked = pick(column, keep);
    if column.len() > 0 {
        let rest = pick(column.drop_last(), keep.drop_last());
        lemma_pick_passes(column.drop_last(), p);
        assert(keep.drop_last() =~= column.drop_last().map_values(p));
        assert forall|i: int| 0 <= i < picked.len() implies p(#[trigger] picked[i]) by {
            if i < rest.len() {
                assert(picked[i] == rest[i]);
            } else {
                assert(picked[i] == column.last());
                assert(keep.last() == p(column.last()));
            }
        }
    }
}

/// Projecting a table onto its own labels gives the table back.
pub proof fn law_project_onto_own_labels(table: Table)
    requires
        table.well_formed(),
    ensures
        table.projected(table.labels) == Ok::<Table, FrameError>(table),
{
    assert(table.data.restrict(table.labels.to_set()) =~= table.data) by {
        assert forall|l: Seq<char>| table.data.dom().contains(l) implies table.labels.to_set().contains(
            l,
        ) by {
            assert(table.has(l));
        }
    }
}

/// Filtering twice by one predicate gives what filtering once gives.
pub proof fn law_filter_is_idempotent(table: Table, label: Seq<char>, p: spec_fn(Cell) -> bool)
    requires
        table.well_formed(),
    ensures
        table.filtered(label, p) matches Ok(once) ==> once.filtered(label, p) == Ok::<
            Table,
            FrameError,
        >(once),
{
    if table.has(label) {
        let tested = table.data[label];
        let keep = tested.map_values(p);
        let once = table.selected(keep);
        let again = once.data[label].map_values(p);
        lemma_pick_passes(tested, p);
        assert forall|l: Seq<char>| once.has(l) implies pick(#[trigger] once.data[l], again)
            == once.data[l] by {
            lemma_pick_len(table.data[l], tested, keep);
            lemma_pick_all(once.data[l], again);
        }
        assert(once.selected(again).data =~= once.data);
    }
}

/// The place of column `j` of row `i` in a row-major matrix of `width` columns.
pub open spec fn place(i: int, j: int, width: int) -> int {
    i * width + j
}

/// Rows laid out one after another form a row-major matrix: with `width`
/// labels, the first `n` rows take `n * width` places, and the cell of row
/// `i` under the label at position `j` stands at place `i * width + j`.
pub proof fn law_layout_is_row_major(table: Table, labels: Seq<Seq<char>>, n: nat)
    ensures
        table.rows_under(labels, n).len() == n * labels.len(),
        forall|i: int, j: int|
            0 <= i < n && 0 <= j < labels.len() ==> {
                &&& 0 <= #[trigger] place(i, j, labels.len() as int) < n * labels.len()
                &&& table.rows_under(labels, n)[place(i, j, labels.len() as int)]
                    == table.data[labels[j]][i]
            },
    decreases n,
{
    let width = labels.len() as int;
    if n > 0 {
        let m = (n - 1) as nat;
        law_layout_is_row_major(table, labels, m);
        assert(m * width + width == n * width) by (nonlinear_arith)
            requires
                m + 1 == n,
        ;
    } else {
        assert(n * width == 0) by (nonlinear_arith)
            requires
                n == 0,
        ;
    }
}

/// Merging the outcome of a merge with a further table.
pub open spec fn and_then_merged(first: Result<Table, FrameError>, next: Table) -> Result<
    Table,
    FrameError,
> {
    match first {
        Ok(table) => table.merged(next),
        Err(e) => Err(e),
    }
}

/// Merging a table with the outcome of a merge.
pub open spec fn merged_with(first: Table, rest: Result<Table, FrameError>) -> Result<
    Table,
    FrameError,
> {
    match rest {
        Ok(table) => first.merged(table),
        Err(e) => Err(e),
    }
}

/// Merging is associative: merging `a` with `b` and the outcome with `c`
/// gives what merging `a` with the outcome of merging `b` with `c` gives,
/// and where that is a table, each of its columns holds the cells of `a`,
/// then those of `b`, then those of `c`, in the display order of `a`.
pub proof fn law_merge_is_associative(a: Table, b: Table, c: Table)
    ensures
        and_then_merged(a.merged(b), c) == merged_with(a, b.merged(c)),
        and_then_merged(a.merged(b), c) matches Ok(all) ==> {
            &&& all.labels == a.labels
            &&& forall|l: Seq<char>| all.has(l) == a.has(l)
            &&& forall|l: Seq<char>|
                a.has(l) ==> #[trigger] all.data[l] == a.data[l] + b.data[l] + c.data[l]
        },
{
    let left = a.fits(b) && a.joined(b).fits(c);
    let right = b.fits(c) && a.fits(b.joined(c));
    if left {
        assert forall|l: Seq<char>| b.has(l) implies compatible(#[trigger] b.data[l], c.data[l]) by {
            assert(a.has(l) && a.joined(b).has(l));
            assert(compatible(a.data[l], b.data[l]));
            assert(compatible(a.joined(b).data[l], c.data[l]));
            if a.data[l].len() > 0 {
                assert((a.data[l] + b.data[l])[0] == a.data[l][0]);
            } else {
                assert(a.data[l] + b.data[l] =~= b.data[l]);
            }
        }
        assert forall|l: Seq<char>| a.has(l) implies compatible(
            #[trigger] a.data[l],
            b.joined(c).data[l],
        ) by {
            assert(b.has(l) && a.joined(b).has(l));
            assert(compatible(a.data[l], b.data[l]));
            assert(compatible(a.joined(b).data[l], c.data[l]));
            if a.data[l].len() > 0 {
                assert((a.data[l] + b.data[l])[0] == a.data[l][0]);
            }
            if b.data[l].len() > 0 {
                assert((b.data[l] + c.data[l])[0] == b.data[l][0]);
            } else {
                assert(b.data[l] + c.data[l] =~= c.data[l]);
            }
        }
        assert forall|l: Seq<char>| b.has(l) <==> c.has(l) by {
            assert(a.joined(b).has(l) == a.has(l));
        }
        assert forall|l: Seq<char>| a.has(l) <==> b.joined(c).has(l) by {}
        assert(right);
    }
    if right {
        assert forall|l: Seq<char>| a.has(l) implies compatible(#[trigger] a.data[l], b.data[l]) by {
            assert(b.has(l) && b.joined(c).has(l));
            assert(compatible(b.data[l], c.data[l]));
            assert(compatible(a.data[l], b.joined(c).data[l]));
            if b.data[l].len() > 0 {
                assert((b.data[l] + c.data[l])[0] == b.data[l][0]);
            }
        }
        assert forall|l: Seq<char>| a.joined(b).has(l) implies compatible(
            #[trigger] a.joined(b).data[l],
            c.data[l],
        ) by {
            assert(a.has(l) && b.has(l) && b.joined(c).has(l));
            assert(compatible(b.data[l], c.data[l]));
            assert(compatible(a.data[l], b.joined(c).data[l]));
            if a.data[l].len() > 0 {
                assert((a.data[l] + b.data[l])[0] == a.data[l][0]);
            } else {
                assert(a.data[l] + b.data[l] =~= b.data[l]);
            }
            if b.data[l].len() > 0 {
                assert((b.data[l] + c.data[l])[0] == b.data[l][0]);
            } else {
                assert(b.data[l] + c.data[l] =~= c.data[l]);
            }
        }
        assert forall|l: Seq<char>| a.has(l) <==> b.has(l) by {
            assert(b.joined(c).has(l) == b.has(l));
        }
        assert forall|l: Seq<char>| a.joined(b).has(l) <==> c.has(l) by {
            assert(a.joined(b).has(l) == a.has(l));
            assert(b.joined(c).has(l) == b.has(l));
        }
        assert(left);
    }
    if left {
        let one = a.joined(b).joined(c);
        let other = a.joined(b.joined(c));
        assert forall|l: Seq<char>| one.data.dom().contains(l) implies #[trigger] one.data[l]
            == other.data[l] by {
            assert(a.has(l) && b.has(l));
            assert((a.data[l] + b.data[l]) + c.data[l] =~= a.data[l] + (b.data[l] + c.data[l]));
        }
        assert(one.data =~= other.data);
        assert(one =~= other);
    }
}

} // verus!
