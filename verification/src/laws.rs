//! Laws of the store, stated over the models its contracts use.

use vstd::prelude::*;
use crate::filter::FilterModel;
use crate::store::{
    entry_live, entry_selected, has_row, paged, profile_wf, row_index, row_match, select, unselect,
    RowModel,
};

verus! {

/// An entry just inserted is found again: pushing a fresh live row
/// onto a profile makes it the row that a fetch of its category and
/// name resolves, byte-identical value and tags included.
pub proof fn lemma_insert_then_fetch(entries: Seq<RowModel>, row: RowModel, now_ms: i64)
    requires
        profile_wf(entries),
        !has_row(entries, row.category, row.name),
        entry_live(row, now_ms),
    ensures
        has_row(entries.push(row), row.category, row.name),
        entries.push(row)[row_index(entries.push(row), row.category, row.name)] == row,
        entry_live(
            entries.push(row)[row_index(entries.push(row), row.category, row.name)],
            now_ms,
        ),
{
    let e2 = entries.push(row);
    assert(row_match(e2[e2.len() - 1], row.category, row.name));
    let i = row_index(e2, row.category, row.name);
    assert(row_match(e2[i], row.category, row.name));
    if i != e2.len() - 1 {
        assert(row_match(entries[i], row.category, row.name));
    }
}

/// Every row a scan selects is live: expired rows are invisible to
/// `fetch_all`, `count` and `scan`, which all report `select`.
pub proof fn lemma_select_live(
    entries: Seq<RowModel>,
    category: Seq<char>,
    filt: Option<FilterModel>,
    now_ms: i64,
)
    ensures
        forall|k: int|
            0 <= k < select(entries, category, filt, now_ms).len() ==> entry_live(
                #[trigger] select(entries, category, filt, now_ms)[k],
                now_ms,
            ) && entry_selected(select(entries, category, filt, now_ms)[k], category, filt, now_ms),
    decreases entries.len(),
{
    if entries.len() > 0 {
        lemma_select_live(entries.drop_last(), category, filt, now_ms);
        let s = select(entries, category, filt, now_ms);
        let sh = select(entries.drop_last(), category, filt, now_ms);
        assert forall|k: int| 0 <= k < s.len() implies entry_live(#[trigger] s[k], now_ms)
            && entry_selected(s[k], category, filt, now_ms) by {
            if !(entry_selected(entries.last(), category, filt, now_ms) && k == s.len() - 1) {
                assert(s[k] == sh[k]);
            }
        }
    }
}

/// A zero limit yields nothing; a negative limit yields everything
/// past the offset.
pub proof fn lemma_limit_semantics(rows: Seq<RowModel>, offset: i64)
    ensures
        paged(rows, offset, 0).len() == 0,
        offset <= 0 ==> paged(rows, offset, -1 as i64) == rows,
{
    assert(rows.skip(0) =~= rows);
    let off = if offset < 0 {
        0
    } else if offset > rows.len() {
        rows.len() as int
    } else {
        offset as int
    };
    assert(rows.skip(off).take(0) =~= Seq::<RowModel>::empty());
}

/// What a filtered removal removes and what it keeps partition the
/// profile: every kept row was stored and did not satisfy the filter,
/// and the counts add up.
pub proof fn lemma_remove_all_partition(
    entries: Seq<RowModel>,
    category: Seq<char>,
    filt: Option<FilterModel>,
    now_ms: i64,
)
    ensures
        select(entries, category, filt, now_ms).len() + unselect(
            entries,
            category,
            filt,
            now_ms,
        ).len() == entries.len(),
        forall|k: int|
            0 <= k < unselect(entries, category, filt, now_ms).len() ==> !entry_selected(
                #[trigger] unselect(entries, category, filt, now_ms)[k],
                category,
                filt,
                now_ms,
            ) && entries.contains(unselect(entries, category, filt, now_ms)[k]),
    decreases entries.len(),
{
    if entries.len() > 0 {
        lemma_remove_all_partition(entries.drop_last(), category, filt, now_ms);
        let u = unselect(entries, category, filt, now_ms);
        let uh = unselect(entries.drop_last(), category, filt, now_ms);
        assert forall|k: int| 0 <= k < u.len() implies !entry_selected(
            #[trigger] u[k],
            category,
            filt,
            now_ms,
        ) && entries.contains(u[k]) by {
            if entry_selected(entries.last(), category, filt, now_ms) || k < u.len() - 1 {
                assert(u[k] == uh[k]);
                assert(entries.drop_last().contains(uh[k]));
                let q = choose|q: int|
                    0 <= q < entries.drop_last().len() && entries.drop_last()[q] == uh[k];
                assert(entries[q] == u[k]);
            } else {
                assert(u[k] == entries.last());
                assert(entries[entries.len() - 1] == u[k]);
            }
        }
    }
}

} // verus!
