//! The extraction core: the section scanner, column assigner and row
//! builder run as one fold over the linear fragment sequence, followed by
//! record extraction and price normalization.
//!
//! Column anchors and the first-row y-marker are scoped to one table
//! section: they are discarded whenever the scanner resets and rebuilt the
//! next time a table section is entered.  The in-progress row and the
//! previous column index persist across sections, and any non-empty
//! in-progress row is flushed at end of document.

use vstd::prelude::*;

use crate::columns::{
    lemma_nearest_idx_ok, lemma_nearest_unique, nearest_anchor, nearest_idx,
};
use crate::errors::{ErrorModel, ExtractError};
use crate::fragments::{
    frag_seq_model, lin_of, linearize_pages, raw_pages_model, spec_place_pages, FragModel,
    Fragment, RawFragment,
};
use crate::names::{normalize_name, spec_normalize_name};
use crate::price::{spec_normalised, Price};
use crate::rows::{add_item, cell_model, item_model, padded_cells, Row};
use crate::scanner::{spec_step, step, ScanState};
use crate::text::{copy_range, replace_nbsp, spec_replace_nbsp};

verus! {

/// One extracted line item: the document's date, the normalized item name,
/// and the normalized price.
#[derive(Debug)]
pub struct Record {
    /// The invoice date, as the document's metadata states it.
    pub date: Vec<char>,
    /// The normalized item name.
    pub name: Vec<char>,
    /// The normalized price.
    pub price: Price,
}

/// The model of an extracted record.
pub struct RecordModel {
    /// The invoice date.
    pub date: Seq<char>,
    /// The normalized item name.
    pub name: Seq<char>,
    /// The normalized price, as (whole units, sub-units).
    pub price: (int, int),
}

impl View for Record {
    type V = RecordModel;

    open spec fn view(&self) -> RecordModel {
        RecordModel { date: self.date@, name: self.name@, price: self.price.model() }
    }
}

/// The models of a sequence of records.
pub open spec fn records_model(s: Seq<Record>) -> Seq<RecordModel> {
    s.map_values(|r: Record| r@)
}

/// The models of a sequence of rows.
pub open spec fn rows_model(s: Seq<Row>) -> Seq<Seq<Option<Seq<char>>>> {
    s.map_values(|r: Row| r@)
}

/// The combined state of the scanner, column assigner and row builder.
pub struct TableState {
    /// The scanner state.
    pub scan: ScanState,
    /// The y-coordinate of the current table's first row, absent until a
    /// text-leading fragment is seen inside the table.
    pub first_y: Option<i64>,
    /// The column x-anchors of the current table, in order of encounter.
    pub anchors: Seq<i64>,
    /// The in-progress row's cells.
    pub item: Seq<Option<Seq<char>>>,
    /// The previous assigned column index.
    pub prev: int,
    /// The flushed rows, each of exactly six cells.
    pub rows: Seq<Seq<Option<Seq<char>>>>,
}

/// The state before any fragment is seen.
pub open spec fn init_state() -> TableState {
    TableState {
        scan: ScanState::Start,
        first_y: None,
        anchors: Seq::empty(),
        item: Seq::empty(),
        prev: 0,
        rows: Seq::empty(),
    }
}

/// The structural invariant of the fold state: anchors exist exactly when
/// the first-row marker does, and a non-empty in-progress row extends to
/// the previous column index.
pub open spec fn state_wf(st: TableState) -> bool {
    &&& 0 <= st.prev
    &&& (st.first_y is None ==> st.anchors.len() == 0)
    &&& (st.first_y is Some ==> st.anchors.len() >= 1)
    &&& (st.item.len() > 0 ==> st.item.len() == st.prev + 1)
}

/// An item padded on the right with absent cells up to length `i`.
pub open spec fn pad_to(item: Seq<Option<Seq<char>>>, i: int) -> Seq<Option<Seq<char>>> {
    if item.len() >= i {
        item
    } else {
        item + Seq::new((i - item.len()) as nat, |j: int| None::<Seq<char>>)
    }
}

/// Flushes the in-progress item: a non-empty item becomes one padded row.
pub open spec fn spec_flush(
    rows: Seq<Seq<Option<Seq<char>>>>,
    item: Seq<Option<Seq<char>>>,
) -> Seq<Seq<Option<Seq<char>>>> {
    if item.len() == 0 {
        rows
    } else {
        rows.push(padded_cells(item))
    }
}

/// One step of the fold: advance the scanner on the fragment's token; on a
/// reset discard the table's anchors and first-row marker; inside the table
/// fix the first-row marker at the first text-leading fragment, collect an
/// anchor from every fragment level with the first row, and assign each
/// text-leading fragment's cell to its nearest anchor, flushing the row
/// when the column index stops increasing.
pub open spec fn step_state(st: TableState, f: FragModel) -> TableState {
    let s2 = spec_step(st.scan, f.token);
    let fy0 = if s2 == ScanState::Start {
        None
    } else {
        st.first_y
    };
    let anc0 = if s2 == ScanState::Start {
        Seq::<i64>::empty()
    } else {
        st.anchors
    };
    if s2 != ScanState::InTable {
        TableState {
            scan: s2,
            first_y: fy0,
            anchors: anc0,
            item: st.item,
            prev: st.prev,
            rows: st.rows,
        }
    } else {
        let fy1 = if fy0 is None && f.leading is Some {
            Some(f.y)
        } else {
            fy0
        };
        let anc1 = if fy1 == Some(f.y) {
            anc0.push(f.x)
        } else {
            anc0
        };
        match f.leading {
            None => TableState {
                scan: s2,
                first_y: fy1,
                anchors: anc1,
                item: st.item,
                prev: st.prev,
                rows: st.rows,
            },
            Some(text) => {
                let i = nearest_idx(anc1, f.x as int);
                let flushing = i <= st.prev && st.item.len() > 0;
                let rows1 = if flushing {
                    st.rows.push(padded_cells(st.item))
                } else {
                    st.rows
                };
                let item1 = if flushing {
                    Seq::<Option<Seq<char>>>::empty()
                } else {
                    st.item
                };
                let t1 = spec_replace_nbsp(text);
                let t2 = if i == 1 {
                    spec_normalize_name(t1)
                } else {
                    t1
                };
                TableState {
                    scan: s2,
                    first_y: fy1,
                    anchors: anc1,
                    item: pad_to(item1, i).push(Some(t2)),
                    prev: i,
                    rows: rows1,
                }
            },
        }
    }
}

/// The fold of the extraction state over a fragment sequence.
pub open spec fn fold_table(st: TableState, frags: Seq<FragModel>) -> TableState
    decreases frags.len(),
{
    if frags.len() == 0 {
        st
    } else {
        fold_table(step_state(st, frags[0]), frags.drop_first())
    }
}

/// One step preserves the structural invariant; inside the table a
/// text-leading fragment always has an anchor to be assigned to.
pub proof fn lemma_step_wf(st: TableState, f: FragModel)
    requires
        state_wf(st),
    ensures
        state_wf(step_state(st, f)),
{
    let s2 = spec_step(st.scan, f.token);
    if s2 == ScanState::InTable {
        let fy0 = st.first_y;
        let anc0 = st.anchors;
        let fy1 = if fy0 is None && f.leading is Some {
            Some(f.y)
        } else {
            fy0
        };
        let anc1 = if fy1 == Some(f.y) {
            anc0.push(f.x)
        } else {
            anc0
        };
        if f.leading is Some {
            assert(anc1.len() >= 1);
            lemma_nearest_idx_ok(anc1, f.x as int);
        }
    }
}

/// Row-flush law: inside a table section, when an accepted fragment with
/// column index `j` follows an accepted fragment (so a row is in progress),
/// a new row is flushed exactly when `j` does not exceed the previous
/// column index.
pub proof fn lemma_row_flush(st: TableState, f: FragModel)
    requires
        state_wf(st),
        spec_step(st.scan, f.token) == ScanState::InTable,
        f.leading is Some,
        st.item.len() > 0,
    ensures
        ({
            let st2 = step_state(st, f);
            let anc1 = if (if st.first_y is None {
                Some(f.y)
            } else {
                st.first_y
            }) == Some(f.y) {
                st.anchors.push(f.x)
            } else {
                st.anchors
            };
            let j = nearest_idx(anc1, f.x as int);
            st2.rows.len() == st.rows.len() + 1 <==> j <= st.prev
        }),
{
}

/// Fixed-width law: every row flushed by the fold, the trailing in-progress
/// row included, has exactly six cells.
pub proof fn lemma_flushed_rows_width(st: TableState, frags: Seq<FragModel>)
    requires
        forall|k: int|
            0 <= k < st.rows.len() ==> (#[trigger] st.rows[k]).len() == crate::rows::row_width(),
    ensures
        ({
            let rows = spec_flush(fold_table(st, frags).rows, fold_table(st, frags).item);
            forall|k: int| 0 <= k < rows.len() ==> (#[trigger] rows[k]).len() == crate::rows::row_width()
        }),
    decreases frags.len(),
{
    if frags.len() == 0 {
        let rows = spec_flush(st.rows, st.item);
        assert forall|k: int|
            0 <= k < rows.len() implies (#[trigger] rows[k]).len() == crate::rows::row_width() by {
            if k < st.rows.len() {
            } else {
                assert(rows[k] == padded_cells(st.item));
            }
        }
    } else {
        let st2 = step_state(st, frags[0]);
        assert forall|k: int|
            0 <= k < st2.rows.len() implies (#[trigger] st2.rows[k]).len()
            == crate::rows::row_width() by {
            if k < st.rows.len() {
            } else {
                assert(st2.rows[k] == padded_cells(st.item));
            }
        }
        lemma_flushed_rows_width(st2, frags.drop_first());
    }
}

/// Runs the scanner, column assigner and row builder over the linear
/// fragment sequence and returns the flushed rows, the trailing in-progress
/// row included.
pub fn scan_rows(lin: &Vec<Fragment>) -> (rows: Vec<Row>)
    ensures
        ({
            let fin = fold_table(init_state(), frag_seq_model(lin@));
            rows_model(rows@) == spec_flush(fin.rows, fin.item)
        }),
{
    let ghost lm = frag_seq_model(lin@);
    let mut scan = ScanState::Start;
    let mut first_y: Option<i64> = None;
    let mut anchors: Vec<i64> = Vec::new();
    let mut item: Vec<Option<Vec<char>>> = Vec::new();
    let mut prev: usize = 0;
    let mut rows: Vec<Row> = Vec::new();
    proof {
        assert(lm.skip(0) =~= lm);
        assert(item_model(item@) =~= Seq::<Option<Seq<char>>>::empty());
        assert(rows_model(rows@) =~= Seq::<Seq<Option<Seq<char>>>>::empty());
        assert(anchors@ =~= Seq::<i64>::empty());
    }
    let mut idx: usize = 0;
    while idx < lin.len()
        invariant
            lm == frag_seq_model(lin@),
            lm.len() == lin@.len(),
            0 <= idx <= lin@.len(),
            state_wf(
                (TableState {
                    scan,
                    first_y,
                    anchors: anchors@,
                    item: item_model(item@),
                    prev: prev as int,
                    rows: rows_model(rows@),
                }),
            ),
            fold_table(init_state(), lm) == fold_table(
                (TableState {
                    scan,
                    first_y,
                    anchors: anchors@,
                    item: item_model(item@),
                    prev: prev as int,
                    rows: rows_model(rows@),
                }),
                lm.skip(idx as int),
            ),
        decreases lin@.len() - idx,
    {
        let ghost pre = TableState {
            scan,
            first_y,
            anchors: anchors@,
            item: item_model(item@),
            prev: prev as int,
            rows: rows_model(rows@),
        };
        let f = &lin[idx];
        proof {
            assert(lm[idx as int] == f@);
        }
        let s2 = step(scan, &f.token);
        scan = s2;
        if s2 == ScanState::Start {
            first_y = None;
            anchors = Vec::new();
        }
        if s2 == ScanState::InTable {
            if first_y.is_none() && f.leading.is_some() {
                first_y = Some(f.y);
            }
            match first_y {
                Some(y) => if f.y == y {
                    anchors.push(f.x);
                },
                None => {},
            }
            match &f.leading {
                None => {},
                Some(text) => {
                    proof {
                        lemma_step_wf(pre, f@);
                        assert(anchors@.len() >= 1);
                    }
                    let i = nearest_anchor(&anchors, f.x);
                    proof {
                        lemma_nearest_idx_ok(anchors@, f.x as int);
                        lemma_nearest_unique(
                            anchors@,
                            f.x as int,
                            i as int,
                            nearest_idx(anchors@, f.x as int),
                        );
                    }
                    if i <= prev && item.len() > 0 {
                        let it = item;
                        item = Vec::new();
                        add_item(it, &mut rows);
                    }
                    let ghost item1 = item_model(item@);
                    while item.len() < i
                        invariant
                            item1.len() <= item_model(item@).len() <= if item1.len() >= i as int {
                                item1.len() as int
                            } else {
                                i as int
                            },
                            forall|j: int|
                                0 <= j < item_model(item@).len() ==> item_model(item@)[j] == (
                                if j < item1.len() {
                                    item1[j]
                                } else {
                                    None::<Seq<char>>
                                }),
                        decreases i - item.len(),
                    {
                        let ghost before = item@;
                        item.push(None);
                        proof {
                            assert(item_model(item@) =~= item_model(before).push(
                                cell_model(None),
                            ));
                        }
                    }
                    proof {
                        assert(item_model(item@) =~= pad_to(item1, i as int));
                    }
                    let t1 = replace_nbsp(text);
                    let t2 = if i == 1 {
                        normalize_name(&t1)
                    } else {
                        t1
                    };
                    item.push(Some(t2));
                    prev = i;
                },
            }
        }
        proof {
            let post = TableState {
                scan,
                first_y,
                anchors: anchors@,
                item: item_model(item@),
                prev: prev as int,
                rows: rows_model(rows@),
            };
            assert(item_model(item@) =~= step_state(pre, lm[idx as int]).item);
            assert(rows_model(rows@) =~= step_state(pre, lm[idx as int]).rows);
            assert(post == step_state(pre, lm[idx as int]));
            lemma_step_wf(pre, lm[idx as int]);
            assert(lm.skip(idx as int)[0] == lm[idx as int]);
            assert(lm.skip(idx as int).drop_first() =~= lm.skip(idx + 1));
        }
        idx += 1;
    }
    let ghost fin = TableState {
        scan,
        first_y,
        anchors: anchors@,
        item: item_model(item@),
        prev: prev as int,
        rows: rows_model(rows@),
    };
    proof {
        assert(lm.skip(idx as int) =~= Seq::<FragModel>::empty());
        assert(fold_table(init_state(), lm) == fin);
    }
    add_item(item, &mut rows);
    proof {
        assert(rows_model(rows@) =~= spec_flush(fin.rows, fin.item));
    }
    rows
}

/// The records of the flushed rows from index `k` on: each row with a
/// present description and price cell yields one record with the row's
/// normalized price; rows lacking either cell are dropped; the first price
/// that fails normalization aborts extraction.
pub open spec fn spec_records_from(
    date: Seq<char>,
    rows: Seq<Seq<Option<Seq<char>>>>,
    k: int,
) -> Result<Seq<RecordModel>, ErrorModel>
    decreases rows.len() - k when 0 <= k <= rows.len()
{
    if k >= rows.len() {
        Ok(Seq::empty())
    } else {
        match (rows[k][1], rows[k][4]) {
            (Some(n), Some(p)) => match spec_normalised(n, p) {
                Err(e) => Err(e),
                Ok(pr) => match spec_records_from(date, rows, k + 1) {
                    Err(e) => Err(e),
                    Ok(rest) => Ok(seq![RecordModel { date, name: n, price: pr }] + rest),
                },
            },
            _ => spec_records_from(date, rows, k + 1),
        }
    }
}

/// The whole extraction of a linear fragment sequence: fold, final flush,
/// and record extraction.
pub open spec fn spec_process(date: Seq<char>, lin: Seq<FragModel>) -> Result<
    Seq<RecordModel>,
    ErrorModel,
> {
    let fin = fold_table(init_state(), lin);
    spec_records_from(date, spec_flush(fin.rows, fin.item), 0)
}

/// Extracts the records of the flushed rows.
fn records_of_rows(date: &Vec<char>, rows: &Vec<Row>) -> (r: Result<Vec<Record>, ExtractError>)
    ensures
        match r {
            Ok(recs) => spec_records_from(date@, rows_model(rows@), 0) == Ok::<_, ErrorModel>(
                records_model(recs@),
            ),
            Err(e) => spec_records_from(date@, rows_model(rows@), 0) == Err::<Seq<RecordModel>, _>(
                e@,
            ),
        },
{
    let ghost rm = rows_model(rows@);
    let mut recs: Vec<Record> = Vec::new();
    let mut k: usize = 0;
    while k < rows.len()
        invariant
            0 <= k <= rows@.len(),
            rm == rows_model(rows@),
            rm.len() == rows@.len(),
            forall|e: ErrorModel|
                spec_records_from(date@, rm, k as int) == Err::<Seq<RecordModel>, _>(e)
                    ==> spec_records_from(date@, rm, 0) == Err::<Seq<RecordModel>, _>(e),
            forall|rest: Seq<RecordModel>|
                spec_records_from(date@, rm, k as int) == Ok::<_, ErrorModel>(rest)
                    ==> spec_records_from(date@, rm, 0) == Ok::<_, ErrorModel>(
                    records_model(recs@) + rest,
                ),
        decreases rows@.len() - k,
    {
        let row = &rows[k];
        proof {
            assert(rm[k as int] == row@);
            assert(row@[1] == cell_model(row.description));
            assert(row@[4] == cell_model(row.price));
        }
        match (&row.description, &row.price) {
            (Some(n), Some(p)) => {
                match Price::normalised(n, p) {
                    Err(e) => {
                        return Err(e);
                    },
                    Ok(pr) => {
                        let name = copy_range(n, 0, n.len());
                        let d = copy_range(date, 0, date.len());
                        proof {
                            assert(name@ =~= n@);
                            assert(d@ =~= date@);
                        }
                        let ghost prev_recs = records_model(recs@);
                        recs.push(Record { date: d, name, price: pr });
                        proof {
                            assert(records_model(recs@) =~= prev_recs.push(
                                RecordModel { date: date@, name: n@, price: pr.model() },
                            ));
                            assert forall|rest: Seq<RecordModel>|
                                spec_records_from(date@, rm, k + 1) == Ok::<_, ErrorModel>(rest)
                                    implies spec_records_from(date@, rm, 0) == Ok::<_, ErrorModel>(
                                records_model(recs@) + rest,
                            ) by {
                                assert(spec_records_from(date@, rm, k as int) == Ok::<
                                    _,
                                    ErrorModel,
                                >(seq![RecordModel { date: date@, name: n@, price: pr.model() }]
                                    + rest));
                                assert(prev_recs + (seq![
                                    RecordModel { date: date@, name: n@, price: pr.model() },
                                ] + rest) =~= records_model(recs@) + rest);
                            }
                        }
                    },
                }
            },
            _ => {},
        }
        k += 1;
    }
    proof {
        assert(spec_records_from(date@, rm, k as int) == Ok::<_, ErrorModel>(
            Seq::<RecordModel>::empty(),
        ));
        assert(records_model(recs@) + Seq::<RecordModel>::empty() =~= records_model(recs@));
    }
    Ok(recs)
}

/// Extracts a document's line-item records.
///
/// A document lacking the date metadata fails with the structural error
/// before any row is produced.  Otherwise the pages are positioned and
/// linearized, the item table is located and rebuilt into rows, and each
/// row holding a description and a price yields one record.
pub fn extract_document(date: Option<Vec<char>>, pages: Vec<Vec<RawFragment>>) -> (r: Result<
    Vec<Record>,
    ExtractError,
>)
    ensures
        date is None ==> (r matches Err(e) && e@ == ErrorModel::MissingDateMeta),
        date matches Some(d) ==> match spec_place_pages(raw_pages_model(pages@)) {
            Err(e0) => r matches Err(e) && e@ == e0,
            Ok(pp) => exists|lin: Seq<FragModel>|
                lin_of(pp, lin) && (match r {
                    Ok(recs) => spec_process(d@, lin) == Ok::<_, ErrorModel>(
                        records_model(recs@),
                    ),
                    Err(e) => spec_process(d@, lin) == Err::<Seq<RecordModel>, _>(e@),
                }),
        },
{
    let d = match date {
        None => {
            return Err(ExtractError::MissingDateMeta);
        },
        Some(d) => d,
    };
    let lin = match linearize_pages(pages) {
        Err(e) => {
            return Err(e);
        },
        Ok(lin) => lin,
    };
    let rows = scan_rows(&lin);
    let r = records_of_rows(&d, &rows);
    proof {
        let linm = frag_seq_model(lin@);
        assert(match r {
            Ok(recs) => spec_process(d@, linm) == Ok::<_, ErrorModel>(records_model(recs@)),
            Err(e) => spec_process(d@, linm) == Err::<Seq<RecordModel>, _>(e@),
        });
    }
    r
}

} // verus!
