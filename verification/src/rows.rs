//! Reconstructed table rows: a fixed-width record of six optional cell
//! texts, mirroring the item table's semantic columns.  A row is immutable
//! once flushed; cells never explicitly filled are absent.

use vstd::prelude::*;

verus! {

/// The number of cells of every flushed row.
pub open spec fn row_width() -> int {
    6
}

/// One reconstructed table record: six optional cell texts.
#[derive(Debug)]
pub struct Row {
    /// Column 0: the line index.
    pub line: Option<Vec<char>>,
    /// Column 1: the item description.
    pub description: Option<Vec<char>>,
    /// Column 2: the ordered quantity.
    pub ordered: Option<Vec<char>>,
    /// Column 3: the supplied quantity.
    pub supplied: Option<Vec<char>>,
    /// Column 4: the price.
    pub price: Option<Vec<char>>,
    /// Column 5: the amount.
    pub amount: Option<Vec<char>>,
}

/// The model of one optional cell.
pub open spec fn cell_model(c: Option<Vec<char>>) -> Option<Seq<char>> {
    match c {
        Some(v) => Some(v@),
        None => None,
    }
}

/// The model of an in-progress item: its cells in column order.
pub open spec fn item_model(item: Seq<Option<Vec<char>>>) -> Seq<Option<Seq<char>>> {
    item.map_values(|c: Option<Vec<char>>| cell_model(c))
}

/// The cells of a flushed row built from an in-progress item: exactly six,
/// those never filled absent.
pub open spec fn padded_cells(item: Seq<Option<Seq<char>>>) -> Seq<Option<Seq<char>>> {
    Seq::new(row_width() as nat, |j: int| if j < item.len() { item[j] } else { None })
}

impl View for Row {
    type V = Seq<Option<Seq<char>>>;

    open spec fn view(&self) -> Seq<Option<Seq<char>>> {
        seq![
            cell_model(self.line),
            cell_model(self.description),
            cell_model(self.ordered),
            cell_model(self.supplied),
            cell_model(self.price),
            cell_model(self.amount),
        ]
    }
}

/// Every row has exactly six cells.
pub proof fn lemma_row_width(r: &Row)
    ensures
        r@.len() == row_width(),
{
}

/// Flushes an in-progress item into the row list.  An empty item is
/// dropped; otherwise one row is appended whose six cells are the item's
/// cells in order, padded on the right with absent cells.
pub fn add_item(item: Vec<Option<Vec<char>>>, items: &mut Vec<Row>)
    ensures
        item@.len() == 0 ==> final(items)@ == old(items)@,
        item@.len() > 0 ==> {
            &&& final(items)@.len() == old(items)@.len() + 1
            &&& final(items)@.subrange(0, old(items)@.len() as int) == old(items)@
            &&& final(items)@.last()@ == padded_cells(item_model(item@))
        },
{
    if item.len() == 0 {
        return;
    }
    let ghost orig = item@;
    let mut it = item;
    while it.len() < 6
        invariant
            it@.len() >= orig.len(),
            forall|j: int|
                0 <= j < it@.len() ==> cell_model(it@[j]) == (if j < orig.len() {
                    cell_model(orig[j])
                } else {
                    None::<Seq<char>>
                }),
        decreases 6 - it.len(),
    {
        it.push(None);
    }
    while it.len() > 6
        invariant
            it@.len() >= 6,
            forall|j: int|
                0 <= j < it@.len() && j < 6 ==> cell_model(it@[j]) == (if j < orig.len() {
                    cell_model(orig[j])
                } else {
                    None::<Seq<char>>
                }),
        decreases it.len(),
    {
        it.pop();
    }
    let ghost full = it@;
    let amount = it.pop().unwrap();
    let price = it.pop().unwrap();
    let supplied = it.pop().unwrap();
    let ordered = it.pop().unwrap();
    let description = it.pop().unwrap();
    let line = it.pop().unwrap();
    let row = Row { line, description, ordered, supplied, price, amount };
    proof {
        assert(line == full[0] && description == full[1] && ordered == full[2] && supplied
            == full[3] && price == full[4] && amount == full[5]);
        assert(row@ =~= padded_cells(item_model(orig)));
    }
    let ghost before = items@;
    items.push(row);
    proof {
        assert(items@.subrange(0, before.len() as int) =~= before);
    }
}

} // verus!
