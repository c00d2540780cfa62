//! The aggregator: a date-indexed price history per item name.  Inserting a
//! record for a (name, date) pair that is already present overwrites the
//! earlier price; no history of overwritten values is kept.

use vstd::prelude::*;

use crate::extract::Record;
use crate::price::Price;
use crate::text::{chars_eq, copy_range};

verus! {

/// One price entry: an item name, a date, and the price seen for that pair.
pub struct Entry {
    /// The item name.
    pub name: Vec<char>,
    /// The invoice date.
    pub date: Vec<char>,
    /// The recorded price.
    pub price: Price,
}

/// The model of one price entry.
pub struct EntryModel {
    /// The item name.
    pub name: Seq<char>,
    /// The invoice date.
    pub date: Seq<char>,
    /// The recorded price, as (whole units, sub-units).
    pub price: (int, int),
}

impl View for Entry {
    type V = EntryModel;

    open spec fn view(&self) -> EntryModel {
        EntryModel { name: self.name@, date: self.date@, price: self.price.model() }
    }
}

/// The price recorded for a (name, date) pair: the latest matching entry.
pub open spec fn spec_get(s: Seq<EntryModel>, n: Seq<char>, d: Seq<char>) -> Option<(int, int)>
    decreases s.len(),
{
    if s.len() == 0 {
        None
    } else if s.last().name == n && s.last().date == d {
        Some(s.last().price)
    } else {
        spec_get(s.drop_last(), n, d)
    }
}

/// Removing an entry whose (name, date) pair differs from the looked-up
/// pair does not change the lookup.
proof fn lemma_get_remove(s: Seq<EntryModel>, idx: int, n: Seq<char>, d: Seq<char>)
    requires
        0 <= idx < s.len(),
        !(s[idx].name == n && s[idx].date == d),
    ensures
        spec_get(s.remove(idx), n, d) == spec_get(s, n, d),
    decreases s.len(),
{
    if idx == s.len() - 1 {
        assert(s.remove(idx) =~= s.drop_last());
    } else {
        assert(s.remove(idx).last() == s.last());
        assert(s.remove(idx).drop_last() =~= s.drop_last().remove(idx));
        lemma_get_remove(s.drop_last(), idx, n, d);
        assert(s.remove(idx).len() > 0);
    }
}

/// The mapping from item names and dates to the latest price seen for the
/// pair.
pub struct PriceHistory {
    /// The entries, newest last; lookups take the latest matching entry.
    pub entries: Vec<Entry>,
}

impl View for PriceHistory {
    type V = Seq<EntryModel>;

    open spec fn view(&self) -> Seq<EntryModel> {
        self.entries@.map_values(|e: Entry| e@)
    }
}

impl PriceHistory {
    /// An empty history.
    pub fn new() -> (h: PriceHistory)
        ensures
            h@ =~= Seq::<EntryModel>::empty(),
            forall|n: Seq<char>, d: Seq<char>| spec_get(h@, n, d) is None,
    {
        let h = PriceHistory { entries: Vec::new() };
        proof {
            assert(h@ =~= Seq::<EntryModel>::empty());
        }
        h
    }

    /// Inserts a record, overwriting any earlier price for the same
    /// (name, date) pair and leaving every other pair unchanged.
    pub fn add_record(&mut self, rec: &Record)
        ensures
            forall|n: Seq<char>, d: Seq<char>|
                spec_get(final(self)@, n, d) == (if n == rec.name@ && d == rec.date@ {
                    Some(rec.price.model())
                } else {
                    spec_get(old(self)@, n, d)
                }),
    {
        let ghost orig = self@;
        let mut found: Option<usize> = None;
        let mut k: usize = 0;
        while k < self.entries.len()
            invariant
                0 <= k <= self.entries@.len(),
                self@ == orig,
                match found {
                    Some(idx) => idx < self.entries@.len() && orig[idx as int].name == rec.name@
                        && orig[idx as int].date == rec.date@,
                    None => true,
                },
            decreases self.entries@.len() - k,
        {
            let e = &self.entries[k];
            if chars_eq(&e.name, &rec.name) && chars_eq(&e.date, &rec.date) {
                found = Some(k);
            }
            k += 1;
        }
        let ghost after_remove = orig;
        match found {
            Some(idx) => {
                self.entries.remove(idx);
                proof {
                    after_remove = orig.remove(idx as int);
                    assert(self@ =~= after_remove);
                }
            },
            None => {},
        }
        let entry = Entry {
            name: copy_range(&rec.name, 0, rec.name.len()),
            date: copy_range(&rec.date, 0, rec.date.len()),
            price: rec.price,
        };
        proof {
            assert(entry@.name =~= rec.name@);
            assert(entry@.date =~= rec.date@);
        }
        let ghost before_push = self@;
        self.entries.push(entry);
        proof {
            assert(self@ =~= before_push.push(entry@));
            assert forall|n: Seq<char>, d: Seq<char>|
                spec_get(self@, n, d) == (if n == rec.name@ && d == rec.date@ {
                    Some(rec.price.model())
                } else {
                    spec_get(orig, n, d)
                }) by {
                assert(self@.last() == entry@);
                assert(self@.drop_last() =~= before_push);
                if !(n == rec.name@ && d == rec.date@) {
                    match found {
                        Some(idx) => {
                            lemma_get_remove(orig, idx as int, n, d);
                        },
                        None => {},
                    }
                }
            }
        }
    }

    /// The price recorded for a (name, date) pair, if any.
    pub fn lookup(&self, name: &Vec<char>, date: &Vec<char>) -> (r: Option<Price>)
        ensures
            match r {
                Some(p) => spec_get(self@, name@, date@) == Some(p.model()),
                None => spec_get(self@, name@, date@) is None,
            },
    {
        let mut k = self.entries.len();
        proof {
            assert(self@.take(k as int) =~= self@);
        }
        while k > 0
            invariant
                0 <= k <= self.entries@.len(),
                spec_get(self@, name@, date@) == spec_get(self@.take(k as int), name@, date@),
            decreases k,
        {
            let e = &self.entries[k - 1];
            proof {
                assert(self@.take(k as int).last() == self@[k - 1]);
                assert(self@.take(k as int).drop_last() =~= self@.take(k - 1));
            }
            if chars_eq(&e.name, name) && chars_eq(&e.date, date) {
                return Some(e.price);
            }
            k -= 1;
        }
        proof {
            assert(self@.take(0) =~= Seq::<EntryModel>::empty());
        }
        None
    }

    /// The number of entries held.
    pub fn len(&self) -> (n: usize)
        ensures
            n == self@.len(),
    {
        self.entries.len()
    }
}

} // verus!
