//! Fragments and the page linearizer.
//!
//! A raw fragment carries what the document loader hands over for one
//! paragraph-like element: its positioning style text (absent when the
//! element has none), its joined descendant text (the scanner token), and
//! its leading text child where that child is plain text.  Positioning
//! turns raw fragments into placed fragments with exact millipixel
//! coordinates; the linearizer then sorts each page by (y, then x) and
//! concatenates the pages in document order.

use vstd::prelude::*;

use crate::coords::{coords, spec_position};
use crate::errors::{ErrorModel, ExtractError};
use crate::rows::cell_model;
use crate::text::copy_range;

verus! {

/// A paragraph-like element as the document loader hands it over.
pub struct RawFragment {
    /// The inline positioning attribute text, absent when the element has
    /// none.
    pub style: Option<Vec<char>>,
    /// The joined descendant text, keyed on by the section scanner.
    pub token: Vec<char>,
    /// The leading child's text, present only when that child is plain
    /// text; such fragments carry cell values.
    pub leading: Option<Vec<char>>,
}

/// The model of a raw fragment.
pub struct RawFragModel {
    /// The positioning attribute text.
    pub style: Option<Seq<char>>,
    /// The joined descendant text.
    pub token: Seq<char>,
    /// The leading text child.
    pub leading: Option<Seq<char>>,
}

impl View for RawFragment {
    type V = RawFragModel;

    open spec fn view(&self) -> RawFragModel {
        RawFragModel {
            style: cell_model(self.style),
            token: self.token@,
            leading: cell_model(self.leading),
        }
    }
}

/// A placed fragment: its position in thousandths of a pixel, its scanner
/// token and its leading text.
pub struct Fragment {
    /// The x-coordinate, in thousandths of a pixel.
    pub x: i64,
    /// The y-coordinate, in thousandths of a pixel.
    pub y: i64,
    /// The joined descendant text.
    pub token: Vec<char>,
    /// The leading text child.
    pub leading: Option<Vec<char>>,
}

/// The model of a placed fragment.
pub struct FragModel {
    /// The x-coordinate, in thousandths of a pixel.
    pub x: i64,
    /// The y-coordinate, in thousandths of a pixel.
    pub y: i64,
    /// The joined descendant text.
    pub token: Seq<char>,
    /// The leading text child.
    pub leading: Option<Seq<char>>,
}

impl View for Fragment {
    type V = FragModel;

    open spec fn view(&self) -> FragModel {
        FragModel {
            x: self.x,
            y: self.y,
            token: self.token@,
            leading: cell_model(self.leading),
        }
    }
}

/// The models of a sequence of raw fragments.
pub open spec fn raw_page_model(s: Seq<RawFragment>) -> Seq<RawFragModel> {
    s.map_values(|f: RawFragment| f@)
}

/// The models of a document's pages of raw fragments.
pub open spec fn raw_pages_model(s: Seq<Vec<RawFragment>>) -> Seq<Seq<RawFragModel>> {
    s.map_values(|p: Vec<RawFragment>| raw_page_model(p@))
}

/// The models of a sequence of placed fragments.
pub open spec fn frag_seq_model(s: Seq<Fragment>) -> Seq<FragModel> {
    s.map_values(|f: Fragment| f@)
}

/// Placing one raw fragment: its position read from its style text, or
/// nothing when the style is absent or unusable.
pub open spec fn spec_place_frag(f: RawFragModel) -> Option<FragModel> {
    match f.style {
        None => None,
        Some(st) => match spec_position(st) {
            None => None,
            Some(p) => Some(
                FragModel { x: p.0 as i64, y: p.1 as i64, token: f.token, leading: f.leading },
            ),
        },
    }
}

/// Placing the fragments of one page from position `p` on, stopping at the
/// first fragment without a usable position.
pub open spec fn spec_place_page_from(page: Seq<RawFragModel>, p: int) -> Result<
    Seq<FragModel>,
    ErrorModel,
>
    decreases page.len() - p when 0 <= p <= page.len()
{
    if p >= page.len() {
        Ok(Seq::empty())
    } else {
        match spec_place_frag(page[p]) {
            None => Err(ErrorModel::MissingPosition(page[p].style)),
            Some(pf) => match spec_place_page_from(page, p + 1) {
                Err(e) => Err(e),
                Ok(rest) => Ok(seq![pf] + rest),
            },
        }
    }
}

/// Placing the pages of a document from page `k` on.
pub open spec fn spec_place_pages_from(pages: Seq<Seq<RawFragModel>>, k: int) -> Result<
    Seq<Seq<FragModel>>,
    ErrorModel,
>
    decreases pages.len() - k when 0 <= k <= pages.len()
{
    if k >= pages.len() {
        Ok(Seq::empty())
    } else {
        match spec_place_page_from(pages[k], 0) {
            Err(e) => Err(e),
            Ok(pf) => match spec_place_pages_from(pages, k + 1) {
                Err(e) => Err(e),
                Ok(rest) => Ok(seq![pf] + rest),
            },
        }
    }
}

/// Placing every page of a document, in document order.
pub open spec fn spec_place_pages(pages: Seq<Seq<RawFragModel>>) -> Result<
    Seq<Seq<FragModel>>,
    ErrorModel,
> {
    spec_place_pages_from(pages, 0)
}

/// Reading order between two fragments: strictly higher on the page, or
/// level and not further right.
pub open spec fn frag_le(a: FragModel, b: FragModel) -> bool {
    a.y < b.y || (a.y == b.y && a.x <= b.x)
}

/// The sequence is in reading order.
pub open spec fn page_sorted(s: Seq<FragModel>) -> bool {
    forall|i: int, j: int| 0 <= i < j < s.len() ==> frag_le(s[i], s[j])
}

/// `s` is a reading-order arrangement of `orig`: the same fragments, sorted
/// by (y, then x).
pub open spec fn sort_of(orig: Seq<FragModel>, s: Seq<FragModel>) -> bool {
    s.to_multiset() == orig.to_multiset() && page_sorted(s)
}

/// `lin` is a linearization of the document's placed pages: each page in
/// reading order, pages concatenated in document order.
pub open spec fn lin_of(pp: Seq<Seq<FragModel>>, lin: Seq<FragModel>) -> bool {
    exists|parts: Seq<Seq<FragModel>>|
        parts.len() == pp.len() && (forall|k: int|
            0 <= k < pp.len() ==> sort_of(pp[k], #[trigger] parts[k])) && lin == parts.flatten()
}

/// Copies an optional text.
fn copy_cell(c: &Option<Vec<char>>) -> (r: Option<Vec<char>>)
    ensures
        cell_model(r) == match c {
            Some(v) => Some(v@),
            None => None::<Seq<char>>,
        },
{
    match c {
        None => None,
        Some(v) => {
            let t = copy_range(v, 0, v.len());
            proof {
                assert(t@ =~= v@);
            }
            Some(t)
        },
    }
}

/// Places one raw fragment, reading its position from its style text.
fn place_frag(f: &RawFragment) -> (r: Result<Fragment, ExtractError>)
    ensures
        match r {
            Ok(pf) => spec_place_frag(f@) == Some(pf@),
            Err(e) => spec_place_frag(f@) is None && e@ == ErrorModel::MissingPosition(f@.style),
        },
{
    match &f.style {
        None => Err(ExtractError::MissingPosition(None)),
        Some(st) => match coords(st) {
            None => Err(ExtractError::MissingPosition(copy_cell(&f.style))),
            Some((x, y)) => {
                let token = copy_range(&f.token, 0, f.token.len());
                proof {
                    assert(token@ =~= f.token@);
                }
                let leading = copy_cell(&f.leading);
                let pf = Fragment { x, y, token, leading };
                proof {
                    assert(spec_place_frag(f@) == Some(pf@));
                }
                Ok(pf)
            },
        },
    }
}

/// Places the fragments of one page, stopping at the first fragment
/// without a usable position.
fn place_page(page: &Vec<RawFragment>) -> (r: Result<Vec<Fragment>, ExtractError>)
    ensures
        match r {
            Ok(pf) => spec_place_page_from(raw_page_model(page@), 0) == Ok::<_, ErrorModel>(
                frag_seq_model(pf@),
            ),
            Err(e) => spec_place_page_from(raw_page_model(page@), 0) == Err::<Seq<FragModel>, _>(
                e@,
            ),
        },
{
    let ghost pm = raw_page_model(page@);
    let mut out: Vec<Fragment> = Vec::new();
    let mut p: usize = 0;
    while p < page.len()
        invariant
            0 <= p <= page@.len(),
            pm == raw_page_model(page@),
            pm.len() == page@.len(),
            forall|e: ErrorModel|
                spec_place_page_from(pm, p as int) == Err::<Seq<FragModel>, _>(e)
                    ==> spec_place_page_from(pm, 0) == Err::<Seq<FragModel>, _>(e),
            forall|rest: Seq<FragModel>|
                spec_place_page_from(pm, p as int) == Ok::<_, ErrorModel>(rest)
                    ==> spec_place_page_from(pm, 0) == Ok::<_, ErrorModel>(
                    frag_seq_model(out@) + rest,
                ),
        decreases page@.len() - p,
    {
        let f = &page[p];
        proof {
            assert(pm[p as int] == f@);
        }
        match place_frag(f) {
            Err(e) => {
                return Err(e);
            },
            Ok(pf) => {
                let ghost prev_out = out@;
                out.push(pf);
                proof {
                    assert(frag_seq_model(out@) =~= frag_seq_model(prev_out).push(pf@));
                    assert forall|rest: Seq<FragModel>|
                        spec_place_page_from(pm, p + 1) == Ok::<_, ErrorModel>(rest) implies
                        spec_place_page_from(pm, 0) == Ok::<_, ErrorModel>(
                        frag_seq_model(out@) + rest,
                    ) by {
                        assert(spec_place_page_from(pm, p as int) == Ok::<_, ErrorModel>(
                            seq![pf@] + rest,
                        ));
                        assert(frag_seq_model(prev_out) + (seq![pf@] + rest) =~= frag_seq_model(
                            out@,
                        ) + rest);
                    }
                }
            },
        }
        p += 1;
    }
    proof {
        assert(spec_place_page_from(pm, p as int) == Ok::<_, ErrorModel>(Seq::<FragModel>::empty()));
        assert(frag_seq_model(out@) + Seq::<FragModel>::empty() =~= frag_seq_model(out@));
    }
    Ok(out)
}

/// Decides reading order between two fragments.
fn frag_le_exec(a: &Fragment, b: &Fragment) -> (r: bool)
    ensures
        r == frag_le(a@, b@),
{
    a.y < b.y || (a.y == b.y && a.x <= b.x)
}

/// Sorts one page's fragments into reading order: the result holds the same
/// fragments, ordered by (y ascending, then x ascending).
fn sort_page(page: Vec<Fragment>) -> (r: Vec<Fragment>)
    ensures
        sort_of(frag_seq_model(page@), frag_seq_model(r@)),
{
    broadcast use vstd::seq_lib::group_to_multiset_ensures;

    let ghost orig = frag_seq_model(page@);
    let mut rest = page;
    let mut out: Vec<Fragment> = Vec::new();
    while rest.len() > 0
        invariant
            frag_seq_model(out@).to_multiset().add(frag_seq_model(rest@).to_multiset())
                == orig.to_multiset(),
            page_sorted(frag_seq_model(out@)),
            forall|i: int, j: int|
                0 <= i < out@.len() && 0 <= j < rest@.len() ==> frag_le(
                    #[trigger] frag_seq_model(out@)[i],
                    #[trigger] frag_seq_model(rest@)[j],
                ),
        decreases rest@.len(),
    {
        let mut mi: usize = 0;
        let mut t: usize = 1;
        while t < rest.len()
            invariant
                0 <= mi < t <= rest@.len(),
                forall|j: int|
                    0 <= j < t ==> frag_le(
                        frag_seq_model(rest@)[mi as int],
                        #[trigger] frag_seq_model(rest@)[j],
                    ),
            decreases rest@.len() - t,
        {
            if !frag_le_exec(&rest[mi], &rest[t]) {
                mi = t;
            }
            t += 1;
        }
        let ghost restm = frag_seq_model(rest@);
        let ghost outm = frag_seq_model(out@);
        let m = rest.remove(mi);
        out.push(m);
        proof {
            broadcast use vstd::multiset::group_multiset_axioms;
            broadcast use vstd::seq_lib::group_to_multiset_ensures;

            assert(restm[mi as int] == m@);
            assert(frag_seq_model(rest@) =~= restm.remove(mi as int));
            assert(frag_seq_model(out@) =~= outm.push(m@));
            assert(restm.contains(m@));
            assert(restm.to_multiset().count(m@) > 0);
            assert(outm.push(m@).to_multiset() == outm.to_multiset().insert(m@));
            assert(restm.remove(mi as int).to_multiset() == restm.to_multiset().remove(
                restm[mi as int],
            ));
            assert(frag_seq_model(out@).to_multiset() == outm.to_multiset().insert(m@));
            assert(frag_seq_model(rest@).to_multiset() == restm.to_multiset().remove(m@));
            assert(frag_seq_model(out@).to_multiset().add(frag_seq_model(rest@).to_multiset())
                =~= orig.to_multiset());
            assert forall|i: int, j: int|
                0 <= i < out@.len() && 0 <= j < rest@.len() implies frag_le(
                frag_seq_model(out@)[i],
                frag_seq_model(rest@)[j],
            ) by {
                assert(frag_seq_model(rest@)[j] == if j < mi as int {
                    restm[j]
                } else {
                    restm[j + 1]
                });
                assert(frag_le(m@, frag_seq_model(rest@)[j]));
                if i < outm.len() {
                    assert(frag_seq_model(out@)[i] == outm[i]);
                    assert(frag_le(outm[i], restm[if j < mi as int {
                        j
                    } else {
                        j + 1
                    }]));
                } else {
                    assert(frag_seq_model(out@)[i] == m@);
                }
            }
        }
    }
    proof {
        broadcast use vstd::multiset::group_multiset_axioms;
        broadcast use vstd::seq_lib::group_to_multiset_ensures;

        assert(frag_seq_model(rest@) =~= Seq::<FragModel>::empty());
        assert(frag_seq_model(rest@).to_multiset() =~= vstd::multiset::Multiset::<
            FragModel,
        >::empty());
        assert(frag_seq_model(out@).to_multiset() =~= orig.to_multiset());
    }
    out
}

/// Places and linearizes a document's pages: every fragment is positioned
/// from its style text, each page is sorted into reading order, and the
/// pages are concatenated in document order.  The first fragment without a
/// usable position aborts with a structural error.
pub fn linearize_pages(pages: Vec<Vec<RawFragment>>) -> (r: Result<Vec<Fragment>, ExtractError>)
    ensures
        match r {
            Ok(lin) => spec_place_pages(raw_pages_model(pages@)) matches Ok(pp) && lin_of(
                pp,
                frag_seq_model(lin@),
            ),
            Err(e) => spec_place_pages(raw_pages_model(pages@)) == Err::<Seq<Seq<FragModel>>, _>(
                e@,
            ),
        },
{
    let ghost pm = raw_pages_model(pages@);
    let mut lin: Vec<Fragment> = Vec::new();
    let ghost mut parts: Seq<Seq<FragModel>> = Seq::empty();
    let ghost mut done: Seq<Seq<FragModel>> = Seq::empty();
    let mut k: usize = 0;
    while k < pages.len()
        invariant
            0 <= k <= pages@.len(),
            pm == raw_pages_model(pages@),
            pm.len() == pages@.len(),
            done.len() == k,
            parts.len() == k,
            forall|t: int| 0 <= t < k ==> sort_of(done[t], #[trigger] parts[t]),
            frag_seq_model(lin@) == parts.flatten(),
            forall|e: ErrorModel|
                spec_place_pages_from(pm, k as int) == Err::<Seq<Seq<FragModel>>, _>(e)
                    ==> spec_place_pages(pm) == Err::<Seq<Seq<FragModel>>, _>(e),
            forall|rest: Seq<Seq<FragModel>>|
                spec_place_pages_from(pm, k as int) == Ok::<_, ErrorModel>(rest)
                    ==> spec_place_pages(pm) == Ok::<_, ErrorModel>(done + rest),
        decreases pages@.len() - k,
    {
        let page = &pages[k];
        proof {
            assert(pm[k as int] == raw_page_model(page@));
        }
        match place_page(page) {
            Err(e) => {
                return Err(e);
            },
            Ok(pf) => {
                let ghost pfm = frag_seq_model(pf@);
                let mut sorted = sort_page(pf);
                let ghost sm = frag_seq_model(sorted@);
                let ghost prev_parts = parts;
                let ghost prev_done = done;
                let ghost prev_lin = frag_seq_model(lin@);
                lin.append(&mut sorted);
                proof {
                    broadcast use Seq::lemma_flatten_push;

                    parts = prev_parts.push(sm);
                    done = prev_done.push(pfm);
                    assert(frag_seq_model(lin@) =~= prev_lin + sm);
                    assert(frag_seq_model(lin@) =~= parts.flatten());
                    assert forall|rest: Seq<Seq<FragModel>>|
                        spec_place_pages_from(pm, k + 1) == Ok::<_, ErrorModel>(rest) implies
                        spec_place_pages(pm) == Ok::<_, ErrorModel>(done + rest) by {
                        assert(spec_place_pages_from(pm, k as int) == Ok::<_, ErrorModel>(
                            seq![pfm] + rest,
                        ));
                        assert(spec_place_pages(pm) == Ok::<_, ErrorModel>(
                            prev_done + (seq![pfm] + rest),
                        ));
                        assert(prev_done + (seq![pfm] + rest) =~= done + rest);
                    }
                }
            },
        }
        k += 1;
    }
    proof {
        assert(spec_place_pages_from(pm, k as int) == Ok::<_, ErrorModel>(
            Seq::<Seq<FragModel>>::empty(),
        ));
        assert(done + Seq::<Seq<FragModel>>::empty() =~= done);
        assert(spec_place_pages(pm) == Ok::<_, ErrorModel>(done));
        assert(lin_of(done, frag_seq_model(lin@)));
    }
    Ok(lin)
}

} // verus!
