use vstd::prelude::*;
use std::collections::HashMap;
use crate::contractor::{Contractor, ContractorView, opt_text, copy_opt_text};

verus! {

/// One row of the page query: a contractor's columns joined with at most one
/// of its account numbers (`None` for a contractor that has none).
#[derive(Debug, PartialEq, Eq)]
pub struct ContractorRow {
    pub id: i64,
    pub name: String,
    pub nip: String,
    pub vat_status: String,
    pub regon: String,
    pub krs: Option<String>,
    pub residence_address: Option<String>,
    pub working_address: Option<String>,
    pub account_number: Option<String>,
}

pub struct RowView {
    pub id: i64,
    pub contractor: ContractorView,
    pub account: Option<Seq<char>>,
}

impl View for ContractorRow {
    type V = RowView;

    /// The row's contractor columns, with no accounts; the joined account apart.
    open spec fn view(&self) -> RowView {
        RowView {
            id: self.id,
            contractor: ContractorView {
                name: self.name@,
                nip: self.nip@,
                vat_status: self.vat_status@,
                regon: self.regon@,
                krs: opt_text(self.krs),
                residence_address: opt_text(self.residence_address),
                working_address: opt_text(self.working_address),
                accounts: Seq::empty(),
            },
            account: opt_text(self.account_number),
        }
    }
}

pub open spec fn row_views(rows: Seq<ContractorRow>) -> Seq<RowView> {
    rows.map_values(|r: ContractorRow| r@)
}

/// The accounts after one more joined row: its account number, if any, is appended.
pub open spec fn with_account(c: ContractorView, a: Option<Seq<char>>) -> ContractorView {
    match a {
        Some(n) => ContractorView { accounts: c.accounts.push(n), ..c },
        None => c,
    }
}

pub open spec fn has_id(acc: Seq<(i64, ContractorView)>, id: i64) -> bool {
    exists|k: int| 0 <= k < acc.len() && acc[k].0 == id
}

/// Contractors keyed by identifier, in the order in which each identifier was
/// first seen: a row for a known identifier adds its account number to that
/// contractor, wherever in the stream the row stands; a row for a new
/// identifier opens a contractor with the row's columns.
pub open spec fn grouped(rows: Seq<RowView>) -> Seq<(i64, ContractorView)>
    decreases rows.len(),
{
    if rows.len() == 0 {
        Seq::empty()
    } else {
        let acc = grouped(rows.drop_last());
        let r = rows.last();
        if has_id(acc, r.id) {
            let k = choose|k: int| 0 <= k < acc.len() && acc[k].0 == r.id;
            acc.update(k, (r.id, with_account(acc[k].1, r.account)))
        } else {
            acc.push((r.id, with_account(r.contractor, r.account)))
        }
    }
}

pub open spec fn contractors_of(rows: Seq<RowView>) -> Seq<ContractorView> {
    grouped(rows).map_values(|p: (i64, ContractorView)| p.1)
}

pub open spec fn unique_keys(acc: Seq<(i64, ContractorView)>) -> bool {
    forall|i: int, j: int| 0 <= i < acc.len() && 0 <= j < acc.len() && i != j ==> acc[i].0 != acc[j].0
}

/// Each identifier appears once among the grouped contractors.
pub proof fn lemma_grouped_unique(rows: Seq<RowView>)
    ensures
        unique_keys(grouped(rows)),
    decreases rows.len(),
{
    if rows.len() > 0 {
        lemma_grouped_unique(rows.drop_last());
    }
}

/// Rebuilds one contractor per distinct identifier from the joined rows, with
/// its account numbers in the order the rows arrived. A map from identifier to
/// position keys the grouping, so it does not depend on rows of one
/// contractor being adjacent; contractors come out in first-seen order.
pub fn group_rows(rows: Vec<ContractorRow>) -> (r: Vec<Contractor>)
    ensures
        r@.len() == contractors_of(row_views(rows@)).len(),
        forall|i: int| 0 <= i < r@.len() ==> #[trigger] r@[i]@ == contractors_of(row_views(rows@))[i],
{
    broadcast use vstd::std_specs::hash::group_hash_axioms;

    let ghost views = row_views(rows@);
    let mut positions: HashMap<i64, usize> = HashMap::new();
    let mut out: Vec<Contractor> = Vec::new();
    let mut i: usize = 0;
    while i < rows.len()
        invariant
            0 <= i <= rows@.len(),
            views == row_views(rows@),
            out@.len() == grouped(views.take(i as int)).len(),
            forall|k: int| 0 <= k < out@.len() ==> #[trigger] out@[k]@ == grouped(views.take(i as int))[k].1,
            forall|id: i64| #[trigger] positions@.contains_key(id) <==> has_id(grouped(views.take(i as int)), id),
            forall|id: i64| #[trigger] positions@.contains_key(id) ==> positions@[id] < out@.len()
                && grouped(views.take(i as int))[positions@[id] as int].0 == id,
        decreases rows.len() - i,
    {
        let row = &rows[i];
        let ghost before = grouped(views.take(i as int));
        assert(views.take(i as int + 1).drop_last() == views.take(i as int));
        assert(views.take(i as int + 1).last() == row@);
        proof { lemma_grouped_unique(views.take(i as int)); }
        let found = positions.get(&row.id);
        match found {
            Some(j) => {
                let j: usize = *j;
                assert(positions@.contains_key(row.id));
                let ghost k = choose|k: int| 0 <= k < before.len() && before[k].0 == row.id;
                assert(k == j);
                match &row.account_number {
                    Some(a) => {
                        let ghost prev = out@;
                        out[j].accounts_numbers.push(a.clone());
                        assert(out@[j as int]@.accounts =~= prev[j as int]@.accounts.push(a@));
                        assert(out@[j as int]@ == with_account(before[j as int].1, row@.account));
                    },
                    None => {},
                }
                let ghost after = grouped(views.take(i as int + 1));
                assert(after == before.update(j as int, (row.id, with_account(before[j as int].1, row@.account))));
                assert forall|id: i64| #[trigger] positions@.contains_key(id) implies has_id(after, id) by {
                    assert(after[positions@[id] as int].0 == id);
                }
                assert forall|id: i64| has_id(after, id) implies #[trigger] positions@.contains_key(id) by {
                    let m = choose|m: int| 0 <= m < after.len() && after[m].0 == id;
                    assert(before[m].0 == id);
                }
            },
            None => {
                assert(!has_id(before, row.id));
                let mut accounts: Vec<String> = Vec::new();
                match &row.account_number {
                    Some(a) => accounts.push(a.clone()),
                    None => {},
                }
                let c = Contractor {
                    name: row.name.clone(),
                    nip: row.nip.clone(),
                    vat_status: row.vat_status.clone(),
                    regon: row.regon.clone(),
                    krs: copy_opt_text(&row.krs),
                    residence_address: copy_opt_text(&row.residence_address),
                    working_address: copy_opt_text(&row.working_address),
                    accounts_numbers: accounts,
                };
                assert(c@.accounts =~= with_account(row@.contractor, row@.account).accounts);
                positions.insert(row.id, out.len());
                out.push(c);
                let ghost after = grouped(views.take(i as int + 1));
                assert(after == before.push((row.id, with_account(row@.contractor, row@.account))));
                assert forall|id: i64| #[trigger] positions@.contains_key(id) implies has_id(after, id) by {
                    assert(after[positions@[id] as int].0 == id);
                }
                assert forall|id: i64| has_id(after, id) implies #[trigger] positions@.contains_key(id) by {
                    let m = choose|m: int| 0 <= m < after.len() && after[m].0 == id;
                    if m < before.len() {
                        assert(before[m].0 == id);
                    }
                }
            },
        }
        i = i + 1;
    }
    assert(views.take(rows@.len() as int) =~= views);
    out
}

/// Index of the first contractor on a 1-based page; page 0 counts as page 1.
pub open spec fn page_start(page: int, page_size: int) -> int {
    if page <= 1 {
        0
    } else {
        (page - 1) * page_size
    }
}

pub open spec fn clamp_i64(n: int) -> int {
    if n > i64::MAX {
        i64::MAX as int
    } else {
        n
    }
}

/// The query's OFFSET: `(page - 1) * page_size` with saturating arithmetic,
/// so that page 0 behaves as page 1 and a huge product stops at `i64::MAX`.
pub fn page_offset(page: usize, page_size: usize) -> (r: i64)
    ensures
        r == clamp_i64(page_start(page as int, page_size as int)),
{
    let before: usize = page.saturating_sub(1);
    assert((before as int) * (page_size as int) <= u128::MAX) by (nonlinear_arith)
        requires
            before <= usize::MAX,
            page_size <= usize::MAX,
            usize::MAX < 0x1_0000_0000_0000_0000int,
    ;
    let product: u128 = (before as u128) * (page_size as u128);
    assert(before as int == if page == 0 { 0 } else { page - 1 });
    assert(product as int == page_start(page as int, page_size as int)) by {
        if page <= 1 {
            assert(before == 0);
            assert(product == 0) by (nonlinear_arith) requires product == (before as int) * (page_size as int), before == 0;
        }
    }
    if product > i64::MAX as u128 {
        i64::MAX
    } else {
        product as i64
    }
}

/// The query's LIMIT: the page size, stopping at `i64::MAX`.
pub fn page_limit(page_size: usize) -> (r: i64)
    ensures
        r == clamp_i64(page_size as int),
{
    if page_size as u128 > i64::MAX as u128 {
        i64::MAX
    } else {
        page_size as i64
    }
}

} // verus!
