use vstd::prelude::*;
use vstd::arithmetic::div_mod::{lemma_fundamental_div_mod, lemma_mod_bound};
use crate::contractor::ContractorView;
use crate::save::{SaveAction, SaveError, SaveEvent, SavePhase, SaveStage, accepts, next_step};
use crate::search::{RowView, grouped, contractors_of, with_account, has_id, lemma_grouped_unique, page_start, clamp_i64};

verus! {

/// A row of the contractors table: its generated identifier and its columns.
/// The account numbers live in their own table, so `fields.accounts` is empty.
pub struct StoredContractor {
    pub id: i64,
    pub fields: ContractorView,
}

/// A row of the account numbers table, referring to its contractor.
pub struct StoredAccount {
    pub contractor_id: i64,
    pub number: Seq<char>,
}

/// The committed content of the two tables, each in insertion order.
pub struct StoreModel {
    pub contractors: Seq<StoredContractor>,
    pub accounts: Seq<StoredAccount>,
}

pub open spec fn increasing_ids(cs: Seq<StoredContractor>) -> bool {
    forall|i: int, j: int| 0 <= i < j < cs.len() ==> cs[i].id < cs[j].id
}

impl StoreModel {
    /// Identifiers are generated in increasing order, every account row refers
    /// to a contractor row, contractor rows hold no accounts of their own, and
    /// the table fits the 64-bit identifier range.
    pub open spec fn wf(self) -> bool {
        &&& increasing_ids(self.contractors)
        &&& self.contractors.len() <= i64::MAX
        &&& forall|i: int| 0 <= i < self.contractors.len() ==> (#[trigger] self.contractors[i]).fields.accounts.len() == 0
        &&& forall|a: int| 0 <= a < self.accounts.len() ==> exists|i: int|
            0 <= i < self.contractors.len() && self.contractors[i].id == (#[trigger] self.accounts[a]).contractor_id
    }
}

/// The account numbers of contractor `id`, in insertion order.
pub open spec fn numbers_for(accounts: Seq<StoredAccount>, id: i64) -> Seq<Seq<char>>
    decreases accounts.len(),
{
    if accounts.len() == 0 {
        Seq::empty()
    } else {
        let m = numbers_for(accounts.drop_last(), id);
        if accounts.last().contractor_id == id {
            m.push(accounts.last().number)
        } else {
            m
        }
    }
}

/// The contractor as the store holds it: its columns and its account numbers.
pub open spec fn aggregate(s: StoreModel, c: StoredContractor) -> ContractorView {
    ContractorView { accounts: c.fields.accounts + numbers_for(s.accounts, c.id), ..c.fields }
}

/// The joined rows of one contractor: one per account number, in insertion
/// order, or a single row without an account number when it has none.
pub open spec fn rows_of(s: StoreModel, c: StoredContractor) -> Seq<RowView> {
    let nums = numbers_for(s.accounts, c.id);
    if nums.len() == 0 {
        seq![RowView { id: c.id, contractor: c.fields, account: None }]
    } else {
        account_rows_view(c, nums)
    }
}

pub open spec fn account_rows_view(c: StoredContractor, nums: Seq<Seq<char>>) -> Seq<RowView> {
    nums.map_values(|n: Seq<char>| RowView { id: c.id, contractor: c.fields, account: Some(n) })
}

/// The joined rows of a page of contractors, contractor after contractor.
pub open spec fn rows_of_page(s: StoreModel, page: Seq<StoredContractor>) -> Seq<RowView>
    decreases page.len(),
{
    if page.len() == 0 {
        Seq::empty()
    } else {
        rows_of_page(s, page.drop_last()) + rows_of(s, page.last())
    }
}

/// The contractor built from a block of rows that all belong to it.
pub open spec fn block_view(f: ContractorView, block: Seq<RowView>) -> ContractorView
    decreases block.len(),
{
    if block.len() == 0 {
        f
    } else {
        with_account(block_view(f, block.drop_last()), block.last().account)
    }
}

proof fn lemma_block_accounts(c: StoredContractor, nums: Seq<Seq<char>>)
    ensures
        block_view(c.fields, account_rows_view(c, nums)) == (ContractorView { accounts: c.fields.accounts + nums, ..c.fields }),
    decreases nums.len(),
{
    if nums.len() == 0 {
        assert(c.fields.accounts + nums =~= c.fields.accounts);
    } else {
        assert(account_rows_view(c, nums).drop_last() =~= account_rows_view(c, nums.drop_last()));
        lemma_block_accounts(c, nums.drop_last());
        assert(c.fields.accounts + nums =~= (c.fields.accounts + nums.drop_last()).push(nums.last()));
    }
}

proof fn lemma_rows_of(s: StoreModel, c: StoredContractor)
    ensures
        rows_of(s, c).len() >= 1,
        forall|i: int| 0 <= i < rows_of(s, c).len() ==> (#[trigger] rows_of(s, c)[i]).id == c.id
            && rows_of(s, c)[i].contractor == c.fields,
        block_view(c.fields, rows_of(s, c)) == aggregate(s, c),
{
    let nums = numbers_for(s.accounts, c.id);
    if nums.len() == 0 {
        let b = rows_of(s, c);
        assert(b.drop_last() =~= Seq::<RowView>::empty());
        assert(c.fields.accounts + nums =~= c.fields.accounts);
        assert(block_view(c.fields, b.drop_last()) == c.fields);
        assert(block_view(c.fields, b) == c.fields);
        assert(aggregate(s, c) == c.fields);
    } else {
        lemma_block_accounts(c, nums);
    }
}

/// Appending a block of rows of a contractor not yet seen adds that one contractor.
proof fn lemma_append_block(rows: Seq<RowView>, block: Seq<RowView>, id: i64, f: ContractorView)
    requires
        block.len() >= 1,
        forall|i: int| 0 <= i < block.len() ==> (#[trigger] block[i]).id == id && block[i].contractor == f,
        !has_id(grouped(rows), id),
    ensures
        grouped(rows + block) == grouped(rows).push((id, block_view(f, block))),
    decreases block.len(),
{
    let all = rows + block;
    assert(all.drop_last() =~= rows + block.drop_last());
    assert(all.last() == block.last());
    if block.len() == 1 {
        assert(rows + block.drop_last() =~= rows);
        assert(block.drop_last() =~= Seq::<RowView>::empty());
    } else {
        lemma_append_block(rows, block.drop_last(), id, f);
        let prev = grouped(rows + block.drop_last());
        let g = grouped(rows);
        lemma_grouped_unique(rows + block.drop_last());
        assert(prev[g.len() as int].0 == id);
        assert(has_id(prev, id));
        let k = choose|k: int| 0 <= k < prev.len() && prev[k].0 == id;
        assert(k == g.len());
        assert(grouped(all) =~= g.push((id, block_view(f, block))));
    }
}

/// The joined rows of a page with increasing identifiers regroup into the
/// page's contractors, each with all of its account numbers.
pub proof fn lemma_page_rows(s: StoreModel, page: Seq<StoredContractor>)
    requires
        increasing_ids(page),
    ensures
        grouped(rows_of_page(s, page)) == page.map_values(|c: StoredContractor| (c.id, aggregate(s, c))),
    decreases page.len(),
{
    if page.len() == 0 {
        assert(grouped(rows_of_page(s, page)) =~= page.map_values(|c: StoredContractor| (c.id, aggregate(s, c))));
    } else {
        let front = page.drop_last();
        let c = page.last();
        lemma_page_rows(s, front);
        let g = grouped(rows_of_page(s, front));
        assert(!has_id(g, c.id)) by {
            if has_id(g, c.id) {
                let k = choose|k: int| 0 <= k < g.len() && g[k].0 == c.id;
                assert(g[k].0 == front[k].id);
            }
        }
        lemma_rows_of(s, c);
        lemma_append_block(rows_of_page(s, front), rows_of(s, c), c.id, c.fields);
        assert(grouped(rows_of_page(s, page)) =~= page.map_values(|c: StoredContractor| (c.id, aggregate(s, c))));
    }
}

/// `text` holds `part` as a contiguous piece (case-sensitive).
pub open spec fn contains_text(text: Seq<char>, part: Seq<char>) -> bool {
    exists|i: int| 0 <= i <= text.len() - part.len() && #[trigger] text.subrange(i, i + part.len()) == part
}

/// A contractor row matches when there is no filter, or when its name or its
/// tax id contains the filter.
pub open spec fn matches_filter(c: StoredContractor, filter: Option<Seq<char>>) -> bool {
    match filter {
        None => true,
        Some(f) => contains_text(c.fields.name, f) || contains_text(c.fields.nip, f),
    }
}

/// The contractor rows that match the filter, in identifier order.
pub open spec fn matching(cs: Seq<StoredContractor>, filter: Option<Seq<char>>) -> Seq<StoredContractor>
    decreases cs.len(),
{
    if cs.len() == 0 {
        Seq::empty()
    } else {
        let m = matching(cs.drop_last(), filter);
        if matches_filter(cs.last(), filter) {
            m.push(cs.last())
        } else {
            m
        }
    }
}

/// The part of `list` that LIMIT `limit` OFFSET `offset` selects.
pub open spec fn page_of(list: Seq<StoredContractor>, offset: int, limit: int) -> Seq<StoredContractor> {
    let lo = if offset < list.len() { offset } else { list.len() as int };
    let hi = if offset + limit < list.len() { offset + limit } else { list.len() as int };
    list.subrange(lo, hi)
}

/// The rows that the page query returns: the page of matching contractor
/// identifiers in identifier order, each joined with its account numbers.
pub open spec fn query_rows(s: StoreModel, page: int, page_size: int, filter: Option<Seq<char>>) -> Seq<RowView> {
    rows_of_page(
        s,
        page_of(matching(s.contractors, filter), clamp_i64(page_start(page, page_size)), clamp_i64(page_size)),
    )
}

/// What a search returns on this store: the query's rows regrouped.
pub open spec fn search_result(s: StoreModel, page: int, page_size: int, filter: Option<Seq<char>>) -> Seq<ContractorView> {
    contractors_of(query_rows(s, page, page_size, filter))
}

proof fn lemma_matching(cs: Seq<StoredContractor>, filter: Option<Seq<char>>)
    ensures
        forall|i: int| 0 <= i < matching(cs, filter).len() ==> matches_filter(#[trigger] matching(cs, filter)[i], filter)
            && exists|j: int| 0 <= j < cs.len() && cs[j] == matching(cs, filter)[i],
        increasing_ids(cs) ==> increasing_ids(matching(cs, filter)),
        filter is None ==> matching(cs, filter) == cs,
        matching(cs, filter).len() <= cs.len(),
    decreases cs.len(),
{
    if cs.len() > 0 {
        let front = cs.drop_last();
        lemma_matching(front, filter);
        let m = matching(cs, filter);
        let mf = matching(front, filter);
        assert forall|i: int| 0 <= i < m.len() implies matches_filter(#[trigger] m[i], filter)
            && exists|j: int| 0 <= j < cs.len() && cs[j] == m[i] by {
            if i < mf.len() {
                let j = choose|j: int| 0 <= j < front.len() && front[j] == mf[i];
                assert(cs[j] == m[i]);
            } else {
                assert(cs[cs.len() - 1] == m[i]);
            }
        }
        if increasing_ids(cs) {
            assert forall|i: int, j: int| 0 <= i < j < m.len() implies m[i].id < m[j].id by {
                if j >= mf.len() {
                    let k = choose|k: int| 0 <= k < front.len() && front[k] == mf[i];
                    assert(cs[k] == m[i]);
                }
            }
        }
        if filter is None {
            assert(m =~= cs);
        }
    }
}

proof fn lemma_page_bounds(page: int, page_size: int)
    requires
        0 <= page_size,
    ensures
        0 <= clamp_i64(page_start(page, page_size)),
        0 <= clamp_i64(page_size),
{
    if page > 1 {
        assert((page - 1) * page_size >= 0) by (nonlinear_arith)
            requires
                page > 1,
                page_size >= 0,
        ;
    }
}

/// The page's contractors, as a search returns them.
pub proof fn lemma_search_page(s: StoreModel, page: int, page_size: int, filter: Option<Seq<char>>)
    requires
        s.wf(),
        0 <= page_size,
    ensures
        search_result(s, page, page_size, filter) == page_of(
            matching(s.contractors, filter),
            clamp_i64(page_start(page, page_size)),
            clamp_i64(page_size),
        ).map_values(|c: StoredContractor| aggregate(s, c)),
{
    let m = matching(s.contractors, filter);
    lemma_matching(s.contractors, filter);
    lemma_page_bounds(page, page_size);
    let lo = clamp_i64(page_start(page, page_size));
    let k = if lo < m.len() { lo } else { m.len() as int };
    let p = page_of(m, lo, clamp_i64(page_size));
    assert forall|i: int, j: int| 0 <= i < j < p.len() implies p[i].id < p[j].id by {
        assert(p[i] == m[k + i]);
        assert(p[j] == m[k + j]);
    }
    lemma_page_rows(s, p);
    assert(search_result(s, page, page_size, filter) =~= p.map_values(|c: StoredContractor| aggregate(s, c)));
}

/// Filtering: every contractor that a search with a filter returns has the
/// filter in its name or its tax id, and a filter that no contractor matches
/// gives an empty page.
pub proof fn lemma_search_filter(s: StoreModel, page: int, page_size: int, filter: Seq<char>)
    requires
        s.wf(),
        0 <= page_size,
    ensures
        forall|i: int| 0 <= i < search_result(s, page, page_size, Some(filter)).len() ==> {
            let c = #[trigger] search_result(s, page, page_size, Some(filter))[i];
            contains_text(c.name, filter) || contains_text(c.nip, filter)
        },
        (forall|j: int| 0 <= j < s.contractors.len() ==> !matches_filter(#[trigger] s.contractors[j], Some(filter)))
            ==> search_result(s, page, page_size, Some(filter)).len() == 0,
{
    lemma_search_page(s, page, page_size, Some(filter));
    lemma_matching(s.contractors, Some(filter));
    lemma_page_bounds(page, page_size);
    let m = matching(s.contractors, Some(filter));
    let lo = clamp_i64(page_start(page, page_size));
    let p = page_of(m, lo, clamp_i64(page_size));
    let r = search_result(s, page, page_size, Some(filter));
    assert forall|i: int| 0 <= i < r.len() implies {
        let c = #[trigger] r[i];
        contains_text(c.name, filter) || contains_text(c.nip, filter)
    } by {
        let k = if lo < m.len() { lo } else { m.len() as int };
        assert(p[i] == m[k + i]);
        assert(matches_filter(m[k + i], Some(filter)));
    }
    if forall|j: int| 0 <= j < s.contractors.len() ==> !matches_filter(#[trigger] s.contractors[j], Some(filter)) {
        if m.len() > 0 {
            let j = choose|j: int| 0 <= j < s.contractors.len() && s.contractors[j] == m[0];
            assert(matches_filter(m[0], Some(filter)));
        }
    }
}

/// Pages 1 to `count` of a search, one after the other.
pub open spec fn pages(s: StoreModel, page_size: int, filter: Option<Seq<char>>, count: nat) -> Seq<ContractorView>
    decreases count,
{
    if count == 0 {
        Seq::empty()
    } else {
        pages(s, page_size, filter, (count - 1) as nat) + search_result(s, count as int, page_size, filter)
    }
}

proof fn lemma_pages_prefix(s: StoreModel, page_size: int, filter: Option<Seq<char>>, count: nat)
    requires
        s.wf(),
        1 <= page_size,
        count == 0 || (count - 1) * page_size < matching(s.contractors, filter).len(),
    ensures
        ({
            let m = matching(s.contractors, filter);
            let end = if count * page_size < m.len() { count * page_size } else { m.len() as int };
            pages(s, page_size, filter, count) == m.take(end).map_values(|c: StoredContractor| aggregate(s, c))
        }),
    decreases count,
{
    let m = matching(s.contractors, filter);
    let agg = |c: StoredContractor| aggregate(s, c);
    if count == 0 {
        assert(m.take(0).map_values(agg) =~= Seq::<ContractorView>::empty());
    } else {
        let k = page_size;
        let c = count as int;
        assert((c - 1) * k + k == c * k) by (nonlinear_arith);
        assert(c - 1 == 0 || (c - 2) * k < (c - 1) * k) by (nonlinear_arith)
            requires
                c >= 1,
                k >= 1,
        ;
        assert(0 <= (c - 1) * k) by (nonlinear_arith)
            requires
                c >= 1,
                k >= 1,
        ;
        lemma_pages_prefix(s, page_size, filter, (count - 1) as nat);
        lemma_matching(s.contractors, filter);
        lemma_search_page(s, c, k, filter);
        let start = (c - 1) * k;
        assert(page_start(c, k) == start);
        assert(clamp_i64(start) == start);
        let end = if c * k < m.len() { c * k } else { m.len() as int };
        if k > i64::MAX {
            // A page wider than the LIMIT can express: only the first page
            // holds anything, and it holds every matching row.
            assert(c == 1) by (nonlinear_arith)
                requires
                    c >= 1,
                    (c - 1) * k < m.len(),
                    m.len() <= i64::MAX,
                    k > i64::MAX,
            ;
            assert(c * k == k) by (nonlinear_arith)
                requires
                    c == 1,
            ;
        }
        assert(page_of(m, start, clamp_i64(k)) == m.subrange(start, end));
        assert(pages(s, k, filter, count) =~= m.take(end).map_values(agg));
    }
}

/// Pagination: with page size `k` ≥ 1, pages 1 to ⌈N/k⌉ of a search together
/// return each of the N matching contractors exactly once, in identifier order.
pub proof fn lemma_pagination_covers(s: StoreModel, page_size: int, filter: Option<Seq<char>>)
    requires
        s.wf(),
        1 <= page_size,
    ensures
        ({
            let m = matching(s.contractors, filter);
            pages(s, page_size, filter, ((m.len() + page_size - 1) / page_size) as nat)
                == m.map_values(|c: StoredContractor| aggregate(s, c))
        }),
{
    let m = matching(s.contractors, filter);
    let n = m.len() as int;
    let k = page_size;
    let count = (n + k - 1) / k;
    lemma_fundamental_div_mod(n + k - 1, k);
    lemma_mod_bound(n + k - 1, k);
    assert(count >= 0) by (nonlinear_arith)
        requires
            n + k - 1 == k * count + (n + k - 1) % k,
            0 <= (n + k - 1) % k < k,
            n >= 0,
            k >= 1,
    ;
    assert(count == 0 || (count - 1) * k < n) by (nonlinear_arith)
        requires
            n + k - 1 == k * count + (n + k - 1) % k,
            0 <= (n + k - 1) % k < k,
    ;
    assert(count * k >= n) by (nonlinear_arith)
        requires
            n + k - 1 == k * count + (n + k - 1) % k,
            0 <= (n + k - 1) % k < k,
    ;
    lemma_pages_prefix(s, page_size, filter, count as nat);
    assert(m.take(n) =~= m);
}

/// The contractor row that saving `c` under `id` inserts.
pub open spec fn stored(c: ContractorView, id: i64) -> StoredContractor {
    StoredContractor { id, fields: ContractorView { accounts: Seq::empty(), ..c } }
}

/// The account rows that saving account numbers `nums` under `id` inserts.
pub open spec fn account_rows(id: i64, nums: Seq<Seq<char>>) -> Seq<StoredAccount> {
    nums.map_values(|n: Seq<char>| StoredAccount { contractor_id: id, number: n })
}

/// The store with the contractor row of `c` under `id` and its first `k` account rows.
pub open spec fn saved_upto(s: StoreModel, c: ContractorView, id: i64, k: int) -> StoreModel {
    StoreModel {
        contractors: s.contractors.push(stored(c, id)),
        accounts: s.accounts + account_rows(id, c.accounts.take(k)),
    }
}

/// The store after a completed save of `c` under the generated identifier `id`.
pub open spec fn saved(s: StoreModel, c: ContractorView, id: i64) -> StoreModel {
    saved_upto(s, c, id, c.accounts.len() as int)
}

proof fn lemma_numbers_concat(a: Seq<StoredAccount>, b: Seq<StoredAccount>, id: i64)
    ensures
        numbers_for(a + b, id) == numbers_for(a, id) + numbers_for(b, id),
    decreases b.len(),
{
    if b.len() == 0 {
        assert(a + b =~= a);
        assert(numbers_for(a, id) + numbers_for(b, id) =~= numbers_for(a, id));
    } else {
        assert((a + b).drop_last() =~= a + b.drop_last());
        lemma_numbers_concat(a, b.drop_last(), id);
        assert(numbers_for(a + b, id) =~= numbers_for(a, id) + numbers_for(b, id));
    }
}

proof fn lemma_numbers_none(a: Seq<StoredAccount>, id: i64)
    requires
        forall|i: int| 0 <= i < a.len() ==> (#[trigger] a[i]).contractor_id != id,
    ensures
        numbers_for(a, id) == Seq::<Seq<char>>::empty(),
    decreases a.len(),
{
    if a.len() > 0 {
        lemma_numbers_none(a.drop_last(), id);
    }
}

proof fn lemma_numbers_own(id: i64, nums: Seq<Seq<char>>)
    ensures
        numbers_for(account_rows(id, nums), id) == nums,
    decreases nums.len(),
{
    if nums.len() == 0 {
        assert(numbers_for(account_rows(id, nums), id) =~= nums);
    } else {
        assert(account_rows(id, nums).drop_last() =~= account_rows(id, nums.drop_last()));
        lemma_numbers_own(id, nums.drop_last());
        assert(numbers_for(account_rows(id, nums), id) =~= nums);
    }
}

proof fn lemma_fresh_id_has_no_accounts(s: StoreModel, id: i64)
    requires
        s.wf(),
        forall|i: int| 0 <= i < s.contractors.len() ==> (#[trigger] s.contractors[i]).id < id,
    ensures
        numbers_for(s.accounts, id) == Seq::<Seq<char>>::empty(),
{
    assert forall|i: int| 0 <= i < s.accounts.len() implies (#[trigger] s.accounts[i]).contractor_id != id by {
        let j = choose|j: int| 0 <= j < s.contractors.len() && s.contractors[j].id == s.accounts[i].contractor_id;
        assert(s.contractors[j].id < id);
    }
    lemma_numbers_none(s.accounts, id);
}

/// Round trip: once `c` is saved under a freshly generated identifier (greater
/// than every identifier in the store), the store stays well formed and the
/// search page that holds the newest row returns `c` unchanged: every column,
/// and its account numbers in the order given.
pub proof fn lemma_save_then_search(s: StoreModel, c: ContractorView, id: i64, page_size: int)
    requires
        s.wf(),
        forall|i: int| 0 <= i < s.contractors.len() ==> (#[trigger] s.contractors[i]).id < id,
        s.contractors.len() < i64::MAX,
        1 <= page_size,
    ensures
        saved(s, c, id).wf(),
        ({
            let n = s.contractors.len() as int;
            let r = search_result(saved(s, c, id), n / page_size + 1, page_size, None);
            n % page_size < r.len() && r[n % page_size] == c
        }),
{
    let s2 = saved(s, c, id);
    let n = s.contractors.len() as int;
    let k = page_size;
    let new_row = stored(c, id);
    assert(c.accounts.take(c.accounts.len() as int) =~= c.accounts);
    assert(s2.contractors[n] == new_row);
    assert forall|a: int| 0 <= a < s2.accounts.len() implies exists|i: int|
        0 <= i < s2.contractors.len() && s2.contractors[i].id == (#[trigger] s2.accounts[a]).contractor_id by {
        if a < s.accounts.len() {
            assert(s2.accounts[a] == s.accounts[a]);
            let i = choose|i: int| 0 <= i < s.contractors.len() && s.contractors[i].id == s.accounts[a].contractor_id;
            assert(s2.contractors[i] == s.contractors[i]);
        } else {
            assert(s2.accounts[a].contractor_id == id);
        }
    }
    assert forall|i: int| 0 <= i < s2.contractors.len() implies (#[trigger] s2.contractors[i]).fields.accounts.len() == 0 by {
        if i < n {
            assert(s2.contractors[i] == s.contractors[i]);
        }
    }
    assert(s2.wf());

    // Where the new row falls.
    let q = n / k;
    lemma_fundamental_div_mod(n, k);
    lemma_mod_bound(n, k);
    assert(0 <= q * k <= n) by (nonlinear_arith)
        requires
            n == k * q + n % k,
            0 <= n % k < k,
            n >= 0,
    ;
    assert(page_start(q + 1, k) == q * k) by {
        if q == 0 {
            assert(q * k == 0) by (nonlinear_arith)
                requires
                    q == 0,
            ;
        }
    }
    let start = q * k;
    assert(clamp_i64(start) == start);
    lemma_search_page(s2, q + 1, k, None);
    lemma_matching(s2.contractors, None);
    let page = page_of(s2.contractors, start, clamp_i64(k));
    assert(n - start == n % k);
    if k > i64::MAX {
        // A page wider than the LIMIT can express starts at the first row.
        assert(q == 0) by (nonlinear_arith)
            requires
                n == k * q + n % k,
                0 <= n % k < k,
                n >= 0,
                n < i64::MAX,
                k > i64::MAX,
        ;
    }
    assert(start + clamp_i64(k) > n);
    assert(page[n - start] == new_row);

    // The new row's account numbers are exactly those of `c`.
    lemma_fresh_id_has_no_accounts(s, id);
    lemma_numbers_concat(s.accounts, account_rows(id, c.accounts), id);
    lemma_numbers_own(id, c.accounts);
    assert(s2.accounts == s.accounts + account_rows(id, c.accounts));
    assert(numbers_for(s2.accounts, id) =~= c.accounts);
    assert(aggregate(s2, new_row).accounts =~= c.accounts);
    assert(aggregate(s2, new_row) == c);
}

/// What the storage does on one answer during a save of `c`: `staged` is the
/// tables as the open transaction sees them, `store` the committed tables.
/// Beginning takes a view of the committed tables, each insert writes into
/// it, a commit makes it the committed tables, and a failure leaves the
/// committed tables as they are (the transaction is rolled back).
pub open spec fn apply_event(
    store: StoreModel,
    staged: StoreModel,
    phase: SavePhase,
    event: SaveEvent,
    c: ContractorView,
) -> (StoreModel, StoreModel) {
    match event {
        SaveEvent::Failed(_) => (store, staged),
        SaveEvent::Inserted(id) => (
            store,
            StoreModel { contractors: staged.contractors.push(stored(c, id)), accounts: staged.accounts },
        ),
        SaveEvent::Completed => match phase {
            SavePhase::AwaitingBegin => (store, store),
            SavePhase::AwaitingAccount { contractor_id, index } => (
                store,
                StoreModel {
                    contractors: staged.contractors,
                    accounts: staged.accounts.push(StoredAccount { contractor_id, number: c.accounts[index as int] }),
                },
            ),
            SavePhase::AwaitingCommit => (staged, staged),
            _ => (store, staged),
        },
    }
}

/// A save of `c` driven by the storage's answers `events`, one per action:
/// the committed tables at the end, and the save's outcome if it finished.
pub open spec fn run_save(
    store: StoreModel,
    staged: StoreModel,
    phase: SavePhase,
    c: ContractorView,
    events: Seq<SaveEvent>,
) -> (StoreModel, Option<Result<(), SaveError>>)
    decreases events.len(),
{
    if events.len() == 0 || !accepts(phase, events[0]) {
        (store, None)
    } else {
        let e = events[0];
        let (next_phase, action) = next_step(phase, e, c.accounts.len() as int);
        let (store2, staged2) = apply_event(store, staged, phase, e, c);
        match action {
            SaveAction::Finish(outcome) => (store2, Some(outcome)),
            _ => run_save(store2, staged2, next_phase, c, events.drop_first()),
        }
    }
}

spec fn save_inv(s: StoreModel, c: ContractorView, store: StoreModel, staged: StoreModel, phase: SavePhase) -> bool {
    &&& store == s
    &&& match phase {
        SavePhase::AwaitingContractor => staged == s,
        SavePhase::AwaitingAccount { contractor_id, index } => index < c.accounts.len()
            && staged == saved_upto(s, c, contractor_id, index as int),
        SavePhase::AwaitingCommit => exists|id: i64| staged == saved(s, c, id),
        _ => true,
    }
}

proof fn lemma_run_save(
    s: StoreModel,
    c: ContractorView,
    store: StoreModel,
    staged: StoreModel,
    phase: SavePhase,
    events: Seq<SaveEvent>,
)
    requires
        save_inv(s, c, store, staged, phase),
        c.accounts.len() <= usize::MAX,
    ensures
        ({
            let (fin, outcome) = run_save(store, staged, phase, c, events);
            &&& outcome matches Some(Ok(_)) ==> exists|id: i64| fin == saved(s, c, id)
            &&& !(outcome matches Some(Ok(_))) ==> fin == s
        }),
    decreases events.len(),
{
    if events.len() == 0 || !accepts(phase, events[0]) {
    } else {
        let e = events[0];
        let n = c.accounts.len() as int;
        let (next_phase, action) = next_step(phase, e, n);
        let (store2, staged2) = apply_event(store, staged, phase, e, c);
        match e {
            SaveEvent::Inserted(id) => {
                if n == 0 {
                    assert(c.accounts.take(0) =~= c.accounts);
                    assert(s.accounts + account_rows(id, c.accounts.take(0)) =~= s.accounts);
                    assert(staged2 == saved(s, c, id));
                    assert(exists|id2: i64| staged2 == saved(s, c, id2));
                } else {
                    assert(s.accounts + account_rows(id, c.accounts.take(0)) =~= s.accounts);
                    assert(staged2 == saved_upto(s, c, id, 0));
                }
            },
            SaveEvent::Completed => {
                match phase {
                    SavePhase::AwaitingAccount { contractor_id, index } => {
                        let i = index as int;
                        assert(account_rows(contractor_id, c.accounts.take(i + 1)) =~= account_rows(
                            contractor_id,
                            c.accounts.take(i),
                        ).push(StoredAccount { contractor_id, number: c.accounts[i] }));
                        assert(staged2.accounts =~= saved_upto(s, c, contractor_id, i + 1).accounts);
                        assert(staged2 == saved_upto(s, c, contractor_id, i + 1));
                        if i + 1 >= n {
                            assert(c.accounts.take(i + 1) =~= c.accounts);
                            assert(staged2 == saved(s, c, contractor_id));
                            assert(exists|id2: i64| staged2 == saved(s, c, id2));
                        }
                    },
                    _ => {},
                }
            },
            _ => {},
        }
        match action {
            SaveAction::Finish(_) => {},
            _ => {
                lemma_run_save(s, c, store2, staged2, next_phase, events.drop_first());
            },
        }
    }
}

/// Atomicity: whatever the storage answers, a save changes the committed
/// tables only by a successful commit, which comes after the contractor row
/// and every one of its account rows were written: a save that succeeds adds
/// exactly that contractor and its accounts, and one that fails at any stage,
/// or does not finish, leaves the tables as they were.
pub proof fn lemma_save_atomic(s: StoreModel, c: ContractorView, events: Seq<SaveEvent>)
    requires
        c.accounts.len() <= usize::MAX,
    ensures
        ({
            let (fin, outcome) = run_save(s, s, SavePhase::AwaitingConnection, c, events);
            &&& outcome matches Some(Ok(_)) ==> exists|id: i64| fin == saved(s, c, id)
            &&& !(outcome matches Some(Ok(_))) ==> fin == s
        }),
{
    lemma_run_save(s, c, s, s, SavePhase::AwaitingConnection, events);
}

/// `j` successful answers in a row.
pub open spec fn successes(j: nat) -> Seq<SaveEvent> {
    Seq::new(j, |i: int| SaveEvent::Completed)
}

/// Where a save stands once the contractor row is in and `i` of its `n`
/// account rows were written.
pub open spec fn after_accounts(id: i64, i: int, n: int) -> SavePhase {
    if i < n {
        SavePhase::AwaitingAccount { contractor_id: id, index: i as usize }
    } else {
        SavePhase::AwaitingCommit
    }
}

proof fn lemma_fail_after_accounts(
    store: StoreModel,
    staged: StoreModel,
    c: ContractorView,
    id: i64,
    i: int,
    j: nat,
    detail: String,
    rest: Seq<SaveEvent>,
)
    requires
        0 <= i,
        i + j <= c.accounts.len(),
        c.accounts.len() <= usize::MAX,
    ensures
        run_save(store, staged, after_accounts(id, i, c.accounts.len() as int), c, successes(j) + seq![SaveEvent::Failed(detail)] + rest)
            == (store, Some(Err::<(), SaveError>(SaveError {
                stage: if i + j < c.accounts.len() { SaveStage::AccountInsert } else { SaveStage::Commit },
                detail,
            }))),
    decreases j,
{
    let n = c.accounts.len() as int;
    let events = successes(j) + seq![SaveEvent::Failed(detail)] + rest;
    let phase = after_accounts(id, i, n);
    if j == 0 {
        assert(events[0] == SaveEvent::Failed(detail));
    } else {
        assert(events[0] == SaveEvent::Completed);
        assert(events.drop_first() =~= successes((j - 1) as nat) + seq![SaveEvent::Failed(detail)] + rest);
        assert(accepts(phase, events[0]));
        let (next_phase, action) = next_step(phase, events[0], n);
        assert(next_phase == after_accounts(id, i + 1, n));
        let (store2, staged2) = apply_event(store, staged, phase, events[0], c);
        assert(store2 == store);
        lemma_fail_after_accounts(store, staged2, c, id, i + 1, (j - 1) as nat, detail, rest);
    }
}

/// A save whose contractor row went in and whose storage then fails, at an
/// account row (after `j` of them were written) or at the commit (after all
/// of them), ends in an error naming that stage and leaves the committed
/// tables as they were.
pub proof fn lemma_failure_after_contractor_insert(
    s: StoreModel,
    c: ContractorView,
    id: i64,
    j: nat,
    detail: String,
    rest: Seq<SaveEvent>,
)
    requires
        j <= c.accounts.len(),
        c.accounts.len() <= usize::MAX,
    ensures
        run_save(
            s,
            s,
            SavePhase::AwaitingConnection,
            c,
            seq![SaveEvent::Completed, SaveEvent::Completed, SaveEvent::Inserted(id)] + successes(j)
                + seq![SaveEvent::Failed(detail)] + rest,
        ) == (s, Some(Err::<(), SaveError>(SaveError {
            stage: if j < c.accounts.len() { SaveStage::AccountInsert } else { SaveStage::Commit },
            detail,
        }))),
{
    let n = c.accounts.len() as int;
    let tail = successes(j) + seq![SaveEvent::Failed(detail)] + rest;
    let e0 = seq![SaveEvent::Completed, SaveEvent::Completed, SaveEvent::Inserted(id)] + successes(j)
        + seq![SaveEvent::Failed(detail)] + rest;
    let e1 = e0.drop_first();
    let e2 = e1.drop_first();
    let e3 = e2.drop_first();
    assert(e0[0] == SaveEvent::Completed);
    assert(e1[0] == SaveEvent::Completed);
    assert(e2[0] == SaveEvent::Inserted(id));
    assert(e3 =~= tail);
    let staged = StoreModel { contractors: s.contractors.push(stored(c, id)), accounts: s.accounts };
    assert(next_step(SavePhase::AwaitingContractor, SaveEvent::Inserted(id), n).0 == after_accounts(id, 0, n));
    lemma_fail_after_accounts(s, staged, c, id, 0, j, detail, rest);
    assert(run_save(s, s, SavePhase::AwaitingContractor, c, e2) == run_save(s, staged, after_accounts(id, 0, n), c, e3));
    assert(run_save(s, s, SavePhase::AwaitingBegin, c, e1) == run_save(s, s, SavePhase::AwaitingContractor, c, e2));
}

} // verus!
