//! Listing requests: filter an index snapshot by a query, order it, and
//! serve one page of it.
use vstd::prelude::*;

use vstd::arithmetic::div_mod::{lemma_fundamental_div_mod, lemma_mod_pos_bound};
use vstd::arithmetic::mul::lemma_mul_inequality;

use crate::catalog::MediaFile;
use crate::order::{sort_positions, sorted_order, positions, SortField};
use crate::text::{chars_of, contains_chars, has_substring, lower_of, lowercase};

verus! {

/// Whether the base order of the sort field is kept or reversed.
#[derive(Debug, Clone, Copy, PartialEq, Eq)]
pub enum SortDirection {
    Asc,
    Desc,
}

impl Default for SortDirection {
    fn default() -> (r: SortDirection)
        ensures
            r is Asc,
    {
        SortDirection::Asc
    }
}

/// One listing request.
#[derive(Debug, Clone)]
pub struct ListParams {
    /// The page asked for, counted from 1.
    pub page: u32,
    pub page_size: u32,
    pub sort: SortField,
    pub dir: SortDirection,
    /// Free text matched against names; empty keeps every entry.
    pub query: String,
}

/// The page served when none is asked for.
pub fn default_page() -> (r: u32)
    ensures
        r == 1,
{
    1
}

/// The page size used when none is asked for.
pub fn default_page_size() -> (r: u32)
    ensures
        r == 50,
{
    50
}

impl Default for ListParams {
    fn default() -> (r: ListParams)
        ensures
            r.page == 1,
            r.page_size == 50,
            r.sort is LastModified,
            r.dir is Asc,
            r.query@.len() == 0,
    {
        ListParams {
            page: default_page(),
            page_size: default_page_size(),
            sort: SortField::LastModified,
            dir: SortDirection::Asc,
            query: String::new(),
        }
    }
}

/// One page of a listing.
#[derive(Debug, Clone)]
pub struct PaginatedMedia {
    /// How many entries matched the query, over all pages.
    pub total: usize,
    pub total_pages: usize,
    /// The page served, counted from 1.
    pub page: usize,
    pub files: Vec<MediaFile>,
}

/// The entry's lowercase name contains the lowercase query, or the query
/// is empty.
pub open spec fn matches_query(f: MediaFile, q: Seq<char>) -> bool {
    q.len() == 0 || has_substring(lower_of(f.name@), lower_of(q))
}

/// The entries that match the query, in the order given.
pub open spec fn matching(all: Seq<MediaFile>, q: Seq<char>) -> Seq<MediaFile>
    decreases all.len(),
{
    if all.len() == 0 {
        seq![]
    } else if matches_query(all.last(), q) {
        matching(all.drop_last(), q).push(all.last())
    } else {
        matching(all.drop_last(), q)
    }
}

/// Every entry that `matching` keeps matches the query.
pub proof fn lemma_matching(all: Seq<MediaFile>, q: Seq<char>)
    ensures
        matching(all, q).len() <= all.len(),
        forall|i: int|
            0 <= i < matching(all, q).len() ==> matches_query(#[trigger] matching(all, q)[i], q),
    decreases all.len(),
{
    if all.len() > 0 {
        lemma_matching(all.drop_last(), q);
    }
}

/// The page size in force: the one asked for, and at least 1.
pub open spec fn effective_page_size(page_size: u32) -> nat {
    if page_size == 0 {
        1
    } else {
        page_size as nat
    }
}

/// How many pages `total` entries fill, at least one.
pub open spec fn page_count(total: nat, page_size: nat) -> nat
    recommends
        page_size >= 1,
{
    if total == 0 {
        1
    } else {
        ((total - 1) as nat / page_size) + 1
    }
}

/// The page asked for, clamped into `1..=pages`.
pub open spec fn clamped_page(page: u32, pages: nat) -> nat {
    if page < 1 {
        1
    } else if page > pages {
        pages
    } else {
        page as nat
    }
}

/// The entry at position `p` of the listing of `s` in stable order
/// `order`, reversed when `desc` holds.
pub open spec fn arranged_at(s: Seq<MediaFile>, order: Seq<int>, desc: bool, p: int) -> MediaFile {
    if desc {
        s[order[s.len() - 1 - p]]
    } else {
        s[order[p]]
    }
}

/// Position of the first entry of page `page`.
pub open spec fn page_start(page: nat, page_size: nat) -> int {
    (page - 1) * page_size
}

/// One past the position of the last entry of page `page`.
pub open spec fn page_end(page: nat, page_size: nat, total: nat) -> int {
    if page_start(page, page_size) + page_size <= total {
        page_start(page, page_size) + page_size
    } else {
        total as int
    }
}

/// The page count is the ceiling of `total / page_size`, and at least 1.
pub proof fn lemma_page_count_is_ceiling(total: nat, page_size: nat)
    requires
        page_size >= 1,
    ensures
        page_count(total, page_size) >= 1,
        total == 0 ==> page_count(total, page_size) == 1,
        total > 0 ==> (page_count(total, page_size) - 1) * page_size < total,
        total > 0 ==> total <= page_count(total, page_size) * page_size,
{
    if total > 0 {
        let t = (total - 1) as int;
        let d = page_size as int;
        lemma_fundamental_div_mod(t, d);
        lemma_mod_pos_bound(t, d);
        let q = t / d;
        assert(q >= 0) by (nonlinear_arith)
            requires
                t >= 0,
                d >= 1,
                q == t / d,
        ;
        assert((q + 1) * d == q * d + d) by (nonlinear_arith);
        assert(d * q == q * d) by (nonlinear_arith);
    }
}

/// Page `page` of `total` entries, clamped, starts inside them (or at 0
/// where there are none) and ends no later than the last of them.
proof fn lemma_page_bounds(total: nat, page_size: nat, page: nat)
    requires
        page_size >= 1,
        1 <= page <= page_count(total, page_size),
    ensures
        0 <= page_start(page, page_size),
        total == 0 ==> page_start(page, page_size) == 0,
        total > 0 ==> page_start(page, page_size) < total,
{
    lemma_page_count_is_ceiling(total, page_size);
    if total == 0 {
        assert(page == 1);
        assert((page - 1) * page_size == 0) by (nonlinear_arith)
            requires
                page == 1,
        ;
    }
    let pc = page_count(total, page_size) as int;
    lemma_mul_inequality(page - 1, pc - 1, page_size as int);
    assert(0 <= (page - 1) * page_size) by (nonlinear_arith)
        requires
            page >= 1,
            page_size >= 1,
    ;
}

/// The entries of `all_files` that match `query`, in order, with their
/// lowercase names.
fn matching_entries(all_files: &[MediaFile], query: &String) -> (r: (Vec<MediaFile>, Vec<Vec<char>>))
    ensures
        r.0@ == matching(all_files@, query@),
        r.1.len() == r.0.len(),
        forall|j: int| 0 <= j < r.0.len() ==> (#[trigger] r.1@[j])@ == lower_of(r.0@[j].name@),
{
    let ghost q = query@;
    let has_query = !query.as_str().is_empty();
    let query_chars: Vec<char> = if has_query {
        let lowered = lowercase(query.as_str());
        chars_of(lowered.as_str())
    } else {
        Vec::new()
    };
    let mut filtered: Vec<MediaFile> = Vec::new();
    let mut lowers: Vec<Vec<char>> = Vec::new();
    let mut i: usize = 0;
    while i < all_files.len()
        invariant
            i <= all_files.len(),
            q == query@,
            has_query == (q.len() > 0),
            has_query ==> query_chars@ == lower_of(q),
            filtered@ == matching(all_files@.subrange(0, i as int), q),
            lowers.len() == filtered.len(),
            forall|j: int|
                0 <= j < filtered.len() ==> (#[trigger] lowers@[j])@ == lower_of(
                    filtered@[j].name@,
                ),
        decreases all_files.len() - i,
    {
        let ghost prev = all_files@.subrange(0, i as int);
        let ghost next = all_files@.subrange(0, i + 1);
        assert(next.drop_last() =~= prev);
        assert(next.last() == all_files@[i as int]);
        let f = &all_files[i];
        let name_lower = lowercase(f.name.as_str());
        let name_chars = chars_of(name_lower.as_str());
        if !has_query || contains_chars(&name_chars, &query_chars) {
            filtered.push(f.duplicate());
            lowers.push(name_chars);
        }
        i = i + 1;
    }
    assert(all_files@.subrange(0, all_files.len() as int) =~= all_files@);
    (filtered, lowers)
}

/// Positions `start..end` of the listing of `listed` in stable order
/// `order`, reversed when `desc` holds.
fn take_page(
    listed: &Vec<MediaFile>,
    order: &Vec<usize>,
    desc: bool,
    start: usize,
    end: usize,
    Ghost(field): Ghost<SortField>,
) -> (r: Vec<MediaFile>)
    requires
        start <= end <= listed.len(),
        sorted_order(field, listed@, positions(order@)),
    ensures
        r.len() == end - start,
        forall|k: int|
            0 <= k < r.len() ==> r@[k] == arranged_at(listed@, positions(order@), desc, start + k),
{
    let ghost ord = positions(order@);
    let n = listed.len();
    let mut files: Vec<MediaFile> = Vec::new();
    let mut p: usize = start;
    while p < end
        invariant
            start <= p <= end <= n,
            n == listed.len(),
            sorted_order(field, listed@, ord),
            ord == positions(order@),
            files.len() == p - start,
            forall|k: int|
                0 <= k < files.len() ==> files@[k] == arranged_at(listed@, ord, desc, start + k),
        decreases end - p,
    {
        let at: usize = if desc {
            n - 1 - p
        } else {
            p
        };
        assert(0 <= ord[at as int] < n);
        let idx = order[at];
        files.push(listed[idx].duplicate());
        p = p + 1;
    }
    files
}

/// Filters `all_files` by `params.query`, orders the matches by
/// `params.sort` (stable; reversed for `Desc`), and serves the page asked
/// for, clamped into range.
pub fn list_media_files(all_files: &[MediaFile], params: &ListParams) -> (r: PaginatedMedia)
    ensures
        r.total == matching(all_files@, params.query@).len(),
        r.total_pages == page_count(r.total as nat, effective_page_size(params.page_size)),
        r.page == clamped_page(params.page, r.total_pages as nat),
        r.files.len() == page_end(
            r.page as nat,
            effective_page_size(params.page_size),
            r.total as nat,
        ) - page_start(r.page as nat, effective_page_size(params.page_size)),
        exists|order: Seq<int>|
            {
                &&& sorted_order(params.sort, matching(all_files@, params.query@), order)
                &&& forall|p: int|
                    0 <= p < r.files.len() ==> r.files[p] == arranged_at(
                        matching(all_files@, params.query@),
                        order,
                        params.dir is Desc,
                        page_start(r.page as nat, effective_page_size(params.page_size)) + p,
                    )
            },
        r.files.len() <= effective_page_size(params.page_size),
        1 <= r.page <= r.total_pages,
        params.query@.len() > 0 ==> forall|i: int|
            0 <= i < r.files.len() ==> has_substring(
                lower_of(#[trigger] r.files[i].name@),
                lower_of(params.query@),
            ),
{
    let ghost q = params.query@;
    let (filtered, lowers) = matching_entries(all_files, &params.query);
    let ghost listed = matching(all_files@, q);
    proof {
        lemma_matching(all_files@, q);
    }
    let order = sort_positions(params.sort, &filtered, &lowers);
    let n = filtered.len();
    let page_size: usize = if params.page_size == 0 {
        1
    } else {
        params.page_size as usize
    };
    let total_pages: usize = if n == 0 {
        1
    } else {
        (n - 1) / page_size + 1
    };
    let page: usize = if params.page < 1 {
        1
    } else if params.page as usize > total_pages {
        total_pages
    } else {
        params.page as usize
    };
    let ghost ps = effective_page_size(params.page_size);
    assert(page_size == ps);
    assert(total_pages == page_count(n as nat, ps));
    proof {
        lemma_page_bounds(n as nat, ps, page as nat);
    }
    let start: usize = (page - 1) * page_size;
    let end: usize = if n - start > page_size {
        start + page_size
    } else {
        n
    };
    assert(end == page_end(page as nat, ps, n as nat));
    let desc = matches!(params.dir, SortDirection::Desc);
    let files = take_page(&filtered, &order, desc, start, end, Ghost(params.sort));
    let ghost ord = positions(order@);
    proof {
        assert forall|k: int| 0 <= k < files.len() implies has_substring(
            lower_of(#[trigger] files@[k].name@),
            lower_of(q),
        ) || q.len() == 0 by {
            let pos = if desc { n - 1 - (start + k) } else { start + k };
            assert(0 <= ord[pos] < n);
            assert(matches_query(listed[ord[pos]], q));
        }
    }
    PaginatedMedia { total: n, total_pages, page, files }
}

} // verus!
