//! Sort keys of catalog entries and a stable sort of positions by them.
use vstd::prelude::*;

use crate::catalog::MediaFile;
use crate::text::{
    lemma_lex_total, lemma_lex_transitive, lex_le, lex_le_exec, lower_of,
};

verus! {

/// The field a listing is ordered by.
#[derive(Debug, Clone, Copy, PartialEq, Eq)]
pub enum SortField {
    Name,
    Size,
    LastModified,
    Created,
}

impl SortField {
    pub fn is_name(&self) -> (r: bool)
        ensures
            r == (*self is Name),
    {
        matches!(self, SortField::Name)
    }

    pub fn is_size(&self) -> (r: bool)
        ensures
            r == (*self is Size),
    {
        matches!(self, SortField::Size)
    }

    pub fn is_last_modified(&self) -> (r: bool)
        ensures
            r == (*self is LastModified),
    {
        matches!(self, SortField::LastModified)
    }
}

impl Default for SortField {
    /// Newest first, by last modification.
    fn default() -> (r: SortField)
        ensures
            r is LastModified,
    {
        SortField::LastModified
    }
}

/// Absent timestamps first, then by time.
pub open spec fn opt_le(a: Option<i128>, b: Option<i128>) -> bool {
    match a {
        None => true,
        Some(x) => match b {
            None => false,
            Some(y) => x <= y,
        },
    }
}

/// `a` may come before `b` in the base order of `field`: by lowercase
/// name, by size, by creation time (absent first), or by modification time
/// newest first (absent last).
pub open spec fn key_le(field: SortField, a: MediaFile, b: MediaFile) -> bool {
    match field {
        SortField::Name => lex_le(lower_of(a.name@), lower_of(b.name@)),
        SortField::Size => a.size <= b.size,
        SortField::Created => opt_le(a.created, b.created),
        SortField::LastModified => opt_le(b.modified, a.modified),
    }
}

pub proof fn lemma_key_total(field: SortField, a: MediaFile, b: MediaFile)
    ensures
        key_le(field, a, b) || key_le(field, b, a),
{
    if field is Name {
        lemma_lex_total(lower_of(a.name@), lower_of(b.name@));
    }
}

pub proof fn lemma_key_transitive(field: SortField, a: MediaFile, b: MediaFile, c: MediaFile)
    requires
        key_le(field, a, b),
        key_le(field, b, c),
    ensures
        key_le(field, a, c),
{
    if field is Name {
        lemma_lex_transitive(lower_of(a.name@), lower_of(b.name@), lower_of(c.name@));
    }
}

/// Position `i` of `s` comes before position `j` in the stable order of
/// `field`: a smaller key, or an equal key and an earlier position.
pub open spec fn goes_before(field: SortField, s: Seq<MediaFile>, i: int, j: int) -> bool {
    &&& key_le(field, s[i], s[j])
    &&& (!key_le(field, s[j], s[i]) || i < j)
}

/// `order` lists the positions of `s` in the stable order of `field`.
pub open spec fn sorted_order(field: SortField, s: Seq<MediaFile>, order: Seq<int>) -> bool {
    &&& order.len() == s.len()
    &&& forall|k: int| 0 <= k < order.len() ==> 0 <= #[trigger] order[k] < s.len()
    &&& forall|k: int, l: int|
        0 <= k < l < order.len() ==> goes_before(field, s, #[trigger] order[k], #[trigger] order[l])
}

pub open spec fn positions(v: Seq<usize>) -> Seq<int> {
    v.map_values(|x: usize| x as int)
}

/// Whether `a` may come before `b` in the base order of `field`; `la`, `lb`
/// are their lowercase names.
fn key_le_exec(field: SortField, a: &MediaFile, b: &MediaFile, la: &Vec<char>, lb: &Vec<char>) -> (r: bool)
    requires
        la@ == lower_of(a.name@),
        lb@ == lower_of(b.name@),
    ensures
        r == key_le(field, *a, *b),
{
    match field {
        SortField::Name => lex_le_exec(la, lb),
        SortField::Size => a.size <= b.size,
        SortField::Created => match a.created {
            None => true,
            Some(x) => match b.created {
                None => false,
                Some(y) => x <= y,
            },
        },
        SortField::LastModified => match b.modified {
            None => true,
            Some(x) => match a.modified {
                None => false,
                Some(y) => x <= y,
            },
        },
    }
}

/// The positions of `s` in the stable order of `field`; `lowers` holds the
/// lowercase names of `s`.
pub fn sort_positions(field: SortField, s: &Vec<MediaFile>, lowers: &Vec<Vec<char>>) -> (r: Vec<usize>)
    requires
        lowers.len() == s.len(),
        forall|i: int| 0 <= i < s.len() ==> (#[trigger] lowers@[i])@ == lower_of(s@[i].name@),
    ensures
        sorted_order(field, s@, positions(r@)),
{
    let mut order: Vec<usize> = Vec::new();
    let mut i: usize = 0;
    while i < s.len()
        invariant
            i <= s.len(),
            lowers.len() == s.len(),
            forall|j: int| 0 <= j < s.len() ==> (#[trigger] lowers@[j])@ == lower_of(s@[j].name@),
            order.len() == i,
            forall|k: int| 0 <= k < order.len() ==> #[trigger] order@[k] < i,
            forall|k: int, l: int|
                0 <= k < l < order.len() ==> goes_before(
                    field,
                    s@,
                    #[trigger] order@[k] as int,
                    #[trigger] order@[l] as int,
                ),
        decreases s.len() - i,
    {
        let mut p: usize = 0;
        while p < order.len() && key_le_exec(
            field,
            &s[order[p]],
            &s[i],
            &lowers[order[p]],
            &lowers[i],
        )
            invariant
                i < s.len(),
                lowers.len() == s.len(),
                forall|j: int| 0 <= j < s.len() ==> (#[trigger] lowers@[j])@ == lower_of(s@[j].name@),
                order.len() == i,
                forall|k: int| 0 <= k < order.len() ==> #[trigger] order@[k] < i,
                p <= order.len(),
                forall|k: int| 0 <= k < p ==> key_le(field, s@[#[trigger] order@[k] as int], s@[i as int]),
            decreases order.len() - p,
        {
            p = p + 1;
        }
        let ghost old_order = order@;
        proof {
            assert forall|l: int| p <= l < old_order.len() implies !key_le(
                field,
                s@[#[trigger] old_order[l] as int],
                s@[i as int],
            ) by {
                if l > p {
                    assert(goes_before(field, s@, old_order[p as int] as int, old_order[l] as int));
                    if key_le(field, s@[old_order[l] as int], s@[i as int]) {
                        lemma_key_transitive(
                            field,
                            s@[old_order[p as int] as int],
                            s@[old_order[l] as int],
                            s@[i as int],
                        );
                    }
                }
            }
        }
        order.insert(p, i);
        proof {
            assert(order@ =~= old_order.subrange(0, p as int).push(i).add(
                old_order.subrange(p as int, old_order.len() as int),
            ));
            assert forall|k: int, l: int| 0 <= k < l < order.len() implies goes_before(
                field,
                s@,
                #[trigger] order@[k] as int,
                #[trigger] order@[l] as int,
            ) by {
                if k < p && l == p {
                } else if k == p {
                    let e = old_order[l - 1] as int;
                    lemma_key_total(field, s@[e], s@[i as int]);
                } else if k < p && l > p {
                    assert(order@[l] == old_order[l - 1]);
                } else if l < p {
                    assert(order@[k] == old_order[k]);
                    assert(order@[l] == old_order[l]);
                } else {
                    assert(order@[k] == old_order[k - 1]);
                    assert(order@[l] == old_order[l - 1]);
                }
            }
        }
        i = i + 1;
    }
    order
}

/// In the stable order by name, each entry's lowercase name is no later,
/// lexicographically, than the next one's.
pub proof fn lemma_name_order_ascending(s: Seq<MediaFile>, order: Seq<int>)
    requires
        sorted_order(SortField::Name, s, order),
    ensures
        forall|k: int|
            0 <= k < order.len() - 1 ==> lex_le(
                lower_of(s[#[trigger] order[k]].name@),
                lower_of(s[order[k + 1]].name@),
            ),
{
    assert forall|k: int| 0 <= k < order.len() - 1 implies lex_le(
        lower_of(s[#[trigger] order[k]].name@),
        lower_of(s[order[k + 1]].name@),
    ) by {
        assert(goes_before(SortField::Name, s, order[k], order[k + 1]));
    }
}

} // verus!
