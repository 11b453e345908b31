//! The cookie check in front of every request: when a cookie name and
//! value are set, a request passes only if it carries that cookie.
use vstd::prelude::*;

use crate::text::chars_of;

verus! {

/// The Unicode `White_Space` property, which `char::is_whitespace` tests.
pub open spec fn white_space(c: char) -> bool {
    let u = c as int;
    ||| 0x09 <= u <= 0x0d
    ||| u == 0x20
    ||| u == 0x85
    ||| u == 0xa0
    ||| u == 0x1680
    ||| 0x2000 <= u <= 0x200a
    ||| u == 0x2028
    ||| u == 0x2029
    ||| u == 0x202f
    ||| u == 0x205f
    ||| u == 0x3000
}

fn is_white_space(c: char) -> (r: bool)
    ensures
        r == white_space(c),
{
    let u = c as u32;
    assert(u == c as int);
    (0x09 <= u && u <= 0x0d) || u == 0x20 || u == 0x85 || u == 0xa0 || u == 0x1680 || (0x2000
        <= u && u <= 0x200a) || u == 0x2028 || u == 0x2029 || u == 0x202f || u == 0x205f || u
        == 0x3000
}

pub open spec fn trim_start(s: Seq<char>) -> Seq<char>
    decreases s.len(),
{
    if s.len() > 0 && white_space(s[0]) {
        trim_start(s.drop_first())
    } else {
        s
    }
}

pub open spec fn trim_end(s: Seq<char>) -> Seq<char>
    decreases s.len(),
{
    if s.len() > 0 && white_space(s.last()) {
        trim_end(s.drop_last())
    } else {
        s
    }
}

/// The text without leading and trailing white space.
pub open spec fn trim(s: Seq<char>) -> Seq<char> {
    trim_end(trim_start(s))
}

/// Splits `s` at each `c`; `cur` is the piece gathered so far.
pub open spec fn split_from(s: Seq<char>, c: char, cur: Seq<char>) -> Seq<Seq<char>>
    decreases s.len(),
{
    if s.len() == 0 {
        seq![cur]
    } else if s[0] == c {
        seq![cur] + split_from(s.drop_first(), c, seq![])
    } else {
        split_from(s.drop_first(), c, cur.push(s[0]))
    }
}

/// The pieces of `s` between occurrences of `c`.
pub open spec fn split_on(s: Seq<char>, c: char) -> Seq<Seq<char>> {
    split_from(s, c, seq![])
}

/// Index of the first `c` in `s`, or -1.
pub open spec fn first_index_of(s: Seq<char>, c: char) -> int
    decreases s.len(),
{
    if s.len() == 0 {
        -1
    } else if s[0] == c {
        0
    } else if first_index_of(s.drop_first(), c) < 0 {
        -1
    } else {
        first_index_of(s.drop_first(), c) + 1
    }
}

proof fn lemma_first_index(s: Seq<char>, c: char)
    ensures
        -1 <= first_index_of(s, c) < s.len(),
        first_index_of(s, c) >= 0 ==> s[first_index_of(s, c)] == c,
        forall|k: int|
            0 <= k < s.len() && (first_index_of(s, c) < 0 || k < first_index_of(s, c)) ==> s[k]
                != c,
    decreases s.len(),
{
    if s.len() > 0 && s[0] != c {
        let t = s.drop_first();
        lemma_first_index(t, c);
        assert forall|k: int|
            0 <= k < s.len() && (first_index_of(s, c) < 0 || k < first_index_of(s, c)) implies s[k]
                != c by {
            if k > 0 {
                assert(s[k] == t[k - 1]);
            }
        }
    }
}

/// The cookie `name=value`, split at its first `=`.
pub open spec fn is_cookie(piece: Seq<char>, name: Seq<char>, value: Seq<char>) -> bool {
    let d = first_index_of(piece, '=');
    &&& d >= 0
    &&& piece.subrange(0, d) == name
    &&& piece.subrange(d + 1, piece.len() as int) == value
}

/// The `Cookie` header carries `name=value` among its `;`-separated,
/// trimmed entries.
pub open spec fn carries_cookie(header: Seq<char>, name: Seq<char>, value: Seq<char>) -> bool {
    exists|i: int|
        0 <= i < split_on(header, ';').len() && is_cookie(
            trim(#[trigger] split_on(header, ';')[i]),
            name,
            value,
        )
}

/// A cookie is required: its name and value are both set, neither blank.
pub open spec fn cookie_required(name: Option<String>, value: Option<String>) -> bool {
    &&& name is Some
    &&& value is Some
    &&& trim(name->0@).len() > 0
    &&& trim(value->0@).len() > 0
}

/// Trims `h[lo..hi]`: the bounds of the part left.
fn trim_range(h: &Vec<char>, lo: usize, hi: usize) -> (r: (usize, usize))
    requires
        lo <= hi <= h.len(),
    ensures
        lo <= r.0 <= r.1 <= hi,
        h@.subrange(r.0 as int, r.1 as int) == trim(h@.subrange(lo as int, hi as int)),
{
    let mut a = lo;
    while a < hi && is_white_space(h[a])
        invariant
            lo <= a <= hi <= h.len(),
            trim_start(h@.subrange(lo as int, hi as int)) == trim_start(
                h@.subrange(a as int, hi as int),
            ),
        decreases hi - a,
    {
        assert(h@.subrange(a as int, hi as int).drop_first() =~= h@.subrange(a + 1, hi as int));
        a = a + 1;
    }
    assert(trim_start(h@.subrange(a as int, hi as int)) == h@.subrange(a as int, hi as int));
    let mut b = hi;
    while b > a && is_white_space(h[b - 1])
        invariant
            lo <= a <= b <= hi <= h.len(),
            trim_end(h@.subrange(a as int, hi as int)) == trim_end(
                h@.subrange(a as int, b as int),
            ),
        decreases b - a,
    {
        assert(h@.subrange(a as int, b as int).drop_last() =~= h@.subrange(a as int, b - 1));
        b = b - 1;
    }
    (a, b)
}

/// Whether `h[a..b]` equals `w`.
fn range_equals(h: &Vec<char>, a: usize, b: usize, w: &Vec<char>) -> (r: bool)
    requires
        a <= b <= h.len(),
    ensures
        r == (h@.subrange(a as int, b as int) == w@),
{
    if b - a != w.len() {
        return false;
    }
    let mut k: usize = 0;
    while k < w.len()
        invariant
            a <= b <= h.len(),
            b - a == w.len(),
            k <= w.len(),
            forall|j: int| 0 <= j < k ==> h@[a + j] == w@[j],
        decreases w.len() - k,
    {
        if h[a + k] != w[k] {
            assert(h@.subrange(a as int, b as int)[k as int] != w@[k as int]);
            return false;
        }
        k = k + 1;
    }
    assert(h@.subrange(a as int, b as int) =~= w@);
    true
}

/// Whether `h[a..b]` is the cookie `name=value`.
fn piece_is_cookie(h: &Vec<char>, a: usize, b: usize, name: &Vec<char>, value: &Vec<char>) -> (r:
    bool)
    requires
        a <= b <= h.len(),
    ensures
        r == is_cookie(h@.subrange(a as int, b as int), name@, value@),
{
    let ghost p = h@.subrange(a as int, b as int);
    proof {
        lemma_first_index(p, '=');
    }
    let mut d = a;
    while d < b && h[d] != '='
        invariant
            a <= d <= b <= h.len(),
            p == h@.subrange(a as int, b as int),
            forall|k: int| 0 <= k < d - a ==> p[k] != '=',
        decreases b - d,
    {
        d = d + 1;
    }
    if d == b {
        assert(first_index_of(p, '=') < 0);
        return false;
    }
    assert(p[d - a] == '=');
    let ghost fi = first_index_of(p, '=');
    assert(fi == d - a) by {
        if fi >= 0 && fi < d - a {
            assert(p[fi] != '=');
        }
    }
    assert(p.subrange(0, d - a) =~= h@.subrange(a as int, d as int));
    assert(p.subrange(d - a + 1, p.len() as int) =~= h@.subrange(d + 1, b as int));
    range_equals(h, a, d, name) && range_equals(h, d + 1, b, value)
}

/// Whether the `Cookie` header `header` carries `name=value`.
fn header_carries(header: &str, name: &str, value: &str) -> (r: bool)
    ensures
        r == carries_cookie(header@, name@, value@),
{
    let h = chars_of(header);
    let n = chars_of(name);
    let v = chars_of(value);
    let ghost all = split_on(header@, ';');
    let ghost mut done: Seq<Seq<char>> = seq![];
    let mut start: usize = 0;
    let mut i: usize = 0;
    assert(h@.subrange(0, 0) =~= Seq::<char>::empty());
    assert(h@.subrange(0, h.len() as int) =~= h@);
    while i < h.len()
        invariant
            h@ == header@,
            n@ == name@,
            v@ == value@,
            all == split_on(header@, ';'),
            start <= i <= h.len(),
            all == done + split_from(
                h@.subrange(i as int, h.len() as int),
                ';',
                h@.subrange(start as int, i as int),
            ),
            forall|k: int| 0 <= k < done.len() ==> !is_cookie(trim(#[trigger] done[k]), n@, v@),
        decreases h.len() - i,
    {
        let ghost rest = h@.subrange(i as int, h.len() as int);
        assert(rest.drop_first() =~= h@.subrange(i + 1, h.len() as int));
        if h[i] == ';' {
            let (a, b) = trim_range(&h, start, i);
            if piece_is_cookie(&h, a, b, &n, &v) {
                assert(all[done.len() as int] == h@.subrange(start as int, i as int));
                return true;
            }
            proof {
                let cur = h@.subrange(start as int, i as int);
                assert(all =~= done.push(cur) + split_from(
                    h@.subrange(i + 1, h.len() as int),
                    ';',
                    seq![],
                ));
                done = done.push(cur);
            }
            i = i + 1;
            start = i;
            assert(h@.subrange(start as int, i as int) =~= Seq::<char>::empty());
        } else {
            assert(h@.subrange(start as int, i as int).push(h@[i as int]) =~= h@.subrange(
                start as int,
                i + 1,
            ));
            i = i + 1;
        }
    }
    let (a, b) = trim_range(&h, start, i);
    assert(h@.subrange(i as int, h.len() as int) =~= Seq::<char>::empty());
    assert(all =~= done.push(h@.subrange(start as int, i as int)));
    let last = piece_is_cookie(&h, a, b, &n, &v);
    assert(last ==> carries_cookie(header@, name@, value@)) by {
        if last {
            assert(all[done.len() as int] == h@.subrange(start as int, i as int));
        }
    }
    assert(!last ==> !carries_cookie(header@, name@, value@)) by {
        if !last {
            assert forall|k: int| 0 <= k < all.len() implies !is_cookie(
                trim(#[trigger] all[k]),
                name@,
                value@,
            ) by {
                if k < done.len() {
                    assert(all[k] == done[k]);
                }
            }
        }
    }
    last
}

/// Whether the text is blank: nothing but white space.
fn is_blank(s: &str) -> (r: bool)
    ensures
        r == (trim(s@).len() == 0),
{
    let cs = chars_of(s);
    let (a, b) = trim_range(&cs, 0, cs.len());
    assert(cs@.subrange(0, cs.len() as int) =~= s@);
    a == b
}

/// Whether a request is let through: always where no cookie is required;
/// otherwise only where its `Cookie`
/// header carries `name=value` exactly.
pub fn request_allowed(
    cookie_name: &Option<String>,
    cookie_value: &Option<String>,
    cookie_header: &Option<String>,
) -> (r: bool)
    ensures
        r == (!cookie_required(*cookie_name, *cookie_value) || (cookie_header is Some && carries_cookie(
            cookie_header->0@,
            cookie_name->0@,
            cookie_value->0@,
        ))),
{
    match (cookie_name, cookie_value) {
        (Some(name), Some(value)) => {
            if is_blank(name.as_str()) || is_blank(value.as_str()) {
                return true;
            }
            match cookie_header {
                None => false,
                Some(header) => header_carries(header.as_str(), name.as_str(), value.as_str()),
            }
        },
        _ => true,
    }
}

} // verus!
