//! Resolving one untrusted file name to a catalog entry without leaving the
//! root directory.
//!
//! The filesystem work (canonicalizing the root and the requested path,
//! reading metadata) is done by the caller; the decisions are made here on
//! the canonical paths, given as their components.
use vstd::prelude::*;

use crate::text::chars_of;

use crate::catalog::{
    describes, has_separator, is_media_name, media_file_for, proper_components, texts,
    well_formed, EntryMetadata, MediaFile, all_proper,
};

verus! {

/// Why a request was turned down. Callers outside the library see only
/// that nothing was found.
#[derive(Debug, Clone, Copy, PartialEq, Eq)]
pub enum Rejection {
    /// The requested name is a path, not a single component.
    InvalidName,
    /// The path does not exist or its metadata cannot be read.
    DoesNotExist,
    /// The canonical path lies outside the root.
    Escaped,
    /// The path exists but is not a regular file.
    NotAFile,
    /// The file's extension is not on the allow-list.
    WrongExtension,
}

/// `p` is a leading part of `s`, component by component.
pub open spec fn is_prefix(p: Seq<Seq<char>>, s: Seq<Seq<char>>) -> bool {
    p.len() <= s.len() && s.subrange(0, p.len() as int) == p
}

/// What remains of `s` after its first `n` components.
pub open spec fn remainder(s: Seq<Seq<char>>, n: nat) -> Seq<Seq<char>> {
    s.subrange(n as int, s.len() as int)
}

/// The reason a request for `name` is turned down, given the canonical
/// root `base`, the canonical path `resolved` of `base` joined with `name`
/// and the metadata `meta` read there; `None` where it is served.
pub open spec fn rejection_of(
    name: Seq<char>,
    base: Seq<Seq<char>>,
    resolved: Option<Seq<Seq<char>>>,
    meta: Option<EntryMetadata>,
) -> Option<Rejection> {
    if name.contains('/') || name.contains('\\') {
        Some(Rejection::InvalidName)
    } else {
        match resolved {
            None => Some(Rejection::DoesNotExist),
            Some(res) => {
                let rest = remainder(res, base.len());
                if !is_prefix(base, res) || rest.len() == 0 || !proper_components(rest) {
                    Some(Rejection::Escaped)
                } else if meta is None {
                    Some(Rejection::DoesNotExist)
                } else if !meta->0.is_file {
                    Some(Rejection::NotAFile)
                } else if !is_media_name(rest.last()) {
                    Some(Rejection::WrongExtension)
                } else {
                    None
                }
            },
        }
    }
}

/// The texts of an optional list of strings.
pub open spec fn opt_texts(o: Option<Vec<String>>) -> Option<Seq<Seq<char>>> {
    match o {
        None => None,
        Some(v) => Some(texts(v@)),
    }
}

/// Whether `base` is a leading part of `s`.
fn starts_with(s: &Vec<String>, base: &Vec<String>) -> (r: bool)
    ensures
        r == is_prefix(texts(base@), texts(s@)),
{
    if base.len() > s.len() {
        return false;
    }
    let mut k: usize = 0;
    while k < base.len()
        invariant
            base.len() <= s.len(),
            k <= base.len(),
            forall|j: int| 0 <= j < k ==> s@[j]@ == base@[j]@,
        decreases base.len() - k,
    {
        if !same_text(&s[k], &base[k]) {
            assert(texts(s@).subrange(0, base.len() as int)[k as int] != texts(base@)[k as int]);
            return false;
        }
        k = k + 1;
    }
    assert(texts(s@).subrange(0, base.len() as int) =~= texts(base@));
    true
}

/// Whether two texts are equal.
fn same_text(a: &String, b: &String) -> (r: bool)
    ensures
        r == (a@ == b@),
{
    let x = chars_of(a.as_str());
    let y = chars_of(b.as_str());
    if x.len() != y.len() {
        return false;
    }
    let mut i: usize = 0;
    while i < x.len()
        invariant
            x@ == a@,
            y@ == b@,
            x.len() == y.len(),
            i <= x.len(),
            forall|j: int| 0 <= j < i ==> x@[j] == y@[j],
        decreases x.len() - i,
    {
        if x[i] != y[i] {
            assert(a@[i as int] != b@[i as int]);
            return false;
        }
        i = i + 1;
    }
    assert(x@ =~= y@);
    true
}

/// Components `from..` of `s`, copied.
fn tail_from(s: &Vec<String>, from: usize) -> (r: Vec<String>)
    requires
        from <= s.len(),
    ensures
        texts(r@) == remainder(texts(s@), from as nat),
{
    let mut r: Vec<String> = Vec::new();
    let mut i: usize = from;
    while i < s.len()
        invariant
            from <= i <= s.len(),
            texts(r@) == texts(s@).subrange(from as int, i as int),
        decreases s.len() - i,
    {
        let c = s[i].clone();
        assert(c@ == s@[i as int]@);
        let ghost r0 = r@;
        r.push(c);
        assert(r@ =~= r0.push(c));
        assert(texts(r@) =~= texts(r0).push(c@));
        assert(texts(r@) =~= texts(s@).subrange(from as int, i + 1));
        i = i + 1;
    }
    r
}

/// Decides on a request for `name`, given the canonical root `base`, the
/// canonical form of `base` joined with `name` (`None` where it does not
/// exist) and the metadata read there: the catalog entry of the file, or
/// the reason it is turned down.
pub fn classify_request(
    name: &str,
    base: &Vec<String>,
    resolved: &Option<Vec<String>>,
    meta: Option<EntryMetadata>,
) -> (r: Result<MediaFile, Rejection>)
    ensures
        match r {
            Ok(f) => {
                &&& rejection_of(name@, texts(base@), opt_texts(*resolved), meta) is None
                &&& describes(
                    f,
                    remainder(opt_texts(*resolved)->0, base.len() as nat),
                    meta->0,
                )
                &&& well_formed(f)
            },
            Err(e) => rejection_of(name@, texts(base@), opt_texts(*resolved), meta) == Some(e),
        },
{
    if has_separator(name) {
        return Err(Rejection::InvalidName);
    }
    match resolved {
        None => Err(Rejection::DoesNotExist),
        Some(res) => {
            if !starts_with(res, base) {
                return Err(Rejection::Escaped);
            }
            let rest = tail_from(res, base.len());
            if rest.len() == 0 || !all_proper(&rest) {
                return Err(Rejection::Escaped);
            }
            match meta {
                None => Err(Rejection::DoesNotExist),
                Some(m) => {
                    if !m.is_file {
                        return Err(Rejection::NotAFile);
                    }
                    match media_file_for(&rest, m) {
                        None => Err(Rejection::WrongExtension),
                        Some(f) => Ok(f),
                    }
                },
            }
        },
    }
}

/// Resolves the requested file name `name`, given the canonical root
/// `base`, the canonical form of `base` joined with `name` (`None` where
/// it does not exist), and the metadata read there. Every reason to turn
/// the request down gives the same `None`.
pub fn resolve_media_file(
    name: &str,
    base: &Vec<String>,
    resolved: &Option<Vec<String>>,
    meta: Option<EntryMetadata>,
) -> (r: Option<MediaFile>)
    ensures
        r is Some <==> rejection_of(name@, texts(base@), opt_texts(*resolved), meta) is None,
        name@.contains('/') || name@.contains('\\') ==> r is None,
        r is Some ==> describes(
            r->0,
            remainder(opt_texts(*resolved)->0, base.len() as nat),
            meta->0,
        ) && well_formed(r->0) && meta->0.is_file,
{
    match classify_request(name, base, resolved, meta) {
        Ok(f) => Some(f),
        Err(_) => None,
    }
}

/// A canonical path that does not lie under the canonical root is turned
/// down as an escape, whatever the metadata says.
pub proof fn lemma_outside_root_rejected(
    name: Seq<char>,
    base: Seq<Seq<char>>,
    resolved: Seq<Seq<char>>,
    meta: Option<EntryMetadata>,
)
    requires
        !name.contains('/'),
        !name.contains('\\'),
        !is_prefix(base, resolved),
    ensures
        rejection_of(name, base, Some(resolved), meta) == Some(Rejection::Escaped),
{
}

} // verus!
