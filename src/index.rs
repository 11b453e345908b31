//! Building the catalog from the entries of a directory walk.
use vstd::prelude::*;

use crate::catalog::{
    catalogable, describes, media_file_for, texts, well_formed, EntryMetadata, MediaFile,
};

verus! {

/// One entry met while walking the root directory.
#[derive(Debug, Clone)]
pub struct ScannedEntry {
    /// Path components relative to the root.
    pub relative: Vec<String>,
    /// What the filesystem reported, or `None` where it could not be read.
    pub metadata: Option<EntryMetadata>,
}

/// The entry belongs in the catalog.
pub open spec fn admitted(e: ScannedEntry) -> bool {
    &&& e.metadata is Some
    &&& catalogable(texts(e.relative@), e.metadata->0)
}

/// The entries that belong in the catalog, in walk order.
pub open spec fn admitted_entries(es: Seq<ScannedEntry>) -> Seq<ScannedEntry>
    decreases es.len(),
{
    if es.len() == 0 {
        seq![]
    } else if admitted(es.last()) {
        admitted_entries(es.drop_last()).push(es.last())
    } else {
        admitted_entries(es.drop_last())
    }
}

/// Every entry kept is one of the walk's entries and belongs in the catalog.
pub proof fn lemma_admitted_entries(es: Seq<ScannedEntry>)
    ensures
        admitted_entries(es).len() <= es.len(),
        forall|i: int|
            0 <= i < admitted_entries(es).len() ==> admitted(#[trigger] admitted_entries(es)[i]),
    decreases es.len(),
{
    if es.len() > 0 {
        lemma_admitted_entries(es.drop_last());
    }
}

/// The catalog of a walk: one entry for each regular file at a proper
/// relative path with an allowed extension and readable metadata, in walk
/// order. Entries whose metadata could not be read are skipped.
pub fn build_index(entries: &Vec<ScannedEntry>) -> (r: Vec<MediaFile>)
    ensures
        r.len() == admitted_entries(entries@).len(),
        forall|i: int|
            0 <= i < r.len() ==> {
                let e = #[trigger] admitted_entries(entries@)[i];
                describes(r[i], texts(e.relative@), e.metadata->0)
            },
        forall|i: int|
            0 <= i < r.len() ==> well_formed(#[trigger] r[i]) && admitted_entries(
                entries@,
            )[i].metadata->0.is_file,
{
    let mut r: Vec<MediaFile> = Vec::new();
    let mut i: usize = 0;
    while i < entries.len()
        invariant
            i <= entries.len(),
            r.len() == admitted_entries(entries@.subrange(0, i as int)).len(),
            forall|k: int|
                0 <= k < r.len() ==> {
                    let e = #[trigger] admitted_entries(entries@.subrange(0, i as int))[k];
                    describes(r[k], texts(e.relative@), e.metadata->0) && well_formed(r[k])
                },
        decreases entries.len() - i,
    {
        let ghost prev = entries@.subrange(0, i as int);
        let ghost next = entries@.subrange(0, i + 1);
        assert(next.drop_last() =~= prev);
        assert(next.last() == entries@[i as int]);
        let e = &entries[i];
        match e.metadata {
            None => {},
            Some(m) => {
                match media_file_for(&e.relative, m) {
                    None => {},
                    Some(f) => {
                        r.push(f);
                    },
                }
            },
        }
        i = i + 1;
    }
    assert(entries@.subrange(0, entries.len() as int) =~= entries@);
    proof {
        lemma_admitted_entries(entries@);
    }
    r
}

} // verus!
