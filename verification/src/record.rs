//! The listing as records for programs.

use vstd::prelude::*;

use crate::listing::{EntryModel, ListEntry};
use crate::version_key::key_text;

verus! {

/// One record of the listing for programs: the key's text, and either the
/// path of an installed toolchain or the mark of an obtainable one.
#[derive(Debug)]
pub struct ListVersion {
    pub name: String,
    pub path: Option<String>,
    pub downloadable: Option<bool>,
}

/// The mathematical value of a [`ListVersion`].
pub struct RecordModel {
    pub name: Seq<char>,
    pub path: Option<Seq<char>>,
    pub downloadable: Option<bool>,
}

impl View for ListVersion {
    type V = RecordModel;

    open spec fn view(&self) -> RecordModel {
        RecordModel {
            name: self.name@,
            path: match self.path {
                Some(p) => Some(p@),
                None => None,
            },
            downloadable: self.downloadable,
        }
    }
}

/// The record of an entry: an installed entry has its path and no mark,
/// an obtainable one the mark `true` and no path.
pub open spec fn record_of(e: EntryModel) -> RecordModel {
    RecordModel {
        name: key_text(e.key),
        path: e.path,
        downloadable: if e.path is None {
            Some(true)
        } else {
            None
        },
    }
}

/// The record of one entry.
pub fn list_version(entry: &ListEntry) -> (r: ListVersion)
    ensures
        r@ == record_of(entry@),
        r.path is Some <==> r.downloadable is None,
{
    ListVersion {
        name: entry.key.to_string(),
        path: match &entry.path {
            Some(p) => Some(p.clone()),
            None => None,
        },
        downloadable: if entry.path.is_none() {
            Some(true)
        } else {
            None
        },
    }
}

/// The records of a listing, in its order.
pub fn list_versions(entries: &Vec<ListEntry>) -> (records: Vec<ListVersion>)
    ensures
        records.len() == entries.len(),
        forall|i: int| 0 <= i < entries.len() ==> (#[trigger] records[i])@ == record_of(entries[i]@),
{
    let mut records: Vec<ListVersion> = Vec::new();
    let mut i: usize = 0;
    while i < entries.len()
        invariant
            i <= entries.len(),
            records.len() == i,
            forall|j: int| 0 <= j < i ==> (#[trigger] records[j])@ == record_of(entries[j]@),
        decreases entries.len() - i,
    {
        records.push(list_version(&entries[i]));
        i += 1;
    }
    records
}

} // verus!
