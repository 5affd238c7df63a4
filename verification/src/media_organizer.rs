//! The organizer: the engine that reconciles the catalog with what is found on
//! disk. Its operations are spread over the files of scanning, back-fill,
//! enrichment and relocation; this one holds the state they share.

use crate::catalog::{unique_ids, unique_paths, Catalog};
use crate::models::TrackRecord;
use vstd::prelude::*;

verus! {

/// The engine's state: the catalog it works on.
#[derive(Debug)]
pub struct MediaOrganizer {
    pub(crate) catalog: Catalog,
}

impl View for MediaOrganizer {
    type V = Seq<TrackRecord>;

    /// The rows of the catalog, in insertion order.
    open(crate) spec fn view(&self) -> Seq<TrackRecord> {
        self.catalog@
    }
}

impl MediaOrganizer {
    /// The catalog is keyed by path, and its ids are unique.
    pub open spec fn wf(&self) -> bool {
        unique_paths(self@) && unique_ids(self@)
    }

    /// An organizer over an empty catalog.
    pub fn new() -> (m: MediaOrganizer)
        ensures
            m.wf(),
            m@ == Seq::<TrackRecord>::empty(),
    {
        MediaOrganizer { catalog: Catalog::new() }
    }

    /// An organizer over a given catalog.
    pub fn with_catalog(catalog: Catalog) -> (m: MediaOrganizer)
        requires
            catalog.wf(),
        ensures
            m.wf(),
            m@ == catalog@,
    {
        MediaOrganizer { catalog }
    }

    /// The catalog as it stands.
    pub fn catalog(&self) -> (c: &Catalog)
        ensures
            c@ == self@,
            self.wf() ==> c.wf(),
    {
        &self.catalog
    }
}

} // verus!
