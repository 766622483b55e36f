//! The process-wide shared state handed to every request handler and to the
//! ingestion pipeline: the catalog and the ingestion-exclusivity flag.
//!
//! The database pool and the network listener live outside this crate; the
//! caller wraps this state for sharing. The exclusivity flag has
//! test-and-set semantics: acquisition reports whether it succeeded and
//! never blocks.

use vstd::prelude::*;
use crate::catalog::Catalog;
use crate::catalog::EntryModel;

verus! {

/// The shared handle bundle: the catalog store and the single-writer guard
/// that keeps at most one ingestion run active.
pub struct AppState {
    pub catalog: Catalog,
    pub ingestion_active: bool,
}

impl AppState {
    /// Whether an ingestion run currently holds exclusivity.
    pub open spec fn spec_ingestion_active(&self) -> bool {
        self.ingestion_active
    }

    /// The catalog's canonical paths are unique.
    pub open spec fn wf(&self) -> bool {
        self.catalog.wf()
    }

    /// Constructs the state once, after storage and schema are ready: an
    /// empty catalog and no active ingestion run.
    pub fn new() -> (r: AppState)
        ensures
            r.wf(),
            !r.spec_ingestion_active(),
            r.catalog@ =~= Seq::<EntryModel>::empty(),
    {
        AppState { catalog: Catalog::new(), ingestion_active: false }
    }

    /// Whether an ingestion run currently holds exclusivity.
    pub fn ingestion_active(&self) -> (r: bool)
        ensures
            r == self.spec_ingestion_active(),
    {
        self.ingestion_active
    }

    /// Test-and-set acquisition of ingestion exclusivity: succeeds exactly
    /// when no run was active, and the flag is set afterwards either way.
    /// Never blocks and never queues.
    pub fn try_begin_ingestion(&mut self) -> (r: bool)
        ensures
            r == !old(self).spec_ingestion_active(),
            final(self).spec_ingestion_active(),
            final(self).catalog == old(self).catalog,
    {
        let was_active = self.ingestion_active;
        self.ingestion_active = true;
        !was_active
    }

    /// Releases ingestion exclusivity.
    pub fn end_ingestion(&mut self)
        ensures
            !final(self).spec_ingestion_active(),
            final(self).catalog == old(self).catalog,
    {
        self.ingestion_active = false;
    }
}

} // verus!
