//! The sample store: a table of raw lock observations, append-only during
//! scanning, read whole during reporting, and wiped by a destructive
//! install. This is the reference store of the engine; a deployment that
//! keeps the table in a relational database must behave the same way.

use crate::sample::LockSample;
use vstd::prelude::*;

verus! {

/// Errors a store operation can report.
#[derive(Debug)]
pub enum StoreError {
    /// The store schema has not been installed (or was torn down).
    NotInstalled,
    /// A failure of the backing storage engine, with its message.
    Backend(String),
}

/// The mathematical state of a store: whether the schema exists, and the
/// observations it holds, in insertion order.
pub struct StoreModel {
    pub installed: bool,
    pub rows: Seq<LockSample>,
}

/// What a (re)install leaves behind, whatever the store held before:
/// a schema that exists and is empty. Prior rows are destroyed by design,
/// so that monitoring sessions can be reset.
pub open spec fn install_model(m: StoreModel) -> StoreModel {
    StoreModel { installed: true, rows: Seq::<LockSample>::empty() }
}

/// Installing is idempotent: a second install leaves exactly the state the
/// first one left — a valid, empty store.
pub proof fn lemma_install_idempotent(m: StoreModel)
    ensures
        install_model(install_model(m)) == install_model(m),
{
}

/// The store state after appending each sample of `batch` in order to a
/// store in state `m`.
pub open spec fn after_appends(m: StoreModel, batch: Seq<LockSample>) -> StoreModel
    decreases batch.len(),
{
    if batch.len() == 0 {
        m
    } else {
        after_appends(
            StoreModel { installed: m.installed, rows: m.rows.push(batch[0]) },
            batch.skip(1),
        )
    }
}

/// Round trip: appending a batch to an installed store keeps it installed
/// and leaves exactly the prior rows followed by the batch — every sample,
/// with every field, preserved in order. On a freshly installed store the
/// rows read back are the batch itself.
pub proof fn lemma_append_round_trip(m: StoreModel, batch: Seq<LockSample>)
    ensures
        after_appends(m, batch).installed == m.installed,
        after_appends(m, batch).rows == m.rows + batch,
    decreases batch.len(),
{
    if batch.len() == 0 {
        assert(m.rows + batch =~= m.rows);
    } else {
        let stepped = StoreModel { installed: m.installed, rows: m.rows.push(batch[0]) };
        lemma_append_round_trip(stepped, batch.skip(1));
        assert(m.rows.push(batch[0]) + batch.skip(1) =~= m.rows + batch);
    }
}

/// An in-memory sample store. During scanning it only grows; reporting
/// reads it whole; install resets it.
pub struct SampleStore {
    installed: bool,
    rows: Vec<LockSample>,
}

impl View for SampleStore {
    type V = StoreModel;

    closed spec fn view(&self) -> StoreModel {
        StoreModel { installed: self.installed, rows: self.rows@ }
    }
}

impl SampleStore {
    /// A store whose schema has not been installed yet.
    pub fn new() -> (s: Self)
        ensures
            !s@.installed,
            s@.rows == Seq::<LockSample>::empty(),
    {
        SampleStore { installed: false, rows: Vec::new() }
    }

    /// Destroys whatever was there and creates the schema fresh. Destroying
    /// a store that was never installed is not an error.
    pub fn install(&mut self)
        ensures
            final(self)@ == install_model(old(self)@),
    {
        self.installed = true;
        self.rows = Vec::new();
        assert(self@.rows =~= Seq::<LockSample>::empty());
    }

    /// Appends one observation, returning the count of rows written.
    /// Samples are immutable once written and the store is append-only:
    /// nothing else ever changes a row.
    pub fn append(&mut self, sample: LockSample) -> (r: Result<u64, StoreError>)
        ensures
            old(self)@.installed ==> {
                &&& r matches Ok(n) && n == 1u64
                &&& final(self)@.installed
                &&& final(self)@.rows == old(self)@.rows.push(sample)
            },
            !old(self)@.installed ==> {
                &&& r matches Err(StoreError::NotInstalled)
                &&& final(self)@ == old(self)@
            },
    {
        if !self.installed {
            return Err(StoreError::NotInstalled);
        }
        self.rows.push(sample);
        Ok(1)
    }

    /// Reads every row, in insertion order.
    pub fn query_all(&self) -> (r: Result<&Vec<LockSample>, StoreError>)
        ensures
            self@.installed ==> (r matches Ok(rows) && rows@ == self@.rows),
            !self@.installed ==> r matches Err(StoreError::NotInstalled),
    {
        if !self.installed {
            return Err(StoreError::NotInstalled);
        }
        Ok(&self.rows)
    }
}

} // verus!
