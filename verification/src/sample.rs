//! The raw observation record: one `LockSample` per lock seen at one scan
//! tick. Repeated observations of the same still-held lock share the
//! identity tuple `(pid, db, relation, started_at, query)`.

use vstd::prelude::*;

verus! {

/// One observation of a granted exclusive lock, taken at a scan tick.
///
/// `started_at` is the start of the lock-holding query, in milliseconds
/// relative to an epoch chosen by the caller; `age` is the elapsed time in
/// milliseconds between the scan instant and `started_at`. Timestamps and
/// durations are plain integers here: their textual forms are a concern of
/// the database driver, not of this data model.
pub struct LockSample {
    /// Lock mode observed (the engine filters to one exclusive mode).
    pub mode: String,
    /// Process id holding the lock.
    pub pid: i32,
    /// Database name.
    pub db: String,
    /// Locked relation name.
    pub relation: String,
    /// Session owner.
    pub username: String,
    /// Reporting application name of the session.
    pub application: String,
    /// Start of the lock-holding query, in milliseconds.
    pub started_at: i64,
    /// Elapsed milliseconds between the scan instant and `started_at`.
    pub age: u64,
    /// The SQL text the holder is executing.
    pub query: String,
}

/// Two samples observe the same lock episode exactly when they agree on the
/// identity tuple `(pid, db, relation, started_at, query)`. `age`, `mode`,
/// `username` and `application` are deliberately excluded: `mode` is
/// constant by construction and the others are descriptive, not identifying.
pub open spec fn same_identity(a: LockSample, b: LockSample) -> bool {
    &&& a.pid == b.pid
    &&& a.db@ == b.db@
    &&& a.relation@ == b.relation@
    &&& a.started_at == b.started_at
    &&& a.query@ == b.query@
}

impl Clone for LockSample {
    fn clone(&self) -> (r: Self)
        ensures
            r == *self,
    {
        LockSample {
            mode: self.mode.clone(),
            pid: self.pid,
            db: self.db.clone(),
            relation: self.relation.clone(),
            username: self.username.clone(),
            application: self.application.clone(),
            started_at: self.started_at,
            age: self.age,
            query: self.query.clone(),
        }
    }
}

} // verus!
