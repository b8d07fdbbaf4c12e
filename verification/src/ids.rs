//! Identifiers of the entities kept in the graph.

use vstd::prelude::*;

verus! {

/// Identifier of a worker.
pub type WorkerId = u64;

/// Identifier of a client.
pub type ClientId = u64;

/// Identifier of a session; issued by the graph in increasing order.
pub type SessionId = i32;

/// A session-scoped identifier: the owning session and an index local to it.
#[derive(Clone, Copy, PartialEq, Eq, Structural, Debug, Hash)]
pub struct SId {
    pub session_id: SessionId,
    pub id: i32,
}

/// Identifier of a task.
pub type TaskId = SId;

/// Identifier of a data object.
pub type DataObjectId = SId;

impl SId {
    /// The identifier with local index `id` inside session `session_id`.
    pub fn new(session_id: SessionId, id: i32) -> (r: SId)
        ensures
            r.session_id == session_id,
            r.id == id,
    {
        SId { session_id, id }
    }

    /// The session that owns the identified entity.
    pub fn get_session_id(&self) -> (r: SessionId)
        ensures
            r == self.session_id,
    {
        self.session_id
    }

    /// The index local to the owning session.
    pub fn get_id(&self) -> (r: i32)
        ensures
            r == self.id,
    {
        self.id
    }
}

} // verus!
