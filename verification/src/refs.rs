//! Handles to the entities of a graph.
//!
//! A handle holds the identifier only: it is resolved through the graph on
//! each use, and may name an entity that has been deleted since. Each kind
//! is created by `new`, which registers the entity, and ended by `delete`,
//! which takes it out again; both go through the graph.

use vstd::prelude::*;
use crate::entities::{Address, Resources, Worker};
use crate::graph::{Graph, GraphError};
use crate::ids::{ClientId, SId, SessionId, WorkerId};
use crate::model::Change;

verus! {

/// Handle to a worker.
#[derive(Clone, Copy, PartialEq, Eq, Structural, Debug)]
pub struct WorkerRef {
    pub id: WorkerId,
}

/// Handle to a client.
#[derive(Clone, Copy, PartialEq, Eq, Structural, Debug)]
pub struct ClientRef {
    pub id: ClientId,
}

/// Handle to a session.
#[derive(Clone, Copy, PartialEq, Eq, Structural, Debug)]
pub struct SessionRef {
    pub id: SessionId,
}

/// Handle to a task.
#[derive(Clone, Copy, PartialEq, Eq, Structural, Debug)]
pub struct TaskRef {
    pub id: SId,
}

/// Handle to a data object.
#[derive(Clone, Copy, PartialEq, Eq, Structural, Debug)]
pub struct DataObjectRef {
    pub id: SId,
}

impl WorkerRef {
    /// Registers a worker; refused if the identifier is in use.
    pub fn new(graph: &mut Graph, id: WorkerId, address: Address, resources: Resources) -> (r:
        Result<WorkerRef, GraphError>)
        requires
            old(graph).wf(),
        ensures
            final(graph).wf(),
            final(graph)@ == old(graph)@.apply(
                Change::AddWorker((Worker { id, address, resources })),
            ),
            r == if old(graph)@.has_worker(id) {
                Err::<WorkerRef, GraphError>(GraphError::DuplicateId)
            } else {
                Ok::<WorkerRef, GraphError>((WorkerRef { id }))
            },
            final(graph)@.has_worker(id),
    {
        match graph.add_worker(id, address, resources) {
            Ok(()) => Ok(WorkerRef { id }),
            Err(e) => Err(e),
        }
    }

    /// The identifier that the handle holds.
    pub fn get_id(&self) -> (r: WorkerId)
        ensures
            r == self.id,
    {
        self.id
    }

    /// Deletes the worker; its tasks stay, unassigned.
    pub fn delete(self, graph: &mut Graph) -> (r: Result<(), GraphError>)
        requires
            old(graph).wf(),
        ensures
            final(graph).wf(),
            final(graph)@ == old(graph)@.apply(Change::DeleteWorker(self.id)),
            old(graph)@.has_worker(self.id) ==> r.is_ok(),
            !old(graph)@.has_worker(self.id) ==> r == Err::<(), GraphError>(GraphError::UnknownId),
            !final(graph)@.has_worker(self.id),
    {
        graph.delete_worker(self.id)
    }
}

impl ClientRef {
    /// Registers a client; refused if the identifier is in use.
    pub fn new(graph: &mut Graph, id: ClientId) -> (r: Result<ClientRef, GraphError>)
        requires
            old(graph).wf(),
        ensures
            final(graph).wf(),
            final(graph)@ == old(graph)@.apply(Change::AddClient(id)),
            r == if old(graph)@.has_client(id) {
                Err::<ClientRef, GraphError>(GraphError::DuplicateId)
            } else {
                Ok::<ClientRef, GraphError>((ClientRef { id }))
            },
            final(graph)@.has_client(id),
    {
        match graph.add_client(id) {
            Ok(()) => Ok(ClientRef { id }),
            Err(e) => Err(e),
        }
    }

    /// The identifier that the handle holds.
    pub fn get_id(&self) -> (r: ClientId)
        ensures
            r == self.id,
    {
        self.id
    }

    /// Deletes the client with its sessions and all that is under them.
    pub fn delete(self, graph: &mut Graph) -> (r: Result<(), GraphError>)
        requires
            old(graph).wf(),
        ensures
            final(graph).wf(),
            final(graph)@ == old(graph)@.apply(Change::DeleteClient(self.id)),
            old(graph)@.has_client(self.id) ==> r.is_ok(),
            !old(graph)@.has_client(self.id) ==> r == Err::<(), GraphError>(GraphError::UnknownId),
            !final(graph)@.has_client(self.id),
    {
        graph.delete_client(self.id)
    }
}

impl SessionRef {
    /// Opens a session under a client, with the next session identifier.
    pub fn new(graph: &mut Graph, client: &ClientRef) -> (r: Result<SessionRef, GraphError>)
        requires
            old(graph).wf(),
        ensures
            final(graph).wf(),
            final(graph)@ == old(graph)@.apply(Change::AddSession(client.id)),
            r == if !old(graph)@.has_client(client.id) {
                Err::<SessionRef, GraphError>(GraphError::UnknownId)
            } else if old(graph)@.counter == i32::MAX {
                Err::<SessionRef, GraphError>(GraphError::SessionIdsExhausted)
            } else {
                Ok::<SessionRef, GraphError>(
                    (SessionRef { id: (old(graph)@.counter + 1) as SessionId }),
                )
            },
            r.is_ok() ==> final(graph)@.has_session(r.unwrap().id),
    {
        match graph.add_session(client.id) {
            Ok(id) => Ok(SessionRef { id }),
            Err(e) => Err(e),
        }
    }

    /// The identifier that the handle holds.
    pub fn get_id(&self) -> (r: SessionId)
        ensures
            r == self.id,
    {
        self.id
    }

    /// Deletes the session with its tasks and data objects.
    pub fn delete(self, graph: &mut Graph) -> (r: Result<(), GraphError>)
        requires
            old(graph).wf(),
        ensures
            final(graph).wf(),
            final(graph)@ == old(graph)@.apply(Change::DeleteSession(self.id)),
            old(graph)@.has_session(self.id) ==> r.is_ok(),
            !old(graph)@.has_session(self.id) ==> r == Err::<(), GraphError>(GraphError::UnknownId),
    {
        graph.delete_session(self.id)
    }
}

impl TaskRef {
    /// Registers a task under a session. The identifier must name that
    /// session, be new, and every input and output must be registered.
    pub fn new(
        graph: &mut Graph,
        session: &SessionRef,
        id: SId,
        inputs: Vec<SId>,
        outputs: Vec<SId>,
        config: Vec<u8>,
    ) -> (r: Result<TaskRef, GraphError>)
        requires
            old(graph).wf(),
        ensures
            final(graph).wf(),
            id.session_id != session.id ==> r == Err::<TaskRef, GraphError>(GraphError::InvalidId)
                && final(graph)@ == old(graph)@,
            id.session_id == session.id ==> final(graph)@ == old(graph)@.apply(
                (Change::AddTask { id, inputs: inputs@, outputs: outputs@, config: config@ }),
            ) && r == if old(graph)@.has_task(id) {
                Err::<TaskRef, GraphError>(GraphError::DuplicateId)
            } else if old(graph)@.has_session(id.session_id) && old(graph)@.refs_resolve(inputs@)
                && old(graph)@.refs_resolve(outputs@) {
                Ok::<TaskRef, GraphError>((TaskRef { id }))
            } else {
                Err::<TaskRef, GraphError>(GraphError::UnknownId)
            },
            r.is_ok() ==> final(graph)@.has_task(id),
    {
        if id.session_id != session.id {
            return Err(GraphError::InvalidId);
        }
        match graph.add_task(id, inputs, outputs, config) {
            Ok(()) => Ok(TaskRef { id }),
            Err(e) => Err(e),
        }
    }

    /// The identifier that the handle holds.
    pub fn get_id(&self) -> (r: SId)
        ensures
            r == self.id,
    {
        self.id
    }

    /// Deletes the task; the objects it lists stay.
    pub fn delete(self, graph: &mut Graph) -> (r: Result<(), GraphError>)
        requires
            old(graph).wf(),
        ensures
            final(graph).wf(),
            final(graph)@ == old(graph)@.apply(Change::DeleteTask(self.id)),
            old(graph)@.has_task(self.id) ==> r.is_ok(),
            !old(graph)@.has_task(self.id) ==> r == Err::<(), GraphError>(GraphError::UnknownId),
    {
        graph.delete_task(self.id)
    }
}

impl DataObjectRef {
    /// Registers an unfinished data object under a session. The identifier
    /// must name that session and be new.
    pub fn new(graph: &mut Graph, session: &SessionRef, id: SId) -> (r: Result<
        DataObjectRef,
        GraphError,
    >)
        requires
            old(graph).wf(),
        ensures
            final(graph).wf(),
            id.session_id != session.id ==> r == Err::<DataObjectRef, GraphError>(
                GraphError::InvalidId,
            ) && final(graph)@ == old(graph)@,
            id.session_id == session.id ==> final(graph)@ == old(graph)@.apply(
                Change::AddObject(id),
            ) && r == if old(graph)@.has_object(id) {
                Err::<DataObjectRef, GraphError>(GraphError::DuplicateId)
            } else if old(graph)@.has_session(id.session_id) {
                Ok::<DataObjectRef, GraphError>((DataObjectRef { id }))
            } else {
                Err::<DataObjectRef, GraphError>(GraphError::UnknownId)
            },
            r.is_ok() ==> final(graph)@.has_object(id),
    {
        if id.session_id != session.id {
            return Err(GraphError::InvalidId);
        }
        match graph.add_object(id) {
            Ok(()) => Ok(DataObjectRef { id }),
            Err(e) => Err(e),
        }
    }

    /// The identifier that the handle holds.
    pub fn get_id(&self) -> (r: SId)
        ensures
            r == self.id,
    {
        self.id
    }

    /// Deletes the object and detaches it from every task that lists it.
    pub fn delete(self, graph: &mut Graph) -> (r: Result<(), GraphError>)
        requires
            old(graph).wf(),
        ensures
            final(graph).wf(),
            final(graph)@ == old(graph)@.apply(Change::DeleteObject(self.id)),
            old(graph)@.has_object(self.id) ==> r.is_ok(),
            !old(graph)@.has_object(self.id) ==> r == Err::<(), GraphError>(GraphError::UnknownId),
    {
        graph.delete_object(self.id)
    }
}

} // verus!
