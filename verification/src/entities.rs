//! The entities kept in the graph, and their mathematical views.

use vstd::prelude::*;
use crate::ids::{ClientId, SId, SessionId, WorkerId};

verus! {

/// Resources that a worker declares.
#[derive(Clone, Copy, PartialEq, Eq, Structural, Debug)]
pub struct Resources {
    pub n_cpus: u32,
}

/// A network address: an IPv4 host, as one number, and a port.
#[derive(Clone, Copy, PartialEq, Eq, Structural, Debug)]
pub struct Address {
    pub host: u32,
    pub port: u16,
}

/// A registered execution node.
#[derive(Clone, Copy, PartialEq, Eq, Structural, Debug)]
pub struct Worker {
    pub id: WorkerId,
    pub address: Address,
    pub resources: Resources,
}

/// What is known of a task's result.
#[derive(Clone, Copy, PartialEq, Eq, Structural, Debug)]
pub enum TaskStatus {
    /// The task has not run to an end yet.
    Pending,
    /// The task ran and produced its outputs.
    Succeeded,
    /// The task ran and failed.
    Failed,
}

/// A connected submitter. The sessions it owns are those that name it.
#[derive(Clone, Copy, PartialEq, Eq, Structural, Debug)]
pub struct Client {
    pub id: ClientId,
}

/// A group of tasks and data objects submitted by one client.
#[derive(Clone, Copy, PartialEq, Eq, Structural, Debug)]
pub struct Session {
    pub id: SessionId,
    pub client: ClientId,
}

/// The data behind a finished object.
#[derive(Clone, Debug)]
pub enum Payload {
    /// A file owned by the object, named by its path.
    File(String),
    /// Bytes held in memory.
    Memory(Vec<u8>),
}

/// What a payload holds, as plain sequences.
pub enum PayloadView {
    File(Seq<char>),
    Memory(Seq<u8>),
}

impl View for Payload {
    type V = PayloadView;

    open spec fn view(&self) -> PayloadView {
        match self {
            Payload::File(p) => PayloadView::File(p@),
            Payload::Memory(b) => PayloadView::Memory(b@),
        }
    }
}

/// A named unit of data; its payload is written at most once.
#[derive(Clone, Debug)]
pub struct DataObject {
    pub id: SId,
    pub payload: Option<Payload>,
}

/// A data object as plain values; `payload` is `None` while unfinished.
pub struct ObjectView {
    pub id: SId,
    pub payload: Option<PayloadView>,
}

impl View for DataObject {
    type V = ObjectView;

    open spec fn view(&self) -> ObjectView {
        ObjectView {
            id: self.id,
            payload: match self.payload {
                Some(p) => Some(p@),
                None => None,
            },
        }
    }
}

/// A unit of computation.
#[derive(Clone, Debug)]
pub struct Task {
    pub id: SId,
    /// One slot for each declared input; a slot is empty once the object
    /// it named was deleted.
    pub inputs: Vec<Option<SId>>,
    /// One slot for each declared output, as for the inputs.
    pub outputs: Vec<Option<SId>>,
    pub assigned: Option<WorkerId>,
    pub status: TaskStatus,
    pub config: Vec<u8>,
}

/// A task as plain values.
pub struct TaskView {
    pub id: SId,
    pub inputs: Seq<Option<SId>>,
    pub outputs: Seq<Option<SId>>,
    pub assigned: Option<WorkerId>,
    pub status: TaskStatus,
    pub config: Seq<u8>,
}

impl View for Task {
    type V = TaskView;

    open spec fn view(&self) -> TaskView {
        TaskView {
            id: self.id,
            inputs: self.inputs@,
            outputs: self.outputs@,
            assigned: self.assigned,
            status: self.status,
            config: self.config@,
        }
    }
}

/// A fresh vector with the same bytes.
pub fn copy_bytes(v: &Vec<u8>) -> (r: Vec<u8>)
    ensures
        r@ == v@,
{
    let mut r: Vec<u8> = Vec::new();
    let mut i: usize = 0;
    while i < v.len()
        invariant
            i <= v.len(),
            r@ == v@.take(i as int),
        decreases v.len() - i,
    {
        r.push(v[i]);
        proof {
            assert(v@.take(i + 1) =~= v@.take(i as int).push(v@[i as int]));
        }
        i += 1;
    }
    proof {
        assert(v@.take(v.len() as int) =~= v@);
    }
    r
}

/// A fresh vector with the same slots.
pub fn copy_refs(v: &Vec<Option<SId>>) -> (r: Vec<Option<SId>>)
    ensures
        r@ == v@,
{
    let mut r: Vec<Option<SId>> = Vec::new();
    let mut i: usize = 0;
    while i < v.len()
        invariant
            i <= v.len(),
            r@ == v@.take(i as int),
        decreases v.len() - i,
    {
        r.push(v[i]);
        proof {
            assert(v@.take(i + 1) =~= v@.take(i as int).push(v@[i as int]));
        }
        i += 1;
    }
    proof {
        assert(v@.take(v.len() as int) =~= v@);
    }
    r
}

impl Payload {
    /// A payload with the same contents.
    pub fn duplicate(&self) -> (r: Payload)
        ensures
            r@ == self@,
    {
        match self {
            Payload::File(p) => Payload::File(p.clone()),
            Payload::Memory(b) => Payload::Memory(copy_bytes(b)),
        }
    }
}

impl DataObject {
    /// An object with the same identifier and payload.
    pub fn duplicate(&self) -> (r: DataObject)
        ensures
            r@ == self@,
    {
        let payload = match &self.payload {
            Some(p) => Some(p.duplicate()),
            None => None,
        };
        DataObject { id: self.id, payload }
    }

    /// Whether the payload has been written.
    pub fn is_finished(&self) -> (r: bool)
        ensures
            r == self@.payload.is_some(),
    {
        self.payload.is_some()
    }
}

impl Task {
    /// A task with the same contents.
    pub fn duplicate(&self) -> (r: Task)
        ensures
            r@ == self@,
    {
        Task {
            id: self.id,
            inputs: copy_refs(&self.inputs),
            outputs: copy_refs(&self.outputs),
            assigned: self.assigned,
            status: self.status,
            config: copy_bytes(&self.config),
        }
    }
}

} // verus!
