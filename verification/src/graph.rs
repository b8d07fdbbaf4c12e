//! The coordinator's entity store: five tables keyed by identifier, with
//! creation, lookup and cascading deletion. Workers, clients and sessions
//! are held in hash maps under their integer identifiers; tasks and data
//! objects, whose identifiers are pairs, in vectors that hold no identifier
//! twice and keep the order of registration.

use vstd::prelude::*;
use vstd::std_specs::iter::IteratorSpec;
use std::collections::HashMap;
use crate::ids::{ClientId, SId, SessionId, WorkerId};
use crate::entities::{
    copy_bytes, Address, Client, DataObject, ObjectView, Payload, Resources, Session, Task, TaskStatus,
    TaskView, Worker,
};
use crate::laws::{law_client_deletion_cascades, law_worker_deletion_unassigns};
use crate::model::{
    assign_to, assigned_to, consumes, detach, finish_with, keep_object, clear_ref,
    keep_task, lemma_purged_wf, lemma_sessions_below_counter,
    lemma_with_assignment_wf, lemma_with_client_wf, lemma_with_next_id_wf, lemma_with_object_wf,
    lemma_with_payload_wf, lemma_with_session_wf, lemma_with_status_wf, lemma_with_task_wf,
    lemma_with_worker_wf, object_id_of, produces, record,
    some_ref, task_id_of, unassign, Change, GraphView, Removal,
};

verus! {

/// Why a graph operation was refused; the graph is then unchanged.
#[derive(Clone, Copy, PartialEq, Eq, Structural, Debug)]
pub enum GraphError {
    /// An entity with this identifier is already registered.
    DuplicateId,
    /// A named entity is not registered.
    UnknownId,
    /// The session counter cannot advance any further.
    SessionIdsExhausted,
    /// The object's payload was already written.
    AlreadyFinished,
    /// The identifier names another session than the one given as owner.
    InvalidId,
}

/// The views of a table of tasks.
pub open spec fn task_views(s: Seq<Task>) -> Seq<TaskView> {
    s.map_values(|t: Task| t@)
}

/// The views of a table of data objects.
pub open spec fn object_views(s: Seq<DataObject>) -> Seq<ObjectView> {
    s.map_values(|o: DataObject| o@)
}

/// The coordinator's aggregate of workers, clients, sessions, tasks and data
/// objects. It alone creates and deletes entities.
#[derive(Clone, Debug)]
pub struct Graph {
    workers: HashMap<WorkerId, Worker>,
    tasks: Vec<Task>,
    objects: Vec<DataObject>,
    sessions: HashMap<SessionId, Session>,
    clients: HashMap<ClientId, Client>,
    /// The last session identifier issued.
    session_id_counter: SessionId,
}

impl View for Graph {
    type V = GraphView;

    closed spec fn view(&self) -> GraphView {
        GraphView {
            workers: self.workers@,
            clients: self.clients@,
            sessions: self.sessions@,
            tasks: task_views(self.tasks@),
            objects: object_views(self.objects@),
            counter: self.session_id_counter as int,
        }
    }
}

impl Default for Graph {
    /// The empty graph.
    fn default() -> (g: Graph)
        ensures
            g.wf(),
            g@.workers == Map::<WorkerId, Worker>::empty(),
            g@.clients == Map::<ClientId, Client>::empty(),
            g@.sessions == Map::<SessionId, Session>::empty(),
            g@.tasks.len() == 0,
            g@.objects.len() == 0,
            g@.counter == 0,
    {
        Graph::new()
    }
}

impl Graph {
    /// Referential integrity of the stored tables.
    pub open spec fn wf(&self) -> bool {
        self@.wf()
    }

    /// The empty graph; no session identifier has been issued.
    pub fn new() -> (g: Graph)
        ensures
            g.wf(),
            g@.workers == Map::<WorkerId, Worker>::empty(),
            g@.clients == Map::<ClientId, Client>::empty(),
            g@.sessions == Map::<SessionId, Session>::empty(),
            g@.tasks.len() == 0,
            g@.objects.len() == 0,
            g@.counter == 0,
    {
        Graph {
            workers: HashMap::new(),
            tasks: Vec::new(),
            objects: Vec::new(),
            sessions: HashMap::new(),
            clients: HashMap::new(),
            session_id_counter: 0,
        }
    }

    /// The empty graph that goes on counting sessions after `last`, the last
    /// identifier issued before; none if `last` is negative, which no
    /// counter ever is.
    pub fn starting_after(last: SessionId) -> (r: Option<Graph>)
        ensures
            r.is_some() == (last >= 0),
            r.is_some() ==> {
                let g = r.unwrap();
                &&& g.wf()
                &&& g@.workers == Map::<WorkerId, Worker>::empty()
                &&& g@.clients == Map::<ClientId, Client>::empty()
                &&& g@.sessions == Map::<SessionId, Session>::empty()
                &&& g@.tasks.len() == 0
                &&& g@.objects.len() == 0
                &&& g@.counter == last
            },
    {
        if last < 0 {
            return None;
        }
        Some(
            Graph {
                workers: HashMap::new(),
                tasks: Vec::new(),
                objects: Vec::new(),
                sessions: HashMap::new(),
                clients: HashMap::new(),
                session_id_counter: last,
            },
        )
    }

    /// Whether the counter can still advance.
    pub fn can_issue_session_id(&self) -> (r: bool)
        ensures
            r == (self@.counter < i32::MAX),
    {
        self.session_id_counter < i32::MAX
    }

    /// Advances the session counter and returns its new value, which is
    /// larger than every identifier issued before.
    pub fn new_session_id(&mut self) -> (id: SessionId)
        requires
            old(self)@.counter < i32::MAX,
        ensures
            id == old(self)@.counter + 1,
            final(self)@ == old(self)@.with_next_id(),
            final(self)@ == old(self)@.apply(Change::IssueId),
            old(self).wf() ==> final(self).wf(),
    {
        proof {
            if self.wf() {
                lemma_with_next_id_wf(self@);
            }
        }
        self.session_id_counter += 1;
        self.session_id_counter
    }

    fn knows_worker(&self, id: WorkerId) -> (r: bool)
        ensures
            r == self@.has_worker(id),
    {
        broadcast use vstd::std_specs::hash::group_hash_axioms;
        self.workers.get(&id).is_some()
    }

    fn knows_client(&self, id: ClientId) -> (r: bool)
        ensures
            r == self@.has_client(id),
    {
        broadcast use vstd::std_specs::hash::group_hash_axioms;
        self.clients.get(&id).is_some()
    }

    fn knows_session(&self, id: SessionId) -> (r: bool)
        ensures
            r == self@.has_session(id),
    {
        broadcast use vstd::std_specs::hash::group_hash_axioms;
        self.sessions.get(&id).is_some()
    }

    fn find_task(&self, id: SId) -> (r: Option<usize>)
        ensures
            r.is_some() == self@.has_task(id),
            r.is_some() ==> r.unwrap() < self@.tasks.len() && self@.tasks[r.unwrap() as int].id
                == id,
    {
        let mut i: usize = 0;
        while i < self.tasks.len()
            invariant
                i <= self.tasks.len(),
                forall|j: int| 0 <= j < i ==> task_id_of()(#[trigger] self@.tasks[j]) != id,
            decreases self.tasks.len() - i,
        {
            if self.tasks[i].id == id {
                assert(task_id_of()(self@.tasks[i as int]) == id);
                return Some(i);
            }
            i += 1;
        }
        None
    }

    fn find_object(&self, id: SId) -> (r: Option<usize>)
        ensures
            r.is_some() == self@.has_object(id),
            r.is_some() ==> r.unwrap() < self@.objects.len()
                && self@.objects[r.unwrap() as int].id == id,
    {
        let mut i: usize = 0;
        while i < self.objects.len()
            invariant
                i <= self.objects.len(),
                forall|j: int| 0 <= j < i ==> object_id_of()(#[trigger] self@.objects[j]) != id,
            decreases self.objects.len() - i,
        {
            if self.objects[i].id == id {
                assert(object_id_of()(self@.objects[i as int]) == id);
                return Some(i);
            }
            i += 1;
        }
        None
    }
}

impl Graph {
    /// Registers a worker with its declared resources.
    pub fn add_worker(&mut self, id: WorkerId, address: Address, resources: Resources) -> (r: Result<
        (),
        GraphError,
    >)
        requires
            old(self).wf(),
        ensures
            final(self).wf(),
            final(self)@ == old(self)@.apply(Change::AddWorker((Worker { id, address, resources }))),
            old(self)@.has_worker(id) ==> r == Err::<(), GraphError>(GraphError::DuplicateId)
                && final(self)@ == old(self)@,
            !old(self)@.has_worker(id) ==> r.is_ok() && final(self)@ == old(self)@.with_worker(
                (Worker { id, address, resources }),
            ),
            final(self)@.has_worker(id),
            forall|x: WorkerId| old(self)@.has_worker(x) ==> final(self)@.has_worker(x),
    {
        broadcast use vstd::std_specs::hash::group_hash_axioms;
        if self.knows_worker(id) {
            return Err(GraphError::DuplicateId);
        }
        let w = Worker { id, address, resources };
        proof {
            lemma_with_worker_wf(self@, w);
        }
        self.workers.insert(id, w);
        Ok(())
    }

    /// Registers a client.
    pub fn add_client(&mut self, id: ClientId) -> (r: Result<(), GraphError>)
        requires
            old(self).wf(),
        ensures
            final(self).wf(),
            final(self)@ == old(self)@.apply(Change::AddClient(id)),
            old(self)@.has_client(id) ==> r == Err::<(), GraphError>(GraphError::DuplicateId)
                && final(self)@ == old(self)@,
            !old(self)@.has_client(id) ==> r.is_ok() && final(self)@ == old(self)@.with_client(id),
            final(self)@.has_client(id),
            forall|x: ClientId| old(self)@.has_client(x) ==> final(self)@.has_client(x),
    {
        broadcast use vstd::std_specs::hash::group_hash_axioms;
        if self.knows_client(id) {
            return Err(GraphError::DuplicateId);
        }
        proof {
            lemma_with_client_wf(self@, id);
        }
        self.clients.insert(id, Client { id });
        Ok(())
    }

    /// Opens a session for a registered client under the next session
    /// identifier, and returns that identifier.
    pub fn add_session(&mut self, client: ClientId) -> (r: Result<SessionId, GraphError>)
        requires
            old(self).wf(),
        ensures
            final(self).wf(),
            final(self)@ == old(self)@.apply(Change::AddSession(client)),
            !old(self)@.has_client(client) ==> r == Err::<SessionId, GraphError>(
                GraphError::UnknownId,
            ) && final(self)@ == old(self)@,
            old(self)@.has_client(client) && old(self)@.counter == i32::MAX ==> r == Err::<
                SessionId,
                GraphError,
            >(GraphError::SessionIdsExhausted) && final(self)@ == old(self)@,
            old(self)@.has_client(client) && old(self)@.counter < i32::MAX ==> r == Ok::<
                SessionId,
                GraphError,
            >((old(self)@.counter + 1) as i32) && !old(self)@.has_session(r.unwrap())
                && final(self)@ == old(self)@.with_next_id().with_session(
                (Session { id: r.unwrap(), client }),
            ),
            r.is_ok() ==> final(self)@.has_session(r.unwrap()),
            forall|x: SessionId| old(self)@.has_session(x) ==> final(self)@.has_session(x),
    {
        if !self.knows_client(client) {
            return Err(GraphError::UnknownId);
        }
        if !self.can_issue_session_id() {
            return Err(GraphError::SessionIdsExhausted);
        }
        let ghost before = self@;
        proof {
            lemma_sessions_below_counter(before);
        }
        let id = self.new_session_id();
        let s = Session { id, client };
        proof {
            let g = self@;
            assert(before.has_session(id) == g.has_session(id));
            lemma_with_session_wf(g, s);
            assert forall|x: SessionId| before.has_session(x) implies g.with_session(
                s,
            ).has_session(x) by {
                assert(g.has_session(x));
            }
        }
        self.sessions.insert(id, s);
        Ok(id)
    }

    /// Registers an unfinished data object under the session named in its
    /// identifier.
    pub fn add_object(&mut self, id: SId) -> (r: Result<(), GraphError>)
        requires
            old(self).wf(),
        ensures
            final(self).wf(),
            final(self)@ == old(self)@.apply(Change::AddObject(id)),
            old(self)@.has_object(id) ==> r == Err::<(), GraphError>(GraphError::DuplicateId)
                && final(self)@ == old(self)@,
            !old(self)@.has_object(id) && !old(self)@.has_session(id.session_id) ==> r == Err::<
                (),
                GraphError,
            >(GraphError::UnknownId) && final(self)@ == old(self)@,
            !old(self)@.has_object(id) && old(self)@.has_session(id.session_id) ==> r.is_ok()
                && final(self)@ == old(self)@.with_object((ObjectView { id, payload: None })),
            r.is_ok() ==> final(self)@.has_object(id),
            forall|x: SId| old(self)@.has_object(x) ==> final(self)@.has_object(x),
    {
        if self.find_object(id).is_some() {
            return Err(GraphError::DuplicateId);
        }
        if !self.knows_session(id.session_id) {
            return Err(GraphError::UnknownId);
        }
        let o = DataObject { id, payload: None };
        proof {
            lemma_with_object_wf(self@, o@);
            assert(object_views(self.objects@.push(o)) =~= self@.objects.push(o@));
        }
        self.objects.push(o);
        Ok(())
    }

    fn resolves(&self, refs: &Vec<SId>) -> (r: bool)
        ensures
            r == self@.refs_resolve(refs@),
    {
        let mut i: usize = 0;
        while i < refs.len()
            invariant
                i <= refs.len(),
                forall|k: int| 0 <= k < i ==> self@.has_object(#[trigger] refs@[k]),
            decreases refs.len() - i,
        {
            if self.find_object(refs[i]).is_none() {
                assert(!self@.has_object(refs@[i as int]));
                return false;
            }
            i += 1;
        }
        true
    }

    /// Registers an unassigned task under the session named in its
    /// identifier. Every input and output must name a registered object.
    pub fn add_task(
        &mut self,
        id: SId,
        inputs: Vec<SId>,
        outputs: Vec<SId>,
        config: Vec<u8>,
    ) -> (r: Result<(), GraphError>)
        requires
            old(self).wf(),
        ensures
            final(self).wf(),
            final(self)@ == old(self)@.apply((Change::AddTask { id, inputs: inputs@, outputs: outputs@, config: config@ })),
            old(self)@.has_task(id) ==> r == Err::<(), GraphError>(GraphError::DuplicateId)
                && final(self)@ == old(self)@,
            !old(self)@.has_task(id) && !(old(self)@.has_session(id.session_id)
                && old(self)@.refs_resolve(inputs@) && old(self)@.refs_resolve(outputs@)) ==> r
                == Err::<(), GraphError>(GraphError::UnknownId) && final(self)@ == old(self)@,
            !old(self)@.has_task(id) && old(self)@.has_session(id.session_id)
                && old(self)@.refs_resolve(inputs@) && old(self)@.refs_resolve(outputs@)
                ==> r.is_ok() && final(self)@ == old(self)@.with_task(
                (TaskView {
                    id,
                    inputs: inputs@.map_values(some_ref()),
                    outputs: outputs@.map_values(some_ref()),
                    assigned: None,
                    status: TaskStatus::Pending,
                    config: config@,
                }),
            ),
            r.is_ok() ==> final(self)@.has_task(id),
            forall|x: SId| old(self)@.has_task(x) ==> final(self)@.has_task(x),
    {
        if self.find_task(id).is_some() {
            return Err(GraphError::DuplicateId);
        }
        if !self.knows_session(id.session_id) {
            return Err(GraphError::UnknownId);
        }
        if !self.resolves(&inputs) {
            return Err(GraphError::UnknownId);
        }
        if !self.resolves(&outputs) {
            return Err(GraphError::UnknownId);
        }
        let t = Task {
            id,
            inputs: filled(&inputs),
            outputs: filled(&outputs),
            assigned: None,
            status: TaskStatus::Pending,
            config,
        };
        proof {
            lemma_with_task_wf(self@, t@);
            assert(task_views(self.tasks@.push(t)) =~= self@.tasks.push(t@));
        }
        self.tasks.push(t);
        Ok(())
    }

    /// Assigns a registered task to a registered worker, replacing any
    /// earlier assignment.
    pub fn assign_task(&mut self, task: SId, worker: WorkerId) -> (r: Result<(), GraphError>)
        requires
            old(self).wf(),
        ensures
            final(self).wf(),
            final(self)@ == old(self)@.apply(Change::Assign(task, worker)),
            !(old(self)@.has_task(task) && old(self)@.has_worker(worker)) ==> r == Err::<
                (),
                GraphError,
            >(GraphError::UnknownId) && final(self)@ == old(self)@,
            old(self)@.has_task(task) && old(self)@.has_worker(worker) ==> r.is_ok()
                && final(self)@ == old(self)@.with_assignment(task, worker),
    {
        let found = self.find_task(task);
        if found.is_none() || !self.knows_worker(worker) {
            return Err(GraphError::UnknownId);
        }
        let i: usize = found.unwrap();
        let mut t = self.tasks[i].duplicate();
        t.assigned = Some(worker);
        proof {
            let g = self@;
            lemma_with_assignment_wf(g, task, worker);
            assert(task_views(self.tasks@.update(i as int, t)) =~= g.tasks.map_values(
                assign_to(task, worker),
            )) by {
                assert forall|j: int| 0 <= j < g.tasks.len() && j != i implies task_id_of()(
                    #[trigger] g.tasks[j],
                ) != task by {
                    assert(task_id_of()(g.tasks[i as int]) == task);
                }
            }
        }
        self.tasks.set(i, t);
        Ok(())
    }

    /// Records the result of a registered task.
    pub fn set_task_status(&mut self, task: SId, status: TaskStatus) -> (r: Result<(), GraphError>)
        requires
            old(self).wf(),
        ensures
            final(self).wf(),
            final(self)@ == old(self)@.apply(Change::SetStatus(task, status)),
            !old(self)@.has_task(task) ==> r == Err::<(), GraphError>(GraphError::UnknownId)
                && final(self)@ == old(self)@,
            old(self)@.has_task(task) ==> r.is_ok() && final(self)@ == old(self)@.with_status(
                task,
                status,
            ),
    {
        let found = self.find_task(task);
        if found.is_none() {
            return Err(GraphError::UnknownId);
        }
        let i: usize = found.unwrap();
        let mut t = self.tasks[i].duplicate();
        t.status = status;
        proof {
            let g = self@;
            lemma_with_status_wf(g, task, status);
            assert(task_views(self.tasks@.update(i as int, t)) =~= g.tasks.map_values(
                record(task, status),
            )) by {
                assert forall|j: int| 0 <= j < g.tasks.len() && j != i implies task_id_of()(
                    #[trigger] g.tasks[j],
                ) != task by {
                    assert(task_id_of()(g.tasks[i as int]) == task);
                }
            }
        }
        self.tasks.set(i, t);
        Ok(())
    }

    /// Writes the payload of a registered, unfinished object. A finished
    /// object is never written again.
    pub fn finish_object(&mut self, id: SId, payload: Payload) -> (r: Result<(), GraphError>)
        requires
            old(self).wf(),
        ensures
            final(self).wf(),
            final(self)@ == old(self)@.apply(Change::Finish(id, payload@)),
            !old(self)@.has_object(id) ==> r == Err::<(), GraphError>(GraphError::UnknownId)
                && final(self)@ == old(self)@,
            old(self)@.is_finished(id) ==> r == Err::<(), GraphError>(
                GraphError::AlreadyFinished,
            ) && final(self)@ == old(self)@,
            old(self)@.has_object(id) && !old(self)@.is_finished(id) ==> r.is_ok()
                && final(self)@ == old(self)@.with_payload(id, payload@)
                && final(self)@.is_finished(id),
    {
        let found = self.find_object(id);
        if found.is_none() {
            assert(!self@.is_finished(id)) by {
                if self@.is_finished(id) {
                    let k = choose|k: int|
                        0 <= k < self@.objects.len() && (#[trigger] self@.objects[k]).id == id
                            && self@.objects[k].payload.is_some();
                    assert(object_id_of()(self@.objects[k]) == id);
                }
            }
            return Err(GraphError::UnknownId);
        }
        let i: usize = found.unwrap();
        proof {
            let g = self@;
            assert forall|j: int| 0 <= j < g.objects.len() && j != i implies object_id_of()(
                #[trigger] g.objects[j],
            ) != id by {
                assert(object_id_of()(g.objects[i as int]) == id);
            }
            assert(g.is_finished(id) == g.objects[i as int].payload.is_some()) by {
                if g.is_finished(id) {
                    let k = choose|k: int|
                        0 <= k < g.objects.len() && (#[trigger] g.objects[k]).id == id
                            && g.objects[k].payload.is_some();
                    assert(object_id_of()(g.objects[k]) == id);
                }
            }
        }
        if self.objects[i].is_finished() {
            return Err(GraphError::AlreadyFinished);
        }
        let o = DataObject { id, payload: Some(payload) };
        proof {
            let g = self@;
            lemma_with_payload_wf(g, id, payload@);
            assert(object_views(self.objects@.update(i as int, o)) =~= g.objects.map_values(
                finish_with(id, payload@),
            ));
            assert(g.with_payload(id, payload@).objects[i as int].payload.is_some());
        }
        self.objects.set(i, o);
        Ok(())
    }
}

fn in_list(v: &Vec<SessionId>, s: SessionId) -> (r: bool)
    ensures
        r == v@.contains(s),
{
    let mut i: usize = 0;
    while i < v.len()
        invariant
            i <= v.len(),
            forall|j: int| 0 <= j < i ==> v@[j] != s,
        decreases v.len() - i,
    {
        if v[i] == s {
            return true;
        }
        i += 1;
    }
    false
}

fn hit(sessions: &Vec<SessionId>, single: Option<SId>, x: SId) -> (r: bool)
    ensures
        r == (sessions@.contains(x.session_id) || single == Some(x)),
{
    if in_list(sessions, x.session_id) {
        return true;
    }
    match single {
        Some(y) => y == x,
        None => false,
    }
}

fn cleared_refs(
    refs: &Vec<Option<SId>>,
    sessions: &Vec<SessionId>,
    object: Option<SId>,
    Ghost(r): Ghost<Removal>,
) -> (out: Vec<Option<SId>>)
    requires
        r.sessions == sessions@.to_set(),
        r.object == object,
    ensures
        out@ == refs@.map_values(clear_ref(r)),
{
    let mut out: Vec<Option<SId>> = Vec::new();
    let mut i: usize = 0;
    while i < refs.len()
        invariant
            i <= refs.len(),
            r.sessions == sessions@.to_set(),
            r.object == object,
            out@ == refs@.take(i as int).map_values(clear_ref(r)),
        decreases refs.len() - i,
    {
        let x = match refs[i] {
            Some(o) => if hit(sessions, object, o) {
                None
            } else {
                Some(o)
            },
            None => None,
        };
        out.push(x);
        proof {
            assert(out@ =~= refs@.take(i + 1).map_values(clear_ref(r)));
        }
        i += 1;
    }
    proof {
        assert(refs@.take(refs.len() as int) =~= refs@);
    }
    out
}

/// One filled slot for each identifier.
fn filled(refs: &Vec<SId>) -> (out: Vec<Option<SId>>)
    ensures
        out@ == refs@.map_values(some_ref()),
{
    let mut out: Vec<Option<SId>> = Vec::new();
    let mut i: usize = 0;
    while i < refs.len()
        invariant
            i <= refs.len(),
            out@ == refs@.take(i as int).map_values(some_ref()),
        decreases refs.len() - i,
    {
        out.push(Some(refs[i]));
        proof {
            assert(out@ =~= refs@.take(i + 1).map_values(some_ref()));
        }
        i += 1;
    }
    proof {
        assert(refs@.take(refs.len() as int) =~= refs@);
    }
    out
}

impl Graph {
    /// Takes away what `sessions`, `task` and `object` name, and detaches the
    /// remaining tasks from the objects that left.
    fn purge(&mut self, sessions: &Vec<SessionId>, task: Option<SId>, object: Option<SId>)
        requires
            old(self).wf(),
        ensures
            final(self).wf(),
            final(self)@ == old(self)@.purged((Removal { sessions: sessions@.to_set(), task, object })),
    {
        let ghost r = Removal { sessions: sessions@.to_set(), task, object };
        let ghost g = self@;
        proof {
            reveal(Seq::filter);
            assert(g.tasks.take(0).filter(keep_task(r)) =~= Seq::<TaskView>::empty());
            assert(g.objects.take(0).filter(keep_object(r)) =~= Seq::<ObjectView>::empty());
        }
        let mut nt: Vec<Task> = Vec::new();
        let mut i: usize = 0;
        while i < self.tasks.len()
            invariant
                i <= self.tasks.len(),
                self@ == g,
                r == (Removal { sessions: sessions@.to_set(), task, object }),
                task_views(nt@) == g.tasks.take(i as int).filter(keep_task(r)).map_values(
                    detach(r),
                ),
            decreases self.tasks.len() - i,
        {
            let t = &self.tasks[i];
            proof {
                g.tasks.take(i as int).lemma_filter_push(t@, keep_task(r));
                assert(g.tasks.take(i + 1) =~= g.tasks.take(i as int).push(t@));
            }
            if !hit(sessions, task, t.id) {
                let d = Task {
                    id: t.id,
                    inputs: cleared_refs(&t.inputs, sessions, object, Ghost(r)),
                    outputs: cleared_refs(&t.outputs, sessions, object, Ghost(r)),
                    assigned: t.assigned,
                    status: t.status,
                    config: copy_bytes(&t.config),
                };
                proof {
                    let f = g.tasks.take(i as int).filter(keep_task(r));
                    assert(d@ == detach(r)(t@));
                    assert(task_views(nt@.push(d)) =~= task_views(nt@).push(d@));
                    assert(f.push(t@).map_values(detach(r)) =~= f.map_values(detach(r)).push(
                        detach(r)(t@),
                    ));
                }
                nt.push(d);
            }
            i += 1;
        }
        let mut no: Vec<DataObject> = Vec::new();
        let mut i: usize = 0;
        while i < self.objects.len()
            invariant
                i <= self.objects.len(),
                self@ == g,
                r == (Removal { sessions: sessions@.to_set(), task, object }),
                object_views(no@) == g.objects.take(i as int).filter(keep_object(r)),
            decreases self.objects.len() - i,
        {
            let o = &self.objects[i];
            proof {
                g.objects.take(i as int).lemma_filter_push(o@, keep_object(r));
                assert(g.objects.take(i + 1) =~= g.objects.take(i as int).push(o@));
            }
            if !hit(sessions, object, o.id) {
                let d = o.duplicate();
                proof {
                    assert(object_views(no@.push(d)) =~= object_views(no@).push(d@));
                }
                no.push(d);
            }
            i += 1;
        }
        proof {
            assert(g.tasks.take(g.tasks.len() as int) =~= g.tasks);
            assert(g.objects.take(g.objects.len() as int) =~= g.objects);
            lemma_purged_wf(g, r);
        }
        self.tasks = nt;
        self.objects = no;
        let ghost mid = self@;
        let mut i: usize = 0;
        while i < sessions.len()
            invariant
                i <= sessions.len(),
                self@.workers == mid.workers,
                self@.clients == mid.clients,
                self@.tasks == mid.tasks,
                self@.objects == mid.objects,
                self@.counter == mid.counter,
                self@.sessions == g.sessions.remove_keys(sessions@.take(i as int).to_set()),
            decreases sessions.len() - i,
        {
            let s = sessions[i];
            self.sessions.remove(&s);
            proof {
                assert(sessions@.take(i + 1) =~= sessions@.take(i as int).push(s));
                sessions@.take(i as int).lemma_push_to_set_commute(s);
                assert(self@.sessions =~= g.sessions.remove_keys(
                    sessions@.take(i + 1).to_set(),
                ));
            }
            i += 1;
        }
        proof {
            assert(sessions@.take(sessions.len() as int) =~= sessions@);
            assert(self@ == g.purged(r));
        }
    }

    /// Deletes a task. The objects it lists stay.
    pub fn delete_task(&mut self, id: SId) -> (r: Result<(), GraphError>)
        requires
            old(self).wf(),
        ensures
            final(self).wf(),
            final(self)@ == old(self)@.apply(Change::DeleteTask(id)),
            !old(self)@.has_task(id) ==> r == Err::<(), GraphError>(GraphError::UnknownId)
                && final(self)@ == old(self)@,
            old(self)@.has_task(id) ==> r.is_ok() && final(self)@ == old(self)@.purged(
                (Removal { sessions: Set::empty(), task: Some(id), object: None }),
            ),
    {
        if self.find_task(id).is_none() {
            return Err(GraphError::UnknownId);
        }
        let none: Vec<SessionId> = Vec::new();
        assert(none@.to_set() =~= Set::<SessionId>::empty());
        self.purge(&none, Some(id), None);
        Ok(())
    }

    /// Deletes a data object and empties every slot of a task's input and
    /// output lists that named it; the other slots keep their places.
    pub fn delete_object(&mut self, id: SId) -> (r: Result<(), GraphError>)
        requires
            old(self).wf(),
        ensures
            final(self).wf(),
            final(self)@ == old(self)@.apply(Change::DeleteObject(id)),
            !old(self)@.has_object(id) ==> r == Err::<(), GraphError>(GraphError::UnknownId)
                && final(self)@ == old(self)@,
            old(self)@.has_object(id) ==> r.is_ok() && final(self)@ == old(self)@.purged(
                (Removal { sessions: Set::empty(), task: None, object: Some(id) }),
            ),
    {
        if self.find_object(id).is_none() {
            return Err(GraphError::UnknownId);
        }
        let none: Vec<SessionId> = Vec::new();
        assert(none@.to_set() =~= Set::<SessionId>::empty());
        self.purge(&none, None, Some(id));
        Ok(())
    }

    /// Deletes a session together with every task and data object under it.
    pub fn delete_session(&mut self, id: SessionId) -> (r: Result<(), GraphError>)
        requires
            old(self).wf(),
        ensures
            final(self).wf(),
            final(self)@ == old(self)@.apply(Change::DeleteSession(id)),
            !old(self)@.has_session(id) ==> r == Err::<(), GraphError>(GraphError::UnknownId)
                && final(self)@ == old(self)@,
            old(self)@.has_session(id) ==> r.is_ok() && final(self)@ == old(self)@.purged(
                (Removal { sessions: set![id], task: None, object: None }),
            ),
    {
        if !self.knows_session(id) {
            return Err(GraphError::UnknownId);
        }
        let mut one: Vec<SessionId> = Vec::new();
        one.push(id);
        assert(one@ =~= seq![id]);
        assert(one@.to_set() =~= set![id]) by {
            assert(one@[0] == id);
        }
        self.purge(&one, None, None);
        Ok(())
    }

    /// The identifiers of the sessions that a client owns, each once, in
    /// no particular order.
    pub fn sessions_of(&self, client: ClientId) -> (r: Vec<SessionId>)
        ensures
            r@.to_set() == self@.sessions_of(client),
            r@.no_duplicates(),
    {
        broadcast use vstd::std_specs::hash::group_hash_axioms;
        let all = self.session_ids();
        let mut out: Vec<SessionId> = Vec::new();
        let mut i: usize = 0;
        while i < all.len()
            invariant
                i <= all.len(),
                all@.no_duplicates(),
                all@.to_set() == self@.sessions.dom(),
                out@.no_duplicates(),
                forall|x: SessionId|
                    out@.contains(x) <==> all@.take(i as int).contains(x) && self@.sessions_of(
                        client,
                    ).contains(x),
            decreases all.len() - i,
        {
            let k = all[i];
            let ghost before = out@;
            proof {
                assert(all@.contains(k));
                assert(all@.to_set().contains(k));
                assert(all@.take(i + 1) =~= all@.take(i as int).push(k));
                if all@.take(i as int).contains(k) {
                    let j = choose|j: int| 0 <= j < i && all@.take(i as int)[j] == k;
                    assert(all@[j] == all@[i as int]);
                }
            }
            let owned = match self.sessions.get(&k) {
                Some(s) => s.client == client,
                None => false,
            };
            if owned {
                out.push(k);
                proof {
                    assert(!before.contains(k));
                    assert forall|a: int, b: int|
                        0 <= a < out@.len() && 0 <= b < out@.len() && a != b implies out@[a]
                        != out@[b] by {
                        if a < before.len() {
                            assert(before.contains(before[a]));
                        }
                        if b < before.len() {
                            assert(before.contains(before[b]));
                        }
                    }
                    assert forall|x: SessionId|
                        out@.contains(x) <==> all@.take(i + 1).contains(x) && self@.sessions_of(
                            client,
                        ).contains(x) by {
                        if out@.contains(x) {
                            let q = choose|q: int| 0 <= q < out@.len() && out@[q] == x;
                            if q < before.len() {
                                assert(before[q] == x);
                                assert(before.contains(x));
                                let j = choose|j: int|
                                    0 <= j < i && all@.take(i as int)[j] == x;
                                assert(all@.take(i + 1)[j] == x);
                            } else {
                                assert(all@.take(i + 1)[i as int] == x);
                            }
                        }
                        if all@.take(i + 1).contains(x) && self@.sessions_of(client).contains(x) {
                            let j = choose|j: int| 0 <= j < i + 1 && (#[trigger] all@.take(i + 1)[j]) == x;
                            if j < i {
                                assert(all@.take(i as int)[j] == x);
                                assert(before.contains(x));
                                let q = choose|q: int| 0 <= q < before.len() && before[q] == x;
                                assert(out@[q] == x);
                            } else {
                                assert(out@[before.len() as int] == x);
                            }
                        }
                    }
                }
            } else {
                proof {
                    assert(!self@.sessions_of(client).contains(k));
                    assert forall|x: SessionId|
                        out@.contains(x) <==> all@.take(i + 1).contains(x) && self@.sessions_of(
                            client,
                        ).contains(x) by {
                        if out@.contains(x) {
                            let j = choose|j: int|
                                0 <= j < i && all@.take(i as int)[j] == x;
                            assert(all@.take(i + 1)[j] == x);
                        }
                        if all@.take(i + 1).contains(x) && self@.sessions_of(client).contains(x) {
                            let j = choose|j: int| 0 <= j < i + 1 && (#[trigger] all@.take(i + 1)[j]) == x;
                            assert(j < i);
                            assert(all@.take(i as int)[j] == x);
                        }
                    }
                }
            }
            i += 1;
        }
        proof {
            assert(all@.take(all.len() as int) =~= all@);
            assert forall|x: SessionId| out@.to_set().contains(x) == self@.sessions_of(
                client,
            ).contains(x) by {
                if self@.sessions_of(client).contains(x) {
                    assert(all@.to_set().contains(x));
                }
            }
            assert(out@.to_set() =~= self@.sessions_of(client));
        }
        out
    }

    /// The identifiers of the open sessions, each once, in no particular
    /// order.
    pub fn session_ids(&self) -> (r: Vec<SessionId>)
        ensures
            r@.to_set() == self@.sessions.dom(),
            r@.no_duplicates(),
    {
        broadcast use vstd::std_specs::hash::group_hash_axioms;
        let mut out: Vec<SessionId> = Vec::new();
        for k in it: self.sessions.keys()
            invariant
                out.len() == it.index(),
                forall|j: int| 0 <= j < out.len() ==> out@[j] == *it.seq()[j],
        {
            out.push(*k);
        }
        proof {
            let all = vstd::std_specs::hash::spec_keys_iter(&self.sessions).remaining().unref();
            assert(out@ =~= all);
        }
        out
    }

    /// Deletes a client together with its sessions and every task and data
    /// object under them. Workers and other clients stay as they are.
    pub fn delete_client(&mut self, id: ClientId) -> (r: Result<(), GraphError>)
        requires
            old(self).wf(),
        ensures
            final(self).wf(),
            final(self)@ == old(self)@.apply(Change::DeleteClient(id)),
            !old(self)@.has_client(id) ==> r == Err::<(), GraphError>(GraphError::UnknownId)
                && final(self)@ == old(self)@,
            old(self)@.has_client(id) ==> r.is_ok() && final(self)@ == old(self)@.without_client(
                id,
            ),
            !final(self)@.has_client(id),
            final(self)@.workers == old(self)@.workers,
            forall|x: ClientId| x != id ==> final(self)@.has_client(x) == old(self)@.has_client(x),
    {
        broadcast use vstd::std_specs::hash::group_hash_axioms;
        if !self.knows_client(id) {
            return Err(GraphError::UnknownId);
        }
        let ghost g = self@;
        let doomed = self.sessions_of(id);
        self.purge(&doomed, None, None);
        proof {
            law_client_deletion_cascades(g, id);
        }
        self.clients.remove(&id);
        Ok(())
    }

    /// Deletes a worker. The tasks assigned to it stay in the graph,
    /// unassigned.
    pub fn delete_worker(&mut self, id: WorkerId) -> (r: Result<(), GraphError>)
        requires
            old(self).wf(),
        ensures
            final(self).wf(),
            final(self)@ == old(self)@.apply(Change::DeleteWorker(id)),
            !old(self)@.has_worker(id) ==> r == Err::<(), GraphError>(GraphError::UnknownId)
                && final(self)@ == old(self)@,
            old(self)@.has_worker(id) ==> r.is_ok() && final(self)@ == old(self)@.without_worker(
                id,
            ),
            !final(self)@.has_worker(id),
            final(self)@.tasks.len() == old(self)@.tasks.len(),
            forall|t: SId| final(self)@.has_task(t) == old(self)@.has_task(t),
    {
        broadcast use vstd::std_specs::hash::group_hash_axioms;
        if !self.knows_worker(id) {
            return Err(GraphError::UnknownId);
        }
        let ghost g = self@;
        let mut nt: Vec<Task> = Vec::new();
        let mut i: usize = 0;
        while i < self.tasks.len()
            invariant
                i <= self.tasks.len(),
                self@ == g,
                task_views(nt@) == g.tasks.take(i as int).map_values(unassign(id)),
            decreases self.tasks.len() - i,
        {
            let mut d = self.tasks[i].duplicate();
            if d.assigned == Some(id) {
                d.assigned = None;
            }
            proof {
                assert(d@ == unassign(id)(g.tasks[i as int]));
                let t = g.tasks[i as int];
                let f = g.tasks.take(i as int);
                assert(task_views(nt@.push(d)) =~= task_views(nt@).push(d@));
                assert(g.tasks.take(i + 1) =~= f.push(t));
                assert(f.push(t).map_values(unassign(id)) =~= f.map_values(unassign(id)).push(
                    unassign(id)(t),
                ));
            }
            nt.push(d);
            i += 1;
        }
        proof {
            assert(g.tasks.take(g.tasks.len() as int) =~= g.tasks);
            law_worker_deletion_unassigns(g, id);
        }
        self.workers.remove(&id);
        self.tasks = nt;
        Ok(())
    }
}

impl Graph {
    /// The number of registered workers.
    pub fn n_workers(&self) -> (r: usize)
        ensures
            r == self@.workers.len(),
    {
        broadcast use vstd::std_specs::hash::group_hash_axioms;
        self.workers.len()
    }

    /// The number of registered clients.
    pub fn n_clients(&self) -> (r: usize)
        ensures
            r == self@.clients.len(),
    {
        broadcast use vstd::std_specs::hash::group_hash_axioms;
        self.clients.len()
    }

    /// The number of open sessions.
    pub fn n_sessions(&self) -> (r: usize)
        ensures
            r == self@.sessions.len(),
    {
        broadcast use vstd::std_specs::hash::group_hash_axioms;
        self.sessions.len()
    }

    /// The number of registered tasks.
    pub fn n_tasks(&self) -> (r: usize)
        ensures
            r == self@.tasks.len(),
    {
        self.tasks.len()
    }

    /// The number of registered data objects.
    pub fn n_objects(&self) -> (r: usize)
        ensures
            r == self@.objects.len(),
    {
        self.objects.len()
    }

    /// The last session identifier issued; zero if none was.
    pub fn session_counter(&self) -> (r: SessionId)
        ensures
            r == self@.counter,
    {
        self.session_id_counter
    }

    /// The worker with this identifier, if it is registered.
    pub fn get_worker(&self, id: WorkerId) -> (r: Option<Worker>)
        ensures
            r == if self@.has_worker(id) {
                Some(self@.workers[id])
            } else {
                None::<Worker>
            },
    {
        broadcast use vstd::std_specs::hash::group_hash_axioms;
        match self.workers.get(&id) {
            Some(w) => Some(*w),
            None => None,
        }
    }

    /// Whether the client is registered.
    pub fn has_client(&self, id: ClientId) -> (r: bool)
        ensures
            r == self@.has_client(id),
    {
        self.knows_client(id)
    }

    /// The session with this identifier, if it is open.
    pub fn get_session(&self, id: SessionId) -> (r: Option<Session>)
        ensures
            r == if self@.has_session(id) {
                Some(self@.sessions[id])
            } else {
                None::<Session>
            },
    {
        broadcast use vstd::std_specs::hash::group_hash_axioms;
        match self.sessions.get(&id) {
            Some(s) => Some(*s),
            None => None,
        }
    }

    /// The task with this identifier, if it is registered.
    pub fn get_task(&self, id: SId) -> (r: Option<&Task>)
        ensures
            r.is_some() == self@.has_task(id),
            r.is_some() ==> r.unwrap()@.id == id && self@.tasks.contains(r.unwrap()@),
    {
        match self.find_task(id) {
            Some(i) => {
                assert(self@.tasks[i as int] == self.tasks@[i as int]@);
                Some(&self.tasks[i])
            },
            None => None,
        }
    }

    /// The data object with this identifier, if it is registered.
    pub fn get_object(&self, id: SId) -> (r: Option<&DataObject>)
        ensures
            r.is_some() == self@.has_object(id),
            r.is_some() ==> r.unwrap()@.id == id && self@.objects.contains(r.unwrap()@),
    {
        match self.find_object(id) {
            Some(i) => {
                assert(self@.objects[i as int] == self.objects@[i as int]@);
                Some(&self.objects[i])
            },
            None => None,
        }
    }

    /// The identifiers of the registered clients, each once, in no
    /// particular order.
    pub fn client_ids(&self) -> (r: Vec<ClientId>)
        ensures
            r@.to_set() == self@.clients.dom(),
            r@.no_duplicates(),
    {
        broadcast use vstd::std_specs::hash::group_hash_axioms;
        let mut out: Vec<ClientId> = Vec::new();
        for k in it: self.clients.keys()
            invariant
                out.len() == it.index(),
                forall|j: int| 0 <= j < out.len() ==> out@[j] == *it.seq()[j],
        {
            out.push(*k);
        }
        proof {
            let all = vstd::std_specs::hash::spec_keys_iter(&self.clients).remaining().unref();
            assert(out@ =~= all);
        }
        out
    }

    /// The identifiers of the registered workers, each once, in no
    /// particular order.
    pub fn worker_ids(&self) -> (r: Vec<WorkerId>)
        ensures
            r@.to_set() == self@.workers.dom(),
            r@.no_duplicates(),
    {
        broadcast use vstd::std_specs::hash::group_hash_axioms;
        let mut out: Vec<WorkerId> = Vec::new();
        for k in it: self.workers.keys()
            invariant
                out.len() == it.index(),
                forall|j: int| 0 <= j < out.len() ==> out@[j] == *it.seq()[j],
        {
            out.push(*k);
        }
        proof {
            let all = vstd::std_specs::hash::spec_keys_iter(&self.workers).remaining().unref();
            assert(out@ =~= all);
        }
        out
    }

    /// The identifiers of the tasks assigned to a worker, oldest first.
    pub fn tasks_of(&self, worker: WorkerId) -> (r: Vec<SId>)
        ensures
            r@ == self@.tasks_of(worker),
    {
        let ghost g = self@;
        let mut out: Vec<SId> = Vec::new();
        let mut i: usize = 0;
        proof {
            reveal(Seq::filter);
            assert(g.tasks.take(0).filter(assigned_to(worker)) =~= Seq::<TaskView>::empty());
        }
        while i < self.tasks.len()
            invariant
                i <= self.tasks.len(),
                self@ == g,
                out@ == g.tasks.take(i as int).filter(assigned_to(worker)).map_values(
                    task_id_of(),
                ),
            decreases self.tasks.len() - i,
        {
            let t = &self.tasks[i];
            proof {
                let f = g.tasks.take(i as int).filter(assigned_to(worker));
                g.tasks.take(i as int).lemma_filter_push(t@, assigned_to(worker));
                assert(g.tasks.take(i + 1) =~= g.tasks.take(i as int).push(t@));
                assert(f.push(t@).map_values(task_id_of()) =~= f.map_values(task_id_of()).push(
                    t.id,
                ));
            }
            if t.assigned == Some(worker) {
                out.push(t.id);
            }
            i += 1;
        }
        proof {
            assert(g.tasks.take(g.tasks.len() as int) =~= g.tasks);
        }
        out
    }
}

fn lists(refs: &Vec<Option<SId>>, o: SId) -> (r: bool)
    ensures
        r == refs@.contains(Some(o)),
{
    let mut i: usize = 0;
    while i < refs.len()
        invariant
            i <= refs.len(),
            forall|j: int| 0 <= j < i ==> refs@[j] != Some(o),
        decreases refs.len() - i,
    {
        let here = match refs[i] {
            Some(x) => x == o,
            None => false,
        };
        if here {
            return true;
        }
        i += 1;
    }
    false
}

impl Graph {
    /// The identifiers of the tasks that read an object, oldest first.
    pub fn consumers_of(&self, object: SId) -> (r: Vec<SId>)
        ensures
            r@ == self@.consumers_of(object),
    {
        let ghost g = self@;
        let mut out: Vec<SId> = Vec::new();
        let mut i: usize = 0;
        proof {
            reveal(Seq::filter);
            assert(g.tasks.take(0).filter(consumes(object)) =~= Seq::<TaskView>::empty());
        }
        while i < self.tasks.len()
            invariant
                i <= self.tasks.len(),
                self@ == g,
                out@ == g.tasks.take(i as int).filter(consumes(object)).map_values(task_id_of()),
            decreases self.tasks.len() - i,
        {
            let t = &self.tasks[i];
            proof {
                let f = g.tasks.take(i as int).filter(consumes(object));
                g.tasks.take(i as int).lemma_filter_push(t@, consumes(object));
                assert(g.tasks.take(i + 1) =~= g.tasks.take(i as int).push(t@));
                assert(f.push(t@).map_values(task_id_of()) =~= f.map_values(task_id_of()).push(
                    t.id,
                ));
            }
            if lists(&t.inputs, object) {
                out.push(t.id);
            }
            i += 1;
        }
        proof {
            assert(g.tasks.take(g.tasks.len() as int) =~= g.tasks);
        }
        out
    }

    /// The identifiers of the tasks that write an object, oldest first.
    pub fn producers_of(&self, object: SId) -> (r: Vec<SId>)
        ensures
            r@ == self@.producers_of(object),
    {
        let ghost g = self@;
        let mut out: Vec<SId> = Vec::new();
        let mut i: usize = 0;
        proof {
            reveal(Seq::filter);
            assert(g.tasks.take(0).filter(produces(object)) =~= Seq::<TaskView>::empty());
        }
        while i < self.tasks.len()
            invariant
                i <= self.tasks.len(),
                self@ == g,
                out@ == g.tasks.take(i as int).filter(produces(object)).map_values(task_id_of()),
            decreases self.tasks.len() - i,
        {
            let t = &self.tasks[i];
            proof {
                let f = g.tasks.take(i as int).filter(produces(object));
                g.tasks.take(i as int).lemma_filter_push(t@, produces(object));
                assert(g.tasks.take(i + 1) =~= g.tasks.take(i as int).push(t@));
                assert(f.push(t@).map_values(task_id_of()) =~= f.map_values(task_id_of()).push(
                    t.id,
                ));
            }
            if lists(&t.outputs, object) {
                out.push(t.id);
            }
            i += 1;
        }
        proof {
            assert(g.tasks.take(g.tasks.len() as int) =~= g.tasks);
        }
        out
    }

    /// The task that produced an object: the oldest task that lists it as
    /// an output, if any does.
    pub fn producer_of(&self, object: SId) -> (r: Option<SId>)
        ensures
            r == self@.producer_of(object),
    {
        let all = self.producers_of(object);
        if all.len() > 0 {
            Some(all[0])
        } else {
            None
        }
    }
}

} // verus!
