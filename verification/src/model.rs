//! The mathematical model of the graph: its tables, validity, and what a
//! removal leaves.

use vstd::prelude::*;
use crate::ids::{ClientId, SId, SessionId, WorkerId};
use crate::entities::{Client, ObjectView, PayloadView, Session, TaskStatus, TaskView, Worker};

verus! {

/// The tables of a graph and the last session identifier issued. Workers,
/// clients and sessions are maps from their identifiers; tasks and data
/// objects are kept in the order in which they were registered.
pub ghost struct GraphView {
    pub workers: Map<WorkerId, Worker>,
    pub clients: Map<ClientId, Client>,
    pub sessions: Map<SessionId, Session>,
    pub tasks: Seq<TaskView>,
    pub objects: Seq<ObjectView>,
    pub counter: int,
}

/// What a deletion takes away: whole sessions, and at most one single task
/// and one single object.
pub ghost struct Removal {
    pub sessions: Set<SessionId>,
    pub task: Option<SId>,
    pub object: Option<SId>,
}

impl Removal {
    pub open spec fn hits_session(self, s: SessionId) -> bool {
        self.sessions.contains(s)
    }

    pub open spec fn hits_task(self, t: SId) -> bool {
        self.sessions.contains(t.session_id) || self.task == Some(t)
    }

    pub open spec fn hits_object(self, o: SId) -> bool {
        self.sessions.contains(o.session_id) || self.object == Some(o)
    }
}

pub open spec fn keep_task(r: Removal) -> spec_fn(TaskView) -> bool {
    |t: TaskView| !r.hits_task(t.id)
}

pub open spec fn keep_object(r: Removal) -> spec_fn(ObjectView) -> bool {
    |o: ObjectView| !r.hits_object(o.id)
}

/// The slot emptied if it names an object that is taken away.
pub open spec fn clear_ref(r: Removal) -> spec_fn(Option<SId>) -> Option<SId> {
    |x: Option<SId>|
        match x {
            Some(o) => if r.hits_object(o) {
                None
            } else {
                Some(o)
            },
            None => None,
        }
}

/// The slot that names object `o`.
pub open spec fn some_ref() -> spec_fn(SId) -> Option<SId> {
    |o: SId| Some(o)
}

/// The task with every slot that names a removed object emptied. The lists
/// keep their length, so each slot stays paired with its declared path.
pub open spec fn detach(r: Removal) -> spec_fn(TaskView) -> TaskView {
    |t: TaskView|
        TaskView {
            id: t.id,
            inputs: t.inputs.map_values(clear_ref(r)),
            outputs: t.outputs.map_values(clear_ref(r)),
            assigned: t.assigned,
            status: t.status,
            config: t.config,
        }
}

/// The task with its assignment to worker `w`, if it has one, cleared.
pub open spec fn unassign(w: WorkerId) -> spec_fn(TaskView) -> TaskView {
    |t: TaskView|
        TaskView {
            id: t.id,
            inputs: t.inputs,
            outputs: t.outputs,
            assigned: if t.assigned == Some(w) { None } else { t.assigned },
            status: t.status,
            config: t.config,
        }
}

/// Some item of the sequence has key `k`.
pub open spec fn has_key<A, K>(s: Seq<A>, key: spec_fn(A) -> K, k: K) -> bool {
    exists|i: int| 0 <= i < s.len() && key(#[trigger] s[i]) == k
}

/// Items with pairwise different keys.
pub open spec fn distinct_by<A, K>(s: Seq<A>, key: spec_fn(A) -> K) -> bool {
    forall|i: int, j: int| 0 <= i < j < s.len() ==> key(#[trigger] s[i]) != key(#[trigger] s[j])
}

pub open spec fn task_id_of() -> spec_fn(TaskView) -> SId {
    |t: TaskView| t.id
}

pub open spec fn object_id_of() -> spec_fn(ObjectView) -> SId {
    |o: ObjectView| o.id
}

/// An item that the sequence contains makes its key present.
pub proof fn lemma_contains_has_key<A, K>(s: Seq<A>, key: spec_fn(A) -> K, x: A)
    requires
        s.contains(x),
    ensures
        has_key(s, key, key(x)),
{
    let i = choose|i: int| 0 <= i < s.len() && s[i] == x;
    assert(key(s[i]) == key(x));
}

/// A key that is present after filtering was present before; a key that was
/// present stays if every item that carries it is kept.
pub proof fn lemma_filter_has_key<A, K>(s: Seq<A>, p: spec_fn(A) -> bool, key: spec_fn(A) -> K, k: K)
    ensures
        has_key(s.filter(p), key, k) ==> has_key(s, key, k),
        has_key(s, key, k) && (forall|x: A| key(x) == k ==> #[trigger] p(x)) ==> has_key(
            s.filter(p),
            key,
            k,
        ),
{
    let f = s.filter(p);
    lemma_filter_facts(s, p);
    if has_key(f, key, k) {
        let j = choose|j: int| 0 <= j < f.len() && key(#[trigger] f[j]) == k;
        lemma_contains_has_key(s, key, f[j]);
    }
    if has_key(s, key, k) && (forall|x: A| key(x) == k ==> #[trigger] p(x)) {
        let i = choose|i: int| 0 <= i < s.len() && key(#[trigger] s[i]) == k;
        assert(p(s[i]));
        lemma_contains_has_key(f, key, s[i]);
    }
}

impl GraphView {
    pub open spec fn has_worker(self, w: WorkerId) -> bool {
        self.workers.contains_key(w)
    }

    pub open spec fn has_client(self, c: ClientId) -> bool {
        self.clients.contains_key(c)
    }

    pub open spec fn has_session(self, s: SessionId) -> bool {
        self.sessions.contains_key(s)
    }

    pub open spec fn has_task(self, t: SId) -> bool {
        has_key(self.tasks, task_id_of(), t)
    }

    pub open spec fn has_object(self, o: SId) -> bool {
        has_key(self.objects, object_id_of(), o)
    }

    /// No identifier occurs twice in a table.
    pub open spec fn ids_unique(self) -> bool {
        &&& forall|w: WorkerId|
            self.workers.contains_key(w) ==> (#[trigger] self.workers[w]).id == w
        &&& forall|c: ClientId|
            self.clients.contains_key(c) ==> (#[trigger] self.clients[c]).id == c
        &&& self.clients.dom().finite()
        &&& self.workers.dom().finite()
        &&& forall|s: SessionId|
            self.sessions.contains_key(s) ==> (#[trigger] self.sessions[s]).id == s
        &&& self.sessions.dom().finite()
        &&& distinct_by(self.tasks, task_id_of())
        &&& distinct_by(self.objects, object_id_of())
    }

    /// The session is owned by a client of the graph and its identifier was
    /// issued by the counter.
    pub open spec fn session_ok(self, s: Session) -> bool {
        &&& self.has_client(s.client)
        &&& 1 <= s.id <= self.counter
    }

    /// The slot is empty or names an object of the graph.
    pub open spec fn ref_ok(self, x: Option<SId>) -> bool {
        x.is_some() ==> self.has_object(x.unwrap())
    }

    /// Every reference that the task holds resolves in the graph.
    pub open spec fn task_ok(self, t: TaskView) -> bool {
        &&& self.has_session(t.id.session_id)
        &&& t.assigned.is_some() ==> self.has_worker(t.assigned.unwrap())
        &&& forall|k: int| 0 <= k < t.inputs.len() ==> self.ref_ok(#[trigger] t.inputs[k])
        &&& forall|k: int| 0 <= k < t.outputs.len() ==> self.ref_ok(#[trigger] t.outputs[k])
    }

    pub open spec fn object_ok(self, o: ObjectView) -> bool {
        self.has_session(o.id.session_id)
    }

    /// Referential integrity: identifiers are unique and every reference held
    /// by an entity resolves to an entity of the graph.
    pub open spec fn wf(self) -> bool {
        &&& self.ids_unique()
        &&& 0 <= self.counter <= i32::MAX
        &&& forall|s: SessionId|
            self.sessions.contains_key(s) ==> self.session_ok(#[trigger] self.sessions[s])
        &&& forall|i: int| 0 <= i < self.tasks.len() ==> self.task_ok(#[trigger] self.tasks[i])
        &&& forall|i: int| 0 <= i < self.objects.len() ==> self.object_ok(#[trigger] self.objects[i])
    }

    /// The graph without what `r` takes away: the hit sessions, tasks and
    /// objects are gone, and the remaining tasks no longer list a hit object.
    pub open spec fn purged(self, r: Removal) -> GraphView {
        GraphView {
            workers: self.workers,
            clients: self.clients,
            sessions: self.sessions.remove_keys(r.sessions),
            tasks: self.tasks.filter(keep_task(r)).map_values(detach(r)),
            objects: self.objects.filter(keep_object(r)),
            counter: self.counter,
        }
    }

    /// The identifiers of the sessions that client `c` owns.
    pub open spec fn sessions_of(self, c: ClientId) -> Set<SessionId> {
        Set::new(|s: SessionId| self.sessions.contains_key(s) && self.sessions[s].client == c)
    }

    /// The graph after client `c` left: its sessions with their tasks and
    /// objects are gone, and so is the client.
    pub open spec fn without_client(self, c: ClientId) -> GraphView {
        let p = self.purged(Removal { sessions: self.sessions_of(c), task: None, object: None });
        GraphView {
            workers: p.workers,
            clients: p.clients.remove(c),
            sessions: p.sessions,
            tasks: p.tasks,
            objects: p.objects,
            counter: p.counter,
        }
    }

    /// The graph after worker `w` left: its tasks stay, unassigned.
    pub open spec fn without_worker(self, w: WorkerId) -> GraphView {
        GraphView {
            workers: self.workers.remove(w),
            clients: self.clients,
            sessions: self.sessions,
            tasks: self.tasks.map_values(unassign(w)),
            objects: self.objects,
            counter: self.counter,
        }
    }
}

/// What `filter` keeps: every kept item satisfies the predicate and comes
/// from the sequence, and every item that satisfies it is kept.
pub proof fn lemma_filter_facts<A>(s: Seq<A>, p: spec_fn(A) -> bool)
    ensures
        forall|j: int|
            0 <= j < s.filter(p).len() ==> p(#[trigger] s.filter(p)[j]) && s.contains(
                s.filter(p)[j],
            ),
        forall|i: int| 0 <= i < s.len() && p(s[i]) ==> s.filter(p).contains(#[trigger] s[i]),
{
    let f = s.filter(p);
    assert forall|j: int| 0 <= j < f.len() implies p(#[trigger] f[j]) && s.contains(f[j]) by {
        s.lemma_filter_pred(p, j);
        assert(f.contains(f[j]));
        s.lemma_filter_contains_rev(p, f[j]);
    }
    assert forall|i: int| 0 <= i < s.len() && p(s[i]) implies f.contains(#[trigger] s[i]) by {
        s.lemma_filter_contains(p, i);
    }
}

/// Filtering keeps keys pairwise different.
pub proof fn lemma_filter_distinct<A, K>(s: Seq<A>, p: spec_fn(A) -> bool, key: spec_fn(A) -> K)
    requires
        distinct_by(s, key),
    ensures
        distinct_by(s.filter(p), key),
    decreases s.len(),
{
    reveal(Seq::filter);
    if s.len() > 0 {
        let r = s.drop_last();
        assert forall|i: int, j: int| 0 <= i < j < r.len() implies key(#[trigger] r[i]) != key(
            #[trigger] r[j],
        ) by {
            assert(r[i] == s[i] && r[j] == s[j]);
        }
        lemma_filter_distinct(r, p, key);
        let f = r.filter(p);
        if p(s.last()) {
            let g = f.push(s.last());
            assert forall|i: int, j: int| 0 <= i < j < g.len() implies key(#[trigger] g[i]) != key(
                #[trigger] g[j],
            ) by {
                if j == f.len() {
                    assert(f.contains(f[i]));
                    r.lemma_filter_contains_rev(p, f[i]);
                    let k = choose|k: int| 0 <= k < r.len() && r[k] == f[i];
                    assert(s[k] == f[i]);
                    assert(s[s.len() - 1] == g[j]);
                } else {
                    assert(g[i] == f[i] && g[j] == f[j]);
                }
            }
        }
    }
}

/// A removal leaves a valid graph valid: no remaining entity refers to
/// anything that was taken away.
pub proof fn lemma_purged_wf(g: GraphView, r: Removal)
    requires
        g.wf(),
    ensures
        g.purged(r).wf(),
{
    let n = g.purged(r);
    let ft = g.tasks.filter(keep_task(r));
    let fo = g.objects.filter(keep_object(r));
    lemma_filter_facts(g.tasks, keep_task(r));
    lemma_filter_facts(g.objects, keep_object(r));
    lemma_filter_distinct(g.tasks, keep_task(r), task_id_of());
    lemma_filter_distinct(g.objects, keep_object(r), object_id_of());
    assert(distinct_by(n.tasks, task_id_of())) by {
        assert forall|i: int, j: int| 0 <= i < j < n.tasks.len() implies task_id_of()(
            #[trigger] n.tasks[i],
        ) != task_id_of()(#[trigger] n.tasks[j]) by {
            assert(n.tasks[i] == detach(r)(ft[i]));
            assert(n.tasks[j] == detach(r)(ft[j]));
            assert(task_id_of()(ft[i]) != task_id_of()(ft[j]));
        }
    }
    assert forall|s: SessionId| g.has_session(s) && !r.hits_session(s) implies n.has_session(
        s,
    ) by {}
    assert(n.sessions.dom().finite()) by {
        assert(n.sessions.dom().subset_of(g.sessions.dom()));
        vstd::set_lib::lemma_len_subset(n.sessions.dom(), g.sessions.dom());
    }
    assert forall|o: SId| g.has_object(o) && !r.hits_object(o) implies n.has_object(o) by {
        lemma_filter_has_key(g.objects, keep_object(r), object_id_of(), o);
    }
    assert forall|s: SessionId| n.sessions.contains_key(s) implies n.session_ok(
        #[trigger] n.sessions[s],
    ) by {
        assert(g.session_ok(g.sessions[s]));
    }
    assert forall|i: int| 0 <= i < n.objects.len() implies n.object_ok(#[trigger] n.objects[i]) by {
        assert(g.objects.contains(fo[i]));
        let k = choose|k: int| 0 <= k < g.objects.len() && g.objects[k] == fo[i];
        assert(g.object_ok(g.objects[k]));
        assert(keep_object(r)(fo[i]));
        assert(!r.hits_session(fo[i].id.session_id));
    }
    assert forall|i: int| 0 <= i < n.tasks.len() implies n.task_ok(#[trigger] n.tasks[i]) by {
        let t = ft[i];
        let d = n.tasks[i];
        assert(d == detach(r)(t));
        assert(g.tasks.contains(t));
        let k = choose|k: int| 0 <= k < g.tasks.len() && g.tasks[k] == t;
        assert(g.task_ok(g.tasks[k]));
        assert(keep_task(r)(t));
        assert(!r.hits_session(t.id.session_id));
        assert(n.has_session(d.id.session_id));
        assert forall|x: int| 0 <= x < d.inputs.len() implies n.ref_ok(#[trigger] d.inputs[x]) by {
            assert(d.inputs[x] == clear_ref(r)(t.inputs[x]));
            assert(g.ref_ok(t.inputs[x]));
        }
        assert forall|x: int| 0 <= x < d.outputs.len() implies n.ref_ok(
            #[trigger] d.outputs[x],
        ) by {
            assert(d.outputs[x] == clear_ref(r)(t.outputs[x]));
            assert(g.ref_ok(t.outputs[x]));
        }
    }
}

/// Deleting a client leaves a valid graph valid.
pub proof fn lemma_without_client_wf(g: GraphView, c: ClientId)
    requires
        g.wf(),
    ensures
        g.without_client(c).wf(),
{
    let r = Removal { sessions: g.sessions_of(c), task: None, object: None };
    let p = g.purged(r);
    let n = g.without_client(c);
    lemma_purged_wf(g, r);
    assert forall|s: SessionId| n.sessions.contains_key(s) implies n.session_ok(
        #[trigger] n.sessions[s],
    ) by {
        assert(p.session_ok(p.sessions[s]));
        assert(g.sessions.contains_key(s) && !g.sessions_of(c).contains(s));
        assert(g.sessions[s].client != c);
        assert(n.has_client(n.sessions[s].client));
    }
    assert forall|i: int| 0 <= i < n.tasks.len() implies n.task_ok(#[trigger] n.tasks[i]) by {
        let t = n.tasks[i];
        assert(p.task_ok(p.tasks[i]));
        assert forall|x: int| 0 <= x < t.inputs.len() implies n.ref_ok(#[trigger] t.inputs[x]) by {
            assert(p.ref_ok(t.inputs[x]));
        }
        assert forall|x: int| 0 <= x < t.outputs.len() implies n.ref_ok(#[trigger] t.outputs[x]) by {
            assert(p.ref_ok(t.outputs[x]));
        }
    }
    assert forall|i: int| 0 <= i < n.objects.len() implies n.object_ok(#[trigger] n.objects[i]) by {
        assert(p.object_ok(p.objects[i]));
    }
}

/// Deleting a worker leaves a valid graph valid.
pub proof fn lemma_without_worker_wf(g: GraphView, w: WorkerId)
    requires
        g.wf(),
    ensures
        g.without_worker(w).wf(),
{
    let n = g.without_worker(w);
    assert(distinct_by(n.tasks, task_id_of())) by {
        assert forall|i: int, j: int| 0 <= i < j < n.tasks.len() implies task_id_of()(
            #[trigger] n.tasks[i],
        ) != task_id_of()(#[trigger] n.tasks[j]) by {
            assert(n.tasks[i] == unassign(w)(g.tasks[i]));
            assert(n.tasks[j] == unassign(w)(g.tasks[j]));
            assert(task_id_of()(g.tasks[i]) != task_id_of()(g.tasks[j]));
        }
    }
    assert forall|s: SessionId| n.sessions.contains_key(s) implies n.session_ok(
        #[trigger] n.sessions[s],
    ) by {
        assert(g.session_ok(g.sessions[s]));
    }
    assert forall|i: int| 0 <= i < n.objects.len() implies n.object_ok(#[trigger] n.objects[i]) by {
        assert(g.object_ok(g.objects[i]));
    }
    assert forall|i: int| 0 <= i < n.tasks.len() implies n.task_ok(#[trigger] n.tasks[i]) by {
        let t = g.tasks[i];
        let d = n.tasks[i];
        assert(d == unassign(w)(t));
        assert(g.task_ok(t));
        if d.assigned.is_some() {
            let a = d.assigned.unwrap();
            assert(a != w);
            assert(n.has_worker(a));
        }
        assert forall|x: int| 0 <= x < d.inputs.len() implies n.ref_ok(#[trigger] d.inputs[x]) by {
            assert(g.ref_ok(t.inputs[x]));
        }
        assert forall|x: int| 0 <= x < d.outputs.len() implies n.ref_ok(#[trigger] d.outputs[x]) by {
            assert(g.ref_ok(t.outputs[x]));
        }
    }
}

impl GraphView {
    /// The graph with one more worker.
    pub open spec fn with_worker(self, w: Worker) -> GraphView {
        GraphView {
            workers: self.workers.insert(w.id, w),
            clients: self.clients,
            sessions: self.sessions,
            tasks: self.tasks,
            objects: self.objects,
            counter: self.counter,
        }
    }

    /// The graph with one more client.
    pub open spec fn with_client(self, c: ClientId) -> GraphView {
        GraphView {
            workers: self.workers,
            clients: self.clients.insert(c, Client { id: c }),
            sessions: self.sessions,
            tasks: self.tasks,
            objects: self.objects,
            counter: self.counter,
        }
    }

    /// The graph after the next session identifier was issued.
    pub open spec fn with_next_id(self) -> GraphView {
        GraphView {
            workers: self.workers,
            clients: self.clients,
            sessions: self.sessions,
            tasks: self.tasks,
            objects: self.objects,
            counter: self.counter + 1,
        }
    }

    /// The graph with one more session.
    pub open spec fn with_session(self, s: Session) -> GraphView {
        GraphView {
            workers: self.workers,
            clients: self.clients,
            sessions: self.sessions.insert(s.id, s),
            tasks: self.tasks,
            objects: self.objects,
            counter: self.counter,
        }
    }

    /// The graph with one more task.
    pub open spec fn with_task(self, t: TaskView) -> GraphView {
        GraphView {
            workers: self.workers,
            clients: self.clients,
            sessions: self.sessions,
            tasks: self.tasks.push(t),
            objects: self.objects,
            counter: self.counter,
        }
    }

    /// The graph with one more data object.
    pub open spec fn with_object(self, o: ObjectView) -> GraphView {
        GraphView {
            workers: self.workers,
            clients: self.clients,
            sessions: self.sessions,
            tasks: self.tasks,
            objects: self.objects.push(o),
            counter: self.counter,
        }
    }

    /// Every identifier of the list names an object of the graph.
    pub open spec fn refs_resolve(self, refs: Seq<SId>) -> bool {
        forall|k: int| 0 <= k < refs.len() ==> self.has_object(#[trigger] refs[k])
    }
}

/// A graph whose tables keep every key that was present, and whose new
/// entries are valid, is valid if the graph before was.
pub proof fn lemma_grown_wf(g: GraphView, n: GraphView)
    requires
        g.wf(),
        n.ids_unique(),
        g.counter <= n.counter <= i32::MAX,
        forall|w: WorkerId| g.has_worker(w) ==> n.has_worker(w),
        forall|c: ClientId| g.has_client(c) ==> n.has_client(c),
        forall|s: SessionId| g.has_session(s) ==> n.has_session(s),
        forall|o: SId| g.has_object(o) ==> n.has_object(o),
        forall|s: SessionId|
            n.sessions.contains_key(s) ==> (g.sessions.contains_key(s) && g.sessions[s]
                == #[trigger] n.sessions[s]) || n.session_ok(n.sessions[s]),
        forall|i: int|
            0 <= i < n.tasks.len() ==> g.tasks.contains(#[trigger] n.tasks[i]) || n.task_ok(
                n.tasks[i],
            ),
        forall|i: int|
            0 <= i < n.objects.len() ==> g.objects.contains(#[trigger] n.objects[i])
                || n.object_ok(n.objects[i]),
    ensures
        n.wf(),
{
    assert forall|s: SessionId| n.sessions.contains_key(s) implies n.session_ok(
        #[trigger] n.sessions[s],
    ) by {
        if g.sessions.contains_key(s) && g.sessions[s] == n.sessions[s] {
            assert(g.session_ok(g.sessions[s]));
        }
    }
    assert forall|i: int| 0 <= i < n.objects.len() implies n.object_ok(#[trigger] n.objects[i]) by {
        let o = n.objects[i];
        if g.objects.contains(o) {
            let k = choose|k: int| 0 <= k < g.objects.len() && g.objects[k] == o;
            assert(g.object_ok(g.objects[k]));
        }
    }
    assert forall|i: int| 0 <= i < n.tasks.len() implies n.task_ok(#[trigger] n.tasks[i]) by {
        let t = n.tasks[i];
        if g.tasks.contains(t) {
            let k = choose|k: int| 0 <= k < g.tasks.len() && g.tasks[k] == t;
            assert(g.task_ok(g.tasks[k]));
            assert forall|x: int| 0 <= x < t.inputs.len() implies n.ref_ok(#[trigger] t.inputs[x]) by {
                assert(g.ref_ok(t.inputs[x]));
            }
            assert forall|x: int| 0 <= x < t.outputs.len() implies n.ref_ok(#[trigger] t.outputs[x]) by {
                assert(g.ref_ok(t.outputs[x]));
            }
        }
    }
}

/// Pushing an item with a new key keeps keys pairwise different, keeps every
/// key that was present, and makes the new key present.
pub proof fn lemma_push_keys<A, K>(s: Seq<A>, key: spec_fn(A) -> K, x: A)
    ensures
        distinct_by(s, key) && !has_key(s, key, key(x)) ==> distinct_by(s.push(x), key),
        forall|k: K| has_key(s, key, k) ==> has_key(s.push(x), key, k),
        has_key(s.push(x), key, key(x)),
        forall|i: int| 0 <= i < s.len() ==> s.contains(#[trigger] s.push(x)[i]),
{
    let n = s.push(x);
    if distinct_by(s, key) && !has_key(s, key, key(x)) {
        assert forall|i: int, j: int| 0 <= i < j < n.len() implies key(#[trigger] n[i]) != key(
            #[trigger] n[j],
        ) by {
            assert(n[i] == s[i]);
            if j < s.len() {
                assert(n[j] == s[j]);
            }
        }
    }
    assert forall|k: K| has_key(s, key, k) implies has_key(n, key, k) by {
        let i = choose|i: int| 0 <= i < s.len() && key(#[trigger] s[i]) == k;
        assert(n[i] == s[i]);
    }
    assert(n[s.len() as int] == x);
    assert forall|i: int| 0 <= i < s.len() implies s.contains(#[trigger] n[i]) by {
        assert(s[i] == n[i]);
    }
}

/// Every item of a sequence is contained in it.
pub proof fn lemma_items_contained<A>(s: Seq<A>)
    ensures
        forall|i: int| 0 <= i < s.len() ==> s.contains(#[trigger] s[i]),
{
}

/// The task `task` assigned to worker `w`; other tasks as they are.
pub open spec fn assign_to(task: SId, w: WorkerId) -> spec_fn(TaskView) -> TaskView {
    |t: TaskView|
        if t.id == task {
            TaskView {
                id: t.id,
                inputs: t.inputs,
                outputs: t.outputs,
                assigned: Some(w),
                status: t.status,
                config: t.config,
            }
        } else {
            t
        }
}

/// The task `task` with its result recorded as `status`; other tasks as
/// they are.
pub open spec fn record(task: SId, status: TaskStatus) -> spec_fn(TaskView) -> TaskView {
    |t: TaskView|
        if t.id == task {
            TaskView {
                id: t.id,
                inputs: t.inputs,
                outputs: t.outputs,
                assigned: t.assigned,
                status,
                config: t.config,
            }
        } else {
            t
        }
}

/// The object `id` finished with payload `p`; other objects as they are.
pub open spec fn finish_with(id: SId, p: PayloadView) -> spec_fn(ObjectView) -> ObjectView {
    |o: ObjectView|
        if o.id == id {
            ObjectView { id: o.id, payload: Some(p) }
        } else {
            o
        }
}

impl GraphView {
    /// The object `id` is registered and its payload has been written.
    pub open spec fn is_finished(self, id: SId) -> bool {
        exists|i: int|
            0 <= i < self.objects.len() && (#[trigger] self.objects[i]).id == id
                && self.objects[i].payload.is_some()
    }

    /// The graph with task `task` assigned to worker `w`.
    pub open spec fn with_assignment(self, task: SId, w: WorkerId) -> GraphView {
        GraphView {
            workers: self.workers,
            clients: self.clients,
            sessions: self.sessions,
            tasks: self.tasks.map_values(assign_to(task, w)),
            objects: self.objects,
            counter: self.counter,
        }
    }

    /// The graph with the result of task `task` recorded.
    pub open spec fn with_status(self, task: SId, status: TaskStatus) -> GraphView {
        GraphView {
            workers: self.workers,
            clients: self.clients,
            sessions: self.sessions,
            tasks: self.tasks.map_values(record(task, status)),
            objects: self.objects,
            counter: self.counter,
        }
    }

    /// The graph with object `id` finished with payload `p`.
    pub open spec fn with_payload(self, id: SId, p: PayloadView) -> GraphView {
        GraphView {
            workers: self.workers,
            clients: self.clients,
            sessions: self.sessions,
            tasks: self.tasks,
            objects: self.objects.map_values(finish_with(id, p)),
            counter: self.counter,
        }
    }
}

/// Assigning a task to a registered worker leaves a valid graph valid.
pub proof fn lemma_with_assignment_wf(g: GraphView, task: SId, w: WorkerId)
    requires
        g.wf(),
        g.has_worker(w),
    ensures
        g.with_assignment(task, w).wf(),
{
    let n = g.with_assignment(task, w);
    assert forall|i: int, j: int| 0 <= i < j < n.tasks.len() implies task_id_of()(
        #[trigger] n.tasks[i],
    ) != task_id_of()(#[trigger] n.tasks[j]) by {
        assert(n.tasks[i] == assign_to(task, w)(g.tasks[i]));
        assert(n.tasks[j] == assign_to(task, w)(g.tasks[j]));
        assert(task_id_of()(g.tasks[i]) != task_id_of()(g.tasks[j]));
    }
    lemma_items_contained(g.objects);
    assert forall|i: int| 0 <= i < n.tasks.len() implies g.tasks.contains(#[trigger] n.tasks[i])
        || n.task_ok(n.tasks[i]) by {
        let t = g.tasks[i];
        let d = n.tasks[i];
        assert(d == assign_to(task, w)(t));
        assert(g.task_ok(t));
        assert forall|x: int| 0 <= x < d.inputs.len() implies n.ref_ok(#[trigger] d.inputs[x]) by {
            assert(g.ref_ok(t.inputs[x]));
        }
        assert forall|x: int| 0 <= x < d.outputs.len() implies n.ref_ok(#[trigger] d.outputs[x]) by {
            assert(g.ref_ok(t.outputs[x]));
        }
    }
    lemma_grown_wf(g, n);
}

/// Recording a task's result leaves a valid graph valid.
pub proof fn lemma_with_status_wf(g: GraphView, task: SId, status: TaskStatus)
    requires
        g.wf(),
    ensures
        g.with_status(task, status).wf(),
{
    let n = g.with_status(task, status);
    assert forall|i: int, j: int| 0 <= i < j < n.tasks.len() implies task_id_of()(
        #[trigger] n.tasks[i],
    ) != task_id_of()(#[trigger] n.tasks[j]) by {
        assert(n.tasks[i] == record(task, status)(g.tasks[i]));
        assert(n.tasks[j] == record(task, status)(g.tasks[j]));
        assert(task_id_of()(g.tasks[i]) != task_id_of()(g.tasks[j]));
    }
    lemma_items_contained(g.objects);
    assert forall|i: int| 0 <= i < n.tasks.len() implies g.tasks.contains(#[trigger] n.tasks[i])
        || n.task_ok(n.tasks[i]) by {
        let t = g.tasks[i];
        let d = n.tasks[i];
        assert(d == record(task, status)(t));
        assert(g.task_ok(t));
        assert forall|x: int| 0 <= x < d.inputs.len() implies n.ref_ok(#[trigger] d.inputs[x]) by {
            assert(g.ref_ok(t.inputs[x]));
        }
        assert forall|x: int| 0 <= x < d.outputs.len() implies n.ref_ok(#[trigger] d.outputs[x]) by {
            assert(g.ref_ok(t.outputs[x]));
        }
    }
    lemma_grown_wf(g, n);
}

/// Writing a payload leaves a valid graph valid.
pub proof fn lemma_with_payload_wf(g: GraphView, id: SId, p: PayloadView)
    requires
        g.wf(),
    ensures
        g.with_payload(id, p).wf(),
        forall|o: SId| g.has_object(o) == g.with_payload(id, p).has_object(o),
{
    let n = g.with_payload(id, p);
    assert forall|i: int, j: int| 0 <= i < j < n.objects.len() implies object_id_of()(
        #[trigger] n.objects[i],
    ) != object_id_of()(#[trigger] n.objects[j]) by {
        assert(n.objects[i] == finish_with(id, p)(g.objects[i]));
        assert(n.objects[j] == finish_with(id, p)(g.objects[j]));
        assert(object_id_of()(g.objects[i]) != object_id_of()(g.objects[j]));
    }
    assert forall|o: SId| g.has_object(o) == n.has_object(o) by {
        if g.has_object(o) {
            let a = choose|a: int| 0 <= a < g.objects.len() && object_id_of()(#[trigger] g.objects[a]) == o;
            assert(n.objects[a] == finish_with(id, p)(g.objects[a]));
            assert(object_id_of()(n.objects[a]) == o);
        }
        if n.has_object(o) {
            let a = choose|a: int| 0 <= a < n.objects.len() && object_id_of()(#[trigger] n.objects[a]) == o;
            assert(n.objects[a] == finish_with(id, p)(g.objects[a]));
            assert(object_id_of()(g.objects[a]) == o);
        }
    }
    lemma_items_contained(g.tasks);
    assert forall|i: int| 0 <= i < n.objects.len() implies g.objects.contains(
        #[trigger] n.objects[i],
    ) || n.object_ok(n.objects[i]) by {
        assert(n.objects[i] == finish_with(id, p)(g.objects[i]));
        assert(g.object_ok(g.objects[i]));
    }
    lemma_grown_wf(g, n);
}

pub open spec fn assigned_to(w: WorkerId) -> spec_fn(TaskView) -> bool {
    |t: TaskView| t.assigned == Some(w)
}

impl GraphView {
    /// The identifiers of the tasks assigned to worker `w`.
    pub open spec fn tasks_of(self, w: WorkerId) -> Seq<SId> {
        self.tasks.filter(assigned_to(w)).map_values(task_id_of())
    }
}

/// The tasks that read object `o`.
pub open spec fn consumes(o: SId) -> spec_fn(TaskView) -> bool {
    |t: TaskView| t.inputs.contains(Some(o))
}

/// The tasks that write object `o`.
pub open spec fn produces(o: SId) -> spec_fn(TaskView) -> bool {
    |t: TaskView| t.outputs.contains(Some(o))
}

impl GraphView {
    /// The identifiers of the tasks that list object `o` as an input.
    pub open spec fn consumers_of(self, o: SId) -> Seq<SId> {
        self.tasks.filter(consumes(o)).map_values(task_id_of())
    }

    /// The identifiers of the tasks that list object `o` as an output.
    pub open spec fn producers_of(self, o: SId) -> Seq<SId> {
        self.tasks.filter(produces(o)).map_values(task_id_of())
    }

    /// The oldest task that lists object `o` as an output, if there is one.
    pub open spec fn producer_of(self, o: SId) -> Option<SId> {
        if self.producers_of(o).len() > 0 {
            Some(self.producers_of(o)[0])
        } else {
            None
        }
    }
}

/// Issuing a session identifier leaves a valid graph valid.
pub proof fn lemma_with_next_id_wf(g: GraphView)
    requires
        g.wf(),
        g.counter < i32::MAX,
    ensures
        g.with_next_id().wf(),
{
    lemma_items_contained(g.tasks);
    lemma_items_contained(g.objects);
    lemma_grown_wf(g, g.with_next_id());
}

/// Registering a worker under a new identifier leaves a valid graph valid.
pub proof fn lemma_with_worker_wf(g: GraphView, w: Worker)
    requires
        g.wf(),
        !g.has_worker(w.id),
    ensures
        g.with_worker(w).wf(),
        g.with_worker(w).has_worker(w.id),
        forall|x: WorkerId| g.has_worker(x) ==> g.with_worker(w).has_worker(x),
{
    lemma_items_contained(g.tasks);
    lemma_items_contained(g.objects);
    lemma_grown_wf(g, g.with_worker(w));
}

/// Registering a client under a new identifier leaves a valid graph valid.
pub proof fn lemma_with_client_wf(g: GraphView, c: ClientId)
    requires
        g.wf(),
        !g.has_client(c),
    ensures
        g.with_client(c).wf(),
        g.with_client(c).has_client(c),
        forall|x: ClientId| g.has_client(x) ==> g.with_client(c).has_client(x),
{
    lemma_items_contained(g.tasks);
    lemma_items_contained(g.objects);
    lemma_grown_wf(g, g.with_client(c));
}

/// Every open session of a valid graph has an identifier that the counter
/// has reached.
pub proof fn lemma_sessions_below_counter(g: GraphView)
    requires
        g.wf(),
    ensures
        forall|s: SessionId| g.has_session(s) ==> 1 <= s <= g.counter,
{
    assert forall|s: SessionId| g.has_session(s) implies 1 <= s <= g.counter by {
        assert(g.session_ok(g.sessions[s]));
    }
}

/// Opening a session of a registered client under an issued, unused
/// identifier leaves a valid graph valid.
pub proof fn lemma_with_session_wf(g: GraphView, s: Session)
    requires
        g.wf(),
        g.has_client(s.client),
        !g.has_session(s.id),
        1 <= s.id <= g.counter,
    ensures
        g.with_session(s).wf(),
        g.with_session(s).has_session(s.id),
        forall|x: SessionId| g.has_session(x) ==> g.with_session(s).has_session(x),
{
    let n = g.with_session(s);
    lemma_items_contained(g.tasks);
    lemma_items_contained(g.objects);
    assert(n.sessions[s.id] == s);
    lemma_grown_wf(g, n);
}

/// Registering an object of an open session under a new identifier leaves a
/// valid graph valid.
pub proof fn lemma_with_object_wf(g: GraphView, o: ObjectView)
    requires
        g.wf(),
        !g.has_object(o.id),
        g.has_session(o.id.session_id),
    ensures
        g.with_object(o).wf(),
        g.with_object(o).has_object(o.id),
        forall|x: SId| g.has_object(x) ==> g.with_object(o).has_object(x),
{
    let n = g.with_object(o);
    lemma_push_keys(g.objects, object_id_of(), o);
    lemma_items_contained(g.tasks);
    assert(n.objects[g.objects.len() as int] == o);
    lemma_grown_wf(g, n);
}

/// Registering a task whose references resolve under a new identifier
/// leaves a valid graph valid.
pub proof fn lemma_with_task_wf(g: GraphView, t: TaskView)
    requires
        g.wf(),
        !g.has_task(t.id),
        g.task_ok(t),
    ensures
        g.with_task(t).wf(),
        g.with_task(t).has_task(t.id),
        forall|x: SId| g.has_task(x) ==> g.with_task(t).has_task(x),
{
    let n = g.with_task(t);
    lemma_push_keys(g.tasks, task_id_of(), t);
    lemma_items_contained(g.objects);
    assert(n.tasks[g.tasks.len() as int] == t);
    assert(n.task_ok(t));
    lemma_grown_wf(g, n);
}

/// One change that a caller can ask of the graph.
pub ghost enum Change {
    IssueId,
    AddWorker(Worker),
    AddClient(ClientId),
    AddSession(ClientId),
    AddObject(SId),
    AddTask { id: SId, inputs: Seq<SId>, outputs: Seq<SId>, config: Seq<u8> },
    Assign(SId, WorkerId),
    SetStatus(SId, TaskStatus),
    Finish(SId, PayloadView),
    DeleteTask(SId),
    DeleteObject(SId),
    DeleteSession(SessionId),
    DeleteClient(ClientId),
    DeleteWorker(WorkerId),
}

impl GraphView {
    /// The graph after one change. A change that is refused, because it
    /// names something unknown, repeats an identifier, would overwrite a
    /// payload or would exhaust the counter, leaves the graph as it is.
    pub open spec fn apply(self, change: Change) -> GraphView {
        match change {
            Change::IssueId => if self.counter < i32::MAX {
                self.with_next_id()
            } else {
                self
            },
            Change::AddWorker(w) => if self.has_worker(w.id) {
                self
            } else {
                self.with_worker(w)
            },
            Change::AddClient(c) => if self.has_client(c) {
                self
            } else {
                self.with_client(c)
            },
            Change::AddSession(c) => if self.has_client(c) && self.counter < i32::MAX {
                self.with_next_id().with_session(
                    Session { id: (self.counter + 1) as SessionId, client: c },
                )
            } else {
                self
            },
            Change::AddObject(o) => if !self.has_object(o) && self.has_session(o.session_id) {
                self.with_object(ObjectView { id: o, payload: None })
            } else {
                self
            },
            Change::AddTask { id, inputs, outputs, config } => if !self.has_task(id)
                && self.has_session(id.session_id) && self.refs_resolve(inputs)
                && self.refs_resolve(outputs) {
                self.with_task(
                    TaskView {
                        id,
                        inputs: inputs.map_values(some_ref()),
                        outputs: outputs.map_values(some_ref()),
                        assigned: None,
                        status: TaskStatus::Pending,
                        config,
                    },
                )
            } else {
                self
            },
            Change::Assign(t, w) => if self.has_task(t) && self.has_worker(w) {
                self.with_assignment(t, w)
            } else {
                self
            },
            Change::SetStatus(t, status) => if self.has_task(t) {
                self.with_status(t, status)
            } else {
                self
            },
            Change::Finish(o, p) => if self.has_object(o) && !self.is_finished(o) {
                self.with_payload(o, p)
            } else {
                self
            },
            Change::DeleteTask(t) => if self.has_task(t) {
                self.purged(Removal { sessions: Set::empty(), task: Some(t), object: None })
            } else {
                self
            },
            Change::DeleteObject(o) => if self.has_object(o) {
                self.purged(Removal { sessions: Set::empty(), task: None, object: Some(o) })
            } else {
                self
            },
            Change::DeleteSession(s) => if self.has_session(s) {
                self.purged(Removal { sessions: set![s], task: None, object: None })
            } else {
                self
            },
            Change::DeleteClient(c) => if self.has_client(c) {
                self.without_client(c)
            } else {
                self
            },
            Change::DeleteWorker(w) => if self.has_worker(w) {
                self.without_worker(w)
            } else {
                self
            },
        }
    }

    /// The graph after a sequence of changes, first to last.
    pub open spec fn apply_all(self, changes: Seq<Change>) -> GraphView
        decreases changes.len(),
    {
        if changes.len() == 0 {
            self
        } else {
            self.apply_all(changes.drop_last()).apply(changes.last())
        }
    }
}

} // verus!
