//! Laws of the graph, stated over its model and proved from the definitions
//! that the operations' contracts use.

use vstd::prelude::*;
use crate::ids::{ClientId, SId, SessionId, WorkerId};
use crate::entities::{ObjectView, PayloadView, Session, TaskStatus, TaskView, Worker};
use crate::model::{
    assigned_to, detach, finish_with, has_key, keep_object, clear_ref,
    keep_task, lemma_filter_facts, lemma_filter_has_key, lemma_purged_wf,
    lemma_sessions_below_counter, lemma_with_assignment_wf, lemma_with_client_wf,
    lemma_with_next_id_wf, lemma_with_object_wf, lemma_with_payload_wf, lemma_with_session_wf,
    lemma_with_status_wf, lemma_with_task_wf, lemma_with_worker_wf, lemma_without_client_wf,
    lemma_without_worker_wf, Change, object_id_of,
    some_ref, task_id_of, unassign, GraphView, Removal,
};

verus! {

/// Mapping the items by a function that keeps each key keeps the set of keys.
pub proof fn lemma_map_keeps_keys<A, K>(s: Seq<A>, f: spec_fn(A) -> A, key: spec_fn(A) -> K, k: K)
    requires
        forall|x: A| key(#[trigger] f(x)) == key(x),
    ensures
        has_key(s.map_values(f), key, k) == has_key(s, key, k),
{
    let m = s.map_values(f);
    if has_key(s, key, k) {
        let i = choose|i: int| 0 <= i < s.len() && key(#[trigger] s[i]) == k;
        assert(m[i] == f(s[i]));
        assert(key(m[i]) == k);
    }
    if has_key(m, key, k) {
        let i = choose|i: int| 0 <= i < m.len() && key(#[trigger] m[i]) == k;
        assert(m[i] == f(s[i]));
        assert(key(s[i]) == k);
    }
}

/// A key is present after filtering by a predicate on the key exactly if it
/// was present and the predicate admits it.
pub proof fn lemma_filter_by_key<A, K>(
    s: Seq<A>,
    p: spec_fn(A) -> bool,
    key: spec_fn(A) -> K,
    admits: spec_fn(K) -> bool,
    k: K,
)
    requires
        forall|x: A| #[trigger] p(x) == admits(key(x)),
    ensures
        has_key(s.filter(p), key, k) == (has_key(s, key, k) && admits(k)),
{
    let f = s.filter(p);
    lemma_filter_facts(s, p);
    lemma_filter_has_key(s, p, key, k);
    if has_key(f, key, k) {
        let j = choose|j: int| 0 <= j < f.len() && key(#[trigger] f[j]) == k;
        assert(p(f[j]));
    }
}

/// Referential integrity after a removal: what was taken away is no longer
/// registered, what was not taken away still is, no remaining task lists a
/// removed object, and every reference that remains resolves.
pub proof fn law_removed_ids_are_gone(g: GraphView, r: Removal)
    requires
        g.wf(),
    ensures
        g.purged(r).wf(),
        forall|s: SessionId|
            g.purged(r).has_session(s) == (g.has_session(s) && !r.hits_session(s)),
        forall|t: SId| g.purged(r).has_task(t) == (g.has_task(t) && !r.hits_task(t)),
        forall|o: SId| g.purged(r).has_object(o) == (g.has_object(o) && !r.hits_object(o)),
        forall|i: int, k: int|
            0 <= i < g.purged(r).tasks.len() && 0 <= k < g.purged(r).tasks[i].inputs.len() && (
            #[trigger] g.purged(r).tasks[i].inputs[k]).is_some() ==> !r.hits_object(
                g.purged(r).tasks[i].inputs[k].unwrap(),
            ),
        forall|i: int, k: int|
            0 <= i < g.purged(r).tasks.len() && 0 <= k < g.purged(r).tasks[i].outputs.len() && (
            #[trigger] g.purged(r).tasks[i].outputs[k]).is_some() ==> !r.hits_object(
                g.purged(r).tasks[i].outputs[k].unwrap(),
            ),
        g.purged(r).workers == g.workers,
        g.purged(r).clients == g.clients,
        g.purged(r).counter == g.counter,
{
    let n = g.purged(r);
    lemma_purged_wf(g, r);
    assert forall|s: SessionId| n.has_session(s) == (g.has_session(s) && !r.hits_session(
        s,
    )) by {}
    assert forall|o: SId| n.has_object(o) == (g.has_object(o) && !r.hits_object(o)) by {
        lemma_filter_by_key(
            g.objects,
            keep_object(r),
            object_id_of(),
            |x: SId| !r.hits_object(x),
            o,
        );
    }
    assert forall|t: SId| n.has_task(t) == (g.has_task(t) && !r.hits_task(t)) by {
        lemma_filter_by_key(g.tasks, keep_task(r), task_id_of(), |x: SId| !r.hits_task(x), t);
        lemma_map_keeps_keys(g.tasks.filter(keep_task(r)), detach(r), task_id_of(), t);
    }
    let ft = g.tasks.filter(keep_task(r));
    assert forall|i: int, k: int|
        0 <= i < n.tasks.len() && 0 <= k < n.tasks[i].inputs.len() && (
        #[trigger] n.tasks[i].inputs[k]).is_some() implies !r.hits_object(
        n.tasks[i].inputs[k].unwrap(),
    ) by {
        assert(n.tasks[i] == detach(r)(ft[i]));
        assert(n.tasks[i].inputs[k] == clear_ref(r)(ft[i].inputs[k]));
    }
    assert forall|i: int, k: int|
        0 <= i < n.tasks.len() && 0 <= k < n.tasks[i].outputs.len() && (
        #[trigger] n.tasks[i].outputs[k]).is_some() implies !r.hits_object(
        n.tasks[i].outputs[k].unwrap(),
    ) by {
        assert(n.tasks[i] == detach(r)(ft[i]));
        assert(n.tasks[i].outputs[k] == clear_ref(r)(ft[i].outputs[k]));
    }
}

/// Deleting a client removes the client, exactly the sessions it owns and
/// exactly the tasks and data objects under those sessions. Workers and the
/// other clients are untouched, and the graph stays valid.
pub proof fn law_client_deletion_cascades(g: GraphView, c: ClientId)
    requires
        g.wf(),
    ensures
        g.without_client(c).wf(),
        g.without_client(c).workers == g.workers,
        g.without_client(c).counter == g.counter,
        !g.without_client(c).has_client(c),
        forall|x: ClientId| x != c ==> g.without_client(c).has_client(x) == g.has_client(x),
        forall|s: SessionId|
            g.without_client(c).has_session(s) == (g.has_session(s) && !g.sessions_of(c).contains(
                s,
            )),
        forall|t: SId|
            g.without_client(c).has_task(t) == (g.has_task(t) && !g.sessions_of(c).contains(
                t.session_id,
            )),
        forall|o: SId|
            g.without_client(c).has_object(o) == (g.has_object(o) && !g.sessions_of(c).contains(
                o.session_id,
            )),
{
    let r = Removal { sessions: g.sessions_of(c), task: None, object: None };
    let p = g.purged(r);
    let n = g.without_client(c);
    lemma_without_client_wf(g, c);
    law_removed_ids_are_gone(g, r);
    assert forall|x: ClientId| n.has_client(x) == (g.has_client(x) && x != c) by {}
    assert forall|s: SessionId| n.has_session(s) == (g.has_session(s) && !g.sessions_of(
        c,
    ).contains(s)) by {
        assert(n.has_session(s) == p.has_session(s));
    }
    assert forall|t: SId| n.has_task(t) == (g.has_task(t) && !g.sessions_of(c).contains(
        t.session_id,
    )) by {
        assert(n.has_task(t) == p.has_task(t));
    }
    assert forall|o: SId| n.has_object(o) == (g.has_object(o) && !g.sessions_of(c).contains(
        o.session_id,
    )) by {
        assert(n.has_object(o) == p.has_object(o));
    }
}

/// Deleting a worker deletes no task: every task stays at its place with
/// its identifier, lists and descriptor, and those that were assigned to the
/// worker are unassigned. Nothing stays assigned to the worker.
pub proof fn law_worker_deletion_unassigns(g: GraphView, w: WorkerId)
    requires
        g.wf(),
    ensures
        g.without_worker(w).wf(),
        !g.without_worker(w).has_worker(w),
        forall|x: WorkerId| x != w ==> g.without_worker(w).has_worker(x) == g.has_worker(x),
        g.without_worker(w).tasks.len() == g.tasks.len(),
        forall|t: SId| g.without_worker(w).has_task(t) == g.has_task(t),
        forall|i: int|
            0 <= i < g.tasks.len() ==> (#[trigger] g.without_worker(w).tasks[i]) == (TaskView {
                id: g.tasks[i].id,
                inputs: g.tasks[i].inputs,
                outputs: g.tasks[i].outputs,
                assigned: if g.tasks[i].assigned == Some(w) {
                    None
                } else {
                    g.tasks[i].assigned
                },
                status: g.tasks[i].status,
                config: g.tasks[i].config,
            }),
        g.without_worker(w).tasks_of(w).len() == 0,
        g.without_worker(w).clients == g.clients,
        g.without_worker(w).sessions == g.sessions,
        g.without_worker(w).objects == g.objects,
        g.without_worker(w).counter == g.counter,
{
    let n = g.without_worker(w);
    lemma_without_worker_wf(g, w);
    assert forall|x: WorkerId| n.has_worker(x) == (g.has_worker(x) && x != w) by {}
    assert forall|t: SId| n.has_task(t) == g.has_task(t) by {
        lemma_map_keeps_keys(g.tasks, unassign(w), task_id_of(), t);
    }
    assert forall|i: int| 0 <= i < g.tasks.len() implies (#[trigger] n.tasks[i]) == unassign(w)(
        g.tasks[i],
    ) by {}
    let left = n.tasks.filter(assigned_to(w));
    lemma_filter_facts(n.tasks, assigned_to(w));
    if left.len() > 0 {
        assert(assigned_to(w)(left[0]));
        assert(n.tasks.contains(left[0]));
        let i = choose|i: int| 0 <= i < n.tasks.len() && n.tasks[i] == left[0];
        assert(n.tasks[i] == unassign(w)(g.tasks[i]));
        assert(false);
    }
}

/// Only issuing a session identifier moves the counter, and it moves it up
/// by one: no other change of the graph touches it. So identifiers issued
/// one after another increase strictly, whatever happens in between.
pub proof fn law_counter_moves_only_by_issuing(
    g: GraphView,
    r: Removal,
    c: ClientId,
    w: Worker,
    s: Session,
    t: TaskView,
    o: ObjectView,
    p: PayloadView,
)
    ensures
        g.with_next_id().counter == g.counter + 1,
        g.purged(r).counter == g.counter,
        g.without_client(c).counter == g.counter,
        g.without_worker(w.id).counter == g.counter,
        g.with_worker(w).counter == g.counter,
        g.with_client(c).counter == g.counter,
        g.with_session(s).counter == g.counter,
        g.with_task(t).counter == g.counter,
        g.with_object(o).counter == g.counter,
        g.with_assignment(t.id, w.id).counter == g.counter,
        g.with_status(t.id, t.status).counter == g.counter,
        g.with_payload(o.id, p).counter == g.counter,
{
}

/// The identifier that a valid graph issues next, while the counter can
/// still advance, belongs to no session of the graph: every open session was
/// issued earlier and is smaller.
pub proof fn law_issued_id_is_fresh(g: GraphView)
    requires
        g.wf(),
        g.counter < i32::MAX,
    ensures
        forall|s: SessionId| g.has_session(s) ==> s <= g.counter,
        !g.has_session((g.counter + 1) as SessionId),
{
    lemma_sessions_below_counter(g);
}

/// Writing a payload finishes the object and touches no other object; the
/// object then counts as finished, which is when a further write is refused.
pub proof fn law_payload_written_once(g: GraphView, id: SId, p: PayloadView)
    requires
        g.wf(),
        g.has_object(id),
    ensures
        g.with_payload(id, p).is_finished(id),
        g.with_payload(id, p).objects.len() == g.objects.len(),
        forall|i: int|
            0 <= i < g.objects.len() ==> (#[trigger] g.with_payload(id, p).objects[i]) == (if g.objects[i].id
                == id {
                ObjectView { id, payload: Some(p) }
            } else {
                g.objects[i]
            }),
{
    let n = g.with_payload(id, p);
    let i = choose|i: int| 0 <= i < g.objects.len() && object_id_of()(#[trigger] g.objects[i]) == id;
    assert(n.objects[i] == finish_with(id, p)(g.objects[i]));
    assert(n.objects[i].id == id && n.objects[i].payload.is_some());
    assert forall|j: int| 0 <= j < g.objects.len() implies (#[trigger] n.objects[j])
        == finish_with(id, p)(g.objects[j]) by {}
}

/// If every item satisfies exactly one of two predicates, the two filtered
/// parts together are as long as the sequence.
pub proof fn lemma_filter_split<A>(s: Seq<A>, p: spec_fn(A) -> bool, q: spec_fn(A) -> bool)
    requires
        forall|x: A| #[trigger] q(x) == !p(x),
    ensures
        s.filter(p).len() + s.filter(q).len() == s.len(),
    decreases s.len(),
{
    reveal(Seq::filter);
    if s.len() > 0 {
        lemma_filter_split(s.drop_last(), p, q);
    }
}

/// The items that satisfy one of two predicates that exclude each other are
/// as many as those that satisfy the one and those that satisfy the other.
pub proof fn lemma_filter_either<A>(
    s: Seq<A>,
    either: spec_fn(A) -> bool,
    p: spec_fn(A) -> bool,
    q: spec_fn(A) -> bool,
)
    requires
        forall|x: A| #[trigger] either(x) == (p(x) || q(x)),
        forall|x: A| !(#[trigger] p(x) && q(x)),
    ensures
        s.filter(either).len() == s.filter(p).len() + s.filter(q).len(),
    decreases s.len(),
{
    reveal(Seq::filter);
    if s.len() > 0 {
        lemma_filter_either(s.drop_last(), either, p, q);
    }
}

/// The items whose session is one of `sessions`.
pub open spec fn under_any<A>(key: spec_fn(A) -> SessionId, sessions: Set<SessionId>) -> spec_fn(
    A,
) -> bool {
    |x: A| sessions.contains(key(x))
}

/// The items whose session is `s`.
pub open spec fn under<A>(key: spec_fn(A) -> SessionId, s: SessionId) -> spec_fn(A) -> bool {
    |x: A| key(x) == s
}

pub open spec fn task_session_of() -> spec_fn(TaskView) -> SessionId {
    |t: TaskView| t.id.session_id
}

pub open spec fn object_session_of() -> spec_fn(ObjectView) -> SessionId {
    |o: ObjectView| o.id.session_id
}

/// If each of the finitely many `sessions` has exactly `each` items under
/// it, then `sessions.len() * each` items are under them.
pub proof fn lemma_count_under<A>(
    s: Seq<A>,
    key: spec_fn(A) -> SessionId,
    sessions: Set<SessionId>,
    each: nat,
)
    requires
        sessions.finite(),
        forall|k: SessionId|
            #[trigger] sessions.contains(k) ==> s.filter(under(key, k)).len() == each,
    ensures
        s.filter(under_any(key, sessions)).len() == sessions.len() * each,
    decreases sessions.len(),
{
    let all = under_any(key, sessions);
    if sessions.len() == 0 {
        assert(sessions =~= Set::<SessionId>::empty());
        lemma_filter_facts(s, all);
        if s.filter(all).len() > 0 {
            assert(all(s.filter(all)[0]));
        }
        assert(sessions.len() * each == 0) by (nonlinear_arith)
            requires
                sessions.len() == 0,
        ;
    } else {
        let k = sessions.choose();
        let rest = sessions.remove(k);
        assert(sessions.contains(k));
        assert(rest.len() == sessions.len() - 1);
        lemma_count_under(s, key, rest, each);
        assert forall|x: A| #[trigger] all(x) == (under_any(key, rest)(x) || under(key, k)(x)) by {}
        assert forall|x: A| !(#[trigger] under_any(key, rest)(x) && under(key, k)(x)) by {}
        lemma_filter_either(s, all, under_any(key, rest), under(key, k));
        assert(sessions.len() * each == rest.len() * each + each) by (nonlinear_arith)
            requires
                sessions.len() == rest.len() + 1,
        ;
    }
}

/// Deleting a client that owns `n` sessions, each with `t` tasks and `o`
/// data objects under it, removes exactly `n` sessions, `n * t` tasks and
/// `n * o` data objects, and the client itself.
pub proof fn law_client_deletion_counts(g: GraphView, c: ClientId, n: nat, t: nat, o: nat)
    requires
        g.wf(),
        g.has_client(c),
        g.sessions_of(c).len() == n,
        forall|s: SessionId|
            #[trigger] g.sessions_of(c).contains(s) ==> g.tasks.filter(
                under(task_session_of(), s),
            ).len() == t,
        forall|s: SessionId|
            #[trigger] g.sessions_of(c).contains(s) ==> g.objects.filter(
                under(object_session_of(), s),
            ).len() == o,
    ensures
        g.without_client(c).clients.len() == g.clients.len() - 1,
        g.without_client(c).sessions.len() == g.sessions.len() - n,
        g.without_client(c).tasks.len() == g.tasks.len() - n * t,
        g.without_client(c).objects.len() == g.objects.len() - n * o,
        g.without_client(c).workers == g.workers,
{
    let owned = g.sessions_of(c);
    let r = Removal { sessions: owned, task: None, object: None };
    assert(owned.subset_of(g.sessions.dom()));
    vstd::set_lib::lemma_len_subset(owned, g.sessions.dom());
    lemma_count_under(g.tasks, task_session_of(), owned, t);
    lemma_count_under(g.objects, object_session_of(), owned, o);
    lemma_filter_split(g.tasks, keep_task(r), under_any(task_session_of(), owned));
    lemma_filter_split(g.objects, keep_object(r), under_any(object_session_of(), owned));
    g.sessions.lemma_remove_keys_len(owned);
    g.clients.lemma_remove_key_len(c);
}

/// Any change leaves a valid graph valid and never moves the counter back.
pub proof fn law_change_keeps_validity(g: GraphView, change: Change)
    requires
        g.wf(),
    ensures
        g.apply(change).wf(),
        g.apply(change).counter >= g.counter,
        g.apply(change).counter > g.counter ==> change is IssueId || change is AddSession,
{
    match change {
        Change::IssueId => {
            if g.counter < i32::MAX {
                lemma_with_next_id_wf(g);
            }
        },
        Change::AddWorker(w) => {
            if !g.has_worker(w.id) {
                lemma_with_worker_wf(g, w);
            }
        },
        Change::AddClient(c) => {
            if !g.has_client(c) {
                lemma_with_client_wf(g, c);
            }
        },
        Change::AddSession(c) => {
            if g.has_client(c) && g.counter < i32::MAX {
                let n = g.with_next_id();
                lemma_with_next_id_wf(g);
                lemma_sessions_below_counter(g);
                assert(!g.has_session((g.counter + 1) as SessionId));
                lemma_with_session_wf(n, Session { id: (g.counter + 1) as SessionId, client: c });
            }
        },
        Change::AddObject(o) => {
            if !g.has_object(o) && g.has_session(o.session_id) {
                lemma_with_object_wf(g, ObjectView { id: o, payload: None });
            }
        },
        Change::AddTask { id, inputs, outputs, config } => {
            if !g.has_task(id) && g.has_session(id.session_id) && g.refs_resolve(inputs)
                && g.refs_resolve(outputs) {
                lemma_with_task_wf(
                    g,
                    TaskView {
                        id,
                        inputs: inputs.map_values(some_ref()),
                        outputs: outputs.map_values(some_ref()),
                        assigned: None,
                        status: TaskStatus::Pending,
                        config,
                    },
                );
            }
        },
        Change::Assign(t, w) => {
            if g.has_task(t) && g.has_worker(w) {
                lemma_with_assignment_wf(g, t, w);
            }
        },
        Change::SetStatus(t, status) => {
            if g.has_task(t) {
                lemma_with_status_wf(g, t, status);
            }
        },
        Change::Finish(o, p) => {
            if g.has_object(o) && !g.is_finished(o) {
                lemma_with_payload_wf(g, o, p);
            }
        },
        Change::DeleteTask(t) => {
            lemma_purged_wf(g, Removal { sessions: Set::empty(), task: Some(t), object: None });
        },
        Change::DeleteObject(o) => {
            lemma_purged_wf(g, Removal { sessions: Set::empty(), task: None, object: Some(o) });
        },
        Change::DeleteSession(s) => {
            lemma_purged_wf(g, Removal { sessions: set![s], task: None, object: None });
        },
        Change::DeleteClient(c) => {
            lemma_without_client_wf(g, c);
        },
        Change::DeleteWorker(w) => {
            lemma_without_worker_wf(g, w);
        },
    }
}

/// Referential integrity holds after every sequence of creations and
/// deletions, and the counter never moves back.
pub proof fn law_every_history_is_valid(g: GraphView, changes: Seq<Change>)
    requires
        g.wf(),
    ensures
        g.apply_all(changes).wf(),
        g.apply_all(changes).counter >= g.counter,
    decreases changes.len(),
{
    if changes.len() > 0 {
        law_every_history_is_valid(g, changes.drop_last());
        law_change_keeps_validity(g.apply_all(changes.drop_last()), changes.last());
    }
}

/// Session identifiers increase strictly: an identifier issued after any
/// sequence of changes that followed an earlier issue is larger than the
/// earlier one, and it is not the identifier of any open session.
pub proof fn law_session_ids_increase(g: GraphView, between: Seq<Change>)
    requires
        g.wf(),
        g.counter < i32::MAX,
        g.with_next_id().apply_all(between).counter < i32::MAX,
    ensures
        g.with_next_id().apply_all(between).with_next_id().counter > g.with_next_id().counter,
        g.with_next_id().counter > g.counter,
        !g.with_next_id().apply_all(between).has_session(
            g.with_next_id().apply_all(between).with_next_id().counter as SessionId,
        ),
{
    lemma_with_next_id_wf(g);
    law_every_history_is_valid(g.with_next_id(), between);
    lemma_sessions_below_counter(g.with_next_id().apply_all(between));
}

/// A payload is written once: whatever changes follow, an object that is
/// finished stays finished with the payload it has, as long as it is
/// registered, and a further write to it changes nothing.
pub proof fn law_finished_payload_stays(g: GraphView, change: Change, i: int, p: PayloadView)
    requires
        g.wf(),
        0 <= i < g.objects.len(),
        g.objects[i].payload.is_some(),
    ensures
        g.apply(Change::Finish(g.objects[i].id, p)) == g,
        forall|j: int|
            0 <= j < g.apply(change).objects.len() && (#[trigger] g.apply(change).objects[j]).id
                == g.objects[i].id ==> g.apply(change).objects[j] == g.objects[i],
{
    let o = g.objects[i];
    let n = g.apply(change);
    assert(g.is_finished(o.id));
    assert forall|j: int| 0 <= j < n.objects.len() && (#[trigger] n.objects[j]).id == o.id implies n.objects[j]
        == o by {
        let x = n.objects[j];
        // every change keeps, drops or appends objects, or finishes an unfinished one
        match change {
            Change::AddObject(id) => {
                if !g.has_object(id) && g.has_session(id.session_id) {
                    if j == g.objects.len() {
                        assert(object_id_of()(g.objects[i]) == id);
                    } else {
                        assert(n.objects[j] == g.objects[j]);
                    }
                }
            },
            Change::Finish(id, p) => {
                if g.has_object(id) && !g.is_finished(id) {
                    assert(n.objects[j] == finish_with(id, p)(g.objects[j]));
                }
            },
            Change::DeleteTask(t) => {
                lemma_filter_facts(
                    g.objects,
                    keep_object(Removal { sessions: Set::empty(), task: Some(t), object: None }),
                );
            },
            Change::DeleteObject(d) => {
                lemma_filter_facts(
                    g.objects,
                    keep_object(Removal { sessions: Set::empty(), task: None, object: Some(d) }),
                );
            },
            Change::DeleteSession(s) => {
                lemma_filter_facts(
                    g.objects,
                    keep_object(Removal { sessions: set![s], task: None, object: None }),
                );
            },
            Change::DeleteClient(c) => {
                lemma_filter_facts(
                    g.objects,
                    keep_object(Removal { sessions: g.sessions_of(c), task: None, object: None }),
                );
            },
            _ => {},
        }
        if g.objects.contains(x) {
            let k = choose|k: int| 0 <= k < g.objects.len() && g.objects[k] == x;
            if k < i {
                assert(object_id_of()(g.objects[k]) != object_id_of()(g.objects[i]));
            }
            if i < k {
                assert(object_id_of()(g.objects[i]) != object_id_of()(g.objects[k]));
            }
        }
    }
}

} // verus!
