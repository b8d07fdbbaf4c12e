use taskgraph::entities::{Address, Payload, Resources, TaskStatus};
use taskgraph::graph::{Graph, GraphError};
use taskgraph::ids::{DataObjectId, SId, TaskId};
use taskgraph::refs::{ClientRef, DataObjectRef, SessionRef, TaskRef, WorkerRef};

fn create_test_graph(workers: i32, clients: i32, sessions: i32, tasks: i32, objects: i32) -> Graph {
    let mut g = Graph::new();
    for wi in 0..workers {
        let _w = WorkerRef::new(
            &mut g,
            (wi + 1) as u64,
            Address { host: (wi + 1) as u32, port: 67 },
            Resources { n_cpus: 8 },
        )
        .unwrap();
    }
    for ci in 0..clients {
        let c = ClientRef::new(&mut g, (ci + 1) as u64).unwrap();
        for _si in 0..sessions {
            let s = SessionRef::new(&mut g, &c).unwrap();
            for ti in 0..tasks {
                let _t = TaskRef::new(&mut g, &s, TaskId::new(s.get_id(), ti), vec![], vec![], vec![])
                    .unwrap();
            }
            for oi in 0..objects {
                let _o =
                    DataObjectRef::new(&mut g, &s, DataObjectId::new(s.get_id(), oi + tasks)).unwrap();
            }
        }
    }
    g
}

#[test]
fn graph_create_delete() {
    let mut g = create_test_graph(4, 2, 3, 10, 20);

    assert!(!(g.n_objects() == 0));
    assert!(!(g.n_workers() == 0));

    let client_rcs: Vec<_> = g.client_ids().into_iter().map(|id| ClientRef { id }).collect();
    let worker_rcs: Vec<_> = g.worker_ids().into_iter().map(|id| WorkerRef { id }).collect();
    for c in client_rcs {
        c.delete(&mut g).unwrap();
    }
    for w in worker_rcs {
        w.delete(&mut g).unwrap();
    }

    assert!(g.n_clients() == 0);
    assert!(g.n_workers() == 0);
    assert!(g.n_tasks() == 0);
    assert!(g.n_objects() == 0);
    assert!(g.n_sessions() == 0);
}

#[test]
fn new_graph_is_empty() {
    let g = Graph::new();
    assert_eq!(g.n_workers(), 0);
    assert_eq!(g.n_clients(), 0);
    assert_eq!(g.n_sessions(), 0);
    assert_eq!(g.n_tasks(), 0);
    assert_eq!(g.n_objects(), 0);
    assert_eq!(g.session_counter(), 0);
}

#[test]
fn client_deletion_cascades_and_spares_the_worker() {
    let mut g = Graph::new();
    g.add_worker(1, Address { host: 1, port: 67 }, Resources { n_cpus: 8 }).unwrap();
    g.add_client(1).unwrap();
    let s1 = g.add_session(1).unwrap();
    g.add_task(TaskId::new(s1, 1), vec![], vec![], vec![]).unwrap();
    assert_eq!(g.n_tasks(), 1);
    g.delete_client(1).unwrap();
    assert_eq!(g.n_clients(), 0);
    assert_eq!(g.n_sessions(), 0);
    assert_eq!(g.n_tasks(), 0);
    assert_eq!(g.n_workers(), 1);
    assert_eq!(g.get_worker(1).unwrap().resources.n_cpus, 8);
}

#[test]
fn client_deletion_removes_exact_counts() {
    let mut g = create_test_graph(4, 2, 3, 10, 20);
    assert_eq!(g.n_sessions(), 6);
    assert_eq!(g.n_tasks(), 60);
    assert_eq!(g.n_objects(), 120);
    let mut owned = g.sessions_of(1);
    owned.sort();
    assert_eq!(owned, vec![1, 2, 3]);
    g.delete_client(1).unwrap();
    assert_eq!(g.n_clients(), 1);
    assert!(g.has_client(2));
    assert!(!g.has_client(1));
    assert_eq!(g.n_sessions(), 3);
    assert_eq!(g.n_tasks(), 30);
    assert_eq!(g.n_objects(), 60);
    assert_eq!(g.n_workers(), 4);
    let mut left = g.worker_ids();
    left.sort();
    assert_eq!(left, vec![1, 2, 3, 4]);
    assert!(g.get_session(1).is_none());
    assert_eq!(g.get_session(4).unwrap().client, 2);
    assert!(g.get_task(SId::new(1, 0)).is_none());
    assert!(g.get_task(SId::new(4, 0)).is_some());
    assert!(g.get_object(SId::new(3, 29)).is_none());
    assert!(g.get_object(SId::new(6, 29)).is_some());
}

#[test]
fn worker_deletion_unassigns_its_tasks() {
    let mut g = create_test_graph(2, 1, 1, 3, 0);
    g.assign_task(SId::new(1, 0), 1).unwrap();
    g.assign_task(SId::new(1, 1), 1).unwrap();
    g.assign_task(SId::new(1, 2), 2).unwrap();
    assert_eq!(g.tasks_of(1), vec![SId::new(1, 0), SId::new(1, 1)]);
    g.delete_worker(1).unwrap();
    assert_eq!(g.n_tasks(), 3);
    assert_eq!(g.n_workers(), 1);
    assert_eq!(g.get_task(SId::new(1, 0)).unwrap().assigned, None);
    assert_eq!(g.get_task(SId::new(1, 1)).unwrap().assigned, None);
    assert_eq!(g.get_task(SId::new(1, 2)).unwrap().assigned, Some(2));
    assert_eq!(g.tasks_of(1), Vec::<SId>::new());
}

#[test]
fn session_ids_increase_between_other_mutations() {
    let mut g = Graph::new();
    let a = g.new_session_id();
    g.add_worker(7, Address { host: 7, port: 67 }, Resources { n_cpus: 1 }).unwrap();
    let b = g.new_session_id();
    g.add_client(3).unwrap();
    let c = g.add_session(3).unwrap();
    g.delete_client(3).unwrap();
    let d = g.new_session_id();
    g.delete_worker(7).unwrap();
    let e = g.new_session_id();
    assert_eq!(vec![a, b, c, d, e], vec![1, 2, 3, 4, 5]);
    assert_eq!(g.session_counter(), 5);
}

#[test]
fn payload_is_written_once() {
    let mut g = create_test_graph(0, 1, 1, 0, 2);
    let o = SId::new(1, 0);
    assert!(!g.get_object(o).unwrap().is_finished());
    g.finish_object(o, Payload::Memory(vec![1, 2, 3])).unwrap();
    assert!(g.get_object(o).unwrap().is_finished());
    let again = g.finish_object(o, Payload::File("elsewhere".to_string()));
    assert_eq!(again, Err(GraphError::AlreadyFinished));
    match &g.get_object(o).unwrap().payload {
        Some(Payload::Memory(b)) => assert_eq!(b, &vec![1u8, 2, 3]),
        _ => panic!("payload was replaced"),
    }
    assert!(!g.get_object(SId::new(1, 1)).unwrap().is_finished());
    g.finish_object(SId::new(1, 1), Payload::File("data/1".to_string())).unwrap();
    match &g.get_object(SId::new(1, 1)).unwrap().payload {
        Some(Payload::File(p)) => assert_eq!(p, "data/1"),
        _ => panic!("payload is not the file"),
    }
}

#[test]
fn object_deletion_detaches_it_from_tasks() {
    let mut g = create_test_graph(0, 1, 1, 0, 3);
    let (a, b, c) = (SId::new(1, 0), SId::new(1, 1), SId::new(1, 2));
    g.add_task(SId::new(1, 10), vec![a, b], vec![c], vec![9]).unwrap();
    g.add_task(SId::new(1, 11), vec![b, c, b], vec![], vec![]).unwrap();
    g.delete_object(b).unwrap();
    assert_eq!(g.n_objects(), 2);
    assert_eq!(g.get_task(SId::new(1, 10)).unwrap().inputs, vec![Some(a), None]);
    assert_eq!(g.get_task(SId::new(1, 10)).unwrap().outputs, vec![Some(c)]);
    assert_eq!(g.get_task(SId::new(1, 10)).unwrap().config, vec![9u8]);
    assert_eq!(g.get_task(SId::new(1, 11)).unwrap().inputs, vec![None, Some(c), None]);
    g.delete_task(SId::new(1, 10)).unwrap();
    assert_eq!(g.n_tasks(), 1);
    assert_eq!(g.n_objects(), 2);
}

#[test]
fn session_deletion_detaches_objects_used_elsewhere() {
    let mut g = Graph::new();
    g.add_client(1).unwrap();
    g.add_client(2).unwrap();
    let s1 = g.add_session(1).unwrap();
    let s2 = g.add_session(2).unwrap();
    g.add_object(SId::new(s1, 0)).unwrap();
    g.add_object(SId::new(s2, 0)).unwrap();
    g.add_task(SId::new(s2, 1), vec![SId::new(s1, 0), SId::new(s2, 0)], vec![], vec![]).unwrap();
    g.delete_session(s1).unwrap();
    assert_eq!(g.n_sessions(), 1);
    assert_eq!(g.n_objects(), 1);
    assert_eq!(g.n_clients(), 2);
    assert_eq!(g.get_task(SId::new(s2, 1)).unwrap().inputs, vec![None, Some(SId::new(s2, 0))]);
}

#[test]
fn misuse_is_refused_and_changes_nothing() {
    let mut g = create_test_graph(1, 1, 1, 1, 1);
    assert_eq!(
        g.add_worker(1, Address { host: 9, port: 9 }, Resources { n_cpus: 2 }),
        Err(GraphError::DuplicateId)
    );
    assert_eq!(g.get_worker(1).unwrap().address, Address { host: 1, port: 67 });
    assert_eq!(g.get_worker(1).unwrap().resources.n_cpus, 8);
    assert_eq!(g.add_client(1), Err(GraphError::DuplicateId));
    assert_eq!(g.add_session(9), Err(GraphError::UnknownId));
    assert_eq!(g.add_object(SId::new(1, 1)), Err(GraphError::DuplicateId));
    assert_eq!(g.add_object(SId::new(5, 1)), Err(GraphError::UnknownId));
    assert_eq!(g.add_task(SId::new(1, 0), vec![], vec![], vec![]), Err(GraphError::DuplicateId));
    assert_eq!(g.add_task(SId::new(5, 0), vec![], vec![], vec![]), Err(GraphError::UnknownId));
    assert_eq!(
        g.add_task(SId::new(1, 7), vec![SId::new(1, 99)], vec![], vec![]),
        Err(GraphError::UnknownId)
    );
    assert_eq!(
        g.add_task(SId::new(1, 7), vec![], vec![SId::new(1, 99)], vec![]),
        Err(GraphError::UnknownId)
    );
    assert_eq!(g.assign_task(SId::new(1, 0), 2), Err(GraphError::UnknownId));
    assert_eq!(g.assign_task(SId::new(1, 5), 1), Err(GraphError::UnknownId));
    assert_eq!(g.set_task_status(SId::new(1, 5), TaskStatus::Failed), Err(GraphError::UnknownId));
    assert_eq!(g.finish_object(SId::new(1, 5), Payload::Memory(vec![])), Err(GraphError::UnknownId));
    assert_eq!(g.delete_client(2), Err(GraphError::UnknownId));
    assert_eq!(g.delete_worker(2), Err(GraphError::UnknownId));
    assert_eq!(g.delete_session(2), Err(GraphError::UnknownId));
    assert_eq!(g.delete_task(SId::new(1, 5)), Err(GraphError::UnknownId));
    assert_eq!(g.delete_object(SId::new(1, 5)), Err(GraphError::UnknownId));
    assert_eq!(g.n_workers(), 1);
    assert_eq!(g.n_clients(), 1);
    assert_eq!(g.n_sessions(), 1);
    assert_eq!(g.n_tasks(), 1);
    assert_eq!(g.n_objects(), 1);
    assert_eq!(g.session_counter(), 1);
}

#[test]
fn session_counter_stops_at_its_limit() {
    assert!(Graph::starting_after(-1).is_none());
    let mut g = Graph::starting_after(i32::MAX - 1).unwrap();
    g.add_client(1).unwrap();
    assert!(g.can_issue_session_id());
    assert_eq!(g.add_session(1), Ok(i32::MAX));
    assert!(!g.can_issue_session_id());
    assert_eq!(g.add_session(1), Err(GraphError::SessionIdsExhausted));
    assert_eq!(g.n_sessions(), 1);
}

#[test]
fn identifiers_keep_their_parts() {
    let id = SId::new(4, 17);
    assert_eq!(id.get_session_id(), 4);
    assert_eq!(id.get_id(), 17);
    assert_eq!(id, SId { session_id: 4, id: 17 });
}

#[test]
fn task_result_is_recorded_and_survives_its_worker() {
    let mut g = create_test_graph(1, 1, 1, 2, 0);
    assert_eq!(g.get_task(SId::new(1, 0)).unwrap().status, TaskStatus::Pending);
    g.assign_task(SId::new(1, 0), 1).unwrap();
    g.set_task_status(SId::new(1, 0), TaskStatus::Succeeded).unwrap();
    g.set_task_status(SId::new(1, 1), TaskStatus::Failed).unwrap();
    assert_eq!(g.get_task(SId::new(1, 0)).unwrap().assigned, Some(1));
    g.delete_worker(1).unwrap();
    assert_eq!(g.get_task(SId::new(1, 0)).unwrap().status, TaskStatus::Succeeded);
    assert_eq!(g.get_task(SId::new(1, 0)).unwrap().assigned, None);
    assert_eq!(g.get_task(SId::new(1, 1)).unwrap().status, TaskStatus::Failed);
}

#[test]
fn consumers_and_producer_follow_the_task_lists() {
    let mut g = create_test_graph(0, 1, 1, 0, 3);
    let (a, b, c) = (SId::new(1, 0), SId::new(1, 1), SId::new(1, 2));
    g.add_task(SId::new(1, 10), vec![a, b], vec![c], vec![]).unwrap();
    g.add_task(SId::new(1, 11), vec![c, a], vec![], vec![]).unwrap();
    assert_eq!(g.consumers_of(a), vec![SId::new(1, 10), SId::new(1, 11)]);
    assert_eq!(g.consumers_of(b), vec![SId::new(1, 10)]);
    assert_eq!(g.consumers_of(c), vec![SId::new(1, 11)]);
    assert_eq!(g.producer_of(c), Some(SId::new(1, 10)));
    assert_eq!(g.producers_of(c), vec![SId::new(1, 10)]);
    assert_eq!(g.producer_of(a), None);
    g.delete_task(SId::new(1, 10)).unwrap();
    assert_eq!(g.producer_of(c), None);
    assert_eq!(g.consumers_of(a), vec![SId::new(1, 11)]);
    assert!(g.get_object(c).is_some());
}

#[test]
fn handles_create_and_delete_through_the_graph() {
    let mut g = Graph::new();
    let w = WorkerRef::new(&mut g, 3, Address { host: 3, port: 67 }, Resources { n_cpus: 8 }).unwrap();
    let c = ClientRef::new(&mut g, 5).unwrap();
    let s = SessionRef::new(&mut g, &c).unwrap();
    assert_eq!((w.get_id(), c.get_id(), s.get_id()), (3, 5, 1));
    let o = DataObjectRef::new(&mut g, &s, SId::new(1, 0)).unwrap();
    let t = TaskRef::new(&mut g, &s, SId::new(1, 1), vec![o.get_id()], vec![], vec![]).unwrap();
    assert_eq!(t.get_id(), SId::new(1, 1));
    assert_eq!(ClientRef::new(&mut g, 5), Err(GraphError::DuplicateId));
    assert_eq!(DataObjectRef::new(&mut g, &s, SId::new(2, 0)), Err(GraphError::InvalidId));
    assert_eq!(
        TaskRef::new(&mut g, &s, SId::new(2, 1), vec![], vec![], vec![]),
        Err(GraphError::InvalidId)
    );
    assert_eq!(SessionRef::new(&mut g, &ClientRef { id: 6 }), Err(GraphError::UnknownId));
    assert_eq!((g.n_tasks(), g.n_objects(), g.n_sessions()), (1, 1, 1));
    o.delete(&mut g).unwrap();
    assert_eq!(g.get_task(t.get_id()).unwrap().inputs, vec![None]);
    assert_eq!(o.delete(&mut g), Err(GraphError::UnknownId));
    t.delete(&mut g).unwrap();
    assert_eq!(t.delete(&mut g), Err(GraphError::UnknownId));
    s.delete(&mut g).unwrap();
    assert_eq!(s.delete(&mut g), Err(GraphError::UnknownId));
    c.delete(&mut g).unwrap();
    assert_eq!(c.delete(&mut g), Err(GraphError::UnknownId));
    w.delete(&mut g).unwrap();
    assert_eq!(w.delete(&mut g), Err(GraphError::UnknownId));
    assert_eq!((g.n_workers(), g.n_clients(), g.n_sessions(), g.n_tasks(), g.n_objects()), (0, 0, 0, 0, 0));
    assert_eq!(g.session_counter(), 1);
}

#[test]
fn default_graph_is_the_empty_graph() {
    let g = Graph::default();
    assert_eq!((g.n_workers(), g.n_clients(), g.n_sessions(), g.n_tasks(), g.n_objects()), (0, 0, 0, 0, 0));
    assert_eq!(g.session_counter(), 0);
    assert!(g.can_issue_session_id());
}

#[test]
fn listings_name_each_worker_and_client_once() {
    let mut g = create_test_graph(3, 2, 0, 0, 0);
    let mut workers = g.worker_ids();
    workers.sort();
    let mut clients = g.client_ids();
    clients.sort();
    assert_eq!(workers, vec![1, 2, 3]);
    assert_eq!(clients, vec![1, 2]);
    g.delete_worker(2).unwrap();
    g.delete_client(1).unwrap();
    let mut workers = g.worker_ids();
    workers.sort();
    assert_eq!(workers, vec![1, 3]);
    assert_eq!(g.client_ids(), vec![2]);
    assert_eq!(g.session_ids(), Vec::<i32>::new());
    let s = g.add_session(2).unwrap();
    let t = g.add_session(2).unwrap();
    let mut open = g.session_ids();
    open.sort();
    assert_eq!(open, vec![s, t]);
    assert_eq!((s, t), (1, 2));
    assert_eq!(g.get_session(t).unwrap().client, 2);
    g.delete_session(s).unwrap();
    assert_eq!(g.session_ids(), vec![t]);
    assert_eq!(g.sessions_of(2), vec![t]);
    assert_eq!(g.sessions_of(1), Vec::<i32>::new());
    assert!(g.get_worker(2).is_none());
    assert_eq!(g.get_worker(3).unwrap().id, 3);
}
