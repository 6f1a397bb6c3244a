use rustforge::engine_mod::{
    handles_call, metadata, on_cgrpc, on_custom, on_start, run, CustomEvent, FibTask, Identifier,
    LibraryMetadata, ModAction, MAX_ITER,
};

fn computed(iter: u64) -> u64 {
    let mut task = FibTask { iter, result: 99 };
    task.run_cpu();
    assert_eq!(task.iter, iter);
    task.result
}

#[test]
fn task_computes_fibonacci_numbers() {
    let expected = [0, 1, 1, 2, 3, 5, 8, 13, 21, 34, 55];
    for (iter, number) in expected.iter().enumerate() {
        assert_eq!(computed(iter as u64), *number);
    }
    assert_eq!(computed(50), 12586269025);
}

#[test]
fn task_runs_up_to_its_limit() {
    assert_eq!(MAX_ITER, 92);
    assert_eq!(computed(MAX_ITER), 7540113804746346429);
    let next = computed(MAX_ITER).checked_add(computed(MAX_ITER - 1)).expect("the number after it fits");
    assert_eq!(next, 12200160415121876738);
    assert!(next.checked_add(computed(MAX_ITER)).is_none());
}

#[test]
fn task_starts_from_nothing() {
    let task = FibTask::default();
    assert_eq!((task.iter, task.result), (0, 0));
    let id = task.get_id();
    assert_eq!((id.namespace.as_str(), id.name.as_str()), ("engine_mod", "fib"));
}

#[test]
fn mod_says_what_it_is() {
    let meta = metadata();
    assert_eq!(meta.mod_id, "engine_mod");
    assert_eq!(meta.mod_author, "@ign-styly");
    assert_eq!(meta.mod_name, "Engine mod Demo");
    assert_eq!(meta.mod_version, "0.0.1");
}

#[test]
fn custom_event_is_logged() {
    let event = CustomEvent { cancelled: true, message: "hi".to_owned() };
    assert_eq!(on_custom(&event), "custom_event: hi");
}

#[test]
fn call_to_the_mod_is_echoed() {
    let id = Identifier { namespace: "engine_mod".to_owned(), name: "grpc".to_owned() };
    assert!(handles_call(&id));
    let mut output = vec![1, 2];
    let line = on_cgrpc(&id, &vec![3, 4], &mut output);
    assert_eq!(output, vec![1, 2, 3, 4]);
    assert_eq!(line.as_deref(), Some("handled cgrpc_event for engine_mod.grpc"));
}

#[test]
fn call_to_another_mod_is_left_alone() {
    for (namespace, name) in [("engine_mod", "fib"), ("core", "grpc"), ("", "")] {
        let id = Identifier { namespace: namespace.to_owned(), name: name.to_owned() };
        assert!(!handles_call(&id));
        let mut output = vec![1, 2];
        assert_eq!(on_cgrpc(&id, &vec![3], &mut output), None);
        assert_eq!(output, vec![1, 2]);
    }
}

#[test]
fn start_is_logged_for_each_mod() {
    let other = LibraryMetadata {
        mod_id: "other".to_owned(),
        mod_author: "someone".to_owned(),
        mod_name: "Other".to_owned(),
        mod_version: "1".to_owned(),
    };
    let modules = vec![metadata(), other];
    assert_eq!(
        on_start(&modules, &metadata()),
        vec![
            "Module loaded: engine_mod (Engine mod Demo)",
            "Module loaded: other (Other)",
            "StartEvent handled by Engine mod Demo by @ign-styly",
        ]
    );
    assert_eq!(on_start(&vec![], &metadata()).len(), 1);
}

#[test]
fn mod_registers_greets_and_fires() {
    let actions = run();
    assert_eq!(actions.len(), 3);
    match &actions[0] {
        ModAction::Register { task, id } => {
            assert_eq!((task.iter, task.result), (0, 0));
            assert_eq!((id.namespace.as_str(), id.name.as_str()), ("engine_mod", "fib"));
        }
        _ => panic!("the task comes first"),
    }
    assert!(matches!(&actions[1], ModAction::Log(line) if line == "Hello world from mod!"));
    match &actions[2] {
        ModAction::Fire(event) => {
            assert!(!event.cancelled);
            assert_eq!(event.message, "hello from engine_mod");
        }
        _ => panic!("the event comes last"),
    }
}
