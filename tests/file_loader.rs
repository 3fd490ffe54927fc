use klgl::{
    Completion, FileDataHandle, FileId, FileLoader, Rejected, Requested,
};

type Callback = Box<dyn FnOnce(&FileDataHandle)>;

fn deliver(loader: &FileLoader<&'static str>, name: &str, bytes: &[u8]) {
    let sender = loader.completion_sender();
    assert!(sender.try_send((name.to_string(), bytes.to_vec())).is_ok());
}

fn labels(callbacks: &[(&'static str, FileDataHandle)]) -> Vec<&'static str> {
    callbacks.iter().map(|(c, _)| *c).collect()
}

#[test]
fn file_loader_test_add() {
    let mut loader: FileLoader<Callback> = FileLoader::new();
    loader.get_or_request(
        "why hello",
        Box::new(|x: &FileDataHandle| {
            println!("ready: {:?}", x);
        }),
    );
    loader.poll();

    let expected: String = "why hello".into();
    assert_eq!(loader.path_by_id(FileId(0)), Some(expected));
}

#[test]
fn resources_test_add() {
    let mut loader: FileLoader<Callback> = FileLoader::new();
    loader.get_or_request(
        "why hello",
        Box::new(|x: &FileDataHandle| {
            println!("ready: {:?}", x);
        }),
    );
    loader.poll();
}

#[test]
fn three_requests_one_fetch_callbacks_in_order() {
    let mut loader: FileLoader<&'static str> = FileLoader::new();
    let bytes = vec![1u8, 2, 3, 4];
    for c in ["C1", "C2", "C3"] {
        match loader.get_or_request("a.png", c) {
            Requested::Waiting(id) => assert_eq!(id, FileId(0)),
            Requested::Ready(..) => panic!("nothing is ready before a poll"),
        }
    }
    assert_eq!(loader.take_fetches(), vec!["a.png".to_string()]);
    assert!(loader.take_fetches().is_empty());

    deliver(&loader, "a.png", &bytes);
    let polled = loader.poll();
    assert_eq!(labels(&polled.callbacks), vec!["C1", "C2", "C3"]);
    for (_, file) in &polled.callbacks {
        assert_eq!(file.id, FileId(0));
        assert_eq!(file.data, bytes);
    }
    assert_eq!(polled.resolved.len(), 1);
    assert!(polled.rejected.is_empty());

    let again = loader.poll();
    assert!(again.callbacks.is_empty());
    assert!(loader.take_fetches().is_empty());
}

#[test]
fn failed_fetch_stays_pending() {
    let mut loader: FileLoader<&'static str> = FileLoader::new();
    loader.get_or_request("missing.png", "C1");
    assert_eq!(loader.take_fetches(), vec!["missing.png".to_string()]);
    for _ in 0..3 {
        let polled = loader.poll();
        assert!(polled.callbacks.is_empty());
        assert!(polled.resolved.is_empty());
        assert!(polled.rejected.is_empty());
        assert!(loader.is_pending("missing.png"));
        assert!(loader.try_get_file("missing.png").is_none());
    }
}

#[test]
fn completion_for_unrequested_name_is_dropped() {
    let mut loader: FileLoader<&'static str> = FileLoader::new();
    deliver(&loader, "never.png", &[9, 9]);
    let polled = loader.poll();
    assert!(polled.callbacks.is_empty());
    assert!(polled.resolved.is_empty());
    assert_eq!(polled.rejected.len(), 1);
    match &polled.rejected[0] {
        Rejected::Unexpected(name) => assert_eq!(name, "never.png"),
        Rejected::Duplicate(_) => panic!("the name was never requested"),
    }
    assert!(loader.try_get_file("never.png").is_none());
    assert!(!loader.is_pending("never.png"));
    assert_eq!(loader.path_by_id(FileId(0)), None);
    assert!(loader.take_fetches().is_empty());
}

#[test]
fn endpoint_receives_one_message() {
    let mut loader: FileLoader<&'static str> = FileLoader::new();
    let endpoint = loader.make_endpoint();
    let id = endpoint.request(&mut loader, "b.png");
    assert!(endpoint.receiver.try_recv().is_err());
    assert_eq!(loader.take_fetches(), vec!["b.png".to_string()]);

    deliver(&loader, "b.png", &[7, 8]);
    let polled = loader.poll();
    assert!(polled.callbacks.is_empty());

    let message = endpoint.receiver.try_recv().expect("one message");
    assert_eq!(message.id, id);
    assert_eq!(message.data, vec![7, 8]);
    assert!(endpoint.receiver.try_recv().is_err());
}

#[test]
fn endpoint_request_for_ready_name_is_served_at_once() {
    let mut loader: FileLoader<&'static str> = FileLoader::new();
    loader.get_or_request("c.png", "C1");
    deliver(&loader, "c.png", &[5]);
    loader.poll();

    let endpoint = loader.make_endpoint();
    let id = endpoint.request(&mut loader, "c.png");
    assert_eq!(id, FileId(0));
    let message = endpoint.receiver.try_recv().expect("served without a poll");
    assert_eq!(message.data, vec![5]);
    assert!(loader.take_fetches().len() == 1);
}

#[test]
fn endpoints_get_distinct_ids() {
    let mut loader: FileLoader<&'static str> = FileLoader::new();
    let first = loader.make_endpoint();
    let second = loader.make_endpoint();
    assert_eq!(first.id().0, 0);
    assert_eq!(second.id().0, 1);
}

#[test]
fn try_get_before_and_after_poll() {
    let mut loader: FileLoader<&'static str> = FileLoader::new();
    loader.get_or_request("d.png", "C1");
    assert!(loader.try_get_file("d.png").is_none());
    deliver(&loader, "d.png", &[1, 1, 2]);
    assert!(loader.try_get_file("d.png").is_none());
    loader.poll();
    let file = loader.try_get_file("d.png").expect("ready after the poll");
    assert_eq!(file.data, vec![1, 1, 2]);
    assert!(loader.try_get_resource("d.png").is_some());
    assert!(loader.try_get_file("other.png").is_none());
}

#[test]
fn ready_name_hands_callback_back_at_once() {
    let mut loader: FileLoader<&'static str> = FileLoader::new();
    loader.get_or_request("e.png", "C1");
    deliver(&loader, "e.png", &[3]);
    loader.poll();

    match loader.get_or_request("e.png", "C2") {
        Requested::Ready(id, c, file) => {
            assert_eq!(id, FileId(0));
            assert_eq!(c, "C2");
            assert_eq!(file.data, vec![3]);
        }
        Requested::Waiting(_) => panic!("the data is ready"),
    }
    assert!(loader.poll().callbacks.is_empty());
}

#[test]
fn ids_are_stable_and_distinct() {
    let mut loader: FileLoader<&'static str> = FileLoader::new();
    let a = loader.get_or_request("a", "x").id();
    let b = loader.get_or_request("b", "y").id();
    let a2 = loader.get_or_request("a", "z").id();
    assert_eq!(a, FileId(0));
    assert_eq!(b, FileId(1));
    assert_eq!(a2, a);
    assert_ne!(a, b);
    deliver(&loader, "a", &[1]);
    loader.poll();
    assert_eq!(loader.get_or_request("a", "w").id(), a);
    assert_eq!(loader.path_by_id(b), Some("b".to_string()));
    assert_eq!(loader.path_by_id(FileId(2)), None);
}

#[test]
fn waiters_served_in_registration_order() {
    let mut loader: FileLoader<&'static str> = FileLoader::new();
    let endpoint = loader.make_endpoint();
    loader.get_or_request("f.png", "first");
    endpoint.request(&mut loader, "f.png");
    loader.get_or_request("f.png", "second");
    loader.get_or_request("g.png", "other");
    loader.get_or_request("f.png", "third");
    assert_eq!(
        loader.take_fetches(),
        vec!["f.png".to_string(), "g.png".to_string()]
    );

    deliver(&loader, "g.png", &[2]);
    deliver(&loader, "f.png", &[1]);
    let polled = loader.poll();
    assert_eq!(labels(&polled.callbacks), vec!["other", "first", "second", "third"]);
    let ids: Vec<FileId> = polled.resolved.iter().map(|f| f.id).collect();
    assert_eq!(ids, vec![FileId(1), FileId(0)]);
    assert_eq!(endpoint.receiver.try_recv().expect("endpoint served").data, vec![1]);
}

#[test]
fn try_get_repeats_the_same_bytes() {
    let mut loader: FileLoader<&'static str> = FileLoader::new();
    loader.get_or_request("h.png", "C1");
    deliver(&loader, "h.png", &[4, 2]);
    loader.poll();
    let first = loader.try_get_file("h.png").expect("ready");
    for _ in 0..3 {
        let again = loader.try_get_file("h.png").expect("still ready");
        assert_eq!(again.data, first.data);
        assert_eq!(again.id, first.id);
    }
}

#[test]
fn duplicate_completion_is_dropped() {
    let mut loader: FileLoader<&'static str> = FileLoader::new();
    loader.get_or_request("i.png", "C1");
    deliver(&loader, "i.png", &[1]);
    deliver(&loader, "i.png", &[2]);
    let polled = loader.poll();
    assert_eq!(labels(&polled.callbacks), vec!["C1"]);
    assert_eq!(polled.rejected.len(), 1);
    match &polled.rejected[0] {
        Rejected::Duplicate(name) => assert_eq!(name, "i.png"),
        Rejected::Unexpected(_) => panic!("the name was requested"),
    }
    assert_eq!(loader.try_get_file("i.png").expect("ready").data, vec![1]);
}

#[test]
fn complete_reports_each_outcome() {
    let mut loader: FileLoader<&'static str> = FileLoader::new();
    assert!(matches!(loader.complete("j.png", vec![1]), Completion::Unexpected));
    loader.get_or_request("j.png", "C1");
    loader.get_or_request("j.png", "C2");
    match loader.complete("j.png", vec![6, 6]) {
        Completion::Resolved(file, waiters) => {
            assert_eq!(file.id, FileId(0));
            assert_eq!(file.data, vec![6, 6]);
            assert_eq!(waiters.len(), 2);
        }
        _ => panic!("the name was pending"),
    }
    assert!(matches!(loader.complete("j.png", vec![7]), Completion::Duplicate));
    assert_eq!(loader.try_get_file("j.png").expect("ready").data, vec![6, 6]);
}

#[test]
fn empty_data_is_still_data() {
    let mut loader: FileLoader<&'static str> = FileLoader::new();
    loader.get_or_request("empty.bin", "C1");
    deliver(&loader, "empty.bin", &[]);
    let polled = loader.poll();
    assert_eq!(polled.callbacks.len(), 1);
    assert!(loader.try_get_file("empty.bin").expect("ready").data.is_empty());
}

#[test]
fn room_for_new_names() {
    let mut loader: FileLoader<&'static str> = FileLoader::new();
    assert!(loader.has_room_for("k.png"));
    loader.get_or_request("k.png", "C1");
    assert!(loader.has_room_for("k.png"));
}

#[test]
fn endpoint_registration_is_visible() {
    let mut loader: FileLoader<&'static str> = FileLoader::new();
    assert!(!loader.has_endpoint(klgl::EndpointId(0)));
    let endpoint = loader.make_endpoint();
    assert!(loader.has_endpoint(endpoint.id()));
    assert!(!loader.has_endpoint(klgl::EndpointId(1)));
    assert!(endpoint.receiver.try_recv().is_err());
}

#[test]
fn endpoint_asking_twice_gets_two_messages() {
    let mut loader: FileLoader<&'static str> = FileLoader::new();
    let endpoint = loader.make_endpoint();
    let other = loader.make_endpoint();
    endpoint.request(&mut loader, "m.png");
    endpoint.request(&mut loader, "m.png");
    deliver(&loader, "m.png", &[8]);
    loader.poll();
    assert_eq!(endpoint.receiver.try_recv().expect("first").data, vec![8]);
    assert_eq!(endpoint.receiver.try_recv().expect("second").data, vec![8]);
    assert!(endpoint.receiver.try_recv().is_err());
    assert!(other.receiver.try_recv().is_err());
}
