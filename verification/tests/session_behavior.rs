use rtalk_server::event::Event;
use rtalk_server::session::{DeliverOutcome, Session, QUEUE_CAPACITY};

fn drain(s: &mut Session, id: u64) -> Vec<Event> {
    let mut out = Vec::new();
    while let Some(e) = s.next_outbound(id) {
        out.push(e);
    }
    out
}

fn expect_joined(e: &Event) -> String {
    match e {
        Event::Joined(l) => l.clone(),
        _ => panic!("expected Joined"),
    }
}

fn expect_left(e: &Event) -> String {
    match e {
        Event::Left(l) => l.clone(),
        _ => panic!("expected Left"),
    }
}

fn expect_message(e: &Event) -> (String, String) {
    match e {
        Event::MessageReceived(l, t) => (l.clone(), t.clone()),
        _ => panic!("expected MessageReceived"),
    }
}

#[test]
fn ids_are_distinct_and_increasing() {
    let mut s = Session::new();
    let mut ids = Vec::new();
    for i in 0..5u32 {
        ids.push(s.add_user(format!("10.0.0.{}:1000", i)));
    }
    for w in ids.windows(2) {
        assert!(w[0] < w[1]);
    }
    let snapshot = s.user_ids();
    assert_eq!(snapshot, ids);
}

#[test]
fn anonymous_label_formatting() {
    let mut s = Session::new();
    let id = s.add_user("1.2.3.4:5".to_string());
    assert_eq!(s.get_name(id), "anonymous [1.2.3.4:5]");
}

#[test]
fn named_label_formatting() {
    let mut s = Session::new();
    let id = s.add_user("1.2.3.4:5".to_string());
    let label = s.update_user(id, "bob".to_string());
    assert_eq!(label, "bob [1.2.3.4:5]");
    assert_eq!(s.get_name(id), "bob [1.2.3.4:5]");
}

#[test]
fn broadcast_reaches_every_registered_user_once() {
    let mut s = Session::new();
    let a = s.add_user("10.0.0.1:1".to_string());
    let b = s.add_user("10.0.0.2:2".to_string());
    let c = s.add_user("10.0.0.3:3".to_string());
    let out = s.handle_event(a, Event::MessageSend("hi".to_string()));
    assert!(!out.terminate);
    assert!(out.undelivered.is_empty());
    for id in [a, b, c] {
        let got = drain(&mut s, id);
        assert_eq!(got.len(), 1);
        let (label, text) = expect_message(&got[0]);
        assert_eq!(label, "anonymous [10.0.0.1:1]");
        assert_eq!(text, "hi");
    }
    // a user registered after the broadcast holds nothing
    let d = s.add_user("10.0.0.4:4".to_string());
    assert!(drain(&mut s, d).is_empty());
}

#[test]
fn backpressure_on_one_queue_does_not_block_others() {
    let mut s = Session::new();
    let a = s.add_user("10.0.0.1:1".to_string());
    let b = s.add_user("10.0.0.2:2".to_string());
    let c = s.add_user("10.0.0.3:3".to_string());
    // saturate b's queue without draining it
    for i in 0..QUEUE_CAPACITY {
        let r = s.send_event(b, Event::MessageSend(format!("fill {}", i)));
        assert_eq!(r, DeliverOutcome::Delivered);
    }
    assert_eq!(
        s.send_event(b, Event::MessageSend("overflow".to_string())),
        DeliverOutcome::QueueFull
    );
    let out = s.handle_event(a, Event::MessageSend("hello".to_string()));
    // a and c still got the message; only b is reported undelivered
    assert_eq!(out.undelivered, vec![b]);
    for id in [a, c] {
        let got = drain(&mut s, id);
        assert_eq!(got.len(), 1);
        let (_, text) = expect_message(&got[0]);
        assert_eq!(text, "hello");
    }
}

#[test]
fn leave_removes_user_and_announces_once() {
    let mut s = Session::new();
    let a = s.add_user("10.0.0.1:1".to_string());
    let b = s.add_user("10.0.0.2:2".to_string());
    // a direct rename: no broadcast, queues stay empty
    s.update_user(a, "ann".to_string());
    let out = s.handle_event(a, Event::Leave());
    assert!(out.terminate);
    assert!(!s.user_ids().contains(&a));
    assert!(s.user_ids().contains(&b));
    // a later delivery to the leaver is silently dropped
    assert_eq!(
        s.send_event(a, Event::MessageSend("late".to_string())),
        DeliverOutcome::NotRegistered
    );
    let got = drain(&mut s, b);
    assert_eq!(got.len(), 1);
    assert_eq!(expect_left(&got[0]), "ann [10.0.0.1:1]");
}

#[test]
fn rename_twice_same_label_but_two_announcements() {
    let mut s = Session::new();
    let a = s.add_user("1.2.3.4:5".to_string());
    let b = s.add_user("6.7.8.9:10".to_string());
    let out1 = s.handle_event(a, Event::RequestJoin("bob".to_string()));
    let out2 = s.handle_event(a, Event::RequestJoin("bob".to_string()));
    assert_eq!(expect_joined(&out1.announcement), "bob [1.2.3.4:5]");
    assert_eq!(expect_joined(&out2.announcement), "bob [1.2.3.4:5]");
    let got = drain(&mut s, b);
    assert_eq!(got.len(), 2);
    assert_eq!(expect_joined(&got[0]), "bob [1.2.3.4:5]");
    assert_eq!(expect_joined(&got[1]), "bob [1.2.3.4:5]");
}

#[test]
fn outbound_queue_is_fifo() {
    let mut s = Session::new();
    let a = s.add_user("10.0.0.1:1".to_string());
    for i in 0..3 {
        let e = Event::MessageReceived("x [y:1]".to_string(), format!("m{}", i));
        assert_eq!(s.send_event(a, e), DeliverOutcome::Delivered);
    }
    let got = drain(&mut s, a);
    let texts: Vec<String> = got.iter().map(|e| expect_message(e).1).collect();
    assert_eq!(texts, vec!["m0", "m1", "m2"]);
}

#[test]
fn drain_of_unknown_or_empty_queue_is_none() {
    let mut s = Session::new();
    assert!(s.next_outbound(7).is_none());
    let a = s.add_user("10.0.0.1:1".to_string());
    assert!(s.next_outbound(a).is_none());
}

#[test]
fn client_request_kinds() {
    assert!(Event::RequestJoin("x".to_string()).is_client_request());
    assert!(Event::Leave().is_client_request());
    assert!(Event::MessageSend("x".to_string()).is_client_request());
    assert!(!Event::Joined("x".to_string()).is_client_request());
    assert!(!Event::Left("x".to_string()).is_client_request());
    assert!(!Event::MessageReceived("x".to_string(), "y".to_string()).is_client_request());
}

#[test]
fn end_to_end_scenario() {
    let mut s = Session::new();
    let c1 = s.add_user("9.9.9.9:1000".to_string());
    let c2 = s.add_user("8.8.8.8:2000".to_string());

    let out = s.handle_event(c1, Event::RequestJoin("alice".to_string()));
    assert!(!out.terminate);
    let got = drain(&mut s, c2);
    assert_eq!(got.len(), 1);
    assert_eq!(expect_joined(&got[0]), "alice [9.9.9.9:1000]");

    let out = s.handle_event(c1, Event::MessageSend("hello".to_string()));
    assert!(!out.terminate);
    let got = drain(&mut s, c2);
    assert_eq!(got.len(), 1);
    let (label, text) = expect_message(&got[0]);
    assert_eq!(label, "alice [9.9.9.9:1000]");
    assert_eq!(text, "hello");

    let out = s.handle_event(c1, Event::Leave());
    assert!(out.terminate);
    let got = drain(&mut s, c2);
    assert_eq!(got.len(), 1);
    assert_eq!(expect_left(&got[0]), "alice [9.9.9.9:1000]");
    assert!(!s.user_ids().contains(&c1));
}
