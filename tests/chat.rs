use chat_tasks::{
    handshake_step, prompt, receive_step, recipients, ChunkEvent, Delivery, LineEvent,
    RegisterError, Registry, SessionState,
};

fn s(x: &str) -> String {
    x.to_string()
}

fn pairs(ds: &[Delivery]) -> Vec<(String, String)> {
    ds.iter().map(|d| (d.recipient.clone(), d.text.clone())).collect()
}

fn registry_of(clients: &[(&str, &str)]) -> Registry {
    let mut r = Registry::new();
    for (id, name) in clients {
        r.register(&s(id), name).unwrap();
    }
    r
}

#[test]
fn prompt_text_is_sent_once_per_connection() {
    assert_eq!(prompt(), "Enter username: ");
}

#[test]
fn register_stores_trimmed_name() {
    let mut r = Registry::new();
    assert_eq!(r.register(&s("1.1.1.1:1"), "  alice \r\n"), Ok(s("alice")));
    assert!(r.is_registered(&s("1.1.1.1:1")));
    assert!(r.name_taken(&s("alice")));
    assert!(!r.name_taken(&s("  alice ")));
    assert_eq!(r.sender_label(&s("1.1.1.1:1")), "alice");
    assert_eq!(r.len(), 1);
}

#[test]
fn blank_names_are_refused_without_entry() {
    let mut r = Registry::new();
    for line in ["", "\n", "   \r\n", "\t \u{3000}"] {
        assert_eq!(r.register(&s("x:1"), line), Err(RegisterError::EmptyName));
    }
    assert_eq!(r.len(), 0);
    assert!(!r.is_registered(&s("x:1")));
}

#[test]
fn names_are_case_sensitive() {
    let mut r = registry_of(&[("x:1", "Bob")]);
    assert_eq!(r.register(&s("x:2"), "bob\n"), Ok(s("bob")));
    assert_eq!(r.len(), 2);
}

#[test]
fn second_registration_of_a_connection_is_refused() {
    let mut r = registry_of(&[("x:1", "a")]);
    assert_eq!(r.register(&s("x:1"), "b"), Err(RegisterError::AlreadyRegistered));
    assert_eq!(r.sender_label(&s("x:1")), "a");
}

#[test]
fn two_connections_race_for_the_same_name() {
    let mut r = Registry::new();
    let first = handshake_step(&mut r, &s("x:1"), &LineEvent::Line(s("dup\n")));
    let second = handshake_step(&mut r, &s("x:2"), &LineEvent::Line(s("dup\n")));
    assert_eq!(first.state, SessionState::Registered);
    assert_eq!(first.reply, Some(s("Welcome!\n")));
    assert_eq!(second.state, SessionState::AwaitingName);
    assert_eq!(second.reply, Some(s("Name already taken, try another\n")));
    let retry = handshake_step(&mut r, &s("x:2"), &LineEvent::Line(s("dup2\n")));
    assert_eq!(retry.state, SessionState::Registered);
    assert_eq!(retry.reply, Some(s("Welcome!\n")));
    assert_eq!(r.len(), 2);
}

#[test]
fn handshake_empty_name_asks_again() {
    let mut r = Registry::new();
    let step = handshake_step(&mut r, &s("x:1"), &LineEvent::Line(s("  \n")));
    assert_eq!(step.state, SessionState::AwaitingName);
    assert_eq!(step.reply, Some(s("Name cannot be empty\n")));
    assert_eq!(r.len(), 0);
}

#[test]
fn handshake_end_of_stream_or_error_closes() {
    let mut r = Registry::new();
    let eos = handshake_step(&mut r, &s("x:1"), &LineEvent::EndOfStream);
    assert_eq!(eos.state, SessionState::Closed);
    assert_eq!(eos.reply, None);
    let err = handshake_step(&mut r, &s("x:1"), &LineEvent::ReadError);
    assert_eq!(err.state, SessionState::Closed);
    assert_eq!(err.reply, None);
    assert_eq!(r.len(), 0);
}

#[test]
fn blank_message_is_not_broadcast() {
    let r = registry_of(&[("x:1", "a"), ("x:2", "b")]);
    assert!(r.broadcast_message(&s("x:1"), " \r\n\t").is_empty());
    assert_eq!(r.outgoing_line(&s("x:1"), "\n"), None);
}

#[test]
fn alice_says_hello_to_everyone_else() {
    let r = registry_of(&[("x:1", "alice"), ("x:2", "bob"), ("x:3", "carol")]);
    let round = r.broadcast_message(&s("x:1"), "hello\n");
    assert_eq!(
        pairs(&round),
        vec![(s("x:2"), s("alice: hello\n")), (s("x:3"), s("alice: hello\n"))]
    );
}

#[test]
fn message_is_trimmed_before_labelling() {
    let r = registry_of(&[("x:1", "a"), ("x:2", "b")]);
    assert_eq!(r.outgoing_line(&s("x:2"), "  hi there \r\n"), Some(s("b: hi there\n")));
}

#[test]
fn unregistered_sender_is_labelled_by_connection_id() {
    let r = registry_of(&[("x:1", "a")]);
    assert_eq!(r.sender_label(&s("y:9")), "y:9");
    let round = r.broadcast_message(&s("y:9"), "yo");
    assert_eq!(pairs(&round), vec![(s("x:1"), s("y:9: yo\n"))]);
}

#[test]
fn three_clients_a_sends_hi() {
    let mut r = Registry::new();
    for (id, name) in [("x:1", "a"), ("x:2", "b"), ("x:3", "c")] {
        let step = handshake_step(&mut r, &s(id), &LineEvent::Line(format!("{name}\n")));
        assert_eq!(step.state, SessionState::Registered);
    }
    let step = receive_step(&mut r, &s("x:1"), &ChunkEvent::Data(b"hi\n".to_vec()));
    assert_eq!(step.state, SessionState::Registered);
    assert_eq!(
        pairs(&step.deliveries),
        vec![(s("x:2"), s("a: hi\n")), (s("x:3"), s("a: hi\n"))]
    );
}

#[test]
fn disconnected_client_no_longer_receives() {
    let mut r = registry_of(&[("x:1", "a"), ("x:2", "b"), ("x:3", "c")]);
    let gone = receive_step(&mut r, &s("x:2"), &ChunkEvent::EndOfStream);
    assert_eq!(gone.state, SessionState::Closed);
    assert!(gone.deliveries.is_empty());
    assert!(!r.is_registered(&s("x:2")));
    assert!(!r.name_taken(&s("b")));
    let step = receive_step(&mut r, &s("x:3"), &ChunkEvent::Data(b"still here".to_vec()));
    assert_eq!(pairs(&step.deliveries), vec![(s("x:1"), s("c: still here\n"))]);
}

#[test]
fn read_error_tears_down_like_end_of_stream() {
    let mut r = registry_of(&[("x:1", "a"), ("x:2", "b")]);
    let step = receive_step(&mut r, &s("x:1"), &ChunkEvent::ReadError);
    assert_eq!(step.state, SessionState::Closed);
    assert_eq!(r.len(), 1);
    assert!(!r.remove(&s("x:1")));
    assert!(r.remove(&s("x:2")));
    assert_eq!(r.len(), 0);
}

#[test]
fn freed_name_can_be_taken_again() {
    let mut r = registry_of(&[("x:1", "a")]);
    assert!(r.remove(&s("x:1")));
    assert_eq!(r.register(&s("x:2"), "a"), Ok(s("a")));
}

#[test]
fn same_message_twice_gives_two_rounds() {
    let mut r = registry_of(&[("x:1", "a"), ("x:2", "b")]);
    let event = ChunkEvent::Data(b"ping\n".to_vec());
    let first = receive_step(&mut r, &s("x:1"), &event);
    let second = receive_step(&mut r, &s("x:1"), &event);
    assert_eq!(pairs(&first.deliveries), vec![(s("x:2"), s("a: ping\n"))]);
    assert_eq!(pairs(&second.deliveries), pairs(&first.deliveries));
}

#[test]
fn invalid_utf8_is_replaced_not_fatal() {
    let mut r = registry_of(&[("x:1", "a"), ("x:2", "b")]);
    let step = receive_step(&mut r, &s("x:1"), &ChunkEvent::Data(vec![b'h', 0xff, b'i']));
    assert_eq!(step.state, SessionState::Registered);
    assert_eq!(pairs(&step.deliveries), vec![(s("x:2"), s("a: h\u{FFFD}i\n"))]);
}

#[test]
fn sender_alone_receives_nothing() {
    let mut r = registry_of(&[("x:1", "a")]);
    let step = receive_step(&mut r, &s("x:1"), &ChunkEvent::Data(b"echo?".to_vec()));
    assert!(step.deliveries.is_empty());
}

#[test]
fn snapshot_and_recipients_keep_registration_order() {
    let r = registry_of(&[("x:3", "c"), ("x:1", "a"), ("x:2", "b")]);
    let ids = r.connection_ids();
    assert_eq!(ids, vec![s("x:3"), s("x:1"), s("x:2")]);
    assert_eq!(recipients(&ids, &s("x:1")), vec![s("x:3"), s("x:2")]);
    assert_eq!(recipients(&ids, &s("z:0")), ids);
}

#[test]
fn claim_name_takes_the_name_as_given() {
    let mut r = Registry::new();
    assert_eq!(r.claim_name(&s("x:1"), s("")), Err(RegisterError::EmptyName));
    assert_eq!(r.claim_name(&s("x:1"), s(" a ")), Ok(()));
    assert_eq!(r.sender_label(&s("x:1")), " a ");
    assert_eq!(r.claim_name(&s("x:2"), s(" a ")), Err(RegisterError::NameTaken));
    assert_eq!(r.claim_name(&s("x:1"), s("b")), Err(RegisterError::AlreadyRegistered));
    assert_eq!(r.len(), 1);
}

#[test]
fn labelled_line_does_not_trim() {
    let r = registry_of(&[("x:1", "a")]);
    assert_eq!(r.labelled_line(&s("x:1"), " hi "), Some(s("a:  hi \n")));
    assert_eq!(r.labelled_line(&s("x:1"), ""), None);
    assert_eq!(r.outgoing_line(&s("x:1"), " hi "), Some(s("a: hi\n")));
}

#[test]
fn broadcast_round_skips_only_the_sender() {
    let r = registry_of(&[("x:1", "a"), ("x:2", "b"), ("x:3", "c")]);
    let round = r.broadcast_round(&s("x:2"), "yo");
    assert_eq!(pairs(&round), vec![(s("x:1"), s("b: yo\n")), (s("x:3"), s("b: yo\n"))]);
    assert!(r.broadcast_round(&s("x:2"), "").is_empty());
}
