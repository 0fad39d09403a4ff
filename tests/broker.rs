use broker::protocol::{commands_of, dispatch, parse, Op};
use broker::reactor::Reactor;
use broker::reader::{interrupted, read, would_block, IoFailure, ReadStep, Reader, GROWTH, INITIAL_CAPACITY};
use broker::subs::{Cmd, Delivery, Subs};

fn s(text: &str) -> String {
    text.to_string()
}

fn delivery(id: usize, payload: &str) -> Delivery {
    Delivery { id, payload: s(payload) }
}

/// Feeds every command of one message into the registry and gathers the writes.
fn run(subs: &mut Subs, cmds: Vec<Cmd>) -> Vec<Delivery> {
    let mut out = Vec::new();
    for cmd in cmds {
        out.extend(subs.handle(cmd));
    }
    out
}

fn send(subs: &mut Subs, reactor: &mut Reactor, id: usize, text: &str) -> Vec<Delivery> {
    let event = reactor.on_readable(id, Ok(text.as_bytes().to_vec()));
    assert!(!event.close);
    run(subs, event.commands)
}

#[test]
fn failure_kinds() {
    assert!(would_block(&IoFailure::WouldBlock));
    assert!(!would_block(&IoFailure::Interrupted));
    assert!(interrupted(&IoFailure::Interrupted));
    assert!(!interrupted(&IoFailure::Other));
}

#[test]
fn read_gathers_one_chunk() {
    let mut reader = Reader::new();
    assert_eq!(reader.room(), 4096);
    assert_eq!(read(&mut reader, Ok(b"+ room".to_vec())), ReadStep::More);
    assert_eq!(reader.room(), 4090);
    assert_eq!(read(&mut reader, Err(IoFailure::WouldBlock)), ReadStep::Done);
    assert_eq!(reader.into_bytes(), b"+ room".to_vec());
}

#[test]
fn read_large_payload_over_several_reads() {
    let first: Vec<u8> = (0..INITIAL_CAPACITY).map(|i| (i % 251) as u8).collect();
    let second: Vec<u8> = (0..3000usize).map(|i| (i % 7) as u8 + 100).collect();
    let mut reader = Reader::new();
    assert_eq!(read(&mut reader, Ok(first.clone())), ReadStep::More);
    assert_eq!(reader.capacity(), INITIAL_CAPACITY + GROWTH);
    assert_eq!(reader.room(), GROWTH);
    assert_eq!(read(&mut reader, Ok(second[..GROWTH].to_vec())), ReadStep::More);
    assert_eq!(reader.capacity(), INITIAL_CAPACITY + 2 * GROWTH);
    assert_eq!(read(&mut reader, Err(IoFailure::Interrupted)), ReadStep::More);
    assert_eq!(read(&mut reader, Ok(second[GROWTH..].to_vec())), ReadStep::More);
    assert_eq!(read(&mut reader, Err(IoFailure::WouldBlock)), ReadStep::Done);
    let mut expected = first;
    expected.extend_from_slice(&second);
    let got = reader.into_bytes();
    assert_eq!(got.len(), 7096);
    assert_eq!(got, expected);
}

#[test]
fn read_zero_bytes_closes() {
    let mut reader = Reader::new();
    assert_eq!(read(&mut reader, Ok(Vec::new())), ReadStep::Failed(IoFailure::Closed));
}

#[test]
fn read_other_error_fails() {
    let mut reader = Reader::new();
    assert_eq!(read(&mut reader, Ok(b"abc".to_vec())), ReadStep::More);
    assert_eq!(read(&mut reader, Err(IoFailure::Other)), ReadStep::Failed(IoFailure::Other));
}

#[test]
fn parse_messages() {
    let m = parse("+ room hello\n").unwrap();
    assert_eq!((m.op, m.key.as_str(), m.value.as_str()), (Op::Subscribe, "room", "hello"));
    let m = parse("+ room").unwrap();
    assert_eq!((m.op, m.key.as_str(), m.value.as_str()), (Op::Subscribe, "room", ""));
    let m = parse(": room hello  world\r\nignored").unwrap();
    assert_eq!((m.op, m.key.as_str(), m.value.as_str()), (Op::Publish, "room", "hello  world"));
    let m = parse("- café au lait").unwrap();
    assert_eq!((m.op, m.key.as_str(), m.value.as_str()), (Op::Unsubscribe, "café", "au lait"));
}

#[test]
fn parse_rejects_malformed() {
    assert_eq!(parse("* room hello"), None);
    assert_eq!(parse("++ room"), None);
    assert_eq!(parse("+"), None);
    assert_eq!(parse("+room"), None);
    assert_eq!(parse("+  room"), None);
    assert_eq!(parse(""), None);
    assert_eq!(parse("\n+ room"), None);
}

#[test]
fn subscribe_with_value_adds_then_publishes() {
    assert_eq!(
        commands_of(3, "+ room hello"),
        vec![Cmd::Add(s("room"), 3), Cmd::Call(s("room"), s("hello"))]
    );
    assert_eq!(commands_of(3, "+ room"), vec![Cmd::Add(s("room"), 3)]);
}

#[test]
fn unsubscribe_with_value_publishes_then_removes() {
    assert_eq!(
        commands_of(4, "- room bye"),
        vec![Cmd::Call(s("room"), s("bye")), Cmd::Del(s("room"), 4)]
    );
    assert_eq!(commands_of(4, "- room"), vec![Cmd::Del(s("room"), 4)]);
    assert_eq!(commands_of(4, ": room x"), vec![Cmd::Call(s("room"), s("x"))]);
    assert_eq!(commands_of(4, "? room x"), vec![]);
}

#[test]
fn dispatch_decodes_text() {
    assert_eq!(dispatch(2, &b": k v".to_vec()), vec![Cmd::Call(s("k"), s("v"))]);
    assert_eq!(
        dispatch(2, &": k \u{e9}t\u{e9}".as_bytes().to_vec()),
        vec![Cmd::Call(s("k"), s("\u{e9}t\u{e9}"))]
    );
    assert_eq!(dispatch(2, &vec![b':', b' ', b'k', b' ', 0xff]), vec![]);
}

#[test]
fn add_is_idempotent() {
    let mut subs = Subs::new();
    assert!(subs.handle(Cmd::Add(s("room"), 1)).is_empty());
    assert!(subs.handle(Cmd::Add(s("room"), 2)).is_empty());
    assert!(subs.handle(Cmd::Add(s("room"), 1)).is_empty());
    assert_eq!(subs.subscribers_of(&s("room")), vec![1, 2]);
}

#[test]
fn delete_absent_is_noop() {
    let mut subs = Subs::new();
    subs.handle(Cmd::Add(s("room"), 1));
    assert!(subs.handle(Cmd::Del(s("room"), 7)).is_empty());
    assert!(subs.handle(Cmd::Del(s("hall"), 1)).is_empty());
    assert_eq!(subs.subscribers_of(&s("room")), vec![1]);
    assert_eq!(subs.subscribers_of(&s("hall")), Vec::<usize>::new());
}

#[test]
fn call_reaches_each_subscriber_once() {
    let mut subs = Subs::new();
    subs.handle(Cmd::Add(s("room"), 5));
    subs.handle(Cmd::Add(s("room"), 2));
    subs.handle(Cmd::Add(s("room"), 5));
    subs.handle(Cmd::Add(s("hall"), 9));
    assert_eq!(
        subs.handle(Cmd::Call(s("room"), s("v"))),
        vec![delivery(5, "room v"), delivery(2, "room v")]
    );
}

#[test]
fn call_without_subscribers_writes_nothing() {
    let mut subs = Subs::new();
    assert!(subs.handle(Cmd::Call(s("room"), s("v"))).is_empty());
    subs.handle(Cmd::Add(s("room"), 1));
    subs.handle(Cmd::Del(s("room"), 1));
    assert!(subs.handle(Cmd::Call(s("room"), s("v"))).is_empty());
}

#[test]
fn subscribe_with_value_reaches_new_and_old_subscribers() {
    let mut subs = Subs::new();
    let mut reactor = Reactor::new();
    let a = reactor.accept().unwrap();
    let b = reactor.accept().unwrap();
    assert!(send(&mut subs, &mut reactor, a, "+ room").is_empty());
    assert_eq!(
        send(&mut subs, &mut reactor, b, "+ room hello"),
        vec![delivery(a, "room hello"), delivery(b, "room hello")]
    );
}

#[test]
fn unsubscribe_with_value_reaches_sender_first() {
    let mut subs = Subs::new();
    let mut reactor = Reactor::new();
    let a = reactor.accept().unwrap();
    let b = reactor.accept().unwrap();
    send(&mut subs, &mut reactor, a, "+ room");
    send(&mut subs, &mut reactor, b, "+ room");
    assert_eq!(
        send(&mut subs, &mut reactor, b, "- room bye"),
        vec![delivery(a, "room bye"), delivery(b, "room bye")]
    );
    assert_eq!(subs.subscribers_of(&s("room")), vec![a]);
}

#[test]
fn publish_reaches_all_subscribers_including_sender() {
    let mut subs = Subs::new();
    let mut reactor = Reactor::new();
    let a = reactor.accept().unwrap();
    let b = reactor.accept().unwrap();
    assert_eq!(send(&mut subs, &mut reactor, a, "+ room hello"), vec![delivery(a, "room hello")]);
    assert!(send(&mut subs, &mut reactor, b, "+ room").is_empty());
    assert_eq!(
        send(&mut subs, &mut reactor, a, ": room world"),
        vec![delivery(a, "room world"), delivery(b, "room world")]
    );
}

#[test]
fn subscribe_then_unsubscribe_alone() {
    let mut subs = Subs::new();
    let mut reactor = Reactor::new();
    let a = reactor.accept().unwrap();
    assert_eq!(send(&mut subs, &mut reactor, a, "+ room hello"), vec![delivery(a, "room hello")]);
    assert_eq!(send(&mut subs, &mut reactor, a, "- room bye"), vec![delivery(a, "room bye")]);
    assert_eq!(subs.subscribers_of(&s("room")), Vec::<usize>::new());
    assert!(subs.handle(Cmd::Call(s("room"), s("x"))).is_empty());
}

#[test]
fn ids_increase_from_one() {
    let mut reactor = Reactor::new();
    assert_eq!(reactor.accept(), Some(1));
    assert_eq!(reactor.accept(), Some(2));
    assert_eq!(reactor.accept(), Some(3));
}

#[test]
fn zero_byte_read_removes_reader() {
    let mut reactor = Reactor::new();
    let a = reactor.accept().unwrap();
    let mut reader = Reader::new();
    let step = read(&mut reader, Ok(Vec::new()));
    assert_eq!(step, ReadStep::Failed(IoFailure::Closed));
    let event = reactor.on_readable(a, Err(IoFailure::Closed));
    assert!(event.close);
    assert!(event.commands.is_empty());
    let later = reactor.on_readable(a, Ok(b": room x".to_vec()));
    assert!(!later.close);
    assert!(later.commands.is_empty());
}

#[test]
fn failed_write_removes_writer() {
    let mut reactor = Reactor::new();
    let a = reactor.accept().unwrap();
    assert!(!reactor.on_writable(a, true));
    assert!(reactor.on_writable(a, false));
    assert!(!reactor.on_writable(a, false));
    let event = reactor.on_readable(a, Ok(b": room x".to_vec()));
    assert_eq!(event.commands, vec![Cmd::Call(s("room"), s("x"))]);
}
