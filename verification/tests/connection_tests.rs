use device_scanner::connections::{
    frame, handler, Action, Command, Connection, Flushed, Polled, Received, State, Wrote,
    LINES_PER_TICK,
};
use device_scanner::wire::first_line;
use device_scanner::writer::{retain_ok, spawn_writer, WriterCmd};

/// A stream that takes what is written to it and then reports a broken pipe.
struct MockStream {
    written: Vec<u8>,
}

impl MockStream {
    fn empty() -> MockStream {
        MockStream { written: vec![] }
    }

    fn written(&self) -> &[u8] {
        &self.written
    }

    fn write(&mut self, buf: &[u8]) -> Wrote {
        self.written.extend_from_slice(buf);
        Wrote::Failed
    }
}

/// Runs a connection until it is done, as its task would.
fn run(c: &mut Connection, queue: Vec<Vec<u8>>, s: &mut MockStream) {
    let mut queue: std::collections::VecDeque<Vec<u8>> = queue.into();
    loop {
        for i in 0..LINES_PER_TICK {
            let polled = match queue.pop_front() {
                Some(line) => Polled::Line(line),
                None => Polled::Pending,
            };
            match c.receive(polled, i) {
                Received::Buffered { .. } => {}
                Received::Finished => return,
                Received::Flush => break,
            }
        }
        while c.has_pending() {
            match c.wrote(s.write(&c.unwritten())) {
                Flushed::More => {}
                Flushed::Wait => break,
                Flushed::Shutdown => return,
            }
        }
        if queue.is_empty() {
            return;
        }
    }
}

#[test]
fn test_write_one() {
    let mut s = MockStream::empty();

    let mut c = Connection::new(false);
    run(&mut c, vec![b"hello\n".to_vec()], &mut s);

    assert_eq!(s.written(), b"hello\n");
}

#[test]
fn test_write_many() {
    let mut s = MockStream::empty();

    let mut c = Connection::new(false);
    run(&mut c, vec![b"hello\n".to_vec(), b"there\n".to_vec()], &mut s);

    assert_eq!(s.written(), b"hello\nthere\n");
}

#[test]
fn a_buffer_is_written_piece_by_piece() {
    let mut c = Connection::new(false);
    assert!(!c.has_pending());
    assert!(c.buffer(b"hello "));
    assert!(c.buffer(b"there\n"));
    assert_eq!(c.unwritten(), b"hello there\n");
    assert_eq!(c.wrote(Wrote::Bytes(6)), Flushed::More);
    assert_eq!(c.unwritten(), b"there\n");
    assert_eq!(c.wrote(Wrote::NotReady), Flushed::Wait);
    assert_eq!(c.unwritten(), b"there\n");
    assert_eq!(c.wrote(Wrote::Bytes(6)), Flushed::Wait);
    assert!(!c.has_pending());
}

#[test]
fn a_oneshot_connection_shuts_down_once_all_is_written() {
    let mut c = Connection::new(true);
    c.buffer(b"mounts\n");
    assert_eq!(c.wrote(Wrote::Bytes(3)), Flushed::More);
    assert_eq!(c.wrote(Wrote::Bytes(4)), Flushed::Shutdown);
    assert!(!c.has_pending());
}

#[test]
fn a_failed_write_shuts_the_connection_down() {
    let mut c = Connection::new(false);
    c.buffer(b"x");
    assert_eq!(c.wrote(Wrote::Failed), Flushed::Shutdown);
    assert_eq!(c.unwritten(), b"x");
}

#[test]
fn the_tenth_line_of_a_turn_asks_for_another_turn() {
    let mut c = Connection::new(false);
    assert_eq!(LINES_PER_TICK, 10);
    for i in 0..LINES_PER_TICK {
        let r = c.receive(Polled::Line(vec![b'a']), i);
        assert_eq!(r, Received::Buffered { notify: i == 9 });
    }
    assert_eq!(c.unwritten(), vec![b'a'; 10]);
    assert_eq!(c.receive(Polled::Pending, 0), Received::Flush);
    assert_eq!(c.receive(Polled::Closed, 0), Received::Finished);
}

#[test]
fn a_failed_subscriber_is_gone_from_the_next_broadcast() {
    let writers = vec!["one", "two", "three"];
    let (writers, msg) = spawn_writer(writers, WriterCmd::Msg(b"snapshot\n".to_vec()));
    assert_eq!(msg, Some(b"snapshot\n".to_vec()));
    assert_eq!(writers, vec!["one", "two", "three"]);
    let writers = retain_ok(writers, &vec![true, false, true]);
    assert_eq!(writers, vec!["one", "three"]);
    let (writers, msg) = spawn_writer(writers, WriterCmd::Add("four"));
    assert_eq!(msg, None);
    assert_eq!(writers, vec!["one", "three", "four"]);
}

#[test]
fn a_writer_without_an_outcome_counts_as_failed() {
    assert_eq!(retain_ok(vec![1, 2, 3], &vec![true]), vec![1]);
    assert_eq!(retain_ok(vec![1, 2], &vec![false, true, true]), vec![2]);
    assert_eq!(retain_ok(Vec::<u8>::new(), &vec![true]), Vec::<u8>::new());
}

#[test]
fn a_subscriber_is_greeted_with_the_last_message() {
    let state: State<u8> = State::new();
    let (state, action) = handler(state, Command::Add(1));
    assert!(matches!(action, Action::Idle));
    assert_eq!(state.conns, vec![1]);

    let (state, action) = handler(state, Command::Write("tree".to_string()));
    match action {
        Action::Broadcast(line) => assert_eq!(line, "tree\n"),
        _ => panic!("a message is to be broadcast"),
    }
    assert_eq!(state.msg, Some("tree".to_string()));
    let state = state.written(&vec![true]);
    assert_eq!(state.conns, vec![1]);

    let (state, action) = handler(state, Command::Add(2));
    assert_eq!(state.conns, vec![1]);
    let state = match action {
        Action::Greet(conn, line) => {
            assert_eq!(conn, 2);
            assert_eq!(line, "tree\n");
            state.joined(conn, true)
        }
        _ => panic!("a late subscriber is to be greeted"),
    };
    assert_eq!(state.conns, vec![1, 2]);

    let (state, action) = handler(state, Command::Add(3));
    let state = match action {
        Action::Greet(conn, _) => state.joined(conn, false),
        _ => panic!("a late subscriber is to be greeted"),
    };
    assert_eq!(state.conns, vec![1, 2]);

    let state = state.written(&vec![false, true]);
    assert_eq!(state.conns, vec![2]);
    assert_eq!(state.msg, Some("tree".to_string()));
}

#[test]
fn a_framed_message_is_read_back() {
    let msg = "{\"Root\":{\"children\":[]}}".to_string();
    let framed = frame(&msg);
    assert_eq!(framed, "{\"Root\":{\"children\":[]}}\n");
    assert_eq!(first_line(&framed), Some(msg));
}

#[test]
fn the_first_line_ends_at_the_first_line_feed() {
    assert_eq!(first_line("\"Stream\"\nrest\n"), Some("\"Stream\"".to_string()));
    assert_eq!(first_line("\n"), Some("".to_string()));
    assert_eq!(first_line("no feed yet"), None);
    assert_eq!(first_line(""), None);
    assert_eq!(first_line("gr\u{fc}n\nx"), Some("gr\u{fc}n".to_string()));
}
