//! Connections to subscribers: the state of the set of connections, and the
//! write buffer of a single connection.
//!
//! The sockets stay with the caller. The functions here decide: what to
//! write to whom when a command arrives, which connections stay, how much
//! of a buffer is left after a write, and when a connection is done.

use crate::writer::{kept, retain_ok};
use vstd::prelude::*;
use vstd::string::*;

verus! {

/// The connections that are subscribed, and the message that was written
/// last. A connection that subscribes is sent that message first.
pub struct State<T> {
    pub conns: Vec<T>,
    pub msg: Option<String>,
}

/// Messages for the connection handler. `Add` subscribes a connection,
/// `Write` sends a message to all that are subscribed.
pub enum Command<T> {
    Add(T),
    Write(String),
}

/// What the caller is to write after a command.
pub enum Action<T> {
    /// Nothing.
    Idle,
    /// Write the line to the connection, then hand the connection to
    /// `joined` with the outcome.
    Greet(T, String),
    /// Write the line to every connection of the state, then hand the
    /// outcomes to `written`.
    Broadcast(String),
}

/// A message as it goes over the wire: followed by a line feed.
pub open spec fn line(msg: Seq<char>) -> Seq<char> {
    msg.push('\n')
}

/// A message followed by a line feed.
pub fn frame(msg: &String) -> (r: String)
    ensures
        r@ == line(msg@),
{
    proof {
        reveal_strlit("\n");
    }
    let mut r = msg.clone();
    r.append("\n");
    assert(r@ =~= line(msg@));
    r
}

impl<T> State<T> {
    /// No connection and no message.
    pub fn new() -> (s: Self)
        ensures
            s.conns@ == Seq::<T>::empty(),
            s.msg is None,
    {
        State { conns: Vec::new(), msg: None }
    }

    /// The state after a connection was sent the last message: it joins the
    /// connections if the write succeeded.
    pub fn joined(self, conn: T, ok: bool) -> (s: Self)
        ensures
            s.msg == self.msg,
            s.conns@ == if ok {
                self.conns@.push(conn)
            } else {
                self.conns@
            },
    {
        let State { conns, msg } = self;
        let mut conns = conns;
        if ok {
            conns.push(conn);
        }
        State { conns, msg }
    }

    /// The state after a message was written to every connection: those
    /// stay whose write succeeded.
    pub fn written(self, ok: &Vec<bool>) -> (s: Self)
        ensures
            s.msg == self.msg,
            s.conns@ == kept(self.conns@, ok@),
    {
        let State { conns, msg } = self;
        State { conns: retain_ok(conns, ok), msg }
    }
}

/// The state after a command, and what is to be written.
///
/// A connection that subscribes before any message was written joins at
/// once. Later it is first sent the last message and joins only if that
/// write succeeds. A message becomes the last message and is to be written
/// to every connection.
pub fn handler<T>(state: State<T>, cmd: Command<T>) -> (r: (State<T>, Action<T>))
    ensures
        match cmd {
            Command::Add(s) => match state.msg {
                None => r.0.conns@ == state.conns@.push(s) && r.0.msg is None && r.1 is Idle,
                Some(m) => r.0.conns@ == state.conns@ && r.0.msg == state.msg && r.1 is Greet
                    && r.1->Greet_0 == s && r.1->Greet_1@ == line(m@),
            },
            Command::Write(m) => r.0.conns@ == state.conns@ && r.0.msg == Some(m) && r.1
                is Broadcast && r.1->Broadcast_0@ == line(m@),
        },
{
    let State { conns, msg } = state;
    match cmd {
        Command::Add(s) => match msg {
            None => {
                let mut conns = conns;
                conns.push(s);
                (State { conns, msg: None }, Action::Idle)
            },
            Some(m) => {
                let l = frame(&m);
                (State { conns, msg: Some(m) }, Action::Greet(s, l))
            },
        },
        Command::Write(m) => {
            let l = frame(&m);
            (State { conns, msg: Some(m) }, Action::Broadcast(l))
        },
    }
}

/// `bytes::BytesMut`: a buffer of bytes that can grow at its end and be
/// cut at its start.
#[verifier::external_type_specification]
#[verifier::external_body]
pub struct ExBytesMut(bytes::BytesMut);

/// The bytes that a buffer holds.
pub uninterp spec fn buffered(b: bytes::BytesMut) -> Seq<u8>;

/// `bytes::BytesMut::new`: a buffer that holds nothing.
#[verifier::external_body]
fn bytes_new() -> (b: bytes::BytesMut)
    ensures
        buffered(b).len() == 0,
{
    bytes::BytesMut::new()
}

/// `bytes::BytesMut::len`: how many bytes the buffer holds.
#[verifier::external_body]
fn bytes_len(b: &bytes::BytesMut) -> (n: usize)
    ensures
        n == buffered(*b).len(),
{
    b.len()
}

/// `bytes::BytesMut::extend_from_slice`: puts the bytes behind those that
/// the buffer holds. It panics where the length would not fit in a `usize`,
/// which `requires` leaves out.
#[verifier::external_body]
fn bytes_extend(b: &mut bytes::BytesMut, extend: &[u8])
    requires
        buffered(*old(b)).len() + extend@.len() <= usize::MAX,
    ensures
        buffered(*final(b)) == buffered(*old(b)) + extend@,
{
    b.extend_from_slice(extend)
}

/// `bytes::BytesMut::split_to`: takes the first `at` bytes out of the
/// buffer, which keeps the rest. It panics where the buffer holds fewer,
/// which `requires` leaves out.
#[verifier::external_body]
fn bytes_split_to(b: &mut bytes::BytesMut, at: usize) -> (head: bytes::BytesMut)
    requires
        at <= buffered(*old(b)).len(),
    ensures
        buffered(head) == buffered(*old(b)).take(at as int),
        buffered(*final(b)) == buffered(*old(b)).skip(at as int),
{
    b.split_to(at)
}

/// `to_vec` of the slice that a `bytes::BytesMut` dereferences to: a copy
/// of the bytes that the buffer holds.
#[verifier::external_body]
fn bytes_to_vec(b: &bytes::BytesMut) -> (v: Vec<u8>)
    ensures
        v@ == buffered(*b),
{
    b.to_vec()
}

/// How many lines a connection takes from its queue in one turn before it
/// lets others run.
pub const LINES_PER_TICK: usize = 10;

/// The write side of one connection: the bytes that are still to be written
/// to it, and whether the connection is closed once they are written.
pub struct Connection {
    wr: bytes::BytesMut,
    oneshot: bool,
}

/// What a connection's queue yields.
pub enum Polled {
    /// A line to be written.
    Line(Vec<u8>),
    /// The queue is closed: nothing more will come.
    Closed,
    /// Nothing for now.
    Pending,
}

/// What the connection does after it polled its queue.
#[derive(Debug, PartialEq, Eq, Clone, Copy, Structural)]
pub enum Received {
    /// The line is buffered. Poll the queue again; if `notify` is set this
    /// was the last line of this turn, and the task asks to be run again.
    Buffered { notify: bool },
    /// The queue is closed: the connection is done.
    Finished,
    /// Nothing more for now: write what the buffer holds.
    Flush,
}

/// What a write to the socket yields.
#[derive(Debug, PartialEq, Eq, Clone, Copy, Structural)]
pub enum Wrote {
    /// So many bytes were written.
    Bytes(usize),
    /// The socket takes nothing for now.
    NotReady,
    /// The write failed.
    Failed,
}

/// What the connection does after a write.
#[derive(Debug, PartialEq, Eq, Clone, Copy, Structural)]
pub enum Flushed {
    /// The buffer holds more: write again.
    More,
    /// Wait until the task is run again.
    Wait,
    /// Shut the socket down: the connection is done.
    Shutdown,
}

impl Connection {
    /// The bytes that are still to be written.
    pub closed spec fn pending(&self) -> Seq<u8> {
        buffered(self.wr)
    }

    /// Whether the connection is closed once its buffer is written.
    pub closed spec fn oneshot(&self) -> bool {
        self.oneshot
    }

    /// A connection with nothing to write.
    pub fn new(oneshot: bool) -> (c: Self)
        ensures
            c.pending().len() == 0,
            c.oneshot() == oneshot,
    {
        Connection { wr: bytes_new(), oneshot }
    }

    /// Buffer a line: the line is kept until the socket takes it. Says
    /// whether the line was taken in; a line that would make the buffer
    /// longer than a machine can count is not.
    pub fn buffer(&mut self, line: &[u8]) -> (r: bool)
        ensures
            final(self).oneshot() == old(self).oneshot(),
            r == (old(self).pending().len() + line@.len() <= usize::MAX),
            final(self).pending() == if r {
                old(self).pending() + line@
            } else {
                old(self).pending()
            },
    {
        let n = bytes_len(&self.wr);
        if line.len() <= usize::MAX - n {
            bytes_extend(&mut self.wr, line);
            true
        } else {
            false
        }
    }

    /// A copy of the bytes that are still to be written.
    pub fn unwritten(&self) -> (r: Vec<u8>)
        ensures
            r@ == self.pending(),
    {
        bytes_to_vec(&self.wr)
    }

    /// Whether anything is still to be written.
    pub fn has_pending(&self) -> (r: bool)
        ensures
            r == (self.pending().len() > 0),
    {
        bytes_len(&self.wr) > 0
    }

    /// Takes in what the queue yielded as the line number `tick` of this
    /// turn, counted from zero.
    pub fn receive(&mut self, polled: Polled, tick: usize) -> (r: Received)
        ensures
            final(self).oneshot() == old(self).oneshot(),
            match polled {
                Polled::Line(v) => {
                    &&& r == (Received::Buffered { notify: tick + 1 == LINES_PER_TICK })
                    &&& final(self).pending() == if old(self).pending().len() + v@.len()
                        <= usize::MAX {
                        old(self).pending() + v@
                    } else {
                        old(self).pending()
                    }
                },
                Polled::Closed => r == Received::Finished && final(self).pending()
                    == old(self).pending(),
                Polled::Pending => r == Received::Flush && final(self).pending()
                    == old(self).pending(),
            },
    {
        match polled {
            Polled::Line(v) => {
                self.buffer(v.as_slice());
                Received::Buffered { notify: tick == LINES_PER_TICK - 1 }
            },
            Polled::Closed => Received::Finished,
            Polled::Pending => Received::Flush,
        }
    }

    /// Takes in what a write of the buffer to the socket yielded. A write
    /// of a buffer that is not empty writes at least one byte and no more
    /// than the buffer holds.
    pub fn wrote(&mut self, w: Wrote) -> (r: Flushed)
        requires
            w is Bytes ==> 0 < w->Bytes_0 <= old(self).pending().len(),
        ensures
            final(self).oneshot() == old(self).oneshot(),
            final(self).pending() == match w {
                Wrote::Bytes(n) => old(self).pending().skip(n as int),
                _ => old(self).pending(),
            },
            r == match w {
                Wrote::Bytes(n) => if n < old(self).pending().len() {
                    Flushed::More
                } else if old(self).oneshot() {
                    Flushed::Shutdown
                } else {
                    Flushed::Wait
                },
                Wrote::NotReady => Flushed::Wait,
                Wrote::Failed => Flushed::Shutdown,
            },
    {
        match w {
            Wrote::Bytes(n) => {
                let _ = bytes_split_to(&mut self.wr, n);
                if bytes_len(&self.wr) > 0 {
                    Flushed::More
                } else if self.oneshot {
                    Flushed::Shutdown
                } else {
                    Flushed::Wait
                }
            },
            Wrote::NotReady => Flushed::Wait,
            Wrote::Failed => Flushed::Shutdown,
        }
    }
}

} // verus!
