//! The fan-out of snapshots to subscribers: which writers stay after a
//! snapshot was written to all of them.
//!
//! The writers themselves are sockets, which this library does not touch.
//! The caller writes the snapshot to each writer in turn, notes for each
//! whether the write succeeded, and asks here who is left.

use vstd::prelude::*;

verus! {

/// What the fan-out is told.
pub enum WriterCmd<W> {
    /// A new subscriber.
    Add(W),
    /// A snapshot to write to every subscriber.
    Msg(Vec<u8>),
}

/// The writers whose write succeeded, in their order. A writer without an
/// outcome counts as failed.
pub open spec fn kept<W>(writers: Seq<W>, ok: Seq<bool>) -> Seq<W>
    decreases writers.len(),
{
    if writers.len() == 0 {
        Seq::empty()
    } else {
        let r = kept(writers.drop_last(), ok);
        let i = writers.len() - 1;
        if i < ok.len() && ok[i] {
            r.push(writers.last())
        } else {
            r
        }
    }
}

/// Drops the writers whose write failed. `ok[i]` says whether the write to
/// writer `i` succeeded.
pub fn retain_ok<W>(writers: Vec<W>, ok: &Vec<bool>) -> (r: Vec<W>)
    ensures
        r@ == kept(writers@, ok@),
{
    let ghost orig = writers@;
    let mut rest = writers;
    let n = rest.len();
    let mut out: Vec<W> = Vec::new();
    let mut i: usize = 0;
    assert(orig.take(0) =~= Seq::<W>::empty());
    while rest.len() > 0
        invariant
            n == orig.len(),
            i + rest.len() == orig.len(),
            rest@ == orig.skip(i as int),
            out@ == kept(orig.take(i as int), ok@),
        decreases rest.len(),
    {
        let w = rest.remove(0);
        proof {
            let next = orig.take(i + 1);
            assert(next.drop_last() =~= orig.take(i as int));
            assert(next.last() == w);
            assert(rest@ =~= orig.skip(i + 1));
        }
        if i < ok.len() && ok[i] {
            out.push(w);
        }
        i += 1;
    }
    assert(orig.take(orig.len() as int) =~= orig);
    out
}

/// The writers after a command, and what is to be written to all of them.
/// A new subscriber joins the writers and nothing is written. A snapshot
/// leaves the writers as they are and is to be written to each of them;
/// `retain_ok` then says who is left.
pub fn spawn_writer<W>(writers: Vec<W>, cmd: WriterCmd<W>) -> (r: (Vec<W>, Option<Vec<u8>>))
    ensures
        match cmd {
            WriterCmd::Add(w) => r.0@ == writers@.push(w) && r.1 is None,
            WriterCmd::Msg(x) => r.0@ == writers@ && r.1 == Some(x),
        },
{
    let mut writers = writers;
    match cmd {
        WriterCmd::Add(w) => {
            writers.push(w);
            (writers, None)
        },
        WriterCmd::Msg(x) => (writers, Some(x)),
    }
}

} // verus!
