//! Lines on the wire: every message is one line, ended by a line feed.

use crate::connections::line;
use vstd::prelude::*;
use vstd::string::*;

verus! {

/// `i` is the place of the first line feed in `s`.
pub open spec fn is_first_feed(s: Seq<char>, i: int) -> bool {
    &&& 0 <= i < s.len()
    &&& s[i] == '\n'
    &&& forall|j: int| 0 <= j < i ==> s[j] != '\n'
}

/// The first line of what was read so far, without its line feed. `None`
/// as long as no line feed was read.
pub fn first_line(buf: &str) -> (r: Option<String>)
    ensures
        r is None <==> !buf@.contains('\n'),
        r is Some ==> exists|i: int| is_first_feed(buf@, i) && r->0@ == buf@.take(i),
{
    let n = buf.unicode_len();
    let mut i: usize = 0;
    while i < n
        invariant
            i <= n,
            n == buf@.len(),
            forall|j: int| 0 <= j < i ==> buf@[j] != '\n',
        decreases n - i,
    {
        if buf.get_char(i) == '\n' {
            let l = buf.substring_char(0, i);
            assert(buf@.subrange(0, i as int) =~= buf@.take(i as int));
            assert(is_first_feed(buf@, i as int));
            assert(buf@.contains('\n'));
            return Some(l.to_owned());
        }
        i += 1;
    }
    proof {
        if buf@.contains('\n') {
            let j = choose|j: int| 0 <= j < buf@.len() && buf@[j] == '\n';
            assert(buf@[j] != '\n');
        }
    }
    None
}

/// A message that holds no line feed, once framed, is read back as the
/// first line.
pub proof fn law_line_round_trip(msg: Seq<char>, i: int)
    requires
        !msg.contains('\n'),
        is_first_feed(line(msg), i),
    ensures
        line(msg).take(i) == msg,
{
    let l = line(msg);
    if i < msg.len() {
        assert(l[i] == msg[i]);
        assert(msg.contains(msg[i]));
    }
    assert(l.take(i) =~= msg);
}

} // verus!
