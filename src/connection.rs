//! The per-connection protocol: bytes are framed into lines, each line is
//! answered, and the first malformed line ends the connection.
use vstd::prelude::*;
use vstd::string::StringSliceAdditionalSpecFns;
use crate::request::{Reply, handle_line, line_reply};

verus! {

/// The line feed that ends each request.
pub const NEWLINE: u8 = 10;

/// The protocol state of a connection: the bytes of the line read so far,
/// and whether the connection is still active.
pub type ConnState = (Seq<u8>, bool);

/// One byte arrives: it extends the pending line, or ends it and has it
/// answered. A terminated connection ignores everything.
pub open spec fn step(s: ConnState, b: u8) -> (ConnState, Seq<u8>) {
    if !s.1 {
        (s, Seq::empty())
    } else if b == NEWLINE {
        let r = line_reply(s.0.push(b));
        ((Seq::empty(), r.keeps_open()), r.wire())
    } else {
        ((s.0.push(b), true), Seq::empty())
    }
}

/// The state after `data` arrives in state `s`, and what is written meanwhile.
pub open spec fn feed(s: ConnState, data: Seq<u8>) -> (ConnState, Seq<u8>)
    decreases data.len(),
{
    if data.len() == 0 {
        (s, Seq::empty())
    } else {
        let (s1, o1) = feed(s, data.drop_last());
        let (s2, o2) = step(s1, data.last());
        (s2, o1 + o2)
    }
}

/// What is written when the stream ends in state `s`: an unterminated last
/// line is still answered.
pub open spec fn finish_output(s: ConnState) -> Seq<u8> {
    if s.1 && s.0.len() > 0 {
        line_reply(s.0).wire()
    } else {
        Seq::empty()
    }
}

/// `line` is one request line: it ends with the only line feed it holds.
pub open spec fn is_single_line(line: Seq<u8>) -> bool {
    line.len() > 0 && line.last() == NEWLINE && forall|i: int|
        0 <= i < line.len() - 1 ==> #[trigger] line[i] != NEWLINE
}

/// Feeding two chunks in a row is feeding their concatenation.
proof fn lemma_feed_concat(s: ConnState, a: Seq<u8>, b: Seq<u8>)
    ensures
        feed(s, a + b) == (feed(feed(s, a).0, b).0, feed(s, a).1 + feed(feed(s, a).0, b).1),
    decreases b.len(),
{
    if b.len() == 0 {
        assert(a + b =~= a);
    } else {
        lemma_feed_concat(s, a, b.drop_last());
        assert((a + b).drop_last() =~= a + b.drop_last());
        assert((a + b).last() == b.last());
        let o1 = feed(s, a).1;
        let o2 = feed(feed(s, a).0, b.drop_last()).1;
        let o3 = step(feed(feed(s, a).0, b.drop_last()).0, b.last()).1;
        assert(o1 + o2 + o3 =~= o1 + (o2 + o3));
    }
}

/// A terminated connection ignores whatever arrives.
proof fn lemma_feed_closed(p: Seq<u8>, data: Seq<u8>)
    ensures
        feed((p, false), data) == ((p, false), Seq::<u8>::empty()),
    decreases data.len(),
{
    if data.len() > 0 {
        lemma_feed_closed(p, data.drop_last());
        assert(Seq::<u8>::empty() + Seq::<u8>::empty() =~= Seq::<u8>::empty());
    }
}

/// Bytes without a line feed are only buffered.
proof fn lemma_feed_partial(p: Seq<u8>, data: Seq<u8>)
    requires
        forall|i: int| 0 <= i < data.len() ==> #[trigger] data[i] != NEWLINE,
    ensures
        feed((p, true), data) == ((p + data, true), Seq::<u8>::empty()),
    decreases data.len(),
{
    if data.len() == 0 {
        assert(p + data =~= p);
    } else {
        let front = data.drop_last();
        assert forall|i: int| 0 <= i < front.len() implies #[trigger] front[i] != NEWLINE by {
            assert(front[i] == data[i]);
        }
        lemma_feed_partial(p, front);
        assert(data.last() == data[data.len() - 1]);
        assert((p + front).push(data.last()) =~= p + data);
        assert(Seq::<u8>::empty() + Seq::<u8>::empty() =~= Seq::<u8>::empty());
    }
}

/// An active connection with nothing pending answers one request line and
/// is left with nothing pending.
proof fn lemma_feed_line(line: Seq<u8>)
    requires
        is_single_line(line),
    ensures
        feed((Seq::<u8>::empty(), true), line) == (
            (Seq::<u8>::empty(), line_reply(line).keeps_open()),
            line_reply(line).wire(),
        ),
{
    let body = line.drop_last();
    assert forall|i: int| 0 <= i < body.len() implies #[trigger] body[i] != NEWLINE by {
        assert(body[i] == line[i]);
    }
    lemma_feed_partial(Seq::<u8>::empty(), body);
    assert(Seq::<u8>::empty() + body =~= body);
    assert(body.push(NEWLINE) =~= line);
    assert(Seq::<u8>::empty() + line_reply(line).wire() =~= line_reply(line).wire());
}

/// Sending the same well-formed request line twice on an active connection
/// yields two identical responses, and the connection stays active.
pub proof fn lemma_same_request_twice(line: Seq<u8>)
    requires
        is_single_line(line),
        line_reply(line) is Response,
    ensures
        feed((Seq::<u8>::empty(), true), line + line) == (
            (Seq::<u8>::empty(), true),
            line_reply(line).wire() + line_reply(line).wire(),
        ),
{
    lemma_feed_concat((Seq::<u8>::empty(), true), line, line);
    lemma_feed_line(line);
}

/// A malformed request line on an active connection is answered with exactly
/// the malformed signal, and the connection ends: nothing that follows, even
/// in the same chunk of bytes, is answered.
pub proof fn lemma_malformed_ends_connection(line: Seq<u8>, rest: Seq<u8>)
    requires
        is_single_line(line),
        line_reply(line) == Reply::Malformed,
    ensures
        feed((Seq::<u8>::empty(), true), line + rest) == (
            (Seq::<u8>::empty(), false),
            "Malformed Request".spec_bytes(),
        ),
{
    lemma_feed_concat((Seq::<u8>::empty(), true), line, rest);
    lemma_feed_line(line);
    lemma_feed_closed(Seq::<u8>::empty(), rest);
    assert("Malformed Request".spec_bytes() + Seq::<u8>::empty() =~= "Malformed Request".spec_bytes());
}

/// A connection's protocol state, apart from the stream that carries it.
pub struct Connection {
    pending: Vec<u8>,
    open: bool,
}

impl View for Connection {
    type V = ConnState;

    closed spec fn view(&self) -> ConnState {
        (self.pending@, self.open)
    }
}

impl Connection {
    /// A fresh, active connection with nothing read.
    pub fn new() -> (r: Connection)
        ensures
            r@ == (Seq::<u8>::empty(), true),
    {
        Connection { pending: Vec::new(), open: true }
    }

    /// Whether the connection is still active.
    pub fn is_open(&self) -> (r: bool)
        ensures
            r == self@.1,
    {
        self.open
    }

    /// Takes in bytes read from the stream and returns the bytes to write back.
    pub fn receive(&mut self, data: &[u8]) -> (out: Vec<u8>)
        ensures
            (final(self)@, out@) == feed(old(self)@, data@),
    {
        let mut out: Vec<u8> = Vec::new();
        let mut i: usize = 0;
        while i < data.len()
            invariant
                i <= data@.len(),
                (self@, out@) == feed(old(self)@, data@.take(i as int)),
            decreases data@.len() - i,
        {
            let b = data[i];
            proof {
                let next = data@.take(i + 1);
                assert(next.drop_last() =~= data@.take(i as int));
                assert(next.last() == b);
            }
            if self.open {
                self.pending.push(b);
                if b == NEWLINE {
                    let r = handle_line(self.pending.as_slice());
                    let mut bytes = r.to_bytes();
                    out.append(&mut bytes);
                    self.pending = Vec::new();
                    self.open = match r {
                        Reply::Response(_) => true,
                        Reply::Malformed => false,
                    };
                }
            }
            i = i + 1;
        }
        assert(data@.take(data@.len() as int) =~= data@);
        out
    }

    /// The stream has ended: answers an unterminated last line, if any, and
    /// closes the connection.
    pub fn finish(&mut self) -> (out: Vec<u8>)
        ensures
            out@ == finish_output(old(self)@),
            !final(self)@.1,
    {
        let out = if self.open && self.pending.len() > 0 {
            handle_line(self.pending.as_slice()).to_bytes()
        } else {
            Vec::new()
        };
        self.open = false;
        self.pending = Vec::new();
        out
    }
}

} // verus!
