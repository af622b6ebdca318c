//! Text sinks: the capability a render writes into. A sink accepts text
//! sequentially and may fail; on failure it keeps some prefix of the text it
//! was handed and the rest is lost.

use vstd::prelude::*;

verus! {

/// The failure a sink reports when a write cannot complete.
#[derive(Clone, Copy, PartialEq, Eq, Structural, Debug)]
pub struct WriteError;

/// A sequential, fallible text destination.
///
/// `contents` is the text the sink has accepted so far; `infallible` says
/// whether its writes are guaranteed to succeed. A failed write may keep any
/// prefix of the text it was handed, never more.
pub trait Sink {
    /// The text the sink has accepted so far.
    spec fn contents(&self) -> Seq<char>;

    /// Whether every write on this sink succeeds.
    spec fn infallible(&self) -> bool;

    /// Appends `s` to the sink. On success the whole of `s` is appended; on
    /// failure some prefix of `s` is appended and the error is reported.
    fn write_str(&mut self, s: &str) -> (r: Result<(), WriteError>)
        ensures
            final(self).infallible() == old(self).infallible(),
            old(self).infallible() ==> r is Ok,
            r is Ok ==> final(self).contents() == old(self).contents() + s@,
            r is Err ==> exists|n: int|
                0 <= n <= s@.len() && final(self).contents() == old(self).contents() + s@.take(n),
    ;
}

/// An in-memory sink whose writes always succeed.
pub struct StringSink {
    buf: String,
}

impl StringSink {
    /// An empty sink.
    pub fn new() -> (s: StringSink)
        ensures
            s.contents() == Seq::<char>::empty(),
            s.infallible(),
    {
        StringSink { buf: String::new() }
    }

    /// Hands the accepted text out.
    pub fn into_string(self) -> (out: String)
        ensures
            out@ == self.contents(),
    {
        self.buf
    }
}

impl Sink for StringSink {
    closed spec fn contents(&self) -> Seq<char> {
        self.buf@
    }

    closed spec fn infallible(&self) -> bool {
        true
    }

    fn write_str(&mut self, s: &str) -> (r: Result<(), WriteError>) {
        self.buf.append(s);
        Ok(())
    }
}

/// An in-memory sink that accepts at most a fixed number of characters and
/// fails once a write no longer fits. A write either fits whole or appends
/// nothing, so every failure leaves the text truncated at a write boundary.
pub struct BoundedSink {
    buf: String,
    remaining: usize,
}

impl BoundedSink {
    /// An empty sink that will accept up to `capacity` characters.
    pub fn new(capacity: usize) -> (s: BoundedSink)
        ensures
            s.contents() == Seq::<char>::empty(),
            !s.infallible(),
    {
        BoundedSink { buf: String::new(), remaining: capacity }
    }

    /// Hands the accepted text out.
    pub fn into_string(self) -> (out: String)
        ensures
            out@ == self.contents(),
    {
        self.buf
    }
}

impl Sink for BoundedSink {
    closed spec fn contents(&self) -> Seq<char> {
        self.buf@
    }

    closed spec fn infallible(&self) -> bool {
        false
    }

    fn write_str(&mut self, s: &str) -> (r: Result<(), WriteError>) {
        let len = s.unicode_len();
        if len <= self.remaining {
            self.remaining = self.remaining - len;
            self.buf.append(s);
            Ok(())
        } else {
            proof {
                assert(self.contents() == old(self).contents() + s@.take(0)) by {
                    assert(old(self).contents() + s@.take(0) =~= old(self).contents());
                }
            }
            Err(WriteError)
        }
    }
}

} // verus!
