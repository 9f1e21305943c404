//! A channel whose device side is played from a script: every read
//! delivers the next scripted reply, every write is captured.  The
//! tests drive the probe against it; its contracts are proved, so the
//! driver's channel-level reasoning is exercised by a verified
//! implementation.

use crate::channel::BulkChannel;
use crate::errors::IcdiError;
use vstd::prelude::*;

verus! {

/// A scripted bulk channel: reads replay `script`, writes are kept.
pub struct ScriptChannel {
    script: Vec<Vec<u8>>,
    next: usize,
    sent: Vec<Vec<u8>>,
    accept_writes: bool,
}

/// The views of a vector of byte vectors.
pub open spec fn views(v: Seq<Vec<u8>>) -> Seq<Seq<u8>> {
    v.map_values(|b: Vec<u8>| b@)
}

impl ScriptChannel {
    /// What one scripted channel still owes: the unread replies, run
    /// together.
    pub closed spec fn remaining(&self) -> Seq<u8> {
        if self.next <= self.script@.len() {
            views(self.script@).skip(self.next as int).flatten()
        } else {
            Seq::empty()
        }
    }

    /// A channel that answers reads from `script`, one entry per read,
    /// then times out.
    pub fn new(script: Vec<Vec<u8>>) -> (r: Self)
        ensures
            r.written() == Seq::<Seq<u8>>::empty(),
            r.incoming() == views(script@).flatten(),
    {
        let r = ScriptChannel { script, next: 0, sent: Vec::new(), accept_writes: true };
        proof {
            assert(views(r.script@).skip(0) =~= views(r.script@));
            assert(views(r.sent@) =~= Seq::<Seq<u8>>::empty());
        }
        r
    }

    /// A channel that refuses every write, for exercising transport
    /// failures.
    pub fn new_write_failing() -> (r: Self)
        ensures
            r.written() == Seq::<Seq<u8>>::empty(),
            r.incoming() == Seq::<u8>::empty(),
    {
        let r = ScriptChannel {
            script: Vec::new(),
            next: 0,
            sent: Vec::new(),
            accept_writes: false,
        };
        proof {
            assert(views(r.script@).skip(0).flatten() =~= Seq::<u8>::empty());
            assert(views(r.sent@) =~= Seq::<Seq<u8>>::empty());
        }
        r
    }

    /// How many blocks were written so far.
    pub fn sent_count(&self) -> (r: usize)
        ensures
            r == self.written().len(),
    {
        self.sent.len()
    }

    /// One written block, oldest first.
    pub fn sent_frame(&self, i: usize) -> (r: &Vec<u8>)
        requires
            i < self.written().len(),
        ensures
            r@ == self.written()[i as int],
    {
        &self.sent[i]
    }

    /// How many scripted replies were consumed so far, in the ghost.
    pub closed spec fn spec_replies_read(&self) -> int {
        self.next as int
    }

    /// How many scripted replies were consumed so far.
    pub fn replies_read(&self) -> (r: usize)
        ensures
            r == self.spec_replies_read(),
    {
        self.next
    }
}

impl BulkChannel for ScriptChannel {
    closed spec fn written(&self) -> Seq<Seq<u8>> {
        views(self.sent@)
    }

    closed spec fn incoming(&self) -> Seq<u8> {
        self.remaining()
    }

    fn write_bulk(&mut self, data: &Vec<u8>) -> (r: Result<usize, IcdiError>) {
        if !self.accept_writes {
            return Err(IcdiError::TransportWrite);
        }
        let mut copy: Vec<u8> = Vec::new();
        let mut i: usize = 0;
        while i < data.len()
            invariant
                0 <= i <= data@.len(),
                copy@ =~= data@.take(i as int),
            decreases data@.len() - i,
        {
            copy.push(data[i]);
            proof {
                assert(copy@ =~= data@.take(i + 1));
            }
            i = i + 1;
        }
        proof {
            assert(copy@ =~= data@);
        }
        let n = data.len();
        self.sent.push(copy);
        proof {
            assert(data@.take(n as int) =~= data@);
            assert(views(self.sent@) =~= views(old(self).sent@).push(data@));
        }
        Ok(n)
    }

    fn read_bulk(&mut self) -> (r: Result<Vec<u8>, IcdiError>) {
        if self.next >= self.script.len() {
            return Err(IcdiError::Timeout);
        }
        let src = &self.script[self.next];
        let mut out: Vec<u8> = Vec::new();
        let mut i: usize = 0;
        while i < src.len()
            invariant
                0 <= i <= src@.len(),
                out@ =~= src@.take(i as int),
            decreases src@.len() - i,
        {
            out.push(src[i]);
            proof {
                assert(out@ =~= src@.take(i + 1));
            }
            i = i + 1;
        }
        proof {
            assert(out@ =~= src@);
        }
        self.next = self.next + 1;
        proof {
            let vs = views(old(self).script@);
            let k = old(self).next as int;
            assert(vs.skip(k).len() > 0);
            assert(vs.skip(k).first() == out@);
            assert(vs.skip(k).drop_first() =~= vs.skip(k + 1));
            assert(vs.skip(k).flatten() == out@ + vs.skip(k + 1).flatten());
            assert((out@ + vs.skip(k + 1).flatten()).take(out@.len() as int) =~= out@);
            assert((out@ + vs.skip(k + 1).flatten()).skip(out@.len() as int) =~= vs.skip(
                k + 1,
            ).flatten());
        }
        Ok(out)
    }
}

} // verus!
