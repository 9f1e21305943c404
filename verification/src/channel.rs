//! The bulk USB capability the driver is written against.  A channel
//! models itself by two ghost streams: the frames handed to the device
//! so far, and the bytes the device has yet to deliver.  The driver's
//! contracts are stated over these streams, so they hold for any
//! implementation that honours them — the scripted channel used by the
//! tests is one, a hardware-backed channel outside the verified
//! boundary is another.

use crate::errors::IcdiError;
use vstd::prelude::*;

verus! {

/// A synchronous bulk pipe to one ICDI device.
pub trait BulkChannel {
    /// The byte blocks handed to the device so far, oldest first.
    spec fn written(&self) -> Seq<Seq<u8>>;

    /// The bytes the device has yet to deliver.
    spec fn incoming(&self) -> Seq<u8>;

    /// Hands `data` to the device and reports how many bytes went out;
    /// a short count means the rest was lost.
    fn write_bulk(&mut self, data: &Vec<u8>) -> (r: Result<usize, IcdiError>)
        ensures
            final(self).incoming() == old(self).incoming(),
            r matches Ok(n) ==> n <= data@.len() && final(self).written() == old(
                self,
            ).written().push(data@.take(n as int)),
            r matches Err(e) ==> final(self).written() == old(self).written() && (e
                == IcdiError::TransportWrite || e == IcdiError::Timeout),
    ;

    /// Asks the device for more reply bytes; what comes back is the
    /// next stretch of the incoming stream.
    fn read_bulk(&mut self) -> (r: Result<Vec<u8>, IcdiError>)
        ensures
            final(self).written() == old(self).written(),
            r matches Ok(v) ==> v@.len() <= old(self).incoming().len() && v@ == old(
                self,
            ).incoming().take(v@.len() as int) && final(self).incoming() == old(
                self,
            ).incoming().skip(v@.len() as int),
            r matches Err(e) ==> final(self).incoming() == old(self).incoming() && (e
                == IcdiError::TransportRead || e == IcdiError::Timeout),
    ;
}

/// The after-stream is the before-stream with some prefix consumed.
pub open spec fn stream_consumed(pre: Seq<u8>, post: Seq<u8>) -> bool {
    exists|k: int| 0 <= k <= pre.len() && post == pre.skip(k)
}

/// Consuming twice is consuming once.
pub proof fn lemma_stream_consumed_trans(a: Seq<u8>, b: Seq<u8>, c: Seq<u8>)
    requires
        stream_consumed(a, b),
        stream_consumed(b, c),
    ensures
        stream_consumed(a, c),
{
    let k1 = choose|k: int| 0 <= k <= a.len() && b == a.skip(k);
    let k2 = choose|k: int| 0 <= k <= b.len() && c == b.skip(k);
    assert(a.skip(k1).skip(k2) =~= a.skip(k1 + k2));
}

} // verus!
