//! The hardware-backed bulk channel: a thin trusted rim around rusb's
//! bulk transfers.  The two ghost stream fields are the channel's
//! model: the blocks handed to the device, and the bytes the device
//! will deliver from here on.  The trusted transfer wrappers account
//! every exchange against those streams; that bookkeeping is exactly
//! what the channel contract asks of any implementation, so the whole
//! driver runs over this channel under the same contracts the scripted
//! channel is proved to meet.

use crate::channel::BulkChannel;
use crate::errors::IcdiError;
use vstd::prelude::*;

verus! {

/// Holds rusb's opened-device handle.  The handle's type cannot be
/// declared to Verus (its type parameter is bound by an outside
/// trait), so this holder is opaque and the unverified rim constructs
/// it around the handle it opened.
#[verifier::external_body]
pub struct RawUsbHandle {
    /// The opened, claimed rusb handle.
    pub handle: rusb::DeviceHandle<rusb::Context>,
}

/// A bulk pipe to one opened ICDI device.
pub struct UsbChannel {
    raw: RawUsbHandle,
    log: Ghost<Seq<Seq<u8>>>,
    feed: Ghost<Seq<u8>>,
}

impl UsbChannel {
    /// Wraps an opened, claimed device handle.  Nothing has been
    /// written yet; what the device will deliver is left open.
    pub fn from_handle(raw: RawUsbHandle) -> (r: Self)
        ensures
            r.written() == Seq::<Seq<u8>>::empty(),
    {
        UsbChannel { raw, log: Ghost(Seq::empty()), feed: Ghost(arbitrary()) }
    }

    /// Relies on rusb::DeviceHandle::write_bulk on the ICDI OUT
    /// endpoint with a one-second timeout: it reports how many bytes
    /// went out, never more than handed in, and a timeout is told
    /// apart from other failures.  The write log records what went
    /// out; the feed is untouched.
    #[verifier::external_body]
    fn bulk_out(&mut self, data: &Vec<u8>) -> (r: Result<usize, IcdiError>)
        ensures
            final(self).feed@ == old(self).feed@,
            r matches Ok(n) ==> n <= data@.len() && final(self).log@ == old(self).log@.push(
                data@.take(n as int),
            ),
            r matches Err(e) ==> final(self).log@ == old(self).log@ && (e
                == IcdiError::TransportWrite || e == IcdiError::Timeout),
    {
        match self.raw.handle.write_bulk(
            crate::device::ICDI_WRITE_ENDPOINT,
            data.as_slice(),
            core::time::Duration::from_secs(1),
        ) {
            Ok(n) => Ok(n),
            Err(rusb::Error::Timeout) => Err(IcdiError::Timeout),
            Err(_) => Err(IcdiError::TransportWrite),
        }
    }

    /// Relies on rusb::DeviceHandle::read_bulk on the ICDI IN endpoint
    /// with a one-second timeout: it hands back the bytes received, at
    /// most a buffer's worth, and a timeout is told apart from other
    /// failures.  What arrives is accounted as the next stretch of the
    /// feed; the write log is untouched.
    #[verifier::external_body]
    fn bulk_in(&mut self) -> (r: Result<Vec<u8>, IcdiError>)
        ensures
            final(self).log@ == old(self).log@,
            r matches Ok(v) ==> v@.len() <= old(self).feed@.len() && v@ == old(
                self,
            ).feed@.take(v@.len() as int) && final(self).feed@ == old(self).feed@.skip(
                v@.len() as int,
            ),
            r matches Err(e) ==> final(self).feed@ == old(self).feed@ && (e
                == IcdiError::TransportRead || e == IcdiError::Timeout),
    {
        let mut buf = vec![0u8; 2048];
        match self.raw.handle.read_bulk(
            crate::device::ICDI_READ_ENDPOINT,
            buf.as_mut_slice(),
            core::time::Duration::from_secs(1),
        ) {
            Ok(n) => {
                buf.truncate(n);
                Ok(buf)
            },
            Err(rusb::Error::Timeout) => Err(IcdiError::Timeout),
            Err(_) => Err(IcdiError::TransportRead),
        }
    }
}

impl BulkChannel for UsbChannel {
    closed spec fn written(&self) -> Seq<Seq<u8>> {
        self.log@
    }

    closed spec fn incoming(&self) -> Seq<u8> {
        self.feed@
    }

    fn write_bulk(&mut self, data: &Vec<u8>) -> (r: Result<usize, IcdiError>) {
        self.bulk_out(data)
    }

    fn read_bulk(&mut self) -> (r: Result<Vec<u8>, IcdiError>) {
        self.bulk_in()
    }
}

} // verus!
