//! The reply side of one RSP transaction: bytes are accumulated until
//! the checksum has arrived, the payload is the slice between the
//! first `$` and the last `#`, and a payload is classified as `OK`,
//! `Exx`, or data.

use crate::channel::{stream_consumed, BulkChannel};
use crate::codec::{is_hex_digit, spec_hex_val};
use crate::errors::IcdiError;
use vstd::prelude::*;

verus! {

/// The reply buffer can hold this many bytes before the driver gives
/// up on finding a frame in it.
pub const RECEIVE_CAPACITY: usize = 2048;

/// A raw reply holds a full frame once the checksum byte is in: at
/// least three bytes, with `#` third from the end.
pub open spec fn spec_complete(s: Seq<u8>) -> bool {
    s.len() >= 3 && s[s.len() - 3] == 35
}

/// Where the payload of a raw reply lies: strictly between the first
/// `$` and the last `#`.  `None` when either marker is missing or the
/// first `$` does not precede the last `#`.
pub open spec fn spec_payload(s: Seq<u8>) -> Option<Seq<u8>> {
    match (s.index_of_first(36u8), s.index_of_last(35u8)) {
        (Some(a), Some(b)) => if a < b {
            Some(s.subrange(a + 1, b))
        } else {
            None
        },
        _ => None,
    }
}

/// How a payload is judged: empty is an error of its own, `OK` is
/// success, `E` followed by two hex digits carries that code, and
/// anything else is data and passes — an `E` that does not open a
/// two-digit code included.
pub open spec fn spec_classify(p: Seq<u8>) -> Result<(), IcdiError> {
    if p.len() == 0 {
        Err(IcdiError::EmptyResponse)
    } else if p.len() >= 2 && p[0] == 79 && p[1] == 75 {
        Ok(())
    } else if p.len() >= 3 && p[0] == 69 && is_hex_digit(p[1]) && is_hex_digit(p[2]) {
        Err(IcdiError::CommandFailed((spec_hex_val(p[1]) * 16 + spec_hex_val(p[2])) as u8))
    } else {
        Ok(())
    }
}

/// The judgement of a whole raw reply: extract the payload, then
/// classify it; a reply without a payload is a framing error.
pub open spec fn spec_check_result(s: Seq<u8>) -> Result<(), IcdiError> {
    match spec_payload(s) {
        None => Err(IcdiError::Framing),
        Some(p) => spec_classify(p),
    }
}

/// An empty payload is an error of its own.
pub proof fn lemma_classify_empty()
    ensures
        spec_classify(Seq::<u8>::empty()) == Err::<(), IcdiError>(IcdiError::EmptyResponse),
{
}

/// A payload that begins with `OK` passes, whatever follows.
pub proof fn lemma_classify_ok(p: Seq<u8>)
    requires
        p.len() >= 2,
        p[0] == 79,
        p[1] == 75,
    ensures
        spec_classify(p) is Ok,
{
}

/// `E` followed by two hex digits carries exactly that code, for
/// every pair of digits.
pub proof fn lemma_classify_error_code(hi: u8, lo: u8)
    requires
        is_hex_digit(hi),
        is_hex_digit(lo),
    ensures
        spec_classify(seq![69u8, hi, lo]) == Err::<(), IcdiError>(
            IcdiError::CommandFailed((spec_hex_val(hi) * 16 + spec_hex_val(lo)) as u8),
        ),
{
}

/// A non-empty payload that neither starts with `OK` nor with `E` and
/// two hex digits is data and passes, whatever else it holds.
pub proof fn lemma_classify_data(p: Seq<u8>)
    requires
        p.len() >= 1,
        !(p.len() >= 2 && p[0] == 79 && p[1] == 75),
        !(p.len() >= 3 && p[0] == 69 && is_hex_digit(p[1]) && is_hex_digit(p[2])),
    ensures
        spec_classify(p) is Ok,
{
}

/// The raw bytes of one reply to one command.
pub struct ReceiveBuffer {
    data: Vec<u8>,
}

impl View for ReceiveBuffer {
    type V = Seq<u8>;

    closed spec fn view(&self) -> Seq<u8> {
        self.data@
    }
}

/// Reports the position of the first occurrence of `b` in `data`.
fn find_first(data: &Vec<u8>, b: u8) -> (r: Option<usize>)
    ensures
        r matches Some(k) ==> data@.index_of_first(b) == Some(k as int),
        r is None ==> data@.index_of_first(b) is None,
{
    proof {
        data@.index_of_first_ensures(b);
    }
    let mut i: usize = 0;
    while i < data.len()
        invariant
            0 <= i <= data@.len(),
            forall|j: int| 0 <= j < i ==> data@[j] != b,
        decreases data@.len() - i,
    {
        if data[i] == b {
            proof {
                data@.index_of_first_ensures(b);
                assert(data@.contains(b)) by {
                    assert(data@[i as int] == b);
                }
            }
            return Some(i);
        }
        i = i + 1;
    }
    proof {
        data@.index_of_first_ensures(b);
        if data@.contains(b) {
            let w = choose|j: int| 0 <= j < data@.len() && data@[j] == b;
            assert(data@[w] != b);
        }
    }
    None
}

/// Reports the position of the last occurrence of `b` in `data`.
fn find_last(data: &Vec<u8>, b: u8) -> (r: Option<usize>)
    ensures
        r matches Some(k) ==> data@.index_of_last(b) == Some(k as int),
        r is None ==> data@.index_of_last(b) is None,
{
    proof {
        data@.index_of_last_ensures(b);
    }
    let mut i: usize = data.len();
    while i > 0
        invariant
            0 <= i <= data@.len(),
            forall|j: int| i <= j < data@.len() ==> data@[j] != b,
        decreases i,
    {
        i = i - 1;
        if data[i] == b {
            proof {
                data@.index_of_last_ensures(b);
                assert(data@.contains(b)) by {
                    assert(data@[i as int] == b);
                }
            }
            return Some(i);
        }
    }
    proof {
        data@.index_of_last_ensures(b);
        if data@.contains(b) {
            let w = choose|j: int| 0 <= j < data@.len() && data@[j] == b;
            assert(data@[w] != b);
        }
    }
    None
}

impl ReceiveBuffer {
    /// An empty reply buffer.
    pub fn new() -> (r: Self)
        ensures
            r@ == Seq::<u8>::empty(),
    {
        ReceiveBuffer { data: Vec::new() }
    }

    /// A reply buffer over the given raw bytes.
    pub fn from_bytes(data: Vec<u8>) -> (r: Self)
        ensures
            r@ == data@,
    {
        ReceiveBuffer { data }
    }

    /// How many raw bytes the reply holds.
    pub fn len(&self) -> (r: usize)
        ensures
            r == self@.len(),
    {
        self.data.len()
    }

    /// One raw byte of the reply.
    pub fn byte_at(&self, i: usize) -> (r: u8)
        requires
            i < self@.len(),
        ensures
            r == self@[i as int],
    {
        self.data[i]
    }

    /// Reads one reply from the channel: bulk reads are appended until
    /// the frame is complete.  Fails with `Framing` when the buffer
    /// fills first, and with `TransportRead` on a read that brings
    /// nothing.
    pub fn from_bulk_receive<C: BulkChannel>(ch: &mut C) -> (r: Result<Self, IcdiError>)
        ensures
            final(ch).written() == old(ch).written(),
            r matches Ok(buf) ==> spec_complete(buf@) && buf@.len() <= RECEIVE_CAPACITY && buf@.len()
                <= old(ch).incoming().len() && buf@ == old(ch).incoming().take(buf@.len() as int)
                && final(ch).incoming() == old(ch).incoming().skip(buf@.len() as int),
            r matches Err(e) ==> stream_consumed(old(ch).incoming(), final(ch).incoming()) && (e
                == IcdiError::Framing || e == IcdiError::TransportRead || e == IcdiError::Timeout),
    {
        let mut data: Vec<u8> = Vec::new();
        proof {
            assert(old(ch).incoming().take(0) =~= Seq::<u8>::empty());
            assert(old(ch).incoming().skip(0) =~= old(ch).incoming());
        }
        while data.len() < 3 || data[data.len() - 3] != 35
            invariant
                data@.len() <= RECEIVE_CAPACITY,
                data@.len() <= old(ch).incoming().len(),
                data@ == old(ch).incoming().take(data@.len() as int),
                ch.incoming() == old(ch).incoming().skip(data@.len() as int),
                ch.written() == old(ch).written(),
            decreases RECEIVE_CAPACITY - data@.len(),
        {
            if data.len() >= RECEIVE_CAPACITY {
                proof {
                    assert(stream_consumed(old(ch).incoming(), ch.incoming())) by {
                        assert(ch.incoming() == old(ch).incoming().skip(data@.len() as int));
                    }
                }
                return Err(IcdiError::Framing);
            }
            let got = data.len();
            let chunk = match ch.read_bulk() {
                Ok(v) => v,
                Err(e) => {
                    proof {
                        assert(ch.incoming() == old(ch).incoming().skip(data@.len() as int));
                    }
                    return Err(e);
                },
            };
            if chunk.len() == 0 {
                proof {
                    assert(ch.incoming() == old(ch).incoming().skip(data@.len() as int));
                }
                return Err(IcdiError::TransportRead);
            }
            if chunk.len() > RECEIVE_CAPACITY - got {
                proof {
                    let mid = old(ch).incoming().skip(got as int);
                    assert(mid.skip(chunk@.len() as int) =~= old(ch).incoming().skip(
                        got + chunk@.len(),
                    ));
                    assert(ch.incoming() == old(ch).incoming().skip(got + chunk@.len()));
                }
                return Err(IcdiError::Framing);
            }
            let mut chunk = chunk;
            proof {
                let pre = old(ch).incoming();
                let mid = pre.skip(got as int);
                assert(mid.take(chunk@.len() as int) =~= pre.subrange(got as int, got + chunk@.len()));
                assert(pre.take(got as int) + pre.subrange(got as int, got + chunk@.len()) =~= pre.take(
                    got + chunk@.len(),
                ));
                assert(mid.skip(chunk@.len() as int) =~= pre.skip(got + chunk@.len()));
            }
            data.append(&mut chunk);
        }
        Ok(ReceiveBuffer { data })
    }

    /// The payload between the first `$` and the last `#`; `Framing`
    /// when the reply has no such pair in order.
    pub fn get_payload(&self) -> (r: Result<Vec<u8>, IcdiError>)
        ensures
            r matches Ok(p) ==> spec_payload(self@) == Some(p@),
            r matches Err(e) ==> spec_payload(self@) is None && e == IcdiError::Framing,
    {
        let a = find_first(&self.data, 36);
        let b = find_last(&self.data, 35);
        match (a, b) {
            (Some(a), Some(b)) if a < b => {
                let mut p: Vec<u8> = Vec::new();
                let mut i: usize = a + 1;
                proof {
                    self.data@.index_of_first_ensures(36u8);
                    self.data@.index_of_last_ensures(35u8);
                    assert(p@ =~= self.data@.subrange(a + 1, a + 1));
                }
                while i < b
                    invariant
                        a + 1 <= i <= b < self.data@.len(),
                        p@ == self.data@.subrange(a + 1, i as int),
                    decreases b - i,
                {
                    p.push(self.data[i]);
                    proof {
                        assert(self.data@.subrange(a + 1, i + 1) =~= self.data@.subrange(
                            a + 1,
                            i as int,
                        ).push(self.data@[i as int]));
                    }
                    i = i + 1;
                }
                Ok(p)
            },
            _ => Err(IcdiError::Framing),
        }
    }

    /// Judges the reply: `Ok` for `OK` or data payloads, the carried
    /// code for `Exx`, and errors for empty or unframed replies.
    pub fn check_cmd_result(&self) -> (r: Result<(), IcdiError>)
        ensures
            r == spec_check_result(self@),
    {
        let p = match self.get_payload() {
            Ok(p) => p,
            Err(e) => {
                return Err(e);
            },
        };
        if p.len() == 0 {
            return Err(IcdiError::EmptyResponse);
        }
        if p.len() >= 2 && p[0] == 79 && p[1] == 75 {
            return Ok(());
        }
        if p[0] == 69 && p.len() >= 3 {
            let hi = p[1];
            let lo = p[2];
            let hi_hex = (48 <= hi && hi <= 57) || (97 <= hi && hi <= 102) || (65 <= hi && hi
                <= 70);
            let lo_hex = (48 <= lo && lo <= 57) || (97 <= lo && lo <= 102) || (65 <= lo && lo
                <= 70);
            if hi_hex && lo_hex {
                let code = crate::codec::hex_val(hi) * 16 + crate::codec::hex_val(lo);
                return Err(IcdiError::CommandFailed(code));
            }
        }
        Ok(())
    }
}

} // verus!
