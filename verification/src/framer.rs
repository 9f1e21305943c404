//! One RSP transaction: frame a body, send it, await the reply, and
//! resend on `-`, at most three attempts in all.

use crate::channel::{stream_consumed, BulkChannel};
use crate::codec::{frame_packet, spec_frame};
use crate::errors::IcdiError;
use crate::response::{spec_complete, ReceiveBuffer};
use vstd::prelude::*;

verus! {

/// Everything newly written is the frame of `body`, whole, and there
/// is at least one and at most three of it.
pub open spec fn spec_sent_frames(pre: Seq<Seq<u8>>, post: Seq<Seq<u8>>, body: Seq<u8>) -> bool {
    &&& pre.is_prefix_of(post)
    &&& pre.len() < post.len() <= pre.len() + 3
    &&& forall|i: int| pre.len() <= i < post.len() ==> post[i] == spec_frame(body)
}

/// Everything newly written is a prefix of the frame of `body` (a
/// short write may truncate the last one), at most three in all.
pub open spec fn spec_attempted_frames(pre: Seq<Seq<u8>>, post: Seq<Seq<u8>>, body: Seq<u8>) -> bool {
    &&& pre.is_prefix_of(post)
    &&& post.len() <= pre.len() + 3
    &&& forall|i: int| pre.len() <= i < post.len() ==> (#[trigger] post[i]).is_prefix_of(
        spec_frame(body),
    )
}

/// The bytes of `s` split into exactly `n` complete replies, each
/// beginning with `-`: the consumed prefix of a retried exchange.
pub open spec fn spec_nack_replies(s: Seq<u8>, n: int) -> bool
    decreases n,
    when n >= 0
{
    if n <= 0 {
        n == 0 && s.len() == 0
    } else {
        s.len() >= 3 && s[0] == 45 && exists|j: int|
            3 <= j <= s.len() && spec_complete(#[trigger] s.take(j)) && spec_nack_replies(
                s.skip(j),
                n - 1,
            )
    }
}

/// `n` whole `-`-acknowledged replies were consumed, then `rep`, and
/// the stream after ends exactly where `rep` ends: nothing of a later
/// transaction's reply was touched.
pub open spec fn spec_reply_after_nacks(pre: Seq<u8>, post: Seq<u8>, rep: Seq<u8>, n: int) -> bool {
    exists|k: int|
        #![trigger pre.subrange(k, k + rep.len() as int)]
        0 <= k && k + rep.len() <= pre.len() && spec_nack_replies(pre.take(k), n) && rep
            == pre.subrange(k, k + rep.len() as int) && post == pre.skip(k + rep.len() as int)
}

/// Everything consumed from the stream was whole `-`-acknowledged
/// replies, `n` of them.
pub open spec fn spec_nacks_consumed(pre: Seq<u8>, post: Seq<u8>, n: int) -> bool {
    exists|k: int|
        0 <= k <= pre.len() && spec_nack_replies(#[trigger] pre.take(k), n) && post == pre.skip(k)
}

/// A run of `-`-replies grows by one more complete `-`-reply at its
/// end.
pub proof fn lemma_nack_replies_snoc(s: Seq<u8>, n: int, r: Seq<u8>)
    requires
        n >= 0,
        spec_nack_replies(s, n),
        spec_complete(r),
        r[0] == 45,
    ensures
        spec_nack_replies(s + r, n + 1),
    decreases n,
{
    if n == 0 {
        assert(s + r =~= r);
        assert(r.take(r.len() as int) =~= r);
        assert(r.skip(r.len() as int) =~= Seq::<u8>::empty());
        assert(spec_complete(r.take(r.len() as int)));
        assert(spec_nack_replies(r.skip(r.len() as int), 0));
    } else {
        let j = choose|j: int|
            3 <= j <= s.len() && spec_complete(#[trigger] s.take(j)) && spec_nack_replies(
                s.skip(j),
                n - 1,
            );
        lemma_nack_replies_snoc(s.skip(j), n - 1, r);
        assert((s + r).take(j) =~= s.take(j));
        assert((s + r).skip(j) =~= s.skip(j) + r);
        assert((s + r)[0] == 45);
    }
}

/// Being an older stretch of the write log carries over.
pub proof fn lemma_prefix_trans(a: Seq<Seq<u8>>, b: Seq<Seq<u8>>, c: Seq<Seq<u8>>)
    requires
        a.is_prefix_of(b),
        b.is_prefix_of(c),
    ensures
        a.is_prefix_of(c),
{
    assert(a =~= c.subrange(0, a.len() as int));
}

/// Frames `body` and sends it; only a `-` reply makes it resend the
/// same frame, up to three attempts, after which `TooManyRetries` is
/// reported with all three `-` replies consumed.  Any complete reply
/// not starting with `-` is handed back, `+`-acknowledged or not, with
/// one send per `-` consumed before it.  A short write is fatal at
/// once: the truncated block is the last thing written and nothing
/// more is read.
pub fn send_packet<C: BulkChannel>(ch: &mut C, body: &Vec<u8>) -> (r: Result<
    ReceiveBuffer,
    IcdiError,
>)
    ensures
        spec_attempted_frames(old(ch).written(), final(ch).written(), body@),
        stream_consumed(old(ch).incoming(), final(ch).incoming()),
        r matches Err(e) ==> crate::errors::spec_transport_error(e),
        r == Err::<ReceiveBuffer, IcdiError>(IcdiError::TooManyRetries) ==> final(ch).written()
            == old(ch).written() + seq![spec_frame(body@), spec_frame(body@), spec_frame(body@)]
            && spec_nacks_consumed(old(ch).incoming(), final(ch).incoming(), 3),
        r == Err::<ReceiveBuffer, IcdiError>(IcdiError::TransportWrite) ==> exists|n: int|
            #![trigger spec_nacks_consumed(old(ch).incoming(), final(ch).incoming(), n)]
            0 <= n < 3 && spec_nacks_consumed(old(ch).incoming(), final(ch).incoming(), n)
                && old(ch).written().len() + n <= final(ch).written().len()
                && final(ch).written().len() <= old(ch).written().len() + n + 1
                && (forall|i: int|
                old(ch).written().len() <= i < old(ch).written().len() + n
                    ==> (#[trigger] final(ch).written()[i]) == spec_frame(body@))
                && (final(ch).written().len() == old(ch).written().len() + n + 1
                ==> final(ch).written().last().len() < spec_frame(body@).len()),
        r matches Ok(rb) ==> spec_sent_frames(old(ch).written(), final(ch).written(), body@)
            && spec_complete(rb@) && rb@[0] != 45 && spec_reply_after_nacks(
            old(ch).incoming(),
            final(ch).incoming(),
            rb@,
            final(ch).written().len() - old(ch).written().len() - 1,
        ),
{
    let frame = frame_packet(body);
    let mut attempt: usize = 0;
    let ghost mut consumed: int = 0;
    proof {
        assert(old(ch).incoming().skip(0) =~= old(ch).incoming());
        assert(old(ch).incoming().take(0) =~= Seq::<u8>::empty());
        assert(old(ch).written().is_prefix_of(old(ch).written()));
    }
    while attempt < 3
        invariant
            attempt <= 3,
            frame@ == spec_frame(body@),
            old(ch).written().is_prefix_of(ch.written()),
            ch.written().len() == old(ch).written().len() + attempt,
            forall|i: int|
                old(ch).written().len() <= i < ch.written().len() ==> ch.written()[i] == spec_frame(
                    body@,
                ),
            0 <= consumed <= old(ch).incoming().len(),
            ch.incoming() == old(ch).incoming().skip(consumed),
            spec_nack_replies(old(ch).incoming().take(consumed), attempt as int),
        decreases 3 - attempt,
    {
        let sent = match ch.write_bulk(&frame) {
            Ok(n) => n,
            Err(e) => {
                proof {
                    assert(spec_nacks_consumed(old(ch).incoming(), ch.incoming(), attempt as int))
                        by {
                        assert(spec_nack_replies(
                            old(ch).incoming().take(consumed),
                            attempt as int,
                        ));
                    }
                }
                return Err(e);
            },
        };
        proof {
            assert(frame@.take(sent as int).is_prefix_of(frame@));
        }
        if sent != frame.len() {
            proof {
                assert(spec_nacks_consumed(old(ch).incoming(), ch.incoming(), attempt as int)) by {
                    assert(spec_nack_replies(old(ch).incoming().take(consumed), attempt as int));
                }
                assert(ch.written().last() == frame@.take(sent as int));
                assert(frame@.take(sent as int).len() < spec_frame(body@).len());
            }
            return Err(IcdiError::TransportWrite);
        }
        proof {
            assert(frame@.take(frame@.len() as int) =~= frame@);
        }
        let rb = match ReceiveBuffer::from_bulk_receive(ch) {
            Ok(b) => b,
            Err(e) => {
                proof {
                    let mid = old(ch).incoming().skip(consumed);
                    let k = choose|k: int| 0 <= k <= mid.len() && ch.incoming() == mid.skip(k);
                    assert(mid.skip(k) =~= old(ch).incoming().skip(consumed + k));
                }
                return Err(e);
            },
        };
        let ghost k0 = consumed;
        proof {
            let pre = old(ch).incoming();
            let mid = pre.skip(consumed);
            let l = rb@.len() as int;
            assert(mid.take(l) =~= pre.subrange(consumed, consumed + l));
            assert(mid.skip(l) =~= pre.skip(consumed + l));
            consumed = consumed + l;
        }
        if rb.byte_at(0) != 45 {
            proof {
                let pre = old(ch).incoming();
                let l = rb@.len() as int;
                assert(rb@ == pre.subrange(k0, k0 + l));
                assert(spec_nack_replies(pre.take(k0), attempt as int));
                assert(ch.incoming() == pre.skip(k0 + l));
            }
            return Ok(rb);
        }
        proof {
            let pre = old(ch).incoming();
            lemma_nack_replies_snoc(pre.take(k0), attempt as int, rb@);
            assert(pre.take(k0) + rb@ =~= pre.take(consumed));
        }
        attempt = attempt + 1;
    }
    proof {
        assert(spec_nacks_consumed(old(ch).incoming(), ch.incoming(), 3)) by {
            assert(spec_nack_replies(old(ch).incoming().take(consumed), 3));
        }
    }
    Err(IcdiError::TooManyRetries)
}

} // verus!
