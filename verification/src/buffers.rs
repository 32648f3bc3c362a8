//! Payloads that lie in several buffers, as those of `WSASend` and
//! `WSARecv` do: read as one byte string, and written back across the
//! buffers in their order.

use crate::intercept::{effective, effective_action, inbound_count, overwritten, smaller};
use crate::rule::{action_of, ActionModel, PacketAction};
use vstd::prelude::*;

verus! {

/// The bytes of the buffers, one buffer after the other.
pub open spec fn contents(buffers: Seq<Vec<u8>>) -> Seq<u8>
    decreases buffers.len(),
{
    if buffers.len() == 0 {
        Seq::empty()
    } else {
        contents(buffers.drop_last()) + buffers.last()@
    }
}

/// Whether two lists have as many buffers, each as long as its counterpart.
pub open spec fn same_shape(a: Seq<Vec<u8>>, b: Seq<Vec<u8>>) -> bool {
    &&& a.len() == b.len()
    &&& forall|i: int| 0 <= i < a.len() ==> (#[trigger] a[i])@.len() == b[i]@.len()
}

/// The contents of buffers laid end to end are the contents of the first
/// list followed by those of the second.
pub proof fn lemma_contents_add(a: Seq<Vec<u8>>, b: Seq<Vec<u8>>)
    ensures
        contents(a + b) == contents(a) + contents(b),
    decreases b.len(),
{
    if b.len() == 0 {
        assert(a + b =~= a);
        assert(contents(a) + contents(b) =~= contents(a));
    } else {
        assert((a + b).drop_last() =~= a + b.drop_last());
        assert((a + b).last() == b.last());
        lemma_contents_add(a, b.drop_last());
        assert(contents(a + b) =~= contents(a) + contents(b));
    }
}

/// A list of buffers is its first `n` buffers followed by the rest.
proof fn lemma_contents_split(buffers: Seq<Vec<u8>>, n: int)
    requires
        0 <= n <= buffers.len(),
    ensures
        contents(buffers) == contents(buffers.take(n)) + contents(buffers.skip(n)),
{
    assert(buffers =~= buffers.take(n) + buffers.skip(n));
    lemma_contents_add(buffers.take(n), buffers.skip(n));
}

/// Reads the buffers as one byte string.
pub fn gather(buffers: &Vec<Vec<u8>>) -> (r: Vec<u8>)
    ensures
        r@ == contents(buffers@),
{
    let mut out: Vec<u8> = Vec::new();
    let mut i: usize = 0;
    while i < buffers.len()
        invariant
            i <= buffers@.len(),
            out@ == contents(buffers@.take(i as int)),
        decreases buffers@.len() - i,
    {
        let ghost done = out@;
        let mut k: usize = 0;
        while k < buffers[i].len()
            invariant
                i < buffers@.len(),
                k <= buffers@[i as int]@.len(),
                out@ == done + buffers@[i as int]@.take(k as int),
            decreases buffers@[i as int]@.len() - k,
        {
            out.push(buffers[i][k]);
            proof {
                assert(out@ =~= done + buffers@[i as int]@.take(k + 1));
            }
            k = k + 1;
        }
        proof {
            assert(buffers@[i as int]@.take(k as int) =~= buffers@[i as int]@);
            assert(buffers@.take(i + 1).drop_last() =~= buffers@.take(i as int));
            assert(buffers@.take(i + 1).last() == buffers@[i as int]);
        }
        i = i + 1;
    }
    proof {
        assert(buffers@.take(buffers@.len() as int) =~= buffers@);
    }
    out
}

/// Reads the first `received` bytes of the buffers as one byte string, or
/// all of them where they hold fewer.
pub fn gather_received(buffers: &Vec<Vec<u8>>, received: usize) -> (r: Vec<u8>)
    ensures
        r@ == contents(buffers@).take(
            smaller(received as int, contents(buffers@).len() as int),
        ),
{
    let mut out = gather(buffers);
    let ghost all = out@;
    out.truncate(received);
    proof {
        assert(out@ =~= all.take(smaller(received as int, all.len() as int)));
    }
    out
}

/// Writes `bytes` across the buffers in their order, over what they hold,
/// until the bytes or the buffers run out. Gives the number of bytes written.
pub fn scatter(buffers: &mut Vec<Vec<u8>>, bytes: &[u8]) -> (written: usize)
    ensures
        same_shape(final(buffers)@, old(buffers)@),
        written == smaller(bytes@.len() as int, contents(old(buffers)@).len() as int),
        contents(final(buffers)@) == overwritten(contents(old(buffers)@), bytes@),
{
    let mut written: usize = 0;
    let mut i: usize = 0;
    while i < buffers.len() && written < bytes.len()
        invariant
            i <= buffers@.len(),
            same_shape(buffers@, old(buffers)@),
            forall|j: int| i <= j < buffers@.len() ==> (#[trigger] buffers@[j]) == old(buffers)@[j],
            written <= bytes@.len(),
            written == smaller(
                bytes@.len() as int,
                contents(old(buffers)@.take(i as int)).len() as int,
            ),
            contents(buffers@.take(i as int)) == overwritten(
                contents(old(buffers)@.take(i as int)),
                bytes@,
            ),
        decreases buffers@.len() - i,
    {
        let ghost before = buffers@;
        let ghost held = contents(old(buffers)@.take(i as int));
        let capacity: usize = buffers[i].len();
        let remaining: usize = bytes.len() - written;
        let chunk: usize = if capacity <= remaining {
            capacity
        } else {
            remaining
        };
        let mut fresh: Vec<u8> = Vec::new();
        let mut k: usize = 0;
        while k < chunk
            invariant
                k <= chunk,
                written + chunk <= bytes@.len() <= usize::MAX,
                fresh@ == bytes@.subrange(written as int, written + k),
            decreases chunk - k,
        {
            fresh.push(bytes[written + k]);
            proof {
                assert(fresh@ =~= bytes@.subrange(written as int, written + k + 1));
            }
            k = k + 1;
        }
        while k < capacity
            invariant
                i < buffers@.len(),
                buffers@ == before,
                capacity == before[i as int]@.len(),
                written + chunk <= bytes@.len(),
                chunk <= k <= capacity,
                fresh@ == bytes@.subrange(written as int, written + chunk) + before[i as int]@.subrange(
                    chunk as int,
                    k as int,
                ),
            decreases capacity - k,
        {
            fresh.push(buffers[i][k]);
            proof {
                assert(fresh@ =~= bytes@.subrange(written as int, written + chunk)
                    + before[i as int]@.subrange(chunk as int, k + 1));
            }
            k = k + 1;
        }
        buffers[i] = fresh;
        proof {
            let own = old(buffers)@[i as int]@;
            assert(before[i as int] == old(buffers)@[i as int]);
            assert(buffers@.take(i + 1).drop_last() =~= before.take(i as int));
            assert(old(buffers)@.take(i + 1).drop_last() =~= old(buffers)@.take(i as int));
            assert(old(buffers)@.take(i + 1).last() == old(buffers)@[i as int]);
            assert(written == held.len());
            assert(fresh@ =~= bytes@.subrange(written as int, written + chunk) + own.skip(
                chunk as int,
            ));
            assert(contents(buffers@.take(i + 1)) =~= overwritten(held + own, bytes@));
        }
        written = written + chunk;
        i = i + 1;
    }
    proof {
        let n = i as int;
        let held = contents(old(buffers)@.take(n));
        let rest = contents(old(buffers)@.skip(n));
        lemma_contents_split(old(buffers)@, n);
        lemma_contents_split(buffers@, n);
        assert(buffers@.skip(n) =~= old(buffers)@.skip(n));
        if n < buffers@.len() {
            assert(written == bytes@.len());
        } else {
            assert(old(buffers)@.skip(n) =~= Seq::<Vec<u8>>::empty());
        }
        assert(contents(buffers@) =~= overwritten(held + rest, bytes@));
    }
    written
}

/// Settles an inbound call whose payload lies in several buffers, and
/// gives the number of bytes to report.
///
/// `Allow` reports what was received and `Block` reports nothing; both
/// leave the buffers as they are. `Replace` writes the replacement across
/// the buffers and reports as much of it as they hold.
pub fn apply_inbound_scattered(
    action: &PacketAction,
    buffers: &mut Vec<Vec<u8>>,
    received: usize,
) -> (count: usize)
    ensures
        same_shape(final(buffers)@, old(buffers)@),
        count == inbound_count(
            action@,
            contents(old(buffers)@).len() as int,
            received as int,
        ),
        contents(final(buffers)@) == match action@ {
            ActionModel::Replace(bytes) => overwritten(contents(old(buffers)@), bytes),
            _ => contents(old(buffers)@),
        },
{
    match action {
        PacketAction::Allow => received,
        PacketAction::Block => 0,
        PacketAction::Replace(bytes) => scatter(buffers, bytes.as_slice()),
    }
}

/// Settles an inbound call whose payload lies in several buffers from the
/// rule's action and the callback's.
pub fn settle_inbound_scattered(
    rule_action: Option<PacketAction>,
    callback_action: Option<PacketAction>,
    buffers: &mut Vec<Vec<u8>>,
    received: usize,
) -> (count: usize)
    ensures
        same_shape(final(buffers)@, old(buffers)@),
        count == inbound_count(
            effective(action_of(rule_action), action_of(callback_action)),
            contents(old(buffers)@).len() as int,
            received as int,
        ),
        contents(final(buffers)@) == match effective(
            action_of(rule_action),
            action_of(callback_action),
        ) {
            ActionModel::Replace(bytes) => overwritten(contents(old(buffers)@), bytes),
            _ => contents(old(buffers)@),
        },
{
    let action = effective_action(rule_action, callback_action);
    apply_inbound_scattered(&action, buffers, received)
}

} // verus!
