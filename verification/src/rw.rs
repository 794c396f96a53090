//! Caller-owned read/write scratchpad handed to the connection driver.
//!
//! The scratchpad carries the clock, the bytes received from the socket that
//! are still to be consumed, the queue of outbound byte chunks, the remaining
//! outbound capacity, and an optional wake-up hint for the caller.

use vstd::prelude::*;

verus! {

/// Total length of a sequence of byte chunks.
pub open spec fn sum_lens(q: Seq<Vec<u8>>) -> nat
    decreases q.len(),
{
    if q.len() == 0 {
        0
    } else {
        sum_lens(q.drop_last()) + q.last()@.len()
    }
}

/// Concatenation splits a chunk-length sum.
pub proof fn lemma_sum_lens_add(a: Seq<Vec<u8>>, b: Seq<Vec<u8>>)
    ensures
        sum_lens(a + b) == sum_lens(a) + sum_lens(b),
    decreases b.len(),
{
    if b.len() == 0 {
        assert(a + b =~= a);
    } else {
        assert((a + b).drop_last() =~= a + b.drop_last());
        assert((a + b).last() == b.last());
        lemma_sum_lens_add(a, b.drop_last());
    }
}

/// A chunk-length sum can be split off at the front.
pub proof fn lemma_sum_lens_first(s: Seq<Vec<u8>>)
    requires
        s.len() > 0,
    ensures
        sum_lens(s) == s[0]@.len() + sum_lens(s.drop_first()),
{
    assert(seq![s[0]] + s.drop_first() =~= s);
    lemma_sum_lens_add(seq![s[0]], s.drop_first());
    assert(seq![s[0]].drop_last() =~= Seq::<Vec<u8>>::empty());
    assert(sum_lens(Seq::<Vec<u8>>::empty()) == 0);
    assert(sum_lens(seq![s[0]]) == s[0]@.len());
}

/// I/O scratchpad: owned by the caller, passed by mutable reference.
pub struct ReadWrite {
    /// Monotonic clock value, in arbitrary ticks.
    pub now: u64,
    /// Bytes received from the socket, still to be consumed.
    pub incoming_buffer: Vec<u8>,
    /// `None` if the read side is closed; `Some(n)` asks the caller to
    /// deliver at least `n` more bytes before the next call if available.
    pub expected_incoming_bytes: Option<usize>,
    /// Number of bytes consumed from `incoming_buffer` so far.
    pub read_bytes: usize,
    /// Outbound byte chunks, in the order they must reach the socket.
    pub write_buffers: Vec<Vec<u8>>,
    /// Total length of the chunks in `write_buffers`.
    pub write_bytes_queued: usize,
    /// `None` if the write side is closed; `Some(n)` is the remaining
    /// outbound capacity, in bytes.
    pub write_bytes_queueable: Option<usize>,
    /// Earliest moment at which the caller should invoke the driver again.
    pub wake_up_after: Option<u64>,
}

impl ReadWrite {
    /// Remaining outbound capacity, with a closed write side counting as 0.
    pub open spec fn spec_queueable(self) -> int {
        match self.write_bytes_queueable {
            Some(n) => n as int,
            None => 0,
        }
    }

    /// The counters can keep absorbing what the buffers may still hold.
    pub open spec fn wf(self) -> bool {
        &&& self.read_bytes + self.incoming_buffer@.len() <= usize::MAX
        &&& self.write_bytes_queued + self.spec_queueable() <= usize::MAX
    }

    /// One bounded step of work on the scratchpad: bytes are consumed only
    /// off the front of the incoming buffer, outbound chunks are only
    /// appended, the counters follow, and a closed write side stays closed.
    pub open spec fn rw_step(pre: ReadWrite, post: ReadWrite) -> bool {
        &&& post.now == pre.now
        &&& post.incoming_buffer@.len() <= pre.incoming_buffer@.len()
        &&& post.incoming_buffer@ == pre.incoming_buffer@.skip(
            pre.incoming_buffer@.len() - post.incoming_buffer@.len(),
        )
        &&& post.read_bytes == pre.read_bytes + (pre.incoming_buffer@.len()
            - post.incoming_buffer@.len())
        &&& post.write_buffers@.len() >= pre.write_buffers@.len()
        &&& post.write_buffers@.take(pre.write_buffers@.len() as int) == pre.write_buffers@
        &&& post.write_bytes_queued == pre.write_bytes_queued + sum_lens(
            post.write_buffers@.skip(pre.write_buffers@.len() as int),
        )
        &&& (pre.write_bytes_queueable is None ==> post.write_bytes_queueable is None)
        &&& post.write_bytes_queued + post.spec_queueable() <= pre.write_bytes_queued
            + pre.spec_queueable()
        &&& (pre.wf() ==> post.wf())
    }

    /// A step is allowed to do nothing.
    pub proof fn lemma_rw_step_refl(a: ReadWrite)
        ensures
            Self::rw_step(a, a),
    {
        assert(a.incoming_buffer@ =~= a.incoming_buffer@.skip(0));
        assert(a.write_buffers@.take(a.write_buffers@.len() as int) =~= a.write_buffers@);
        assert(a.write_buffers@.skip(a.write_buffers@.len() as int) =~= Seq::<Vec<u8>>::empty());
        assert(sum_lens(Seq::<Vec<u8>>::empty()) == 0);
    }

    /// Two steps compose into one.
    pub proof fn lemma_rw_step_trans(a: ReadWrite, b: ReadWrite, c: ReadWrite)
        requires
            Self::rw_step(a, b),
            Self::rw_step(b, c),
        ensures
            Self::rw_step(a, c),
    {
        assert(c.incoming_buffer@ =~= a.incoming_buffer@.skip(
            a.incoming_buffer@.len() - c.incoming_buffer@.len(),
        ));
        assert(c.write_buffers@.take(a.write_buffers@.len() as int) =~= a.write_buffers@) by {
            assert forall|k: int| 0 <= k < a.write_buffers@.len() implies c.write_buffers@[k]
                == a.write_buffers@[k] by {
                assert(c.write_buffers@.take(b.write_buffers@.len() as int)[k]
                    == b.write_buffers@[k]);
                assert(b.write_buffers@.take(a.write_buffers@.len() as int)[k]
                    == a.write_buffers@[k]);
            }
        }
        let n1 = b.write_buffers@.skip(a.write_buffers@.len() as int);
        let n2 = c.write_buffers@.skip(b.write_buffers@.len() as int);
        assert(c.write_buffers@.skip(a.write_buffers@.len() as int) =~= n1 + n2) by {
            assert forall|k: int|
                0 <= k < c.write_buffers@.len() - a.write_buffers@.len() implies c.write_buffers@.skip(
                a.write_buffers@.len() as int,
            )[k] == (n1 + n2)[k] by {
                if k < n1.len() {
                    assert(n1[k] == b.write_buffers@[a.write_buffers@.len() + k]);
                    assert(c.write_buffers@.take(b.write_buffers@.len() as int)[
                        a.write_buffers@.len() + k] == b.write_buffers@[a.write_buffers@.len()
                        + k]);
                }
            }
        }
        lemma_sum_lens_add(n1, n2);
    }

    /// A step that only consumed bytes off the front is a step.
    pub proof fn lemma_rw_step_read_only(a: ReadWrite, b: ReadWrite)
        requires
            b.now == a.now,
            b.incoming_buffer@.len() <= a.incoming_buffer@.len(),
            b.incoming_buffer@ == a.incoming_buffer@.skip(
                a.incoming_buffer@.len() - b.incoming_buffer@.len(),
            ),
            b.read_bytes == a.read_bytes + (a.incoming_buffer@.len()
                - b.incoming_buffer@.len()),
            b.write_buffers == a.write_buffers,
            b.write_bytes_queued == a.write_bytes_queued,
            b.write_bytes_queueable == a.write_bytes_queueable,
            a.wf() ==> b.wf(),
        ensures
            Self::rw_step(a, b),
    {
        assert(b.write_buffers@.take(a.write_buffers@.len() as int) =~= a.write_buffers@);
        assert(b.write_buffers@.skip(a.write_buffers@.len() as int) =~= Seq::<Vec<u8>>::empty());
        assert(sum_lens(Seq::<Vec<u8>>::empty()) == 0);
    }

    /// A step that at most lowered the wake-up hint is a step.
    pub proof fn lemma_rw_step_same(a: ReadWrite, b: ReadWrite)
        requires
            b.now == a.now,
            b.incoming_buffer == a.incoming_buffer,
            b.read_bytes == a.read_bytes,
            b.write_buffers == a.write_buffers,
            b.write_bytes_queued == a.write_bytes_queued,
            b.write_bytes_queueable == a.write_bytes_queueable,
            a.wf() ==> b.wf(),
        ensures
            Self::rw_step(a, b),
    {
        assert(b.incoming_buffer@ =~= a.incoming_buffer@.skip(0));
        assert(b.write_buffers@.take(a.write_buffers@.len() as int) =~= a.write_buffers@);
        assert(b.write_buffers@.skip(a.write_buffers@.len() as int) =~= Seq::<Vec<u8>>::empty());
        assert(sum_lens(Seq::<Vec<u8>>::empty()) == 0);
    }

    /// A fresh scratchpad: nothing received, nothing queued.
    pub fn new(now: u64, queueable: Option<usize>) -> (r: ReadWrite)
        ensures
            r.now == now,
            r.incoming_buffer@.len() == 0,
            r.expected_incoming_bytes == Some(0usize),
            r.read_bytes == 0,
            r.write_buffers@.len() == 0,
            r.write_bytes_queued == 0,
            r.write_bytes_queueable == queueable,
            r.wake_up_after is None,
            r.wf(),
    {
        ReadWrite {
            now,
            incoming_buffer: Vec::new(),
            expected_incoming_bytes: Some(0),
            read_bytes: 0,
            write_buffers: Vec::new(),
            write_bytes_queued: 0,
            write_bytes_queueable: queueable,
            wake_up_after: None,
        }
    }

    /// Remaining outbound capacity as a plain number.
    pub fn queueable(&self) -> (r: usize)
        ensures
            r == self.spec_queueable(),
    {
        match self.write_bytes_queueable {
            Some(n) => n,
            None => 0,
        }
    }

    /// Appends one chunk to the outbound queue, consuming capacity.
    pub fn write_out(&mut self, data: Vec<u8>)
        requires
            old(self).wf(),
            data@.len() <= old(self).spec_queueable(),
            old(self).write_bytes_queueable is Some,
        ensures
            final(self).write_buffers@ == old(self).write_buffers@.push(data),
            final(self).write_bytes_queued == old(self).write_bytes_queued + data@.len(),
            final(self).write_bytes_queueable
                == Some((old(self).spec_queueable() - data@.len()) as usize),
            final(self).now == old(self).now,
            final(self).incoming_buffer == old(self).incoming_buffer,
            final(self).expected_incoming_bytes == old(self).expected_incoming_bytes,
            final(self).read_bytes == old(self).read_bytes,
            final(self).wake_up_after == old(self).wake_up_after,
            final(self).wf(),
            Self::rw_step(*old(self), *final(self)),
    {
        let len = data.len();
        let cap = match self.write_bytes_queueable {
            Some(n) => n,
            None => 0,
        };
        self.write_bytes_queueable = Some(cap - len);
        self.write_bytes_queued = self.write_bytes_queued + len;
        self.write_buffers.push(data);
        proof {
            let pre = *old(self);
            assert(self.incoming_buffer@ =~= pre.incoming_buffer@.skip(0));
            assert(self.write_buffers@.take(pre.write_buffers@.len() as int)
                =~= pre.write_buffers@);
            let added = self.write_buffers@.skip(pre.write_buffers@.len() as int);
            assert(added =~= seq![self.write_buffers@.last()]);
            assert(added.drop_last() =~= Seq::<Vec<u8>>::empty());
            assert(sum_lens(Seq::<Vec<u8>>::empty()) == 0);
            assert(sum_lens(added) == added.last()@.len());
        }
    }

    /// Consumes the first `n` bytes of `incoming_buffer` and returns them.
    pub fn incoming_bytes_take(&mut self, n: usize) -> (r: Vec<u8>)
        requires
            old(self).wf(),
            n <= old(self).incoming_buffer@.len(),
        ensures
            r@ == old(self).incoming_buffer@.take(n as int),
            final(self).incoming_buffer@ == old(self).incoming_buffer@.skip(n as int),
            final(self).read_bytes == old(self).read_bytes + n,
            final(self).now == old(self).now,
            final(self).expected_incoming_bytes == old(self).expected_incoming_bytes,
            final(self).write_buffers == old(self).write_buffers,
            final(self).write_bytes_queued == old(self).write_bytes_queued,
            final(self).write_bytes_queueable == old(self).write_bytes_queueable,
            final(self).wake_up_after == old(self).wake_up_after,
            final(self).wf(),
            Self::rw_step(*old(self), *final(self)),
    {
        let mut tail = self.incoming_buffer.split_off(n);
        core::mem::swap(&mut self.incoming_buffer, &mut tail);
        self.read_bytes = self.read_bytes + n;
        proof {
            assert(tail@ =~= old(self).incoming_buffer@.take(n as int));
            let pre = *old(self);
            assert(self.write_buffers@.take(pre.write_buffers@.len() as int)
                =~= pre.write_buffers@);
            assert(self.write_buffers@.skip(pre.write_buffers@.len() as int) =~= Seq::<
                Vec<u8>,
            >::empty());
            assert(sum_lens(Seq::<Vec<u8>>::empty()) == 0);
        }
        tail
    }

    /// Lowers the wake-up hint to `t` if it is later than `t` or absent.
    pub fn wake_up_after(&mut self, t: u64)
        ensures
            final(self).wake_up_after == match old(self).wake_up_after {
                Some(w) => Some(if t < w { t } else { w }),
                None => Some(t),
            },
            final(self).now == old(self).now,
            final(self).incoming_buffer == old(self).incoming_buffer,
            final(self).expected_incoming_bytes == old(self).expected_incoming_bytes,
            final(self).read_bytes == old(self).read_bytes,
            final(self).write_buffers == old(self).write_buffers,
            final(self).write_bytes_queued == old(self).write_bytes_queued,
            final(self).write_bytes_queueable == old(self).write_bytes_queueable,
            final(self).wf() == old(self).wf(),
            Self::rw_step(*old(self), *final(self)),
    {
        proof {
            Self::lemma_rw_step_refl(*old(self));
        }
        let w = match self.wake_up_after {
            Some(w) => {
                if t < w {
                    t
                } else {
                    w
                }
            },
            None => t,
        };
        self.wake_up_after = Some(w);
    }

    /// Asks the caller to invoke the driver again as soon as possible.
    pub fn wake_up_asap(&mut self)
        ensures
            final(self).wake_up_after == match old(self).wake_up_after {
                Some(w) => Some(if old(self).now < w { old(self).now } else { w }),
                None => Some(old(self).now),
            },
            final(self).now == old(self).now,
            final(self).incoming_buffer == old(self).incoming_buffer,
            final(self).expected_incoming_bytes == old(self).expected_incoming_bytes,
            final(self).read_bytes == old(self).read_bytes,
            final(self).write_buffers == old(self).write_buffers,
            final(self).write_bytes_queued == old(self).write_bytes_queued,
            final(self).write_bytes_queueable == old(self).write_bytes_queueable,
            final(self).wf() == old(self).wf(),
            Self::rw_step(*old(self), *final(self)),
    {
        let now = self.now;
        self.wake_up_after(now);
    }

    /// Closes the write side: no more bytes may be queued.
    pub fn close_write(&mut self)
        requires
            old(self).wf(),
        ensures
            final(self).write_bytes_queueable is None,
            final(self).now == old(self).now,
            final(self).incoming_buffer == old(self).incoming_buffer,
            final(self).expected_incoming_bytes == old(self).expected_incoming_bytes,
            final(self).read_bytes == old(self).read_bytes,
            final(self).write_buffers == old(self).write_buffers,
            final(self).write_bytes_queued == old(self).write_bytes_queued,
            final(self).wake_up_after == old(self).wake_up_after,
            final(self).wf(),
            Self::rw_step(*old(self), *final(self)),
    {
        proof {
            Self::lemma_rw_step_refl(*old(self));
        }
        self.write_bytes_queueable = None;
    }
}

} // verus!
