//! Stream multiplexer: carves one byte stream into many logical substreams.
//!
//! Frames are 12-byte headers followed by an optional payload: version (one
//! byte, always 0), frame type (data, window update, ping, go-away), flags
//! (SYN, ACK, FIN, RST), a substream id, and a length field that carries the
//! payload size, a window delta, a ping value or a go-away code, depending
//! on the type. The side that initiated the connection opens odd-numbered
//! substreams, the other side even-numbered ones; id 0 is the session
//! itself. Every substream has a flow-control window in each direction.

use vstd::prelude::*;
use crate::bytesutil::be32;
use crate::bytesutil::push_be16;
use crate::bytesutil::push_be32;
use crate::bytesutil::read_be16;
use crate::bytesutil::read_be32;

verus! {

/// Initial flow-control window of every substream, in each direction.
pub const INITIAL_WINDOW: u64 = 262144;

/// Largest payload the multiplexer puts in one outgoing data frame.
pub const MAX_OUT_DATA_FRAME: usize = 8192;

/// Most pongs that may wait in the control queue at once.
pub const MAX_QUEUED_PONGS: usize = 4;

/// Frame header length.
pub const HEADER_LEN: usize = 12;

/// Go-away code announcing a normal termination.
pub const GOAWAY_NORMAL_TERMINATION: u32 = 0;

/// Flag bit: opens a substream.
pub const FLAG_SYN: u16 = 1;

/// Flag bit: acknowledges an opened substream or a ping.
pub const FLAG_ACK: u16 = 2;

/// Flag bit: closes the sender's half of a substream.
pub const FLAG_FIN: u16 = 4;

/// Flag bit: abruptly terminates a substream.
pub const FLAG_RST: u16 = 8;

/// Why a substream is dead and waiting to be swept.
#[derive(Clone, Copy, PartialEq, Eq, Structural, Debug)]
pub enum DeadSubstreamTy {
    /// Reset by either side; no more events can come from it.
    Reset,
    /// Both directions closed cleanly and all queued data flushed.
    ClosedGracefully,
}

/// What a piece of incoming data decoded to.
pub enum IncomingDataDetail {
    /// The remote asks to open a substream; accept or reject it before
    /// feeding more data.
    IncomingSubstream,
    /// The remote reset a substream.
    StreamReset { substream_id: u32 },
    /// The remote closed its half of a substream.
    StreamClosed { substream_id: u32 },
    /// Bytes `start_offset..bytes_read` of the input are payload for a
    /// substream.
    DataFrame { start_offset: usize, substream_id: u32 },
    /// The remote announces that it accepts no new substreams.
    GoAway { code: u32 },
    /// The remote answered a ping. Never produced: this multiplexer sends
    /// no pings.
    PingResponse,
}

/// Where the incoming-byte decoder stands between two calls.
pub enum DecodePhase {
    /// Collecting the 12 header bytes; `have` of them are buffered.
    Collecting { have: nat },
    /// Streaming the payload of a data frame to a substream.
    Payload { substream_id: u32, remaining: u32, fin: bool },
    /// Discarding the payload of a frame whose substream is gone or was
    /// refused.
    Discarding { remaining: u32 },
}

/// Protocol violation by the remote. Fatal for the connection.
#[derive(Clone, Copy, PartialEq, Eq, Structural, Debug)]
pub enum Error {
    /// A frame carried an unknown version.
    BadVersion,
    /// A frame carried an unknown type.
    BadFrameType,
    /// A new substream id did not have the remote's parity or did not grow.
    BadSubstreamId,
    /// A data frame overran the substream's flow-control window.
    CreditExceeded,
    /// A reset frame carried a payload.
    ResetWithPayload,
    /// More pings than the pong queue may hold.
    PingsExceeded,
    /// A pong arrived although no ping was sent.
    PingResponseNotRequested,
    /// A second go-away frame arrived.
    GoAwayRepeated,
}

/// One live substream.
struct Sub<T> {
    id: u32,
    user_data: T,
    inbound: bool,
    /// The remote has not closed or reset its half.
    remote_open: bool,
    /// `close` was called: a FIN goes out once the queue drains.
    fin_queued: bool,
    /// The FIN frame itself has been emitted.
    fin_sent: bool,
    /// Reset by either side.
    reset: bool,
    /// Outgoing data chunks not yet framed.
    write_queue: Vec<Vec<u8>>,
    /// Total length of `write_queue`.
    queued_bytes: u64,
    /// How many bytes the remote allows us to send.
    remote_credit: u64,
    /// How many bytes we allow the remote to send.
    local_window: u64,
    /// Window extension not yet announced to the remote.
    window_grant: u64,
    /// A SYN frame must go out for this substream.
    syn_pending: bool,
    /// An ACK frame must go out for this substream.
    ack_pending: bool,
    /// Total bytes ever queued on this substream with `write`.
    enqueued: Ghost<nat>,
}

/// Decoding position within the incoming byte stream.
enum IncomingState {
    /// Collecting the 12 header bytes.
    Header { partial: Vec<u8> },
    /// Streaming the payload of a data frame to a substream.
    Data { substream_id: u32, remaining: u32, fin: bool },
    /// Discarding the payload of a frame for a substream that is gone or
    /// was refused.
    Discard { remaining: u32 },
}

/// A remote open request not yet accepted or rejected, with the payload
/// and half-close flag its frame carried.
struct PendingIncoming {
    id: u32,
    payload: u32,
    fin: bool,
}

/// What the outgoing-frame scan decided to emit next.
enum OutAction {
    Syn,
    Ack,
    Grant,
    Data,
    Fin,
}

/// The multiplexer.
pub struct Yamux<T> {
    is_initiator: bool,
    subs: Vec<Sub<T>>,
    next_out_id: u32,
    highest_remote_id: u32,
    pending_incoming: Option<PendingIncoming>,
    incoming: IncomingState,
    /// Control frames (window updates with flags, RST, pongs, go-away)
    /// ready to be emitted.
    ctrl_queue: Vec<Vec<u8>>,
    pongs_queued: usize,
    goaway_queued: bool,
    goaway_sent: bool,
    goaway_code: u32,
    remote_goaway: Option<u32>,
    /// Every id that was ever assigned to a substream.
    used: Ghost<Set<u32>>,
    /// Total payload bytes handed out through `DataFrame` details.
    delivered: Ghost<nat>,
}

/// Index of the first element with the given id, or -1.
spec fn find_idx<T>(s: Seq<Sub<T>>, id: u32) -> int
    decreases s.len(),
{
    if s.len() == 0 {
        -1
    } else if s[0].id == id {
        0
    } else {
        let r = find_idx(s.drop_first(), id);
        if r < 0 {
            -1
        } else {
            r + 1
        }
    }
}

proof fn lemma_find_idx<T>(s: Seq<Sub<T>>, id: u32)
    ensures
        find_idx(s, id) == -1 ==> (forall|j: int| 0 <= j < s.len() ==> s[j].id != id),
        find_idx(s, id) != -1 ==> {
            &&& 0 <= find_idx(s, id) < s.len()
            &&& s[find_idx(s, id)].id == id
            &&& forall|j: int| 0 <= j < find_idx(s, id) ==> s[j].id != id
        },
    decreases s.len(),
{
    if s.len() > 0 && s[0].id != id {
        lemma_find_idx(s.drop_first(), id);
        assert forall|j: int| 1 <= j < s.len() implies s[j] == s.drop_first()[j - 1] by {}
    }
}

/// After replacing the element at a valid index with one of the same id,
/// every lookup finds what it found before (up to that one element).
proof fn lemma_find_idx_update<T>(s: Seq<Sub<T>>, i: int, x: Sub<T>, id: u32)
    requires
        0 <= i < s.len(),
        x.id == s[i].id,
    ensures
        find_idx(s.update(i, x), id) == find_idx(s, id),
    decreases s.len(),
{
    if s.len() > 0 {
        if i == 0 {
            assert(s.update(i, x).drop_first() =~= s.drop_first());
        } else if s[0].id != id {
            assert(s.update(i, x).drop_first() =~= s.drop_first().update(i - 1, x));
            lemma_find_idx_update(s.drop_first(), i - 1, x, id);
        }
    }
}


/// In a sequence of distinct ids, each element is found at its own index.
proof fn lemma_find_idx_self<T>(s: Seq<Sub<T>>, j: int)
    requires
        forall|a: int, b: int| 0 <= a < b < s.len() ==> s[a].id != s[b].id,
        0 <= j < s.len(),
    ensures
        find_idx(s, s[j].id) == j,
{
    lemma_find_idx(s, s[j].id);
    let f = find_idx(s, s[j].id);
    if f != j {
        assert(0 <= f < s.len() && s[f].id == s[j].id);
    }
}

/// Appending a new element leaves every other lookup alone.
proof fn lemma_find_idx_push<T>(s: Seq<Sub<T>>, x: Sub<T>, id: u32)
    ensures
        id != x.id ==> find_idx(s.push(x), id) == find_idx(s, id),
        id == x.id && find_idx(s, id) == -1 ==> find_idx(s.push(x), id) == s.len(),
        id == x.id && find_idx(s, id) != -1 ==> find_idx(s.push(x), id) == find_idx(s, id),
    decreases s.len(),
{
    if s.len() == 0 {
        assert(s.push(x)[0] == x);
        assert(s.push(x).len() == 1);
        assert(s.push(x).drop_first() =~= Seq::<Sub<T>>::empty());
        if id != x.id {
            assert(find_idx(Seq::<Sub<T>>::empty(), id) == -1);
            assert(find_idx(s.push(x), id) == -1);
        }
    } else {
        assert(s.push(x)[0] == s[0]);
        assert(s.push(x).drop_first() =~= s.drop_first().push(x));
        lemma_find_idx_push(s.drop_first(), x, id);
        if s[0].id == id {
            assert(find_idx(s.push(x), id) == 0);
            assert(find_idx(s, id) == 0);
        } else {
            assert(find_idx(s.push(x), id) == (if find_idx(s.drop_first().push(x), id) < 0 {
                -1int
            } else {
                find_idx(s.drop_first().push(x), id) + 1
            }));
        }
    }
}

/// Removing the element at a valid index: every other id is still found,
/// with the same attributes.
proof fn lemma_find_idx_remove<T>(s: Seq<Sub<T>>, i: int, id: u32)
    requires
        0 <= i < s.len(),
        id != s[i].id,
    ensures
        (find_idx(s.remove(i), id) == -1) == (find_idx(s, id) == -1),
        find_idx(s, id) != -1 ==> s.remove(i)[find_idx(s.remove(i), id)] == s[find_idx(s, id)],
    decreases s.len(),
{
    if i == 0 {
        assert(s.remove(0) =~= s.drop_first());
        lemma_find_idx(s, id);
        lemma_find_idx(s.drop_first(), id);
        if find_idx(s, id) != -1 {
            assert(s[0].id != id);
            assert(find_idx(s, id) == find_idx(s.drop_first(), id) + 1);
            assert(s.drop_first()[find_idx(s.drop_first(), id)] == s[find_idx(s, id)]);
        }
    } else if s[0].id == id {
        assert(s.remove(i)[0] == s[0]);
        assert(find_idx(s, id) == 0);
        assert(find_idx(s.remove(i), id) == 0);
    } else {
        assert(s.remove(i)[0] == s[0]);
        assert(s.remove(i).drop_first() =~= s.drop_first().remove(i - 1));
        lemma_find_idx_remove(s.drop_first(), i - 1, id);
        let rd = find_idx(s.drop_first().remove(i - 1), id);
        assert(find_idx(s.remove(i), id) == (if rd < 0 {
            -1int
        } else {
            rd + 1
        }));
        let sd = find_idx(s.drop_first(), id);
        assert(find_idx(s, id) == (if sd < 0 {
            -1int
        } else {
            sd + 1
        }));
        if find_idx(s, id) != -1 {
            lemma_find_idx(s.drop_first(), id);
            lemma_find_idx(s.drop_first().remove(i - 1), id);
            assert(0 <= rd < s.drop_first().remove(i - 1).len());
            assert(0 <= sd < s.drop_first().len());
            assert(s.remove(i)[rd + 1] == s.remove(i).drop_first()[rd]);
            assert(s.remove(i).drop_first()[rd] == s.drop_first().remove(i - 1)[rd]);
            assert(s[sd + 1] == s.drop_first()[sd]);
        }
    }
}

/// Number of inbound substreams in the sequence.
spec fn count_inbound<T>(s: Seq<Sub<T>>) -> nat
    decreases s.len(),
{
    if s.len() == 0 {
        0
    } else {
        count_inbound(s.drop_last()) + if s.last().inbound {
            1nat
        } else {
            0nat
        }
    }
}

/// Replacing an element without changing its direction keeps the count.
proof fn lemma_count_inbound_update<T>(s: Seq<Sub<T>>, i: int, x: Sub<T>)
    requires
        0 <= i < s.len(),
        x.inbound == s[i].inbound,
    ensures
        count_inbound(s.update(i, x)) == count_inbound(s),
    decreases s.len(),
{
    if i == s.len() - 1 {
        assert(s.update(i, x).drop_last() =~= s.drop_last());
    } else {
        assert(s.update(i, x).drop_last() =~= s.drop_last().update(i, x));
        lemma_count_inbound_update(s.drop_last(), i, x);
    }
}

/// Removing an element takes away exactly its contribution to the count.
proof fn lemma_count_inbound_remove<T>(s: Seq<Sub<T>>, i: int)
    requires
        0 <= i < s.len(),
    ensures
        count_inbound(s.remove(i)) + (if s[i].inbound {
            1nat
        } else {
            0nat
        }) == count_inbound(s),
    decreases s.len(),
{
    if i == s.len() - 1 {
        assert(s.remove(i) =~= s.drop_last());
    } else {
        assert(s.remove(i).drop_last() =~= s.drop_last().remove(i));
        assert(s.remove(i).last() == s.last());
        lemma_count_inbound_remove(s.drop_last(), i);
    }
}

/// Total length of the queued chunks.
spec fn sum_queue(q: Seq<Vec<u8>>) -> nat
    decreases q.len(),
{
    if q.len() == 0 {
        0
    } else {
        q[0]@.len() + sum_queue(q.drop_first())
    }
}

proof fn lemma_sum_queue_push(q: Seq<Vec<u8>>, c: Vec<u8>)
    ensures
        sum_queue(q.push(c)) == sum_queue(q) + c@.len(),
    decreases q.len(),
{
    if q.len() == 0 {
        assert(q.push(c)[0] == c);
        assert(q.push(c).drop_first() =~= Seq::<Vec<u8>>::empty());
        assert(sum_queue(Seq::<Vec<u8>>::empty()) == 0);
    } else {
        assert(q.push(c)[0] == q[0]);
        assert(q.push(c).drop_first() =~= q.drop_first().push(c));
        lemma_sum_queue_push(q.drop_first(), c);
    }
}

/// All control frames keep the header length after a push of one more.
proof fn lemma_ctrl_push(pre_q: Seq<Vec<u8>>, post_q: Seq<Vec<u8>>, f: Vec<u8>)
    requires
        post_q == pre_q.push(f),
        f@.len() == 12,
        forall|k: int| 0 <= k < pre_q.len() ==> (#[trigger] pre_q[k])@.len() == 12,
    ensures
        forall|k: int| 0 <= k < post_q.len() ==> (#[trigger] post_q[k])@.len() == 12,
{
    assert forall|k: int| 0 <= k < post_q.len() implies (#[trigger] post_q[k])@.len() == 12 by {
        if k < pre_q.len() {
            assert(post_q[k] == pre_q[k]);
        } else {
            assert(post_q[k] == f);
        }
    }
}

impl<T> Yamux<T> {
    /// Whether the local side initiated the connection.
    pub closed spec fn spec_is_initiator(self) -> bool {
        self.is_initiator
    }

    /// Where the incoming-byte decoder stands.
    pub closed spec fn spec_decode_phase(self) -> DecodePhase {
        match self.incoming {
            IncomingState::Header { partial } => DecodePhase::Collecting { have: partial@.len() },
            IncomingState::Data { substream_id, remaining, fin } => DecodePhase::Payload {
                substream_id,
                remaining,
                fin,
            },
            IncomingState::Discard { remaining } => DecodePhase::Discarding { remaining },
        }
    }

    /// Whether a substream with this id is currently present.
    pub closed spec fn spec_has(self, id: u32) -> bool {
        find_idx(self.subs@, id) != -1
    }

    /// The user data of a present substream.
    pub closed spec fn spec_user_data(self, id: u32) -> T {
        self.subs@[find_idx(self.subs@, id)].user_data
    }

    /// Whether a present substream was opened by the remote.
    pub closed spec fn spec_inbound(self, id: u32) -> bool {
        self.subs@[find_idx(self.subs@, id)].inbound
    }

    /// Whether data may still be queued on this substream.
    pub closed spec fn spec_can_send(self, id: u32) -> bool {
        let s = self.subs@[find_idx(self.subs@, id)];
        !s.fin_queued && !s.reset
    }

    /// Whether the remote may still deliver data on this substream.
    pub closed spec fn spec_can_receive(self, id: u32) -> bool {
        let s = self.subs@[find_idx(self.subs@, id)];
        s.remote_open && !s.reset
    }

    /// Whether and why a present substream is dead.
    pub closed spec fn spec_dead(self, id: u32) -> Option<DeadSubstreamTy> {
        let s = self.subs@[find_idx(self.subs@, id)];
        if s.reset {
            Some(DeadSubstreamTy::Reset)
        } else if !s.remote_open && s.fin_sent && s.write_queue@.len() == 0 {
            Some(DeadSubstreamTy::ClosedGracefully)
        } else {
            None
        }
    }

    /// Bytes queued on a substream and not yet framed.
    pub closed spec fn spec_queued(self, id: u32) -> nat {
        self.subs@[find_idx(self.subs@, id)].queued_bytes as nat
    }

    /// Total bytes ever queued on a substream with `write`.
    pub closed spec fn spec_enqueued(self, id: u32) -> nat {
        self.subs@[find_idx(self.subs@, id)].enqueued@
    }

    /// Window extension granted for a substream but not yet announced.
    pub closed spec fn spec_grant(self, id: u32) -> u64 {
        self.subs@[find_idx(self.subs@, id)].window_grant
    }

    /// The ids of the present substreams, in creation order.
    pub closed spec fn spec_ids(self) -> Seq<u32> {
        self.subs@.map_values(|s: Sub<T>| s.id)
    }

    /// How many present substreams the remote opened.
    pub closed spec fn spec_num_inbound(self) -> nat {
        count_inbound(self.subs@)
    }

    /// Whether a go-away frame was queued or already sent.
    pub closed spec fn spec_goaway_queued_or_sent(self) -> bool {
        self.goaway_queued || self.goaway_sent
    }

    /// Whether the go-away frame left with the outgoing bytes.
    pub closed spec fn spec_goaway_sent(self) -> bool {
        self.goaway_sent
    }

    /// The code of the local go-away announcement, once one was queued.
    pub closed spec fn spec_goaway_code(self) -> u32 {
        self.goaway_code
    }

    /// The code of the go-away frame the remote sent, if any.
    pub closed spec fn spec_received_goaway(self) -> Option<u32> {
        self.remote_goaway
    }

    /// Id of the remote open request awaiting accept or reject.
    pub closed spec fn spec_pending_incoming(self) -> Option<u32> {
        match self.pending_incoming {
            Some(p) => Some(p.id),
            None => None,
        }
    }

    /// Total payload bytes handed out through `DataFrame` details.
    pub closed spec fn spec_delivered(self) -> nat {
        self.delivered@
    }

    /// Every id ever assigned; ids are never reused.
    pub closed spec fn spec_used(self) -> Set<u32> {
        self.used@
    }

    /// The id the next locally-opened substream would get.
    pub closed spec fn spec_next_out_id(self) -> u32 {
        self.next_out_id
    }

    /// Whether anything waits to be emitted: a control frame, an opening or
    /// acknowledgement announcement, a window extension, sendable data
    /// with remote credit, or a close announcement whose queue drained.
    pub closed spec fn spec_outbound_pending(self) -> bool {
        ||| self.ctrl_queue@.len() > 0
        ||| exists|i: int|
            0 <= i < self.subs@.len() && {
                let sub = #[trigger] self.subs@[i];
                ||| sub.syn_pending
                ||| sub.ack_pending
                ||| sub.window_grant > 0
                ||| (!sub.reset && sub.queued_bytes > 0 && sub.remote_credit > 0)
                ||| (!sub.reset && sub.fin_queued && !sub.fin_sent && sub.queued_bytes == 0)
            }
    }

    /// Internal consistency: ids are distinct, have the right parity, and
    /// stay below the id counters; present ids were all used.
    pub closed spec fn wf(self) -> bool {
        &&& forall|i: int, j: int|
            0 <= i < j < self.subs@.len() ==> self.subs@[i].id != self.subs@[j].id
        &&& forall|i: int|
            0 <= i < self.subs@.len() ==> #[trigger] self.used@.contains(self.subs@[i].id)
        &&& forall|i: int|
            0 <= i < self.subs@.len() ==> (if (#[trigger] self.subs@[i].inbound) {
                self.subs@[i].id <= self.highest_remote_id
            } else {
                self.subs@[i].id < self.next_out_id
            })
        &&& self.next_out_id >= 1
        &&& (if self.is_initiator {
            self.next_out_id % 2 == 1
        } else {
            self.next_out_id % 2 == 0 && self.next_out_id >= 2
        })
        &&& forall|i: int|
            0 <= i < self.subs@.len() ==> ((#[trigger] self.subs@[i].id % 2 == 1) == (
            self.subs@[i].inbound != self.is_initiator))
        &&& forall|i: int|
            0 <= i < self.subs@.len() ==> ((#[trigger] self.subs@[i].fin_sent)
                ==> self.subs@[i].fin_queued)
        &&& forall|id: u32|
            #[trigger] self.used@.contains(id) ==> (if (id % 2 == 1) == self.is_initiator {
                id < self.next_out_id
            } else {
                id <= self.highest_remote_id
            })
        &&& forall|i: int|
            0 <= i < self.subs@.len() ==> (#[trigger] self.subs@[i].queued_bytes) as nat
                == sum_queue(self.subs@[i].write_queue@)
        &&& forall|i: int, k: int|
            0 <= i < self.subs@.len() && 0 <= k < self.subs@[i].write_queue@.len()
                ==> (#[trigger] self.subs@[i].write_queue@[k])@.len() > 0
        &&& forall|k: int|
            0 <= k < self.ctrl_queue@.len() ==> (#[trigger] self.ctrl_queue@[k])@.len() == 12
        &&& (match self.incoming {
            IncomingState::Header { partial } => partial@.len() < 12,
            IncomingState::Data { substream_id, remaining, fin } => remaining > 0,
            IncomingState::Discard { remaining } => remaining > 0,
        })
        &&& (match self.pending_incoming {
            Some(p) => {
                &&& find_idx(self.subs@, p.id) == -1
                &&& !self.used@.contains(p.id)
                &&& p.id <= self.highest_remote_id
                &&& (p.id % 2 == 1) == !self.is_initiator
                &&& p.payload as u64 <= INITIAL_WINDOW
            },
            None => true,
        })
    }

    /// Substreams outside `except` keep every observable attribute.
    pub open spec fn subs_framed(pre: Self, post: Self, except: Set<u32>) -> bool {
        forall|id: u32|
            !except.contains(id) ==> {
                &&& #[trigger] post.spec_has(id) == pre.spec_has(id)
                &&& (pre.spec_has(id) ==> {
                    &&& post.spec_user_data(id) == pre.spec_user_data(id)
                    &&& post.spec_inbound(id) == pre.spec_inbound(id)
                    &&& post.spec_can_send(id) == pre.spec_can_send(id)
                    &&& post.spec_can_receive(id) == pre.spec_can_receive(id)
                    &&& post.spec_dead(id) == pre.spec_dead(id)
                    &&& post.spec_queued(id) == pre.spec_queued(id)
                    &&& post.spec_enqueued(id) == pre.spec_enqueued(id)
                })
            }
    }

    /// Every substream stays present with its identity data: what incoming
    /// frames and outgoing flushes may never change.
    pub open spec fn subs_stable(pre: Self, post: Self) -> bool {
        forall|id: u32|
            {
                &&& #[trigger] post.spec_has(id) == pre.spec_has(id)
                &&& (pre.spec_has(id) ==> {
                    &&& post.spec_user_data(id) == pre.spec_user_data(id)
                    &&& post.spec_inbound(id) == pre.spec_inbound(id)
                    &&& post.spec_enqueued(id) == pre.spec_enqueued(id)
                })
            }
    }

    /// Once a go-away was queued or sent, no incoming open request reaches
    /// the caller any more: the multiplexer answers it with a reset by
    /// itself.
    pub proof fn lemma_goaway_rejects_incoming(
        pre: Self,
        post: Self,
        n: int,
        detail: Option<IncomingDataDetail>,
        data: Seq<u8>,
    )
        requires
            Self::incoming_post(pre, post, n, detail, data),
            pre.spec_goaway_queued_or_sent(),
        ensures
            !(detail matches Some(IncomingDataDetail::IncomingSubstream)),
    {
    }

    /// A present substream's id is one that was assigned on this session.
    pub proof fn lemma_present_in_used(self, id: u32)
        requires
            self.wf(),
            self.spec_has(id),
        ensures
            self.spec_used().contains(id),
    {
        lemma_find_idx(self.subs@, id);
    }

    /// Framing with the same exceptions composes.
    pub proof fn lemma_subs_framed_trans(a: Self, b: Self, c: Self, ex: Set<u32>)
        requires
            Self::subs_framed(a, b, ex),
            Self::subs_framed(b, c, ex),
        ensures
            Self::subs_framed(a, c, ex),
    {
        assert forall|id: u32|
            !ex.contains(id) implies {
                &&& #[trigger] c.spec_has(id) == a.spec_has(id)
                &&& (a.spec_has(id) ==> {
                    &&& c.spec_user_data(id) == a.spec_user_data(id)
                    &&& c.spec_inbound(id) == a.spec_inbound(id)
                    &&& c.spec_can_send(id) == a.spec_can_send(id)
                    &&& c.spec_can_receive(id) == a.spec_can_receive(id)
                    &&& c.spec_dead(id) == a.spec_dead(id)
                    &&& c.spec_queued(id) == a.spec_queued(id)
                    &&& c.spec_enqueued(id) == a.spec_enqueued(id)
                })
            } by {
            assert(b.spec_has(id) == a.spec_has(id));
            assert(c.spec_has(id) == b.spec_has(id));
        }
    }

    /// The session-level attributes all keep their values.
    pub open spec fn session_framed(pre: Self, post: Self) -> bool {
        &&& post.spec_is_initiator() == pre.spec_is_initiator()
        &&& post.spec_goaway_queued_or_sent() == pre.spec_goaway_queued_or_sent()
        &&& post.spec_goaway_sent() == pre.spec_goaway_sent()
        &&& post.spec_received_goaway() == pre.spec_received_goaway()
        &&& post.spec_pending_incoming() == pre.spec_pending_incoming()
        &&& post.spec_delivered() == pre.spec_delivered()
        &&& post.spec_used() == pre.spec_used()
        &&& post.spec_ids() == pre.spec_ids()
        &&& post.spec_next_out_id() == pre.spec_next_out_id()
        &&& post.spec_num_inbound() == pre.spec_num_inbound()
    }

    /// A fresh multiplexer with no substreams.
    pub fn new(is_initiator: bool) -> (r: Yamux<T>)
        ensures
            r.wf(),
            r.spec_is_initiator() == is_initiator,
            r.spec_ids() == Seq::<u32>::empty(),
            forall|id: u32| !(#[trigger] r.spec_has(id)),
            !r.spec_goaway_queued_or_sent(),
            !r.spec_goaway_sent(),
            r.spec_received_goaway() is None,
            r.spec_pending_incoming() is None,
            r.spec_delivered() == 0,
            r.spec_used() == Set::<u32>::empty(),
            r.spec_next_out_id() == if is_initiator {
                1u32
            } else {
                2u32
            },
    {
        let r = Yamux {
            is_initiator,
            subs: Vec::new(),
            next_out_id: if is_initiator {
                1
            } else {
                2
            },
            highest_remote_id: 0,
            pending_incoming: None,
            incoming: IncomingState::Header { partial: Vec::new() },
            ctrl_queue: Vec::new(),
            pongs_queued: 0,
            goaway_queued: false,
            goaway_sent: false,
            goaway_code: 0,
            remote_goaway: None,
            used: Ghost(Set::empty()),
            delivered: Ghost(0nat),
        };
        proof {
            assert(r.spec_ids() =~= Seq::<u32>::empty());
            assert forall|id: u32| !(#[trigger] r.spec_has(id)) by {
                lemma_find_idx(r.subs@, id);
            }
        }
        r
    }

    /// Index of the substream with this id.
    fn find(&self, id: u32) -> (r: Option<usize>)
        ensures
            match r {
                Some(i) => i == find_idx(self.subs@, id) && i < self.subs@.len()
                    && self.subs@[i as int].id == id && self.spec_has(id),
                None => !self.spec_has(id),
            },
    {
        proof {
            lemma_find_idx(self.subs@, id);
        }
        let mut i: usize = 0;
        while i < self.subs.len()
            invariant
                i <= self.subs@.len(),
                forall|j: int| 0 <= j < i ==> self.subs@[j].id != id,
            decreases self.subs@.len() - i,
        {
            if self.subs[i].id == id {
                proof {
                    lemma_find_idx(self.subs@, id);
                }
                return Some(i);
            }
            i = i + 1;
        }
        None
    }

    /// One substream's element was replaced in place, with id and direction
    /// kept: every other substream keeps its attributes, and the whole
    /// multiplexer stays well-formed if the session fields are untouched.
    proof fn lemma_one_sub_update(pre: Self, post: Self, i: int)
        requires
            pre.wf(),
            0 <= i < pre.subs@.len(),
            post.subs@ == pre.subs@.update(i, post.subs@[i]),
            post.subs@[i].id == pre.subs@[i].id,
            post.subs@[i].inbound == pre.subs@[i].inbound,
            post.subs@[i].fin_sent ==> post.subs@[i].fin_queued,
            post.subs@[i].queued_bytes as nat == sum_queue(post.subs@[i].write_queue@),
            forall|k: int|
                0 <= k < post.subs@[i].write_queue@.len() ==> (#[trigger] post.subs@[i].write_queue@[k])@.len() > 0,
            forall|k: int|
                0 <= k < post.ctrl_queue@.len() ==> (#[trigger] post.ctrl_queue@[k])@.len() == 12,
            post.used@ == pre.used@,
            post.next_out_id == pre.next_out_id,
            post.highest_remote_id == pre.highest_remote_id,
            post.is_initiator == pre.is_initiator,
            post.pending_incoming == pre.pending_incoming,
            post.incoming == pre.incoming,
        ensures
            post.wf(),
            find_idx(post.subs@, pre.subs@[i].id) == i,
            post.spec_has(pre.subs@[i].id),
            post.spec_ids() == pre.spec_ids(),
            post.spec_num_inbound() == pre.spec_num_inbound(),
            Self::subs_framed(pre, post, Set::empty().insert(pre.subs@[i].id)),
    {
        let the_id = pre.subs@[i].id;
        let ex = Set::empty().insert(the_id);
        lemma_find_idx_self(pre.subs@, i);
        lemma_find_idx_update(pre.subs@, i, post.subs@[i], the_id);
        lemma_count_inbound_update(pre.subs@, i, post.subs@[i]);
        assert(post.spec_ids() =~= pre.spec_ids());
        assert forall|id: u32| !ex.contains(id) implies {
            &&& #[trigger] post.spec_has(id) == pre.spec_has(id)
            &&& (pre.spec_has(id) ==> {
                &&& post.spec_user_data(id) == pre.spec_user_data(id)
                &&& post.spec_inbound(id) == pre.spec_inbound(id)
                &&& post.spec_can_send(id) == pre.spec_can_send(id)
                &&& post.spec_can_receive(id) == pre.spec_can_receive(id)
                &&& post.spec_dead(id) == pre.spec_dead(id)
                &&& post.spec_queued(id) == pre.spec_queued(id)
                &&& post.spec_enqueued(id) == pre.spec_enqueued(id)
            })
        } by {
            assert(id != the_id);
            lemma_find_idx_update(pre.subs@, i, post.subs@[i], id);
            lemma_find_idx(pre.subs@, id);
            if find_idx(pre.subs@, id) != -1 {
                assert(post.subs@[find_idx(pre.subs@, id)] == pre.subs@[find_idx(pre.subs@, id)]);
            }
        }
        match &post.pending_incoming {
            Some(p) => {
                lemma_find_idx_update(pre.subs@, i, post.subs@[i], p.id);
            },
            None => {},
        }
        assert(Self::subs_framed(pre, post, ex));
        assert(Set::empty().insert(pre.subs@[i].id) =~= ex);
    }

    /// Opens a locally-initiated substream and returns its id, which was
    /// never used on this connection before.
    #[verifier::rlimit(100)]
    #[verifier::spinoff_prover]
    pub fn open_substream(&mut self, user_data: T) -> (r: u32)
        requires
            old(self).wf(),
            old(self).spec_received_goaway() is None,
            old(self).spec_next_out_id() + 2 <= u32::MAX,
        ensures
            final(self).wf(),
            r == old(self).spec_next_out_id(),
            !old(self).spec_has(r),
            !old(self).spec_used().contains(r),
            final(self).spec_has(r),
            final(self).spec_user_data(r) == user_data,
            !final(self).spec_inbound(r),
            final(self).spec_can_send(r),
            final(self).spec_can_receive(r),
            final(self).spec_dead(r) is None,
            final(self).spec_queued(r) == 0,
            final(self).spec_enqueued(r) == 0,
            final(self).spec_grant(r) == 0,
            Self::subs_framed(*old(self), *final(self), Set::empty().insert(r)),
            final(self).spec_ids() == old(self).spec_ids().push(r),
            final(self).spec_used() == old(self).spec_used().insert(r),
            final(self).spec_next_out_id() == old(self).spec_next_out_id() + 2,
            final(self).spec_num_inbound() == old(self).spec_num_inbound(),
            final(self).spec_is_initiator() == old(self).spec_is_initiator(),
            final(self).spec_goaway_queued_or_sent() == old(self).spec_goaway_queued_or_sent(),
            final(self).spec_goaway_sent() == old(self).spec_goaway_sent(),
            final(self).spec_received_goaway() == old(self).spec_received_goaway(),
            final(self).spec_pending_incoming() == old(self).spec_pending_incoming(),
            final(self).spec_delivered() == old(self).spec_delivered(),
    {
        let id = self.next_out_id;
        proof {
            lemma_find_idx(self.subs@, id);
            if find_idx(self.subs@, id) != -1 {
                let k = find_idx(self.subs@, id);
                assert(self.subs@[k].id == id);
                assert(false);
            }
            if self.used@.contains(id) {
                assert((id % 2 == 1) == self.is_initiator);
                assert(false);
            }
        }
        let ghost pre = *self;
        let sub = Sub {
            id,
            user_data,
            inbound: false,
            remote_open: true,
            fin_queued: false,
            fin_sent: false,
            reset: false,
            write_queue: Vec::new(),
            queued_bytes: 0,
            remote_credit: INITIAL_WINDOW,
            local_window: INITIAL_WINDOW,
            window_grant: 0,
            syn_pending: true,
            ack_pending: false,
            enqueued: Ghost(0nat),
        };
        self.subs.push(sub);
        self.next_out_id = self.next_out_id + 2;
        proof {
            self.used@ = pre.used@.insert(id);
        }
        proof {
            let posts = self.subs@;
            lemma_find_idx_push(pre.subs@, posts.last(), id);
            assert(find_idx(posts, id) == pre.subs@.len());
            assert(self.spec_ids() =~= pre.spec_ids().push(id));
            assert(count_inbound(posts) == count_inbound(pre.subs@)) by {
                assert(posts.drop_last() =~= pre.subs@);
            }
            assert(sum_queue(posts.last().write_queue@) == 0);
            assert forall|ii: int, kk: int|
                0 <= ii < posts.len() && 0 <= kk < posts[ii].write_queue@.len() implies (
            #[trigger] posts[ii].write_queue@[kk])@.len() > 0 by {
                if ii < posts.len() - 1 {
                    assert(posts[ii] == pre.subs@[ii]);
                } else {
                    assert(posts[ii] == posts.last());
                    assert(posts[ii].write_queue@.len() == 0);
                }
            }
            assert forall|ii: int|
                0 <= ii < posts.len() implies (#[trigger] posts[ii].queued_bytes) as nat
                == sum_queue(posts[ii].write_queue@) by {
                if ii < posts.len() - 1 {
                    assert(posts[ii] == pre.subs@[ii]);
                }
            }
            assert forall|oid: u32| !Set::empty().insert(id).contains(oid) implies {
                &&& #[trigger] self.spec_has(oid) == pre.spec_has(oid)
                &&& (pre.spec_has(oid) ==> {
                    &&& self.spec_user_data(oid) == pre.spec_user_data(oid)
                    &&& self.spec_inbound(oid) == pre.spec_inbound(oid)
                    &&& self.spec_can_send(oid) == pre.spec_can_send(oid)
                    &&& self.spec_can_receive(oid) == pre.spec_can_receive(oid)
                    &&& self.spec_dead(oid) == pre.spec_dead(oid)
                    &&& self.spec_queued(oid) == pre.spec_queued(oid)
                    &&& self.spec_enqueued(oid) == pre.spec_enqueued(oid)
                })
            } by {
                lemma_find_idx_push(pre.subs@, posts.last(), oid);
                lemma_find_idx(pre.subs@, oid);
                if find_idx(pre.subs@, oid) != -1 {
                    assert(posts[find_idx(pre.subs@, oid)] == pre.subs@[find_idx(pre.subs@, oid)]);
                }
            }
            assert forall|a: int, b: int| 0 <= a < b < posts.len() implies posts[a].id
                != posts[b].id by {
                if b == posts.len() - 1 {
                    if posts[a].inbound {
                        assert(posts[a].id % 2 != id % 2);
                    } else {
                        assert(posts[a].id < pre.next_out_id);
                    }
                }
            }
            match &self.pending_incoming {
                Some(p) => {
                    lemma_find_idx_push(pre.subs@, posts.last(), p.id);
                },
                None => {},
            }
        }
        id
    }

    /// Accepts the pending remote open request, creating its substream.
    #[verifier::rlimit(60)]
    #[verifier::spinoff_prover]
    pub fn accept_pending_substream(&mut self, user_data: T)
        requires
            old(self).wf(),
            old(self).spec_pending_incoming() is Some,
        ensures
            final(self).wf(),
            ({
                let id = old(self).spec_pending_incoming()->0;
                &&& !old(self).spec_has(id)
                &&& !old(self).spec_used().contains(id)
                &&& final(self).spec_has(id)
                &&& final(self).spec_user_data(id) == user_data
                &&& final(self).spec_inbound(id)
                &&& final(self).spec_can_send(id)
                &&& final(self).spec_dead(id) is None
                &&& final(self).spec_queued(id) == 0
                &&& final(self).spec_enqueued(id) == 0
                &&& Self::subs_framed(*old(self), *final(self), Set::empty().insert(id))
                &&& final(self).spec_ids() == old(self).spec_ids().push(id)
                &&& final(self).spec_used() == old(self).spec_used().insert(id)
                &&& final(self).spec_num_inbound() == old(self).spec_num_inbound() + 1
            }),
            final(self).spec_pending_incoming() is None,
            final(self).spec_is_initiator() == old(self).spec_is_initiator(),
            final(self).spec_goaway_queued_or_sent() == old(self).spec_goaway_queued_or_sent(),
            final(self).spec_goaway_sent() == old(self).spec_goaway_sent(),
            final(self).spec_received_goaway() == old(self).spec_received_goaway(),
            final(self).spec_delivered() == old(self).spec_delivered(),
            final(self).spec_next_out_id() == old(self).spec_next_out_id(),
    {
        let ghost pre = *self;
        let p = match self.pending_incoming.take() {
            Some(p) => p,
            None => vstd::pervasive::unreached(),
        };
        let id = p.id;
        proof {
            lemma_find_idx(self.subs@, id);
        }
        let sub = Sub {
            id,
            user_data,
            inbound: true,
            remote_open: !(p.fin && p.payload == 0),
            fin_queued: false,
            fin_sent: false,
            reset: false,
            write_queue: Vec::new(),
            queued_bytes: 0,
            remote_credit: INITIAL_WINDOW,
            local_window: INITIAL_WINDOW - p.payload as u64,
            window_grant: 0,
            syn_pending: false,
            ack_pending: true,
            enqueued: Ghost(0nat),
        };
        self.subs.push(sub);
        if p.payload > 0 {
            self.incoming = IncomingState::Data { substream_id: id, remaining: p.payload, fin: p.fin };
        }
        proof {
            self.used@ = pre.used@.insert(id);
        }
        proof {
            let posts = self.subs@;
            lemma_find_idx_push(pre.subs@, posts.last(), id);
            assert(find_idx(posts, id) == pre.subs@.len());
            assert(self.spec_ids() =~= pre.spec_ids().push(id));
            assert(count_inbound(posts) == count_inbound(pre.subs@) + 1) by {
                assert(posts.drop_last() =~= pre.subs@);
            }
            assert(sum_queue(posts.last().write_queue@) == 0);
            assert forall|ii: int, kk: int|
                0 <= ii < posts.len() && 0 <= kk < posts[ii].write_queue@.len() implies (
            #[trigger] posts[ii].write_queue@[kk])@.len() > 0 by {
                if ii < posts.len() - 1 {
                    assert(posts[ii] == pre.subs@[ii]);
                } else {
                    assert(posts[ii] == posts.last());
                    assert(posts[ii].write_queue@.len() == 0);
                }
            }
            assert forall|ii: int|
                0 <= ii < posts.len() implies (#[trigger] posts[ii].queued_bytes) as nat
                == sum_queue(posts[ii].write_queue@) by {
                if ii < posts.len() - 1 {
                    assert(posts[ii] == pre.subs@[ii]);
                }
            }
            assert forall|oid: u32| !Set::empty().insert(id).contains(oid) implies {
                &&& #[trigger] self.spec_has(oid) == pre.spec_has(oid)
                &&& (pre.spec_has(oid) ==> {
                    &&& self.spec_user_data(oid) == pre.spec_user_data(oid)
                    &&& self.spec_inbound(oid) == pre.spec_inbound(oid)
                    &&& self.spec_can_send(oid) == pre.spec_can_send(oid)
                    &&& self.spec_can_receive(oid) == pre.spec_can_receive(oid)
                    &&& self.spec_dead(oid) == pre.spec_dead(oid)
                    &&& self.spec_queued(oid) == pre.spec_queued(oid)
                    &&& self.spec_enqueued(oid) == pre.spec_enqueued(oid)
                })
            } by {
                lemma_find_idx_push(pre.subs@, posts.last(), oid);
                lemma_find_idx(pre.subs@, oid);
                if find_idx(pre.subs@, oid) != -1 {
                    assert(posts[find_idx(pre.subs@, oid)] == pre.subs@[find_idx(pre.subs@, oid)]);
                }
            }
            assert forall|a: int, b: int| 0 <= a < b < posts.len() implies posts[a].id
                != posts[b].id by {
                if b == posts.len() - 1 {
                    if posts[a].id == id {
                        assert(pre.used@.contains(posts[a].id));
                    }
                }
            }
        }
    }

    /// Rejects the pending remote open request; a reset frame answers it.
    pub fn reject_pending_substream(&mut self)
        requires
            old(self).wf(),
            old(self).spec_pending_incoming() is Some,
        ensures
            final(self).wf(),
            final(self).spec_pending_incoming() is None,
            Self::subs_framed(*old(self), *final(self), Set::empty()),
            final(self).spec_ids() == old(self).spec_ids(),
            final(self).spec_used() == old(self).spec_used(),
            final(self).spec_num_inbound() == old(self).spec_num_inbound(),
            final(self).spec_is_initiator() == old(self).spec_is_initiator(),
            final(self).spec_goaway_queued_or_sent() == old(self).spec_goaway_queued_or_sent(),
            final(self).spec_goaway_sent() == old(self).spec_goaway_sent(),
            final(self).spec_received_goaway() == old(self).spec_received_goaway(),
            final(self).spec_delivered() == old(self).spec_delivered(),
            final(self).spec_next_out_id() == old(self).spec_next_out_id(),
    {
        let ghost pre = *self;
        let p = match self.pending_incoming.take() {
            Some(p) => p,
            None => vstd::pervasive::unreached(),
        };
        let frame = encode_header(0, 0x8, p.id, 0);
        self.ctrl_queue.push(frame);
        proof {
            lemma_ctrl_push(pre.ctrl_queue@, self.ctrl_queue@, self.ctrl_queue@.last());
        }
        if p.payload > 0 {
            self.incoming = IncomingState::Discard { remaining: p.payload };
        }
        proof {
            assert(self.subs@ =~= pre.subs@);
        }
    }

    /// Queues data on a substream. It leaves in data frames as the remote
    /// window allows.
    pub fn write(&mut self, id: u32, data: Vec<u8>)
        requires
            old(self).wf(),
            old(self).spec_has(id),
            old(self).spec_can_send(id),
            data@.len() > 0,
            old(self).spec_queued(id) + data@.len() <= u64::MAX,
        ensures
            final(self).wf(),
            final(self).spec_queued(id) == old(self).spec_queued(id) + data@.len(),
            final(self).spec_enqueued(id) == old(self).spec_enqueued(id) + data@.len(),
            final(self).spec_has(id),
            final(self).spec_user_data(id) == old(self).spec_user_data(id),
            final(self).spec_inbound(id) == old(self).spec_inbound(id),
            final(self).spec_can_send(id) == old(self).spec_can_send(id),
            final(self).spec_can_receive(id) == old(self).spec_can_receive(id),
            final(self).spec_dead(id) is None,
            final(self).spec_grant(id) == old(self).spec_grant(id),
            Self::subs_framed(*old(self), *final(self), Set::empty().insert(id)),
            Self::session_framed(*old(self), *final(self)),
    {
        let i = match self.find(id) {
            Some(i) => i,
            None => vstd::pervasive::unreached(),
        };
        let ghost pre = *self;
        let len = data.len();
        let s = &mut self.subs[i];
        let ghost pren = s.enqueued@;
        s.queued_bytes = s.queued_bytes + len as u64;
        s.write_queue.push(data);
        s.enqueued = Ghost((pren + len as nat) as nat);
        proof {
            lemma_sum_queue_push(pre.subs@[i as int].write_queue@, self.subs@[i as int].write_queue@.last());
            assert(self.subs@[i as int].write_queue@ == pre.subs@[i as int].write_queue@.push(
                self.subs@[i as int].write_queue@.last(),
            ));
            Self::lemma_one_sub_update(pre, *self, i as int);
            assert(pre.subs@[i as int].id == id);
            assert(Set::empty().insert(pre.subs@[i as int].id) =~= Set::empty().insert(id));
        }
    }

    /// Closes the write side: a FIN goes out once the queue drains.
    pub fn close(&mut self, id: u32)
        requires
            old(self).wf(),
            old(self).spec_has(id),
            old(self).spec_can_send(id),
        ensures
            final(self).wf(),
            final(self).spec_has(id),
            !final(self).spec_can_send(id),
            final(self).spec_can_receive(id) == old(self).spec_can_receive(id),
            final(self).spec_user_data(id) == old(self).spec_user_data(id),
            final(self).spec_inbound(id) == old(self).spec_inbound(id),
            final(self).spec_dead(id) is None,
            final(self).spec_queued(id) == old(self).spec_queued(id),
            final(self).spec_enqueued(id) == old(self).spec_enqueued(id),
            final(self).spec_grant(id) == old(self).spec_grant(id),
            Self::subs_framed(*old(self), *final(self), Set::empty().insert(id)),
            Self::session_framed(*old(self), *final(self)),
    {
        let i = match self.find(id) {
            Some(i) => i,
            None => vstd::pervasive::unreached(),
        };
        let ghost pre = *self;
        let s = &mut self.subs[i];
        s.fin_queued = true;
        proof {
            Self::lemma_one_sub_update(pre, *self, i as int);
            assert(pre.subs@[i as int].id == id);
            assert(Set::empty().insert(pre.subs@[i as int].id) =~= Set::empty().insert(id));
            assert(pre == *old(self));
            assert(Self::subs_framed(pre, *self, Set::empty().insert(id)));
            assert(self.spec_dead(id) is None) by {
                assert(find_idx(self.subs@, id) == i as int);
                assert(!self.subs@[i as int].reset);
                assert(!self.subs@[i as int].fin_sent);
            }
        }
    }

    /// Abruptly terminates a substream; a reset frame tells the remote.
    pub fn reset(&mut self, id: u32)
        requires
            old(self).wf(),
            old(self).spec_has(id),
        ensures
            final(self).wf(),
            final(self).spec_has(id),
            !final(self).spec_can_send(id),
            !final(self).spec_can_receive(id),
            final(self).spec_dead(id) == Some(DeadSubstreamTy::Reset),
            final(self).spec_user_data(id) == old(self).spec_user_data(id),
            final(self).spec_inbound(id) == old(self).spec_inbound(id),
            final(self).spec_queued(id) == 0,
            final(self).spec_enqueued(id) == old(self).spec_enqueued(id),
            final(self).spec_grant(id) == old(self).spec_grant(id),
            Self::subs_framed(*old(self), *final(self), Set::empty().insert(id)),
            Self::session_framed(*old(self), *final(self)),
    {
        let i = match self.find(id) {
            Some(i) => i,
            None => vstd::pervasive::unreached(),
        };
        let ghost pre = *self;
        let frame = encode_header(0, 0x8, id, 0);
        self.ctrl_queue.push(frame);
        proof {
            lemma_ctrl_push(pre.ctrl_queue@, self.ctrl_queue@, self.ctrl_queue@.last());
        }
        let s = &mut self.subs[i];
        s.reset = true;
        s.write_queue = Vec::new();
        s.queued_bytes = 0;
        proof {
            assert(pre.subs@ == old(self).subs@);
            Self::lemma_one_sub_update(pre, *self, i as int);
            assert(pre.subs@[i as int].id == id);
            assert(Set::empty().insert(pre.subs@[i as int].id) =~= Set::empty().insert(id));
            assert(Self::subs_framed(pre, *self, Set::empty().insert(id)));
            assert(Self::subs_framed(*old(self), *self, Set::empty().insert(id))) by {
                assert forall|oid: u32| !Set::empty().insert(id).contains(oid) implies {
                    &&& #[trigger] self.spec_has(oid) == old(self).spec_has(oid)
                    &&& (old(self).spec_has(oid) ==> {
                        &&& self.spec_user_data(oid) == old(self).spec_user_data(oid)
                        &&& self.spec_inbound(oid) == old(self).spec_inbound(oid)
                        &&& self.spec_can_send(oid) == old(self).spec_can_send(oid)
                        &&& self.spec_can_receive(oid) == old(self).spec_can_receive(oid)
                        &&& self.spec_dead(oid) == old(self).spec_dead(oid)
                        &&& self.spec_queued(oid) == old(self).spec_queued(oid)
                        &&& self.spec_enqueued(oid) == old(self).spec_enqueued(oid)
                    })
                } by {
                    assert(old(self).spec_has(oid) == pre.spec_has(oid));
                    assert(pre.spec_has(oid) ==> {
                        &&& pre.spec_user_data(oid) == old(self).spec_user_data(oid)
                        &&& pre.spec_inbound(oid) == old(self).spec_inbound(oid)
                        &&& pre.spec_can_send(oid) == old(self).spec_can_send(oid)
                        &&& pre.spec_can_receive(oid) == old(self).spec_can_receive(oid)
                        &&& pre.spec_dead(oid) == old(self).spec_dead(oid)
                        &&& pre.spec_queued(oid) == old(self).spec_queued(oid)
                        &&& pre.spec_enqueued(oid) == old(self).spec_enqueued(oid)
                    });
                }
            }
        }
    }

    /// Announces that no new remote substream will be accepted.
    pub fn send_goaway(&mut self, code: u32)
        requires
            old(self).wf(),
            !old(self).spec_goaway_queued_or_sent(),
        ensures
            final(self).wf(),
            final(self).spec_goaway_queued_or_sent(),
            final(self).spec_goaway_code() == code,
            final(self).spec_goaway_sent() == old(self).spec_goaway_sent(),
            Self::subs_framed(*old(self), *final(self), Set::empty()),
            final(self).spec_ids() == old(self).spec_ids(),
            final(self).spec_used() == old(self).spec_used(),
            final(self).spec_num_inbound() == old(self).spec_num_inbound(),
            final(self).spec_is_initiator() == old(self).spec_is_initiator(),
            final(self).spec_received_goaway() == old(self).spec_received_goaway(),
            final(self).spec_pending_incoming() == old(self).spec_pending_incoming(),
            final(self).spec_delivered() == old(self).spec_delivered(),
            final(self).spec_next_out_id() == old(self).spec_next_out_id(),
    {
        let frame = encode_header(3, 0, 0, code);
        self.ctrl_queue.push(frame);
        self.goaway_queued = true;
        self.goaway_code = code;
        proof {
            lemma_ctrl_push(old(self).ctrl_queue@, self.ctrl_queue@, self.ctrl_queue@.last());
            assert(self.subs@ =~= old(self).subs@);
        }
    }

    /// Extends the window credit granted to the remote, saturating.
    pub fn add_remote_window_saturating(&mut self, id: u32, n: u64)
        requires
            old(self).wf(),
            old(self).spec_has(id),
        ensures
            final(self).wf(),
            final(self).spec_has(id),
            final(self).spec_grant(id) == (if old(self).spec_grant(id) + n <= u64::MAX {
                (old(self).spec_grant(id) + n) as u64
            } else {
                u64::MAX
            }),
            final(self).spec_user_data(id) == old(self).spec_user_data(id),
            final(self).spec_inbound(id) == old(self).spec_inbound(id),
            final(self).spec_can_send(id) == old(self).spec_can_send(id),
            final(self).spec_can_receive(id) == old(self).spec_can_receive(id),
            final(self).spec_dead(id) == old(self).spec_dead(id),
            final(self).spec_queued(id) == old(self).spec_queued(id),
            final(self).spec_enqueued(id) == old(self).spec_enqueued(id),
            Self::subs_framed(*old(self), *final(self), Set::empty().insert(id)),
            Self::session_framed(*old(self), *final(self)),
    {
        let i = match self.find(id) {
            Some(i) => i,
            None => vstd::pervasive::unreached(),
        };
        let ghost pre = *self;
        let s = &mut self.subs[i];
        s.window_grant = s.window_grant.saturating_add(n);
        proof {
            Self::lemma_one_sub_update(pre, *self, i as int);
            lemma_find_idx_self(pre.subs@, i as int);
            assert(pre.subs@[i as int].id == id);
            assert(pre == *old(self));
            assert(Set::empty().insert(pre.subs@[i as int].id) =~= Set::empty().insert(id));
            assert(find_idx(self.subs@, id) == i as int);
            assert(self.subs@[i as int].queued_bytes == pre.subs@[i as int].queued_bytes);
            assert(self.subs@[i as int].window_grant == pre.subs@[i as int].window_grant.saturating_add(n));
        }
    }

    /// Swaps the user data of a present substream.
    pub fn replace_user_data(&mut self, id: u32, new: T) -> (r: T)
        requires
            old(self).wf(),
            old(self).spec_has(id),
        ensures
            final(self).wf(),
            r == old(self).spec_user_data(id),
            final(self).spec_user_data(id) == new,
            final(self).spec_has(id),
            final(self).spec_inbound(id) == old(self).spec_inbound(id),
            final(self).spec_can_send(id) == old(self).spec_can_send(id),
            final(self).spec_can_receive(id) == old(self).spec_can_receive(id),
            final(self).spec_dead(id) == old(self).spec_dead(id),
            final(self).spec_queued(id) == old(self).spec_queued(id),
            final(self).spec_enqueued(id) == old(self).spec_enqueued(id),
            final(self).spec_grant(id) == old(self).spec_grant(id),
            Self::subs_framed(*old(self), *final(self), Set::empty().insert(id)),
            Self::session_framed(*old(self), *final(self)),
    {
        let i = match self.find(id) {
            Some(i) => i,
            None => vstd::pervasive::unreached(),
        };
        let ghost pre = *self;
        let s = &mut self.subs[i];
        let mut r = new;
        core::mem::swap(&mut s.user_data, &mut r);
        proof {
            Self::lemma_one_sub_update(pre, *self, i as int);
            lemma_find_idx_self(pre.subs@, i as int);
            assert(pre.subs@[i as int].id == id);
            assert(pre == *old(self));
            assert(Set::empty().insert(pre.subs@[i as int].id) =~= Set::empty().insert(id));
        }
        r
    }

    /// Removes a dead substream and hands back its user data.
    #[verifier::rlimit(60)]
    #[verifier::spinoff_prover]
    pub fn remove_dead_substream(&mut self, id: u32) -> (r: T)
        requires
            old(self).wf(),
            old(self).spec_has(id),
            old(self).spec_dead(id) is Some,
        ensures
            final(self).wf(),
            r == old(self).spec_user_data(id),
            !final(self).spec_has(id),
            Self::subs_framed(*old(self), *final(self), Set::empty().insert(id)),
            final(self).spec_ids().len() + 1 == old(self).spec_ids().len(),
            final(self).spec_used() == old(self).spec_used(),
            final(self).spec_num_inbound() + (if old(self).spec_inbound(id) {
                1nat
            } else {
                0nat
            }) == old(self).spec_num_inbound(),
            final(self).spec_is_initiator() == old(self).spec_is_initiator(),
            final(self).spec_goaway_queued_or_sent() == old(self).spec_goaway_queued_or_sent(),
            final(self).spec_goaway_sent() == old(self).spec_goaway_sent(),
            final(self).spec_received_goaway() == old(self).spec_received_goaway(),
            final(self).spec_pending_incoming() == old(self).spec_pending_incoming(),
            final(self).spec_delivered() == old(self).spec_delivered(),
            final(self).spec_next_out_id() == old(self).spec_next_out_id(),
    {
        let i = match self.find(id) {
            Some(i) => i,
            None => vstd::pervasive::unreached(),
        };
        let ghost pre = *self;
        let sub = self.subs.remove(i);
        proof {
            lemma_find_idx_self(pre.subs@, i as int);
            lemma_count_inbound_remove(pre.subs@, i as int);
            lemma_find_idx(self.subs@, id);
            if find_idx(self.subs@, id) != -1 {
                let k = find_idx(self.subs@, id);
                let ko = if k < i as int {
                    k
                } else {
                    k + 1
                };
                assert(self.subs@[k] == pre.subs@[ko]);
                assert(false);
            }
            assert forall|oid: u32| !Set::empty().insert(id).contains(oid) implies {
                &&& #[trigger] self.spec_has(oid) == pre.spec_has(oid)
                &&& (pre.spec_has(oid) ==> {
                    &&& self.spec_user_data(oid) == pre.spec_user_data(oid)
                    &&& self.spec_inbound(oid) == pre.spec_inbound(oid)
                    &&& self.spec_can_send(oid) == pre.spec_can_send(oid)
                    &&& self.spec_can_receive(oid) == pre.spec_can_receive(oid)
                    &&& self.spec_dead(oid) == pre.spec_dead(oid)
                    &&& self.spec_queued(oid) == pre.spec_queued(oid)
                    &&& self.spec_enqueued(oid) == pre.spec_enqueued(oid)
                })
            } by {
                lemma_find_idx_remove(pre.subs@, i as int, oid);
                lemma_find_idx(pre.subs@, oid);
                lemma_find_idx(self.subs@, oid);
            }
            assert forall|a: int, b: int| 0 <= a < b < self.subs@.len() implies self.subs@[a].id
                != self.subs@[b].id by {
                let pa = if a < i as int {
                    a
                } else {
                    a + 1
                };
                let pb = if b < i as int {
                    b
                } else {
                    b + 1
                };
                assert(self.subs@[a] == pre.subs@[pa]);
                assert(self.subs@[b] == pre.subs@[pb]);
            }
            assert forall|j: int| 0 <= j < self.subs@.len() implies #[trigger] self.used@.contains(
                self.subs@[j].id,
            ) && (if self.subs@[j].inbound {
                self.subs@[j].id <= self.highest_remote_id
            } else {
                self.subs@[j].id < self.next_out_id
            }) && ((self.subs@[j].id % 2 == 1) == (self.subs@[j].inbound != self.is_initiator)) by {
                let pj = if j < i as int {
                    j
                } else {
                    j + 1
                };
                assert(self.subs@[j] == pre.subs@[pj]);
            }
            match &self.pending_incoming {
                Some(p) => {
                    lemma_find_idx_remove(pre.subs@, i as int, p.id);
                },
                None => {},
            }
        }
        sub.user_data
    }

    /// Whether a substream with this id is present.
    pub fn has_substream(&self, id: u32) -> (r: bool)
        ensures
            r == self.spec_has(id),
    {
        self.find(id).is_some()
    }

    /// How many present substreams the remote opened.
    pub fn num_inbound(&self) -> (r: usize)
        ensures
            r == self.spec_num_inbound(),
    {
        let mut n: usize = 0;
        let mut i: usize = 0;
        while i < self.subs.len()
            invariant
                i <= self.subs@.len(),
                n <= i,
                n == count_inbound(self.subs@.take(i as int)),
            decreases self.subs@.len() - i,
        {
            if self.subs[i].inbound {
                n = n + 1;
            }
            i = i + 1;
            proof {
                assert(self.subs@.take(i as int).drop_last() =~= self.subs@.take(i as int - 1));
            }
        }
        proof {
            assert(self.subs@.take(self.subs@.len() as int) =~= self.subs@);
        }
        n
    }

    /// Whether no substream is present.
    pub fn is_empty(&self) -> (r: bool)
        ensures
            r == (self.spec_ids().len() == 0),
    {
        self.subs.len() == 0
    }

    /// Whether the go-away frame left with the outgoing bytes.
    pub fn goaway_sent(&self) -> (r: bool)
        ensures
            r == self.spec_goaway_sent(),
    {
        self.goaway_sent
    }

    /// Whether a go-away frame was queued or already sent.
    pub fn goaway_queued_or_sent(&self) -> (r: bool)
        ensures
            r == self.spec_goaway_queued_or_sent(),
    {
        self.goaway_queued || self.goaway_sent
    }

    /// The go-away code the remote sent, if any.
    pub fn received_goaway(&self) -> (r: Option<u32>)
        ensures
            r == self.spec_received_goaway(),
    {
        self.remote_goaway
    }

    /// Bytes queued on a substream and not yet framed.
    pub fn queued_bytes(&self, id: u32) -> (r: u64)
        requires
            self.spec_has(id),
        ensures
            r == self.spec_queued(id),
    {
        let i = match self.find(id) {
            Some(i) => i,
            None => vstd::pervasive::unreached(),
        };
        self.subs[i].queued_bytes
    }

    /// Whether and why a present substream is dead right now.
    pub fn is_dead(&self, id: u32) -> (r: Option<DeadSubstreamTy>)
        requires
            self.spec_has(id),
        ensures
            r == self.spec_dead(id),
    {
        let i = match self.find(id) {
            Some(i) => i,
            None => vstd::pervasive::unreached(),
        };
        let s = &self.subs[i];
        if s.reset {
            Some(DeadSubstreamTy::Reset)
        } else if !s.remote_open && s.fin_sent && s.write_queue.len() == 0 {
            Some(DeadSubstreamTy::ClosedGracefully)
        } else {
            None
        }
    }

    /// Whether data may still be queued on this substream.
    pub fn can_send(&self, id: u32) -> (r: bool)
        requires
            self.spec_has(id),
        ensures
            r == self.spec_can_send(id),
    {
        let i = match self.find(id) {
            Some(i) => i,
            None => vstd::pervasive::unreached(),
        };
        !self.subs[i].fin_queued && !self.subs[i].reset
    }

    /// Whether the remote may still deliver data on this substream.
    pub fn can_receive(&self, id: u32) -> (r: bool)
        requires
            self.spec_has(id),
        ensures
            r == self.spec_can_receive(id),
    {
        let i = match self.find(id) {
            Some(i) => i,
            None => vstd::pervasive::unreached(),
        };
        self.subs[i].remote_open && !self.subs[i].reset
    }

    /// Borrows the user data of a present substream.
    pub fn user_data(&self, id: u32) -> (r: &T)
        requires
            self.spec_has(id),
        ensures
            *r == self.spec_user_data(id),
    {
        let i = match self.find(id) {
            Some(i) => i,
            None => vstd::pervasive::unreached(),
        };
        &self.subs[i].user_data
    }

    /// The ids of the present substreams, in creation order.
    pub fn ids(&self) -> (r: Vec<u32>)
        ensures
            r@ == self.spec_ids(),
    {
        let mut r: Vec<u32> = Vec::new();
        let mut i: usize = 0;
        while i < self.subs.len()
            invariant
                i <= self.subs@.len(),
                r@ == self.spec_ids().take(i as int),
            decreases self.subs@.len() - i,
        {
            r.push(self.subs[i].id);
            i = i + 1;
            proof {
                assert(r@ =~= self.spec_ids().take(i as int));
            }
        }
        proof {
            assert(self.spec_ids().take(self.spec_ids().len() as int) =~= self.spec_ids());
        }
        r
    }

    /// The present substreams that are dead, each with the reason.
    pub fn dead_substreams(&self) -> (r: Vec<(u32, DeadSubstreamTy)>)
        requires
            self.wf(),
        ensures
            forall|k: int|
                0 <= k < r@.len() ==> {
                    &&& self.spec_has(#[trigger] r@[k].0)
                    &&& self.spec_dead(r@[k].0) == Some(r@[k].1)
                },
            forall|id: u32|
                #[trigger] self.spec_has(id) && self.spec_dead(id) is Some ==> exists|k: int|
                    0 <= k < r@.len() && r@[k].0 == id,
    {
        let mut r: Vec<(u32, DeadSubstreamTy)> = Vec::new();
        let mut i: usize = 0;
        while i < self.subs.len()
            invariant
                self.wf(),
                i <= self.subs@.len(),
                forall|k: int|
                    0 <= k < r@.len() ==> {
                        &&& self.spec_has(#[trigger] r@[k].0)
                        &&& self.spec_dead(r@[k].0) == Some(r@[k].1)
                    },
                forall|j: int|
                    0 <= j < i ==> (self.spec_dead(#[trigger] self.subs@[j].id) is Some
                        ==> exists|k: int| 0 <= k < r@.len() && r@[k].0 == self.subs@[j].id),
            decreases self.subs@.len() - i,
        {
            proof {
                lemma_find_idx_self(self.subs@, i as int);
            }
            let ghost rpre = r@;
            let s = &self.subs[i];
            let id = s.id;
            if s.reset {
                r.push((id, DeadSubstreamTy::Reset));
                proof {
                    assert(r@[r@.len() - 1].0 == id);
                }
            } else if !s.remote_open && s.fin_sent && s.write_queue.len() == 0 {
                r.push((id, DeadSubstreamTy::ClosedGracefully));
                proof {
                    assert(r@[r@.len() - 1].0 == id);
                }
            }
            i = i + 1;
            proof {
                assert forall|j: int|
                    0 <= j < i && self.spec_dead(#[trigger] self.subs@[j].id) is Some implies
                    exists|k: int| 0 <= k < r@.len() && r@[k].0 == self.subs@[j].id by {
                    if j < i - 1 {
                        let k = choose|k: int|
                            0 <= k < rpre.len() && rpre[k].0 == self.subs@[j].id;
                        assert(r@[k].0 == self.subs@[j].id);
                    } else {
                        assert(r@[r@.len() - 1].0 == self.subs@[j].id);
                    }
                }
            }
        }
        proof {
            assert forall|id: u32| #[trigger] self.spec_has(id) && self.spec_dead(id) is Some
                implies exists|k: int| 0 <= k < r@.len() && r@[k].0 == id by {
                lemma_find_idx(self.subs@, id);
                let j = find_idx(self.subs@, id);
                assert(self.subs@[j].id == id);
            }
        }
        r
    }


    /// Substream attributes depend only on the substream table.
    proof fn lemma_same_subs(a: Self, b: Self)
        requires
            a.subs@ == b.subs@,
        ensures
            Self::subs_stable(a, b),
            a.spec_ids() == b.spec_ids(),
            a.spec_num_inbound() == b.spec_num_inbound(),
    {
        assert forall|id: u32|
            {
                &&& #[trigger] b.spec_has(id) == a.spec_has(id)
                &&& (a.spec_has(id) ==> {
                    &&& b.spec_user_data(id) == a.spec_user_data(id)
                    &&& b.spec_inbound(id) == a.spec_inbound(id)
                    &&& b.spec_enqueued(id) == a.spec_enqueued(id)
                })
            } by {}
    }

    /// One substream's element was replaced without touching its identity
    /// data: the whole table stays stable with respect to `pre`.
    proof fn lemma_stable_one(pre: Self, mid: Self, post: Self, i: int)
        requires
            Self::subs_stable(pre, mid),
            mid.wf(),
            0 <= i < mid.subs@.len(),
            post.subs@ == mid.subs@.update(i, post.subs@[i]),
            post.subs@[i].id == mid.subs@[i].id,
            post.subs@[i].user_data == mid.subs@[i].user_data,
            post.subs@[i].inbound == mid.subs@[i].inbound,
            post.subs@[i].enqueued == mid.subs@[i].enqueued,
        ensures
            Self::subs_stable(pre, post),
    {
        assert forall|id: u32|
            {
                &&& #[trigger] post.spec_has(id) == pre.spec_has(id)
                &&& (pre.spec_has(id) ==> {
                    &&& post.spec_user_data(id) == pre.spec_user_data(id)
                    &&& post.spec_inbound(id) == pre.spec_inbound(id)
                    &&& post.spec_enqueued(id) == pre.spec_enqueued(id)
                })
            } by {
            lemma_find_idx_update(mid.subs@, i, post.subs@[i], id);
            lemma_find_idx(mid.subs@, id);
            assert(mid.spec_has(id) == pre.spec_has(id));
            if find_idx(mid.subs@, id) != -1 {
                if find_idx(mid.subs@, id) != i {
                    assert(post.subs@[find_idx(mid.subs@, id)] == mid.subs@[find_idx(
                        mid.subs@,
                        id,
                    )]);
                }
            }
        }
    }

    /// Stability carries over a step that leaves the substream table alone.
    proof fn lemma_stable_carry(pre: Self, a: Self, post: Self)
        requires
            Self::subs_stable(pre, a),
            a.subs@ == post.subs@,
        ensures
            Self::subs_stable(pre, post),
    {
        assert forall|id: u32|
            {
                &&& #[trigger] post.spec_has(id) == pre.spec_has(id)
                &&& (pre.spec_has(id) ==> {
                    &&& post.spec_user_data(id) == pre.spec_user_data(id)
                    &&& post.spec_inbound(id) == pre.spec_inbound(id)
                    &&& post.spec_enqueued(id) == pre.spec_enqueued(id)
                })
            } by {
            assert(a.spec_has(id) == pre.spec_has(id));
        }
    }

    /// What `incoming_data` reports besides the mutation: how the receive
    /// flags relate to the decoded detail.
    pub open spec fn incoming_post(pre: Self, post: Self, n: int, detail: Option<
        IncomingDataDetail,
    >, data: Seq<u8>) -> bool {
        &&& 0 <= n <= data.len()
        &&& post.wf()
        &&& Self::subs_stable(pre, post)
        &&& post.spec_used() == pre.spec_used()
        &&& post.spec_ids() == pre.spec_ids()
        &&& post.spec_next_out_id() == pre.spec_next_out_id()
        &&& post.spec_num_inbound() == pre.spec_num_inbound()
        &&& post.spec_is_initiator() == pre.spec_is_initiator()
        &&& post.spec_goaway_queued_or_sent() == pre.spec_goaway_queued_or_sent()
        &&& post.spec_goaway_sent() == pre.spec_goaway_sent()
        &&& (match detail {
            Some(IncomingDataDetail::GoAway { code }) => pre.spec_received_goaway() is None
                && post.spec_received_goaway() == Some(code),
            _ => post.spec_received_goaway() == pre.spec_received_goaway(),
        })
        &&& (match detail {
            Some(IncomingDataDetail::IncomingSubstream) => {
                &&& post.spec_pending_incoming() is Some
                &&& !pre.spec_goaway_queued_or_sent()
            },
            _ => post.spec_pending_incoming() is None,
        })
        &&& (match detail {
            Some(IncomingDataDetail::DataFrame { start_offset, substream_id }) => {
                &&& start_offset <= n
                &&& pre.spec_has(substream_id)
                &&& post.spec_delivered() == pre.spec_delivered() + (n - start_offset)
            },
            _ => post.spec_delivered() == pre.spec_delivered(),
        })
        &&& !(detail matches Some(IncomingDataDetail::PingResponse))
        &&& (pre.spec_decode_phase() matches DecodePhase::Payload { substream_id, remaining, fin }
            ==> (data.len() > 0 ==> {
            &&& n == (if remaining as int <= data.len() {
                remaining as int
            } else {
                data.len() as int
            })
            &&& (detail is None || detail == Some(
                IncomingDataDetail::DataFrame { start_offset: 0, substream_id },
            ))
        }))
        &&& (pre.spec_decode_phase() matches DecodePhase::Discarding { remaining } ==> (data.len()
            > 0 ==> (n == (if remaining as int <= data.len() {
            remaining as int
        } else {
            data.len() as int
        }) && detail is None)))
        &&& (pre.spec_decode_phase() matches DecodePhase::Collecting { have } ==> (have
            + data.len() < 12 ==> (n == data.len() && detail is None && post.spec_decode_phase()
            == (DecodePhase::Collecting { have: (have + data.len()) as nat }))))
    }

    /// Decodes a prefix of `data`. Returns how many bytes were consumed and
    /// what they amounted to. Caller must resolve a pending incoming
    /// substream before feeding more data.
    #[verifier::rlimit(60)]
    #[verifier::spinoff_prover]
    pub fn incoming_data(&mut self, data: &Vec<u8>) -> (r: Result<
        (usize, Option<IncomingDataDetail>),
        Error,
    >)
        requires
            old(self).wf(),
            old(self).spec_pending_incoming() is None,
        ensures
            r matches Ok((n, detail)) ==> Self::incoming_post(
                *old(self),
                *final(self),
                n as int,
                detail,
                data@,
            ),
            r is Err ==> (old(self).spec_decode_phase() matches DecodePhase::Collecting { have }
                && have + data@.len() >= 12),
    {
        let ghost pre = *self;
        let avail = data.len();
        let mut st = IncomingState::Header { partial: Vec::new() };
        core::mem::swap(&mut self.incoming, &mut st);
        match st {
            IncomingState::Data { substream_id, remaining, fin } => {
                if avail == 0 {
                    self.incoming = IncomingState::Data { substream_id, remaining, fin };
                    proof {
                        assert(*self == pre);
                    }
                    return Ok((0, None));
                }
                let n: usize = if (remaining as usize) < avail {
                    remaining as usize
                } else {
                    avail
                };
                let rem2: u32 = remaining - n as u32;
                if rem2 > 0 {
                    self.incoming = IncomingState::Data { substream_id, remaining: rem2, fin };
                }
                match self.find(substream_id) {
                    Some(i) => {
                        proof {
                            assert(self.subs@ == pre.subs@);
                            assert(find_idx(pre.subs@, substream_id) == i as int);
                            self.delivered@ = self.delivered@ + n as nat;
                        }
                        let ghost mid = *self;
                        if rem2 == 0 && fin {
                            let s = &mut self.subs[i];
                            s.remote_open = false;
                            proof {
                                Self::lemma_one_sub_update(mid, *self, i as int);
                                Self::lemma_same_subs(pre, mid);
                                Self::lemma_stable_one(pre, mid, *self, i as int);
                            }
                        } else {
                            proof {
                                Self::lemma_same_subs(pre, *self);
                            }
                        }
                        Ok((n, Some(IncomingDataDetail::DataFrame {
                            start_offset: 0,
                            substream_id,
                        })))
                    },
                    None => {
                        proof {
                            assert(self.subs@ == pre.subs@);
                            Self::lemma_same_subs(pre, *self);
                        }
                        Ok((n, None))
                    },
                }
            },
            IncomingState::Discard { remaining } => {
                if avail == 0 {
                    self.incoming = IncomingState::Discard { remaining };
                    proof {
                        assert(*self == pre);
                    }
                    return Ok((0, None));
                }
                let n: usize = if (remaining as usize) < avail {
                    remaining as usize
                } else {
                    avail
                };
                let rem2: u32 = remaining - n as u32;
                if rem2 > 0 {
                    self.incoming = IncomingState::Discard { remaining: rem2 };
                }
                proof {
                    Self::lemma_same_subs(pre, *self);
                }
                Ok((n, None))
            },
            IncomingState::Header { partial } => {
                let mut partial = partial;
                let have = partial.len();
                let need = HEADER_LEN - have;
                if avail < need {
                    let mut k: usize = 0;
                    while k < avail
                        invariant
                            k <= avail,
                            avail == data@.len(),
                            partial@.len() == have + k,
                            have + avail < HEADER_LEN,
                        decreases avail - k,
                    {
                        partial.push(data[k]);
                        k = k + 1;
                    }
                    self.incoming = IncomingState::Header { partial };
                    proof {
                        assert(self.subs@ == pre.subs@);
                        Self::lemma_same_subs(pre, *self);
                    }
                    return Ok((avail, None));
                }
                let mut k: usize = 0;
                while k < need
                    invariant
                        k <= need,
                        need <= avail,
                        avail == data@.len(),
                        need == HEADER_LEN - have,
                        partial@.len() == have + k,
                    decreases need - k,
                {
                    partial.push(data[k]);
                    k = k + 1;
                }
                let version = partial[0];
                if version != 0 {
                    return Err(Error::BadVersion);
                }
                let ty = partial[1];
                let flags = read_be16(&partial, 2);
                let id = read_be32(&partial, 4);
                let length = read_be32(&partial, 8);
                if ty == 0 || ty == 1 {
                    if flags & FLAG_RST != 0 {
                        if ty == 0 && length != 0 {
                            return Err(Error::ResetWithPayload);
                        }
                        match self.find(id) {
                            Some(i) => {
                                let ghost mid = *self;
                                let s = &mut self.subs[i];
                                s.reset = true;
                                s.write_queue = Vec::new();
                                s.queued_bytes = 0;
                                proof {
                                    Self::lemma_one_sub_update(mid, *self, i as int);
                                    Self::lemma_same_subs(pre, mid);
                                    Self::lemma_stable_one(pre, mid, *self, i as int);
                                }
                                Ok((need, Some(IncomingDataDetail::StreamReset {
                                    substream_id: id,
                                })))
                            },
                            None => {
                                proof {
                                    Self::lemma_same_subs(pre, *self);
                                }
                                Ok((need, None))
                            },
                        }
                    } else if flags & FLAG_SYN != 0 {
                        let remote_odd = !self.is_initiator;
                        if (id % 2 == 1) != remote_odd || id <= self.highest_remote_id {
                            return Err(Error::BadSubstreamId);
                        }
                        let payload: u32 = if ty == 0 {
                            length
                        } else {
                            0
                        };
                        if payload as u64 > INITIAL_WINDOW {
                            return Err(Error::CreditExceeded);
                        }
                        self.highest_remote_id = id;
                        let fin = flags & FLAG_FIN != 0;
                        if self.goaway_queued || self.goaway_sent {
                            let ghost preq = self.ctrl_queue@;
                            let frame = encode_header(0, 0x8, id, 0);
                            self.ctrl_queue.push(frame);
                            proof {
                                lemma_ctrl_push(preq, self.ctrl_queue@, self.ctrl_queue@.last());
                            }
                            if payload > 0 {
                                self.incoming = IncomingState::Discard { remaining: payload };
                            }
                            proof {
                                assert(self.subs@ == pre.subs@);
                                Self::lemma_same_subs(pre, *self);
                            }
                            Ok((need, None))
                        } else {
                            proof {
                                lemma_find_idx(self.subs@, id);
                                if find_idx(self.subs@, id) != -1 {
                                    let j = find_idx(self.subs@, id);
                                    if self.subs@[j].inbound {
                                        assert(self.subs@[j].id <= pre.highest_remote_id);
                                    } else {
                                        assert((self.subs@[j].id % 2 == 1) == self.is_initiator);
                                    }
                                    assert(false);
                                }
                                if self.used@.contains(id) {
                                    assert(false);
                                }
                            }
                            self.pending_incoming = Some(PendingIncoming { id, payload, fin });
                            proof {
                                assert(self.subs@ == pre.subs@);
                                Self::lemma_same_subs(pre, *self);
                            }
                            Ok((need, Some(IncomingDataDetail::IncomingSubstream)))
                        }
                    } else {
                        let fin = flags & FLAG_FIN != 0;
                        match self.find(id) {
                            Some(i) => {
                                if ty == 1 {
                                    let ghost mid = *self;
                                    let s = &mut self.subs[i];
                                    s.remote_credit = s.remote_credit.saturating_add(
                                        length as u64,
                                    );
                                    if fin {
                                        s.remote_open = false;
                                    }
                                    proof {
                                        Self::lemma_one_sub_update(mid, *self, i as int);
                                        Self::lemma_same_subs(pre, mid);
                                        Self::lemma_stable_one(pre, mid, *self, i as int);
                                    }
                                    if fin {
                                        Ok((need, Some(IncomingDataDetail::StreamClosed {
                                            substream_id: id,
                                        })))
                                    } else {
                                        Ok((need, None))
                                    }
                                } else {
                                    if length as u64 > self.subs[i].local_window {
                                        return Err(Error::CreditExceeded);
                                    }
                                    let ghost mid = *self;
                                    let receivable = {
                                        let s = &mut self.subs[i];
                                        s.local_window = s.local_window - length as u64;
                                        let rcv = s.remote_open && !s.reset;
                                        rcv
                                    };
                                    proof {
                                        Self::lemma_one_sub_update(mid, *self, i as int);
                                        Self::lemma_same_subs(pre, mid);
                                        Self::lemma_stable_one(pre, mid, *self, i as int);
                                    }
                                    if !receivable {
                                        let ghost stg = *self;
                                        if length > 0 {
                                            self.incoming = IncomingState::Discard {
                                                remaining: length,
                                            };
                                        }
                                        proof {
                                            Self::lemma_stable_carry(pre, stg, *self);
                                        }
                                        Ok((need, None))
                                    } else if length == 0 {
                                        if fin {
                                            let ghost mid2 = *self;
                                            let s = &mut self.subs[i];
                                            s.remote_open = false;
                                            proof {
                                                Self::lemma_one_sub_update(mid2, *self, i as int);
                                                Self::lemma_stable_one(pre, mid2, *self, i as int);
                                            }
                                            Ok((need, Some(IncomingDataDetail::StreamClosed {
                                                substream_id: id,
                                            })))
                                        } else {
                                            Ok((need, None))
                                        }
                                    } else {
                                        let ghost stg = *self;
                                        self.incoming = IncomingState::Data {
                                            substream_id: id,
                                            remaining: length,
                                            fin,
                                        };
                                        proof {
                                            Self::lemma_stable_carry(pre, stg, *self);
                                        }
                                        Ok((need, None))
                                    }
                                }
                            },
                            None => {
                                if ty == 0 && length > 0 {
                                    self.incoming = IncomingState::Discard { remaining: length };
                                }
                                proof {
                                    assert(self.subs@ == pre.subs@);
                                    Self::lemma_same_subs(pre, *self);
                                }
                                Ok((need, None))
                            },
                        }
                    }
                } else if ty == 2 {
                    if flags & FLAG_ACK != 0 {
                        Err(Error::PingResponseNotRequested)
                    } else if flags & FLAG_SYN != 0 {
                        if self.pongs_queued >= MAX_QUEUED_PONGS {
                            return Err(Error::PingsExceeded);
                        }
                        let ghost preq = self.ctrl_queue@;
                        let frame = encode_header(2, FLAG_ACK, 0, length);
                        self.ctrl_queue.push(frame);
                        proof {
                            lemma_ctrl_push(preq, self.ctrl_queue@, self.ctrl_queue@.last());
                        }
                        self.pongs_queued = self.pongs_queued + 1;
                        proof {
                            assert(self.subs@ == pre.subs@);
                            Self::lemma_same_subs(pre, *self);
                        }
                        Ok((need, None))
                    } else {
                        Err(Error::BadFrameType)
                    }
                } else if ty == 3 {
                    if self.remote_goaway.is_some() {
                        return Err(Error::GoAwayRepeated);
                    }
                    self.remote_goaway = Some(length);
                    proof {
                        assert(self.subs@ == pre.subs@);
                        Self::lemma_same_subs(pre, *self);
                    }
                    Ok((need, Some(IncomingDataDetail::GoAway { code: length })))
                } else {
                    Err(Error::BadFrameType)
                }
            },
        }
    }

    /// What `extract_next` promises about the state it leaves behind.
    pub open spec fn extract_post(pre: Self, post: Self) -> bool {
        &&& post.wf()
        &&& Self::subs_stable(pre, post)
        &&& post.spec_used() == pre.spec_used()
        &&& post.spec_ids() == pre.spec_ids()
        &&& post.spec_next_out_id() == pre.spec_next_out_id()
        &&& post.spec_num_inbound() == pre.spec_num_inbound()
        &&& post.spec_is_initiator() == pre.spec_is_initiator()
        &&& post.spec_goaway_queued_or_sent() == pre.spec_goaway_queued_or_sent()
        &&& (pre.spec_goaway_sent() ==> post.spec_goaway_sent())
        &&& post.spec_received_goaway() == pre.spec_received_goaway()
        &&& post.spec_pending_incoming() == pre.spec_pending_incoming()
        &&& post.spec_delivered() == pre.spec_delivered()
        &&& forall|id: u32|
            #[trigger] pre.spec_has(id) ==> {
                &&& post.spec_queued(id) <= pre.spec_queued(id)
                &&& post.spec_can_send(id) == pre.spec_can_send(id)
                &&& post.spec_can_receive(id) == pre.spec_can_receive(id)
                &&& (pre.spec_dead(id) is Some ==> post.spec_dead(id) is Some)
            }
    }

    /// Pulls the next outgoing frame, at most `max` bytes of it.
    #[verifier::rlimit(80)]
    #[verifier::spinoff_prover]
    pub fn extract_next(&mut self, max: usize) -> (r: Option<Vec<u8>>)
        requires
            old(self).wf(),
            max > HEADER_LEN,
        ensures
            Self::extract_post(*old(self), *final(self)),
            match r {
                Some(f) => 1 <= f@.len() <= max,
                None => *final(self) == *old(self) && !old(self).spec_outbound_pending(),
            },
    {
        let ghost pre = *self;
        if self.ctrl_queue.len() > 0 {
            let f = self.ctrl_queue.remove(0);
            if f.len() > 1 && f[1] == 3 && self.goaway_queued {
                self.goaway_sent = true;
            }
            proof {
                assert(f@.len() == 12);
                Self::lemma_same_subs(pre, *self);
                assert forall|k: int| 0 <= k < self.ctrl_queue@.len() implies (
                #[trigger] self.ctrl_queue@[k])@.len() == 12 by {
                    assert(self.ctrl_queue@[k] == pre.ctrl_queue@[k + 1]);
                }
                assert forall|id: u32| #[trigger] pre.spec_has(id) implies {
                    &&& self.spec_queued(id) <= pre.spec_queued(id)
                    &&& self.spec_can_send(id) == pre.spec_can_send(id)
                    &&& self.spec_can_receive(id) == pre.spec_can_receive(id)
                } by {
                    assert(self.subs@ == pre.subs@);
                }
            }
            return Some(f);
        }
        let mut i: usize = 0;
        let mut act: Option<OutAction> = None;
        while i < self.subs.len()
            invariant_except_break
                act is None,
                forall|j: int|
                    0 <= j < i ==> {
                        let sub = #[trigger] self.subs@[j];
                        &&& !sub.syn_pending
                        &&& !sub.ack_pending
                        &&& sub.window_grant == 0
                        &&& !(!sub.reset && sub.queued_bytes > 0 && sub.remote_credit > 0)
                        &&& !(!sub.reset && sub.fin_queued && !sub.fin_sent && sub.queued_bytes
                            == 0)
                    },
            invariant
                i <= self.subs@.len(),
            ensures
                act is None ==> forall|j: int|
                    0 <= j < self.subs@.len() ==> {
                        let sub = #[trigger] self.subs@[j];
                        &&& !sub.syn_pending
                        &&& !sub.ack_pending
                        &&& sub.window_grant == 0
                        &&& !(!sub.reset && sub.queued_bytes > 0 && sub.remote_credit > 0)
                        &&& !(!sub.reset && sub.fin_queued && !sub.fin_sent && sub.queued_bytes
                            == 0)
                    },
                match act {
                    Some(a) => i < self.subs@.len() && ({
                        let s = self.subs@[i as int];
                        match a {
                            OutAction::Syn => s.syn_pending,
                            OutAction::Ack => s.ack_pending,
                            OutAction::Grant => s.window_grant > 0,
                            OutAction::Data => !s.reset && s.queued_bytes > 0 && s.remote_credit
                                > 0,
                            OutAction::Fin => !s.reset && s.fin_queued && !s.fin_sent
                                && s.queued_bytes == 0,
                        }
                    }),
                    None => true,
                },
            decreases self.subs@.len() - i,
        {
            let s = &self.subs[i];
            if s.syn_pending {
                act = Some(OutAction::Syn);
                break ;
            }
            if s.ack_pending {
                act = Some(OutAction::Ack);
                break ;
            }
            if s.window_grant > 0 {
                act = Some(OutAction::Grant);
                break ;
            }
            if !s.reset && s.queued_bytes > 0 && s.remote_credit > 0 {
                act = Some(OutAction::Data);
                break ;
            }
            if !s.reset && s.fin_queued && !s.fin_sent && s.queued_bytes == 0 {
                act = Some(OutAction::Fin);
                break ;
            }
            i = i + 1;
        }
        match act {
            None => {
                proof {
                    assert(*self == pre);
                    assert(!pre.spec_outbound_pending());
                }
                None
            },
            Some(OutAction::Syn) => {
                let id = self.subs[i].id;
                let ghost mid = *self;
                let s = &mut self.subs[i];
                s.syn_pending = false;
                proof {
                    Self::extract_one_sub_proof(pre, mid, *self, i as int);
                }
                Some(encode_header(1, FLAG_SYN, id, 0))
            },
            Some(OutAction::Ack) => {
                let id = self.subs[i].id;
                let ghost mid = *self;
                let s = &mut self.subs[i];
                s.ack_pending = false;
                proof {
                    Self::extract_one_sub_proof(pre, mid, *self, i as int);
                }
                Some(encode_header(1, FLAG_ACK, id, 0))
            },
            Some(OutAction::Grant) => {
                let id = self.subs[i].id;
                let grant = self.subs[i].window_grant;
                let delta: u32 = if grant > 0xffff_ffff {
                    0xffff_ffff
                } else {
                    grant as u32
                };
                let ghost mid = *self;
                let s = &mut self.subs[i];
                s.window_grant = s.window_grant - delta as u64;
                s.local_window = s.local_window.saturating_add(delta as u64);
                proof {
                    Self::extract_one_sub_proof(pre, mid, *self, i as int);
                }
                Some(encode_header(1, 0, id, delta))
            },
            Some(OutAction::Fin) => {
                let id = self.subs[i].id;
                let ghost mid = *self;
                let s = &mut self.subs[i];
                s.fin_sent = true;
                proof {
                    Self::extract_one_sub_proof(pre, mid, *self, i as int);
                }
                Some(encode_header(0, FLAG_FIN, id, 0))
            },
            Some(OutAction::Data) => {
                let id = self.subs[i].id;
                let credit = self.subs[i].remote_credit;
                let mut m: usize = max - HEADER_LEN;
                if m > MAX_OUT_DATA_FRAME {
                    m = MAX_OUT_DATA_FRAME;
                }
                if (m as u64) > credit {
                    m = credit as usize;
                }
                let ghost mid = *self;
                let ghost total = self.subs@[i as int].queued_bytes as nat;
                let mut queue: Vec<Vec<u8>> = Vec::new();
                {
                    let s = &mut self.subs[i];
                    core::mem::swap(&mut s.write_queue, &mut queue);
                }
                let mut payload: Vec<u8> = Vec::new();
                while payload.len() < m && queue.len() > 0
                    invariant
                        payload@.len() <= m,
                        sum_queue(queue@) + payload@.len() == total,
                        forall|k: int|
                            0 <= k < queue@.len() ==> (#[trigger] queue@[k])@.len() > 0,
                    decreases m - payload@.len(),
                {
                    let want = m - payload.len();
                    let ghost qpre = queue@;
                    let front_len = queue[0].len();
                    if front_len <= want {
                        let mut c = queue.remove(0);
                        payload.append(&mut c);
                        proof {
                            assert(qpre[0]@.len() + sum_queue(qpre.drop_first()) == sum_queue(
                                qpre,
                            ));
                            assert(queue@ =~= qpre.drop_first());
                        }
                    } else {
                        let mut tail = queue[0].split_off(want);
                        core::mem::swap(&mut queue[0], &mut tail);
                        payload.append(&mut tail);
                        proof {
                            assert(queue@.drop_first() =~= qpre.drop_first());
                            assert(queue@[0]@.len() + sum_queue(queue@.drop_first()) == sum_queue(
                                queue@,
                            ));
                            assert(qpre[0]@.len() + sum_queue(qpre.drop_first()) == sum_queue(
                                qpre,
                            ));
                        }
                    }
                }
                let n = payload.len();
                proof {
                    if n == 0 {
                        assert(sum_queue(queue@) == total);
                        assert(queue@.len() == 0);
                        assert(sum_queue(queue@) == 0);
                        assert(false);
                    }
                }
                {
                    let s = &mut self.subs[i];
                    s.write_queue = queue;
                    s.queued_bytes = s.queued_bytes - n as u64;
                    s.remote_credit = s.remote_credit - n as u64;
                }
                proof {
                    assert(self.subs@ =~= mid.subs@.update(i as int, self.subs@[i as int]));
                    Self::extract_one_sub_proof(pre, mid, *self, i as int);
                }
                let mut f = encode_header(0, 0, id, n as u32);
                let mut payload_move = payload;
                f.append(&mut payload_move);
                Some(f)
            },
        }
    }

    /// Shared conclusion for the one-substream mutations of `extract_next`.
    #[verifier::rlimit(80)]
    #[verifier::spinoff_prover]
    proof fn extract_one_sub_proof(pre: Self, mid: Self, post: Self, i: int)
        requires
            pre == mid,
            mid.wf(),
            0 <= i < mid.subs@.len(),
            post.subs@ == mid.subs@.update(i, post.subs@[i]),
            post.subs@[i].id == mid.subs@[i].id,
            post.subs@[i].user_data == mid.subs@[i].user_data,
            post.subs@[i].inbound == mid.subs@[i].inbound,
            post.subs@[i].fin_sent ==> post.subs@[i].fin_queued,
            post.subs@[i].fin_queued == mid.subs@[i].fin_queued,
            mid.subs@[i].fin_sent ==> post.subs@[i].fin_sent,
            post.subs@[i].reset == mid.subs@[i].reset,
            post.subs@[i].remote_open == mid.subs@[i].remote_open,
            post.subs@[i].queued_bytes <= mid.subs@[i].queued_bytes,
            post.subs@[i].queued_bytes as nat == sum_queue(post.subs@[i].write_queue@),
            forall|k: int|
                0 <= k < post.subs@[i].write_queue@.len() ==> (#[trigger] post.subs@[i].write_queue@[k])@.len() > 0,
            post.subs@[i].enqueued == mid.subs@[i].enqueued,
            post.used@ == pre.used@,
            post.next_out_id == pre.next_out_id,
            post.highest_remote_id == pre.highest_remote_id,
            post.is_initiator == pre.is_initiator,
            post.pending_incoming == pre.pending_incoming,
            post.incoming == pre.incoming,
            post.goaway_queued == pre.goaway_queued,
            post.goaway_sent == pre.goaway_sent,
            post.remote_goaway == pre.remote_goaway,
            post.delivered == pre.delivered,
            forall|k: int|
                0 <= k < post.ctrl_queue@.len() ==> (#[trigger] post.ctrl_queue@[k])@.len() == 12,
        ensures
            Self::extract_post(pre, post),
    {
        Self::lemma_one_sub_update(pre, post, i);
        lemma_find_idx_self(pre.subs@, i);
        let the_id = pre.subs@[i].id;
        assert forall|id: u32| #[trigger] pre.spec_has(id) implies {
            &&& post.spec_queued(id) <= pre.spec_queued(id)
            &&& post.spec_can_send(id) == pre.spec_can_send(id)
            &&& post.spec_can_receive(id) == pre.spec_can_receive(id)
            &&& (pre.spec_dead(id) is Some ==> post.spec_dead(id) is Some)
        } by {
            assert(post.spec_has(id) || !post.spec_has(id));
            if id != the_id {
                lemma_find_idx_update(pre.subs@, i, post.subs@[i], id);
                lemma_find_idx(pre.subs@, id);
                if find_idx(pre.subs@, id) != -1 {
                    assert(post.subs@[find_idx(pre.subs@, id)] == pre.subs@[find_idx(
                        pre.subs@,
                        id,
                    )]);
                }
                assert(post.spec_queued(id) <= pre.spec_queued(id));
                assert(post.spec_can_send(id) == pre.spec_can_send(id));
                assert(post.spec_can_receive(id) == pre.spec_can_receive(id));
            } else {
                assert(find_idx(post.subs@, id) == i);
                assert(find_idx(pre.subs@, id) == i);
                if pre.spec_dead(id) is Some && !pre.subs@[i].reset {
                    assert(pre.subs@[i].fin_sent && !pre.subs@[i].remote_open
                        && pre.subs@[i].write_queue@.len() == 0);
                    assert(sum_queue(pre.subs@[i].write_queue@) == 0);
                    assert(pre.subs@[i].queued_bytes == 0);
                    assert(post.subs@[i].queued_bytes == 0);
                    assert(sum_queue(post.subs@[i].write_queue@) == 0);
                    if post.subs@[i].write_queue@.len() > 0 {
                        assert(post.subs@[i].write_queue@[0]@.len() > 0);
                        assert(sum_queue(post.subs@[i].write_queue@)
                            >= post.subs@[i].write_queue@[0]@.len());
                        assert(false);
                    }
                    assert(post.spec_dead(id) is Some);
                }
                assert(post.spec_queued(id) == post.subs@[i].queued_bytes as nat);
                assert(pre.spec_queued(id) == pre.subs@[i].queued_bytes as nat);
                assert(post.spec_can_send(id) == (!post.subs@[i].fin_queued
                    && !post.subs@[i].reset));
                assert(pre.spec_can_send(id) == (!pre.subs@[i].fin_queued
                    && !pre.subs@[i].reset));
                assert(post.spec_can_receive(id) == (post.subs@[i].remote_open
                    && !post.subs@[i].reset));
                assert(pre.spec_can_receive(id) == (pre.subs@[i].remote_open
                    && !pre.subs@[i].reset));
                assert(post.subs@[i].fin_queued == pre.subs@[i].fin_queued);
                assert(post.subs@[i].reset == pre.subs@[i].reset);
                assert(post.subs@[i].remote_open == pre.subs@[i].remote_open);
                assert(post.subs@[i].queued_bytes <= pre.subs@[i].queued_bytes);
            }
        }
        assert forall|id: u32|
            {
                &&& #[trigger] post.spec_has(id) == pre.spec_has(id)
                &&& (pre.spec_has(id) ==> {
                    &&& post.spec_user_data(id) == pre.spec_user_data(id)
                    &&& post.spec_inbound(id) == pre.spec_inbound(id)
                    &&& post.spec_enqueued(id) == pre.spec_enqueued(id)
                })
            } by {
            if id != the_id {
                lemma_find_idx_update(pre.subs@, i, post.subs@[i], id);
                lemma_find_idx(pre.subs@, id);
                if find_idx(pre.subs@, id) != -1 {
                    assert(post.subs@[find_idx(pre.subs@, id)] == pre.subs@[find_idx(
                        pre.subs@,
                        id,
                    )]);
                }
            } else {
                assert(find_idx(post.subs@, id) == i);
            }
        }
    }

}

/// Builds a 12-byte frame header.
fn encode_header(frame_type: u8, flags: u16, substream_id: u32, length: u32) -> (r: Vec<u8>)
    ensures
        r@ == spec_header(frame_type, flags, substream_id, length),
        r@.len() == 12,
{
    let mut r: Vec<u8> = Vec::new();
    r.push(0);
    r.push(frame_type);
    push_be16(&mut r, flags);
    push_be32(&mut r, substream_id);
    push_be32(&mut r, length);
    proof {
        assert(r@ =~= spec_header(frame_type, flags, substream_id, length));
    }
    r
}

/// The 12 header bytes of a frame.
pub open spec fn spec_header(frame_type: u8, flags: u16, substream_id: u32, length: u32) -> Seq<
    u8,
> {
    seq![0u8, frame_type] + crate::bytesutil::be16(flags) + be32(substream_id) + be32(length)
}

} // verus!
