//! Bookkeeping of the connections and streams that a host environment has
//! open: what of the platform layer is plain state and decisions. The host
//! side (socket calls, timers, task wake-ups) stays outside; it reports what
//! happened through these entry points and reads back what to do.

use vstd::prelude::*;
use crate::bytesutil::push_be16;
use crate::multiaddr::Address;
use crate::multiaddr::IpAddr;
use crate::multiaddr::MultiStreamAddress;

verus! {

/// A connection refuses to buffer more than this many received bytes.
pub const MAX_BUFFERED_PER_STREAM: usize = 26214400;

/// What a connection currently is.
pub enum ConnectionInner {
    /// Opened towards the host, no answer yet.
    NotOpen,
    /// An established single-stream connection.
    SingleStreamMsNoiseYamux,
    /// An established multi-stream connection.
    MultiStreamWebRtc {
        /// Substreams the host reported open but nobody picked up yet:
        /// stream id, whether it is outbound, initial writable bytes.
        opened_substreams_to_pick_up: Vec<(u32, bool, u32)>,
        /// Live handles that refer to this connection.
        connection_handles_alive: u32,
        /// SHA-256 hash of the local certificate.
        local_tls_certificate_sha256: Vec<u8>,
        /// SHA-256 hash of the remote certificate.
        remote_tls_certificate_sha256: Vec<u8>,
    },
    /// The host reported the connection reset.
    Reset { message: String, connection_handles_alive: u32 },
}

/// One connection the host knows about.
pub struct Connection {
    pub inner: ConnectionInner,
}

/// One stream of a connection.
pub struct Stream {
    /// The host reported this stream reset.
    pub reset: bool,
    /// Writable bytes reported by the host, not yet picked up.
    pub writable_bytes_extra: usize,
    /// Messages received from the host, not yet picked up. Never holds an
    /// empty message.
    pub messages_queue: Vec<Vec<u8>>,
    /// Total length of `messages_queue`.
    pub messages_queue_total_size: usize,
}

/// All the connections and streams that are alive. Single-stream
/// connections have exactly one stream, keyed without a stream id.
pub struct NetworkState {
    next_connection_id: u32,
    connections: Vec<(u32, Connection)>,
    streams: Vec<(u64, Stream)>,
}

/// One key for a (connection, optional stream) pair.
pub open spec fn spec_stream_key(connection_id: u32, stream_id: Option<u32>) -> u64
    recommends
        connection_id < 0x80000000,
{
    ((connection_id as u64) * 0x200000000 + (match stream_id {
        Some(s) => 0x100000000 + s as int,
        None => 0int,
    })) as u64
}

/// Index of the first entry with this key, or -1.
spec fn kfind<T>(s: Seq<(u64, T)>, k: u64) -> int
    decreases s.len(),
{
    if s.len() == 0 {
        -1
    } else if s[0].0 == k {
        0
    } else {
        let r = kfind(s.drop_first(), k);
        if r < 0 {
            -1
        } else {
            r + 1
        }
    }
}

/// Index of the first connection entry with this id, or -1.
spec fn cfind(s: Seq<(u32, Connection)>, id: u32) -> int
    decreases s.len(),
{
    if s.len() == 0 {
        -1
    } else if s[0].0 == id {
        0
    } else {
        let r = cfind(s.drop_first(), id);
        if r < 0 {
            -1
        } else {
            r + 1
        }
    }
}

proof fn lemma_cfind(s: Seq<(u32, Connection)>, id: u32)
    ensures
        cfind(s, id) == -1 ==> (forall|j: int| 0 <= j < s.len() ==> s[j].0 != id),
        cfind(s, id) != -1 ==> 0 <= cfind(s, id) < s.len() && s[cfind(s, id)].0 == id && (forall|
            j: int,
        | 0 <= j < cfind(s, id) ==> s[j].0 != id),
    decreases s.len(),
{
    if s.len() > 0 && s[0].0 != id {
        lemma_cfind(s.drop_first(), id);
        assert forall|j: int| 1 <= j < s.len() implies s[j] == s.drop_first()[j - 1] by {}
    }
}

/// Replacing a connection entry in place leaves every lookup where it was.
proof fn lemma_cfind_update_any(s: Seq<(u32, Connection)>, i: int, x: (u32, Connection), id: u32)
    requires
        0 <= i < s.len(),
        x.0 == s[i].0,
    ensures
        cfind(s.update(i, x), id) == cfind(s, id),
    decreases s.len(),
{
    if s.len() > 0 {
        if i == 0 {
            assert(s.update(i, x).drop_first() =~= s.drop_first());
        } else if s[0].0 != id {
            assert(s.update(i, x).drop_first() =~= s.drop_first().update(i - 1, x));
            lemma_cfind_update_any(s.drop_first(), i - 1, x, id);
        }
    }
}

proof fn lemma_cfind_push(s: Seq<(u32, Connection)>, x: (u32, Connection), id: u32)
    ensures
        id != x.0 ==> cfind(s.push(x), id) == cfind(s, id),
        id == x.0 && cfind(s, id) == -1 ==> cfind(s.push(x), id) == s.len(),
    decreases s.len(),
{
    if s.len() == 0 {
        assert(s.push(x)[0] == x);
        assert(s.push(x).drop_first() =~= Seq::<(u32, Connection)>::empty());
        if id != x.0 {
            assert(cfind(Seq::<(u32, Connection)>::empty(), id) == -1);
        }
    } else {
        assert(s.push(x)[0] == s[0]);
        assert(s.push(x).drop_first() =~= s.drop_first().push(x));
        lemma_cfind_push(s.drop_first(), x, id);
    }
}

proof fn lemma_kfind<T>(s: Seq<(u64, T)>, k: u64)
    ensures
        kfind(s, k) == -1 ==> (forall|j: int| 0 <= j < s.len() ==> s[j].0 != k),
        kfind(s, k) != -1 ==> 0 <= kfind(s, k) < s.len() && s[kfind(s, k)].0 == k && (forall|
            j: int,
        | 0 <= j < kfind(s, k) ==> s[j].0 != k),
    decreases s.len(),
{
    if s.len() > 0 && s[0].0 != k {
        lemma_kfind(s.drop_first(), k);
        assert forall|j: int| 1 <= j < s.len() implies s[j] == s.drop_first()[j - 1] by {}
    }
}

impl NetworkState {
    /// The id the next connection will get.
    pub closed spec fn spec_next_connection_id(self) -> u32 {
        self.next_connection_id
    }

    /// Whether a stream with this key is known.
    pub closed spec fn spec_has_stream(self, k: u64) -> bool {
        kfind(self.streams@, k) != -1
    }

    /// The stream stored under this key.
    pub closed spec fn spec_stream(self, k: u64) -> Stream {
        self.streams@[kfind(self.streams@, k)].1
    }

    /// Whether a connection with this id is known.
    pub closed spec fn spec_has_connection(self, connection_id: u32) -> bool {
        cfind(self.connections@, connection_id) != -1
    }

    /// What the connection with this id currently is.
    pub closed spec fn spec_connection(self, connection_id: u32) -> ConnectionInner {
        self.connections@[cfind(self.connections@, connection_id)].1.inner
    }

    /// Every stream of this connection the state knows about is marked
    /// reset.
    pub closed spec fn spec_streams_reset(self, connection_id: u32) -> bool {
        forall|j: int|
            0 <= j < self.streams@.len() && self.streams@[j].0 >= spec_stream_key(
                connection_id,
                None,
            ) && self.streams@[j].0 - spec_stream_key(connection_id, None) < 0x200000000 ==> (
            #[trigger] self.streams@[j]).1.reset
    }

    /// Connection ids stay below the allocation counter, so a fresh id is
    /// never in use.
    pub closed spec fn wf(self) -> bool {
        forall|j: int|
            0 <= j < self.connections@.len() ==> (#[trigger] self.connections@[j]).0
                < self.next_connection_id
    }

    /// A fresh, empty state.
    pub fn new() -> (r: NetworkState)
        ensures
            r.spec_next_connection_id() == 0,
            r.wf(),
            forall|k: u64| !(#[trigger] r.spec_has_stream(k)),
    {
        let r = NetworkState { next_connection_id: 0, connections: Vec::new(), streams: Vec::new() };
        proof {
            assert forall|k: u64| !(#[trigger] r.spec_has_stream(k)) by {
                lemma_kfind(r.streams@, k);
            }
        }
        r
    }

    /// Index of the connection with this id.
    fn find_connection(&self, connection_id: u32) -> (r: Option<usize>)
        ensures
            match r {
                Some(i) => i == cfind(self.connections@, connection_id) && i
                    < self.connections@.len() && self.connections@[i as int].0 == connection_id
                    && self.spec_has_connection(connection_id),
                None => !self.spec_has_connection(connection_id),
            },
    {
        proof {
            lemma_cfind(self.connections@, connection_id);
        }
        let mut i: usize = 0;
        while i < self.connections.len()
            invariant
                i <= self.connections@.len(),
                forall|j: int| 0 <= j < i ==> self.connections@[j].0 != connection_id,
            decreases self.connections@.len() - i,
        {
            if self.connections[i].0 == connection_id {
                proof {
                    lemma_cfind(self.connections@, connection_id);
                }
                return Some(i);
            }
            i = i + 1;
        }
        None
    }

    /// Index of the stream with this key.
    fn find_stream(&self, k: u64) -> (r: Option<usize>)
        ensures
            match r {
                Some(i) => i == kfind(self.streams@, k) && i < self.streams@.len()
                    && self.streams@[i as int].0 == k && self.spec_has_stream(k),
                None => !self.spec_has_stream(k),
            },
    {
        proof {
            lemma_kfind(self.streams@, k);
        }
        let mut i: usize = 0;
        while i < self.streams.len()
            invariant
                i <= self.streams@.len(),
                forall|j: int| 0 <= j < i ==> self.streams@[j].0 != k,
            decreases self.streams@.len() - i,
        {
            if self.streams[i].0 == k {
                proof {
                    lemma_kfind(self.streams@, k);
                }
                return Some(i);
            }
            i = i + 1;
        }
        None
    }

    /// Allocates a connection id and registers the pending connection.
    pub fn begin_connection(&mut self) -> (r: u32)
        requires
            old(self).wf(),
            old(self).spec_next_connection_id() < 0x80000000,
        ensures
            final(self).wf(),
            r == old(self).spec_next_connection_id(),
            final(self).spec_next_connection_id() == old(self).spec_next_connection_id() + 1,
            !old(self).spec_has_connection(r),
            final(self).spec_has_connection(r),
            final(self).spec_connection(r) is NotOpen,
    {
        let id = self.next_connection_id;
        let ghost pre = self.connections@;
        self.connections.push((id, Connection { inner: ConnectionInner::NotOpen }));
        self.next_connection_id = self.next_connection_id + 1;
        proof {
            lemma_cfind(pre, id);
            if cfind(pre, id) != -1 {
                assert(pre[cfind(pre, id)].0 == id);
                assert(false);
            }
            lemma_cfind_push(pre, self.connections@.last(), id);
        }
        id
    }

    /// The host reports a single-stream connection as established.
    pub fn connection_open_single_stream(&mut self, connection_id: u32, initial_writable_bytes: u32)
        requires
            connection_id < 0x80000000,
            old(self).spec_has_connection(connection_id),
        ensures
            old(self).wf() ==> final(self).wf(),
            final(self).spec_has_connection(connection_id),
            final(self).spec_connection(connection_id) is SingleStreamMsNoiseYamux,
            final(self).spec_has_stream(spec_stream_key(connection_id, None)),
            !old(self).spec_has_stream(spec_stream_key(connection_id, None)) ==> ({
                let st = final(self).spec_stream(spec_stream_key(connection_id, None));
                !st.reset && st.writable_bytes_extra == initial_writable_bytes
                    && st.messages_queue@ == Seq::<Vec<u8>>::empty()
                    && st.messages_queue_total_size == 0
            }),
    {
        let ghost prec = self.connections@;
        match self.find_connection(connection_id) {
            Some(i) => {
                let c = &mut self.connections[i];
                c.1.inner = ConnectionInner::SingleStreamMsNoiseYamux;
                proof {
                    lemma_cfind_update_any(
                        prec,
                        i as int,
                        self.connections@[i as int],
                        connection_id,
                    );
                    assert forall|j: int|
                        0 <= j < self.connections@.len() implies (
                    #[trigger] self.connections@[j]).0 == prec[j].0 by {}
                    if old(self).wf() {
                        assert forall|j: int|
                            0 <= j < self.connections@.len() implies (
                        #[trigger] self.connections@[j]).0 < self.next_connection_id by {
                            assert(prec[j].0 < old(self).next_connection_id);
                        }
                    }
                }
            },
            None => vstd::pervasive::unreached(),
        }
        let k = stream_key(connection_id, None);
        let present = match self.find_stream(k) {
            Some(_) => true,
            None => false,
        };
        if !present {
            let s = Stream {
                reset: false,
                writable_bytes_extra: initial_writable_bytes as usize,
                messages_queue: Vec::new(),
                messages_queue_total_size: 0,
            };
            let ghost pre = self.streams@;
            self.streams.push((k, s));
            proof {
                lemma_kfind_push(pre, (k, s), k);
                lemma_kfind(pre, k);
            }
        }
    }

    /// The host reports a multi-stream connection as established; the
    /// handshake bytes carry a leading zero and the two certificate hashes.
    pub fn connection_open_multi_stream(&mut self, connection_id: u32, handshake_ty: Vec<u8>)
        requires
            old(self).spec_has_connection(connection_id),
            handshake_ty@.len() == 65,
            handshake_ty@[0] == 0,
        ensures
            old(self).wf() ==> final(self).wf(),
            final(self).spec_has_connection(connection_id),
            final(self).spec_connection(connection_id) matches ConnectionInner::MultiStreamWebRtc {
                opened_substreams_to_pick_up,
                connection_handles_alive,
                local_tls_certificate_sha256,
                remote_tls_certificate_sha256,
            } && {
                &&& opened_substreams_to_pick_up@ == Seq::<(u32, bool, u32)>::empty()
                &&& connection_handles_alive == 0
                &&& local_tls_certificate_sha256@ == handshake_ty@.subrange(1, 33)
                &&& remote_tls_certificate_sha256@ == handshake_ty@.subrange(33, 65)
            },
    {
        let ghost h0 = handshake_ty@;
        let mut rest = handshake_ty;
        let mut local = rest.split_off(1);
        let remote = local.split_off(32);
        proof {
            assert(local@ =~= h0.subrange(1, 33));
            assert(remote@ =~= h0.subrange(33, 65));
        }
        let ghost prec = self.connections@;
        match self.find_connection(connection_id) {
            Some(i) => {
                let c = &mut self.connections[i];
                c.1.inner = ConnectionInner::MultiStreamWebRtc {
                    opened_substreams_to_pick_up: Vec::new(),
                    connection_handles_alive: 0,
                    local_tls_certificate_sha256: local,
                    remote_tls_certificate_sha256: remote,
                };
                proof {
                    lemma_cfind_update_any(
                        prec,
                        i as int,
                        self.connections@[i as int],
                        connection_id,
                    );
                    assert forall|j: int|
                        0 <= j < self.connections@.len() implies (
                    #[trigger] self.connections@[j]).0 == prec[j].0 by {}
                    if old(self).wf() {
                        assert forall|j: int|
                            0 <= j < self.connections@.len() implies (
                        #[trigger] self.connections@[j]).0 < self.next_connection_id by {
                            assert(prec[j].0 < old(self).next_connection_id);
                        }
                    }
                    assert(self.connections@[i as int].1.inner matches
                        ConnectionInner::MultiStreamWebRtc { opened_substreams_to_pick_up, .. }
                        ==> opened_substreams_to_pick_up@ =~= Seq::<(u32, bool, u32)>::empty());
                }
            },
            None => vstd::pervasive::unreached(),
        }
    }

    /// The host reports that a stream can absorb more bytes.
    pub fn stream_writable_bytes(&mut self, connection_id: u32, stream_id: Option<u32>, bytes: u32)
        requires
            connection_id < 0x80000000,
            old(self).spec_has_stream(spec_stream_key(connection_id, stream_id)),
            old(self).spec_stream(
                spec_stream_key(connection_id, stream_id),
            ).writable_bytes_extra + bytes <= usize::MAX,
        ensures
            final(self).spec_has_stream(spec_stream_key(connection_id, stream_id)),
            final(self).spec_stream(spec_stream_key(connection_id, stream_id)).writable_bytes_extra
                == old(self).spec_stream(
                spec_stream_key(connection_id, stream_id),
            ).writable_bytes_extra + bytes,
            final(self).spec_stream(spec_stream_key(connection_id, stream_id)).messages_queue
                == old(self).spec_stream(spec_stream_key(connection_id, stream_id)).messages_queue,
            final(self).spec_stream(spec_stream_key(connection_id, stream_id)).reset == old(
                self,
            ).spec_stream(spec_stream_key(connection_id, stream_id)).reset,
            forall|k2: u64|
                #[trigger] final(self).spec_has_stream(k2) == old(self).spec_has_stream(k2) && (
                k2 != spec_stream_key(connection_id, stream_id) && old(self).spec_has_stream(k2)
                    ==> final(self).spec_stream(k2) == old(self).spec_stream(k2)),
    {
        let k = stream_key(connection_id, stream_id);
        let i = match self.find_stream(k) {
            Some(i) => i,
            None => vstd::pervasive::unreached(),
        };
        let ghost pre = self.streams@;
        let s = &mut self.streams[i];
        s.1.writable_bytes_extra = s.1.writable_bytes_extra + bytes as usize;
        proof {
            lemma_kfind_update(pre, i as int, self.streams@[i as int], k);
            assert forall|k2: u64|
                #[trigger] final(self).spec_has_stream(k2) == old(self).spec_has_stream(k2) && (
                k2 != k && old(self).spec_has_stream(k2) ==> final(self).spec_stream(k2) == old(
                    self,
                ).spec_stream(k2)) by {
                lemma_kfind_update_any(pre, i as int, self.streams@[i as int], k2);
                lemma_kfind(pre, k2);
                if kfind(pre, k2) != -1 && kfind(pre, k2) != i as int {
                    assert(self.streams@[kfind(pre, k2)] == pre[kfind(pre, k2)]);
                }
            }
        }
    }

    /// The host delivers a message received on a stream. Empty messages are
    /// ignored, and a stream that already buffers too much drops the
    /// message rather than grow without bound.
    pub fn stream_message(&mut self, connection_id: u32, stream_id: Option<u32>, message: Vec<u8>)
        requires
            connection_id < 0x80000000,
            old(self).spec_has_stream(spec_stream_key(connection_id, stream_id)),
            old(self).spec_stream(
                spec_stream_key(connection_id, stream_id),
            ).messages_queue_total_size + message@.len() <= usize::MAX,
        ensures
            final(self).spec_has_stream(spec_stream_key(connection_id, stream_id)),
            ({
                let k = spec_stream_key(connection_id, stream_id);
                let pre = old(self).spec_stream(k);
                let post = final(self).spec_stream(k);
                if message@.len() > 0 && pre.messages_queue_total_size
                    < MAX_BUFFERED_PER_STREAM {
                    &&& post.messages_queue@ == pre.messages_queue@.push(message)
                    &&& post.messages_queue_total_size == pre.messages_queue_total_size
                        + message@.len()
                } else {
                    &&& post.messages_queue == pre.messages_queue
                    &&& post.messages_queue_total_size == pre.messages_queue_total_size
                }
            }),
    {
        let k = stream_key(connection_id, stream_id);
        let i = match self.find_stream(k) {
            Some(i) => i,
            None => vstd::pervasive::unreached(),
        };
        if message.len() == 0 {
            return ;
        }
        let over = self.streams[i].1.messages_queue_total_size >= MAX_BUFFERED_PER_STREAM;
        if over {
            return ;
        }
        let ghost pre = self.streams@;
        let s = &mut self.streams[i];
        s.1.messages_queue_total_size = s.1.messages_queue_total_size + message.len();
        s.1.messages_queue.push(message);
        proof {
            lemma_kfind_update(pre, i as int, self.streams@[i as int], k);
        }
    }


    /// Picks up the next substream the host reported open on a multi-stream
    /// connection, counting the handle that now refers to the connection:
    /// the decision a task waiting for substreams makes when it wakes up.
    /// `None` either because nothing waits yet or because the connection
    /// was reset; on a reset connection nothing will ever wait again.
    pub fn next_substream_pick_up(&mut self, connection_id: u32) -> (r: Option<(u32, bool, u32)>)
        requires
            old(self).spec_has_connection(connection_id),
            old(self).spec_connection(connection_id) is MultiStreamWebRtc || old(
                self,
            ).spec_connection(connection_id) is Reset,
        ensures
            old(self).wf() ==> final(self).wf(),
            final(self).spec_has_connection(connection_id),
            old(self).spec_connection(connection_id) is Reset ==> (r is None
                && final(self).spec_connection(connection_id) == old(self).spec_connection(
                connection_id)),
            old(self).spec_connection(connection_id) matches ConnectionInner::MultiStreamWebRtc {
                opened_substreams_to_pick_up: q1,
                connection_handles_alive: h1,
                ..
            } ==> h1 < u32::MAX ==> (match r {
                Some(entry) => {
                    &&& q1@.len() > 0
                    &&& entry == q1@[0]
                    &&& (final(self).spec_connection(connection_id) matches
                        ConnectionInner::MultiStreamWebRtc {
                        opened_substreams_to_pick_up: q2,
                        connection_handles_alive: h2,
                        ..
                    } && (q2@ == q1@.drop_first() && h2 == h1 + 1))
                },
                None => q1@.len() == 0 && final(self).spec_connection(connection_id) == old(
                    self,
                ).spec_connection(connection_id),
            }),
    {
        let ghost prec = self.connections@;
        let i = match self.find_connection(connection_id) {
            Some(i) => i,
            None => vstd::pervasive::unreached(),
        };
        let c = &mut self.connections[i];
        match &mut c.1.inner {
            ConnectionInner::Reset { .. } => {
                proof {
                    assert(self.connections@ =~= prec);
                }
                None
            },
            ConnectionInner::MultiStreamWebRtc {
                opened_substreams_to_pick_up,
                connection_handles_alive,
                local_tls_certificate_sha256,
                remote_tls_certificate_sha256,
            } => {
                if opened_substreams_to_pick_up.len() == 0 {
                    proof {
                        assert(self.connections@ =~= prec);
                    }
                    None
                } else if *connection_handles_alive < u32::MAX {
                    let entry = opened_substreams_to_pick_up.remove(0);
                    *connection_handles_alive = *connection_handles_alive + 1;
                    proof {
                        lemma_cfind_update_any(
                            prec,
                            i as int,
                            self.connections@[i as int],
                            connection_id,
                        );
                        assert forall|j: int|
                            0 <= j < self.connections@.len() implies (
                        #[trigger] self.connections@[j]).0 == prec[j].0 by {}
                        if old(self).wf() {
                            assert forall|j: int|
                                0 <= j < self.connections@.len() implies (
                            #[trigger] self.connections@[j]).0 < self.next_connection_id by {
                                assert(prec[j].0 < old(self).next_connection_id);
                            }
                        }
                        assert(old(self).spec_connection(connection_id) matches
                            ConnectionInner::MultiStreamWebRtc {
                            opened_substreams_to_pick_up: q1,
                            ..
                        } ==> self.connections@[i as int].1.inner matches
                            ConnectionInner::MultiStreamWebRtc {
                            opened_substreams_to_pick_up: q2,
                            ..
                        } ==> q2@ =~= q1@.drop_first());
                    }
                    Some(entry)
                } else {
                    proof {
                        assert(self.connections@ =~= prec);
                    }
                    None
                }
            },
            _ => vstd::pervasive::unreached(),
        }
    }

    /// The host reports a whole connection as reset: every stream of it is
    /// marked reset.
    pub fn connection_reset(&mut self, connection_id: u32, message: String)
        requires
            connection_id < 0x80000000,
            old(self).spec_has_connection(connection_id),
            !(old(self).spec_connection(connection_id) is Reset),
        ensures
            old(self).wf() ==> final(self).wf(),
            final(self).spec_has_connection(connection_id),
            final(self).spec_connection(connection_id) matches ConnectionInner::Reset {
                message: m,
                connection_handles_alive,
            } && {
                &&& m == message
                &&& connection_handles_alive == (match old(self).spec_connection(connection_id) {
                    ConnectionInner::NotOpen => 0u32,
                    ConnectionInner::SingleStreamMsNoiseYamux => 1u32,
                    ConnectionInner::MultiStreamWebRtc { connection_handles_alive: h, .. } => h,
                    ConnectionInner::Reset { connection_handles_alive: h, .. } => h,
                })
            },
            final(self).spec_streams_reset(connection_id),
    {
        let ghost prec = self.connections@;
        match self.find_connection(connection_id) {
            Some(i) => {
                let alive: u32 = match &self.connections[i].1.inner {
                    ConnectionInner::NotOpen => 0,
                    ConnectionInner::SingleStreamMsNoiseYamux => 1,
                    ConnectionInner::MultiStreamWebRtc { connection_handles_alive, .. } => {
                        *connection_handles_alive
                    },
                    ConnectionInner::Reset { connection_handles_alive, .. } => {
                        *connection_handles_alive
                    },
                };
                let c = &mut self.connections[i];
                c.1.inner = ConnectionInner::Reset {
                    message,
                    connection_handles_alive: alive,
                };
                proof {
                    lemma_cfind_update_any(
                        prec,
                        i as int,
                        self.connections@[i as int],
                        connection_id,
                    );
                    assert forall|j: int|
                        0 <= j < self.connections@.len() implies (
                    #[trigger] self.connections@[j]).0 == prec[j].0 by {}
                    if old(self).wf() {
                        assert forall|j: int|
                            0 <= j < self.connections@.len() implies (
                        #[trigger] self.connections@[j]).0 < self.next_connection_id by {
                            assert(prec[j].0 < old(self).next_connection_id);
                        }
                    }
                }
            },
            None => vstd::pervasive::unreached(),
        }
        let lo = stream_key(connection_id, None);
        let ghost st0 = self.streams@;
        let ghost conn_after = self.connections@;
        let ghost next_after = self.next_connection_id;
        let mut j: usize = 0;
        while j < self.streams.len()
            invariant
                self.connections@ == conn_after,
                self.next_connection_id == next_after,
                lo == spec_stream_key(connection_id, None),
                j <= self.streams@.len(),
                self.streams@.len() == st0.len(),
                forall|t: int| 0 <= t < st0.len() ==> (#[trigger] self.streams@[t]).0 == st0[t].0,
                forall|t: int|
                    0 <= t < j && self.streams@[t].0 >= spec_stream_key(connection_id, None)
                        && self.streams@[t].0 - spec_stream_key(connection_id, None)
                        < 0x200000000 ==> (#[trigger] self.streams@[t]).1.reset,
            decreases self.streams@.len() - j,
        {
            let key = self.streams[j].0;
            let in_range = key >= lo && key - lo < 0x200000000;
            if in_range {
                let s = &mut self.streams[j];
                s.1.reset = true;
            }
            j = j + 1;
        }
    }

    /// The host reports one stream of a multi-stream connection as reset.
    pub fn stream_reset(&mut self, connection_id: u32, stream_id: u32)
        requires
            connection_id < 0x80000000,
            old(self).spec_has_stream(spec_stream_key(connection_id, Some(stream_id))),
        ensures
            final(self).spec_has_stream(spec_stream_key(connection_id, Some(stream_id))),
            final(self).spec_stream(spec_stream_key(connection_id, Some(stream_id))).reset,
            ({
                let k = spec_stream_key(connection_id, Some(stream_id));
                let pre = old(self).spec_stream(k);
                let post = final(self).spec_stream(k);
                post.messages_queue == pre.messages_queue && post.writable_bytes_extra
                    == pre.writable_bytes_extra
            }),
            forall|k2: u64|
                #[trigger] final(self).spec_has_stream(k2) == old(self).spec_has_stream(k2) && (
                k2 != spec_stream_key(connection_id, Some(stream_id)) && old(
                    self,
                ).spec_has_stream(k2) ==> final(self).spec_stream(k2) == old(self).spec_stream(
                    k2,
                )),
    {
        let k = stream_key(connection_id, Some(stream_id));
        let i = match self.find_stream(k) {
            Some(i) => i,
            None => vstd::pervasive::unreached(),
        };
        let ghost pre = self.streams@;
        let s = &mut self.streams[i];
        s.1.reset = true;
        proof {
            lemma_kfind_update(pre, i as int, self.streams@[i as int], k);
            assert forall|k2: u64|
                #[trigger] final(self).spec_has_stream(k2) == old(self).spec_has_stream(k2) && (
                k2 != k && old(self).spec_has_stream(k2) ==> final(self).spec_stream(k2) == old(
                    self,
                ).spec_stream(k2)) by {
                lemma_kfind_update_any(pre, i as int, self.streams@[i as int], k2);
                lemma_kfind(pre, k2);
                if kfind(pre, k2) != -1 && kfind(pre, k2) != i as int {
                    assert(self.streams@[kfind(pre, k2)] == pre[kfind(pre, k2)]);
                }
            }
        }
    }

    /// Picks up everything that arrived on a stream since the last call:
    /// the queued messages, the extra writable bytes, and whether the
    /// stream was reset. This is the decision a task waiting on the stream
    /// makes when it wakes up; it returns to waiting when all three come
    /// back empty.
    pub fn stream_update(&mut self, connection_id: u32, stream_id: Option<u32>) -> (r: (
        Vec<Vec<u8>>,
        usize,
        bool,
    ))
        requires
            connection_id < 0x80000000,
            old(self).spec_has_stream(spec_stream_key(connection_id, stream_id)),
        ensures
            final(self).spec_has_stream(spec_stream_key(connection_id, stream_id)),
            ({
                let k = spec_stream_key(connection_id, stream_id);
                let pre = old(self).spec_stream(k);
                let post = final(self).spec_stream(k);
                &&& r.0 == pre.messages_queue
                &&& r.1 == pre.writable_bytes_extra
                &&& r.2 == pre.reset
                &&& post.messages_queue@.len() == 0
                &&& post.messages_queue_total_size == 0
                &&& post.writable_bytes_extra == 0
                &&& post.reset == pre.reset
            }),
    {
        let k = stream_key(connection_id, stream_id);
        let i = match self.find_stream(k) {
            Some(i) => i,
            None => vstd::pervasive::unreached(),
        };
        let ghost pre = self.streams@;
        let s = &mut self.streams[i];
        let mut messages: Vec<Vec<u8>> = Vec::new();
        core::mem::swap(&mut s.1.messages_queue, &mut messages);
        let writable = s.1.writable_bytes_extra;
        s.1.writable_bytes_extra = 0;
        s.1.messages_queue_total_size = 0;
        let was_reset = s.1.reset;
        proof {
            lemma_kfind_update(pre, i as int, self.streams@[i as int], k);
        }
        (messages, writable, was_reset)
    }

    /// The host reports a substream opened on a multi-stream connection.
    pub fn connection_stream_opened(
        &mut self,
        connection_id: u32,
        stream_id: u32,
        outbound: bool,
        initial_writable_bytes: u32,
    )
        requires
            connection_id < 0x80000000,
            old(self).spec_has_connection(connection_id),
            old(self).spec_connection(connection_id) is MultiStreamWebRtc,
            !old(self).spec_has_stream(spec_stream_key(connection_id, Some(stream_id))),
        ensures
            old(self).wf() ==> final(self).wf(),
            final(self).spec_has_stream(spec_stream_key(connection_id, Some(stream_id))),
            ({
                let st = final(self).spec_stream(spec_stream_key(connection_id, Some(stream_id)));
                !st.reset && st.writable_bytes_extra == initial_writable_bytes
                    && st.messages_queue@ == Seq::<Vec<u8>>::empty()
                    && st.messages_queue_total_size == 0
            }),
            final(self).spec_has_connection(connection_id),
            final(self).spec_connection(connection_id) matches ConnectionInner::MultiStreamWebRtc {
                opened_substreams_to_pick_up: q2,
                connection_handles_alive: h2,
                local_tls_certificate_sha256: l2,
                remote_tls_certificate_sha256: r2,
            } && (old(self).spec_connection(connection_id) matches
                ConnectionInner::MultiStreamWebRtc {
                opened_substreams_to_pick_up: q1,
                connection_handles_alive: h1,
                local_tls_certificate_sha256: l1,
                remote_tls_certificate_sha256: r1,
            } && {
                &&& q2@ == q1@.push((stream_id, outbound, initial_writable_bytes))
                &&& h2 == h1
                &&& l1 == l2
                &&& r1 == r2
            }),
    {
        let k = stream_key(connection_id, Some(stream_id));
        let s = Stream {
            reset: false,
            writable_bytes_extra: initial_writable_bytes as usize,
            messages_queue: Vec::new(),
            messages_queue_total_size: 0,
        };
        let ghost pre = self.streams@;
        self.streams.push((k, s));
        proof {
            lemma_kfind_push(pre, (k, s), k);
            lemma_kfind(pre, k);
        }
        let ghost prec = self.connections@;
        match self.find_connection(connection_id) {
            Some(i) => {
                let c = &mut self.connections[i];
                match &mut c.1.inner {
                    ConnectionInner::MultiStreamWebRtc {
                        opened_substreams_to_pick_up,
                        connection_handles_alive,
                        local_tls_certificate_sha256,
                        remote_tls_certificate_sha256,
                    } => {
                        opened_substreams_to_pick_up.push(
                            (stream_id, outbound, initial_writable_bytes),
                        );
                    },
                    _ => vstd::pervasive::unreached(),
                }
                proof {
                    lemma_cfind_update_any(
                        prec,
                        i as int,
                        self.connections@[i as int],
                        connection_id,
                    );
                    assert forall|j: int|
                        0 <= j < self.connections@.len() implies (
                    #[trigger] self.connections@[j]).0 == prec[j].0 by {}
                    if old(self).wf() {
                        assert forall|j: int|
                            0 <= j < self.connections@.len() implies (
                        #[trigger] self.connections@[j]).0 < self.next_connection_id by {
                            assert(prec[j].0 < old(self).next_connection_id);
                        }
                    }
                }
            },
            None => vstd::pervasive::unreached(),
        }
    }
}

/// One key for a (connection, optional stream) pair.
pub fn stream_key(connection_id: u32, stream_id: Option<u32>) -> (r: u64)
    requires
        connection_id < 0x80000000,
    ensures
        r == spec_stream_key(connection_id, stream_id),
{
    (connection_id as u64) * 0x200000000 + (match stream_id {
        Some(s) => 0x100000000u64 + s as u64,
        None => 0u64,
    })
}

proof fn lemma_kfind_push<T>(s: Seq<(u64, T)>, x: (u64, T), k: u64)
    ensures
        k != x.0 ==> kfind(s.push(x), k) == kfind(s, k),
        k == x.0 && kfind(s, k) == -1 ==> kfind(s.push(x), k) == s.len(),
    decreases s.len(),
{
    if s.len() == 0 {
        assert(s.push(x)[0] == x);
        assert(s.push(x).drop_first() =~= Seq::<(u64, T)>::empty());
        if k != x.0 {
            assert(kfind(Seq::<(u64, T)>::empty(), k) == -1);
        }
    } else {
        assert(s.push(x)[0] == s[0]);
        assert(s.push(x).drop_first() =~= s.drop_first().push(x));
        lemma_kfind_push(s.drop_first(), x, k);
    }
}

/// Replacing an entry in place leaves every lookup where it was.
proof fn lemma_kfind_update_any<T>(s: Seq<(u64, T)>, i: int, x: (u64, T), k: u64)
    requires
        0 <= i < s.len(),
        x.0 == s[i].0,
    ensures
        kfind(s.update(i, x), k) == kfind(s, k),
    decreases s.len(),
{
    if s.len() > 0 {
        if i == 0 {
            assert(s.update(i, x).drop_first() =~= s.drop_first());
        } else if s[0].0 != k {
            assert(s.update(i, x).drop_first() =~= s.drop_first().update(i - 1, x));
            lemma_kfind_update_any(s.drop_first(), i - 1, x, k);
        }
    }
}

proof fn lemma_kfind_update<T>(s: Seq<(u64, T)>, i: int, x: (u64, T), k: u64)
    requires
        0 <= i < s.len(),
        x.0 == s[i].0,
        i == kfind(s, k),
        s[i].0 == k,
    ensures
        kfind(s.update(i, x), k) == i,
    decreases s.len(),
{
    if i == 0 {
    } else {
        assert(s.update(i, x).drop_first() =~= s.drop_first().update(i - 1, x));
        assert(kfind(s.drop_first(), k) == i - 1);
        lemma_kfind_update(s.drop_first(), i - 1, x, k);
    }
}


/// The kinds of connection a host can be asked for.
pub enum ConnectionType {
    TcpIpv4,
    TcpIpv6,
    TcpDns,
    WebSocketIpv4 { remote_is_localhost: bool },
    WebSocketIpv6 { remote_is_localhost: bool },
    WebSocketDns { secure: bool, remote_is_localhost: bool },
    WebRtcIpv4,
    WebRtcIpv6,
}

/// The code under which a connection type is put to the host when asking
/// whether it is supported: plain TCP is 0/1/2 by address kind, WebSocket
/// 4/5/6 with 14 for secure, 7 for any non-secure WebSocket to localhost,
/// and WebRTC 16/17.
pub open spec fn spec_connection_type_code(ty: ConnectionType) -> u8 {
    match ty {
        ConnectionType::TcpIpv4 => 0,
        ConnectionType::TcpIpv6 => 1,
        ConnectionType::TcpDns => 2,
        ConnectionType::WebSocketIpv4 { remote_is_localhost } => if remote_is_localhost {
            7
        } else {
            4
        },
        ConnectionType::WebSocketIpv6 { remote_is_localhost } => if remote_is_localhost {
            7
        } else {
            5
        },
        ConnectionType::WebSocketDns { secure, remote_is_localhost } => if secure {
            14
        } else if remote_is_localhost {
            7
        } else {
            6
        },
        ConnectionType::WebRtcIpv4 => 16,
        ConnectionType::WebRtcIpv6 => 17,
    }
}

/// See [`spec_connection_type_code`]; the host answers the support question
/// for this code.
pub fn connection_type_code(ty: &ConnectionType) -> (r: u8)
    ensures
        r == spec_connection_type_code(*ty),
{
    match ty {
        ConnectionType::TcpIpv4 => 0,
        ConnectionType::TcpIpv6 => 1,
        ConnectionType::TcpDns => 2,
        ConnectionType::WebSocketIpv4 { remote_is_localhost } => {
            if *remote_is_localhost {
                7
            } else {
                4
            }
        },
        ConnectionType::WebSocketIpv6 { remote_is_localhost } => {
            if *remote_is_localhost {
                7
            } else {
                5
            }
        },
        ConnectionType::WebSocketDns { secure, remote_is_localhost } => {
            if *secure {
                14
            } else if *remote_is_localhost {
                7
            } else {
                6
            }
        },
        ConnectionType::WebRtcIpv4 => 16,
        ConnectionType::WebRtcIpv6 => 17,
    }
}

/// The wire encoding of an address handed to the host: a tag byte, the
/// port in big-endian, then the host name or the IP address in text form.
pub fn encode_address(address: &Address) -> (r: Vec<u8>)
    ensures
        r@ == (match address@ {
            crate::multiaddr::AddressModel::TcpIp { ip, port } => seq![
                if ip is V4 {
                    0u8
                } else {
                    1u8
                },
            ] + crate::bytesutil::be16(port) + ip_text_of(ip),
            crate::multiaddr::AddressModel::TcpDns { hostname, port } => seq![2u8]
                + crate::bytesutil::be16(port) + hostname,
            crate::multiaddr::AddressModel::WebSocketIp { ip, port } => seq![
                if ip is V4 {
                    4u8
                } else {
                    5u8
                },
            ] + crate::bytesutil::be16(port) + ip_text_of(ip),
            crate::multiaddr::AddressModel::WebSocketDns { hostname, port, secure } => seq![
                if secure {
                    14u8
                } else {
                    6u8
                },
            ] + crate::bytesutil::be16(port) + hostname,
        }),
{
    let mut out: Vec<u8> = Vec::new();
    match address {
        Address::TcpIp { ip, port } => {
            match ip {
                IpAddr::V4(_) => out.push(0),
                IpAddr::V6(_) => out.push(1),
            }
            push_be16(&mut out, *port);
            let mut t = ip_text(ip);
            out.append(&mut t);
        },
        Address::TcpDns { hostname, port } => {
            out.push(2);
            push_be16(&mut out, *port);
            let mut t = hostname.as_str().as_bytes_vec();
            out.append(&mut t);
        },
        Address::WebSocketIp { ip, port } => {
            match ip {
                IpAddr::V4(_) => out.push(4),
                IpAddr::V6(_) => out.push(5),
            }
            push_be16(&mut out, *port);
            let mut t = ip_text(ip);
            out.append(&mut t);
        },
        Address::WebSocketDns { hostname, port, secure } => {
            if *secure {
                out.push(14);
            } else {
                out.push(6);
            }
            push_be16(&mut out, *port);
            let mut t = hostname.as_str().as_bytes_vec();
            out.append(&mut t);
        },
    }
    out
}

/// The wire encoding of a multi-stream address handed to the host: a tag
/// byte, the port, the remote certificate hash, then the IP in text form.
pub fn encode_multistream_address(address: &MultiStreamAddress) -> (r: Vec<u8>)
    ensures
        r@ == (match address@ {
            crate::multiaddr::MultiStreamAddressModel::WebRtc {
                ip,
                port,
                remote_certificate_sha256,
            } => seq![
                if ip is V4 {
                    16u8
                } else {
                    17u8
                },
            ] + crate::bytesutil::be16(port) + remote_certificate_sha256 + ip_text_of(ip),
        }),
{
    let mut out: Vec<u8> = Vec::new();
    match address {
        MultiStreamAddress::WebRtc { ip, port, remote_certificate_sha256 } => {
            let v4 = match ip {
                IpAddr::V4(_) => true,
                IpAddr::V6(_) => false,
            };
            if v4 {
                out.push(16);
            } else {
                out.push(17);
            }
            push_be16(&mut out, *port);
            let mut h = crate::bytesutil::copy_bytes(remote_certificate_sha256);
            out.append(&mut h);
            let mut t = ip_text(ip);
            out.append(&mut t);
        },
    }
    out
}

/// The text form of an IP address, as UTF-8 bytes.
pub uninterp spec fn ip_text_of(ip: crate::multiaddr::IpAddrModel) -> Seq<u8>;

/// Relies on `no_std_net::Ipv4Addr` and `no_std_net::Ipv6Addr` and their
/// `Display` implementations: the text form depends on the address alone.
#[verifier::external_body]
fn ip_text(ip: &IpAddr) -> (r: Vec<u8>)
    ensures
        r@ == ip_text_of(ip@),
{
    match ip {
        IpAddr::V4(b) => no_std_net::Ipv4Addr::new(b[0], b[1], b[2], b[3])
            .to_string()
            .into_bytes(),
        IpAddr::V6(g) => no_std_net::Ipv6Addr::new(
            g[0], g[1], g[2], g[3], g[4], g[5], g[6], g[7],
        )
            .to_string()
            .into_bytes(),
    }
}

} // verus!
