//! The connection driver: stitches the cipher layer, the multiplexer and the
//! per-substream machines together behind one non-blocking `read_write`
//! entry point, schedules outgoing pings, and surfaces at most one event per
//! invocation.

use vstd::prelude::*;
use crate::noise;
use crate::noise::Noise;
use crate::rng::chacha20_fill;
use crate::rw::ReadWrite;
use crate::substream;
use crate::substream::InboundTy;
use crate::substream::RespondInRequestError;
use crate::substream::Substream;
use crate::yamux;
use crate::yamux::Yamux;

verus! {

/// Identifier of a substream within its connection kind.
#[derive(Clone, Copy, PartialEq, Eq, Structural, Debug, Hash)]
pub enum SubstreamIdInner {
    /// Substream of a single-stream connection.
    SingleStream(u32),
}

/// Opaque identifier of a substream, stable for its lifetime and never
/// reused on the same connection.
#[derive(Clone, Copy, PartialEq, Eq, Structural, Debug, Hash)]
pub struct SubstreamId(pub SubstreamIdInner);

/// Fatal error: the connection must be shut down.
#[derive(Debug)]
pub enum Error {
    /// The cipher layer rejected incoming data; it was most likely
    /// corrupted.
    Noise(noise::CipherError),
    /// The cipher layer can no longer encrypt outgoing data.
    NoiseEncrypt(noise::EncryptError),
    /// The multiplexing protocol was violated.
    Yamux(yamux::Error),
}

/// Configuration of a connection.
pub struct Config {
    /// Seed used for the ping payloads.
    pub randomness_seed: [u8; 32],
    /// Hint for how many substreams to provision for.
    pub substreams_capacity: usize,
    /// When to fire the first outgoing ping.
    pub first_out_ping: u64,
    /// Name of the ping protocol.
    pub ping_protocol: String,
    /// Interval between two outgoing pings.
    pub ping_interval: u64,
    /// How long to wait for a ping answer.
    pub ping_timeout: u64,
    /// Most simultaneous remote-opened substreams.
    pub max_inbound_substreams: usize,
    /// Longest accepted protocol name on inbound substreams.
    pub max_protocol_name_len: usize,
}

/// Event produced by [`SingleStream::read_write`]; at most one per call.
pub enum Event<TSubUd> {
    /// The remote announced that it accepts no new substream.
    NewOutboundSubstreamsForbidden,
    /// An inbound substream failed before it was accepted.
    InboundError(substream::InboundError),
    /// An accepted inbound substream failed; its user data comes back.
    InboundAcceptedCancel { id: SubstreamId, user_data: TSubUd },
    /// An inbound substream negotiated this protocol name; accept or reject
    /// it.
    InboundNegotiated { id: SubstreamId, protocol_name: String },
    /// The inbound substream went away before it was accepted or rejected.
    InboundNegotiatedCancel { id: SubstreamId },
    /// A request arrived on an accepted inbound substream.
    RequestIn { id: SubstreamId, request: Vec<u8> },
    /// An outgoing request concluded; its user data comes back.
    Response {
        id: SubstreamId,
        response: Result<Vec<u8>, substream::RequestError>,
        user_data: TSubUd,
    },
    /// An accepted inbound notifications substream delivered its handshake.
    NotificationsInOpen { id: SubstreamId, handshake: Vec<u8> },
    /// The inbound notifications substream went away before the answer.
    NotificationsInOpenCancel { id: SubstreamId },
    /// A notification arrived on an open inbound notifications substream.
    NotificationIn { id: SubstreamId, notification: Vec<u8> },
    /// An inbound notifications substream ended; its user data comes back.
    NotificationsInClose {
        id: SubstreamId,
        outcome: Result<(), substream::NotificationsInClosedErr>,
        user_data: TSubUd,
    },
    /// The outcome of opening an outgoing notifications substream.
    NotificationsOutResult {
        id: SubstreamId,
        result: Result<Vec<u8>, (substream::NotificationsOutErr, TSubUd)>,
    },
    /// The remote asks for the outgoing notifications substream to close.
    NotificationsOutCloseDemanded { id: SubstreamId },
    /// The outgoing notifications substream was reset; user data comes back.
    NotificationsOutReset { id: SubstreamId, user_data: TSubUd },
    /// An outgoing ping was answered correctly.
    PingOutSuccess,
    /// An outgoing ping failed or timed out.
    PingOutFailed,
}

/// One substream slot: the protocol machine, the caller's handle, and the
/// bytes delivered by the multiplexer that the machine has not yet read.
pub struct Slot<TSubUd> {
    pub machine: Substream,
    pub user_data: Option<TSubUd>,
    pub read_buffer: Vec<u8>,
    /// Total bytes ever delivered into `read_buffer`.
    pub received: Ghost<nat>,
    /// Total bytes the machine has consumed from `read_buffer`.
    pub consumed: Ghost<nat>,
    /// Total bytes the machine produced, all handed to the multiplexer.
    pub written: Ghost<nat>,
    /// Whether output had to be dropped because the substream's outgoing
    /// byte counter was exhausted; the substream was reset then.
    pub dropped: Ghost<bool>,
}

/// Whether a slot's user-data handle agrees with its machine: substreams
/// that were never accepted, and the dedicated ping substream, carry none.
pub open spec fn slot_inv<TSubUd>(slot: Slot<TSubUd>) -> bool {
    &&& substream::machine_holds_user_data(slot.machine) ==> slot.user_data is Some
    &&& slot.received@ == slot.consumed@ + slot.read_buffer@.len()
}

/// State machine of a fully-established connection.
pub struct SingleStream<TSubUd> {
    encryption: Noise,
    yamux: Yamux<Option<Slot<TSubUd>>>,
    substream_to_process: Option<u32>,
    outgoing_pings: u32,
    next_ping: u64,
    ping_payload_randomness: rand_chacha::ChaCha20Rng,
    max_inbound_substreams: usize,
    max_protocol_name_len: usize,
    ping_interval: u64,
    ping_timeout: u64,
}

impl<TSubUd> SingleStream<TSubUd> {
    /// Internal consistency of the connection, except that a remote open
    /// request may still be pending.
    pub closed spec fn wf_slots(self) -> bool {
        &&& self.encryption.wf()
        &&& self.yamux.wf()
        &&& forall|id: u32|
            #[trigger] self.yamux.spec_has(id) ==> (match self.yamux.spec_user_data(id) {
                Some(slot) => {
                    &&& slot_inv(slot)
                    &&& (!slot.dropped@ ==> slot.written@ == self.yamux.spec_enqueued(id))
                },
                None => true,
            })
        &&& self.yamux.spec_used().contains(self.outgoing_pings)
        &&& (self.yamux.spec_has(self.outgoing_pings)
            ==> (self.yamux.spec_user_data(self.outgoing_pings) matches Some(slot) && (
            slot.machine is PingOut && slot.user_data is None)))
    }

    /// Internal consistency of the connection.
    pub closed spec fn wf(self) -> bool {
        &&& self.wf_slots()
        &&& self.yamux.spec_pending_incoming() is None
    }

    /// When the next outgoing ping fires.
    pub closed spec fn spec_next_ping(self) -> u64 {
        self.next_ping
    }

    /// The configured ping interval.
    pub closed spec fn spec_ping_interval(self) -> u64 {
        self.ping_interval
    }

    /// The configured ping timeout.
    pub closed spec fn spec_ping_timeout(self) -> u64 {
        self.ping_timeout
    }

    /// Whether a substream with this id is present.
    pub closed spec fn spec_has_substream(self, id: SubstreamId) -> bool {
        match id {
            SubstreamId(SubstreamIdInner::SingleStream(raw)) => self.yamux.spec_has(raw),
        }
    }

    /// The protocol machine of a present, occupied substream slot.
    pub closed spec fn spec_machine(self, id: SubstreamId) -> Option<Substream> {
        match id {
            SubstreamId(SubstreamIdInner::SingleStream(raw)) => {
                if self.yamux.spec_has(raw) {
                    match self.yamux.spec_user_data(raw) {
                        Some(slot) => Some(slot.machine),
                        None => None,
                    }
                } else {
                    None
                }
            },
        }
    }

    /// The caller handle stored in a present, occupied substream slot.
    pub closed spec fn spec_user_data(self, id: SubstreamId) -> Option<TSubUd> {
        match id {
            SubstreamId(SubstreamIdInner::SingleStream(raw)) => {
                if self.yamux.spec_has(raw) {
                    match self.yamux.spec_user_data(raw) {
                        Some(slot) => slot.user_data,
                        None => None,
                    }
                } else {
                    None
                }
            },
        }
    }

    /// Bytes queued for a substream inside the multiplexer.
    pub closed spec fn spec_mux_queued(self, id: SubstreamId) -> nat {
        match id {
            SubstreamId(SubstreamIdInner::SingleStream(raw)) => self.yamux.spec_queued(raw),
        }
    }

    /// The whole slot of a substream, if present and occupied.
    pub closed spec fn spec_slot(self, id: SubstreamId) -> Option<Slot<TSubUd>> {
        match id {
            SubstreamId(SubstreamIdInner::SingleStream(raw)) => {
                if self.yamux.spec_has(raw) {
                    self.yamux.spec_user_data(raw)
                } else {
                    None
                }
            },
        }
    }

    /// Total bytes ever handed to the multiplexer for a substream.
    pub closed spec fn spec_mux_enqueued(self, id: SubstreamId) -> nat {
        match id {
            SubstreamId(SubstreamIdInner::SingleStream(raw)) => self.yamux.spec_enqueued(raw),
        }
    }

    /// Window extension granted to the remote for a substream but not yet
    /// announced.
    pub closed spec fn spec_mux_grant(self, id: SubstreamId) -> u64 {
        match id {
            SubstreamId(SubstreamIdInner::SingleStream(raw)) => self.yamux.spec_grant(raw),
        }
    }

    /// The identifier of the dedicated outgoing-ping substream.
    pub closed spec fn spec_ping_substream(self) -> SubstreamId {
        SubstreamId(SubstreamIdInner::SingleStream(self.outgoing_pings))
    }

    /// Whether the dedicated outgoing-ping substream still exists.
    pub closed spec fn spec_ping_substream_alive(self) -> bool {
        self.yamux.spec_has(self.outgoing_pings)
    }

    /// The seed the ping payloads are drawn from.
    pub closed spec fn spec_ping_seed(self) -> Seq<u8> {
        crate::rng::rng_seed(self.ping_payload_randomness)
    }

    /// How far into its stream the ping-payload generator stands.
    pub closed spec fn spec_ping_rng_pos(self) -> nat {
        crate::rng::rng_word_pos(self.ping_payload_randomness)
    }

    /// The seed of the send keystream.
    pub closed spec fn spec_tx_seed(self) -> Seq<u8> {
        self.encryption.tx_seed()
    }

    /// The position of the send keystream.
    pub closed spec fn spec_tx_pos(self) -> nat {
        self.encryption.spec_tx_pos()
    }

    /// The code of the local go-away announcement, once one was made.
    pub closed spec fn spec_goaway_code(self) -> u32 {
        self.yamux.spec_goaway_code()
    }

    /// The seed of the receive keystream.
    pub closed spec fn spec_rx_seed(self) -> Seq<u8> {
        self.encryption.rx_seed()
    }

    /// The position of the receive keystream.
    pub closed spec fn spec_rx_pos(self) -> nat {
        self.encryption.spec_rx_pos()
    }

    /// How many of the present substreams the remote opened.
    pub closed spec fn spec_num_inbound(self) -> nat {
        self.yamux.spec_num_inbound()
    }

    /// Whether no substream is left in the multiplexer.
    pub closed spec fn spec_mux_is_empty(self) -> bool {
        self.yamux.spec_ids().len() == 0
    }

    /// Whether the local go-away announcement left with the written bytes.
    pub closed spec fn spec_goaway_sent(self) -> bool {
        self.yamux.spec_goaway_sent()
    }

    /// The configured bound on simultaneous remote-opened substreams.
    pub closed spec fn spec_max_inbound_substreams(self) -> usize {
        self.max_inbound_substreams
    }

    /// Whether a go-away was queued or sent already.
    pub closed spec fn spec_goaway_queued_or_sent(self) -> bool {
        self.yamux.spec_goaway_queued_or_sent()
    }

    /// Whether the remote announced that it accepts no new substream.
    pub closed spec fn spec_received_goaway(self) -> bool {
        self.yamux.spec_received_goaway() is Some
    }

    /// Whether a new outgoing substream can still be opened.
    pub closed spec fn spec_can_open(self) -> bool {
        &&& self.yamux.spec_received_goaway() is None
        &&& self.yamux.spec_next_out_id() + 2 <= u32::MAX
    }

    /// Every id that ever identified a substream of this connection.
    pub closed spec fn spec_used_ids(self) -> Set<u32> {
        self.yamux.spec_used()
    }

    /// Announces to the remote that no new inbound substream will be
    /// accepted. Must be called at most once.
    pub fn deny_new_incoming_substreams(&mut self)
        requires
            old(self).wf(),
            !old(self).spec_goaway_queued_or_sent(),
        ensures
            final(self).wf(),
            final(self).spec_goaway_queued_or_sent(),
            final(self).spec_goaway_code() == yamux::GOAWAY_NORMAL_TERMINATION,
            final(self).spec_next_ping() == old(self).spec_next_ping(),
    {
        self.yamux.send_goaway(yamux::GOAWAY_NORMAL_TERMINATION);
        proof {
            assert forall|id: u32| #[trigger] self.yamux.spec_has(id) implies (
            match self.yamux.spec_user_data(id) {
                Some(slot) => {
                    &&& slot_inv(slot)
                    &&& (!slot.dropped@ ==> slot.written@ == self.yamux.spec_enqueued(id))
                },
                None => true,
            }) by {
                assert(old(self).yamux.spec_has(id));
            }
        }
    }

    /// Proof pattern: the slot of `raw` was put back (or left) satisfying
    /// the slot obligations, every other substream kept its slot and its
    /// multiplexer attributes, and the ping-slot conjunct still holds.
    proof fn lemma_wf_slots_transfer(pre: Self, post: Self, raw: u32)
        requires
            pre.wf_slots(),
            post.encryption.wf(),
            post.yamux.wf(),
            Yamux::<Option<Slot<TSubUd>>>::subs_framed(
                pre.yamux,
                post.yamux,
                Set::empty().insert(raw),
            ),
            post.yamux.spec_has(raw) ==> (match post.yamux.spec_user_data(raw) {
                Some(slot) => {
                    &&& slot_inv(slot)
                    &&& (!slot.dropped@ ==> slot.written@ == post.yamux.spec_enqueued(raw))
                },
                None => true,
            }),
            post.outgoing_pings == pre.outgoing_pings,
            post.yamux.spec_used().contains(post.outgoing_pings),
            post.yamux.spec_has(post.outgoing_pings) && post.outgoing_pings == raw ==> (
            post.yamux.spec_user_data(post.outgoing_pings) matches Some(slot) && (slot.machine
                is PingOut && slot.user_data is None)),
        ensures
            post.wf_slots(),
    {
        assert forall|id: u32| #[trigger] post.yamux.spec_has(id) implies (
        match post.yamux.spec_user_data(id) {
            Some(slot) => {
                &&& slot_inv(slot)
                &&& (!slot.dropped@ ==> slot.written@ == post.yamux.spec_enqueued(id))
            },
            None => true,
        }) by {
            if id != raw {
                assert(!Set::empty().insert(raw).contains(id));
                assert(pre.yamux.spec_has(id));
            }
        }
        if post.yamux.spec_has(post.outgoing_pings) && post.outgoing_pings != raw {
            assert(!Set::empty().insert(raw).contains(post.outgoing_pings));
            assert(pre.yamux.spec_has(pre.outgoing_pings));
            assert(post.yamux.spec_user_data(post.outgoing_pings) == pre.yamux.spec_user_data(
                pre.outgoing_pings,
            ));
        }
    }

    /// Sends a request to the remote on a fresh substream, granting the
    /// peer enough window credit to deliver the response. The returned id
    /// was never used on this connection before. Must not be called after
    /// the remote sent its go-away announcement.
    pub fn add_request(
        &mut self,
        protocol_name: String,
        request: Option<Vec<u8>>,
        timeout: u64,
        max_response_size: usize,
        user_data: TSubUd,
    ) -> (r: SubstreamId)
        requires
            old(self).wf(),
            old(self).spec_can_open(),
        ensures
            final(self).wf(),
            r matches SubstreamId(SubstreamIdInner::SingleStream(raw))
                && !old(self).spec_used_ids().contains(raw),
            final(self).spec_has_substream(r),
            final(self).spec_machine(r) matches Some(m) && (m matches Substream::RequestOut {
                protocol,
                request: req,
                timeout: t,
                max_response_size: mx,
                sent,
            } && {
                &&& protocol@ == vstd::utf8::encode_utf8(protocol_name@)
                &&& req == request
                &&& t == timeout
                &&& mx == max_response_size
                &&& sent == false
            }),
            final(self).spec_user_data(r) == Some(user_data),
            final(self).spec_mux_grant(r) == (if max_response_size as nat + 64 <= u64::MAX {
                (max_response_size + 64 - yamux::HEADER_LEN) as u64
            } else {
                (u64::MAX - yamux::HEADER_LEN) as u64
            }),
            final(self).spec_next_ping() == old(self).spec_next_ping(),
            final(self).spec_ping_substream() == old(self).spec_ping_substream(),
    {
        let machine = Substream::request_out(
            protocol_name.as_str().as_bytes_vec(),
            timeout,
            request,
            max_response_size,
        );
        let slot = Slot {
            machine,
            user_data: Some(user_data),
            read_buffer: Vec::new(),
            received: Ghost(0nat),
            consumed: Ghost(0nat),
            written: Ghost(0nat),
            dropped: Ghost(false),
        };
        let ghost pre = *self;
        let raw = self.yamux.open_substream(Some(slot));
        let ghost mid = *self;
        let grant = (max_response_size as u64).saturating_add(64).saturating_sub(
            yamux::HEADER_LEN as u64,
        );
        self.yamux.add_remote_window_saturating(raw, grant);
        proof {
            Yamux::<Option<Slot<TSubUd>>>::lemma_subs_framed_trans(
                pre.yamux,
                mid.yamux,
                self.yamux,
                Set::empty().insert(raw),
            );
            Self::lemma_wf_slots_transfer(pre, *self, raw);
        }
        SubstreamId(SubstreamIdInner::SingleStream(raw))
    }

    /// Opens an outgoing notifications substream. The remote must accept or
    /// reject it before notifications can flow. Must not be called after
    /// the remote sent its go-away announcement.
    pub fn open_notifications_substream(
        &mut self,
        protocol_name: String,
        handshake: Vec<u8>,
        max_handshake_size: usize,
        timeout: u64,
        user_data: TSubUd,
    ) -> (r: SubstreamId)
        requires
            old(self).wf(),
            old(self).spec_can_open(),
        ensures
            final(self).wf(),
            r matches SubstreamId(SubstreamIdInner::SingleStream(raw))
                && !old(self).spec_used_ids().contains(raw),
            final(self).spec_has_substream(r),
            final(self).spec_machine(r) matches Some(m) && (m matches
                Substream::NotificationsOutNegotiating {
                    protocol,
                    handshake: hs,
                    timeout: t,
                    max_handshake_size: mx,
                    sent,
                } && {
                &&& protocol@ == vstd::utf8::encode_utf8(protocol_name@)
                &&& hs@ == handshake@
                &&& t == timeout
                &&& mx == max_handshake_size
                &&& sent == false
            }),
            final(self).spec_user_data(r) == Some(user_data),
            final(self).spec_next_ping() == old(self).spec_next_ping(),
    {
        let machine = Substream::notifications_out(
            timeout,
            protocol_name.as_str().as_bytes_vec(),
            handshake,
            max_handshake_size,
        );
        let slot = Slot {
            machine,
            user_data: Some(user_data),
            read_buffer: Vec::new(),
            received: Ghost(0nat),
            consumed: Ghost(0nat),
            written: Ghost(0nat),
            dropped: Ghost(false),
        };
        let ghost pre = *self;
        let raw = self.yamux.open_substream(Some(slot));
        proof {
            Self::lemma_wf_slots_transfer(pre, *self, raw);
        }
        SubstreamId(SubstreamIdInner::SingleStream(raw))
    }

    /// Takes the slot of a present substream out of the multiplexer.
    fn take_slot(&mut self, raw: u32) -> (r: Slot<TSubUd>)
        requires
            old(self).wf(),
            old(self).yamux.spec_has(raw),
            old(self).yamux.spec_user_data(raw) is Some,
        ensures
            Some(r) == old(self).yamux.spec_user_data(raw),
            final(self).encryption == old(self).encryption,
            final(self).yamux.wf(),
            final(self).yamux.spec_has(raw),
            final(self).yamux.spec_user_data(raw) is None,
            Yamux::<Option<Slot<TSubUd>>>::subs_framed(
                old(self).yamux,
                final(self).yamux,
                Set::empty().insert(raw),
            ),
            Yamux::<Option<Slot<TSubUd>>>::session_framed(old(self).yamux, final(self).yamux),
            final(self).yamux.spec_inbound(raw) == old(self).yamux.spec_inbound(raw),
            final(self).yamux.spec_can_send(raw) == old(self).yamux.spec_can_send(raw),
            final(self).yamux.spec_can_receive(raw) == old(self).yamux.spec_can_receive(raw),
            final(self).yamux.spec_dead(raw) == old(self).yamux.spec_dead(raw),
            final(self).yamux.spec_queued(raw) == old(self).yamux.spec_queued(raw),
            final(self).yamux.spec_enqueued(raw) == old(self).yamux.spec_enqueued(raw),
            final(self).yamux.spec_grant(raw) == old(self).yamux.spec_grant(raw),
            final(self).substream_to_process == old(self).substream_to_process,
            final(self).outgoing_pings == old(self).outgoing_pings,
            final(self).next_ping == old(self).next_ping,
            final(self).ping_payload_randomness == old(self).ping_payload_randomness,
            final(self).max_inbound_substreams == old(self).max_inbound_substreams,
            final(self).max_protocol_name_len == old(self).max_protocol_name_len,
            final(self).ping_interval == old(self).ping_interval,
            final(self).ping_timeout == old(self).ping_timeout,
    {
        let slot_opt = self.yamux.replace_user_data(raw, None);
        match slot_opt {
            Some(slot) => slot,
            None => vstd::pervasive::unreached(),
        }
    }

    /// Puts a slot back into the multiplexer.
    fn put_slot(&mut self, raw: u32, slot: Slot<TSubUd>)
        requires
            old(self).yamux.wf(),
            old(self).yamux.spec_has(raw),
        ensures
            final(self).encryption == old(self).encryption,
            final(self).yamux.wf(),
            final(self).yamux.spec_has(raw),
            final(self).yamux.spec_user_data(raw) == Some(slot),
            Yamux::<Option<Slot<TSubUd>>>::subs_framed(
                old(self).yamux,
                final(self).yamux,
                Set::empty().insert(raw),
            ),
            Yamux::<Option<Slot<TSubUd>>>::session_framed(old(self).yamux, final(self).yamux),
            final(self).yamux.spec_inbound(raw) == old(self).yamux.spec_inbound(raw),
            final(self).yamux.spec_can_send(raw) == old(self).yamux.spec_can_send(raw),
            final(self).yamux.spec_can_receive(raw) == old(self).yamux.spec_can_receive(raw),
            final(self).yamux.spec_dead(raw) == old(self).yamux.spec_dead(raw),
            final(self).yamux.spec_queued(raw) == old(self).yamux.spec_queued(raw),
            final(self).yamux.spec_enqueued(raw) == old(self).yamux.spec_enqueued(raw),
            final(self).yamux.spec_grant(raw) == old(self).yamux.spec_grant(raw),
            final(self).substream_to_process == old(self).substream_to_process,
            final(self).outgoing_pings == old(self).outgoing_pings,
            final(self).next_ping == old(self).next_ping,
            final(self).ping_payload_randomness == old(self).ping_payload_randomness,
            final(self).max_inbound_substreams == old(self).max_inbound_substreams,
            final(self).max_protocol_name_len == old(self).max_protocol_name_len,
            final(self).ping_interval == old(self).ping_interval,
            final(self).ping_timeout == old(self).ping_timeout,
    {
        let discarded = self.yamux.replace_user_data(raw, Some(slot));
    }

    /// Accepts the protocol name negotiated on an inbound substream and
    /// fixes its type.
    pub fn accept_inbound(&mut self, substream_id: SubstreamId, ty: InboundTy, user_data: TSubUd)
        requires
            old(self).wf(),
            old(self).spec_machine(substream_id) matches Some(m) && m is IngoingWait,
        ensures
            final(self).wf(),
            final(self).spec_machine(substream_id) == Some(
                match ty {
                    InboundTy::Request { request_max_size } => Substream::RequestInRecv {
                        request_max_size,
                    },
                    InboundTy::Notifications { max_handshake_size } => {
                        Substream::NotificationsInHandshake { max_handshake_size }
                    },
                    InboundTy::Ping => Substream::PingIn,
                },
            ),
            final(self).spec_user_data(substream_id) == Some(user_data),
            final(self).spec_next_ping() == old(self).spec_next_ping(),
    {
        let SubstreamId(SubstreamIdInner::SingleStream(raw)) = substream_id;
        let ghost pre = *self;
        let mut slot = self.take_slot(raw);
        slot.machine.accept_inbound(ty);
        slot.user_data = Some(user_data);
        let ghost mid = *self;
        self.put_slot(raw, slot);
        proof {
            assert(pre.yamux.spec_has(raw));
            if raw == pre.outgoing_pings {
                assert(false);
            }
            assert(Yamux::<Option<Slot<TSubUd>>>::subs_framed(
                pre.yamux,
                self.yamux,
                Set::empty().insert(raw),
            ));
            Self::lemma_wf_slots_transfer(pre, *self, raw);
        }
    }

    /// Rejects the protocol name negotiated on an inbound substream.
    pub fn reject_inbound(&mut self, substream_id: SubstreamId)
        requires
            old(self).wf(),
            old(self).spec_machine(substream_id) matches Some(m) && m is IngoingWait,
        ensures
            final(self).wf(),
            final(self).spec_machine(substream_id) == Some(Substream::Closing),
            final(self).spec_next_ping() == old(self).spec_next_ping(),
    {
        let SubstreamId(SubstreamIdInner::SingleStream(raw)) = substream_id;
        let ghost pre = *self;
        let mut slot = self.take_slot(raw);
        slot.machine.reject_inbound();
        let ghost mid = *self;
        self.put_slot(raw, slot);
        proof {
            assert(pre.yamux.spec_has(raw));
            if raw == pre.outgoing_pings {
                assert(false);
            }
            assert(Yamux::<Option<Slot<TSubUd>>>::subs_framed(
                pre.yamux,
                self.yamux,
                Set::empty().insert(raw),
            ));
            Self::lemma_wf_slots_transfer(pre, *self, raw);
        }
    }

    /// Accepts an inbound notifications substream, answering its handshake.
    pub fn accept_in_notifications_substream(
        &mut self,
        substream_id: SubstreamId,
        handshake: Vec<u8>,
        max_notification_size: usize,
    )
        requires
            old(self).wf(),
            old(self).spec_machine(substream_id) matches Some(m) && m is NotificationsInWait,
        ensures
            final(self).wf(),
            final(self).spec_machine(substream_id) matches Some(m) && (m matches
                Substream::NotificationsIn { max_notification_size: mx, pending_handshake: p }
                && (mx == max_notification_size && (p matches Some(h) && h@ == handshake@))),
            final(self).spec_next_ping() == old(self).spec_next_ping(),
    {
        let SubstreamId(SubstreamIdInner::SingleStream(raw)) = substream_id;
        let ghost pre = *self;
        let mut slot = self.take_slot(raw);
        slot.machine.accept_in_notifications_substream(handshake, max_notification_size);
        self.put_slot(raw, slot);
        proof {
            assert(pre.yamux.spec_has(raw));
            if raw == pre.outgoing_pings {
                assert(false);
            }
            assert(Yamux::<Option<Slot<TSubUd>>>::subs_framed(
                pre.yamux,
                self.yamux,
                Set::empty().insert(raw),
            ));
            Self::lemma_wf_slots_transfer(pre, *self, raw);
        }
    }

    /// Rejects an inbound notifications substream.
    pub fn reject_in_notifications_substream(&mut self, substream_id: SubstreamId)
        requires
            old(self).wf(),
            old(self).spec_machine(substream_id) matches Some(m) && m is NotificationsInWait,
        ensures
            final(self).wf(),
            final(self).spec_machine(substream_id) == Some(Substream::Closing),
            final(self).spec_next_ping() == old(self).spec_next_ping(),
    {
        let SubstreamId(SubstreamIdInner::SingleStream(raw)) = substream_id;
        let ghost pre = *self;
        let mut slot = self.take_slot(raw);
        slot.machine.reject_in_notifications_substream();
        self.put_slot(raw, slot);
        proof {
            assert(pre.yamux.spec_has(raw));
            if raw == pre.outgoing_pings {
                assert(false);
            }
            assert(Yamux::<Option<Slot<TSubUd>>>::subs_framed(
                pre.yamux,
                self.yamux,
                Set::empty().insert(raw),
            ));
            Self::lemma_wf_slots_transfer(pre, *self, raw);
        }
    }

    /// Queues a notification on an open outgoing notifications substream,
    /// without any limit: callers are expected to watch
    /// [`SingleStream::notification_substream_queued_bytes`].
    pub fn write_notification_unbounded(&mut self, substream_id: SubstreamId, notification: Vec<u8>)
        requires
            old(self).wf(),
            old(self).spec_machine(substream_id) matches Some(m) && m is NotificationsOut
                && m->NotificationsOut_queue@.len() + 4 + notification@.len() <= usize::MAX,
            notification@.len() <= u32::MAX,
        ensures
            final(self).wf(),
            final(self).spec_machine(substream_id) matches Some(m) && (m is NotificationsOut
                && m->NotificationsOut_queue@ == old(self).spec_machine(
                substream_id,
            )->0->NotificationsOut_queue@ + crate::bytesutil::be32(notification@.len() as u32)
                + notification@),
            final(self).spec_next_ping() == old(self).spec_next_ping(),
    {
        let SubstreamId(SubstreamIdInner::SingleStream(raw)) = substream_id;
        let ghost pre = *self;
        let mut slot = self.take_slot(raw);
        slot.machine.write_notification_unbounded(notification);
        self.put_slot(raw, slot);
        proof {
            assert(pre.yamux.spec_has(raw));
            if raw == pre.outgoing_pings {
                assert(false);
            }
            assert(Yamux::<Option<Slot<TSubUd>>>::subs_framed(
                pre.yamux,
                self.yamux,
                Set::empty().insert(raw),
            ));
            Self::lemma_wf_slots_transfer(pre, *self, raw);
        }
    }

    /// Bytes waiting to leave on a notifications substream: what the
    /// machine holds plus what the multiplexer already queued.
    pub fn notification_substream_queued_bytes(&self, substream_id: SubstreamId) -> (r: u64)
        requires
            self.wf(),
            self.spec_machine(substream_id) matches Some(m) && m is NotificationsOut,
        ensures
            ({
                let total = self.spec_mux_queued(substream_id) + self.spec_machine(
                    substream_id,
                )->0->NotificationsOut_queue@.len();
                r == if total <= u64::MAX {
                    total
                } else {
                    u64::MAX as nat
                }
            }),
    {
        let SubstreamId(SubstreamIdInner::SingleStream(raw)) = substream_id;
        let from_yamux = self.yamux.queued_bytes(raw);
        let slot_ref = self.yamux.user_data(raw);
        let from_machine = match slot_ref {
            Some(slot) => slot.machine.notification_substream_queued_bytes(),
            None => vstd::pervasive::unreached(),
        };
        from_yamux.saturating_add(from_machine as u64)
    }

    /// Closes a notifications substream; queued notifications leave first.
    pub fn close_notifications_substream(&mut self, substream_id: SubstreamId)
        requires
            old(self).wf(),
            old(self).spec_machine(substream_id) matches Some(m) && (m is NotificationsOut || m
                is NotificationsIn || m is NotificationsOutNegotiating),
        ensures
            final(self).wf(),
            final(self).spec_machine(substream_id) == Some(
                match old(self).spec_machine(substream_id)->0 {
                    Substream::NotificationsOut { queue, close_demanded, closing } => {
                        Substream::NotificationsOut { queue, close_demanded, closing: true }
                    },
                    _ => Substream::Closing,
                },
            ),
            final(self).spec_next_ping() == old(self).spec_next_ping(),
    {
        let SubstreamId(SubstreamIdInner::SingleStream(raw)) = substream_id;
        let ghost pre = *self;
        let mut slot = self.take_slot(raw);
        slot.machine.close_notifications_substream();
        self.put_slot(raw, slot);
        proof {
            assert(pre.yamux.spec_has(raw));
            if raw == pre.outgoing_pings {
                assert(false);
            }
            assert(Yamux::<Option<Slot<TSubUd>>>::subs_framed(
                pre.yamux,
                self.yamux,
                Set::empty().insert(raw),
            ));
            Self::lemma_wf_slots_transfer(pre, *self, raw);
        }
    }

    /// Answers a request received on an inbound substream. Returns an error
    /// when the substream no longer awaits this response.
    pub fn respond_in_request(
        &mut self,
        substream_id: SubstreamId,
        response: Result<Vec<u8>, ()>,
    ) -> (r: Result<(), RespondInRequestError>)
        requires
            old(self).wf(),
        ensures
            final(self).wf(),
            final(self).spec_next_ping() == old(self).spec_next_ping(),
            r is Ok <==> (old(self).spec_machine(substream_id) matches Some(m) && m
                is RequestInWait),
            r is Ok ==> final(self).spec_machine(substream_id) == Some(
                match response {
                    Ok(bytes) => Substream::RequestInSend { response: bytes },
                    Err(()) => Substream::Closing,
                },
            ),
            r is Ok ==> final(self).spec_user_data(substream_id) == old(self).spec_user_data(
                substream_id,
            ),
    {
        let SubstreamId(SubstreamIdInner::SingleStream(raw)) = substream_id;
        if !self.yamux.has_substream(raw) {
            return Err(RespondInRequestError::SubstreamClosed);
        }
        let is_occupied = match self.yamux.user_data(raw) {
            Some(_) => true,
            None => false,
        };
        if !is_occupied {
            return Err(RespondInRequestError::SubstreamClosed);
        }
        let ghost pre = *self;
        let mut slot = self.take_slot(raw);
        let r = slot.machine.respond_in_request(response);
        self.put_slot(raw, slot);
        proof {
            assert(pre.yamux.spec_has(raw));
            assert(Yamux::<Option<Slot<TSubUd>>>::subs_framed(
                pre.yamux,
                self.yamux,
                Set::empty().insert(raw),
            ));
            Self::lemma_wf_slots_transfer(pre, *self, raw);
        }
        r
    }


    /// What each machine event becomes once the driver tags it with the
    /// substream id and moves the stored user data where the event hands
    /// it back.
    pub open spec fn spec_translate(
        raw: u32,
        user_data: Option<TSubUd>,
        event: substream::Event,
    ) -> Event<TSubUd>
        recommends
            substream::event_moves_user_data(event) ==> user_data is Some,
    {
        let id = SubstreamId(SubstreamIdInner::SingleStream(raw));
        match event {
            substream::Event::InboundError { error, was_accepted } => if was_accepted {
                Event::InboundAcceptedCancel { id, user_data: user_data->0 }
            } else {
                Event::InboundError(error)
            },
            substream::Event::InboundNegotiated(protocol_name) => Event::InboundNegotiated {
                id,
                protocol_name,
            },
            substream::Event::InboundNegotiatedCancel => Event::InboundNegotiatedCancel { id },
            substream::Event::RequestIn { request } => Event::RequestIn { id, request },
            substream::Event::Response { response } => Event::Response {
                id,
                response,
                user_data: user_data->0,
            },
            substream::Event::NotificationsInOpen { handshake } => Event::NotificationsInOpen {
                id,
                handshake,
            },
            substream::Event::NotificationsInOpenCancel => Event::NotificationsInOpenCancel {
                id,
            },
            substream::Event::NotificationIn { notification } => Event::NotificationIn {
                id,
                notification,
            },
            substream::Event::NotificationsInClose { outcome } => Event::NotificationsInClose {
                id,
                outcome,
                user_data: user_data->0,
            },
            substream::Event::NotificationsOutResult { result } => Event::NotificationsOutResult {
                id,
                result: match result {
                    Ok(handshake) => Ok(handshake),
                    Err(err) => Err((err, user_data->0)),
                },
            },
            substream::Event::NotificationsOutCloseDemanded => {
                Event::NotificationsOutCloseDemanded { id }
            },
            substream::Event::NotificationsOutReset => Event::NotificationsOutReset {
                id,
                user_data: user_data->0,
            },
            substream::Event::PingOutSuccess => Event::PingOutSuccess,
            substream::Event::PingOutError => Event::PingOutFailed,
        }
    }

    /// Turns a machine event into a public event, tagging it with the
    /// substream id and moving the user data out where the event hands it
    /// back to the caller.
    fn pass_through_substream_event(
        substream_id: u32,
        user_data: &mut Option<TSubUd>,
        event: substream::Event,
    ) -> (r: Event<TSubUd>)
        requires
            substream::event_moves_user_data(event) ==> (*old(user_data)) is Some,
        ensures
            !substream::event_moves_user_data(event) ==> *final(user_data) == *old(user_data),
            substream::event_moves_user_data(event) ==> (*final(user_data)) is None,
            r == Self::spec_translate(substream_id, *old(user_data), event),
            !(r is NewOutboundSubstreamsForbidden),
    {
        let id = SubstreamId(SubstreamIdInner::SingleStream(substream_id));
        match event {
            substream::Event::InboundError { error, was_accepted } => {
                if was_accepted {
                    let ud = user_data.take();
                    match ud {
                        Some(user_data) => Event::InboundAcceptedCancel { id, user_data },
                        None => vstd::pervasive::unreached(),
                    }
                } else {
                    Event::InboundError(error)
                }
            },
            substream::Event::InboundNegotiated(protocol_name) => Event::InboundNegotiated {
                id,
                protocol_name,
            },
            substream::Event::InboundNegotiatedCancel => Event::InboundNegotiatedCancel { id },
            substream::Event::RequestIn { request } => Event::RequestIn { id, request },
            substream::Event::Response { response } => {
                let ud = user_data.take();
                match ud {
                    Some(user_data) => Event::Response { id, response, user_data },
                    None => vstd::pervasive::unreached(),
                }
            },
            substream::Event::NotificationsInOpen { handshake } => Event::NotificationsInOpen {
                id,
                handshake,
            },
            substream::Event::NotificationsInOpenCancel => Event::NotificationsInOpenCancel {
                id,
            },
            substream::Event::NotificationIn { notification } => Event::NotificationIn {
                id,
                notification,
            },
            substream::Event::NotificationsInClose { outcome } => {
                let ud = user_data.take();
                match ud {
                    Some(user_data) => Event::NotificationsInClose { id, outcome, user_data },
                    None => vstd::pervasive::unreached(),
                }
            },
            substream::Event::NotificationsOutResult { result } => {
                match result {
                    Ok(handshake) => Event::NotificationsOutResult { id, result: Ok(handshake) },
                    Err(err) => {
                        let ud = user_data.take();
                        match ud {
                            Some(user_data) => Event::NotificationsOutResult {
                                id,
                                result: Err((err, user_data)),
                            },
                            None => vstd::pervasive::unreached(),
                        }
                    },
                }
            },
            substream::Event::NotificationsOutCloseDemanded => {
                Event::NotificationsOutCloseDemanded { id }
            },
            substream::Event::NotificationsOutReset => {
                let ud = user_data.take();
                match ud {
                    Some(user_data) => Event::NotificationsOutReset { id, user_data },
                    None => vstd::pervasive::unreached(),
                }
            },
            substream::Event::PingOutSuccess => Event::PingOutSuccess,
            substream::Event::PingOutError => Event::PingOutFailed,
        }
    }

    /// The scratchpad a substream's machine is run on: the slot's buffered
    /// bytes to read, the clock, the read side open exactly when the
    /// multiplexer can still receive, and unbounded write capacity exactly
    /// when it can still send — so nothing is queued on a write-closed
    /// substream and nothing read after read close.
    pub open spec fn spec_inner_rw_is(
        rw: ReadWrite,
        now: u64,
        buffer: Vec<u8>,
        can_recv: bool,
        can_send: bool,
    ) -> bool {
        &&& rw.now == now
        &&& rw.incoming_buffer == buffer
        &&& rw.expected_incoming_bytes == (if can_recv {
            Some(0usize)
        } else {
            Option::<usize>::None
        })
        &&& rw.read_bytes == 0
        &&& rw.write_buffers@ == Seq::<Vec<u8>>::empty()
        &&& rw.write_bytes_queued == 0
        &&& rw.write_bytes_queueable == (if can_send {
            Some(usize::MAX)
        } else {
            Option::<usize>::None
        })
        &&& rw.wake_up_after is None
    }

    /// The substream's machine and buffer moved by exactly one
    /// [`substream::spec_step_post`] step, on the scratchpad the driver
    /// builds for it.
    #[verifier::opaque]
    pub open spec fn spec_machine_stepped(
        machine0: Substream,
        now: u64,
        buffer0: Vec<u8>,
        can_recv: bool,
        can_send: bool,
        machine1: Substream,
        buffer1: Vec<u8>,
    ) -> bool {
        exists|pre_rw: ReadWrite, post_rw: ReadWrite, ev2: Option<substream::Event>|
            Self::spec_inner_rw_is(pre_rw, now, buffer0, can_recv, can_send)
                && #[trigger] substream::spec_step_post(
                machine0,
                pre_rw,
                post_rw,
                Some(machine1),
                ev2,
            ) && post_rw.incoming_buffer == buffer1
    }

    /// Advances one substream: runs its machine over the slot's buffered
    /// bytes, forwards what it wrote to the multiplexer, extends the
    /// remote's window by what it consumed, and closes or resets the
    /// substream as the machine decided. Returns whether the substream
    /// should be processed again soon, and at most one event.
    #[verifier::rlimit(100)]
    #[verifier::spinoff_prover]
    fn process_substream(&mut self, raw: u32, outer: &mut ReadWrite) -> (r: (bool, Option<
        Event<TSubUd>,
    >))
        requires
            old(self).wf(),
            old(outer).wf(),
        ensures
            final(self).wf(),
            final(outer).now == old(outer).now,
            final(outer).incoming_buffer == old(outer).incoming_buffer,
            final(outer).expected_incoming_bytes == old(outer).expected_incoming_bytes,
            final(outer).read_bytes == old(outer).read_bytes,
            final(outer).write_buffers == old(outer).write_buffers,
            final(outer).write_bytes_queued == old(outer).write_bytes_queued,
            final(outer).write_bytes_queueable == old(outer).write_bytes_queueable,
            final(outer).wf(),
            final(self).next_ping == old(self).next_ping,
            final(self).outgoing_pings == old(self).outgoing_pings,
            final(self).encryption == old(self).encryption,
            final(self).substream_to_process == old(self).substream_to_process,
            final(self).ping_payload_randomness == old(self).ping_payload_randomness,
            final(self).max_inbound_substreams == old(self).max_inbound_substreams,
            final(self).max_protocol_name_len == old(self).max_protocol_name_len,
            final(self).ping_interval == old(self).ping_interval,
            final(self).ping_timeout == old(self).ping_timeout,
            final(self).yamux.spec_pending_incoming() == old(self).yamux.spec_pending_incoming(),
            final(self).yamux.spec_goaway_queued_or_sent() == old(
                self,
            ).yamux.spec_goaway_queued_or_sent(),
            final(self).yamux.spec_goaway_sent() == old(self).yamux.spec_goaway_sent(),
            final(self).yamux.spec_received_goaway() == old(self).yamux.spec_received_goaway(),
            final(self).yamux.spec_delivered() == old(self).yamux.spec_delivered(),
            final(self).yamux.spec_used() == old(self).yamux.spec_used(),
            final(self).yamux.spec_next_out_id() == old(self).yamux.spec_next_out_id(),
            final(self).yamux.spec_num_inbound() == old(self).yamux.spec_num_inbound(),
            old(outer).wake_up_after matches Some(w) ==> (final(outer).wake_up_after matches Some(
                w2,
            ) && w2 <= w),
            !(r.1 matches Some(e2) && e2 is NewOutboundSubstreamsForbidden),
            forall|id: u32|
                #[trigger] final(self).yamux.spec_has(id) == old(self).yamux.spec_has(id),
            (!old(self).yamux.spec_has(raw) || old(self).yamux.spec_user_data(raw) is None)
                ==> (*final(self) == *old(self) && *final(outer) == *old(outer) && (r.0 == false
                && r.1 is None)),
            final(self).yamux.spec_has(raw) == old(self).yamux.spec_has(raw),
            (old(self).yamux.spec_user_data(raw) is Some
                && final(self).yamux.spec_user_data(raw) is None) ==> (!final(
            self).yamux.spec_can_send(raw) && !final(self).yamux.spec_can_receive(raw)),
            ({
                let before = old(self).yamux.spec_user_data(raw);
                let after = final(self).yamux.spec_user_data(raw);
                old(self).yamux.spec_has(raw) ==> (before matches Some(slot0) ==> after matches
                    Some(slot1) ==> {
                    let consumed_bytes = slot0.read_buffer@.len() - slot1.read_buffer@.len();
                    let grant0 = old(self).yamux.spec_grant(raw);
                    &&& slot1.read_buffer@ == slot0.read_buffer@.skip(consumed_bytes)
                    &&& final(self).yamux.spec_grant(raw) == (if grant0 + consumed_bytes
                        <= u64::MAX {
                        (grant0 + consumed_bytes) as u64
                    } else {
                        u64::MAX
                    })
                    &&& (!slot1.dropped@ ==> r.0 == (consumed_bytes != 0
                        || final(self).yamux.spec_enqueued(raw) != old(self).yamux.spec_enqueued(
                        raw) || r.1 is Some))
                    &&& Self::spec_machine_stepped(
                        slot0.machine,
                        old(outer).now,
                        slot0.read_buffer,
                        old(self).yamux.spec_can_receive(raw),
                        old(self).yamux.spec_can_send(raw),
                        slot1.machine,
                        slot1.read_buffer,
                    )
                })
            }),
            (old(self).yamux.spec_has(raw) && !old(self).yamux.spec_can_send(raw))
                ==> final(self).yamux.spec_enqueued(raw) == old(self).yamux.spec_enqueued(raw),
    {
        if !self.yamux.has_substream(raw) {
            return (false, None);
        }
        let occupied = match self.yamux.user_data(raw) {
            Some(_) => true,
            None => false,
        };
        if !occupied {
            return (false, None);
        }
        let ghost pre = *self;
        let slot = self.take_slot(raw);
        let Slot { machine, mut user_data, read_buffer, received, consumed, written, dropped }
            = slot;
        let can_recv = self.yamux.can_receive(raw);
        let can_send_flag = self.yamux.can_send(raw);
        let buffered_len = read_buffer.len();
        let mut inner = ReadWrite {
            now: outer.now,
            incoming_buffer: read_buffer,
            expected_incoming_bytes: if can_recv {
                Some(0)
            } else {
                None
            },
            read_bytes: 0,
            write_buffers: Vec::new(),
            write_bytes_queued: 0,
            write_bytes_queueable: if can_send_flag {
                Some(usize::MAX)
            } else {
                None
            },
            wake_up_after: None,
        };
        let ghost machine0 = machine;
        let ghost inner0 = inner;
        let (machine_update, event) = machine.read_write(&mut inner);
        let ghost inner_after = inner;
        let ghost machine_update_ghost = machine_update;
        match inner.wake_up_after {
            Some(w) => {
                outer.wake_up_after(w);
            },
            None => {},
        }
        let consumed_now = inner.read_bytes;
        let ghost aftertake = self.yamux;
        self.yamux.add_remote_window_saturating(raw, consumed_now as u64);
        proof {
            Yamux::<Option<Slot<TSubUd>>>::lemma_subs_framed_trans(
                pre.yamux,
                aftertake,
                self.yamux,
                Set::empty().insert(raw),
            );
        }
        // Forward what the machine wrote.
        let mut bufs = inner.write_buffers;
        let total_written = inner.write_bytes_queued;
        let ghost forwarded_base = self.yamux.spec_enqueued(raw);
        let ghost grant_after = self.yamux.spec_grant(raw);
        let mut overflowed = false;
        proof {
            assert(inner.write_buffers@.skip(0) =~= inner.write_buffers@);
            assert(crate::rw::sum_lens(bufs@) == total_written);
            if !can_send_flag {
                assert(bufs@ =~= Seq::<Vec<u8>>::empty());
                assert(crate::rw::sum_lens(Seq::<Vec<u8>>::empty()) == 0);
            }
        }
        while bufs.len() > 0
            invariant
                self.yamux.wf(),
                self.yamux.spec_has(raw),
                self.yamux.spec_user_data(raw) is None,
                Yamux::<Option<Slot<TSubUd>>>::subs_framed(
                    pre.yamux,
                    self.yamux,
                    Set::empty().insert(raw),
                ),
                Yamux::<Option<Slot<TSubUd>>>::session_framed(pre.yamux, self.yamux),
                can_send_flag == pre.yamux.spec_can_send(raw),
                !overflowed ==> self.yamux.spec_can_send(raw) == pre.yamux.spec_can_send(raw),
                overflowed ==> self.yamux.spec_dead(raw) == Some(
                    yamux::DeadSubstreamTy::Reset,
                ),
                !overflowed ==> self.yamux.spec_dead(raw) == pre.yamux.spec_dead(raw)
                    || self.yamux.spec_dead(raw) is None,
                !overflowed ==> self.yamux.spec_enqueued(raw) + crate::rw::sum_lens(bufs@)
                    == forwarded_base + total_written,
                !overflowed && !can_send_flag ==> self.yamux.spec_enqueued(raw)
                    == forwarded_base,
                !can_send_flag ==> bufs@.len() == 0,
                !can_send_flag ==> !overflowed,
                !can_send_flag ==> self.yamux.spec_dead(raw) == pre.yamux.spec_dead(raw),
                self.yamux.spec_grant(raw) == grant_after,
                !overflowed ==> self.yamux.spec_can_send(raw) == pre.yamux.spec_can_send(raw),
                !overflowed ==> self.yamux.spec_can_receive(raw) == pre.yamux.spec_can_receive(
                    raw,
                ),
                overflowed ==> !self.yamux.spec_can_send(raw) && !self.yamux.spec_can_receive(
                    raw,
                ),
                self.encryption == pre.encryption,
                self.substream_to_process == pre.substream_to_process,
                self.outgoing_pings == pre.outgoing_pings,
                self.next_ping == pre.next_ping,
                self.ping_payload_randomness == pre.ping_payload_randomness,
                self.max_inbound_substreams == pre.max_inbound_substreams,
                self.max_protocol_name_len == pre.max_protocol_name_len,
                self.ping_interval == pre.ping_interval,
                self.ping_timeout == pre.ping_timeout,
            decreases bufs@.len(),
        {
            let ghost bufs_pre = bufs@;
            proof {
                crate::rw::lemma_sum_lens_first(bufs_pre);
            }
            let buffer = bufs.remove(0);
            proof {
                assert(bufs@ =~= bufs_pre.drop_first());
            }
            if buffer.len() > 0 && can_send_flag && !overflowed {
                let qb = self.yamux.queued_bytes(raw);
                if buffer.len() as u64 <= u64::MAX - qb {
                    let ghost st = self.yamux;
                    self.yamux.write(raw, buffer);
                    proof {
                        Yamux::<Option<Slot<TSubUd>>>::lemma_subs_framed_trans(
                            pre.yamux,
                            st,
                            self.yamux,
                            Set::empty().insert(raw),
                        );
                    }
                } else {
                    let ghost st = self.yamux;
                    self.yamux.reset(raw);
                    overflowed = true;
                    proof {
                        Yamux::<Option<Slot<TSubUd>>>::lemma_subs_framed_trans(
                            pre.yamux,
                            st,
                            self.yamux,
                            Set::empty().insert(raw),
                        );
                    }
                }
            }
        }
        let ghost afterloop = self.yamux;
        let closed_after = match inner.write_bytes_queueable {
            Some(_) => false,
            None => true,
        };
        if can_send_flag && closed_after && !overflowed {
            let still_can_send = self.yamux.can_send(raw);
            if still_can_send {
                let ghost st = self.yamux;
                self.yamux.close(raw);
                proof {
                    Yamux::<Option<Slot<TSubUd>>>::lemma_subs_framed_trans(
                        pre.yamux,
                        st,
                        self.yamux,
                        Set::empty().insert(raw),
                    );
                }
            }
        }
        let ghost event0 = event;
        let event_is_some = match &event {
            Some(_) => true,
            None => false,
        };
        let event_out: Option<Event<TSubUd>> = match event {
            Some(ev) => {
                proof {
                    if substream::event_moves_user_data(ev) {
                        assert(substream::machine_holds_user_data(machine0));
                    }
                }
                Some(Self::pass_through_substream_event(raw, &mut user_data, ev))
            },
            None => None,
        };
        match machine_update {
            Some(m) => {
                let ghost new_dropped: bool = dropped@ || overflowed;
                let new_slot = Slot {
                    machine: m,
                    user_data,
                    read_buffer: inner.incoming_buffer,
                    received,
                    consumed: Ghost((consumed@ + consumed_now as nat) as nat),
                    written: Ghost(
                        (written@ + if can_send_flag {
                            total_written as nat
                        } else {
                            0nat
                        }) as nat,
                    ),
                    dropped: Ghost(new_dropped),
                };
                let ghost st = self.yamux;
                self.put_slot(raw, new_slot);
                proof {
                    Yamux::<Option<Slot<TSubUd>>>::lemma_subs_framed_trans(
                        pre.yamux,
                        st,
                        self.yamux,
                        Set::empty().insert(raw),
                    );
                    assert(pre.yamux.spec_has(raw));
                    assert(bufs@ =~= Seq::<Vec<u8>>::empty());
                    assert(crate::rw::sum_lens(Seq::<Vec<u8>>::empty()) == 0);
                    assert(forwarded_base == pre.yamux.spec_enqueued(raw));
                    assert(self.yamux.spec_enqueued(raw) == afterloop.spec_enqueued(raw));
                    let ghost new_written = written@ + if can_send_flag {
                        total_written as nat
                    } else {
                        0nat
                    };
                    if !(dropped@ || overflowed) {
                        if can_send_flag {
                            assert(afterloop.spec_enqueued(raw) == forwarded_base
                                + total_written);
                            assert(written@ == forwarded_base);
                        } else {
                            assert(total_written == 0) by {
                                assert(inner.write_buffers@ =~= Seq::<Vec<u8>>::empty());
                            }
                            assert(afterloop.spec_enqueued(raw) == forwarded_base);
                            assert(written@ == forwarded_base);
                        }
                        assert(new_written == self.yamux.spec_enqueued(raw));
                    }
                    if raw == pre.outgoing_pings {
                        assert(machine0 is PingOut);
                    }
                    Self::lemma_wf_slots_transfer(pre, *self, raw);
                    assert(Self::spec_inner_rw_is(
                        inner0,
                        old(outer).now,
                        pre.yamux.spec_user_data(raw)->0.read_buffer,
                        pre.yamux.spec_can_receive(raw),
                        pre.yamux.spec_can_send(raw),
                    )) by {
                        assert(inner0.write_buffers@ =~= Seq::<Vec<u8>>::empty());
                    }
                    assert(substream::spec_step_post(
                        machine0,
                        inner0,
                        inner_after,
                        machine_update_ghost,
                        event0,
                    ));
                    reveal(SingleStream::spec_machine_stepped);
                    assert(self.yamux.spec_grant(raw) == grant_after);
                    assert(grant_after == (if pre.yamux.spec_grant(raw) + consumed_now
                        <= u64::MAX {
                        (pre.yamux.spec_grant(raw) + consumed_now) as u64
                    } else {
                        u64::MAX
                    }));
                    assert(consumed_now == buffered_len - inner.incoming_buffer@.len());
                    if !(dropped@ || overflowed) {
                        if can_send_flag {
                            assert(self.yamux.spec_enqueued(raw) == forwarded_base
                                + total_written);
                        } else {
                            assert(self.yamux.spec_enqueued(raw) == forwarded_base);
                        }
                    }
                }
            },
            None => {
                proof {
                    assert(pre.yamux.spec_has(raw));
                    if raw == pre.outgoing_pings {
                        assert(machine0 is PingOut);
                        assert(false);
                    }
                }
                if !closed_after || can_recv {
                    let ghost st = self.yamux;
                    self.yamux.reset(raw);
                    proof {
                        Yamux::<Option<Slot<TSubUd>>>::lemma_subs_framed_trans(
                            pre.yamux,
                            st,
                            self.yamux,
                            Set::empty().insert(raw),
                        );
                        assert(!self.yamux.spec_can_send(raw));
                        assert(!self.yamux.spec_can_receive(raw));
                    }
                } else {
                    proof {
                        assert(!self.yamux.spec_can_receive(raw));
                        assert(!self.yamux.spec_can_send(raw));
                    }
                }
                proof {
                    Self::lemma_wf_slots_transfer(pre, *self, raw);
                }
            },
        }
        proof {
            assert forall|id: u32|
                #[trigger] self.yamux.spec_has(id) == pre.yamux.spec_has(id) by {
                if id != raw {
                    assert(!Set::empty().insert(raw).contains(id));
                }
            }
        }
        let call_again = consumed_now != 0 || total_written != 0 || event_is_some;
        (call_again, event_out)
    }


    /// Reads incoming bytes, advances every layer, writes outgoing bytes,
    /// and reports at most one event. Call it again until it reports no
    /// event and the byte counters stand still. A returned error is fatal:
    /// the connection must be shut down.
    ///
    /// The ping schedule moves exactly as configured: if the clock reached
    /// the ping deadline, the next deadline is one interval after the
    /// clock, and otherwise it is unchanged — so it never moves backwards
    /// and never falls behind the clock by more than one firing.
    #[verifier::rlimit(100)]
    #[verifier::spinoff_prover]
    #[verifier::loop_isolation(false)]
    pub fn read_write(self, rw: &mut ReadWrite) -> (r: Result<
        (SingleStream<TSubUd>, Option<Event<TSubUd>>),
        Error,
    >)
        requires
            self.wf(),
            old(rw).wf(),
            old(rw).now + self.spec_ping_interval() <= u64::MAX,
            old(rw).now + self.spec_ping_timeout() <= u64::MAX,
        ensures
            final(rw).now == old(rw).now,
            ReadWrite::rw_step(*old(rw), *final(rw)),
            old(rw).write_bytes_queueable == Some(0usize) ==> final(rw).write_bytes_queued
                == old(rw).write_bytes_queued,
            r matches Ok((s, ev)) ==> {
                &&& s.wf()
                &&& (s.spec_next_ping() == self.spec_next_ping() || (old(rw).now
                    >= self.spec_next_ping() && s.spec_next_ping() == old(rw).now
                    + self.spec_ping_interval()))
                &&& s.spec_next_ping() >= self.spec_next_ping()
                &&& (ev is None ==> s.spec_next_ping() >= old(rw).now)
                &&& s.spec_ping_interval() == self.spec_ping_interval()
                &&& s.spec_ping_timeout() == self.spec_ping_timeout()
                &&& s.spec_max_inbound_substreams() == self.spec_max_inbound_substreams()
                &&& s.spec_ping_substream() == self.spec_ping_substream()
                &&& s.spec_ping_seed() == self.spec_ping_seed()
                &&& ((s.spec_ping_rng_pos() == self.spec_ping_rng_pos() && s.spec_next_ping()
                    == self.spec_next_ping()) || (old(rw).now >= self.spec_next_ping() && ((
                self.spec_ping_substream_alive() && s.spec_ping_rng_pos()
                    == self.spec_ping_rng_pos() + 8) || (!self.spec_ping_substream_alive()
                    && s.spec_ping_rng_pos() == self.spec_ping_rng_pos()))))
                &&& ((old(rw).now >= self.spec_next_ping() && !self.spec_ping_substream_alive()
                    && s.spec_next_ping() != self.spec_next_ping()) ==> ev == Some(
                    Event::<TSubUd>::PingOutFailed,
                ))
                &&& (ev is None ==> (final(rw).wake_up_after matches Some(w) && w
                    <= s.spec_next_ping()))
                &&& ((ev is None && s.spec_mux_is_empty() && s.spec_goaway_sent()
                    && s.spec_received_goaway()) ==> final(rw).write_bytes_queueable is None)
                &&& (ev is None ==> (noise::spec_inject(
                    final(rw).incoming_buffer@,
                    s.spec_rx_seed(),
                    s.spec_rx_pos(),
                ) == Ok::<_, ()>((Seq::<u8>::empty(), 0nat, s.spec_rx_pos()))
                    || (final(rw).wake_up_after matches Some(w2) && w2 <= old(rw).now)))
                &&& ((ev matches Some(Event::NewOutboundSubstreamsForbidden)) ==> (
                !self.spec_received_goaway() && s.spec_received_goaway()))
                &&& (!(ev matches Some(Event::NewOutboundSubstreamsForbidden))
                    ==> s.spec_received_goaway() == self.spec_received_goaway())
                &&& s.spec_goaway_queued_or_sent() == self.spec_goaway_queued_or_sent()
                &&& s.spec_num_inbound() <= (if self.spec_num_inbound()
                    >= self.spec_max_inbound_substreams() as nat {
                    self.spec_num_inbound()
                } else {
                    self.spec_max_inbound_substreams() as nat
                })
            },
            r matches Err(e) ==> (e matches Error::Noise(_) ==> noise::spec_inject(
                old(rw).incoming_buffer@,
                self.spec_rx_seed(),
                self.spec_rx_pos(),
            ) is Err),
    {
        let mut this = self;
        proof {
            ReadWrite::lemma_rw_step_refl(*old(rw));
        }
        // First pass: advance every substream on what it already buffers.
        let ids = this.yamux.ids();
        let mut i: usize = 0;
        while i < ids.len()
            invariant
                this.wf(),
                rw.wf(),
                rw.now == old(rw).now,
                rw.incoming_buffer == old(rw).incoming_buffer,
                rw.expected_incoming_bytes == old(rw).expected_incoming_bytes,
                rw.read_bytes == old(rw).read_bytes,
                rw.write_buffers == old(rw).write_buffers,
                rw.write_bytes_queued == old(rw).write_bytes_queued,
                rw.write_bytes_queueable == old(rw).write_bytes_queueable,
                this.next_ping == self.spec_next_ping(),
                this.ping_interval == self.spec_ping_interval(),
                this.ping_timeout == self.spec_ping_timeout(),
                this.outgoing_pings == self.outgoing_pings,
                this.max_inbound_substreams == self.max_inbound_substreams,
                this.ping_payload_randomness == self.ping_payload_randomness,
                this.encryption == self.encryption,
                this.yamux.spec_received_goaway() == self.yamux.spec_received_goaway(),
                this.yamux.spec_goaway_queued_or_sent() == self.yamux.spec_goaway_queued_or_sent(),
                forall|id: u32| #[trigger] this.yamux.spec_has(id) == self.yamux.spec_has(id),
                this.yamux.spec_num_inbound() == self.yamux.spec_num_inbound(),
            decreases ids@.len() - i,
        {
            let id = ids[i];
            let (call_again, ev) = this.process_substream(id, rw);
            match ev {
                Some(e) => {
                    proof {
                        ReadWrite::lemma_rw_step_same(*old(rw), *rw);
                    }
                    return Ok((this, Some(e)));
                },
                None => {},
            }
            if call_again {
                rw.wake_up_asap();
            }
            i = i + 1;
        }
        // Ping schedule.
        if rw.now >= this.next_ping {
            this.next_ping = rw.now + this.ping_interval;
            if this.yamux.has_substream(this.outgoing_pings) {
                let payload = chacha20_fill(
                    &mut this.ping_payload_randomness,
                    substream::PING_PAYLOAD_LEN,
                );
                let deadline = rw.now + this.ping_timeout;
                let op = this.outgoing_pings;
                let ghost prep = this;
                let mut slot = this.take_slot(op);
                let ghost midp = this;
                slot.machine.queue_ping(&payload, deadline);
                this.put_slot(op, slot);
                proof {
                    Yamux::<Option<Slot<TSubUd>>>::lemma_subs_framed_trans(
                        prep.yamux,
                        midp.yamux,
                        this.yamux,
                        Set::empty().insert(op),
                    );
                    assert(prep.yamux.spec_has(op));
                    Self::lemma_wf_slots_transfer(prep, this, op);
                }
            } else {
                proof {
                    ReadWrite::lemma_rw_step_same(*old(rw), *rw);
                }
                rw.wake_up_after(this.next_ping);
                return Ok((this, Some(Event::PingOutFailed)));
            }
        }
        let np = this.next_ping;
        rw.wake_up_after(np);
        let ghost rng_after = this.ping_payload_randomness;
        // Main loop: decrypt, demultiplex, dispatch, flush, sweep.
        let mut fuel: usize = rw.incoming_buffer.len().saturating_add(64);
        loop
            invariant
                this.wf(),
                rw.wf(),
                rw.now == old(rw).now,
                ReadWrite::rw_step(*old(rw), *rw),
                this.next_ping == np,
                np == (if old(rw).now >= self.spec_next_ping() {
                    (old(rw).now + self.spec_ping_interval()) as u64
                } else {
                    self.spec_next_ping()
                }),
                np >= old(rw).now || old(rw).now < self.spec_next_ping(),
                this.ping_interval == self.spec_ping_interval(),
                this.ping_timeout == self.spec_ping_timeout(),
                this.max_inbound_substreams == self.max_inbound_substreams,
                this.outgoing_pings == self.outgoing_pings,
                this.ping_payload_randomness == rng_after,
                this.yamux.spec_received_goaway() == self.yamux.spec_received_goaway(),
                this.yamux.spec_goaway_queued_or_sent() == self.yamux.spec_goaway_queued_or_sent(),
                this.yamux.spec_num_inbound() <= (if self.yamux.spec_num_inbound()
                    >= self.max_inbound_substreams as nat {
                    self.yamux.spec_num_inbound()
                } else {
                    self.max_inbound_substreams as nat
                }),
                rw.wake_up_after matches Some(w) && w <= np,
                noise::spec_inject(
                    rw.incoming_buffer@,
                    this.encryption.rx_seed(),
                    this.encryption.spec_rx_pos(),
                ) is Err ==> noise::spec_inject(
                    old(rw).incoming_buffer@,
                    self.spec_rx_seed(),
                    self.spec_rx_pos(),
                ) is Err,
            decreases fuel,
        {
            if fuel == 0 {
                let still_remote_done = match this.yamux.received_goaway() {
                    Some(_) => true,
                    None => false,
                };
                if this.yamux.is_empty() && this.yamux.goaway_sent() && still_remote_done {
                    rw.close_write();
                }
                rw.wake_up_asap();
                return Ok((this, None));
            }
            fuel = fuel - 1;
            let mut progress = false;
            // A finished connection closes its write side.
            let remote_done = match this.yamux.received_goaway() {
                Some(_) => true,
                None => false,
            };
            if this.yamux.is_empty() && this.yamux.goaway_sent() && remote_done {
                rw.close_write();
            }
            // Drain the substream whose buffer grew, before reading more.
            match this.substream_to_process {
                Some(id) => {
                    if !this.yamux.has_substream(id) {
                        this.substream_to_process = None;
                    } else {
                        let (call_again, ev) = this.process_substream(id, rw);
                        if !call_again {
                            this.substream_to_process = None;
                        }
                        match ev {
                            Some(e) => {
                                return Ok((this, Some(e)));
                            },
                            None => {},
                        }
                        if call_again {
                            continue ;
                        }
                    }
                },
                None => {},
            }
            // Decrypt what arrived.
            let ghost preinj = *rw;
            let ghost preinj_pos: nat = this.encryption.spec_rx_pos();
            match this.encryption.inject(rw) {
                Ok(()) => {},
                Err(e) => {
                    proof {
                        ReadWrite::lemma_rw_step_trans(*old(rw), preinj, *rw);
                    }
                    return Err(Error::Noise(e));
                },
            }
            proof {
                assert(rw.write_buffers@.take(preinj.write_buffers@.len() as int)
                    =~= preinj.write_buffers@);
                assert(rw.write_buffers@.skip(preinj.write_buffers@.len() as int) =~= Seq::<
                    Vec<u8>,
                >::empty());
                assert(crate::rw::sum_lens(Seq::<Vec<u8>>::empty()) == 0);
                assert(ReadWrite::rw_step(preinj, *rw));
                ReadWrite::lemma_rw_step_trans(*old(rw), preinj, *rw);
                noise::lemma_spec_inject_residual(
                    preinj.incoming_buffer@,
                    this.encryption.rx_seed(),
                    preinj_pos,
                );
            }
            // Let the multiplexer decode the plaintext.
            let (n, detail) = match this.yamux.incoming_data(this.encryption.rx_data()) {
                Ok(x) => x,
                Err(e) => {
                    return Err(Error::Yamux(e));
                },
            };
            let detail_some = match &detail {
                Some(_) => true,
                None => false,
            };
            if n > 0 || detail_some {
                progress = true;
            }
            let ghost postdecode = this;
            match detail {
                None => {
                    let taken = this.encryption.take_rx(n);
                    proof {
                        Self::lemma_wf_stable_transfer(postdecode, this);
                    }
                },
                Some(yamux::IncomingDataDetail::IncomingSubstream) => {
                    let taken = this.encryption.take_rx(n);
                    let ghost preacc = this;
                    if this.yamux.num_inbound() >= this.max_inbound_substreams {
                        this.yamux.reject_pending_substream();
                        proof {
                            Self::lemma_wf_stable_transfer_framed(preacc, this);
                        }
                    } else {
                        let slot = Slot {
                            machine: Substream::ingoing(this.max_protocol_name_len),
                            user_data: None,
                            read_buffer: Vec::new(),
                            received: Ghost(0nat),
                            consumed: Ghost(0nat),
                            written: Ghost(0nat),
                            dropped: Ghost(false),
                        };
                        let ghost newid = this.yamux.spec_pending_incoming()->0;
                        this.yamux.accept_pending_substream(Some(slot));
                        proof {
                            Self::lemma_wf_slots_transfer(preacc, this, newid);
                        }
                    }
                },
                Some(yamux::IncomingDataDetail::StreamReset { substream_id }) => {
                    let taken = this.encryption.take_rx(n);
                    proof {
                        Self::lemma_wf_stable_transfer(postdecode, this);
                    }
                },
                Some(yamux::IncomingDataDetail::StreamClosed { substream_id }) => {
                    let taken = this.encryption.take_rx(n);
                    proof {
                        Self::lemma_wf_stable_transfer(postdecode, this);
                    }
                },
                Some(yamux::IncomingDataDetail::DataFrame { start_offset, substream_id }) => {
                    let mut taken = this.encryption.take_rx(n);
                    let payload = taken.split_off(start_offset);
                    let occupied = match this.yamux.user_data(substream_id) {
                        Some(_) => true,
                        None => false,
                    };
                    if occupied {
                        let ghost preapp = this;
                        let mut slot = this.take_slot(substream_id);
                        let ghost midtake = this;
                        let ghost plen = payload@.len();
                        let mut p = payload;
                        let ghost rcv = slot.received@;
                        slot.read_buffer.append(&mut p);
                        slot.received = Ghost((rcv + plen) as nat);
                        this.put_slot(substream_id, slot);
                        proof {
                            Yamux::<Option<Slot<TSubUd>>>::lemma_subs_framed_trans(
                                preapp.yamux,
                                midtake.yamux,
                                this.yamux,
                                Set::empty().insert(substream_id),
                            );
                            assert(preapp.yamux.spec_has(substream_id));
                            if substream_id == preapp.outgoing_pings {
                                assert(preapp.yamux.spec_user_data(
                                    preapp.outgoing_pings,
                                ) matches Some(sl) && sl.machine is PingOut);
                            }
                            Self::lemma_wf_slots_transfer(preapp, this, substream_id);
                        }
                    }
                    this.substream_to_process = Some(substream_id);
                },
                Some(yamux::IncomingDataDetail::GoAway { code }) => {
                    let taken = this.encryption.take_rx(n);
                    proof {
                        Self::lemma_wf_stable_transfer(postdecode, this);
                    }
                    return Ok((this, Some(Event::NewOutboundSubstreamsForbidden)));
                },
                Some(yamux::IncomingDataDetail::PingResponse) => {
                    proof {
                        assert(false);
                    }
                },
            }
            // Flush outgoing frames through the cipher.
            let ghost preflush = *rw;
            let flushed = this.flush_frames(rw);
            proof {
                ReadWrite::lemma_rw_step_trans(*old(rw), preflush, *rw);
            }
            match flushed {
                Ok(()) => {},
                Err(e) => {
                    return Err(e);
                },
            }
            // Sweep dead substreams.
            let ghost presweep = *rw;
            let (swept, sweep_event) = this.sweep_dead_substreams(rw);
            proof {
                ReadWrite::lemma_rw_step_same(presweep, *rw);
                ReadWrite::lemma_rw_step_trans(*old(rw), presweep, *rw);
            }
            if swept {
                progress = true;
            }
            match sweep_event {
                Some(e) => {
                    return Ok((this, Some(e)));
                },
                None => {},
            }
            if !progress {
                proof {
                    assert(noise::spec_inject(
                        rw.incoming_buffer@,
                        this.encryption.rx_seed(),
                        this.encryption.spec_rx_pos(),
                    ) == Ok::<_, ()>((Seq::<u8>::empty(), 0nat, this.encryption.spec_rx_pos())));
                }
                let still_remote_done = match this.yamux.received_goaway() {
                    Some(_) => true,
                    None => false,
                };
                if this.yamux.is_empty() && this.yamux.goaway_sent() && still_remote_done {
                    rw.close_write();
                }
                match rw.expected_incoming_bytes {
                    Some(_) => {
                        let hint = this.encryption.next_record_hint(&rw.incoming_buffer);
                        rw.expected_incoming_bytes = Some(hint);
                    },
                    None => {},
                }
                return Ok((this, None));
            }
        }
    }



    /// Pulls frames from the multiplexer and wraps each into one cipher
    /// record, as long as outbound capacity remains.
    #[verifier::rlimit(100)]
    #[verifier::spinoff_prover]
    fn flush_frames(&mut self, rw: &mut ReadWrite) -> (r: Result<(), Error>)
        requires
            old(self).wf(),
            old(rw).wf(),
        ensures
            final(self).wf(),
            final(rw).wf(),
            final(rw).now == old(rw).now,
            final(rw).incoming_buffer == old(rw).incoming_buffer,
            final(rw).expected_incoming_bytes == old(rw).expected_incoming_bytes,
            final(rw).read_bytes == old(rw).read_bytes,
            final(rw).wake_up_after == old(rw).wake_up_after,
            ReadWrite::rw_step(*old(rw), *final(rw)),
            final(self).next_ping == old(self).next_ping,
            final(self).ping_interval == old(self).ping_interval,
            final(self).ping_timeout == old(self).ping_timeout,
            final(self).max_inbound_substreams == old(self).max_inbound_substreams,
            final(self).outgoing_pings == old(self).outgoing_pings,
            final(self).ping_payload_randomness == old(self).ping_payload_randomness,
            final(self).substream_to_process == old(self).substream_to_process,
            final(self).encryption.rx_seed() == old(self).encryption.rx_seed(),
            final(self).encryption.spec_rx_pos() == old(self).encryption.spec_rx_pos(),
            final(self).encryption.spec_rx_data() == old(self).encryption.spec_rx_data(),
            final(self).yamux.spec_received_goaway() == old(self).yamux.spec_received_goaway(),
            final(self).yamux.spec_goaway_queued_or_sent() == old(
                self,
            ).yamux.spec_goaway_queued_or_sent(),
            final(self).yamux.spec_num_inbound() <= old(self).yamux.spec_num_inbound(),
            final(self).yamux.spec_pending_incoming() == old(self).yamux.spec_pending_incoming(),
            r matches Err(e) ==> e is NoiseEncrypt,
    {
        proof {
            ReadWrite::lemma_rw_step_refl(*old(rw));
        }
            loop
                invariant
                    self.wf(),
                    rw.wf(),
                    rw.now == old(rw).now,
                    rw.incoming_buffer == old(rw).incoming_buffer,
                    rw.expected_incoming_bytes == old(rw).expected_incoming_bytes,
                    rw.read_bytes == old(rw).read_bytes,
                    rw.wake_up_after == old(rw).wake_up_after,
                    ReadWrite::rw_step(*old(rw), *rw),
                    self.next_ping == old(self).next_ping,
                    self.ping_interval == old(self).ping_interval,
                    self.ping_timeout == old(self).ping_timeout,
                    self.max_inbound_substreams == old(self).max_inbound_substreams,
                    self.outgoing_pings == old(self).outgoing_pings,
                    self.ping_payload_randomness == old(self).ping_payload_randomness,
                    self.substream_to_process == old(self).substream_to_process,
                    self.encryption.rx_seed() == old(self).encryption.rx_seed(),
                    self.encryption.spec_rx_pos() == old(self).encryption.spec_rx_pos(),
                    self.encryption.spec_rx_data() == old(self).encryption.spec_rx_data(),
                    self.encryption.wf(),
                    self.encryption.spec_is_initiator() == old(self).encryption.spec_is_initiator(),
                    self.encryption.tx_seed() == old(self).encryption.tx_seed(),
                    self.yamux.spec_received_goaway() == old(self).yamux.spec_received_goaway(),
                    self.yamux.spec_goaway_queued_or_sent() == old(
                        self,
                    ).yamux.spec_goaway_queued_or_sent(),
                    self.yamux.spec_num_inbound() <= old(self).yamux.spec_num_inbound(),
                    self.yamux.spec_pending_incoming() == old(self).yamux.spec_pending_incoming(),
                decreases rw.spec_queueable(),
            {
                let cap = rw.queueable();
                let writable = match rw.write_bytes_queueable {
                    Some(_) => true,
                    None => false,
                };
                if !writable || cap < noise::RECORD_OVERHEAD + yamux::HEADER_LEN + 1 {
                    break ;
                }
                let mut limit = cap - noise::RECORD_OVERHEAD;
                if limit > yamux::HEADER_LEN + yamux::MAX_OUT_DATA_FRAME {
                    limit = yamux::HEADER_LEN + yamux::MAX_OUT_DATA_FRAME;
                }
                let ghost preext = *self;
                let frame = match self.yamux.extract_next(limit) {
                    Some(f) => f,
                    None => {
                        break ;
                    },
                };
                proof {
                    Self::lemma_wf_extract_transfer(preext, *self);
                }
                let ghost prerw = *rw;
                match self.encryption.encrypt_record(rw, &frame) {
                    Ok(()) => {},
                    Err(e) => {
                        return Err(Error::NoiseEncrypt(e));
                    },
                }
                proof {
                    noise::lemma_cks_len(frame@);
                    assert(rw.incoming_buffer@ =~= prerw.incoming_buffer@.skip(0));
                    assert(rw.write_buffers@.take(prerw.write_buffers@.len() as int)
                        =~= prerw.write_buffers@);
                    let added = rw.write_buffers@.skip(prerw.write_buffers@.len() as int);
                    assert(added =~= seq![rw.write_buffers@.last()]);
                    assert(added.drop_last() =~= Seq::<Vec<u8>>::empty());
                    assert(crate::rw::sum_lens(Seq::<Vec<u8>>::empty()) == 0);
                    assert(rw.write_buffers@.last()@.len() == frame@.len()
                        + noise::RECORD_OVERHEAD);
                    assert(crate::rw::sum_lens(added) == frame@.len() + noise::RECORD_OVERHEAD);
                    assert(ReadWrite::rw_step(prerw, *rw));
                    ReadWrite::lemma_rw_step_trans(*old(rw), prerw, *rw);
                }
            }
        Ok(())
    }

    /// Removes the substreams the multiplexer reports dead: a reset
    /// substream leaves at once (its machine's final word translated), a
    /// gracefully closed one gets one last machine step to surface what it
    /// still holds, and is reinserted if that step is not its last.
    /// Returns whether anything was removed, and at most one event.
    #[verifier::rlimit(100)]
    #[verifier::spinoff_prover]
    fn sweep_dead_substreams(&mut self, rw: &mut ReadWrite) -> (r: (bool, Option<Event<TSubUd>>))
        requires
            old(self).wf(),
            old(rw).wf(),
        ensures
            final(self).wf(),
            final(rw).wf(),
            final(rw).now == old(rw).now,
            final(rw).incoming_buffer == old(rw).incoming_buffer,
            final(rw).expected_incoming_bytes == old(rw).expected_incoming_bytes,
            final(rw).read_bytes == old(rw).read_bytes,
            final(rw).write_buffers == old(rw).write_buffers,
            final(rw).write_bytes_queued == old(rw).write_bytes_queued,
            final(rw).write_bytes_queueable == old(rw).write_bytes_queueable,
            old(rw).wake_up_after matches Some(w) ==> (final(rw).wake_up_after matches Some(w2)
                && w2 <= w),
            final(self).next_ping == old(self).next_ping,
            final(self).ping_interval == old(self).ping_interval,
            final(self).ping_timeout == old(self).ping_timeout,
            final(self).max_inbound_substreams == old(self).max_inbound_substreams,
            final(self).outgoing_pings == old(self).outgoing_pings,
            final(self).ping_payload_randomness == old(self).ping_payload_randomness,
            final(self).substream_to_process == old(self).substream_to_process,
            final(self).encryption == old(self).encryption,
            final(self).yamux.spec_received_goaway() == old(self).yamux.spec_received_goaway(),
            final(self).yamux.spec_goaway_queued_or_sent() == old(
                self,
            ).yamux.spec_goaway_queued_or_sent(),
            final(self).yamux.spec_num_inbound() <= old(self).yamux.spec_num_inbound(),
            final(self).yamux.spec_pending_incoming() == old(self).yamux.spec_pending_incoming(),
            !(r.1 matches Some(e2) && e2 is NewOutboundSubstreamsForbidden),
    {
        let mut progress = false;
        let dead = self.yamux.dead_substreams();
            let mut k: usize = 0;
            while k < dead.len()
                invariant
                    self.wf(),
                    rw.wf(),
                    rw.now == old(rw).now,
                    rw.incoming_buffer == old(rw).incoming_buffer,
                    rw.expected_incoming_bytes == old(rw).expected_incoming_bytes,
                    rw.read_bytes == old(rw).read_bytes,
                    rw.write_buffers == old(rw).write_buffers,
                    rw.write_bytes_queued == old(rw).write_bytes_queued,
                    rw.write_bytes_queueable == old(rw).write_bytes_queueable,
                    old(rw).wake_up_after matches Some(w) ==> (rw.wake_up_after matches Some(w2)
                        && w2 <= w),
                    old(rw).wake_up_after is None ==> (rw.wake_up_after == old(rw).wake_up_after
                        || rw.wake_up_after is Some),
                    self.next_ping == old(self).next_ping,
                    self.ping_interval == old(self).ping_interval,
                    self.ping_timeout == old(self).ping_timeout,
                    self.max_inbound_substreams == old(self).max_inbound_substreams,
                    self.outgoing_pings == old(self).outgoing_pings,
                    self.ping_payload_randomness == old(self).ping_payload_randomness,
                    self.substream_to_process == old(self).substream_to_process,
                    self.encryption == old(self).encryption,
                    self.yamux.spec_received_goaway() == old(self).yamux.spec_received_goaway(),
                    self.yamux.spec_goaway_queued_or_sent() == old(
                        self,
                    ).yamux.spec_goaway_queued_or_sent(),
                    self.yamux.spec_num_inbound() <= old(self).yamux.spec_num_inbound(),
                    self.yamux.spec_pending_incoming() == old(self).yamux.spec_pending_incoming(),
                decreases dead@.len() - k,
            {
                let (dead_id, death_ty) = dead[k];
                k = k + 1;
                if !self.yamux.has_substream(dead_id) {
                    continue ;
                }
                let death_now = match self.yamux.is_dead(dead_id) {
                    Some(t) => t,
                    None => {
                        continue ;
                    },
                };
                match death_now {
                    yamux::DeadSubstreamTy::Reset => {
                        let ghost prerm = *self;
                        let slot_opt = self.yamux.remove_dead_substream(dead_id);
                        proof {
                            Self::lemma_wf_remove_transfer(prerm, *self, dead_id);
                        }
                        progress = true;
                        match slot_opt {
                            Some(slot) => {
                                let Slot {
                                    machine,
                                    mut user_data,
                                    read_buffer,
                                    received,
                                    consumed,
                                    written,
                                    dropped,
                                } = slot;
                                proof {
                                    assert(prerm.yamux.spec_has(dead_id));
                                }
                                match machine.reset() {
                                    Some(ev) => {
                                        let out = Self::pass_through_substream_event(
                                            dead_id,
                                            &mut user_data,
                                            ev,
                                        );
                                        return (progress, Some(out));
                                    },
                                    None => {},
                                }
                            },
                            None => {},
                        }
                    },
                    yamux::DeadSubstreamTy::ClosedGracefully => {
                        let occupied = match self.yamux.user_data(dead_id) {
                            Some(_) => true,
                            None => false,
                        };
                        if !occupied {
                            let ghost prerm = *self;
                            let discarded = self.yamux.remove_dead_substream(dead_id);
                            proof {
                                Self::lemma_wf_remove_transfer(prerm, *self, dead_id);
                            }
                            progress = true;
                            continue ;
                        }
                        let ghost pretake = *self;
                        let slot = self.take_slot(dead_id);
                        let ghost midtake2 = *self;
                        let Slot {
                            machine,
                            mut user_data,
                            read_buffer,
                            received,
                            consumed,
                            written,
                            dropped,
                        } = slot;
                        let mut srw = ReadWrite {
                            now: rw.now,
                            incoming_buffer: Vec::new(),
                            expected_incoming_bytes: None,
                            read_bytes: 0,
                            write_buffers: Vec::new(),
                            write_bytes_queued: 0,
                            write_bytes_queueable: None,
                            wake_up_after: None,
                        };
                        let ghost machine0 = machine;
                        let (machine_update, ev) = machine.read_write(&mut srw);
                        match srw.wake_up_after {
                            Some(w) => {
                                rw.wake_up_after(w);
                            },
                            None => {},
                        }
                        proof {
                            assert(pretake.yamux.spec_has(dead_id));
                        }
                        let translated = match ev {
                            Some(e) => {
                                proof {
                                    if substream::event_moves_user_data(e) {
                                        assert(substream::machine_holds_user_data(machine0));
                                    }
                                }
                                Some(Self::pass_through_substream_event(
                                    dead_id,
                                    &mut user_data,
                                    e,
                                ))
                            },
                            None => None,
                        };
                        match machine_update {
                            Some(m) => {
                                let new_slot = Slot {
                                    machine: m,
                                    user_data,
                                    read_buffer,
                                    received,
                                    consumed,
                                    written,
                                    dropped,
                                };
                                self.put_slot(dead_id, new_slot);
                                proof {
                                    Yamux::<Option<Slot<TSubUd>>>::lemma_subs_framed_trans(
                                        pretake.yamux,
                                        midtake2.yamux,
                                        self.yamux,
                                        Set::empty().insert(dead_id),
                                    );
                                    if dead_id == pretake.outgoing_pings {
                                        assert(machine0 is PingOut);
                                    }
                                    Self::lemma_wf_slots_transfer(pretake, *self, dead_id);
                                }
                            },
                            None => {
                                let ghost prerm = *self;
                                let discarded = self.yamux.remove_dead_substream(dead_id);
                                proof {
                                    Yamux::<Option<Slot<TSubUd>>>::lemma_subs_framed_trans(
                                        pretake.yamux,
                                        prerm.yamux,
                                        self.yamux,
                                        Set::empty().insert(dead_id),
                                    );
                                    Self::lemma_wf_remove_transfer(pretake, *self, dead_id);
                                }
                                progress = true;
                            },
                        }
                        match translated {
                            Some(e) => {
                                return (progress, Some(e));
                            },
                            None => {},
                        }
                    },
                }
            }
        (progress, None)
    }

    /// The multiplexer changed without touching any slot or any substream's
    /// identity attributes: the connection stays well-formed.
    proof fn lemma_wf_stable_transfer(pre: Self, post: Self)
        requires
            pre.wf_slots(),
            post.encryption.wf(),
            post.yamux.wf(),
            Yamux::<Option<Slot<TSubUd>>>::subs_stable(pre.yamux, post.yamux),
            forall|id: u32|
                #[trigger] pre.yamux.spec_has(id) ==> post.yamux.spec_enqueued(id)
                    == pre.yamux.spec_enqueued(id),
            post.outgoing_pings == pre.outgoing_pings,
            post.yamux.spec_used() == pre.yamux.spec_used(),
        ensures
            post.wf_slots(),
    {
        assert forall|id: u32| #[trigger] post.yamux.spec_has(id) implies (
        match post.yamux.spec_user_data(id) {
            Some(slot) => {
                &&& slot_inv(slot)
                &&& (!slot.dropped@ ==> slot.written@ == post.yamux.spec_enqueued(id))
            },
            None => true,
        }) by {
            assert(pre.yamux.spec_has(id));
        }
        if post.yamux.spec_has(post.outgoing_pings) {
            assert(pre.yamux.spec_has(pre.outgoing_pings));
        }
    }

    /// Same, phrased for steps that promise per-substream framing.
    proof fn lemma_wf_stable_transfer_framed(pre: Self, post: Self)
        requires
            pre.wf_slots(),
            post.encryption.wf(),
            post.yamux.wf(),
            Yamux::<Option<Slot<TSubUd>>>::subs_framed(pre.yamux, post.yamux, Set::empty()),
            post.outgoing_pings == pre.outgoing_pings,
            post.yamux.spec_used() == pre.yamux.spec_used(),
        ensures
            post.wf_slots(),
    {
        assert forall|id: u32| #[trigger] post.yamux.spec_has(id) implies (
        match post.yamux.spec_user_data(id) {
            Some(slot) => {
                &&& slot_inv(slot)
                &&& (!slot.dropped@ ==> slot.written@ == post.yamux.spec_enqueued(id))
            },
            None => true,
        }) by {
            assert(!Set::<u32>::empty().contains(id));
            assert(pre.yamux.spec_has(id));
        }
        if post.yamux.spec_has(post.outgoing_pings) {
            assert(!Set::<u32>::empty().contains(post.outgoing_pings));
            assert(pre.yamux.spec_has(pre.outgoing_pings));
        }
    }

    /// The outgoing-frame pull keeps the connection well-formed.
    proof fn lemma_wf_extract_transfer(pre: Self, post: Self)
        requires
            pre.wf_slots(),
            post.encryption.wf(),
            Yamux::<Option<Slot<TSubUd>>>::extract_post(pre.yamux, post.yamux),
            post.outgoing_pings == pre.outgoing_pings,
        ensures
            post.wf_slots(),
    {
        assert forall|id: u32| #[trigger] post.yamux.spec_has(id) implies (
        match post.yamux.spec_user_data(id) {
            Some(slot) => {
                &&& slot_inv(slot)
                &&& (!slot.dropped@ ==> slot.written@ == post.yamux.spec_enqueued(id))
            },
            None => true,
        }) by {
            assert(pre.yamux.spec_has(id));
        }
        if post.yamux.spec_has(post.outgoing_pings) {
            assert(pre.yamux.spec_has(pre.outgoing_pings));
        }
    }

    /// Removing one dead substream keeps the connection well-formed.
    proof fn lemma_wf_remove_transfer(pre: Self, post: Self, raw: u32)
        requires
            pre.wf_slots(),
            post.encryption.wf(),
            post.yamux.wf(),
            !post.yamux.spec_has(raw),
            Yamux::<Option<Slot<TSubUd>>>::subs_framed(
                pre.yamux,
                post.yamux,
                Set::empty().insert(raw),
            ),
            post.outgoing_pings == pre.outgoing_pings,
            post.yamux.spec_used() == pre.yamux.spec_used(),
        ensures
            post.wf_slots(),
    {
        assert forall|id: u32| #[trigger] post.yamux.spec_has(id) implies (
        match post.yamux.spec_user_data(id) {
            Some(slot) => {
                &&& slot_inv(slot)
                &&& (!slot.dropped@ ==> slot.written@ == post.yamux.spec_enqueued(id))
            },
            None => true,
        }) by {
            assert(id != raw);
            assert(!Set::empty().insert(raw).contains(id));
            assert(pre.yamux.spec_has(id));
        }
        if post.yamux.spec_has(post.outgoing_pings) {
            assert(post.outgoing_pings != raw);
            assert(!Set::empty().insert(raw).contains(post.outgoing_pings));
            assert(pre.yamux.spec_has(pre.outgoing_pings));
        }
    }

    /// Replaces the user data of a substream, handing the old value back:
    /// what mutating through an index would do.
    pub fn set_user_data(&mut self, substream_id: SubstreamId, new: TSubUd) -> (r: TSubUd)
        requires
            old(self).wf(),
            old(self).spec_user_data(substream_id) is Some,
        ensures
            final(self).wf(),
            Some(r) == old(self).spec_user_data(substream_id),
            final(self).spec_user_data(substream_id) == Some(new),
            final(self).spec_machine(substream_id) == old(self).spec_machine(substream_id),
            final(self).spec_next_ping() == old(self).spec_next_ping(),
    {
        let SubstreamId(SubstreamIdInner::SingleStream(raw)) = substream_id;
        let ghost pre = *self;
        let mut slot = self.take_slot(raw);
        let mut r = Some(new);
        core::mem::swap(&mut slot.user_data, &mut r);
        self.put_slot(raw, slot);
        proof {
            assert(pre.yamux.spec_has(raw));
            if raw == pre.outgoing_pings {
                assert(false);
            }
            assert(Yamux::<Option<Slot<TSubUd>>>::subs_framed(
                pre.yamux,
                self.yamux,
                Set::empty().insert(raw),
            ));
            Self::lemma_wf_slots_transfer(pre, *self, raw);
        }
        match r {
            Some(r) => r,
            None => vstd::pervasive::unreached(),
        }
    }

    /// Borrows the user data of a substream.
    pub fn index(&self, substream_id: SubstreamId) -> (r: &TSubUd)
        requires
            self.wf(),
            self.spec_user_data(substream_id) is Some,
        ensures
            Some(*r) == self.spec_user_data(substream_id),
    {
        let SubstreamId(SubstreamIdInner::SingleStream(raw)) = substream_id;
        match self.yamux.user_data(raw) {
            Some(slot) => match &slot.user_data {
                Some(ud) => ud,
                None => vstd::pervasive::unreached(),
            },
            None => vstd::pervasive::unreached(),
        }
    }
}

impl<TSubUd> SingleStream<TSubUd> {
    /// Every plaintext byte the multiplexer delivered to a substream was
    /// either consumed by its protocol machine or still waits in the
    /// substream's buffer: bytes are neither invented nor lost between the
    /// multiplexer and the machines.
    pub proof fn lemma_substream_read_accounting(self, id: SubstreamId)
        requires
            self.wf(),
            self.spec_slot(id) is Some,
        ensures
            self.spec_slot(id)->0.received@ == self.spec_slot(id)->0.consumed@ + self.spec_slot(
                id,
            )->0.read_buffer@.len(),
    {
        let SubstreamId(SubstreamIdInner::SingleStream(raw)) = id;
        assert(self.yamux.spec_has(raw));
    }

    /// Every byte a substream's protocol machine wrote was handed to the
    /// multiplexer for that substream, as long as nothing had to be
    /// dropped: what the machine wrote never exceeds what the multiplexer
    /// was given.
    pub proof fn lemma_substream_write_accounting(self, id: SubstreamId)
        requires
            self.wf(),
            self.spec_slot(id) matches Some(slot) && !slot.dropped@,
        ensures
            self.spec_slot(id)->0.written@ == self.spec_mux_enqueued(id),
            self.spec_slot(id)->0.written@ <= self.spec_mux_enqueued(id),
    {
        let SubstreamId(SubstreamIdInner::SingleStream(raw)) = id;
        assert(self.yamux.spec_has(raw));
    }

    /// A present substream's id was assigned on this connection: together
    /// with the freshness promised by `add_request` and
    /// `open_notifications_substream`, an id never comes back once its
    /// substream is gone.
    pub proof fn lemma_substream_id_assigned(self, id: SubstreamId)
        requires
            self.wf(),
            self.spec_has_substream(id),
        ensures
            id matches SubstreamId(SubstreamIdInner::SingleStream(raw))
                && self.spec_used_ids().contains(raw),
    {
        let SubstreamId(SubstreamIdInner::SingleStream(raw)) = id;
        self.yamux.lemma_present_in_used(raw);
    }
}

/// Successfully negotiated connection, ready to be turned into a
/// [`SingleStream`].
pub struct ConnectionPrototype {
    encryption: Noise,
}

impl ConnectionPrototype {
    /// Builds a prototype around an established cipher state.
    pub fn from_noise_yamux(encryption: Noise) -> (r: ConnectionPrototype)
        requires
            encryption.wf(),
        ensures
            r.spec_encryption() == encryption,
    {
        ConnectionPrototype { encryption }
    }

    /// The cipher state this prototype wraps.
    pub closed spec fn spec_encryption(self) -> Noise {
        self.encryption
    }

    /// Extracts the cipher state from this prototype.
    pub fn into_noise_state_machine(self) -> (r: Noise)
        ensures
            r == self.spec_encryption(),
    {
        self.encryption
    }

    /// Turns this prototype into an actual connection.
    pub fn into_connection<TSubUd>(self, config: Config) -> (r: SingleStream<TSubUd>)
        requires
            self.spec_encryption().wf(),
        ensures
            r.wf(),
            r.spec_next_ping() == config.first_out_ping,
            r.spec_ping_interval() == config.ping_interval,
            r.spec_ping_timeout() == config.ping_timeout,
            r.spec_max_inbound_substreams() == config.max_inbound_substreams,
            r.spec_ping_seed() == config.randomness_seed@,
            r.spec_ping_rng_pos() == 0,
            r.spec_ping_substream_alive(),
            r.spec_machine(r.spec_ping_substream()) matches Some(m) && (m matches
                Substream::PingOut { protocol, neg_sent, pending, awaiting } && (protocol@
                == vstd::utf8::encode_utf8(config.ping_protocol@) && (neg_sent == false && (
            pending@ == Seq::<substream::PendingPing>::empty() && awaiting@ == Seq::<
                substream::PendingPing,
            >::empty())))),
            r.spec_user_data(r.spec_ping_substream()) is None,
            !r.spec_goaway_queued_or_sent(),
            !r.spec_received_goaway(),
            r.spec_tx_seed() == self.spec_encryption().tx_seed(),
            r.spec_tx_pos() == self.spec_encryption().spec_tx_pos(),
            r.spec_rx_seed() == self.spec_encryption().rx_seed(),
            r.spec_rx_pos() == self.spec_encryption().spec_rx_pos(),
    {
        let is_initiator = self.encryption.is_initiator();
        let mut yamux: Yamux<Option<Slot<TSubUd>>> = Yamux::new(is_initiator);
        let machine = Substream::ping_out(config.ping_protocol.as_str().as_bytes_vec());
        let slot = Slot {
            machine,
            user_data: None,
            read_buffer: Vec::new(),
            received: Ghost(0nat),
            consumed: Ghost(0nat),
            written: Ghost(0nat),
            dropped: Ghost(false),
        };
        let outgoing_pings = yamux.open_substream(Some(slot));
        let randomness = crate::rng::chacha20_from_seed(&config.randomness_seed);
        SingleStream {
            encryption: self.encryption,
            yamux,
            substream_to_process: None,
            outgoing_pings,
            next_ping: config.first_out_ping,
            ping_payload_randomness: randomness,
            max_inbound_substreams: config.max_inbound_substreams,
            max_protocol_name_len: config.max_protocol_name_len,
            ping_interval: config.ping_interval,
            ping_timeout: config.ping_timeout,
        }
    }
}

} // verus!
