//! Per-substream sub-protocol state machine: protocol negotiation,
//! request/response, notification streams, and the keep-alive ping.
//!
//! On the wire, the opener first announces the protocol name as a 4-byte
//! big-endian length followed by the name itself. Acceptance is implicit in
//! the responder continuing the protocol; rejection closes the responder's
//! write side. Requests, responses, handshakes and notifications all travel
//! as 4-byte big-endian length prefixes followed by the body; ping payloads
//! are raw 32-byte messages echoed verbatim.

use vstd::prelude::*;
use crate::bytesutil::bytes_to_string;
use crate::bytesutil::copy_bytes;
use crate::bytesutil::eq_bytes;
use crate::bytesutil::push_be32;
use crate::bytesutil::read_be32;
use crate::rw::ReadWrite;

verus! {

/// Length of a ping payload.
pub const PING_PAYLOAD_LEN: usize = 32;

/// What went wrong on an inbound substream before or after acceptance.
#[derive(Clone, Copy, PartialEq, Eq, Structural, Debug)]
pub enum InboundError {
    /// The announced protocol name exceeds the configured maximum.
    NameTooLong,
    /// The protocol name is not UTF-8.
    NameNotUtf8,
    /// The remote closed before finishing what it had announced.
    UnexpectedEof,
    /// A received message exceeds the configured maximum.
    MessageTooLong,
}

/// Why an outgoing request failed.
#[derive(Clone, Copy, PartialEq, Eq, Structural, Debug)]
pub enum RequestError {
    /// No response arrived before the timeout.
    Timeout,
    /// The remote closed the substream without a full response; it may have
    /// rejected the protocol.
    SubstreamClosed,
    /// The substream was reset.
    SubstreamReset,
    /// The response exceeds the configured maximum.
    ResponseTooLarge,
}

/// Why an outgoing notifications substream failed to open, or was torn down.
#[derive(Clone, Copy, PartialEq, Eq, Structural, Debug)]
pub enum NotificationsOutErr {
    /// The remote closed the substream during the handshake; it may have
    /// rejected the protocol.
    Refused,
    /// The remote handshake did not arrive before the timeout.
    Timeout,
    /// The substream was reset.
    SubstreamReset,
    /// The remote handshake exceeds the configured maximum.
    HandshakeTooLarge,
}

/// Why an inbound notifications substream ended.
#[derive(Clone, Copy, PartialEq, Eq, Structural, Debug)]
pub enum NotificationsInClosedErr {
    /// The substream was reset.
    SubstreamReset,
    /// A notification exceeded the configured maximum.
    MessageTooLong,
}

/// Answering a request that is no longer answerable.
#[derive(Clone, Copy, PartialEq, Eq, Structural, Debug)]
pub enum RespondInRequestError {
    /// The substream is not waiting for this response.
    SubstreamClosed,
}

/// What an inbound substream negotiated to, set by the accepting caller.
pub enum InboundTy {
    /// Request/response: one request, one response, then close.
    Request { request_max_size: Option<usize> },
    /// Notification stream opened by the remote.
    Notifications { max_handshake_size: usize },
    /// Keep-alive ping: echo every payload.
    Ping,
}

/// Event emitted by the state machine, before the connection driver tags it
/// with the substream id and moves user data.
pub enum Event {
    InboundError { error: InboundError, was_accepted: bool },
    InboundNegotiated(String),
    InboundNegotiatedCancel,
    RequestIn { request: Vec<u8> },
    Response { response: Result<Vec<u8>, RequestError> },
    NotificationsInOpen { handshake: Vec<u8> },
    NotificationsInOpenCancel,
    NotificationIn { notification: Vec<u8> },
    NotificationsInClose { outcome: Result<(), NotificationsInClosedErr> },
    NotificationsOutResult { result: Result<Vec<u8>, NotificationsOutErr> },
    NotificationsOutCloseDemanded,
    NotificationsOutReset,
    PingOutSuccess,
    PingOutError,
}

/// Whether this event hands the caller's user data back, so that the slot
/// it comes from must still hold one.
pub open spec fn event_moves_user_data(e: Event) -> bool {
    match e {
        Event::InboundError { error, was_accepted } => was_accepted,
        Event::Response { .. } => true,
        Event::NotificationsInClose { .. } => true,
        Event::NotificationsOutResult { result } => result is Err,
        Event::NotificationsOutReset => true,
        _ => false,
    }
}

/// States in which the substream's slot must hold the caller's user data.
pub open spec fn machine_holds_user_data(m: Substream) -> bool {
    ||| m is RequestInRecv
    ||| m is RequestInWait
    ||| m is RequestOut
    ||| m is NotificationsInHandshake
    ||| m is NotificationsInWait
    ||| m is NotificationsIn
    ||| m is NotificationsOutNegotiating
    ||| m is NotificationsOut
}

/// What reading one length-prefixed message from a buffer yields.
pub enum MsgOutcome {
    /// The message is not complete yet.
    NotEnough,
    /// The announced length exceeds the allowed maximum.
    TooLong,
    /// The payload, and how many bytes the whole message occupies.
    Msg(Seq<u8>, nat),
}

/// Reading one 4-byte-length-prefixed message off the front of `buf`,
/// with payloads over `max` refused.
pub open spec fn spec_msg(buf: Seq<u8>, max: nat) -> MsgOutcome {
    if buf.len() < 4 {
        MsgOutcome::NotEnough
    } else {
        let l = crate::bytesutil::be32_val(buf.take(4));
        if l > max {
            MsgOutcome::TooLong
        } else if buf.len() < 4 + l {
            MsgOutcome::NotEnough
        } else {
            MsgOutcome::Msg(buf.subrange(4, 4 + l as int), (4 + l) as nat)
        }
    }
}

/// One queued outgoing ping: the payload and its deadline.
pub struct PendingPing {
    pub payload: Vec<u8>,
    pub deadline: u64,
}

/// The state machine of one substream.
pub enum Substream {
    /// Inbound, reading the protocol-name announcement.
    Ingoing { max_protocol_name_len: usize },
    /// Inbound, name reported, waiting for the accept or reject call.
    IngoingWait,
    /// Accepted request substream, reading the request.
    RequestInRecv { request_max_size: Option<usize> },
    /// Request reported, waiting for the response call.
    RequestInWait,
    /// Response handed over, to be flushed out.
    RequestInSend { response: Vec<u8> },
    /// Outgoing request: announce, send, then await the response.
    RequestOut {
        protocol: Vec<u8>,
        request: Option<Vec<u8>>,
        timeout: u64,
        max_response_size: usize,
        sent: bool,
    },
    /// Accepted notifications substream, reading the remote handshake.
    NotificationsInHandshake { max_handshake_size: usize },
    /// Handshake reported, waiting for the accept or reject call.
    NotificationsInWait,
    /// Open inbound notification stream.
    NotificationsIn { max_notification_size: usize, pending_handshake: Option<Vec<u8>> },
    /// Outgoing notifications substream in its handshake phase.
    NotificationsOutNegotiating {
        protocol: Vec<u8>,
        handshake: Vec<u8>,
        timeout: u64,
        max_handshake_size: usize,
        sent: bool,
    },
    /// Open outbound notification stream.
    NotificationsOut { queue: Vec<u8>, close_demanded: bool, closing: bool },
    /// Accepted ping substream: echo everything.
    PingIn,
    /// Outgoing ping substream.
    PingOut { protocol: Vec<u8>, neg_sent: bool, pending: Vec<PendingPing>, awaiting: Vec<PendingPing> },
    /// Write side closed or about to close; draining until the remote
    /// closes too.
    Closing,
}


/// The scratchpad gained exactly one outbound chunk with this content.
pub open spec fn spec_pushed_one(pre_rw: ReadWrite, post_rw: ReadWrite, content: Seq<u8>) -> bool {
    &&& post_rw.write_buffers@.len() == pre_rw.write_buffers@.len() + 1
    &&& post_rw.write_buffers@.take(pre_rw.write_buffers@.len() as int) == pre_rw.write_buffers@
    &&& post_rw.write_buffers@.last()@ == content
}

/// The wire form of one length-prefixed message.
pub open spec fn spec_framed(payload: Seq<u8>) -> Seq<u8> {
    crate::bytesutil::be32(payload.len() as u32) + payload
}

/// What one step of the machine does, state by state: which bytes it
/// consumes, what it queues, the state it moves to and the event it
/// reports. `next` of `None` means the substream is finished.
#[verifier::opaque]
pub open spec fn spec_step_post(
    m: Substream,
    pre_rw: ReadWrite,
    post_rw: ReadWrite,
    next: Option<Substream>,
    ev: Option<Event>,
) -> bool {
    let read_closed = pre_rw.expected_incoming_bytes is None;
    let write_open = pre_rw.write_bytes_queueable is Some;
    let buf = pre_rw.incoming_buffer@;
    let cap = pre_rw.spec_queueable();
    match m {
        Substream::Ingoing { max_protocol_name_len } => match spec_msg(
            buf,
            max_protocol_name_len as nat,
        ) {
            MsgOutcome::TooLong => post_rw == pre_rw && next is None && ev == Some(
                Event::InboundError {
                    error: InboundError::NameTooLong,
                    was_accepted: false,
                },
            ),
            MsgOutcome::Msg(mm, c) => {
                &&& post_rw.incoming_buffer@ == buf.skip(c as int)
                &&& post_rw.write_buffers == pre_rw.write_buffers
                &&& if vstd::utf8::valid_utf8(mm) {
                    &&& next == Some(Substream::IngoingWait)
                    &&& (ev matches Some(Event::InboundNegotiated(name))
                        && vstd::utf8::encode_utf8(name@) == mm)
                } else {
                    next is None && ev == Some(
                        Event::InboundError {
                            error: InboundError::NameNotUtf8,
                            was_accepted: false,
                        },
                    )
                }
            },
            MsgOutcome::NotEnough => if read_closed {
                post_rw == pre_rw && next is None && ev == Some(
                    Event::InboundError {
                        error: InboundError::UnexpectedEof,
                        was_accepted: false,
                    },
                )
            } else {
                post_rw == pre_rw && next == Some(m) && ev is None
            },
        },
        Substream::IngoingWait => post_rw == pre_rw && (if read_closed {
            next is None && ev == Some(Event::InboundNegotiatedCancel)
        } else {
            next == Some(m) && ev is None
        }),
        Substream::RequestInRecv { request_max_size } => match request_max_size {
            None => post_rw == pre_rw && next == Some(Substream::RequestInWait) && (ev matches Some(
                Event::RequestIn { request },
            ) && request@ == Seq::<u8>::empty()),
            Some(mx) => match spec_msg(buf, mx as nat) {
                MsgOutcome::TooLong => post_rw == pre_rw && next is None && ev == Some(
                    Event::InboundError {
                        error: InboundError::MessageTooLong,
                        was_accepted: true,
                    },
                ),
                MsgOutcome::Msg(mm, c) => {
                    &&& post_rw.incoming_buffer@ == buf.skip(c as int)
                    &&& post_rw.write_buffers == pre_rw.write_buffers
                    &&& next == Some(Substream::RequestInWait)
                    &&& (ev matches Some(Event::RequestIn { request }) && request@ == mm)
                },
                MsgOutcome::NotEnough => if read_closed {
                    post_rw == pre_rw && next is None && ev == Some(
                        Event::InboundError {
                            error: InboundError::UnexpectedEof,
                            was_accepted: true,
                        },
                    )
                } else {
                    post_rw == pre_rw && next == Some(m) && ev is None
                },
            },
        },
        Substream::RequestInWait => post_rw == pre_rw && next == Some(m) && ev is None,
        Substream::RequestInSend { response } => if response@.len() > 0xffff_ffff || !write_open {
            post_rw == pre_rw && next == Some(Substream::Closing) && ev is None
        } else if cap >= 4 + response@.len() {
            &&& spec_pushed_one(pre_rw, post_rw, spec_framed(response@))
            &&& post_rw.write_bytes_queueable is None
            &&& post_rw.incoming_buffer == pre_rw.incoming_buffer
            &&& next == Some(Substream::Closing)
            &&& ev is None
        } else {
            post_rw == pre_rw && next == Some(m) && ev is None
        },
        Substream::RequestOut { protocol, request, timeout, max_response_size, sent } => if !sent {
            let oversize = protocol@.len() > 0xffff_ffff || (request matches Some(r) && r@.len()
                > 0xffff_fffb);
            let cost = 4 + protocol@.len() + (match request {
                Some(r) => 4 + r@.len(),
                None => 0nat,
            });
            if oversize || !write_open {
                post_rw == pre_rw && next is None && ev == Some(
                    Event::Response { response: Err(RequestError::SubstreamClosed) },
                )
            } else if cap >= cost {
                &&& post_rw.incoming_buffer == pre_rw.incoming_buffer
                &&& post_rw.write_bytes_queueable is None
                &&& (match request {
                    None => spec_pushed_one(pre_rw, post_rw, spec_framed(protocol@)),
                    Some(r) => {
                        &&& post_rw.write_buffers@.len() == pre_rw.write_buffers@.len() + 2
                        &&& post_rw.write_buffers@.take(pre_rw.write_buffers@.len() as int)
                            == pre_rw.write_buffers@
                        &&& post_rw.write_buffers@[pre_rw.write_buffers@.len() as int]@
                            == spec_framed(protocol@)
                        &&& post_rw.write_buffers@.last()@ == spec_framed(r@)
                    },
                })
                &&& next == Some(
                    Substream::RequestOut {
                        protocol,
                        request,
                        timeout,
                        max_response_size,
                        sent: true,
                    },
                )
                &&& ev is None
            } else {
                post_rw == pre_rw && next == Some(m) && ev is None
            }
        } else if pre_rw.now >= timeout {
            post_rw == pre_rw && next is None && ev == Some(
                Event::Response { response: Err(RequestError::Timeout) },
            )
        } else {
            match spec_msg(buf, max_response_size as nat) {
                MsgOutcome::Msg(mm, c) => {
                    &&& post_rw.incoming_buffer@ == buf.skip(c as int)
                    &&& post_rw.write_buffers == pre_rw.write_buffers
                    &&& next == Some(Substream::Closing)
                    &&& (ev matches Some(Event::Response { response }) && (response matches Ok(v)
                        && v@ == mm))
                },
                MsgOutcome::TooLong => post_rw == pre_rw && next is None && ev == Some(
                    Event::Response { response: Err(RequestError::ResponseTooLarge) },
                ),
                MsgOutcome::NotEnough => if read_closed {
                    post_rw == pre_rw && next is None && ev == Some(
                        Event::Response { response: Err(RequestError::SubstreamClosed) },
                    )
                } else {
                    &&& post_rw.incoming_buffer == pre_rw.incoming_buffer
                    &&& post_rw.write_buffers == pre_rw.write_buffers
                    &&& next == Some(m)
                    &&& ev is None
                },
            }
        },
        Substream::NotificationsInHandshake { max_handshake_size } => match spec_msg(
            buf,
            max_handshake_size as nat,
        ) {
            MsgOutcome::TooLong => post_rw == pre_rw && next is None && ev == Some(
                Event::InboundError {
                    error: InboundError::MessageTooLong,
                    was_accepted: true,
                },
            ),
            MsgOutcome::Msg(mm, c) => {
                &&& post_rw.incoming_buffer@ == buf.skip(c as int)
                &&& post_rw.write_buffers == pre_rw.write_buffers
                &&& next == Some(Substream::NotificationsInWait)
                &&& (ev matches Some(Event::NotificationsInOpen { handshake }) && handshake@ == mm)
            },
            MsgOutcome::NotEnough => if read_closed {
                post_rw == pre_rw && next is None && ev == Some(
                    Event::InboundError {
                        error: InboundError::UnexpectedEof,
                        was_accepted: true,
                    },
                )
            } else {
                post_rw == pre_rw && next == Some(m) && ev is None
            },
        },
        Substream::NotificationsInWait => post_rw == pre_rw && (if read_closed {
            next is None && ev == Some(Event::NotificationsInOpenCancel)
        } else {
            next == Some(m) && ev is None
        }),
        Substream::NotificationsIn { max_notification_size, pending_handshake } => match pending_handshake {
            Some(hs) => if !write_open {
                post_rw == pre_rw && next is None && ev == Some(
                    Event::NotificationsInClose {
                        outcome: Err(NotificationsInClosedErr::SubstreamReset),
                    },
                )
            } else if hs@.len() <= 0xffff_ffff && cap >= 4 + hs@.len() {
                &&& spec_pushed_one(pre_rw, post_rw, spec_framed(hs@))
                &&& post_rw.incoming_buffer == pre_rw.incoming_buffer
                &&& next == Some(
                    Substream::NotificationsIn { max_notification_size, pending_handshake: None },
                )
                &&& ev is None
            } else {
                post_rw == pre_rw && next == Some(m) && ev is None
            },
            None => match spec_msg(buf, max_notification_size as nat) {
                MsgOutcome::Msg(mm, c) => {
                    &&& post_rw.incoming_buffer@ == buf.skip(c as int)
                    &&& post_rw.write_buffers == pre_rw.write_buffers
                    &&& next == Some(m)
                    &&& (ev matches Some(Event::NotificationIn { notification })
                        && notification@ == mm)
                },
                MsgOutcome::TooLong => post_rw == pre_rw && next is None && ev == Some(
                    Event::NotificationsInClose {
                        outcome: Err(NotificationsInClosedErr::MessageTooLong),
                    },
                ),
                MsgOutcome::NotEnough => if read_closed {
                    post_rw == pre_rw && next is None && ev == Some(
                        Event::NotificationsInClose { outcome: Ok(()) },
                    )
                } else {
                    post_rw == pre_rw && next == Some(m) && ev is None
                },
            },
        },
        Substream::NotificationsOutNegotiating {
            protocol,
            handshake,
            timeout,
            max_handshake_size,
            sent,
        } => if !sent {
            let oversize = protocol@.len() > 0xffff_ffff || handshake@.len() > 0xffff_fffb;
            if oversize || !write_open {
                post_rw == pre_rw && next is None && ev == Some(
                    Event::NotificationsOutResult { result: Err(NotificationsOutErr::Refused) },
                )
            } else if cap >= 4 + protocol@.len() + 4 + handshake@.len() {
                &&& post_rw.incoming_buffer == pre_rw.incoming_buffer
                &&& post_rw.write_buffers@.len() == pre_rw.write_buffers@.len() + 2
                &&& post_rw.write_buffers@.take(pre_rw.write_buffers@.len() as int)
                    == pre_rw.write_buffers@
                &&& post_rw.write_buffers@[pre_rw.write_buffers@.len() as int]@ == spec_framed(
                    protocol@,
                )
                &&& post_rw.write_buffers@.last()@ == spec_framed(handshake@)
                &&& next == Some(
                    Substream::NotificationsOutNegotiating {
                        protocol,
                        handshake,
                        timeout,
                        max_handshake_size,
                        sent: true,
                    },
                )
                &&& ev is None
            } else {
                post_rw == pre_rw && next == Some(m) && ev is None
            }
        } else if pre_rw.now >= timeout {
            post_rw == pre_rw && next is None && ev == Some(
                Event::NotificationsOutResult { result: Err(NotificationsOutErr::Timeout) },
            )
        } else {
            match spec_msg(buf, max_handshake_size as nat) {
                MsgOutcome::Msg(mm, c) => {
                    &&& post_rw.incoming_buffer@ == buf.skip(c as int)
                    &&& post_rw.write_buffers == pre_rw.write_buffers
                    &&& (next matches Some(nm) && (nm matches Substream::NotificationsOut {
                        queue,
                        close_demanded,
                        closing,
                    } && (queue@ == Seq::<u8>::empty() && !close_demanded && !closing)))
                    &&& (ev matches Some(Event::NotificationsOutResult { result })
                        && (result matches Ok(v) && v@ == mm))
                },
                MsgOutcome::TooLong => post_rw == pre_rw && next is None && ev == Some(
                    Event::NotificationsOutResult {
                        result: Err(NotificationsOutErr::HandshakeTooLarge),
                    },
                ),
                MsgOutcome::NotEnough => if read_closed {
                    post_rw == pre_rw && next is None && ev == Some(
                        Event::NotificationsOutResult {
                            result: Err(NotificationsOutErr::Refused),
                        },
                    )
                } else {
                    &&& post_rw.incoming_buffer == pre_rw.incoming_buffer
                    &&& post_rw.write_buffers == pre_rw.write_buffers
                    &&& next == Some(m)
                    &&& ev is None
                },
            }
        },
        Substream::NotificationsOut { queue, close_demanded, closing } => {
            &&& post_rw.incoming_buffer@.len() == 0
            &&& post_rw.read_bytes == pre_rw.read_bytes + buf.len()
            &&& if !write_open {
                next is None && ev == Some(Event::NotificationsOutReset)
            } else if queue@.len() > 0 && cap >= queue@.len() {
                &&& spec_pushed_one(pre_rw, post_rw, queue@)
                &&& (next matches Some(nm) && (nm matches Substream::NotificationsOut {
                    queue: q2,
                    close_demanded: cd2,
                    closing: cl2,
                } && (q2@ == Seq::<u8>::empty() && cd2 == close_demanded && cl2 == closing)))
                &&& ev is None
            } else if queue@.len() == 0 && closing {
                &&& post_rw.write_bytes_queueable is None
                &&& next == Some(Substream::Closing)
                &&& ev is None
            } else if read_closed && !close_demanded {
                &&& (next matches Some(nm) && (nm matches Substream::NotificationsOut {
                    queue: q2,
                    close_demanded: cd2,
                    closing: cl2,
                } && (q2 == queue && cd2 == true && cl2 == closing)))
                &&& ev == Some(Event::NotificationsOutCloseDemanded)
            } else {
                next == Some(m) && ev is None
            }
        },
        Substream::PingIn => if !write_open {
            post_rw == pre_rw && next == Some(Substream::Closing) && ev is None
        } else if buf.len() > 0 && cap >= buf.len() {
            &&& post_rw.incoming_buffer@.len() == 0
            &&& spec_pushed_one(pre_rw, post_rw, buf)
            &&& next == Some(Substream::PingIn)
            &&& ev is None
        } else if buf.len() == 0 && read_closed {
            post_rw == pre_rw && next == Some(Substream::Closing) && ev is None
        } else {
            post_rw == pre_rw && next == Some(Substream::PingIn) && ev is None
        },
        Substream::PingOut { protocol, neg_sent, pending, awaiting } => {
            &&& next is Some && next->0 is PingOut
            &&& (awaiting@.len() > 0 ==> (if buf.len() >= 32 {
                ev == Some(
                    if buf.take(32) == awaiting@[0].payload@ {
                        Event::PingOutSuccess
                    } else {
                        Event::PingOutError
                    },
                )
            } else if pre_rw.now >= awaiting@[0].deadline || read_closed {
                ev == Some(Event::PingOutError)
            } else {
                ev is None
            }))
            &&& (awaiting@.len() == 0 && pending@.len() == 0 ==> ev is None)
        },
        Substream::Closing => {
            &&& post_rw.incoming_buffer@.len() == 0
            &&& post_rw.write_bytes_queueable is None
            &&& ev is None
            &&& next == (if read_closed {
                Option::<Substream>::None
            } else {
                Some(Substream::Closing)
            })
        },
    }
}

impl Substream {
    /// A fresh inbound substream, about to negotiate.
    pub fn ingoing(max_protocol_name_len: usize) -> (r: Substream)
        ensures
            r == (Substream::Ingoing { max_protocol_name_len }),
    {
        Substream::Ingoing { max_protocol_name_len }
    }

    /// A fresh outgoing request substream.
    pub fn request_out(
        protocol: Vec<u8>,
        timeout: u64,
        request: Option<Vec<u8>>,
        max_response_size: usize,
    ) -> (r: Substream)
        ensures
            r == (Substream::RequestOut {
                protocol,
                request,
                timeout,
                max_response_size,
                sent: false,
            }),
    {
        Substream::RequestOut { protocol, request, timeout, max_response_size, sent: false }
    }

    /// A fresh outgoing notifications substream.
    pub fn notifications_out(
        timeout: u64,
        protocol: Vec<u8>,
        handshake: Vec<u8>,
        max_handshake_size: usize,
    ) -> (r: Substream)
        ensures
            r == (Substream::NotificationsOutNegotiating {
                protocol,
                handshake,
                timeout,
                max_handshake_size,
                sent: false,
            }),
    {
        Substream::NotificationsOutNegotiating {
            protocol,
            handshake,
            timeout,
            max_handshake_size,
            sent: false,
        }
    }

    /// A fresh outgoing ping substream.
    pub fn ping_out(protocol: Vec<u8>) -> (r: Substream)
        ensures
            r matches Substream::PingOut { protocol: p, neg_sent, pending, awaiting } && (p
                == protocol && (neg_sent == false && (pending@ == Seq::<PendingPing>::empty()
                && awaiting@ == Seq::<PendingPing>::empty()))),
    {
        Substream::PingOut { protocol, neg_sent: false, pending: Vec::new(), awaiting: Vec::new() }
    }

    /// Accepts a negotiated inbound substream as the given protocol type.
    pub fn accept_inbound(&mut self, ty: InboundTy)
        requires
            *old(self) is IngoingWait,
        ensures
            *final(self) == match ty {
                InboundTy::Request { request_max_size } => Substream::RequestInRecv {
                    request_max_size,
                },
                InboundTy::Notifications { max_handshake_size } => {
                    Substream::NotificationsInHandshake { max_handshake_size }
                },
                InboundTy::Ping => Substream::PingIn,
            },
    {
        match ty {
            InboundTy::Request { request_max_size } => {
                *self = Substream::RequestInRecv { request_max_size };
            },
            InboundTy::Notifications { max_handshake_size } => {
                *self = Substream::NotificationsInHandshake { max_handshake_size };
            },
            InboundTy::Ping => {
                *self = Substream::PingIn;
            },
        }
    }

    /// Rejects a negotiated inbound substream.
    pub fn reject_inbound(&mut self)
        requires
            *old(self) is IngoingWait,
        ensures
            *final(self) is Closing,
    {
        *self = Substream::Closing;
    }

    /// Accepts an inbound notifications substream, handing back the local
    /// handshake.
    pub fn accept_in_notifications_substream(
        &mut self,
        handshake: Vec<u8>,
        max_notification_size: usize,
    )
        requires
            *old(self) is NotificationsInWait,
        ensures
            *final(self) matches Substream::NotificationsIn {
                max_notification_size: m,
                pending_handshake: p,
            } && (m == max_notification_size && (p matches Some(h) && h@ == handshake@)),
    {
        *self = Substream::NotificationsIn {
            max_notification_size,
            pending_handshake: Some(handshake),
        };
    }

    /// Rejects an inbound notifications substream.
    pub fn reject_in_notifications_substream(&mut self)
        requires
            *old(self) is NotificationsInWait,
        ensures
            *final(self) is Closing,
    {
        *self = Substream::Closing;
    }

    /// Queues one notification on an open outbound notification stream.
    pub fn write_notification_unbounded(&mut self, notification: Vec<u8>)
        requires
            *old(self) is NotificationsOut,
            old(self)->NotificationsOut_queue@.len() + 4 + notification@.len() <= usize::MAX,
            notification@.len() <= u32::MAX,
        ensures
            *final(self) is NotificationsOut,
            final(self)->NotificationsOut_queue@ == old(self)->NotificationsOut_queue@
                + crate::bytesutil::be32(notification@.len() as u32) + notification@,
            final(self)->NotificationsOut_close_demanded == old(
                self,
            )->NotificationsOut_close_demanded,
            final(self)->NotificationsOut_closing == old(self)->NotificationsOut_closing,
    {
        match self {
            Substream::NotificationsOut { queue, close_demanded, closing } => {
                push_be32(queue, notification.len() as u32);
                let mut n = notification;
                queue.append(&mut n);
            },
            _ => {
                proof {
                    assert(false);
                }
            },
        }
    }

    /// Bytes queued inside the machine for an outbound notification stream.
    pub fn notification_substream_queued_bytes(&self) -> (r: usize)
        requires
            *self is NotificationsOut,
        ensures
            r == self->NotificationsOut_queue@.len(),
    {
        match self {
            Substream::NotificationsOut { queue, close_demanded, closing } => queue.len(),
            _ => vstd::pervasive::unreached(),
        }
    }

    /// Closes a notification stream: remaining queued bytes go out first.
    /// An outgoing stream still in its handshake phase is abandoned.
    pub fn close_notifications_substream(&mut self)
        requires
            *old(self) is NotificationsOut || *old(self) is NotificationsIn || *old(
                self,
            ) is NotificationsOutNegotiating,
        ensures
            *final(self) == (match *old(self) {
                Substream::NotificationsOut { queue, close_demanded, closing } => {
                    Substream::NotificationsOut { queue, close_demanded, closing: true }
                },
                _ => Substream::Closing,
            }),
    {
        let mut taken = Substream::Closing;
        core::mem::swap(self, &mut taken);
        match taken {
            Substream::NotificationsOut { queue, close_demanded, closing } => {
                *self = Substream::NotificationsOut { queue, close_demanded, closing: true };
            },
            _ => {},
        }
    }

    /// Hands over the response to a received request.
    pub fn respond_in_request(&mut self, response: Result<Vec<u8>, ()>) -> (r: Result<
        (),
        RespondInRequestError,
    >)
        ensures
            r is Ok <==> *old(self) is RequestInWait,
            r is Err ==> *final(self) == *old(self),
            r is Ok ==> *final(self) == (match response {
                Ok(bytes) => Substream::RequestInSend { response: bytes },
                Err(()) => Substream::Closing,
            }),
    {
        match self {
            Substream::RequestInWait => {
                match response {
                    Ok(bytes) => {
                        *self = Substream::RequestInSend { response: bytes };
                    },
                    Err(()) => {
                        *self = Substream::Closing;
                    },
                }
                Ok(())
            },
            _ => Err(RespondInRequestError::SubstreamClosed),
        }
    }

    /// Queues one outgoing ping with its deadline.
    pub fn queue_ping(&mut self, payload: &Vec<u8>, deadline: u64)
        requires
            *old(self) is PingOut,
            payload@.len() == PING_PAYLOAD_LEN,
        ensures
            *final(self) is PingOut,
            final(self)->PingOut_protocol == old(self)->PingOut_protocol,
            final(self)->PingOut_neg_sent == old(self)->PingOut_neg_sent,
            final(self)->PingOut_awaiting == old(self)->PingOut_awaiting,
            final(self)->PingOut_pending@ == old(self)->PingOut_pending@.push(
                final(self)->PingOut_pending@.last(),
            ),
            final(self)->PingOut_pending@.last().payload@ == payload@,
            final(self)->PingOut_pending@.last().deadline == deadline,
    {
        let p = copy_bytes(payload);
        match self {
            Substream::PingOut { protocol, neg_sent, pending, awaiting } => {
                pending.push(PendingPing { payload: p, deadline });
            },
            _ => {
                proof {
                    assert(false);
                }
            },
        }
    }

    /// The final event of a substream that was reset abruptly.
    pub fn reset(self) -> (r: Option<Event>)
        ensures
            (r matches Some(e) && event_moves_user_data(e)) ==> machine_holds_user_data(self),
    {
        match self {
            Substream::Ingoing { .. } => None,
            Substream::IngoingWait => Some(Event::InboundNegotiatedCancel),
            Substream::RequestInRecv { .. } => Some(
                Event::InboundError { error: InboundError::UnexpectedEof, was_accepted: true },
            ),
            Substream::RequestInWait => Some(
                Event::InboundError { error: InboundError::UnexpectedEof, was_accepted: true },
            ),
            Substream::RequestInSend { .. } => None,
            Substream::RequestOut { .. } => Some(
                Event::Response { response: Err(RequestError::SubstreamReset) },
            ),
            Substream::NotificationsInHandshake { .. } => Some(
                Event::InboundError { error: InboundError::UnexpectedEof, was_accepted: true },
            ),
            Substream::NotificationsInWait => Some(Event::NotificationsInOpenCancel),
            Substream::NotificationsIn { .. } => Some(
                Event::NotificationsInClose {
                    outcome: Err(NotificationsInClosedErr::SubstreamReset),
                },
            ),
            Substream::NotificationsOutNegotiating { .. } => Some(
                Event::NotificationsOutResult {
                    result: Err(NotificationsOutErr::SubstreamReset),
                },
            ),
            Substream::NotificationsOut { .. } => Some(Event::NotificationsOutReset),
            Substream::PingIn => None,
            Substream::PingOut { .. } => None,
            Substream::Closing => None,
        }
    }
}


/// Outcome of trying to read one length-prefixed message.
enum MsgRead {
    /// Not enough bytes yet; nothing was consumed.
    NotEnough,
    /// The announced length exceeds the given maximum; nothing was consumed.
    TooLong,
    /// A whole message, consumed from the buffer.
    Msg(Vec<u8>),
}

/// Reads one length-prefixed message if it is complete and within `max`.
fn try_read_msg(rw: &mut ReadWrite, max: usize) -> (r: MsgRead)
    requires
        old(rw).wf(),
    ensures
        ReadWrite::rw_step(*old(rw), *final(rw)),
        final(rw).expected_incoming_bytes == old(rw).expected_incoming_bytes,
        final(rw).write_buffers == old(rw).write_buffers,
        final(rw).write_bytes_queueable == old(rw).write_bytes_queueable,
        final(rw).wake_up_after == old(rw).wake_up_after,
        match spec_msg(old(rw).incoming_buffer@, max as nat) {
            MsgOutcome::NotEnough => r is NotEnough && *final(rw) == *old(rw),
            MsgOutcome::TooLong => r is TooLong && *final(rw) == *old(rw),
            MsgOutcome::Msg(m, c) => {
                &&& r matches MsgRead::Msg(v) && v@ == m
                &&& final(rw).incoming_buffer@ == old(rw).incoming_buffer@.skip(c as int)
                &&& final(rw).read_bytes == old(rw).read_bytes + c
            },
        },
{
    let avail = rw.incoming_buffer.len();
    if avail < 4 {
        proof {
            ReadWrite::lemma_rw_step_refl(*old(rw));
        }
        return MsgRead::NotEnough;
    }
    let l = read_be32(&rw.incoming_buffer, 0) as usize;
    proof {
        let b = rw.incoming_buffer@;
        crate::bytesutil::lemma_be32_val(l as u32);
        assert(b.subrange(0, 4) =~= b.take(4));
        assert(crate::bytesutil::be32_val(b.take(4)) == l);
    }
    if l > max {
        proof {
            ReadWrite::lemma_rw_step_refl(*old(rw));
        }
        return MsgRead::TooLong;
    }
    if avail - 4 < l {
        proof {
            ReadWrite::lemma_rw_step_refl(*old(rw));
        }
        return MsgRead::NotEnough;
    }
    let ghost a = *rw;
    let header = rw.incoming_bytes_take(4);
    let ghost b = *rw;
    let m = rw.incoming_bytes_take(l);
    proof {
        ReadWrite::lemma_rw_step_trans(a, b, *rw);
        assert(m@ =~= a.incoming_buffer@.subrange(4, 4 + l as int));
        assert(rw.incoming_buffer@ =~= a.incoming_buffer@.skip(4 + l as int));
    }
    MsgRead::Msg(m)
}

/// Writes one length-prefixed message.
fn write_msg(rw: &mut ReadWrite, data: Vec<u8>)
    requires
        old(rw).wf(),
        data@.len() <= u32::MAX,
        old(rw).write_bytes_queueable is Some,
        4 + data@.len() <= old(rw).spec_queueable(),
    ensures
        ReadWrite::rw_step(*old(rw), *final(rw)),
        final(rw).expected_incoming_bytes == old(rw).expected_incoming_bytes,
        final(rw).incoming_buffer == old(rw).incoming_buffer,
        final(rw).read_bytes == old(rw).read_bytes,
        final(rw).wake_up_after == old(rw).wake_up_after,
        final(rw).write_bytes_queueable is Some,
        final(rw).spec_queueable() == old(rw).spec_queueable() - 4 - data@.len(),
        final(rw).write_buffers@ == old(rw).write_buffers@.push(final(rw).write_buffers@.last()),
        final(rw).write_buffers@.last()@ == crate::bytesutil::be32(data@.len() as u32) + data@,
    {
    let mut buf: Vec<u8> = Vec::new();
    push_be32(&mut buf, data.len() as u32);
    let mut d = data;
    buf.append(&mut d);
    rw.write_out(buf);
}

impl Substream {
    /// Advances the machine one bounded step: consumes what it can from the
    /// scratchpad, queues what it has to say, and reports at most one event.
    /// `None` as the next state means the substream is finished: the driver
    /// removes it, resetting it if either direction is still open.
    #[verifier::rlimit(100)]
    #[verifier::spinoff_prover]
    pub fn read_write(self, rw: &mut ReadWrite) -> (r: (Option<Substream>, Option<Event>))
        requires
            old(rw).wf(),
        ensures
            ReadWrite::rw_step(*old(rw), *final(rw)),
            final(rw).wf(),
            (r.1 matches Some(e) && event_moves_user_data(e)) ==> machine_holds_user_data(self),
            (r.1 matches Some(e) && event_moves_user_data(e)) ==> (r.0 matches Some(m2)
                ==> !machine_holds_user_data(m2)),
            (r.0 matches Some(m2) && machine_holds_user_data(m2)) ==> machine_holds_user_data(
                self,
            ),
            self is PingOut ==> (r.0 matches Some(m2) ==> m2 is PingOut),
            self is PingOut ==> r.0 is Some,
            old(rw).write_bytes_queueable is None ==> final(rw).write_buffers == old(
                rw,
            ).write_buffers,
            spec_step_post(self, *old(rw), *final(rw), r.0, r.1),
    {
        proof {
            reveal(spec_step_post);
        }
        let read_closed = match rw.expected_incoming_bytes {
            Some(_) => false,
            None => true,
        };
        match self {
            Substream::Ingoing { max_protocol_name_len } => {
                match try_read_msg(rw, max_protocol_name_len) {
                    MsgRead::Msg(name) => {
                        match bytes_to_string(name) {
                            Some(s) => (
                                Some(Substream::IngoingWait),
                                Some(Event::InboundNegotiated(s)),
                            ),
                            None => (
                                None,
                                Some(
                                    Event::InboundError {
                                        error: InboundError::NameNotUtf8,
                                        was_accepted: false,
                                    },
                                ),
                            ),
                        }
                    },
                    MsgRead::TooLong => (
                        None,
                        Some(
                            Event::InboundError {
                                error: InboundError::NameTooLong,
                                was_accepted: false,
                            },
                        ),
                    ),
                    MsgRead::NotEnough => {
                        if read_closed {
                            (
                                None,
                                Some(
                                    Event::InboundError {
                                        error: InboundError::UnexpectedEof,
                                        was_accepted: false,
                                    },
                                ),
                            )
                        } else {
                            (Some(Substream::Ingoing { max_protocol_name_len }), None)
                        }
                    },
                }
            },
            Substream::IngoingWait => {
                proof {
                    ReadWrite::lemma_rw_step_refl(*old(rw));
                }
                if read_closed {
                    (None, Some(Event::InboundNegotiatedCancel))
                } else {
                    (Some(Substream::IngoingWait), None)
                }
            },
            Substream::RequestInRecv { request_max_size } => {
                match request_max_size {
                    None => {
                        proof {
                            ReadWrite::lemma_rw_step_refl(*old(rw));
                        }
                        (
                            Some(Substream::RequestInWait),
                            Some(Event::RequestIn { request: Vec::new() }),
                        )
                    },
                    Some(max) => {
                        match try_read_msg(rw, max) {
                            MsgRead::Msg(request) => (
                                Some(Substream::RequestInWait),
                                Some(Event::RequestIn { request }),
                            ),
                            MsgRead::TooLong => (
                                None,
                                Some(
                                    Event::InboundError {
                                        error: InboundError::MessageTooLong,
                                        was_accepted: true,
                                    },
                                ),
                            ),
                            MsgRead::NotEnough => {
                                if read_closed {
                                    (
                                        None,
                                        Some(
                                            Event::InboundError {
                                                error: InboundError::UnexpectedEof,
                                                was_accepted: true,
                                            },
                                        ),
                                    )
                                } else {
                                    (
                                        Some(
                                            Substream::RequestInRecv {
                                                request_max_size: Some(max),
                                            },
                                        ),
                                        None,
                                    )
                                }
                            },
                        }
                    },
                }
            },
            Substream::RequestInWait => {
                proof {
                    ReadWrite::lemma_rw_step_refl(*old(rw));
                }
                (Some(Substream::RequestInWait), None)
            },
            Substream::RequestInSend { response } => {
                let q = rw.queueable();
                if response.len() > 0xffff_ffff {
                    proof {
                        ReadWrite::lemma_rw_step_refl(*old(rw));
                    }
                    return (Some(Substream::Closing), None);
                }
                match rw.write_bytes_queueable {
                    Some(_) => {
                        if q >= 4 && q - 4 >= response.len() {
                            let ghost a = *rw;
                            write_msg(rw, response);
                            let ghost b = *rw;
                            rw.close_write();
                            proof {
                                ReadWrite::lemma_rw_step_trans(a, b, *rw);
                            }
                            (Some(Substream::Closing), None)
                        } else {
                            proof {
                                ReadWrite::lemma_rw_step_refl(*old(rw));
                            }
                            (Some(Substream::RequestInSend { response }), None)
                        }
                    },
                    None => {
                        proof {
                            ReadWrite::lemma_rw_step_refl(*old(rw));
                        }
                        (Some(Substream::Closing), None)
                    },
                }
            },
            Substream::RequestOut { protocol, request, timeout, max_response_size, sent } => {
                if !sent {
                    let req_cost: usize = match &request {
                        Some(r) => {
                            if r.len() > 0xffff_fffb {
                                proof {
                                    ReadWrite::lemma_rw_step_refl(*old(rw));
                                }
                                return (
                                    None,
                                    Some(
                                        Event::Response {
                                            response: Err(RequestError::SubstreamClosed),
                                        },
                                    ),
                                );
                            }
                            4 + r.len()
                        },
                        None => 0,
                    };
                    if protocol.len() > 0xffff_ffff {
                        proof {
                            ReadWrite::lemma_rw_step_refl(*old(rw));
                        }
                        return (
                            None,
                            Some(
                                Event::Response { response: Err(RequestError::SubstreamClosed) },
                            ),
                        );
                    }
                    let q = rw.queueable();
                    match rw.write_bytes_queueable {
                        Some(_) => {
                            if q >= 4 && q - 4 >= protocol.len() && q - 4 - protocol.len()
                                >= req_cost {
                                let ghost a = *rw;
                                write_msg(rw, copy_bytes(&protocol));
                                let ghost b = *rw;
                                match &request {
                                    Some(req) => {
                                        write_msg(rw, copy_bytes(req));
                                    },
                                    None => {},
                                }
                                let ghost c = *rw;
                                rw.close_write();
                                proof {
                                    ReadWrite::lemma_rw_step_trans(a, b, c);
                                    ReadWrite::lemma_rw_step_trans(a, c, *rw);
                                }
                                (
                                    Some(
                                        Substream::RequestOut {
                                            protocol,
                                            request,
                                            timeout,
                                            max_response_size,
                                            sent: true,
                                        },
                                    ),
                                    None,
                                )
                            } else {
                                proof {
                                    ReadWrite::lemma_rw_step_refl(*old(rw));
                                }
                                (
                                    Some(
                                        Substream::RequestOut {
                                            protocol,
                                            request,
                                            timeout,
                                            max_response_size,
                                            sent,
                                        },
                                    ),
                                    None,
                                )
                            }
                        },
                        None => {
                            proof {
                                ReadWrite::lemma_rw_step_refl(*old(rw));
                            }
                            (
                                None,
                                Some(
                                    Event::Response {
                                        response: Err(RequestError::SubstreamClosed),
                                    },
                                ),
                            )
                        },
                    }
                } else {
                    if rw.now >= timeout {
                        proof {
                            ReadWrite::lemma_rw_step_refl(*old(rw));
                        }
                        return (
                            None,
                            Some(Event::Response { response: Err(RequestError::Timeout) }),
                        );
                    }
                    match try_read_msg(rw, max_response_size) {
                        MsgRead::Msg(resp) => (
                            Some(Substream::Closing),
                            Some(Event::Response { response: Ok(resp) }),
                        ),
                        MsgRead::TooLong => (
                            None,
                            Some(
                                Event::Response {
                                    response: Err(RequestError::ResponseTooLarge),
                                },
                            ),
                        ),
                        MsgRead::NotEnough => {
                            if read_closed {
                                (
                                    None,
                                    Some(
                                        Event::Response {
                                            response: Err(RequestError::SubstreamClosed),
                                        },
                                    ),
                                )
                            } else {
                                let ghost a = *rw;
                                rw.wake_up_after(timeout);
                                proof {
                                    ReadWrite::lemma_rw_step_trans(*old(rw), a, *rw);
                                }
                                (
                                    Some(
                                        Substream::RequestOut {
                                            protocol,
                                            request,
                                            timeout,
                                            max_response_size,
                                            sent: true,
                                        },
                                    ),
                                    None,
                                )
                            }
                        },
                    }
                }
            },
            Substream::NotificationsInHandshake { max_handshake_size } => {
                match try_read_msg(rw, max_handshake_size) {
                    MsgRead::Msg(handshake) => (
                        Some(Substream::NotificationsInWait),
                        Some(Event::NotificationsInOpen { handshake }),
                    ),
                    MsgRead::TooLong => (
                        None,
                        Some(
                            Event::InboundError {
                                error: InboundError::MessageTooLong,
                                was_accepted: true,
                            },
                        ),
                    ),
                    MsgRead::NotEnough => {
                        if read_closed {
                            (
                                None,
                                Some(
                                    Event::InboundError {
                                        error: InboundError::UnexpectedEof,
                                        was_accepted: true,
                                    },
                                ),
                            )
                        } else {
                            (Some(Substream::NotificationsInHandshake { max_handshake_size }), None)
                        }
                    },
                }
            },
            Substream::NotificationsInWait => {
                proof {
                    ReadWrite::lemma_rw_step_refl(*old(rw));
                }
                if read_closed {
                    (None, Some(Event::NotificationsInOpenCancel))
                } else {
                    (Some(Substream::NotificationsInWait), None)
                }
            },
            Substream::NotificationsIn { max_notification_size, pending_handshake } => {
                match pending_handshake {
                    Some(hs) => {
                        let q = rw.queueable();
                        match rw.write_bytes_queueable {
                            Some(_) => {
                                if hs.len() <= 0xffff_ffff && q >= 4 && q - 4 >= hs.len() {
                                    write_msg(rw, hs);
                                    (
                                        Some(
                                            Substream::NotificationsIn {
                                                max_notification_size,
                                                pending_handshake: None,
                                            },
                                        ),
                                        None,
                                    )
                                } else {
                                    proof {
                                        ReadWrite::lemma_rw_step_refl(*old(rw));
                                    }
                                    (
                                        Some(
                                            Substream::NotificationsIn {
                                                max_notification_size,
                                                pending_handshake: Some(hs),
                                            },
                                        ),
                                        None,
                                    )
                                }
                            },
                            None => {
                                proof {
                                    ReadWrite::lemma_rw_step_refl(*old(rw));
                                }
                                (
                                    None,
                                    Some(
                                        Event::NotificationsInClose {
                                            outcome: Err(
                                                NotificationsInClosedErr::SubstreamReset,
                                            ),
                                        },
                                    ),
                                )
                            },
                        }
                    },
                    None => {
                        match try_read_msg(rw, max_notification_size) {
                            MsgRead::Msg(notification) => (
                                Some(
                                    Substream::NotificationsIn {
                                        max_notification_size,
                                        pending_handshake: None,
                                    },
                                ),
                                Some(Event::NotificationIn { notification }),
                            ),
                            MsgRead::TooLong => (
                                None,
                                Some(
                                    Event::NotificationsInClose {
                                        outcome: Err(NotificationsInClosedErr::MessageTooLong),
                                    },
                                ),
                            ),
                            MsgRead::NotEnough => {
                                if read_closed {
                                    (
                                        None,
                                        Some(Event::NotificationsInClose { outcome: Ok(()) }),
                                    )
                                } else {
                                    (
                                        Some(
                                            Substream::NotificationsIn {
                                                max_notification_size,
                                                pending_handshake: None,
                                            },
                                        ),
                                        None,
                                    )
                                }
                            },
                        }
                    },
                }
            },
            Substream::NotificationsOutNegotiating {
                protocol,
                handshake,
                timeout,
                max_handshake_size,
                sent,
            } => {
                if !sent {
                    if protocol.len() > 0xffff_ffff || handshake.len() > 0xffff_fffb {
                        proof {
                            ReadWrite::lemma_rw_step_refl(*old(rw));
                        }
                        return (
                            None,
                            Some(
                                Event::NotificationsOutResult {
                                    result: Err(NotificationsOutErr::Refused),
                                },
                            ),
                        );
                    }
                    let q = rw.queueable();
                    match rw.write_bytes_queueable {
                        Some(_) => {
                            if q >= 4 && q - 4 >= protocol.len() && (q - 4 - protocol.len() >= 4
                                && q - 4 - protocol.len() - 4 >= handshake.len()) {
                                let ghost a = *rw;
                                write_msg(rw, copy_bytes(&protocol));
                                let ghost b = *rw;
                                write_msg(rw, copy_bytes(&handshake));
                                proof {
                                    ReadWrite::lemma_rw_step_trans(a, b, *rw);
                                }
                                (
                                    Some(
                                        Substream::NotificationsOutNegotiating {
                                            protocol,
                                            handshake,
                                            timeout,
                                            max_handshake_size,
                                            sent: true,
                                        },
                                    ),
                                    None,
                                )
                            } else {
                                proof {
                                    ReadWrite::lemma_rw_step_refl(*old(rw));
                                }
                                (
                                    Some(
                                        Substream::NotificationsOutNegotiating {
                                            protocol,
                                            handshake,
                                            timeout,
                                            max_handshake_size,
                                            sent,
                                        },
                                    ),
                                    None,
                                )
                            }
                        },
                        None => {
                            proof {
                                ReadWrite::lemma_rw_step_refl(*old(rw));
                            }
                            (
                                None,
                                Some(
                                    Event::NotificationsOutResult {
                                        result: Err(NotificationsOutErr::Refused),
                                    },
                                ),
                            )
                        },
                    }
                } else {
                    if rw.now >= timeout {
                        proof {
                            ReadWrite::lemma_rw_step_refl(*old(rw));
                        }
                        return (
                            None,
                            Some(
                                Event::NotificationsOutResult {
                                    result: Err(NotificationsOutErr::Timeout),
                                },
                            ),
                        );
                    }
                    match try_read_msg(rw, max_handshake_size) {
                        MsgRead::Msg(hs) => (
                            Some(
                                Substream::NotificationsOut {
                                    queue: Vec::new(),
                                    close_demanded: false,
                                    closing: false,
                                },
                            ),
                            Some(Event::NotificationsOutResult { result: Ok(hs) }),
                        ),
                        MsgRead::TooLong => (
                            None,
                            Some(
                                Event::NotificationsOutResult {
                                    result: Err(NotificationsOutErr::HandshakeTooLarge),
                                },
                            ),
                        ),
                        MsgRead::NotEnough => {
                            if read_closed {
                                (
                                    None,
                                    Some(
                                        Event::NotificationsOutResult {
                                            result: Err(NotificationsOutErr::Refused),
                                        },
                                    ),
                                )
                            } else {
                                let ghost a = *rw;
                                rw.wake_up_after(timeout);
                                proof {
                                    ReadWrite::lemma_rw_step_trans(*old(rw), a, *rw);
                                }
                                (
                                    Some(
                                        Substream::NotificationsOutNegotiating {
                                            protocol,
                                            handshake,
                                            timeout,
                                            max_handshake_size,
                                            sent: true,
                                        },
                                    ),
                                    None,
                                )
                            }
                        },
                    }
                }
            },
            Substream::NotificationsOut { queue, close_demanded, closing } => {
                let avail = rw.incoming_buffer.len();
                let ghost a = *rw;
                proof {
                    ReadWrite::lemma_rw_step_refl(a);
                }
                if avail > 0 {
                    let discarded = rw.incoming_bytes_take(avail);
                }
                let ghost b = *rw;
                let q = rw.queueable();
                match rw.write_bytes_queueable {
                    Some(_) => {
                        if queue.len() > 0 && q >= queue.len() {
                            rw.write_out(queue);
                            proof {
                                ReadWrite::lemma_rw_step_trans(a, b, *rw);
                            }
                            (
                                Some(
                                    Substream::NotificationsOut {
                                        queue: Vec::new(),
                                        close_demanded,
                                        closing,
                                    },
                                ),
                                None,
                            )
                        } else if queue.len() == 0 && closing {
                            rw.close_write();
                            proof {
                                ReadWrite::lemma_rw_step_trans(a, b, *rw);
                            }
                            (Some(Substream::Closing), None)
                        } else if read_closed && !close_demanded {
                            (
                                Some(
                                    Substream::NotificationsOut {
                                        queue,
                                        close_demanded: true,
                                        closing,
                                    },
                                ),
                                Some(Event::NotificationsOutCloseDemanded),
                            )
                        } else {
                            (
                                Some(Substream::NotificationsOut { queue, close_demanded, closing }),
                                None,
                            )
                        }
                    },
                    None => (None, Some(Event::NotificationsOutReset)),
                }
            },
            Substream::PingIn => {
                let avail = rw.incoming_buffer.len();
                let q = rw.queueable();
                match rw.write_bytes_queueable {
                    Some(_) => {
                        if avail > 0 && q >= avail {
                            let ghost a = *rw;
                            let echoed = rw.incoming_bytes_take(avail);
                            let ghost b = *rw;
                            rw.write_out(echoed);
                            proof {
                                ReadWrite::lemma_rw_step_trans(a, b, *rw);
                                assert(rw.write_buffers@.last()@ =~= a.incoming_buffer@);
                                assert(rw.write_buffers@.take(a.write_buffers@.len() as int)
                                    =~= a.write_buffers@);
                            }
                            (Some(Substream::PingIn), None)
                        } else if avail == 0 && read_closed {
                            proof {
                                ReadWrite::lemma_rw_step_refl(*old(rw));
                            }
                            (Some(Substream::Closing), None)
                        } else {
                            proof {
                                ReadWrite::lemma_rw_step_refl(*old(rw));
                            }
                            (Some(Substream::PingIn), None)
                        }
                    },
                    None => {
                        proof {
                            ReadWrite::lemma_rw_step_refl(*old(rw));
                        }
                        (Some(Substream::Closing), None)
                    },
                }
            },
            Substream::PingOut { protocol, neg_sent, pending, awaiting } => {
                let mut protocol = protocol;
                let mut neg_sent = neg_sent;
                let mut pending = pending;
                let mut awaiting = awaiting;
                let ghost await0 = awaiting@;
                let ghost pending0 = pending@;
                let ghost a = *rw;
                proof {
                    ReadWrite::lemma_rw_step_refl(a);
                }
                match rw.write_bytes_queueable {
                    Some(_) => {
                        if !neg_sent {
                            let q0 = rw.queueable();
                            if protocol.len() <= 0xffff_ffff && q0 >= 4 && q0 - 4
                                >= protocol.len() {
                                let p = protocol;
                                protocol = Vec::new();
                                write_msg(rw, p);
                                neg_sent = true;
                            }
                        }
                        while pending.len() > 0 && rw.queueable() >= PING_PAYLOAD_LEN
                            invariant
                                rw.wf(),
                                ReadWrite::rw_step(a, *rw),
                                rw.now == a.now,
                                rw.incoming_buffer == a.incoming_buffer,
                                rw.expected_incoming_bytes == a.expected_incoming_bytes,
                                awaiting@.len() >= await0.len(),
                                awaiting@.take(await0.len() as int) == await0,
                                awaiting@.len() + pending@.len() == await0.len() + pending0.len(),
                            decreases pending@.len(),
                        {
                            let ghost c = *rw;
                            let p = pending.remove(0);
                            let mut pl = copy_bytes(&p.payload);
                            pl.truncate(PING_PAYLOAD_LEN);
                            rw.write_out(pl);
                            awaiting.push(p);
                            proof {
                                ReadWrite::lemma_rw_step_trans(a, c, *rw);
                                assert(awaiting@.take(await0.len() as int) =~= await0);
                            }
                        }
                    },
                    None => {
                        proof {
                            ReadWrite::lemma_rw_step_refl(a);
                        }
                    },
                }
                if awaiting.len() > 0 {
                    proof {
                        if await0.len() > 0 {
                            assert(awaiting@[0] == await0[0]);
                        }
                    }
                    let deadline = awaiting[0].deadline;
                    if rw.incoming_buffer.len() >= PING_PAYLOAD_LEN {
                        let ghost c = *rw;
                        let echo = rw.incoming_bytes_take(PING_PAYLOAD_LEN);
                        proof {
                            ReadWrite::lemma_rw_step_trans(a, c, *rw);
                            assert(echo@ =~= a.incoming_buffer@.take(32));
                        }
                        let first = awaiting.remove(0);
                        let ev = if eq_bytes(&echo, &first.payload) {
                            Event::PingOutSuccess
                        } else {
                            Event::PingOutError
                        };
                        (
                            Some(Substream::PingOut { protocol, neg_sent, pending, awaiting }),
                            Some(ev),
                        )
                    } else if rw.now >= deadline || read_closed {
                        let timed_out = awaiting.remove(0);
                        (
                            Some(Substream::PingOut { protocol, neg_sent, pending, awaiting }),
                            Some(Event::PingOutError),
                        )
                    } else {
                        let ghost c = *rw;
                        rw.wake_up_after(deadline);
                        proof {
                            ReadWrite::lemma_rw_step_trans(a, c, *rw);
                        }
                        (
                            Some(Substream::PingOut { protocol, neg_sent, pending, awaiting }),
                            None,
                        )
                    }
                } else {
                    (
                        Some(Substream::PingOut { protocol, neg_sent, pending, awaiting }),
                        None,
                    )
                }
            },
            Substream::Closing => {
                let avail = rw.incoming_buffer.len();
                let ghost a = *rw;
                proof {
                    ReadWrite::lemma_rw_step_refl(a);
                }
                if avail > 0 {
                    let discarded = rw.incoming_bytes_take(avail);
                }
                let ghost b = *rw;
                match rw.write_bytes_queueable {
                    Some(_) => {
                        rw.close_write();
                        proof {
                            ReadWrite::lemma_rw_step_trans(a, b, *rw);
                        }
                    },
                    None => {},
                }
                if read_closed {
                    (None, None)
                } else {
                    (Some(Substream::Closing), None)
                }
            },
        }
    }
}


} // verus!
