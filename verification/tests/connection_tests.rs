use p2p_conn::connection::Config;
use p2p_conn::connection::ConnectionPrototype;
use p2p_conn::connection::Event;
use p2p_conn::connection::SingleStream;
use p2p_conn::connection::SubstreamId;
use p2p_conn::noise::Noise;
use p2p_conn::rw::ReadWrite;
use p2p_conn::substream::InboundTy;

const CAP: usize = 1 << 20;

fn config(seed: u8, first_out_ping: u64, max_inbound: usize) -> Config {
    Config {
        randomness_seed: [seed; 32],
        substreams_capacity: 16,
        first_out_ping,
        ping_protocol: String::from("/ping"),
        ping_interval: 1000,
        ping_timeout: 100,
        max_inbound_substreams: max_inbound,
        max_protocol_name_len: 64,
    }
}

fn endpoints(first_out_ping: u64, max_inbound: usize) -> (SingleStream<u32>, SingleStream<u32>) {
    let k1 = [1u8; 32];
    let k2 = [2u8; 32];
    let a = ConnectionPrototype::from_noise_yamux(Noise::new(&k1, &k2, true))
        .into_connection(config(3, first_out_ping, max_inbound));
    let b = ConnectionPrototype::from_noise_yamux(Noise::new(&k2, &k1, false))
        .into_connection(config(4, first_out_ping, max_inbound));
    (a, b)
}

fn drive(
    conn: SingleStream<u32>,
    now: u64,
    inbox: &mut Vec<u8>,
    peer_inbox: &mut Vec<u8>,
) -> (SingleStream<u32>, Option<Event<u32>>) {
    let mut rw = ReadWrite {
        now,
        incoming_buffer: std::mem::take(inbox),
        expected_incoming_bytes: Some(0),
        read_bytes: 0,
        write_buffers: Vec::new(),
        write_bytes_queued: 0,
        write_bytes_queueable: Some(CAP),
        wake_up_after: None,
    };
    let (conn, ev) = conn.read_write(&mut rw).expect("fatal connection error");
    *inbox = rw.incoming_buffer;
    for buf in rw.write_buffers {
        peer_inbox.extend(buf);
    }
    (conn, ev)
}

/// Accepts the keep-alive protocol wherever it shows up.
fn default_handling(conn: &mut SingleStream<u32>, ev: &Event<u32>) {
    match ev {
        Event::InboundNegotiated { id, protocol_name } => {
            if protocol_name == "/ping" {
                conn.accept_inbound(*id, InboundTy::Ping, 0);
            } else {
                conn.reject_inbound(*id);
            }
        }
        _ => {}
    }
}

#[test]
fn clean_request_response() {
    let (mut a, mut b) = endpoints(1_000_000, 4);
    let mut a_in: Vec<u8> = Vec::new();
    let mut b_in: Vec<u8> = Vec::new();
    let now = 1000u64;
    let req_id = a.add_request(String::from("X"), Some(vec![1, 2, 3]), now + 30_000, 1024, 7);
    let mut responses: Vec<(SubstreamId, Vec<u8>, u32)> = Vec::new();
    for _round in 0..60 {
        let (a2, ev) = drive(a, now, &mut a_in, &mut b_in);
        a = a2;
        if let Some(ev) = ev {
            match &ev {
                Event::Response { id, response, user_data } => {
                    responses.push((*id, response.clone().expect("request failed"), *user_data));
                }
                _ => default_handling(&mut a, &ev),
            }
        }
        let (b2, evb) = drive(b, now, &mut b_in, &mut a_in);
        b = b2;
        if let Some(evb) = evb {
            match &evb {
                Event::InboundNegotiated { id, protocol_name } => {
                    if protocol_name == "X" {
                        b.accept_inbound(
                            *id,
                            InboundTy::Request { request_max_size: Some(1024) },
                            0,
                        );
                    } else {
                        default_handling(&mut b, &evb);
                    }
                }
                Event::RequestIn { id, request } => {
                    assert_eq!(request, &vec![1, 2, 3]);
                    b.respond_in_request(*id, Ok(request.clone())).unwrap();
                }
                _ => default_handling(&mut b, &evb),
            }
        }
    }
    assert_eq!(responses.len(), 1);
    assert_eq!(responses[0].0, req_id);
    assert_eq!(responses[0].1, vec![1, 2, 3]);
    assert_eq!(responses[0].2, 7);
}

#[test]
fn ping_fires_and_times_out() {
    let (a, _b) = endpoints(1000, 4);
    let mut a_in: Vec<u8> = Vec::new();
    let mut void: Vec<u8> = Vec::new();
    // At the deadline the ping is queued and leaves with the outgoing bytes.
    let (a, ev) = drive(a, 1000, &mut a_in, &mut void);
    assert!(ev.is_none());
    assert!(!void.is_empty());
    // Nobody answers: at the timeout the ping is reported failed.
    let mut a = a;
    let mut failed = false;
    for _ in 0..4 {
        let (a2, ev) = drive(a, 1100, &mut a_in, &mut void);
        a = a2;
        if matches!(ev, Some(Event::PingOutFailed)) {
            failed = true;
            break;
        }
    }
    assert!(failed);
}

#[test]
fn ping_echo_succeeds() {
    let (mut a, mut b) = endpoints(1000, 4);
    let mut a_in: Vec<u8> = Vec::new();
    let mut b_in: Vec<u8> = Vec::new();
    let mut success = false;
    for _round in 0..60 {
        let (a2, ev) = drive(a, 1000, &mut a_in, &mut b_in);
        a = a2;
        if let Some(ev) = ev {
            if matches!(ev, Event::PingOutSuccess) {
                success = true;
                break;
            }
            default_handling(&mut a, &ev);
        }
        let (b2, evb) = drive(b, 1000, &mut b_in, &mut a_in);
        b = b2;
        if let Some(evb) = evb {
            default_handling(&mut b, &evb);
        }
    }
    assert!(success);
}

#[test]
fn remote_reset_of_the_ping_substream_fails_future_pings() {
    let (a, _b) = endpoints(2000, 4);
    let mut a_in: Vec<u8> = Vec::new();
    let mut void: Vec<u8> = Vec::new();
    // The peer resets the outgoing-ping substream (the initiator's first
    // odd id, 1): a raw reset frame, encrypted with the peer's keys.
    let mut peer_tx = Noise::new(&[2u8; 32], &[1u8; 32], false);
    let mut rw = ReadWrite {
        now: 1000,
        incoming_buffer: Vec::new(),
        expected_incoming_bytes: Some(0),
        read_bytes: 0,
        write_buffers: Vec::new(),
        write_bytes_queued: 0,
        write_bytes_queueable: Some(CAP),
        wake_up_after: None,
    };
    let rst = vec![0u8, 1, 0x00, 0x08, 0, 0, 0, 1, 0, 0, 0, 0];
    peer_tx.encrypt_record(&mut rw, &rst).unwrap();
    for buf in rw.write_buffers {
        a_in.extend(buf);
    }
    let (a, ev) = drive(a, 1000, &mut a_in, &mut void);
    assert!(ev.is_none());
    // The next ping tick cannot use the substream any more.
    let (_a, ev) = drive(a, 2000, &mut a_in, &mut void);
    assert!(matches!(ev, Some(Event::PingOutFailed)));
}

#[test]
fn inbound_over_the_limit_is_rejected() {
    // The responder accepts one inbound substream only: the initiator's
    // keep-alive substream takes that slot, the request is turned away.
    let (mut a, mut b) = endpoints(1_000_000, 1);
    let mut a_in: Vec<u8> = Vec::new();
    let mut b_in: Vec<u8> = Vec::new();
    let now = 1000u64;
    let _req = a.add_request(String::from("X"), Some(vec![9]), now + 30_000, 1024, 1);
    let mut negotiated_at_b = 0usize;
    let mut request_failed = false;
    for _round in 0..60 {
        let (a2, ev) = drive(a, now, &mut a_in, &mut b_in);
        a = a2;
        if let Some(ev) = ev {
            if let Event::Response { response, .. } = &ev {
                assert!(response.is_err());
                request_failed = true;
            } else {
                default_handling(&mut a, &ev);
            }
        }
        let (b2, evb) = drive(b, now, &mut b_in, &mut a_in);
        b = b2;
        if let Some(evb) = evb {
            if let Event::InboundNegotiated { .. } = &evb {
                negotiated_at_b += 1;
            }
            default_handling(&mut b, &evb);
        }
    }
    assert_eq!(negotiated_at_b, 1);
    assert!(request_failed);
}

#[test]
fn goaway_is_reported_exactly_once() {
    let (mut a, mut b) = endpoints(1_000_000, 4);
    let mut a_in: Vec<u8> = Vec::new();
    let mut b_in: Vec<u8> = Vec::new();
    b.deny_new_incoming_substreams();
    let mut forbidden = 0usize;
    for _round in 0..30 {
        let (a2, ev) = drive(a, 1000, &mut a_in, &mut b_in);
        a = a2;
        if let Some(ev) = ev {
            if matches!(ev, Event::NewOutboundSubstreamsForbidden) {
                forbidden += 1;
            } else {
                default_handling(&mut a, &ev);
            }
        }
        let (b2, evb) = drive(b, 1000, &mut b_in, &mut a_in);
        b = b2;
        if let Some(evb) = evb {
            default_handling(&mut b, &evb);
        }
    }
    assert_eq!(forbidden, 1);
}

#[test]
fn no_outbound_bytes_without_capacity() {
    let (a, b) = endpoints(1_000_000, 4);
    let mut a_in: Vec<u8> = Vec::new();
    let mut b_in: Vec<u8> = Vec::new();
    let mut void: Vec<u8> = Vec::new();
    // Let the responder produce some bytes for the initiator first.
    let (_b, _ev) = drive(b, 1000, &mut b_in, &mut a_in);
    assert!(!a_in.is_empty());
    // With no outbound capacity, the initiator still consumes the inbound
    // bytes but emits nothing.
    let mut rw = ReadWrite {
        now: 1000,
        incoming_buffer: std::mem::take(&mut a_in),
        expected_incoming_bytes: Some(0),
        read_bytes: 0,
        write_buffers: Vec::new(),
        write_bytes_queued: 0,
        write_bytes_queueable: Some(0),
        wake_up_after: None,
    };
    let (_a, _ev) = a.read_write(&mut rw).unwrap();
    assert!(rw.read_bytes > 0);
    assert!(rw.write_buffers.is_empty());
    assert_eq!(rw.write_bytes_queued, 0);
    let _ = void;
}

#[test]
fn progress_without_input_on_a_closed_read_side() {
    let (a, _b) = endpoints(1000, 4);
    let mut void: Vec<u8> = Vec::new();
    let mut rw = ReadWrite {
        now: 1000,
        incoming_buffer: Vec::new(),
        expected_incoming_bytes: None,
        read_bytes: 0,
        write_buffers: Vec::new(),
        write_bytes_queued: 0,
        write_bytes_queueable: Some(CAP),
        wake_up_after: None,
    };
    let (_a, ev) = a.read_write(&mut rw).unwrap();
    assert!(ev.is_none());
    // The timer fired and the keep-alive bytes went out all the same.
    for buf in rw.write_buffers {
        void.extend(buf);
    }
    assert!(!void.is_empty());
}

#[test]
fn graceful_close_ends_in_quiescence() {
    // The peer resets the keep-alive substream and announces go-away; once
    // the local side has announced its own go-away and no substream is
    // left, the driver closes the write side and goes quiet.
    let (a, _b) = endpoints(1_000_000, 4);
    let mut a_in: Vec<u8> = Vec::new();
    let mut peer_tx = Noise::new(&[2u8; 32], &[1u8; 32], false);
    let mut rw = ReadWrite {
        now: 1000,
        incoming_buffer: Vec::new(),
        expected_incoming_bytes: Some(0),
        read_bytes: 0,
        write_buffers: Vec::new(),
        write_bytes_queued: 0,
        write_bytes_queueable: Some(CAP),
        wake_up_after: None,
    };
    peer_tx.encrypt_record(&mut rw, &vec![0u8, 1, 0x00, 0x08, 0, 0, 0, 1, 0, 0, 0, 0]).unwrap();
    peer_tx.encrypt_record(&mut rw, &vec![0u8, 3, 0, 0, 0, 0, 0, 0, 0, 0, 0, 0]).unwrap();
    for buf in rw.write_buffers {
        a_in.extend(buf);
    }
    let mut void: Vec<u8> = Vec::new();
    let (mut a, ev) = drive(a, 1000, &mut a_in, &mut void);
    assert!(matches!(ev, Some(Event::NewOutboundSubstreamsForbidden)));
    a.deny_new_incoming_substreams();
    let mut closed = false;
    for _ in 0..5 {
        let mut rw2 = ReadWrite {
            now: 1000,
            incoming_buffer: std::mem::take(&mut a_in),
            expected_incoming_bytes: Some(0),
            read_bytes: 0,
            write_buffers: Vec::new(),
            write_bytes_queued: 0,
            write_bytes_queueable: Some(CAP),
            wake_up_after: None,
        };
        let (a2, ev) = a.read_write(&mut rw2).unwrap();
        a = a2;
        assert!(ev.is_none());
        a_in = rw2.incoming_buffer;
        if rw2.write_bytes_queueable.is_none() {
            // Write side closed; one more call stays entirely quiet.
            let mut rw3 = ReadWrite {
                now: 1000,
                incoming_buffer: std::mem::take(&mut a_in),
                expected_incoming_bytes: Some(0),
                read_bytes: 0,
                write_buffers: Vec::new(),
                write_bytes_queued: 0,
                write_bytes_queueable: None,
                wake_up_after: None,
            };
            let (_a, ev3) = a.read_write(&mut rw3).unwrap();
            assert!(ev3.is_none());
            assert!(rw3.write_buffers.is_empty());
            closed = true;
            break;
        }
    }
    assert!(closed);
}

#[test]
fn notification_stream_opens_pushes_and_closes() {
    let (mut a, mut b) = endpoints(1_000_000, 4);
    let mut a_in: Vec<u8> = Vec::new();
    let mut b_in: Vec<u8> = Vec::new();
    let now = 1000u64;
    let out_id =
        a.open_notifications_substream(String::from("N"), vec![0xaa], 64, now + 30_000, 5);
    let mut opened_with: Option<Vec<u8>> = None;
    let mut received: Vec<Vec<u8>> = Vec::new();
    let mut closed_ok = false;
    let mut pushed = false;
    for _round in 0..80 {
        let (a2, ev) = drive(a, now, &mut a_in, &mut b_in);
        a = a2;
        if let Some(ev) = ev {
            match &ev {
                Event::NotificationsOutResult { id, result } => {
                    assert_eq!(*id, out_id);
                    let hs = result.as_ref().map_err(|_| ()).unwrap();
                    assert_eq!(hs, &vec![0xbb]);
                    opened_with = Some(hs.clone());
                    a.write_notification_unbounded(out_id, vec![1]);
                    a.write_notification_unbounded(out_id, vec![2, 2]);
                    pushed = true;
                }
                _ => default_handling(&mut a, &ev),
            }
        }
        if pushed && received.len() == 2 && !closed_ok {
            a.close_notifications_substream(out_id);
            pushed = false;
        }
        let (b2, evb) = drive(b, now, &mut b_in, &mut a_in);
        b = b2;
        if let Some(evb) = evb {
            match &evb {
                Event::InboundNegotiated { id, protocol_name } => {
                    if protocol_name == "N" {
                        b.accept_inbound(
                            *id,
                            InboundTy::Notifications { max_handshake_size: 64 },
                            0,
                        );
                    } else {
                        default_handling(&mut b, &evb);
                    }
                }
                Event::NotificationsInOpen { id, handshake } => {
                    assert_eq!(handshake, &vec![0xaa]);
                    b.accept_in_notifications_substream(*id, vec![0xbb], 64);
                }
                Event::NotificationIn { notification, .. } => {
                    received.push(notification.clone());
                }
                Event::NotificationsInClose { outcome, .. } => {
                    assert!(outcome.is_ok());
                    closed_ok = true;
                }
                _ => default_handling(&mut b, &evb),
            }
        }
    }
    assert!(opened_with.is_some());
    assert_eq!(received, vec![vec![1], vec![2, 2]]);
    assert!(closed_ok);
}

#[test]
fn notification_stream_can_be_abandoned_during_negotiation() {
    let (mut a, mut b) = endpoints(1_000_000, 4);
    let mut a_in: Vec<u8> = Vec::new();
    let mut b_in: Vec<u8> = Vec::new();
    let now = 1000u64;
    let out_id =
        a.open_notifications_substream(String::from("N"), vec![0xaa], 64, now + 30_000, 5);
    // Give up on the substream before the remote answered the handshake.
    a.close_notifications_substream(out_id);
    let mut b_negotiated_n = false;
    for _round in 0..30 {
        let (a2, ev) = drive(a, now, &mut a_in, &mut b_in);
        a = a2;
        if let Some(ev) = ev {
            assert!(!matches!(ev, Event::NotificationsOutResult { .. }));
            default_handling(&mut a, &ev);
        }
        let (b2, evb) = drive(b, now, &mut b_in, &mut a_in);
        b = b2;
        if let Some(evb) = evb {
            if let Event::InboundNegotiated { protocol_name, .. } = &evb {
                if protocol_name == "N" {
                    b_negotiated_n = true;
                }
            }
            default_handling(&mut b, &evb);
        }
    }
    let _ = b_negotiated_n;
}
