use p2p_conn::multiaddr::Address;
use p2p_conn::multiaddr::IpAddr;
use p2p_conn::platform::NetworkState;
use p2p_conn::platform::encode_address;

#[test]
fn messages_accumulate_and_empty_ones_are_ignored() {
    let mut state = NetworkState::new();
    let id = state.begin_connection();
    assert_eq!(id, 0);
    state.connection_open_single_stream(id, 128);
    state.stream_message(id, None, vec![1, 2, 3]);
    state.stream_message(id, None, Vec::new());
    state.stream_message(id, None, vec![4]);
    state.stream_writable_bytes(id, None, 16);
    // A second connection keeps its own stream.
    let id2 = state.begin_connection();
    assert_eq!(id2, 1);
    state.connection_open_single_stream(id2, 64);
    state.stream_message(id2, None, vec![9, 9]);
    state.connection_reset(id2, String::from("torn down"));
}

#[test]
fn multi_stream_connections_track_their_streams() {
    let mut state = NetworkState::new();
    let id = state.begin_connection();
    let mut handshake = vec![0u8];
    handshake.extend(vec![5u8; 32]);
    handshake.extend(vec![6u8; 32]);
    state.connection_open_multi_stream(id, handshake);
    state.connection_stream_opened(id, 7, true, 256);
    state.stream_message(id, Some(7), vec![1]);
    state.stream_reset(id, 7);
}

#[test]
fn addresses_encode_with_their_tag_and_port() {
    let e = encode_address(&Address::TcpIp { ip: IpAddr::V4([1, 2, 3, 4]), port: 443 });
    assert_eq!(e[0], 0);
    assert_eq!(&e[1..3], &[1, 187]);
    assert_eq!(&e[3..], b"1.2.3.4");

    let e6 = encode_address(&Address::WebSocketIp {
        ip: IpAddr::V6([0, 0, 0, 0, 0, 0, 0, 1]),
        port: 80,
    });
    assert_eq!(e6[0], 5);
    assert_eq!(&e6[3..], b"::1");

    let t6 = encode_address(&Address::TcpIp { ip: IpAddr::V6([0, 0, 0, 0, 0, 0, 0, 1]), port: 80 });
    assert_eq!(t6[0], 1);
    assert_eq!(&t6[3..], b"::1");

    let d = encode_address(&Address::WebSocketDns {
        hostname: String::from("example"),
        port: 443,
        secure: true,
    });
    assert_eq!(d[0], 14);
    assert_eq!(&d[3..], b"example");
}

#[test]
fn stream_update_picks_everything_up_once() {
    let mut state = NetworkState::new();
    let id = state.begin_connection();
    state.connection_open_single_stream(id, 100);
    state.stream_message(id, None, vec![1, 2]);
    state.stream_message(id, None, vec![3]);
    state.stream_writable_bytes(id, None, 50);
    let (messages, writable, reset) = state.stream_update(id, None);
    assert_eq!(messages, vec![vec![1, 2], vec![3]]);
    assert_eq!(writable, 150);
    assert!(!reset);
    let (messages2, writable2, reset2) = state.stream_update(id, None);
    assert!(messages2.is_empty());
    assert_eq!(writable2, 0);
    assert!(!reset2);
}

#[test]
fn oversized_buffers_drop_further_messages() {
    let mut state = NetworkState::new();
    let id = state.begin_connection();
    state.connection_open_single_stream(id, 0);
    let big = vec![0u8; 26214400];
    state.stream_message(id, None, big);
    state.stream_message(id, None, vec![1]);
    let (messages, _w, _r) = state.stream_update(id, None);
    assert_eq!(messages.len(), 1);
    assert_eq!(messages[0].len(), 26214400);
}
