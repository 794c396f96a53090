use p2p_conn::multiaddr::Address;
use p2p_conn::multiaddr::AddressOrMultiStreamAddress;
use p2p_conn::multiaddr::Component;
use p2p_conn::multiaddr::Error;
use p2p_conn::multiaddr::IpAddr;
use p2p_conn::multiaddr::Multiaddr;
use p2p_conn::multiaddr::MultiStreamAddress;
use p2p_conn::multiaddr::Multihash;
use p2p_conn::multiaddr::address_to_multiaddr;
use p2p_conn::multiaddr::multiaddr_to_address;

fn ma(components: Vec<Component>) -> Multiaddr {
    Multiaddr { components }
}

#[test]
fn ip4_tcp_is_tcp_ip() {
    let r = multiaddr_to_address(&ma(vec![Component::Ip4([1, 2, 3, 4]), Component::Tcp(30333)]));
    match r {
        Ok(AddressOrMultiStreamAddress::Address(Address::TcpIp { ip: IpAddr::V4(b), port })) => {
            assert_eq!(b, [1, 2, 3, 4]);
            assert_eq!(port, 30333);
        }
        _ => panic!("wrong interpretation"),
    }
}

#[test]
fn ip4_tcp_ws_is_websocket_ip() {
    let r = multiaddr_to_address(
        &ma(vec![Component::Ip4([1, 2, 3, 4]), Component::Tcp(30333), Component::Ws]),
    );
    match r {
        Ok(AddressOrMultiStreamAddress::Address(Address::WebSocketIp {
            ip: IpAddr::V4(b),
            port,
        })) => {
            assert_eq!(b, [1, 2, 3, 4]);
            assert_eq!(port, 30333);
        }
        _ => panic!("wrong interpretation"),
    }
}

#[test]
fn dns_tls_ws_and_wss_agree() {
    let host = b"example".to_vec();
    let a = multiaddr_to_address(
        &ma(vec![
            Component::Dns(host.clone()),
            Component::Tcp(443),
            Component::Tls,
            Component::Ws,
        ]),
    );
    let b = multiaddr_to_address(
        &ma(vec![Component::Dns(host.clone()), Component::Tcp(443), Component::Wss]),
    );
    for r in [a, b] {
        match r {
            Ok(AddressOrMultiStreamAddress::Address(Address::WebSocketDns {
                hostname,
                port,
                secure,
            })) => {
                assert_eq!(hostname, "example");
                assert_eq!(port, 443);
                assert!(secure);
            }
            _ => panic!("wrong interpretation"),
        }
    }
}

#[test]
fn non_sha256_certhash_is_rejected() {
    let r = multiaddr_to_address(
        &ma(vec![
            Component::Ip4([1, 2, 3, 4]),
            Component::Udp(4444),
            Component::WebRtcDirect,
            Component::Certhash(Multihash { code: 11, data: vec![0u8; 32] }),
        ]),
    );
    assert!(matches!(r, Err(Error::NonSha256Certhash)));
}

#[test]
fn short_certhash_is_rejected() {
    let r = multiaddr_to_address(
        &ma(vec![
            Component::Ip4([1, 2, 3, 4]),
            Component::Udp(4444),
            Component::WebRtcDirect,
            Component::Certhash(Multihash { code: 12, data: vec![0u8; 16] }),
        ]),
    );
    assert!(matches!(r, Err(Error::InvalidMultihashLength)));
}

#[test]
fn certhash_is_accepted() {
    let r = multiaddr_to_address(
        &ma(vec![
            Component::Ip6([0, 0, 0, 0, 0, 0, 0, 1]),
            Component::Udp(4444),
            Component::WebRtcDirect,
            Component::Certhash(Multihash { code: 12, data: vec![7u8; 32] }),
        ]),
    );
    match r {
        Ok(AddressOrMultiStreamAddress::MultiStreamAddress(MultiStreamAddress::WebRtc {
            ip: IpAddr::V6(g),
            port,
            remote_certificate_sha256,
        })) => {
            assert_eq!(g, [0, 0, 0, 0, 0, 0, 0, 1]);
            assert_eq!(port, 4444);
            assert_eq!(remote_certificate_sha256, vec![7u8; 32]);
        }
        _ => panic!("wrong interpretation"),
    }
}

#[test]
fn unknown_combination_is_rejected() {
    let r = multiaddr_to_address(&ma(vec![Component::Ip4([1, 2, 3, 4]), Component::Udp(53)]));
    assert!(matches!(r, Err(Error::UnknownCombination)));
    let r2 = multiaddr_to_address(&ma(vec![Component::Tcp(80)]));
    assert!(matches!(r2, Err(Error::UnknownCombination)));
}

#[test]
fn non_utf8_domain_name_is_rejected() {
    let r = multiaddr_to_address(&ma(vec![Component::Dns(vec![0xff, 0xfe]), Component::Tcp(80)]));
    assert!(matches!(r, Err(Error::NonUtf8DomainName)));
}

#[test]
fn parse_then_serialize_round_trips() {
    let cases: Vec<Vec<Component>> = vec![
        vec![Component::Ip4([9, 8, 7, 6]), Component::Tcp(1)],
        vec![Component::Ip6([1, 2, 3, 4, 5, 6, 7, 8]), Component::Tcp(2)],
        vec![Component::Dns(b"node.example".to_vec()), Component::Tcp(3)],
        vec![Component::Ip4([9, 8, 7, 6]), Component::Tcp(4), Component::Ws],
        vec![Component::Dns(b"node.example".to_vec()), Component::Tcp(5), Component::Ws],
        vec![Component::Dns(b"node.example".to_vec()), Component::Tcp(6), Component::Wss],
        vec![
            Component::Ip4([9, 8, 7, 6]),
            Component::Udp(7),
            Component::WebRtcDirect,
            Component::Certhash(Multihash { code: 12, data: vec![1u8; 32] }),
        ],
    ];
    for case in cases {
        let parsed = multiaddr_to_address(&ma(clone_components(&case))).unwrap();
        let back = address_to_multiaddr(&parsed);
        assert!(components_equal(&back.components, &case));
    }
}

fn clone_components(c: &[Component]) -> Vec<Component> {
    c.iter().map(clone_component).collect()
}

fn clone_component(c: &Component) -> Component {
    match c {
        Component::Ip4(b) => Component::Ip4(*b),
        Component::Ip6(g) => Component::Ip6(*g),
        Component::Dns(b) => Component::Dns(b.clone()),
        Component::Dns4(b) => Component::Dns4(b.clone()),
        Component::Dns6(b) => Component::Dns6(b.clone()),
        Component::Tcp(p) => Component::Tcp(*p),
        Component::Udp(p) => Component::Udp(*p),
        Component::Ws => Component::Ws,
        Component::Wss => Component::Wss,
        Component::Tls => Component::Tls,
        Component::WebRtcDirect => Component::WebRtcDirect,
        Component::Certhash(mh) => {
            Component::Certhash(Multihash { code: mh.code, data: mh.data.clone() })
        }
    }
}

fn components_equal(a: &[Component], b: &[Component]) -> bool {
    if a.len() != b.len() {
        return false;
    }
    a.iter().zip(b.iter()).all(|(x, y)| match (x, y) {
        (Component::Ip4(p), Component::Ip4(q)) => p == q,
        (Component::Ip6(p), Component::Ip6(q)) => p == q,
        (Component::Dns(p), Component::Dns(q)) => p == q,
        (Component::Dns4(p), Component::Dns4(q)) => p == q,
        (Component::Dns6(p), Component::Dns6(q)) => p == q,
        (Component::Tcp(p), Component::Tcp(q)) => p == q,
        (Component::Udp(p), Component::Udp(q)) => p == q,
        (Component::Ws, Component::Ws) => true,
        (Component::Wss, Component::Wss) => true,
        (Component::Tls, Component::Tls) => true,
        (Component::WebRtcDirect, Component::WebRtcDirect) => true,
        (Component::Certhash(p), Component::Certhash(q)) => p.code == q.code && p.data == q.data,
        _ => false,
    })
}
