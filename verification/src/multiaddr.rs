//! Interpretation of multiaddresses: an ordered sequence of typed components
//! is translated into a connectable address, and back.
//!
//! The recognized combinations are exactly:
//!
//! | components                          | result                       |
//! |-------------------------------------|------------------------------|
//! | ip4/tcp                             | `TcpIp` (v4)                 |
//! | ip6/tcp                             | `TcpIp` (v6)                 |
//! | dns|dns4|dns6 / tcp                 | `TcpDns`                     |
//! | ip4|ip6 / tcp / ws                  | `WebSocketIp`                |
//! | dns* / tcp / ws                     | `WebSocketDns` (non-secure)  |
//! | dns* / tcp / wss, dns* /tcp/tls/ws  | `WebSocketDns` (secure)      |
//! | ip4|ip6 / udp / webrtc-direct / certhash | `WebRtc` (SHA-256 only) |

use vstd::prelude::*;
use crate::bytesutil::bytes_to_string;
use crate::bytesutil::copy_bytes;
use vstd::utf8::valid_utf8;
use vstd::utf8::encode_utf8;

verus! {

/// A multihash: a hash-algorithm code together with the hash output.
pub struct Multihash {
    /// Hash algorithm code; SHA-256 is 12.
    pub code: u64,
    /// The hash output itself.
    pub data: Vec<u8>,
}

/// Ghost model of a multihash.
pub struct MultihashModel {
    pub code: u64,
    pub data: Seq<u8>,
}

impl View for Multihash {
    type V = MultihashModel;

    open spec fn view(&self) -> MultihashModel {
        MultihashModel { code: self.code, data: self.data@ }
    }
}

/// One typed component of a multiaddress.
pub enum Component {
    Ip4([u8; 4]),
    Ip6([u16; 8]),
    Dns(Vec<u8>),
    Dns4(Vec<u8>),
    Dns6(Vec<u8>),
    Tcp(u16),
    Udp(u16),
    Ws,
    Wss,
    Tls,
    WebRtcDirect,
    Certhash(Multihash),
}

/// Ghost model of one component.
pub enum ComponentModel {
    Ip4(Seq<u8>),
    Ip6(Seq<u16>),
    Dns(Seq<u8>),
    Dns4(Seq<u8>),
    Dns6(Seq<u8>),
    Tcp(u16),
    Udp(u16),
    Ws,
    Wss,
    Tls,
    WebRtcDirect,
    Certhash(MultihashModel),
}

impl View for Component {
    type V = ComponentModel;

    open spec fn view(&self) -> ComponentModel {
        match self {
            Component::Ip4(ip) => ComponentModel::Ip4(ip@),
            Component::Ip6(ip) => ComponentModel::Ip6(ip@),
            Component::Dns(b) => ComponentModel::Dns(b@),
            Component::Dns4(b) => ComponentModel::Dns4(b@),
            Component::Dns6(b) => ComponentModel::Dns6(b@),
            Component::Tcp(p) => ComponentModel::Tcp(*p),
            Component::Udp(p) => ComponentModel::Udp(*p),
            Component::Ws => ComponentModel::Ws,
            Component::Wss => ComponentModel::Wss,
            Component::Tls => ComponentModel::Tls,
            Component::WebRtcDirect => ComponentModel::WebRtcDirect,
            Component::Certhash(mh) => ComponentModel::Certhash(mh@),
        }
    }
}

/// A multiaddress: an ordered sequence of typed components.
pub struct Multiaddr {
    pub components: Vec<Component>,
}

impl View for Multiaddr {
    type V = Seq<ComponentModel>;

    open spec fn view(&self) -> Seq<ComponentModel> {
        self.components@.map_values(|c: Component| c@)
    }
}

/// An IP address, v4 or v6.
pub enum IpAddr {
    V4([u8; 4]),
    V6([u16; 8]),
}

/// Ghost model of an IP address.
pub enum IpAddrModel {
    V4(Seq<u8>),
    V6(Seq<u16>),
}

impl View for IpAddr {
    type V = IpAddrModel;

    open spec fn view(&self) -> IpAddrModel {
        match self {
            IpAddr::V4(ip) => IpAddrModel::V4(ip@),
            IpAddr::V6(ip) => IpAddrModel::V6(ip@),
        }
    }
}

/// Address of a single-stream transport.
pub enum Address {
    TcpIp { ip: IpAddr, port: u16 },
    TcpDns { hostname: String, port: u16 },
    WebSocketIp { ip: IpAddr, port: u16 },
    WebSocketDns { hostname: String, port: u16, secure: bool },
}

/// Ghost model of an [`Address`]. Hostnames are modelled as their UTF-8 bytes.
pub enum AddressModel {
    TcpIp { ip: IpAddrModel, port: u16 },
    TcpDns { hostname: Seq<u8>, port: u16 },
    WebSocketIp { ip: IpAddrModel, port: u16 },
    WebSocketDns { hostname: Seq<u8>, port: u16, secure: bool },
}

impl View for Address {
    type V = AddressModel;

    open spec fn view(&self) -> AddressModel {
        match self {
            Address::TcpIp { ip, port } => AddressModel::TcpIp { ip: ip@, port: *port },
            Address::TcpDns { hostname, port } => AddressModel::TcpDns {
                hostname: encode_utf8(hostname@),
                port: *port,
            },
            Address::WebSocketIp { ip, port } => AddressModel::WebSocketIp {
                ip: ip@,
                port: *port,
            },
            Address::WebSocketDns { hostname, port, secure } => AddressModel::WebSocketDns {
                hostname: encode_utf8(hostname@),
                port: *port,
                secure: *secure,
            },
        }
    }
}

/// Address of a multi-stream transport.
pub enum MultiStreamAddress {
    WebRtc { ip: IpAddr, port: u16, remote_certificate_sha256: Vec<u8> },
}

/// Ghost model of a [`MultiStreamAddress`].
pub enum MultiStreamAddressModel {
    WebRtc { ip: IpAddrModel, port: u16, remote_certificate_sha256: Seq<u8> },
}

impl View for MultiStreamAddress {
    type V = MultiStreamAddressModel;

    open spec fn view(&self) -> MultiStreamAddressModel {
        match self {
            MultiStreamAddress::WebRtc { ip, port, remote_certificate_sha256 } => {
                MultiStreamAddressModel::WebRtc {
                    ip: ip@,
                    port: *port,
                    remote_certificate_sha256: remote_certificate_sha256@,
                }
            },
        }
    }
}

/// Either a single-stream or a multi-stream address.
pub enum AddressOrMultiStreamAddress {
    Address(Address),
    MultiStreamAddress(MultiStreamAddress),
}

/// Ghost model of an [`AddressOrMultiStreamAddress`].
pub enum AddressOrMultiStreamAddressModel {
    Address(AddressModel),
    MultiStreamAddress(MultiStreamAddressModel),
}

impl View for AddressOrMultiStreamAddress {
    type V = AddressOrMultiStreamAddressModel;

    open spec fn view(&self) -> AddressOrMultiStreamAddressModel {
        match self {
            AddressOrMultiStreamAddress::Address(a) => {
                AddressOrMultiStreamAddressModel::Address(a@)
            },
            AddressOrMultiStreamAddress::MultiStreamAddress(a) => {
                AddressOrMultiStreamAddressModel::MultiStreamAddress(a@)
            },
        }
    }
}

/// Failure to interpret a multiaddress.
#[derive(Clone, Copy, PartialEq, Eq, Structural, Debug)]
pub enum Error {
    /// Unknown combination of components.
    UnknownCombination,
    /// The multiaddress contains a domain name that is not UTF-8.
    NonUtf8DomainName,
    /// The multiaddress contains a certhash whose multihash is not SHA-256.
    NonSha256Certhash,
    /// The multiaddress contains a multihash whose length does not match its
    /// hash algorithm.
    InvalidMultihashLength,
}

/// Multihash code of SHA-256.
pub const SHA256_CODE: u64 = 12;

/// True for the `dns`, `dns4` and `dns6` components.
pub open spec fn spec_is_dns(c: ComponentModel) -> bool {
    c is Dns || c is Dns4 || c is Dns6
}

/// The domain-name bytes of a `dns`, `dns4` or `dns6` component.
pub open spec fn spec_dns_bytes(c: ComponentModel) -> Seq<u8> {
    match c {
        ComponentModel::Dns(b) => b,
        ComponentModel::Dns4(b) => b,
        ComponentModel::Dns6(b) => b,
        _ => Seq::empty(),
    }
}

/// What a `certhash`-terminated combination translates to.
pub open spec fn spec_webrtc(ip: IpAddrModel, port: u16, mh: MultihashModel) -> Result<
    AddressOrMultiStreamAddressModel,
    Error,
> {
    if mh.code != SHA256_CODE {
        Err(Error::NonSha256Certhash)
    } else if mh.data.len() != 32 {
        Err(Error::InvalidMultihashLength)
    } else {
        Ok(
            AddressOrMultiStreamAddressModel::MultiStreamAddress(
                MultiStreamAddressModel::WebRtc { ip, port, remote_certificate_sha256: mh.data },
            ),
        )
    }
}

/// What a `dns*`-led combination translates to.
pub open spec fn spec_dns_address(hostname: Seq<u8>, port: u16, ws: bool, secure: bool) -> Result<
    AddressOrMultiStreamAddressModel,
    Error,
> {
    if !valid_utf8(hostname) {
        Err(Error::NonUtf8DomainName)
    } else if ws {
        Ok(
            AddressOrMultiStreamAddressModel::Address(
                AddressModel::WebSocketDns { hostname, port, secure },
            ),
        )
    } else {
        Ok(AddressOrMultiStreamAddressModel::Address(AddressModel::TcpDns { hostname, port }))
    }
}

/// The translation of a component sequence into an address.
pub open spec fn spec_to_address(ps: Seq<ComponentModel>) -> Result<
    AddressOrMultiStreamAddressModel,
    Error,
> {
    if ps.len() == 2 {
        match (ps[0], ps[1]) {
            (ComponentModel::Ip4(ip), ComponentModel::Tcp(port)) => Ok(
                AddressOrMultiStreamAddressModel::Address(
                    AddressModel::TcpIp { ip: IpAddrModel::V4(ip), port },
                ),
            ),
            (ComponentModel::Ip6(ip), ComponentModel::Tcp(port)) => Ok(
                AddressOrMultiStreamAddressModel::Address(
                    AddressModel::TcpIp { ip: IpAddrModel::V6(ip), port },
                ),
            ),
            (d, ComponentModel::Tcp(port)) => if spec_is_dns(d) {
                spec_dns_address(spec_dns_bytes(d), port, false, false)
            } else {
                Err(Error::UnknownCombination)
            },
            _ => Err(Error::UnknownCombination),
        }
    } else if ps.len() == 3 {
        match (ps[0], ps[1], ps[2]) {
            (ComponentModel::Ip4(ip), ComponentModel::Tcp(port), ComponentModel::Ws) => Ok(
                AddressOrMultiStreamAddressModel::Address(
                    AddressModel::WebSocketIp { ip: IpAddrModel::V4(ip), port },
                ),
            ),
            (ComponentModel::Ip6(ip), ComponentModel::Tcp(port), ComponentModel::Ws) => Ok(
                AddressOrMultiStreamAddressModel::Address(
                    AddressModel::WebSocketIp { ip: IpAddrModel::V6(ip), port },
                ),
            ),
            (d, ComponentModel::Tcp(port), ComponentModel::Ws) => if spec_is_dns(d) {
                spec_dns_address(spec_dns_bytes(d), port, true, false)
            } else {
                Err(Error::UnknownCombination)
            },
            (d, ComponentModel::Tcp(port), ComponentModel::Wss) => if spec_is_dns(d) {
                spec_dns_address(spec_dns_bytes(d), port, true, true)
            } else {
                Err(Error::UnknownCombination)
            },
            _ => Err(Error::UnknownCombination),
        }
    } else if ps.len() == 4 {
        match (ps[0], ps[1], ps[2], ps[3]) {
            (
                ComponentModel::Ip4(ip),
                ComponentModel::Udp(port),
                ComponentModel::WebRtcDirect,
                ComponentModel::Certhash(mh),
            ) => spec_webrtc(IpAddrModel::V4(ip), port, mh),
            (
                ComponentModel::Ip6(ip),
                ComponentModel::Udp(port),
                ComponentModel::WebRtcDirect,
                ComponentModel::Certhash(mh),
            ) => spec_webrtc(IpAddrModel::V6(ip), port, mh),
            (d, ComponentModel::Tcp(port), ComponentModel::Tls, ComponentModel::Ws) => if spec_is_dns(
                d,
            ) {
                spec_dns_address(spec_dns_bytes(d), port, true, true)
            } else {
                Err(Error::UnknownCombination)
            },
            _ => Err(Error::UnknownCombination),
        }
    } else {
        Err(Error::UnknownCombination)
    }
}

/// The component sequence that an address is written back to.
pub open spec fn spec_to_multiaddr(a: AddressOrMultiStreamAddressModel) -> Seq<ComponentModel> {
    let ip_component = |ip: IpAddrModel|
        match ip {
            IpAddrModel::V4(b) => ComponentModel::Ip4(b),
            IpAddrModel::V6(b) => ComponentModel::Ip6(b),
        };
    match a {
        AddressOrMultiStreamAddressModel::Address(AddressModel::TcpIp { ip, port }) => seq![
            ip_component(ip),
            ComponentModel::Tcp(port),
        ],
        AddressOrMultiStreamAddressModel::Address(AddressModel::TcpDns { hostname, port }) => seq![
            ComponentModel::Dns(hostname),
            ComponentModel::Tcp(port),
        ],
        AddressOrMultiStreamAddressModel::Address(AddressModel::WebSocketIp { ip, port }) => seq![
            ip_component(ip),
            ComponentModel::Tcp(port),
            ComponentModel::Ws,
        ],
        AddressOrMultiStreamAddressModel::Address(
            AddressModel::WebSocketDns { hostname, port, secure },
        ) => seq![
            ComponentModel::Dns(hostname),
            ComponentModel::Tcp(port),
            if secure {
                ComponentModel::Wss
            } else {
                ComponentModel::Ws
            },
        ],
        AddressOrMultiStreamAddressModel::MultiStreamAddress(
            MultiStreamAddressModel::WebRtc { ip, port, remote_certificate_sha256 },
        ) => seq![
            ip_component(ip),
            ComponentModel::Udp(port),
            ComponentModel::WebRtcDirect,
            ComponentModel::Certhash(
                MultihashModel { code: SHA256_CODE, data: remote_certificate_sha256 },
            ),
        ],
    }
}

/// Turns a domain name plus port into an address, checking UTF-8.
fn dns_address(hostname: &Vec<u8>, port: u16, ws: bool, secure: bool) -> (r: Result<
    AddressOrMultiStreamAddress,
    Error,
>)
    ensures
        match r {
            Ok(a) => spec_dns_address(hostname@, port, ws, secure) == Ok::<_, Error>(a@),
            Err(e) => spec_dns_address(hostname@, port, ws, secure) == Err::<
                AddressOrMultiStreamAddressModel,
                _,
            >(e),
        },
{
    match bytes_to_string(copy_bytes(hostname)) {
        None => Err(Error::NonUtf8DomainName),
        Some(s) => {
            if ws {
                Ok(
                    AddressOrMultiStreamAddress::Address(
                        Address::WebSocketDns { hostname: s, port, secure },
                    ),
                )
            } else {
                Ok(AddressOrMultiStreamAddress::Address(Address::TcpDns { hostname: s, port }))
            }
        },
    }
}

/// Translates a multiaddress into a connectable address.
///
/// Returns an error exactly when the combination of components is not
/// recognized, a domain name is not UTF-8, or a certhash does not carry a
/// 32-byte SHA-256 multihash.
pub fn multiaddr_to_address(multiaddr: &Multiaddr) -> (r: Result<
    AddressOrMultiStreamAddress,
    Error,
>)
    ensures
        match r {
            Ok(a) => spec_to_address(multiaddr@) == Ok::<_, Error>(a@),
            Err(e) => spec_to_address(multiaddr@) == Err::<AddressOrMultiStreamAddressModel, _>(e),
        },
{
    let n = multiaddr.components.len();
    if n == 2 {
        match (&multiaddr.components[0], &multiaddr.components[1]) {
            (Component::Ip4(ip), Component::Tcp(port)) => Ok(
                AddressOrMultiStreamAddress::Address(
                    Address::TcpIp { ip: IpAddr::V4(*ip), port: *port },
                ),
            ),
            (Component::Ip6(ip), Component::Tcp(port)) => Ok(
                AddressOrMultiStreamAddress::Address(
                    Address::TcpIp { ip: IpAddr::V6(*ip), port: *port },
                ),
            ),
            (Component::Dns(b), Component::Tcp(port)) => dns_address(b, *port, false, false),
            (Component::Dns4(b), Component::Tcp(port)) => dns_address(b, *port, false, false),
            (Component::Dns6(b), Component::Tcp(port)) => dns_address(b, *port, false, false),
            _ => Err(Error::UnknownCombination),
        }
    } else if n == 3 {
        match (&multiaddr.components[0], &multiaddr.components[1], &multiaddr.components[2]) {
            (Component::Ip4(ip), Component::Tcp(port), Component::Ws) => Ok(
                AddressOrMultiStreamAddress::Address(
                    Address::WebSocketIp { ip: IpAddr::V4(*ip), port: *port },
                ),
            ),
            (Component::Ip6(ip), Component::Tcp(port), Component::Ws) => Ok(
                AddressOrMultiStreamAddress::Address(
                    Address::WebSocketIp { ip: IpAddr::V6(*ip), port: *port },
                ),
            ),
            (Component::Dns(b), Component::Tcp(port), Component::Ws) => dns_address(
                b,
                *port,
                true,
                false,
            ),
            (Component::Dns4(b), Component::Tcp(port), Component::Ws) => dns_address(
                b,
                *port,
                true,
                false,
            ),
            (Component::Dns6(b), Component::Tcp(port), Component::Ws) => dns_address(
                b,
                *port,
                true,
                false,
            ),
            (Component::Dns(b), Component::Tcp(port), Component::Wss) => dns_address(
                b,
                *port,
                true,
                true,
            ),
            (Component::Dns4(b), Component::Tcp(port), Component::Wss) => dns_address(
                b,
                *port,
                true,
                true,
            ),
            (Component::Dns6(b), Component::Tcp(port), Component::Wss) => dns_address(
                b,
                *port,
                true,
                true,
            ),
            _ => Err(Error::UnknownCombination),
        }
    } else if n == 4 {
        match (
            &multiaddr.components[0],
            &multiaddr.components[1],
            &multiaddr.components[2],
            &multiaddr.components[3],
        ) {
            (Component::Ip4(ip), Component::Udp(port), Component::WebRtcDirect, Component::Certhash(
                mh,
            )) => webrtc_address(IpAddr::V4(*ip), *port, mh),
            (Component::Ip6(ip), Component::Udp(port), Component::WebRtcDirect, Component::Certhash(
                mh,
            )) => webrtc_address(IpAddr::V6(*ip), *port, mh),
            (Component::Dns(b), Component::Tcp(port), Component::Tls, Component::Ws) => dns_address(
                b,
                *port,
                true,
                true,
            ),
            (Component::Dns4(b), Component::Tcp(port), Component::Tls, Component::Ws) => dns_address(
                b,
                *port,
                true,
                true,
            ),
            (Component::Dns6(b), Component::Tcp(port), Component::Tls, Component::Ws) => dns_address(
                b,
                *port,
                true,
                true,
            ),
            _ => Err(Error::UnknownCombination),
        }
    } else {
        Err(Error::UnknownCombination)
    }
}

/// Checks a certhash and builds the multi-stream address.
fn webrtc_address(ip: IpAddr, port: u16, mh: &Multihash) -> (r: Result<
    AddressOrMultiStreamAddress,
    Error,
>)
    ensures
        match r {
            Ok(a) => spec_webrtc(ip@, port, mh@) == Ok::<_, Error>(a@),
            Err(e) => spec_webrtc(ip@, port, mh@) == Err::<AddressOrMultiStreamAddressModel, _>(e),
        },
{
    if mh.code != SHA256_CODE {
        Err(Error::NonSha256Certhash)
    } else if mh.data.len() != 32 {
        Err(Error::InvalidMultihashLength)
    } else {
        Ok(
            AddressOrMultiStreamAddress::MultiStreamAddress(
                MultiStreamAddress::WebRtc {
                    ip,
                    port,
                    remote_certificate_sha256: copy_bytes(&mh.data),
                },
            ),
        )
    }
}

/// Writes an address back as a multiaddress.
pub fn address_to_multiaddr(a: &AddressOrMultiStreamAddress) -> (r: Multiaddr)
    ensures
        r@ == spec_to_multiaddr(a@),
{
    let mut components: Vec<Component> = Vec::new();
    match a {
        AddressOrMultiStreamAddress::Address(Address::TcpIp { ip, port }) => {
            components.push(ip_to_component(ip));
            components.push(Component::Tcp(*port));
        },
        AddressOrMultiStreamAddress::Address(Address::TcpDns { hostname, port }) => {
            components.push(Component::Dns(hostname.as_str().as_bytes_vec()));
            components.push(Component::Tcp(*port));
        },
        AddressOrMultiStreamAddress::Address(Address::WebSocketIp { ip, port }) => {
            components.push(ip_to_component(ip));
            components.push(Component::Tcp(*port));
            components.push(Component::Ws);
        },
        AddressOrMultiStreamAddress::Address(Address::WebSocketDns { hostname, port, secure }) => {
            components.push(Component::Dns(hostname.as_str().as_bytes_vec()));
            components.push(Component::Tcp(*port));
            if *secure {
                components.push(Component::Wss);
            } else {
                components.push(Component::Ws);
            }
        },
        AddressOrMultiStreamAddress::MultiStreamAddress(
            MultiStreamAddress::WebRtc { ip, port, remote_certificate_sha256 },
        ) => {
            components.push(ip_to_component(ip));
            components.push(Component::Udp(*port));
            components.push(Component::WebRtcDirect);
            components.push(
                Component::Certhash(
                    Multihash { code: SHA256_CODE, data: copy_bytes(remote_certificate_sha256) },
                ),
            );
        },
    }
    let r = Multiaddr { components };
    proof {
        assert(r@ =~= spec_to_multiaddr(a@));
    }
    r
}

/// The component that names an IP address.
fn ip_to_component(ip: &IpAddr) -> (r: Component)
    ensures
        r@ == match ip@ {
            IpAddrModel::V4(b) => ComponentModel::Ip4(b),
            IpAddrModel::V6(b) => ComponentModel::Ip6(b),
        },
{
    match ip {
        IpAddr::V4(b) => Component::Ip4(*b),
        IpAddr::V6(b) => Component::Ip6(*b),
    }
}

/// Writing the translation of a recognized multiaddress back yields the
/// multiaddress itself, as long as the multiaddress does not use the `dns4`,
/// `dns6` or `tls` components, whose translations are written back with
/// `dns` and `wss` instead.
pub proof fn lemma_multiaddr_round_trip(ps: Seq<ComponentModel>)
    requires
        spec_to_address(ps) is Ok,
        forall|i: int|
            0 <= i < ps.len() ==> !(#[trigger] ps[i] is Dns4) && !(ps[i] is Dns6) && !(ps[i] is Tls),
    ensures
        spec_to_multiaddr(spec_to_address(ps)->Ok_0) == ps,
{
    let a = spec_to_address(ps)->Ok_0;
    if ps.len() == 2 {
        assert(spec_to_multiaddr(a) =~= ps);
    } else if ps.len() == 3 {
        assert(spec_to_multiaddr(a) =~= ps);
    } else {
        assert(ps.len() == 4);
        assert(spec_to_multiaddr(a) =~= ps);
    }
}

} // verus!
