//! Decoding packets: the layers that `etherparse` finds in a packet's bytes, and what a packet
//! says of its endpoints and protocol.
use vstd::prelude::*;
use etherparse::{LinkSlice, NetSlice, SlicedPacket, TransportSlice};
use pcap_parser::Linktype;
use crate::util::{
    decimal, decimal_text, iso_text, nibble, owned, string_of, unix_epoch_to_iso8601, MetaModel,
    MetaValue,
};
use crate::pcap::Interface;
use crate::pcap::blocks::{
    events_left, head_outcome, is_terminal, well_formed_events, BlockModel, CaptureBlock,
    CaptureError, CaptureEvent, CaptureFault, CaptureReader, EventModel,
};

verus! {

broadcast use vstd::string::group_string_axioms;

#[verifier::external_type_specification]
pub struct ExLinktype(Linktype);

#[verifier::external_type_specification]
#[verifier::external_body]
pub struct ExSlicedPacket<'a>(SlicedPacket<'a>);

#[verifier::external_type_specification]
#[verifier::external_body]
pub struct ExNetSlice<'a>(NetSlice<'a>);

#[verifier::external_type_specification]
#[verifier::external_body]
pub struct ExLinkSlice<'a>(LinkSlice<'a>);

#[verifier::external_type_specification]
#[verifier::external_body]
pub struct ExTransportSlice<'a>(TransportSlice<'a>);

/// Link type codes that decoding tells apart.
pub const LINKTYPE_ETHERNET: i32 = 1;
pub const LINKTYPE_RAW: i32 = 101;
pub const LINKTYPE_LINUX_SLL: i32 = 113;
pub const LINKTYPE_IPV4: i32 = 228;
pub const LINKTYPE_IPV6: i32 = 229;

// ---------------------------------------------------------------------------------------------
// Link type names
// ---------------------------------------------------------------------------------------------

/// The names `pcap_parser` gives the link types it knows.
pub open spec fn known_linktype(code: i32) -> Option<Seq<char>> {
    if code == 0 {
        Some("NULL"@)
    } else if code == 1 {
        Some("ETHERNET"@)
    } else if code == 10 {
        Some("FDDI"@)
    } else if code == 101 {
        Some("RAW"@)
    } else if code == 108 {
        Some("LOOP"@)
    } else if code == 113 {
        Some("LINUX_SLL"@)
    } else if code == 276 {
        Some("LINUX_SLL2"@)
    } else if code == 228 {
        Some("IPV4"@)
    } else if code == 229 {
        Some("IPV6"@)
    } else if code == 239 {
        Some("NFLOG"@)
    } else if code == 252 {
        Some("WIRESHARK_UPPER_PDU"@)
    } else {
        None
    }
}

/// A number in lowercase hexadecimal, without leading zeros.
pub open spec fn hex_number(v: nat) -> Seq<char>
    decreases v,
{
    if v < 16 {
        seq![nibble(v)]
    } else {
        hex_number(v / 16).push(nibble(v % 16))
    }
}

/// A signed number in decimal, with a `-` before a negative one.
pub open spec fn signed_decimal(n: int) -> Seq<char> {
    if n < 0 {
        seq!['-'] + decimal_text((-n) as nat)
    } else {
        decimal_text(n as nat)
    }
}

/// The text of `pcap_parser::Linktype(code)`: its name where `pcap_parser` names it, else
/// `Linktype(code / 0xhex)`, the hexadecimal being that of the code's 32 bits.
pub open spec fn linktype_text(code: i32) -> Seq<char> {
    match known_linktype(code) {
        Some(name) => name,
        None => "Linktype("@ + signed_decimal(code as int) + " / 0x"@ + hex_number(
            (code as u32) as nat,
        ) + ")"@,
    }
}

/// `pcap_parser::Linktype(code).to_string()`, written by `rusticata_macros::newtype_enum`.
/// Claimed, as its source shows: a link type that `pcap_parser` names is written as its name,
/// any other as `Linktype({code} / 0x{code:x})`.
#[verifier::external_body]
pub(crate) fn linktype_name(code: i32) -> (text: String)
    ensures
        text@ == linktype_text(code),
{
    Linktype(code).to_string()
}

// ---------------------------------------------------------------------------------------------
// Layers
// ---------------------------------------------------------------------------------------------

/// The network layer of a packet, with what decoding reads of it.
#[allow(inconsistent_fields)]
pub enum NetLayer {
    Ipv4 { source: [u8; 4], destination: [u8; 4], payload: Vec<u8> },
    Ipv6 { source: [u8; 16], destination: [u8; 16], payload: Vec<u8> },
    Arp,
}

/// The transport layer of a packet, with what decoding reads of it.
pub enum TransportLayer {
    Tcp { source_port: u16, destination_port: u16, payload: Vec<u8> },
    Udp { source_port: u16, destination_port: u16, payload: Vec<u8> },
    Icmpv4 { payload: Vec<u8> },
    Icmpv6 { payload: Vec<u8> },
    Igmp { payload: Vec<u8> },
}

/// The layers of a packet: the source and destination addresses of an Ethernet II header, the
/// network layer and the transport layer, each where present.
pub struct PacketLayers {
    pub ethernet: Option<([u8; 6], [u8; 6])>,
    pub net: Option<NetLayer>,
    pub transport: Option<TransportLayer>,
}

/// A network layer as plain values.
#[allow(inconsistent_fields)]
pub enum NetModel {
    Ipv4 { source: Seq<u8>, destination: Seq<u8>, payload: Seq<u8> },
    Ipv6 { source: Seq<u8>, destination: Seq<u8>, payload: Seq<u8> },
    Arp,
}

/// A transport layer as plain values.
pub enum TransportModel {
    Tcp { source_port: u16, destination_port: u16, payload: Seq<u8> },
    Udp { source_port: u16, destination_port: u16, payload: Seq<u8> },
    Icmpv4 { payload: Seq<u8> },
    Icmpv6 { payload: Seq<u8> },
    Igmp { payload: Seq<u8> },
}

/// A packet's layers as plain values.
pub struct LayersModel {
    pub ethernet: Option<(Seq<u8>, Seq<u8>)>,
    pub net: Option<NetModel>,
    pub transport: Option<TransportModel>,
}

impl View for NetLayer {
    type V = NetModel;

    open spec fn view(&self) -> NetModel {
        match self {
            NetLayer::Ipv4 { source, destination, payload } => NetModel::Ipv4 {
                source: source@,
                destination: destination@,
                payload: payload@,
            },
            NetLayer::Ipv6 { source, destination, payload } => NetModel::Ipv6 {
                source: source@,
                destination: destination@,
                payload: payload@,
            },
            NetLayer::Arp => NetModel::Arp,
        }
    }
}

impl View for TransportLayer {
    type V = TransportModel;

    open spec fn view(&self) -> TransportModel {
        match self {
            TransportLayer::Tcp { source_port, destination_port, payload } => TransportModel::Tcp {
                source_port: *source_port,
                destination_port: *destination_port,
                payload: payload@,
            },
            TransportLayer::Udp { source_port, destination_port, payload } => TransportModel::Udp {
                source_port: *source_port,
                destination_port: *destination_port,
                payload: payload@,
            },
            TransportLayer::Icmpv4 { payload } => TransportModel::Icmpv4 { payload: payload@ },
            TransportLayer::Icmpv6 { payload } => TransportModel::Icmpv6 { payload: payload@ },
            TransportLayer::Igmp { payload } => TransportModel::Igmp { payload: payload@ },
        }
    }
}

impl View for PacketLayers {
    type V = LayersModel;

    open spec fn view(&self) -> LayersModel {
        LayersModel {
            ethernet: match self.ethernet {
                Some((s, d)) => Some((s@, d@)),
                None => None,
            },
            net: match self.net {
                Some(n) => Some(n@),
                None => None,
            },
            transport: match self.transport {
                Some(t) => Some(t@),
                None => None,
            },
        }
    }
}

/// The layers that `etherparse::SlicedPacket::from_ethernet` finds in `data`; `None` where it
/// fails.
pub uninterp spec fn ethernet_layers(data: Seq<u8>) -> Option<LayersModel>;

/// The layers that `etherparse::SlicedPacket::from_linux_sll` finds in `data`; `None` where it
/// fails.
pub uninterp spec fn linux_sll_layers(data: Seq<u8>) -> Option<LayersModel>;

/// The layers that `etherparse::SlicedPacket::from_ip` finds in `data`; `None` where it fails.
pub uninterp spec fn ip_layers(data: Seq<u8>) -> Option<LayersModel>;

/// Whether `part` is a run of consecutive bytes of `whole`.
pub open spec fn part_of(part: Seq<u8>, whole: Seq<u8>) -> bool {
    exists|i: int, j: int| 0 <= i <= j <= whole.len() && part == whole.subrange(i, j)
}

/// Whether the payloads that the layers report are runs of the packet's own bytes.
pub open spec fn layers_within(l: LayersModel, data: Seq<u8>) -> bool {
    &&& (l.net matches Some(NetModel::Ipv4 { payload, .. }) ==> part_of(payload, data))
    &&& (l.net matches Some(NetModel::Ipv6 { payload, .. }) ==> part_of(payload, data))
    &&& (l.transport matches Some(t) ==> part_of(transport_payload(t), data))
}

/// The payload of a transport layer.
pub open spec fn transport_payload(t: TransportModel) -> Seq<u8> {
    match t {
        TransportModel::Tcp { payload, .. } => payload,
        TransportModel::Udp { payload, .. } => payload,
        TransportModel::Icmpv4 { payload } => payload,
        TransportModel::Icmpv6 { payload } => payload,
        TransportModel::Igmp { payload } => payload,
    }
}

/// A network slice as plain values: addresses, and the IP payload, moved one for one.
#[verifier::external_body]
fn net_of(net: &NetSlice) -> (n: NetLayer) {
    match net {
        NetSlice::Ipv4(ip) => NetLayer::Ipv4 {
            source: ip.header().source(), destination: ip.header().destination(), payload: ip.payload().payload.to_vec(),
        },
        NetSlice::Ipv6(ip) => NetLayer::Ipv6 {
            source: ip.header().source(), destination: ip.header().destination(), payload: ip.payload().payload.to_vec(),
        },
        NetSlice::Arp(_) => NetLayer::Arp,
    }
}

/// A transport slice as plain values: ports and payload, moved one for one.
#[verifier::external_body]
fn transport_of(transport: &TransportSlice) -> (t: TransportLayer) {
    match transport {
        TransportSlice::Tcp(s) => TransportLayer::Tcp {
            source_port: s.source_port(), destination_port: s.destination_port(), payload: s.payload().to_vec(),
        },
        TransportSlice::Udp(s) => TransportLayer::Udp {
            source_port: s.source_port(), destination_port: s.destination_port(), payload: s.payload().to_vec(),
        },
        TransportSlice::Icmpv4(s) => TransportLayer::Icmpv4 { payload: s.payload().to_vec() },
        TransportSlice::Icmpv6(s) => TransportLayer::Icmpv6 { payload: s.payload().to_vec() },
        TransportSlice::Igmp(s) => TransportLayer::Igmp { payload: s.payload().to_vec() },
    }
}

/// A sliced packet as plain values, layer by layer.
#[verifier::external_body]
fn layers_of(packet: SlicedPacket) -> (layers: PacketLayers) {
    PacketLayers {
        ethernet: match &packet.link {
            Some(LinkSlice::Ethernet2(e)) => Some((e.source(), e.destination())),
            _ => None,
        },
        net: packet.net.as_ref().map(net_of),
        transport: packet.transport.as_ref().map(transport_of),
    }
}

/// `etherparse::SlicedPacket::from_ethernet(data)`, its error as `None`.
/// Claimed: the layers depend on the bytes alone, and each payload they report is a run of
/// those bytes (etherparse's slices point into its input).
#[verifier::external_body]
fn slice_ethernet(data: &[u8]) -> (layers: Option<PacketLayers>)
    ensures
        layers matches Some(l) ==> ethernet_layers(data@) == Some(l@),
        layers is None ==> ethernet_layers(data@) is None,
        layers matches Some(l) ==> layers_within(l@, data@),
{
    SlicedPacket::from_ethernet(data).ok().map(layers_of)
}

/// `etherparse::SlicedPacket::from_linux_sll(data)`, its error as `None`.
/// Claimed: the layers depend on the bytes alone, and each payload they report is a run of
/// those bytes (etherparse's slices point into its input).
#[verifier::external_body]
fn slice_linux_sll(data: &[u8]) -> (layers: Option<PacketLayers>)
    ensures
        layers matches Some(l) ==> linux_sll_layers(data@) == Some(l@),
        layers is None ==> linux_sll_layers(data@) is None,
        layers matches Some(l) ==> layers_within(l@, data@),
{
    SlicedPacket::from_linux_sll(data).ok().map(layers_of)
}

/// `etherparse::SlicedPacket::from_ip(data)`, its error as `None`.
/// Claimed: the layers depend on the bytes alone, and each payload they report is a run of
/// those bytes (etherparse's slices point into its input).
#[verifier::external_body]
fn slice_ip(data: &[u8]) -> (layers: Option<PacketLayers>)
    ensures
        layers matches Some(l) ==> ip_layers(data@) == Some(l@),
        layers is None ==> ip_layers(data@) is None,
        layers matches Some(l) ==> layers_within(l@, data@),
{
    SlicedPacket::from_ip(data).ok().map(layers_of)
}

/// The layers that decoding finds in a packet of link type `linktype`; `None` for a link type
/// it does not decode, or bytes that do not decode.
pub open spec fn layers_for(data: Seq<u8>, linktype: i32) -> Option<LayersModel> {
    if linktype == LINKTYPE_ETHERNET {
        ethernet_layers(data)
    } else if linktype == LINKTYPE_LINUX_SLL {
        linux_sll_layers(data)
    } else if linktype == LINKTYPE_RAW || linktype == LINKTYPE_IPV4 || linktype == LINKTYPE_IPV6 {
        ip_layers(data)
    } else {
        None
    }
}

fn layers(data: &[u8], linktype: i32) -> (l: Option<PacketLayers>)
    ensures
        l matches Some(l) ==> layers_for(data@, linktype) == Some(l@) && layers_within(l@, data@),
        l is None ==> layers_for(data@, linktype) is None,
{
    if linktype == LINKTYPE_ETHERNET {
        slice_ethernet(data)
    } else if linktype == LINKTYPE_LINUX_SLL {
        slice_linux_sll(data)
    } else if linktype == LINKTYPE_RAW || linktype == LINKTYPE_IPV4 || linktype == LINKTYPE_IPV6 {
        slice_ip(data)
    } else {
        None
    }
}

// ---------------------------------------------------------------------------------------------
// Addresses
// ---------------------------------------------------------------------------------------------

/// Bytes as decimal numbers joined by dots: an IPv4 address as `Ipv4Addr` writes it.
pub open spec fn dotted_text(bytes: Seq<u8>) -> Seq<char>
    decreases bytes.len(),
{
    if bytes.len() <= 1 {
        if bytes.len() == 0 {
            Seq::empty()
        } else {
            decimal_text(bytes[0] as nat)
        }
    } else {
        dotted_text(bytes.drop_last()) + seq!['.'] + decimal_text(bytes.last() as nat)
    }
}

/// Bytes as two lowercase hexadecimal digits each, joined by colons: a MAC address.
pub open spec fn colon_hex_text(bytes: Seq<u8>) -> Seq<char>
    decreases bytes.len(),
{
    if bytes.len() <= 1 {
        if bytes.len() == 0 {
            Seq::empty()
        } else {
            seq![nibble(bytes[0] as nat / 16), nibble(bytes[0] as nat % 16)]
        }
    } else {
        colon_hex_text(bytes.drop_last()) + seq![':', nibble(bytes.last() as nat / 16), nibble(
            bytes.last() as nat % 16,
        )]
    }
}

/// Writes bytes as decimal numbers joined by dots.
pub fn dotted(bytes: &[u8]) -> (text: String)
    ensures
        text@ == dotted_text(bytes@),
{
    let mut out: Vec<char> = Vec::new();
    let mut i: usize = 0;
    while i < bytes.len()
        invariant
            0 <= i <= bytes@.len(),
            out@ == dotted_text(bytes@.take(i as int)),
        decreases bytes@.len() - i,
    {
        let part = decimal(bytes[i] as u64);
        let digits = crate::util::chars_of(part.as_str());
        let ghost before = out@;
        if i > 0 {
            out.push('.');
        }
        let mut k: usize = 0;
        let ghost mid = out@;
        while k < digits.len()
            invariant
                0 <= k <= digits@.len(),
                out@ == mid + digits@.take(k as int),
            decreases digits@.len() - k,
        {
            out.push(digits[k]);
            proof {
                assert(digits@.take(k + 1) =~= digits@.take(k as int).push(digits@[k as int]));
            }
            k = k + 1;
        }
        proof {
            assert(digits@.take(digits@.len() as int) =~= digits@);
            let t = bytes@.take(i + 1);
            assert(t.drop_last() =~= bytes@.take(i as int));
            if i == 0 {
                assert(mid =~= Seq::<char>::empty());
                assert(out@ =~= decimal_text(t[0] as nat));
            } else {
                assert(out@ =~= before + seq!['.'] + decimal_text(t.last() as nat));
            }
        }
        i = i + 1;
    }
    assert(bytes@.take(bytes@.len() as int) =~= bytes@);
    string_of(out.as_slice())
}

/// Writes bytes as two lowercase hexadecimal digits each, joined by colons.
pub fn colon_hex(bytes: &[u8]) -> (text: String)
    ensures
        text@ == colon_hex_text(bytes@),
{
    let mut out: Vec<char> = Vec::new();
    let mut i: usize = 0;
    while i < bytes.len()
        invariant
            0 <= i <= bytes@.len(),
            out@ == colon_hex_text(bytes@.take(i as int)),
        decreases bytes@.len() - i,
    {
        let b = bytes[i];
        let high = b / 16;
        let low = b % 16;
        let h = if high < 10 { (48u8 + high) as char } else { (87u8 + high) as char };
        let l = if low < 10 { (48u8 + low) as char } else { (87u8 + low) as char };
        let ghost before = out@;
        if i > 0 {
            out.push(':');
        }
        out.push(h);
        out.push(l);
        proof {
            let t = bytes@.take(i + 1);
            assert(t.drop_last() =~= bytes@.take(i as int));
            assert(h == nibble(t.last() as nat / 16));
            assert(l == nibble(t.last() as nat % 16));
            if i == 0 {
                assert(out@ =~= seq![h, l]);
            } else {
                assert(out@ =~= before + seq![':', h, l]);
            }
        }
        i = i + 1;
    }
    assert(bytes@.take(bytes@.len() as int) =~= bytes@);
    string_of(out.as_slice())
}

/// The text of an IPv6 address, as `core::net::Ipv6Addr` writes it.
pub uninterp spec fn ipv6_text(octets: Seq<u8>) -> Seq<char>;

/// `core::net::Ipv6Addr::from(octets).to_string()`. Claimed: the text depends on the octets
/// alone.
#[verifier::external_body]
fn ipv6_display(octets: &[u8; 16]) -> (text: String)
    ensures
        text@ == ipv6_text(octets@),
{
    core::net::Ipv6Addr::from(*octets).to_string()
}

// ---------------------------------------------------------------------------------------------
// Frames
// ---------------------------------------------------------------------------------------------

/// What a packet says of its endpoints and protocol, and its innermost payload.
pub struct Frame {
    pub source: String,
    pub destination: String,
    pub protocol: String,
    pub payload: Vec<u8>,
}

/// A frame as plain values.
pub struct FrameModel {
    pub source: Seq<char>,
    pub destination: Seq<char>,
    pub protocol: Seq<char>,
    pub payload: Seq<u8>,
}

impl View for Frame {
    type V = FrameModel;

    open spec fn view(&self) -> FrameModel {
        FrameModel {
            source: self.source@,
            destination: self.destination@,
            protocol: self.protocol@,
            payload: self.payload@,
        }
    }
}

/// The source and destination of a packet: its IP addresses (an IPv6 address in brackets, so
/// that a `:port` after it stays readable), else its MAC addresses, else nothing.
pub open spec fn endpoints(l: LayersModel) -> (Seq<char>, Seq<char>) {
    match l.net {
        Some(NetModel::Ipv4 { source, destination, .. }) => (dotted_text(source), dotted_text(destination)),
        Some(NetModel::Ipv6 { source, destination, .. }) => (
            seq!['['] + ipv6_text(source) + seq![']'],
            seq!['['] + ipv6_text(destination) + seq![']'],
        ),
        _ => match l.ethernet {
            Some((s, d)) => (colon_hex_text(s), colon_hex_text(d)),
            None => (Seq::empty(), Seq::empty()),
        },
    }
}

/// An endpoint with its port.
pub open spec fn with_port(endpoint: Seq<char>, port: u16) -> Seq<char> {
    endpoint + seq![':'] + decimal_text(port as nat)
}

/// What decoding says of a packet of link type `linktype` with these bytes.
pub open spec fn frame_of(data: Seq<u8>, linktype: i32) -> FrameModel {
    match layers_for(data, linktype) {
        None => FrameModel {
            source: Seq::empty(),
            destination: Seq::empty(),
            protocol: linktype_text(linktype),
            payload: data,
        },
        Some(l) => {
            let (s, d) = endpoints(l);
            match l.transport {
                Some(TransportModel::Tcp { source_port, destination_port, payload }) => FrameModel {
                    source: with_port(s, source_port),
                    destination: with_port(d, destination_port),
                    protocol: "TCP"@,
                    payload,
                },
                Some(TransportModel::Udp { source_port, destination_port, payload }) => FrameModel {
                    source: with_port(s, source_port),
                    destination: with_port(d, destination_port),
                    protocol: "UDP"@,
                    payload,
                },
                Some(TransportModel::Icmpv4 { payload }) => FrameModel {
                    source: s,
                    destination: d,
                    protocol: "ICMP"@,
                    payload,
                },
                Some(TransportModel::Icmpv6 { payload }) => FrameModel {
                    source: s,
                    destination: d,
                    protocol: "ICMPv6"@,
                    payload,
                },
                Some(TransportModel::Igmp { payload }) => FrameModel {
                    source: s,
                    destination: d,
                    protocol: "IGMP"@,
                    payload,
                },
                None => FrameModel {
                    source: s,
                    destination: d,
                    protocol: match l.net {
                        Some(NetModel::Ipv4 { .. }) => "IPv4"@,
                        Some(NetModel::Ipv6 { .. }) => "IPv6"@,
                        Some(NetModel::Arp) => "ARP"@,
                        None => linktype_text(linktype),
                    },
                    payload: match l.net {
                        Some(NetModel::Ipv4 { payload, .. }) => payload,
                        Some(NetModel::Ipv6 { payload, .. }) => payload,
                        _ => data,
                    },
                },
            }
        },
    }
}

fn port_text(endpoint: &String, port: u16) -> (text: String)
    ensures
        text@ == with_port(endpoint@, port),
{
    proof {
        reveal_strlit(":");
    }
    let mut text = endpoint.clone();
    text.append(":");
    text.append(decimal(port as u64).as_str());
    text
}

fn bracketed(inner: String) -> (text: String)
    ensures
        text@ == seq!['['] + inner@ + seq![']'],
{
    proof {
        reveal_strlit("[");
        reveal_strlit("]");
    }
    let mut text = owned("[");
    text.append(inner.as_str());
    text.append("]");
    text
}

fn endpoints_of(l: &PacketLayers) -> (ends: (String, String))
    ensures
        ends.0@ == endpoints(l@).0,
        ends.1@ == endpoints(l@).1,
{
    match &l.net {
        Some(NetLayer::Ipv4 { source, destination, .. }) => (
            dotted(source.as_slice()),
            dotted(destination.as_slice()),
        ),
        Some(NetLayer::Ipv6 { source, destination, .. }) => (
            bracketed(ipv6_display(source)),
            bracketed(ipv6_display(destination)),
        ),
        _ => match &l.ethernet {
            Some((s, d)) => (colon_hex(s.as_slice()), colon_hex(d.as_slice())),
            None => (String::new(), String::new()),
        },
    }
}

proof fn lemma_whole_is_part(bytes: Seq<u8>)
    ensures
        part_of(bytes, bytes),
{
    assert(bytes.subrange(0, bytes.len() as int) =~= bytes);
}

proof fn lemma_decimal_text_nonempty(n: nat)
    ensures
        decimal_text(n).len() > 0,
{
}

proof fn lemma_dotted_text_nonempty(bytes: Seq<u8>)
    requires
        bytes.len() > 0,
    ensures
        dotted_text(bytes).len() > 0,
{
    if bytes.len() == 1 {
        lemma_decimal_text_nonempty(bytes[0] as nat);
    }
}

/// Both endpoints of a packet are written, or neither is.
proof fn lemma_endpoints_balanced(l: &PacketLayers)
    ensures
        (endpoints(l@).0.len() == 0) == (endpoints(l@).1.len() == 0),
{
    match &l.net {
        Some(NetLayer::Ipv4 { source, destination, .. }) => {
            assert(source@.len() == 4);
            assert(destination@.len() == 4);
            lemma_dotted_text_nonempty(source@);
            lemma_dotted_text_nonempty(destination@);
        },
        Some(NetLayer::Ipv6 { .. }) => {},
        _ => match &l.ethernet {
            Some((s, d)) => {
                assert(s@.len() == 6);
                assert(d@.len() == 6);
            },
            None => {},
        },
    }
}

/// Decodes a packet of link type `linktype`: its endpoints (with ports for TCP and UDP), its
/// innermost protocol, and that protocol's payload; for bytes that do not decode, no endpoints,
/// the link type's name, and all the bytes.
pub fn decode(data: &[u8], linktype: Linktype) -> (frame: Frame)
    ensures
        frame@ == frame_of(data@, linktype.0),
        part_of(frame@.payload, data@),
        (frame@.source.len() == 0) == (frame@.destination.len() == 0),
        frame@.protocol == "TCP"@ || frame@.protocol == "UDP"@ || frame@.protocol == "ICMP"@
            || frame@.protocol == "ICMPv6"@ || frame@.protocol == "IGMP"@ || frame@.protocol
            == "IPv4"@ || frame@.protocol == "IPv6"@ || frame@.protocol == "ARP"@
            || frame@.protocol == linktype_text(linktype.0),
{
    let code = linktype.0;
    proof {
        lemma_whole_is_part(data@);
    }
    let l = match layers(data, code) {
        Some(l) => l,
        None => {
            return Frame {
                source: String::new(),
                destination: String::new(),
                protocol: linktype_name(code),
                payload: vstd::slice::slice_to_vec(data),
            };
        },
    };
    let (source, destination) = endpoints_of(&l);
    proof {
        lemma_endpoints_balanced(&l);
    }
    match l.transport {
        Some(TransportLayer::Tcp { source_port, destination_port, payload }) => Frame {
            source: port_text(&source, source_port),
            destination: port_text(&destination, destination_port),
            protocol: owned("TCP"),
            payload,
        },
        Some(TransportLayer::Udp { source_port, destination_port, payload }) => Frame {
            source: port_text(&source, source_port),
            destination: port_text(&destination, destination_port),
            protocol: owned("UDP"),
            payload,
        },
        Some(TransportLayer::Icmpv4 { payload }) => Frame {
            source,
            destination,
            protocol: owned("ICMP"),
            payload,
        },
        Some(TransportLayer::Icmpv6 { payload }) => Frame {
            source,
            destination,
            protocol: owned("ICMPv6"),
            payload,
        },
        Some(TransportLayer::Igmp { payload }) => Frame {
            source,
            destination,
            protocol: owned("IGMP"),
            payload,
        },
        None => {
            let protocol = match &l.net {
                Some(NetLayer::Ipv4 { .. }) => owned("IPv4"),
                Some(NetLayer::Ipv6 { .. }) => owned("IPv6"),
                Some(NetLayer::Arp) => owned("ARP"),
                None => linktype_name(code),
            };
            let payload = match l.net {
                Some(NetLayer::Ipv4 { payload, .. }) => payload,
                Some(NetLayer::Ipv6 { payload, .. }) => payload,
                _ => vstd::slice::slice_to_vec(data),
            };
            Frame { source, destination, protocol, payload }
        },
    }
}

/// The fields that describe a decoded packet in its line.
pub open spec fn frame_fields(f: FrameModel) -> Seq<(Seq<char>, MetaModel)> {
    seq![
        ("source"@, MetaModel::Text(f.source)),
        ("destination"@, MetaModel::Text(f.destination)),
        ("protocol"@, MetaModel::Text(f.protocol)),
        ("payloadBytes"@, MetaModel::Number(f.payload.len() as u64)),
    ]
}

/// The fields that describe the packet `data` of link type `linktype`: its endpoints, protocol
/// and payload size, as decoding finds them.
pub fn describe(data: &[u8], linktype: i32) -> (fields: Vec<(String, MetaValue)>)
    ensures
        crate::util::meta_entries(fields@) == frame_fields(frame_of(data@, linktype)),
{
    let frame = decode(data, Linktype(linktype));
    let size = frame.payload.len() as u64;
    let fields = vec![
        (owned("source"), MetaValue::Text(frame.source)),
        (owned("destination"), MetaValue::Text(frame.destination)),
        (owned("protocol"), MetaValue::Text(frame.protocol)),
        (owned("payloadBytes"), MetaValue::Number(size)),
    ];
    proof {
        assert(crate::util::meta_entries(fields@) =~= frame_fields(frame_of(data@, linktype)));
    }
    fields
}

// ---------------------------------------------------------------------------------------------
// Reading a whole capture of one format
// ---------------------------------------------------------------------------------------------

/// The format of a capture.
#[derive(PartialEq, Eq, Structural)]
pub enum PcapType {
    Legacy,
    NG,
}

/// The format that a capture's first block tells: a pcap file header, or a pcapng section
/// header block; any other block is not recognized, and an error is passed on.
pub open spec fn type_of(first: Result<BlockModel, CaptureFault>) -> Result<PcapType, CaptureFault> {
    match first {
        Ok(BlockModel::LegacyHeader { .. }) => Ok(PcapType::Legacy),
        Ok(BlockModel::SectionHeader { .. }) => Ok(PcapType::NG),
        Ok(_) => Err(CaptureFault::HeaderNotRecognized),
        Err(f) => Err(f),
    }
}

/// The format of the capture that `reader` reads, from its first block, which is left unread.
pub fn get_type(reader: &mut CaptureReader) -> (t: Result<PcapType, CaptureError>)
    requires
        well_formed_events(events_left(*old(reader))),
    ensures
        events_left(*final(reader)) == events_left(*old(reader)),
        t matches Ok(k) ==> type_of(head_outcome(events_left(*old(reader))[0])) == Ok::<PcapType, CaptureFault>(k),
        t matches Err(e) ==> type_of(head_outcome(events_left(*old(reader))[0])) == Err::<PcapType, CaptureFault>(e@),
{
    match reader.peek() {
        Ok(CaptureBlock::LegacyHeader { .. }) => Ok(PcapType::Legacy),
        Ok(CaptureBlock::SectionHeader { .. }) => Ok(PcapType::NG),
        Ok(_) => Err(CaptureError::HeaderNotRecognized),
        Err(e) => Err(e),
    }
}

/// One packet of a capture read whole.
pub struct Packet {
    pub timestamp: String,
    pub caplen: u32,
    pub origlen: u32,
    pub data: Frame,
}

/// A capture read whole: its link type, snapshot length and packets.
pub struct Capture {
    pub linktype: String,
    pub snaplen: u32,
    pub packets: Vec<Packet>,
}

/// A packet as plain values.
pub struct PacketRecord {
    pub timestamp: Seq<char>,
    pub caplen: u32,
    pub origlen: u32,
    pub data: FrameModel,
}

/// A capture read whole, as plain values.
pub struct CaptureRecord {
    pub linktype: Seq<char>,
    pub snaplen: u32,
    pub packets: Seq<PacketRecord>,
}

impl View for Packet {
    type V = PacketRecord;

    open spec fn view(&self) -> PacketRecord {
        PacketRecord {
            timestamp: self.timestamp@,
            caplen: self.caplen,
            origlen: self.origlen,
            data: self.data@,
        }
    }
}

impl View for Capture {
    type V = CaptureRecord;

    open spec fn view(&self) -> CaptureRecord {
        CaptureRecord {
            linktype: self.linktype@,
            snaplen: self.snaplen,
            packets: self.packets@.map_values(|p: Packet| p@),
        }
    }
}

/// What a pcap file header tells of the packets after it.
pub struct LegacyHead {
    pub magic: u32,
    pub snaplen: u32,
    pub network: i32,
}

/// Microseconds since the Unix epoch of a pcap record's time; nanosecond captures keep
/// nanoseconds in `ts_usec`.
pub open spec fn legacy_micros(ts_sec: u32, ts_usec: u32, nanoseconds: bool) -> int {
    ts_sec * 1_000_000 + ts_usec / (if nanoseconds {
        1000u32
    } else {
        1u32
    })
}

/// How reading a pcap file whole ends once its blocks are read: the capture, which needs a
/// file header.
pub open spec fn legacy_done(head: Option<LegacyHead>, packets: Seq<PacketRecord>) -> Result<CaptureRecord, CaptureFault> {
    match head {
        Some(h) => Ok(CaptureRecord { linktype: linktype_text(h.network), snaplen: h.snaplen, packets }),
        None => Err(CaptureFault::HeaderNotRecognized),
    }
}

/// Reading a pcap file whole through the remaining steps: a file header sets how packets are
/// read, a record before any header or a pcapng block is not recognized, and an error is
/// passed on.
pub open spec fn legacy_steps(
    head: Option<LegacyHead>,
    packets: Seq<PacketRecord>,
    steps: Seq<EventModel>,
) -> Result<CaptureRecord, CaptureFault>
    decreases steps.len(),
{
    if steps.len() == 0 {
        legacy_done(head, packets)
    } else {
        match steps[0] {
            EventModel::Block(BlockModel::LegacyHeader { magic, snaplen, network, .. }) => legacy_steps(
                Some(LegacyHead { magic, snaplen, network }),
                packets,
                steps.drop_first(),
            ),
            EventModel::Block(BlockModel::LegacyPacket { ts_sec, ts_usec, caplen, origlen, data }) => {
                match head {
                    Some(h) => legacy_steps(
                        head,
                        packets.push(
                            PacketRecord {
                                timestamp: iso_text(
                                    Some(
                                        (legacy_micros(ts_sec, ts_usec, crate::pcap::nanosecond_magic(h.magic))
                                            * 1000) as i128,
                                    ),
                                ),
                                caplen,
                                origlen,
                                data: frame_of(data, h.network),
                            },
                        ),
                        steps.drop_first(),
                    ),
                    None => Err(CaptureFault::HeaderNotRecognized),
                }
            },
            EventModel::Block(_) => Err(CaptureFault::HeaderNotRecognized),
            EventModel::Incomplete(_) => legacy_steps(head, packets, steps.drop_first()),
            EventModel::End => legacy_done(head, packets),
            EventModel::Failed(f) => Err(f),
        }
    }
}

/// Reads the pcap file that `reader` reads, whole.
pub fn legacy(reader: &mut CaptureReader) -> (capture: Result<Capture, CaptureError>)
    requires
        well_formed_events(events_left(*old(reader))),
    ensures
        capture matches Ok(c) ==> legacy_steps(None, Seq::empty(), events_left(*old(reader)))
            == Ok::<CaptureRecord, CaptureFault>(c@),
        capture matches Err(e) ==> legacy_steps(None, Seq::empty(), events_left(*old(reader)))
            == Err::<CaptureRecord, CaptureFault>(e@),
{
    let ghost steps = events_left(*reader);
    let mut head: Option<LegacyHead> = None;
    let mut packets: Vec<Packet> = Vec::new();
    assert(packets@.map_values(|p: Packet| p@) =~= Seq::<PacketRecord>::empty());
    loop
        invariant
            steps == events_left(*old(reader)),
            well_formed_events(events_left(*reader)),
            legacy_steps(head, packets@.map_values(|p: Packet| p@), events_left(*reader))
                == legacy_steps(None, Seq::empty(), steps),
        decreases events_left(*reader).len(),
    {
        let ghost left = events_left(*reader);
        let ghost records = packets@.map_values(|p: Packet| p@);
        let event = reader.next_event();
        match event {
            CaptureEvent::Block(CaptureBlock::LegacyHeader { magic, snaplen, network, .. }) => {
                head = Some(LegacyHead { magic, snaplen, network });
            },
            CaptureEvent::Block(CaptureBlock::LegacyPacket { ts_sec, ts_usec, caplen, origlen, data }) => {
                let h = match &head {
                    Some(h) => h,
                    None => {
                        return Err(CaptureError::HeaderNotRecognized);
                    },
                };
                let scale: u64 = if h.magic == 0xa1b2_3c4d || h.magic == 0x4d3c_b2a1 {
                    1000
                } else {
                    1
                };
                let micros = ts_sec as u64 * 1_000_000 + ts_usec as u64 / scale;
                let packet = Packet {
                    timestamp: unix_epoch_to_iso8601(micros),
                    caplen,
                    origlen,
                    data: decode(data.as_slice(), Linktype(h.network)),
                };
                packets.push(packet);
                proof {
                    assert(packets@.map_values(|p: Packet| p@) =~= records.push(packet@));
                }
            },
            CaptureEvent::Block(_) => {
                return Err(CaptureError::HeaderNotRecognized);
            },
            CaptureEvent::Incomplete(_) => {},
            CaptureEvent::End => {
                return match head {
                    Some(h) => Ok(Capture { linktype: linktype_name(h.network), snaplen: h.snaplen, packets }),
                    None => Err(CaptureError::HeaderNotRecognized),
                };
            },
            CaptureEvent::Failed(e) => {
                return Err(e);
            },
        }
        proof {
            assert(!is_terminal(left[0]));
            let now = events_left(*reader);
            assert(now =~= left.drop_first());
            assert forall|i: int| 0 <= i < now.len() - 1 implies !is_terminal(#[trigger] now[i]) by {
                assert(now[i] == left[i + 1]);
            }
        }
    }
}

/// An interface as its description gives it: its link type, its timestamp resolution (`None`
/// where that cannot be read) and its timestamp offset.
#[derive(Clone, Copy)]
pub struct NgInterface {
    pub linktype: i32,
    pub resolution: Option<u64>,
    pub ts_offset: i64,
}

/// Where reading a pcapng file whole stands: the capture and the file's first interface (from
/// the first interface description on), and the interfaces described so far in the current
/// section, by interface id.
pub struct NgState {
    pub capture: Option<CaptureRecord>,
    pub first: Interface,
    pub interfaces: Seq<NgInterface>,
}

/// Reading a pcapng file whole, before any block.
pub open spec fn ng_start() -> NgState {
    NgState {
        capture: None,
        first: Interface { linktype: 0, resolution: 1_000_000, ts_offset: 0 },
        interfaces: Seq::empty(),
    }
}

/// How reading a pcapng file whole ends once its blocks are read: the capture, which needs an
/// interface.
pub open spec fn ng_done(s: NgState) -> Result<CaptureRecord, CaptureFault> {
    match s.capture {
        Some(c) => Ok(c),
        None => Err(CaptureFault::HeaderNotRecognized),
    }
}

/// Microseconds since the Unix epoch of a decoded pcapng timestamp.
pub open spec fn ng_micros(seconds: u32, fraction: u32, resolution: u64) -> int {
    seconds * 1_000_000 + (fraction * 1_000_000) / (resolution as int)
}

/// The capture with one more packet.
pub open spec fn with_record(c: CaptureRecord, p: PacketRecord) -> CaptureRecord {
    CaptureRecord { packets: c.packets.push(p), ..c }
}

/// An enhanced packet as read on interface `i`: its timestamp decoded with the interface's
/// resolution and offset, its data (without padding) decoded with the interface's link type.
pub open spec fn enhanced_record(
    i: Interface,
    ts_high: u32,
    ts_low: u32,
    caplen: u32,
    origlen: u32,
    data: Seq<u8>,
) -> PacketRecord {
    let (seconds, fraction) = crate::pcap::split_ts(ts_high, ts_low, i.ts_offset as u64, i.resolution);
    PacketRecord {
        timestamp: iso_text(Some((ng_micros(seconds, fraction, i.resolution) * 1000) as i128)),
        caplen,
        origlen,
        data: frame_of(crate::pcap::unpadded(data, caplen), i.linktype),
    }
}

/// A simple packet (which has no timestamp and names no interface) as read on an interface of
/// link type `linktype`.
pub open spec fn simple_record(linktype: i32, origlen: u32, data: Seq<u8>) -> PacketRecord {
    let packet_data = crate::pcap::unpadded(data, origlen);
    PacketRecord {
        timestamp: Seq::empty(),
        caplen: packet_data.len() as u32,
        origlen,
        data: frame_of(packet_data, linktype),
    }
}

/// Reading a pcapng file whole through the remaining steps. A section header starts a section
/// without interfaces. Each interface description adds an interface to its section; the first
/// one of the file also starts the capture, with its link type and snapshot length, and is not
/// recognized where its timestamp resolution cannot be read. Each enhanced packet is read on
/// the interface its id names in the current section (not recognized where that interface's
/// timestamp resolution cannot be read), or on the file's first interface where the section
/// describes no interface of that id; a simple packet is read with the link type of the
/// section's first interface, or of the file's first where the section has none. A packet
/// before the first interface, or a pcap block, is not recognized; an error is passed on.
pub open spec fn ng_steps(s: NgState, steps: Seq<EventModel>) -> Result<CaptureRecord, CaptureFault>
    decreases steps.len(),
{
    if steps.len() == 0 {
        ng_done(s)
    } else {
        let rest = steps.drop_first();
        match steps[0] {
            EventModel::Block(BlockModel::SectionHeader { .. }) => ng_steps(
                NgState { interfaces: Seq::empty(), ..s },
                rest,
            ),
            EventModel::Block(BlockModel::InterfaceDescription { linktype, snaplen, tsresol, tsoffset }) => {
                let described = NgInterface {
                    linktype,
                    resolution: crate::pcap::ts_resolution_of(tsresol),
                    ts_offset: tsoffset,
                };
                match s.capture {
                    Some(c) => ng_steps(NgState { interfaces: s.interfaces.push(described), ..s }, rest),
                    None => match crate::pcap::ts_resolution_of(tsresol) {
                        Some(r) => ng_steps(
                            NgState {
                                capture: Some(
                                    CaptureRecord {
                                        linktype: linktype_text(linktype),
                                        snaplen,
                                        packets: Seq::empty(),
                                    },
                                ),
                                first: Interface { linktype, resolution: r, ts_offset: tsoffset },
                                interfaces: s.interfaces.push(described),
                            },
                            rest,
                        ),
                        None => Err(CaptureFault::HeaderNotRecognized),
                    },
                }
            },
            EventModel::Block(BlockModel::EnhancedPacket { if_id, ts_high, ts_low, caplen, origlen, data }) => {
                match s.capture {
                    Some(c) => {
                        let on = if if_id < s.interfaces.len() {
                            let d = s.interfaces[if_id as int];
                            match d.resolution {
                                Some(r) => Some(Interface { linktype: d.linktype, resolution: r, ts_offset: d.ts_offset }),
                                None => None,
                            }
                        } else {
                            Some(s.first)
                        };
                        match on {
                            Some(i) => ng_steps(
                                NgState {
                                    capture: Some(
                                        with_record(
                                            c,
                                            enhanced_record(i, ts_high, ts_low, caplen, origlen, data),
                                        ),
                                    ),
                                    ..s
                                },
                                rest,
                            ),
                            None => Err(CaptureFault::HeaderNotRecognized),
                        }
                    },
                    None => Err(CaptureFault::HeaderNotRecognized),
                }
            },
            EventModel::Block(BlockModel::SimplePacket { origlen, data }) => {
                match s.capture {
                    Some(c) => {
                        let linktype = if s.interfaces.len() > 0 {
                            s.interfaces[0].linktype
                        } else {
                            s.first.linktype
                        };
                        ng_steps(
                            NgState {
                                capture: Some(with_record(c, simple_record(linktype, origlen, data))),
                                ..s
                            },
                            rest,
                        )
                    },
                    None => Err(CaptureFault::HeaderNotRecognized),
                }
            },
            EventModel::Block(BlockModel::LegacyHeader { .. }) => Err(CaptureFault::HeaderNotRecognized),
            EventModel::Block(BlockModel::LegacyPacket { .. }) => Err(CaptureFault::HeaderNotRecognized),
            EventModel::Block(_) => ng_steps(s, rest),
            EventModel::Incomplete(_) => ng_steps(s, rest),
            EventModel::End => ng_done(s),
            EventModel::Failed(f) => Err(f),
        }
    }
}

/// The state of an exec read as plain values.
pub open spec fn ng_state(capture: Option<Capture>, first: Interface, interfaces: Seq<NgInterface>) -> NgState {
    NgState {
        capture: match capture {
            Some(c) => Some(c@),
            None => None,
        },
        first,
        interfaces,
    }
}

/// Every readable timestamp resolution of the described interfaces is at least one.
pub open spec fn ng_interfaces_ok(interfaces: Seq<NgInterface>) -> bool {
    forall|i: int|
        0 <= i < interfaces.len() ==> ((#[trigger] interfaces[i]).resolution matches Some(r) ==> r >= 1)
}

/// Reads the pcapng file that `reader` reads, whole.
pub fn ng(reader: &mut CaptureReader) -> (capture: Result<Capture, CaptureError>)
    requires
        well_formed_events(events_left(*old(reader))),
    ensures
        capture matches Ok(c) ==> ng_steps(ng_start(), events_left(*old(reader)))
            == Ok::<CaptureRecord, CaptureFault>(c@),
        capture matches Err(e) ==> ng_steps(ng_start(), events_left(*old(reader)))
            == Err::<CaptureRecord, CaptureFault>(e@),
{
    let ghost steps = events_left(*reader);
    let mut capture: Option<Capture> = None;
    let mut first = Interface { linktype: 0, resolution: 1_000_000, ts_offset: 0 };
    let mut interfaces: Vec<NgInterface> = Vec::new();
    assert(interfaces@ =~= Seq::<NgInterface>::empty());
    loop
        invariant
            steps == events_left(*old(reader)),
            well_formed_events(events_left(*reader)),
            first.resolution >= 1,
            ng_interfaces_ok(interfaces@),
            ng_steps(ng_state(capture, first, interfaces@), events_left(*reader)) == ng_steps(
                ng_start(),
                steps,
            ),
        decreases events_left(*reader).len(),
    {
        let ghost left = events_left(*reader);
        let event = reader.next_event();
        match event {
            CaptureEvent::Block(CaptureBlock::SectionHeader { .. }) => {
                interfaces = Vec::new();
                assert(interfaces@ =~= Seq::<NgInterface>::empty());
            },
            CaptureEvent::Block(CaptureBlock::InterfaceDescription { linktype: lt, snaplen, tsresol, tsoffset }) => {
                let resolution = crate::pcap::ts_resolution(tsresol);
                if capture.is_none() {
                    let r = match resolution {
                        Some(r) => r,
                        None => return Err(CaptureError::HeaderNotRecognized),
                    };
                    let c = Capture { linktype: linktype_name(lt), snaplen, packets: Vec::new() };
                    proof {
                        assert(c@.packets =~= Seq::<PacketRecord>::empty());
                    }
                    capture = Some(c);
                    first = Interface { linktype: lt, resolution: r, ts_offset: tsoffset };
                }
                interfaces.push(NgInterface { linktype: lt, resolution, ts_offset: tsoffset });
            },
            CaptureEvent::Block(CaptureBlock::EnhancedPacket { if_id, ts_high, ts_low, caplen, origlen, data }) => {
                let mut c = match capture {
                    Some(c) => c,
                    None => return Err(CaptureError::HeaderNotRecognized),
                };
                let interface = if (if_id as usize) < interfaces.len() {
                    let d = interfaces[if_id as usize];
                    match d.resolution {
                        Some(r) => Interface { linktype: d.linktype, resolution: r, ts_offset: d.ts_offset },
                        None => return Err(CaptureError::HeaderNotRecognized),
                    }
                } else {
                    first
                };
                let (seconds, fraction) = crate::pcap::decode_ts(
                    ts_high,
                    ts_low,
                    #[verifier::truncate] (interface.ts_offset as u64),
                    interface.resolution,
                );
                let product: u128 = fraction as u128 * 1_000_000;
                let wide: u128 = interface.resolution as u128;
                let scaled: u128 = product / wide;
                proof {
                    assert(scaled <= product) by (nonlinear_arith)
                        requires
                            scaled == product / wide,
                            wide >= 1,
                    ;
                }
                let micros = seconds as u64 * 1_000_000 + scaled as u64;
                let packet = Packet {
                    timestamp: unix_epoch_to_iso8601(micros),
                    caplen,
                    origlen,
                    data: decode(crate::pcap::unpad(data.as_slice(), caplen), Linktype(interface.linktype)),
                };
                let ghost before = c@;
                c.packets.push(packet);
                proof {
                    assert(packet@ == enhanced_record(interface, ts_high, ts_low, caplen, origlen, data@));
                    assert(c@.packets =~= before.packets.push(packet@));
                }
                capture = Some(c);
            },
            CaptureEvent::Block(CaptureBlock::SimplePacket { origlen, data }) => {
                let mut c = match capture {
                    Some(c) => c,
                    None => return Err(CaptureError::HeaderNotRecognized),
                };
                let linktype = if interfaces.len() > 0 {
                    interfaces[0].linktype
                } else {
                    first.linktype
                };
                let packet_data = crate::pcap::unpad(data.as_slice(), origlen);
                let packet = Packet {
                    timestamp: String::new(),
                    caplen: packet_data.len() as u32,
                    origlen,
                    data: decode(packet_data, Linktype(linktype)),
                };
                let ghost before = c@;
                c.packets.push(packet);
                proof {
                    assert(c@.packets =~= before.packets.push(packet@));
                }
                capture = Some(c);
            },
            CaptureEvent::Block(CaptureBlock::LegacyHeader { .. }) => {
                return Err(CaptureError::HeaderNotRecognized);
            },
            CaptureEvent::Block(CaptureBlock::LegacyPacket { .. }) => {
                return Err(CaptureError::HeaderNotRecognized);
            },
            CaptureEvent::Block(_) => {},
            CaptureEvent::Incomplete(_) => {},
            CaptureEvent::End => {
                return match capture {
                    Some(c) => Ok(c),
                    None => Err(CaptureError::HeaderNotRecognized),
                };
            },
            CaptureEvent::Failed(e) => {
                return Err(e);
            },
        }
        proof {
            assert(!is_terminal(left[0]));
            let now = events_left(*reader);
            assert(now =~= left.drop_first());
            assert forall|i: int| 0 <= i < now.len() - 1 implies !is_terminal(#[trigger] now[i]) by {
                assert(now[i] == left[i + 1]);
            }
        }
    }
}

/// For a TCP or UDP segment, `decode` writes each port after its own endpoint: the source is
/// the source address, `:` and the source port, and the destination is the destination
/// address, `:` and the destination port; the protocol is `TCP` or `UDP` and the payload is
/// the segment's.
pub proof fn ports_follow_their_endpoints(data: Seq<u8>, linktype: i32)
    ensures
        layers_for(data, linktype) matches Some(l) ==> l.transport matches Some(
            TransportModel::Tcp { source_port, destination_port, payload },
        ) ==> {
            &&& frame_of(data, linktype).source == endpoints(l).0 + seq![':'] + decimal_text(
                source_port as nat,
            )
            &&& frame_of(data, linktype).destination == endpoints(l).1 + seq![':'] + decimal_text(
                destination_port as nat,
            )
            &&& frame_of(data, linktype).protocol == "TCP"@
            &&& frame_of(data, linktype).payload == payload
        },
        layers_for(data, linktype) matches Some(l) ==> l.transport matches Some(
            TransportModel::Udp { source_port, destination_port, payload },
        ) ==> {
            &&& frame_of(data, linktype).source == endpoints(l).0 + seq![':'] + decimal_text(
                source_port as nat,
            )
            &&& frame_of(data, linktype).destination == endpoints(l).1 + seq![':'] + decimal_text(
                destination_port as nat,
            )
            &&& frame_of(data, linktype).protocol == "UDP"@
            &&& frame_of(data, linktype).payload == payload
        },
{
}

/// `decode` keeps each address on its own side: the source starts with the source address and
/// the destination with the destination address (an IPv4 address dotted, an IPv6 address in
/// brackets; MAC addresses where there is no IP layer), whatever follows them.
pub proof fn addresses_keep_their_sides(data: Seq<u8>, linktype: i32)
    ensures
        layers_for(data, linktype) matches Some(l) ==> {
            let f = frame_of(data, linktype);
            &&& l.net matches Some(NetModel::Ipv4 { source, destination, .. }) ==> dotted_text(
                source,
            ).is_prefix_of(f.source) && dotted_text(destination).is_prefix_of(f.destination)
            &&& l.net matches Some(NetModel::Ipv6 { source, destination, .. }) ==> (seq!['[']
                + ipv6_text(source) + seq![']']).is_prefix_of(f.source) && (seq!['['] + ipv6_text(
                destination,
            ) + seq![']']).is_prefix_of(f.destination)
            &&& (l.net is None || l.net matches Some(NetModel::Arp)) ==> (l.ethernet matches Some(
                (s, d),
            ) ==> colon_hex_text(s).is_prefix_of(f.source) && colon_hex_text(d).is_prefix_of(
                f.destination,
            ))
        },
{
    if let Some(l) = layers_for(data, linktype) {
        let f = frame_of(data, linktype);
        let (s, d) = endpoints(l);
        assert(f.source.subrange(0, s.len() as int) =~= s);
        assert(f.destination.subrange(0, d.len() as int) =~= d);
    }
}

} // verus!
