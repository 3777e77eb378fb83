use log_forensics::pcap::blocks::CaptureError;
use log_forensics::pcap::parser::{colon_hex, decode, dotted, get_type, legacy, ng, PcapType};
use log_forensics::pcap::{
    decode_ts, open_capture, timestamp, ts_resolution, unpad, walk, Capture, PcapPlugin,
};
use log_forensics::util::{FileMeta, MetaValue, ToolError};
use pcap_parser::Linktype;

const LINE: &str = "0\t2023-11-14T22:13:20.5Z\t{\"capturedBytes\":44,\"destination\":\"10.0.0.2:53\",\"linkType\":\"ETHERNET\",\"originalBytes\":44,\"payloadBytes\":2,\"protocol\":\"UDP\",\"source\":\"192.168.0.1:1234\"}";

/// An Ethernet II frame holding an IPv4 UDP datagram from 192.168.0.1:1234 to 10.0.0.2:53
/// with the payload "hi".
fn udp_frame() -> Vec<u8> {
    let mut f = vec![0x00, 0x11, 0x22, 0x33, 0x44, 0x55, 0x66, 0x77, 0x88, 0x99, 0xaa, 0xbb, 0x08, 0x00];
    f.extend_from_slice(&[0x45, 0x00, 0x00, 30, 0x00, 0x01, 0x00, 0x00, 0x40, 17, 0x00, 0x00]);
    f.extend_from_slice(&[192, 168, 0, 1, 10, 0, 0, 2]);
    f.extend_from_slice(&[0x04, 0xd2, 0x00, 0x35, 0x00, 10, 0x00, 0x00]);
    f.extend_from_slice(b"hi");
    f
}

fn le32(v: u32) -> [u8; 4] {
    v.to_le_bytes()
}

/// A little-endian, microsecond pcap file with the UDP frame at 1700000000.5 s.
fn legacy_capture() -> Vec<u8> {
    let mut c = Vec::new();
    c.extend_from_slice(&le32(0xa1b2_c3d4));
    c.extend_from_slice(&[2, 0, 4, 0]);
    c.extend_from_slice(&[0; 8]);
    c.extend_from_slice(&le32(65535));
    c.extend_from_slice(&le32(1));
    let frame = udp_frame();
    c.extend_from_slice(&le32(1_700_000_000));
    c.extend_from_slice(&le32(500_000));
    c.extend_from_slice(&le32(frame.len() as u32));
    c.extend_from_slice(&le32(frame.len() as u32));
    c.extend_from_slice(&frame);
    c
}

/// A little-endian pcapng file: a section, one Ethernet interface, and the UDP frame as an
/// enhanced packet at 1700000000.5 s (microsecond resolution).
fn ng_capture() -> Vec<u8> {
    let mut c = Vec::new();
    c.extend_from_slice(&le32(0x0a0d_0d0a));
    c.extend_from_slice(&le32(28));
    c.extend_from_slice(&le32(0x1a2b_3c4d));
    c.extend_from_slice(&[1, 0, 0, 0]);
    c.extend_from_slice(&[0xff; 8]);
    c.extend_from_slice(&le32(28));
    c.extend_from_slice(&le32(1));
    c.extend_from_slice(&le32(20));
    c.extend_from_slice(&[1, 0, 0, 0]);
    c.extend_from_slice(&le32(65535));
    c.extend_from_slice(&le32(20));
    let frame = udp_frame();
    c.extend_from_slice(&le32(6));
    c.extend_from_slice(&le32(32 + frame.len() as u32));
    c.extend_from_slice(&le32(0));
    c.extend_from_slice(&le32(395812));
    c.extend_from_slice(&le32(405135648));
    c.extend_from_slice(&le32(frame.len() as u32));
    c.extend_from_slice(&le32(frame.len() as u32));
    c.extend_from_slice(&frame);
    c.extend_from_slice(&le32(32 + frame.len() as u32));
    c
}

fn no_meta() -> FileMeta {
    FileMeta { len: 0, modified: None, created: None }
}

#[test]
fn unpad_cuts_padding_only() {
    let data = [1u8, 2, 3, 4];
    assert_eq!(unpad(&data, 2), &[1, 2]);
    assert_eq!(unpad(&data, 4), &[1, 2, 3, 4]);
    assert_eq!(unpad(&data, 9), &[1, 2, 3, 4]);
}

#[test]
fn timestamp_scales_the_fraction() {
    assert_eq!(timestamp(1_700_000_000, 500_000, 1_000_000), "2023-11-14T22:13:20.5Z");
    assert_eq!(timestamp(1_700_000_000, 250_000_000, 1_000_000_000), "2023-11-14T22:13:20.25Z");
    assert_eq!(timestamp(0, 0, 1), "1970-01-01T00:00:00Z");
}

#[test]
fn ts_resolution_is_a_power_of_ten() {
    assert_eq!(ts_resolution(6), Some(1_000_000));
    assert_eq!(ts_resolution(9), Some(1_000_000_000));
    assert_eq!(ts_resolution(0), Some(1));
    assert_eq!(ts_resolution(19), Some(10_000_000_000_000_000_000));
    assert_eq!(ts_resolution(20), None);
    assert_eq!(ts_resolution(0x86), None);
}

#[test]
fn decode_ts_splits_seconds_and_fraction() {
    assert_eq!(decode_ts(395812, 405135648, 0, 1_000_000), (1_700_000_000, 500_000));
    assert_eq!(decode_ts(0, 3_500, 10, 1_000), (13, 500));
}

#[test]
fn addresses_are_written_as_text() {
    assert_eq!(dotted(&[192, 168, 0, 1]), "192.168.0.1");
    assert_eq!(dotted(&[]), "");
    assert_eq!(colon_hex(&[0x00, 0x1a, 0xff]), "00:1a:ff");
}

#[test]
fn decode_reads_udp_over_ipv4() {
    let frame = decode(&udp_frame(), Linktype(1));
    assert_eq!(frame.source, "192.168.0.1:1234");
    assert_eq!(frame.destination, "10.0.0.2:53");
    assert_eq!(frame.protocol, "UDP");
    assert_eq!(frame.payload, b"hi".to_vec());
}

#[test]
fn decode_names_unknown_link_types() {
    let frame = decode(&[1, 2, 3], Linktype(999));
    assert_eq!(frame.source, "");
    assert_eq!(frame.destination, "");
    assert_eq!(frame.protocol, "Linktype(999 / 0x3e7)");
    assert_eq!(frame.payload, vec![1, 2, 3]);
    assert_eq!(decode(&[1, 2, 3], Linktype(108)).protocol, "LOOP");
    assert_eq!(decode(&[], Linktype(-1)).protocol, "Linktype(-1 / 0xffffffff)");
}

#[test]
fn decode_falls_back_to_mac_addresses() {
    let mut arp = vec![0xff, 0xff, 0xff, 0xff, 0xff, 0xff, 0x66, 0x77, 0x88, 0x99, 0xaa, 0xbb, 0x08, 0x06];
    arp.extend_from_slice(&[0, 1, 8, 0, 6, 4, 0, 1]);
    arp.extend_from_slice(&[0x66, 0x77, 0x88, 0x99, 0xaa, 0xbb, 10, 0, 0, 1]);
    arp.extend_from_slice(&[0, 0, 0, 0, 0, 0, 10, 0, 0, 2]);
    let frame = decode(&arp, Linktype(1));
    assert_eq!(frame.source, "66:77:88:99:aa:bb");
    assert_eq!(frame.destination, "ff:ff:ff:ff:ff:ff");
    assert_eq!(frame.protocol, "ARP");
}

#[test]
fn walk_reads_a_pcap_file() {
    let w = walk(legacy_capture()).ok().unwrap();
    assert_eq!(w.lines, vec![LINE.to_string()]);
    let c: Capture = w.capture;
    assert_eq!(c.format, "pcap");
    assert_eq!(c.version, "2.4");
    assert_eq!(c.snaplen, 65535);
    assert_eq!(c.link_types, vec!["ETHERNET".to_string()]);
    assert_eq!(c.packets, 1);
    assert_eq!(c.first_packet_at, "2023-11-14T22:13:20.5Z");
    assert_eq!(c.last_packet_at, "2023-11-14T22:13:20.5Z");
}

#[test]
fn walk_reads_a_pcapng_file() {
    let w = walk(ng_capture()).ok().unwrap();
    assert_eq!(w.lines, vec![LINE.to_string()]);
    assert_eq!(w.capture.format, "pcapng");
    assert_eq!(w.capture.version, "1.0");
    assert_eq!(w.capture.link_types, vec!["ETHERNET".to_string()]);
    assert_eq!(w.capture.packets, 1);
}

#[test]
fn walk_refuses_what_is_not_a_capture() {
    assert!(matches!(walk(b"hello world, not a capture".to_vec()), Err(CaptureError::HeaderNotRecognized)));
    assert!(matches!(walk(Vec::new()), Err(CaptureError::Eof)));
}

#[test]
fn packet_count_matches_lines_on_a_capture() {
    let mut two = legacy_capture();
    let frame = udp_frame();
    two.extend_from_slice(&le32(1_700_000_001));
    two.extend_from_slice(&le32(0));
    two.extend_from_slice(&le32(frame.len() as u32));
    two.extend_from_slice(&le32(frame.len() as u32));
    two.extend_from_slice(&frame);
    let w = walk(two).ok().unwrap();
    assert_eq!(w.capture.packets, w.lines.len() as u64);
    assert_eq!(w.lines.len(), 2);
    assert!(w.lines[1].starts_with("1\t2023-11-14T22:13:21Z\t"));
    assert_eq!(w.capture.link_types.len(), 1);
    assert_eq!(w.capture.last_packet_at, "2023-11-14T22:13:21Z");
}

#[test]
fn tools_search_read_and_stat() {
    let tools = PcapPlugin::new().tools();
    assert_eq!(tools.search(legacy_capture(), "udp").ok().unwrap(), vec![LINE.to_string()]);
    assert!(tools.search(legacy_capture(), "tcp").ok().unwrap().is_empty());
    assert!(matches!(tools.search(legacy_capture(), "  "), Err(ToolError::EmptySearchTerm)));
    assert_eq!(tools.read(legacy_capture(), 0, 1).ok().unwrap(), vec![LINE.to_string()]);
    assert!(tools.read(legacy_capture(), LINE.len() as i64 + 1, 10).ok().unwrap().is_empty());
    assert!(matches!(tools.read(legacy_capture(), -1, 10), Err(ToolError::BadByteWindow)));
    assert!(matches!(tools.read(b"nope".to_vec(), 0, 10), Err(ToolError::NotACapture(_))));
    let stat = tools.stat(legacy_capture(), &no_meta()).ok().unwrap();
    assert_eq!(stat.format, "pcap");
    assert!(stat.metadata.iter().any(|(k, v)| k == "packetCount" && matches!(v, MetaValue::Number(1))));
    assert!(stat.metadata.iter().any(|(k, v)| k == "version" && matches!(v, MetaValue::Text(t) if t == "2.4")));
}

#[test]
fn identify_by_extension_or_magic() {
    let plugin = PcapPlugin::new();
    assert_eq!(plugin.name(), "pcap-plugin");
    assert!(plugin.identify("a/b.pcap", None));
    assert!(plugin.identify("b.pcapng", None));
    assert!(plugin.identify("b.cap", None));
    assert!(!plugin.identify("b.txt", None));
    assert!(plugin.identify("b.txt", Some(vec![0xa1, 0xb2, 0xc3, 0xd4])));
    assert!(plugin.identify("b.txt", Some(vec![0x0a, 0x0d, 0x0d, 0x0a, 9])));
    assert!(!plugin.identify("b.txt", Some(vec![0xa1, 0xb2, 0xc3])));
    assert!(!plugin.identify("b.txt", Some(vec![1, 2, 3, 4])));
}

#[test]
fn get_type_legacy_and_ng_read_whole_captures() {
    let mut reader = open_capture(legacy_capture()).ok().unwrap();
    assert!(matches!(get_type(&mut reader), Ok(PcapType::Legacy)));
    let capture = legacy(&mut reader).ok().unwrap();
    assert_eq!(capture.linktype, "ETHERNET");
    assert_eq!(capture.snaplen, 65535);
    assert_eq!(capture.packets.len(), 1);
    assert_eq!(capture.packets[0].timestamp, "2023-11-14T22:13:20.5Z");
    assert_eq!(capture.packets[0].data.protocol, "UDP");

    let mut reader = open_capture(ng_capture()).ok().unwrap();
    assert!(matches!(get_type(&mut reader), Ok(PcapType::NG)));
    let capture = ng(&mut reader).ok().unwrap();
    assert_eq!(capture.linktype, "ETHERNET");
    assert_eq!(capture.packets.len(), 1);
    assert_eq!(capture.packets[0].caplen, 44);
    assert_eq!(capture.packets[0].timestamp, "2023-11-14T22:13:20.5Z");
    assert_eq!(capture.packets[0].data.source, "192.168.0.1:1234");

    let mut reader = open_capture(ng_capture()).ok().unwrap();
    assert!(matches!(legacy(&mut reader), Err(CaptureError::HeaderNotRecognized)));
}

/// A pcapng file with an Ethernet interface at microseconds and a raw IP interface at
/// nanoseconds, and one enhanced packet captured on the second.
fn two_interface_capture() -> Vec<u8> {
    let mut c = Vec::new();
    c.extend_from_slice(&le32(0x0a0d_0d0a));
    c.extend_from_slice(&le32(28));
    c.extend_from_slice(&le32(0x1a2b_3c4d));
    c.extend_from_slice(&[1, 0, 0, 0]);
    c.extend_from_slice(&[0xff; 8]);
    c.extend_from_slice(&le32(28));
    c.extend_from_slice(&le32(1));
    c.extend_from_slice(&le32(20));
    c.extend_from_slice(&[1, 0, 0, 0]);
    c.extend_from_slice(&le32(65535));
    c.extend_from_slice(&le32(20));
    c.extend_from_slice(&le32(1));
    c.extend_from_slice(&le32(32));
    c.extend_from_slice(&[101, 0, 0, 0]);
    c.extend_from_slice(&le32(1500));
    c.extend_from_slice(&[9, 0, 1, 0, 9, 0, 0, 0, 0, 0, 0, 0]);
    c.extend_from_slice(&le32(32));
    let ip = udp_frame()[14..].to_vec();
    let ts: u64 = 1_700_000_000_250_000_000;
    c.extend_from_slice(&le32(6));
    c.extend_from_slice(&le32(64));
    c.extend_from_slice(&le32(1));
    c.extend_from_slice(&le32((ts >> 32) as u32));
    c.extend_from_slice(&le32(ts as u32));
    c.extend_from_slice(&le32(ip.len() as u32));
    c.extend_from_slice(&le32(ip.len() as u32));
    c.extend_from_slice(&ip);
    c.extend_from_slice(&[0, 0]);
    c.extend_from_slice(&le32(64));
    c
}

#[test]
fn ng_reads_each_packet_on_its_own_interface() {
    let mut reader = open_capture(two_interface_capture()).ok().unwrap();
    let capture = ng(&mut reader).ok().unwrap();
    assert_eq!(capture.linktype, "ETHERNET");
    assert_eq!(capture.snaplen, 65535);
    assert_eq!(capture.packets.len(), 1);
    assert_eq!(capture.packets[0].timestamp, "2023-11-14T22:13:20.25Z");
    assert_eq!(capture.packets[0].caplen, 30);
    assert_eq!(capture.packets[0].data.protocol, "UDP");
    assert_eq!(capture.packets[0].data.destination, "10.0.0.2:53");
    let w = walk(two_interface_capture()).ok().unwrap();
    assert!(w.lines[0].starts_with("0\t2023-11-14T22:13:20.25Z\t"));
    assert!(w.lines[0].contains("\"linkType\":\"RAW\""));
}

#[test]
fn decode_payload_is_part_of_the_packet() {
    let data = udp_frame();
    let frame = decode(&data, Linktype(1));
    assert!(data.windows(frame.payload.len()).any(|w| w == frame.payload.as_slice()));
    assert_eq!(frame.source.is_empty(), frame.destination.is_empty());
}

/// A pcapng file with an Ethernet interface at microseconds, a raw IP interface whose
/// `if_tsresol` is `second_resol`, and the Ethernet UDP frame as an enhanced packet on
/// interface `if_id` at 1700000000.5 s in microseconds.
fn ng_file(second_resol: u8, if_id: u32) -> Vec<u8> {
    let mut c = two_interface_capture();
    let idb2 = 28 + 20;
    c[idb2 + 20] = second_resol;
    c.truncate(28 + 20 + 32);
    let frame = udp_frame();
    c.extend_from_slice(&le32(6));
    c.extend_from_slice(&le32(32 + frame.len() as u32));
    c.extend_from_slice(&le32(if_id));
    c.extend_from_slice(&le32(395812));
    c.extend_from_slice(&le32(405135648));
    c.extend_from_slice(&le32(frame.len() as u32));
    c.extend_from_slice(&le32(frame.len() as u32));
    c.extend_from_slice(&frame);
    c.extend_from_slice(&le32(32 + frame.len() as u32));
    c
}

#[test]
fn ng_fails_only_for_packets_on_an_unreadable_interface() {
    let mut reader = open_capture(ng_file(200, 0)).ok().unwrap();
    let capture = ng(&mut reader).ok().unwrap();
    assert_eq!(capture.packets.len(), 1);
    assert_eq!(capture.packets[0].timestamp, "2023-11-14T22:13:20.5Z");
    let mut reader = open_capture(ng_file(200, 1)).ok().unwrap();
    assert!(matches!(ng(&mut reader), Err(CaptureError::HeaderNotRecognized)));
}

#[test]
fn ng_reads_packets_of_undescribed_interfaces_on_the_first() {
    let mut reader = open_capture(ng_file(9, 5)).ok().unwrap();
    let capture = ng(&mut reader).ok().unwrap();
    assert_eq!(capture.packets.len(), 1);
    assert_eq!(capture.packets[0].timestamp, "2023-11-14T22:13:20.5Z");
    assert_eq!(capture.packets[0].data.protocol, "UDP");
    assert_eq!(capture.packets[0].data.source, "192.168.0.1:1234");
}
