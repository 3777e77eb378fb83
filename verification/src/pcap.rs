//! A plugin for packet captures (pcap, pcapng): each packet becomes one line,
//! `index<TAB>timestamp<TAB>fields-as-json`.
pub mod blocks;
pub mod parser;

use vstd::prelude::*;
use vstd::wrapping::u64_specs::wrapping_add;
use crate::util::{
    blank, byte_window, check_byte_window, decimal, decimal_text, extension_of, file_stat,
    has_extension, iso_text, json_object, json_object_text, keep_matching, matching,
    meta_entries, owned, prepare_search, take_bytes, term_compiles, texts, unix_epoch_to_iso8601,
    FileMeta, FileStat, MetaModel, MetaValue, ToolError,
};
use self::blocks::{
    capture_opening, events_left, is_terminal, well_formed_events, BlockModel, CaptureBlock,
    CaptureError, CaptureEvent, CaptureFault, CaptureReader, EventModel,
};
use self::parser::{describe, frame_fields, frame_of, linktype_name, linktype_text};

verus! {

broadcast use vstd::string::group_string_axioms;

// ---------------------------------------------------------------------------------------------
// Packet data and timestamps
// ---------------------------------------------------------------------------------------------

/// Packet data without the padding that packet blocks carry to a 32-bit boundary: its first
/// `captured` bytes, or all of it where it is shorter.
pub open spec fn unpadded(data: Seq<u8>, captured: u32) -> Seq<u8> {
    if captured <= data.len() {
        data.take(captured as int)
    } else {
        data
    }
}

/// Packet blocks are padded to a 32-bit boundary; the trailing bytes are not captured data.
pub fn unpad(data: &[u8], captured: u32) -> (out: &[u8])
    ensures
        out@ == unpadded(data@, captured),
{
    if (captured as usize) <= data.len() {
        vstd::slice::slice_subrange(data, 0, captured as usize)
    } else {
        data
    }
}

/// `fraction * 1_000_000`, or `u64::MAX` where that does not fit.
pub open spec fn scaled_fraction(fraction: u64) -> int {
    if fraction * 1_000_000 > u64::MAX {
        u64::MAX as int
    } else {
        fraction * 1_000_000
    }
}

/// Microseconds since the Unix epoch of a time given as whole seconds and a fraction counted in
/// units of `1 / resolution` seconds.
pub open spec fn timestamp_micros(seconds: u64, fraction: u64, resolution: u64) -> int {
    seconds * 1_000_000 + scaled_fraction(fraction) / (resolution as int)
}

/// The RFC 3339 text of a packet time.
pub open spec fn timestamp_text(seconds: u64, fraction: u64, resolution: u64) -> Seq<char> {
    iso_text(Some((timestamp_micros(seconds, fraction, resolution) * 1000) as i128))
}

/// A packet time, whole seconds and a fraction in units of `1 / resolution` seconds, as
/// RFC 3339 text.
pub fn timestamp(seconds: u64, fraction: u64, resolution: u64) -> (text: String)
    requires
        resolution > 0,
        timestamp_micros(seconds, fraction, resolution) <= u64::MAX,
    ensures
        text@ == timestamp_text(seconds, fraction, resolution),
{
    let scaled = match fraction.checked_mul(1_000_000) {
        Some(v) => v,
        None => u64::MAX,
    };
    let part = scaled / resolution;
    proof {
        assert(scaled as int == scaled_fraction(fraction));
        assert(0 <= part <= scaled) by (nonlinear_arith)
            requires
                part == scaled / resolution,
                resolution > 0,
        ;
    }
    let micros = seconds * 1_000_000 + part;
    unix_epoch_to_iso8601(micros)
}

/// A packet time that can be written whenever its seconds and fraction fit in 32 bits.
proof fn lemma_small_timestamp(seconds: u64, fraction: u64, resolution: u64)
    requires
        seconds <= u32::MAX,
        fraction <= u32::MAX,
        resolution > 0,
    ensures
        timestamp_micros(seconds, fraction, resolution) <= u64::MAX,
{
    assert(fraction * 1_000_000 <= u64::MAX) by (nonlinear_arith)
        requires
            fraction <= u32::MAX,
    ;
    let s = scaled_fraction(fraction);
    assert(s / (resolution as int) <= s) by (nonlinear_arith)
        requires
            s >= 0,
            resolution > 0,
    ;
    assert(seconds * 1_000_000 <= u32::MAX * 1_000_000) by (nonlinear_arith)
        requires
            seconds <= u32::MAX,
    ;
}

/// The timestamp resolution, in units per second, that an interface's raw `if_tsresol`
/// gives, as `pcap_parser` decodes it: ten to its power where that fits in 64 bits. A power of
/// two (high bit set) is always refused, as `pcap_parser` checks its bound before masking the
/// high bit.
pub open spec fn ts_resolution_of(tsresol: u8) -> Option<u64> {
    if tsresol <= 19 {
        Some(ten_pow(tsresol as nat) as u64)
    } else {
        None
    }
}

/// Ten to the power `k`.
pub open spec fn ten_pow(k: nat) -> nat
    decreases k,
{
    if k == 0 {
        1
    } else {
        10 * ten_pow((k - 1) as nat)
    }
}

proof fn lemma_ten_pow_grows(j: nat, k: nat)
    requires
        j <= k,
    ensures
        1 <= ten_pow(j) <= ten_pow(k),
    decreases k,
{
    if k > j {
        lemma_ten_pow_grows(j, (k - 1) as nat);
    } else if k > 0 {
        lemma_ten_pow_grows(0, (k - 1) as nat);
    }
}

proof fn lemma_ten_pow(k: nat)
    requires
        k <= 19,
    ensures
        1 <= ten_pow(k) <= 10_000_000_000_000_000_000,
        k < 19 ==> ten_pow(k) <= 1_000_000_000_000_000_000,
{
    reveal_with_fuel(ten_pow, 20);
    assert(ten_pow(18) == 1_000_000_000_000_000_000);
    assert(ten_pow(19) == 10_000_000_000_000_000_000);
    if k < 19 {
        lemma_ten_pow_grows(k, 18);
    } else {
        lemma_ten_pow_grows(k, 19);
    }
}

/// Decodes an interface's raw `if_tsresol` as `pcap_parser` does.
pub fn ts_resolution(tsresol: u8) -> (resolution: Option<u64>)
    ensures
        resolution == ts_resolution_of(tsresol),
        resolution matches Some(r) ==> r >= 1,
{
    if tsresol > 19 {
        return None;
    }
    let mut value: u64 = 1;
    let mut i: u8 = 0;
    while i < tsresol
        invariant
            i <= tsresol <= 19,
            value as int == ten_pow(i as nat),
        decreases tsresol - i,
    {
        proof {
            lemma_ten_pow(i as nat);
        }
        value = value * 10;
        i = i + 1;
    }
    proof {
        lemma_ten_pow(tsresol as nat);
    }
    Some(value)
}

/// The whole seconds and the fraction (in units of `1 / resolution` seconds) of a pcapng
/// timestamp, as `pcap_parser::build_ts` computes them in a release build (the offset is
/// added with wraparound, and both results are cut to 32 bits).
pub open spec fn split_ts(ts_high: u32, ts_low: u32, ts_offset: u64, resolution: u64) -> (u32, u32) {
    let ts = ts_high * 0x1_0000_0000 + ts_low;
    (
        wrapping_add(ts_offset, (ts / (resolution as int)) as u64) as u32,
        (ts % (resolution as int)) as u32,
    )
}

/// Splits a pcapng timestamp into whole seconds and a fraction, as `pcap_parser::build_ts`
/// does.
pub fn decode_ts(ts_high: u32, ts_low: u32, ts_offset: u64, resolution: u64) -> (parts: (u32, u32))
    requires
        resolution > 0,
    ensures
        parts == split_ts(ts_high, ts_low, ts_offset, resolution),
{
    let ts: u64 = ((ts_high as u64) << 32u64) | (ts_low as u64);
    assert(ts == ts_high * 0x1_0000_0000 + ts_low) by (bit_vector)
        requires
            ts == ((ts_high as u64) << 32u64) | (ts_low as u64),
    ;
    let seconds = ts_offset.wrapping_add(ts / resolution) as u32;
    let fraction = (ts % resolution) as u32;
    (seconds, fraction)
}

// ---------------------------------------------------------------------------------------------
// The summary of a capture
// ---------------------------------------------------------------------------------------------

/// What a walk through a capture learns of it.
pub struct Capture {
    pub format: String,
    pub version: String,
    pub snaplen: u32,
    pub link_types: Vec<String>,
    pub packets: u64,
    pub first_packet_at: String,
    pub last_packet_at: String,
}

/// A capture's summary as plain values.
pub struct CaptureModel {
    pub format: Seq<char>,
    pub version: Seq<char>,
    pub snaplen: u32,
    pub link_types: Seq<Seq<char>>,
    pub packets: u64,
    pub first_packet_at: Seq<char>,
    pub last_packet_at: Seq<char>,
}

impl View for Capture {
    type V = CaptureModel;

    open spec fn view(&self) -> CaptureModel {
        CaptureModel {
            format: self.format@,
            version: self.version@,
            snaplen: self.snaplen,
            link_types: crate::util::texts(self.link_types@),
            packets: self.packets,
            first_packet_at: self.first_packet_at@,
            last_packet_at: self.last_packet_at@,
        }
    }
}

/// The link type names with `name` added at the end, unless it is there already.
pub open spec fn with_link_type(names: Seq<Seq<char>>, name: Seq<char>) -> Seq<Seq<char>> {
    if names.contains(name) {
        names
    } else {
        names.push(name)
    }
}

impl Capture {
    /// The summary before any block: empty texts and zero counts.
    pub fn new() -> (c: Capture)
        ensures
            c@ == empty_capture(),
    {
        let c = Capture {
            format: String::new(),
            version: String::new(),
            snaplen: 0,
            link_types: Vec::new(),
            packets: 0,
            first_packet_at: String::new(),
            last_packet_at: String::new(),
        };
        assert(c@.link_types =~= Seq::<Seq<char>>::empty());
        c
    }

    /// Records that the capture has a link of type `linktype`, once per name.
    pub fn add_link_type(&mut self, linktype: i32)
        ensures
            final(self)@ == (CaptureModel {
                link_types: with_link_type(old(self)@.link_types, linktype_text(linktype)),
                ..old(self)@
            }),
    {
        let name = linktype_name(linktype);
        let mut i: usize = 0;
        while i < self.link_types.len()
            invariant
                *self == *old(self),
                name@ == linktype_text(linktype),
                0 <= i <= self.link_types@.len(),
                forall|j: int| 0 <= j < i ==> self.link_types@[j]@ != name@,
            decreases self.link_types@.len() - i,
        {
            let same = self.link_types[i] == name;
            if same {
                proof {
                    assert(self.link_types@[i as int]@ == name@);
                    assert(crate::util::texts(self.link_types@)[i as int] == name@);
                    assert(crate::util::texts(self.link_types@).contains(name@));
                }
                return;
            }
            i = i + 1;
        }
        let ghost before = self@;
        proof {
            assert(!crate::util::texts(self.link_types@).contains(name@)) by {
                if crate::util::texts(self.link_types@).contains(name@) {
                    let j = choose|j: int|
                        0 <= j < crate::util::texts(self.link_types@).len() && crate::util::texts(
                            self.link_types@,
                        )[j] == name@;
                    assert(self.link_types@[j]@ == name@);
                }
            }
        }
        self.link_types.push(name);
        proof {
            assert(crate::util::texts(self.link_types@) =~= before.link_types.push(name@));
            assert(self@ == (CaptureModel {
                link_types: with_link_type(before.link_types, linktype_text(linktype)),
                ..before
            }));
        }
    }
}

/// The summary before any block.
pub open spec fn empty_capture() -> CaptureModel {
    CaptureModel {
        format: Seq::empty(),
        version: Seq::empty(),
        snaplen: 0,
        link_types: Seq::empty(),
        packets: 0,
        first_packet_at: Seq::empty(),
        last_packet_at: Seq::empty(),
    }
}

// ---------------------------------------------------------------------------------------------
// Walking a capture
// ---------------------------------------------------------------------------------------------

/// Bytes of buffer that a capture is read through.
pub const READ_BUFFER: usize = 65536;

/// How the packets of one capture interface are read: their link type, and the resolution (units
/// per second) and offset (seconds) of their timestamps.
#[derive(Clone, Copy)]
pub struct Interface {
    pub linktype: i32,
    pub resolution: u64,
    pub ts_offset: i64,
}

/// A packet that a capture interface explains.
pub struct PacketModel {
    pub timestamp: Seq<char>,
    pub linktype: i32,
    pub data: Seq<u8>,
    pub origlen: u32,
}

/// Whether a pcap header's magic number marks nanosecond timestamps.
pub open spec fn nanosecond_magic(magic: u32) -> bool {
    magic == 0xa1b2_3c4d || magic == 0x4d3c_b2a1
}

/// `major.minor`.
pub open spec fn version_text(major: u16, minor: u16) -> Seq<char> {
    decimal_text(major as nat) + seq!['.'] + decimal_text(minor as nat)
}

/// Where a walk through a capture stands: the summary so far, the interfaces of the current
/// section, and the lines of the packets so far.
pub struct WalkModel {
    pub capture: CaptureModel,
    pub interfaces: Seq<Interface>,
    pub lines: Seq<Seq<char>>,
}

/// A walk before any block.
pub open spec fn walk_start() -> WalkModel {
    WalkModel { capture: empty_capture(), interfaces: Seq::empty(), lines: Seq::empty() }
}

/// What a header block (file header, section header, interface description) changes in a
/// walk; other blocks change nothing here. Each section starts without interfaces.
pub open spec fn after_header(w: WalkModel, b: BlockModel) -> WalkModel {
    match b {
        BlockModel::LegacyHeader { magic, version_major, version_minor, snaplen, network } => WalkModel {
            capture: CaptureModel {
                format: "pcap"@,
                version: version_text(version_major, version_minor),
                snaplen,
                link_types: with_link_type(w.capture.link_types, linktype_text(network)),
                ..w.capture
            },
            interfaces: seq![
                Interface {
                    linktype: network,
                    resolution: if nanosecond_magic(magic) {
                        1_000_000_000
                    } else {
                        1_000_000
                    },
                    ts_offset: 0,
                },
            ],
            lines: w.lines,
        },
        BlockModel::SectionHeader { major_version, minor_version } => WalkModel {
            capture: CaptureModel {
                format: "pcapng"@,
                version: version_text(major_version, minor_version),
                ..w.capture
            },
            interfaces: Seq::empty(),
            lines: w.lines,
        },
        BlockModel::InterfaceDescription { linktype, snaplen, tsresol, tsoffset } => WalkModel {
            capture: CaptureModel {
                snaplen: if snaplen > w.capture.snaplen {
                    snaplen
                } else {
                    w.capture.snaplen
                },
                link_types: with_link_type(w.capture.link_types, linktype_text(linktype)),
                ..w.capture
            },
            interfaces: w.interfaces.push(
                Interface {
                    linktype,
                    resolution: match ts_resolution_of(tsresol) {
                        Some(r) => r,
                        None => 1_000_000,
                    },
                    ts_offset: tsoffset,
                },
            ),
            lines: w.lines,
        },
        _ => w,
    }
}

/// The packet that a block holds and an interface of the current section explains: a pcap
/// record by the file's interface, an enhanced packet by the interface it names, a simple
/// packet (which has no timestamp) by the first interface.
pub open spec fn packet_of(b: BlockModel, interfaces: Seq<Interface>) -> Option<PacketModel> {
    match b {
        BlockModel::LegacyPacket { ts_sec, ts_usec, origlen, data, .. } => if interfaces.len() > 0 {
            Some(
                PacketModel {
                    timestamp: timestamp_text(ts_sec as u64, ts_usec as u64, interfaces[0].resolution),
                    linktype: interfaces[0].linktype,
                    data,
                    origlen,
                },
            )
        } else {
            None
        },
        BlockModel::EnhancedPacket { if_id, ts_high, ts_low, caplen, origlen, data } => if if_id
            < interfaces.len() {
            let i = interfaces[if_id as int];
            let (seconds, fraction) = split_ts(ts_high, ts_low, i.ts_offset as u64, i.resolution);
            Some(
                PacketModel {
                    timestamp: timestamp_text(seconds as u64, fraction as u64, i.resolution),
                    linktype: i.linktype,
                    data: unpadded(data, caplen),
                    origlen,
                },
            )
        } else {
            None
        },
        BlockModel::SimplePacket { origlen, data } => if interfaces.len() > 0 {
            Some(
                PacketModel {
                    timestamp: Seq::empty(),
                    linktype: interfaces[0].linktype,
                    data: unpadded(data, origlen),
                    origlen,
                },
            )
        } else {
            None
        },
        _ => None,
    }
}

/// The JSON fields of a packet's line: its link type, its captured and original sizes, and
/// what decoding says of it.
pub open spec fn packet_fields(p: PacketModel) -> Seq<(Seq<char>, MetaModel)> {
    seq![
        ("linkType"@, MetaModel::Text(linktype_text(p.linktype))),
        ("capturedBytes"@, MetaModel::Number(p.data.len() as u64)),
        ("originalBytes"@, MetaModel::Number(p.origlen as u64)),
    ] + frame_fields(frame_of(p.data, p.linktype))
}

/// Packet `index` (counted from zero) as `index<TAB>timestamp<TAB>fields-as-json`.
pub open spec fn packet_line(index: u64, p: PacketModel) -> Seq<char> {
    decimal_text(index as nat) + seq!['\t'] + p.timestamp + seq!['\t'] + json_object_text(
        packet_fields(p),
    )
}

/// A walk after one more packet: counted, timed, and given its line.
pub open spec fn with_packet(w: WalkModel, p: PacketModel) -> WalkModel {
    WalkModel {
        capture: CaptureModel {
            packets: wrapping_add(w.capture.packets, 1),
            first_packet_at: if w.capture.first_packet_at.len() == 0 {
                p.timestamp
            } else {
                w.capture.first_packet_at
            },
            last_packet_at: p.timestamp,
            ..w.capture
        },
        interfaces: w.interfaces,
        lines: w.lines.push(packet_line(w.capture.packets, p)),
    }
}

/// A walk after one more block.
pub open spec fn walk_block(w: WalkModel, b: BlockModel) -> WalkModel {
    let headed = after_header(w, b);
    match packet_of(b, headed.interfaces) {
        Some(p) => with_packet(headed, p),
        None => headed,
    }
}

/// A walk through the remaining reading steps: blocks are taken in turn, incomplete blocks
/// are read again, and the end of the capture or an error ends the walk.
pub open spec fn walk_steps(w: WalkModel, steps: Seq<EventModel>) -> WalkModel
    decreases steps.len(),
{
    if steps.len() == 0 {
        w
    } else {
        match steps[0] {
            EventModel::Block(b) => walk_steps(walk_block(w, b), steps.drop_first()),
            EventModel::Incomplete(_) => walk_steps(w, steps.drop_first()),
            _ => w,
        }
    }
}

/// The walk through a whole capture, or the error with which it cannot be read at all.
pub open spec fn walk_of(bytes: Seq<u8>) -> Result<WalkModel, CaptureFault> {
    match capture_opening(bytes, READ_BUFFER) {
        Ok(steps) => Ok(walk_steps(walk_start(), steps)),
        Err(f) => Err(f),
    }
}

/// Every interface's resolution is at least one.
pub open spec fn interfaces_ok(interfaces: Seq<Interface>) -> bool {
    forall|i: int| 0 <= i < interfaces.len() ==> (#[trigger] interfaces[i]).resolution >= 1
}

/// A walk in progress.
pub struct Walk {
    pub capture: Capture,
    pub interfaces: Vec<Interface>,
    pub lines: Vec<String>,
}

impl View for Walk {
    type V = WalkModel;

    open spec fn view(&self) -> WalkModel {
        WalkModel { capture: self.capture@, interfaces: self.interfaces@, lines: texts(self.lines@) }
    }
}

fn version_of(major: u16, minor: u16) -> (text: String)
    ensures
        text@ == version_text(major, minor),
{
    proof {
        reveal_strlit(".");
    }
    let mut text = decimal(major as u64);
    text.append(".");
    text.append(decimal(minor as u64).as_str());
    text
}

/// The line of packet `index`.
fn packet_text(index: u64, timestamp: &String, linktype: i32, data: &[u8], origlen: u32) -> (text: String)
    ensures
        text@ == packet_line(
            index,
            PacketModel { timestamp: timestamp@, linktype, data: data@, origlen },
        ),
{
    let mut fields = vec![
        (owned("linkType"), MetaValue::Text(linktype_name(linktype))),
        (owned("capturedBytes"), MetaValue::Number(data.len() as u64)),
        (owned("originalBytes"), MetaValue::Number(origlen as u64)),
    ];
    let ghost base = meta_entries(fields@);
    let mut described = describe(data, linktype);
    let ghost extra = meta_entries(described@);
    fields.append(&mut described);
    proof {
        assert(meta_entries(fields@) =~= base + extra);
        assert(meta_entries(fields@) =~= packet_fields(
            PacketModel { timestamp: timestamp@, linktype, data: data@, origlen },
        ));
        reveal_strlit("\t");
    }
    let mut text = decimal(index);
    text.append("\t");
    text.append(timestamp.as_str());
    text.append("\t");
    text.append(json_object(&fields).as_str());
    text
}

impl Walk {
    /// A walk before any block.
    pub fn new() -> (w: Walk)
        ensures
            w@ == walk_start(),
            interfaces_ok(w@.interfaces),
    {
        let w = Walk { capture: Capture::new(), interfaces: Vec::new(), lines: Vec::new() };
        assert(w@.lines =~= Seq::<Seq<char>>::empty());
        w
    }

    /// Applies a header block to the walk.
    fn take_header(&mut self, block: &CaptureBlock)
        requires
            interfaces_ok(old(self)@.interfaces),
        ensures
            final(self)@ == after_header(old(self)@, block@),
            interfaces_ok(final(self)@.interfaces),
    {
        match block {
            CaptureBlock::LegacyHeader { magic, version_major, version_minor, snaplen, network } => {
                self.capture.format = owned("pcap");
                self.capture.version = version_of(*version_major, *version_minor);
                self.capture.snaplen = *snaplen;
                self.capture.add_link_type(*network);
                let resolution: u64 = if *magic == 0xa1b2_3c4d || *magic == 0x4d3c_b2a1 {
                    1_000_000_000
                } else {
                    1_000_000
                };
                self.interfaces = vec![Interface { linktype: *network, resolution, ts_offset: 0 }];
            },
            CaptureBlock::SectionHeader { major_version, minor_version } => {
                self.capture.format = owned("pcapng");
                self.capture.version = version_of(*major_version, *minor_version);
                self.interfaces = Vec::new();
            },
            CaptureBlock::InterfaceDescription { linktype, snaplen, tsresol, tsoffset } => {
                if *snaplen > self.capture.snaplen {
                    self.capture.snaplen = *snaplen;
                }
                self.capture.add_link_type(*linktype);
                let resolution = match ts_resolution(*tsresol) {
                    Some(r) => r,
                    None => 1_000_000,
                };
                self.interfaces.push(Interface { linktype: *linktype, resolution, ts_offset: *tsoffset });
            },
            _ => {},
        }
        proof {
            assert(self@.interfaces =~= after_header(old(self)@, block@).interfaces);
        }
    }

    /// Records a packet that the current interfaces explain.
    fn take_packet(&mut self, timestamp: String, linktype: i32, data: &[u8], origlen: u32)
        ensures
            final(self)@ == with_packet(
                old(self)@,
                PacketModel { timestamp: timestamp@, linktype, data: data@, origlen },
            ),
    {
        let line = packet_text(self.capture.packets, &timestamp, linktype, data, origlen);
        if self.capture.first_packet_at.as_str().unicode_len() == 0 {
            self.capture.first_packet_at = timestamp.clone();
        }
        self.capture.last_packet_at = timestamp;
        self.capture.packets = self.capture.packets.wrapping_add(1);
        let ghost before = texts(self.lines@);
        self.lines.push(line);
        proof {
            assert(texts(self.lines@) =~= before.push(line@));
        }
    }

    /// Takes one more block.
    pub fn take(&mut self, block: CaptureBlock)
        requires
            interfaces_ok(old(self)@.interfaces),
        ensures
            final(self)@ == walk_block(old(self)@, block@),
            interfaces_ok(final(self)@.interfaces),
    {
        self.take_header(&block);
        match block {
            CaptureBlock::LegacyPacket { ts_sec, ts_usec, origlen, data, .. } => {
                if self.interfaces.len() > 0 {
                    let interface = self.interfaces[0];
                    proof {
                        lemma_small_timestamp(ts_sec as u64, ts_usec as u64, interface.resolution);
                    }
                    let time = timestamp(ts_sec as u64, ts_usec as u64, interface.resolution);
                    self.take_packet(time, interface.linktype, data.as_slice(), origlen);
                }
            },
            CaptureBlock::EnhancedPacket { if_id, ts_high, ts_low, caplen, origlen, data } => {
                if (if_id as usize) < self.interfaces.len() {
                    let interface = self.interfaces[if_id as usize];
                    let (seconds, fraction) = decode_ts(
                        ts_high,
                        ts_low,
                        #[verifier::truncate] (interface.ts_offset as u64),
                        interface.resolution,
                    );
                    proof {
                        lemma_small_timestamp(seconds as u64, fraction as u64, interface.resolution);
                    }
                    let time = timestamp(seconds as u64, fraction as u64, interface.resolution);
                    self.take_packet(time, interface.linktype, unpad(data.as_slice(), caplen), origlen);
                }
            },
            CaptureBlock::SimplePacket { origlen, data } => {
                if self.interfaces.len() > 0 {
                    let interface = self.interfaces[0];
                    self.take_packet(String::new(), interface.linktype, unpad(data.as_slice(), origlen), origlen);
                }
            },
            _ => {},
        }
    }
}

/// Opens the capture `bytes` for reading block by block, with a buffer of `READ_BUFFER` bytes;
/// `Err` where the bytes cannot be read as a capture at all.
pub fn open_capture(bytes: Vec<u8>) -> (reader: Result<CaptureReader, CaptureError>)
    ensures
        reader matches Ok(r) ==> capture_opening(bytes@, READ_BUFFER) matches Ok(steps) && steps
            == events_left(r) && well_formed_events(steps),
        reader matches Err(e) ==> capture_opening(bytes@, READ_BUFFER) matches Err(f) && f == e@,
{
    CaptureReader::open(bytes, READ_BUFFER)
}

/// Walks through the capture `bytes`: its summary and the line of each packet, in order.
/// Reading stops at the end of the capture or at the first block that cannot be read; `Err`
/// where the bytes cannot be read as a capture at all.
pub fn walk(bytes: Vec<u8>) -> (result: Result<Walk, CaptureError>)
    ensures
        result matches Ok(w) ==> walk_of(bytes@) == Ok::<WalkModel, CaptureFault>(w@),
        result matches Err(e) ==> walk_of(bytes@) == Err::<WalkModel, CaptureFault>(e@),
{
    let ghost input = bytes@;
    let mut reader = match open_capture(bytes) {
        Ok(r) => r,
        Err(e) => return Err(e),
    };
    let ghost steps = events_left(reader);
    let mut w = Walk::new();
    loop
        invariant
            well_formed_events(events_left(reader)),
            interfaces_ok(w@.interfaces),
            walk_steps(w@, events_left(reader)) == walk_steps(walk_start(), steps),
        ensures
            w@ == walk_steps(walk_start(), steps),
        decreases events_left(reader).len(),
    {
        let ghost left = events_left(reader);
        let event = reader.next_event();
        match event {
            CaptureEvent::Block(block) => {
                proof {
                    assert(!is_terminal(left[0]));
                    assert(left.len() > 1);
                }
                w.take(block);
            },
            CaptureEvent::Incomplete(_) => {
                proof {
                    assert(!is_terminal(left[0]));
                    assert(left.len() > 1);
                }
            },
            _ => {
                break;
            },
        }
        proof {
            let now = events_left(reader);
            assert forall|i: int| 0 <= i < now.len() - 1 implies !is_terminal(#[trigger] now[i]) by {
                assert(now[i] == left[i + 1]);
            }
        }
    }
    Ok(w)
}

// ---------------------------------------------------------------------------------------------
// The plugin
// ---------------------------------------------------------------------------------------------

/// Search strategy for packet captures.
pub struct PcapPlugin {}

/// The tools this plugin exposes.
pub struct PcapTools {}

/// The number a file's first four bytes make, most significant first.
pub open spec fn big_endian_word(head: Seq<u8>) -> int {
    head[0] * 0x100_0000 + head[1] * 0x1_0000 + head[2] * 0x100 + head[3]
}

/// Whether a file starts with the magic number of a pcap file (either byte order, micro- or
/// nanosecond timestamps) or of a pcapng section header block.
pub open spec fn capture_magic(head: Seq<u8>) -> bool {
    head.len() >= 4 && {
        let m = big_endian_word(head);
        m == 0xa1b2_c3d4 || m == 0xd4c3_b2a1 || m == 0xa1b2_3c4d || m == 0x4d3c_b2a1 || m
            == 0x0a0d_0d0a
    }
}

impl PcapPlugin {
    pub fn new() -> (plugin: PcapPlugin) {
        PcapPlugin {}
    }

    pub fn name(&self) -> (name: String)
        ensures
            name@ == "pcap-plugin"@,
    {
        owned("pcap-plugin")
    }

    pub fn description(&self) -> (description: String)
        ensures
            description@ == "File system access to packet captures (pcap, pcapng)."@,
    {
        owned("File system access to packet captures (pcap, pcapng).")
    }

    /// Whether this plugin handles `file_path`: a `.pcap`, `.pcapng` or `.cap` file, or else
    /// one whose first bytes (`head`; `None` where the file cannot be read) are a capture's
    /// magic number.
    pub fn identify(&self, file_path: &str, head: Option<Vec<u8>>) -> (yes: bool)
        ensures
            yes == (extension_of(file_path@) == Some("pcap"@) || extension_of(file_path@) == Some(
                "pcapng"@,
            ) || extension_of(file_path@) == Some("cap"@) || (head matches Some(h) && capture_magic(
                h@,
            ))),
    {
        if has_extension(file_path, "pcap") || has_extension(file_path, "pcapng") || has_extension(
            file_path,
            "cap",
        ) {
            return true;
        }
        match head {
            Some(h) => {
                if h.len() < 4 {
                    return false;
                }
                let m: u64 = (h[0] as u64) * 0x100_0000 + (h[1] as u64) * 0x1_0000 + (h[2] as u64)
                    * 0x100 + (h[3] as u64);
                m == 0xa1b2_c3d4 || m == 0xd4c3_b2a1 || m == 0xa1b2_3c4d || m == 0x4d3c_b2a1 || m
                    == 0x0a0d_0d0a
            },
            None => false,
        }
    }

    pub fn tools(&self) -> (tools: PcapTools) {
        PcapTools {}
    }
}

/// The lines of the packets of a capture, or the error with which it cannot be read.
pub open spec fn capture_lines(bytes: Seq<u8>) -> Result<Seq<Seq<char>>, CaptureFault> {
    match walk_of(bytes) {
        Ok(w) => Ok(w.lines),
        Err(f) => Err(f),
    }
}

/// The metadata of a capture's summary.
pub open spec fn capture_metadata(c: CaptureModel) -> Seq<(Seq<char>, MetaModel)> {
    seq![
        ("version"@, MetaModel::Text(c.version)),
        ("snaplen"@, MetaModel::Number(c.snaplen as u64)),
        ("linkTypes"@, MetaModel::Texts(c.link_types)),
        ("packetCount"@, MetaModel::Number(c.packets)),
        ("firstPacketAt"@, MetaModel::Text(c.first_packet_at)),
        ("lastPacketAt"@, MetaModel::Text(c.last_packet_at)),
    ]
}

fn open_lines(file: Vec<u8>) -> (lines: Result<Vec<String>, ToolError>)
    ensures
        lines matches Ok(l) ==> capture_lines(file@) == Ok::<Seq<Seq<char>>, CaptureFault>(texts(l@)),
        lines matches Err(e) ==> (e matches ToolError::NotACapture(f) && capture_lines(file@) == Err::<
            Seq<Seq<char>>,
            CaptureFault,
        >(f@)),
{
    match walk(file) {
        Ok(w) => Ok(w.lines),
        Err(e) => Err(ToolError::NotACapture(e)),
    }
}

impl PcapTools {
    /// The lines of the packets in the capture `file` that contain `search_term` (smart case),
    /// in order.
    pub fn search(&self, file: Vec<u8>, search_term: &str) -> (found: Result<Vec<String>, ToolError>)
        ensures
            found matches Ok(lines) ==> {
                &&& !blank(search_term@)
                &&& term_compiles(search_term@)
                &&& capture_lines(file@) matches Ok(all) && texts(lines@) == matching(search_term@, all)
            },
            found matches Err(ToolError::EmptySearchTerm) <==> blank(search_term@),
            found matches Err(ToolError::InvalidSearchTerm(_)) <==> !blank(search_term@)
                && !term_compiles(search_term@),
            found matches Err(ToolError::NotACapture(f)) ==> !blank(search_term@) && term_compiles(
                search_term@) && capture_lines(file@) == Err::<Seq<Seq<char>>, CaptureFault>(f@),
            found is Err ==> (found matches Err(ToolError::EmptySearchTerm) || found matches Err(
                ToolError::InvalidSearchTerm(_)) || found matches Err(ToolError::NotACapture(_))),
    {
        let matcher = match prepare_search(search_term) {
            Ok(m) => m,
            Err(e) => return Err(e),
        };
        let lines = match open_lines(file) {
            Ok(lines) => lines,
            Err(e) => return Err(e),
        };
        Ok(keep_matching(lines, &matcher))
    }

    /// The packet lines that a read of `max_bytes` bytes from byte `offset` of the capture's
    /// lines, joined by newlines, shows; the first line shown is shown whatever its length.
    pub fn read(&self, file: Vec<u8>, offset: i64, max_bytes: i64) -> (rows: Result<Vec<String>, ToolError>)
        ensures
            rows matches Ok(lines) ==> {
                &&& offset >= 0
                &&& max_bytes > 0
                &&& capture_lines(file@) matches Ok(all) && texts(lines@) == byte_window(
                    all,
                    offset as nat,
                    max_bytes as nat,
                )
            },
            rows matches Err(ToolError::BadByteWindow) <==> (offset < 0 || max_bytes <= 0),
            rows matches Err(ToolError::NotACapture(f)) ==> offset >= 0 && max_bytes > 0
                && capture_lines(file@) == Err::<Seq<Seq<char>>, CaptureFault>(f@),
            rows is Err ==> (rows matches Err(ToolError::BadByteWindow) || rows matches Err(
                ToolError::NotACapture(_))),
    {
        let (start, max) = match check_byte_window(offset, max_bytes) {
            Ok(window) => window,
            Err(e) => return Err(e),
        };
        let lines = match open_lines(file) {
            Ok(lines) => lines,
            Err(e) => return Err(e),
        };
        Ok(take_bytes(&lines, start, max))
    }

    /// The summary of the capture `file`, whose file-system facts are `meta`: its format,
    /// version, snapshot length, link types, packet count and first and last packet times.
    pub fn stat(&self, file: Vec<u8>, meta: &FileMeta) -> (stat: Result<FileStat, ToolError>)
        ensures
            stat matches Ok(s) ==> {
                &&& walk_of(file@) matches Ok(w) && s.format@ == w.capture.format && meta_entries(
                    s.metadata@,
                ) == capture_metadata(w.capture)
                &&& s.size_bytes == meta.len as i64
                &&& s.modified_at@ == iso_text(meta.modified)
                &&& s.created_at@ == iso_text(meta.created)
            },
            stat matches Err(e) ==> (e matches ToolError::NotACapture(f) && walk_of(file@) == Err::<
                WalkModel,
                CaptureFault,
            >(f@)),
    {
        let w = match walk(file) {
            Ok(w) => w,
            Err(e) => return Err(ToolError::NotACapture(e)),
        };
        let c = w.capture;
        let metadata = vec![
            (owned("version"), MetaValue::Text(c.version)),
            (owned("snaplen"), MetaValue::Number(c.snaplen as u64)),
            (owned("linkTypes"), MetaValue::Texts(c.link_types)),
            (owned("packetCount"), MetaValue::Number(c.packets)),
            (owned("firstPacketAt"), MetaValue::Text(c.first_packet_at)),
            (owned("lastPacketAt"), MetaValue::Text(c.last_packet_at)),
        ];
        proof {
            assert(meta_entries(metadata@) =~= capture_metadata(c@));
        }
        Ok(file_stat(c.format, meta, metadata))
    }
}

// ---------------------------------------------------------------------------------------------
// Laws
// ---------------------------------------------------------------------------------------------

/// Recording a link type a second time changes nothing: each name is listed once.
pub proof fn link_type_recorded_once(names: Seq<Seq<char>>, name: Seq<char>)
    ensures
        with_link_type(with_link_type(names, name), name) == with_link_type(names, name),
        with_link_type(names, name).contains(name),
        names.no_duplicates() ==> with_link_type(names, name).no_duplicates(),
{
    if !names.contains(name) {
        assert(names.push(name)[names.len() as int] == name);
        assert forall|i: int, j: int|
            0 <= i < j < names.push(name).len() && names.no_duplicates() implies names.push(name)[i]
            != names.push(name)[j] by {
            if j == names.len() {
                assert(names[i] != name);
            }
        }
    }
}

proof fn lemma_next_count(count: u64, len: nat)
    requires
        count as int == len % 0x1_0000_0000_0000_0000,
    ensures
        wrapping_add(count, 1) as int == (len + 1) % 0x1_0000_0000_0000_0000,
{
    assert((len + 1) % 0x1_0000_0000_0000_0000 == if len % 0x1_0000_0000_0000_0000 + 1
        == 0x1_0000_0000_0000_0000 {
        0
    } else {
        len % 0x1_0000_0000_0000_0000 + 1
    }) by (nonlinear_arith);
}

/// What every step of a walk keeps: the packet count is the number of packet lines (modulo
/// 2^64), and no link type is listed twice.
pub open spec fn walk_consistent(w: WalkModel) -> bool {
    &&& w.capture.packets as int == w.lines.len() % 0x1_0000_0000_0000_0000
    &&& w.capture.link_types.no_duplicates()
}

proof fn lemma_walk_block_consistent(w: WalkModel, b: BlockModel)
    requires
        walk_consistent(w),
    ensures
        walk_consistent(walk_block(w, b)),
{
    match b {
        BlockModel::LegacyHeader { network, .. } => {
            link_type_recorded_once(w.capture.link_types, linktype_text(network));
        },
        BlockModel::InterfaceDescription { linktype, .. } => {
            link_type_recorded_once(w.capture.link_types, linktype_text(linktype));
        },
        _ => {},
    }
    let headed = after_header(w, b);
    assert(headed.lines == w.lines && headed.capture.packets == w.capture.packets);
    if let Some(p) = packet_of(b, headed.interfaces) {
        lemma_next_count(headed.capture.packets, headed.lines.len());
    }
}

proof fn lemma_walk_steps_consistent(w: WalkModel, steps: Seq<EventModel>)
    requires
        walk_consistent(w),
    ensures
        walk_consistent(walk_steps(w, steps)),
    decreases steps.len(),
{
    if steps.len() > 0 {
        match steps[0] {
            EventModel::Block(b) => {
                lemma_walk_block_consistent(w, b);
                lemma_walk_steps_consistent(walk_block(w, b), steps.drop_first());
            },
            EventModel::Incomplete(_) => {
                lemma_walk_steps_consistent(w, steps.drop_first());
            },
            _ => {},
        }
    }
}

/// A capture's summary agrees with its lines: the packet count that `stat` reports is the
/// number of packet lines that `search` and `read` see (for fewer than 2^64 packets), and no
/// link type is listed twice.
pub proof fn packet_count_matches_lines(bytes: Seq<u8>)
    ensures
        walk_of(bytes) matches Ok(w) ==> w.capture.link_types.no_duplicates() && (w.lines.len()
            <= u64::MAX ==> w.capture.packets == w.lines.len()),
{
    assert(walk_consistent(walk_start())) by {
        assert(empty_capture().link_types.no_duplicates());
    }
    if let Ok(steps) = capture_opening(bytes, READ_BUFFER) {
        lemma_walk_steps_consistent(walk_start(), steps);
    }
}

/// The start of a packet line numbered `index` whose timestamp is `stamp`:
/// `index<TAB>stamp<TAB>`.
pub open spec fn line_head(index: nat, stamp: Seq<char>) -> Seq<char> {
    decimal_text(index) + seq!['\t'] + stamp + seq!['\t']
}

/// Whether the packet line `line`, numbered `index`, carries the timestamp `stamp`.
pub open spec fn line_stamped(line: Seq<char>, index: nat, stamp: Seq<char>) -> bool {
    line_head(index, stamp).is_prefix_of(line)
}

/// What every step of a walk keeps of the packet times: the last is the timestamp of the last
/// packet line; while the first is empty, no packet line so far has a timestamp; once it is set,
/// it is the timestamp of a packet line before which no line has one. Lines are numbered modulo
/// 2^64, as the count that numbers them.
pub open spec fn first_time_kept(w: WalkModel) -> bool {
    let n = w.lines.len();
    &&& w.capture.packets as int == n % 0x1_0000_0000_0000_0000
    &&& n > 0 ==> line_stamped(
        w.lines[n - 1],
        ((n - 1) % 0x1_0000_0000_0000_0000) as nat,
        w.capture.last_packet_at,
    )
    &&& w.capture.first_packet_at.len() == 0 ==> forall|j: int|
        0 <= j < n ==> #[trigger] line_stamped(
            w.lines[j],
            (j % 0x1_0000_0000_0000_0000) as nat,
            Seq::empty(),
        )
    &&& w.capture.first_packet_at.len() > 0 ==> exists|i: int|
        0 <= i < n && #[trigger] line_stamped(
            w.lines[i],
            (i % 0x1_0000_0000_0000_0000) as nat,
            w.capture.first_packet_at,
        ) && forall|j: int|
            0 <= j < i ==> #[trigger] line_stamped(
                w.lines[j],
                (j % 0x1_0000_0000_0000_0000) as nat,
                Seq::empty(),
            )
}

proof fn lemma_packet_line_stamped(index: u64, p: PacketModel)
    ensures
        line_stamped(packet_line(index, p), index as nat, p.timestamp),
{
    let head = line_head(index as nat, p.timestamp);
    let line = packet_line(index, p);
    assert(line =~= head + json_object_text(packet_fields(p)));
    assert(line.subrange(0, head.len() as int) =~= head);
}

proof fn lemma_walk_block_first_time(w: WalkModel, b: BlockModel)
    requires
        first_time_kept(w),
    ensures
        first_time_kept(walk_block(w, b)),
{
    let headed = after_header(w, b);
    assert(headed.lines == w.lines && headed.capture.packets == w.capture.packets
        && headed.capture.first_packet_at == w.capture.first_packet_at);
    if let Some(p) = packet_of(b, headed.interfaces) {
        let n = w.lines.len();
        let next = with_packet(headed, p);
        lemma_next_count(headed.capture.packets, n);
        lemma_packet_line_stamped(headed.capture.packets, p);
        assert(next.lines[n as int] == packet_line(headed.capture.packets, p));
        assert(((n as int) % 0x1_0000_0000_0000_0000) as nat == headed.capture.packets as nat);
        assert(line_stamped(next.lines[n as int], ((n as int) % 0x1_0000_0000_0000_0000) as nat, p.timestamp));
        assert(next.lines.len() - 1 == n);
        assert forall|j: int| 0 <= j < n implies next.lines[j] == w.lines[j] by {}
        if w.capture.first_packet_at.len() == 0 {
            if p.timestamp.len() == 0 {
                assert(p.timestamp =~= Seq::<char>::empty());
                assert forall|j: int| 0 <= j < next.lines.len() implies #[trigger] line_stamped(
                    next.lines[j],
                    (j % 0x1_0000_0000_0000_0000) as nat,
                    Seq::empty(),
                ) by {
                    if j < n {
                        assert(line_stamped(w.lines[j], (j % 0x1_0000_0000_0000_0000) as nat, Seq::empty()));
                    }
                }
            } else {
                assert forall|j: int| 0 <= j < n implies #[trigger] line_stamped(
                    next.lines[j],
                    (j % 0x1_0000_0000_0000_0000) as nat,
                    Seq::empty(),
                ) by {
                    assert(line_stamped(w.lines[j], (j % 0x1_0000_0000_0000_0000) as nat, Seq::empty()));
                }
            }
        } else {
            let i = choose|i: int|
                0 <= i < n && #[trigger] line_stamped(
                    w.lines[i],
                    (i % 0x1_0000_0000_0000_0000) as nat,
                    w.capture.first_packet_at,
                ) && forall|j: int|
                    0 <= j < i ==> #[trigger] line_stamped(
                        w.lines[j],
                        (j % 0x1_0000_0000_0000_0000) as nat,
                        Seq::empty(),
                    );
            assert(line_stamped(next.lines[i], (i % 0x1_0000_0000_0000_0000) as nat, next.capture.first_packet_at));
            assert forall|j: int| 0 <= j < i implies #[trigger] line_stamped(
                next.lines[j],
                (j % 0x1_0000_0000_0000_0000) as nat,
                Seq::empty(),
            ) by {
                assert(line_stamped(w.lines[j], (j % 0x1_0000_0000_0000_0000) as nat, Seq::empty()));
            }
        }
    }
}

proof fn lemma_walk_steps_first_time(w: WalkModel, steps: Seq<EventModel>)
    requires
        first_time_kept(w),
    ensures
        first_time_kept(walk_steps(w, steps)),
    decreases steps.len(),
{
    if steps.len() > 0 {
        match steps[0] {
            EventModel::Block(b) => {
                lemma_walk_block_first_time(w, b);
                lemma_walk_steps_first_time(walk_block(w, b), steps.drop_first());
            },
            EventModel::Incomplete(_) => {
                lemma_walk_steps_first_time(w, steps.drop_first());
            },
            _ => {},
        }
    }
}

/// The first packet time that `stat` reports is the timestamp of the first packet line that
/// has one: it is set by that packet and later packets leave it as it is. Where it is empty,
/// no packet line has a timestamp. The last packet time is the timestamp of the last packet
/// line. (For fewer than 2^64 packets, numbered from zero.)
pub proof fn first_and_last_packet_times(bytes: Seq<u8>)
    ensures
        walk_of(bytes) matches Ok(w) ==> w.lines.len() <= u64::MAX ==> {
            &&& w.lines.len() > 0 ==> line_stamped(
                w.lines.last(),
                (w.lines.len() - 1) as nat,
                w.capture.last_packet_at,
            )
            &&& w.capture.first_packet_at.len() == 0 ==> forall|j: int|
                0 <= j < w.lines.len() ==> #[trigger] line_stamped(w.lines[j], j as nat, Seq::empty())
            &&& w.capture.first_packet_at.len() > 0 ==> exists|i: int|
                0 <= i < w.lines.len() && #[trigger] line_stamped(
                    w.lines[i],
                    i as nat,
                    w.capture.first_packet_at,
                ) && forall|j: int|
                    0 <= j < i ==> #[trigger] line_stamped(w.lines[j], j as nat, Seq::empty())
        },
{
    assert(first_time_kept(walk_start()));
    if let Ok(steps) = capture_opening(bytes, READ_BUFFER) {
        let w = walk_steps(walk_start(), steps);
        lemma_walk_steps_first_time(walk_start(), steps);
        if w.lines.len() <= u64::MAX {
            if w.capture.first_packet_at.len() == 0 {
                assert forall|j: int| 0 <= j < w.lines.len() implies #[trigger] line_stamped(
                    w.lines[j],
                    j as nat,
                    Seq::empty(),
                ) by {
                    assert(line_stamped(w.lines[j], (j % 0x1_0000_0000_0000_0000) as nat, Seq::empty()));
                }
            } else {
                let i = choose|i: int|
                    0 <= i < w.lines.len() && #[trigger] line_stamped(
                        w.lines[i],
                        (i % 0x1_0000_0000_0000_0000) as nat,
                        w.capture.first_packet_at,
                    ) && forall|j: int|
                        0 <= j < i ==> #[trigger] line_stamped(
                            w.lines[j],
                            (j % 0x1_0000_0000_0000_0000) as nat,
                            Seq::empty(),
                        );
                assert(line_stamped(w.lines[i], i as nat, w.capture.first_packet_at));
                assert forall|j: int| 0 <= j < i implies #[trigger] line_stamped(
                    w.lines[j],
                    j as nat,
                    Seq::empty(),
                ) by {
                    assert(line_stamped(w.lines[j], (j % 0x1_0000_0000_0000_0000) as nat, Seq::empty()));
                }
            }
        }
    }
}

} // verus!
