//! Reading a capture (pcap or pcapng) block by block with `pcap_parser`, each block handed out
//! as plain values.
use vstd::prelude::*;
use pcap_parser::traits::PcapReaderIterator;
use pcap_parser::{Block, PcapBlockOwned, PcapError};

verus! {

#[verifier::external_type_specification]
#[verifier::external_body]
#[verifier::reject_recursive_types(I)]
pub struct ExPcapError<I: Sized>(PcapError<I>);

#[verifier::external_type_specification]
#[verifier::external_body]
pub struct ExPcapBlockOwned<'a>(PcapBlockOwned<'a>);

#[verifier::external_type_specification]
#[verifier::external_body]
pub struct ExBlock<'a>(Block<'a>);

/// A block of a capture, as plain values.
pub enum CaptureBlock {
    /// The file header of a pcap file; `network` is its link type.
    LegacyHeader { magic: u32, version_major: u16, version_minor: u16, snaplen: u32, network: i32 },
    /// A packet record of a pcap file; `data` is its captured bytes.
    LegacyPacket { ts_sec: u32, ts_usec: u32, caplen: u32, origlen: u32, data: Vec<u8> },
    /// A pcapng section header block.
    SectionHeader { major_version: u16, minor_version: u16 },
    /// A pcapng interface description block, with its raw `if_tsresol` and `if_tsoffset`.
    InterfaceDescription { linktype: i32, snaplen: u32, tsresol: u8, tsoffset: i64 },
    /// A pcapng enhanced packet block; `data` still holds the block's padding.
    EnhancedPacket { if_id: u32, ts_high: u32, ts_low: u32, caplen: u32, origlen: u32, data: Vec<u8> },
    /// A pcapng simple packet block; `data` still holds the block's padding.
    SimplePacket { origlen: u32, data: Vec<u8> },
    /// Any other pcapng block.
    OtherNg,
}

/// A block as plain values.
pub enum BlockModel {
    LegacyHeader { magic: u32, version_major: u16, version_minor: u16, snaplen: u32, network: i32 },
    LegacyPacket { ts_sec: u32, ts_usec: u32, caplen: u32, origlen: u32, data: Seq<u8> },
    SectionHeader { major_version: u16, minor_version: u16 },
    InterfaceDescription { linktype: i32, snaplen: u32, tsresol: u8, tsoffset: i64 },
    EnhancedPacket { if_id: u32, ts_high: u32, ts_low: u32, caplen: u32, origlen: u32, data: Seq<u8> },
    SimplePacket { origlen: u32, data: Seq<u8> },
    OtherNg,
}

impl View for CaptureBlock {
    type V = BlockModel;

    open spec fn view(&self) -> BlockModel {
        match self {
            CaptureBlock::LegacyHeader { magic, version_major, version_minor, snaplen, network } =>
                BlockModel::LegacyHeader {
                magic: *magic,
                version_major: *version_major,
                version_minor: *version_minor,
                snaplen: *snaplen,
                network: *network,
            },
            CaptureBlock::LegacyPacket { ts_sec, ts_usec, caplen, origlen, data } =>
                BlockModel::LegacyPacket {
                ts_sec: *ts_sec,
                ts_usec: *ts_usec,
                caplen: *caplen,
                origlen: *origlen,
                data: data@,
            },
            CaptureBlock::SectionHeader { major_version, minor_version } =>
                BlockModel::SectionHeader {
                major_version: *major_version,
                minor_version: *minor_version,
            },
            CaptureBlock::InterfaceDescription { linktype, snaplen, tsresol, tsoffset } =>
                BlockModel::InterfaceDescription {
                linktype: *linktype,
                snaplen: *snaplen,
                tsresol: *tsresol,
                tsoffset: *tsoffset,
            },
            CaptureBlock::EnhancedPacket { if_id, ts_high, ts_low, caplen, origlen, data } =>
                BlockModel::EnhancedPacket {
                if_id: *if_id,
                ts_high: *ts_high,
                ts_low: *ts_low,
                caplen: *caplen,
                origlen: *origlen,
                data: data@,
            },
            CaptureBlock::SimplePacket { origlen, data } => BlockModel::SimplePacket {
                origlen: *origlen,
                data: data@,
            },
            CaptureBlock::OtherNg => BlockModel::OtherNg,
        }
    }
}

/// Why a capture cannot be read (further), as `pcap_parser::PcapError` tells it.
#[derive(Debug)]
pub enum CaptureError {
    Eof,
    BufferTooSmall,
    UnexpectedEof,
    ReadError,
    Incomplete(usize),
    HeaderNotRecognized,
    /// A parser error: the parser's error kind, as its name, and the input it stopped at.
    Malformed(String, Vec<u8>),
}

/// A capture error as plain values.
pub enum CaptureFault {
    Eof,
    BufferTooSmall,
    UnexpectedEof,
    ReadError,
    Incomplete(usize),
    HeaderNotRecognized,
    Malformed(Seq<char>, Seq<u8>),
}

impl View for CaptureError {
    type V = CaptureFault;

    open spec fn view(&self) -> CaptureFault {
        match self {
            CaptureError::Eof => CaptureFault::Eof,
            CaptureError::BufferTooSmall => CaptureFault::BufferTooSmall,
            CaptureError::UnexpectedEof => CaptureFault::UnexpectedEof,
            CaptureError::ReadError => CaptureFault::ReadError,
            CaptureError::Incomplete(n) => CaptureFault::Incomplete(*n),
            CaptureError::HeaderNotRecognized => CaptureFault::HeaderNotRecognized,
            CaptureError::Malformed(kind, input) => CaptureFault::Malformed(kind@, input@),
        }
    }
}

/// One step of reading: a block (consumed), a block that needs more input (which has been
/// read in), the end of the capture, or an error that stops reading.
pub enum CaptureEvent {
    Block(CaptureBlock),
    Incomplete(usize),
    End,
    Failed(CaptureError),
}

/// A reading step as plain values.
pub enum EventModel {
    Block(BlockModel),
    Incomplete(usize),
    End,
    Failed(CaptureFault),
}

impl View for CaptureEvent {
    type V = EventModel;

    open spec fn view(&self) -> EventModel {
        match self {
            CaptureEvent::Block(b) => EventModel::Block(b@),
            CaptureEvent::Incomplete(n) => EventModel::Incomplete(*n),
            CaptureEvent::End => EventModel::End,
            CaptureEvent::Failed(e) => EventModel::Failed(e@),
        }
    }
}

/// Whether reading stops at this step, and stays there.
pub open spec fn is_terminal(e: EventModel) -> bool {
    e is End || e is Failed
}

/// The steps a reader still has to give: finitely many, the last one (and only it) final.
pub open spec fn well_formed_events(steps: Seq<EventModel>) -> bool {
    &&& steps.len() > 0
    &&& is_terminal(steps.last())
    &&& forall|i: int| 0 <= i < steps.len() - 1 ==> !is_terminal(#[trigger] steps[i])
}

/// What `next()` itself gives at a step: the block, or the error it reports.
pub open spec fn head_outcome(e: EventModel) -> Result<BlockModel, CaptureFault> {
    match e {
        EventModel::Block(b) => Ok(b),
        EventModel::Incomplete(n) => Err(CaptureFault::Incomplete(n)),
        EventModel::End => Err(CaptureFault::Eof),
        EventModel::Failed(f) => Err(f),
    }
}

/// The steps, in order, that a `pcap_parser` reader over `bytes` with a buffer of `capacity`
/// bytes gives when each block is consumed as it comes and more input is read in whenever a
/// block is incomplete; or the error with which the reader cannot be created.
pub uninterp spec fn capture_opening(bytes: Seq<u8>, capacity: usize) -> Result<Seq<EventModel>, CaptureFault>;

/// A `pcap_parser` reader over a capture held in memory.
#[verifier::external_body]
pub struct CaptureReader {
    reader: Box<dyn PcapReaderIterator + Send>,
}

/// The steps a reader still has to give, read as `capture_opening` describes.
pub uninterp spec fn events_left(reader: CaptureReader) -> Seq<EventModel>;

/// `pcap_parser`'s error as plain values, one variant for one; a parser error keeps the
/// `Debug` name of its error kind and its input.
#[verifier::external_body]
fn fault_of(e: PcapError<&[u8]>) -> (fault: CaptureError) {
    match e {
        PcapError::Eof => CaptureError::Eof,
        PcapError::BufferTooSmall => CaptureError::BufferTooSmall,
        PcapError::UnexpectedEof => CaptureError::UnexpectedEof,
        PcapError::ReadError => CaptureError::ReadError,
        PcapError::Incomplete(n) => CaptureError::Incomplete(n),
        PcapError::HeaderNotRecognized => CaptureError::HeaderNotRecognized,
        PcapError::NomError(input, kind) => CaptureError::Malformed(format!("{kind:?}"), input.to_vec()),
        PcapError::OwnedNomError(input, kind) => CaptureError::Malformed(format!("{kind:?}"), input),
    }
}

/// A `pcap_parser` block as plain values: its fields, moved one for one.
#[verifier::external_body]
fn block_of(block: PcapBlockOwned) -> (b: CaptureBlock) {
    match block {
        PcapBlockOwned::LegacyHeader(h) => CaptureBlock::LegacyHeader {
            magic: h.magic_number, version_major: h.version_major, version_minor: h.version_minor,
            snaplen: h.snaplen, network: h.network.0,
        },
        PcapBlockOwned::Legacy(p) => CaptureBlock::LegacyPacket {
            ts_sec: p.ts_sec, ts_usec: p.ts_usec, caplen: p.caplen, origlen: p.origlen, data: p.data.to_vec(),
        },
        PcapBlockOwned::NG(b) => ng_block_of(b),
    }
}

/// A pcapng block as plain values: its fields, moved one for one.
#[verifier::external_body]
fn ng_block_of(block: Block) -> (b: CaptureBlock) {
    match block {
        Block::SectionHeader(s) => CaptureBlock::SectionHeader { major_version: s.major_version, minor_version: s.minor_version },
        Block::InterfaceDescription(d) => CaptureBlock::InterfaceDescription {
            linktype: d.linktype.0, snaplen: d.snaplen, tsresol: d.if_tsresol, tsoffset: d.if_tsoffset,
        },
        Block::EnhancedPacket(p) => CaptureBlock::EnhancedPacket {
            if_id: p.if_id, ts_high: p.ts_high, ts_low: p.ts_low, caplen: p.caplen, origlen: p.origlen, data: p.data.to_vec(),
        },
        Block::SimplePacket(p) => CaptureBlock::SimplePacket { origlen: p.origlen, data: p.data.to_vec() },
        _ => CaptureBlock::OtherNg,
    }
}

impl CaptureReader {
    /// `pcap_parser::create_reader(capacity, Cursor::new(bytes))`. Claimed: the reader, or the
    /// error, depends on the bytes and the capacity alone, and reading it ends (each block
    /// consumed takes bytes off the input, and input that runs out ends in `Eof` or an error).
    #[verifier::external_body]
    pub(crate) fn open(bytes: Vec<u8>, capacity: usize) -> (reader: Result<CaptureReader, CaptureError>)
        ensures
            reader matches Ok(r) ==> capture_opening(bytes@, capacity) matches Ok(steps) && steps
                == events_left(r),
            reader matches Ok(r) ==> well_formed_events(events_left(r)),
            reader matches Err(e) ==> capture_opening(bytes@, capacity) matches Err(f) && f == e@,
    {
        match pcap_parser::create_reader(capacity, std::io::Cursor::new(bytes)) {
            Ok(reader) => Ok(CaptureReader { reader }),
            Err(e) => Err(fault_of(e)),
        }
    }

    /// One step of reading: `next()`; a block is consumed (`consume(offset)`), and a block
    /// that is incomplete has more input read in (`refill()`). Claimed: the step is the next
    /// of the steps left, and a final step (the end, or an error) is given again and again.
    #[verifier::external_body]
    pub(crate) fn next_event(&mut self) -> (event: CaptureEvent)
        requires
            well_formed_events(events_left(*old(self))),
        ensures
            event@ == events_left(*old(self))[0],
            events_left(*final(self)) == (if is_terminal(event@) {
                events_left(*old(self))
            } else {
                events_left(*old(self)).drop_first()
            }),
    {
        match self.reader.next() {
            Ok((offset, block)) => {
                let b = block_of(block);
                self.reader.consume(offset);
                CaptureEvent::Block(b)
            },
            Err(PcapError::Eof) => CaptureEvent::End,
            Err(PcapError::Incomplete(n)) => match self.reader.refill() {
                Ok(()) => CaptureEvent::Incomplete(n),
                Err(e) => CaptureEvent::Failed(fault_of(e)),
            },
            Err(e) => CaptureEvent::Failed(fault_of(e)),
        }
    }

    /// `next()` alone, nothing consumed and nothing read in. Claimed: it gives what the next
    /// step holds, and leaves the steps as they were.
    #[verifier::external_body]
    pub(crate) fn peek(&mut self) -> (outcome: Result<CaptureBlock, CaptureError>)
        requires
            well_formed_events(events_left(*old(self))),
        ensures
            outcome matches Ok(b) ==> head_outcome(events_left(*old(self))[0]) matches Ok(m) && m == b@,
            outcome matches Err(e) ==> head_outcome(events_left(*old(self))[0]) matches Err(f) && f == e@,
            events_left(*final(self)) == events_left(*old(self)),
    {
        match self.reader.next() {
            Ok((_, block)) => Ok(block_of(block)),
            Err(e) => Err(fault_of(e)),
        }
    }
}

} // verus!
