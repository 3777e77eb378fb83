use vstd::prelude::*;
use std::io::Read;
use super::constants::{
    signature, EntryObject, EntryView, Header, HeaderView, HEADER_SIZE, HEADER_SIZE_MIN, ObjectHeader, DATA_PAYLOAD_OFFSET, DATA_PAYLOAD_OFFSET_COMPACT,
    ENTRY_ITEMS_OFFSET, ENTRY_ITEM_SIZE, ENTRY_ITEM_SIZE_COMPACT, OBJECT_COMPRESSED_LZ4,
    OBJECT_COMPRESSED_XZ, OBJECT_COMPRESSED_ZSTD, OBJECT_ENTRY, OBJECT_FLAGS_OFFSET,
    OBJECT_SIZE_OFFSET,
};

verus! {

/// The unsigned number that `bytes` encode in little-endian order.
pub open spec fn le_value(bytes: Seq<u8>) -> nat
    decreases bytes.len(),
{
    if bytes.len() == 0 {
        0
    } else {
        bytes[0] as nat + 256 * le_value(bytes.drop_first())
    }
}

/// 256 to the power `n`: one more than the largest value `n` bytes can hold.
pub open spec fn byte_span(n: nat) -> nat
    decreases n,
{
    if n == 0 {
        1
    } else {
        256 * byte_span((n - 1) as nat)
    }
}

/// A number stored in `n` bytes is below `byte_span(n)`.
pub proof fn lemma_le_value_bound(bytes: Seq<u8>)
    ensures
        le_value(bytes) < byte_span(bytes.len()),
    decreases bytes.len(),
{
    if bytes.len() > 0 {
        lemma_le_value_bound(bytes.drop_first());
        let rest = le_value(bytes.drop_first());
        let span = byte_span((bytes.len() - 1) as nat);
        assert(bytes[0] as nat + 256 * rest < 256 * span) by (nonlinear_arith)
            requires
                rest < span,
                bytes[0] < 256,
        ;
    }
}

/// Eight bytes hold at most a `u64`.
pub proof fn lemma_byte_span_u64(n: nat)
    requires
        n <= 8,
    ensures
        byte_span(n) <= byte_span(8),
        byte_span(8) == 0x1_0000_0000_0000_0000,
    decreases 8 - n,
{
    reveal_with_fuel(byte_span, 9);
    if n < 8 {
        lemma_byte_span_u64(n + 1);
    }
}

/// The `width`-byte little-endian number at `base + field` in `buf`, if those bytes are all
/// inside it.
pub open spec fn le_at(buf: Seq<u8>, base: int, width: int) -> Option<u64> {
    if 0 <= base && 0 <= width && base + width <= buf.len() {
        Some(le_value(buf.subrange(base, base + width)) as u64)
    } else {
        None
    }
}

/// Reads the little-endian number of `bytes.len()` (at most eight) bytes.
fn le_bytes(bytes: &[u8]) -> (value: u64)
    requires
        bytes@.len() <= 8,
    ensures
        value as nat == le_value(bytes@),
{
    let mut value: u64 = 0;
    let mut i: usize = bytes.len();
    proof {
        assert(bytes@.subrange(i as int, bytes@.len() as int) =~= Seq::<u8>::empty());
    }
    while i > 0
        invariant
            0 <= i <= bytes@.len() <= 8,
            value as nat == le_value(bytes@.subrange(i as int, bytes@.len() as int)),
        decreases i,
    {
        i = i - 1;
        let ghost rest = bytes@.subrange(i + 1, bytes@.len() as int);
        let ghost here = bytes@.subrange(i as int, bytes@.len() as int);
        proof {
            assert(here.drop_first() =~= rest);
            lemma_le_value_bound(here);
            lemma_byte_span_u64(here.len());
        }
        value = value * 256 + bytes[i] as u64;
    }
    proof {
        assert(bytes@.subrange(0, bytes@.len() as int) =~= bytes@);
    }
    value
}

/// The `width`-byte little-endian number at offset `base + field` of `buf`, or `None` where
/// those bytes do not all lie inside `buf` (an offset that overflows included).
pub fn le(buf: &[u8], base: u64, field: u64, width: usize) -> (value: Option<u64>)
    requires
        width <= 8,
    ensures
        value == le_at(buf@, base + field, width as int),
        value matches Some(v) ==> v as nat == le_value(
            buf@.subrange(base + field, base + field + width),
        ),
{
    let len = buf.len();
    let start = match base.checked_add(field) {
        Some(start) => start,
        None => {
            assert(base + field > len) by {
                assert(usize::MAX <= u64::MAX);
            }
            return None;
        },
    };
    if start > buf.len() as u64 || width > buf.len() - start as usize {
        return None;
    }
    let start = start as usize;
    let bytes = vstd::slice::slice_subrange(buf, start, start + width);
    let value = le_bytes(bytes);
    proof {
        lemma_le_value_bound(bytes@);
        lemma_byte_span_u64(width as nat);
    }
    Some(value)
}

/// A read position in a byte slice that hands out consecutive fixed-width fields.
pub struct Cursor<'a> {
    pub buf: &'a [u8],
    pub at: usize,
}

impl<'a> Cursor<'a> {
    /// The next `n` bytes; the position moves past them.
    pub fn take(&mut self, n: usize) -> (bytes: &'a [u8])
        requires
            old(self).at + n <= old(self).buf@.len(),
        ensures
            bytes@ == old(self).buf@.subrange(old(self).at as int, old(self).at + n),
            final(self).buf == old(self).buf,
            final(self).at == old(self).at + n,
    {
        let len = self.buf.len();
        assert(self.at + n <= len);
        let bytes = vstd::slice::slice_subrange(self.buf, self.at, self.at + n);
        self.at = self.at + n;
        bytes
    }

    /// The next byte.
    pub fn u8(&mut self) -> (value: u8)
        requires
            old(self).at + 1 <= old(self).buf@.len(),
        ensures
            value == old(self).buf@[old(self).at as int],
            final(self).buf == old(self).buf,
            final(self).at == old(self).at + 1,
    {
        let value = self.buf[self.at];
        self.at = self.at + 1;
        value
    }

    /// The next four bytes as a little-endian number.
    pub fn u32(&mut self) -> (value: u32)
        requires
            old(self).at + 4 <= old(self).buf@.len(),
        ensures
            value as nat == le_value(old(self).buf@.subrange(old(self).at as int, old(self).at + 4)),
            final(self).buf == old(self).buf,
            final(self).at == old(self).at + 4,
    {
        let bytes = self.take(4);
        let value = le_bytes(bytes);
        proof {
            lemma_le_value_bound(bytes@);
            reveal_with_fuel(byte_span, 5);
        }
        value as u32
    }

    /// The next eight bytes as a little-endian number.
    pub fn u64(&mut self) -> (value: u64)
        requires
            old(self).at + 8 <= old(self).buf@.len(),
        ensures
            value as nat == le_value(old(self).buf@.subrange(old(self).at as int, old(self).at + 8)),
            final(self).buf == old(self).buf,
            final(self).at == old(self).at + 8,
    {
        let bytes = self.take(8);
        le_bytes(bytes)
    }
}


/// What an XZ stream decodes to, or `None` where it is not a complete valid stream.
pub uninterp spec fn xz_decoded(stream: Seq<u8>) -> Option<Seq<u8>>;

/// What an LZ4 block decodes to when at most `capacity` bytes are allowed for it, or `None`
/// where the block is malformed or needs more room.
pub uninterp spec fn lz4_block_decoded(block: Seq<u8>, capacity: usize) -> Option<Seq<u8>>;

/// What a Zstandard frame decodes to, or `None` where it is not a valid frame.
pub uninterp spec fn zstd_decoded(frame: Seq<u8>) -> Option<Seq<u8>>;

/// The text that `bytes` read as UTF-8, each invalid sequence replaced by U+FFFD.
pub uninterp spec fn utf8_lossy(bytes: Seq<u8>) -> Seq<char>;

/// Decodes one XZ stream with `lzma_rust2::XzReader::new(stream, false)` read to its end.
/// Claimed: the bytes read, or an error, depend on `stream` alone; nothing is claimed of what
/// they are.
#[verifier::external_body]
fn xz_decompress(stream: &[u8]) -> (out: Result<Vec<u8>, String>)
    ensures
        out matches Ok(v) ==> xz_decoded(stream@) == Some(v@),
        out is Err ==> xz_decoded(stream@) is None,
{
    let mut out = Vec::new();
    match lzma_rust2::XzReader::new(stream, false).read_to_end(&mut out) {
        Ok(_) => Ok(out),
        Err(e) => Err(e.to_string()),
    }
}

/// Decodes an LZ4 block with `lz4_flex::block::decompress(block, capacity)` (the panic-free
/// decoder that the crate builds by default). Claimed: the result depends on the two arguments
/// alone. `capacity` is kept within `isize::MAX`, where the crate's `vec![0; capacity]` cannot
/// panic; an allocation that the machine cannot serve still aborts, which nothing here states.
#[verifier::external_body]
fn lz4_decompress(block: &[u8], capacity: usize) -> (out: Result<Vec<u8>, String>)
    requires
        capacity <= isize::MAX,
    ensures
        out matches Ok(v) ==> lz4_block_decoded(block@, capacity) == Some(v@),
        out is Err ==> lz4_block_decoded(block@, capacity) is None,
{
    lz4_flex::block::decompress(block, capacity).map_err(|e| e.to_string())
}

/// Decodes a Zstandard frame with `ruzstd::decoding::StreamingDecoder::new(frame)` read to its
/// end. Claimed: the result depends on `frame` alone.
#[verifier::external_body]
fn zstd_decompress(frame: &[u8]) -> (out: Result<Vec<u8>, String>)
    ensures
        out matches Ok(v) ==> zstd_decoded(frame@) == Some(v@),
        out is Err ==> zstd_decoded(frame@) is None,
{
    let mut out = Vec::new();
    match ruzstd::decoding::StreamingDecoder::new(frame) {
        Ok(mut decoder) => match decoder.read_to_end(&mut out) {
            Ok(_) => Ok(out),
            Err(e) => Err(e.to_string()),
        },
        Err(e) => Err(e.to_string()),
    }
}

/// The text of bytes read as UTF-8: the characters they encode where they are valid UTF-8,
/// else the text with each invalid sequence replaced by U+FFFD.
pub open spec fn lossy_text(bytes: Seq<u8>) -> Seq<char> {
    if vstd::utf8::valid_utf8(bytes) {
        vstd::utf8::decode_utf8(bytes)
    } else {
        utf8_lossy(bytes)
    }
}

/// `String::from_utf8_lossy(bytes).into_owned()`. Claimed, as std documents: the text depends
/// on `bytes` alone, and valid UTF-8 comes back unchanged.
#[verifier::external_body]
pub(crate) fn from_utf8_lossy(bytes: &[u8]) -> (text: String)
    ensures
        text@ == utf8_lossy(bytes@),
        vstd::utf8::valid_utf8(bytes@) ==> text@ == vstd::utf8::decode_utf8(bytes@),
{
    String::from_utf8_lossy(bytes).into_owned()
}

/// Why a DATA payload could not be decompressed.
#[derive(Debug)]
pub enum DecompressError {
    /// The LZ4 payload is shorter than its eight-byte length prefix.
    TruncatedLz4,
    /// The LZ4 length prefix is larger than any buffer can be.
    Lz4SizeOutOfRange,
    Xz(String),
    Lz4(String),
    Zstd(String),
    /// More than one compression flag is set.
    SeveralCompressionFlags,
}

/// The compression bits of an object's flags.
pub open spec fn compression(flags: u8) -> u8 {
    flags & 7
}

/// The decompressed payload, or `None` where decompression fails.
pub open spec fn decompressed(blob: Seq<u8>, flags: u8) -> Option<Seq<u8>> {
    let bits = compression(flags);
    if bits == 0 {
        Some(blob)
    } else if bits == OBJECT_COMPRESSED_XZ {
        xz_decoded(blob)
    } else if bits == OBJECT_COMPRESSED_LZ4 {
        match le_at(blob, 0, 8) {
            Some(size) => if size <= isize::MAX {
                lz4_block_decoded(blob.skip(8), size as usize)
            } else {
                None
            },
            None => None,
        }
    } else if bits == OBJECT_COMPRESSED_ZSTD {
        zstd_decoded(blob)
    } else {
        None
    }
}

/// Decompresses a DATA payload according to the compression bits of `flags`: none, XZ, LZ4
/// (with its little-endian 64-bit length prefix) or Zstandard.
pub fn decompress(blob: &[u8], flags: u8) -> (out: Result<Vec<u8>, DecompressError>)
    ensures
        out matches Ok(v) ==> decompressed(blob@, flags) == Some(v@),
        out is Err ==> decompressed(blob@, flags) is None,
        out matches Err(DecompressError::SeveralCompressionFlags) <==> (compression(flags) != 0
            && compression(flags) != OBJECT_COMPRESSED_XZ && compression(flags)
            != OBJECT_COMPRESSED_LZ4 && compression(flags) != OBJECT_COMPRESSED_ZSTD),
        out matches Err(DecompressError::TruncatedLz4) <==> (compression(flags)
            == OBJECT_COMPRESSED_LZ4 && blob@.len() < 8),
        out matches Err(DecompressError::Lz4SizeOutOfRange) <==> (compression(flags)
            == OBJECT_COMPRESSED_LZ4 && (le_at(blob@, 0, 8) matches Some(size) && size
            > isize::MAX)),
        out matches Err(DecompressError::Xz(_)) <==> (compression(flags) == OBJECT_COMPRESSED_XZ
            && xz_decoded(blob@) is None),
        out matches Err(DecompressError::Zstd(_)) <==> (compression(flags)
            == OBJECT_COMPRESSED_ZSTD && zstd_decoded(blob@) is None),
{
    let bits = flags & 7;
    if bits == 0 {
        Ok(vstd::slice::slice_to_vec(blob))
    } else if bits == OBJECT_COMPRESSED_XZ {
        match xz_decompress(blob) {
            Ok(out) => Ok(out),
            Err(e) => Err(DecompressError::Xz(e)),
        }
    } else if bits == OBJECT_COMPRESSED_LZ4 {
        let size = match le(blob, 0, 0, 8) {
            Some(size) => size,
            None => return Err(DecompressError::TruncatedLz4),
        };
        if size > isize::MAX as u64 {
            return Err(DecompressError::Lz4SizeOutOfRange);
        }
        let block = vstd::slice::slice_subrange(blob, 8, blob.len());
        match lz4_decompress(block, size as usize) {
            Ok(out) => Ok(out),
            Err(e) => Err(DecompressError::Lz4(e)),
        }
    } else if bits == OBJECT_COMPRESSED_ZSTD {
        match zstd_decompress(blob) {
            Ok(out) => Ok(out),
            Err(e) => Err(DecompressError::Zstd(e)),
        }
    } else {
        Err(DecompressError::SeveralCompressionFlags)
    }
}


/// Where a DATA object's payload starts, counted from the object.
pub open spec fn payload_offset(compact: bool) -> int {
    if compact {
        DATA_PAYLOAD_OFFSET_COMPACT as int
    } else {
        DATA_PAYLOAD_OFFSET as int
    }
}

/// The `FIELD=value` text of the DATA object at `data`: its payload, between the payload
/// offset and the object's size, decompressed and read as UTF-8; `None` where any of that
/// lies outside `buf` or fails to decompress.
pub open spec fn field_text(buf: Seq<u8>, data: u64, compact: bool) -> Option<Seq<char>> {
    match (le_at(buf, data + OBJECT_SIZE_OFFSET, 8), le_at(buf, data + OBJECT_FLAGS_OFFSET, 1)) {
        (Some(size), Some(flags)) => {
            let start = data + payload_offset(compact);
            let end = data + size;
            if start <= end && end <= buf.len() {
                match decompressed(buf.subrange(start, end), flags as u8) {
                    Some(payload) => Some(lossy_text(payload)),
                    None => None,
                }
            } else {
                None
            }
        },
        _ => None,
    }
}

/// The `FIELD=value` text of one DATA object, decompressed if it was stored that way.
fn field(buf: &[u8], data: u64, compact: bool) -> (text: Option<String>)
    ensures
        text matches Some(t) ==> field_text(buf@, data, compact) == Some(t@),
        text is None ==> field_text(buf@, data, compact) is None,
{
    let payload = if compact {
        DATA_PAYLOAD_OFFSET_COMPACT
    } else {
        DATA_PAYLOAD_OFFSET
    };
    let len = buf.len();
    let start = match data.checked_add(payload) {
        Some(start) => start,
        None => return None,
    };
    let size = match le(buf, data, OBJECT_SIZE_OFFSET, 8) {
        Some(size) => size,
        None => return None,
    };
    let end = match data.checked_add(size) {
        Some(end) => end,
        None => {
            assert(data + size > len) by {
                assert(usize::MAX <= u64::MAX);
            }
            return None;
        },
    };
    let flags = match le(buf, data, OBJECT_FLAGS_OFFSET, 1) {
        Some(flags) => flags as u8,
        None => return None,
    };
    proof {
        lemma_le_value_bound(buf@.subrange(data + OBJECT_FLAGS_OFFSET, data + OBJECT_FLAGS_OFFSET + 1));
        reveal_with_fuel(byte_span, 2);
    }
    if start > end || end > len as u64 {
        return None;
    }
    let blob = vstd::slice::slice_subrange(buf, start as usize, end as usize);
    match decompress(blob, flags) {
        Ok(payload) => Some(from_utf8_lossy(payload.as_slice())),
        Err(_) => None,
    }
}

/// Why an ENTRY object could not be read.
#[derive(Debug, Clone, Copy, PartialEq, Eq, Structural)]
pub enum EntryError {
    OffsetOutOfRange,
    Truncated,
    SizeOutOfRange,
    ShorterThanHeader,
    NotAnEntry,
}

/// Bytes between an entry's item references.
pub open spec fn item_stride(compact: bool) -> int {
    if compact {
        ENTRY_ITEM_SIZE_COMPACT as int
    } else {
        ENTRY_ITEM_SIZE as int
    }
}

/// The DATA offset held by item `k` of an entry: four bytes in compact files, eight otherwise.
pub open spec fn item_data(entry: Seq<u8>, compact: bool, k: int) -> u64 {
    let at = ENTRY_ITEMS_OFFSET + k * item_stride(compact);
    le_value(entry.subrange(at, at + if compact { 4int } else { 8int })) as u64
}

/// The number of whole items that fit in an entry of `size` bytes.
pub open spec fn item_count(size: int, compact: bool) -> int {
    (size - ENTRY_ITEMS_OFFSET) / item_stride(compact)
}

/// The texts of the first `n` items of an entry, items whose DATA object cannot be read
/// left out.
pub open spec fn entry_fields(buf: Seq<u8>, entry: Seq<u8>, compact: bool, n: nat) -> Seq<Seq<char>>
    decreases n,
{
    if n == 0 {
        Seq::empty()
    } else {
        let before = entry_fields(buf, entry, compact, (n - 1) as nat);
        match field_text(buf, item_data(entry, compact, n - 1), compact) {
            Some(text) => before.push(text),
            None => before,
        }
    }
}

/// The ENTRY object at `offset` of `buf`, or why it cannot be read.
pub open spec fn entry_at(buf: Seq<u8>, offset: u64, compact: bool) -> Result<EntryView, EntryError> {
    if offset > usize::MAX {
        Err(EntryError::OffsetOutOfRange)
    } else {
        match le_at(buf, offset + OBJECT_SIZE_OFFSET, 8) {
            None => Err(EntryError::Truncated),
            Some(size) => if size > usize::MAX {
                Err(EntryError::SizeOutOfRange)
            } else if offset + size > usize::MAX {
                Err(EntryError::Truncated)
            } else if offset + size > buf.len() || size < ENTRY_ITEMS_OFFSET {
                Err(EntryError::ShorterThanHeader)
            } else {
                let entry = buf.subrange(offset as int, offset + size);
                if entry[0] != OBJECT_ENTRY {
                    Err(EntryError::NotAnEntry)
                } else {
                    Ok(EntryView {
                        object_type: entry[0],
                        flags: entry[1],
                        reserved: entry.subrange(2, 8),
                        size: le_value(entry.subrange(8, 16)) as u64,
                        seqnum: le_value(entry.subrange(16, 24)) as u64,
                        realtime: le_value(entry.subrange(24, 32)) as u64,
                        monotonic: le_value(entry.subrange(32, 40)) as u64,
                        boot_id: entry.subrange(40, 56),
                        xor_hash: le_value(entry.subrange(56, 64)) as u64,
                        data_offsets: Seq::new(
                            item_count(size as int, compact) as nat,
                            |k: int| item_data(entry, compact, k),
                        ),
                        fields: entry_fields(buf, entry, compact, item_count(size as int, compact) as nat),
                    })
                }
            },
        }
    }
}

/// The entry at `offset`, with the offsets of the DATA objects holding its fields and the
/// texts of those objects.
pub fn parse_entry(buf: &[u8], offset: u64, compact: bool) -> (entry: Result<EntryObject, EntryError>)
    ensures
        entry matches Ok(e) ==> entry_at(buf@, offset, compact) == Ok::<EntryView, EntryError>(e@),
        entry matches Err(why) ==> entry_at(buf@, offset, compact) == Err::<EntryView, EntryError>(why),
{
    let len = buf.len();
    if offset > usize::MAX as u64 {
        return Err(EntryError::OffsetOutOfRange);
    }
    let start = offset as usize;
    let size = match le(buf, offset, OBJECT_SIZE_OFFSET, 8) {
        Some(size) => size,
        None => return Err(EntryError::Truncated),
    };
    if size > usize::MAX as u64 {
        return Err(EntryError::SizeOutOfRange);
    }
    let size = size as usize;
    let end = match start.checked_add(size) {
        Some(end) => end,
        None => return Err(EntryError::Truncated),
    };
    if end > len || size < ENTRY_ITEMS_OFFSET {
        return Err(EntryError::ShorterThanHeader);
    }
    let entry = vstd::slice::slice_subrange(buf, start, end);
    let mut at = Cursor { buf: entry, at: 0 };
    let object_type = at.u8();
    let flags = at.u8();
    let reserved = vstd::slice::slice_to_vec(at.take(6));
    let object_size = at.u64();
    let object = ObjectHeader { object_type, flags, reserved, size: object_size };
    if object.object_type != OBJECT_ENTRY {
        return Err(EntryError::NotAnEntry);
    }
    let seqnum = at.u64();
    let realtime = at.u64();
    let monotonic = at.u64();
    let boot_id = vstd::slice::slice_to_vec(at.take(16));
    let xor_hash = at.u64();
    let stride = if compact {
        ENTRY_ITEM_SIZE_COMPACT
    } else {
        ENTRY_ITEM_SIZE
    };
    let ghost count = item_count(size as int, compact);
    let mut fields: Vec<String> = Vec::new();
    let mut data_offsets: Vec<u64> = Vec::new();
    let mut k: usize = 0;
    proof {
        assert(fields@.map_values(|f: String| f@) =~= entry_fields(buf@, entry@, compact, 0));
    }
    while stride <= size - at.at
        invariant
            at.buf == entry,
            entry@ == buf@.subrange(start as int, start + size),
            entry@.len() == size,
            size >= ENTRY_ITEMS_OFFSET,
            stride == item_stride(compact),
            at.at == ENTRY_ITEMS_OFFSET + k * stride,
            at.at <= size,
            k <= count,
            count == item_count(size as int, compact),
            fields@.map_values(|f: String| f@) =~= entry_fields(buf@, entry@, compact, k as nat),
            data_offsets@ =~= Seq::new(k as nat, |j: int| item_data(entry@, compact, j)),
        decreases size - at.at,
    {
        let item = at.at;
        let data = if compact {
            at.u32() as u64
        } else {
            at.u64()
        };
        at.at = item + stride;
        let text = field(buf, data, compact);
        proof {
            assert(data == item_data(entry@, compact, k as int));
            assert((k + 1) * stride == k * stride + stride) by (nonlinear_arith);
        }
        match text {
            Some(text) => fields.push(text),
            None => {},
        }
        data_offsets.push(data);
        k = k + 1;
        proof {
            assert(k <= count) by (nonlinear_arith)
                requires
                    ENTRY_ITEMS_OFFSET + k * stride <= size,
                    stride > 0,
                    count == (size - ENTRY_ITEMS_OFFSET) as int / stride as int,
            ;
            assert(fields@.map_values(|f: String| f@) =~= entry_fields(buf@, entry@, compact, k as nat));
        }
    }
    proof {
        assert(k == count) by (nonlinear_arith)
            requires
                at.at == ENTRY_ITEMS_OFFSET + k * stride,
                stride > size - at.at,
                at.at <= size,
                count == (size - ENTRY_ITEMS_OFFSET) as int / stride as int,
                stride > 0,
        ;
    }
    Ok(EntryObject { object, seqnum, realtime, monotonic, boot_id, xor_hash, data_offsets, fields })
}


/// Why a file is not read as a journal.
#[derive(Debug, Clone, Copy, PartialEq, Eq, Structural)]
pub enum HeaderError {
    /// The file ends before the header does.
    TooShort,
    /// The file does not start with the journal signature.
    NotAJournal,
    /// The header size is below the smallest header or beyond the file.
    ImplausibleHeaderSize,
}

/// The header bytes as the reader decodes them: the first `HEADER_SIZE` bytes of the file,
/// with those past the file's own `header_size` read as zero, since an older, shorter header is
/// followed by arena content rather than by the newer fields.
pub open spec fn header_bytes(file: Seq<u8>, header_size: nat) -> Seq<u8> {
    Seq::new(HEADER_SIZE as nat, |i: int| if i < header_size { file[i] } else { 0u8 })
}

/// The header fields that the bytes `h` encode.
pub open spec fn header_of(h: Seq<u8>) -> HeaderView {
    HeaderView {
        signature: h.subrange(0, 8),
        compatible_flags: le_value(h.subrange(8, 12)) as u32,
        incompatible_flags: le_value(h.subrange(12, 16)) as u32,
        state: h[16],
        reserved: h.subrange(17, 24),
        file_id: h.subrange(24, 40),
        machine_id: h.subrange(40, 56),
        tail_entry_boot_id: h.subrange(56, 72),
        seqnum_id: h.subrange(72, 88),
        header_size: le_value(h.subrange(88, 96)) as u64,
        arena_size: le_value(h.subrange(96, 104)) as u64,
        data_hash_table_offset: le_value(h.subrange(104, 112)) as u64,
        data_hash_table_size: le_value(h.subrange(112, 120)) as u64,
        field_hash_table_offset: le_value(h.subrange(120, 128)) as u64,
        field_hash_table_size: le_value(h.subrange(128, 136)) as u64,
        tail_object_offset: le_value(h.subrange(136, 144)) as u64,
        n_objects: le_value(h.subrange(144, 152)) as u64,
        n_entries: le_value(h.subrange(152, 160)) as u64,
        tail_entry_seqnum: le_value(h.subrange(160, 168)) as u64,
        head_entry_seqnum: le_value(h.subrange(168, 176)) as u64,
        entry_array_offset: le_value(h.subrange(176, 184)) as u64,
        head_entry_realtime: le_value(h.subrange(184, 192)) as u64,
        tail_entry_realtime: le_value(h.subrange(192, 200)) as u64,
        tail_entry_monotonic: le_value(h.subrange(200, 208)) as u64,
        n_data: le_value(h.subrange(208, 216)) as u64,
        n_fields: le_value(h.subrange(216, 224)) as u64,
        n_tags: le_value(h.subrange(224, 232)) as u64,
        n_entry_arrays: le_value(h.subrange(232, 240)) as u64,
        data_hash_chain_depth: le_value(h.subrange(240, 248)) as u64,
        field_hash_chain_depth: le_value(h.subrange(248, 256)) as u64,
        tail_entry_array_offset: le_value(h.subrange(256, 260)) as u32,
        tail_entry_array_n_entries: le_value(h.subrange(260, 264)) as u32,
        tail_entry_offset: le_value(h.subrange(264, 272)) as u64,
    }
}

/// The header of the journal file `file`, or why it is not one.
pub open spec fn header_at(file: Seq<u8>) -> Result<HeaderView, HeaderError> {
    if file.len() < HEADER_SIZE {
        Err(HeaderError::TooShort)
    } else if file.subrange(0, 8) != signature() {
        Err(HeaderError::NotAJournal)
    } else {
        let header_size = le_value(file.subrange(88, 96));
        if header_size < HEADER_SIZE_MIN || header_size > file.len() {
            Err(HeaderError::ImplausibleHeaderSize)
        } else {
            Ok(header_of(header_bytes(file, header_size)))
        }
    }
}

/// Decodes the header of the journal file whose bytes are `file`.
pub fn parse_header(file: &[u8]) -> (header: Result<Header, HeaderError>)
    ensures
        header matches Ok(h) ==> header_at(file@) == Ok::<HeaderView, HeaderError>(h@),
        header matches Err(why) ==> header_at(file@) == Err::<HeaderView, HeaderError>(why),
{
    let len = file.len();
    if len < HEADER_SIZE {
        return Err(HeaderError::TooShort);
    }
    let magic: [u8; 8] = [0x4c, 0x50, 0x4b, 0x53, 0x48, 0x48, 0x52, 0x48];
    let mut i: usize = 0;
    while i < 8
        invariant
            0 <= i <= 8,
            len == file@.len() >= HEADER_SIZE,
            magic@ == signature(),
            forall|j: int| 0 <= j < i ==> file@[j] == signature()[j],
        decreases 8 - i,
    {
        if file[i] != magic[i] {
            assert(file@.subrange(0, 8)[i as int] != signature()[i as int]);
            return Err(HeaderError::NotAJournal);
        }
        i = i + 1;
    }
    assert(file@.subrange(0, 8) =~= signature());
    let declared = match le(file, 88, 0, 8) {
        Some(size) => size,
        None => return Err(HeaderError::TooShort),
    };
    if declared < HEADER_SIZE_MIN || declared > len as u64 {
        return Err(HeaderError::ImplausibleHeaderSize);
    }
    let keep = declared as usize;
    let mut head: Vec<u8> = Vec::new();
    let mut i: usize = 0;
    while i < HEADER_SIZE
        invariant
            0 <= i <= HEADER_SIZE,
            len == file@.len() >= HEADER_SIZE,
            keep == declared,
            head@ =~= header_bytes(file@, keep as nat).subrange(0, i as int),
        decreases HEADER_SIZE - i,
    {
        head.push(if i < keep { file[i] } else { 0 });
        i = i + 1;
    }
    let ghost h = header_bytes(file@, keep as nat);
    assert(head@ =~= h);
    let mut at = Cursor { buf: head.as_slice(), at: 0 };
    let signature = vstd::slice::slice_to_vec(at.take(8));
    let compatible_flags = at.u32();
    let incompatible_flags = at.u32();
    let state = at.u8();
    let reserved = vstd::slice::slice_to_vec(at.take(7));
    let file_id = vstd::slice::slice_to_vec(at.take(16));
    let machine_id = vstd::slice::slice_to_vec(at.take(16));
    let tail_entry_boot_id = vstd::slice::slice_to_vec(at.take(16));
    let seqnum_id = vstd::slice::slice_to_vec(at.take(16));
    let header_size = at.u64();
    let arena_size = at.u64();
    let data_hash_table_offset = at.u64();
    let data_hash_table_size = at.u64();
    let field_hash_table_offset = at.u64();
    let field_hash_table_size = at.u64();
    let tail_object_offset = at.u64();
    let n_objects = at.u64();
    let n_entries = at.u64();
    let tail_entry_seqnum = at.u64();
    let head_entry_seqnum = at.u64();
    let entry_array_offset = at.u64();
    let head_entry_realtime = at.u64();
    let tail_entry_realtime = at.u64();
    let tail_entry_monotonic = at.u64();
    let n_data = at.u64();
    let n_fields = at.u64();
    let n_tags = at.u64();
    let n_entry_arrays = at.u64();
    let data_hash_chain_depth = at.u64();
    let field_hash_chain_depth = at.u64();
    let tail_entry_array_offset = at.u32();
    let tail_entry_array_n_entries = at.u32();
    let tail_entry_offset = at.u64();
    Ok(Header {
        signature,
        compatible_flags,
        incompatible_flags,
        state,
        reserved,
        file_id,
        machine_id,
        tail_entry_boot_id,
        seqnum_id,
        header_size,
        arena_size,
        data_hash_table_offset,
        data_hash_table_size,
        field_hash_table_offset,
        field_hash_table_size,
        tail_object_offset,
        n_objects,
        n_entries,
        tail_entry_seqnum,
        head_entry_seqnum,
        entry_array_offset,
        head_entry_realtime,
        tail_entry_realtime,
        tail_entry_monotonic,
        n_data,
        n_fields,
        n_tags,
        n_entry_arrays,
        data_hash_chain_depth,
        field_hash_chain_depth,
        tail_entry_array_offset,
        tail_entry_array_n_entries,
        tail_entry_offset,
    })
}

} // verus!
