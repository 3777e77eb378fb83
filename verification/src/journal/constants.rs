//! Layout of the systemd journal file format: the file header, the object header, and the
//! offsets and flags that the reader relies on.
use vstd::prelude::*;

verus! {

/// The header that starts every object in a journal file.
pub struct ObjectHeader {
    pub object_type: u8,
    pub flags: u8,
    pub reserved: Vec<u8>,
    pub size: u64,
}

/// The journal file header, as the reader decodes it: fields the file's own header does not
/// cover read as zero.
pub struct Header {
    pub signature: Vec<u8>,
    pub compatible_flags: u32,
    pub incompatible_flags: u32,
    pub state: u8,
    pub reserved: Vec<u8>,
    pub file_id: Vec<u8>,
    pub machine_id: Vec<u8>,
    pub tail_entry_boot_id: Vec<u8>,
    pub seqnum_id: Vec<u8>,
    pub header_size: u64,
    pub arena_size: u64,
    pub data_hash_table_offset: u64,
    pub data_hash_table_size: u64,
    pub field_hash_table_offset: u64,
    pub field_hash_table_size: u64,
    pub tail_object_offset: u64,
    pub n_objects: u64,
    pub n_entries: u64,
    pub tail_entry_seqnum: u64,
    pub head_entry_seqnum: u64,
    pub entry_array_offset: u64,
    pub head_entry_realtime: u64,
    pub tail_entry_realtime: u64,
    pub tail_entry_monotonic: u64,
    pub n_data: u64,
    pub n_fields: u64,
    pub n_tags: u64,
    pub n_entry_arrays: u64,
    pub data_hash_chain_depth: u64,
    pub field_hash_chain_depth: u64,
    pub tail_entry_array_offset: u32,
    pub tail_entry_array_n_entries: u32,
    pub tail_entry_offset: u64,
}

/// Bytes of the file header that the reader decodes.
pub const HEADER_SIZE: usize = 272;

/// "LPKSHHRH", the first eight bytes of every journal file.
pub open spec fn signature() -> Seq<u8> {
    seq![0x4cu8, 0x50, 0x4b, 0x53, 0x48, 0x48, 0x52, 0x48]
}

pub const HEADER_SIZE_OFFSET: usize = 88;

pub const HEADER_SIZE_MIN: u64 = 208;

pub const HEADER_INCOMPATIBLE_COMPACT: u32 = 16;

pub const OBJECT_ENTRY: u8 = 3;

pub const OBJECT_COMPRESSED_XZ: u8 = 1;

pub const OBJECT_COMPRESSED_LZ4: u8 = 2;

pub const OBJECT_COMPRESSED_ZSTD: u8 = 4;

pub const OBJECT_FLAGS_OFFSET: u64 = 1;

pub const OBJECT_SIZE_OFFSET: u64 = 8;

pub const DATA_PAYLOAD_OFFSET: u64 = 64;

pub const DATA_PAYLOAD_OFFSET_COMPACT: u64 = 72;

pub const ENTRY_ARRAY_NEXT_OFFSET: u64 = 16;

pub const ENTRY_ARRAY_ITEMS_OFFSET: u64 = 24;

pub const ENTRY_ARRAY_ITEM_SIZE: usize = 8;

pub const ENTRY_ARRAY_ITEM_SIZE_COMPACT: usize = 4;

pub const ENTRY_ITEMS_OFFSET: usize = 64;

pub const ENTRY_ITEM_SIZE: usize = 16;

pub const ENTRY_ITEM_SIZE_COMPACT: usize = 4;

/// An ENTRY object: its header, its fixed fields, the offsets of the DATA objects holding its
/// fields (one per item, in item order), and the `FIELD=value` texts of those that can be read.
pub struct EntryObject {
    pub object: ObjectHeader,
    pub seqnum: u64,
    pub realtime: u64,
    pub monotonic: u64,
    pub boot_id: Vec<u8>,
    pub xor_hash: u64,
    pub data_offsets: Vec<u64>,
    pub fields: Vec<String>,
}

/// An ENTRY object as plain values.
pub struct EntryView {
    pub object_type: u8,
    pub flags: u8,
    pub reserved: Seq<u8>,
    pub size: u64,
    pub seqnum: u64,
    pub realtime: u64,
    pub monotonic: u64,
    pub boot_id: Seq<u8>,
    pub xor_hash: u64,
    pub data_offsets: Seq<u64>,
    pub fields: Seq<Seq<char>>,
}

impl View for EntryObject {
    type V = EntryView;

    open spec fn view(&self) -> EntryView {
        EntryView {
            object_type: self.object.object_type,
            flags: self.object.flags,
            reserved: self.object.reserved@,
            size: self.object.size,
            seqnum: self.seqnum,
            realtime: self.realtime,
            monotonic: self.monotonic,
            boot_id: self.boot_id@,
            xor_hash: self.xor_hash,
            data_offsets: self.data_offsets@,
            fields: self.fields@.map_values(|f: String| f@),
        }
    }
}


/// The file header as plain values.
pub struct HeaderView {
    pub signature: Seq<u8>,
    pub compatible_flags: u32,
    pub incompatible_flags: u32,
    pub state: u8,
    pub reserved: Seq<u8>,
    pub file_id: Seq<u8>,
    pub machine_id: Seq<u8>,
    pub tail_entry_boot_id: Seq<u8>,
    pub seqnum_id: Seq<u8>,
    pub header_size: u64,
    pub arena_size: u64,
    pub data_hash_table_offset: u64,
    pub data_hash_table_size: u64,
    pub field_hash_table_offset: u64,
    pub field_hash_table_size: u64,
    pub tail_object_offset: u64,
    pub n_objects: u64,
    pub n_entries: u64,
    pub tail_entry_seqnum: u64,
    pub head_entry_seqnum: u64,
    pub entry_array_offset: u64,
    pub head_entry_realtime: u64,
    pub tail_entry_realtime: u64,
    pub tail_entry_monotonic: u64,
    pub n_data: u64,
    pub n_fields: u64,
    pub n_tags: u64,
    pub n_entry_arrays: u64,
    pub data_hash_chain_depth: u64,
    pub field_hash_chain_depth: u64,
    pub tail_entry_array_offset: u32,
    pub tail_entry_array_n_entries: u32,
    pub tail_entry_offset: u64,
}

impl View for Header {
    type V = HeaderView;

    open spec fn view(&self) -> HeaderView {
        HeaderView {
            signature: self.signature@,
            compatible_flags: self.compatible_flags,
            incompatible_flags: self.incompatible_flags,
            state: self.state,
            reserved: self.reserved@,
            file_id: self.file_id@,
            machine_id: self.machine_id@,
            tail_entry_boot_id: self.tail_entry_boot_id@,
            seqnum_id: self.seqnum_id@,
            header_size: self.header_size,
            arena_size: self.arena_size,
            data_hash_table_offset: self.data_hash_table_offset,
            data_hash_table_size: self.data_hash_table_size,
            field_hash_table_offset: self.field_hash_table_offset,
            field_hash_table_size: self.field_hash_table_size,
            tail_object_offset: self.tail_object_offset,
            n_objects: self.n_objects,
            n_entries: self.n_entries,
            tail_entry_seqnum: self.tail_entry_seqnum,
            head_entry_seqnum: self.head_entry_seqnum,
            entry_array_offset: self.entry_array_offset,
            head_entry_realtime: self.head_entry_realtime,
            tail_entry_realtime: self.tail_entry_realtime,
            tail_entry_monotonic: self.tail_entry_monotonic,
            n_data: self.n_data,
            n_fields: self.n_fields,
            n_tags: self.n_tags,
            n_entry_arrays: self.n_entry_arrays,
            data_hash_chain_depth: self.data_hash_chain_depth,
            field_hash_chain_depth: self.field_hash_chain_depth,
            tail_entry_array_offset: self.tail_entry_array_offset,
            tail_entry_array_n_entries: self.tail_entry_array_n_entries,
            tail_entry_offset: self.tail_entry_offset,
        }
    }
}

} // verus!
