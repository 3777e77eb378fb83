//! Opening a journal file: its header, and the entries that its entry arrays reference, in
//! order.
use vstd::prelude::*;
use super::constants::{
    EntryObject, EntryView, Header, HeaderView, ENTRY_ARRAY_ITEMS_OFFSET, ENTRY_ARRAY_ITEM_SIZE,
    ENTRY_ARRAY_ITEM_SIZE_COMPACT, ENTRY_ARRAY_NEXT_OFFSET, HEADER_INCOMPATIBLE_COMPACT,
    OBJECT_SIZE_OFFSET,
};
use super::parser_utils::{
    entry_at, header_at, le, le_at, parse_entry, parse_header, EntryError, HeaderError,
};

verus! {

/// Bytes per entry reference in an entry array.
pub open spec fn slot_width(compact: bool) -> int {
    if compact {
        ENTRY_ARRAY_ITEM_SIZE_COMPACT as int
    } else {
        ENTRY_ARRAY_ITEM_SIZE as int
    }
}

/// How many references an entry array of `size` bytes holds.
pub open spec fn slots_in(size: u64, compact: bool) -> int {
    if size >= ENTRY_ARRAY_ITEMS_OFFSET {
        (size - ENTRY_ARRAY_ITEMS_OFFSET) / slot_width(compact)
    } else {
        0
    }
}

/// How many references the entry array at `array` holds, zero where its size cannot be read.
pub open spec fn array_slots(buf: Seq<u8>, array: u64, compact: bool) -> int {
    match le_at(buf, array + OBJECT_SIZE_OFFSET, 8) {
        Some(size) => slots_in(size, compact),
        None => 0,
    }
}

/// Where a walk through the chain of entry arrays stands: the array, the next slot in it, and
/// how many more hops to a following array are allowed.
pub struct Position {
    pub array: u64,
    pub item: u64,
    pub hops: u64,
}

/// The next entry from position `p`: the offset of the first referenced, non-zero, readable
/// ENTRY object at or after it, walking each array's slots in order and then the array its
/// "next" field names, and the position just past that entry. `None` where the chain ends
/// (an array offset of zero, an array whose size or "next" field cannot be read, or no hops
/// left), with the position where it ended.
pub open spec fn next_entry(buf: Seq<u8>, compact: bool, p: Position) -> (Option<u64>, Position)
    decreases p.hops, array_slots(buf, p.array, compact) - p.item,
{
    if p.array == 0 || p.hops == 0 {
        (None, p)
    } else {
        match le_at(buf, p.array + OBJECT_SIZE_OFFSET, 8) {
            None => (None, p),
            Some(size) => if p.item >= slots_in(size, compact) {
                match le_at(buf, p.array + ENTRY_ARRAY_NEXT_OFFSET, 8) {
                    None => (None, p),
                    Some(next) => next_entry(
                        buf,
                        compact,
                        Position { array: next, item: 0, hops: (p.hops - 1) as u64 },
                    ),
                }
            } else {
                let after = Position { array: p.array, item: (p.item + 1) as u64, hops: p.hops };
                let slot = le_at(
                    buf,
                    p.array + ENTRY_ARRAY_ITEMS_OFFSET + p.item * slot_width(compact),
                    slot_width(compact),
                );
                if slot matches Some(offset) && offset != 0 && entry_at(buf, offset, compact) is Ok {
                    (slot, after)
                } else {
                    next_entry(buf, compact, after)
                }
            },
        }
    }
}

/// The entries of a journal, read in the order its entry arrays list them.
pub struct Entries {
    pub buf: Vec<u8>,
    pub array: u64,
    pub item: u64,
    pub compact: bool,
    /// Hops to a following entry array still allowed: each move to the next array of the chain
    /// spends one, and the walk ends when none is left. `parse` allows as many hops as the file
    /// has bytes, which is enough for every chain without repeats (each array lies inside the
    /// file), so a chain that loops back ends instead of repeating forever. A walk built by hand
    /// with fewer hops than its chain has arrays stops early.
    pub hops: u64,
}

impl Entries {
    /// Where this walk stands.
    pub open spec fn position(&self) -> Position {
        Position { array: self.array, item: self.item, hops: self.hops }
    }

    /// The next entry, or `None` once the chain of entry arrays ends. Journald preallocates
    /// arrays, so zero slots are skipped, and so are references to objects that cannot be read
    /// as entries.
    pub fn next(&mut self) -> (entry: Option<EntryObject>)
        ensures
            final(self).buf@ == old(self).buf@,
            final(self).compact == old(self).compact,
            final(self).position() == next_entry(old(self).buf@, old(self).compact, old(self).position()).1,
            entry is Some <==> next_entry(old(self).buf@, old(self).compact, old(self).position()).0 is Some,
            entry matches Some(e) ==> entry_at(
                old(self).buf@,
                next_entry(old(self).buf@, old(self).compact, old(self).position()).0->Some_0,
                old(self).compact,
            ) == Ok::<EntryView, EntryError>(e@),
    {
        let ghost start = self.position();
        let ghost outcome = next_entry(self.buf@, self.compact, start);
        let width = if self.compact {
            ENTRY_ARRAY_ITEM_SIZE_COMPACT
        } else {
            ENTRY_ARRAY_ITEM_SIZE
        };
        loop
            invariant
                self.buf@ == old(self).buf@,
                self.compact == old(self).compact,
                width == slot_width(self.compact),
                start == old(self).position(),
                outcome == next_entry(old(self).buf@, old(self).compact, start),
                next_entry(self.buf@, self.compact, self.position()) == outcome,
            decreases self.hops, array_slots(self.buf@, self.array, self.compact) - self.item,
        {
            if self.array == 0 || self.hops == 0 {
                assert(next_entry(self.buf@, self.compact, self.position()).1 == self.position());
                return None;
            }
            let size = match le(self.buf.as_slice(), self.array, OBJECT_SIZE_OFFSET, 8) {
                Some(size) => size,
                None => {
                    assert(next_entry(self.buf@, self.compact, self.position()).1 == self.position());
                    return None;
                },
            };
            let count = size.saturating_sub(ENTRY_ARRAY_ITEMS_OFFSET) / width as u64;
            if self.item >= count {
                let next = match le(self.buf.as_slice(), self.array, ENTRY_ARRAY_NEXT_OFFSET, 8) {
                    Some(next) => next,
                    None => {
                        assert(next_entry(self.buf@, self.compact, self.position()).1 == self.position());
                        return None;
                    },
                };
                self.array = next;
                self.item = 0;
                self.hops = self.hops - 1;
                continue;
            }
            proof {
                assert(self.item * width + width <= size - ENTRY_ARRAY_ITEMS_OFFSET) by (nonlinear_arith)
                    requires
                        self.item < count,
                        count == (size - ENTRY_ARRAY_ITEMS_OFFSET) as int / width as int,
                        size >= ENTRY_ARRAY_ITEMS_OFFSET,
                        width > 0,
                ;
            }
            let field = ENTRY_ARRAY_ITEMS_OFFSET + self.item * width as u64;
            self.item = self.item + 1;
            match le(self.buf.as_slice(), self.array, field, width) {
                Some(offset) => {
                    if offset != 0 {
                        match parse_entry(self.buf.as_slice(), offset, self.compact) {
                            Ok(entry) => return Some(entry),
                            Err(_) => {},
                        }
                    }
                },
                None => {},
            }
        }
    }
}

/// An opened journal: its header and its entries.
pub struct Journal {
    pub header: Header,
    pub entries: Entries,
}

/// Whether a header marks its file as compact.
pub open spec fn is_compact(header: HeaderView) -> bool {
    header.incompatible_flags & HEADER_INCOMPATIBLE_COMPACT != 0
}

/// Opens the journal whose file holds `file`: decodes its header, and starts the entries at
/// the header's first entry array.
pub fn parse(file: Vec<u8>) -> (journal: Result<Journal, HeaderError>)
    ensures
        journal matches Ok(j) ==> {
            &&& header_at(file@) == Ok::<HeaderView, HeaderError>(j.header@)
            &&& j.entries.buf@ == file@
            &&& j.entries.compact == is_compact(j.header@)
            &&& j.entries.position() == Position {
                array: j.header.entry_array_offset,
                item: 0,
                hops: file@.len() as u64,
            }
        },
        journal matches Err(why) ==> header_at(file@) == Err::<HeaderView, HeaderError>(why),
{
    let header = match parse_header(file.as_slice()) {
        Ok(header) => header,
        Err(why) => return Err(why),
    };
    let compact = header.incompatible_flags & HEADER_INCOMPATIBLE_COMPACT != 0;
    let hops = file.len() as u64;
    let array = header.entry_array_offset;
    Ok(Journal { header, entries: Entries { buf: file, array, item: 0, compact, hops } })
}

} // verus!
