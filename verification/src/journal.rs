//! A plugin for systemd journal files: each entry becomes one line,
//! `seqnum<TAB>timestamp<TAB>fields-as-json`.
pub mod constants;
pub mod parser;
pub mod parser_utils;

use vstd::prelude::*;
use crate::util::{
    check_row_window, chars_of, extension_of, has_extension, decimal, decimal_text, file_stat, hex, hex_text, iso_text,
    json_object, json_object_text, keep_matching, matching, meta_entries, owned, prepare_search,
    row_window, string_of, take_rows, texts, term_compiles, blank, unix_epoch_to_iso8601,
    FileMeta, FileStat, MetaModel, MetaValue, ToolError,
};
use self::constants::{EntryObject, EntryView, HeaderView};
use self::parser::{
    is_compact, next_entry, parse, array_slots, Entries, Journal, Position,
};
use self::parser_utils::{entry_at, header_at, HeaderError};

verus! {

broadcast use vstd::string::group_string_axioms;

/// The name and the value of a `NAME=value` field, split at its first `=`; `None` where it
/// has none.
pub open spec fn split_field(field: Seq<char>) -> Option<(Seq<char>, Seq<char>)> {
    if exists|i: int| 0 <= i < field.len() && field[i] == '=' {
        let i = choose|i: int|
            0 <= i < field.len() && field[i] == '=' && forall|j: int| 0 <= j < i ==> field[j] != '=';
        Some((field.subrange(0, i), field.subrange(i + 1, field.len() as int)))
    } else {
        None
    }
}

/// Splits a `NAME=value` field at its first `=`.
pub fn split_once_eq(field: &str) -> (parts: Option<(String, String)>)
    ensures
        parts matches Some((name, value)) ==> split_field(field@) == Some((name@, value@)),
        parts is None ==> split_field(field@) is None,
{
    let chars = chars_of(field);
    let mut i: usize = 0;
    while i < chars.len()
        invariant
            chars@ == field@,
            0 <= i <= chars@.len(),
            forall|j: int| 0 <= j < i ==> chars@[j] != '=',
        decreases chars@.len() - i,
    {
        if chars[i] == '=' {
            let name = string_of(vstd::slice::slice_subrange(chars.as_slice(), 0, i));
            let value = string_of(vstd::slice::slice_subrange(chars.as_slice(), i + 1, chars.len()));
            proof {
                let k = choose|k: int|
                    0 <= k < field@.len() && field@[k] == '=' && forall|j: int| 0 <= j < k ==> field@[j] != '=';
                assert(0 <= i < field@.len() && field@[i as int] == '=');
                assert(k == i) by {
                    if k < i {
                        assert(chars@[k] != '=');
                    } else if k > i {
                        assert(field@[i as int] != '=');
                    }
                }
            }
            return Some((name, value));
        }
        i = i + 1;
    }
    None
}

/// The `(name, value)` pairs of the fields that have an `=`, in order.
pub open spec fn field_pairs(fields: Seq<Seq<char>>) -> Seq<(Seq<char>, MetaModel)>
    decreases fields.len(),
{
    if fields.len() == 0 {
        Seq::empty()
    } else {
        let before = field_pairs(fields.drop_last());
        match split_field(fields.last()) {
            Some((name, value)) => before.push((name, MetaModel::Text(value))),
            None => before,
        }
    }
}

/// One entry's line: its sequence number, its wall-clock time, and its fields as a JSON object
/// (the last value of a repeated name wins), separated by tabs.
pub open spec fn line_text(seqnum: u64, realtime: u64, fields: Seq<Seq<char>>) -> Seq<char> {
    decimal_text(seqnum as nat) + seq!['\t'] + iso_text(Some((realtime * 1000) as i128)) + seq!['\t']
        + json_object_text(field_pairs(fields))
}

/// One entry as `seqnum<TAB>timestamp<TAB>fields-as-json`.
pub fn line(seqnum: u64, realtime: u64, fields: &Vec<String>) -> (text: String)
    ensures
        text@ == line_text(seqnum, realtime, texts(fields@)),
{
    let mut pairs: Vec<(String, MetaValue)> = Vec::new();
    let mut i: usize = 0;
    while i < fields.len()
        invariant
            0 <= i <= fields@.len(),
            meta_entries(pairs@) =~= field_pairs(texts(fields@).take(i as int)),
        decreases fields@.len() - i,
    {
        let split = split_once_eq(fields[i].as_str());
        proof {
            assert(texts(fields@).take(i + 1).drop_last() =~= texts(fields@).take(i as int));
            assert(texts(fields@).take(i + 1).last() == fields@[i as int]@);
        }
        match split {
            Some((name, value)) => {
                pairs.push((name, MetaValue::Text(value)));
            },
            None => {},
        }
        i = i + 1;
    }
    proof {
        assert(texts(fields@).take(fields@.len() as int) =~= texts(fields@));
        reveal_strlit("\t");
    }
    let mut text = decimal(seqnum);
    text.append("\t");
    text.append(unix_epoch_to_iso8601(realtime).as_str());
    text.append("\t");
    text.append(json_object(&pairs).as_str());
    text
}

/// The line of an entry.
pub open spec fn entry_line(e: EntryView) -> Seq<char> {
    line_text(e.seqnum, e.realtime, e.fields)
}

/// Each step to a next entry moves the walk forward: to a later slot of the same array, or to
/// a following array with fewer hops left.
pub proof fn lemma_next_entry_progress(buf: Seq<u8>, compact: bool, p: Position)
    ensures
        ({
            let (found, q) = next_entry(buf, compact, p);
            found is Some ==> (q.hops < p.hops || (q.hops == p.hops && q.array == p.array
                && p.item < q.item <= array_slots(buf, p.array, compact)))
        }),
    decreases p.hops, array_slots(buf, p.array, compact) - p.item,
{
    if p.array == 0 || p.hops == 0 {
    } else {
        match parser_utils::le_at(buf, p.array + constants::OBJECT_SIZE_OFFSET, 8) {
            None => {},
            Some(size) => if p.item >= parser::slots_in(size, compact) {
                match parser_utils::le_at(buf, p.array + constants::ENTRY_ARRAY_NEXT_OFFSET, 8) {
                    None => {},
                    Some(next) => {
                        lemma_next_entry_progress(
                            buf,
                            compact,
                            Position { array: next, item: 0, hops: (p.hops - 1) as u64 },
                        );
                    },
                }
            } else {
                let after = Position { array: p.array, item: (p.item + 1) as u64, hops: p.hops };
                lemma_next_entry_progress(buf, compact, after);
            },
        }
    }
}

/// Walking the entry arrays yields only entries: empty slots (journald preallocates arrays,
/// so unused trailing slots read as zero) and slots that hold no readable entry are passed
/// over, never returned.
pub proof fn walk_yields_only_entries(buf: Seq<u8>, compact: bool, p: Position)
    ensures
        next_entry(buf, compact, p).0 matches Some(offset) ==> offset != 0 && entry_at(buf, offset, compact) is Ok,
    decreases p.hops, array_slots(buf, p.array, compact) - p.item,
{
    lemma_next_entry_progress(buf, compact, p);
    if p.array == 0 || p.hops == 0 {
    } else {
        match parser_utils::le_at(buf, p.array + constants::OBJECT_SIZE_OFFSET, 8) {
            None => {},
            Some(size) => if p.item >= parser::slots_in(size, compact) {
                match parser_utils::le_at(buf, p.array + constants::ENTRY_ARRAY_NEXT_OFFSET, 8) {
                    None => {},
                    Some(next) => {
                        walk_yields_only_entries(
                            buf,
                            compact,
                            Position { array: next, item: 0, hops: (p.hops - 1) as u64 },
                        );
                    },
                }
            } else {
                let after = Position { array: p.array, item: (p.item + 1) as u64, hops: p.hops };
                walk_yields_only_entries(buf, compact, after);
            },
        }
    }
}

/// The offsets of the entries that a walk yields from position `p` on, in order, until the
/// chain ends.
pub open spec fn walk_offsets(buf: Seq<u8>, compact: bool, p: Position) -> Seq<u64>
    decreases p.hops, array_slots(buf, p.array, compact) - p.item,
{
    let (found, q) = next_entry(buf, compact, p);
    match found {
        Some(offset) => {
            proof {
                lemma_next_entry_progress(buf, compact, p);
            }
            seq![offset] + walk_offsets(buf, compact, q)
        },
        None => Seq::empty(),
    }
}

/// The readable entries that the slots of the entry array at `array` reference, from slot
/// `item` on, in slot order: slots that cannot be read, zero slots and references to objects
/// that cannot be read as entries left out.
pub open spec fn array_entries(buf: Seq<u8>, compact: bool, array: u64, item: nat) -> Seq<u64>
    decreases array_slots(buf, array, compact) - item,
{
    if item >= array_slots(buf, array, compact) {
        Seq::empty()
    } else {
        let slot = parser_utils::le_at(
            buf,
            array + constants::ENTRY_ARRAY_ITEMS_OFFSET + item * parser::slot_width(compact),
            parser::slot_width(compact),
        );
        let rest = array_entries(buf, compact, array, item + 1);
        if slot is Some && slot->Some_0 != 0 && entry_at(buf, slot->Some_0, compact) is Ok {
            seq![slot->Some_0] + rest
        } else {
            rest
        }
    }
}

/// Whether `chain` is a chain of entry arrays as a journal links them: no array at offset
/// zero, each array's size readable, and each array's "next" field naming the following array
/// of the chain, the last one's naming zero.
pub open spec fn linked_chain(buf: Seq<u8>, chain: Seq<u64>) -> bool {
    forall|i: int|
        0 <= i < chain.len() ==> {
            &&& #[trigger] chain[i] != 0
            &&& parser_utils::le_at(buf, chain[i] + constants::OBJECT_SIZE_OFFSET, 8) is Some
            &&& parser_utils::le_at(buf, chain[i] + constants::ENTRY_ARRAY_NEXT_OFFSET, 8) == Some(
                if i + 1 < chain.len() {
                    chain[i + 1]
                } else {
                    0u64
                },
            )
        }
}

/// The readable entries of a chain of arrays: each array's, in chain order.
pub open spec fn chain_entries(buf: Seq<u8>, compact: bool, chain: Seq<u64>) -> Seq<u64>
    decreases chain.len(),
{
    if chain.len() == 0 {
        Seq::empty()
    } else {
        array_entries(buf, compact, chain[0], 0) + chain_entries(buf, compact, chain.drop_first())
    }
}

proof fn lemma_walk_array(buf: Seq<u8>, compact: bool, p: Position, next: u64)
    requires
        p.array != 0,
        p.hops > 0,
        parser_utils::le_at(buf, p.array + constants::OBJECT_SIZE_OFFSET, 8) is Some,
        parser_utils::le_at(buf, p.array + constants::ENTRY_ARRAY_NEXT_OFFSET, 8) == Some(next),
    ensures
        walk_offsets(buf, compact, p) == array_entries(buf, compact, p.array, p.item as nat)
            + walk_offsets(buf, compact, Position { array: next, item: 0, hops: (p.hops - 1) as u64 }),
    decreases array_slots(buf, p.array, compact) - p.item,
{
    let after_chain = Position { array: next, item: 0, hops: (p.hops - 1) as u64 };
    if p.item >= array_slots(buf, p.array, compact) {
        assert(next_entry(buf, compact, p) == next_entry(buf, compact, after_chain));
        assert(array_entries(buf, compact, p.array, p.item as nat) =~= Seq::<u64>::empty());
        assert(walk_offsets(buf, compact, p) == walk_offsets(buf, compact, after_chain));
        assert(walk_offsets(buf, compact, p) =~= Seq::<u64>::empty() + walk_offsets(
            buf,
            compact,
            after_chain,
        ));
    } else {
        let after = Position { array: p.array, item: (p.item + 1) as u64, hops: p.hops };
        lemma_walk_array(buf, compact, after, next);
        let rest = array_entries(buf, compact, p.array, (p.item + 1) as nat);
        let tail = walk_offsets(buf, compact, after_chain);
        let slot = parser_utils::le_at(
            buf,
            p.array + constants::ENTRY_ARRAY_ITEMS_OFFSET + p.item * parser::slot_width(compact),
            parser::slot_width(compact),
        );
        if slot is Some && slot->Some_0 != 0 && entry_at(buf, slot->Some_0, compact) is Ok {
            let offset = slot->Some_0;
            assert(next_entry(buf, compact, p) == (slot, after));
            assert(walk_offsets(buf, compact, p) == seq![offset] + walk_offsets(buf, compact, after));
            assert(seq![offset] + (rest + tail) =~= (seq![offset] + rest) + tail);
        } else {
            assert(next_entry(buf, compact, p) == next_entry(buf, compact, after));
            assert(walk_offsets(buf, compact, p) == walk_offsets(buf, compact, after));
        }
    }
}

/// Walking a journal's entries yields exactly the readable entries of its chain of entry
/// arrays, in order: array by array along the chain, slot by slot within an array, leaving out
/// slots that cannot be read, zero slots (journald preallocates arrays) and references to
/// objects that cannot be read as entries; then the walk ends. This holds whenever the walk may
/// take at least as many hops as the chain has arrays, as it may after `parse` for every chain
/// without repeats.
pub proof fn walk_yields_the_chain_entries(buf: Seq<u8>, compact: bool, chain: Seq<u64>, hops: u64)
    requires
        linked_chain(buf, chain),
        chain.len() <= hops,
    ensures
        walk_offsets(
            buf,
            compact,
            Position { array: if chain.len() > 0 { chain[0] } else { 0 }, item: 0, hops },
        ) == chain_entries(buf, compact, chain),
        forall|i: int|
            0 <= i < chain_entries(buf, compact, chain).len() ==> entry_at(
                buf,
                #[trigger] chain_entries(buf, compact, chain)[i],
                compact,
            ) is Ok,
    decreases chain.len(),
{
    let p = Position { array: if chain.len() > 0 { chain[0] } else { 0 }, item: 0, hops };
    if chain.len() == 0 {
        assert(walk_offsets(buf, compact, p) =~= Seq::<u64>::empty());
    } else {
        let next: u64 = if 1 < chain.len() { chain[1] } else { 0u64 };
        assert(chain[0] != 0);
        lemma_walk_array(buf, compact, p, next);
        let rest = chain.drop_first();
        assert(linked_chain(buf, rest)) by {
            assert forall|i: int| 0 <= i < rest.len() implies {
                &&& #[trigger] rest[i] != 0
                &&& parser_utils::le_at(buf, rest[i] + constants::OBJECT_SIZE_OFFSET, 8) is Some
                &&& parser_utils::le_at(buf, rest[i] + constants::ENTRY_ARRAY_NEXT_OFFSET, 8) == Some(
                    if i + 1 < rest.len() {
                        rest[i + 1]
                    } else {
                        0u64
                    },
                )
            } by {
                assert(rest[i] == chain[i + 1]);
                if i + 1 < rest.len() {
                    assert(rest[i + 1] == chain[i + 2]);
                }
            }
        }
        walk_yields_the_chain_entries(buf, compact, rest, (hops - 1) as u64);
        lemma_array_entries_readable(buf, compact, chain[0], 0);
        let first = array_entries(buf, compact, chain[0], 0);
        let later = chain_entries(buf, compact, rest);
        assert forall|i: int| 0 <= i < chain_entries(buf, compact, chain).len() implies entry_at(
            buf,
            #[trigger] chain_entries(buf, compact, chain)[i],
            compact,
        ) is Ok by {
            if i < first.len() {
                assert(chain_entries(buf, compact, chain)[i] == first[i]);
            } else {
                assert(chain_entries(buf, compact, chain)[i] == later[i - first.len()]);
            }
        }
    }
}

proof fn lemma_array_entries_readable(buf: Seq<u8>, compact: bool, array: u64, item: nat)
    ensures
        forall|i: int|
            0 <= i < array_entries(buf, compact, array, item).len() ==> entry_at(
                buf,
                #[trigger] array_entries(buf, compact, array, item)[i],
                compact,
            ) is Ok,
    decreases array_slots(buf, array, compact) - item,
{
    if item < array_slots(buf, array, compact) {
        lemma_array_entries_readable(buf, compact, array, item + 1);
        let rest = array_entries(buf, compact, array, item + 1);
        assert forall|i: int| 0 <= i < array_entries(buf, compact, array, item).len() implies entry_at(
            buf,
            #[trigger] array_entries(buf, compact, array, item)[i],
            compact,
        ) is Ok by {
            let all = array_entries(buf, compact, array, item);
            if all.len() > rest.len() && i > 0 {
                assert(all[i] == rest[i - 1]);
            } else if all.len() == rest.len() {
                assert(all[i] == rest[i]);
            }
        }
    }
}

/// A chain of entry arrays without repeats has no more arrays than the file has bytes (each
/// array's size lies inside the file), so the hops that `parse` allows are always enough for
/// `walk_yields_the_chain_entries`.
pub proof fn chain_fits_in_file(buf: Seq<u8>, chain: Seq<u64>)
    requires
        linked_chain(buf, chain),
        chain.no_duplicates(),
    ensures
        chain.len() <= buf.len(),
{
    let f = |x: u64| x as int;
    let ints = chain.map_values(f);
    assert(vstd::relations::injective(f));
    chain.lemma_no_duplicates_injective(f);
    ints.unique_seq_to_set();
    vstd::set_lib::lemma_int_range(0, buf.len() as int);
    assert(ints.to_set().subset_of(vstd::set_lib::set_int_range(0, buf.len() as int))) by {
        assert forall|x: int| ints.to_set().contains(x) implies vstd::set_lib::set_int_range(
            0,
            buf.len() as int,
        ).contains(x) by {
            let i = choose|i: int| 0 <= i < ints.len() && ints[i] == x;
            assert(chain[i] != 0);
            assert(parser_utils::le_at(buf, chain[i] + constants::OBJECT_SIZE_OFFSET, 8) is Some);
        }
    }
    vstd::set_lib::lemma_len_subset(ints.to_set(), vstd::set_lib::set_int_range(0, buf.len() as int));
}

/// The lines of the entries from position `p` on, in order.
pub open spec fn entry_lines(buf: Seq<u8>, compact: bool, p: Position) -> Seq<Seq<char>>
    decreases p.hops, array_slots(buf, p.array, compact) - p.item,
{
    let (found, q) = next_entry(buf, compact, p);
    match found {
        Some(offset) => {
            proof {
                lemma_next_entry_progress(buf, compact, p);
            }
            match entry_at(buf, offset, compact) {
                Ok(e) => seq![entry_line(e)] + entry_lines(buf, compact, q),
                Err(_) => Seq::empty(),
            }
        },
        None => Seq::empty(),
    }
}

/// The lines of every entry of a journal file, or why the file is not a journal.
pub open spec fn journal_lines(file: Seq<u8>) -> Result<Seq<Seq<char>>, HeaderError> {
    match header_at(file) {
        Ok(h) => Ok(
            entry_lines(
                file,
                is_compact(h),
                Position { array: h.entry_array_offset, item: 0, hops: file.len() as u64 },
            ),
        ),
        Err(why) => Err(why),
    }
}

/// The lines of the entries that remain in `entries`.
fn all_lines(entries: &mut Entries) -> (lines: Vec<String>)
    ensures
        texts(lines@) == entry_lines(old(entries).buf@, old(entries).compact, old(entries).position()),
{
    let mut lines: Vec<String> = Vec::new();
    let ghost buf = entries.buf@;
    let ghost compact = entries.compact;
    let ghost start = entries.position();
    loop
        invariant
            entries.buf@ == buf,
            entries.compact == compact,
            buf == old(entries).buf@,
            compact == old(entries).compact,
            start == old(entries).position(),
            entry_lines(buf, compact, start) == texts(lines@) + entry_lines(buf, compact, entries.position()),
        decreases entries.hops, array_slots(entries.buf@, entries.array, entries.compact) - entries.item,
    {
        let ghost p = entries.position();
        proof {
            lemma_next_entry_progress(buf, compact, p);
        }
        match entries.next() {
            Some(entry) => {
                let text = line(entry.seqnum, entry.realtime, &entry.fields);
                let ghost prev = texts(lines@);
                lines.push(text);
                proof {
                    assert(texts(lines@) =~= prev.push(entry_line(entry@)));
                    assert(entry_lines(buf, compact, p) == seq![entry_line(entry@)] + entry_lines(buf, compact, entries.position()));
                    assert(prev.push(entry_line(entry@)) + entry_lines(buf, compact, entries.position())
                        =~= prev + (seq![entry_line(entry@)] + entry_lines(buf, compact, entries.position())));
                }
            },
            None => {
                proof {
                    assert(texts(lines@) + Seq::<Seq<char>>::empty() =~= texts(lines@));
                }
                return lines;
            },
        }
    }
}

/// Opens `file` as a journal and renders every entry as a line.
fn open_lines(file: Vec<u8>) -> (lines: Result<Vec<String>, ToolError>)
    ensures
        lines matches Ok(l) ==> journal_lines(file@) == Ok::<Seq<Seq<char>>, HeaderError>(texts(l@)),
        lines matches Err(e) ==> (e matches ToolError::NotAJournal(why) && journal_lines(file@)
            == Err::<Seq<Seq<char>>, HeaderError>(why)),
{
    let ghost bytes = file@;
    match parse(file) {
        Ok(journal) => {
            let mut entries = journal.entries;
            Ok(all_lines(&mut entries))
        },
        Err(why) => Err(ToolError::NotAJournal(why)),
    }
}

/// Search strategy for systemd journal files.
pub struct JournalPlugin {}

/// The tools this plugin exposes.
pub struct JournalTools {}

impl JournalPlugin {
    pub fn new() -> (plugin: JournalPlugin) {
        JournalPlugin {}
    }

    pub fn name(&self) -> (name: String)
        ensures
            name@ == "journal-plugin"@,
    {
        owned("journal-plugin")
    }

    pub fn description(&self) -> (description: String)
        ensures
            description@ == "File system access to systemd journal files (journal)."@,
    {
        owned("File system access to systemd journal files (journal).")
    }

    /// Whether this plugin handles `file_path`: a `.journal` file, or a `.journal~` one (rotated
    /// and corrupted journals keep the extension but gain a "~"), or else one whose contents
    /// (`None` where the file cannot be read) open as a journal.
    pub fn identify(&self, file_path: &str, contents: Option<Vec<u8>>) -> (yes: bool)
        ensures
            yes == (extension_of(file_path@) == Some("journal"@) || extension_of(file_path@)
                == Some("journal~"@) || (contents matches Some(c) && header_at(c@) is Ok)),
    {
        if has_extension(file_path, "journal") || has_extension(file_path, "journal~") {
            return true;
        }
        match contents {
            Some(file) => parse(file).is_ok(),
            None => false,
        }
    }

    pub fn tools(&self) -> (tools: JournalTools) {
        JournalTools {}
    }
}

/// The name of a journal file's state byte.
pub open spec fn state_name(state: u8) -> Seq<char> {
    if state == 0 {
        "offline"@
    } else if state == 1 {
        "online"@
    } else if state == 2 {
        "archived"@
    } else {
        "unknown"@
    }
}

/// The metadata of a journal's summary.
pub open spec fn journal_metadata(h: HeaderView) -> Seq<(Seq<char>, MetaModel)> {
    seq![
        ("state"@, MetaModel::Text(state_name(h.state))),
        ("entryCount"@, MetaModel::Number(h.n_entries)),
        ("objectCount"@, MetaModel::Number(h.n_objects)),
        ("headSeqnum"@, MetaModel::Number(h.head_entry_seqnum)),
        ("tailSeqnum"@, MetaModel::Number(h.tail_entry_seqnum)),
        ("firstEntryAt"@, MetaModel::Text(iso_text(Some((h.head_entry_realtime * 1000) as i128)))),
        ("lastEntryAt"@, MetaModel::Text(iso_text(Some((h.tail_entry_realtime * 1000) as i128)))),
        ("machineId"@, MetaModel::Text(hex_text(h.machine_id))),
        ("bootId"@, MetaModel::Text(hex_text(h.tail_entry_boot_id))),
    ]
}

impl JournalTools {
    /// The lines of the journal in `file` that contain `search_term` (smart case), in order.
    pub fn search(&self, file: Vec<u8>, search_term: &str) -> (found: Result<Vec<String>, ToolError>)
        ensures
            found matches Ok(lines) ==> {
                &&& !blank(search_term@)
                &&& term_compiles(search_term@)
                &&& journal_lines(file@) matches Ok(all) && texts(lines@) == matching(search_term@, all)
            },
            found matches Err(ToolError::EmptySearchTerm) <==> blank(search_term@),
            found matches Err(ToolError::InvalidSearchTerm(_)) <==> !blank(search_term@)
                && !term_compiles(search_term@),
            found matches Err(ToolError::NotAJournal(why)) ==> !blank(search_term@) && term_compiles(
                search_term@) && journal_lines(file@) == Err::<Seq<Seq<char>>, HeaderError>(why),
            found is Err ==> (found matches Err(ToolError::EmptySearchTerm) || found matches Err(
                ToolError::InvalidSearchTerm(_)) || found matches Err(ToolError::NotAJournal(_))),
    {
        let matcher = match prepare_search(search_term) {
            Ok(m) => m,
            Err(e) => return Err(e),
        };
        let lines = match open_lines(file) {
            Ok(lines) => lines,
            Err(e) => return Err(e),
        };
        Ok(keep_matching(lines, &matcher))
    }

    /// Entries `offset_rows..offset_rows + max_rows` of the journal in `file`, as lines.
    pub fn read(&self, file: Vec<u8>, offset_rows: i64, max_rows: i64) -> (rows: Result<Vec<String>, ToolError>)
        ensures
            rows matches Ok(lines) ==> {
                &&& offset_rows >= 0
                &&& max_rows > 0
                &&& journal_lines(file@) matches Ok(all) && texts(lines@) == row_window(
                    all,
                    offset_rows as usize as nat,
                    max_rows as usize as nat,
                )
            },
            rows matches Err(ToolError::BadRowWindow) <==> (offset_rows < 0 || max_rows <= 0),
            rows matches Err(ToolError::NotAJournal(why)) ==> offset_rows >= 0 && max_rows > 0
                && journal_lines(file@) == Err::<Seq<Seq<char>>, HeaderError>(why),
            rows is Err ==> (rows matches Err(ToolError::BadRowWindow) || rows matches Err(
                ToolError::NotAJournal(_))),
    {
        let (offset, max) = match check_row_window(offset_rows, max_rows) {
            Ok(window) => window,
            Err(e) => return Err(e),
        };
        let lines = match open_lines(file) {
            Ok(lines) => lines,
            Err(e) => return Err(e),
        };
        Ok(take_rows(lines, offset, max))
    }

    /// The summary of the journal in `file`, whose file-system facts are `meta`.
    pub fn stat(&self, file: Vec<u8>, meta: &FileMeta) -> (stat: Result<FileStat, ToolError>)
        ensures
            stat matches Ok(s) ==> {
                &&& s.format@ == "journal"@
                &&& s.size_bytes == meta.len as i64
                &&& s.modified_at@ == iso_text(meta.modified)
                &&& s.created_at@ == iso_text(meta.created)
                &&& header_at(file@) matches Ok(h) && meta_entries(s.metadata@) == journal_metadata(h)
            },
            stat matches Err(e) ==> (e matches ToolError::NotAJournal(why) && header_at(file@)
                == Err::<HeaderView, HeaderError>(why)),
    {
        let journal = match parse(file) {
            Ok(journal) => journal,
            Err(why) => return Err(ToolError::NotAJournal(why)),
        };
        let header = journal.header;
        let state = if header.state == 0 {
            "offline"
        } else if header.state == 1 {
            "online"
        } else if header.state == 2 {
            "archived"
        } else {
            "unknown"
        };
        let metadata = vec![
            (owned("state"), MetaValue::Text(owned(state))),
            (owned("entryCount"), MetaValue::Number(header.n_entries)),
            (owned("objectCount"), MetaValue::Number(header.n_objects)),
            (owned("headSeqnum"), MetaValue::Number(header.head_entry_seqnum)),
            (owned("tailSeqnum"), MetaValue::Number(header.tail_entry_seqnum)),
            (owned("firstEntryAt"), MetaValue::Text(unix_epoch_to_iso8601(header.head_entry_realtime))),
            (owned("lastEntryAt"), MetaValue::Text(unix_epoch_to_iso8601(header.tail_entry_realtime))),
            (owned("machineId"), MetaValue::Text(hex(header.machine_id.as_slice()))),
            (owned("bootId"), MetaValue::Text(hex(header.tail_entry_boot_id.as_slice()))),
        ];
        proof {
            assert(meta_entries(metadata@) =~= journal_metadata(header@));
        }
        Ok(file_stat(owned("journal"), meta, metadata))
    }
}

/// The state that `stat` reports is read from the header's state byte (offset 16): "offline"
/// for 0, "online" for 1, "archived" for 2 (a rotated journal), and "unknown" for any other
/// value. It is the first metadata entry.
pub proof fn stat_state_names_the_state_byte(file: Seq<u8>)
    ensures
        header_at(file) matches Ok(h) ==> {
            &&& h.state == file[16]
            &&& journal_metadata(h)[0].0 == "state"@
            &&& file[16] == 0 ==> journal_metadata(h)[0].1 == MetaModel::Text("offline"@)
            &&& file[16] == 1 ==> journal_metadata(h)[0].1 == MetaModel::Text("online"@)
            &&& file[16] == 2 ==> journal_metadata(h)[0].1 == MetaModel::Text("archived"@)
            &&& file[16] > 2 ==> journal_metadata(h)[0].1 == MetaModel::Text("unknown"@)
        },
{
    if let Ok(h) = header_at(file) {
        let header_size = parser_utils::le_value(file.subrange(88, 96));
        assert(parser_utils::header_bytes(file, header_size)[16] == file[16]);
    }
}

/// The counts, sequence numbers, times and ids that `stat` reports are the header's own
/// little-endian fields, read at their offsets in the file: objects at 144, entries at 152,
/// the tail sequence number at 160, the head one at 168, the head and tail times (in
/// microseconds) at 184 and 192, the machine id at 40 and the boot id at 56.
pub proof fn stat_reads_the_header_fields(file: Seq<u8>)
    ensures
        header_at(file) matches Ok(h) ==> {
            let m = journal_metadata(h);
            let le = |a: int, b: int| parser_utils::le_value(file.subrange(a, b));
            &&& m[1] == ("entryCount"@, MetaModel::Number(le(152, 160) as u64))
            &&& m[2] == ("objectCount"@, MetaModel::Number(le(144, 152) as u64))
            &&& m[3] == ("headSeqnum"@, MetaModel::Number(le(168, 176) as u64))
            &&& m[4] == ("tailSeqnum"@, MetaModel::Number(le(160, 168) as u64))
            &&& m[5] == ("firstEntryAt"@, MetaModel::Text(
                iso_text(Some((le(184, 192) as u64 * 1000) as i128)),
            ))
            &&& m[6] == ("lastEntryAt"@, MetaModel::Text(
                iso_text(Some((le(192, 200) as u64 * 1000) as i128)),
            ))
            &&& m[7] == ("machineId"@, MetaModel::Text(hex_text(file.subrange(40, 56))))
            &&& m[8] == ("bootId"@, MetaModel::Text(hex_text(file.subrange(56, 72))))
        },
{
    if let Ok(h) = header_at(file) {
        let header_size = parser_utils::le_value(file.subrange(88, 96));
        let hb = parser_utils::header_bytes(file, header_size);
        assert(hb.subrange(40, 56) =~= file.subrange(40, 56));
        assert(hb.subrange(56, 72) =~= file.subrange(56, 72));
        assert(hb.subrange(144, 152) =~= file.subrange(144, 152));
        assert(hb.subrange(152, 160) =~= file.subrange(152, 160));
        assert(hb.subrange(160, 168) =~= file.subrange(160, 168));
        assert(hb.subrange(168, 176) =~= file.subrange(168, 176));
        assert(hb.subrange(184, 192) =~= file.subrange(184, 192));
        assert(hb.subrange(192, 200) =~= file.subrange(192, 200));
    }
}

} // verus!
