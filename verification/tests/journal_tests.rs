use log_forensics::journal::parser_utils::{le, parse_entry, EntryError};

#[test]
fn le_reads_little_endian_and_refuses_out_of_range() {
    let buf = [1u8, 2, 3, 4, 5, 6, 7, 8, 9];
    assert_eq!(le(&buf, 0, 0, 2), Some(0x0201));
    assert_eq!(le(&buf, 1, 2, 4), Some(0x0706_0504));
    assert_eq!(le(&buf, 0, 1, 8), Some(0x0908_0706_0504_0302));
    assert_eq!(le(&buf, 5, 0, 8), None);
    assert_eq!(le(&buf, u64::MAX, 1, 1), None);
}

#[test]
fn parse_entry_refuses_truncated_input() {
    let buf = [0u8; 10];
    assert!(matches!(parse_entry(&buf, 0, false), Err(EntryError::Truncated)));
}

use log_forensics::journal::parser::parse;
use log_forensics::journal::parser_utils::{decompress, parse_header, DecompressError, HeaderError};
use log_forensics::journal::{split_once_eq, JournalPlugin};
use log_forensics::util::{FileMeta, MetaValue, ToolError};

fn put(buf: &mut Vec<u8>, at: usize, bytes: &[u8]) {
    buf[at..at + bytes.len()].copy_from_slice(bytes);
}

/// A journal with one entry (seqnum 7, at 1700000000 s) whose one field is `MESSAGE=hello`,
/// listed in an entry array with one unused, zero slot.
fn journal() -> Vec<u8> {
    let mut j = vec![0u8; 469];
    put(&mut j, 0, b"LPKSHHRH");
    j[16] = 1;
    put(&mut j, 88, &272u64.to_le_bytes());
    put(&mut j, 144, &3u64.to_le_bytes());
    put(&mut j, 152, &1u64.to_le_bytes());
    put(&mut j, 160, &7u64.to_le_bytes());
    put(&mut j, 168, &7u64.to_le_bytes());
    put(&mut j, 176, &272u64.to_le_bytes());
    put(&mut j, 184, &1_700_000_000_000_000u64.to_le_bytes());
    put(&mut j, 192, &1_700_000_000_000_000u64.to_le_bytes());
    // entry array
    j[272] = 6;
    put(&mut j, 280, &40u64.to_le_bytes());
    put(&mut j, 296, &312u64.to_le_bytes());
    // entry
    j[312] = 3;
    put(&mut j, 320, &80u64.to_le_bytes());
    put(&mut j, 328, &7u64.to_le_bytes());
    put(&mut j, 336, &1_700_000_000_000_000u64.to_le_bytes());
    put(&mut j, 376, &392u64.to_le_bytes());
    // data
    j[392] = 1;
    put(&mut j, 400, &77u64.to_le_bytes());
    put(&mut j, 456, b"MESSAGE=hello");
    j
}

const ENTRY_LINE: &str = "7\t2023-11-14T22:13:20Z\t{\"MESSAGE\":\"hello\"}";

#[test]
fn parse_reads_the_entries_of_a_journal() {
    let journal = parse(journal()).ok().unwrap();
    assert_eq!(journal.header.n_entries, 1);
    assert_eq!(journal.header.header_size, 272);
    let mut entries = journal.entries;
    let entry = entries.next().unwrap();
    assert_eq!(entry.seqnum, 7);
    assert_eq!(entry.realtime, 1_700_000_000_000_000);
    assert_eq!(entry.fields, vec!["MESSAGE=hello".to_string()]);
    assert!(entries.next().is_none());
}

#[test]
fn parse_header_refuses_what_is_not_a_journal() {
    assert!(matches!(parse_header(&[0u8; 100]), Err(HeaderError::TooShort)));
    assert!(matches!(parse_header(&[0u8; 300]), Err(HeaderError::NotAJournal)));
    let mut j = journal();
    put(&mut j, 88, &100u64.to_le_bytes());
    assert!(matches!(parse_header(&j), Err(HeaderError::ImplausibleHeaderSize)));
    put(&mut j, 88, &10_000u64.to_le_bytes());
    assert!(matches!(parse_header(&j), Err(HeaderError::ImplausibleHeaderSize)));
}

#[test]
fn journal_tools_search_read_and_stat() {
    let tools = JournalPlugin::new().tools();
    assert_eq!(tools.search(journal(), "hello").ok().unwrap(), vec![ENTRY_LINE.to_string()]);
    assert!(tools.search(journal(), "absent").ok().unwrap().is_empty());
    assert!(matches!(tools.search(vec![0; 10], "x"), Err(ToolError::NotAJournal(HeaderError::TooShort))));
    assert_eq!(tools.read(journal(), 0, 5).ok().unwrap(), vec![ENTRY_LINE.to_string()]);
    assert!(tools.read(journal(), 1, 5).ok().unwrap().is_empty());
    assert!(matches!(tools.read(journal(), 0, 0), Err(ToolError::BadRowWindow)));
    let stat = tools
        .stat(journal(), &FileMeta { len: 469, modified: Some(0), created: None })
        .ok()
        .unwrap();
    assert_eq!(stat.format, "journal");
    assert_eq!(stat.size_bytes, 469);
    assert_eq!(stat.modified_at, "1970-01-01T00:00:00Z");
    assert_eq!(stat.created_at, "");
    let get = |key: &str| stat.metadata.iter().find(|(k, _)| k == key).map(|(_, v)| v);
    assert!(matches!(get("state"), Some(MetaValue::Text(t)) if t == "online"));
    assert!(matches!(get("entryCount"), Some(MetaValue::Number(1))));
    assert!(matches!(get("firstEntryAt"), Some(MetaValue::Text(t)) if t == "2023-11-14T22:13:20Z"));
    assert!(matches!(get("machineId"), Some(MetaValue::Text(t)) if t == &"0".repeat(32)));
}

#[test]
fn identify_by_extension_or_contents() {
    let plugin = JournalPlugin::new();
    assert_eq!(plugin.name(), "journal-plugin");
    assert!(plugin.identify("system.journal", None));
    assert!(plugin.identify("system.journal~", None));
    assert!(!plugin.identify("system.log", None));
    assert!(plugin.identify("system.log", Some(journal())));
    assert!(!plugin.identify("system.log", Some(vec![0; 300])));
}

#[test]
fn line_renders_an_entry() {
    let fields = vec!["MESSAGE=hi".to_string(), "PRIORITY=6".to_string(), "junk".to_string()];
    assert_eq!(
        log_forensics::journal::line(5, 1_700_000_000_000_000, &fields),
        "5\t2023-11-14T22:13:20Z\t{\"MESSAGE\":\"hi\",\"PRIORITY\":\"6\"}"
    );
    assert_eq!(split_once_eq("a=b=c"), Some(("a".to_string(), "b=c".to_string())));
    assert_eq!(split_once_eq("abc"), None);
}

#[test]
fn decompress_by_flag() {
    assert_eq!(decompress(b"plain", 0).ok().unwrap(), b"plain".to_vec());
    let mut lz4 = 5u64.to_le_bytes().to_vec();
    lz4.push(0x50);
    lz4.extend_from_slice(b"hello");
    assert_eq!(decompress(&lz4, 2).ok().unwrap(), b"hello".to_vec());
    assert!(matches!(decompress(b"short", 2), Err(DecompressError::TruncatedLz4)));
    assert!(matches!(decompress(&u64::MAX.to_le_bytes(), 2), Err(DecompressError::Lz4SizeOutOfRange)));
    assert!(matches!(decompress(b"garbage", 1), Err(DecompressError::Xz(_))));
    assert!(matches!(decompress(b"garbage", 4), Err(DecompressError::Zstd(_))));
    assert!(matches!(decompress(b"x", 3), Err(DecompressError::SeveralCompressionFlags)));
}

#[test]
fn parse_entry_gives_the_data_offsets() {
    let j = journal();
    let entry = parse_entry(&j, 312, false).ok().unwrap();
    assert_eq!(entry.data_offsets, vec![392]);
    assert_eq!(entry.fields, vec!["MESSAGE=hello".to_string()]);
}

#[test]
fn walk_follows_the_chain_of_entry_arrays() {
    let mut j = journal();
    j.resize(504, 0);
    put(&mut j, 288, &472u64.to_le_bytes());
    j[472] = 6;
    put(&mut j, 480, &32u64.to_le_bytes());
    put(&mut j, 496, &312u64.to_le_bytes());
    let tools = JournalPlugin::new().tools();
    let lines = tools.read(j, 0, 10).ok().unwrap();
    assert_eq!(lines, vec![ENTRY_LINE.to_string(), ENTRY_LINE.to_string()]);
}
