use log_forensics::delimited::{delimiter, parse_radix16_byte, strip_prefix, CsvPlugin};
use log_forensics::evtx::{add, EvtxPlugin};
use log_forensics::plaintext::{lines, number_lines, PlaintextPlugin};
use log_forensics::util::{decimal, hex, iso8601, unix_epoch_to_iso8601, FileMeta, MetaValue, ToolError};

fn no_meta() -> FileMeta {
    FileMeta { len: 3, modified: None, created: Some(1_700_000_000_123_000_000) }
}

fn strings(items: &[&str]) -> Vec<String> {
    items.iter().map(|s| s.to_string()).collect()
}

#[test]
fn decimal_and_hex_text() {
    assert_eq!(decimal(0), "0");
    assert_eq!(decimal(1234567890), "1234567890");
    assert_eq!(decimal(u64::MAX), "18446744073709551615");
    assert_eq!(hex(&[0x00, 0xab, 0x10]), "00ab10");
    assert_eq!(hex(&[]), "");
}

#[test]
fn times_as_rfc3339() {
    assert_eq!(iso8601(Some(0)), "1970-01-01T00:00:00Z");
    assert_eq!(iso8601(Some(1_700_000_000_123_000_000)), "2023-11-14T22:13:20.123Z");
    assert_eq!(iso8601(None), "");
    assert_eq!(iso8601(Some(i128::MAX)), "");
    assert_eq!(unix_epoch_to_iso8601(1_500_000), "1970-01-01T00:00:01.5Z");
}

#[test]
fn plaintext_lines_stop_at_invalid_utf8() {
    assert_eq!(lines(b"a\r\nb\n\xff\nc"), strings(&["a", "b"]));
    assert_eq!(lines(b"x\n\ny"), strings(&["x", "", "y"]));
    assert_eq!(lines(b"last\n"), strings(&["last"]));
    assert!(lines(b"").is_empty());
    assert_eq!(number_lines(&strings(&["a", "b"])), strings(&["1\ta", "2\tb"]));
}

#[test]
fn plaintext_tools() {
    let plugin = PlaintextPlugin::new();
    assert_eq!(plugin.name(), "plaintext-plugin");
    assert!(plugin.identify("anything.bin"));
    let tools = plugin.tools();
    let text = b"Alpha\nbeta\nGamma\ndelta";
    assert_eq!(tools.search(text, "a").ok().unwrap(), strings(&["1\tAlpha", "2\tbeta", "3\tGamma", "4\tdelta"]));
    assert_eq!(tools.search(text, "G").ok().unwrap(), strings(&["3\tGamma"]));
    assert!(matches!(tools.search(text, " \t"), Err(ToolError::EmptySearchTerm)));
    assert_eq!(tools.read(text, 1, 2).ok().unwrap(), strings(&["2\tbeta", "3\tGamma"]));
    assert_eq!(tools.read(text, 3, 10).ok().unwrap(), strings(&["4\tdelta"]));
    assert!(tools.read(text, 9, 1).ok().unwrap().is_empty());
    assert!(matches!(tools.read(text, -1, 1), Err(ToolError::BadRowWindow)));
    assert!(matches!(tools.read(text, 0, 0), Err(ToolError::BadRowWindow)));
    let stat = tools.stat(text, &no_meta());
    assert_eq!(stat.format, "plaintext");
    assert_eq!(stat.size_bytes, 3);
    assert_eq!(stat.modified_at, "");
    assert_eq!(stat.created_at, "2023-11-14T22:13:20.123Z");
    assert!(matches!(&stat.metadata[..], [(k, MetaValue::Number(4))] if k == "lineCount"));
}

#[test]
fn paging_rows_reads_each_line_once() {
    let tools = PlaintextPlugin::new().tools();
    let text = b"one\ntwo\nthree\nfour\nfive";
    let mut paged = tools.read(text, 0, 2).ok().unwrap();
    paged.extend(tools.read(text, 2, 2).ok().unwrap());
    paged.extend(tools.read(text, 4, 2).ok().unwrap());
    assert_eq!(paged, tools.read(text, 0, 6).ok().unwrap());
    assert_eq!(paged.len(), 5);
}

#[test]
fn radix16_bytes() {
    assert_eq!(parse_radix16_byte("09"), Some(9));
    assert_eq!(parse_radix16_byte("7c"), Some(0x7c));
    assert_eq!(parse_radix16_byte("FF"), Some(255));
    assert_eq!(parse_radix16_byte("+a"), Some(10));
    assert_eq!(parse_radix16_byte("0009"), Some(9));
    assert_eq!(parse_radix16_byte("100"), None);
    assert_eq!(parse_radix16_byte(""), None);
    assert_eq!(parse_radix16_byte("+"), None);
    assert_eq!(parse_radix16_byte("-1"), None);
    assert_eq!(parse_radix16_byte("1g"), None);
    for b in 0..=255u8 {
        assert_eq!(parse_radix16_byte(&format!("{b:02x}")), Some(b));
    }
}

#[test]
fn strip_prefix_takes_the_prefix_off() {
    assert_eq!(strip_prefix("#separator \\x09", "#separator \\x"), Some("09".to_string()));
    assert_eq!(strip_prefix("#sep", "#separator"), None);
    assert_eq!(strip_prefix("abc", ""), Some("abc".to_string()));
}

#[test]
fn delimiters() {
    assert_eq!(delimiter("a.csv", b"#separator \\x7c\n"), b',');
    assert_eq!(delimiter("conn.tsv", b"#separator \\x7c\nx|y\n"), b'|');
    assert_eq!(delimiter("conn.tsv", b"#separator \\x09\r\n"), b'\t');
    assert_eq!(delimiter("conn.tsv", b"#separator \\xzz\n"), b'\t');
    assert_eq!(delimiter("conn.tsv", b"a\tb\n"), b'\t');
    assert_eq!(delimiter("conn.tsv", b"#separator \\x2c\xff\n"), b'\t');
}

#[test]
fn csv_line_names_columns() {
    assert_eq!(
        log_forensics::delimited::line(3, &strings(&["a", "b"]), &strings(&["1", "2", "3"])),
        "3\t{\"2\":\"3\",\"a\":\"1\",\"b\":\"2\"}"
    );
    assert_eq!(log_forensics::delimited::line(0, &strings(&["k", "k"]), &strings(&["x", "y"])), "0\t{\"k\":\"y\"}");
}

#[test]
fn csv_tools() {
    let plugin = CsvPlugin::new();
    assert_eq!(plugin.name(), "csv-plugin");
    assert!(plugin.identify("x.csv") && plugin.identify("x.tsv") && !plugin.identify("x.txt"));
    let tools = plugin.tools();
    let file = b"name,age\nbob,3\nalice,4\n";
    let all = strings(&["0\t{\"age\":\"3\",\"name\":\"bob\"}", "1\t{\"age\":\"4\",\"name\":\"alice\"}"]);
    assert_eq!(tools.search("x.csv", file, "alice").ok().unwrap(), vec![all[1].clone()]);
    assert_eq!(tools.read("x.csv", file, 0, 1).ok().unwrap(), vec![all[0].clone()]);
    assert_eq!(tools.read("x.csv", file, 0, 1000).ok().unwrap(), all);
    assert_eq!(tools.read("x.csv", file, all[0].len() as i64 + 1, 1000).ok().unwrap(), vec![all[1].clone()]);
    assert!(matches!(tools.read("x.csv", file, 0, 0), Err(ToolError::BadByteWindow)));
    let stat = tools.stat("x.csv", file, &no_meta()).ok().unwrap();
    assert_eq!(stat.format, "csv");
    let get = |key: &str| stat.metadata.iter().find(|(k, _)| k == key).map(|(_, v)| v);
    assert!(matches!(get("delimiter"), Some(MetaValue::Text(t)) if t == ","));
    assert!(matches!(get("columns"), Some(MetaValue::Texts(c)) if c == &strings(&["name", "age"])));
    assert!(matches!(get("rowCount"), Some(MetaValue::Number(2))));
}

#[test]
fn csv_rows_that_cannot_be_read_are_counted_but_not_shown() {
    let tools = CsvPlugin::new().tools();
    let file = b"a\n\xff\nok\n";
    assert_eq!(tools.read("x.csv", file, 0, 1000).ok().unwrap(), strings(&["0\t{\"a\":\"ok\"}"]));
    let stat = tools.stat("x.csv", file, &no_meta()).ok().unwrap();
    assert!(stat.metadata.iter().any(|(k, v)| k == "rowCount" && matches!(v, MetaValue::Number(2))));
    assert!(matches!(tools.search("x.csv", b"\xff,b\n1,2\n", "1"), Err(ToolError::CsvHeader(_))));
    assert!(matches!(tools.stat("x.csv", b"\xff\n", &no_meta()), Err(ToolError::CsvHeader(_))));
}

#[test]
fn zeek_logs_keep_their_declaration_as_header() {
    let tools = CsvPlugin::new().tools();
    let file = b"#separator \\x09\nx\ty\n";
    assert_eq!(
        tools.read("conn.tsv", file, 0, 1000).ok().unwrap(),
        strings(&["0\t{\"#separator \\\\x09\":\"x\",\"1\":\"y\"}"])
    );
}

#[test]
fn byte_windows_show_the_first_line_whatever_its_length() {
    let tools = CsvPlugin::new().tools();
    let file = b"h\nlong-long-long\nb\n";
    let shown = tools.read("x.csv", file, 0, 3).ok().unwrap();
    assert_eq!(shown, strings(&["0\t{\"h\":\"long-long-long\"}"]));
}

#[test]
fn evtx_entry_points() {
    let _tools = EvtxPlugin::new().tools();
    assert_eq!(add(2, 3), 5);
    assert_eq!(add(-7, 7), 0);
}
