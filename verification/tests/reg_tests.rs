use log_forensics::reg::constants::Patterns;
use log_forensics::reg::parser::{key_path, parse, read_lines, trim, trim_end};
use log_forensics::reg::{version, RegPlugin};
use log_forensics::util::{FileMeta, MetaValue, ToolError};

const EXPORT: &str = "Windows Registry Editor Version 5.00\r\n\r\n[HKEY_CURRENT_USER\\Test]\r\n\"Name\"=\"value\"\r\n@=dword:00000001\r\n\r\n[HKEY_CURRENT_USER\\Test\\Sub]\r\n\"Bin\"=hex:01,02,\\\r\n  03\r\n";

fn strings(items: &[&str]) -> Vec<String> {
    items.iter().map(|s| s.to_string()).collect()
}

fn expected() -> Vec<String> {
    strings(&[
        "[HKEY_CURRENT_USER\\Test]",
        "HKEY_CURRENT_USER\\Test\tName\t\"value\"",
        "HKEY_CURRENT_USER\\Test\t(Default)\tdword:00000001",
        "[HKEY_CURRENT_USER\\Test\\Sub]",
        "HKEY_CURRENT_USER\\Test\\Sub\tBin\thex:01,02,03",
    ])
}

fn utf16(text: &str) -> Vec<u8> {
    let mut bytes = vec![0xff, 0xfe];
    for unit in text.encode_utf16() {
        bytes.extend_from_slice(&unit.to_le_bytes());
    }
    bytes
}

#[test]
fn trims_white_space() {
    assert_eq!(trim_end("  a b \t\r\n"), "  a b");
    assert_eq!(trim("  a b \t"), "a b");
    assert_eq!(trim(""), "");
    assert_eq!(trim("\u{3000}a\u{85}\u{2009}"), "a");
    assert_eq!(trim("\u{200b}a"), "\u{200b}a");
}

#[test]
fn reads_logical_lines() {
    let lines = read_lines(EXPORT.as_bytes());
    assert_eq!(lines[0], "Windows Registry Editor Version 5.00");
    assert!(lines.iter().any(|l| l == "\"Bin\"=hex:01,02,03"));
    assert_eq!(read_lines(&utf16(EXPORT)), lines);
}

#[test]
fn parses_keys_and_values() {
    let patterns = Patterns::new();
    let lines = read_lines(EXPORT.as_bytes());
    let keys = parse(&patterns, &lines);
    assert_eq!(keys.len(), 2);
    assert_eq!(keys[0].path, "HKEY_CURRENT_USER\\Test");
    assert_eq!(keys[0].values.len(), 2);
    assert_eq!(keys[0].values[1].name, None);
    assert_eq!(keys[0].values[1].kind, "dword");
    assert_eq!(keys[1].values[0].data, "01,02,03");
    assert_eq!(key_path(&patterns, "[HKLM\\X]  "), Some("HKLM\\X".to_string()));
    assert_eq!(key_path(&patterns, "HKLM\\X"), None);
    assert_eq!(version(&patterns, &lines).ok().unwrap(), "Windows Registry Editor Version 5.00");
    assert!(matches!(version(&patterns, &strings(&["hello"])), Err(ToolError::NotARegistryExport)));
}

#[test]
fn reg_tools() {
    let plugin = RegPlugin::new();
    assert_eq!(plugin.name(), "reg-plugin");
    assert!(plugin.identify("x.reg") && !plugin.identify("x.regx"));
    let tools = plugin.tools();
    assert_eq!(tools.read(EXPORT.as_bytes(), 0, 100).ok().unwrap(), expected());
    assert_eq!(tools.read(&utf16(EXPORT), 0, 100).ok().unwrap(), expected());
    assert_eq!(tools.read(EXPORT.as_bytes(), 1, 2).ok().unwrap(), expected()[1..3].to_vec());
    assert_eq!(tools.search(EXPORT.as_bytes(), "sub").ok().unwrap(), expected()[3..5].to_vec());
    assert!(matches!(tools.read(EXPORT.as_bytes(), 0, -3), Err(ToolError::BadRowWindow)));
    let stat = tools.stat(EXPORT.as_bytes(), &FileMeta { len: 1, modified: None, created: None }).ok().unwrap();
    assert_eq!(stat.format, "reg");
    let get = |key: &str| stat.metadata.iter().find(|(k, _)| k == key).map(|(_, v)| v);
    assert!(matches!(get("keyCount"), Some(MetaValue::Number(2))));
    assert!(matches!(get("valueCount"), Some(MetaValue::Number(3))));
    assert!(matches!(tools.stat(b"not an export", &FileMeta { len: 1, modified: None, created: None }), Err(ToolError::NotARegistryExport)));
}

#[test]
fn lines_are_one_per_key_and_value() {
    let tools = RegPlugin::new().tools();
    let lines = tools.read(EXPORT.as_bytes(), 0, 1000).ok().unwrap();
    assert_eq!(lines.len(), 2 + 3);
}
