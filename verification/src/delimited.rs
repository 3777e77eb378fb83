//! A plugin for delimited text files (csv, tsv): the first row names the columns, and every
//! later row becomes one line, `index<TAB>fields-as-json`.
use vstd::prelude::*;
use vstd::utf8::{decode_utf8, valid_utf8};
use crate::reg::parser::{newline_end, trim_end, trim_end_text};
use crate::util::{
    blank, byte_window, check_byte_window, chars_of, decimal, decimal_text, extension_of,
    file_stat, from_utf8, has_extension, iso_text, json_object, json_object_text,
    keep_matching, matching, meta_entries, owned, prepare_search, string_of, take_bytes,
    term_compiles, texts, FileMeta, FileStat, MetaModel, MetaValue, ToolError,
};

verus! {

broadcast use vstd::string::group_string_axioms;

// ---------------------------------------------------------------------------------------------
// The delimiter
// ---------------------------------------------------------------------------------------------

/// The value of hexadecimal digit `c`, of either case.
pub open spec fn hex_digit(c: char) -> Option<nat> {
    let n = c as int;
    if 48 <= n <= 57 {
        Some((n - 48) as nat)
    } else if 97 <= n <= 102 {
        Some((n - 87) as nat)
    } else if 65 <= n <= 70 {
        Some((n - 55) as nat)
    } else {
        None
    }
}

/// Whether every character is a hexadecimal digit.
pub open spec fn all_hex(digits: Seq<char>) -> bool {
    forall|i: int| 0 <= i < digits.len() ==> (#[trigger] hex_digit(digits[i])) is Some
}

/// The number that hexadecimal digits write (their non-digits counted as zero).
pub open spec fn hex_value(digits: Seq<char>) -> nat
    decreases digits.len(),
{
    if digits.len() == 0 {
        0
    } else {
        let d = match hex_digit(digits.last()) {
            Some(d) => d,
            None => 0,
        };
        hex_value(digits.drop_last()) * 16 + d
    }
}

/// What `u8::from_str_radix(text, 16).ok()` gives: an optional `+`, then at least one
/// hexadecimal digit and nothing else, whose value fits in a byte.
pub open spec fn radix16_byte(text: Seq<char>) -> Option<u8> {
    let digits = if text.len() > 0 && text[0] == '+' {
        text.drop_first()
    } else {
        text
    };
    if digits.len() > 0 && all_hex(digits) && hex_value(digits) <= 255 {
        Some(hex_value(digits) as u8)
    } else {
        None
    }
}

proof fn lemma_hex_value_prefix(digits: Seq<char>, k: int)
    requires
        0 <= k <= digits.len(),
    ensures
        hex_value(digits.take(k)) <= hex_value(digits),
    decreases digits.len(),
{
    if k < digits.len() {
        lemma_hex_value_prefix(digits.drop_last(), k);
        assert(digits.drop_last().take(k) =~= digits.take(k));
    } else {
        assert(digits.take(k) =~= digits);
    }
}

fn hex_digit_of(c: char) -> (d: Option<u32>)
    ensures
        d matches Some(v) ==> hex_digit(c) == Some(v as nat),
        d is None ==> hex_digit(c) is None,
{
    let n = c as u32;
    if 48 <= n && n <= 57 {
        Some(n - 48)
    } else if 97 <= n && n <= 102 {
        Some(n - 87)
    } else if 65 <= n && n <= 70 {
        Some(n - 55)
    } else {
        None
    }
}

/// Reads a byte written in hexadecimal, as `u8::from_str_radix(text, 16).ok()` does.
pub fn parse_radix16_byte(text: &str) -> (byte: Option<u8>)
    ensures
        byte == radix16_byte(text@),
{
    let chars = chars_of(text);
    let len = chars.len();
    let start: usize = if len > 0 && chars[0] == '+' {
        1
    } else {
        0
    };
    let ghost digits = if text@.len() > 0 && text@[0] == '+' {
        text@.drop_first()
    } else {
        text@
    };
    assert(digits =~= chars@.subrange(start as int, len as int));
    if start >= len {
        return None;
    }
    let mut value: u32 = 0;
    let mut i = start;
    while i < len
        invariant
            start <= i <= len,
            len == chars@.len(),
            chars@ == text@,
            digits == (if text@.len() > 0 && text@[0] == '+' {
                text@.drop_first()
            } else {
                text@
            }),
            digits.len() > 0,
            digits == chars@.subrange(start as int, len as int),
            all_hex(chars@.subrange(start as int, i as int)),
            value as nat == hex_value(chars@.subrange(start as int, i as int)),
            value <= 255,
        decreases len - i,
    {
        let ghost before = chars@.subrange(start as int, i as int);
        let ghost after = chars@.subrange(start as int, i + 1);
        assert(after.drop_last() =~= before);
        let d = match hex_digit_of(chars[i]) {
            Some(d) => d,
            None => {
                assert(hex_digit(digits[i - start]) is None);
                return None;
            },
        };
        value = value * 16 + d;
        if value > 255 {
            proof {
                if all_hex(digits) {
                    lemma_hex_value_prefix(digits, i + 1 - start);
                    assert(digits.take(i + 1 - start) =~= after);
                }
            }
            return None;
        }
        i = i + 1;
    }
    Some(value as u8)
}

/// `s` without `prefix` at its start; `None` where it does not start so.
pub open spec fn strip_prefix_text(s: Seq<char>, prefix: Seq<char>) -> Option<Seq<char>> {
    if prefix.len() <= s.len() && s.take(prefix.len() as int) == prefix {
        Some(s.skip(prefix.len() as int))
    } else {
        None
    }
}

/// `s.strip_prefix(prefix)`, owned.
pub fn strip_prefix(s: &str, prefix: &str) -> (rest: Option<String>)
    ensures
        rest matches Some(r) ==> strip_prefix_text(s@, prefix@) == Some(r@),
        rest is None ==> strip_prefix_text(s@, prefix@) is None,
{
    let chars = chars_of(s);
    let wanted = chars_of(prefix);
    if wanted.len() > chars.len() {
        return None;
    }
    let mut i: usize = 0;
    while i < wanted.len()
        invariant
            wanted@ == prefix@,
            chars@ == s@,
            wanted@.len() <= chars@.len(),
            0 <= i <= wanted@.len(),
            forall|j: int| 0 <= j < i ==> chars@[j] == wanted@[j],
        decreases wanted@.len() - i,
    {
        if chars[i] != wanted[i] {
            assert(s@.take(prefix@.len() as int)[i as int] != prefix@[i as int]);
            return None;
        }
        i = i + 1;
    }
    assert(s@.take(prefix@.len() as int) =~= prefix@);
    let rest = vstd::slice::slice_subrange(chars.as_slice(), wanted.len(), chars.len());
    assert(rest@ =~= s@.skip(prefix@.len() as int));
    Some(string_of(rest))
}

/// The first line of a file, with its line break, as text; empty where it is not valid UTF-8
/// (as `BufRead::read_line` leaves its buffer).
pub open spec fn first_line_text(bytes: Seq<u8>) -> Seq<char> {
    let line = bytes.subrange(0, newline_end(bytes, 0));
    if valid_utf8(line) {
        decode_utf8(line)
    } else {
        Seq::empty()
    }
}

/// The separator that a Zeek log declares in its first header line, `#separator \x09`; a tab
/// where it declares none that can be read.
pub open spec fn declared_separator(header: Seq<char>) -> u8 {
    match strip_prefix_text(trim_end_text(header), "#separator \\x"@) {
        Some(hex) => match radix16_byte(hex) {
            Some(b) => b,
            None => 9,
        },
        None => 9,
    }
}

/// The delimiter of the file at `path` with these contents: a `.tsv` file's declared separator
/// (a tab by default), and a comma for any other file.
pub open spec fn delimiter_of(path: Seq<char>, bytes: Seq<u8>) -> u8 {
    if extension_of(path) != Some("tsv"@) {
        44
    } else {
        declared_separator(first_line_text(bytes))
    }
}

/// The delimiter of the file at `file_path` whose contents are `file`.
pub fn delimiter(file_path: &str, file: &[u8]) -> (d: u8)
    ensures
        d == delimiter_of(file_path@, file@),
{
    if !has_extension(file_path, "tsv") {
        return 44;
    }
    let mut end: usize = 0;
    while end < file.len() && file[end] != 10
        invariant
            end <= file@.len(),
            newline_end(file@, 0) == newline_end(file@, end as int),
        decreases file@.len() - end,
    {
        end = end + 1;
    }
    if end < file.len() {
        end = end + 1;
    }
    let header = match from_utf8(vstd::slice::slice_subrange(file, 0, end)) {
        Some(text) => text,
        None => String::new(),
    };
    assert(header@ == first_line_text(file@));
    let trimmed = trim_end(header.as_str());
    match strip_prefix(trimmed.as_str(), "#separator \\x") {
        Some(hex) => match parse_radix16_byte(hex.as_str()) {
            Some(b) => b,
            None => 9,
        },
        None => 9,
    }
}

// ---------------------------------------------------------------------------------------------
// Reading rows
// ---------------------------------------------------------------------------------------------

/// The header row that the `csv` crate reads from `bytes` with fields split at `delimiter`
/// (rows of any width accepted), or the message of its error.
pub uninterp spec fn csv_header_row(bytes: Seq<u8>, delimiter: u8) -> Result<Seq<Seq<char>>, Seq<char>>;

/// The rows after the header row that the `csv` crate reads from `bytes` with fields split at
/// `delimiter` (rows of any width accepted), in order; `None` for a row it cannot read.
pub uninterp spec fn csv_record_rows(bytes: Seq<u8>, delimiter: u8) -> Seq<Option<Seq<Seq<char>>>>;

/// Rows read as plain values.
pub open spec fn row_models(rows: Seq<Option<Vec<String>>>) -> Seq<Option<Seq<Seq<char>>>> {
    rows.map_values(
        |r: Option<Vec<String>>|
            match r {
                Some(fields) => Some(texts(fields@)),
                None => None,
            },
    )
}

/// `csv::ReaderBuilder::new().delimiter(delimiter).flexible(true).from_reader(bytes)`, then
/// `headers()`, its fields as strings and its error as its message. Claimed: the outcome
/// depends on the bytes and the delimiter alone.
#[verifier::external_body]
fn read_headers(bytes: &[u8], delimiter: u8) -> (headers: Result<Vec<String>, String>)
    ensures
        headers matches Ok(h) ==> csv_header_row(bytes@, delimiter) matches Ok(row) && row == texts(h@),
        headers matches Err(e) ==> csv_header_row(bytes@, delimiter) matches Err(m) && m == e@,
{
    let mut reader = ::csv::ReaderBuilder::new().delimiter(delimiter).flexible(true).from_reader(bytes);
    match reader.headers() {
        Ok(record) => Ok(record.iter().map(|field| field.to_string()).collect()),
        Err(e) => Err(e.to_string()),
    }
}

/// The same reader's `records()`, each record's fields as strings and each error as `None`.
/// Claimed: the rows depend on the bytes and the delimiter alone.
#[verifier::external_body]
fn read_records(bytes: &[u8], delimiter: u8) -> (rows: Vec<Option<Vec<String>>>)
    ensures
        row_models(rows@) == csv_record_rows(bytes@, delimiter),
{
    let mut reader = ::csv::ReaderBuilder::new().delimiter(delimiter).flexible(true).from_reader(bytes);
    reader.records().map(|r| r.ok().map(|record| record.iter().map(|f| f.to_string()).collect())).collect()
}

/// The name of column `column`: its header, or its index where the row is wider than the
/// header row.
pub open spec fn column_name(headers: Seq<Seq<char>>, column: int) -> Seq<char> {
    if column < headers.len() {
        headers[column]
    } else {
        decimal_text(column as nat)
    }
}

/// A row's fields keyed by column name, in column order.
pub open spec fn row_pairs(headers: Seq<Seq<char>>, row: Seq<Seq<char>>) -> Seq<(Seq<char>, MetaModel)> {
    Seq::new(row.len(), |c: int| (column_name(headers, c), MetaModel::Text(row[c])))
}

/// Row `index` (counted from zero among the rows that could be read) as
/// `index<TAB>fields-as-json`.
pub open spec fn row_text(index: nat, headers: Seq<Seq<char>>, row: Seq<Seq<char>>) -> Seq<char> {
    decimal_text(index) + seq!['\t'] + json_object_text(row_pairs(headers, row))
}

/// One row as `index<TAB>fields-as-json`, keyed by header name, or by column index where the
/// row is wider than the header row.
pub fn line(index: usize, headers: &Vec<String>, record: &Vec<String>) -> (text: String)
    ensures
        text@ == row_text(index as nat, texts(headers@), texts(record@)),
{
    let mut pairs: Vec<(String, MetaValue)> = Vec::new();
    let mut column: usize = 0;
    while column < record.len()
        invariant
            0 <= column <= record@.len(),
            meta_entries(pairs@) =~= row_pairs(texts(headers@), texts(record@)).take(column as int),
        decreases record@.len() - column,
    {
        let name = if column < headers.len() {
            headers[column].clone()
        } else {
            decimal(column as u64)
        };
        let ghost prev = pairs@;
        pairs.push((name, MetaValue::Text(record[column].clone())));
        proof {
            assert(meta_entries(pairs@) =~= meta_entries(prev).push(
                (name@, MetaModel::Text(record@[column as int]@)),
            ));
        }
        column = column + 1;
    }
    proof {
        assert(row_pairs(texts(headers@), texts(record@)).take(record@.len() as int) =~= row_pairs(
            texts(headers@),
            texts(record@),
        ));
        reveal_strlit("\t");
    }
    let mut text = decimal(index as u64);
    text.append("\t");
    text.append(json_object(&pairs).as_str());
    text
}

/// The rows that could be read, in order.
pub open spec fn readable_rows(rows: Seq<Option<Seq<Seq<char>>>>) -> Seq<Seq<Seq<char>>>
    decreases rows.len(),
{
    if rows.len() == 0 {
        Seq::empty()
    } else {
        let before = readable_rows(rows.drop_last());
        match rows.last() {
            Some(row) => before.push(row),
            None => before,
        }
    }
}

/// The lines of a table: each readable row, numbered from zero.
pub open spec fn table_lines(headers: Seq<Seq<char>>, rows: Seq<Option<Seq<Seq<char>>>>) -> Seq<Seq<char>> {
    let readable = readable_rows(rows);
    Seq::new(readable.len(), |i: int| row_text(i as nat, headers, readable[i]))
}

/// The lines of the delimited file at `path` with these contents, or the message of the error
/// that its header row gives.
pub open spec fn delimited_lines(path: Seq<char>, bytes: Seq<u8>) -> Result<Seq<Seq<char>>, Seq<char>> {
    let d = delimiter_of(path, bytes);
    match csv_header_row(bytes, d) {
        Ok(headers) => Ok(table_lines(headers, csv_record_rows(bytes, d))),
        Err(e) => Err(e),
    }
}

/// The lines of the readable rows, numbered from zero.
pub fn row_lines(headers: &Vec<String>, rows: &Vec<Option<Vec<String>>>) -> (lines: Vec<String>)
    ensures
        texts(lines@) == table_lines(texts(headers@), row_models(rows@)),
{
    let mut lines: Vec<String> = Vec::new();
    let mut i: usize = 0;
    while i < rows.len()
        invariant
            0 <= i <= rows@.len(),
            lines@.len() <= i,
            texts(lines@) =~= table_lines(texts(headers@), row_models(rows@).take(i as int)),
        decreases rows@.len() - i,
    {
        let ghost before = row_models(rows@).take(i as int);
        let ghost after = row_models(rows@).take(i + 1);
        assert(after.drop_last() =~= before);
        match &rows[i] {
            Some(record) => {
                let ghost prev = texts(lines@);
                let text = line(lines.len(), headers, record);
                lines.push(text);
                proof {
                    assert(texts(lines@) =~= prev.push(text@));
                    assert(texts(lines@) =~= table_lines(texts(headers@), after));
                }
            },
            None => {
                assert(readable_rows(after) =~= readable_rows(before));
            },
        }
        i = i + 1;
    }
    assert(row_models(rows@).take(rows@.len() as int) =~= row_models(rows@));
    lines
}

/// Reads the delimited file at `file_path` whose contents are `file` as lines; `CsvHeader`
/// where its header row cannot be read.
fn open_lines(file_path: &str, file: &[u8]) -> (lines: Result<Vec<String>, ToolError>)
    ensures
        lines matches Ok(l) ==> delimited_lines(file_path@, file@) == Ok::<Seq<Seq<char>>, Seq<char>>(
            texts(l@),
        ),
        lines matches Err(e) ==> (e matches ToolError::CsvHeader(m) && delimited_lines(file_path@, file@)
            == Err::<Seq<Seq<char>>, Seq<char>>(m@)),
{
    let d = delimiter(file_path, file);
    let headers = match read_headers(file, d) {
        Ok(h) => h,
        Err(e) => return Err(ToolError::CsvHeader(e)),
    };
    let rows = read_records(file, d);
    Ok(row_lines(&headers, &rows))
}

// ---------------------------------------------------------------------------------------------
// The plugin
// ---------------------------------------------------------------------------------------------

/// Search strategy for delimited text files.
pub struct CsvPlugin {}

/// The tools this plugin exposes.
pub struct CsvTools {}

impl CsvPlugin {
    pub fn new() -> (plugin: CsvPlugin) {
        CsvPlugin {}
    }

    pub fn name(&self) -> (name: String)
        ensures
            name@ == "csv-plugin"@,
    {
        owned("csv-plugin")
    }

    pub fn description(&self) -> (description: String)
        ensures
            description@ == "File system access to delimited text files (csv, tsv)."@,
    {
        owned("File system access to delimited text files (csv, tsv).")
    }

    /// Whether this plugin handles `file_path`: a `.csv` or a `.tsv` file.
    pub fn identify(&self, file_path: &str) -> (yes: bool)
        ensures
            yes == (extension_of(file_path@) == Some("csv"@) || extension_of(file_path@) == Some(
                "tsv"@,
            )),
    {
        has_extension(file_path, "csv") || has_extension(file_path, "tsv")
    }

    pub fn tools(&self) -> (tools: CsvTools) {
        CsvTools {}
    }
}

/// The metadata of a delimited file's summary.
pub open spec fn table_metadata(
    delimiter: u8,
    headers: Seq<Seq<char>>,
    row_count: nat,
) -> Seq<(Seq<char>, MetaModel)> {
    seq![
        ("delimiter"@, MetaModel::Text(seq![delimiter as char])),
        ("columns"@, MetaModel::Texts(headers)),
        ("rowCount"@, MetaModel::Number(row_count as u64)),
    ]
}

impl CsvTools {
    /// The lines of the delimited file at `file_path` (contents `file`) that contain
    /// `search_term` (smart case), in order.
    pub fn search(&self, file_path: &str, file: &[u8], search_term: &str) -> (found: Result<Vec<String>, ToolError>)
        ensures
            found matches Ok(lines) ==> {
                &&& !blank(search_term@)
                &&& term_compiles(search_term@)
                &&& delimited_lines(file_path@, file@) matches Ok(all) && texts(lines@) == matching(
                    search_term@,
                    all,
                )
            },
            found matches Err(ToolError::EmptySearchTerm) <==> blank(search_term@),
            found matches Err(ToolError::InvalidSearchTerm(_)) <==> !blank(search_term@)
                && !term_compiles(search_term@),
            found matches Err(ToolError::CsvHeader(m)) ==> !blank(search_term@) && term_compiles(
                search_term@) && delimited_lines(file_path@, file@) == Err::<Seq<Seq<char>>, Seq<char>>(
                m@,
            ),
            found is Err ==> (found matches Err(ToolError::EmptySearchTerm) || found matches Err(
                ToolError::InvalidSearchTerm(_)) || found matches Err(ToolError::CsvHeader(_))),
    {
        let matcher = match prepare_search(search_term) {
            Ok(m) => m,
            Err(e) => return Err(e),
        };
        let lines = match open_lines(file_path, file) {
            Ok(lines) => lines,
            Err(e) => return Err(e),
        };
        Ok(keep_matching(lines, &matcher))
    }

    /// The lines that a read of `max_bytes` bytes from byte `offset` of the file's lines,
    /// joined by newlines, shows; the first line shown is shown whatever its length.
    pub fn read(&self, file_path: &str, file: &[u8], offset: i64, max_bytes: i64) -> (rows: Result<Vec<String>, ToolError>)
        ensures
            rows matches Ok(lines) ==> {
                &&& offset >= 0
                &&& max_bytes > 0
                &&& delimited_lines(file_path@, file@) matches Ok(all) && texts(lines@) == byte_window(
                    all,
                    offset as nat,
                    max_bytes as nat,
                )
            },
            rows matches Err(ToolError::BadByteWindow) <==> (offset < 0 || max_bytes <= 0),
            rows matches Err(ToolError::CsvHeader(m)) ==> offset >= 0 && max_bytes > 0
                && delimited_lines(file_path@, file@) == Err::<Seq<Seq<char>>, Seq<char>>(m@),
            rows is Err ==> (rows matches Err(ToolError::BadByteWindow) || rows matches Err(
                ToolError::CsvHeader(_))),
    {
        let (start, max) = match check_byte_window(offset, max_bytes) {
            Ok(window) => window,
            Err(e) => return Err(e),
        };
        let lines = match open_lines(file_path, file) {
            Ok(lines) => lines,
            Err(e) => return Err(e),
        };
        Ok(take_bytes(&lines, start, max))
    }

    /// The summary of the delimited file at `file_path` (contents `file`, file-system facts
    /// `meta`): its delimiter, its columns, and how many rows follow the header row, readable
    /// or not.
    pub fn stat(&self, file_path: &str, file: &[u8], meta: &FileMeta) -> (stat: Result<FileStat, ToolError>)
        ensures
            stat matches Ok(s) ==> {
                let d = delimiter_of(file_path@, file@);
                &&& s.format@ == "csv"@
                &&& s.size_bytes == meta.len as i64
                &&& s.modified_at@ == iso_text(meta.modified)
                &&& s.created_at@ == iso_text(meta.created)
                &&& csv_header_row(file@, d) matches Ok(headers) && meta_entries(s.metadata@)
                    == table_metadata(d, headers, csv_record_rows(file@, d).len())
            },
            stat matches Err(e) ==> (e matches ToolError::CsvHeader(m) && csv_header_row(
                file@,
                delimiter_of(file_path@, file@),
            ) == Err::<Seq<Seq<char>>, Seq<char>>(m@)),
    {
        let d = delimiter(file_path, file);
        let headers = match read_headers(file, d) {
            Ok(h) => h,
            Err(e) => return Err(ToolError::CsvHeader(e)),
        };
        let rows = read_records(file, d);
        let count = rows.len() as u64;
        let mut shown: Vec<char> = Vec::new();
        shown.push(d as char);
        let metadata = vec![
            (owned("delimiter"), MetaValue::Text(string_of(shown.as_slice()))),
            (owned("columns"), MetaValue::Texts(headers)),
            (owned("rowCount"), MetaValue::Number(count)),
        ];
        proof {
            assert(row_models(rows@).len() == rows@.len());
            assert(meta_entries(metadata@) =~= table_metadata(d, csv_header_row(file@, d)->Ok_0, csv_record_rows(file@, d).len()));
        }
        Ok(file_stat(owned("csv"), meta, metadata))
    }
}

// ---------------------------------------------------------------------------------------------
// Laws
// ---------------------------------------------------------------------------------------------

proof fn lemma_readable_rows_len(rows: Seq<Option<Seq<Seq<char>>>>)
    ensures
        readable_rows(rows).len() <= rows.len(),
        readable_rows(rows).len() == rows.len() <==> forall|i: int| 0 <= i < rows.len() ==> (
        #[trigger] rows[i]) is Some,
    decreases rows.len(),
{
    if rows.len() > 0 {
        lemma_readable_rows_len(rows.drop_last());
        if readable_rows(rows).len() == rows.len() {
            assert forall|i: int| 0 <= i < rows.len() implies (#[trigger] rows[i]) is Some by {
                if i < rows.len() - 1 {
                    assert(rows.drop_last()[i] == rows[i]);
                }
            }
        }
        if forall|i: int| 0 <= i < rows.len() ==> (#[trigger] rows[i]) is Some {
            assert forall|i: int| 0 <= i < rows.drop_last().len() implies (
            #[trigger] rows.drop_last()[i]) is Some by {
                assert(rows.drop_last()[i] == rows[i]);
            }
            assert(rows[rows.len() - 1] is Some);
        }
    }
}

/// `stat`'s `rowCount` counts every row after the header row, readable or not, so `search` and
/// `read` see at most that many lines, and exactly that many when every row can be read.
pub proof fn lines_at_most_row_count(headers: Seq<Seq<char>>, rows: Seq<Option<Seq<Seq<char>>>>)
    ensures
        table_lines(headers, rows).len() <= rows.len(),
        table_lines(headers, rows).len() == rows.len() <==> forall|i: int|
            0 <= i < rows.len() ==> (#[trigger] rows[i]) is Some,
{
    lemma_readable_rows_len(rows);
}

proof fn lemma_nibble_reads_back(x: nat)
    requires
        x < 16,
    ensures
        hex_digit(crate::util::nibble(x)) == Some(x),
{
    if x < 10 {
        assert(crate::util::nibble(x) as int == 48 + x);
    } else {
        assert(crate::util::nibble(x) as int == 87 + x);
    }
}

/// A Zeek separator written as two hexadecimal digits, either case, reads back as that byte,
/// and the declaration's prefix comes off whole.
pub proof fn separator_reads_back(b: u8, rest: Seq<char>)
    ensures
        radix16_byte(seq![crate::util::nibble(b as nat / 16), crate::util::nibble(b as nat % 16)]) == Some(b),
        strip_prefix_text("#separator \\x"@ + rest, "#separator \\x"@) == Some(rest),
{
    let digits = seq![crate::util::nibble(b as nat / 16), crate::util::nibble(b as nat % 16)];
    assert(digits.drop_last() =~= seq![crate::util::nibble(b as nat / 16)]);
    assert(seq![crate::util::nibble(b as nat / 16)].drop_last() =~= Seq::<char>::empty());
    lemma_nibble_reads_back(b as nat / 16);
    lemma_nibble_reads_back(b as nat % 16);
    let one = seq![crate::util::nibble(b as nat / 16)];
    assert(one.last() == crate::util::nibble(b as nat / 16));
    assert(one.drop_last() =~= Seq::<char>::empty());
    assert(hex_value(one.drop_last()) == 0);
    assert(hex_value(one) == b as nat / 16);
    assert(digits.drop_last() =~= one);
    assert(digits.last() == crate::util::nibble(b as nat % 16));
    assert(hex_value(digits) == b);
    let prefix = "#separator \\x"@;
    assert((prefix + rest).take(prefix.len() as int) =~= prefix);
    assert((prefix + rest).skip(prefix.len() as int) =~= rest);
}

/// The delimiter that `stat` reports is the one the rows are split at: its first metadata
/// entry is `delimiter`, a text of one character whose code is that byte (`delimiter_of` of
/// the file, a tab for a Zeek log that declares `\x09`, a comma for a `.csv` file).
pub proof fn stat_shows_the_split_delimiter(delimiter: u8, headers: Seq<Seq<char>>, row_count: nat)
    ensures
        table_metadata(delimiter, headers, row_count)[0].0 == "delimiter"@,
        table_metadata(delimiter, headers, row_count)[0].1 matches MetaModel::Text(t) && t.len() == 1
            && t[0] as u32 == delimiter as u32,
{
}

} // verus!
