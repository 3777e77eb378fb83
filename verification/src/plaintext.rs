//! A plugin for plain text, the fallback for any file no other plugin claims: each line is
//! shown as `number<TAB>line`, numbered from one.
use vstd::prelude::*;
use vstd::utf8::{decode_utf8, valid_utf8};
use crate::reg::parser::newline_end;
use crate::util::{
    from_utf8,
    blank, check_row_window, decimal, decimal_text, file_stat, iso_text, keep_matching, matching,
    meta_entries, owned, prepare_search, row_window, take_rows, term_compiles, texts, FileMeta,
    FileStat, MetaModel, MetaValue, ToolError,
};

verus! {

broadcast use vstd::string::group_string_axioms;

/// The content of a line read from `at` to `end`: without its `\n`, and without a `\r` just
/// before that `\n`.
pub open spec fn line_content(bytes: Seq<u8>, at: int, end: int) -> Seq<u8> {
    let seg = bytes.subrange(at, end);
    if seg.len() > 0 && seg.last() == 10 {
        let body = seg.drop_last();
        if body.len() > 0 && body.last() == 13 {
            body.drop_last()
        } else {
            body
        }
    } else {
        seg
    }
}

/// The lines of text from byte `at` on, as `BufRead::lines` yields them, stopping at the first
/// line that is not valid UTF-8 (this plugin also sees binary files).
pub open spec fn text_lines_from(bytes: Seq<u8>, at: int) -> Seq<Seq<char>>
    decreases bytes.len() - at,
{
    if at < 0 || at >= bytes.len() {
        Seq::empty()
    } else {
        let end = newline_end(bytes, at);
        let content = line_content(bytes, at, end);
        if valid_utf8(content) {
            proof {
                crate::reg::parser::lemma_raw_line_advances(bytes, false, at);
            }
            seq![decode_utf8(content)] + text_lines_from(bytes, end)
        } else {
            Seq::empty()
        }
    }
}

/// The lines of a text file.
pub open spec fn text_lines(bytes: Seq<u8>) -> Seq<Seq<char>> {
    text_lines_from(bytes, 0)
}

/// The lines of a text file, up to the first that is not valid UTF-8. There are no more lines
/// than bytes.
pub fn lines(bytes: &[u8]) -> (out: Vec<String>)
    ensures
        texts(out@) == text_lines(bytes@),
        out@.len() <= bytes@.len(),
{
    let len = bytes.len();
    let mut out: Vec<String> = Vec::new();
    let mut at: usize = 0;
    while at < len
        invariant
            len == bytes@.len(),
            at <= len,
            out@.len() <= at,
            text_lines(bytes@) == texts(out@) + text_lines_from(bytes@, at as int),
        decreases len - at,
    {
        let mut end = at;
        while end < len && bytes[end] != 10
            invariant
                at <= end <= len,
                len == bytes@.len(),
                at < len,
                newline_end(bytes@, at as int) == newline_end(bytes@, end as int),
                forall|k: int| at <= k < end ==> bytes@[k] != 10,
            decreases len - end,
        {
            end = end + 1;
        }
        let ghost newline = end;
        let mut stop = end;
        if end < len {
            end = end + 1;
            if stop > at && bytes[stop - 1] == 13 {
                stop = stop - 1;
            }
        }
        let segment = vstd::slice::slice_subrange(bytes, at, stop);
        proof {
            crate::reg::parser::lemma_raw_line_advances(bytes@, false, at as int);
            assert(end == newline_end(bytes@, at as int));
            let seg = bytes@.subrange(at as int, end as int);
            if newline < len {
                assert(seg.drop_last() =~= bytes@.subrange(at as int, newline as int));
            } else if newline > at {
                assert(seg.last() == bytes@[newline - 1]);
            }
            assert(segment@ =~= line_content(bytes@, at as int, end as int));
        }
        match from_utf8(segment) {
            Some(text) => {
                let ghost prev = texts(out@);
                out.push(text);
                proof {
                    let rest = text_lines_from(bytes@, end as int);
                    assert(texts(out@) =~= prev.push(text@));
                    assert(prev.push(text@) + rest =~= prev + (seq![text@] + rest));
                }
                at = end;
            },
            None => {
                proof {
                    assert(texts(out@) + Seq::<Seq<char>>::empty() =~= texts(out@));
                }
                return out;
            },
        }
    }
    proof {
        assert(texts(out@) + Seq::<Seq<char>>::empty() =~= texts(out@));
    }
    out
}

/// Line `index` (counted from zero) shown as `number<TAB>line`, numbered from one.
pub open spec fn numbered_text(index: nat, line: Seq<char>) -> Seq<char> {
    decimal_text(index + 1) + seq!['\t'] + line
}

/// Every line shown with its number.
pub open spec fn numbered(lines: Seq<Seq<char>>) -> Seq<Seq<char>> {
    Seq::new(lines.len(), |i: int| numbered_text(i as nat, lines[i]))
}

/// Shows each line as `number<TAB>line`, numbered from one.
pub fn number_lines(lines: &Vec<String>) -> (shown: Vec<String>)
    ensures
        texts(shown@) == numbered(texts(lines@)),
{
    let mut shown: Vec<String> = Vec::new();
    let mut i: usize = 0;
    while i < lines.len()
        invariant
            0 <= i <= lines@.len(),
            texts(shown@) =~= numbered(texts(lines@)).take(i as int),
        decreases lines@.len() - i,
    {
        proof {
            reveal_strlit("\t");
        }
        let mut text = decimal((i + 1) as u64);
        text.append("\t");
        text.append(lines[i].as_str());
        let ghost prev = texts(shown@);
        shown.push(text);
        proof {
            assert(text@ == numbered_text(i as nat, lines@[i as int]@));
            assert(texts(shown@) =~= prev.push(text@));
            assert(numbered(texts(lines@)).take(i + 1) =~= numbered(texts(lines@)).take(i as int).push(
                text@,
            ));
        }
        i = i + 1;
    }
    shown
}

/// Search strategy for plain text files; it claims every file.
pub struct PlaintextPlugin {}

/// The tools this plugin exposes.
pub struct PlaintextTools {}

impl PlaintextPlugin {
    pub fn new() -> (plugin: PlaintextPlugin) {
        PlaintextPlugin {}
    }

    pub fn name(&self) -> (name: String)
        ensures
            name@ == "plaintext-plugin"@,
    {
        owned("plaintext-plugin")
    }

    pub fn description(&self) -> (description: String)
        ensures
            description@ == "File system access to plain text files. Fallback for any file no other plugin claims."@,
    {
        owned("File system access to plain text files. Fallback for any file no other plugin claims.")
    }

    /// Every file is plain text to this plugin, whatever its path.
    pub fn identify(&self, file_path: &str) -> (yes: bool)
        ensures
            yes,
    {
        true
    }

    pub fn tools(&self) -> (tools: PlaintextTools) {
        PlaintextTools {}
    }
}

/// The metadata of a plain text file's summary.
pub open spec fn text_metadata(bytes: Seq<u8>) -> Seq<(Seq<char>, MetaModel)> {
    seq![("lineCount"@, MetaModel::Number(text_lines(bytes).len() as u64))]
}

impl PlaintextTools {
    /// The numbered lines of `file` that contain `search_term` (smart case), in order.
    pub fn search(&self, file: &[u8], search_term: &str) -> (found: Result<Vec<String>, ToolError>)
        ensures
            found matches Ok(lines) ==> {
                &&& !blank(search_term@)
                &&& term_compiles(search_term@)
                &&& texts(lines@) == matching(search_term@, numbered(text_lines(file@)))
            },
            found matches Err(ToolError::EmptySearchTerm) <==> blank(search_term@),
            found matches Err(ToolError::InvalidSearchTerm(_)) <==> !blank(search_term@)
                && !term_compiles(search_term@),
            found is Err ==> (found matches Err(ToolError::EmptySearchTerm) || found matches Err(
                ToolError::InvalidSearchTerm(_))),
    {
        let matcher = match prepare_search(search_term) {
            Ok(m) => m,
            Err(e) => return Err(e),
        };
        let all = lines(file);
        Ok(keep_matching(number_lines(&all), &matcher))
    }

    /// Lines `offset_rows..offset_rows + max_rows` of `file`, numbered as in the whole file.
    pub fn read(&self, file: &[u8], offset_rows: i64, max_rows: i64) -> (rows: Result<Vec<String>, ToolError>)
        ensures
            rows matches Ok(lines) ==> {
                &&& offset_rows >= 0
                &&& max_rows > 0
                &&& texts(lines@) == row_window(
                    numbered(text_lines(file@)),
                    offset_rows as usize as nat,
                    max_rows as usize as nat,
                )
            },
            rows is Err <==> (offset_rows < 0 || max_rows <= 0),
            rows is Err ==> (rows matches Err(ToolError::BadRowWindow)),
    {
        let (offset, max) = match check_row_window(offset_rows, max_rows) {
            Ok(window) => window,
            Err(e) => return Err(e),
        };
        let all = lines(file);
        Ok(take_rows(number_lines(&all), offset, max))
    }

    /// The summary of `file`, whose file-system facts are `meta`: its line count.
    pub fn stat(&self, file: &[u8], meta: &FileMeta) -> (stat: FileStat)
        ensures
            stat.format@ == "plaintext"@,
            stat.size_bytes == meta.len as i64,
            stat.modified_at@ == iso_text(meta.modified),
            stat.created_at@ == iso_text(meta.created),
            meta_entries(stat.metadata@) == text_metadata(file@),
    {
        let all = lines(file);
        let count = all.len() as u64;
        let metadata = vec![(owned("lineCount"), MetaValue::Number(count))];
        proof {
            assert(meta_entries(metadata@) =~= text_metadata(file@));
        }
        file_stat(owned("plaintext"), meta, metadata)
    }
}

/// A read numbers its lines by their place in the whole file: line `k` of the window read
/// from row `offset` is line `offset + k` of the file, shown with number `offset + k + 1`.
pub proof fn read_numbers_lines_by_their_place(lines: Seq<Seq<char>>, offset: nat, max: nat)
    ensures
        forall|k: int|
            0 <= k < row_window(numbered(lines), offset, max).len() ==> #[trigger] row_window(
                numbered(lines),
                offset,
                max,
            )[k] == numbered_text((offset + k) as nat, lines[offset + k]),
{
    crate::util::row_windows_compose(numbered(lines), offset, max, 0);
}

} // verus!
