//! Reading an exported registry file: its lines, in either encoding, and the keys they hold.
use vstd::prelude::*;
use crate::journal::parser_utils::{from_utf8_lossy, lossy_text};
use crate::util::{chars_of, is_whitespace, string_of, texts, whitespace};
use super::constants::{
    bracketed_path, capture_path, capture_value, value_line, Patterns, Value, ValueModel,
};

verus! {

broadcast use vstd::string::group_string_axioms;

/// The text that UTF-16 code units read as, each unpaired surrogate replaced by U+FFFD.
pub uninterp spec fn utf16_lossy(units: Seq<u16>) -> Seq<char>;

/// `String::from_utf16_lossy(units)`. Claimed, as std documents: the text depends on the units
/// alone.
#[verifier::external_body]
fn from_utf16_lossy(units: &[u16]) -> (text: String)
    ensures
        text@ == utf16_lossy(units@),
{
    String::from_utf16_lossy(units)
}

/// Where the line starting at `at` ends in a single-byte file: just past its `\n`, or at the
/// end of the file.
pub open spec fn newline_end(bytes: Seq<u8>, at: int) -> int
    decreases bytes.len() - at,
{
    if at >= bytes.len() {
        bytes.len() as int
    } else if bytes[at] == 10 {
        at + 1
    } else {
        newline_end(bytes, at + 1)
    }
}

/// The UTF-16 code unit whose little-endian bytes start at `at`.
pub open spec fn unit_at(bytes: Seq<u8>, at: int) -> u16 {
    (bytes[at] as int + 256 * bytes[at + 1] as int) as u16
}

/// The code units of the UTF-16 line starting at `at`, up to its `\n` unit, and where reading
/// stops: past that `\n`, or at the end of the file where no whole unit is left.
pub open spec fn utf16_units(bytes: Seq<u8>, at: int) -> (Seq<u16>, int)
    decreases bytes.len() - at,
{
    if at < 0 || at + 2 > bytes.len() {
        (Seq::empty(), bytes.len() as int)
    } else if unit_at(bytes, at) == 10 {
        (Seq::empty(), at + 2)
    } else {
        let (rest, end) = utf16_units(bytes, at + 2);
        (seq![unit_at(bytes, at)] + rest, end)
    }
}

/// The line read from `at` and where reading stops, or `None` at the end of the file. A
/// single-byte line keeps its `\n`.
pub open spec fn raw_line(bytes: Seq<u8>, utf16: bool, at: int) -> Option<(Seq<char>, int)> {
    if utf16 {
        if at < 0 || at + 2 > bytes.len() {
            None
        } else {
            let (units, end) = utf16_units(bytes, at);
            Some((utf16_lossy(units), end))
        }
    } else {
        if at < 0 || at >= bytes.len() {
            None
        } else {
            let end = newline_end(bytes, at);
            Some((lossy_text(bytes.subrange(at, end)), end))
        }
    }
}

/// `s` without its trailing white space.
pub open spec fn trim_end_text(s: Seq<char>) -> Seq<char>
    decreases s.len(),
{
    if s.len() > 0 && whitespace(s.last()) {
        trim_end_text(s.drop_last())
    } else {
        s
    }
}

/// `s` without its leading white space.
pub open spec fn trim_start_text(s: Seq<char>) -> Seq<char>
    decreases s.len(),
{
    if s.len() > 0 && whitespace(s[0]) {
        trim_start_text(s.drop_first())
    } else {
        s
    }
}

/// `s` without white space at either end.
pub open spec fn trim_text(s: Seq<char>) -> Seq<char> {
    trim_start_text(trim_end_text(s))
}

/// Reading a line moves forward.
pub proof fn lemma_raw_line_advances(bytes: Seq<u8>, utf16: bool, at: int)
    ensures
        raw_line(bytes, utf16, at) matches Some((_, end)) ==> at < end <= bytes.len(),
{
    if utf16 {
        if 0 <= at && at + 2 <= bytes.len() {
            lemma_utf16_units_bound(bytes, at);
        }
    } else if 0 <= at < bytes.len() {
        lemma_newline_end_bound(bytes, at);
    }
}

proof fn lemma_newline_end_bound(bytes: Seq<u8>, at: int)
    requires
        0 <= at < bytes.len(),
    ensures
        at < newline_end(bytes, at) <= bytes.len(),
    decreases bytes.len() - at,
{
    reveal_with_fuel(newline_end, 2);
    if bytes[at] != 10 && at + 1 < bytes.len() {
        lemma_newline_end_bound(bytes, at + 1);
    }
}

proof fn lemma_utf16_units_bound(bytes: Seq<u8>, at: int)
    requires
        0 <= at,
        at + 2 <= bytes.len(),
    ensures
        at + 2 <= utf16_units(bytes, at).1 <= bytes.len(),
    decreases bytes.len() - at,
{
    reveal_with_fuel(utf16_units, 2);
    if unit_at(bytes, at) != 10 && at + 4 <= bytes.len() {
        lemma_utf16_units_bound(bytes, at + 2);
    }
}

/// A line that ends in `\` continues on the next line (a long hex list wraps that way): the
/// `\` is dropped and the next line, trimmed, appended, until a line does not end in `\` or the
/// file ends. The result, and where reading stops.
pub open spec fn join_continued(bytes: Seq<u8>, utf16: bool, line: Seq<char>, at: int) -> (Seq<char>, int)
    decreases bytes.len() - at,
{
    if line.len() > 0 && line.last() == '\\' {
        match raw_line(bytes, utf16, at) {
            None => (line, bytes.len() as int),
            Some((rest, end)) => {
                proof {
                    lemma_raw_line_advances(bytes, utf16, at);
                }
                join_continued(bytes, utf16, line.drop_last() + trim_text(rest), end)
            },
        }
    } else {
        (line, at)
    }
}

/// The logical line read from `at` (trailing white space removed, continuations joined) and
/// where reading stops, or `None` at the end of the file.
pub open spec fn logical_line(bytes: Seq<u8>, utf16: bool, at: int) -> Option<(Seq<char>, int)> {
    match raw_line(bytes, utf16, at) {
        None => None,
        Some((first, end)) => Some(join_continued(bytes, utf16, trim_end_text(first), end)),
    }
}

/// Reading a logical line moves forward.
pub proof fn lemma_logical_line_advances(bytes: Seq<u8>, utf16: bool, at: int)
    ensures
        logical_line(bytes, utf16, at) matches Some((_, end)) ==> at < end <= bytes.len(),
{
    lemma_raw_line_advances(bytes, utf16, at);
    if let Some((first, end)) = raw_line(bytes, utf16, at) {
        lemma_join_advances(bytes, utf16, trim_end_text(first), end);
    }
}

proof fn lemma_join_advances(bytes: Seq<u8>, utf16: bool, line: Seq<char>, at: int)
    requires
        at <= bytes.len(),
    ensures
        at <= join_continued(bytes, utf16, line, at).1 <= bytes.len(),
    decreases bytes.len() - at,
{
    if line.len() > 0 && line.last() == '\\' {
        lemma_raw_line_advances(bytes, utf16, at);
        if let Some((rest, end)) = raw_line(bytes, utf16, at) {
            lemma_join_advances(bytes, utf16, line.drop_last() + trim_text(rest), end);
        }
    }
}

/// The logical lines from `at` to the end of the file.
pub open spec fn lines_from(bytes: Seq<u8>, utf16: bool, at: int) -> Seq<Seq<char>>
    decreases bytes.len() - at,
{
    match logical_line(bytes, utf16, at) {
        None => Seq::empty(),
        Some((line, end)) => {
            proof {
                lemma_logical_line_advances(bytes, utf16, at);
            }
            seq![line] + lines_from(bytes, utf16, end)
        },
    }
}

/// Whether a file starts with the UTF-16LE byte order mark; version 5.00 exports do, and
/// REGEDIT4 ones, which are single-byte text, do not.
pub open spec fn has_bom(bytes: Seq<u8>) -> bool {
    bytes.len() >= 2 && bytes[0] == 0xff && bytes[1] == 0xfe
}

/// The logical lines of an exported registry file.
pub open spec fn file_lines(bytes: Seq<u8>) -> Seq<Seq<char>> {
    if has_bom(bytes) {
        lines_from(bytes, true, 2)
    } else {
        lines_from(bytes, false, 0)
    }
}

/// `s` without its trailing white space.
pub fn trim_end(s: &str) -> (t: String)
    ensures
        t@ == trim_end_text(s@),
{
    let chars = chars_of(s);
    let mut end = chars.len();
    assert(chars@.take(end as int) =~= s@);
    while end > 0 && is_whitespace(chars[end - 1])
        invariant
            chars@ == s@,
            0 <= end <= chars@.len(),
            trim_end_text(s@) == trim_end_text(chars@.take(end as int)),
        decreases end,
    {
        proof {
            assert(chars@.take(end as int).drop_last() =~= chars@.take(end - 1));
        }
        end = end - 1;
    }
    proof {
        assert(chars@.take(end as int) =~= chars@.subrange(0, end as int));
    }
    string_of(vstd::slice::slice_subrange(chars.as_slice(), 0, end))
}

/// `s` without white space at either end.
pub fn trim(s: &str) -> (t: String)
    ensures
        t@ == trim_text(s@),
{
    let chars = chars_of(trim_end(s).as_str());
    let mut start: usize = 0;
    assert(chars@.skip(0) =~= chars@);
    while start < chars.len() && is_whitespace(chars[start])
        invariant
            0 <= start <= chars@.len(),
            trim_text(s@) == trim_start_text(chars@.skip(start as int)),
        decreases chars@.len() - start,
    {
        proof {
            assert(chars@.skip(start as int).drop_first() =~= chars@.skip(start + 1));
        }
        start = start + 1;
    }
    proof {
        assert(chars@.skip(start as int) =~= chars@.subrange(start as int, chars@.len() as int));
    }
    string_of(vstd::slice::slice_subrange(chars.as_slice(), start, chars.len()))
}

/// The lines of an exported registry file, read one at a time.
pub struct Lines<'a> {
    pub bytes: &'a [u8],
    pub at: usize,
    pub utf16: bool,
}

impl<'a> Lines<'a> {
    /// Starts reading `bytes`, past the byte order mark where there is one.
    pub fn open(bytes: &'a [u8]) -> (lines: Lines<'a>)
        ensures
            lines.bytes == bytes,
            lines.utf16 == has_bom(bytes@),
            lines.at == (if has_bom(bytes@) { 2int } else { 0int }),
    {
        let bom = bytes.len() >= 2 && bytes[0] == 0xff && bytes[1] == 0xfe;
        Lines { bytes, at: if bom { 2 } else { 0 }, utf16: bom }
    }

    /// One line in the file's encoding, or `None` at the end of the file.
    fn read_line(&mut self) -> (line: Option<String>)
        requires
            old(self).at <= old(self).bytes@.len(),
        ensures
            final(self).bytes == old(self).bytes,
            final(self).utf16 == old(self).utf16,
            final(self).at <= final(self).bytes@.len(),
            match raw_line(old(self).bytes@, old(self).utf16, old(self).at as int) {
                Some((text, end)) => line matches Some(l) && l@ == text && final(self).at == end,
                None => line is None && final(self).at == final(self).bytes@.len(),
            },
    {
        let len = self.bytes.len();
        if self.utf16 {
            if len - self.at < 2 {
                self.at = len;
                return None;
            }
            let start = self.at;
            let mut units: Vec<u16> = Vec::new();
            proof {
                assert(self.bytes@.subrange(start as int, start as int) =~= Seq::<u8>::empty());
            }
            loop
                invariant
                    self.bytes == old(self).bytes,
                    self.utf16 == old(self).utf16,
                    len == self.bytes@.len(),
                    start == old(self).at,
                    self.utf16,
                    start + 2 <= len,
                    start <= self.at,
                    self.at + 2 <= len,
                    utf16_units(self.bytes@, start as int) == ({
                        let (rest, end) = utf16_units(self.bytes@, self.at as int);
                        (units@ + rest, end)
                    }),
                decreases len - self.at,
            {
                let unit = (self.bytes[self.at] as u16) + 256 * (self.bytes[self.at + 1] as u16);
                assert(unit == unit_at(self.bytes@, self.at as int));
                if unit == 10 {
                    proof {
                        assert(utf16_units(self.bytes@, self.at as int) == (Seq::<u16>::empty(), self.at + 2));
                    }
                    self.at = self.at + 2;
                    proof {
                        assert(units@ + Seq::<u16>::empty() =~= units@);
                    }
                    return Some(from_utf16_lossy(units.as_slice()));
                }
                let ghost prev = units@;
                units.push(unit);
                proof {
                    let (rest, end) = utf16_units(self.bytes@, self.at + 2);
                    assert(prev + (seq![unit] + rest) =~= units@ + rest);
                }
                if len - (self.at + 2) < 2 {
                    proof {
                        assert(units@ + Seq::<u16>::empty() =~= units@);
                        assert(utf16_units(self.bytes@, self.at + 2) == (Seq::<u16>::empty(), len as int));
                    }
                    self.at = len;
                    return Some(from_utf16_lossy(units.as_slice()));
                }
                self.at = self.at + 2;
            }
        } else {
            if self.at >= len {
                return None;
            }
            let start = self.at;
            let mut end = start;
            while end < len && self.bytes[end] != 10
                invariant
                    start <= end <= len,
                    len == self.bytes@.len(),
                    start < len,
                    newline_end(self.bytes@, start as int) == newline_end(self.bytes@, end as int),
                decreases len - end,
            {
                end = end + 1;
            }
            if end < len {
                end = end + 1;
            }
            let text = from_utf8_lossy(vstd::slice::slice_subrange(self.bytes, start, end));
            self.at = end;
            Some(text)
        }
    }

    /// The next logical line: trailing white space removed, and a line ending in `\` joined
    /// with the next (trimmed), as long hex lists wrap; `None` at the end of the file.
    pub fn next(&mut self) -> (line: Option<String>)
        requires
            old(self).at <= old(self).bytes@.len(),
        ensures
            final(self).bytes == old(self).bytes,
            final(self).utf16 == old(self).utf16,
            final(self).at <= final(self).bytes@.len(),
            match logical_line(old(self).bytes@, old(self).utf16, old(self).at as int) {
                Some((text, end)) => line matches Some(l) && l@ == text && final(self).at == end,
                None => line is None,
            },
    {
        let first = match self.read_line() {
            Some(first) => first,
            None => return None,
        };
        let mut line = trim_end(first.as_str());
        loop
            invariant
                self.bytes == old(self).bytes,
                self.utf16 == old(self).utf16,
                self.at <= self.bytes@.len(),
                logical_line(old(self).bytes@, old(self).utf16, old(self).at as int) == Some(
                    join_continued(self.bytes@, self.utf16, line@, self.at as int),
                ),
            decreases self.bytes@.len() - self.at,
        {
            let chars = chars_of(line.as_str());
            if chars.len() == 0 || chars[chars.len() - 1] != '\\' {
                return Some(line);
            }
            let ghost before = self.at;
            let rest = match self.read_line() {
                Some(rest) => rest,
                None => return Some(line),
            };
            proof {
                lemma_raw_line_advances(self.bytes@, self.utf16, before as int);
            }
            let mut joined = string_of(vstd::slice::slice_subrange(chars.as_slice(), 0, chars.len() - 1));
            proof {
                assert(joined@ =~= line@.drop_last());
            }
            joined.append(trim(rest.as_str()).as_str());
            line = joined;
        }
    }
}

/// The logical lines of an exported registry file.
pub fn read_lines(bytes: &[u8]) -> (lines: Vec<String>)
    ensures
        texts(lines@) == file_lines(bytes@),
{
    let mut reader = Lines::open(bytes);
    let mut lines: Vec<String> = Vec::new();
    let ghost first = reader.at;
    loop
        invariant
            reader.bytes == bytes,
            reader.utf16 == has_bom(bytes@),
            reader.at <= bytes@.len(),
            file_lines(bytes@) == texts(lines@) + lines_from(bytes@, reader.utf16, reader.at as int),
        decreases bytes@.len() - reader.at,
    {
        let ghost at = reader.at;
        proof {
            lemma_logical_line_advances(bytes@, reader.utf16, at as int);
        }
        match reader.next() {
            Some(line) => {
                let ghost prev = texts(lines@);
                lines.push(line);
                proof {
                    let rest = lines_from(bytes@, reader.utf16, reader.at as int);
                    assert(texts(lines@) =~= prev.push(lines@.last()@));
                    assert(prev.push(lines@.last()@) + rest =~= prev + (seq![lines@.last()@] + rest));
                }
            },
            None => {
                proof {
                    assert(texts(lines@) + Seq::<Seq<char>>::empty() =~= texts(lines@));
                }
                return lines;
            },
        }
    }
}

/// A key and its values.
pub struct Key {
    pub path: String,
    pub values: Vec<Value>,
}

/// A key as plain values.
pub struct KeyModel {
    pub path: Seq<char>,
    pub values: Seq<ValueModel>,
}

impl View for Key {
    type V = KeyModel;

    open spec fn view(&self) -> KeyModel {
        KeyModel { path: self.path@, values: self.values@.map_values(|v: Value| v@) }
    }
}

/// The keys as plain values.
pub open spec fn key_models(keys: Seq<Key>) -> Seq<KeyModel> {
    keys.map_values(|k: Key| k@)
}

/// An export read as a whole.
pub struct Registry {
    pub version: String,
    pub keys: Vec<Key>,
}

/// The keys that lines complete, and the key still open after them: a `[path]` line closes the
/// open key and opens one with that path; while a key is open, each value line adds a value to
/// it; other lines, and lines before the first key, are passed over.
pub open spec fn group_lines(lines: Seq<Seq<char>>) -> (Seq<KeyModel>, Option<KeyModel>)
    decreases lines.len(),
{
    if lines.len() == 0 {
        (Seq::empty(), None)
    } else {
        let (done, open) = group_lines(lines.drop_last());
        let line = lines.last();
        match bracketed_path(line) {
            Some(path) => (
                match open {
                    Some(key) => done.push(key),
                    None => done,
                },
                Some(KeyModel { path, values: Seq::empty() }),
            ),
            None => match open {
                Some(key) => match value_line(line) {
                    Some(value) => (done, Some(KeyModel { path: key.path, values: key.values.push(value) })),
                    None => (done, Some(key)),
                },
                None => (done, None),
            },
        }
    }
}

/// The keys of an export's lines, in order.
pub open spec fn keys_of(lines: Seq<Seq<char>>) -> Seq<KeyModel> {
    let (done, open) = group_lines(lines);
    match open {
        Some(key) => done.push(key),
        None => done,
    }
}

/// How many values the keys hold together.
pub open spec fn value_total(keys: Seq<KeyModel>) -> nat
    decreases keys.len(),
{
    if keys.len() == 0 {
        0
    } else {
        value_total(keys.drop_last()) + keys.last().values.len()
    }
}

/// The path of a `[path]` line.
pub fn key_path(patterns: &Patterns, line: &str) -> (path: Option<String>)
    requires
        patterns.wf(),
    ensures
        path matches Some(p) ==> bracketed_path(line@) == Some(p@),
        path is None ==> bracketed_path(line@) is None,
{
    capture_path(&patterns.path, line)
}

/// The keys of an export's lines, each with its values. Together the keys hold no more values
/// than there are lines.
pub fn parse(patterns: &Patterns, lines: &Vec<String>) -> (keys: Vec<Key>)
    requires
        patterns.wf(),
    ensures
        key_models(keys@) == keys_of(texts(lines@)),
        value_total(key_models(keys@)) <= lines@.len(),
{
    let mut done: Vec<Key> = Vec::new();
    let mut open: Option<Key> = None;
    let mut i: usize = 0;
    while i < lines.len()
        invariant
            patterns.wf(),
            0 <= i <= lines@.len(),
            group_lines(texts(lines@).take(i as int)) == (key_models(done@), match open {
                Some(key) => Some(key@),
                None => None::<KeyModel>,
            }),
            value_total(key_models(done@)) + match open {
                Some(key) => key.values@.len(),
                None => 0,
            } <= i,
        decreases lines@.len() - i,
    {
        let line = lines[i].as_str();
        proof {
            assert(texts(lines@).take(i + 1).drop_last() =~= texts(lines@).take(i as int));
            assert(texts(lines@).take(i + 1).last() == line@);
        }
        match key_path(patterns, line) {
            Some(path) => {
                let previous = open;
                open = Some(Key { path, values: Vec::new() });
                match previous {
                    Some(key) => {
                        let ghost before = key_models(done@);
                        done.push(key);
                        proof {
                            assert(key_models(done@) =~= before.push(done@.last()@));
                            assert(key_models(done@).drop_last() =~= before);
                        }
                    },
                    None => {},
                }
                proof {
                    let m = open->Some_0@;
                    assert(m.values =~= Seq::<ValueModel>::empty());
                }
            },
            None => {
                match open {
                    Some(mut key) => {
                        match capture_value(&patterns.value, line) {
                            Some(value) => {
                                let ghost before = key@;
                                key.values.push(value);
                                proof {
                                    assert(key@.values =~= before.values.push(key.values@.last()@));
                                }
                            },
                            None => {},
                        }
                        open = Some(key);
                    },
                    None => {},
                }
            },
        }
        i = i + 1;
    }
    proof {
        assert(texts(lines@).take(lines@.len() as int) =~= texts(lines@));
    }
    match open {
        Some(key) => {
            let ghost before = key_models(done@);
            done.push(key);
            proof {
                assert(key_models(done@) =~= before.push(done@.last()@));
                assert(key_models(done@).drop_last() =~= before);
            }
        },
        None => {},
    }
    done
}

/// The paths of the `[path]` lines among `lines`, in order.
pub open spec fn key_line_paths(lines: Seq<Seq<char>>) -> Seq<Seq<char>>
    decreases lines.len(),
{
    if lines.len() == 0 {
        Seq::empty()
    } else {
        match bracketed_path(lines.last()) {
            Some(path) => key_line_paths(lines.drop_last()).push(path),
            None => key_line_paths(lines.drop_last()),
        }
    }
}

/// The paths of keys, in order.
pub open spec fn paths_of(keys: Seq<KeyModel>) -> Seq<Seq<char>> {
    keys.map_values(|k: KeyModel| k.path)
}

/// Every `[path]` line of an export gives exactly one key, in order, whether or not any value
/// follows it: the keys' paths are the paths of the key lines, so there are as many keys as
/// key lines.
pub proof fn each_key_line_gives_one_key(lines: Seq<Seq<char>>)
    ensures
        paths_of(keys_of(lines)) == key_line_paths(lines),
        keys_of(lines).len() == key_line_paths(lines).len(),
    decreases lines.len(),
{
    if lines.len() > 0 {
        let before = lines.drop_last();
        each_key_line_gives_one_key(before);
        let (done, open) = group_lines(before);
        let line = lines.last();
        match bracketed_path(line) {
            Some(path) => {
                let opened = KeyModel { path, values: Seq::empty() };
                assert(keys_of(lines) =~= keys_of(before).push(opened));
                assert(paths_of(keys_of(lines)) =~= paths_of(keys_of(before)).push(path));
            },
            None => {
                match open {
                    Some(key) => {
                        let kept = keys_of(lines);
                        assert(kept.len() == keys_of(before).len());
                        assert(paths_of(kept) =~= paths_of(keys_of(before)));
                    },
                    None => {
                        assert(keys_of(lines) =~= keys_of(before));
                    },
                }
            },
        }
    }
}

proof fn lemma_no_open_key_no_keys(lines: Seq<Seq<char>>)
    ensures
        group_lines(lines).1 is None ==> group_lines(lines).0.len() == 0,
    decreases lines.len(),
{
    if lines.len() > 0 {
        lemma_no_open_key_no_keys(lines.drop_last());
    }
}

/// How one more line of an export changes its keys: a `[path]` line adds a key with that path
/// and no values; after a key, a value line adds its value to the last key; any other line,
/// and a value line before the first key, changes nothing.
pub proof fn keys_grow_line_by_line(lines: Seq<Seq<char>>, line: Seq<char>)
    ensures
        bracketed_path(line) matches Some(path) ==> keys_of(lines.push(line)) == keys_of(lines).push(
            KeyModel { path, values: Seq::empty() },
        ),
        bracketed_path(line) is None && keys_of(lines).len() > 0 ==> (value_line(line) matches Some(
            value,
        ) ==> keys_of(lines.push(line)) == keys_of(lines).update(
            keys_of(lines).len() - 1,
            KeyModel {
                path: keys_of(lines).last().path,
                values: keys_of(lines).last().values.push(value),
            },
        )),
        bracketed_path(line) is None && (keys_of(lines).len() == 0 || value_line(line) is None)
            ==> keys_of(lines.push(line)) == keys_of(lines),
{
    let all = lines.push(line);
    assert(all.drop_last() =~= lines);
    assert(all.last() == line);
    lemma_no_open_key_no_keys(lines);
    let (done, open) = group_lines(lines);
    match bracketed_path(line) {
        Some(path) => {
            assert(keys_of(all) =~= keys_of(lines).push(KeyModel { path, values: Seq::empty() }));
        },
        None => {
            match open {
                Some(key) => {
                    assert(keys_of(lines) == done.push(key));
                    match value_line(line) {
                        Some(value) => {
                            let grown = KeyModel { path: key.path, values: key.values.push(value) };
                            assert(keys_of(all) == done.push(grown));
                            assert(done.push(grown) =~= keys_of(lines).update(
                                keys_of(lines).len() - 1,
                                grown,
                            ));
                        },
                        None => {},
                    }
                },
                None => {
                    assert(keys_of(lines) == done);
                },
            }
        },
    }
}

} // verus!
