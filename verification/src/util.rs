//! Pieces shared by every plugin: text helpers, timestamps, literal search, paging, and the
//! shape of a file's summary.
use vstd::prelude::*;
use vstd::utf8::{decode_utf8, valid_utf8};
use vstd::std_specs::iter::IteratorSpec;
use grep_matcher::Matcher;
use crate::journal::parser_utils::HeaderError;
use crate::pcap::blocks::CaptureError;

verus! {

broadcast use vstd::string::group_string_axioms;

// ---------------------------------------------------------------------------------------------
// Text
// ---------------------------------------------------------------------------------------------

/// The characters of `s`, in order.
pub fn chars_of(s: &str) -> (chars: Vec<char>)
    ensures
        chars@ == s@,
{
    let mut chars: Vec<char> = Vec::new();
    for c in it: s.chars()
        invariant
            chars@ == it.seq().take(it.index() as int),
            it.seq() == s@,
    {
        chars.push(c);
    }
    chars
}

/// `chars.iter().collect::<String>()`: the string of these characters, as std documents.
#[verifier::external_body]
pub(crate) fn string_of(chars: &[char]) -> (s: String)
    ensures
        s@ == chars@,
{
    chars.iter().collect()
}

/// `s.to_string()` of a string slice: the same characters.
pub fn owned(s: &str) -> (out: String)
    ensures
        out@ == s@,
{
    s.to_string()
}

/// `std::str::from_utf8(bytes)` as an owned string. Claimed, as std documents: it succeeds
/// exactly on valid UTF-8, with the text that the bytes encode.
#[verifier::external_body]
pub(crate) fn from_utf8(bytes: &[u8]) -> (text: Option<String>)
    ensures
        text is Some <==> valid_utf8(bytes@),
        text matches Some(t) ==> t@ == decode_utf8(bytes@),
{
    std::str::from_utf8(bytes).ok().map(|s| s.to_string())
}

/// Whether `c` has the Unicode White_Space property: tab, line feed, vertical tab, form feed,
/// carriage return, space, next line, no-break space, ogham space mark, the spaces U+2000 to
/// U+200A, line and paragraph separators, narrow no-break space, medium mathematical space and
/// ideographic space.
pub open spec fn whitespace(c: char) -> bool {
    let n = c as int;
    ||| 0x09 <= n <= 0x0d
    ||| n == 0x20
    ||| n == 0x85
    ||| n == 0xa0
    ||| n == 0x1680
    ||| 0x2000 <= n <= 0x200a
    ||| n == 0x2028
    ||| n == 0x2029
    ||| n == 0x202f
    ||| n == 0x205f
    ||| n == 0x3000
}

/// Whether `c` is white space, as `char::is_whitespace` answers: whether it has the Unicode
/// White_Space property.
pub fn is_whitespace(c: char) -> (yes: bool)
    ensures
        yes == whitespace(c),
{
    let n = c as u32;
    (0x09 <= n && n <= 0x0d) || n == 0x20 || n == 0x85 || n == 0xa0 || n == 0x1680 || (0x2000 <= n
        && n <= 0x200a) || n == 0x2028 || n == 0x2029 || n == 0x202f || n == 0x205f || n == 0x3000
}

/// Whether every character of `s` is white space, the empty string included; this is what
/// `s.trim().is_empty()` asks.
pub open spec fn blank(s: Seq<char>) -> bool {
    forall|i: int| 0 <= i < s.len() ==> whitespace(#[trigger] s[i])
}

/// Whether `s` holds nothing but white space.
pub fn is_blank(s: &str) -> (yes: bool)
    ensures
        yes == blank(s@),
{
    let chars = chars_of(s);
    let mut i: usize = 0;
    while i < chars.len()
        invariant
            chars@ == s@,
            0 <= i <= chars@.len(),
            forall|j: int| 0 <= j < i ==> whitespace(#[trigger] chars@[j]),
        decreases chars@.len() - i,
    {
        if !is_whitespace(chars[i]) {
            return false;
        }
        i = i + 1;
    }
    true
}

/// The character of decimal digit `d`.
pub open spec fn digit(d: nat) -> char {
    (48 + d) as char
}

/// The decimal numeral of `n`, without leading zeros.
pub open spec fn decimal_text(n: nat) -> Seq<char>
    decreases n,
{
    if n < 10 {
        seq![digit(n)]
    } else {
        decimal_text(n / 10).push(digit(n % 10))
    }
}

/// Appends the decimal numeral of `n` to `out`.
fn push_decimal(n: u64, out: &mut Vec<char>)
    ensures
        final(out)@ == old(out)@ + decimal_text(n as nat),
    decreases n,
{
    if n >= 10 {
        push_decimal(n / 10, out);
    }
    let d = (n % 10) as u8;
    out.push((48u8 + d) as char);
    proof {
        if n < 10 {
            assert(decimal_text(n as nat) =~= seq![digit(n as nat)]);
        }
    }
}

/// The decimal numeral of `n`, as `n.to_string()` writes it.
pub fn decimal(n: u64) -> (text: String)
    ensures
        text@ == decimal_text(n as nat),
{
    let mut digits: Vec<char> = Vec::new();
    push_decimal(n, &mut digits);
    assert(digits@ =~= decimal_text(n as nat));
    string_of(digits.as_slice())
}

/// The texts of a sequence of strings.
pub open spec fn texts(lines: Seq<String>) -> Seq<Seq<char>> {
    lines.map_values(|l: String| l@)
}

/// The lowercase hexadecimal digit of `d` (below sixteen).
pub open spec fn nibble(d: nat) -> char {
    if d < 10 {
        digit(d)
    } else {
        (87 + d) as char
    }
}

/// Two lowercase hexadecimal digits per byte, most significant first.
pub open spec fn hex_text(bytes: Seq<u8>) -> Seq<char>
    decreases bytes.len(),
{
    if bytes.len() == 0 {
        Seq::empty()
    } else {
        seq![nibble(bytes[0] as nat / 16), nibble(bytes[0] as nat % 16)] + hex_text(bytes.drop_first())
    }
}

/// The bytes as lowercase hexadecimal, two digits each.
pub fn hex(bytes: &[u8]) -> (text: String)
    ensures
        text@ == hex_text(bytes@),
{
    let mut out: Vec<char> = Vec::new();
    let mut i: usize = 0;
    proof {
        assert(bytes@.skip(0) =~= bytes@);
    }
    while i < bytes.len()
        invariant
            0 <= i <= bytes@.len(),
            hex_text(bytes@) == out@ + hex_text(bytes@.skip(i as int)),
        decreases bytes@.len() - i,
    {
        let b = bytes[i];
        let high = b / 16;
        let low = b % 16;
        let h = if high < 10 { (48u8 + high) as char } else { (87u8 + high) as char };
        let l = if low < 10 { (48u8 + low) as char } else { (87u8 + low) as char };
        proof {
            assert(bytes@.skip(i as int).drop_first() =~= bytes@.skip(i + 1));
            assert(out@.push(h).push(l) + hex_text(bytes@.skip(i + 1)) =~= out@ + hex_text(bytes@.skip(i as int)));
        }
        out.push(h);
        out.push(l);
        i = i + 1;
    }
    proof {
        assert(bytes@.skip(bytes@.len() as int) =~= Seq::<u8>::empty());
        assert(out@ + hex_text(Seq::<u8>::empty()) =~= out@);
    }
    string_of(out.as_slice())
}

/// The extension of the last component of a path: what follows its last `.`, where that dot
/// is not the component's first character; `None` where there is no such dot.
pub uninterp spec fn extension_of(path: Seq<char>) -> Option<Seq<char>>;

/// `std::path::Path::new(path).extension()`, as text. Claimed, as std documents: the
/// extension depends on the path alone (and a `&str` path has a UTF-8 extension).
#[verifier::external_body]
pub(crate) fn path_extension(path: &str) -> (ext: Option<String>)
    ensures
        ext matches Some(e) ==> extension_of(path@) == Some(e@),
        ext is None ==> extension_of(path@) is None,
{
    std::path::Path::new(path).extension().map(|e| e.to_string_lossy().into_owned())
}

/// Whether a path's extension is `wanted`.
pub fn has_extension(path: &str, wanted: &str) -> (yes: bool)
    ensures
        yes == (extension_of(path@) == Some(wanted@)),
{
    match path_extension(path) {
        Some(ext) => ext == owned(wanted),
        None => false,
    }
}

// ---------------------------------------------------------------------------------------------
// Timestamps
// ---------------------------------------------------------------------------------------------

/// The RFC 3339 text, in UTC, of the instant `unix_nanos` nanoseconds after the Unix epoch, or
/// `None` where the instant or its year lies outside what can be written.
pub uninterp spec fn rfc3339_text(unix_nanos: int) -> Option<Seq<char>>;

/// `time::OffsetDateTime::from_unix_timestamp_nanos(unix_nanos)` formatted with
/// `time::format_description::well_known::Rfc3339`. Claimed: the text, or its absence, depends
/// on `unix_nanos` alone.
#[verifier::external_body]
fn rfc3339_of_unix_nanos(unix_nanos: i128) -> (text: Option<String>)
    ensures
        text matches Some(t) ==> rfc3339_text(unix_nanos as int) == Some(t@),
        text is None ==> rfc3339_text(unix_nanos as int) is None,
{
    match time::OffsetDateTime::from_unix_timestamp_nanos(unix_nanos) {
        Ok(t) => t.format(&time::format_description::well_known::Rfc3339).ok(),
        Err(_) => None,
    }
}

/// The RFC 3339 text of an instant given in nanoseconds since the Unix epoch, or the empty
/// string where there is no instant or it cannot be written.
pub open spec fn iso_text(unix_nanos: Option<i128>) -> Seq<char> {
    match unix_nanos {
        Some(n) => match rfc3339_text(n as int) {
            Some(t) => t,
            None => Seq::empty(),
        },
        None => Seq::empty(),
    }
}

/// A file time (nanoseconds since the Unix epoch, `None` where the platform gave none) as
/// RFC 3339 text; the empty string where there is none or it cannot be written.
pub fn iso8601(unix_nanos: Option<i128>) -> (text: String)
    ensures
        text@ == iso_text(unix_nanos),
{
    match unix_nanos {
        Some(n) => match rfc3339_of_unix_nanos(n) {
            Some(t) => t,
            None => String::new(),
        },
        None => String::new(),
    }
}

/// A count of microseconds since the Unix epoch as RFC 3339 text; the empty string where it
/// cannot be written.
pub fn unix_epoch_to_iso8601(micros: u64) -> (text: String)
    ensures
        text@ == iso_text(Some((micros * 1000) as i128)),
{
    iso8601(Some(micros as i128 * 1000))
}

// ---------------------------------------------------------------------------------------------
// Literal search
// ---------------------------------------------------------------------------------------------

/// Whether a literal search for `term` can be compiled.
pub uninterp spec fn term_compiles(term: Seq<char>) -> bool;

/// Whether `line` contains `term` as a literal, ignoring case when `term` has no uppercase
/// letter (grep's "smart case").
pub uninterp spec fn finds_term(term: Seq<char>, line: Seq<char>) -> bool;

#[verifier::external_type_specification]
#[verifier::external_body]
pub struct ExRegexMatcher(grep_regex::RegexMatcher);

/// A compiled literal, smart-case search for one term.
pub struct TermMatcher {
    term: String,
    matcher: grep_regex::RegexMatcher,
}

impl TermMatcher {
    /// The term this matcher searches for.
    pub closed spec fn term(&self) -> Seq<char> {
        self.term@
    }

    /// Compiles `term` with `grep_regex::RegexMatcherBuilder::new().fixed_strings(true)
    /// .case_smart(true).build(term)`. Claimed: whether it compiles depends on `term` alone, and
    /// the matcher remembers the term it was built from.
    #[verifier::external_body]
    pub(crate) fn new(term: &str) -> (m: Result<TermMatcher, String>)
        ensures
            m is Ok <==> term_compiles(term@),
            m matches Ok(m) ==> m.term() == term@,
    {
        match grep_regex::RegexMatcherBuilder::new().fixed_strings(true).case_smart(true).build(term) {
            Ok(matcher) => Ok(TermMatcher { term: term.to_string(), matcher }),
            Err(e) => Err(e.to_string()),
        }
    }

    /// `grep_matcher::Matcher::is_match` of the compiled matcher on the line's bytes (its error
    /// type has no values). Claimed: the answer depends on the term and the line alone.
    #[verifier::external_body]
    pub(crate) fn is_match(&self, line: &str) -> (yes: bool)
        ensures
            yes == finds_term(self.term(), line@),
    {
        self.matcher.is_match(line.as_bytes()).unwrap_or(false)
    }
}

/// Why a tool request was refused.
#[derive(Debug)]
pub enum ToolError {
    /// The search term is empty or only white space.
    EmptySearchTerm,
    /// The search term cannot be compiled.
    InvalidSearchTerm(String),
    /// A byte window needs `offset >= 0` and `max_bytes > 0`.
    BadByteWindow,
    /// A row window needs `offset_rows >= 0` and `max_rows > 0`.
    BadRowWindow,
    /// The file is not a journal.
    NotAJournal(HeaderError),
    /// The first line of the file names no registry editor version.
    NotARegistryExport,
    /// The header row of a delimited file cannot be read; the reader's message.
    CsvHeader(String),
    /// The file cannot be read as a packet capture.
    NotACapture(CaptureError),
}

/// The matcher for a search request, or why the request is refused: a blank term first, then
/// one that does not compile.
pub fn prepare_search(search_term: &str) -> (m: Result<TermMatcher, ToolError>)
    ensures
        m matches Ok(m) ==> !blank(search_term@) && term_compiles(search_term@) && m.term()
            == search_term@,
        m matches Err(ToolError::EmptySearchTerm) <==> blank(search_term@),
        m matches Err(ToolError::InvalidSearchTerm(_)) <==> !blank(search_term@)
            && !term_compiles(search_term@),
        m is Ok || m matches Err(ToolError::EmptySearchTerm) || m matches Err(
            ToolError::InvalidSearchTerm(_),
        ),
{
    if is_blank(search_term) {
        return Err(ToolError::EmptySearchTerm);
    }
    match TermMatcher::new(search_term) {
        Ok(m) => Ok(m),
        Err(e) => Err(ToolError::InvalidSearchTerm(e)),
    }
}

/// The lines that contain the term, in their order.
pub open spec fn matching(term: Seq<char>, lines: Seq<Seq<char>>) -> Seq<Seq<char>>
    decreases lines.len(),
{
    if lines.len() == 0 {
        Seq::empty()
    } else {
        let before = matching(term, lines.drop_last());
        if finds_term(term, lines.last()) {
            before.push(lines.last())
        } else {
            before
        }
    }
}

/// Keeps the lines in which `matcher` finds its term.
pub fn keep_matching(lines: Vec<String>, matcher: &TermMatcher) -> (kept: Vec<String>)
    ensures
        texts(kept@) == matching(matcher.term(), texts(lines@)),
{
    let mut kept: Vec<String> = Vec::new();
    let mut i: usize = 0;
    while i < lines.len()
        invariant
            0 <= i <= lines@.len(),
            texts(kept@) == matching(matcher.term(), texts(lines@).take(i as int)),
        decreases lines@.len() - i,
    {
        let line = &lines[i];
        let hit = matcher.is_match(line.as_str());
        proof {
            assert(texts(lines@).take(i + 1).drop_last() =~= texts(lines@).take(i as int));
        }
        if hit {
            kept.push(line.clone());
        }
        proof {
            assert(texts(kept@) =~= matching(matcher.term(), texts(lines@).take(i + 1)));
        }
        i = i + 1;
    }
    proof {
        assert(texts(lines@).take(lines@.len() as int) =~= texts(lines@));
    }
    kept
}

// ---------------------------------------------------------------------------------------------
// Paging
// ---------------------------------------------------------------------------------------------

/// The rows from `offset` on, at most `max` of them.
pub open spec fn row_window(rows: Seq<Seq<char>>, offset: nat, max: nat) -> Seq<Seq<char>> {
    if offset >= rows.len() {
        Seq::empty()
    } else if offset + max >= rows.len() {
        rows.skip(offset as int)
    } else {
        rows.subrange(offset as int, (offset + max) as int)
    }
}

/// The bytes of `line` in UTF-8.
pub open spec fn byte_len(line: Seq<char>) -> nat {
    vstd::utf8::encode_utf8(line).len()
}

/// The lines, joined by newlines, that a byte window shows, starting from line `i`: `end` is
/// where line `i` starts in the joined text and `taken` the bytes already shown. Lines that end
/// at or before `offset` are passed over; after that, lines are shown while their bytes fit in
/// `max`, though the first line shown is shown whatever its length.
pub open spec fn byte_window_from(
    lines: Seq<Seq<char>>,
    i: nat,
    end: nat,
    taken: nat,
    offset: nat,
    max: nat,
) -> Seq<Seq<char>>
    decreases lines.len() - i,
{
    if i >= lines.len() {
        Seq::empty()
    } else {
        let line = lines[i as int];
        let next_end = end + byte_len(line) + 1;
        if next_end <= offset {
            byte_window_from(lines, i + 1, next_end, taken, offset, max)
        } else if taken > 0 && taken + byte_len(line) > max {
            Seq::empty()
        } else {
            seq![line] + byte_window_from(lines, i + 1, next_end, taken + byte_len(line), offset, max)
        }
    }
}

/// The lines that a read of `max` bytes from byte `offset` of the newline-joined text shows.
pub open spec fn byte_window(lines: Seq<Seq<char>>, offset: nat, max: nat) -> Seq<Seq<char>> {
    byte_window_from(lines, 0, 0, 0, offset, max)
}

/// The offsets of a row window, or `BadRowWindow` unless `offset_rows >= 0` and `max_rows > 0`.
pub fn check_row_window(offset_rows: i64, max_rows: i64) -> (window: Result<(usize, usize), ToolError>)
    ensures
        window matches Ok((o, m)) ==> offset_rows >= 0 && max_rows > 0 && o == offset_rows as usize
            && m == max_rows as usize,
        window is Err ==> (window matches Err(ToolError::BadRowWindow)),
        window is Err <==> (offset_rows < 0 || max_rows <= 0),
{
    if offset_rows < 0 || max_rows <= 0 {
        return Err(ToolError::BadRowWindow);
    }
    Ok((offset_rows as usize, max_rows as usize))
}

/// The offset and budget of a byte window, or `BadByteWindow` unless `offset >= 0` and
/// `max_bytes > 0`.
pub fn check_byte_window(offset: i64, max_bytes: i64) -> (window: Result<(u64, u64), ToolError>)
    ensures
        window matches Ok((o, m)) ==> offset >= 0 && max_bytes > 0 && o == offset && m
            == max_bytes && o <= i64::MAX,
        window is Err ==> (window matches Err(ToolError::BadByteWindow)),
        window is Err <==> (offset < 0 || max_bytes <= 0),
{
    if offset < 0 || max_bytes <= 0 {
        return Err(ToolError::BadByteWindow);
    }
    Ok((offset as u64, max_bytes as u64))
}

/// Rows `offset..offset + max` (as many as there are).
pub fn take_rows(rows: Vec<String>, offset: usize, max: usize) -> (window: Vec<String>)
    ensures
        texts(window@) == row_window(texts(rows@), offset as nat, max as nat),
{
    let mut window: Vec<String> = Vec::new();
    if offset >= rows.len() {
        proof {
            assert(texts(window@) =~= row_window(texts(rows@), offset as nat, max as nat));
        }
        return window;
    }
    let end = if max >= rows.len() - offset {
        rows.len()
    } else {
        offset + max
    };
    let mut i = offset;
    while i < end
        invariant
            offset <= i <= end <= rows@.len(),
            end == (if offset + max >= rows@.len() { rows@.len() as int } else { offset + max }),
            texts(window@) =~= texts(rows@).subrange(offset as int, i as int),
        decreases end - i,
    {
        let ghost prev = texts(window@);
        window.push(rows[i].clone());
        proof {
            assert(texts(window@) =~= prev.push(rows@[i as int]@));
        }
        i = i + 1;
    }
    proof {
        assert(texts(window@) =~= row_window(texts(rows@), offset as nat, max as nat));
    }
    window
}

/// The lines that a read of `max_bytes` bytes from byte `offset` shows, lines counted with the
/// newline that joins them.
pub fn take_bytes(lines: &Vec<String>, offset: u64, max_bytes: u64) -> (window: Vec<String>)
    requires
        offset <= i64::MAX,
    ensures
        texts(window@) == byte_window(texts(lines@), offset as nat, max_bytes as nat),
{
    let mut window: Vec<String> = Vec::new();
    let mut end: u64 = 0;
    let mut taken: u64 = 0;
    let mut i: usize = 0;
    let ghost mut exact_end: nat = 0;
    while i < lines.len()
        invariant
            0 <= i <= lines@.len(),
            offset <= i64::MAX,
            end as nat == (if exact_end > u64::MAX { u64::MAX as nat } else { exact_end }),
            byte_window(texts(lines@), offset as nat, max_bytes as nat) == texts(window@)
                + byte_window_from(texts(lines@), i as nat, exact_end, taken as nat, offset as nat, max_bytes as nat),
        decreases lines@.len() - i,
    {
        let line = &lines[i];
        let len = line.as_str().as_bytes().len() as u64;
        assert(len as nat == byte_len(line@));
        let ghost before_end = exact_end;
        proof {
            exact_end = exact_end + len as nat + 1;
            assert(texts(lines@)[i as int] == line@);
        }
        end = end.saturating_add(len).saturating_add(1);
        assert((end <= offset) == (exact_end <= offset));
        assert(byte_window_from(texts(lines@), i as nat, before_end, taken as nat, offset as nat, max_bytes as nat)
            == (if exact_end <= offset {
                byte_window_from(texts(lines@), (i + 1) as nat, exact_end, taken as nat, offset as nat, max_bytes as nat)
            } else if taken > 0 && taken + len > max_bytes {
                Seq::<Seq<char>>::empty()
            } else {
                seq![line@] + byte_window_from(texts(lines@), (i + 1) as nat, exact_end, (taken + len) as nat, offset as nat, max_bytes as nat)
            }));
        if end <= offset {
            i = i + 1;
            continue;
        }
        if taken > 0 && (taken > max_bytes || len > max_bytes - taken) {
            proof {
                assert(texts(window@) + Seq::<Seq<char>>::empty() =~= texts(window@));
            }
            return window;
        }
        let ghost rest = byte_window_from(texts(lines@), (i + 1) as nat, exact_end, (taken + len) as nat, offset as nat, max_bytes as nat);
        let ghost prev = texts(window@);
        taken = taken + len;
        window.push(line.clone());
        proof {
            assert(texts(window@) =~= prev.push(line@));
            assert(prev.push(line@) + rest =~= prev + (seq![line@] + rest));
        }
        i = i + 1;
    }
    proof {
        assert(texts(window@) + Seq::<Seq<char>>::empty() =~= texts(window@));
    }
    window
}

/// The lines a search returns are exactly the lines that contain the term, in the order of the
/// file: each returned line contains the term and is a line of the file, every line of the file
/// that contains the term is returned, and no more lines are returned than the file has.
pub proof fn search_keeps_exactly_the_matching_lines(term: Seq<char>, lines: Seq<Seq<char>>)
    ensures
        matching(term, lines) == lines.filter(|line: Seq<char>| finds_term(term, line)),
        forall|i: int|
            0 <= i < matching(term, lines).len() ==> finds_term(term, #[trigger] matching(term, lines)[i])
                && lines.contains(matching(term, lines)[i]),
        forall|i: int|
            0 <= i < lines.len() && finds_term(term, #[trigger] lines[i]) ==> matching(term, lines).contains(
                lines[i],
            ),
        matching(term, lines).len() <= lines.len(),
    decreases lines.len(),
{
    let pred = |line: Seq<char>| finds_term(term, line);
    reveal(Seq::filter);
    if lines.len() > 0 {
        search_keeps_exactly_the_matching_lines(term, lines.drop_last());
    }
    assert(matching(term, lines) == lines.filter(pred));
    broadcast use vstd::seq_lib::group_filter_ensures;
    assert forall|i: int| 0 <= i < matching(term, lines).len() implies finds_term(
        term,
        #[trigger] matching(term, lines)[i],
    ) && lines.contains(matching(term, lines)[i]) by {
        lines.lemma_filter_pred(pred, i);
        assert(lines.filter(pred).contains(lines.filter(pred)[i]));
        lines.lemma_filter_contains_rev(pred, lines.filter(pred)[i]);
    }
    assert forall|i: int| 0 <= i < lines.len() && finds_term(term, #[trigger] lines[i]) implies matching(
        term,
        lines,
    ).contains(lines[i]) by {
        lines.lemma_filter_contains(pred, i);
    }
    lines.lemma_filter_len(pred);
}

/// Paging through rows loses and repeats nothing: the window of `a` rows from `offset`
/// followed by the window of `b` rows after it is the window of `a + b` rows from `offset`;
/// a window holds at most `max` rows, row `k` of it being row `offset + k` of the file.
pub proof fn row_windows_compose(rows: Seq<Seq<char>>, offset: nat, a: nat, b: nat)
    ensures
        row_window(rows, offset, a) + row_window(rows, offset + a, b) == row_window(rows, offset, a + b),
        row_window(rows, offset, a).len() <= a,
        forall|k: int|
            0 <= k < row_window(rows, offset, a).len() ==> #[trigger] row_window(rows, offset, a)[k]
                == rows[offset + k],
{
    assert(row_window(rows, offset, a) + row_window(rows, offset + a, b) =~= row_window(
        rows,
        offset,
        a + b,
    ));
}

/// The bytes of lines in UTF-8, not counting the newlines that join them.
pub open spec fn total_bytes(lines: Seq<Seq<char>>) -> nat
    decreases lines.len(),
{
    if lines.len() == 0 {
        0
    } else {
        byte_len(lines[0]) + total_bytes(lines.drop_first())
    }
}

#[verifier::spinoff_prover]
proof fn lemma_byte_window_from(
    lines: Seq<Seq<char>>,
    i: nat,
    end: nat,
    taken: nat,
    offset: nat,
    max: nat,
)
    requires
        i <= lines.len(),
    ensures
        ({
            let shown = byte_window_from(lines, i, end, taken, offset, max);
            &&& exists|k: int, j: int|
                i <= k <= j <= lines.len() && shown == lines.subrange(k, j) && (end >= offset ==> k
                    == i)
            &&& taken > 0 ==> (taken + total_bytes(shown) <= max || shown.len() == 0)
            &&& taken == 0 ==> (total_bytes(shown) <= max || total_bytes(shown.drop_last()) == 0)
        }),
    decreases lines.len() - i,
{
    let shown = byte_window_from(lines, i, end, taken, offset, max);
    if i >= lines.len() {
        assert(shown == lines.subrange(i as int, i as int));
    } else {
        let line = lines[i as int];
        let next_end = end + byte_len(line) + 1;
        if next_end <= offset {
            lemma_byte_window_from(lines, i + 1, next_end, taken, offset, max);
        } else if taken > 0 && taken + byte_len(line) > max {
            assert(shown == lines.subrange(i as int, i as int));
        } else {
            let rest = byte_window_from(lines, i + 1, next_end, taken + byte_len(line), offset, max);
            lemma_byte_window_from(lines, i + 1, next_end, taken + byte_len(line), offset, max);
            let (k, j) = choose|k: int, j: int|
                i + 1 <= k <= j <= lines.len() && rest == lines.subrange(k, j) && (next_end >= offset
                    ==> k == i + 1);
            assert(shown == seq![line] + rest);
            assert(shown =~= lines.subrange(i as int, j));
            assert(shown.drop_first() =~= rest);
            if rest.len() > 0 {
                assert(shown.drop_last() =~= seq![line] + rest.drop_last());
                assert((seq![line] + rest.drop_last()).drop_first() =~= rest.drop_last());
            } else {
                assert(shown.drop_last() =~= Seq::<Seq<char>>::empty());
            }
        }
    }
}

/// A byte window shows consecutive lines of the file, from the line that holds byte `offset` of
/// the newline-joined text; their bytes stay within `max`, except where a single line is longer
/// than `max`: that line is shown (after any empty lines before it) and nothing after it.
pub proof fn byte_window_stays_in_budget(lines: Seq<Seq<char>>, offset: nat, max: nat)
    ensures
        exists|k: int, j: int|
            0 <= k <= j <= lines.len() && byte_window(lines, offset, max) == lines.subrange(k, j),
        total_bytes(byte_window(lines, offset, max)) <= max || total_bytes(
            byte_window(lines, offset, max).drop_last(),
        ) == 0,
{
    lemma_byte_window_from(lines, 0, 0, 0, offset, max);
}

// ---------------------------------------------------------------------------------------------
// File summaries
// ---------------------------------------------------------------------------------------------

/// A value in a file summary's metadata.
pub enum MetaValue {
    Text(String),
    Number(u64),
    Texts(Vec<String>),
}

/// A metadata value as plain values.
pub enum MetaModel {
    Text(Seq<char>),
    Number(u64),
    Texts(Seq<Seq<char>>),
}

impl View for MetaValue {
    type V = MetaModel;

    open spec fn view(&self) -> MetaModel {
        match self {
            MetaValue::Text(t) => MetaModel::Text(t@),
            MetaValue::Number(n) => MetaModel::Number(*n),
            MetaValue::Texts(ts) => MetaModel::Texts(texts(ts@)),
        }
    }
}

/// Metadata entries as plain values.
pub open spec fn meta_entries(entries: Seq<(String, MetaValue)>) -> Seq<(Seq<char>, MetaModel)> {
    entries.map_values(|e: (String, MetaValue)| (e.0@, e.1@))
}

/// The compact JSON text of the object holding these entries: keys in ascending order, and
/// where a key comes twice, its last value.
pub uninterp spec fn json_object_text(entries: Seq<(Seq<char>, MetaModel)>) -> Seq<char>;

/// Builds a `serde_json::Map` from the entries (inserted in order) and writes
/// `serde_json::Value::Object(map)` with `to_string()`. Claimed: the text depends on the entries
/// alone.
#[verifier::external_body]
pub(crate) fn json_object(entries: &Vec<(String, MetaValue)>) -> (text: String)
    ensures
        text@ == json_object_text(meta_entries(entries@)),
{
    let map: serde_json::Map<String, serde_json::Value> = entries
        .iter()
        .map(|(key, value)| (key.clone(), match value {
            MetaValue::Text(t) => serde_json::Value::from(t.as_str()),
            MetaValue::Number(n) => serde_json::Value::from(*n),
            MetaValue::Texts(ts) => serde_json::Value::from(ts.clone()),
        }))
        .collect();
    serde_json::Value::Object(map).to_string()
}

/// What the file system reports of a file: its length, and its modification and creation
/// times in nanoseconds since the Unix epoch where the platform gives them.
pub struct FileMeta {
    pub len: u64,
    pub modified: Option<i128>,
    pub created: Option<i128>,
}

/// A file's summary: its format, size and times, and format-specific metadata.
pub struct FileStat {
    pub format: String,
    pub size_bytes: i64,
    pub modified_at: String,
    pub created_at: String,
    pub metadata: Vec<(String, MetaValue)>,
}

/// The summary of a file of format `format` with these file-system facts and metadata.
pub fn file_stat(format: String, meta: &FileMeta, metadata: Vec<(String, MetaValue)>) -> (stat: FileStat)
    ensures
        stat.format@ == format@,
        stat.size_bytes == meta.len as i64,
        stat.modified_at@ == iso_text(meta.modified),
        stat.created_at@ == iso_text(meta.created),
        stat.metadata@ == metadata@,
{
    FileStat {
        format,
        size_bytes: meta.len as i64,
        modified_at: iso8601(meta.modified),
        created_at: iso8601(meta.created),
        metadata,
    }
}

} // verus!
