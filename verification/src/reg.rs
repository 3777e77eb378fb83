//! A plugin for exported Windows registry files (`.reg`): a `[path]` line per key, then one
//! `path<TAB>name<TAB>data` line per value.
pub mod constants;
pub mod parser;

use vstd::prelude::*;
use crate::util::{
    blank, check_row_window, extension_of, file_stat, has_extension, iso_text, keep_matching,
    matching, meta_entries, owned, prepare_search, row_window, take_rows, term_compiles, texts,
    FileMeta, FileStat, MetaModel, MetaValue, ToolError,
};
use self::constants::{capture_version, editor_version, Patterns, Value, ValueModel};
use self::parser::{
    file_lines, key_models, keys_of, parse, read_lines, value_total, Key, KeyModel,
};

verus! {

broadcast use vstd::string::group_string_axioms;

/// A value's line: the key's path (repeated so a search hit stands alone), the value's name
/// (`(Default)` for the unnamed value), and its data in the export's own `type:value` notation.
pub open spec fn value_text(path: Seq<char>, value: ValueModel) -> Seq<char> {
    path + seq!['\t'] + match value.name {
        Some(name) => name,
        None => "(Default)"@,
    } + seq!['\t'] + if value.kind.len() == 0 {
        value.data
    } else {
        value.kind + seq![':'] + value.data
    }
}

/// The lines of one value after another.
pub open spec fn value_texts(path: Seq<char>, values: Seq<ValueModel>) -> Seq<Seq<char>>
    decreases values.len(),
{
    if values.len() == 0 {
        Seq::empty()
    } else {
        value_texts(path, values.drop_last()).push(value_text(path, values.last()))
    }
}

/// A key's lines: `[path]`, then one line per value.
pub open spec fn key_texts(key: KeyModel) -> Seq<Seq<char>> {
    seq![seq!['['] + key.path + seq![']']] + value_texts(key.path, key.values)
}

/// The lines of the keys, one key after another.
pub open spec fn registry_texts(keys: Seq<KeyModel>) -> Seq<Seq<char>>
    decreases keys.len(),
{
    if keys.len() == 0 {
        Seq::empty()
    } else {
        registry_texts(keys.drop_last()) + key_texts(keys.last())
    }
}

/// The lines the tools show of an export.
pub open spec fn export_lines(file: Seq<u8>) -> Seq<Seq<char>> {
    registry_texts(keys_of(file_lines(file)))
}

/// The line of one value.
fn value_line_text(path: &String, value: &Value) -> (text: String)
    ensures
        text@ == value_text(path@, value@),
{
    proof {
        reveal_strlit("\t");
        reveal_strlit(":");
    }
    let mut text = path.clone();
    text.append("\t");
    match &value.name {
        Some(name) => text.append(name.as_str()),
        None => text.append("(Default)"),
    }
    text.append("\t");
    if value.kind.as_str().is_empty() {
        text.append(value.data.as_str());
    } else {
        text.append(value.kind.as_str());
        text.append(":");
        text.append(value.data.as_str());
    }
    text
}

/// The lines of the keys.
pub fn lines(keys: &Vec<Key>) -> (out: Vec<String>)
    ensures
        texts(out@) == registry_texts(key_models(keys@)),
{
    let mut out: Vec<String> = Vec::new();
    let mut k: usize = 0;
    while k < keys.len()
        invariant
            0 <= k <= keys@.len(),
            texts(out@) == registry_texts(key_models(keys@).take(k as int)),
        decreases keys@.len() - k,
    {
        let key = &keys[k];
        proof {
            reveal_strlit("[");
            reveal_strlit("]");
            assert(key_models(keys@).take(k + 1).drop_last() =~= key_models(keys@).take(k as int));
        }
        let mut head = owned("[");
        head.append(key.path.as_str());
        head.append("]");
        let ghost before = texts(out@);
        out.push(head);
        let mut v: usize = 0;
        proof {
            assert(head@ =~= seq!['['] + key@.path + seq![']']);
            assert(texts(out@) =~= before.push(head@));
            assert(key@.values.take(0) =~= Seq::<ValueModel>::empty());
            assert(texts(out@) =~= before + seq![seq!['['] + key@.path + seq![']']] + value_texts(key@.path, key@.values.take(0)));
        }
        while v < key.values.len()
            invariant
                0 <= v <= key.values@.len(),
                key == &keys@[k as int],
                texts(out@) =~= before + seq![seq!['['] + key@.path + seq![']']] + value_texts(key@.path, key@.values.take(v as int)),
            decreases key.values@.len() - v,
        {
            let text = value_line_text(&key.path, &key.values[v]);
            proof {
                assert(key@.values.take(v + 1).drop_last() =~= key@.values.take(v as int));
                assert(key@.values.take(v + 1).last() == key.values@[v as int]@);
            }
            let ghost prev = texts(out@);
            out.push(text);
            proof {
                assert(texts(out@) =~= prev.push(text@));
            }
            v = v + 1;
        }
        proof {
            assert(key@.values.take(key.values@.len() as int) =~= key@.values);
            assert(key_models(keys@).take(k + 1).last() == key@);
        }
        k = k + 1;
    }
    proof {
        assert(key_models(keys@).take(keys@.len() as int) =~= key_models(keys@));
    }
    out
}

/// The version that an export's first line names, if that line names one.
pub open spec fn export_version(file: Seq<u8>) -> Option<Seq<char>> {
    let lines = file_lines(file);
    if lines.len() == 0 {
        None
    } else {
        editor_version(lines[0])
    }
}

/// The editor version that the first line names: "Windows Registry Editor Version x.y" or
/// "REGEDIT4"; `NotARegistryExport` where it names none.
pub fn version(patterns: &Patterns, lines: &Vec<String>) -> (v: Result<String, ToolError>)
    requires
        patterns.wf(),
    ensures
        v matches Ok(t) ==> lines@.len() > 0 && editor_version(lines@[0]@) == Some(t@),
        v is Err ==> (v matches Err(ToolError::NotARegistryExport)) && (lines@.len() == 0
            || editor_version(lines@[0]@) is None),
{
    if lines.len() == 0 {
        return Err(ToolError::NotARegistryExport);
    }
    match capture_version(&patterns.version, lines[0].as_str()) {
        Some(v) => Ok(v),
        None => Err(ToolError::NotARegistryExport),
    }
}

/// The lines of an export.
fn export(file: &[u8]) -> (out: Vec<String>)
    ensures
        texts(out@) == export_lines(file@),
{
    let patterns = Patterns::new();
    let all = read_lines(file);
    let keys = parse(&patterns, &all);
    lines(&keys)
}

/// Search strategy for exported registry files.
pub struct RegPlugin {}

/// The tools this plugin exposes.
pub struct RegTools {}

impl RegPlugin {
    pub fn new() -> (plugin: RegPlugin) {
        RegPlugin {}
    }

    pub fn name(&self) -> (name: String)
        ensures
            name@ == "reg-plugin"@,
    {
        owned("reg-plugin")
    }

    pub fn description(&self) -> (description: String)
        ensures
            description@ == "File system access to exported Windows registry files (reg)."@,
    {
        owned("File system access to exported Windows registry files (reg).")
    }

    /// Whether this plugin handles `file_path`: a `.reg` file.
    pub fn identify(&self, file_path: &str) -> (yes: bool)
        ensures
            yes == (extension_of(file_path@) == Some("reg"@)),
    {
        has_extension(file_path, "reg")
    }

    pub fn tools(&self) -> (tools: RegTools) {
        RegTools {}
    }
}

/// The metadata of an export's summary.
pub open spec fn reg_metadata(version: Seq<char>, keys: Seq<KeyModel>) -> Seq<(Seq<char>, MetaModel)> {
    seq![
        ("version"@, MetaModel::Text(version)),
        ("keyCount"@, MetaModel::Number(keys.len() as u64)),
        ("valueCount"@, MetaModel::Number(value_total(keys) as u64)),
    ]
}

impl RegTools {
    /// The lines of the export in `file` that contain `search_term` (smart case), in order.
    pub fn search(&self, file: &[u8], search_term: &str) -> (found: Result<Vec<String>, ToolError>)
        ensures
            found matches Ok(lines) ==> {
                &&& !blank(search_term@)
                &&& term_compiles(search_term@)
                &&& texts(lines@) == matching(search_term@, export_lines(file@))
            },
            found matches Err(ToolError::EmptySearchTerm) <==> blank(search_term@),
            found matches Err(ToolError::InvalidSearchTerm(_)) <==> !blank(search_term@)
                && !term_compiles(search_term@),
            found is Err ==> (found matches Err(ToolError::EmptySearchTerm) || found matches Err(
                ToolError::InvalidSearchTerm(_))),
    {
        let matcher = match prepare_search(search_term) {
            Ok(m) => m,
            Err(e) => return Err(e),
        };
        Ok(keep_matching(export(file), &matcher))
    }

    /// Lines `offset_rows..offset_rows + max_rows` of the export in `file`.
    pub fn read(&self, file: &[u8], offset_rows: i64, max_rows: i64) -> (rows: Result<Vec<String>, ToolError>)
        ensures
            rows matches Ok(lines) ==> {
                &&& offset_rows >= 0
                &&& max_rows > 0
                &&& texts(lines@) == row_window(
                    export_lines(file@),
                    offset_rows as usize as nat,
                    max_rows as usize as nat,
                )
            },
            rows is Err ==> (rows matches Err(ToolError::BadRowWindow)) && (offset_rows < 0
                || max_rows <= 0),
    {
        let (offset, max) = match check_row_window(offset_rows, max_rows) {
            Ok(window) => window,
            Err(e) => return Err(e),
        };
        Ok(take_rows(export(file), offset, max))
    }

    /// The summary of the export in `file`, whose file-system facts are `meta`: its editor
    /// version and how many keys and values it holds.
    pub fn stat(&self, file: &[u8], meta: &FileMeta) -> (stat: Result<FileStat, ToolError>)
        ensures
            stat matches Ok(s) ==> {
                &&& s.format@ == "reg"@
                &&& s.size_bytes == meta.len as i64
                &&& s.modified_at@ == iso_text(meta.modified)
                &&& s.created_at@ == iso_text(meta.created)
                &&& export_version(file@) matches Some(v) && meta_entries(s.metadata@)
                    == reg_metadata(v, keys_of(file_lines(file@)))
            },
            stat is Err ==> (stat matches Err(ToolError::NotARegistryExport)) && export_version(
                file@,
            ) is None,
    {
        let patterns = Patterns::new();
        let all = read_lines(file);
        let keys = parse(&patterns, &all);
        let key_count = keys.len();
        let line_count = all.len();
        let mut value_count: usize = 0;
        let mut k: usize = 0;
        while k < keys.len()
            invariant
                0 <= k <= keys@.len(),
                value_count == value_total(key_models(keys@).take(k as int)),
                value_total(key_models(keys@)) <= all@.len(),
                line_count == all@.len(),
            decreases keys@.len() - k,
        {
            proof {
                assert(key_models(keys@).take(k + 1).drop_last() =~= key_models(keys@).take(k as int));
                lemma_value_total_prefix(key_models(keys@), k + 1);
                assert(key_models(keys@).take(k + 1).last() == keys@[k as int]@);
                assert(value_total(key_models(keys@).take(k + 1)) == value_count + keys@[k as int].values@.len());
            }
            value_count = value_count + keys[k].values.len();
            k = k + 1;
        }
        proof {
            assert(key_models(keys@).take(keys@.len() as int) =~= key_models(keys@));
        }
        let version = match version(&patterns, &all) {
            Ok(v) => v,
            Err(e) => return Err(e),
        };
        let metadata = vec![
            (owned("version"), MetaValue::Text(version)),
            (owned("keyCount"), MetaValue::Number(key_count as u64)),
            (owned("valueCount"), MetaValue::Number(value_count as u64)),
        ];
        proof {
            assert(meta_entries(metadata@) =~= reg_metadata(version@, key_models(keys@)));
        }
        Ok(file_stat(owned("reg"), meta, metadata))
    }
}

/// The values of a prefix of the keys are among those of all of them.
proof fn lemma_value_total_prefix(keys: Seq<KeyModel>, n: int)
    requires
        0 <= n <= keys.len(),
    ensures
        value_total(keys.take(n)) <= value_total(keys),
    decreases keys.len(),
{
    if n < keys.len() {
        assert(keys.drop_last().take(n) =~= keys.take(n));
        lemma_value_total_prefix(keys.drop_last(), n);
    } else {
        assert(keys.take(n) =~= keys);
    }
}

proof fn lemma_value_texts_len(path: Seq<char>, values: Seq<ValueModel>)
    ensures
        value_texts(path, values).len() == values.len(),
    decreases values.len(),
{
    if values.len() > 0 {
        lemma_value_texts_len(path, values.drop_last());
    }
}

/// An export shows one line per key and one per value: the lines that `read` pages through and
/// `search` filters number the `keyCount` plus the `valueCount` that `stat` reports.
pub proof fn lines_are_keys_and_values(keys: Seq<KeyModel>)
    ensures
        registry_texts(keys).len() == keys.len() + value_total(keys),
    decreases keys.len(),
{
    if keys.len() > 0 {
        lines_are_keys_and_values(keys.drop_last());
        lemma_value_texts_len(keys.last().path, keys.last().values);
    }
}

} // verus!
