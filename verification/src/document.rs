//! The text of a scene document.
//!
//! A document is a JSON array of entity records; a record is a JSON object
//! whose keys are component tags. Text is written by `serde_json`, indented
//! with tabs. It is read in two layers: the array and the objects in it are
//! framed here, byte by byte, so that a tag that stands twice in a record is
//! seen as such; every key and every value between the punctuation is read by
//! `serde_json`.

use crate::json::{
    distinct_keys,
    entry_views,
    json_list,
    json_prefix,
    json_record,
    json_render,
    json_scan,
    json_view,
    json_views,
    pretty_text,
    Json,
};
use vstd::pervasive::unreached;
use vstd::prelude::*;

verus! {

/// The white space of JSON: space, tab, line feed, carriage return.
pub open spec fn is_space(b: u8) -> bool {
    b == 0x20 || b == 0x09 || b == 0x0a || b == 0x0d
}

/// The first position at or after `pos` that holds no white space.
pub open spec fn skip_space(s: Seq<u8>, pos: int) -> int
    decreases s.len() - pos,
{
    if 0 <= pos < s.len() && is_space(s[pos]) {
        skip_space(s, pos + 1)
    } else {
        pos
    }
}

/// Whether the byte `b` stands at `pos`.
pub open spec fn byte_at(s: Seq<u8>, pos: int, b: u8) -> bool {
    0 <= pos < s.len() && s[pos] == b
}

/// The JSON value that stands at `pos`, white space before it passed over,
/// and the position behind it.
pub open spec fn value_at(s: Seq<u8>, pos: int) -> Option<(Json, int)> {
    if 0 <= pos <= s.len() {
        match json_prefix(s.skip(pos)) {
            Some((j, used)) => if 0 < used <= s.len() - pos {
                Some((j, pos + used))
            } else {
                None
            },
            None => None,
        }
    } else {
        None
    }
}

/// The entry `key : value` that stands at `pos` and the position behind it,
/// or the position at which the text stops being one.
pub open spec fn entry_at(s: Seq<u8>, pos: int) -> Result<((Seq<char>, Json), int), int> {
    match value_at(s, pos) {
        Some((Json::Text(key), end)) => {
            let colon = skip_space(s, end);
            if byte_at(s, colon, 0x3a) {
                match value_at(s, colon + 1) {
                    Some((value, stop)) => Ok(((key, value), stop)),
                    None => Err(colon + 1),
                }
            } else {
                Err(colon)
            }
        },
        _ => Err(pos),
    }
}

/// The entries `entry , entry , .. }` from `pos` on, added to `acc`, and the
/// position behind the closing brace.
pub open spec fn entries_from(s: Seq<u8>, pos: int, acc: Seq<(Seq<char>, Json)>) -> Result<
    (Seq<(Seq<char>, Json)>, int),
    int,
>
    decreases s.len() - pos,
{
    match entry_at(s, pos) {
        Err(at) => Err(at),
        Ok((entry, end)) => {
            let next = skip_space(s, end);
            if byte_at(s, next, 0x2c) {
                proof {
                    lemma_skip_space(s, end);
                    lemma_skip_space(s, next + 1);
                    lemma_entry_at(s, pos);
                }
                entries_from(s, skip_space(s, next + 1), acc.push(entry))
            } else if byte_at(s, next, 0x7d) {
                Ok((acc.push(entry), next + 1))
            } else {
                Err(next)
            }
        },
    }
}

/// The record `{ entry , .. }` that stands at `pos` and the position behind
/// it.
pub open spec fn record_at(s: Seq<u8>, pos: int) -> Result<(Seq<(Seq<char>, Json)>, int), int> {
    if byte_at(s, pos, 0x7b) {
        let first = skip_space(s, pos + 1);
        if byte_at(s, first, 0x7d) {
            Ok((Seq::empty(), first + 1))
        } else {
            entries_from(s, first, Seq::empty())
        }
    } else {
        Err(pos)
    }
}

/// The records `record , record , .. ]` from `pos` on, added to `acc`, and
/// the position behind the closing bracket.
pub open spec fn records_from(s: Seq<u8>, pos: int, acc: Seq<Seq<(Seq<char>, Json)>>) -> Result<
    (Seq<Seq<(Seq<char>, Json)>>, int),
    int,
>
    decreases s.len() - pos,
{
    match record_at(s, pos) {
        Err(at) => Err(at),
        Ok((record, end)) => {
            let next = skip_space(s, end);
            if byte_at(s, next, 0x2c) {
                proof {
                    lemma_skip_space(s, end);
                    lemma_skip_space(s, next + 1);
                    lemma_record_at(s, pos);
                }
                records_from(s, skip_space(s, next + 1), acc.push(record))
            } else if byte_at(s, next, 0x5d) {
                Ok((acc.push(record), next + 1))
            } else {
                Err(next)
            }
        },
    }
}

/// The records of the document `[ record , .. ]` that is all of `s`, or the
/// position at which `s` stops being a document.
pub open spec fn document_records(s: Seq<u8>) -> Result<Seq<Seq<(Seq<char>, Json)>>, int> {
    let open = skip_space(s, 0);
    if byte_at(s, open, 0x5b) {
        let first = skip_space(s, open + 1);
        let body = if byte_at(s, first, 0x5d) {
            Ok((Seq::empty(), first + 1))
        } else {
            records_from(s, first, Seq::empty())
        };
        match body {
            Err(at) => Err(at),
            Ok((records, end)) => {
                let stop = skip_space(s, end);
                if stop == s.len() {
                    Ok(records)
                } else {
                    Err(stop)
                }
            },
        }
    } else {
        Err(open)
    }
}

/// Passing over white space goes forward, stays inside the text, and stops
/// at a byte that is no white space.
pub proof fn lemma_skip_space(s: Seq<u8>, pos: int)
    ensures
        pos <= skip_space(s, pos),
        pos <= s.len() ==> skip_space(s, pos) <= s.len(),
        0 <= skip_space(s, pos) < s.len() ==> !is_space(s[skip_space(s, pos)]),
    decreases s.len() - pos,
{
    if 0 <= pos < s.len() && is_space(s[pos]) {
        lemma_skip_space(s, pos + 1);
    }
}

/// An entry ends behind its start and inside the text.
pub proof fn lemma_entry_at(s: Seq<u8>, pos: int)
    ensures
        entry_at(s, pos) matches Ok((_, end)) ==> pos < end <= s.len(),
{
    match value_at(s, pos) {
        Some((Json::Text(key), end)) => {
            lemma_skip_space(s, end);
        },
        _ => {},
    }
}

/// The entries of a record end behind their start and inside the text.
pub proof fn lemma_entries_from(s: Seq<u8>, pos: int, acc: Seq<(Seq<char>, Json)>)
    ensures
        entries_from(s, pos, acc) matches Ok((_, end)) ==> pos < end <= s.len(),
    decreases s.len() - pos,
{
    lemma_entry_at(s, pos);
    match entry_at(s, pos) {
        Err(_) => {},
        Ok((entry, end)) => {
            let next = skip_space(s, end);
            lemma_skip_space(s, end);
            if byte_at(s, next, 0x2c) {
                lemma_skip_space(s, next + 1);
                lemma_entries_from(s, skip_space(s, next + 1), acc.push(entry));
            }
        },
    }
}

/// A record ends behind its start and inside the text.
pub proof fn lemma_record_at(s: Seq<u8>, pos: int)
    ensures
        record_at(s, pos) matches Ok((_, end)) ==> pos < end <= s.len(),
{
    if byte_at(s, pos, 0x7b) {
        let first = skip_space(s, pos + 1);
        lemma_skip_space(s, pos + 1);
        if !byte_at(s, first, 0x7d) {
            lemma_entries_from(s, first, Seq::empty());
        }
    }
}

/// The views of the records of a document.
pub open spec fn record_views(doc: Seq<Vec<(String, serde_json::Value)>>) -> Seq<
    Seq<(Seq<char>, Json)>,
> {
    doc.map_values(|r: Vec<(String, serde_json::Value)>| entry_views(r@))
}

/// The JSON value of a document: the array of its records as objects.
pub open spec fn document_json(records: Seq<Seq<(Seq<char>, Json)>>) -> Json {
    Json::List(records.map_values(|r: Seq<(Seq<char>, Json)>| Json::Record(r)))
}

/// The indentation of a document: one tab for each level.
pub open spec fn indent() -> Seq<u8> {
    seq![0x09u8]
}

/// The text of a document.
pub open spec fn document_text(records: Seq<Seq<(Seq<char>, Json)>>) -> Seq<char> {
    pretty_text(document_json(records), indent())
}

/// The length of a slice is a `usize`.
proof fn lemma_len_fits(bytes: &[u8])
    ensures
        bytes@.len() <= usize::MAX,
{
    vstd::slice::axiom_spec_len(bytes);
}

/// Passes over white space.
fn pass_space(bytes: &[u8], pos: usize) -> (r: usize)
    requires
        pos <= bytes@.len(),
    ensures
        r == skip_space(bytes@, pos as int),
        pos <= r <= bytes@.len(),
{
    let mut i = pos;
    while i < bytes.len()
        invariant
            pos <= i <= bytes@.len(),
            skip_space(bytes@, pos as int) == skip_space(bytes@, i as int),
        decreases bytes@.len() - i,
    {
        let b = bytes[i];
        if !(b == 0x20 || b == 0x09 || b == 0x0a || b == 0x0d) {
            return i;
        }
        i = i + 1;
    }
    i
}

/// Whether the byte `b` stands at `pos`.
fn has_byte(bytes: &[u8], pos: usize, b: u8) -> (r: bool)
    ensures
        r == byte_at(bytes@, pos as int, b),
{
    pos < bytes.len() && bytes[pos] == b
}

/// Reads the value at `pos`.
fn read_value(bytes: &[u8], pos: usize) -> (r: Option<(serde_json::Value, usize)>)
    requires
        pos <= bytes@.len(),
    ensures
        match value_at(bytes@, pos as int) {
            Some((j, end)) => r is Some && json_view(r.unwrap().0) == j && r.unwrap().1 == end,
            None => r is None,
        },
{
    proof {
        lemma_len_fits(bytes);
    }
    match json_scan(bytes, pos) {
        Some((v, used)) => Some((v, pos + used)),
        None => None,
    }
}

/// Reads the entry at `pos`.
fn read_entry(bytes: &[u8], pos: usize) -> (r: Result<((String, serde_json::Value), usize), usize>)
    requires
        pos <= bytes@.len(),
    ensures
        match entry_at(bytes@, pos as int) {
            Ok((entry, end)) => r is Ok && (r.unwrap().0.0@, json_view(r.unwrap().0.1)) == entry
                && r.unwrap().1 == end && pos < end <= bytes@.len(),
            Err(at) => r is Err && r.unwrap_err() == at,
        },
{
    proof {
        lemma_entry_at(bytes@, pos as int);
        lemma_len_fits(bytes);
    }
    let (key, end) = match read_value(bytes, pos) {
        Some((v, end)) => match v.as_str() {
            Some(key) => (key.to_owned(), end),
            None => {
                return Err(pos);
            },
        },
        None => {
            return Err(pos);
        },
    };
    let colon = pass_space(bytes, end);
    if !has_byte(bytes, colon, 0x3a) {
        return Err(colon);
    }
    match read_value(bytes, colon + 1) {
        Some((value, stop)) => Ok(((key, value), stop)),
        None => Err(colon + 1),
    }
}

/// Reads the entries of a record from `pos` on, up to its closing brace.
fn read_entries(bytes: &[u8], pos: usize) -> (r: Result<
    (Vec<(String, serde_json::Value)>, usize),
    usize,
>)
    requires
        pos <= bytes@.len(),
    ensures
        match entries_from(bytes@, pos as int, Seq::empty()) {
            Ok((record, end)) => r is Ok && entry_views(r.unwrap().0@) == record && r.unwrap().1
                == end && pos < end <= bytes@.len(),
            Err(at) => r is Err && r.unwrap_err() == at,
        },
{
    proof {
        lemma_entries_from(bytes@, pos as int, Seq::empty());
    }
    let n = bytes.len();
    let mut record: Vec<(String, serde_json::Value)> = Vec::new();
    let mut at = pos;
    assert(entry_views(record@) =~= Seq::<(Seq<char>, Json)>::empty());
    loop
        invariant
            n == bytes@.len(),
            pos <= at <= n,
            entries_from(bytes@, pos as int, Seq::empty()) == entries_from(
                bytes@,
                at as int,
                entry_views(record@),
            ),
        decreases n - at,
    {
        let (entry, end) = match read_entry(bytes, at) {
            Ok(found) => found,
            Err(stop) => {
                return Err(stop);
            },
        };
        let ghost before = entry_views(record@);
        let ghost e = (entry.0@, json_view(entry.1));
        record.push(entry);
        assert(entry_views(record@) =~= before.push(e));
        let next = pass_space(bytes, end);
        if has_byte(bytes, next, 0x2c) {
            at = pass_space(bytes, next + 1);
        } else if has_byte(bytes, next, 0x7d) {
            return Ok((record, next + 1));
        } else {
            return Err(next);
        }
    }
}

/// Reads the record at `pos`.
fn read_record(bytes: &[u8], pos: usize) -> (r: Result<
    (Vec<(String, serde_json::Value)>, usize),
    usize,
>)
    requires
        pos <= bytes@.len(),
    ensures
        match record_at(bytes@, pos as int) {
            Ok((record, end)) => r is Ok && entry_views(r.unwrap().0@) == record && r.unwrap().1
                == end && pos < end <= bytes@.len(),
            Err(at) => r is Err && r.unwrap_err() == at,
        },
{
    proof {
        lemma_len_fits(bytes);
    }
    if !has_byte(bytes, pos, 0x7b) {
        return Err(pos);
    }
    let first = pass_space(bytes, pos + 1);
    if has_byte(bytes, first, 0x7d) {
        let record: Vec<(String, serde_json::Value)> = Vec::new();
        assert(entry_views(record@) =~= Seq::<(Seq<char>, Json)>::empty());
        Ok((record, first + 1))
    } else {
        read_entries(bytes, first)
    }
}

/// Reads the records of a document from `pos` on, up to its closing bracket.
fn read_records(bytes: &[u8], pos: usize) -> (r: Result<
    (Vec<Vec<(String, serde_json::Value)>>, usize),
    usize,
>)
    requires
        pos <= bytes@.len(),
    ensures
        match records_from(bytes@, pos as int, Seq::empty()) {
            Ok((records, end)) => r is Ok && record_views(r.unwrap().0@) == records && r.unwrap().1
                == end && end <= bytes@.len(),
            Err(at) => r is Err && r.unwrap_err() == at,
        },
{
    let n = bytes.len();
    let mut doc: Vec<Vec<(String, serde_json::Value)>> = Vec::new();
    let mut at = pos;
    assert(record_views(doc@) =~= Seq::<Seq<(Seq<char>, Json)>>::empty());
    loop
        invariant
            n == bytes@.len(),
            at <= n,
            records_from(bytes@, pos as int, Seq::empty()) == records_from(
                bytes@,
                at as int,
                record_views(doc@),
            ),
        decreases n - at,
    {
        let (record, end) = match read_record(bytes, at) {
            Ok(found) => found,
            Err(stop) => {
                return Err(stop);
            },
        };
        let ghost before = record_views(doc@);
        let ghost r = entry_views(record@);
        doc.push(record);
        assert(record_views(doc@) =~= before.push(r));
        let next = pass_space(bytes, end);
        if has_byte(bytes, next, 0x2c) {
            at = pass_space(bytes, next + 1);
        } else if has_byte(bytes, next, 0x5d) {
            return Ok((doc, next + 1));
        } else {
            return Err(next);
        }
    }
}

/// Reads a document: the records of the JSON array that is all of `bytes`,
/// each with its entries in their order and with every repetition of a tag
/// kept. Where `bytes` is no such array, the result is the position at which
/// reading stopped.
pub fn parse_document(bytes: &[u8]) -> (r: Result<Vec<Vec<(String, serde_json::Value)>>, usize>)
    ensures
        match document_records(bytes@) {
            Ok(records) => r is Ok && record_views(r.unwrap()@) == records,
            Err(at) => r is Err && r.unwrap_err() == at,
        },
{
    let n = bytes.len();
    let open = pass_space(bytes, 0);
    if !has_byte(bytes, open, 0x5b) {
        return Err(open);
    }
    let first = pass_space(bytes, open + 1);
    let (doc, end) = if has_byte(bytes, first, 0x5d) {
        let doc: Vec<Vec<(String, serde_json::Value)>> = Vec::new();
        assert(record_views(doc@) =~= Seq::<Seq<(Seq<char>, Json)>>::empty());
        (doc, first + 1)
    } else {
        match read_records(bytes, first) {
            Ok(found) => found,
            Err(stop) => {
                return Err(stop);
            },
        }
    };
    let stop = pass_space(bytes, end);
    if stop == n {
        Ok(doc)
    } else {
        Err(stop)
    }
}

/// Writes a document as text: a JSON array of objects, indented with tabs.
pub fn render_document(doc: Vec<Vec<(String, serde_json::Value)>>) -> (text: String)
    requires
        forall|i: int| 0 <= i < doc@.len() ==> distinct_keys(#[trigger] record_views(doc@)[i]),
    ensures
        text@ == document_text(record_views(doc@)),
{
    let ghost records = record_views(doc@);
    let mut items: Vec<serde_json::Value> = Vec::new();
    for record in it: doc
        invariant
            records == record_views(it.seq()),
            forall|i: int| 0 <= i < records.len() ==> distinct_keys(#[trigger] records[i]),
            items.len() == it.index(),
            forall|k: int|
                0 <= k < items.len() ==> json_view(#[trigger] items@[k]) == Json::Record(
                    records[k],
                ),
    {
        assert(records[it.index() as int] == entry_views(record@));
        items.push(json_record(record));
    }
    let list = json_list(items);
    assert(json_views(items@) =~= records.map_values(|r: Seq<(Seq<char>, Json)>| Json::Record(r)));
    let tab: [u8; 1] = [0x09];
    assert(tab@ =~= indent());
    match json_render(&list, tab.as_slice()) {
        Some(text) => text,
        None => unreached(),
    }
}

} // verus!
