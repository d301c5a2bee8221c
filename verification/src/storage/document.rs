//! The replicated document that holds the memories, as far as the store
//! reads and writes it.
//!
//! The document is kept by the `automerge` crate. What it holds in the list
//! under the key `memories` has a name here, `entries`, and what the id of
//! an object stands for has one, `place_of`. Every function of this file
//! makes one call into the crate and says what the call does to the
//! entries; none of them is proved: they state what the crate is relied on
//! to do. The store walks the document through them.

use automerge::transaction::Transactable;
use automerge::{ObjType, ReadDoc, Value, ROOT};
use crate::storage::codebase::is_hex_digit;
use crate::text::text_of;
use vstd::prelude::*;

verus! {

#[verifier::external_type_specification]
#[verifier::external_body]
pub struct ExAutoCommit(automerge::AutoCommit);

#[verifier::external_type_specification]
#[verifier::external_body]
pub struct ExAutomergeError(automerge::AutomergeError);

#[verifier::external_type_specification]
#[verifier::external_body]
pub struct ExChangeHash(automerge::ChangeHash);

#[verifier::external_type_specification]
#[verifier::external_body]
pub struct ExObjId(automerge::ObjId);

/// A value in an entry, as the store reads it.
pub enum RawValue {
    /// A string.
    Text(Seq<char>),
    /// A number, written in decimal.
    Number(Seq<char>),
    /// A list; each item is its text where it is a string.
    List(Seq<Option<Seq<char>>>),
    /// Anything else.
    Other,
}

/// An item of the list of memories, as the store reads it.
pub enum RawEntry {
    /// A map, with the values under its keys.
    Record(Map<Seq<char>, RawValue>),
    /// Anything else.
    Other,
}

/// What the id of an object stands for in a document.
pub enum Place {
    /// The list under the key `memories`.
    List,
    /// The entry of the given number.
    Entry(int),
    /// The list under the given key of the entry of the given number.
    Items(int, Seq<char>),
    /// Anything else.
    Other,
}

/// The items of the list under the key `memories` of a document, in order;
/// none where the document has no list there.
pub uninterp spec fn entries(doc: automerge::AutoCommit) -> Seq<RawEntry>;

/// What an id stands for in a document. The ids are those that
/// `ReadDoc::get` and `Transactable::insert_object` give for the objects of
/// the document.
pub uninterp spec fn place_of(doc: automerge::AutoCommit, id: automerge::ObjId) -> Place;

/// Whether what a document has under the key `memories` is a list.
pub uninterp spec fn has_list(doc: automerge::AutoCommit) -> bool;

/// The bytes that `AutoCommit::save` gives for a document.
pub uninterp spec fn saved(doc: automerge::AutoCommit) -> Seq<u8>;

/// The entries of the document that bytes hold, as `AutoCommit::load` reads
/// it; `None` where it reads none.
pub uninterp spec fn loaded_entries(bytes: Seq<u8>) -> Option<Seq<RawEntry>>;

/// The entries of a document after `AutoCommit::merge` has taken in the
/// changes of another; `None` where it takes them not.
pub uninterp spec fn merged_entries(
    doc: automerge::AutoCommit,
    other: automerge::AutoCommit,
) -> Option<Seq<RawEntry>>;

/// The entries of a document after `AutoCommit::load_incremental` has
/// taken in changes given as bytes; `None` where it takes them not.
pub uninterp spec fn entries_with(doc: automerge::AutoCommit, bytes: Seq<u8>) -> Option<
    Seq<RawEntry>,
>;

/// The hashes of the latest changes of a document, as
/// `AutoCommit::get_heads` gives them.
pub uninterp spec fn heads_of(doc: automerge::AutoCommit) -> Seq<automerge::ChangeHash>;

/// The number of changes of a document that `AutoCommit::get_changes`
/// finds beyond the given heads.
pub uninterp spec fn changes_beyond(
    doc: automerge::AutoCommit,
    heads: Seq<automerge::ChangeHash>,
) -> nat;

/// The bytes that `AutoCommit::save_after` gives for the changes of a
/// document beyond the given heads.
pub uninterp spec fn saved_beyond(
    doc: automerge::AutoCommit,
    heads: Seq<automerge::ChangeHash>,
) -> Seq<u8>;

/// The seconds since the epoch and the nanoseconds within the second of an
/// RFC 3339 time, as `chrono::DateTime::parse_from_rfc3339` reads it;
/// `None` where it reads none.
pub uninterp spec fn rfc3339_instant(text: Seq<char>) -> Option<(i64, u32)>;

/// The number that `str::parse` reads from a text as a double, written as
/// `to_string` writes a double; `None` where it reads none.
pub uninterp spec fn parsed_number(text: Seq<char>) -> Option<Seq<char>>;

/// Whether a text is a random identifier of version 4 as it is written:
/// 32 lowercase hexadecimal digits in five groups with hyphens between
/// them, the third group beginning with `4`, the fourth with `8`, `9`, `a`
/// or `b`.
pub open spec fn is_uuid_v4(s: Seq<char>) -> bool {
    &&& s.len() == 36
    &&& forall|i: int|
        0 <= i < 36 ==> if i == 8 || i == 13 || i == 18 || i == 23 {
            #[trigger] s[i] == '-'
        } else {
            is_hex_digit(s[i])
        }
    &&& s[14] == '4'
    &&& (s[19] == '8' || s[19] == '9' || s[19] == 'a' || s[19] == 'b')
}

/// The key of the list of memories.
pub open spec fn list_key() -> Seq<char> {
    "memories"@
}

/// Whether two documents hold the same entries.
pub open spec fn same_entries(a: automerge::AutoCommit, b: automerge::AutoCommit) -> bool {
    entries(a) == entries(b) && has_list(a) == has_list(b)
}

/// The values of an entry under its keys; an entry that is no map has none.
pub open spec fn values_of(e: RawEntry) -> Map<Seq<char>, RawValue> {
    match e {
        RawEntry::Record(m) => m,
        RawEntry::Other => Map::empty(),
    }
}

/// The string under a key of an entry.
pub open spec fn text_in(e: RawEntry, key: Seq<char>) -> Option<Seq<char>> {
    if values_of(e).contains_key(key) && values_of(e)[key] is Text {
        Some(values_of(e)[key]->Text_0)
    } else {
        None
    }
}

/// The number under a key of an entry.
pub open spec fn number_in(e: RawEntry, key: Seq<char>) -> Option<Seq<char>> {
    if values_of(e).contains_key(key) && values_of(e)[key] is Number {
        Some(values_of(e)[key]->Number_0)
    } else {
        None
    }
}

/// The items of the list under a key of an entry; `None` where the entry
/// has no list there.
pub open spec fn items_in(e: RawEntry, key: Seq<char>) -> Option<Seq<Option<Seq<char>>>> {
    if values_of(e).contains_key(key) && values_of(e)[key] is List {
        Some(values_of(e)[key]->List_0)
    } else {
        None
    }
}

/// Whether a document has a map as entry number `index`.
pub open spec fn has_record(doc: automerge::AutoCommit, index: int) -> bool {
    has_list(doc) && 0 <= index < entries(doc).len() && entries(doc)[index] is Record
}

/// Whether an id stands for the list of memories of a document.
pub open spec fn is_list(doc: automerge::AutoCommit, id: automerge::ObjId) -> bool {
    has_list(doc) && place_of(doc, id) == Place::List
}

/// Whether an id stands for an entry of a document that is a map.
pub open spec fn is_entry(doc: automerge::AutoCommit, id: automerge::ObjId) -> bool {
    place_of(doc, id) is Entry && has_record(doc, place_of(doc, id)->Entry_0)
}

/// The entry that an id stands for.
pub open spec fn entry_at(doc: automerge::AutoCommit, id: automerge::ObjId) -> RawEntry {
    entries(doc)[place_of(doc, id)->Entry_0]
}

/// Whether an id stands for the list under a key of an entry of a document.
pub open spec fn is_items(doc: automerge::AutoCommit, id: automerge::ObjId) -> bool {
    place_of(doc, id) is Items && has_record(doc, place_of(doc, id)->Items_0) && items_in(
        entries(doc)[place_of(doc, id)->Items_0],
        place_of(doc, id)->Items_1,
    ) is Some
}

/// The items of the list that an id stands for.
pub open spec fn items_at(doc: automerge::AutoCommit, id: automerge::ObjId) -> Seq<
    Option<Seq<char>>,
> {
    items_in(entries(doc)[place_of(doc, id)->Items_0], place_of(doc, id)->Items_1)->0
}

/// The entries with one value set: `value` under `key` of entry number
/// `index`.
pub open spec fn with_value(es: Seq<RawEntry>, index: int, key: Seq<char>, value: RawValue) -> Seq<
    RawEntry,
> {
    es.update(index, RawEntry::Record(values_of(es[index]).insert(key, value)))
}

/// `AutoCommit::new`: a document without entries and without the list.
#[verifier::external_body]
pub(crate) fn new_document() -> (doc: automerge::AutoCommit)
    ensures
        !has_list(doc),
        entries(doc).len() == 0,
{
    automerge::AutoCommit::new()
}

/// `Transactable::put_object` with a list, at a key of the root: it
/// succeeds, as the root is a map and takes any key. At the key `memories`
/// the document then has the list, without entries; at another key its
/// entries are as before.
#[verifier::external_body]
pub(crate) fn put_root_list(doc: &mut automerge::AutoCommit, key: &str) -> (r: Result<
    (),
    automerge::AutomergeError,
>)
    ensures
        r is Ok,
        key@ == list_key() ==> has_list(*final(doc)) && entries(*final(doc)).len() == 0,
        key@ != list_key() ==> same_entries(*old(doc), *final(doc)),
{
    match doc.put_object(ROOT, key, ObjType::List) {
        Ok(_) => Ok(()),
        Err(e) => Err(e),
    }
}

/// `Transactable::put_object` with a map, at a key of the root other than
/// `memories`: it succeeds, and the entries are as before.
#[verifier::external_body]
pub(crate) fn put_root_map(doc: &mut automerge::AutoCommit, key: &str) -> (r: Result<
    (),
    automerge::AutomergeError,
>)
    requires
        key@ != list_key(),
    ensures
        r is Ok,
        same_entries(*old(doc), *final(doc)),
{
    match doc.put_object(ROOT, key, ObjType::Map) {
        Ok(_) => Ok(()),
        Err(e) => Err(e),
    }
}

/// `ReadDoc::get` at the key `memories` of the root: the id of the list
/// there, or `None`, with no entries, where the document has no list there.
/// Reading a key of the root does not fail.
#[verifier::external_body]
pub(crate) fn root_list(doc: &automerge::AutoCommit, key: &str) -> (r: Result<
    Option<automerge::ObjId>,
    automerge::AutomergeError,
>)
    requires
        key@ == list_key(),
    ensures
        match r {
            Ok(Some(id)) => is_list(*doc, id),
            Ok(None) => !has_list(*doc) && entries(*doc).len() == 0,
            Err(_) => false,
        },
{
    match doc.get(ROOT, key)? {
        Some((Value::Object(ObjType::List), id)) => Ok(Some(id)),
        _ => Ok(None),
    }
}

/// `ReadDoc::length`: of the list of memories, the number of entries; of
/// the list under a key of an entry, the number of its items.
#[verifier::external_body]
pub(crate) fn object_length(doc: &automerge::AutoCommit, id: &automerge::ObjId) -> (r: usize)
    ensures
        is_list(*doc, *id) ==> r == entries(*doc).len(),
        is_items(*doc, *id) ==> r == items_at(*doc, *id).len(),
{
    doc.length(id)
}

/// `ReadDoc::get` at an index of the list of memories: the id of the map
/// there, or `None` where the list has no map there. Reading an index of a
/// list does not fail.
#[verifier::external_body]
pub(crate) fn list_entry(doc: &automerge::AutoCommit, list: &automerge::ObjId, index: usize) -> (r:
    Result<Option<automerge::ObjId>, automerge::AutomergeError>)
    requires
        is_list(*doc, *list),
    ensures
        match r {
            Ok(Some(id)) => has_record(*doc, index as int) && place_of(*doc, id) == Place::Entry(
                index as int,
            ),
            Ok(None) => !has_record(*doc, index as int),
            Err(_) => false,
        },
{
    match doc.get(list, index)? {
        Some((Value::Object(ObjType::Map), id)) => Ok(Some(id)),
        _ => Ok(None),
    }
}

/// `ReadDoc::get` at a key of an entry: the string there, or `None` where
/// there is none. Reading a key of a map does not fail.
#[verifier::external_body]
pub(crate) fn entry_text(doc: &automerge::AutoCommit, entry: &automerge::ObjId, key: &str) -> (r:
    Result<Option<String>, automerge::AutomergeError>)
    requires
        is_entry(*doc, *entry),
    ensures
        r is Ok,
        text_of(r->Ok_0) == text_in(entry_at(*doc, *entry), key@),
{
    match doc.get(entry, key)? {
        Some((Value::Scalar(s), _)) => Ok(s.as_str().map(str::to_string)),
        _ => Ok(None),
    }
}

/// `ReadDoc::get` at a key of an entry: the number there, in decimal, or
/// `None` where there is none. Reading a key of a map does not fail.
#[verifier::external_body]
pub(crate) fn entry_number(doc: &automerge::AutoCommit, entry: &automerge::ObjId, key: &str) -> (r:
    Result<Option<String>, automerge::AutomergeError>)
    requires
        is_entry(*doc, *entry),
    ensures
        r is Ok,
        text_of(r->Ok_0) == number_in(entry_at(*doc, *entry), key@),
{
    match doc.get(entry, key)? {
        Some((Value::Scalar(s), _)) => Ok(s.as_f64().map(|v| v.to_string())),
        _ => Ok(None),
    }
}

/// `ReadDoc::get` at a key of an entry: the id of the list there, or `None`
/// where the entry has no list there. Reading a key of a map does not fail.
#[verifier::external_body]
pub(crate) fn entry_list(doc: &automerge::AutoCommit, entry: &automerge::ObjId, key: &str) -> (r:
    Result<Option<automerge::ObjId>, automerge::AutomergeError>)
    requires
        is_entry(*doc, *entry),
    ensures
        match r {
            Ok(Some(id)) => items_in(entry_at(*doc, *entry), key@) is Some && place_of(*doc, id)
                == Place::Items(place_of(*doc, *entry)->Entry_0, key@),
            Ok(None) => items_in(entry_at(*doc, *entry), key@) is None,
            Err(_) => false,
        },
{
    match doc.get(entry, key)? {
        Some((Value::Object(ObjType::List), id)) => Ok(Some(id)),
        _ => Ok(None),
    }
}

/// `ReadDoc::get` at an index of the list under a key of an entry: the
/// string there, or `None` where the item is no string. Reading an index of
/// a list does not fail.
#[verifier::external_body]
pub(crate) fn list_item(doc: &automerge::AutoCommit, items: &automerge::ObjId, at: usize) -> (r:
    Result<Option<String>, automerge::AutomergeError>)
    requires
        is_items(*doc, *items),
    ensures
        r is Ok,
        at < items_at(*doc, *items).len() ==> text_of(r->Ok_0) == items_at(*doc, *items)[at as int],
{
    match doc.get(items, at)? {
        Some((Value::Scalar(s), _)) => Ok(s.as_str().map(str::to_string)),
        _ => Ok(None),
    }
}

/// `Transactable::insert_object` with a map, at the end of the list of
/// memories: there is one more entry, the last, a map without values, and
/// the result is its id. Inserting at the length of a list does not fail.
#[verifier::external_body]
pub(crate) fn insert_entry(doc: &mut automerge::AutoCommit, list: &automerge::ObjId, at: usize) -> (r:
    Result<automerge::ObjId, automerge::AutomergeError>)
    requires
        is_list(*old(doc), *list),
        at == entries(*old(doc)).len(),
    ensures
        match r {
            Ok(id) => has_list(*final(doc)) && entries(*final(doc)) == entries(*old(doc)).push(
                RawEntry::Record(Map::empty()),
            ) && place_of(*final(doc), id) == Place::Entry(at as int),
            Err(_) => false,
        },
{
    doc.insert_object(list, at, ObjType::Map)
}

/// `Transactable::put` of a string at a key of an entry: the entry has the
/// string under the key, and all else is as before. Putting at a key of a
/// map does not fail.
#[verifier::external_body]
pub(crate) fn put_entry_text(
    doc: &mut automerge::AutoCommit,
    entry: &automerge::ObjId,
    key: &str,
    value: &str,
) -> (r: Result<(), automerge::AutomergeError>)
    requires
        is_entry(*old(doc), *entry),
    ensures
        r is Ok,
        has_list(*final(doc)),
        place_of(*final(doc), *entry) == place_of(*old(doc), *entry),
        entries(*final(doc)) == with_value(
            entries(*old(doc)),
            place_of(*old(doc), *entry)->Entry_0,
            key@,
            RawValue::Text(value@),
        ),
{
    doc.put(entry, key, value)
}

/// `Transactable::put` of a number, given in decimal, at a key of an entry.
/// It returns `false` and changes nothing where the text is no number; else
/// it returns `true`, the entry has the number under the key, and all else
/// is as before. The text `0.5` is a number, one half, and is written so.
/// Putting at a key of a map does not fail.
#[verifier::external_body]
pub(crate) fn put_entry_number(
    doc: &mut automerge::AutoCommit,
    entry: &automerge::ObjId,
    key: &str,
    value: &str,
) -> (r: Result<bool, automerge::AutomergeError>)
    requires
        is_entry(*old(doc), *entry),
    ensures
        match r {
            Ok(true) => parsed_number(value@) is Some && has_list(*final(doc)) && entries(
                *final(doc),
            ) == with_value(
                entries(*old(doc)),
                place_of(*old(doc), *entry)->Entry_0,
                key@,
                RawValue::Number(parsed_number(value@)->0),
            ),
            Ok(false) => parsed_number(value@) is None && same_entries(*old(doc), *final(doc)),
            Err(_) => false,
        },
        place_of(*final(doc), *entry) == place_of(*old(doc), *entry),
        value@ == "0.5"@ ==> r is Ok && r->Ok_0 && entries(*final(doc)) == with_value(
            entries(*old(doc)),
            place_of(*old(doc), *entry)->Entry_0,
            key@,
            RawValue::Number("0.5"@),
        ),
{
    let number = match value.parse() {
        Ok(v) => automerge::ScalarValue::F64(v),
        Err(_) => return Ok(false),
    };
    doc.put(entry, key, number)?;
    Ok(true)
}

/// `Transactable::put_object` with a list at a key of an entry: the entry
/// has a list without items under the key, and all else is as before.
/// Putting at a key of a map does not fail.
#[verifier::external_body]
pub(crate) fn put_entry_list(doc: &mut automerge::AutoCommit, entry: &automerge::ObjId, key: &str) -> (r:
    Result<(), automerge::AutomergeError>)
    requires
        is_entry(*old(doc), *entry),
    ensures
        r is Ok,
        has_list(*final(doc)),
        place_of(*final(doc), *entry) == place_of(*old(doc), *entry),
        entries(*final(doc)) == with_value(
            entries(*old(doc)),
            place_of(*old(doc), *entry)->Entry_0,
            key@,
            RawValue::List(seq![]),
        ),
{
    match doc.put_object(entry, key, ObjType::List) {
        Ok(_) => Ok(()),
        Err(e) => Err(e),
    }
}

/// `Transactable::insert` of a string at the end of the list under a key of
/// an entry: the items have the string as one more, the last, and all else
/// is as before. Inserting at the length of a list does not fail.
#[verifier::external_body]
pub(crate) fn insert_item(
    doc: &mut automerge::AutoCommit,
    items: &automerge::ObjId,
    at: usize,
    item: &str,
) -> (r: Result<(), automerge::AutomergeError>)
    requires
        is_items(*old(doc), *items),
        at == items_at(*old(doc), *items).len(),
    ensures
        r is Ok,
        has_list(*final(doc)),
        entries(*final(doc)) == with_value(
            entries(*old(doc)),
            place_of(*old(doc), *items)->Items_0,
            place_of(*old(doc), *items)->Items_1,
            RawValue::List(items_at(*old(doc), *items).push(Some(item@))),
        ),
{
    doc.insert(items, at, item)
}

/// `Transactable::delete` at an index of the list of memories: that entry
/// is gone and the others are as before, in their order. Deleting at an
/// index that the list has does not fail.
#[verifier::external_body]
pub(crate) fn delete_entry(doc: &mut automerge::AutoCommit, list: &automerge::ObjId, index: usize) -> (r:
    Result<(), automerge::AutomergeError>)
    requires
        is_list(*old(doc), *list),
        index < entries(*old(doc)).len(),
    ensures
        r is Ok,
        has_list(*final(doc)),
        entries(*final(doc)) == entries(*old(doc)).remove(index as int),
{
    doc.delete(list, index)
}

/// `AutoCommit::save`: the named bytes of the document. The entries are as
/// before.
#[verifier::external_body]
pub(crate) fn save_document(doc: &mut automerge::AutoCommit) -> (r: Vec<u8>)
    ensures
        r@ == saved(*old(doc)),
        same_entries(*old(doc), *final(doc)),
{
    doc.save()
}

/// `AutoCommit::load`: a document with the named entries of the bytes,
/// exactly where the bytes hold a document.
#[verifier::external_body]
pub(crate) fn load_document(bytes: &[u8]) -> (r: Result<
    automerge::AutoCommit,
    automerge::AutomergeError,
>)
    ensures
        match r {
            Ok(d) => loaded_entries(bytes@) == Some(entries(d)),
            Err(_) => loaded_entries(bytes@) is None,
        },
{
    automerge::AutoCommit::load(bytes)
}

/// `AutoCommit::merge`: takes in the changes of another document. Where it
/// succeeds, the document has the named entries of the merge.
#[verifier::external_body]
pub(crate) fn merge_document(doc: &mut automerge::AutoCommit, other: &mut automerge::AutoCommit) -> (r:
    Result<(), automerge::AutomergeError>)
    ensures
        match r {
            Ok(_) => merged_entries(*old(doc), *old(other)) == Some(entries(*final(doc))),
            Err(_) => merged_entries(*old(doc), *old(other)) is None,
        },
{
    match doc.merge(other) {
        Ok(_) => Ok(()),
        Err(e) => Err(e),
    }
}

/// `AutoCommit::get_heads`: the named hashes of the latest changes. The
/// entries are as before.
#[verifier::external_body]
pub(crate) fn document_heads(doc: &mut automerge::AutoCommit) -> (r: Vec<automerge::ChangeHash>)
    ensures
        r@ == heads_of(*old(doc)),
        same_entries(*old(doc), *final(doc)),
{
    doc.get_heads()
}

/// The named number of changes that `AutoCommit::get_changes` finds beyond
/// the given heads. The entries are as before.
#[verifier::external_body]
pub(crate) fn changes_after(doc: &mut automerge::AutoCommit, heads: &Vec<automerge::ChangeHash>) -> (r:
    usize)
    ensures
        r == changes_beyond(*old(doc), heads@),
        same_entries(*old(doc), *final(doc)),
{
    doc.get_changes(heads).len()
}

/// `AutoCommit::save_after`: the named bytes of the changes beyond the
/// given heads. The entries are as before.
#[verifier::external_body]
pub(crate) fn save_changes_after(doc: &mut automerge::AutoCommit, heads: &Vec<automerge::ChangeHash>) -> (r:
    Vec<u8>)
    ensures
        r@ == saved_beyond(*old(doc), heads@),
        same_entries(*old(doc), *final(doc)),
{
    doc.save_after(heads)
}

/// `AutoCommit::load_incremental`: takes in changes given as bytes. Where
/// it succeeds, the document has the named entries.
#[verifier::external_body]
pub(crate) fn load_changes(doc: &mut automerge::AutoCommit, bytes: &[u8]) -> (r: Result<
    (),
    automerge::AutomergeError,
>)
    ensures
        match r {
            Ok(_) => entries_with(*old(doc), bytes@) == Some(entries(*final(doc))),
            Err(_) => entries_with(*old(doc), bytes@) is None,
        },
{
    match doc.load_incremental(bytes) {
        Ok(_) => Ok(()),
        Err(e) => Err(e),
    }
}

/// `uuid::Uuid::new_v4`, as text: a random identifier of version 4, in
/// lowercase with hyphens. Which one it is, is not claimed.
#[verifier::external_body]
pub(crate) fn new_id() -> (r: String)
    ensures
        is_uuid_v4(r@),
{
    uuid::Uuid::new_v4().to_string()
}

/// `chrono::Utc::now`, as RFC 3339 text. Nothing is claimed of it. The
/// call panics on a machine whose clock stands before 1970.
#[verifier::external_body]
pub(crate) fn now_rfc3339() -> (r: String) {
    chrono::Utc::now().to_rfc3339()
}

/// `chrono::Utc::now`, as seconds since the epoch and nanoseconds within
/// the second. Nothing is claimed of it. The call panics on a machine whose
/// clock stands before 1970.
#[verifier::external_body]
pub(crate) fn now_instant() -> (r: (i64, u32)) {
    let now = chrono::Utc::now();
    (now.timestamp(), now.timestamp_subsec_nanos())
}

/// `chrono::DateTime::parse_from_rfc3339`: the named instant of the text.
#[verifier::external_body]
pub(crate) fn parse_instant(text: &str) -> (r: Option<(i64, u32)>)
    ensures
        r == rfc3339_instant(text@),
{
    match chrono::DateTime::parse_from_rfc3339(text) {
        Ok(t) => Some((t.timestamp(), t.timestamp_subsec_nanos())),
        Err(_) => None,
    }
}

} // verus!
