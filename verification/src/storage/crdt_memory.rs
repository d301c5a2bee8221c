//! The replicated memory store: memories kept in a document that merges
//! with the documents of other replicas.

use crate::storage::document::{
    changes_after, changes_beyond, delete_entry, document_heads, entries, entries_with, entry_at,
    entry_list, entry_number, entry_text, has_list, has_record, heads_of, insert_entry,
    insert_item, is_entry, is_items, is_list, is_uuid_v4, items_at, items_in, list_entry,
    list_item, load_changes, load_document, loaded_entries, merge_document, merged_entries,
    new_document, new_id, now_instant, now_rfc3339, number_in, object_length, parse_instant,
    parsed_number, place_of, put_entry_list, put_entry_number, put_entry_text, put_root_list,
    put_root_map, rfc3339_instant, root_list, same_entries, save_changes_after, save_document,
    saved, saved_beyond, text_in, with_value, Place, RawEntry, RawValue,
};
use crate::text::{chars_of, is_text, string_views, text_of};
use vstd::prelude::*;

verus! {

/// The kind of a replicated memory.
#[derive(Debug, Clone, Copy, PartialEq, Eq, Structural)]
pub enum CrdtMemoryType {
    Conversation,
    CodePattern,
    Decision,
    Preference,
    Fact,
}

impl CrdtMemoryType {
    /// The name under which a kind is stored.
    pub open spec fn name(self) -> Seq<char> {
        match self {
            CrdtMemoryType::Conversation => "conversation"@,
            CrdtMemoryType::CodePattern => "code_pattern"@,
            CrdtMemoryType::Decision => "decision"@,
            CrdtMemoryType::Preference => "preference"@,
            CrdtMemoryType::Fact => "fact"@,
        }
    }

    /// The kind that a stored name stands for; an unknown name stands for a fact.
    pub open spec fn named(s: Seq<char>) -> CrdtMemoryType {
        if s == "conversation"@ {
            CrdtMemoryType::Conversation
        } else if s == "code_pattern"@ {
            CrdtMemoryType::CodePattern
        } else if s == "decision"@ {
            CrdtMemoryType::Decision
        } else if s == "preference"@ {
            CrdtMemoryType::Preference
        } else {
            CrdtMemoryType::Fact
        }
    }

    pub fn as_str(&self) -> (r: &'static str)
        ensures
            r@ == self.name(),
    {
        match self {
            CrdtMemoryType::Conversation => "conversation",
            CrdtMemoryType::CodePattern => "code_pattern",
            CrdtMemoryType::Decision => "decision",
            CrdtMemoryType::Preference => "preference",
            CrdtMemoryType::Fact => "fact",
        }
    }

    pub fn from_str(s: &str) -> (r: Self)
        ensures
            r == Self::named(s@),
    {
        let v = chars_of(s);
        if is_text(&v, "conversation") {
            CrdtMemoryType::Conversation
        } else if is_text(&v, "code_pattern") {
            CrdtMemoryType::CodePattern
        } else if is_text(&v, "decision") {
            CrdtMemoryType::Decision
        } else if is_text(&v, "preference") {
            CrdtMemoryType::Preference
        } else {
            CrdtMemoryType::Fact
        }
    }
}

/// A replicated memory.
#[derive(Debug, Clone)]
pub struct CrdtMemory {
    pub id: String,
    pub content: String,
    pub memory_type: CrdtMemoryType,
    /// Time of creation, as RFC 3339 text.
    pub timestamp: String,
    /// Time of creation, in seconds since the epoch; the time of reading
    /// where the text is no time.
    pub seconds: i64,
    /// Nanoseconds of the time of creation within its second.
    pub nanos: u32,
    pub project: Option<String>,
    pub tags: Vec<String>,
    /// The importance, between 0 and 1, in decimal.
    pub importance: String,
}

/// A replicated memory as plain values.
pub struct MemoryView {
    pub id: Seq<char>,
    pub content: Seq<char>,
    pub memory_type: CrdtMemoryType,
    pub timestamp: Seq<char>,
    pub instant: (i64, u32),
    pub project: Option<Seq<char>>,
    pub tags: Seq<Seq<char>>,
    pub importance: Seq<char>,
}

impl View for CrdtMemory {
    type V = MemoryView;

    open spec fn view(&self) -> MemoryView {
        MemoryView {
            id: self.id@,
            content: self.content@,
            memory_type: self.memory_type,
            timestamp: self.timestamp@,
            instant: (self.seconds, self.nanos),
            project: match self.project {
                Some(p) => Some(p@),
                None => None,
            },
            tags: string_views(self.tags@),
            importance: self.importance@,
        }
    }
}

/// The views of a sequence of memories.
pub open spec fn memory_views(v: Seq<CrdtMemory>) -> Seq<MemoryView> {
    v.map_values(|m: CrdtMemory| m@)
}

/// Why an operation on the store failed.
#[derive(Debug, Clone, Copy, PartialEq, Eq, Structural)]
pub enum CrdtError {
    /// The document has no list of memories.
    NoList,
    /// No memory has the given id.
    NotFound,
    /// The document refused the operation.
    Document,
    /// The importance given is no number.
    InvalidNumber,
}

/// The string under a key of an entry, or the empty text.
pub open spec fn text_or_empty(e: RawEntry, key: Seq<char>) -> Seq<char> {
    match text_in(e, key) {
        Some(t) => t,
        None => seq![],
    }
}

/// The items that are strings, in order.
pub open spec fn strings_among(items: Seq<Option<Seq<char>>>) -> Seq<Seq<char>>
    decreases items.len(),
{
    if items.len() == 0 {
        seq![]
    } else {
        match items.last() {
            Some(t) => strings_among(items.drop_last()).push(t),
            None => strings_among(items.drop_last()),
        }
    }
}

/// The tags of an entry: the strings among the items under `tags`.
pub open spec fn tags_of(e: RawEntry) -> Seq<Seq<char>> {
    match items_in(e, "tags"@) {
        Some(items) => strings_among(items),
        None => seq![],
    }
}

/// Whether a memory is what an entry reads as: its texts are the entry's
/// strings, empty where the entry has none; its kind the one its `type`
/// names; its importance the entry's, 0.5 where it has none; its instant
/// that of its timestamp, where that is a time.
pub open spec fn reads_as(m: MemoryView, e: RawEntry) -> bool {
    &&& m.id == text_or_empty(e, "id"@)
    &&& m.content == text_or_empty(e, "content"@)
    &&& m.memory_type == CrdtMemoryType::named(text_or_empty(e, "type"@))
    &&& m.timestamp == text_or_empty(e, "timestamp"@)
    &&& m.project == text_in(e, "project"@)
    &&& m.tags == tags_of(e)
    &&& m.importance == match number_in(e, "importance"@) {
        Some(n) => n,
        None => "0.5"@,
    }
    &&& rfc3339_instant(m.timestamp) is Some ==> m.instant == rfc3339_instant(m.timestamp)->0
}

/// Whether the memories are what the entries read as, one for one.
pub open spec fn read_as(ms: Seq<MemoryView>, es: Seq<RawEntry>) -> bool {
    ms.len() == es.len() && forall|i: int| 0 <= i < ms.len() ==> reads_as(#[trigger] ms[i], es[i])
}

/// Position of the first entry, from `from` on, whose id is the given one.
pub open spec fn index_of_id(es: Seq<RawEntry>, id: Seq<char>, from: int) -> Option<
    int,
>
    decreases es.len() - from,
{
    if from < 0 || from >= es.len() {
        None
    } else if text_in(es[from], "id"@) == Some(id) {
        Some(from)
    } else {
        index_of_id(es, id, from + 1)
    }
}

/// The entry of a new memory.
pub open spec fn fresh_entry(
    id: Seq<char>,
    content: Seq<char>,
    kind: CrdtMemoryType,
    timestamp: Seq<char>,
    project: Option<Seq<char>>,
    importance: Seq<char>,
) -> RawEntry {
    let base = Map::<Seq<char>, RawValue>::empty().insert("id"@, RawValue::Text(id)).insert(
        "content"@,
        RawValue::Text(content),
    ).insert("type"@, RawValue::Text(kind.name())).insert("timestamp"@, RawValue::Text(timestamp));
    let with_project = match project {
        Some(p) => base.insert("project"@, RawValue::Text(p)),
        None => base,
    };
    RawEntry::Record(
        with_project.insert("importance"@, RawValue::Number(importance)).insert(
            "tags"@,
            RawValue::List(seq![]),
        ),
    )
}

/// Whether `after` is `before` with one more entry, the last: that of a new
/// memory with the given id, content, kind and project, of some time, of
/// importance 0.5 and without tags.
pub open spec fn added(
    before: Seq<RawEntry>,
    after: Seq<RawEntry>,
    id: Seq<char>,
    content: Seq<char>,
    kind: CrdtMemoryType,
    project: Option<Seq<char>>,
) -> bool {
    exists|timestamp: Seq<char>|
        after == before.push(#[trigger] fresh_entry(id, content, kind, timestamp, project, "0.5"@))
}

/// Whether `a` is later than `b`.
pub open spec fn later(a: (i64, u32), b: (i64, u32)) -> bool {
    a.0 > b.0 || (a.0 == b.0 && a.1 > b.1)
}

/// Where a memory goes among memories that stand newest first: before the
/// first that it is later than, searched from `from` on.
pub open spec fn place_from(sorted: Seq<MemoryView>, m: MemoryView, from: int) -> int
    decreases sorted.len() - from,
{
    if from < 0 || from >= sorted.len() {
        sorted.len() as int
    } else if later(m.instant, sorted[from].instant) {
        from
    } else {
        place_from(sorted, m, from + 1)
    }
}

/// The memories newest first; memories of the same instant keep their order.
pub open spec fn newest_first(ms: Seq<MemoryView>) -> Seq<MemoryView>
    decreases ms.len(),
{
    if ms.len() == 0 {
        seq![]
    } else {
        let sorted = newest_first(ms.drop_last());
        sorted.insert(place_from(sorted, ms.last(), 0), ms.last())
    }
}

/// Whether no memory stands before a later one.
pub open spec fn is_newest_first(ms: Seq<MemoryView>) -> bool {
    forall|i: int, j: int| 0 <= i < j < ms.len() ==> !later(ms[j].instant, ms[i].instant)
}

proof fn lemma_place_from(sorted: Seq<MemoryView>, m: MemoryView, from: int)
    requires
        0 <= from <= sorted.len(),
    ensures
        from <= place_from(sorted, m, from) <= sorted.len(),
        forall|k: int|
            from <= k < place_from(sorted, m, from) ==> !later(m.instant, sorted[k].instant),
        place_from(sorted, m, from) < sorted.len() ==> later(
            m.instant,
            sorted[place_from(sorted, m, from)].instant,
        ),
    decreases sorted.len() - from,
{
    if from < sorted.len() && !later(m.instant, sorted[from].instant) {
        lemma_place_from(sorted, m, from + 1);
    }
}

/// `newest_first` keeps every memory and puts none before a later one.
pub proof fn lemma_newest_first(ms: Seq<MemoryView>)
    ensures
        newest_first(ms).len() == ms.len(),
        is_newest_first(newest_first(ms)),
        newest_first(ms).to_multiset() == ms.to_multiset(),
    decreases ms.len(),
{
    if ms.len() == 0 {
        assert(newest_first(ms) =~= ms);
    } else {
        let front = ms.drop_last();
        let m = ms.last();
        let sorted = newest_first(front);
        lemma_newest_first(front);
        lemma_place_from(sorted, m, 0);
        let p = place_from(sorted, m, 0);
        let out = sorted.insert(p, m);
        assert forall|i: int, j: int| 0 <= i < j < out.len() implies !later(
            out[j].instant,
            out[i].instant,
        ) by {
            if j < p {
                assert(out[i] == sorted[i] && out[j] == sorted[j]);
            } else if j == p {
                assert(out[i] == sorted[i]);
            } else if i < p {
                assert(out[i] == sorted[i] && out[j] == sorted[j - 1]);
            } else if i == p {
                assert(out[j] == sorted[j - 1]);
                assert(!later(sorted[j - 1].instant, sorted[p].instant) || j - 1 == p);
            } else {
                assert(out[i] == sorted[i - 1] && out[j] == sorted[j - 1]);
            }
        }
        vstd::seq_lib::to_multiset_insert(sorted, p, m);
        assert(ms =~= front.push(m));
        front.to_multiset_ensures();
        assert(front.push(m).to_multiset() =~= front.to_multiset().insert(m));
    }
}

/// The memories that satisfy `keep`, in order.
pub open spec fn kept(ms: Seq<MemoryView>, keep: spec_fn(MemoryView) -> bool) -> Seq<MemoryView>
    decreases ms.len(),
{
    if ms.len() == 0 {
        seq![]
    } else if keep(ms.last()) {
        kept(ms.drop_last(), keep).push(ms.last())
    } else {
        kept(ms.drop_last(), keep)
    }
}

/// The first `n` memories, or all of them where there are fewer.
pub open spec fn first_memories(ms: Seq<MemoryView>, n: nat) -> Seq<MemoryView> {
    if ms.len() <= n {
        ms
    } else {
        ms.take(n as int)
    }
}

/// The memories of the given kind.
pub open spec fn of_kind(kind: CrdtMemoryType) -> spec_fn(MemoryView) -> bool {
    |m: MemoryView| m.memory_type == kind
}

/// The memories of the given project.
pub open spec fn of_project(project: Seq<char>) -> spec_fn(MemoryView) -> bool {
    |m: MemoryView| m.project == Some(project)
}

/// Whether `after` are the entries of a document after it has taken in the
/// changes of the document that bytes hold.
pub open spec fn merged_from(
    doc: automerge::AutoCommit,
    bytes: Seq<u8>,
    after: Seq<RawEntry>,
) -> bool {
    exists|other: automerge::AutoCommit|
        loaded_entries(bytes) == Some(entries(other)) && #[trigger] merged_entries(doc, other)
            == Some(after)
}

/// Whether a document takes not the changes of the document that bytes
/// hold: the bytes hold no document, or the merge with it is refused.
pub open spec fn merge_refused(doc: automerge::AutoCommit, bytes: Seq<u8>) -> bool {
    loaded_entries(bytes) is None || exists|other: automerge::AutoCommit|
        loaded_entries(bytes) == Some(entries(other)) && #[trigger] merged_entries(doc, other)
            is None
}

/// Whether `bytes` hold the changes of a document beyond the given heads,
/// the document taken as it is once its changes were counted.
pub open spec fn delta_from(
    doc: automerge::AutoCommit,
    heads: Seq<automerge::ChangeHash>,
    bytes: Seq<u8>,
) -> bool {
    exists|settled: automerge::AutoCommit|
        same_entries(doc, settled) && bytes == #[trigger] saved_beyond(settled, heads)
}

/// The text of a string slice that may be absent.
pub open spec fn slice_text(s: Option<&str>) -> Option<Seq<char>> {
    match s {
        Some(t) => Some(t@),
        None => None,
    }
}

/// The entry that is read through an id that may be absent: without an
/// id, an entry that is no map.
pub open spec fn read_through(doc: automerge::AutoCommit, entry: Option<automerge::ObjId>) -> RawEntry {
    match entry {
        Some(id) => entry_at(doc, id),
        None => RawEntry::Other,
    }
}

/// Whether an id, where there is one, stands for an entry of the document.
pub open spec fn readable(doc: automerge::AutoCommit, entry: Option<automerge::ObjId>) -> bool {
    entry is Some ==> is_entry(doc, entry->0)
}

/// The replicated memory store.
pub struct CrdtMemoryStore {
    pub doc: automerge::AutoCommit,
}

fn copy_strings(v: &Vec<String>) -> (r: Vec<String>)
    ensures
        string_views(r@) == string_views(v@),
{
    let mut r: Vec<String> = Vec::new();
    let mut i: usize = 0;
    while i < v.len()
        invariant
            i <= v.len(),
            string_views(r@) == string_views(v@).take(i as int),
        decreases v.len() - i,
    {
        let ghost before = r@;
        let s = v[i].clone();
        r.push(s);
        assert(string_views(r@) =~= string_views(before).push(s@));
        assert(string_views(v@).take(i + 1) =~= string_views(v@).take(i as int).push(
            v@[i as int]@,
        ));
        i += 1;
    }
    assert(string_views(v@).take(v@.len() as int) =~= string_views(v@));
    r
}

fn copy_memory(m: &CrdtMemory) -> (r: CrdtMemory)
    ensures
        r@ == m@,
{
    CrdtMemory {
        id: m.id.clone(),
        content: m.content.clone(),
        memory_type: m.memory_type,
        timestamp: m.timestamp.clone(),
        seconds: m.seconds,
        nanos: m.nanos,
        project: match &m.project {
            Some(p) => Some(p.clone()),
            None => None,
        },
        tags: copy_strings(&m.tags),
        importance: m.importance.clone(),
    }
}

fn text_or_default(t: Option<String>) -> (r: String)
    ensures
        r@ == match t {
            Some(s) => s@,
            None => Seq::<char>::empty(),
        },
{
    match t {
        Some(s) => s,
        None => String::new(),
    }
}

impl CrdtMemoryStore {
    /// The entries of the store's document.
    pub open spec fn entries(&self) -> Seq<RawEntry> {
        entries(self.doc)
    }

    /// A store without memories.
    pub fn new() -> (r: Result<Self, CrdtError>)
        ensures
            r is Ok,
            has_list(r->Ok_0.doc),
            r->Ok_0.entries().len() == 0,
    {
        let mut doc = new_document();
        match put_root_list(&mut doc, "memories") {
            Ok(_) => {},
            Err(_) => {
                return Err(CrdtError::Document);
            },
        }
        proof {
            reveal_strlit("memories");
            reveal_strlit("metadata");
            assert("metadata"@[2] != "memories"@[2]);
        }
        match put_root_map(&mut doc, "metadata") {
            Ok(_) => {},
            Err(_) => {
                return Err(CrdtError::Document);
            },
        }
        Ok(CrdtMemoryStore { doc })
    }

    /// The store that saved bytes hold: it has the entries of the document
    /// in the bytes; there is none where the bytes hold no document.
    pub fn load(bytes: &[u8]) -> (r: Result<Self, CrdtError>)
        ensures
            match r {
                Ok(s) => loaded_entries(bytes@) == Some(s.entries()),
                Err(e) => e == CrdtError::Document && loaded_entries(bytes@) is None,
            },
    {
        match load_document(bytes) {
            Ok(doc) => Ok(CrdtMemoryStore { doc }),
            Err(_) => Err(CrdtError::Document),
        }
    }

    /// The whole document as bytes, as it is written to disk.
    pub fn save(&mut self) -> (r: Vec<u8>)
        ensures
            r@ == saved(old(self).doc),
            final(self).entries() == old(self).entries(),
            has_list(final(self).doc) == has_list(old(self).doc),
    {
        save_document(&mut self.doc)
    }

    /// The whole document as bytes, for another replica.
    pub fn export(&mut self) -> (r: Vec<u8>)
        ensures
            r@ == saved(old(self).doc),
            final(self).entries() == old(self).entries(),
            has_list(final(self).doc) == has_list(old(self).doc),
    {
        save_document(&mut self.doc)
    }

    fn list(&self) -> (r: Result<automerge::ObjId, CrdtError>)
        ensures
            match r {
                Ok(id) => is_list(self.doc, id),
                Err(e) => e == CrdtError::NoList && !has_list(self.doc) && self.entries().len()
                    == 0,
            },
    {
        match root_list(&self.doc, "memories") {
            Ok(Some(id)) => Ok(id),
            _ => Err(CrdtError::NoList),
        }
    }

    /// The number of memories.
    pub fn count(&self) -> (r: Result<usize, CrdtError>)
        ensures
            match r {
                Ok(n) => has_list(self.doc) && n == self.entries().len(),
                Err(e) => e == CrdtError::NoList && !has_list(self.doc),
            },
    {
        let list = self.list()?;
        Ok(object_length(&self.doc, &list))
    }

    fn get_string(&self, entry: &Option<automerge::ObjId>, key: &str) -> (r: Result<
        Option<String>,
        CrdtError,
    >)
        requires
            readable(self.doc, *entry),
        ensures
            match r {
                Ok(v) => text_of(v) == text_in(read_through(self.doc, *entry), key@),
                Err(_) => false,
            },
    {
        match entry {
            Some(id) => match entry_text(&self.doc, id, key) {
                Ok(v) => Ok(v),
                Err(_) => Err(CrdtError::Document),
            },
            None => Ok(None),
        }
    }

    fn get_number(&self, entry: &Option<automerge::ObjId>, key: &str) -> (r: Result<
        Option<String>,
        CrdtError,
    >)
        requires
            readable(self.doc, *entry),
        ensures
            match r {
                Ok(v) => text_of(v) == number_in(read_through(self.doc, *entry), key@),
                Err(_) => false,
            },
    {
        match entry {
            Some(id) => match entry_number(&self.doc, id, key) {
                Ok(v) => Ok(v),
                Err(_) => Err(CrdtError::Document),
            },
            None => Ok(None),
        }
    }

    fn get_string_list(&self, entry: &Option<automerge::ObjId>, key: &str) -> (r: Result<
        Vec<String>,
        CrdtError,
    >)
        requires
            readable(self.doc, *entry),
        ensures
            match r {
                Ok(v) => string_views(v@) == match items_in(
                    read_through(self.doc, *entry),
                    key@,
                ) {
                    Some(items) => strings_among(items),
                    None => Seq::<Seq<char>>::empty(),
                },
                Err(_) => false,
            },
    {
        let mut out: Vec<String> = Vec::new();
        assert(string_views(out@) =~= Seq::<Seq<char>>::empty());
        let id = match entry {
            Some(id) => id,
            None => {
                return Ok(out);
            },
        };
        let list = match entry_list(&self.doc, id, key) {
            Ok(Some(list)) => list,
            _ => {
                return Ok(out);
            },
        };
        let n = object_length(&self.doc, &list);
        let ghost items = items_at(self.doc, list);
        let mut i: usize = 0;
        assert(string_views(out@) =~= strings_among(items.take(0)));
        while i < n
            invariant
                i <= n == items.len(),
                is_items(self.doc, list),
                items == items_at(self.doc, list),
                string_views(out@) == strings_among(items.take(i as int)),
            decreases n - i,
        {
            proof {
                assert(items.take(i + 1).drop_last() =~= items.take(i as int));
                assert(items.take(i + 1).last() == items[i as int]);
            }
            match list_item(&self.doc, &list, i) {
                Ok(Some(t)) => {
                    let ghost before = out@;
                    out.push(t);
                    assert(string_views(out@) =~= string_views(before).push(t@));
                },
                _ => {},
            }
            i += 1;
        }
        assert(items.take(n as int) =~= items);
        Ok(out)
    }

    fn read_memory(&self, entry: &Option<automerge::ObjId>) -> (r: Result<CrdtMemory, CrdtError>)
        requires
            readable(self.doc, *entry),
        ensures
            match r {
                Ok(m) => reads_as(m@, read_through(self.doc, *entry)),
                Err(_) => false,
            },
    {
        let id = text_or_default(self.get_string(entry, "id")?);
        let content = text_or_default(self.get_string(entry, "content")?);
        let kind = text_or_default(self.get_string(entry, "type")?);
        let timestamp = text_or_default(self.get_string(entry, "timestamp")?);
        let project = self.get_string(entry, "project")?;
        let importance = match self.get_number(entry, "importance")? {
            Some(n) => n,
            None => String::from_str("0.5"),
        };
        let instant = match parse_instant(timestamp.as_str()) {
            Some(t) => t,
            None => now_instant(),
        };
        let tags = self.get_string_list(entry, "tags")?;
        Ok(
            CrdtMemory {
                id,
                content,
                memory_type: CrdtMemoryType::from_str(kind.as_str()),
                timestamp,
                seconds: instant.0,
                nanos: instant.1,
                project,
                tags,
                importance,
            },
        )
    }

    /// All the memories, in the order of the document. An entry that is no
    /// map reads as a memory without values.
    pub fn get_all(&self) -> (r: Result<Vec<CrdtMemory>, CrdtError>)
        ensures
            match r {
                Ok(v) => has_list(self.doc) && read_as(memory_views(v@), self.entries()),
                Err(e) => e == CrdtError::NoList && !has_list(self.doc),
            },
    {
        let list = self.list()?;
        let n = object_length(&self.doc, &list);
        let mut out: Vec<CrdtMemory> = Vec::new();
        let mut i: usize = 0;
        while i < n
            invariant
                i <= n == self.entries().len(),
                is_list(self.doc, list),
                out@.len() == i,
                forall|k: int|
                    0 <= k < i ==> reads_as(#[trigger] memory_views(out@)[k], self.entries()[k]),
            decreases n - i,
        {
            let entry = match list_entry(&self.doc, &list, i) {
                Ok(entry) => entry,
                Err(_) => None,
            };
            assert(read_through(self.doc, entry) == self.entries()[i as int]);
            let m = self.read_memory(&entry)?;
            let ghost before = out@;
            out.push(m);
            proof {
                assert forall|k: int| 0 <= k < i + 1 implies reads_as(
                    #[trigger] memory_views(out@)[k],
                    self.entries()[k],
                ) by {
                    if k < i {
                        assert(memory_views(out@)[k] == memory_views(before)[k]);
                    }
                }
            }
            i += 1;
        }
        Ok(out)
    }

    /// The newest memories, newest first, `limit` at most.
    pub fn get_recent(&self, limit: usize) -> (r: Result<Vec<CrdtMemory>, CrdtError>)
        ensures
            match r {
                Ok(v) => has_list(self.doc) && exists|all: Seq<MemoryView>|
                    read_as(all, self.entries()) && memory_views(v@) == first_memories(
                        newest_first(all),
                        limit as nat,
                    ),
                Err(e) => e == CrdtError::NoList && !has_list(self.doc),
            },
    {
        let all = self.get_all()?;
        let sorted = sort_newest_first(&all);
        let mut sorted = sorted;
        if sorted.len() > limit {
            sorted.truncate(limit);
            assert(memory_views(sorted@) =~= first_memories(
                newest_first(memory_views(all@)),
                limit as nat,
            )) by {
                lemma_newest_first(memory_views(all@));
            }
        }
        Ok(sorted)
    }

    /// The memories of a kind, in the order of the document, `limit` at most.
    pub fn get_by_type(&self, memory_type: CrdtMemoryType, limit: usize) -> (r: Result<
        Vec<CrdtMemory>,
        CrdtError,
    >)
        ensures
            match r {
                Ok(v) => has_list(self.doc) && exists|all: Seq<MemoryView>|
                    read_as(all, self.entries()) && memory_views(v@) == first_memories(
                        kept(all, of_kind(memory_type)),
                        limit as nat,
                    ),
                Err(e) => e == CrdtError::NoList && !has_list(self.doc),
            },
    {
        let all = self.get_all()?;
        let ghost views = memory_views(all@);
        let mut out: Vec<CrdtMemory> = Vec::new();
        let mut i: usize = 0;
        assert(memory_views(out@) =~= first_memories(
            kept(views.take(0), of_kind(memory_type)),
            limit as nat,
        ));
        while i < all.len()
            invariant
                i <= all.len(),
                views == memory_views(all@),
                memory_views(out@) == first_memories(
                    kept(views.take(i as int), of_kind(memory_type)),
                    limit as nat,
                ),
            decreases all.len() - i,
        {
            proof {
                assert(views.take(i + 1).drop_last() =~= views.take(i as int));
                assert(views.take(i + 1).last() == all@[i as int]@);
            }
            if all[i].memory_type == memory_type && out.len() < limit {
                let ghost before = out@;
                let m = copy_memory(&all[i]);
                out.push(m);
                assert(memory_views(out@) =~= memory_views(before).push(m@));
            }
            proof {
                assert(memory_views(out@) =~= first_memories(
                    kept(views.take(i + 1), of_kind(memory_type)),
                    limit as nat,
                ));
            }
            i += 1;
        }
        assert(views.take(all@.len() as int) =~= views);
        Ok(out)
    }

    /// The memories of a project, in the order of the document, `limit` at
    /// most.
    pub fn get_by_project(&self, project: &str, limit: usize) -> (r: Result<
        Vec<CrdtMemory>,
        CrdtError,
    >)
        ensures
            match r {
                Ok(v) => has_list(self.doc) && exists|all: Seq<MemoryView>|
                    read_as(all, self.entries()) && memory_views(v@) == first_memories(
                        kept(all, of_project(project@)),
                        limit as nat,
                    ),
                Err(e) => e == CrdtError::NoList && !has_list(self.doc),
            },
    {
        let all = self.get_all()?;
        let ghost views = memory_views(all@);
        let wanted = chars_of(project);
        let mut out: Vec<CrdtMemory> = Vec::new();
        let mut i: usize = 0;
        assert(memory_views(out@) =~= first_memories(
            kept(views.take(0), of_project(project@)),
            limit as nat,
        ));
        while i < all.len()
            invariant
                i <= all.len(),
                views == memory_views(all@),
                wanted@ == project@,
                memory_views(out@) == first_memories(
                    kept(views.take(i as int), of_project(project@)),
                    limit as nat,
                ),
            decreases all.len() - i,
        {
            proof {
                assert(views.take(i + 1).drop_last() =~= views.take(i as int));
                assert(views.take(i + 1).last() == all@[i as int]@);
            }
            let same = match &all[i].project {
                Some(p) => is_text(&wanted, p.as_str()),
                None => false,
            };
            if same && out.len() < limit {
                let ghost before = out@;
                let m = copy_memory(&all[i]);
                out.push(m);
                assert(memory_views(out@) =~= memory_views(before).push(m@));
            }
            proof {
                assert(memory_views(out@) =~= first_memories(
                    kept(views.take(i + 1), of_project(project@)),
                    limit as nat,
                ));
            }
            i += 1;
        }
        assert(views.take(all@.len() as int) =~= views);
        Ok(out)
    }

    fn find_entry(&self, id: &str) -> (r: Result<Option<(usize, automerge::ObjId)>, CrdtError>)
        ensures
            match r {
                Ok(Some(found)) => has_record(self.doc, found.0 as int) && index_of_id(
                    self.entries(),
                    id@,
                    0,
                ) == Some(found.0 as int) && place_of(self.doc, found.1) == Place::Entry(
                    found.0 as int,
                ),
                Ok(None) => has_list(self.doc) && index_of_id(self.entries(), id@, 0) is None,
                Err(e) => e == CrdtError::NoList && !has_list(self.doc),
            },
    {
        let list = self.list()?;
        let n = object_length(&self.doc, &list);
        let wanted = chars_of(id);
        let mut i: usize = 0;
        while i < n
            invariant
                i <= n == self.entries().len(),
                is_list(self.doc, list),
                wanted@ == id@,
                index_of_id(self.entries(), id@, 0) == index_of_id(self.entries(), id@, i as int),
            decreases n - i,
        {
            match list_entry(&self.doc, &list, i) {
                Ok(Some(entry)) => {
                    let found = match entry_text(&self.doc, &entry, "id") {
                        Ok(Some(t)) => is_text(&wanted, t.as_str()),
                        _ => false,
                    };
                    if found {
                        return Ok(Some((i, entry)));
                    }
                },
                _ => {},
            }
            i += 1;
        }
        Ok(None)
    }

    /// Position of the first memory with the given id.
    pub fn find(&self, id: &str) -> (r: Result<Option<usize>, CrdtError>)
        ensures
            match r {
                Ok(Some(k)) => has_record(self.doc, k as int) && index_of_id(
                    self.entries(),
                    id@,
                    0,
                ) == Some(k as int),
                Ok(None) => has_list(self.doc) && index_of_id(self.entries(), id@, 0) is None,
                Err(e) => e == CrdtError::NoList && !has_list(self.doc),
            },
    {
        match self.find_entry(id)? {
            Some(found) => Ok(Some(found.0)),
            None => Ok(None),
        }
    }

    fn add_entry(&mut self, content: &str, memory_type: CrdtMemoryType, project: Option<&str>) -> (r:
        Result<String, CrdtError>)
        ensures
            match r {
                Ok(id) => is_uuid_v4(id@) && has_list(old(self).doc) && has_list(final(self).doc)
                    && added(
                    old(self).entries(),
                    final(self).entries(),
                    id@,
                    content@,
                    memory_type,
                    slice_text(project),
                ),
                Err(e) => e == CrdtError::NoList && !has_list(old(self).doc)
                    && final(self).entries() == old(self).entries() && !has_list(final(self).doc),
            },
    {
        let id = new_id();
        let timestamp = now_rfc3339();
        let ghost start = self.entries();
        let list = self.list()?;
        let n = object_length(&self.doc, &list);
        let entry = match insert_entry(&mut self.doc, &list, n) {
            Ok(entry) => entry,
            Err(_) => {
                return Err(CrdtError::Document);
            },
        };
        let ghost e0 = Map::<Seq<char>, RawValue>::empty();
        assert(self.entries() == start.push(RawEntry::Record(e0)));
        let _ = put_entry_text(&mut self.doc, &entry, "id", id.as_str());
        let ghost e1 = e0.insert("id"@, RawValue::Text(id@));
        assert(self.entries() =~= start.push(RawEntry::Record(e1)));
        let _ = put_entry_text(&mut self.doc, &entry, "content", content);
        let ghost e2 = e1.insert("content"@, RawValue::Text(content@));
        assert(self.entries() =~= start.push(RawEntry::Record(e2)));
        let _ = put_entry_text(&mut self.doc, &entry, "type", memory_type.as_str());
        let ghost e3 = e2.insert("type"@, RawValue::Text(memory_type.name()));
        assert(self.entries() =~= start.push(RawEntry::Record(e3)));
        let _ = put_entry_text(&mut self.doc, &entry, "timestamp", timestamp.as_str());
        let ghost e4 = e3.insert("timestamp"@, RawValue::Text(timestamp@));
        assert(self.entries() =~= start.push(RawEntry::Record(e4)));
        let ghost mut e5 = e4;
        match project {
            Some(p) => {
                let _ = put_entry_text(&mut self.doc, &entry, "project", p);
                proof {
                    e5 = e4.insert("project"@, RawValue::Text(p@));
                }
            },
            None => {},
        }
        assert(self.entries() =~= start.push(RawEntry::Record(e5)));
        let _ = put_entry_number(&mut self.doc, &entry, "importance", "0.5");
        let ghost e6 = e5.insert("importance"@, RawValue::Number("0.5"@));
        assert(self.entries() =~= start.push(RawEntry::Record(e6)));
        let _ = put_entry_list(&mut self.doc, &entry, "tags");
        let ghost e7 = e6.insert("tags"@, RawValue::List(seq![]));
        assert(self.entries() =~= start.push(RawEntry::Record(e7)));
        assert(RawEntry::Record(e7) == fresh_entry(
            id@,
            content@,
            memory_type,
            timestamp@,
            slice_text(project),
            "0.5"@,
        ));
        assert(added(start, self.entries(), id@, content@, memory_type, slice_text(project)));
        Ok(id)
    }

    /// Adds a memory with a fresh random id, the time of now, importance
    /// 0.5 and no tags, as the last; returns its id. The one failure is a
    /// document without the list, which is left as it is.
    pub fn add(&mut self, content: &str, memory_type: CrdtMemoryType) -> (r: Result<
        String,
        CrdtError,
    >)
        ensures
            match r {
                Ok(id) => is_uuid_v4(id@) && has_list(old(self).doc) && has_list(final(self).doc)
                    && added(
                    old(self).entries(),
                    final(self).entries(),
                    id@,
                    content@,
                    memory_type,
                    None,
                ),
                Err(e) => e == CrdtError::NoList && !has_list(old(self).doc)
                    && final(self).entries() == old(self).entries() && !has_list(final(self).doc),
            },
    {
        self.add_entry(content, memory_type, None)
    }

    /// Adds a memory of a project, like `add`.
    pub fn add_with_project(&mut self, content: &str, memory_type: CrdtMemoryType, project: &str) -> (r:
        Result<String, CrdtError>)
        ensures
            match r {
                Ok(id) => is_uuid_v4(id@) && has_list(old(self).doc) && has_list(final(self).doc)
                    && added(
                    old(self).entries(),
                    final(self).entries(),
                    id@,
                    content@,
                    memory_type,
                    Some(project@),
                ),
                Err(e) => e == CrdtError::NoList && !has_list(old(self).doc)
                    && final(self).entries() == old(self).entries() && !has_list(final(self).doc),
            },
    {
        self.add_entry(content, memory_type, Some(project))
    }

    /// Writes the importance, given in decimal, of the first memory with
    /// the given id. A text that is no number, and an id that no memory
    /// has, are refused, and nothing changes.
    pub fn update_importance(&mut self, id: &str, importance: &str) -> (r: Result<(), CrdtError>)
        ensures
            has_list(final(self).doc) == has_list(old(self).doc),
            match r {
                Ok(_) => has_list(old(self).doc) && index_of_id(old(self).entries(), id@, 0)
                    is Some && parsed_number(importance@) is Some && final(self).entries()
                    == with_value(
                    old(self).entries(),
                    index_of_id(old(self).entries(), id@, 0)->0,
                    "importance"@,
                    RawValue::Number(parsed_number(importance@)->0),
                ),
                Err(CrdtError::NoList) => !has_list(old(self).doc) && final(self).entries() == old(
                    self,
                ).entries(),
                Err(CrdtError::NotFound) => has_list(old(self).doc) && index_of_id(
                    old(self).entries(),
                    id@,
                    0,
                ) is None && final(self).entries() == old(self).entries(),
                Err(CrdtError::InvalidNumber) => has_list(old(self).doc) && index_of_id(
                    old(self).entries(),
                    id@,
                    0,
                ) is Some && parsed_number(importance@) is None && final(self).entries() == old(
                    self,
                ).entries(),
                Err(CrdtError::Document) => false,
            },
    {
        let found = match self.find_entry(id)? {
            Some(found) => found,
            None => {
                return Err(CrdtError::NotFound);
            },
        };
        match put_entry_number(&mut self.doc, &found.1, "importance", importance) {
            Ok(true) => Ok(()),
            Ok(false) => Err(CrdtError::InvalidNumber),
            Err(_) => Err(CrdtError::Document),
        }
    }

    /// Adds a tag, as the last, to the first memory with the given id. An
    /// id that no memory has, and a memory without a list of tags, are
    /// refused, and nothing changes.
    pub fn add_tag(&mut self, id: &str, tag: &str) -> (r: Result<(), CrdtError>)
        ensures
            has_list(final(self).doc) == has_list(old(self).doc),
            match r {
                Ok(_) => has_list(old(self).doc) && index_of_id(old(self).entries(), id@, 0)
                    is Some && {
                    let k = index_of_id(old(self).entries(), id@, 0)->0;
                    let e = old(self).entries()[k];
                    items_in(e, "tags"@) is Some && final(self).entries() == with_value(
                        old(self).entries(),
                        k,
                        "tags"@,
                        RawValue::List(items_in(e, "tags"@)->0.push(Some(tag@))),
                    )
                },
                Err(CrdtError::NoList) => !has_list(old(self).doc) && final(self).entries() == old(
                    self,
                ).entries(),
                Err(CrdtError::NotFound) => has_list(old(self).doc) && (index_of_id(
                    old(self).entries(),
                    id@,
                    0,
                ) is None || items_in(
                    old(self).entries()[index_of_id(old(self).entries(), id@, 0)->0],
                    "tags"@,
                ) is None) && final(self).entries() == old(self).entries(),
                Err(_) => false,
            },
    {
        let found = match self.find_entry(id)? {
            Some(found) => found,
            None => {
                return Err(CrdtError::NotFound);
            },
        };
        let tags = match entry_list(&self.doc, &found.1, "tags") {
            Ok(Some(tags)) => tags,
            _ => {
                return Err(CrdtError::NotFound);
            },
        };
        let n = object_length(&self.doc, &tags);
        match insert_item(&mut self.doc, &tags, n, tag) {
            Ok(_) => Ok(()),
            Err(_) => Err(CrdtError::Document),
        }
    }

    /// Deletes the first memory with the given id; the others keep their
    /// order. An id that no memory has is refused, and nothing changes.
    pub fn delete(&mut self, id: &str) -> (r: Result<(), CrdtError>)
        ensures
            has_list(final(self).doc) == has_list(old(self).doc),
            match r {
                Ok(_) => has_list(old(self).doc) && index_of_id(old(self).entries(), id@, 0)
                    is Some && final(self).entries() == old(self).entries().remove(
                    index_of_id(old(self).entries(), id@, 0)->0,
                ),
                Err(CrdtError::NoList) => !has_list(old(self).doc) && final(self).entries() == old(
                    self,
                ).entries(),
                Err(CrdtError::NotFound) => has_list(old(self).doc) && index_of_id(
                    old(self).entries(),
                    id@,
                    0,
                ) is None && final(self).entries() == old(self).entries(),
                Err(_) => false,
            },
    {
        let k = match self.find(id)? {
            Some(k) => k,
            None => {
                return Err(CrdtError::NotFound);
            },
        };
        let list = self.list()?;
        match delete_entry(&mut self.doc, &list, k) {
            Ok(_) => Ok(()),
            Err(_) => Err(CrdtError::Document),
        }
    }

    /// Takes in the changes of another replica, given as its whole
    /// document. Bytes that hold no document change nothing; else the
    /// memories are, where the merge succeeds, those of the merge with the
    /// document in the bytes.
    pub fn merge(&mut self, other_bytes: &[u8]) -> (r: Result<(), CrdtError>)
        ensures
            loaded_entries(other_bytes@) is None ==> r is Err && final(self).entries() == old(
                self,
            ).entries() && has_list(final(self).doc) == has_list(old(self).doc),
            r is Ok ==> merged_from(old(self).doc, other_bytes@, final(self).entries()),
            r is Err ==> r->Err_0 == CrdtError::Document && merge_refused(
                old(self).doc,
                other_bytes@,
            ),
    {
        let mut other = match load_document(other_bytes) {
            Ok(d) => d,
            Err(_) => {
                return Err(CrdtError::Document);
            },
        };
        let ghost before = self.doc;
        let ghost taken = other;
        match merge_document(&mut self.doc, &mut other) {
            Ok(_) => {
                assert(merged_entries(before, taken) == Some(self.entries()));
                assert(merged_from(before, other_bytes@, self.entries()));
                Ok(())
            },
            Err(_) => {
                assert(merged_entries(before, taken) is None);
                assert(merge_refused(before, other_bytes@));
                Err(CrdtError::Document)
            },
        }
    }

    /// The hashes of the latest changes.
    pub fn get_heads(&mut self) -> (r: Vec<automerge::ChangeHash>)
        ensures
            r@ == heads_of(old(self).doc),
            final(self).entries() == old(self).entries(),
    {
        document_heads(&mut self.doc)
    }

    /// The changes that a replica with the given heads lacks, as bytes;
    /// `None` where it lacks none.
    pub fn generate_sync_message(&mut self, their_heads: &Vec<automerge::ChangeHash>) -> (r: Option<
        Vec<u8>,
    >)
        ensures
            final(self).entries() == old(self).entries(),
            r is Some <==> changes_beyond(old(self).doc, their_heads@) > 0,
            r is Some ==> delta_from(old(self).doc, their_heads@, r->0@),
    {
        if changes_after(&mut self.doc, their_heads) == 0 {
            None
        } else {
            let ghost settled = self.doc;
            let bytes = save_changes_after(&mut self.doc, their_heads);
            assert(bytes@ == saved_beyond(settled, their_heads@));
            assert(delta_from(old(self).doc, their_heads@, bytes@));
            Some(bytes)
        }
    }

    /// Takes in changes of another replica, given as bytes: the memories
    /// are then those of the document with the changes; bytes that hold no
    /// changes for it are refused.
    pub fn apply_sync_changes(&mut self, changes: &[u8]) -> (r: Result<(), CrdtError>)
        ensures
            match r {
                Ok(_) => entries_with(old(self).doc, changes@) == Some(final(self).entries()),
                Err(e) => e == CrdtError::Document && entries_with(old(self).doc, changes@)
                    is None,
            },
    {
        match load_changes(&mut self.doc, changes) {
            Ok(_) => Ok(()),
            Err(_) => Err(CrdtError::Document),
        }
    }
}

/// Puts memories newest first; memories of the same instant keep their
/// order.
pub fn sort_newest_first(ms: &Vec<CrdtMemory>) -> (r: Vec<CrdtMemory>)
    ensures
        memory_views(r@) == newest_first(memory_views(ms@)),
{
    let ghost all = memory_views(ms@);
    let mut out: Vec<CrdtMemory> = Vec::new();
    let mut i: usize = 0;
    assert(memory_views(out@) =~= newest_first(all.take(0)));
    while i < ms.len()
        invariant
            i <= ms.len(),
            all == memory_views(ms@),
            memory_views(out@) == newest_first(all.take(i as int)),
        decreases ms.len() - i,
    {
        let m = copy_memory(&ms[i]);
        let ghost sorted = memory_views(out@);
        let mut p: usize = 0;
        while p < out.len() && !(m.seconds > out[p].seconds || (m.seconds == out[p].seconds
            && m.nanos > out[p].nanos))
            invariant
                p <= out.len(),
                sorted == memory_views(out@),
                place_from(sorted, m@, 0) == place_from(sorted, m@, p as int),
            decreases out.len() - p,
        {
            assert(sorted[p as int] == out@[p as int]@);
            p += 1;
        }
        proof {
            if p < out.len() {
                assert(sorted[p as int] == out@[p as int]@);
            }
            assert(all.take(i + 1).drop_last() =~= all.take(i as int));
            assert(all.take(i + 1).last() == m@);
        }
        let ghost before = out@;
        out.insert(p, m);
        assert(memory_views(out@) =~= memory_views(before).insert(p as int, m@));
        i += 1;
    }
    assert(all.take(ms@.len() as int) =~= all);
    out
}

} // verus!
