use automerge::transaction::Transactable;
use automerge::{AutoCommit, ObjType, ROOT};
use sovereign::storage::crdt_memory::{
    sort_newest_first, CrdtError, CrdtMemory, CrdtMemoryStore, CrdtMemoryType,
};

fn summary(store: &CrdtMemoryStore) -> Vec<(String, String, CrdtMemoryType, Vec<String>, String)> {
    let mut all: Vec<_> = store
        .get_all()
        .unwrap()
        .into_iter()
        .map(|m| (m.id, m.content, m.memory_type, m.tags, m.importance))
        .collect();
    all.sort_by(|a, b| a.0.cmp(&b.0));
    all
}

fn memory(id: &str, seconds: i64, nanos: u32) -> CrdtMemory {
    CrdtMemory {
        id: id.to_string(),
        content: String::new(),
        memory_type: CrdtMemoryType::Fact,
        timestamp: String::new(),
        seconds,
        nanos,
        project: None,
        tags: Vec::new(),
        importance: "0.5".to_string(),
    }
}

#[test]
fn test_crdt_memory_basic() {
    let mut store = CrdtMemoryStore::new().unwrap();

    // Add memory
    let id = store.add("Test memory", CrdtMemoryType::Fact).unwrap();
    assert!(!id.is_empty());

    // Get recent
    let memories = store.get_recent(10).unwrap();
    assert_eq!(memories.len(), 1);
    assert_eq!(memories[0].content, "Test memory");
}

#[test]
fn test_crdt_merge() {
    // Create store and add initial memory
    let mut store1 = CrdtMemoryStore::new().unwrap();
    store1.add("Initial shared memory", CrdtMemoryType::Fact).unwrap();

    // Export and create second store from same state (simulating device sync)
    let initial_bytes = store1.export();
    let mut store2 = CrdtMemoryStore::load(&initial_bytes).unwrap();

    // Now add different memories to each (concurrent edits)
    store1.add("Memory from device 1", CrdtMemoryType::Fact).unwrap();
    store2.add("Memory from device 2", CrdtMemoryType::Preference).unwrap();

    // Merge
    let bytes1 = store1.export();
    let bytes2 = store2.export();

    store1.merge(&bytes2).unwrap();
    store2.merge(&bytes1).unwrap();

    // Both should have all 3 memories
    let memories1 = store1.get_all().unwrap();
    let memories2 = store2.get_all().unwrap();

    assert_eq!(memories1.len(), 3);
    assert_eq!(memories2.len(), 3);
}

#[test]
fn a_new_memory_reads_back() {
    let mut store = CrdtMemoryStore::new().unwrap();
    assert_eq!(store.count(), Ok(0));
    assert!(store.get_all().unwrap().is_empty());
    let id = store.add("always use tabs", CrdtMemoryType::Preference).unwrap();
    assert_eq!(id.len(), 36);
    let other = store.add_with_project("uses tokio", CrdtMemoryType::CodePattern, "daemon").unwrap();
    assert_ne!(id, other);
    assert_eq!(store.count(), Ok(2));
    let all = store.get_all().unwrap();
    assert_eq!(all[0].id, id);
    assert_eq!(all[0].content, "always use tabs");
    assert_eq!(all[0].memory_type, CrdtMemoryType::Preference);
    assert_eq!(all[0].project, None);
    assert!(all[0].tags.is_empty());
    assert_eq!(all[0].importance, "0.5");
    assert!(all[0].timestamp.contains('T'));
    assert!(all[0].seconds > 1_600_000_000);
    assert_eq!(all[1].id, other);
    assert_eq!(all[1].project, Some("daemon".to_string()));
    assert_eq!(all[1].memory_type, CrdtMemoryType::CodePattern);
}

#[test]
fn memories_by_kind_project_and_age() {
    let mut store = CrdtMemoryStore::new().unwrap();
    let a = store.add_with_project("a", CrdtMemoryType::Fact, "x").unwrap();
    let b = store.add("b", CrdtMemoryType::Decision).unwrap();
    let c = store.add_with_project("c", CrdtMemoryType::Fact, "y").unwrap();
    let d = store.add_with_project("d", CrdtMemoryType::Fact, "x").unwrap();
    let ids = |v: Vec<CrdtMemory>| -> Vec<String> { v.into_iter().map(|m| m.id).collect() };
    assert_eq!(ids(store.get_by_type(CrdtMemoryType::Fact, 10).unwrap()), vec![a.clone(), c.clone(), d.clone()]);
    assert_eq!(ids(store.get_by_type(CrdtMemoryType::Fact, 2).unwrap()), vec![a.clone(), c.clone()]);
    assert!(store.get_by_type(CrdtMemoryType::Fact, 0).unwrap().is_empty());
    assert!(store.get_by_type(CrdtMemoryType::Conversation, 5).unwrap().is_empty());
    assert_eq!(ids(store.get_by_project("x", 10).unwrap()), vec![a.clone(), d.clone()]);
    assert_eq!(ids(store.get_by_project("x", 1).unwrap()), vec![a.clone()]);
    assert!(store.get_by_project("z", 10).unwrap().is_empty());
    let recent = store.get_recent(3).unwrap();
    assert_eq!(recent.len(), 3);
    for pair in recent.windows(2) {
        assert!((pair[0].seconds, pair[0].nanos) >= (pair[1].seconds, pair[1].nanos));
    }
    assert_eq!(store.get_recent(10).unwrap().len(), 4);
    assert!(ids(store.get_recent(10).unwrap()).contains(&b));
    assert_eq!(store.find(&c), Ok(Some(2)));
    assert_eq!(store.find("nobody"), Ok(None));
}

#[test]
fn newest_first_keeps_the_order_of_equals() {
    let input = vec![
        memory("a", 10, 0),
        memory("b", 30, 5),
        memory("c", 10, 0),
        memory("d", 30, 6),
        memory("e", -4, 0),
        memory("f", 30, 5),
    ];
    let sorted: Vec<String> = sort_newest_first(&input).into_iter().map(|m| m.id).collect();
    assert_eq!(sorted, vec!["d", "b", "f", "a", "c", "e"]);
    assert!(sort_newest_first(&Vec::new()).is_empty());
}

#[test]
fn tags_importance_and_deletion() {
    let mut store = CrdtMemoryStore::new().unwrap();
    let keep = store.add("keep", CrdtMemoryType::Fact).unwrap();
    let gone = store.add("gone", CrdtMemoryType::Fact).unwrap();
    assert_eq!(store.add_tag(&keep, "rust"), Ok(()));
    assert_eq!(store.add_tag(&keep, "style"), Ok(()));
    assert_eq!(store.add_tag(&keep, "rust"), Ok(()));
    assert_eq!(store.update_importance(&keep, "0.9"), Ok(()));
    assert_eq!(store.update_importance(&keep, "high"), Err(CrdtError::InvalidNumber));
    assert_eq!(store.update_importance("nobody", "0.1"), Err(CrdtError::NotFound));
    assert_eq!(store.add_tag("nobody", "x"), Err(CrdtError::NotFound));
    assert_eq!(store.delete("nobody"), Err(CrdtError::NotFound));
    assert_eq!(store.delete(&gone), Ok(()));
    assert_eq!(store.delete(&gone), Err(CrdtError::NotFound));
    let all = store.get_all().unwrap();
    assert_eq!(all.len(), 1);
    assert_eq!(all[0].id, keep);
    assert_eq!(all[0].tags, vec!["rust", "style", "rust"]);
    assert_eq!(all[0].importance, "0.9");
    assert_eq!(all[0].content, "keep");
}

#[test]
fn a_document_without_the_list_has_no_memories() {
    let mut bare = automerge::AutoCommit::new();
    let bytes = bare.save();
    let mut store = CrdtMemoryStore::load(&bytes).unwrap();
    assert_eq!(store.count(), Err(CrdtError::NoList));
    assert_eq!(store.get_all().err(), Some(CrdtError::NoList));
    assert_eq!(store.get_recent(3).err(), Some(CrdtError::NoList));
    assert_eq!(store.add("x", CrdtMemoryType::Fact), Err(CrdtError::NoList));
    assert_eq!(store.delete("x"), Err(CrdtError::NoList));
    assert!(CrdtMemoryStore::load(b"not a document").is_err());
    assert_eq!(store.merge(b"not a document"), Err(CrdtError::Document));
    assert_eq!(store.apply_sync_changes(b"not changes"), Err(CrdtError::Document));
}

#[test]
fn saved_bytes_hold_the_memories() {
    let mut store = CrdtMemoryStore::new().unwrap();
    let id = store.add("persisted", CrdtMemoryType::Decision).unwrap();
    store.add_tag(&id, "t").unwrap();
    let bytes = store.save();
    let loaded = CrdtMemoryStore::load(&bytes).unwrap();
    assert_eq!(summary(&loaded), summary(&store));
    assert_eq!(loaded.get_all().unwrap()[0].tags, vec!["t"]);
}

#[test]
fn replicas_converge_after_merging_both_ways() {
    let mut first = CrdtMemoryStore::new().unwrap();
    let tabs = first.add("always use tabs", CrdtMemoryType::Preference).unwrap();
    let mut second = CrdtMemoryStore::load(&first.export()).unwrap();
    second.delete(&tabs).unwrap();
    second.add("prefers spaces", CrdtMemoryType::Fact).unwrap();
    let from_first = first.export();
    let from_second = second.export();
    first.merge(&from_second).unwrap();
    second.merge(&from_first).unwrap();
    let one = summary(&first);
    assert_eq!(one.len(), 1);
    assert_eq!(one[0].1, "prefers spaces");
    assert_eq!(one[0].2, CrdtMemoryType::Fact);
    assert_eq!(summary(&second), one);
}

#[test]
fn merging_is_idempotent_and_associative() {
    let mut base = CrdtMemoryStore::new().unwrap();
    let shared = base.add("shared", CrdtMemoryType::Fact).unwrap();
    let start = base.export();
    let mut a = CrdtMemoryStore::load(&start).unwrap();
    let mut b = CrdtMemoryStore::load(&start).unwrap();
    let mut c = CrdtMemoryStore::load(&start).unwrap();
    a.add("from a", CrdtMemoryType::Decision).unwrap();
    a.add_tag(&shared, "a").unwrap();
    b.add("from b", CrdtMemoryType::Preference).unwrap();
    b.add_tag(&shared, "b").unwrap();
    c.delete(&shared).unwrap();
    c.add("from c", CrdtMemoryType::Fact).unwrap();
    let (bytes_a, bytes_b, bytes_c) = (a.export(), b.export(), c.export());

    let mut twice = CrdtMemoryStore::load(&bytes_a).unwrap();
    twice.merge(&bytes_a).unwrap();
    assert_eq!(summary(&twice), summary(&a));

    let mut left = CrdtMemoryStore::load(&bytes_a).unwrap();
    left.merge(&bytes_b).unwrap();
    left.merge(&bytes_c).unwrap();
    let mut bc = CrdtMemoryStore::load(&bytes_b).unwrap();
    bc.merge(&bytes_c).unwrap();
    let mut right = CrdtMemoryStore::load(&bytes_a).unwrap();
    right.merge(&bc.export()).unwrap();
    assert_eq!(summary(&left), summary(&right));
    assert_eq!(summary(&left).len(), 3);

    let mut ab = CrdtMemoryStore::load(&bytes_a).unwrap();
    ab.merge(&bytes_b).unwrap();
    let mut ba = CrdtMemoryStore::load(&bytes_b).unwrap();
    ba.merge(&bytes_a).unwrap();
    assert_eq!(summary(&ab), summary(&ba));
    let tags = &summary(&ab).iter().find(|m| m.1 == "shared").unwrap().3.clone();
    assert!(tags.contains(&"a".to_string()) && tags.contains(&"b".to_string()));
}

#[test]
fn changes_for_a_replica_that_lags() {
    let mut ahead = CrdtMemoryStore::new().unwrap();
    ahead.add("first", CrdtMemoryType::Fact).unwrap();
    let mut behind = CrdtMemoryStore::load(&ahead.export()).unwrap();
    let their_heads = behind.get_heads();
    assert_eq!(their_heads, ahead.get_heads());
    assert!(ahead.generate_sync_message(&their_heads).is_none());
    ahead.add("second", CrdtMemoryType::Fact).unwrap();
    let delta = ahead.generate_sync_message(&their_heads).unwrap();
    assert!(!delta.is_empty());
    behind.apply_sync_changes(&delta).unwrap();
    assert_eq!(summary(&behind), summary(&ahead));
    assert_eq!(behind.count(), Ok(2));
    assert_eq!(behind.get_heads(), ahead.get_heads());
}

#[test]
fn a_new_memory_has_importance_one_half_and_no_tags() {
    let mut store = CrdtMemoryStore::new().unwrap();
    assert_eq!(store.count(), Ok(0));
    let plain = store.add("x", CrdtMemoryType::Fact).unwrap();
    let tagged = store.add_with_project("y", CrdtMemoryType::Decision, "p").unwrap();
    let all = store.get_all().unwrap();
    assert_eq!(all.len(), 2);
    assert_eq!(all[0].id, plain);
    assert_eq!(all[0].importance, "0.5");
    assert_eq!(all[0].project, None);
    assert!(all[0].tags.is_empty());
    assert_eq!(all[1].id, tagged);
    assert_eq!(all[1].importance, "0.5");
    assert_eq!(all[1].project, Some("p".to_string()));
    assert_eq!(all[1].memory_type, CrdtMemoryType::Decision);
    assert!(all[1].tags.is_empty());
    assert_eq!(store.find(&tagged), Ok(Some(1)));
    assert_eq!(store.find("nobody"), Ok(None));
}

#[test]
fn importance_is_written_as_the_number_reads() {
    let mut store = CrdtMemoryStore::new().unwrap();
    let id = store.add("x", CrdtMemoryType::Fact).unwrap();
    assert_eq!(store.update_importance(&id, "0.50"), Ok(()));
    assert_eq!(store.get_all().unwrap()[0].importance, "0.5");
    assert_eq!(store.update_importance(&id, "1e-1"), Ok(()));
    assert_eq!(store.get_all().unwrap()[0].importance, "0.1");
    assert_eq!(store.update_importance(&id, ""), Err(CrdtError::InvalidNumber));
    assert_eq!(store.update_importance(&id, "0,5"), Err(CrdtError::InvalidNumber));
    assert_eq!(store.get_all().unwrap()[0].importance, "0.1");
    assert_eq!(store.update_importance("nobody", "high"), Err(CrdtError::NotFound));
}

#[test]
fn something_else_than_a_list_is_no_list() {
    let mut text = AutoCommit::new();
    text.put(ROOT, "memories", "text").unwrap();
    let mut map = AutoCommit::new();
    map.put_object(ROOT, "memories", ObjType::Map).unwrap();
    for doc in [text, map] {
        let mut store = CrdtMemoryStore { doc };
        assert_eq!(store.count(), Err(CrdtError::NoList));
        assert_eq!(store.find("a"), Err(CrdtError::NoList));
        assert_eq!(store.get_all().err(), Some(CrdtError::NoList));
        assert_eq!(store.get_by_type(CrdtMemoryType::Fact, 3).err(), Some(CrdtError::NoList));
        assert_eq!(store.get_by_project("p", 3).err(), Some(CrdtError::NoList));
        assert_eq!(store.add("x", CrdtMemoryType::Fact), Err(CrdtError::NoList));
        assert_eq!(store.add_with_project("x", CrdtMemoryType::Fact, "p"), Err(CrdtError::NoList));
        assert_eq!(store.update_importance("a", "0.5"), Err(CrdtError::NoList));
        assert_eq!(store.add_tag("a", "t"), Err(CrdtError::NoList));
        assert_eq!(store.delete("a"), Err(CrdtError::NoList));
    }
}

#[test]
fn entries_of_another_shape_read_as_empty_memories() {
    let mut doc = AutoCommit::new();
    let list = doc.put_object(ROOT, "memories", ObjType::List).unwrap();
    doc.insert(&list, 0, "a string").unwrap();
    doc.insert_object(&list, 1, ObjType::List).unwrap();
    let odd = doc.insert_object(&list, 2, ObjType::Map).unwrap();
    doc.put(&odd, "id", "odd").unwrap();
    doc.put(&odd, "tags", "none").unwrap();
    doc.put(&odd, "importance", "much").unwrap();
    let mixed = doc.insert_object(&list, 3, ObjType::Map).unwrap();
    doc.put(&mixed, "id", "mixed").unwrap();
    doc.put(&mixed, "content", 7_i64).unwrap();
    let tags = doc.put_object(&mixed, "tags", ObjType::List).unwrap();
    doc.insert(&tags, 0, 1_i64).unwrap();
    doc.insert(&tags, 1, "s").unwrap();
    doc.insert_object(&tags, 2, ObjType::Map).unwrap();
    let mut store = CrdtMemoryStore { doc };
    assert_eq!(store.count(), Ok(4));
    let all = store.get_all().unwrap();
    assert_eq!(all.len(), 4);
    for m in &all[..2] {
        assert_eq!(m.id, "");
        assert_eq!(m.content, "");
        assert_eq!(m.memory_type, CrdtMemoryType::Fact);
        assert_eq!(m.project, None);
        assert_eq!(m.importance, "0.5");
        assert!(m.tags.is_empty());
    }
    assert_eq!(all[2].id, "odd");
    assert_eq!(all[2].importance, "0.5");
    assert!(all[2].tags.is_empty());
    assert_eq!(all[3].id, "mixed");
    assert_eq!(all[3].content, "");
    assert_eq!(all[3].tags, vec!["s"]);
    assert_eq!(store.find(""), Ok(None));
    assert_eq!(store.find("mixed"), Ok(Some(3)));
    assert_eq!(store.add_tag("odd", "t"), Err(CrdtError::NotFound));
    assert_eq!(store.add_tag("mixed", "t"), Ok(()));
    assert_eq!(store.update_importance("odd", "0.25"), Ok(()));
    assert_eq!(store.delete(""), Err(CrdtError::NotFound));
    let all = store.get_all().unwrap();
    assert_eq!(all[2].importance, "0.25");
    assert_eq!(all[3].tags, vec!["s", "t"]);
    assert_eq!(store.delete("odd"), Ok(()));
    assert_eq!(store.count(), Ok(3));
    let id = store.add("new", CrdtMemoryType::Fact).unwrap();
    assert_eq!(store.find(&id), Ok(Some(3)));
}

#[test]
fn a_merge_of_bytes_without_a_document_changes_nothing() {
    let mut store = CrdtMemoryStore::new().unwrap();
    let id = store.add("x", CrdtMemoryType::Fact).unwrap();
    assert_eq!(store.merge(b"no document"), Err(CrdtError::Document));
    assert_eq!(store.merge(&[0x85, 0x6f, 0x4a, 0x83, 1, 2, 3]), Err(CrdtError::Document));
    assert_eq!(store.count(), Ok(1));
    assert_eq!(store.find(&id), Ok(Some(0)));
}

#[test]
fn ids_are_random_and_of_version_four() {
    let mut store = CrdtMemoryStore::new().unwrap();
    let mut seen = Vec::new();
    for n in 0..50 {
        let id = store.add(&format!("memory {}", n), CrdtMemoryType::Fact).unwrap();
        let chars: Vec<char> = id.chars().collect();
        assert_eq!(chars.len(), 36);
        for (i, c) in chars.iter().enumerate() {
            if i == 8 || i == 13 || i == 18 || i == 23 {
                assert_eq!(*c, '-');
            } else {
                assert!(matches!(*c, '0'..='9' | 'a'..='f'));
            }
        }
        assert_eq!(chars[14], '4');
        assert!(matches!(chars[19], '8' | '9' | 'a' | 'b'));
        assert!(!seen.contains(&id));
        seen.push(id);
    }
    assert_eq!(store.count(), Ok(50));
}
