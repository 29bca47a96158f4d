use embeddings::builder::{is_checkpoint, BuildAction};
use embeddings::checksum::note_to_checksum;
use embeddings::graph::PathSet;
use embeddings::note::Note;
use embeddings::store::EmbeddingStore;

fn store_with(entries: &[(&str, u32, Vec<u8>)]) -> EmbeddingStore<Vec<u8>> {
    let mut store = EmbeddingStore::new();
    for (path, checksum, v) in entries {
        store.insert(path.to_string(), *checksum, vec![v.clone()]);
    }
    store
}

fn checksum(text: &str) -> u32 {
    note_to_checksum(&Note { title: "t".to_string(), path: "t.md".to_string(), text_content: text.to_string() })
}

#[test]
fn checksum_is_crc32_of_utf8() {
    assert_eq!(checksum("123456789"), 0xCBF4_3926);
    assert_eq!(checksum(""), 0);
}

#[test]
fn checksum_is_deterministic_and_sees_single_byte_changes() {
    let text = "# Note\n\nSome text.";
    assert_eq!(checksum(text), checksum(text));
    assert_ne!(checksum(text), checksum("# Note\n\nSome text!"));
    assert_ne!(checksum("a\nb"), checksum("a\r\nb"));
    assert_ne!(checksum("a b"), checksum("a  b"));
}

#[test]
fn classify_create_update_skip() {
    let store = store_with(&[("a.md", 1, vec![1])]);
    assert_eq!(store.classify("b.md", 1), BuildAction::Create);
    assert_eq!(store.classify("a.md", 2), BuildAction::Update);
    assert_eq!(store.classify("a.md", 1), BuildAction::Skip);
}

#[test]
fn insert_replaces_record_of_same_path() {
    let mut store = store_with(&[("a.md", 1, vec![1]), ("b.md", 5, vec![5])]);
    store.insert("a.md".to_string(), 2, vec![vec![2], vec![3]]);
    assert_eq!(store.len(), 2);
    assert_eq!(store.checksum_of("a.md"), Some(2));
    let a = store.records().iter().find(|r| r.note_path == "a.md").unwrap();
    assert_eq!(a.vectors, vec![vec![2], vec![3]]);
    assert_eq!(store.checksum_of("b.md"), Some(5));
}

#[test]
fn apply_outcome_follows_the_action() {
    let mut store = store_with(&[("a.md", 1, vec![1])]);
    // Skip: nothing changes even with an outcome.
    store.apply_outcome("a.md".to_string(), 1, Some(vec![vec![9]]));
    assert_eq!(store.records()[0].vectors, vec![vec![1]]);
    // Provider failure: nothing changes.
    store.apply_outcome("a.md".to_string(), 2, None);
    assert_eq!(store.checksum_of("a.md"), Some(1));
    // Update.
    store.apply_outcome("a.md".to_string(), 2, Some(vec![vec![2]]));
    assert_eq!(store.checksum_of("a.md"), Some(2));
    // Create.
    store.apply_outcome("b.md".to_string(), 7, Some(vec![vec![7]]));
    assert_eq!(store.checksum_of("b.md"), Some(7));
    assert_eq!(store.len(), 2);
}

#[test]
fn second_build_without_changes_does_nothing() {
    let docs = [("a.md", 1u32), ("b.md", 2), ("c.md", 3)];
    let mut store: EmbeddingStore<Vec<u8>> = EmbeddingStore::new();
    let mut calls = 0;
    for (path, checksum) in docs.iter() {
        if store.classify(path, *checksum) != BuildAction::Skip {
            calls += 1;
            store.apply_outcome(path.to_string(), *checksum, Some(vec![vec![*checksum as u8]]));
        }
    }
    assert_eq!(calls, 3);
    let mut second_calls = 0;
    for (path, checksum) in docs.iter() {
        if store.classify(path, *checksum) != BuildAction::Skip {
            second_calls += 1;
        }
    }
    assert_eq!(second_calls, 0);
    assert_eq!(store.len(), 3);
}

#[test]
fn one_changed_note_is_the_only_update() {
    let mut store = store_with(&[("a.md", 1, vec![1]), ("b.md", 2, vec![2]), ("c.md", 3, vec![3])]);
    let docs = [("a.md", 1u32), ("b.md", 20), ("c.md", 3)];
    let actions: Vec<BuildAction> = docs.iter().map(|(p, c)| store.classify(p, *c)).collect();
    assert_eq!(actions, vec![BuildAction::Skip, BuildAction::Update, BuildAction::Skip]);
    store.apply_outcome("b.md".to_string(), 20, Some(vec![vec![20]]));
    assert_eq!(store.checksum_of("a.md"), Some(1));
    assert_eq!(store.checksum_of("b.md"), Some(20));
    assert_eq!(store.checksum_of("c.md"), Some(3));
}

#[test]
fn prune_drops_only_missing_notes() {
    let mut store = store_with(&[("a.md", 1, vec![1]), ("b.md", 2, vec![2]), ("c.md", 3, vec![3])]);
    let mut keep = PathSet::new();
    keep.insert("a.md".to_string());
    keep.insert("c.md".to_string());
    keep.insert("new.md".to_string());
    let removed = store.prune(&keep);
    assert_eq!(removed, 1);
    assert_eq!(store.len(), 2);
    assert_eq!(store.checksum_of("b.md"), None);
    assert_eq!(store.checksum_of("a.md"), Some(1));
    assert_eq!(store.checksum_of("c.md"), Some(3));
    assert_eq!(store.prune(&keep), 0);
}

#[test]
fn checkpoint_every_ten_notes() {
    assert!(!is_checkpoint(0));
    assert!(!is_checkpoint(8));
    assert!(is_checkpoint(9));
    assert!(!is_checkpoint(10));
    assert!(is_checkpoint(19));
}

#[test]
fn loading_groups_vectors_of_one_note() {
    let mut store: EmbeddingStore<u8> = EmbeddingStore::new();
    store.load_entry("a.md".to_string(), 1, 10);
    store.load_entry("a.md".to_string(), 1, 11);
    store.load_entry("b.md".to_string(), 2, 20);
    assert_eq!(store.len(), 2);
    assert_eq!(store.records()[0].vectors, vec![10, 11]);
    // A later entry with another checksum starts the record afresh.
    store.load_entry("a.md".to_string(), 3, 30);
    assert_eq!(store.checksum_of("a.md"), Some(3));
    assert_eq!(store.records()[0].vectors, vec![30]);
}
