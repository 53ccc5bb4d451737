use deltaruntime::digest::hash_bytes;
use deltaruntime::index::BlobIndex;
use deltaruntime::normalizer::{
    classify_event, handle_file_deletion, normalize_file, process_file_changes,
    rel_of_workspace_path, DebounceBuffer, FileChangeEvent, FileChangeKind, RawEventKind,
};
use deltaruntime::store::BlobCache;
use deltaruntime::volume::Volume;

#[test]
fn test_file_change_event() {
    let event = FileChangeEvent {
        path: "test.txt".to_string(),
        kind: FileChangeKind::Created,
        timestamp: 0,
    };

    assert_eq!(event.kind, FileChangeKind::Created);
    assert_eq!(event.path, "test.txt".to_string());
}

#[test]
fn test_classify_event() {
    let ws = r"C:\data\profiles\P\workspace";
    // A file under the workspace is accepted with its kind translated.
    assert_eq!(
        classify_event(r"C:\data\profiles\P\workspace\mods\a.txt", false, ws, RawEventKind::Create),
        Some(FileChangeKind::Created)
    );
    assert_eq!(
        classify_event(r"C:\data\profiles\P\workspace\a.txt", false, ws, RawEventKind::Remove),
        Some(FileChangeKind::Deleted)
    );
    // Unknown kinds count as modifications.
    assert_eq!(
        classify_event(r"C:\data\profiles\P\workspace\a.txt", false, ws, RawEventKind::Other),
        Some(FileChangeKind::Modified)
    );
    // Paths outside the workspace, directories and hidden names are dropped.
    assert_eq!(classify_event(r"C:\elsewhere\a.txt", false, ws, RawEventKind::Create), None);
    assert_eq!(
        classify_event(r"C:\data\profiles\P\workspace\mods", true, ws, RawEventKind::Create),
        None
    );
    assert_eq!(
        classify_event(r"C:\data\profiles\P\workspace\.hidden", false, ws, RawEventKind::Create),
        None
    );
}

#[test]
fn test_debounce_coalescing() {
    let mut buffer = DebounceBuffer::new();
    for t in 0..10u64 {
        buffer.record(FileChangeEvent {
            path: "ws/file.txt".to_string(),
            kind: if t == 9 { FileChangeKind::Modified } else { FileChangeKind::Created },
            timestamp: t * 15,
        });
    }
    // Ten bursts on one path coalesce to one pending event, the last.
    assert_eq!(buffer.pending.len(), 1);
    assert_eq!(buffer.pending[0].kind, FileChangeKind::Modified);
    assert_eq!(buffer.pending[0].timestamp, 135);

    // The flush fires only after the quiet window.
    assert!(!buffer.ready(300, 135));
    assert!(buffer.ready(335, 135));

    let drained = buffer.take_all();
    assert_eq!(drained.len(), 1);
    assert_eq!(buffer.pending.len(), 0);
}

#[test]
fn test_rel_of_workspace_path() {
    assert_eq!(
        rel_of_workspace_path(r"C:\ws\mods\a.txt", r"C:\ws"),
        Some(r"mods\a.txt".to_string())
    );
    assert_eq!(rel_of_workspace_path(r"C:\ws", r"C:\ws"), None);
    assert_eq!(rel_of_workspace_path(r"C:\elsewhere\a.txt", r"C:\ws"), None);
}

#[test]
fn test_normalize_file_rewrites_as_hardlink() {
    let mut vol = Volume::new();
    let mut index = BlobIndex::new();
    let cache = BlobCache::new("cache".to_string());

    vol.write("ws", "mods/a.txt", b"Test mod content".to_vec());
    normalize_file(&mut vol, &mut index, &cache, "P", "ws", "mods/a.txt").unwrap();

    // The file still exists with its content, now linked to its blob.
    let content = vol.read("ws", "mods/a.txt").unwrap();
    assert_eq!(content, b"Test mod content".to_vec());
    let digest = hash_bytes(&b"Test mod content".to_vec());
    let brel = cache.blob_rel_path(&digest);
    assert!(vol.exists_file("cache", &brel));
    assert!(vol.same_file("ws", "mods/a.txt", "cache", &brel));

    // The index records the reference.
    let refs = index.get_refs(&digest);
    assert_eq!(refs.len(), 1);
    assert_eq!(refs[0].profile, "P");
    assert_eq!(refs[0].rel_path, "mods/a.txt");
}

#[test]
fn test_normalize_file_is_idempotent() {
    let mut vol = Volume::new();
    let mut index = BlobIndex::new();
    let cache = BlobCache::new("cache".to_string());

    vol.write("ws", "a.txt", b"stable content".to_vec());
    normalize_file(&mut vol, &mut index, &cache, "P", "ws", "a.txt").unwrap();

    let node_before = vol.node_of("ws", "a.txt").unwrap();
    let next_before = vol.next_node;
    normalize_file(&mut vol, &mut index, &cache, "P", "ws", "a.txt").unwrap();

    // Re-processing an already-normalized file changed nothing.
    assert_eq!(vol.node_of("ws", "a.txt").unwrap(), node_before);
    assert_eq!(vol.next_node, next_before);
    let digest = hash_bytes(&b"stable content".to_vec());
    assert_eq!(index.get_refs(&digest).len(), 1);
}

#[test]
fn test_normalize_replaces_old_content() {
    let mut vol = Volume::new();
    let mut index = BlobIndex::new();
    let cache = BlobCache::new("cache".to_string());

    vol.write("ws", "a.txt", b"first version".to_vec());
    normalize_file(&mut vol, &mut index, &cache, "P", "ws", "a.txt").unwrap();
    let d1 = hash_bytes(&b"first version".to_vec());
    assert!(vol.exists_file("cache", &cache.blob_rel_path(&d1)));

    // The file changes; the sole reference moves and the old blob is
    // collected.
    vol.write("ws", "a.txt", b"second version".to_vec());
    normalize_file(&mut vol, &mut index, &cache, "P", "ws", "a.txt").unwrap();
    let d2 = hash_bytes(&b"second version".to_vec());
    assert!(!vol.exists_file("cache", &cache.blob_rel_path(&d1)));
    assert!(vol.exists_file("cache", &cache.blob_rel_path(&d2)));
    assert_eq!(index.get_refs(&d1).len(), 0);
    assert_eq!(index.get_refs(&d2).len(), 1);
}

#[test]
fn test_dedup_across_profiles() {
    let mut vol = Volume::new();
    let mut index = BlobIndex::new();
    let cache = BlobCache::new("cache".to_string());

    // Two profiles write identical content.
    vol.write("ws-a", "x", b"hello".to_vec());
    vol.write("ws-b", "y", b"hello".to_vec());
    normalize_file(&mut vol, &mut index, &cache, "A", "ws-a", "x").unwrap();
    normalize_file(&mut vol, &mut index, &cache, "B", "ws-b", "y").unwrap();

    // One blob on disk, two references.
    let digest = hash_bytes(&b"hello".to_vec());
    let brel = cache.blob_rel_path(&digest);
    assert!(vol.exists_file("cache", &brel));
    assert_eq!(index.get_refs(&digest).len(), 2);
    assert!(vol.same_file("ws-a", "x", "ws-b", "y"));

    // Deleting one workspace file keeps the blob alive.
    vol.remove_file("ws-a", "x");
    handle_file_deletion(&mut vol, &mut index, &cache, "A", "x");
    assert_eq!(index.get_refs(&digest).len(), 1);
    assert!(vol.exists_file("cache", &brel));

    // Deleting the last reference collects the blob.
    vol.remove_file("ws-b", "y");
    handle_file_deletion(&mut vol, &mut index, &cache, "B", "y");
    assert_eq!(index.get_refs(&digest).len(), 0);
    assert!(!vol.exists_file("cache", &brel));
}

#[test]
fn test_normalize_file_leaves_everything_else_alone() {
    let mut vol = Volume::new();
    let mut index = BlobIndex::new();
    let cache = BlobCache::new("cache".to_string());

    // Another profile's file and reference are already in place.
    vol.write("ws-a", "x", b"hello".to_vec());
    normalize_file(&mut vol, &mut index, &cache, "A", "ws-a", "x").unwrap();
    let node_a = vol.node_of("ws-a", "x").unwrap();
    vol.write("base", "untouched.bin", b"base data".to_vec());

    // Normalizing a second profile's file touches nothing of theirs.
    vol.write("ws-b", "y", b"hello".to_vec());
    normalize_file(&mut vol, &mut index, &cache, "B", "ws-b", "y").unwrap();

    let digest = hash_bytes(&b"hello".to_vec());
    assert_eq!(vol.node_of("ws-a", "x").unwrap(), node_a);
    assert_eq!(vol.read("base", "untouched.bin").unwrap(), b"base data".to_vec());
    assert_eq!(index.get_refs(&digest).len(), 2);
}

#[test]
fn test_process_file_changes_counts_normalizations() {
    let mut vol = Volume::new();
    let mut index = BlobIndex::new();
    let cache = BlobCache::new("cache".to_string());

    vol.write("ws", "a.txt", b"one".to_vec());
    vol.write("ws", "b.txt", b"two".to_vec());
    let changes = vec![
        FileChangeEvent {
            path: r"C:\ws/a.txt".to_string(),
            kind: FileChangeKind::Created,
            timestamp: 0,
        },
        FileChangeEvent {
            path: r"C:\ws/b.txt".to_string(),
            kind: FileChangeKind::Modified,
            timestamp: 1,
        },
        FileChangeEvent {
            path: r"C:\ws/c.txt".to_string(),
            kind: FileChangeKind::Deleted,
            timestamp: 2,
        },
        FileChangeEvent {
            path: r"D:\elsewhere\d.txt".to_string(),
            kind: FileChangeKind::Created,
            timestamp: 3,
        },
    ];
    let count = process_file_changes(
        &mut vol,
        &mut index,
        &cache,
        &changes,
        "P",
        r"C:\ws",
        "ws",
    );
    // Two files normalized; the deletion and the foreign path count for
    // nothing, so the flush reports two.
    assert_eq!(count, 2);
    let d1 = hash_bytes(&b"one".to_vec());
    let d2 = hash_bytes(&b"two".to_vec());
    assert_eq!(index.get_refs(&d1).len(), 1);
    assert_eq!(index.get_refs(&d2).len(), 1);
}
