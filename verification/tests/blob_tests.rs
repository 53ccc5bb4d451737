use deltaruntime::digest::hash_bytes;
use deltaruntime::index::{BlobIndex, BlobReference, IndexEntry};
use deltaruntime::store::BlobCache;
use deltaruntime::volume::Volume;

#[test]
fn test_blob_path_layout() {
    let cache = BlobCache::new("cachedir".to_string());

    let hash = blake3::hash(b"test content");
    let hash_str = hash.to_hex().to_string();
    let blob_path = cache.get_blob_path(&hash_str);

    let expected_path = format!("cachedir/blobs/blake3/{}/{}", &hash_str[0..2], hash_str);
    assert_eq!(blob_path, expected_path);
}

#[test]
fn test_hash_bytes_matches_blake3() {
    let content = b"Hello, World!";
    let digest = hash_bytes(&content.to_vec());
    let expected = blake3::hash(content).to_hex().to_string();
    assert_eq!(digest, expected);
}

#[test]
fn test_ensure_blob() {
    let mut vol = Volume::new();
    let cache = BlobCache::new("cache".to_string());
    let content = b"Test content for blob";
    vol.write("ws", "test.txt", content.to_vec());

    let digest = cache.ensure_blob(&mut vol, "ws", "test.txt").unwrap();
    let brel = cache.blob_rel_path(&digest);

    // The blob file exists and holds the content.
    let blob_content = vol.read("cache", &brel).unwrap();
    assert_eq!(blob_content, content.to_vec());

    // A second call returns the same digest and changes nothing.
    let node_before = vol.node_of("cache", &brel).unwrap();
    let digest2 = cache.ensure_blob(&mut vol, "ws", "test.txt").unwrap();
    assert_eq!(digest, digest2);
    assert_eq!(vol.node_of("cache", &brel).unwrap(), node_before);
}

#[test]
fn test_link_blob_to() {
    let mut vol = Volume::new();
    let cache = BlobCache::new("cache".to_string());
    let content = b"Content for linking test";
    vol.write("ws", "test.txt", content.to_vec());

    let digest = cache.ensure_blob(&mut vol, "ws", "test.txt").unwrap();
    cache.link_blob_to(&mut vol, "ws", "dest.txt", &digest).unwrap();

    // The destination holds the content and shares the blob's identity.
    let dest_content = vol.read("ws", "dest.txt").unwrap();
    assert_eq!(dest_content, content.to_vec());
    let brel = cache.blob_rel_path(&digest);
    assert!(vol.same_file("ws", "dest.txt", "cache", &brel));
}

#[test]
fn test_link_blob_to_requires_fresh_destination() {
    let mut vol = Volume::new();
    let cache = BlobCache::new("cache".to_string());
    vol.write("ws", "a.txt", b"content".to_vec());
    let digest = cache.ensure_blob(&mut vol, "ws", "a.txt").unwrap();

    // The destination already exists: materialization is refused.
    assert!(cache.link_blob_to(&mut vol, "ws", "a.txt", &digest).is_err());
}

#[test]
fn test_reference_management() {
    let mut index = BlobIndex::new();
    let digest = hash_bytes(&b"Reference management test".to_vec());

    index.add_ref(&digest, "profile1", "data/test.txt");
    index.add_ref(&digest, "profile2", "mods/test.txt");

    let refs = index.get_refs(&digest);
    assert_eq!(refs.len(), 2);

    // A duplicate add is a no-op.
    index.add_ref(&digest, "profile1", "data/test.txt");
    let refs = index.get_refs(&digest);
    assert_eq!(refs.len(), 2);

    // Removing one reference keeps the blob alive.
    let should_gc = index.remove_ref(&digest, "profile1", "data/test.txt");
    assert!(!should_gc);

    let refs = index.get_refs(&digest);
    assert_eq!(refs.len(), 1);
    assert_eq!(refs[0].profile, "profile2");

    // Removing the last reference makes the blob collectable.
    let should_gc = index.remove_ref(&digest, "profile2", "mods/test.txt");
    assert!(should_gc);

    let refs = index.get_refs(&digest);
    assert_eq!(refs.len(), 0);
}

#[test]
fn test_add_then_remove_restores_index() {
    let mut index = BlobIndex::new();
    let d1 = hash_bytes(&b"one".to_vec());
    let d2 = hash_bytes(&b"two".to_vec());
    index.add_ref(&d1, "p", "a.txt");
    index.add_ref(&d2, "p", "b.txt");

    // A fresh reference added and removed leaves the index as it was.
    index.add_ref(&d1, "q", "c.txt");
    let gc = index.remove_ref(&d1, "q", "c.txt");
    assert!(!gc);
    assert_eq!(index.get_refs(&d1).len(), 1);
    assert_eq!(index.get_refs(&d2).len(), 1);
    assert_eq!(index.get_refs(&d1)[0].profile, "p");

    // For a fresh digest the removal also reports the blob collectable.
    let d3 = hash_bytes(&b"three".to_vec());
    index.add_ref(&d3, "q", "d.txt");
    let gc = index.remove_ref(&d3, "q", "d.txt");
    assert!(gc);
    assert_eq!(index.get_refs(&d3).len(), 0);
}

#[test]
fn test_remove_existing_ref_cross_profile() {
    let mut vol = Volume::new();
    let mut index = BlobIndex::new();
    let cache = BlobCache::new("cache".to_string());

    vol.write("ws1", "data/config.txt", b"content version 1".to_vec());
    vol.write("ws2", "data/config.txt", b"content version 2".to_vec());

    let blob1 = cache.ensure_blob(&mut vol, "ws1", "data/config.txt").unwrap();
    let blob2 = cache.ensure_blob(&mut vol, "ws2", "data/config.txt").unwrap();

    index.add_ref(&blob1, "profile1", "data/config.txt");
    index.add_ref(&blob2, "profile2", "data/config.txt");

    assert_eq!(index.get_refs(&blob1).len(), 1);
    assert_eq!(index.get_refs(&blob2).len(), 1);

    // Profile one moves to the second content.
    let old_hash = cache.remove_existing_ref(&mut vol, &mut index, "profile1", "data/config.txt");
    assert_eq!(old_hash, Some(blob1.clone()));
    index.add_ref(&blob2, "profile1", "data/config.txt");

    assert_eq!(index.get_refs(&blob1).len(), 0);
    assert_eq!(index.get_refs(&blob2).len(), 2);

    // The unreferenced blob file was deleted; the shared one remains.
    assert!(!vol.exists_file("cache", &cache.blob_rel_path(&blob1)));
    assert!(vol.exists_file("cache", &cache.blob_rel_path(&blob2)));
}

#[test]
fn test_cross_profile_blob_sharing() {
    let mut vol = Volume::new();
    let mut index = BlobIndex::new();
    let cache = BlobCache::new("cache".to_string());

    vol.write("ws", "shared.txt", b"shared content".to_vec());
    let blob = cache.ensure_blob(&mut vol, "ws", "shared.txt").unwrap();

    index.add_ref(&blob, "profile1", "data/shared.txt");
    index.add_ref(&blob, "profile2", "data/shared.txt");
    index.add_ref(&blob, "profile3", "data/shared.txt");
    assert_eq!(index.get_refs(&blob).len(), 3);

    let old_hash = cache.remove_existing_ref(&mut vol, &mut index, "profile1", "data/shared.txt");
    assert_eq!(old_hash, Some(blob.clone()));
    assert!(vol.exists_file("cache", &cache.blob_rel_path(&blob)));
    assert_eq!(index.get_refs(&blob).len(), 2);

    cache.remove_existing_ref(&mut vol, &mut index, "profile2", "data/shared.txt");
    assert!(vol.exists_file("cache", &cache.blob_rel_path(&blob)));

    cache.remove_existing_ref(&mut vol, &mut index, "profile3", "data/shared.txt");
    assert!(!vol.exists_file("cache", &cache.blob_rel_path(&blob)));
}

#[test]
fn test_milestone3_requirements() {
    let mut vol = Volume::new();
    let mut index = BlobIndex::new();
    let cache = BlobCache::new("cache".to_string());

    // Identical content across files yields one blob.
    let identical_content = b"This is identical content across files";
    vol.write("ws", "source1.txt", identical_content.to_vec());
    vol.write("ws", "source2.txt", identical_content.to_vec());

    let blob1 = cache.ensure_blob(&mut vol, "ws", "source1.txt").unwrap();
    let blob2 = cache.ensure_blob(&mut vol, "ws", "source2.txt").unwrap();
    assert_eq!(blob1, blob2);
    assert_eq!(cache.get_blob_path(&blob1), cache.get_blob_path(&blob2));

    // Different content yields different blobs.
    vol.write("ws", "handling_v1.cfg", b"version 1 of handling.cfg".to_vec());
    vol.write("ws", "handling_v2.cfg", b"version 2 of handling.cfg".to_vec());
    let blob_v1 = cache.ensure_blob(&mut vol, "ws", "handling_v1.cfg").unwrap();
    let blob_v2 = cache.ensure_blob(&mut vol, "ws", "handling_v2.cfg").unwrap();
    assert_ne!(blob_v1, blob_v2);
    assert_ne!(cache.get_blob_path(&blob_v1), cache.get_blob_path(&blob_v2));

    // Several profiles can reference one blob.
    index.add_ref(&blob1, "profile1", "data/shared.txt");
    index.add_ref(&blob1, "profile2", "mods/shared.txt");
    index.add_ref(&blob1, "profile3", "assets/shared.txt");
    assert_eq!(index.get_refs(&blob1).len(), 3);

    // Materialization is a hardlink of the blob.
    cache.link_blob_to(&mut vol, "ws", "workspace_copy.txt", &blob1).unwrap();
    let workspace_content = vol.read("ws", "workspace_copy.txt").unwrap();
    assert_eq!(workspace_content, identical_content.to_vec());

    // The blob stays alive while any reference remains.
    assert!(!index.remove_ref(&blob1, "profile1", "data/shared.txt"));
    assert!(!index.remove_ref(&blob1, "profile2", "mods/shared.txt"));
    assert!(index.remove_ref(&blob1, "profile3", "assets/shared.txt"));

    // One relative path can name different blobs in different profiles.
    index.add_ref(&blob_v1, "mod_profile_a", "data/handling.cfg");
    index.add_ref(&blob_v2, "mod_profile_b", "data/handling.cfg");
    let v1_refs = index.get_refs(&blob_v1);
    let v2_refs = index.get_refs(&blob_v2);
    assert_eq!(v1_refs.len(), 1);
    assert_eq!(v2_refs.len(), 1);
    assert_eq!(v1_refs[0].profile, "mod_profile_a");
    assert_eq!(v2_refs[0].profile, "mod_profile_b");
    assert_eq!(v1_refs[0].rel_path, "data/handling.cfg");
    assert_eq!(v2_refs[0].rel_path, "data/handling.cfg");
}

#[test]
fn test_check_wf_accepts_and_rejects() {
    // An index built through the library's own operations is well formed.
    let mut index = BlobIndex::new();
    let d1 = hash_bytes(&b"one".to_vec());
    let d2 = hash_bytes(&b"two".to_vec());
    index.add_ref(&d1, "p", "a.txt");
    index.add_ref(&d2, "p", "b.txt");
    index.add_ref(&d2, "q", "b.txt");
    assert!(index.check_wf());

    // A malformed digest is rejected.
    let bad_digest = BlobIndex {
        refs: vec![IndexEntry {
            digest: "nonsense".to_string(),
            refs: vec![BlobReference { profile: "p".to_string(), rel_path: "a".to_string() }],
        }],
    };
    assert!(!bad_digest.check_wf());

    // A pair recorded under two digests is rejected.
    let double_pair = BlobIndex {
        refs: vec![
            IndexEntry {
                digest: d1.clone(),
                refs: vec![BlobReference { profile: "p".to_string(), rel_path: "a".to_string() }],
            },
            IndexEntry {
                digest: d2.clone(),
                refs: vec![BlobReference { profile: "p".to_string(), rel_path: "a".to_string() }],
            },
        ],
    };
    assert!(!double_pair.check_wf());

    // An empty reference list is rejected.
    let empty_entry = BlobIndex {
        refs: vec![IndexEntry { digest: d1.clone(), refs: Vec::new() }],
    };
    assert!(!empty_entry.check_wf());
}

#[test]
fn test_get_blob_path_from_hash_rejects_bad_digests() {
    let cache = BlobCache::new("cache".to_string());
    assert!(cache.get_blob_path_from_hash("nonsense").is_err());
    assert!(cache.get_blob_path_from_hash("ABCDEF").is_err());
    let good = blake3::hash(b"x").to_hex().to_string();
    assert!(cache.get_blob_path_from_hash(&good).is_ok());
}
