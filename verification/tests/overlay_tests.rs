use deltaruntime::overlay::{overlay_files, FileMeta, VirtualNodeSource};
use deltaruntime::vfs::{copy_to_workspace, revert_to_original, VirtualFileSystem};
use deltaruntime::volume::Volume;

fn meta(rel_path: &str, size: u64) -> FileMeta {
    FileMeta { rel_path: rel_path.to_string(), size }
}

#[test]
fn test_overlay_merge_sources() {
    let base = vec![meta("data/handling.cfg", 10), meta("models/car.dff", 20)];
    let ws = vec![meta("data/handling.cfg", 12), meta("mods/new.txt", 5)];

    let merged = overlay_files(&base, &ws);
    assert_eq!(merged.len(), 3);

    let handling = merged.iter().find(|f| f.rel_path == "data/handling.cfg").unwrap();
    assert_eq!(handling.source, VirtualNodeSource::Override);
    assert_eq!(handling.size, 12);

    let car = merged.iter().find(|f| f.rel_path == "models/car.dff").unwrap();
    assert_eq!(car.source, VirtualNodeSource::Base);
    assert_eq!(car.size, 20);

    let new = merged.iter().find(|f| f.rel_path == "mods/new.txt").unwrap();
    assert_eq!(new.source, VirtualNodeSource::Workspace);
    assert_eq!(new.size, 5);
}

#[test]
fn test_workspace_path_never_base() {
    let base = vec![meta("a.txt", 1)];
    let ws = vec![meta("a.txt", 2), meta("b.txt", 3)];
    let merged = overlay_files(&base, &ws);
    for f in &merged {
        if f.rel_path == "a.txt" || f.rel_path == "b.txt" {
            assert_ne!(f.source, VirtualNodeSource::Base);
        }
    }
}

#[test]
fn test_reserved_names_hidden() {
    let base = vec![meta("a.txt", 1)];
    let ws = vec![meta(".deltaruntime_tombstones.json", 9), meta("b.txt", 2)];
    let merged = overlay_files(&base, &ws);
    assert_eq!(merged.len(), 2);
    assert!(merged.iter().all(|f| f.rel_path != ".deltaruntime_tombstones.json"));
}

#[test]
fn test_virtual_file_system_basic() {
    let base = vec![meta("base_file.txt", 12), meta("subdir/base_sub.txt", 16)];
    let ws = vec![meta("workspace_file.txt", 17), meta("base_file.txt", 18)];

    let mut vfs = VirtualFileSystem::new(base, ws);
    vfs.initialize().unwrap();

    let root = vfs.get_virtual_tree(None).unwrap();
    assert!(root.is_directory);
    assert!(root.children.is_some());

    let children = root.children.unwrap();
    assert_eq!(children.len(), 3);

    // The workspace file overrides the base file.
    let base_file = children.iter().find(|c| c.name == "base_file.txt").unwrap();
    assert_eq!(base_file.source, VirtualNodeSource::Override);
    assert!(base_file.writable);
    assert_eq!(base_file.size, Some(18));

    // Directories come first, then files in case-insensitive order.
    assert!(children[0].is_directory);
    assert_eq!(children[0].name, "subdir");
    assert_eq!(children[1].name, "base_file.txt");
    assert_eq!(children[2].name, "workspace_file.txt");
}

#[test]
fn test_virtual_tree_subdirectory_and_file_nodes() {
    let base = vec![meta("subdir/base_sub.txt", 16)];
    let ws: Vec<FileMeta> = Vec::new();
    let vfs = VirtualFileSystem::new(base, ws);

    let node = vfs.get_virtual_tree(Some("subdir")).unwrap();
    assert!(node.is_directory);
    let children = node.children.unwrap();
    assert_eq!(children.len(), 1);
    assert_eq!(children[0].name, "base_sub.txt");
    assert_eq!(children[0].path, "subdir/base_sub.txt");
    assert_eq!(children[0].source, VirtualNodeSource::Base);
    assert!(!children[0].writable);

    let file_node = vfs.get_virtual_tree(Some("subdir/base_sub.txt")).unwrap();
    assert!(!file_node.is_directory);
    assert_eq!(file_node.size, Some(16));

    assert!(vfs.get_virtual_tree(Some("missing")).is_err());
}

#[test]
fn test_copy_to_workspace_and_revert() {
    let mut vol = Volume::new();
    vol.write("base", "data/handling.cfg", b"v1".to_vec());

    // Promoting a base file copies it, without linking to the base.
    copy_to_workspace(&mut vol, "base", "ws", "data/handling.cfg").unwrap();
    assert_eq!(vol.read("ws", "data/handling.cfg").unwrap(), b"v1".to_vec());
    assert!(!vol.same_file("ws", "data/handling.cfg", "base", "data/handling.cfg"));

    // Reverting removes the override; the base file shows through.
    revert_to_original(&mut vol, "base", "ws", "data/handling.cfg").unwrap();
    assert!(!vol.exists_file("ws", "data/handling.cfg"));
    assert!(vol.exists_file("base", "data/handling.cfg"));

    // A workspace-only file cannot be reverted; a missing base file
    // cannot be promoted.
    vol.write("ws", "only.txt", b"new".to_vec());
    assert!(revert_to_original(&mut vol, "base", "ws", "only.txt").is_err());
    assert!(copy_to_workspace(&mut vol, "base", "ws", "missing.txt").is_err());
}

#[test]
fn test_virtual_tree_root_name() {
    let base = vec![meta("a.txt", 1)];
    let ws: Vec<FileMeta> = Vec::new();
    let vfs = VirtualFileSystem::new(base, ws);
    let root = vfs.get_virtual_tree(None).unwrap();
    assert_eq!(root.name, "Game Root");
    assert_eq!(root.path, "");
}

#[test]
fn test_virtual_tree_sorting_is_case_insensitive() {
    let base = vec![meta("Zebra.txt", 1), meta("apple.txt", 1), meta("Mango.txt", 1)];
    let ws: Vec<FileMeta> = Vec::new();
    let vfs = VirtualFileSystem::new(base, ws);
    let root = vfs.get_virtual_tree(None).unwrap();
    let children = root.children.unwrap();
    let names: Vec<&str> = children.iter().map(|c| c.name.as_str()).collect();
    assert_eq!(names, vec!["apple.txt", "Mango.txt", "Zebra.txt"]);
}
