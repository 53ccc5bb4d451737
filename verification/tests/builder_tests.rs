use deltaruntime::builder::{should_emit_progress, BuildPhase, RuntimeBuilder};
use deltaruntime::digest::hash_bytes;
use deltaruntime::index::BlobIndex;
use deltaruntime::overlay::FileMeta;
use deltaruntime::planner::RuntimePlanner;
use deltaruntime::settings::Settings;
use deltaruntime::store::BlobCache;
use deltaruntime::volume::Volume;

fn meta(rel_path: &str, size: u64) -> FileMeta {
    FileMeta { rel_path: rel_path.to_string(), size }
}

fn test_settings() -> Settings {
    let mut settings = Settings::new();
    settings.base_path = "base".to_string();
    settings.data_root = "data".to_string();
    settings
}

#[test]
fn test_build_runtime_links_and_publishes() {
    let mut vol = Volume::new();
    let mut index = BlobIndex::new();
    // The builder's blob store lives in the cache area under the data root.
    let cache = BlobCache::new("data/cache".to_string());

    // Base holds one file; the workspace overrides another.
    vol.write("base", "models/car.dff", b"car model".to_vec());
    vol.write("base", "data/handling.cfg", b"v1".to_vec());
    vol.write("ws", "data/handling.cfg", b"v2".to_vec());
    let d2 = cache.ensure_blob(&mut vol, "ws", "data/handling.cfg").unwrap();
    index.add_ref(&d2, "P", "data/handling.cfg");

    let base_files = vec![meta("models/car.dff", 9), meta("data/handling.cfg", 2)];
    let ws_files = vec![meta("data/handling.cfg", 2)];
    let planner = RuntimePlanner::new(test_settings());
    let plan = planner.compute_plan("P", &base_files, &ws_files, &index, &vol, "ws", "t".to_string()).unwrap();

    let builder = RuntimeBuilder::new(test_settings());
    let result = builder.build_runtime(&mut vol, "P", &plan, 1700000000, true, true);
    assert!(result.success);
    assert_eq!(result.runtime_path, Some("P-latest".to_string()));
    let stats = result.stats.unwrap();
    assert_eq!(stats.total_files, 2);
    assert_eq!(stats.base_files, 1);
    assert_eq!(stats.blob_files, 1);
    assert_eq!(stats.total_bytes, 11);

    // Every planned entry exists in the published runtime, and the
    // override reads the workspace content as a hardlink of the blob.
    assert!(vol.exists_file("P-latest", "models/car.dff"));
    let published = vol.read("P-latest", "data/handling.cfg").unwrap();
    assert_eq!(published, b"v2".to_vec());
    let brel = cache.blob_rel_path(&d2);
    assert!(vol.same_file("P-latest", "data/handling.cfg", "data/cache", &brel));
    assert!(!vol.same_file("P-latest", "data/handling.cfg", "base", "data/handling.cfg"));

    // No staging debris remains after a successful publish.
    assert!(!vol.exists_file("P-1700000000-tmp", "models/car.dff"));
    assert!(!vol.exists_file("P-1700000000-tmp", "data/handling.cfg"));
}

#[test]
fn test_build_failure_preserves_latest() {
    let mut vol = Volume::new();
    let mut index = BlobIndex::new();
    let cache = BlobCache::new("data/cache".to_string());

    vol.write("base", "a.txt", b"base a".to_vec());
    vol.write("ws", "ok.txt", b"ws ok".to_vec());
    vol.write("ws", "b.txt", b"ws b".to_vec());
    let dok = cache.ensure_blob(&mut vol, "ws", "ok.txt").unwrap();
    index.add_ref(&dok, "P", "ok.txt");
    let db = cache.ensure_blob(&mut vol, "ws", "b.txt").unwrap();
    index.add_ref(&db, "P", "b.txt");

    let base_files = vec![meta("a.txt", 6)];
    let ws_files = vec![meta("ok.txt", 5), meta("b.txt", 4)];
    let planner = RuntimePlanner::new(test_settings());
    let plan = planner.compute_plan("P", &base_files, &ws_files, &index, &vol, "ws", "t".to_string()).unwrap();

    let builder = RuntimeBuilder::new(test_settings());
    let first = builder.build_runtime(&mut vol, "P", &plan, 100, true, true);
    assert!(first.success);
    let first_node = vol.node_of("P-latest", "b.txt").unwrap();

    // The workspace mutates and its blob disappears before the second
    // build: the build fails mid-overlay.
    vol.remove_file("data/cache", &cache.blob_rel_path(&db));
    let second = builder.build_runtime(&mut vol, "P", &plan, 200, true, true);
    assert!(!second.success);
    assert!(second.error.is_some());
    assert!(second.runtime_path.is_none());
    assert!(second.stats.is_none());

    // The published runtime still reflects the first build.
    assert_eq!(vol.node_of("P-latest", "b.txt").unwrap(), first_node);
    assert!(vol.exists_file("P-latest", "a.txt"));

    // The staging debris of the failed build remains (the link that
    // succeeded before the failure), and the sweep removes it without
    // touching the published runtime.
    assert!(vol.exists_file("P-200-tmp", "ok.txt"));
    builder.cleanup_temp_runtimes(&mut vol);
    assert!(!vol.exists_file("P-200-tmp", "ok.txt"));
    assert!(vol.exists_file("P-latest", "a.txt"));
}

#[test]
fn test_build_preflight_failure() {
    let mut vol = Volume::new();
    let base_files: Vec<FileMeta> = Vec::new();
    let ws_files: Vec<FileMeta> = Vec::new();
    let planner = RuntimePlanner::new(test_settings());
    let index = BlobIndex::new();
    let plan = planner.compute_plan("P", &base_files, &ws_files, &index, &vol, "ws", "t".to_string()).unwrap();

    let builder = RuntimeBuilder::new(test_settings());
    let before = vol.files.len();
    let result = builder.build_runtime(&mut vol, "P", &plan, 1, false, true);
    assert!(!result.success);
    assert!(result.error.is_some());
    assert!(result.runtime_path.is_none());
    assert!(result.stats.is_none());
    // A failed preflight creates nothing.
    assert_eq!(vol.files.len(), before);
}

#[test]
fn test_should_emit_progress() {
    assert!(should_emit_progress(&BuildPhase::LinkBase, 0));
    assert!(should_emit_progress(&BuildPhase::LinkBase, 200));
    assert!(!should_emit_progress(&BuildPhase::LinkBase, 150));
    assert!(should_emit_progress(&BuildPhase::OverlayWorkspace, 50));
    assert!(!should_emit_progress(&BuildPhase::OverlayWorkspace, 49));
}
