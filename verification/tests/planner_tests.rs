use deltaruntime::digest::hash_bytes;
use deltaruntime::index::BlobIndex;
use deltaruntime::overlay::FileMeta;
use deltaruntime::planner::{diff_plans, PlanError, RuntimePlanner, RuntimeSource};
use deltaruntime::settings::Settings;
use deltaruntime::volume::Volume;

fn meta(rel_path: &str, size: u64) -> FileMeta {
    FileMeta { rel_path: rel_path.to_string(), size }
}

fn planner() -> RuntimePlanner {
    let mut settings = Settings::new();
    settings.base_path = "base".to_string();
    settings.data_root = "data".to_string();
    RuntimePlanner::new(settings)
}

#[test]
fn test_compute_plan_totals() {
    let mut index = BlobIndex::new();
    let d2 = hash_bytes(&b"v2".to_vec());
    index.add_ref(&d2, "P", "data/handling.cfg");
    let dn = hash_bytes(&b"new".to_vec());
    index.add_ref(&dn, "P", "mods/new.txt");

    let base = vec![meta("data/handling.cfg", 2), meta("models/car.dff", 100)];
    let ws = vec![meta("data/handling.cfg", 2), meta("mods/new.txt", 3)];

    let plan = planner()
        .compute_plan("P", &base, &ws, &index, &Volume::new(), "ws", "2024-01-01T00:00:00Z".to_string())
        .unwrap();

    // The totals always add up: files split into base and blob pools,
    // sizes sum over the entries.
    assert_eq!(plan.profile_name, "P");
    assert_eq!(plan.generated_at, "2024-01-01T00:00:00Z");
    assert_eq!(plan.total_files, 3);
    assert_eq!(plan.base_files, 1);
    assert_eq!(plan.blob_files, 2);
    assert_eq!(plan.total_files, plan.base_files + plan.blob_files);
    assert_eq!(plan.total_size, 105);
    let sum: u64 = plan.entries.iter().map(|e| e.size).sum();
    assert_eq!(plan.total_size, sum);
}

#[test]
fn test_compute_plan_override_entry() {
    let mut index = BlobIndex::new();
    let d2 = hash_bytes(&b"v2".to_vec());
    index.add_ref(&d2, "P", "data/handling.cfg");

    let base = vec![meta("data/handling.cfg", 2)];
    let ws = vec![meta("data/handling.cfg", 2)];

    let plan = planner().compute_plan("P", &base, &ws, &index, &Volume::new(), "ws", "t".to_string()).unwrap();
    assert_eq!(plan.total_files, 1);
    let entry = &plan.entries[0];
    assert_eq!(entry.rel_path, "data/handling.cfg");
    assert!(entry.has_base);
    assert!(entry.is_override);
    match &entry.source {
        RuntimeSource::Blob(d) => assert_eq!(d, &d2),
        RuntimeSource::Base => panic!("override entry must come from a blob"),
    }
}

#[test]
fn test_compute_plan_blob_missing() {
    let index = BlobIndex::new();
    let base: Vec<FileMeta> = Vec::new();
    let ws = vec![meta("unnormalized.txt", 4)];

    let err = planner().compute_plan("P", &base, &ws, &index, &Volume::new(), "ws", "t".to_string());
    match err {
        Err(PlanError::BlobMissing(rel)) => assert_eq!(rel, "unnormalized.txt"),
        _ => panic!("a workspace file without a recorded blob must fail the plan"),
    }
}

#[test]
fn test_compute_plan_hash_fallback() {
    // A workspace file the normalizer never saw: the planner hashes
    // its bytes instead of failing.
    let index = BlobIndex::new();
    let mut vol = Volume::new();
    vol.write("ws", "manual.txt", b"placed by hand".to_vec());
    let base: Vec<FileMeta> = Vec::new();
    let ws = vec![meta("manual.txt", 14)];

    let plan = planner().compute_plan("P", &base, &ws, &index, &vol, "ws", "t".to_string())
        .unwrap();
    let expected = hash_bytes(&b"placed by hand".to_vec());
    match &plan.entries[0].source {
        RuntimeSource::Blob(d) => assert_eq!(d, &expected),
        RuntimeSource::Base => panic!("workspace entry must come from a blob"),
    }
}

#[test]
fn test_diff_plans() {
    let mut index = BlobIndex::new();
    let da = hash_bytes(&b"a".to_vec());
    index.add_ref(&da, "P", "kept.txt");

    let base_old = vec![meta("unchanged.bin", 5), meta("removed.bin", 6)];
    let ws_old = vec![meta("kept.txt", 1)];
    let old_plan = planner().compute_plan("P", &base_old, &ws_old, &index, &Volume::new(), "ws", "t1".to_string())
        .unwrap();

    let base_new = vec![meta("unchanged.bin", 5), meta("added.bin", 7)];
    let mut index2 = BlobIndex::new();
    let db = hash_bytes(&b"b".to_vec());
    index2.add_ref(&db, "P", "kept.txt");
    let ws_new = vec![meta("kept.txt", 1)];
    let new_plan = planner().compute_plan("P", &base_new, &ws_new, &index2, &Volume::new(), "ws", "t2".to_string())
        .unwrap();

    let diff = diff_plans(&old_plan, &new_plan);
    assert_eq!(diff.added.len(), 1);
    assert_eq!(diff.added[0].rel_path, "added.bin");
    assert_eq!(diff.removed.len(), 1);
    assert_eq!(diff.removed[0].rel_path, "removed.bin");
    // The kept path changed digest, so it counts as changed.
    assert_eq!(diff.changed.len(), 1);
    assert_eq!(diff.changed[0].rel_path, "kept.txt");
    assert_eq!(diff.touched_count(), 3);
    assert!(!diff.is_empty());

    let no_diff = diff_plans(&old_plan, &old_plan);
    assert!(no_diff.is_empty());
    assert_eq!(no_diff.touched_count(), 0);
}
