use deltaruntime::profiles::{Profile, ProfileManager};

#[test]
fn test_profile_creation() {
    let mut manager = ProfileManager::new("profiles".to_string());
    let profile = manager.create_profile("test-profile".to_string(), 1000).unwrap();

    assert_eq!(profile.metadata.name, "test-profile");
    assert_eq!(profile.metadata.created_at, 1000);
    assert_eq!(profile.metadata.last_used, 1000);
    assert_eq!(profile.profile_dir, "profiles/test-profile");
    assert_eq!(profile.workspace_dir, "profiles/test-profile/workspace");
    assert_eq!(profile.saves_dir, "profiles/test-profile/saves");
}

#[test]
fn test_profile_manager() {
    let mut manager = ProfileManager::new("profiles".to_string());

    manager.create_profile("profile1".to_string(), 10).unwrap();
    manager.create_profile("profile2".to_string(), 20).unwrap();

    let profiles = manager.list_profiles();
    assert_eq!(profiles.len(), 2);

    let renamed = manager.rename_profile("profile1", "renamed-profile".to_string(), 30).unwrap();
    assert_eq!(renamed.metadata.name, "renamed-profile");

    manager.delete_profile("profile2").unwrap();
    let profiles = manager.list_profiles();
    assert_eq!(profiles.len(), 1);
    assert_eq!(profiles[0].metadata.name, "renamed-profile");
}

#[test]
fn test_list_profiles_most_recent_first() {
    let mut manager = ProfileManager::new("profiles".to_string());
    manager.create_profile("old".to_string(), 10).unwrap();
    manager.create_profile("new".to_string(), 30).unwrap();
    manager.create_profile("middle".to_string(), 20).unwrap();

    let profiles = manager.list_profiles();
    let names: Vec<&str> = profiles.iter().map(|p| p.metadata.name.as_str()).collect();
    assert_eq!(names, vec!["new", "middle", "old"]);
}

#[test]
fn test_invalid_profile_names() {
    assert!(Profile::create("profiles", "".to_string(), 0).is_err());
    assert!(Profile::create("profiles", "test/profile".to_string(), 0).is_err());
    assert!(Profile::create("profiles", "test\\profile".to_string(), 0).is_err());
    assert!(Profile::create("profiles", "test:profile".to_string(), 0).is_err());
}

#[test]
fn test_every_forbidden_character_rejected() {
    for bad in ["a/b", "a\\b", "a:b", "a*b", "a?b", "a\"b", "a<b", "a>b", "a|b", "   "] {
        assert!(Profile::create("profiles", bad.to_string(), 0).is_err());
    }
    assert!(Profile::create("profiles", "good name".to_string(), 0).is_ok());
}

#[test]
fn test_duplicate_profile_rejected() {
    let mut manager = ProfileManager::new("profiles".to_string());
    manager.create_profile("same".to_string(), 1).unwrap();
    assert!(manager.create_profile("same".to_string(), 2).is_err());
    assert!(manager.get_profile("same").is_some());
    assert!(manager.get_profile("other").is_none());
}
