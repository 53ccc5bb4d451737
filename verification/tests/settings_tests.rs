use deltaruntime::logs::{get_log_level, log_shutdown_info};
use deltaruntime::settings::{
    get_drive_info, validate_gta_base_path, EnvironmentProbe, Settings, ValidationResult,
    CURRENT_SCHEMA,
};

#[test]
fn test_settings_new() {
    let settings = Settings::new();
    assert_eq!(settings.schema, CURRENT_SCHEMA);
    assert_eq!(settings.overlay_mode, "hardlink");
    assert!(!settings.wizard.completed);
}

#[test]
fn test_settings_wizard_flow() {
    let mut settings = Settings::for_wizard(
        r"C:\Games\Base".to_string(),
        r"C:\DeltaRuntime".to_string(),
    );
    assert!(settings.needs_wizard());
    settings.complete_wizard(1234, "1.0.0".to_string());
    assert!(!settings.needs_wizard());
    assert_eq!(settings.wizard.completed_at, Some(1234));
}

#[test]
fn test_data_structure_directories() {
    let mut settings = Settings::new();
    settings.data_root = "root".to_string();
    let dirs = settings.get_data_structure();
    assert_eq!(
        dirs,
        vec![
            "root/cache".to_string(),
            "root/cache/blobs".to_string(),
            "root/profiles".to_string(),
            "root/runtimes".to_string(),
            "root/logs".to_string(),
            "root/tmp".to_string(),
        ]
    );
    assert_eq!(settings.get_cache_directory(), "root/cache");
}

#[test]
fn test_validation_result() {
    let mut result = ValidationResult::new();
    assert!(result.is_valid());

    result.add_warning("Test warning".to_string());
    assert!(result.is_valid());
    assert!(result.has_warnings());

    result.add_error("Test error".to_string());
    assert!(!result.is_valid());
}

#[test]
fn test_validate_settings() {
    let mut settings = Settings::new();
    settings.base_path = r"C:\Games\Base".to_string();
    settings.data_root = r"C:\DeltaRuntime".to_string();

    let good = EnvironmentProbe {
        base_exists: true,
        base_is_dir: true,
        has_game_exe: true,
        data_root_exists: true,
        data_root_is_dir: true,
        is_ntfs: Some(true),
        free_space: Some(10 * 1024 * 1024 * 1024),
    };
    assert!(settings.validate(&good).is_valid());

    let missing_base = EnvironmentProbe { base_exists: false, ..good.clone() };
    assert!(!settings.validate(&missing_base).is_valid());

    let not_ntfs = EnvironmentProbe { is_ntfs: Some(false), ..good.clone() };
    assert!(!settings.validate(&not_ntfs).is_valid());

    // Differing drives are an error.
    settings.data_root = r"D:\DeltaRuntime".to_string();
    assert!(!settings.validate(&good).is_valid());
}

#[test]
fn test_validate_warnings() {
    let mut settings = Settings::new();
    settings.base_path = r"C:\Games\Base".to_string();
    settings.data_root = r"C:\DeltaRuntime".to_string();

    let good = EnvironmentProbe {
        base_exists: true,
        base_is_dir: true,
        has_game_exe: true,
        data_root_exists: true,
        data_root_is_dir: true,
        is_ntfs: Some(true),
        free_space: Some(10 * 1024 * 1024 * 1024),
    };
    assert!(!settings.validate(&good).has_warnings());

    // A missing game executable, a missing data root and low disk
    // space each add exactly one warning.
    let shaky = EnvironmentProbe {
        has_game_exe: false,
        data_root_exists: false,
        free_space: Some(1024),
        ..good.clone()
    };
    let result = settings.validate(&shaky);
    assert!(result.is_valid());
    assert_eq!(result.warnings.len(), 3);

    // An unknown filesystem kind is a warning, not an error.
    let unknown_fs = EnvironmentProbe { is_ntfs: None, ..good };
    let result = settings.validate(&unknown_fs);
    assert!(result.is_valid());
    assert_eq!(result.warnings.len(), 1);
}

#[test]
fn test_validate_gta_base_path() {
    let ok = validate_gta_base_path(true, true, true);
    assert!(ok.is_valid);
    assert!(ok.error_message.is_none());

    let missing = validate_gta_base_path(false, false, false);
    assert!(!missing.is_valid);
    assert!(missing.error_message.is_some());

    let no_exe = validate_gta_base_path(true, true, false);
    assert!(!no_exe.is_valid);
}

#[test]
fn test_get_drive_info() {
    let info = get_drive_info(Some('C'), true, 2 * 1024 * 1024 * 1024);
    assert!(info.is_valid);
    assert_eq!(info.free_space_formatted, "2.0 GB");
    assert!(info.error_message.is_none());

    let small = get_drive_info(Some('C'), true, 1024);
    assert!(!small.is_valid);

    let no_drive = get_drive_info(None, true, 2 * 1024 * 1024 * 1024);
    assert!(!no_drive.is_valid);
}

#[test]
fn test_get_log_level() {
    let level = get_log_level();
    assert!(level == "DEBUG" || level == "INFO");
}

#[test]
fn test_log_shutdown_message() {
    assert!(log_shutdown_info().contains("Shutting Down"));
}
