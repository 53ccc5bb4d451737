//! Application settings: the base installation path, the data root, and
//! derived directories; validation of a configuration against probed
//! facts about the machine.
//!
//! Reading and writing the settings file, and probing the filesystem,
//! happen outside the core; validation here decides from plain values.

use vstd::prelude::*;
use vstd::string::StringExecFns;
use crate::pathnorm::spec_drive_letter;
use crate::sizefmt::spec_format_size;

verus! {

/// First-run wizard state.
#[derive(Debug, Clone)]
pub struct WizardSettings {
    /// Whether the wizard has been completed.
    pub completed: bool,
    /// When the wizard was completed, in seconds since the epoch.
    pub completed_at: Option<u64>,
    /// The version of the wizard that was completed.
    pub wizard_version: Option<String>,
}

/// User preferences.
#[derive(Debug, Clone)]
pub struct UserPreferences {
    pub show_debug_info: bool,
    pub log_retention_days: u64,
    pub auto_check_updates: bool,
    pub max_runtime_builds: u32,
    pub show_progress: bool,
}

impl Default for UserPreferences {
    /// The default preferences: thirty days of logs, five kept builds,
    /// updates checked, progress shown.
    fn default() -> (r: UserPreferences)
        ensures
            r.show_debug_info == false,
            r.log_retention_days == 30,
            r.auto_check_updates == true,
            r.max_runtime_builds == 5,
            r.show_progress == true,
    {
        UserPreferences {
            show_debug_info: false,
            log_retention_days: 30,
            auto_check_updates: true,
            max_runtime_builds: 5,
            show_progress: true,
        }
    }
}

/// The application settings.
#[derive(Debug, Clone)]
pub struct Settings {
    /// Schema version for migration support.
    pub schema: u32,
    /// Path of the read-only base installation.
    pub base_path: String,
    /// Root directory of all runtime data.
    pub data_root: String,
    /// The overlay mode; only `hardlink` is supported.
    pub overlay_mode: String,
    /// First-run wizard state.
    pub wizard: WizardSettings,
    /// User preferences.
    pub preferences: UserPreferences,
}

/// The current settings schema version.
pub const CURRENT_SCHEMA: u32 = 1;

impl Settings {
    /// New default settings: empty paths, hardlink overlay, wizard not
    /// yet completed.
    pub fn new() -> (r: Settings)
        ensures
            r.schema == CURRENT_SCHEMA,
            r.base_path@.len() == 0,
            r.data_root@.len() == 0,
            r.overlay_mode@ == "hardlink"@,
            r.wizard.completed == false,
            r.wizard.completed_at is None,
            r.wizard.wizard_version is None,
            r.preferences.log_retention_days == 30,
    {
        Settings {
            schema: CURRENT_SCHEMA,
            base_path: String::new(),
            data_root: String::new(),
            overlay_mode: String::from_str("hardlink"),
            wizard: WizardSettings { completed: false, completed_at: None, wizard_version: None },
            preferences: UserPreferences::default(),
        }
    }

    /// Settings for the first-run wizard, with the chosen paths.
    pub fn for_wizard(base_path: String, data_root: String) -> (r: Settings)
        ensures
            r.schema == CURRENT_SCHEMA,
            r.base_path@ == base_path@,
            r.data_root@ == data_root@,
            r.overlay_mode@ == "hardlink"@,
            r.wizard.completed == false,
    {
        let mut settings = Settings::new();
        settings.base_path = base_path;
        settings.data_root = data_root;
        settings
    }

    /// Upgrades settings from an older schema version.
    pub fn migrate(self) -> (r: Settings)
        ensures
            r.schema == CURRENT_SCHEMA,
            r.base_path@ == self.base_path@,
            r.data_root@ == self.data_root@,
            r.overlay_mode@ == self.overlay_mode@,
            r.wizard == self.wizard,
            r.preferences == self.preferences,
    {
        let mut s = self;
        s.schema = CURRENT_SCHEMA;
        s
    }

    /// Whether the first-run wizard must be shown: it has not completed,
    /// or a path is unset.
    pub fn needs_wizard(&self) -> (r: bool)
        ensures
            r == (!self.wizard.completed || self.base_path@.len() == 0 || self.data_root@.len()
                == 0),
    {
        !self.wizard.completed || self.base_path.as_str().is_empty()
            || self.data_root.as_str().is_empty()
    }

    /// Marks the wizard completed at the given time with the given
    /// application version.
    pub fn complete_wizard(&mut self, now: u64, version: String)
        ensures
            final(self).wizard.completed == true,
            final(self).wizard.completed_at == Some(now),
            final(self).wizard.wizard_version matches Some(v) && v@ == version@,
            final(self).schema == old(self).schema,
            final(self).base_path@ == old(self).base_path@,
            final(self).data_root@ == old(self).data_root@,
            final(self).overlay_mode@ == old(self).overlay_mode@,
            final(self).preferences == old(self).preferences,
    {
        self.wizard.completed = true;
        self.wizard.completed_at = Some(now);
        self.wizard.wizard_version = Some(version);
    }

    /// The cache directory under the data root.
    pub fn get_cache_directory(&self) -> (r: String)
        ensures
            r@ == self.data_root@ + "/cache"@,
    {
        self.data_root.clone().concat("/cache")
    }

    /// The directories expected under the data root.
    pub fn get_data_structure(&self) -> (r: Vec<String>)
        ensures
            r@.len() == 6,
            r@[0]@ == self.data_root@ + "/cache"@,
            r@[1]@ == self.data_root@ + "/cache/blobs"@,
            r@[2]@ == self.data_root@ + "/profiles"@,
            r@[3]@ == self.data_root@ + "/runtimes"@,
            r@[4]@ == self.data_root@ + "/logs"@,
            r@[5]@ == self.data_root@ + "/tmp"@,
    {
        let mut dirs: Vec<String> = Vec::new();
        dirs.push(self.data_root.clone().concat("/cache"));
        dirs.push(self.data_root.clone().concat("/cache/blobs"));
        dirs.push(self.data_root.clone().concat("/profiles"));
        dirs.push(self.data_root.clone().concat("/runtimes"));
        dirs.push(self.data_root.clone().concat("/logs"));
        dirs.push(self.data_root.clone().concat("/tmp"));
        dirs
    }
}

/// Facts about the machine that validation consults, probed outside the
/// core: existence and kinds of the configured paths, the filesystem
/// kind, and free space.
#[derive(Debug, Clone)]
pub struct EnvironmentProbe {
    pub base_exists: bool,
    pub base_is_dir: bool,
    pub has_game_exe: bool,
    pub data_root_exists: bool,
    pub data_root_is_dir: bool,
    /// Whether the base path's volume is NTFS; `None` when unknown.
    pub is_ntfs: Option<bool>,
    /// Free space on the data root's volume, in bytes; `None` when
    /// unknown.
    pub free_space: Option<u64>,
}

/// The number of errors validation reports for a configuration.
pub open spec fn spec_error_count(s: Settings, probe: EnvironmentProbe) -> int {
    (if !probe.base_exists {
        1int
    } else if !probe.base_is_dir {
        1int
    } else {
        0int
    }) + (if probe.data_root_exists && !probe.data_root_is_dir {
        1int
    } else {
        0int
    }) + (match (spec_drive_letter(s.base_path@), spec_drive_letter(s.data_root@)) {
        (Some(d1), Some(d2)) => (if d1 != d2 {
            1int
        } else {
            0int
        }) + (if probe.is_ntfs == Some(false) {
            1int
        } else {
            0int
        }),
        _ => 0int,
    })
}

/// The number of warnings validation reports for a configuration.
pub open spec fn spec_warning_count(s: Settings, probe: EnvironmentProbe) -> int {
    (if probe.base_exists && probe.base_is_dir && !probe.has_game_exe {
        1int
    } else {
        0int
    }) + (if !probe.data_root_exists {
        1int
    } else {
        0int
    }) + (match (spec_drive_letter(s.base_path@), spec_drive_letter(s.data_root@)) {
        (Some(d1), Some(d2)) => if probe.is_ntfs is None {
            1int
        } else {
            0int
        },
        _ => 1int,
    }) + (match probe.free_space {
        Some(free) => if free < 1073741824 {
            1int
        } else {
            0int
        },
        None => 0int,
    })
}

/// A valid configuration reports no errors.
pub open spec fn spec_settings_valid(s: Settings, probe: EnvironmentProbe) -> bool {
    spec_error_count(s, probe) == 0
}

/// Result of settings validation.
#[derive(Debug, Clone)]
pub struct ValidationResult {
    pub errors: Vec<String>,
    pub warnings: Vec<String>,
}

impl ValidationResult {
    /// An empty result: valid, without warnings.
    pub fn new() -> (r: ValidationResult)
        ensures
            r.errors@.len() == 0,
            r.warnings@.len() == 0,
    {
        ValidationResult { errors: Vec::new(), warnings: Vec::new() }
    }

    /// Records an error.
    pub fn add_error(&mut self, error: String)
        ensures
            final(self).errors@ == old(self).errors@.push(error),
            final(self).warnings@ == old(self).warnings@,
    {
        self.errors.push(error);
    }

    /// Records a warning.
    pub fn add_warning(&mut self, warning: String)
        ensures
            final(self).warnings@ == old(self).warnings@.push(warning),
            final(self).errors@ == old(self).errors@,
    {
        self.warnings.push(warning);
    }

    /// A result without errors is valid.
    pub fn is_valid(&self) -> (r: bool)
        ensures
            r == (self.errors@.len() == 0),
    {
        self.errors.len() == 0
    }

    /// Whether any warnings were recorded.
    pub fn has_warnings(&self) -> (r: bool)
        ensures
            r == (self.warnings@.len() > 0),
    {
        self.warnings.len() > 0
    }
}

impl Settings {
    /// Validates this configuration against probed facts: the base path
    /// must be an existing directory, the data root must be a directory
    /// if it exists, and when both drive letters are known they must
    /// match and the volume must not be known to lack NTFS.  Missing
    /// game executable, missing data root, unknown drives and low disk
    /// space are warnings only.
    pub fn validate(&self, probe: &EnvironmentProbe) -> (r: ValidationResult)
        ensures
            r.errors@.len() == spec_error_count(*self, *probe),
            r.warnings@.len() == spec_warning_count(*self, *probe),
            (r.errors@.len() == 0) == spec_settings_valid(*self, *probe),
    {
        let mut result = ValidationResult::new();
        if !probe.base_exists {
            result.add_error(
                String::from_str("Base game path does not exist: ").concat(
                    self.base_path.as_str(),
                ),
            );
        } else if !probe.base_is_dir {
            result.add_error(
                String::from_str("Base path is not a directory: ").concat(self.base_path.as_str()),
            );
        } else if !probe.has_game_exe {
            result.add_warning(
                String::from_str("Game executable not found under: ").concat(
                    self.base_path.as_str(),
                ),
            );
        }
        if !probe.data_root_exists {
            result.add_warning(
                String::from_str("Data root does not exist: ").concat(self.data_root.as_str()),
            );
        } else if !probe.data_root_is_dir {
            result.add_error(
                String::from_str("Data root is not a directory: ").concat(self.data_root.as_str()),
            );
        }
        let base_drive = match crate::pathnorm::get_drive_letter(self.base_path.as_str()) {
            Ok(d) => d,
            Err(_) => None,
        };
        let data_drive = match crate::pathnorm::get_drive_letter(self.data_root.as_str()) {
            Ok(d) => d,
            Err(_) => None,
        };
        match (base_drive, data_drive) {
            (Some(d1), Some(d2)) => {
                if d1 != d2 {
                    result.add_error(
                        String::from_str(
                            "Base path and data root must be on the same drive for hardlinks",
                        ),
                    );
                }
                match probe.is_ntfs {
                    Some(true) => {},
                    Some(false) => {
                        result.add_error(
                            String::from_str("The volume is not NTFS; hardlinks require NTFS"),
                        );
                    },
                    None => {
                        result.add_warning(
                            String::from_str("Could not determine file system type"),
                        );
                    },
                }
            },
            _ => {
                result.add_warning(
                    String::from_str("Could not determine drive letters for validation"),
                );
            },
        }
        match probe.free_space {
            Some(free) => {
                if free < 1073741824 {
                    result.add_warning(
                        String::from_str("Low disk space: ").concat(
                            crate::sizefmt::format_size(free).as_str(),
                        ),
                    );
                }
            },
            None => {},
        }
        result
    }
}

/// Drive facts reported to the interface.
#[derive(Debug, Clone)]
pub struct DriveInfo {
    pub drive_letter: Option<char>,
    pub is_ntfs: bool,
    pub free_space_bytes: u64,
    pub free_space_formatted: String,
    pub is_valid: bool,
    pub error_message: Option<String>,
}

/// Base-path facts reported to the interface.
#[derive(Debug, Clone)]
pub struct PathValidation {
    pub is_valid: bool,
    pub exists: bool,
    pub is_directory: bool,
    pub has_gta_exe: bool,
    pub error_message: Option<String>,
}

/// Settings validation reported to the interface.
#[derive(Debug, Clone)]
pub struct SettingsValidation {
    pub is_valid: bool,
    pub errors: Vec<String>,
    pub warnings: Vec<String>,
}

impl SettingsValidation {
    /// Repackages a validation result for the interface.
    pub fn from_result(result: ValidationResult) -> (r: SettingsValidation)
        ensures
            r.is_valid == (result.errors@.len() == 0),
            r.errors@ == result.errors@,
            r.warnings@ == result.warnings@,
    {
        let is_valid = result.errors.len() == 0;
        SettingsValidation { is_valid, errors: result.errors, warnings: result.warnings }
    }
}

/// Classifies a probed base path: valid only when it exists, is a
/// directory, and holds the game executable; otherwise the first
/// failing condition is reported.
pub fn validate_gta_base_path(exists: bool, is_directory: bool, has_gta_exe: bool) -> (r:
    PathValidation)
    ensures
        r.exists == exists,
        r.is_directory == is_directory,
        r.has_gta_exe == has_gta_exe,
        r.is_valid == (exists && is_directory && has_gta_exe),
        (r.error_message is None) == r.is_valid,
{
    let is_valid = exists && is_directory && has_gta_exe;
    let error_message: Option<String> = if !exists {
        Some(String::from_str("Path does not exist"))
    } else if !is_directory {
        Some(String::from_str("Path is not a directory"))
    } else if !has_gta_exe {
        Some(String::from_str("Game executable not found in this directory"))
    } else {
        None
    };
    PathValidation { is_valid, exists, is_directory, has_gta_exe, error_message }
}

/// Classifies a probed drive: valid only with a known drive letter, an
/// NTFS volume, and at least one hundred megabytes free.
pub fn get_drive_info(drive_letter: Option<char>, is_ntfs: bool, free_space_bytes: u64) -> (r:
    DriveInfo)
    ensures
        r.drive_letter == drive_letter,
        r.is_ntfs == is_ntfs,
        r.free_space_bytes == free_space_bytes,
        r.free_space_formatted@ == spec_format_size(free_space_bytes as nat),
        r.is_valid == (drive_letter is Some && is_ntfs && free_space_bytes >= 104857600),
        (r.error_message is None) == r.is_valid,
{
    let free_space_formatted = crate::sizefmt::format_size(free_space_bytes);
    let is_valid = drive_letter.is_some() && is_ntfs && free_space_bytes >= 104857600;
    let error_message: Option<String> = if drive_letter.is_none() {
        Some(String::from_str("Could not determine drive letter"))
    } else if !is_ntfs {
        Some(String::from_str("Drive is not NTFS (required for hardlinks)"))
    } else if free_space_bytes < 104857600 {
        Some(String::from_str("Insufficient free space"))
    } else {
        None
    };
    DriveInfo {
        drive_letter,
        is_ntfs,
        free_space_bytes,
        free_space_formatted,
        is_valid,
        error_message,
    }
}

} // verus!
