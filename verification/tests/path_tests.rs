use deltaruntime::pathnorm::{
    from_long_path, get_drive_letter, is_long_path, normalize_path, safe_join, same_volume,
    to_long_path,
};
use deltaruntime::sizefmt::format_size;

#[test]
fn test_normalize_path() {
    let normalized = normalize_path(r"C:\foo\.\bar\..\baz").unwrap();
    assert_eq!(normalized, r"C:\foo\baz".to_string());
}

#[test]
fn test_safe_join() {
    let result = safe_join(r"C:\base", r"subdir\file.txt").unwrap();
    assert!(result.contains(r"C:\base\subdir\file.txt"));
}

#[test]
fn test_path_traversal_prevention() {
    let result = safe_join(r"C:\base", r"..\..\..\Windows\System32");
    assert!(result.is_err());
}

#[test]
fn test_get_drive_letter() {
    let drive = get_drive_letter(r"C:\Windows\System32").unwrap();
    assert_eq!(drive, Some('C'));
}

#[test]
fn test_same_volume() {
    assert!(same_volume(r"C:\Games", r"c:\Data").unwrap());
    assert!(!same_volume(r"C:\Games", r"D:\Data").unwrap());
    assert!(!same_volume(r"relative\path", r"C:\Data").unwrap());
}

#[test]
fn test_format_size() {
    assert_eq!(format_size(0), "0 B");
    assert_eq!(format_size(512), "512 B");
    assert_eq!(format_size(1024), "1.0 KB");
    assert_eq!(format_size(1536), "1.5 KB");
    assert_eq!(format_size(1048576), "1.0 MB");
}

#[test]
fn test_to_long_path_short_path() {
    let result = to_long_path(r"C:\short\path", false).unwrap();
    assert!(!result.starts_with(r"\\?\"));
}

#[test]
fn test_to_long_path_force() {
    let result = to_long_path(r"C:\short\path", true).unwrap();
    assert!(result.starts_with(r"\\?\"));
}

#[test]
fn test_from_long_path() {
    let result = from_long_path(r"\\?\C:\some\long\path");
    assert_eq!(result, r"C:\some\long\path".to_string());
}

#[test]
fn test_is_long_path() {
    assert!(is_long_path(r"\\?\C:\some\long\path"));
    assert!(!is_long_path(r"C:\some\normal\path"));
}

#[test]
fn test_already_long_path() {
    let already_long = r"\\?\C:\already\long\path";
    let result = to_long_path(already_long, false).unwrap();
    assert_eq!(result, already_long.to_string());
}
