use tag_editor_core::error::{AppErrorKind, IoErrorKind, IoFailure};
use tag_editor_core::logic::path_convert::{linux_to_windows, windows_to_linux, ConvertDirection};
use tag_editor_core::services::platform_service::{
    capabilities, convert_path, map_symlink_io_error, symlink_precheck, symlink_unsupported,
};

#[test]
fn capabilities_matches_cfg_windows() {
    assert_eq!(capabilities().windows_only, std::path::MAIN_SEPARATOR == '\\');
}

#[test]
fn convert_path_delegates_win_to_linux() {
    assert_eq!(convert_path("C:\\foo\\bar", ConvertDirection::WindowsToLinux).unwrap(), "/mnt/c/foo/bar");
}

#[test]
fn convert_path_delegates_linux_to_win() {
    assert_eq!(convert_path("/mnt/c/foo/bar", ConvertDirection::LinuxToWindows).unwrap(), "C:\\foo\\bar");
}

#[test]
fn convert_path_invalid_input_is_invalid() {
    let err = convert_path("foo\\bar", ConvertDirection::WindowsToLinux).unwrap_err();
    assert_eq!(err.kind, AppErrorKind::InvalidInput);
}

#[test]
fn drive_rule_violations_are_not_convertible() {
    assert!(windows_to_linux("\\foo\\bar").is_err());
    assert!(windows_to_linux("C:foo").is_err());
    assert!(windows_to_linux("1:\\foo").is_err());
    assert!(linux_to_windows("/home/user").is_err());
    assert!(linux_to_windows("/mnt/cc/foo").is_err());
    assert!(linux_to_windows("/mnt/").is_err());
}

#[test]
fn drive_roots_round_trip() {
    assert_eq!(windows_to_linux("D:\\").unwrap(), "/mnt/d/");
    assert_eq!(linux_to_windows("/mnt/d/").unwrap(), "D:\\");
    assert_eq!(linux_to_windows("/mnt/d").unwrap(), "D:\\");
    let p = "Z:\\猫\\a b\\file.png";
    assert_eq!(linux_to_windows(&windows_to_linux(p).unwrap()).unwrap(), p);
}

#[test]
fn symlink_precheck_reports_missing_target_then_busy_link() {
    let e = symlink_precheck("/t", "/l", false, true).unwrap_err();
    assert_eq!(e.kind, AppErrorKind::NotFound);
    assert_eq!(e.message, "リンク元が存在しません: /t");
    assert_eq!(e.path.as_deref(), Some("/t"));
    let e = symlink_precheck("/t", "/l", true, true).unwrap_err();
    assert_eq!(e.kind, AppErrorKind::AlreadyExists);
    assert_eq!(e.path.as_deref(), Some("/l"));
    assert!(symlink_precheck("/t", "/l", true, false).is_ok());
    assert_eq!(symlink_unsupported().kind, AppErrorKind::Unsupported);
}

#[test]
fn symlink_failures_map_to_error_kinds() {
    let f = |kind, raw| IoFailure { kind, raw_os_error: raw, text: "x".to_string() };
    assert_eq!(map_symlink_io_error(&f(IoErrorKind::Other, Some(1314)), "/t", "/l").kind, AppErrorKind::AccessDenied);
    assert_eq!(map_symlink_io_error(&f(IoErrorKind::PermissionDenied, None), "/t", "/l").kind, AppErrorKind::AccessDenied);
    assert_eq!(map_symlink_io_error(&f(IoErrorKind::AlreadyExists, None), "/t", "/l").kind, AppErrorKind::AlreadyExists);
    let e = map_symlink_io_error(&f(IoErrorKind::NotFound, None), "/t", "/l");
    assert_eq!(e.kind, AppErrorKind::NotFound);
    assert_eq!(e.message, "リンク元が存在しません: /t");
    assert_eq!(e.path.as_deref(), Some("/l"));
    let e = map_symlink_io_error(&f(IoErrorKind::Other, None), "/t", "/l");
    assert_eq!(e.kind, AppErrorKind::Io);
    assert_eq!(e.message, "シンボリックリンク作成に失敗しました: x");
}
