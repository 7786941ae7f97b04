//! Platform features: what this build supports, the checks and error
//! mapping around creating a symbolic link, and path conversion between
//! Windows and WSL.
use vstd::prelude::*;
use crate::error::{AppError, AppErrorKind, AppResult, IoErrorKind, IoFailure};
use crate::logic::path_convert::{converted, ConvertDirection};
use crate::logic::paths::{main_separator, platform_sep};
use crate::logic::text::{concat2, owned};

verus! {

/// What this build of the tool can do.
#[derive(Debug, Clone, Copy, PartialEq, Eq, Structural)]
pub struct Capabilities {
    /// Features only available on Windows (symbolic links) are offered.
    pub windows_only: bool,
}

/// The capabilities of this build: Windows-only features are on exactly when
/// the platform's main path separator is `\`, that is on Windows.
pub fn capabilities() -> (r: Capabilities)
    ensures
        exists|sep: char| #![trigger platform_sep(sep)] platform_sep(sep) && r.windows_only == (sep == '\\'),
{
    let sep = main_separator();
    proof {
        assert(platform_sep(sep));
    }
    Capabilities { windows_only: sep == '\\' }
}

/// Message of a link target that does not exist.
pub open spec fn missing_target_message(target: Seq<char>) -> Seq<char> {
    "リンク元が存在しません: "@ + target
}

/// Message of a link path already in use.
pub open spec fn link_in_use_message(link: Seq<char>) -> Seq<char> {
    "作成先が既に使用中です: "@ + link
}

/// The checks made before a symbolic link is created, from whether the
/// target and the link path exist (links not followed): a missing target is
/// `NotFound`, a link path in use is `AlreadyExists`; both carry the path.
pub fn symlink_precheck(target: &str, link: &str, target_exists: bool, link_exists: bool) -> (r:
    AppResult<()>)
    ensures
        match r {
            Ok(_) => target_exists && !link_exists,
            Err(e) => if !target_exists {
                e.kind == AppErrorKind::NotFound && e.message@ == missing_target_message(target@)
                    && e.path_view() == Some(target@)
            } else {
                link_exists && e.kind == AppErrorKind::AlreadyExists && e.message@
                    == link_in_use_message(link@) && e.path_view() == Some(link@)
            },
        },
{
    if !target_exists {
        let e = AppError::new(AppErrorKind::NotFound, concat2("リンク元が存在しません: ", target));
        return Err(e.with_path(owned(target)));
    }
    if link_exists {
        let e = AppError::new(AppErrorKind::AlreadyExists, concat2("作成先が既に使用中です: ", link));
        return Err(e.with_path(owned(link)));
    }
    Ok(())
}

/// The error returned where symbolic links cannot be created (off Windows).
pub fn symlink_unsupported() -> (e: AppError)
    ensures
        e.kind == AppErrorKind::Unsupported,
        e.path is None,
{
    AppError::new(
        AppErrorKind::Unsupported,
        owned("シンボリックリンク作成は Windows 環境でのみ利用できます"),
    )
}

/// The kind of error a failed link creation is reported as: access denied
/// for a permission error or the Windows codes 5 and 1314, otherwise by the
/// failure's kind (already exists, not found, else I/O).
pub open spec fn symlink_error_kind(f: IoFailure) -> AppErrorKind {
    if f.kind == IoErrorKind::PermissionDenied || f.raw_os_error == Some(5i32) || f.raw_os_error
        == Some(1314i32) {
        AppErrorKind::AccessDenied
    } else {
        match f.kind {
            IoErrorKind::AlreadyExists => AppErrorKind::AlreadyExists,
            IoErrorKind::NotFound => AppErrorKind::NotFound,
            _ => AppErrorKind::Io,
        }
    }
}

/// The message of a failed link creation.
pub open spec fn symlink_error_message(f: IoFailure, target: Seq<char>, link: Seq<char>) -> Seq<
    char,
> {
    match symlink_error_kind(f) {
        AppErrorKind::AccessDenied => "シンボリックリンク作成の権限が不足しています: "@ + f.text@,
        AppErrorKind::AlreadyExists => link_in_use_message(link),
        AppErrorKind::NotFound => missing_target_message(target),
        _ => "シンボリックリンク作成に失敗しました: "@ + f.text@,
    }
}

/// The error reported when creating a link failed, carrying the link path.
pub fn map_symlink_io_error(f: &IoFailure, target: &str, link: &str) -> (e: AppError)
    ensures
        e.kind == symlink_error_kind(*f),
        e.message@ == symlink_error_message(*f, target@, link@),
        e.path_view() == Some(link@),
{
    let privilege = match f.raw_os_error {
        Some(code) => code == 5 || code == 1314,
        None => false,
    };
    let e = if f.kind == IoErrorKind::PermissionDenied || privilege {
        AppError::new(
            AppErrorKind::AccessDenied,
            concat2("シンボリックリンク作成の権限が不足しています: ", f.text.as_str()),
        )
    } else {
        match f.kind {
            IoErrorKind::AlreadyExists => AppError::new(
                AppErrorKind::AlreadyExists,
                concat2("作成先が既に使用中です: ", link),
            ),
            IoErrorKind::NotFound => AppError::new(
                AppErrorKind::NotFound,
                concat2("リンク元が存在しません: ", target),
            ),
            _ => AppError::new(
                AppErrorKind::Io,
                concat2("シンボリックリンク作成に失敗しました: ", f.text.as_str()),
            ),
        }
    };
    e.with_path(owned(link))
}

/// Converts a path between its Windows and WSL forms (see
/// [`crate::logic::path_convert::convert_path`]).
pub fn convert_path(path: &str, direction: ConvertDirection) -> (r: AppResult<String>)
    ensures
        match r {
            Ok(s) => converted(path@, direction) == Some(s@),
            Err(e) => converted(path@, direction) is None && e.kind == AppErrorKind::InvalidInput,
        },
{
    crate::logic::path_convert::convert_path(path, direction)
}

} // verus!
