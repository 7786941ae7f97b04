//! Converting absolute paths between Windows (`C:\dir\file`) and the Linux
//! view of the same drive under WSL (`/mnt/c/dir/file`).
use vstd::prelude::*;
use crate::error::{AppError, AppErrorKind, AppResult};
use crate::logic::text::{chars_of, concat2, lower_char, string_of, to_lower_char};

verus! {

/// Direction of a path conversion.
#[derive(Debug, Clone, Copy, PartialEq, Eq, Structural)]
pub enum ConvertDirection {
    /// `C:\dir` to `/mnt/c/dir`.
    WindowsToLinux,
    /// `/mnt/c/dir` to `C:\dir`.
    LinuxToWindows,
}

/// An ASCII letter.
pub open spec fn is_ascii_letter(c: char) -> bool {
    ('a' <= c && c <= 'z') || ('A' <= c && c <= 'Z')
}

/// ASCII upper-casing of one character.
pub open spec fn upper_char(c: char) -> char {
    if 'a' <= c && c <= 'z' {
        ((c as u32) - 32) as char
    } else {
        c
    }
}

/// `s` with every `from` replaced by `to`.
pub open spec fn replace_char(s: Seq<char>, from: char, to: char) -> Seq<char> {
    s.map_values(|c: char| if c == from { to } else { c })
}

/// `/mnt/`.
pub open spec fn mnt_prefix() -> Seq<char> {
    seq!['/', 'm', 'n', 't', '/']
}

/// An absolute Windows path: a drive letter, `:` and `\`.
pub open spec fn is_windows_absolute(p: Seq<char>) -> bool {
    p.len() >= 3 && is_ascii_letter(p[0]) && p[1] == ':' && p[2] == '\\'
}

/// A Linux path under a drive mount: `/mnt/`, one drive letter, then the
/// end or `/`.
pub open spec fn is_mount_path(p: Seq<char>) -> bool {
    &&& p.len() >= 6
    &&& p.take(5) == mnt_prefix()
    &&& is_ascii_letter(p[5])
    &&& (p.len() == 6 || p[6] == '/')
}

/// The Linux form of an absolute Windows path: `/mnt/`, the drive letter in
/// lower case, `/`, then the rest with `\` turned into `/`.
pub open spec fn linux_form(p: Seq<char>) -> Seq<char> {
    mnt_prefix() + seq![lower_char(p[0]), '/'] + replace_char(p.skip(3), '\\', '/')
}

/// The Windows form of a mount path: the drive letter in upper case, `:\`,
/// then the rest with `/` turned into `\`.
pub open spec fn windows_form(p: Seq<char>) -> Seq<char> {
    seq![upper_char(p[5]), ':', '\\'] + if p.len() > 7 {
        replace_char(p.skip(7), '/', '\\')
    } else {
        Seq::empty()
    }
}

/// The conversion of `p` in `direction`, or `None` when `p` is not a path
/// of the kind that direction starts from.
pub open spec fn converted(p: Seq<char>, direction: ConvertDirection) -> Option<Seq<char>> {
    match direction {
        ConvertDirection::WindowsToLinux => if is_windows_absolute(p) {
            Some(linux_form(p))
        } else {
            None
        },
        ConvertDirection::LinuxToWindows => if is_mount_path(p) {
            Some(windows_form(p))
        } else {
            None
        },
    }
}

fn is_letter(c: char) -> (r: bool)
    ensures
        r == is_ascii_letter(c),
{
    ('a' <= c && c <= 'z') || ('A' <= c && c <= 'Z')
}

fn to_upper_char(c: char) -> (r: char)
    ensures
        r == upper_char(c),
{
    if 'a' <= c && c <= 'z' {
        let b: u8 = c as u8;
        (b - 32) as char
    } else {
        c
    }
}

/// Appends `s[from..]` to `out` with `a` replaced by `b`.
fn push_replaced(out: &mut Vec<char>, s: &[char], from: usize, a: char, b: char)
    requires
        from <= s.len(),
    ensures
        final(out)@ == old(out)@ + replace_char(s@.skip(from as int), a, b),
{
    let mut i: usize = from;
    while i < s.len()
        invariant
            from <= i <= s.len(),
            out@ == old(out)@ + replace_char(s@.subrange(from as int, i as int), a, b),
        decreases s.len() - i,
    {
        let c = s[i];
        out.push(if c == a {
            b
        } else {
            c
        });
        i += 1;
        proof {
            assert(replace_char(s@.subrange(from as int, i as int), a, b) =~= replace_char(
                s@.subrange(from as int, i - 1),
                a,
                b,
            ).push(if c == a {
                b
            } else {
                c
            }));
        }
    }
    proof {
        assert(s@.subrange(from as int, s.len() as int) =~= s@.skip(from as int));
    }
}

fn invalid(message: &str, path: &str) -> (e: AppError)
    ensures
        e.kind == AppErrorKind::InvalidInput,
        e.message@ == message@ + path@,
        e.path is None,
{
    AppError::new(AppErrorKind::InvalidInput, concat2(message, path))
}

/// Converts an absolute Windows path to its Linux form under `/mnt`; any
/// other input is refused as invalid.
pub fn windows_to_linux(path: &str) -> (r: AppResult<String>)
    ensures
        match r {
            Ok(s) => is_windows_absolute(path@) && s@ == linux_form(path@),
            Err(e) => !is_windows_absolute(path@) && e.kind == AppErrorKind::InvalidInput,
        },
{
    let p = chars_of(path);
    if !(p.len() >= 3 && is_letter(p[0]) && p[1] == ':' && p[2] == '\\') {
        return Err(invalid("ドライブ文字で始まる Windows の絶対パスではありません: ", path));
    }
    let mut out: Vec<char> = vec!['/', 'm', 'n', 't', '/'];
    out.push(to_lower_char(p[0]));
    out.push('/');
    push_replaced(&mut out, &p, 3, '\\', '/');
    proof {
        assert(out@ =~= linux_form(path@));
    }
    Ok(string_of(&out))
}

/// Converts a Linux path under `/mnt/<drive letter>` to its Windows form; any
/// other input is refused as invalid.
pub fn linux_to_windows(path: &str) -> (r: AppResult<String>)
    ensures
        match r {
            Ok(s) => is_mount_path(path@) && s@ == windows_form(path@),
            Err(e) => !is_mount_path(path@) && e.kind == AppErrorKind::InvalidInput,
        },
{
    let p = chars_of(path);
    let ok = p.len() >= 6 && p[0] == '/' && p[1] == 'm' && p[2] == 'n' && p[3] == 't' && p[4]
        == '/' && is_letter(p[5]) && (p.len() == 6 || p[6] == '/');
    proof {
        if p.len() >= 6 {
            assert(p@.take(5) == mnt_prefix() <==> (p@[0] == '/' && p@[1] == 'm' && p@[2] == 'n'
                && p@[3] == 't' && p@[4] == '/')) by {
                if p@[0] == '/' && p@[1] == 'm' && p@[2] == 'n' && p@[3] == 't' && p@[4] == '/' {
                    assert(p@.take(5) =~= mnt_prefix());
                }
            }
        }
    }
    if !ok {
        return Err(invalid("/mnt/<ドライブ文字> で始まる Linux のパスではありません: ", path));
    }
    let mut out: Vec<char> = Vec::new();
    out.push(to_upper_char(p[5]));
    out.push(':');
    out.push('\\');
    if p.len() > 7 {
        push_replaced(&mut out, &p, 7, '/', '\\');
    }
    proof {
        assert(out@ =~= windows_form(path@));
    }
    Ok(string_of(&out))
}

/// Converts a path in the given direction (see [`windows_to_linux`] and
/// [`linux_to_windows`]).
pub fn convert_path(path: &str, direction: ConvertDirection) -> (r: AppResult<String>)
    ensures
        match r {
            Ok(s) => converted(path@, direction) == Some(s@),
            Err(e) => converted(path@, direction) is None && e.kind == AppErrorKind::InvalidInput,
        },
{
    match direction {
        ConvertDirection::WindowsToLinux => windows_to_linux(path),
        ConvertDirection::LinuxToWindows => linux_to_windows(path),
    }
}

/// The Linux form of a Windows path holds no `\`.
pub proof fn law_linux_form_has_no_backslash(p: Seq<char>)
    requires
        is_windows_absolute(p),
    ensures
        !linux_form(p).contains('\\'),
{
    let l = linux_form(p);
    assert forall|i: int| 0 <= i < l.len() implies l[i] != '\\' by {
        if i >= 7 {
            assert(l[i] == replace_char(p.skip(3), '\\', '/')[i - 7]);
        }
    }
}

/// The Windows form of a mount path holds no `/`.
pub proof fn law_windows_form_has_no_slash(p: Seq<char>)
    requires
        is_mount_path(p),
    ensures
        !windows_form(p).contains('/'),
{
    let w = windows_form(p);
    assert forall|i: int| 0 <= i < w.len() implies w[i] != '/' by {
        if i >= 3 {
            assert(w[i] == replace_char(p.skip(7), '/', '\\')[i - 3]);
        }
    }
}

/// Converting a Windows path with an upper-case drive letter to Linux and
/// back gives the original path, as long as its rest holds no `/`.
pub proof fn law_windows_linux_roundtrip(p: Seq<char>)
    requires
        is_windows_absolute(p),
        'A' <= p[0] && p[0] <= 'Z',
        !p.skip(3).contains('/'),
    ensures
        is_mount_path(linux_form(p)),
        windows_form(linux_form(p)) == p,
{
    let l = linux_form(p);
    assert(l.take(5) =~= mnt_prefix());
    assert(l[5] == lower_char(p[0]));
    assert(upper_char(lower_char(p[0])) == p[0]);
    let rest = p.skip(3);
    if l.len() > 7 {
        assert(l.skip(7) =~= replace_char(rest, '\\', '/'));
        assert(replace_char(replace_char(rest, '\\', '/'), '/', '\\') =~= rest) by {
            assert forall|i: int| 0 <= i < rest.len() implies rest[i] != '/' by {
                assert(p.skip(3)[i] == rest[i]);
            }
        }
    } else {
        assert(rest.len() == 0);
    }
    assert(windows_form(l) =~= p);
}


/// Converting a mount path with a lower-case drive letter, followed by `/`,
/// to Windows and back gives the original path, as long as its rest holds
/// no `\`.
pub proof fn law_linux_windows_roundtrip(p: Seq<char>)
    requires
        is_mount_path(p),
        p.len() >= 7,
        'a' <= p[5] && p[5] <= 'z',
        !p.skip(7).contains('\\'),
    ensures
        is_windows_absolute(windows_form(p)),
        linux_form(windows_form(p)) == p,
{
    let w = windows_form(p);
    assert(lower_char(upper_char(p[5])) == p[5]);
    let rest = p.skip(7);
    if p.len() > 7 {
        assert(w.skip(3) =~= replace_char(rest, '/', '\\'));
        assert(replace_char(replace_char(rest, '/', '\\'), '\\', '/') =~= rest) by {
            assert forall|i: int| 0 <= i < rest.len() implies rest[i] != '\\' by {
                assert(p.skip(7)[i] == rest[i]);
            }
        }
    } else {
        assert(w.skip(3) =~= Seq::<char>::empty());
        assert(rest.len() == 0);
    }
    assert(p.take(5) =~= mnt_prefix());
    assert(p =~= mnt_prefix() + seq![p[5], '/'] + rest);
    assert(linux_form(w) =~= p);
}

} // verus!
