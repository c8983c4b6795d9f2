//! Resolution of the user-themes directory.
//!
//! On desktop the path is `solitaire_quest/themes` under the platform data
//! directory; on mobile and other targets it is the override the platform
//! entry point supplies, since sandboxing leaves no sensible default.

use vstd::prelude::*;

verus! {

/// How the platform writes paths.
#[derive(Debug, Clone, Copy, PartialEq, Eq, Structural)]
pub enum PathStyle {
    /// `/` separates components.
    Unix,
    /// `\` separates components (`/` is accepted too) and a path may start
    /// with a drive such as `C:`.
    Windows,
}

/// Whether `c` separates path components.
pub open spec fn is_separator(style: PathStyle, c: char) -> bool {
    c == '/' || (style == PathStyle::Windows && c == '\\')
}

/// The separator a join inserts.
pub open spec fn main_separator(style: PathStyle) -> char {
    match style {
        PathStyle::Unix => '/',
        PathStyle::Windows => '\\',
    }
}

/// `path` is a drive alone, such as `C:` (Windows only).
pub open spec fn is_bare_drive(style: PathStyle, path: Seq<char>) -> bool {
    &&& style == PathStyle::Windows
    &&& path.len() == 2
    &&& path[1] == ':'
    &&& (('a' <= path[0] && path[0] <= 'z') || ('A' <= path[0] && path[0] <= 'Z'))
}

/// `path` starts with a Windows verbatim prefix `\\?\`.
pub open spec fn is_verbatim(path: Seq<char>) -> bool {
    path.len() >= 4 && path[0] == '\\' && path[1] == '\\' && path[2] == '?' && path[3] == '\\'
}

/// `base` joined with the relative component `part`, as a path join does: a
/// separator goes between them unless `base` is empty, already ends with a
/// separator, or is a drive alone.
pub open spec fn join(style: PathStyle, base: Seq<char>, part: Seq<char>) -> Seq<char> {
    if base.len() > 0 && !is_separator(style, base.last()) && !is_bare_drive(style, base) {
        base.push(main_separator(style)) + part
    } else {
        base + part
    }
}

/// `data_dir` joined with `solitaire_quest`, then with `themes`.
pub open spec fn theme_dir_under(style: PathStyle, data_dir: Seq<char>) -> Seq<char> {
    join(style, join(style, data_dir, "solitaire_quest"@), "themes"@)
}

/// Records `path` as the user-themes directory unless one was recorded
/// already: the first caller wins and a later path is handed back in `Err`.
pub fn set_user_theme_dir(slot: &mut Option<String>, path: String) -> (r: Result<(), String>)
    ensures
        old(slot).is_none() ==> r is Ok && *final(slot) == Some(path),
        old(slot).is_some() ==> r == Err::<(), String>(path) && *final(slot) == *old(slot),
{
    if slot.is_some() {
        return Err(path);
    }
    *slot = Some(path);
    Ok(())
}

/// The kind of platform the game runs on, as far as the themes directory
/// is concerned.
#[derive(Debug, Clone, Copy, PartialEq, Eq, Structural)]
pub enum Platform {
    /// Linux, macOS or Windows: the OS reports a per-user data directory.
    Desktop,
    /// Android or iOS: the entry point must supply the directory.
    Mobile,
    /// Any other target: the embedder must supply the directory.
    Other,
}

/// The user-themes directory on `platform`. Desktop derives it from the
/// platform data directory and ignores any override; mobile and other
/// targets use the override the entry point recorded. The piece the
/// platform needs must be there (the data directory on desktop, the
/// override elsewhere): without it there is no directory to give.
pub fn user_theme_dir(
    platform: Platform,
    style: PathStyle,
    override_dir: Option<&str>,
    data_dir: Option<&str>,
) -> (p: String)
    requires
        platform == Platform::Desktop ==> (data_dir matches Some(d) && !(style
            == PathStyle::Windows && is_verbatim(d@))),
        platform != Platform::Desktop ==> override_dir is Some,
    ensures
        platform == Platform::Desktop ==> (data_dir matches Some(d) && p@ == theme_dir_under(
            style,
            d@,
        )),
        platform != Platform::Desktop ==> (override_dir matches Some(o) && p@ == o@),
{
    match platform {
        Platform::Desktop => user_theme_dir_for(data_dir.unwrap(), style),
        _ => String::from_str(override_dir.unwrap()),
    }
}

fn ascii_letter(c: char) -> (b: bool)
    ensures
        b == (('a' <= c && c <= 'z') || ('A' <= c && c <= 'Z')),
{
    ('a' <= c && c <= 'z') || ('A' <= c && c <= 'Z')
}

/// Appends `part` to `base` as [`join`] does.
fn push_component(base: &mut String, style: PathStyle, part: &str)
    ensures
        final(base)@ == join(style, old(base)@, part@),
{
    let n = base.as_str().unicode_len();
    if n > 0 {
        let last = base.as_str().get_char(n - 1);
        let sep = last == '/' || (style == PathStyle::Windows && last == '\\');
        let drive = style == PathStyle::Windows && n == 2 && base.as_str().get_char(1) == ':'
            && ascii_letter(base.as_str().get_char(0));
        if !sep && !drive {
            match style {
                PathStyle::Unix => base.append("/"),
                PathStyle::Windows => base.append("\\"),
            }
            proof {
                reveal_strlit("/");
                reveal_strlit("\\");
            }
        }
    }
    base.append(part);
    assert(final(base)@ =~= join(style, old(base)@, part@));
}

/// `data_dir` joined with `solitaire_quest` and then `themes`, as a path
/// join on a platform writing paths in `style` would (a Windows verbatim
/// `\\?\` path, which such a join rewrites, is not taken).
pub fn user_theme_dir_for(data_dir: &str, style: PathStyle) -> (p: String)
    requires
        !(style == PathStyle::Windows && is_verbatim(data_dir@)),
    ensures
        p@ == theme_dir_under(style, data_dir@),
{
    let mut p = String::from_str(data_dir);
    push_component(&mut p, style, "solitaire_quest");
    push_component(&mut p, style, "themes");
    p
}

} // verus!
