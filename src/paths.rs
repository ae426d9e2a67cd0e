//! Where the game's mods directory lives.
//!
//! Paths are held as strings. A segment is joined with `/`, which every
//! supported platform accepts; `/` and `\` are both taken as separators
//! already present.

use vstd::prelude::*;

verus! {

/// A character that separates path segments.
pub open spec fn is_separator(c: char) -> bool {
    c == '/' || c == '\\'
}

/// The character classes that `char::is_whitespace` accepts: the Unicode
/// `White_Space` property.
pub open spec fn is_white_space(c: char) -> bool {
    let u = c as u32;
    (0x9 <= u && u <= 0xd) || u == 0x20 || u == 0x85 || u == 0xa0 || u == 0x1680 || (0x2000 <= u
        && u <= 0x200a) || u == 0x2028 || u == 0x2029 || u == 0x202f || u == 0x205f || u == 0x3000
}

/// `s` without its leading white space.
pub open spec fn trim_start_spec(s: Seq<char>) -> Seq<char>
    decreases s.len(),
{
    if s.len() > 0 && is_white_space(s[0]) {
        trim_start_spec(s.subrange(1, s.len() as int))
    } else {
        s
    }
}

/// `s` without its trailing white space.
pub open spec fn trim_end_spec(s: Seq<char>) -> Seq<char>
    decreases s.len(),
{
    if s.len() > 0 && is_white_space(s.last()) {
        trim_end_spec(s.drop_last())
    } else {
        s
    }
}

/// `s` without white space at either end.
pub open spec fn trim_spec(s: Seq<char>) -> Seq<char> {
    trim_end_spec(trim_start_spec(s))
}

/// `s` without its trailing separators.
pub open spec fn strip_separators_spec(s: Seq<char>) -> Seq<char>
    decreases s.len(),
{
    if s.len() > 0 && is_separator(s.last()) {
        strip_separators_spec(s.drop_last())
    } else {
        s
    }
}

/// `seg` appended to `base`, with one `/` between them unless `base` is
/// empty or already ends with a separator.
pub open spec fn join_spec(base: Seq<char>, seg: Seq<char>) -> Seq<char> {
    if base.len() == 0 || is_separator(base.last()) {
        base + seg
    } else {
        base.push('/') + seg
    }
}

pub open spec fn mods_segment() -> Seq<char> {
    seq!['m', 'o', 'd', 's']
}

pub open spec fn game_segment() -> Seq<char> {
    seq!['.', 'm', 'i', 'n', 'e', 'c', 'r', 'a', 'f', 't']
}

/// The mods directory named by an override file's content, when it names one:
/// the content trimmed, without trailing separators, joined with `mods`.
pub open spec fn override_path_spec(content: Seq<char>) -> Option<Seq<char>> {
    let t = trim_spec(content);
    if t.len() == 0 {
        None
    } else {
        Some(join_spec(strip_separators_spec(t), mods_segment()))
    }
}

/// The default mods directory under an application-data directory.
pub open spec fn default_path_spec(app_data: Seq<char>) -> Seq<char> {
    join_spec(join_spec(app_data, game_segment()), mods_segment())
}

/// Relies on `str::trim`: removes leading and trailing characters for which
/// `char::is_whitespace` holds, and nothing else.
#[verifier::external_body]
fn trim_white_space(s: &str) -> (r: String)
    ensures
        r@ == trim_spec(s@),
{
    s.trim().to_string()
}

/// `seg` joined onto `base` (see `join_spec`).
pub fn join_path(base: &str, seg: &str) -> (r: String)
    ensures
        r@ == join_spec(base@, seg@),
{
    let n = base.unicode_len();
    let mut r = String::from_str(base);
    if n > 0 {
        let c = base.get_char(n - 1);
        if c != '/' && c != '\\' {
            proof {
                reveal_strlit("/");
            }
            r.append("/");
        }
    }
    r.append(seg);
    r
}

/// `s` without its trailing separators.
pub fn strip_separators(s: &str) -> (r: String)
    ensures
        r@ == strip_separators_spec(s@),
{
    let mut end: usize = s.unicode_len();
    let mut done = false;
    assert(s@.subrange(0, s@.len() as int) =~= s@);
    while !done
        invariant
            end <= s@.len(),
            strip_separators_spec(s@.subrange(0, end as int)) == strip_separators_spec(s@),
            done ==> strip_separators_spec(s@.subrange(0, end as int)) == s@.subrange(0, end as int),
        decreases end + (if done { 0int } else { 1int }),
    {
        if end == 0 {
            done = true;
        } else {
            let c = s.get_char(end - 1);
            if c == '/' || c == '\\' {
                assert(s@.subrange(0, end as int).drop_last() =~= s@.subrange(0, end as int - 1));
                end = end - 1;
            } else {
                done = true;
            }
        }
    }
    let r = String::from_str(s.substring_char(0, end));
    r
}

/// What the environment holds for the application-data directory.
pub enum AppData {
    /// The variable is not set.
    Unset,
    /// The variable is set but is not valid Unicode.
    NotUnicode,
    /// The variable's value.
    Value(String),
}

/// Why no mods directory could be resolved.
#[derive(Debug, Clone, Copy, PartialEq, Eq, Structural)]
pub enum PathError {
    AppDataMissing,
    AppDataNotUnicode,
}

/// The mods directory named by an override file's content, or `None` when the
/// content is blank.
pub fn override_mods_path(content: &str) -> (r: Option<String>)
    ensures
        match r {
            Some(p) => override_path_spec(content@) == Some(p@),
            None => override_path_spec(content@) is None,
        },
{
    let t = trim_white_space(content);
    if t.unicode_len() == 0 {
        None
    } else {
        let base = strip_separators(t.as_str());
        proof {
            reveal_strlit("mods");
        }
        Some(join_path(base.as_str(), "mods"))
    }
}

/// The default mods directory, `.minecraft/mods` under `app_data`.
pub fn default_mods_path(app_data: &str) -> (r: String)
    ensures
        r@ == default_path_spec(app_data@),
{
    proof {
        reveal_strlit(".minecraft");
        reveal_strlit("mods");
    }
    let game = join_path(app_data, ".minecraft");
    join_path(game.as_str(), "mods")
}

/// The mods directory: the override when its content names one, else the
/// default under the application-data directory, which must then be set and
/// be valid Unicode.
pub fn resolve_mods_path(override_content: Option<&str>, app_data: &AppData) -> (r: Result<
    String,
    PathError,
>)
    ensures
        match override_content {
            Some(c) if override_path_spec(c@) is Some => r matches Ok(p) && Some(p@)
                == override_path_spec(c@),
            _ => match app_data {
                AppData::Value(v) => r matches Ok(p) && p@ == default_path_spec(v@),
                AppData::Unset => r == Err::<String, PathError>(PathError::AppDataMissing),
                AppData::NotUnicode => r == Err::<String, PathError>(PathError::AppDataNotUnicode),
            },
        },
{
    if let Some(c) = override_content {
        if let Some(p) = override_mods_path(c) {
            return Ok(p);
        }
    }
    match app_data {
        AppData::Value(v) => Ok(default_mods_path(v.as_str())),
        AppData::Unset => Err(PathError::AppDataMissing),
        AppData::NotUnicode => Err(PathError::AppDataNotUnicode),
    }
}

}
