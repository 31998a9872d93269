//! Theme identities and metadata.

use vstd::prelude::*;
use crate::replication::texts;
use crate::value::text_eq;

verus! {

/// The colours a theme sets, by role; `extra` holds any further named
/// colours.
pub struct ThemeColors {
    pub brand_bg: String,
    pub brand_card: String,
    pub brand_border: String,
    pub brand_text_main: String,
    pub brand_text_muted: String,
    pub brand_primary: String,
    pub brand_open: String,
    pub brand_closed: String,
    pub brand_danger: String,
    pub extra: Vec<(String, String)>,
}

pub struct ThemeFontConfig {
    pub family: String,
    pub import_url: Option<String>,
}

pub struct WidgetPosition {
    pub col: u32,
    pub row: u32,
    pub col_span: Option<u32>,
    pub row_span: Option<u32>,
}

/// A theme as the theme list shows it.
pub struct ThemeMetadata {
    pub id: String,
    pub name: String,
    pub description: String,
    pub version: String,
    pub author: String,
    pub preview_url: Option<String>,
    pub installed: bool,
}

/// Whether a text holds `..`.
pub open spec fn has_parent_ref(s: Seq<char>) -> bool {
    exists|i: int| 0 <= i < s.len() - 1 && s[i] == '.' && #[trigger] s[i + 1] == '.'
}

/// Whether a path inside a theme holds `..`, which could leave the theme.
pub fn contains_parent_ref(s: &str) -> (r: bool)
    ensures
        r == has_parent_ref(s@),
{
    let n = s.unicode_len();
    if n < 2 {
        return false;
    }
    let mut i: usize = 0;
    while i + 1 < n
        invariant
            n == s@.len(),
            n >= 2,
            i + 1 <= n,
            forall|j: int| 0 <= j < i ==> !(s@[j] == '.' && #[trigger] s@[j + 1] == '.'),
        decreases n - i,
    {
        if s.get_char(i) == '.' && s.get_char(i + 1) == '.' {
            return true;
        }
        i = i + 1;
    }
    false
}

fn contains_char(s: &str, c: char) -> (r: bool)
    ensures
        r == s@.contains(c),
{
    let n = s.unicode_len();
    let mut i: usize = 0;
    while i < n
        invariant
            n == s@.len(),
            i <= n,
            forall|j: int| 0 <= j < i ==> s@[j] != c,
        decreases n - i,
    {
        if s.get_char(i) == c {
            return true;
        }
        i = i + 1;
    }
    false
}

/// A theme id names a directory of its own: no `..`, `/` or `\`.
pub open spec fn is_plain_theme_id(id: Seq<char>) -> bool {
    !has_parent_ref(id) && !id.contains('/') && !id.contains('\\')
}

/// Whether a theme id names a directory of its own.
pub fn is_valid_theme_id(id: &str) -> (r: bool)
    ensures
        r == is_plain_theme_id(id@),
{
    !contains_parent_ref(id) && !contains_char(id, '/') && !contains_char(id, '\\')
}

/// Why a theme may not be deleted, if it may not: the built-in theme, or an
/// id that is not plain.
pub fn delete_theme_refusal(id: &str) -> (r: Option<&'static str>)
    ensures
        id@ == "default"@ ==> r == Some("Cannot delete default theme"),
        id@ != "default"@ && !is_plain_theme_id(id@) ==> r == Some("Invalid theme ID"),
        id@ != "default"@ && is_plain_theme_id(id@) ==> r is None,
{
    if text_eq(id, "default") {
        Some("Cannot delete default theme")
    } else if !is_valid_theme_id(id) {
        Some("Invalid theme ID")
    } else {
        None
    }
}

/// The theme to load from the selection in the settings: none for no
/// selection, an empty one or the built-in theme.
pub fn active_theme_id(selected: Option<String>) -> (r: Option<String>)
    ensures
        r == match selected {
            Some(id) => if id@.len() > 0 && id@ != "default"@ { Some(id) } else { None },
            None => None,
        },
{
    match selected {
        Some(id) => {
            if id.unicode_len() > 0 && !text_eq(id.as_str(), "default") {
                Some(id)
            } else {
                None
            }
        },
        None => None,
    }
}

pub open spec fn theme_prefix() -> Seq<char> {
    "theme-"@
}

/// The metadata of the theme that repository `repo_name` holds, if its
/// name starts with `theme-`: its id is the rest of the name.
pub fn theme_from_repo(
    repo_name: &str,
    description: Option<&str>,
    owner: Option<&str>,
    installed_ids: &Vec<String>,
) -> (r: Option<ThemeMetadata>)
    ensures
        match r {
            None => !(repo_name@.len() >= 6 && repo_name@.subrange(0, 6) == theme_prefix()),
            Some(m) => {
                &&& repo_name@.len() >= 6 && repo_name@.subrange(0, 6) == theme_prefix()
                &&& m.id@ == repo_name@.subrange(6, repo_name@.len() as int)
                &&& m.name@ == match description {
                    Some(d) => d@,
                    None => repo_name@,
                }
                &&& m.description@ == match description {
                    Some(d) => d@,
                    None => Seq::<char>::empty(),
                }
                &&& m.version@.len() == 0
                &&& m.author@ == match owner {
                    Some(o) => o@,
                    None => "IssuerTheme"@,
                }
                &&& m.preview_url is None
                &&& m.installed == texts(installed_ids@).contains(m.id@)
            },
        },
{
    proof {
        reveal_strlit("theme-");
    }
    let n = repo_name.unicode_len();
    if n < 6 {
        return None;
    }
    if !text_eq(repo_name.substring_char(0, 6), "theme-") {
        return None;
    }
    let id = String::from_str(repo_name.substring_char(6, n));
    let mut installed = false;
    let mut i: usize = 0;
    while i < installed_ids.len()
        invariant
            i <= installed_ids@.len(),
            installed ==> texts(installed_ids@).contains(id@),
            !installed ==> forall|j: int| 0 <= j < i ==> texts(installed_ids@)[j] != id@,
        decreases installed_ids.len() - i,
    {
        if text_eq(installed_ids[i].as_str(), id.as_str()) {
            installed = true;
            assert(texts(installed_ids@)[i as int] == id@);
        }
        i = i + 1;
    }
    let name = match description {
        Some(d) => String::from_str(d),
        None => String::from_str(repo_name),
    };
    let desc = match description {
        Some(d) => String::from_str(d),
        None => String::new(),
    };
    let author = match owner {
        Some(o) => String::from_str(o),
        None => String::from_str("IssuerTheme"),
    };
    Some(ThemeMetadata { id, name, description: desc, version: String::new(), author, preview_url: None, installed })
}

} // verus!
