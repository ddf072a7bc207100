//! Preset descriptors, and the decisions around finding and naming presets.

use vstd::prelude::*;
use crate::paths::{join_path, join_spec};

verus! {

/// Where the published preset archive is fetched from.
pub const PRESETS_ZIP_URL: &'static str =
    "https://github.com/vladcraftcom/ai_prompt_presets/archive/refs/heads/main.zip";

/// The environment variable that may name the presets directory.
pub const PRESETS_PATH_ENV_VAR: &'static str = "AI_PROJECT_TEMPLATE_PRESETS_PATH";

/// The descriptor file inside each preset directory.
pub const PRESET_CONFIG_FILE: &'static str = "files_config.json";

/// What a project name must match before any further rule.
pub const PROJECT_NAME_PATTERN: &'static str = r"^[A-Za-z0-9][A-Za-z0-9._-]{0,63}$";

/// One project archetype: the layout to create, the files to copy, and the
/// README skeleton. `id` is the name of the directory the preset lives in.
#[derive(Debug, Clone)]
pub struct PresetConfig {
    pub id: String,
    pub name: String,
    pub description: String,
    pub directories: Vec<String>,
    pub templates: Vec<TemplateConfig>,
    pub empty_files: Vec<String>,
    pub readme_template: String,
    pub fields: Vec<FieldConfig>,
    pub options: Vec<OptionConfig>,
}

/// A file copied from the preset directory (`source`) into the project
/// (`destination`).
#[derive(Debug, Clone)]
pub struct TemplateConfig {
    pub source: String,
    pub destination: String,
}

/// An input the user fills in; its value replaces `{ID}` and `{id}` in the README.
#[derive(Debug, Clone)]
pub struct FieldConfig {
    pub id: String,
    pub label: String,
    pub required: bool,
    /// `text` or `select`.
    pub field_type: String,
    /// The choices of a `select` field.
    pub options: Option<Vec<String>>,
    pub description: Option<String>,
}

/// A boolean toggle offered with a preset.
#[derive(Debug, Clone)]
pub struct OptionConfig {
    pub id: String,
    pub label: String,
    pub default: bool,
    pub description: Option<String>,
}

/// What a directory listing says of one entry of the presets root.
#[derive(Debug, Clone)]
pub struct PresetDirEntry {
    /// The entry's file name, where it is valid UTF-8.
    pub name: Option<String>,
    pub is_dir: bool,
    /// Whether the entry holds a descriptor file.
    pub has_config: bool,
}

/// The name shown for a preset: its descriptor's name, or its id where the
/// descriptor could not be loaded.
pub fn get_preset_display_name(config: Option<&PresetConfig>, preset_id: &str) -> (r: String)
    ensures
        r@ == match config {
            Some(c) => c.name@,
            None => preset_id@,
        },
{
    match config {
        Some(c) => c.name.clone(),
        None => String::from_str(preset_id),
    }
}

pub open spec fn is_preset_entry(e: PresetDirEntry) -> bool {
    e.is_dir && e.has_config && e.name is Some
}

/// The ids of the presets in a listing, in listing order.
pub open spec fn preset_ids(listing: Seq<PresetDirEntry>) -> Seq<Seq<char>>
    decreases listing.len(),
{
    if listing.len() == 0 {
        Seq::empty()
    } else {
        let rest = preset_ids(listing.drop_last());
        let e = listing.last();
        if is_preset_entry(e) {
            rest.push(e.name->Some_0@)
        } else {
            rest
        }
    }
}

/// The presets of a root directory: the subdirectories that hold a descriptor.
pub fn discover_presets(listing: &Vec<PresetDirEntry>) -> (r: Vec<String>)
    ensures
        r.deep_view() == preset_ids(listing@),
{
    let mut r: Vec<String> = Vec::new();
    let mut i: usize = 0;
    while i < listing.len()
        invariant
            i <= listing@.len(),
            r.deep_view() == preset_ids(listing@.subrange(0, i as int)),
        decreases listing@.len() - i,
    {
        let e = &listing[i];
        proof {
            assert(listing@.subrange(0, i + 1).drop_last() =~= listing@.subrange(0, i as int));
        }
        if e.is_dir && e.has_config {
            match &e.name {
                Some(n) => {
                    r.push(n.clone());
                    assert(r.deep_view() =~= preset_ids(listing@.subrange(0, i as int)).push(n@));
                },
                None => {},
            }
        }
        i = i + 1;
    }
    assert(listing@.subrange(0, i as int) =~= listing@);
    r
}

/// `<home>/Documents/ai_prompt_presets`, with `.` for an unknown home.
pub open spec fn default_presets_path(home: Option<Seq<char>>) -> Seq<char> {
    let h = match home {
        Some(h) => h,
        None => seq!['.'],
    };
    join_spec(join_spec(h, "Documents"@), "ai_prompt_presets"@)
}

/// The presets directory to offer when none was saved.
pub fn get_default_presets_path(home: Option<&str>) -> (r: String)
    ensures
        r@ == default_presets_path(
            match home {
                Some(h) => Some(h@),
                None => None,
            },
        ),
{
    let here = ".";
    proof {
        reveal_strlit(".");
    }
    let h = match home {
        Some(h) => h,
        None => here,
    };
    let docs = join_path(h, "Documents");
    join_path(docs.as_str(), "ai_prompt_presets")
}

/// The Unicode `White_Space` characters, which `char::is_whitespace` accepts.
pub open spec fn is_white_space(c: char) -> bool {
    let u = c as u32;
    ||| 0x9 <= u && u <= 0xd
    ||| u == 0x20 || u == 0x85 || u == 0xa0 || u == 0x1680
    ||| 0x2000 <= u && u <= 0x200a
    ||| u == 0x2028 || u == 0x2029 || u == 0x202f || u == 0x205f || u == 0x3000
}

/// `s` without its leading white space.
pub open spec fn trim_start_spec(s: Seq<char>) -> Seq<char>
    decreases s.len(),
{
    if s.len() > 0 && is_white_space(s[0]) {
        trim_start_spec(s.drop_first())
    } else {
        s
    }
}

/// `s` without its trailing white space.
pub open spec fn trim_end_spec(s: Seq<char>) -> Seq<char>
    decreases s.len(),
{
    if s.len() > 0 && is_white_space(s.last()) {
        trim_end_spec(s.drop_last())
    } else {
        s
    }
}

/// `s` without leading and trailing white space.
pub open spec fn trimmed(s: Seq<char>) -> Seq<char> {
    trim_end_spec(trim_start_spec(s))
}

/// Relies on `str::trim`: the text without leading and trailing characters of
/// the Unicode `White_Space` property.
#[verifier::external_body]
fn trim_text(s: &str) -> (r: String)
    ensures
        r@ == trimmed(s@),
{
    s.trim().to_string()
}

/// The saved presets directory: the environment's value when it is set, else
/// the saved file's content without surrounding white space, unless that is empty.
pub fn choose_presets_path(env_value: Option<String>, saved: Option<String>) -> (r: Option<String>)
    ensures
        match env_value {
            Some(v) => r == Some(v),
            None => match saved {
                Some(s) => if trimmed(s@).len() > 0 {
                    r is Some && r->Some_0@ == trimmed(s@)
                } else {
                    r is None
                },
                None => r is None,
            },
        },
{
    match env_value {
        Some(v) => Some(v),
        None => match saved {
            Some(s) => {
                let t = trim_text(s.as_str());
                if t.unicode_len() > 0 {
                    Some(t)
                } else {
                    None
                }
            },
            None => None,
        },
    }
}

/// What `regex::Regex::new(pattern)` and then `is_match(text)` give: `None` where
/// the pattern does not compile.
pub uninterp spec fn regex_match(pattern: Seq<char>, text: Seq<char>) -> Option<bool>;

/// Relies on `regex::Regex::new` and `Regex::is_match`: whether `text` holds a
/// match of `pattern`, which depends on the two texts alone.
#[verifier::external_body]
fn regex_is_match(pattern: &str, text: &str) -> (r: Option<bool>)
    ensures
        r == regex_match(pattern@, text@),
{
    match regex::Regex::new(pattern) {
        Ok(re) => Some(re.is_match(text)),
        Err(_) => None,
    }
}

pub open spec fn ascii_upper(c: char) -> char {
    if 'a' <= c && c <= 'z' {
        ((c as u8) - 32u8) as char
    } else {
        c
    }
}

/// A device name that Windows reserves, compared without regard to ASCII case.
pub open spec fn is_reserved_device_name(name: Seq<char>) -> bool {
    let u = name.map_values(|c: char| ascii_upper(c));
    ||| u =~= seq!['C', 'O', 'N']
    ||| u =~= seq!['P', 'R', 'N']
    ||| u =~= seq!['A', 'U', 'X']
    ||| u =~= seq!['N', 'U', 'L']
    ||| (u.len() == 4 && (u.subrange(0, 3) =~= seq!['C', 'O', 'M'] || u.subrange(0, 3) =~= seq![
        'L',
        'P',
        'T',
    ]) && '1' <= u[3] && u[3] <= '9')
}

/// The rules a name must meet beyond the pattern.
pub open spec fn name_rules_hold(name: Seq<char>) -> bool {
    &&& !(name.len() > 0 && (name.last() == '.' || name.last() == ' '))
    &&& !is_reserved_device_name(name)
}

fn upper_char(c: char) -> (r: char)
    ensures
        r == ascii_upper(c),
{
    if 'a' <= c && c <= 'z' {
        ((c as u8) - 32u8) as char
    } else {
        c
    }
}

/// Whether a name that did (or did not) match the pattern is a safe project
/// directory name: no trailing dot or space, no reserved device name.
pub fn project_name_allowed(name: &str, pattern_matched: bool) -> (r: bool)
    ensures
        r == (pattern_matched && name_rules_hold(name@)),
{
    if !pattern_matched {
        return false;
    }
    let n = name.unicode_len();
    if n > 0 {
        let last = name.get_char(n - 1);
        if last == '.' || last == ' ' {
            return false;
        }
    }
    if n == 3 || n == 4 {
        let ghost u = name@.map_values(|c: char| ascii_upper(c));
        let a = upper_char(name.get_char(0));
        let b = upper_char(name.get_char(1));
        let c = upper_char(name.get_char(2));
        assert(u[0] == a && u[1] == b && u[2] == c);
        if n == 3 {
            let reserved = (a == 'C' && b == 'O' && c == 'N') || (a == 'P' && b == 'R' && c == 'N') || (
            a == 'A' && b == 'U' && c == 'X') || (a == 'N' && b == 'U' && c == 'L');
            assert(reserved == is_reserved_device_name(name@));
            return !reserved;
        } else {
            let d = upper_char(name.get_char(3));
            assert(u[3] == d);
            assert(u.subrange(0, 3) =~= seq![a, b, c]);
            let reserved = ((a == 'C' && b == 'O' && c == 'M') || (a == 'L' && b == 'P' && c == 'T'))
                && '1' <= d && d <= '9';
            assert(reserved == is_reserved_device_name(name@));
            return !reserved;
        }
    }
    true
}

/// Whether `name` can name a new project directory on any platform: it matches
/// `PROJECT_NAME_PATTERN` and meets `name_rules_hold`.
pub fn is_valid_project_name(name: &str) -> (r: bool)
    ensures
        r == (regex_match(PROJECT_NAME_PATTERN@, name@) == Some(true) && name_rules_hold(name@)),
{
    let m = regex_is_match(PROJECT_NAME_PATTERN, name);
    let matched = match m {
        Some(b) => b,
        None => false,
    };
    project_name_allowed(name, matched)
}

} // verus!
