//! What the preview of an SVG file decides on names: which files it is for, and what
//! its tab is called.

use crate::strings::file_name;
use crate::strings::spec_file_name;
use vstd::prelude::*;
use vstd::string::StrSliceExecFns;
use vstd::string::StringExecFns;

verus! {

/// What a preview shows.
#[derive(Clone, Copy, Debug, PartialEq, Eq, Structural)]
pub enum SvgPreviewMode {
    /// The preview will always show the contents of the provided editor.
    Default,
    /// The preview will "follow" the last active editor of an SVG file.
    Follow,
}

/// What a preview knows of the file it shows.
#[derive(Debug)]
pub struct SvgPreviewView {
    pub mode: SvgPreviewMode,
    /// The name of the file that is shown, if one is.
    pub file_name: Option<String>,
}

/// Place of the last `.` of `name` in front of place `upto`, or -1 where there is none.
pub open spec fn spec_last_dot(name: Seq<char>, upto: int) -> int
    decreases upto,
{
    if upto <= 0 {
        -1
    } else if upto <= name.len() && name[upto - 1] == '.' {
        upto - 1
    } else {
        spec_last_dot(name, upto - 1)
    }
}

/// The extension of the file at `path`: what follows the last `.` of its file name.
/// There is none for a path without file name, for a name without `.`, and for a name
/// whose only `.` is its first character.
pub open spec fn spec_extension(path: Seq<char>) -> Option<Seq<char>> {
    let name = spec_file_name(path);
    let dot = spec_last_dot(name, name.len() as int);
    if dot <= 0 {
        None
    } else {
        Some(name.subrange(dot + 1, name.len() as int))
    }
}

/// Whether `c` is the letter `lower`, in lower or upper case; `lower` is a lower-case
/// ASCII letter.
pub open spec fn spec_is_letter(c: char, lower: char) -> bool {
    c == lower || (c as u32) + 32 == lower as u32
}

/// Whether the file at `path` is an SVG file: its extension is `svg`, in any case.
pub open spec fn spec_is_svg_file(path: Seq<char>) -> bool {
    match spec_extension(path) {
        Some(extension) => extension.len() == 3 && spec_is_letter(extension[0], 's')
            && spec_is_letter(extension[1], 'v') && spec_is_letter(extension[2], 'g'),
        None => false,
    }
}

/// The name of the preview's tab: `Preview` and the name of the file, or `SVG Preview`
/// where no file is shown.
pub open spec fn spec_tab_content_text(file_name: Option<Seq<char>>) -> Seq<char> {
    match file_name {
        Some(name) => "Preview "@ + name,
        None => "SVG Preview"@,
    }
}

pub proof fn lemma_last_dot_bounds(name: Seq<char>, upto: int)
    requires
        0 <= upto <= name.len(),
    ensures
        -1 <= spec_last_dot(name, upto) < upto || (upto == 0 && spec_last_dot(name, upto) == -1),
    decreases upto,
{
    if upto > 0 && name[upto - 1] != '.' {
        lemma_last_dot_bounds(name, upto - 1);
    }
}

/// Whether `c` is the letter `lower`, in lower or upper case.
pub fn is_letter(c: char, lower: char) -> (same: bool)
    ensures
        same == spec_is_letter(c, lower),
{
    c == lower || (c as u32) < 0x10_FFFF && (c as u32) + 32 == lower as u32
}

/// The extension of the file at `path`.
pub fn extension(path: &str) -> (found: Option<String>)
    ensures
        match found {
            Some(found) => spec_extension(path@) == Some(found@),
            None => spec_extension(path@).is_none(),
        },
{
    let name = file_name(path);
    let name = name.as_str();
    let len = name.unicode_len();
    let mut upto: usize = len;
    proof {
        lemma_last_dot_bounds(name@, len as int);
    }
    while upto > 0 && name.get_char(upto - 1) != '.'
        invariant
            upto <= len,
            len == name@.len(),
            spec_last_dot(name@, upto as int) == spec_last_dot(name@, len as int),
        decreases upto,
    {
        upto = upto - 1;
    }
    if upto <= 1 {
        None
    } else {
        Some(String::from_str(name.substring_char(upto, len)))
    }
}

impl SvgPreviewView {
    /// Whether the file at `path` is an SVG file.
    pub fn is_svg_file(path: &str) -> (is_svg: bool)
        ensures
            is_svg == spec_is_svg_file(path@),
    {
        match extension(path) {
            Some(found) => {
                let found = found.as_str();
                found.unicode_len() == 3 && is_letter(found.get_char(0), 's') && is_letter(
                    found.get_char(1),
                    'v',
                ) && is_letter(found.get_char(2), 'g')
            },
            None => false,
        }
    }

    /// The name of the preview's tab.
    pub fn tab_content_text(&self) -> (text: String)
        ensures
            text@ == spec_tab_content_text(crate::strings::spec_option_view(self.file_name)),
    {
        match &self.file_name {
            Some(name) => {
                let mut text = String::from_str("Preview ");
                text.append(name.as_str());
                text
            },
            None => String::from_str("SVG Preview"),
        }
    }

    /// The name under which the opening of a preview is counted.
    pub fn telemetry_event_text(&self) -> (text: Option<&'static str>)
        ensures
            text matches Some(text) && text@ == "svg preview: open"@,
    {
        Some("svg preview: open")
    }
}

} // verus!
