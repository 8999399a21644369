//! Title bars: how high the bar above a window's content is taken to be.
//! Known applications have a fixed height; for the others the height is
//! measured through the accessibility interface by the caller, and a
//! default stands in where that fails.

use crate::codec::{lowercased, to_lowercase};
use crate::raster::lemma_len_fits;
use vstd::prelude::*;
use vstd::string::StrSliceExecFns;

verus! {

/// Height of the title bar of a standard window.
pub const STANDARD_TITLEBAR: u32 = 28;

/// Height of the title bar and toolbar of a standard application.
pub const STANDARD_TOOLBAR: u32 = 52;

/// How the height of a window's title bar is found.
#[derive(Clone, Copy, Debug, PartialEq, Eq, Structural)]
pub enum TitlebarRule {
    /// The height is known for the application.
    Preset(u32),
    /// The height is measured; where that fails it is the fallback.
    Detect { fallback: u32 },
}

/// Whether `needle` occurs in `text` as a run of characters.
pub open spec fn occurs_in(needle: Seq<char>, text: Seq<char>) -> bool {
    exists|i: int|
        0 <= i && i + needle.len() <= text.len() && #[trigger] text.subrange(
            i,
            i + needle.len(),
        ) == needle
}

/// The rule for an application whose name, in lowercase, is given: fixed
/// heights for browsers and for some applications that draw their own title
/// bar, measurement for the standard applications with the toolbar height as
/// fallback, and measurement with the plain title bar as fallback for all
/// others. The first name that occurs decides.
pub open spec fn rule_for_name(name: Seq<char>) -> TitlebarRule {
    if occurs_in("chrome"@, name) || occurs_in("chromium"@, name) {
        TitlebarRule::Preset(87)
    } else if occurs_in("edge"@, name) {
        TitlebarRule::Preset(87)
    } else if occurs_in("firefox"@, name) {
        TitlebarRule::Preset(75)
    } else if occurs_in("safari"@, name) {
        TitlebarRule::Preset(52)
    } else if occurs_in("arc"@, name) {
        TitlebarRule::Preset(50)
    } else if occurs_in("code"@, name) || occurs_in("vscode"@, name) {
        TitlebarRule::Preset(87)
    } else if occurs_in("slack"@, name) {
        TitlebarRule::Preset(38)
    } else if occurs_in("discord"@, name) {
        TitlebarRule::Preset(22)
    } else if occurs_in("notion"@, name) {
        TitlebarRule::Preset(45)
    } else if occurs_in("finder"@, name) || occurs_in("preview"@, name) || occurs_in(
        "notes"@,
        name,
    ) || occurs_in("mail"@, name) || occurs_in("messages"@, name) || occurs_in("terminal"@, name)
        || occurs_in("iterm"@, name) {
        TitlebarRule::Detect { fallback: STANDARD_TOOLBAR }
    } else {
        TitlebarRule::Detect { fallback: STANDARD_TITLEBAR }
    }
}

/// The rule for an application with the given name, if its name is known.
pub open spec fn rule_for_app(app_name: Option<Seq<char>>) -> TitlebarRule {
    match app_name {
        Some(name) => rule_for_name(lowercased(name)),
        None => TitlebarRule::Detect { fallback: STANDARD_TITLEBAR },
    }
}

/// The height under a rule, given what the measurement found.
pub open spec fn height_under(rule: TitlebarRule, detected: Option<u32>) -> u32 {
    match rule {
        TitlebarRule::Preset(height) => height,
        TitlebarRule::Detect { fallback } => match detected {
            Some(height) => height,
            None => fallback,
        },
    }
}

/// The characters of a text.
fn chars_of(text: &str) -> (chars: Vec<char>)
    ensures
        chars@ == text@,
{
    let len = text.unicode_len();
    let mut chars: Vec<char> = Vec::new();
    let mut i: usize = 0;
    while i < len
        invariant
            len == text@.len(),
            i <= len,
            chars@ == text@.subrange(0, i as int),
        decreases len - i,
    {
        chars.push(text.get_char(i));
        assert(chars@ =~= text@.subrange(0, i + 1));
        i += 1;
    }
    assert(text@.subrange(0, len as int) =~= text@);
    chars
}

/// Whether the needle stands in the text at the given place.
fn matches_at(text: &Vec<char>, needle: &Vec<char>, at: usize) -> (found: bool)
    requires
        at + needle@.len() <= text@.len(),
    ensures
        found == (text@.subrange(at as int, at + needle@.len()) == needle@),
{
    proof {
        lemma_len_fits(text);
    }
    let mut k: usize = 0;
    while k < needle.len()
        invariant
            k <= needle@.len(),
            at + needle@.len() <= text@.len(),
            text@.len() <= usize::MAX,
            forall|j: int| 0 <= j < k ==> text@[at + j] == needle@[j],
        decreases needle@.len() - k,
    {
        if text[at + k] != needle[k] {
            assert(text@.subrange(at as int, at + needle@.len())[k as int] != needle@[k as int]);
            return false;
        }
        k += 1;
    }
    assert(text@.subrange(at as int, at + needle@.len()) =~= needle@);
    true
}

/// Tells whether `needle` occurs in `text`.
pub fn contains_text(text: &str, needle: &str) -> (found: bool)
    ensures
        found == occurs_in(needle@, text@),
{
    let hay = chars_of(text);
    let pin = chars_of(needle);
    if pin.len() > hay.len() {
        return false;
    }
    let last: usize = hay.len() - pin.len();
    let mut i: usize = 0;
    loop
        invariant
            last == hay@.len() - pin@.len(),
            i <= last,
            hay@ == text@,
            pin@ == needle@,
            forall|j: int| 0 <= j < i ==> #[trigger] hay@.subrange(j, j + pin@.len()) != pin@,
        decreases last - i,
    {
        if matches_at(&hay, &pin, i) {
            return true;
        }
        if i == last {
            return false;
        }
        i += 1;
    }
}

/// Finds the rule for an application whose name is given in lowercase.
pub fn titlebar_rule_for_name(name_lower: &str) -> (rule: TitlebarRule)
    ensures
        rule == rule_for_name(name_lower@),
{
    if contains_text(name_lower, "chrome") || contains_text(name_lower, "chromium") {
        return TitlebarRule::Preset(87);
    }
    if contains_text(name_lower, "edge") {
        return TitlebarRule::Preset(87);
    }
    if contains_text(name_lower, "firefox") {
        return TitlebarRule::Preset(75);
    }
    if contains_text(name_lower, "safari") {
        return TitlebarRule::Preset(52);
    }
    if contains_text(name_lower, "arc") {
        return TitlebarRule::Preset(50);
    }
    if contains_text(name_lower, "code") || contains_text(name_lower, "vscode") {
        return TitlebarRule::Preset(87);
    }
    if contains_text(name_lower, "slack") {
        return TitlebarRule::Preset(38);
    }
    if contains_text(name_lower, "discord") {
        return TitlebarRule::Preset(22);
    }
    if contains_text(name_lower, "notion") {
        return TitlebarRule::Preset(45);
    }
    if contains_text(name_lower, "finder") || contains_text(name_lower, "preview") || contains_text(
        name_lower,
        "notes",
    ) || contains_text(name_lower, "mail") || contains_text(name_lower, "messages")
        || contains_text(name_lower, "terminal") || contains_text(name_lower, "iterm") {
        return TitlebarRule::Detect { fallback: STANDARD_TOOLBAR };
    }
    TitlebarRule::Detect { fallback: STANDARD_TITLEBAR }
}

/// Finds the rule for the application that owns a window.
pub fn titlebar_rule(app_name: Option<&str>) -> (rule: TitlebarRule)
    ensures
        rule == rule_for_app(
            match app_name {
                Some(name) => Some(name@),
                None => None,
            },
        ),
{
    match app_name {
        Some(name) => {
            let lower = to_lowercase(name);
            titlebar_rule_for_name(lower.as_str())
        },
        None => TitlebarRule::Detect { fallback: STANDARD_TITLEBAR },
    }
}

/// The height of the title bar under a rule, given what the measurement
/// found. A preset height needs no measurement.
pub fn titlebar_height(rule: TitlebarRule, detected: Option<u32>) -> (height: u32)
    ensures
        height == height_under(rule, detected),
{
    match rule {
        TitlebarRule::Preset(height) => height,
        TitlebarRule::Detect { fallback } => match detected {
            Some(height) => height,
            None => fallback,
        },
    }
}

} // verus!
