//! Decisions of the window shell that need no window system to be made.

use crate::codec::{percent_encoded, url_encode};
use crate::types::Region;
use vstd::prelude::*;
use vstd::string::StringExecFns;

verus! {

/// The policy under which the application shows a Dock icon while it has
/// windows open.
pub const POLICY_REGULAR: i64 = 0;

/// The policy of a menu-bar application without a Dock icon.
pub const POLICY_ACCESSORY: i64 = 1;

/// What has to be done to put an activation policy into effect.
#[derive(Clone, Copy, Debug, PartialEq, Eq, Structural)]
pub struct ActivationPlan {
    /// The policy to hand to the system.
    pub policy: i64,
    /// Whether the Dock icon has to be set afterwards.
    pub set_dock_icon: bool,
}

/// Plans the switch to an activation policy: the policy is handed on as it
/// is, and the Dock icon is set after a switch to the regular policy.
pub fn set_activation_policy(policy: i64) -> (plan: ActivationPlan)
    ensures
        plan.policy == policy,
        plan.set_dock_icon == (policy == POLICY_REGULAR),
{
    ActivationPlan { policy, set_dock_icon: policy == POLICY_REGULAR }
}

/// Width of the panel that controls a scroll capture.
pub const PANEL_WIDTH: i64 = 320;

/// Height of the panel that controls a scroll capture.
pub const PANEL_HEIGHT: i64 = 420;

/// Space between the panel and the selected region.
pub const PANEL_MARGIN: i64 = 12;

/// Left edge of the control panel beside a region on a screen of the given
/// width: the margin to the right of the region where the panel fits there,
/// else the panel's width and the margin to the left of the region's left
/// edge, but not beyond the left edge of the screen.
pub open spec fn panel_left(screen_width: int, region: Region) -> int {
    let region_right = region.x + region.width;
    if screen_width - region_right >= PANEL_WIDTH + PANEL_MARGIN {
        region_right + PANEL_MARGIN
    } else if region.x - PANEL_WIDTH - PANEL_MARGIN > 0 {
        region.x - PANEL_WIDTH - PANEL_MARGIN
    } else {
        0
    }
}

/// Position of the control panel of a scroll capture: beside the selected
/// region, its top at the region's top.
pub fn scroll_overlay_position(screen_width: u32, region: &Region) -> (position: (i64, i64))
    ensures
        position.0 == panel_left(screen_width as int, *region),
        position.1 == region.y,
{
    let region_right: i64 = region.x as i64 + region.width as i64;
    let right_space: i64 = screen_width as i64 - region_right;
    let x: i64 = if right_space >= PANEL_WIDTH + PANEL_MARGIN {
        region_right + PANEL_MARGIN
    } else if region.x as i64 - PANEL_WIDTH - PANEL_MARGIN > 0 {
        region.x as i64 - PANEL_WIDTH - PANEL_MARGIN
    } else {
        0
    };
    (x, region.y as i64)
}

/// The address of the page that shows a saved picture for a moment.
pub open spec fn preview_address(image_path: Seq<char>) -> Seq<char> {
    "/preview.html?path="@ + percent_encoded(vstd::utf8::encode_utf8(image_path))
}

/// The address of the page on which a saved picture gets its caption.
pub open spec fn caption_address(image_path: Seq<char>) -> Seq<char> {
    preview_address(image_path) + "&mode=caption"@
}

/// Builds the address of the page that shows a saved picture for a moment.
pub fn preview_url(image_path: &str) -> (url: String)
    ensures
        url@ == preview_address(image_path@),
{
    let mut url = String::from_str("/preview.html?path=");
    let encoded = url_encode(image_path);
    url.append(encoded.as_str());
    url
}

/// Builds the address of the page on which a saved picture gets its caption.
pub fn caption_url(image_path: &str) -> (url: String)
    ensures
        url@ == caption_address(image_path@),
{
    let mut url = preview_url(image_path);
    url.append("&mode=caption");
    url
}

/// The character of a decimal digit.
pub open spec fn digit_char(digit: int) -> char {
    (0x30 + digit) as u8 as char
}

/// The decimal digits of a natural number, without leading zeros.
pub open spec fn decimal_digits(n: nat) -> Seq<char>
    decreases n,
{
    if n < 10 {
        seq![digit_char(n as int)]
    } else {
        decimal_digits(n / 10).push(digit_char((n % 10) as int))
    }
}

/// The decimal text of an integer, with a minus sign where it is negative.
pub open spec fn decimal_text(n: int) -> Seq<char> {
    if n < 0 {
        seq!['-'] + decimal_digits((-n) as nat)
    } else {
        decimal_digits(n as nat)
    }
}

/// Appends the decimal digits of a number to a text.
fn push_digits(text: &mut String, n: u64)
    ensures
        final(text)@ == old(text)@ + decimal_digits(n as nat),
    decreases n,
{
    if n >= 10 {
        push_digits(text, n / 10);
    }
    let digit: u8 = (n % 10) as u8;
    text.push((0x30 + digit) as char);
    proof {
        if n >= 10 {
            assert(final(text)@ =~= old(text)@ + decimal_digits((n / 10) as nat).push(
                digit_char((n % 10) as int),
            ));
        } else {
            assert(final(text)@ =~= old(text)@ + seq![digit_char(n as int)]);
        }
    }
}

/// Appends the decimal text of an integer to a text.
pub fn push_decimal(text: &mut String, n: i64)
    ensures
        final(text)@ == old(text)@ + decimal_text(n as int),
{
    if n < 0 {
        let ghost before = text@;
        text.push('-');
        let size: u64 = (-(n as i128)) as u64;
        push_digits(text, size);
        assert(final(text)@ =~= before + (seq!['-'] + decimal_digits((-n) as nat)));
    } else {
        push_digits(text, n as u64);
    }
}

/// The address of the page that frames the captured region: the region's
/// corner and size as parameters, and a mark where the frame stands still.
pub open spec fn overlay_address(region: Region, static_mode: bool) -> Seq<char> {
    "/overlay.html?x="@ + decimal_text(region.x as int) + "&y="@ + decimal_text(region.y as int)
        + "&w="@ + decimal_text(region.width as int) + "&h="@ + decimal_text(region.height as int)
        + if static_mode {
        "&static=1"@
    } else {
        Seq::empty()
    }
}

/// Builds the address of the page that frames the captured region.
pub fn overlay_url(region: &Region, static_mode: bool) -> (url: String)
    ensures
        url@ == overlay_address(*region, static_mode),
{
    let mut url = String::from_str("/overlay.html?x=");
    push_decimal(&mut url, region.x as i64);
    url.append("&y=");
    push_decimal(&mut url, region.y as i64);
    url.append("&w=");
    push_decimal(&mut url, region.width as i64);
    url.append("&h=");
    push_decimal(&mut url, region.height as i64);
    if static_mode {
        url.append("&static=1");
    }
    assert(url@ =~= overlay_address(*region, static_mode));
    url
}

} // verus!
