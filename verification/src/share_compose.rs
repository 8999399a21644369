//! Share composition: how a picture and its caption are laid out on a
//! canvas. The layout is planned here; drawing it is left to the caller.
//!
//! Text is measured in a simple way: a character of the ASCII range is half
//! as wide as the font is high, any other character as wide as it is high.

use crate::error::CaptureError;
use crate::shortcuts::same_text;
use crate::types::ShareTemplate;
use vstd::prelude::*;
use vstd::string::{StrSliceExecFns, StringExecFns};

verus! {

/// Warm background of a canvas.
pub const BG_WARM: [u8; 4] = [249, 249, 247, 255];

/// Colour of a caption.
pub const TEXT_DARK: [u8; 4] = [24, 24, 24, 255];

/// Colour of small print.
pub const TEXT_MUTED: [u8; 4] = [135, 134, 127, 255];

/// White, the background of a card and of a post.
pub const WHITE: [u8; 4] = [255, 255, 255, 255];

/// Colour of the border of a card.
pub const CARD_BORDER: [u8; 4] = [230, 228, 220, 255];

/// The template with the given name; an unknown name stands for the
/// caption below the picture.
pub open spec fn template_named(name: Seq<char>) -> ShareTemplate {
    if name == "card"@ {
        ShareTemplate::Card
    } else if name == "minimal"@ {
        ShareTemplate::Minimal
    } else if name == "social"@ {
        ShareTemplate::Social
    } else {
        ShareTemplate::CaptionBelow
    }
}

/// Finds the template with the given name.
pub fn template_from_name(name: &str) -> (template: ShareTemplate)
    ensures
        template == template_named(name@),
{
    if same_text(name, "card") {
        ShareTemplate::Card
    } else if same_text(name, "minimal") {
        ShareTemplate::Minimal
    } else if same_text(name, "social") {
        ShareTemplate::Social
    } else {
        ShareTemplate::CaptionBelow
    }
}

/// Width of a character in halves of the font size: one for a character of
/// the ASCII range, two for any other.
pub open spec fn char_units(c: char) -> int {
    if (c as u32) < 128 {
        1
    } else {
        2
    }
}

/// Width of a text in halves of the font size.
pub open spec fn text_units(text: Seq<char>) -> int
    decreases text.len(),
{
    if text.len() == 0 {
        0
    } else {
        text_units(text.drop_last()) + char_units(text.last())
    }
}

/// Width of a text in pixels at the given font size, fractions dropped, and
/// no more than 32 bits hold.
pub open spec fn measured_width(text: Seq<char>, font_size: u32) -> int {
    let width = text_units(text) * font_size / 2;
    if width > u32::MAX {
        u32::MAX as int
    } else {
        width
    }
}

/// The width of a text lies between zero and twice its length.
pub proof fn lemma_text_units_bound(text: Seq<char>)
    ensures
        0 <= text_units(text) <= 2 * text.len(),
    decreases text.len(),
{
    if text.len() > 0 {
        lemma_text_units_bound(text.drop_last());
    }
}

/// Width of a character in halves of the font size.
fn units_of(c: char) -> (units: u128)
    ensures
        units == char_units(c),
{
    if (c as u32) < 128 {
        1
    } else {
        2
    }
}

/// Counts the width of a text in halves of the font size.
fn count_units(text: &str) -> (units: u128)
    ensures
        units == text_units(text@),
        units <= 2 * text@.len(),
        text@.len() <= usize::MAX,
{
    let len = text.unicode_len();
    let mut units: u128 = 0;
    let mut i: usize = 0;
    assert(text@.subrange(0, 0) =~= Seq::<char>::empty());
    while i < len
        invariant
            len == text@.len(),
            i <= len,
            units == text_units(text@.subrange(0, i as int)),
            units <= 2 * i,
        decreases len - i,
    {
        let c = text.get_char(i);
        proof {
            assert(text@.subrange(0, i + 1).drop_last() =~= text@.subrange(0, i as int));
        }
        units = units + units_of(c);
        i += 1;
    }
    assert(text@.subrange(0, len as int) =~= text@);
    units
}

/// Width in pixels of a text of so many halves of the font size.
fn width_of_units(units: u128, font_size: u32) -> (width: u32)
    requires
        units <= 0x2_0000_0000_0000_0000,
    ensures
        width == if units * font_size / 2 > u32::MAX {
            u32::MAX as int
        } else {
            units * font_size / 2
        },
{
    assert(units * font_size <= 0x2_0000_0000_0000_0000 * 0xffff_ffff) by (nonlinear_arith)
        requires
            0 <= units <= 0x2_0000_0000_0000_0000,
            0 <= font_size <= 0xffff_ffff,
    ;
    let width: u128 = units * (font_size as u128) / 2;
    if width > u32::MAX as u128 {
        u32::MAX
    } else {
        width as u32
    }
}

/// Measures the width of a text in pixels at the given font size.
pub fn measure_text_width(text: &str, font_size: u32) -> (width: u32)
    ensures
        width == measured_width(text@, font_size),
{
    width_of_units(count_units(text), font_size)
}

/// Progress of wrapping a text: the finished lines, the line under way and
/// its width in halves of a pixel.
pub struct WrapState {
    pub lines: Seq<Seq<char>>,
    pub current: Seq<char>,
    pub width: int,
}

/// Takes one character into the wrapped text. A line feed ends the line
/// under way. Any other character joins it, after the line was ended if it
/// holds something and would become wider than the greatest width.
pub open spec fn wrap_step(state: WrapState, c: char, font_size: u32, max_width: u32) -> WrapState {
    if c == '\n' {
        WrapState { lines: state.lines.push(state.current), current: Seq::empty(), width: 0 }
    } else {
        let width = char_units(c) * font_size;
        if state.width + width > 2 * max_width && state.current.len() > 0 {
            WrapState { lines: state.lines.push(state.current), current: seq![c], width }
        } else {
            WrapState {
                lines: state.lines,
                current: state.current.push(c),
                width: state.width + width,
            }
        }
    }
}

/// The progress after the first `count` characters of a text.
pub open spec fn wrap_state(text: Seq<char>, count: nat, font_size: u32, max_width: u32) -> WrapState
    decreases count,
{
    if count == 0 {
        WrapState { lines: Seq::empty(), current: Seq::empty(), width: 0 }
    } else {
        wrap_step(
            wrap_state(text, (count - 1) as nat, font_size, max_width),
            text[count - 1],
            font_size,
            max_width,
        )
    }
}

/// The lines of a text wrapped to a greatest width: the finished lines, and
/// the line under way at the end unless it is empty.
pub open spec fn wrapped_lines(text: Seq<char>, font_size: u32, max_width: u32) -> Seq<Seq<char>> {
    let state = wrap_state(text, text.len(), font_size, max_width);
    if state.current.len() > 0 {
        state.lines.push(state.current)
    } else {
        state.lines
    }
}

/// While a text is wrapped, the line under way is as wide as the state
/// says, and it is wider than the greatest width only if it holds a single
/// character.
pub proof fn lemma_wrap_line_fits(text: Seq<char>, count: nat, font_size: u32, max_width: u32)
    requires
        count <= text.len(),
    ensures
        ({
            let state = wrap_state(text, count, font_size, max_width);
            &&& state.width == text_units(state.current) * font_size
            &&& state.width <= 2 * max_width || state.current.len() <= 1
        }),
    decreases count,
{
    if count > 0 {
        lemma_wrap_line_fits(text, (count - 1) as nat, font_size, max_width);
        let before = wrap_state(text, (count - 1) as nat, font_size, max_width);
        let c = text[count - 1];
        let after = wrap_step(before, c, font_size, max_width);
        if c != '\n' {
            let width = char_units(c) * font_size;
            if before.width + width > 2 * max_width && before.current.len() > 0 {
                assert(seq![c].drop_last() =~= Seq::<char>::empty());
                assert(seq![c].len() == 1);
                assert(seq![c].last() == c);
                assert(text_units(Seq::<char>::empty()) == 0);
                assert(text_units(seq![c]) == text_units(seq![c].drop_last()) + char_units(c));
            } else {
                assert(before.current.push(c).drop_last() =~= before.current);
                assert(text_units(after.current) * font_size == text_units(before.current)
                    * font_size + char_units(c) * font_size) by (nonlinear_arith)
                    requires
                        text_units(after.current) == text_units(before.current) + char_units(c),
                ;
                if before.current.len() == 0 {
                    assert(after.current.len() == 1);
                }
            }
        }
    }
}

/// The characters of lines, one line after the other.
pub open spec fn lines_text(lines: Seq<Seq<char>>) -> Seq<char>
    decreases lines.len(),
{
    if lines.len() == 0 {
        Seq::empty()
    } else {
        lines_text(lines.drop_last()) + lines.last()
    }
}

/// The text without its line feeds.
pub open spec fn without_line_feeds(text: Seq<char>) -> Seq<char>
    decreases text.len(),
{
    if text.len() == 0 {
        Seq::empty()
    } else if text.last() == '\n' {
        without_line_feeds(text.drop_last())
    } else {
        without_line_feeds(text.drop_last()).push(text.last())
    }
}

/// While a text is wrapped, the finished lines and the line under way hold
/// the characters taken so far, in their order and without the line feeds.
pub proof fn lemma_wrap_state_keeps_text(text: Seq<char>, count: nat, font_size: u32, max_width: u32)
    requires
        count <= text.len(),
    ensures
        ({
            let state = wrap_state(text, count, font_size, max_width);
            lines_text(state.lines) + state.current == without_line_feeds(
                text.subrange(0, count as int),
            )
        }),
    decreases count,
{
    if count == 0 {
        assert(text.subrange(0, 0) =~= Seq::<char>::empty());
        assert(lines_text(Seq::<Seq<char>>::empty()) + Seq::<char>::empty() =~= Seq::<
            char,
        >::empty());
    } else {
        lemma_wrap_state_keeps_text(text, (count - 1) as nat, font_size, max_width);
        let before = wrap_state(text, (count - 1) as nat, font_size, max_width);
        let after = wrap_state(text, count, font_size, max_width);
        let c = text[count - 1];
        let taken = text.subrange(0, count as int);
        assert(taken.drop_last() =~= text.subrange(0, count - 1));
        assert(taken.last() == c);
        let kept = without_line_feeds(text.subrange(0, count - 1));
        if c == '\n' {
            assert(after.lines.drop_last() =~= before.lines);
            assert(lines_text(after.lines) + after.current =~= kept);
        } else {
            let width = char_units(c) * font_size;
            if before.width + width > 2 * max_width && before.current.len() > 0 {
                assert(after.lines.drop_last() =~= before.lines);
                assert(lines_text(after.lines) + after.current =~= kept.push(c));
            } else {
                assert(lines_text(after.lines) + after.current =~= kept.push(c));
            }
        }
    }
}

/// Wrapping loses nothing: the lines of a wrapped text, one after the
/// other, are the text without its line feeds.
pub proof fn lemma_wrap_keeps_text(text: Seq<char>, font_size: u32, max_width: u32)
    ensures
        lines_text(wrapped_lines(text, font_size, max_width)) == without_line_feeds(text),
{
    lemma_wrap_state_keeps_text(text, text.len(), font_size, max_width);
    assert(text.subrange(0, text.len() as int) =~= text);
    let state = wrap_state(text, text.len(), font_size, max_width);
    if state.current.len() > 0 {
        assert(state.lines.push(state.current).drop_last() =~= state.lines);
    } else {
        assert(lines_text(state.lines) + state.current =~= lines_text(state.lines));
    }
}

/// Wraps a text into lines that are no wider than the greatest width, as
/// far as single characters allow. Line feeds in the text end a line.
pub fn wrap_text(text: &str, font_size: u32, max_width: u32) -> (lines: Vec<String>)
    ensures
        lines.deep_view() == wrapped_lines(text@, font_size, max_width),
{
    let len = text.unicode_len();
    let mut lines: Vec<String> = Vec::new();
    let mut start: usize = 0;
    let mut width: u128 = 0;
    let mut i: usize = 0;
    let limit: u128 = 2 * (max_width as u128);
    proof {
        assert(lines.deep_view() =~= Seq::<Seq<char>>::empty());
        assert(text@.subrange(0, 0) =~= Seq::<char>::empty());
    }
    while i < len
        invariant
            len == text@.len(),
            start <= i <= len,
            limit == 2 * max_width,
            width <= 2 * i * 0xffff_ffff,
            wrap_state(text@, i as nat, font_size, max_width) == (WrapState {
                lines: lines.deep_view(),
                current: text@.subrange(start as int, i as int),
                width: width as int,
            }),
        decreases len - i,
    {
        let c = text.get_char(i);
        let ghost before = lines.deep_view();
        let ghost current = text@.subrange(start as int, i as int);
        if c == '\n' {
            lines.push(String::from_str(text.substring_char(start, i)));
            start = i + 1;
            width = 0;
            proof {
                assert(lines.deep_view() =~= before.push(current));
                assert(text@.subrange(start as int, i + 1) =~= Seq::<char>::empty());
            }
        } else {
            let w: u128 = units_of(c) * (font_size as u128);
            assert(w <= 2 * 0xffff_ffff) by (nonlinear_arith)
                requires
                    w == char_units(c) * font_size,
                    1 <= char_units(c) <= 2,
                    font_size <= 0xffff_ffff,
            ;
            if width + w > limit && start < i {
                lines.push(String::from_str(text.substring_char(start, i)));
                start = i;
                width = w;
                proof {
                    assert(lines.deep_view() =~= before.push(current));
                    assert(text@.subrange(start as int, i + 1) =~= seq![c]);
                }
            } else {
                width = width + w;
                proof {
                    assert(text@.subrange(start as int, i + 1) =~= current.push(c));
                }
            }
        }
        i += 1;
    }
    if start < len {
        let ghost before = lines.deep_view();
        lines.push(String::from_str(text.substring_char(start, len)));
        assert(lines.deep_view() =~= before.push(text@.subrange(start as int, len as int)));
    }
    lines
}

/// One line of text on a canvas: the position of its top-left corner, the
/// font size, the colour and the text.
#[derive(Clone, Debug, PartialEq, Eq)]
pub struct TextItem {
    pub x: i64,
    pub y: i64,
    pub font_size: u32,
    pub color: [u8; 4],
    pub text: String,
}

/// Mathematical model of a line of text on a canvas.
pub struct TextItemView {
    pub x: int,
    pub y: int,
    pub font_size: u32,
    pub color: [u8; 4],
    pub text: Seq<char>,
}

impl View for TextItem {
    type V = TextItemView;

    open spec fn view(&self) -> TextItemView {
        TextItemView {
            x: self.x as int,
            y: self.y as int,
            font_size: self.font_size,
            color: self.color,
            text: self.text@,
        }
    }
}

/// A filled rectangle with a border of one pixel.
#[derive(Clone, Copy, Debug, PartialEq, Eq)]
pub struct CardFrame {
    pub x: u32,
    pub y: u32,
    pub width: u32,
    pub height: u32,
    pub fill: [u8; 4],
    pub border: [u8; 4],
}

/// The plan of a canvas: its size and background, the card on it if there
/// is one, where the picture goes, and the lines of text.
#[derive(Clone, Debug, PartialEq, Eq)]
pub struct ShareLayout {
    pub canvas_width: u32,
    pub canvas_height: u32,
    pub background: [u8; 4],
    pub card: Option<CardFrame>,
    pub image_x: u32,
    pub image_y: u32,
    pub texts: Vec<TextItem>,
}

/// Mathematical model of the plan of a canvas, with a size of any magnitude.
pub struct LayoutView {
    pub canvas_width: int,
    pub canvas_height: int,
    pub background: [u8; 4],
    pub card: Option<CardFrame>,
    pub image_x: int,
    pub image_y: int,
    pub texts: Seq<TextItemView>,
}

impl View for ShareLayout {
    type V = LayoutView;

    open spec fn view(&self) -> LayoutView {
        LayoutView {
            canvas_width: self.canvas_width as int,
            canvas_height: self.canvas_height as int,
            background: self.background,
            card: self.card,
            image_x: self.image_x as int,
            image_y: self.image_y as int,
            texts: Seq::new(self.texts@.len(), |i: int| self.texts@[i]@),
        }
    }
}

/// Lines of text below one another: all start in column `x`, the first in
/// row `top`, each `line_height` rows below the one before.
pub open spec fn stacked_texts(
    lines: Seq<Seq<char>>,
    x: int,
    top: int,
    line_height: int,
    font_size: u32,
    color: [u8; 4],
) -> Seq<TextItemView> {
    Seq::new(
        lines.len(),
        |i: int| TextItemView { x, y: top + i * line_height, font_size, color, text: lines[i] },
    )
}

/// The width less the given amount, but not less than zero.
pub open spec fn less(width: u32, amount: int) -> u32 {
    if width > amount {
        (width - amount) as u32
    } else {
        0
    }
}

/// Builds lines of text below one another.
fn stack_texts(
    lines: Vec<String>,
    x: i64,
    top: u64,
    line_height: u64,
    font_size: u32,
    color: [u8; 4],
) -> (texts: Vec<TextItem>)
    requires
        top <= 0x2_0000_0000,
        line_height <= 100,
        lines@.len() * 100 + 0x2_0000_0000 <= i64::MAX,
    ensures
        Seq::new(texts@.len(), |i: int| texts@[i]@) == stacked_texts(
            lines.deep_view(),
            x as int,
            top as int,
            line_height as int,
            font_size,
            color,
        ),
{
    let mut texts: Vec<TextItem> = Vec::new();
    let mut i: usize = 0;
    while i < lines.len()
        invariant
            i <= lines.len(),
            top <= 0x2_0000_0000,
            line_height <= 100,
            lines@.len() * 100 + 0x2_0000_0000 <= i64::MAX,
            texts@.len() == i,
            forall|k: int|
                0 <= k < i ==> (#[trigger] texts@[k])@ == (TextItemView {
                    x: x as int,
                    y: top + k * line_height,
                    font_size,
                    color,
                    text: lines@[k]@,
                }),
        decreases lines.len() - i,
    {
        assert(i * line_height <= lines@.len() * 100) by (nonlinear_arith)
            requires
                0 <= i < lines@.len(),
                0 <= line_height <= 100,
        ;
        let y: i64 = (top + (i as u64) * line_height) as i64;
        texts.push(TextItem { x, y, font_size, color, text: lines[i].clone() });
        i += 1;
    }
    assert(Seq::new(texts@.len(), |i: int| texts@[i]@) =~= stacked_texts(
        lines.deep_view(),
        x as int,
        top as int,
        line_height as int,
        font_size,
        color,
    ));
    texts
}

/// The height of a block of lines: nothing for no line where `collapse` is
/// set, else the line height for each line and the padding once.
pub open spec fn block_height(lines: int, line_height: int, padding: int, collapse: bool) -> int {
    if collapse && lines == 0 {
        0
    } else {
        lines * line_height + padding
    }
}

/// The plan for a caption below the picture on a warm background: the
/// picture in the top-left corner, the caption wrapped to the picture's
/// width less 24 pixels on either side, in a font of 28 pixels with lines 42
/// pixels apart, starting 12 pixels below the picture.
pub open spec fn caption_below_plan(width: u32, height: u32, caption: Seq<char>) -> LayoutView {
    let lines = wrapped_lines(caption, 28, less(width, 48));
    LayoutView {
        canvas_width: width as int,
        canvas_height: height + block_height(lines.len() as int, 42, 24, false) + 24,
        background: BG_WARM,
        card: None,
        image_x: 0,
        image_y: 0,
        texts: stacked_texts(lines, 24, height + 12, 42, 28, TEXT_DARK),
    }
}

/// The plan for a card: a white card with a border, 32 pixels from every
/// edge of a warm canvas; the picture 20 pixels inside the card; below it
/// the caption, wrapped to the picture's width less 20 pixels on either
/// side, in a font of 24 pixels with lines 36 pixels apart.
pub open spec fn card_plan(width: u32, height: u32, caption: Seq<char>) -> LayoutView {
    let lines = wrapped_lines(caption, 24, less(width, 40));
    let card_width = width + 40;
    let card_height = height + 40 + block_height(lines.len() as int, 36, 20, true);
    LayoutView {
        canvas_width: card_width + 64,
        canvas_height: card_height + 64,
        background: BG_WARM,
        card: Some(
            CardFrame {
                x: 32,
                y: 32,
                width: card_width as u32,
                height: card_height as u32,
                fill: WHITE,
                border: CARD_BORDER,
            },
        ),
        image_x: 52,
        image_y: 52,
        texts: stacked_texts(lines, 52, 52 + height + 10, 36, 24, TEXT_DARK),
    }
}

/// The plan for a post: on a white canvas at least 320 pixels wide the
/// caption at the top, wrapped to the canvas less 20 pixels on either side,
/// in a font of 22 pixels with lines 35 pixels apart; below it the picture,
/// centred; below that the note of origin, centred, in small print.
pub open spec fn social_plan(width: u32, height: u32, caption: Seq<char>) -> LayoutView {
    let content_width = if width > 320 {
        width
    } else {
        320u32
    };
    let lines = wrapped_lines(caption, 22, less(content_width, 40));
    let text_block = block_height(lines.len() as int, 35, 20, true);
    LayoutView {
        canvas_width: content_width as int,
        canvas_height: text_block + height + 32 + 20,
        background: WHITE,
        card: None,
        image_x: (content_width - width) / 2,
        image_y: text_block,
        texts: stacked_texts(lines, 20, 10, 35, 22, TEXT_DARK).push(
            TextItemView {
                x: (content_width - measured_width("via lovshot"@, 14)) / 2,
                y: text_block + height + 8,
                font_size: 14,
                color: TEXT_MUTED,
                text: "via lovshot"@,
            },
        ),
    }
}

/// What planning yields: the plan where the canvas is no wider and no
/// higher than an image can be, else an error.
pub open spec fn plan_result(plan: LayoutView) -> Result<LayoutView, CaptureError> {
    if plan.canvas_width <= u32::MAX && plan.canvas_height <= u32::MAX {
        Ok(plan)
    } else {
        Err(CaptureError::CanvasTooLarge)
    }
}

/// The model of the outcome of planning.
pub open spec fn layout_view(r: Result<ShareLayout, CaptureError>) -> Result<
    LayoutView,
    CaptureError,
> {
    match r {
        Ok(layout) => Ok(layout@),
        Err(e) => Err(e),
    }
}

/// Plans a caption below the picture.
pub fn compose_caption_below(width: u32, height: u32, caption: &str) -> (r: Result<
    ShareLayout,
    CaptureError,
>)
    ensures
        layout_view(r) == plan_result(caption_below_plan(width, height, caption@)),
{
    let max_text_width: u32 = if width > 48 {
        width - 48
    } else {
        0
    };
    let lines = wrap_text(caption, 28, max_text_width);
    let count = lines.len();
    if count > 0xffff_ffff {
        proof {
            assert(count * 42 > u32::MAX) by (nonlinear_arith)
                requires
                    count > 0xffff_ffff,
            ;
        }
        return Err(CaptureError::CanvasTooLarge);
    }
    let canvas_height: u64 = height as u64 + (count as u64 * 42 + 24) + 24;
    if canvas_height > u32::MAX as u64 {
        return Err(CaptureError::CanvasTooLarge);
    }
    let texts = stack_texts(lines, 24, height as u64 + 12, 42, 28, TEXT_DARK);
    Ok(
        ShareLayout {
            canvas_width: width,
            canvas_height: canvas_height as u32,
            background: BG_WARM,
            card: None,
            image_x: 0,
            image_y: 0,
            texts,
        },
    )
}

/// Plans a card.
pub fn compose_card(width: u32, height: u32, caption: &str) -> (r: Result<ShareLayout, CaptureError>)
    ensures
        layout_view(r) == plan_result(card_plan(width, height, caption@)),
{
    let max_text_width: u32 = if width > 40 {
        width - 40
    } else {
        0
    };
    let lines = wrap_text(caption, 24, max_text_width);
    let count = lines.len();
    if count > 0xffff_ffff {
        proof {
            assert(count * 36 > u32::MAX) by (nonlinear_arith)
                requires
                    count > 0xffff_ffff,
            ;
        }
        return Err(CaptureError::CanvasTooLarge);
    }
    let text_block: u64 = if count == 0 {
        0
    } else {
        count as u64 * 36 + 20
    };
    let card_width: u64 = width as u64 + 40;
    let card_height: u64 = height as u64 + 40 + text_block;
    if card_width + 64 > u32::MAX as u64 || card_height + 64 > u32::MAX as u64 {
        return Err(CaptureError::CanvasTooLarge);
    }
    let texts = stack_texts(lines, 52, 52 + height as u64 + 10, 36, 24, TEXT_DARK);
    Ok(
        ShareLayout {
            canvas_width: (card_width + 64) as u32,
            canvas_height: (card_height + 64) as u32,
            background: BG_WARM,
            card: Some(
                CardFrame {
                    x: 32,
                    y: 32,
                    width: card_width as u32,
                    height: card_height as u32,
                    fill: WHITE,
                    border: CARD_BORDER,
                },
            ),
            image_x: 52,
            image_y: 52,
            texts,
        },
    )
}

/// Plans a post.
pub fn compose_social(width: u32, height: u32, caption: &str) -> (r: Result<
    ShareLayout,
    CaptureError,
>)
    ensures
        layout_view(r) == plan_result(social_plan(width, height, caption@)),
{
    let content_width: u32 = if width > 320 {
        width
    } else {
        320
    };
    let lines = wrap_text(caption, 22, content_width - 40);
    let count = lines.len();
    if count > 0xffff_ffff {
        proof {
            assert(count * 35 > u32::MAX) by (nonlinear_arith)
                requires
                    count > 0xffff_ffff,
            ;
        }
        return Err(CaptureError::CanvasTooLarge);
    }
    let text_block: u64 = if count == 0 {
        0
    } else {
        count as u64 * 35 + 20
    };
    let canvas_height: u64 = text_block + height as u64 + 32 + 20;
    if canvas_height > u32::MAX as u64 {
        return Err(CaptureError::CanvasTooLarge);
    }
    let ghost stacked = stacked_texts(lines.deep_view(), 20, 10, 35, 22, TEXT_DARK);
    let mut texts = stack_texts(lines, 20, 10, 35, 22, TEXT_DARK);
    let note_width = measure_text_width("via lovshot", 14);
    let note = TextItem {
        x: (content_width as i64 - note_width as i64) / 2,
        y: (text_block + height as u64 + 8) as i64,
        font_size: 14,
        color: TEXT_MUTED,
        text: String::from_str("via lovshot"),
    };
    proof {
        lemma_text_units_bound("via lovshot"@);
        reveal_strlit("via lovshot");
        assert(note_width <= 320) by {
            assert(text_units("via lovshot"@) <= 22);
            assert(text_units("via lovshot"@) * 14 <= 22 * 14) by (nonlinear_arith)
                requires
                    text_units("via lovshot"@) <= 22,
            ;
        }
    }
    texts.push(note);
    let layout = ShareLayout {
        canvas_width: content_width,
        canvas_height: canvas_height as u32,
        background: WHITE,
        card: None,
        image_x: (content_width - width) / 2,
        image_y: text_block as u32,
        texts,
    };
    assert(layout@.texts =~= stacked.push(note@));
    Ok(layout)
}

/// The text with every line feed replaced by a space.
pub open spec fn flattened(text: Seq<char>) -> Seq<char> {
    Seq::new(
        text.len(),
        |i: int|
            if text[i] == '\n' {
                ' '
            } else {
                text[i]
            },
    )
}

/// Number of bytes of the text in UTF-8.
pub open spec fn byte_len(text: Seq<char>) -> nat {
    vstd::utf8::encode_utf8(text).len()
}

/// Number of characters that are kept of the first `count` characters of a
/// text when characters are dropped from its end for as long as it is wider
/// than the greatest width and longer than three bytes.
pub open spec fn kept_chars(text: Seq<char>, count: nat, font_size: u32, max_width: u32) -> nat
    decreases count,
{
    if count > 0 && measured_width(text.subrange(0, count as int), font_size) > max_width
        && byte_len(text.subrange(0, count as int)) > 3 {
        kept_chars(text, (count - 1) as nat, font_size, max_width)
    } else {
        count
    }
}

/// The one line that is shown of a caption: the caption without line feeds,
/// cut so that it fits, with an ellipsis at its end where it was cut.
pub open spec fn single_line(caption: Seq<char>, font_size: u32, max_width: u32) -> Seq<char> {
    let flat = flattened(caption);
    let kept = kept_chars(flat, flat.len(), font_size, max_width);
    if kept < flat.len() {
        flat.subrange(0, kept as int) + "\u{2026}"@
    } else {
        flat
    }
}

/// Half of a difference, rounded towards zero.
pub open spec fn half(d: int) -> int {
    if d >= 0 {
        d / 2
    } else {
        -((-d) / 2)
    }
}

/// The plan for one line of small print below the picture on a warm
/// background: the picture in the top-left corner, and 6 pixels below it the
/// caption in a single line of muted text in a font of 16 pixels, centred.
pub open spec fn minimal_plan(width: u32, height: u32, caption: Seq<char>) -> LayoutView {
    let line = single_line(caption, 16, less(width, 24));
    LayoutView {
        canvas_width: width as int,
        canvas_height: height + 36,
        background: BG_WARM,
        card: None,
        image_x: 0,
        image_y: 0,
        texts: seq![
            TextItemView {
                x: half(width - measured_width(line, 16)),
                y: height + 6,
                font_size: 16,
                color: TEXT_MUTED,
                text: line,
            },
        ],
    }
}

/// Replaces every line feed of a text by a space.
pub fn flatten(text: &str) -> (flat: String)
    ensures
        flat@ == flattened(text@),
{
    let len = text.unicode_len();
    let mut flat = String::new();
    let mut i: usize = 0;
    while i < len
        invariant
            len == text@.len(),
            i <= len,
            flat@ == flattened(text@).subrange(0, i as int),
        decreases len - i,
    {
        let c = text.get_char(i);
        let ghost before = flat@;
        if c == '\n' {
            flat.push(' ');
        } else {
            flat.push(c);
        }
        assert(flat@ =~= flattened(text@).subrange(0, i + 1));
        i += 1;
    }
    assert(flat@ =~= flattened(text@));
    flat
}

/// Cuts a text to one line that fits the greatest width.
pub fn fit_single_line(caption: &str, font_size: u32, max_width: u32) -> (line: String)
    ensures
        line@ == single_line(caption@, font_size, max_width),
{
    let flat = flatten(caption);
    let text = flat.as_str();
    let len = text.unicode_len();
    let mut units = count_units(text);
    let mut kept: usize = len;
    proof {
        assert(text@.subrange(0, len as int) =~= text@);
    }
    while kept > 0
        invariant
            len == text@.len(),
            kept <= len,
            units == text_units(text@.subrange(0, kept as int)),
            units <= 2 * kept,
            kept_chars(text@, len as nat, font_size, max_width) == kept_chars(
                text@,
                kept as nat,
                font_size,
                max_width,
            ),
        ensures
            kept <= len,
            kept_chars(text@, len as nat, font_size, max_width) == kept,
        decreases kept,
    {
        let prefix = text.substring_char(0, kept);
        let bytes = prefix.as_bytes().len();
        if !(width_of_units(units, font_size) > max_width && bytes > 3) {
            break ;
        }
        let c = text.get_char(kept - 1);
        proof {
            assert(text@.subrange(0, kept as int).drop_last() =~= text@.subrange(0, kept - 1));
            lemma_text_units_bound(text@.subrange(0, kept - 1));
        }
        units = units - units_of(c);
        kept = kept - 1;
    }
    if kept < len {
        let mut line = String::from_str(text.substring_char(0, kept));
        line.append("\u{2026}");
        line
    } else {
        flat
    }
}

/// Plans one line of small print below the picture.
pub fn compose_minimal(width: u32, height: u32, caption: &str) -> (r: Result<
    ShareLayout,
    CaptureError,
>)
    ensures
        layout_view(r) == plan_result(minimal_plan(width, height, caption@)),
{
    let max_width: u32 = if width > 24 {
        width - 24
    } else {
        0
    };
    let line = fit_single_line(caption, 16, max_width);
    let canvas_height: u64 = height as u64 + 36;
    if canvas_height > u32::MAX as u64 {
        return Err(CaptureError::CanvasTooLarge);
    }
    let text_width = measure_text_width(line.as_str(), 16);
    let difference: i64 = width as i64 - text_width as i64;
    let item = TextItem {
        x: difference / 2,
        y: height as i64 + 6,
        font_size: 16,
        color: TEXT_MUTED,
        text: line,
    };
    let mut texts: Vec<TextItem> = Vec::new();
    texts.push(item);
    let layout = ShareLayout {
        canvas_width: width,
        canvas_height: canvas_height as u32,
        background: BG_WARM,
        card: None,
        image_x: 0,
        image_y: 0,
        texts,
    };
    assert(layout@.texts =~= seq![item@]);
    Ok(layout)
}

/// The plan of the given template for a picture of the given size.
pub open spec fn share_plan(
    template: ShareTemplate,
    width: u32,
    height: u32,
    caption: Seq<char>,
) -> LayoutView {
    match template {
        ShareTemplate::CaptionBelow => caption_below_plan(width, height, caption),
        ShareTemplate::Card => card_plan(width, height, caption),
        ShareTemplate::Minimal => minimal_plan(width, height, caption),
        ShareTemplate::Social => social_plan(width, height, caption),
    }
}

/// Plans the canvas on which a picture of the given size is shared with a
/// caption.
pub fn compose_share_image(width: u32, height: u32, caption: &str, template: ShareTemplate) -> (r:
    Result<ShareLayout, CaptureError>)
    ensures
        layout_view(r) == plan_result(share_plan(template, width, height, caption@)),
{
    match template {
        ShareTemplate::CaptionBelow => compose_caption_below(width, height, caption),
        ShareTemplate::Card => compose_card(width, height, caption),
        ShareTemplate::Minimal => compose_minimal(width, height, caption),
        ShareTemplate::Social => compose_social(width, height, caption),
    }
}

} // verus!
