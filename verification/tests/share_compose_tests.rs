use lovshot::error::CaptureError;
use lovshot::share_compose::{
    compose_caption_below, compose_card, compose_minimal, compose_share_image, compose_social,
    fit_single_line, flatten, measure_text_width, template_from_name, wrap_text, CardFrame,
    TextItem, BG_WARM, CARD_BORDER, TEXT_DARK, TEXT_MUTED, WHITE,
};
use lovshot::types::ShareTemplate;

#[test]
fn template_names() {
    assert_eq!(template_from_name("caption_below"), ShareTemplate::CaptionBelow);
    assert_eq!(template_from_name("card"), ShareTemplate::Card);
    assert_eq!(template_from_name("minimal"), ShareTemplate::Minimal);
    assert_eq!(template_from_name("social"), ShareTemplate::Social);
    assert_eq!(template_from_name("something"), ShareTemplate::CaptionBelow);
    assert_eq!(template_from_name(""), ShareTemplate::CaptionBelow);
}

#[test]
fn measure_counts_halves_for_ascii() {
    assert_eq!(measure_text_width("via lovshot", 14), 77);
    assert_eq!(measure_text_width("a", 15), 7);
    assert_eq!(measure_text_width("", 28), 0);
}

#[test]
fn measure_counts_whole_for_wide_characters() {
    assert_eq!(measure_text_width("你好", 16), 32);
    assert_eq!(measure_text_width("a你", 16), 24);
    assert_eq!(measure_text_width("…", 16), 16);
}

#[test]
fn measure_stops_at_the_largest_width() {
    assert_eq!(measure_text_width("你好你好", u32::MAX), u32::MAX);
}

#[test]
fn wrap_breaks_before_the_character_that_does_not_fit() {
    assert_eq!(wrap_text("hello world", 10, 25), vec!["hello", " worl", "d"]);
}

#[test]
fn wrap_ends_lines_at_line_feeds() {
    assert_eq!(wrap_text("ab\ncd", 10, 100), vec!["ab", "cd"]);
    assert_eq!(wrap_text("ab\n", 10, 100), vec!["ab"]);
    assert_eq!(wrap_text("\n\nx", 10, 100), vec!["", "", "x"]);
    assert_eq!(wrap_text("", 10, 100), Vec::<String>::new());
}

#[test]
fn wrap_handles_wide_characters() {
    assert_eq!(wrap_text("你好吗", 10, 15), vec!["你", "好", "吗"]);
    assert_eq!(wrap_text("你好吗", 10, 20), vec!["你好", "吗"]);
}

#[test]
fn wrap_puts_single_characters_on_lines_that_are_too_narrow() {
    assert_eq!(wrap_text("abc", 10, 0), vec!["a", "b", "c"]);
}

#[test]
fn caption_below_layout() {
    let l = compose_caption_below(400, 300, "hello").unwrap();
    assert_eq!((l.canvas_width, l.canvas_height), (400, 390));
    assert_eq!(l.background, BG_WARM);
    assert_eq!(l.card, None);
    assert_eq!((l.image_x, l.image_y), (0, 0));
    assert_eq!(
        l.texts,
        vec![TextItem { x: 24, y: 312, font_size: 28, color: TEXT_DARK, text: "hello".to_string() }]
    );
}

#[test]
fn caption_below_stacks_lines() {
    let l = compose_caption_below(400, 300, "a\nb\nc").unwrap();
    assert_eq!(l.canvas_height, 300 + 3 * 42 + 24 + 24);
    let ys: Vec<i64> = l.texts.iter().map(|t| t.y).collect();
    assert_eq!(ys, vec![312, 354, 396]);
    let empty = compose_caption_below(400, 300, "").unwrap();
    assert_eq!(empty.canvas_height, 348);
    assert!(empty.texts.is_empty());
}

#[test]
fn card_layout_without_caption() {
    let l = compose_card(400, 300, "").unwrap();
    assert_eq!((l.canvas_width, l.canvas_height), (504, 404));
    assert_eq!(
        l.card,
        Some(CardFrame { x: 32, y: 32, width: 440, height: 340, fill: WHITE, border: CARD_BORDER })
    );
    assert_eq!((l.image_x, l.image_y), (52, 52));
    assert!(l.texts.is_empty());
}

#[test]
fn card_layout_with_caption() {
    let l = compose_card(400, 300, "hi").unwrap();
    assert_eq!((l.canvas_width, l.canvas_height), (504, 460));
    assert_eq!(l.card.unwrap().height, 396);
    assert_eq!(
        l.texts,
        vec![TextItem { x: 52, y: 362, font_size: 24, color: TEXT_DARK, text: "hi".to_string() }]
    );
}

#[test]
fn social_layout() {
    let l = compose_social(200, 100, "hi").unwrap();
    assert_eq!((l.canvas_width, l.canvas_height), (320, 207));
    assert_eq!(l.background, WHITE);
    assert_eq!((l.image_x, l.image_y), (60, 55));
    assert_eq!(
        l.texts,
        vec![
            TextItem { x: 20, y: 10, font_size: 22, color: TEXT_DARK, text: "hi".to_string() },
            TextItem {
                x: 121,
                y: 163,
                font_size: 14,
                color: TEXT_MUTED,
                text: "via lovshot".to_string()
            },
        ]
    );
}

#[test]
fn social_layout_of_wide_picture_without_caption() {
    let l = compose_social(1000, 100, "").unwrap();
    assert_eq!((l.canvas_width, l.canvas_height), (1000, 152));
    assert_eq!((l.image_x, l.image_y), (0, 0));
    assert_eq!(l.texts.len(), 1);
    assert_eq!(l.texts[0].x, 461);
    assert_eq!(l.texts[0].y, 108);
}

#[test]
fn flatten_replaces_line_feeds() {
    assert_eq!(flatten("a\nb\n"), "a b ");
    assert_eq!(flatten("plain"), "plain");
}

#[test]
fn single_line_is_cut_with_ellipsis() {
    assert_eq!(fit_single_line("hello world this is long", 16, 76), "hello wor…");
    assert_eq!(fit_single_line("short", 16, 76), "short");
    assert_eq!(fit_single_line("a\nb", 16, 76), "a b");
    // Three bytes always stay.
    assert_eq!(fit_single_line("abcdef", 16, 0), "abc…");
    assert_eq!(fit_single_line("你好", 16, 0), "你…");
}

#[test]
fn minimal_layout() {
    let l = compose_minimal(100, 50, "hello world this is long").unwrap();
    assert_eq!((l.canvas_width, l.canvas_height), (100, 86));
    assert_eq!(l.background, BG_WARM);
    assert_eq!(
        l.texts,
        vec![TextItem {
            x: 6,
            y: 56,
            font_size: 16,
            color: TEXT_MUTED,
            text: "hello wor…".to_string()
        }]
    );
}

#[test]
fn minimal_layout_centres_short_text() {
    let l = compose_minimal(400, 50, "a\nb").unwrap();
    assert_eq!(l.texts[0].text, "a b");
    assert_eq!(l.texts[0].x, 188);
}

#[test]
fn minimal_layout_with_text_wider_than_picture() {
    let l = compose_minimal(10, 5, "abcdef").unwrap();
    assert_eq!(l.texts[0].text, "abc…");
    assert_eq!(l.texts[0].x, -15);
    assert_eq!(l.texts[0].y, 11);
}

#[test]
fn canvas_beyond_image_size_is_refused() {
    assert_eq!(compose_minimal(10, u32::MAX - 35, "x").err(), Some(CaptureError::CanvasTooLarge));
    assert!(compose_minimal(10, u32::MAX - 36, "x").is_ok());
    assert_eq!(compose_card(u32::MAX - 103, 10, "").err(), Some(CaptureError::CanvasTooLarge));
    assert!(compose_card(u32::MAX - 104, 10, "").is_ok());
    assert_eq!(compose_caption_below(10, u32::MAX - 47, "").err(), Some(CaptureError::CanvasTooLarge));
    assert_eq!(compose_social(10, u32::MAX - 51, "").err(), Some(CaptureError::CanvasTooLarge));
    assert_eq!(CaptureError::CanvasTooLarge.message(), "Canvas too large");
}

#[test]
fn dispatch_by_template() {
    let a = compose_share_image(400, 300, "hi", ShareTemplate::Card).unwrap();
    assert_eq!(a, compose_card(400, 300, "hi").unwrap());
    let b = compose_share_image(400, 300, "hi", ShareTemplate::Social).unwrap();
    assert_eq!(b, compose_social(400, 300, "hi").unwrap());
    let c = compose_share_image(400, 300, "hi", ShareTemplate::Minimal).unwrap();
    assert_eq!(c, compose_minimal(400, 300, "hi").unwrap());
    let d = compose_share_image(400, 300, "hi", ShareTemplate::CaptionBelow).unwrap();
    assert_eq!(d, compose_caption_below(400, 300, "hi").unwrap());
}
