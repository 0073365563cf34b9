use pty_sidecar::build_styled_frame;
use pty_sidecar::char_display_width;
use pty_sidecar::rgb_hex;
use pty_sidecar::style_key;
use pty_sidecar::xterm_256_color;
use pty_sidecar::CellStyle;
use pty_sidecar::Color;
use pty_sidecar::Frame;

fn line_text(frame: &Frame, row: usize) -> String {
    frame.lines[row]
        .segments
        .iter()
        .map(|seg| seg.text.as_str())
        .collect::<String>()
}

#[test]
fn renders_cursor_rewrites() {
    let frame = build_styled_frame("hello\rbye", 20, 6);
    let first = line_text(&frame, 0);
    assert!(first.starts_with("byelo"));
}

#[test]
fn handles_clear_screen_and_home() {
    let frame = build_styled_frame("old\x1b[2J\x1b[Hnew", 20, 6);
    let first = line_text(&frame, 0);
    assert!(first.starts_with("new"));
    assert!(!first.contains("old"));
}

#[test]
fn keeps_primary_buffer_after_alt_screen_leave() {
    let frame = build_styled_frame("primary\x1b[?1049halt\x1b[?1049l", 20, 6);
    let joined = (0..6)
        .map(|idx| line_text(&frame, idx))
        .collect::<Vec<_>>()
        .join("\n");
    assert!(joined.contains("primary"));
    assert!(!joined.contains("alt"));
}

#[test]
fn emits_sgr_color_segments() {
    let frame = build_styled_frame("\x1b[31mred\x1b[0m normal", 20, 6);
    let red = frame.lines[0]
        .segments
        .iter()
        .find(|seg| seg.text.contains("red"));
    assert_eq!(
        red.and_then(|seg| seg.fg.as_deref()),
        Some("#cd3131")
    );
}

#[test]
fn red_segment_then_unstyled() {
    let frame = build_styled_frame("\x1b[31mred\x1b[0m normal", 20, 6);
    let segs = &frame.lines[0].segments;
    assert_eq!(segs.len(), 2);
    assert_eq!(segs[0].text, "red");
    assert_eq!(segs[0].fg.as_deref(), Some("#cd3131"));
    assert_eq!(segs[1].text, " normal");
    assert!(segs[1].fg.is_none());
    assert!(segs[1].bg.is_none());
}

#[test]
fn dimensions_clamped_low() {
    let frame = build_styled_frame("", 0, 0);
    assert_eq!(frame.cols, 20);
    assert_eq!(frame.rows, 6);
    assert_eq!(frame.lines.len(), 6);
}

#[test]
fn dimensions_clamped_high() {
    let frame = build_styled_frame("", 1000, 1000);
    assert_eq!(frame.cols, 300);
    assert_eq!(frame.rows, 200);
    assert_eq!(frame.lines.len(), 200);
}

#[test]
fn dimensions_kept_at_clamp_edges() {
    let low = build_styled_frame("x", 20, 6);
    assert_eq!((low.cols, low.rows), (20, 6));
    let high = build_styled_frame("x", 300, 200);
    assert_eq!((high.cols, high.rows), (300, 200));
}

#[test]
fn cursor_inside_grid() {
    for input in ["", "hello\rbye", "a\nb\nc", "\x1b[99;99H", "\x1b[999B"] {
        let frame = build_styled_frame(input, 20, 6);
        assert!(frame.cursor_row < frame.rows);
        assert!(frame.cursor_col < frame.cols);
    }
}

#[test]
fn cursor_after_carriage_return() {
    let frame = build_styled_frame("hello\rbye", 20, 6);
    assert_eq!(frame.cursor_row, 0);
    assert_eq!(frame.cursor_col, 3);
}

#[test]
fn plain_text_right_trimmed() {
    let frame = build_styled_frame("hi   ", 20, 6);
    assert_eq!(line_text(&frame, 0), "hi");
    assert_eq!(frame.cursor_col, 5);
    for row in 1..6 {
        assert_eq!(frame.lines[row].segments.len(), 1);
        assert_eq!(frame.lines[row].segments[0].text, "");
    }
}

#[test]
fn segments_hold_text_or_single_placeholder() {
    for input in ["", "hi", "\x1b[31ma\x1b[42mb\x1b[0m", "x\ty"] {
        let frame = build_styled_frame(input, 20, 6);
        for line in &frame.lines {
            if line.segments.len() == 1 && line.segments[0].text.is_empty() {
                continue;
            }
            for seg in &line.segments {
                assert!(!seg.text.is_empty());
            }
        }
    }
}

#[test]
fn tab_reaches_next_stop() {
    let frame = build_styled_frame("a\tb", 20, 6);
    assert_eq!(line_text(&frame, 0), "a       b");
}

#[test]
fn backspace_steps_back() {
    let frame = build_styled_frame("ab\x08c", 20, 6);
    assert_eq!(line_text(&frame, 0), "ac");
}

#[test]
fn erase_to_end_of_line() {
    let frame = build_styled_frame("abcdef\x1b[3G\x1b[K", 20, 6);
    assert_eq!(line_text(&frame, 0), "ab");
}

#[test]
fn xterm_cube_and_grey_formula() {
    assert_eq!(xterm_256_color(196), Some(Color { r: 255, g: 0, b: 0 }));
    assert_eq!(xterm_256_color(232), Some(Color { r: 8, g: 8, b: 8 }));
    assert_eq!(xterm_256_color(255), Some(Color { r: 238, g: 238, b: 238 }));
    assert_eq!(xterm_256_color(1), Some(Color { r: 0xcd, g: 0x31, b: 0x31 }));
    assert_eq!(xterm_256_color(256), None);
    assert_eq!(xterm_256_color(-1), None);
}

#[test]
fn extended_colors_render() {
    let frame = build_styled_frame("\x1b[38;5;196mr\x1b[48;2;1;2;3mg", 20, 6);
    let segs = &frame.lines[0].segments;
    assert_eq!(segs[0].fg.as_deref(), Some("#ff0000"));
    assert_eq!(segs[1].bg.as_deref(), Some("#010203"));
}

#[test]
fn rgb_hex_clamps_and_formats() {
    assert_eq!(rgb_hex(205, 49, 49), "#cd3131");
    assert_eq!(rgb_hex(-5, 300, 0), "#00ff00");
    assert_eq!(rgb_hex(255, 255, 255), "#ffffff");
}

#[test]
fn display_width_of_characters() {
    assert_eq!(char_display_width('a'), 1);
    assert_eq!(char_display_width('\u{0301}'), 0);
    assert_eq!(char_display_width('\u{200d}'), 0);
    assert_eq!(char_display_width('\t'), 0);
    assert_eq!(char_display_width('\u{fe0f}'), 0);
}

#[test]
fn inverse_swaps_colors_on_emit() {
    let frame = build_styled_frame("\x1b[31;42;7mx", 20, 6);
    let seg = &frame.lines[0].segments[0];
    assert_eq!(seg.fg.as_deref(), Some("#0dbc79"));
    assert_eq!(seg.bg.as_deref(), Some("#cd3131"));
}

#[test]
fn style_key_lists_emitted_fields() {
    let default_key = style_key(&CellStyle {
        fg: None,
        bg: None,
        bold: false,
        italic: false,
        underline: false,
        inverse: false,
    });
    assert_eq!(default_key, "||0|0|0");
    let styled = style_key(&CellStyle {
        fg: Some(Color { r: 0xcd, g: 0x31, b: 0x31 }),
        bg: None,
        bold: true,
        italic: false,
        underline: false,
        inverse: false,
    });
    assert_eq!(styled, "#cd3131||1|0|0");
}

#[test]
fn scroll_region_confines_scrolling() {
    let frame = build_styled_frame("\x1b[1;2rA\nB\nC", 20, 6);
    assert!(frame.cursor_row < frame.rows);
}

#[test]
fn clear_screen_leaves_no_trace_on_any_row() {
    let frame = build_styled_frame("one\ntwo\nold\x1b[2J\x1b[Hnew", 20, 6);
    let joined = (0..6)
        .map(|idx| line_text(&frame, idx))
        .collect::<Vec<_>>()
        .join("\n");
    assert!(joined.contains("new"));
    assert!(!joined.contains("old"));
    assert!(!joined.contains("one"));
    assert!(!joined.contains("two"));
    assert!(line_text(&frame, 0).starts_with("new"));
}

#[test]
fn alt_screen_restores_cursor() {
    let frame = build_styled_frame("ab\x1b[?1049halt\x1b[?1049l", 20, 6);
    assert_eq!(frame.cursor_row, 0);
    assert_eq!(frame.cursor_col, 2);
}

#[test]
fn cursor_visibility_toggles() {
    let hidden = build_styled_frame("\x1b[?25l", 20, 6);
    assert!(!hidden.cursor_visible);
    let shown = build_styled_frame("\x1b[?25l\x1b[?25h", 20, 6);
    assert!(shown.cursor_visible);
}

#[test]
fn malformed_extended_color_changes_nothing() {
    let bold = build_styled_frame("\x1b[38;1mx", 20, 6);
    let seg = &bold.lines[0].segments[0];
    assert!(!seg.bold);
    assert!(seg.fg.is_none());
    let red = build_styled_frame("\x1b[38;31mx", 20, 6);
    let seg2 = &red.lines[0].segments[0];
    assert!(seg2.fg.is_none());
}

#[test]
fn private_modes_apply_in_order() {
    let frame = build_styled_frame("\x1b[?25;1049halt\x1b[?1049;25lback", 20, 6);
    assert!(!frame.cursor_visible);
    let joined = (0..6)
        .map(|idx| line_text(&frame, idx))
        .collect::<Vec<_>>()
        .join("\n");
    assert!(!joined.contains("alt"));
    assert!(joined.contains("back"));
}

#[test]
fn unterminated_escape_stops_the_replay() {
    let frame = build_styled_frame("ab\x1b[3", 20, 6);
    assert_eq!(line_text(&frame, 0), "ab");
    let bare = build_styled_frame("ab\x1b", 20, 6);
    assert_eq!(line_text(&bare, 0), "ab");
}

#[test]
fn terminated_osc_has_no_effect() {
    let frame = build_styled_frame("a\x1b]0;title\x07b", 20, 6);
    assert_eq!(line_text(&frame, 0), "ab");
    let st = build_styled_frame("a\x1b]0;title\x1b\\b", 20, 6);
    assert_eq!(line_text(&st, 0), "ab");
}
