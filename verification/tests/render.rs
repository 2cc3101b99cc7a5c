use chronox_tui::app::{App, Focus};
use chronox_tui::model::{
    CellKind, ChangeDetail, ChangeEvent, ChangeSource, ChangeTool, DiffCell, DiffLine, DiffMarker,
    SideRow, Token, TokenKind,
};
use chronox_tui::render::{
    change_counts, change_detail_lines_styled, clip_line_to_width, edit_line, entry_lines,
    footer_text, header_line, hhmm, side_by_side_lines, side_cell_to_line, stat_bar, status_strip,
    window_lines, Color, Line, Style,
};

fn ev(file: &str, summary: &str) -> ChangeEvent {
    ChangeEvent {
        timestamp_ms: 0,
        tool: ChangeTool::Edit,
        file_path: file.to_string(),
        summary: summary.to_string(),
        detail: ChangeDetail::Edit {
            old: "a".into(),
            new: "b".into(),
        },
        source: ChangeSource::default(),
    }
}

fn tok(text: &str, kind: TokenKind) -> Token {
    Token { text: text.to_string(), kind }
}

fn text_of(line: &Line) -> String {
    line.spans.iter().map(|s| s.content.as_str()).collect()
}

/// The block diff of `Edit { old: "old", new: "let y = 1" }` at base line 7
/// with Rust highlighting: the removed line has a blank gutter, the added
/// line is numbered.
fn edit_diff() -> Vec<DiffLine> {
    vec![
        DiffLine {
            gutter: "     ".to_string(),
            marker: DiffMarker::Removed,
            code: vec![tok("old", TokenKind::Default)],
        },
        DiffLine {
            gutter: "   7 ".to_string(),
            marker: DiffMarker::Added,
            code: vec![
                tok("let", TokenKind::Keyword),
                tok(" y = ", TokenKind::Default),
                tok("1", TokenKind::Number),
            ],
        },
    ]
}

fn write_diff(head: &str) -> Vec<DiffLine> {
    vec![DiffLine {
        gutter: "   1 ".to_string(),
        marker: DiffMarker::Added,
        code: vec![tok(head, TokenKind::Default)],
    }]
}

#[test]
fn styled_lines_preserve_colours_and_gutter() {
    let lines = change_detail_lines_styled(&edit_diff());
    // removed line: dim 5-space gutter, red "- " marker
    assert_eq!(lines[0].spans[0].content.as_str(), "     ");
    assert!(lines[0].spans[0].style.dim);
    assert_eq!(lines[0].spans[1].content.as_str(), "- ");
    assert_eq!(lines[0].spans[1].style.fg, Some(Color::Red));
    // added line: gutter "   7 ", green "+ ", "let" highlighted magenta
    assert_eq!(lines[1].spans[0].content.as_str(), "   7 ");
    assert_eq!(lines[1].spans[1].content.as_str(), "+ ");
    assert_eq!(lines[1].spans[1].style.fg, Some(Color::Green));
    assert!(lines[1]
        .spans
        .iter()
        .any(|s| s.content.as_str() == "let" && s.style.fg == Some(Color::Magenta)));
}

#[test]
fn no_lang_is_plain_code_span() {
    let lines = change_detail_lines_styled(&write_diff("let y = 1"));
    assert_eq!(lines[0].spans[2].content.as_str(), "let y = 1");
    assert_eq!(lines[0].spans[2].style.fg, None);
}

#[test]
fn token_kinds_have_their_colours() {
    let dl = DiffLine {
        gutter: String::new(),
        marker: DiffMarker::Added,
        code: vec![
            tok("\"s\"", TokenKind::Str),
            tok("// c", TokenKind::Comment),
            tok("42", TokenKind::Number),
        ],
    };
    let lines = change_detail_lines_styled(&[dl]);
    assert_eq!(lines[0].spans[2].style.fg, Some(Color::Yellow));
    assert_eq!(lines[0].spans[3].style.fg, Some(Color::DarkGray));
    assert_eq!(lines[0].spans[4].style.fg, Some(Color::Cyan));
}

#[test]
fn clip_line_preserves_styles_and_truncates() {
    let line = &change_detail_lines_styled(&write_diff("abcdefgh"))[0]; // "   1 + abcdefgh"
    let clipped = clip_line_to_width(line, 7);
    assert_eq!(text_of(&clipped), "   1 + ");
    assert_eq!(clip_line_to_width(line, 0).spans.len(), 0);
    let wide = clip_line_to_width(line, 999);
    assert_eq!(text_of(&wide), "   1 + abcdefgh");
}

#[test]
fn clip_trims_the_boundary_span_keeping_its_style() {
    let line = &change_detail_lines_styled(&write_diff("abcdefgh"))[0];
    let clipped = clip_line_to_width(line, 9);
    assert_eq!(clipped.spans.len(), 3);
    assert_eq!(clipped.spans[2].content, "ab");
    assert_eq!(clipped.spans[2].style, line.spans[2].style);
    assert_eq!(clipped.spans[1].style.fg, Some(Color::Green));
    // clipping again changes nothing
    let again = clip_line_to_width(&clipped, 9);
    assert_eq!(again.spans.len(), 3);
    for (a, b) in again.spans.iter().zip(clipped.spans.iter()) {
        assert_eq!(a.content, b.content);
        assert_eq!(a.style, b.style);
    }
}

#[test]
fn entry_is_a_single_header_line() {
    let lines = entry_lines(&ev("/wt/src/main.rs", "fn foo()"), "/wt", 40, false);
    assert_eq!(lines.len(), 1, "one row: the time+path header");
    assert_eq!(text_of(&lines[0]), "00:00 src/main.rs");
    assert!(lines[0].spans[0].style.dim);
}

#[test]
fn selected_entry_reverses_its_spans() {
    let lines = entry_lines(&ev("/wt/src/main.rs", "fn foo()"), "/wt", 40, true);
    assert!(
        lines[0].spans.iter().all(|s| s.style.reversed),
        "selected row should be fully reversed"
    );
}

#[test]
fn entry_abbreviates_to_the_row_budget() {
    let lines = entry_lines(&ev("/wt/src/ui/widgets/chronology_bar.rs", ""), "/wt", 20, false);
    // 20 columns leave 14 for the path
    assert_eq!(lines[0].spans[2].content, "…nology_bar.rs");
    assert!(lines[0].spans[2].content.chars().count() <= 14);
}

#[test]
fn stat_bar_splits_green_red_and_pads_empty() {
    // all adds -> 4 green, 0 red, 0 empty
    let b = stat_bar(10, 0, 4);
    assert_eq!(b[0].content.as_str(), "▰▰▰▰");
    assert_eq!(b[0].style.fg, Some(Color::Green));
    assert_eq!(b[1].content.as_str(), "");
    assert_eq!(b[2].content.as_str(), "");

    // mixed -> at least one of each, total width 4
    let b = stat_bar(3, 1, 4);
    let g = b[0].content.chars().count();
    let r = b[1].content.chars().count();
    let e = b[2].content.chars().count();
    assert_eq!(g + r + e, 4);
    assert!(g >= 1 && r >= 1, "both sides represented when both nonzero");
    assert_eq!(b[1].style.fg, Some(Color::Red));
    assert_eq!(b[2].style.fg, Some(Color::DarkGray));

    // nothing -> all empty/faint
    let b = stat_bar(0, 0, 4);
    assert_eq!(b[2].content.chars().count(), 4);
}

#[test]
fn stat_bar_rounds_half_away_from_zero_and_gives_back_cells() {
    let cells = |a, d, w| {
        let b = stat_bar(a, d, w);
        (
            b[0].content.chars().count(),
            b[1].content.chars().count(),
            b[2].content.chars().count(),
        )
    };
    assert_eq!(cells(3, 1, 4), (3, 1, 0));
    assert_eq!(cells(1, 1, 4), (2, 2, 0));
    assert_eq!(cells(1, 3, 2), (1, 1, 0)); // 0.5 -> 1 green, 1.5 -> 2 red, red gives one back
    assert_eq!(cells(1, 1, 3), (1, 2, 0)); // 1.5 + 1.5 -> 2 + 2, green gives one back first
    assert_eq!(cells(100, 1, 4), (3, 1, 0)); // the small side keeps one cell
    assert_eq!(cells(1, 1, 1), (0, 1, 0));
    assert_eq!(cells(5, 5, 0), (0, 0, 0));
    assert_eq!(cells(1, 0, 0), (0, 0, 0));
}

#[test]
fn change_counts_counts_added_and_removed() {
    // Edit { old: "a\nb", new: "x" }: two removed lines, one added
    let edit = vec![
        DiffLine { gutter: "     ".into(), marker: DiffMarker::Removed, code: vec![tok("a", TokenKind::Default)] },
        DiffLine { gutter: "     ".into(), marker: DiffMarker::Removed, code: vec![tok("b", TokenKind::Default)] },
        DiffLine { gutter: "   1 ".into(), marker: DiffMarker::Added, code: vec![tok("x", TokenKind::Default)] },
    ];
    assert_eq!(change_counts(&edit), (1, 2), "1 added line, 2 removed lines");
    // Write { head: "a\nb\nc" }: three added lines
    let write: Vec<DiffLine> = ["a", "b", "c"]
        .iter()
        .enumerate()
        .map(|(i, t)| DiffLine {
            gutter: format!("{:>4} ", i + 1),
            marker: DiffMarker::Added,
            code: vec![tok(t, TokenKind::Default)],
        })
        .collect();
    assert_eq!(change_counts(&write), (3, 0));
    // ChangeDetail::Nothing yields no diff lines
    assert_eq!(change_counts(&[]), (0, 0));
}

#[test]
fn header_line_has_caret_path_gauge_and_counts() {
    let line = header_line("src/app.rs", 16, 3, 2, false, true, true, 44, false);
    let text = text_of(&line);
    assert!(text.starts_with("▾ src/app.rs"), "expanded caret + path");
    assert!(text.contains("+16"));
    assert!(text.contains("-3"));
    assert!(text.trim_end().ends_with("2"), "edit count right-aligned");
    assert_eq!(line.spans[0].style.fg, Some(Color::Cyan), "expanded caret cyan");
}

#[test]
fn header_line_fills_the_row_exactly() {
    let line = header_line("src/app.rs", 16, 3, 2, false, true, true, 44, false);
    assert_eq!(text_of(&line).chars().count(), 44);
    assert_eq!(text_of(&line), format!("▾ src/app.rs{}▰▰▰▰ +16 -3  2", " ".repeat(18)));
    assert!(line.spans[1].style.bold);
}

#[test]
fn narrow_header_abbreviates_the_path() {
    let line = header_line("docs/superpowers/specs/foo.md", 1, 0, 1, false, false, false, 30, false);
    // right block "▰▰▰▰ +1  1" is 10 wide: the path gets 30 - (2 + 10 + 1) = 17
    assert_eq!(line.spans[1].content, "d/s/specs/foo.md");
    assert_eq!(text_of(&line).chars().count(), 30);
}

#[test]
fn folded_header_uses_folded_caret_and_no_del_when_zero() {
    let line = header_line("Cargo.toml", 1, 0, 1, false, false, false, 44, false);
    let text = text_of(&line);
    assert!(text.starts_with("▸ Cargo.toml"), "folded caret");
    assert!(text.contains("+1"));
    assert!(!text.contains("-0"), "zero removals omitted");
}

#[test]
fn new_file_header_shows_new_tag() {
    let line = header_line("src/theme.rs", 58, 0, 1, true, false, false, 44, false);
    let new = line.spans.iter().find(|s| s.content.as_str() == " new");
    assert!(new.is_some(), "single Write shows ' new'");
    assert_eq!(new.unwrap().style.fg, Some(Color::Blue));
}

#[test]
fn selected_header_carries_the_selection_background() {
    let line = header_line("src/app.rs", 1, 1, 1, false, true, true, 40, true);
    let bg = Color::Rgb(0x24, 0x30, 0x49);
    assert!(line.spans.iter().all(|s| s.style.bg == Some(bg)));
}

#[test]
fn edit_line_connector_time_stats_and_summary() {
    let line = edit_line(0, 12, 3, "guard repin()", false, false, 44);
    let text = text_of(&line);
    assert!(text.starts_with("  ├ 00:00"), "indent, branch connector, time");
    assert!(text.contains("+12"));
    assert!(text.contains("-3"));
    assert!(text.contains("guard repin()"));
}

#[test]
fn last_edit_uses_corner_connector_and_selection_brightens() {
    let line = edit_line(0, 4, 0, "cache rows", true, true, 44);
    let text = text_of(&line);
    assert!(text.contains("└ "), "last edit uses corner connector");
    assert!(!text.contains("-0"), "zero removals omitted");
    // selected: every span carries the blue selection background.
    let bg = Color::Rgb(0x24, 0x30, 0x49);
    assert!(
        line.spans.iter().all(|s| s.style.bg == Some(bg)),
        "selection bar fills the row"
    );
    // summary brightened to White when selected.
    let sum = line
        .spans
        .iter()
        .find(|s| s.content.as_str() == "cache rows")
        .unwrap();
    assert_eq!(sum.style.fg, Some(Color::White));
}

#[test]
fn edit_line_wider_than_the_row_is_not_padded() {
    let line = edit_line(0, 1, 0, "a very long summary that overflows", false, false, 10);
    assert_eq!(text_of(&line), "  ├ 00:00  +1  a very long summary that overflows");
}

#[test]
fn side_cell_styles_marker_gutter_and_none() {
    // Edit { old: "a", new: "let y = 1" } at base 4: one zipped replace row
    let removed = DiffCell {
        gutter: "     ".to_string(),
        kind: CellKind::Removed,
        code: vec![tok("a", TokenKind::Default)],
    };
    let added = DiffCell {
        gutter: "   4 ".to_string(),
        kind: CellKind::Added,
        code: vec![
            tok("let", TokenKind::Keyword),
            tok(" y = ", TokenKind::Default),
            tok("1", TokenKind::Number),
        ],
    };
    // removed cell on the left: dim gutter, red "- " marker
    let left = side_cell_to_line(Some(&removed));
    assert_eq!(left.spans[0].content.as_str(), "     ");
    assert!(left.spans[0].style.dim);
    assert_eq!(left.spans[1].content.as_str(), "- ");
    assert_eq!(left.spans[1].style.fg, Some(Color::Red));
    // added cell on the right: gutter "   4 ", green "+ ", "let" highlighted
    let right = side_cell_to_line(Some(&added));
    assert_eq!(right.spans[0].content.as_str(), "   4 ");
    assert_eq!(right.spans[1].content.as_str(), "+ ");
    assert_eq!(right.spans[1].style.fg, Some(Color::Green));
    assert!(right
        .spans
        .iter()
        .any(|s| s.content.as_str() == "let" && s.style.fg == Some(Color::Magenta)));
    // a context cell uses a blank "  " marker with no colour
    let ctx = DiffCell {
        gutter: "   9 ".to_string(),
        kind: CellKind::Context,
        code: vec![],
    };
    let ctx_line = side_cell_to_line(Some(&ctx));
    assert_eq!(ctx_line.spans[1].content.as_str(), "  ");
    assert_eq!(ctx_line.spans[1].style.fg, None);
    // None -> an empty line (blank column)
    assert!(side_cell_to_line(None).spans.is_empty());
}

#[test]
fn hhmm_formats_utc_clock_time() {
    assert_eq!(hhmm(0), "00:00");
    assert_eq!(hhmm(59_999), "00:00");
    assert_eq!(hhmm(60_000), "00:01");
    assert_eq!(hhmm(3_600_000 * 13 + 60_000 * 7), "13:07");
    assert_eq!(hhmm(86_400_000 + 60_000), "00:01");
    assert_eq!(hhmm(-1), "23:59");
    assert_eq!(hhmm(-60_001), "23:58");
    assert_eq!(hhmm(1_717_000_000_000), "16:26");
    assert_eq!(hhmm(i64::MAX), "07:12");
    assert_eq!(hhmm(i64::MIN), "16:47");
}

#[test]
fn hhmm_reads_the_minute_of_the_day() {
    for t in [0i64, 59_999, 754_321_000, -1, -86_400_001, 1_717_000_000_000] {
        let minute = t.div_euclid(60_000).rem_euclid(1440);
        let s = hhmm(t);
        let h: i64 = s[0..2].parse().unwrap();
        let m: i64 = s[3..5].parse().unwrap();
        assert_eq!(&s[2..3], ":");
        assert!(h < 24 && m < 60);
        assert_eq!(h * 60 + m, minute);
    }
}

#[test]
fn footer_advertises_the_edit_key() {
    let app = App::bare("/wt".to_string());
    assert!(footer_text(&app).contains("e edit"));
}

#[test]
fn footer_shows_status_when_set() {
    let mut app = App::bare("/wt".to_string());
    app.set_status("could not launch 'nope'".into());
    let text = footer_text(&app);
    assert!(text.contains("could not launch 'nope'"));
    // The status replaces the hint while it is visible.
    assert!(!text.contains("e edit"));
}

#[test]
fn footer_advertises_the_diff_toggle_key() {
    let mut app = App::bare("/wt".to_string());
    assert!(footer_text(&app).contains("d view"));
    assert_eq!(
        footer_text(&app),
        " ↑↓ move · enter diff · d view · e edit · tab focus · q quit "
    );
    app.focus = Focus::Diff;
    assert!(footer_text(&app).contains("d view"));
    assert_eq!(
        footer_text(&app),
        " ↑↓/PgUp/PgDn scroll · d view · e edit · tab focus list · q quit "
    );
}

#[test]
fn status_strip_shows_live_totals_and_file_count() {
    let line = status_strip("/wt", 16, 3, 2, 2, 0);
    let top = text_of(&line);
    assert!(top.contains("chronox"));
    assert!(top.contains("live"));
    assert!(top.contains("changes"));
    assert!(top.contains("files"));
    assert_eq!(top, "● chronox  /wt   ⠋ live · polling 1s   +16 -3   2 changes · 2 files");
    assert_eq!(line.spans[0].style.fg, Some(Color::Green));
    assert_eq!(line.spans[8].style.fg, Some(Color::Red));
}

#[test]
fn status_strip_spinner_cycles() {
    let frames: String = (0..10)
        .map(|f| status_strip("/wt", 0, 0, 0, 0, f).spans[4].content.chars().next().unwrap())
        .collect();
    assert_eq!(frames, "⠋⠙⠹⠸⠼⠴⠦⠧⠇⠋");
}

#[test]
fn style_constructors() {
    assert_eq!(Style::plain().fg, None);
    assert_eq!(Style::fg(Color::Blue).fg, Some(Color::Blue));
    assert!(Style::faint().dim && Style::faint().fg == Some(Color::DarkGray));
    assert!(Style::dimmed().dim && Style::dimmed().fg.is_none());
}

#[test]
fn window_lines_skips_takes_and_clips() {
    let lines = change_detail_lines_styled(&edit_diff());
    // scroll past the first line; the window is wider than what is left
    let w = window_lines(&lines, 1, 5, 8);
    assert_eq!(w.len(), 1);
    assert_eq!(text_of(&w[0]), "   7 + l");
    // a window of one row from the top
    let w = window_lines(&lines, 0, 1, 100);
    assert_eq!(w.len(), 1);
    assert_eq!(text_of(&w[0]), "     - old");
    // scrolled past the end: nothing
    assert!(window_lines(&lines, 2, 5, 10).is_empty());
    assert!(window_lines(&lines, 9, 5, 10).is_empty());
}

#[test]
fn side_by_side_window_clips_each_column() {
    let rows = vec![
        SideRow {
            left: Some(DiffCell {
                gutter: "   3 ".to_string(),
                kind: CellKind::Removed,
                code: vec![tok("gone", TokenKind::Default)],
            }),
            right: Some(DiffCell {
                gutter: "   3 ".to_string(),
                kind: CellKind::Added,
                code: vec![tok("here", TokenKind::Default)],
            }),
        },
        SideRow {
            left: None,
            right: Some(DiffCell {
                gutter: "   4 ".to_string(),
                kind: CellKind::Added,
                code: vec![tok("more", TokenKind::Default)],
            }),
        },
    ];
    let (left, right) = side_by_side_lines(&rows, 0, 10, 9, 100);
    assert_eq!(left.len(), 2);
    assert_eq!(right.len(), 2);
    assert_eq!(text_of(&left[0]), "   3 - go");
    assert_eq!(text_of(&right[0]), "   3 + here");
    assert!(left[1].spans.is_empty(), "no old cell: blank column");
    assert_eq!(text_of(&right[1]), "   4 + more");
    // scrolled by one, one row
    let (left, right) = side_by_side_lines(&rows, 1, 1, 9, 9);
    assert_eq!((left.len(), right.len()), (1, 1));
    assert_eq!(text_of(&right[0]), "   4 + mo");
}
