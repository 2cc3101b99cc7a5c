use chronox_tui::editor::{editor_command, pick_setting, split_words};

#[test]
fn falls_back_to_vi_when_unset() {
    let (prog, args) = editor_command(None, 5, "/a.rs");
    assert_eq!(prog, "vi");
    assert_eq!(args, vec!["+5".to_string(), "/a.rs".to_string()]);
}

#[test]
fn falls_back_to_vi_when_blank() {
    let (prog, _) = editor_command(Some("   "), 1, "/a.rs");
    assert_eq!(prog, "vi");
}

#[test]
fn single_binary_gets_line_and_path() {
    let (prog, args) = editor_command(Some("nvim"), 42, "/src/x.rs");
    assert_eq!(prog, "nvim");
    assert_eq!(args, vec!["+42".to_string(), "/src/x.rs".to_string()]);
}

#[test]
fn embedded_args_are_preserved_before_line_and_path() {
    let (prog, args) = editor_command(Some("code -w"), 7, "/a.rs");
    assert_eq!(prog, "code");
    assert_eq!(
        args,
        vec!["-w".to_string(), "+7".to_string(), "/a.rs".to_string()]
    );
}

#[test]
fn surrounding_whitespace_is_trimmed() {
    let (prog, args) = editor_command(Some("  nvim  "), 3, "/a.rs");
    assert_eq!(prog, "nvim");
    assert_eq!(args, vec!["+3".to_string(), "/a.rs".to_string()]);
}

#[test]
fn unicode_and_control_whitespace_split_words() {
    let (prog, args) = editor_command(Some("\tcode\u{3000}-w\n--new-window\u{a0}"), 0, "/a.rs");
    assert_eq!(prog, "code");
    assert_eq!(
        args,
        vec!["-w".to_string(), "--new-window".to_string(), "+0".to_string(), "/a.rs".to_string()]
    );
}

#[test]
fn large_line_numbers_are_written_in_full() {
    let (_, args) = editor_command(Some("vi"), u32::MAX, "/a.rs");
    assert_eq!(args[0], "+4294967295");
}

#[test]
fn split_words_matches_split_whitespace() {
    for s in ["", "  ", "a", " a  b ", "x\u{2003}y\u{2028}z", "é ü"] {
        let expected: Vec<String> = s.split_whitespace().map(String::from).collect();
        assert_eq!(split_words(s), expected, "{s:?}");
    }
}

#[test]
fn visual_wins_over_editor() {
    assert_eq!(pick_setting(Some("code -w"), Some("vim")), Some("code -w"));
    assert_eq!(pick_setting(Some(""), Some("vim")), Some(""));
    assert_eq!(pick_setting(None, Some("vim")), Some("vim"));
    assert_eq!(pick_setting(None, None), None);
}
