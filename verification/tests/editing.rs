use color_editor::color_file::{ColorFile, Token};
use color_editor::editor::ColorEditor;
use color_editor::parse_options::ParseOptions;
use color_editor::Rgb;

fn rgb(r: u8, g: u8, b: u8) -> Rgb {
    Rgb { r, g, b }
}

fn load(source: &str) -> ColorFile {
    ColorFile::new(String::from("demo.txt"), source, &ParseOptions::default())
}

#[test]
fn new_document_parses_and_keeps_path() {
    let file = load("xx#abcdefyy");
    assert_eq!(file.path, "demo.txt");
    assert_eq!(file.color_count, 1);
    assert_eq!(file.tokens.len(), 3);
}

#[test]
fn save_reproduces_unedited_document() {
    let source = "a #abcdef b 0x123 c";
    let file = load(source);
    assert_eq!(file.save(), source);
}

#[test]
fn set_color_rewrites_only_that_literal() {
    let mut file = load("xx#abcdefyy #123456");
    assert!(file.set_color(1, rgb(0x01, 0x02, 0x03)));
    assert_eq!(file.save(), "xx#010203yy #123456");
}

#[test]
fn set_color_keeps_prefix_style() {
    let mut file = load("v = 0xebc17a;");
    assert!(file.set_color(1, rgb(0xab, 0xcd, 0xef)));
    assert_eq!(file.save(), "v = 0xabcdef;");
}

#[test]
fn set_color_on_text_token_changes_nothing() {
    let mut file = load("xx#abcdefyy");
    assert!(!file.set_color(0, rgb(1, 2, 3)));
    assert!(!file.set_color(9, rgb(1, 2, 3)));
    assert_eq!(file.save(), "xx#abcdefyy");
}

#[test]
fn set_color_on_hex3_token_is_lossy() {
    let mut file = load("#fff");
    assert!(file.set_color(0, rgb(200, 100, 50)));
    // 200/16 = 12 -> 'c', 100/16 = 6, 50/16 = 3.
    assert_eq!(file.save(), "#c63");
}

#[test]
fn select_token_remembers_previous_color() {
    let file = load("xx#abcdefyy");
    let mut editor = ColorEditor::new(file, true, false);
    assert!(!editor.select_token(0));
    assert_eq!(editor.selected_token, None);
    assert!(editor.select_token(1));
    assert_eq!(editor.selected_token, Some(1));
    assert_eq!(editor.old_color32, rgb(0xab, 0xcd, 0xef));
}

#[test]
fn pick_color_with_autosave_requests_save() {
    let file = load("xx#abcdefyy");
    let mut editor = ColorEditor::new(file, true, true);
    assert!(editor.select_token(1));
    assert!(editor.pick_color(rgb(1, 2, 3)));
    assert!(editor.should_save);
    assert_eq!(editor.color_file.save(), "xx#010203yy");
}

#[test]
fn pick_color_without_autosave_requests_no_save() {
    let file = load("xx#abcdefyy");
    let mut editor = ColorEditor::new(file, true, false);
    assert!(editor.select_token(1));
    assert!(editor.pick_color(rgb(1, 2, 3)));
    assert!(!editor.should_save);
    assert_eq!(editor.color_file.save(), "xx#010203yy");
}

#[test]
fn pick_color_same_value_requests_no_save() {
    let file = load("xx#abcdefyy");
    let mut editor = ColorEditor::new(file, true, true);
    assert!(editor.select_token(1));
    assert!(editor.pick_color(rgb(0xab, 0xcd, 0xef)));
    assert!(!editor.should_save);
}

#[test]
fn pick_color_without_selection_changes_nothing() {
    let file = load("xx#abcdefyy");
    let mut editor = ColorEditor::new(file, true, true);
    assert!(!editor.pick_color(rgb(1, 2, 3)));
    assert!(!editor.should_save);
    assert_eq!(editor.color_file.save(), "xx#abcdefyy");
}

#[test]
fn restore_previous_returns_to_selection_color() {
    let file = load("xx#abcdefyy");
    let mut editor = ColorEditor::new(file, true, false);
    assert!(editor.select_token(1));
    assert!(editor.pick_color(rgb(1, 2, 3)));
    assert_eq!(editor.color_file.save(), "xx#010203yy");
    assert!(editor.restore_previous());
    assert!(editor.should_save);
    assert_eq!(editor.color_file.save(), "xx#abcdefyy");
}

#[test]
fn restore_previous_without_selection_changes_nothing() {
    let file = load("xx#abcdefyy");
    let mut editor = ColorEditor::new(file, true, true);
    assert!(!editor.restore_previous());
    assert!(!editor.should_save);
}

#[test]
fn edited_document_reloads_to_the_same_tokens() {
    let mut file = load("a #abc b");
    assert!(file.set_color(1, rgb(18, 52, 86)));
    let saved = file.save();
    assert_eq!(saved, "a #135 b");
    // Re-loading the lossy save and saving again changes nothing more.
    let reloaded = load(&saved);
    assert_eq!(reloaded.save(), saved);
    match &reloaded.tokens[1] {
        Token::Color(_, value) => assert_eq!(*value, rgb(17, 51, 85)),
        _ => panic!("expected a color token"),
    }
}
