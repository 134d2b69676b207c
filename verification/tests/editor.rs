use cyberfiles_ui::editor_meta::{
    detect_indent_style, detect_line_ending, line_count, parse_go_to_line_target, preferred_indent_unit, IndentStyle,
    LineEndingKind,
};
use cyberfiles_ui::editor_state::{
    display_language, display_name, display_path, load_document, window_title, EditorBufferModel, EditorSession,
    FileProbe,
};
use cyberfiles_ui::editor_text::{
    byte_offset_to_position, find_next_in_text, find_previous_in_text, position_to_byte_offset, replace_next_in_text,
    Position, SearchMatch,
};
use cyberfiles_ui::language::{language_for_path, line_comment_prefix};
use cyberfiles_ui::path::{
    path_extension, path_file_name, path_file_stem, path_join, path_parent, path_starts_with, path_strip_prefix,
    paths_equal, renamed_path, rewrite_path_list,
};

fn pos(line: u32, character: u32) -> Position {
    Position::new(line, character)
}

#[test]
fn positions_and_byte_offsets() {
    let text = "ab\nçd\n";
    assert_eq!(position_to_byte_offset(text, pos(0, 0)), 0);
    assert_eq!(position_to_byte_offset(text, pos(1, 1)), 5);
    assert_eq!(position_to_byte_offset(text, pos(1, 9)), text.len());
    assert_eq!(position_to_byte_offset(text, pos(7, 0)), text.len());
    assert_eq!(byte_offset_to_position(text, 5), pos(1, 1));
    assert_eq!(byte_offset_to_position(text, 4), pos(1, 1));
    assert_eq!(byte_offset_to_position(text, 0), pos(0, 0));
    assert_eq!(byte_offset_to_position(text, 100), pos(2, 0));
}

#[test]
fn search_wraps_around() {
    let text = "one two one";
    assert_eq!(find_next_in_text(text, pos(0, 1), "one"), Some(SearchMatch { start: pos(0, 8), char_len: 3 }));
    assert_eq!(find_next_in_text(text, pos(0, 9), "one"), Some(SearchMatch { start: pos(0, 0), char_len: 3 }));
    assert_eq!(find_next_in_text(text, pos(0, 0), "three"), None);
    assert_eq!(find_next_in_text(text, pos(0, 0), ""), None);
    assert_eq!(find_previous_in_text(text, pos(0, 8), "one"), Some(SearchMatch { start: pos(0, 0), char_len: 3 }));
    assert_eq!(find_previous_in_text(text, pos(0, 2), "one"), Some(SearchMatch { start: pos(0, 8), char_len: 3 }));
}

#[test]
fn replace_next_occurrence() {
    let (text, m) = replace_next_in_text("a-b-a", pos(0, 1), "a", "xyz").unwrap();
    assert_eq!(text, "a-b-xyz");
    assert_eq!(m, SearchMatch { start: pos(0, 4), char_len: 3 });
    let (text, m) = replace_next_in_text("a-b", pos(0, 1), "a", "").unwrap();
    assert_eq!(text, "-b");
    assert_eq!(m, SearchMatch { start: pos(0, 0), char_len: 0 });
    assert!(replace_next_in_text("abc", pos(0, 0), "z", "y").is_none());
    assert!(replace_next_in_text("abc", pos(0, 0), "", "y").is_none());
}

#[test]
fn line_endings_and_indentation() {
    assert_eq!(detect_line_ending("a\r\nb\n"), LineEndingKind::CrLf);
    assert_eq!(detect_line_ending("a\nb"), LineEndingKind::Lf);
    assert_eq!(detect_line_ending("a\rb"), LineEndingKind::Cr);
    assert_eq!(detect_line_ending("ab"), LineEndingKind::Lf);
    assert_eq!(LineEndingKind::CrLf.label(), "CRLF");
    assert_eq!(detect_indent_style("a\n  b\n  c\n    d\n"), IndentStyle::Spaces(2));
    assert_eq!(detect_indent_style("a\n\tb\n"), IndentStyle::Tabs);
    assert_eq!(detect_indent_style("\tb\n  c\n"), IndentStyle::Mixed);
    assert_eq!(detect_indent_style("a\nb\n"), IndentStyle::Unknown);
    assert_eq!(detect_indent_style("           x\n"), IndentStyle::Spaces(8));
    assert_eq!(IndentStyle::Spaces(3).label(), "Spaces: 3");
    assert_eq!(IndentStyle::Unknown.label(), "Indent: Auto");
    assert_eq!(preferred_indent_unit(IndentStyle::Tabs), "\t");
    assert_eq!(preferred_indent_unit(IndentStyle::Spaces(2)), "  ");
    assert_eq!(preferred_indent_unit(IndentStyle::Mixed), "    ");
    assert_eq!(line_count(""), 1);
    assert_eq!(line_count("a\nb\n"), 2);
    assert_eq!(line_count("a\n\nb"), 3);
}

#[test]
fn go_to_line_targets() {
    assert_eq!(parse_go_to_line_target("12"), Some(pos(11, 0)));
    assert_eq!(parse_go_to_line_target(" 3 : 4 "), Some(pos(2, 3)));
    assert_eq!(parse_go_to_line_target("3:"), Some(pos(2, 0)));
    assert_eq!(parse_go_to_line_target("+3"), Some(pos(2, 0)));
    assert_eq!(parse_go_to_line_target("0"), None);
    assert_eq!(parse_go_to_line_target("3:0"), None);
    assert_eq!(parse_go_to_line_target("1:2:3"), None);
    assert_eq!(parse_go_to_line_target("x"), None);
    assert_eq!(parse_go_to_line_target("4294967296"), None);
}

#[test]
fn languages_and_comments() {
    assert_eq!(language_for_path(Some("/src/main.RS")), "rust");
    assert_eq!(language_for_path(Some("/a/b.mjs")), "javascript");
    assert_eq!(language_for_path(Some("/a/Makefile")), "text");
    assert_eq!(language_for_path(None), "text");
    assert_eq!(line_comment_prefix("python"), Some("#"));
    assert_eq!(line_comment_prefix("sql"), Some("--"));
    assert_eq!(line_comment_prefix("go"), Some("//"));
    assert_eq!(line_comment_prefix("markdown"), None);
}

#[test]
fn documents() {
    let d = load_document(None, FileProbe::Missing);
    assert!(d.text.is_empty() && d.load_error.is_none());
    let d = load_document(Some("/d"), FileProbe::Directory);
    assert_eq!(d.load_error.as_deref(), Some("/d is a directory, not a file."));
    let d = load_document(Some("/f"), FileProbe::Read("hi".to_string()));
    assert_eq!(d.text, "hi");
    let d = load_document(Some("/f"), FileProbe::Failed("bad utf-8".to_string()));
    assert_eq!(d.load_error.as_deref(), Some("Failed to open /f as UTF-8 text: bad utf-8"));
    assert_eq!(display_name(Some("/a/notes.txt")), "notes.txt");
    assert_eq!(display_name(Some("/")), "Untitled");
    assert_eq!(display_name(None), "Untitled");
    assert_eq!(display_path(None), "No file open");
    assert_eq!(display_language("rust"), "Language: rust");
    assert_eq!(window_title(true, Some("/a/notes.txt")), "* notes.txt - CyberEditor");
    assert_eq!(window_title(false, None), "Untitled - CyberEditor");
}

#[test]
fn saved_text_is_clean() {
    let mut s = EditorSession::new(Some("/a/n.rs".to_string()), "fn main() {}\n".to_string());
    assert!(!s.dirty());
    assert_eq!(s.language(), "rust");
    assert!(s.update_dirty_from_text("fn main() { }\n"));
    assert!(s.dirty());
    s.apply_save("/a/n.rs".to_string(), "fn main() { }\n".to_string());
    assert!(!s.dirty());
    assert!(!s.update_dirty_from_text("fn main() { }\n"));
    assert_eq!(s.suggested_save_path(Some("/x")), "/a/n.rs");
    let fresh = EditorSession::new(None, String::new());
    assert_eq!(fresh.suggested_save_path(Some("/x")), "/x/untitled.txt");
    assert_eq!(fresh.suggested_save_path(None), "./untitled.txt");
    assert_eq!(fresh.line_ending_label(), "LF");
}

#[test]
fn session_toggles_and_queries() {
    let mut s = EditorSession::new(None, "a\r\nb".to_string());
    assert_eq!(s.line_ending_label(), "CRLF");
    let numbers = s.line_numbers();
    assert_eq!(s.toggle_line_numbers(), !numbers);
    let wrap = s.soft_wrap();
    assert_eq!(s.toggle_soft_wrap(), !wrap);
    s.set_find_query("q".to_string());
    s.set_replace_query("r".to_string());
    assert_eq!(s.find_query(), "q");
    assert_eq!(s.replace_query(), "r");
    s.apply_loaded_document("/b.py".to_string(), "x = 1\n".to_string());
    assert_eq!(s.language(), "python");
    assert!(!s.dirty());
}

#[test]
fn buffer_model_tracks_text_and_cursor() {
    let mut m = EditorBufferModel::new("one\ntwo".to_string(), "text".to_string());
    assert_eq!(m.line_count(), 2);
    assert_eq!(m.char_count(), 7);
    assert_eq!(m.cursor(), pos(0, 0));
    let r0 = m.revision();
    m.sync_text("one\ntwo");
    assert_eq!(m.revision(), r0);
    m.sync_text("one\ntwo\nthree");
    assert_eq!(m.revision(), r0 + 1);
    assert_eq!(m.line_count(), 3);
    m.sync_cursor(pos(1, 0));
    assert_eq!(m.find_next("t"), Some(SearchMatch { start: pos(1, 0), char_len: 1 }));
    assert_eq!(m.find_previous("o"), Some(SearchMatch { start: pos(0, 0), char_len: 1 }));
    m.set_document("x".to_string(), "rust".to_string());
    assert_eq!(m.cursor(), pos(0, 0));
    assert_eq!(m.text(), "x");
    m.set_language("text".to_string());
    assert_eq!(m.revision(), r0 + 3);
}

#[test]
fn paths_behave_like_std_paths() {
    assert!(paths_equal("/a//b/", "/a/b"));
    assert!(paths_equal("a/./b", "a/b"));
    assert!(!paths_equal("/a/b", "a/b"));
    assert!(path_starts_with("/a/b/c", "/a/b"));
    assert!(!path_starts_with("/a/bc", "/a/b"));
    assert_eq!(path_strip_prefix("/a/b/c", "/a").as_deref(), Some("b/c"));
    assert_eq!(path_parent("/a/b").as_deref(), Some("/a"));
    assert_eq!(path_parent("a").as_deref(), Some(""));
    assert_eq!(path_parent("/"), None);
    assert_eq!(path_file_name("/a/b.tar.gz").as_deref(), Some("b.tar.gz"));
    assert_eq!(path_file_name("/a/.."), None);
    assert_eq!(path_extension("/a/b.tar.gz").as_deref(), Some("gz"));
    assert_eq!(path_extension("/a/.bashrc"), None);
    assert_eq!(path_file_stem("/a/b.tar.gz").as_deref(), Some("b.tar"));
    assert_eq!(path_file_stem("/a/.bashrc").as_deref(), Some(".bashrc"));
    assert_eq!(path_join("/a", "b"), "/a/b");
    assert_eq!(path_join("/a/", "b"), "/a/b");
    assert_eq!(path_join("/a", "/b"), "/b");
    assert_eq!(renamed_path("/a/b", "/a/b", "/c").as_deref(), Some("/c"));
    assert_eq!(renamed_path("/a/b/x/y", "/a/b", "/c").as_deref(), Some("/c/x/y"));
    assert_eq!(renamed_path("/a/bx", "/a/b", "/c"), None);
    let mut list = vec!["/a/b".to_string(), "/z".to_string(), "/a/b/k".to_string()];
    rewrite_path_list(&mut list, "/a/b", "/n");
    assert_eq!(list, vec!["/n".to_string(), "/z".to_string(), "/n/k".to_string()]);
}
