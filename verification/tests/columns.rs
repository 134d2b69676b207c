use cyberfiles_ui::browser::{column_click_action, column_title, ColumnCellAction, FileBrowser, ShellMenuCacheKey};
use cyberfiles_ui::editor_meta::parse_go_to_line_target;
use cyberfiles_ui::editor_text::{byte_offset_to_position, position_to_byte_offset, Position};
use cyberfiles_ui::icons::{extension_svg_path, ListIconCache};
use cyberfiles_ui::language::language_for_path;
use cyberfiles_ui::menu::ShellMenuState;
use cyberfiles_ui::model::{FileItem, FileItemKind, Modifiers, ViewMode};
use cyberfiles_ui::path::renamed_path;

fn item(path: &str, kind: FileItemKind) -> FileItem {
    let name = path.rsplit('/').next().unwrap_or(path).to_string();
    FileItem { path: path.to_string(), kind, extension: None, display_name: name, size: None }
}

fn strings(v: &[&str]) -> Vec<String> {
    v.iter().map(|s| s.to_string()).collect()
}

const PLAIN: Modifiers = Modifiers { shift: false, secondary: false };
const SHIFT: Modifiers = Modifiers { shift: true, secondary: false };
const SECONDARY: Modifiers = Modifiers { shift: false, secondary: true };

fn columns_browser() -> FileBrowser {
    let mut b = FileBrowser::new("/d/sub".to_string(), ViewMode::Columns);
    b.column_trail = strings(&["/d", "/d/sub"]);
    b.column_listings = vec![
        vec![item("/d/sub", FileItemKind::Folder), item("/d/f", FileItemKind::File)],
        vec![item("/d/sub/x", FileItemKind::File)],
    ];
    b
}

#[test]
fn column_click_actions() {
    assert_eq!(column_click_action(FileItemKind::Folder, SHIFT, 1), ColumnCellAction::Click);
    assert_eq!(column_click_action(FileItemKind::File, SECONDARY, 2), ColumnCellAction::Click);
    assert_eq!(column_click_action(FileItemKind::Folder, PLAIN, 2), ColumnCellAction::OpenColumn);
    assert_eq!(column_click_action(FileItemKind::File, PLAIN, 2), ColumnCellAction::OpenItem);
    assert_eq!(column_click_action(FileItemKind::File, PLAIN, 1), ColumnCellAction::Click);
}

#[test]
fn column_titles_and_selection_names() {
    assert_eq!(column_title("/d/sub"), "sub");
    assert_eq!(column_title("/"), "/");
    let b = columns_browser();
    assert_eq!(b.column_selection_name(0), Some("sub".to_string()));
    assert_eq!(b.column_selection_name(1), None);
}

#[test]
fn column_cells_drawn_selected() {
    let mut b = columns_browser();
    assert!(b.column_cell_selected(0, 0));
    assert!(!b.column_cell_selected(0, 1));
    assert!(!b.column_cell_selected(1, 0));
    assert!(!b.column_cell_selected(5, 0));
    let f = item("/d/f", FileItemKind::File);
    b.handle_column_item_click(0, 1, &f, PLAIN);
    assert!(!b.column_cell_selected(0, 0));
    assert!(b.column_cell_selected(0, 1));
}

#[test]
fn column_shift_click_keeps_location() {
    let mut b = columns_browser();
    b.navigate_to("/d/sub".to_string());
    let x = item("/d/sub/x", FileItemKind::File);
    b.handle_column_item_click(1, 0, &x, SHIFT);
    assert_eq!(b.current_dir, "/d/sub");
    assert_eq!(b.column_trail, strings(&["/d", "/d/sub"]));
    assert_eq!(b.selected_paths, strings(&["/d/sub/x"]));
}

#[test]
fn after_delete_forgets_deleted_paths() {
    let mut b = FileBrowser::new("/d".to_string(), ViewMode::Details);
    assert!(b.navigate_to("/d/sub".to_string()));
    b.selected_paths = strings(&["/d/sub/a"]);
    b.after_delete(&strings(&["/d"]), "/home".to_string(), false);
    assert_eq!(b.back_stack, strings(&["/d"]));
    assert_eq!(b.selected_paths, strings(&["/d/sub/a"]));
    b.after_delete(&strings(&["/d"]), "/home".to_string(), true);
    assert!(b.back_stack.is_empty());
    assert!(b.selected_paths.is_empty());
    assert_eq!(b.current_dir, "/d/sub");
}

#[test]
fn icon_warming_loads_only_missing_keys_and_skips_failures() {
    let mut c = ListIconCache::new();
    c.store_list_icon("a".to_string(), 16, vec![1]);
    let missing = c.missing_list_icon_keys(&strings(&["a", "b", "c"]), 16);
    assert_eq!(missing, strings(&["b", "c"]));
    c.warm_list_icons(missing, 16, vec![Vec::new(), vec![2]]);
    assert_eq!(c.list_icon_png_cached("a", 16), Some(vec![1]));
    assert_eq!(c.list_icon_png_cached("b", 16), None);
    assert_eq!(c.list_icon_png_cached("c", 16), Some(vec![2]));
    assert_eq!(c.missing_list_icon_keys(&strings(&["a", "b", "c"]), 16), strings(&["b"]));
    assert_eq!(c.missing_list_icon_keys(&strings(&["a"]), 32), strings(&["a"]));
}

#[test]
fn snapshot_needs_the_same_paths() {
    let mut b = FileBrowser::new("/d".to_string(), ViewMode::Details);
    b.shell_menu_cache = Some(ShellMenuCacheKey { paths: strings(&["/a"]), extended_verbs: false, has_entries: true });
    assert_eq!(b.shell_submenu_snapshot(&strings(&["/b"]), false), ShellMenuState::Loading);
    assert_eq!(b.shell_submenu_snapshot(&strings(&["/a/"]), false), ShellMenuState::Ready);
    assert_eq!(b.shell_submenu_snapshot(&strings(&["/a"]), true), ShellMenuState::Loading);
}

#[test]
fn lookups_ignore_ascii_case() {
    assert_eq!(extension_svg_path("PDF"), extension_svg_path("pdf"));
    assert!(extension_svg_path("pdf").is_some());
    assert_eq!(language_for_path(Some("a.RS")), language_for_path(Some("b.rs")));
    assert_eq!(language_for_path(Some("b.rs")), "rust");
}

#[test]
fn go_to_line_round_trip() {
    assert_eq!(parse_go_to_line_target("12:5"), Some(Position::new(11, 4)));
    assert_eq!(parse_go_to_line_target("12"), Some(Position::new(11, 0)));
    assert_eq!(parse_go_to_line_target(&format!("{}:{}", 7 + 1, 3 + 1)), Some(Position::new(7, 3)));
}

#[test]
fn byte_offsets_round_trip_at_char_boundaries() {
    let text = "a\n\u{e9}\u{4e2d}b\r\nz";
    for (b, _) in text.char_indices().chain(std::iter::once((text.len(), ' '))) {
        let p = byte_offset_to_position(text, b);
        assert_eq!(position_to_byte_offset(text, p), b);
    }
}

#[test]
fn renaming_back_restores_the_path() {
    assert_eq!(renamed_path("/a/b/c", "/a", "/x"), Some("/x/b/c".to_string()));
    assert_eq!(renamed_path("/x/b/c", "/x", "/a"), Some("/a/b/c".to_string()));
    assert_eq!(renamed_path("/a", "/a", "/x"), Some("/x".to_string()));
    assert_eq!(renamed_path("/x", "/x", "/a"), Some("/a".to_string()));
}
