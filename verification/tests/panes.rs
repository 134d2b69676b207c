use cyberfiles_ui::browser::{join_lines, FileBrowser, OpenAction, SortLabels};
use cyberfiles_ui::files_shell::FilesShell;
use cyberfiles_ui::menu::{home_drive_menu, home_file_menu, home_folder_menu, DriveFacts, MenuCommand, MenuEntry};
use cyberfiles_ui::model::{FileItem, FileItemKind, Modifiers, SortDirection, SortOption, ViewMode};
use cyberfiles_ui::session::path_tab_title;
use cyberfiles_ui::shell_menu::{
    entries_contain_submenu, extract_labeled_submenu, is_open_with_submenu_label, is_send_to_submenu_label,
    shell_entry_rows, shell_menu_item_is_properties, FeatureSubmenu, ShellMenuEntry, ShellMenuRow, SubmenuSource,
};
use cyberfiles_ui::transfer::{AppFileClipboard, ClipboardOperation, FileClipboard};

use MenuCommand as C;
use MenuEntry::Item;

fn item(path: &str, kind: FileItemKind) -> FileItem {
    let name = path.rsplit('/').next().unwrap_or(path).to_string();
    FileItem { path: path.to_string(), kind, extension: None, display_name: name, size: None }
}

fn listing(paths: &[&str]) -> Vec<FileItem> {
    paths.iter().map(|p| item(p, FileItemKind::File)).collect()
}

fn strings(v: &[&str]) -> Vec<String> {
    v.iter().map(|s| s.to_string()).collect()
}

const PLAIN: Modifiers = Modifiers { shift: false, secondary: false };
const SECONDARY: Modifiers = Modifiers { shift: false, secondary: true };

fn browser_with(paths: &[&str]) -> FileBrowser {
    let mut b = FileBrowser::new("/d".to_string(), ViewMode::Details);
    let items = listing(paths);
    b.finish_refresh(items.clone(), None, items);
    b
}

#[test]
fn toolbar_buttons_walk_the_history() {
    let mut b = FileBrowser::new("/home/u".to_string(), ViewMode::Details);
    assert!(b.go_up());
    assert_eq!(b.current_directory(), "/home");
    assert!(b.go_back());
    assert_eq!(b.current_directory(), "/home/u");
    assert!(b.go_forward());
    assert_eq!(b.current_directory(), "/home");
    assert!(!b.go_forward());
    let mut root = FileBrowser::new("/".to_string(), ViewMode::Details);
    assert!(!root.go_up());
    assert_eq!(root.current_directory(), "/");
}

#[test]
fn context_menu_target_replaces_an_unselected_item() {
    let mut b = browser_with(&["/d/a", "/d/b", "/d/c"]);
    b.handle_row_click(0, PLAIN);
    b.handle_row_click(1, SECONDARY);
    b.prepare_context_menu_target(1);
    assert_eq!(b.selected_paths.len(), 2);
    b.prepare_context_menu_target(2);
    assert_eq!(b.selected_paths, strings(&["/d/c"]));
    assert_eq!(b.anchor_index, Some(2));
    assert_eq!(b.focused_index, Some(2));
    b.prepare_context_menu_target(9);
    assert_eq!(b.selected_paths, strings(&["/d/c"]));
    assert_eq!(b.focused_index, Some(2));
}

#[test]
fn column_context_menu_target_selects_and_activates() {
    let mut b = FileBrowser::new("/d".to_string(), ViewMode::Columns);
    b.column_listings = vec![listing(&["/d/a", "/d/b"])];
    b.prepare_column_context_menu_target(0, 1);
    assert_eq!(b.selected_paths, strings(&["/d/b"]));
    assert_eq!(b.column_selected_path, Some((0, "/d/b".to_string())));
    assert_eq!(b.anchor_index, Some(1));
    assert_eq!(b.focused_index, Some(1));
    assert_eq!(b.active_column_index, Some(0));
    b.prepare_column_context_menu_target(0, 1);
    assert_eq!(b.selected_paths, strings(&["/d/b"]));
    b.prepare_column_context_menu_target(0, 5);
    b.prepare_column_context_menu_target(3, 0);
    assert_eq!(b.selected_paths, strings(&["/d/b"]));
    assert_eq!(b.active_column_index, Some(0));
}

#[test]
fn open_focused_opens_the_focused_item() {
    let mut b = browser_with(&["/d/a"]);
    assert_eq!(b.open_focused(), None);
    b.handle_row_click(0, PLAIN);
    assert_eq!(b.open_focused(), Some(OpenAction::OpenWithSystem));
    let mut f = FileBrowser::new("/d".to_string(), ViewMode::Details);
    let items = vec![item("/d/sub", FileItemKind::Folder)];
    f.finish_refresh(items.clone(), None, items);
    f.handle_row_click(0, PLAIN);
    assert_eq!(f.open_focused(), Some(OpenAction::Navigated(true)));
    assert_eq!(f.current_directory(), "/d/sub");
    assert_eq!(f.back_stack, strings(&["/d"]));
}

#[test]
fn created_item_is_selected_for_renaming() {
    let mut b = browser_with(&["/d/a", "/d/New folder"]);
    b.handle_row_click(0, PLAIN);
    assert!(b.focus_created_item("/d/New folder"));
    assert_eq!(b.selected_paths, strings(&["/d/New folder"]));
    assert_eq!(b.focused_index, Some(1));
    assert_eq!(b.anchor_index, Some(1));
    assert!(!b.focus_created_item("/d/missing"));
    assert_eq!(b.focused_index, Some(1));
}

#[test]
fn copy_path_text_lists_paths_in_order() {
    let mut b = browser_with(&["/d/b", "/d/a"]);
    assert_eq!(b.copy_paths(), None);
    b.handle_row_click(0, PLAIN);
    b.handle_row_click(1, SECONDARY);
    assert_eq!(b.copy_paths(), Some("/d/a\n/d/b".to_string()));
    assert_eq!(join_lines(&Vec::new()), "");
    assert_eq!(join_lines(&strings(&["x"])), "x");
}

#[test]
fn sort_label_names_field_and_direction() {
    let labels = SortLabels {
        name: "Name".to_string(),
        modified: "Modified".to_string(),
        created: "Created".to_string(),
        size: "Size".to_string(),
        file_type: "Type".to_string(),
        path: "Path".to_string(),
    };
    let mut b = FileBrowser::new("/d".to_string(), ViewMode::Details);
    assert_eq!(b.sort_label(&labels), "Name \u{2191}");
    b.sort_option = SortOption::Size;
    b.sort_direction = SortDirection::Descending;
    assert_eq!(b.sort_label(&labels), "Size \u{2193}");
}

#[test]
fn files_shell_tabs_open_and_close() {
    let mut shell = FilesShell::new(10u32);
    assert_eq!(shell.tab_count(), 1);
    assert_eq!(shell.tab(0).id, 0);
    assert_eq!(shell.tab(0).title, "Files");
    assert_eq!(*shell.active_browser(), 10);
    shell.add_tab(11);
    assert_eq!(shell.tab(1).id, 1);
    assert_eq!(shell.tab(1).title, "Tab 2");
    assert_eq!(shell.active_index(), 1);
    shell.add_tab(12);
    assert_eq!(shell.tab(2).title, "Tab 3");
    assert_eq!(*shell.active_browser(), 12);
    shell.select_tab(0);
    shell.close_tab(1);
    assert_eq!(shell.tab_count(), 2);
    assert_eq!(shell.tab(1).id, 2);
    assert_eq!(shell.active_index(), 0);
    shell.close_tab(0);
    assert_eq!(shell.tab_count(), 1);
    assert_eq!(*shell.active_browser(), 12);
    shell.close_tab(0);
    assert_eq!(shell.tab_count(), 1);
}

#[test]
fn closing_the_added_tab_restores_the_strip() {
    let mut shell = FilesShell::new('a');
    shell.add_tab('b');
    shell.select_tab(0);
    shell.add_tab('c');
    shell.close_tab(2);
    assert_eq!(shell.tab_count(), 2);
    assert_eq!(shell.tab(0).browser, 'a');
    assert_eq!(shell.tab(1).browser, 'b');
    assert_eq!(shell.active_index(), 1);
}

#[test]
fn app_clipboard_store_take_clear() {
    let mut c = AppFileClipboard::new();
    assert!(!c.has_items());
    assert!(c.peek().is_none());
    assert!(!c.clear());
    c.store(ClipboardOperation::Copy, strings(&["/a"]));
    assert!(c.has_items());
    let seen = c.peek().unwrap();
    assert_eq!(seen.operation, ClipboardOperation::Copy);
    assert_eq!(seen.paths, strings(&["/a"]));
    assert!(c.has_items());
    let taken = c.take().unwrap();
    assert_eq!(taken.paths, strings(&["/a"]));
    assert!(!c.has_items());
    assert!(c.take().is_none());
    c.set(FileClipboard { operation: ClipboardOperation::Cut, paths: strings(&["/b"]) });
    assert!(c.clear());
    assert!(!c.clear());
}

fn shell_item(label: &str, verb: Option<&str>) -> ShellMenuEntry {
    ShellMenuEntry::Item {
        label: label.to_string(),
        command_offset: 1,
        command_string: verb.map(|v| v.to_string()),
        icon_png: None,
    }
}

fn shell_submenu(label: &str, children: Vec<ShellMenuEntry>, lazy: Option<u32>) -> ShellMenuEntry {
    ShellMenuEntry::Submenu { label: label.to_string(), children, lazy_parent_index: lazy }
}

#[test]
fn system_properties_item_is_recognised() {
    assert!(shell_menu_item_is_properties(Some("Properties"), "x"));
    assert!(shell_menu_item_is_properties(None, "&Properties"));
    assert!(shell_menu_item_is_properties(None, "\u{5c5e}\u{6027}(R)"));
    assert!(!shell_menu_item_is_properties(None, "Open"));
    assert!(!shell_menu_item_is_properties(Some("open"), "Open"));
}

#[test]
fn feature_submenus_are_recognised_by_label() {
    assert!(is_send_to_submenu_label("Send to"));
    assert!(is_send_to_submenu_label("\u{53d1}\u{9001}\u{5230}(N)"));
    assert!(!is_send_to_submenu_label("Se&nd to"));
    assert!(is_open_with_submenu_label("Open With"));
    assert!(is_open_with_submenu_label("\u{6253}\u{5f00}\u{65b9}\u{5f0f}(H)"));
    assert!(is_open_with_submenu_label("\u{958b}\u{555f}\u{6a94}\u{6848}"));
    assert!(!is_open_with_submenu_label("Open"));
}

#[test]
fn labeled_submenu_is_extracted() {
    let entries = vec![
        shell_item("Copy", Some("copy")),
        shell_submenu("Send to", vec![shell_item("Desktop", None)], None),
        shell_submenu("Send to", Vec::new(), Some(3)),
    ];
    match extract_labeled_submenu(entries, FeatureSubmenu::SendTo) {
        SubmenuSource::Children(c) => {
            assert_eq!(c.len(), 1);
            assert!(matches!(&c[0], ShellMenuEntry::Item { label, .. } if label == "Desktop"));
        }
        other => panic!("unexpected {other:?}"),
    }
    let entries = vec![shell_item("Copy", None), shell_submenu("Open with", Vec::new(), Some(7))];
    assert!(matches!(extract_labeled_submenu(entries, FeatureSubmenu::OpenWith), SubmenuSource::Lazy(7)));
    let entries = vec![shell_item("Copy", None)];
    assert!(matches!(extract_labeled_submenu(entries, FeatureSubmenu::SendTo), SubmenuSource::NotFound));
}

#[test]
fn system_entries_layout() {
    let entries = vec![ShellMenuEntry::Separator, shell_item("Copy", None), shell_submenu("More", Vec::new(), None)];
    assert!(entries_contain_submenu(&entries));
    let (rows, scrollable) = shell_entry_rows(&entries);
    assert_eq!(rows, vec![ShellMenuRow::Separator, ShellMenuRow::Item(1), ShellMenuRow::Submenu(2)]);
    assert!(!scrollable);
    let flat = vec![shell_item("Copy", None), ShellMenuEntry::Separator];
    let (rows, scrollable) = shell_entry_rows(&flat);
    assert_eq!(rows, vec![ShellMenuRow::Item(0), ShellMenuRow::Separator]);
    assert!(scrollable);
}

#[test]
fn home_card_menus() {
    assert_eq!(
        home_folder_menu(true),
        vec![Item(C::Open, true), Item(C::OpenInNewTab, true), Item(C::Unpin, true), Item(C::Properties, true)]
    );
    assert_eq!(home_folder_menu(false)[2], Item(C::Pin, true));
    assert_eq!(home_file_menu(), vec![Item(C::Open, true), Item(C::OpenInNewTab, true), Item(C::Properties, true)]);
    let usb = DriveFacts { is_removable: true, is_network: false, has_total_bytes: true };
    assert_eq!(home_drive_menu(usb)[4..].to_vec(), vec![Item(C::Eject, true)]);
    let net = DriveFacts { is_removable: false, is_network: true, has_total_bytes: false };
    assert_eq!(home_drive_menu(net)[4..].to_vec(), vec![Item(C::Disconnect, true)]);
    let fixed = DriveFacts { is_removable: false, is_network: false, has_total_bytes: true };
    assert_eq!(home_drive_menu(fixed)[4..].to_vec(), vec![Item(C::StorageSense, true)]);
    let unknown = DriveFacts { is_removable: false, is_network: false, has_total_bytes: false };
    assert_eq!(home_drive_menu(unknown), home_folder_menu(false));
}

#[test]
fn tab_title_is_the_folder_name() {
    assert_eq!(path_tab_title("/home/u/docs"), "docs");
    assert_eq!(path_tab_title("/"), "/");
}
