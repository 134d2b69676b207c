use cyberfiles_ui::browser::{
    drop_transfer, normalize_paths_for_shell_cache, path_lists_equal, shell_cache_matches_selection,
    sweep_selection_from_hits, update_sweep_hover, ColumnClick, FileBrowser, OpenAction, ShellFetchOutcome,
    SweepSurface, ViewModeChange,
};
use cyberfiles_ui::menu::ShellMenuState;
use cyberfiles_ui::model::{
    BrowseLocation, FileItem, FileItemKind, FileTransferKind, Modifiers, NavigationTarget, SortOption, ViewMode,
};

fn item(path: &str, kind: FileItemKind) -> FileItem {
    let name = path.rsplit('/').next().unwrap_or(path).to_string();
    let extension = name.rsplit_once('.').map(|(_, e)| e.to_string());
    FileItem { path: path.to_string(), kind, extension, display_name: name, size: None }
}

fn listing(paths: &[&str]) -> Vec<FileItem> {
    paths.iter().map(|p| item(p, FileItemKind::File)).collect()
}

fn strings(v: &[&str]) -> Vec<String> {
    v.iter().map(|s| s.to_string()).collect()
}

fn sorted_selection(b: &FileBrowser) -> Vec<String> {
    let mut v = b.selected_paths.clone();
    v.sort();
    v
}

const PLAIN: Modifiers = Modifiers { shift: false, secondary: false };
const SHIFT: Modifiers = Modifiers { shift: true, secondary: false };
const SECONDARY: Modifiers = Modifiers { shift: false, secondary: true };

#[test]
fn back_after_navigate_returns_to_previous_directory() {
    let mut b = FileBrowser::new("/home/u".to_string(), ViewMode::Details);
    assert!(b.navigate_to("/home/u/docs".to_string()));
    assert_eq!(b.current_dir, "/home/u/docs");
    assert_eq!(b.back_stack, strings(&["/home/u"]));
    assert!(b.can_go_back());
    assert!(!b.can_go_forward());
    assert!(b.navigate_back());
    assert_eq!(b.current_dir, "/home/u");
    assert!(b.back_stack.is_empty());
    assert_eq!(b.forward_stack, strings(&["/home/u/docs"]));
    assert!(b.navigate_forward());
    assert_eq!(b.current_dir, "/home/u/docs");
    assert_eq!(b.back_stack, strings(&["/home/u"]));
    assert!(b.forward_stack.is_empty());
}

#[test]
fn navigate_to_same_directory_does_not_move() {
    let mut b = FileBrowser::new("/home/u".to_string(), ViewMode::Details);
    assert!(!b.navigate_to("/home//u/".to_string()));
    assert!(b.back_stack.is_empty());
    assert!(!b.navigate_back());
    assert!(!b.navigate_forward());
}

#[test]
fn navigate_to_clears_forward_stack_and_selection() {
    let mut b = FileBrowser::new("/a".to_string(), ViewMode::Details);
    b.navigate_to("/a/b".to_string());
    b.navigate_back();
    b.finish_refresh(listing(&["/a/x"]), None, listing(&["/a/x"]));
    b.handle_row_click(0, PLAIN);
    assert_eq!(b.selected_paths.len(), 1);
    assert!(b.navigate_to("/a/c".to_string()));
    assert!(b.forward_stack.is_empty());
    assert!(b.selected_paths.is_empty());
    assert_eq!(b.focused_index, None);
    assert_eq!(b.anchor_index, None);
}

#[test]
fn navigate_parent_goes_up_until_root() {
    let mut b = FileBrowser::new("/a/b".to_string(), ViewMode::Details);
    assert!(b.can_go_up());
    assert!(b.navigate_parent());
    assert_eq!(b.current_dir, "/a");
    assert!(b.navigate_parent());
    assert_eq!(b.current_dir, "/");
    assert!(!b.can_go_up());
    assert!(!b.navigate_parent());
    assert_eq!(b.back_stack, strings(&["/a/b", "/a"]));
}

#[test]
fn open_file_tag_and_recycle_bin_reset_history() {
    let mut b = FileBrowser::new("/a".to_string(), ViewMode::Details);
    b.navigate_to("/a/b".to_string());
    b.open_file_tag("work".to_string(), "/home/u".to_string());
    assert_eq!(b.browse_location, BrowseLocation::FileTag { tag_name: "work".to_string() });
    assert_eq!(b.current_dir, "/home/u");
    assert!(b.back_stack.is_empty());
    assert_eq!(b.navigation_target(), NavigationTarget::FileTag("work".to_string()));
    b.open_recycle_bin("/trash".to_string());
    assert_eq!(b.browse_location, BrowseLocation::RecycleBin);
    assert_eq!(b.navigation_target(), NavigationTarget::RecycleBin);
    b.open_directory_reset_history("/x".to_string());
    assert_eq!(b.navigation_target(), NavigationTarget::Path("/x".to_string()));
}

#[test]
fn row_click_plain_secondary_and_shift() {
    let mut b = FileBrowser::new("/d".to_string(), ViewMode::Details);
    let items = listing(&["/d/a", "/d/b", "/d/c", "/d/e"]);
    b.finish_refresh(items.clone(), None, items);
    b.handle_row_click(1, PLAIN);
    assert_eq!(sorted_selection(&b), strings(&["/d/b"]));
    assert_eq!(b.anchor_index, Some(1));
    assert_eq!(b.focused_index, Some(1));
    b.handle_row_click(3, SHIFT);
    assert_eq!(sorted_selection(&b), strings(&["/d/b", "/d/c", "/d/e"]));
    assert_eq!(b.anchor_index, Some(1));
    assert_eq!(b.focused_index, Some(3));
    b.handle_row_click(2, SECONDARY);
    assert_eq!(sorted_selection(&b), strings(&["/d/b", "/d/e"]));
    assert_eq!(b.anchor_index, Some(2));
    b.handle_row_click(0, SECONDARY);
    assert_eq!(sorted_selection(&b), strings(&["/d/a", "/d/b", "/d/e"]));
    // a click past the listing changes nothing
    b.handle_row_click(9, PLAIN);
    assert_eq!(sorted_selection(&b), strings(&["/d/a", "/d/b", "/d/e"]));
}

#[test]
fn shift_click_range_below_anchor() {
    let mut b = FileBrowser::new("/d".to_string(), ViewMode::Details);
    let items = listing(&["/d/a", "/d/b", "/d/c", "/d/e"]);
    b.finish_refresh(items.clone(), None, items);
    b.handle_row_click(3, PLAIN);
    b.handle_row_click(1, SHIFT);
    assert_eq!(sorted_selection(&b), strings(&["/d/b", "/d/c", "/d/e"]));
}

#[test]
fn select_all_and_focus() {
    let mut b = FileBrowser::new("/d".to_string(), ViewMode::Grid);
    let items = listing(&["/d/a", "/d/b"]);
    b.finish_refresh(items.clone(), None, items);
    b.select_all();
    assert_eq!(sorted_selection(&b), strings(&["/d/a", "/d/b"]));
    assert_eq!(b.anchor_index, Some(0));
    assert_eq!(b.focused_index, Some(0));
    assert_eq!(b.selected_count(), 2);
}

#[test]
fn refresh_drops_vanished_selection_and_clamps_focus() {
    let mut b = FileBrowser::new("/d".to_string(), ViewMode::Details);
    let items = listing(&["/d/a", "/d/b", "/d/c"]);
    b.finish_refresh(items.clone(), None, items);
    b.handle_row_click(0, PLAIN);
    b.handle_row_click(2, SECONDARY);
    assert_eq!(b.focused_index, Some(2));
    let fewer = listing(&["/d/a"]);
    b.finish_refresh(fewer.clone(), None, fewer);
    assert_eq!(sorted_selection(&b), strings(&["/d/a"]));
    assert_eq!(b.focused_index, Some(0));
    assert_eq!(b.list_icon_warm_token, 2);
}

#[test]
fn refresh_error_is_kept() {
    let mut b = FileBrowser::new("/d".to_string(), ViewMode::Details);
    b.finish_refresh(Vec::new(), Some("denied".to_string()), Vec::new());
    assert_eq!(b.error.as_deref(), Some("denied"));
    assert_eq!(b.item_count(), 0);
}

#[test]
fn move_focus_stops_at_both_ends() {
    let mut b = FileBrowser::new("/d".to_string(), ViewMode::Details);
    let items = listing(&["/d/a", "/d/b", "/d/c"]);
    b.finish_refresh(items.clone(), None, items);
    b.move_focus(1);
    assert_eq!(b.focused_index, Some(1));
    b.move_focus(10);
    assert_eq!(b.focused_index, Some(2));
    b.move_focus(-10);
    assert_eq!(b.focused_index, Some(0));
    let mut empty = FileBrowser::new("/e".to_string(), ViewMode::Details);
    empty.move_focus(1);
    assert_eq!(empty.focused_index, None);
}

#[test]
fn common_parent_and_operation_directory() {
    let mut b = FileBrowser::new("/cur".to_string(), ViewMode::Columns);
    b.selected_paths = strings(&["/p/x", "/p//y"]);
    assert_eq!(b.selected_paths_common_parent().as_deref(), Some("/p"));
    assert_eq!(b.operation_directory(), "/p");
    b.selected_paths = strings(&["/p/x", "/q/y"]);
    assert_eq!(b.selected_paths_common_parent(), None);
    assert_eq!(b.operation_directory(), "/cur");
    b.column_trail = strings(&["/", "/p"]);
    b.active_column_index = Some(1);
    assert_eq!(b.operation_directory(), "/p");
    b.column_selected_path = Some((0, "/x".to_string()));
    assert_eq!(b.operation_directory(), "/");
    let mut details = FileBrowser::new("/cur".to_string(), ViewMode::Details);
    details.selected_paths = strings(&["/p/x"]);
    assert_eq!(details.operation_directory(), "/cur");
}

#[test]
fn drop_decisions() {
    assert_eq!(drop_transfer(&strings(&[]), "/d", true, false), None);
    assert_eq!(drop_transfer(&strings(&["/d/a", "/d/b"]), "/d", true, false), None);
    assert_eq!(drop_transfer(&strings(&["/e/a"]), "/d", false, false), None);
    assert_eq!(drop_transfer(&strings(&["/e/a", "/d/b"]), "/d", true, false), Some(FileTransferKind::Move));
    assert_eq!(drop_transfer(&strings(&["/e/a"]), "/d", true, true), Some(FileTransferKind::Copy));
    let b = FileBrowser::new("/d".to_string(), ViewMode::Details);
    let (kind, dest) = b.handle_drop(&strings(&["/e/a"]), false).unwrap();
    assert_eq!(kind, FileTransferKind::Move);
    assert_eq!(dest, "/d");
    assert!(b.handle_drop(&strings(&["/d/a"]), true).is_none());
}

#[test]
fn delete_cleanup_removes_paths_under_deleted() {
    let mut b = FileBrowser::new("/a/b/c".to_string(), ViewMode::Columns);
    b.back_stack = strings(&["/a", "/a/b", "/x"]);
    b.forward_stack = strings(&["/a/b/c/d", "/y"]);
    b.selected_paths = strings(&["/a/b", "/z"]);
    b.column_selected_path = Some((1, "/a/b/f".to_string()));
    b.active_column_index = Some(2);
    b.cleanup_after_delete(&strings(&["/a/b"]), "/home".to_string());
    assert_eq!(b.back_stack, strings(&["/a", "/x"]));
    assert_eq!(b.forward_stack, strings(&["/y"]));
    assert_eq!(b.current_dir, "/a");
    assert_eq!(b.active_column_index, None);
    assert!(b.selected_paths.is_empty());
    assert_eq!(b.column_selected_path, None);
}

#[test]
fn delete_cleanup_outside_columns_keeps_location() {
    let mut b = FileBrowser::new("/a/b".to_string(), ViewMode::Details);
    b.selected_paths = strings(&["/a/b/f", "/a/b/g"]);
    b.cleanup_after_delete(&strings(&["/a/b/f"]), "/home".to_string());
    assert_eq!(b.current_dir, "/a/b");
    assert_eq!(b.selected_paths, strings(&["/a/b/g"]));
}

#[test]
fn delete_cleanup_falls_back_to_home() {
    let mut b = FileBrowser::new("/a".to_string(), ViewMode::Columns);
    b.cleanup_after_delete(&strings(&["/"]), "/home/u".to_string());
    assert_eq!(b.current_dir, "/home/u");
}

#[test]
fn rename_moves_current_directory_and_history() {
    let mut b = FileBrowser::new("/a/old/sub".to_string(), ViewMode::Columns);
    b.back_stack = strings(&["/a/old", "/b"]);
    b.column_trail = strings(&["/", "/a", "/a/old", "/a/old/sub"]);
    b.watched_dir = Some("/a/old/sub".to_string());
    b.column_selected_path = Some((3, "/a/old/sub/f".to_string()));
    let moved = b.rewrite_paths_after_rename("/a/old", "/a/new");
    assert!(moved);
    assert_eq!(b.current_dir, "/a/new/sub");
    assert_eq!(b.back_stack, strings(&["/a/new", "/b"]));
    assert_eq!(b.column_trail, strings(&["/", "/a", "/a/new", "/a/new/sub"]));
    assert_eq!(b.watched_dir.as_deref(), Some("/a/new/sub"));
    assert_eq!(b.column_selected_path, Some((3, "/a/new/sub/f".to_string())));
    assert!(!b.rewatch_after_rename(false));
    assert!(b.rewatch_after_rename(true));
}

#[test]
fn rename_of_selected_item() {
    let mut b = FileBrowser::new("/a".to_string(), ViewMode::Details);
    b.selected_paths = strings(&["/a/f", "/a/g"]);
    b.rename_selected_path("/a/f", "/a/h".to_string());
    assert_eq!(sorted_selection(&b), strings(&["/a/g", "/a/h"]));
    assert!(!b.rewrite_paths_after_rename("/zzz", "/yyy"));
}

#[test]
fn view_mode_changes() {
    let mut b = FileBrowser::new("/a".to_string(), ViewMode::Details);
    b.selected_paths = strings(&["/a/f"]);
    assert_eq!(b.set_view_mode(ViewMode::Details), ViewModeChange::Unchanged);
    assert_eq!(b.selected_paths.len(), 1);
    assert_eq!(b.set_view_mode(ViewMode::Grid), ViewModeChange::Changed);
    assert!(b.selected_paths.is_empty());
    assert_eq!(b.set_view_mode(ViewMode::Columns), ViewModeChange::ReloadColumns);
    assert_eq!(b.set_view_mode(ViewMode::Cards), ViewModeChange::ReloadListing);
    b.set_sort_option(SortOption::Size);
    b.toggle_sort_direction();
    assert_eq!(b.preference_values(), ("cards", "size", "desc", false, true));
    b.toggle_show_hidden();
    assert!(b.show_hidden_items && b.show_dot_files);
    b.toggle_show_file_extensions();
    assert!(!b.show_file_extensions);
}

#[test]
fn saved_preferences_are_read() {
    let mut b = FileBrowser::new("/a".to_string(), ViewMode::Details);
    b.apply_saved_preferences(Some("modified"), Some("desc"), Some(true), false);
    assert_eq!(b.preference_values(), ("details", "modified", "desc", true, false));
    b.apply_saved_preferences(Some("bogus"), None, None, true);
    assert_eq!(b.preference_values(), ("details", "name", "desc", true, true));
}

#[test]
fn column_clicks() {
    let mut b = FileBrowser::new("/r/a".to_string(), ViewMode::Columns);
    b.column_trail = strings(&["/r", "/r/a"]);
    b.column_listings = vec![
        vec![item("/r/a", FileItemKind::Folder), item("/r/f.txt", FileItemKind::File), item("/r/g", FileItemKind::File)],
        vec![item("/r/a/x", FileItemKind::File)],
    ];
    assert_eq!(b.implicit_column_selected_index(0), Some(0));
    assert_eq!(b.implicit_column_selected_index(1), None);
    assert_eq!(b.implicit_column_base_selection(0), strings(&["/r/a"]));
    // the folder that opened the next column is the primary item
    assert_eq!(b.primary_path().as_deref(), Some("/r/a"));
    assert_eq!(b.effective_selected_paths(), strings(&["/r/a"]));
    // shift from the implicit anchor
    let listed = b.column_listings[0][2].clone();
    assert_eq!(b.handle_column_item_click(0, 2, &listed, SHIFT), ColumnClick::SelectionChanged);
    assert_eq!(sorted_selection(&b), strings(&["/r/a", "/r/f.txt", "/r/g"]));
    assert_eq!(b.active_column_index, Some(0));
    // a plain click on a file selects it and cuts the trail
    let file = b.column_listings[0][1].clone();
    assert_eq!(b.handle_column_item_click(0, 1, &file, PLAIN), ColumnClick::SelectedFile);
    assert_eq!(b.column_trail, strings(&["/r"]));
    assert_eq!(b.column_selected_path, Some((0, "/r/f.txt".to_string())));
    assert_eq!(sorted_selection(&b), strings(&["/r/f.txt"]));
    // a plain click on a folder opens it in a new column
    let folder = b.column_listings[0][0].clone();
    assert_eq!(b.handle_column_item_click(0, 0, &folder, PLAIN), ColumnClick::OpenedFolder);
    assert_eq!(b.column_trail, strings(&["/r", "/r/a"]));
    assert_eq!(b.current_dir, "/r/a");
    assert!(b.selected_paths.is_empty());
    assert_eq!(b.anchor_index, Some(0));
    assert!(b.activate_column(0));
    assert_eq!(b.current_dir, "/r");
    assert!(!b.activate_column(5));
}

#[test]
fn column_secondary_click_starts_from_implicit_selection() {
    let mut b = FileBrowser::new("/r/a".to_string(), ViewMode::Columns);
    b.column_trail = strings(&["/r", "/r/a"]);
    b.column_listings = vec![vec![item("/r/a", FileItemKind::Folder), item("/r/b", FileItemKind::File)]];
    let other = b.column_listings[0][1].clone();
    assert_eq!(b.handle_column_item_click(0, 1, &other, SECONDARY), ColumnClick::SelectionChanged);
    assert_eq!(sorted_selection(&b), strings(&["/r/a", "/r/b"]));
}

#[test]
fn primary_item_single_selection() {
    let mut b = FileBrowser::new("/d".to_string(), ViewMode::Details);
    let items = listing(&["/d/a", "/d/b"]);
    b.finish_refresh(items.clone(), None, items);
    assert!(b.primary_selected_item().is_none());
    b.handle_row_click(1, PLAIN);
    assert_eq!(b.primary_selected_item().unwrap().path, "/d/b");
    assert!(b.shows_directory("/d"));
    assert!(!b.shows_directory("/e"));
    assert!(!b.is_background_context_menu());
    assert_eq!(b.drag_paths_for_item("/d/b"), strings(&["/d/b"]));
    assert_eq!(b.drag_paths_for_item("/d/a"), strings(&["/d/a"]));
}

#[test]
fn effective_paths_are_in_path_order() {
    let mut b = FileBrowser::new("/d".to_string(), ViewMode::Details);
    b.selected_paths = strings(&["/d/b", "/d/a/z", "/d/a"]);
    assert_eq!(b.effective_selected_paths(), strings(&["/d/a", "/d/a/z", "/d/b"]));
    assert_eq!(b.drag_paths_for_item("/d/b"), strings(&["/d/a", "/d/a/z", "/d/b"]));
}

#[test]
fn open_item_decisions() {
    let mut b = FileBrowser::new("/d".to_string(), ViewMode::Details);
    assert_eq!(b.open_item("/d/f".to_string(), FileItemKind::File), OpenAction::OpenWithSystem);
    assert_eq!(b.open_item("/d/sub".to_string(), FileItemKind::Folder), OpenAction::Navigated(true));
    assert_eq!(b.current_dir, "/d/sub");
    b.open_file_tag("t".to_string(), "/home".to_string());
    assert_eq!(b.open_item("/x".to_string(), FileItemKind::Folder), OpenAction::NavigateApp);
}

#[test]
fn sweep_selection_toggles_or_replaces() {
    let base = strings(&["/d/a", "/d/b"]);
    let hits = strings(&["/d/b", "/d/c"]);
    let mut toggled = sweep_selection_from_hits(&base, &hits, true);
    toggled.sort();
    assert_eq!(toggled, strings(&["/d/a", "/d/c"]));
    let mut replaced = sweep_selection_from_hits(&base, &hits, false);
    replaced.sort();
    assert_eq!(replaced, strings(&["/d/b", "/d/c"]));
}

#[test]
fn sweep_on_main_surface() {
    let mut b = FileBrowser::new("/d".to_string(), ViewMode::Details);
    b.selected_paths = strings(&["/d/a"]);
    b.anchor_index = Some(4);
    let mut sweep = b.begin_sweep_selection(SweepSurface::Main, SECONDARY);
    assert_eq!(sweep.start_index, None);
    assert_eq!(sweep.base_selection, strings(&["/d/a"]));
    assert_eq!(b.selected_paths, strings(&["/d/a"]));
    assert!(update_sweep_hover(&mut sweep, SweepSurface::Main, 3));
    assert!(!update_sweep_hover(&mut sweep, SweepSurface::Main, 3));
    assert!(!update_sweep_hover(&mut sweep, SweepSurface::Column(0), 1));
    assert_eq!(sweep.start_index, Some(3));
    b.apply_sweep_hits(&sweep, &strings(&["/d/a", "/d/x"]));
    assert_eq!(b.selected_paths, strings(&["/d/x"]));
    assert_eq!(b.focused_index, None);
    let plain = b.begin_sweep_selection(SweepSurface::Main, PLAIN);
    assert!(b.selected_paths.is_empty());
    b.apply_sweep_hits(&plain, &strings(&["/d/y"]));
    assert_eq!(b.selected_paths, strings(&["/d/y"]));
}

#[test]
fn shell_cache_key_is_order_independent() {
    let a = strings(&["/d/b", "/d/a"]);
    let b = strings(&["/d/a", "/d//b"]);
    assert!(shell_cache_matches_selection(&a, &b));
    assert!(!shell_cache_matches_selection(&a, &strings(&["/d/a"])));
    assert_eq!(normalize_paths_for_shell_cache(&a), strings(&["/d/a", "/d/b"]));
    assert!(path_lists_equal(&strings(&["/x/"]), &strings(&["/x"])));
}

#[test]
fn shell_menu_fetch_cycle() {
    let mut b = FileBrowser::new("/d".to_string(), ViewMode::Details);
    assert!(b.request_shell_menu_fetch().is_none());
    b.selected_paths = strings(&["/d/b", "/d/a"]);
    let (key, generation) = b.request_shell_menu_fetch().unwrap();
    assert_eq!(key, strings(&["/d/a", "/d/b"]));
    assert_eq!(generation, 1);
    // the same fetch is not started twice
    assert!(b.request_shell_menu_fetch().is_none());
    assert_eq!(b.shell_submenu_snapshot(&key, false), ShellMenuState::Loading);
    b.context_menu_open = true;
    assert_eq!(
        b.finish_shell_menu_fetch(key.clone(), false, generation, Some(true)),
        ShellFetchOutcome::Applied { menu_open: true, retry: false }
    );
    assert_eq!(b.shell_menu_revision, 1);
    assert_eq!(b.shell_submenu_snapshot(&strings(&["/d/b", "/d/a"]), false), ShellMenuState::Ready);
    assert_eq!(b.shell_submenu_snapshot(&key, true), ShellMenuState::Loading);
    assert!(b.request_shell_menu_fetch().is_none());
    // a stale answer is ignored
    assert_eq!(b.finish_shell_menu_fetch(key.clone(), false, 99, None), ShellFetchOutcome::Stale);
    assert_eq!(b.shell_menu_revision, 1);
    // switching to extended verbs drops the cache
    assert!(b.set_context_menu_extended_verbs(true));
    assert_eq!(b.shell_menu_revision, 2);
    assert!(!b.set_context_menu_extended_verbs(true));
    let (key2, generation2) = b.request_shell_menu_fetch().unwrap();
    assert_eq!(generation2, 2);
    assert_eq!(
        b.finish_shell_menu_fetch(key2.clone(), true, generation2, None),
        ShellFetchOutcome::Applied { menu_open: true, retry: true }
    );
    assert!(b.shell_menu_retry_due(&key2));
    b.context_menu_open = false;
    assert!(!b.shell_menu_retry_due(&key2));
}

#[test]
fn navigation_clears_shell_cache() {
    let mut b = FileBrowser::new("/d".to_string(), ViewMode::Details);
    b.selected_paths = strings(&["/d/a"]);
    let (key, generation) = b.request_shell_menu_fetch().unwrap();
    b.finish_shell_menu_fetch(key, false, generation, Some(false));
    assert_eq!(b.shell_submenu_snapshot(&strings(&["/d/a"]), false), ShellMenuState::Empty);
    b.navigate_to("/e".to_string());
    assert!(b.shell_menu_cache.is_none());
}

#[test]
fn list_icon_warm_once_per_refresh() {
    let mut b = FileBrowser::new("/d".to_string(), ViewMode::Details);
    assert!(b.take_list_icon_warm());
    assert!(!b.take_list_icon_warm());
    b.finish_refresh(Vec::new(), None, Vec::new());
    assert!(b.take_list_icon_warm());
    assert!(!b.take_list_icon_warm());
}

#[test]
fn info_pane_switch_and_search_query() {
    let mut b = FileBrowser::new("/d".to_string(), ViewMode::Details);
    assert!(b.set_show_info_pane(true));
    assert!(!b.set_show_info_pane(true));
    b.set_search_query("abc".to_string());
    assert_eq!(b.search_query, "abc");
}
