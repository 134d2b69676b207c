use cyberfiles_ui::home::{parse_hex_color, thumbnail_cache_key, toggle_expanded, HomeSectionsExpanded};
use cyberfiles_ui::model::{breadcrumb_navigation_target, NavigationTarget};
use cyberfiles_ui::session::{
    active_tab_after_close, encode_session_target, move_pinned_folder, pin_folder_path, record_closed_tab,
    reopen_closed_tab_at, resolve_path_submit, submitted_path, toggle_pinned_folder, unpin_folder_path,
    ClosedTabSession, PathKind, MAX_CLOSED_TABS,
};
use cyberfiles_ui::transfer::{
    clipboard_after_paste, paste_source, reload_after_transfer, transfer_kind_for, ClipboardOperation, FileClipboard,
    ActiveTransfer,
};
use cyberfiles_ui::model::FileTransferKind;

fn strings(v: &[&str]) -> Vec<String> {
    v.iter().map(|s| s.to_string()).collect()
}

fn closed(tab: &str) -> ClosedTabSession {
    ClosedTabSession {
        tab: tab.to_string(),
        dual_pane: false,
        active_side: "primary".to_string(),
        secondary_tab: String::new(),
    }
}

#[test]
fn session_targets_are_encoded() {
    assert_eq!(encode_session_target(&NavigationTarget::Home, None, "/h"), "home");
    assert_eq!(encode_session_target(&NavigationTarget::RecycleBin, None, "/h"), "recycle");
    assert_eq!(encode_session_target(&NavigationTarget::Settings, None, "/h"), "settings");
    assert_eq!(encode_session_target(&NavigationTarget::FileTag("work".to_string()), None, "/h"), "tag:work");
    assert_eq!(encode_session_target(&NavigationTarget::Path("/x".to_string()), Some("/cur"), "/h"), "/cur");
    assert_eq!(encode_session_target(&NavigationTarget::Path("/x".to_string()), None, "/h"), "/h");
}

#[test]
fn stored_targets_read_back_as_breadcrumbs() {
    for target in [
        NavigationTarget::Home,
        NavigationTarget::Settings,
        NavigationTarget::RecycleBin,
        NavigationTarget::FileTag("work".to_string()),
    ] {
        let stored = encode_session_target(&target, None, "/h");
        assert_eq!(breadcrumb_navigation_target(&stored), target);
    }
}

#[test]
fn breadcrumb_targets() {
    assert_eq!(breadcrumb_navigation_target("HOME"), NavigationTarget::Home);
    assert_eq!(breadcrumb_navigation_target("Settings"), NavigationTarget::Settings);
    assert_eq!(breadcrumb_navigation_target("recycle"), NavigationTarget::RecycleBin);
    assert_eq!(breadcrumb_navigation_target("tag:"), NavigationTarget::FileTag(String::new()));
    assert_eq!(breadcrumb_navigation_target("TAG:x"), NavigationTarget::Path("TAG:x".to_string()));
    assert_eq!(breadcrumb_navigation_target("/home"), NavigationTarget::Path("/home".to_string()));
}

#[test]
fn closed_tabs_keep_newest_first_without_duplicates() {
    let mut list: Vec<ClosedTabSession> = Vec::new();
    record_closed_tab(&mut list, closed("/a"));
    record_closed_tab(&mut list, closed("/b"));
    record_closed_tab(&mut list, closed("/a"));
    let tabs: Vec<&str> = list.iter().map(|c| c.tab.as_str()).collect();
    assert_eq!(tabs, vec!["/a", "/b"]);
    for i in 0..20 {
        record_closed_tab(&mut list, closed(&format!("/t{i}")));
    }
    assert_eq!(list.len(), MAX_CLOSED_TABS);
    assert_eq!(list[0].tab, "/t19");
    assert_eq!(list[11].tab, "/t8");
    let reopened = reopen_closed_tab_at(&mut list, 1).unwrap();
    assert_eq!(reopened.tab, "/t18");
    assert_eq!(list.len(), MAX_CLOSED_TABS - 1);
    assert!(reopen_closed_tab_at(&mut list, 40).is_none());
}

#[test]
fn active_tab_after_closing() {
    assert_eq!(active_tab_after_close(1, 0, 0), None);
    assert_eq!(active_tab_after_close(3, 2, 2), Some(1));
    assert_eq!(active_tab_after_close(3, 2, 0), Some(1));
    assert_eq!(active_tab_after_close(4, 1, 3), Some(1));
    assert_eq!(active_tab_after_close(4, 2, 1), Some(1));
    assert_eq!(active_tab_after_close(4, 1, 1), Some(1));
}

#[test]
fn pinned_folders() {
    let mut pinned = strings(&["/a"]);
    assert!(pin_folder_path(&mut pinned, "/b"));
    assert!(!pin_folder_path(&mut pinned, "/b"));
    assert_eq!(pinned, strings(&["/a", "/b"]));
    assert!(unpin_folder_path(&mut pinned, "/b"));
    assert_eq!(pinned, strings(&["/a"]));
    assert!(!unpin_folder_path(&mut pinned, "/zzz"));
    let mut list = strings(&["/a", "/b", "/c"]);
    assert!(move_pinned_folder(&mut list, "/a", 1));
    assert_eq!(list, strings(&["/b", "/a", "/c"]));
    assert!(move_pinned_folder(&mut list, "/a", 10));
    assert_eq!(list, strings(&["/b", "/c", "/a"]));
    assert!(!move_pinned_folder(&mut list, "/a", 1));
    assert!(move_pinned_folder(&mut list, "/a", -5));
    assert_eq!(list, strings(&["/a", "/b", "/c"]));
    assert!(!move_pinned_folder(&mut list, "/x", 1));
    assert!(!toggle_pinned_folder(&mut list, "/b"));
    assert_eq!(list, strings(&["/a", "/c"]));
    assert!(toggle_pinned_folder(&mut list, "/b"));
    assert_eq!(list, strings(&["/a", "/c", "/b"]));
}

#[test]
fn omnibar_submissions() {
    assert_eq!(submitted_path("  /x/y \n"), "/x/y");
    assert_eq!(resolve_path_submit("   ", PathKind::Directory), None);
    assert_eq!(resolve_path_submit(" Home ", PathKind::Missing), Some(NavigationTarget::Home));
    assert_eq!(resolve_path_submit("SETTINGS", PathKind::Missing), Some(NavigationTarget::Settings));
    assert_eq!(resolve_path_submit("Recycle Bin", PathKind::Missing), Some(NavigationTarget::RecycleBin));
    assert_eq!(resolve_path_submit("recycle", PathKind::Missing), Some(NavigationTarget::RecycleBin));
    assert_eq!(resolve_path_submit("/x/y", PathKind::Directory), Some(NavigationTarget::Path("/x/y".to_string())));
    assert_eq!(resolve_path_submit("/x/y.txt", PathKind::File), Some(NavigationTarget::Path("/x".to_string())));
    assert_eq!(resolve_path_submit("/nowhere", PathKind::Missing), None);
}

#[test]
fn home_sections_and_keys() {
    let mut prefs = HomeSectionsExpanded { quick_access: true, drives: true, network: false, file_tags: true, recent: false };
    toggle_expanded(&mut prefs, "network");
    assert!(prefs.network);
    toggle_expanded(&mut prefs, "drives");
    assert!(!prefs.drives);
    toggle_expanded(&mut prefs, "unknown");
    assert_eq!(prefs, HomeSectionsExpanded { quick_access: true, drives: false, network: true, file_tags: true, recent: false });
    assert_eq!(thumbnail_cache_key("C:\\Users\\Ann\\Pictures"), "c:\\users\\ann\\pictures");
}

#[test]
fn hex_colors() {
    assert_eq!(parse_hex_color("#3a7bd5"), Some(0x3a7bd5));
    assert_eq!(parse_hex_color("  ##FFFFFF "), Some(0xffffff));
    assert_eq!(parse_hex_color("000000"), Some(0));
    assert_eq!(parse_hex_color("+f+f+f"), Some(0x0f0f0f));
    assert_eq!(parse_hex_color("#12345"), None);
    assert_eq!(parse_hex_color("#1234567"), None);
    assert_eq!(parse_hex_color("#12g456"), None);
    assert_eq!(parse_hex_color("#-12345"), None);
    assert_eq!(parse_hex_color("éé1234"), None);
}

#[test]
fn clipboard_and_transfers() {
    assert_eq!(transfer_kind_for(ClipboardOperation::Copy), FileTransferKind::Copy);
    assert_eq!(transfer_kind_for(ClipboardOperation::Cut), FileTransferKind::Move);
    let app = FileClipboard { operation: ClipboardOperation::Cut, paths: strings(&["/a"]) };
    let src = paste_source(Some(app), strings(&["/sys"])).unwrap();
    assert_eq!(src.operation, ClipboardOperation::Cut);
    assert_eq!(src.paths, strings(&["/a"]));
    let sys = paste_source(None, strings(&["/sys"])).unwrap();
    assert_eq!(sys.operation, ClipboardOperation::Copy);
    assert_eq!(sys.paths, strings(&["/sys"]));
    assert!(paste_source(None, Vec::new()).is_none());
    let empty = FileClipboard { operation: ClipboardOperation::Copy, paths: Vec::new() };
    assert!(paste_source(Some(empty), strings(&["/sys"])).is_none());
    let cut = FileClipboard { operation: ClipboardOperation::Cut, paths: strings(&["/a"]) };
    assert!(clipboard_after_paste(cut.clone(), true).is_none());
    assert_eq!(clipboard_after_paste(cut, false).unwrap().paths, strings(&["/a"]));
    let copy = FileClipboard { operation: ClipboardOperation::Copy, paths: strings(&["/a"]) };
    assert_eq!(clipboard_after_paste(copy, true).unwrap().operation, ClipboardOperation::Copy);
    assert!(reload_after_transfer(true, "/d", "/d/"));
    assert!(!reload_after_transfer(false, "/d", "/d"));
    assert!(!reload_after_transfer(true, "/d", "/e"));
}

#[test]
fn transfer_progress() {
    let mut p = ActiveTransfer::new("Copying".to_string(), 0);
    assert_eq!(p.message, "Copying");
    assert_eq!(p.total(), 1);
    assert_eq!(p.completed(), 0);
    assert!(!p.cancel_requested());
    p.set_completed(1);
    p.request_cancel();
    assert_eq!(p.completed(), 1);
    assert!(p.cancel_requested());
    assert_eq!(p.message, "Copying");
    assert_eq!(ActiveTransfer::new(String::new(), 7).total(), 7);
}
