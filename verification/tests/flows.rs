use cyberfiles_ui::browser::{FileBrowser, RenameCommit};
use cyberfiles_ui::commands::{format_system_time, MAX_TIMESTAMP, MIN_TIMESTAMP};
use cyberfiles_ui::model::{FileItem, FileItemKind, FileTransferKind, Modifiers, ViewMode};
use cyberfiles_ui::transfer::{finish_paste, plan_file_transfer, plan_paste, ClipboardOperation, FileClipboard};

fn item(path: &str, kind: FileItemKind) -> FileItem {
    let name = path.rsplit('/').next().unwrap_or(path).to_string();
    FileItem { path: path.to_string(), kind, extension: None, display_name: name, size: None }
}

fn strings(v: &[&str]) -> Vec<String> {
    v.iter().map(|s| s.to_string()).collect()
}

const PLAIN: Modifiers = Modifiers { shift: false, secondary: false };
const SECONDARY: Modifiers = Modifiers { shift: false, secondary: true };

fn browser_with(paths: &[&str]) -> FileBrowser {
    let mut b = FileBrowser::new("/d".to_string(), ViewMode::Details);
    let items: Vec<FileItem> = paths.iter().map(|p| item(p, FileItemKind::File)).collect();
    b.finish_refresh(items.clone(), None, items);
    b
}

#[test]
fn delete_asks_only_about_selected_paths() {
    let mut b = browser_with(&["/d/b", "/d/a"]);
    assert_eq!(b.delete_dialog_paths(), None);
    b.handle_row_click(0, PLAIN);
    b.handle_row_click(1, SECONDARY);
    assert_eq!(b.delete_dialog_paths(), Some(strings(&["/d/a", "/d/b"])));
    assert!(!b.after_delete(&strings(&["/d/a", "/d/b"]), "/home".to_string(), false));
    assert_eq!(b.selected_paths.len(), 2);
    assert!(b.after_delete(&strings(&["/d/a", "/d/b"]), "/home".to_string(), true));
    assert!(b.selected_paths.is_empty());
}

#[test]
fn rename_edit_fails_then_succeeds() {
    let mut b = browser_with(&["/d/a.txt"]);
    assert_eq!(b.begin_rename(), None);
    assert_eq!(b.commit_rename(Ok("/d/x".to_string())), RenameCommit::NotRenaming);
    b.handle_row_click(0, PLAIN);
    assert_eq!(b.begin_rename(), Some(("/d/a.txt".to_string(), "a.txt".to_string())));
    assert_eq!(b.renaming.as_deref(), Some("/d/a.txt"));
    assert_eq!(b.commit_rename(Err("denied".to_string())), RenameCommit::Failed);
    assert_eq!(b.renaming.as_deref(), Some("/d/a.txt"));
    assert_eq!(b.error.as_deref(), Some("denied"));
    assert_eq!(b.current_dir, "/d");
    assert_eq!(b.selected_paths, strings(&["/d/a.txt"]));
    assert_eq!(
        b.commit_rename(Ok("/d/b.txt".to_string())),
        RenameCommit::Renamed { location_changed: false, restart_watcher: true }
    );
    assert_eq!(b.renaming, None);
    assert_eq!(b.error, None);
    assert_eq!(b.selected_paths, strings(&["/d/b.txt"]));
    assert_eq!(b.watched_dir.as_deref(), Some("/d"));
    b.cancel_rename();
    assert_eq!(b.renaming, None);
}

#[test]
fn renaming_the_current_directory_moves_the_location() {
    let mut b = FileBrowser::new("/d/old".to_string(), ViewMode::Details);
    let items = vec![item("/d/old", FileItemKind::Folder)];
    b.finish_refresh(items.clone(), None, items);
    b.column_trail = strings(&["/d", "/d/old"]);
    b.handle_row_click(0, PLAIN);
    assert_eq!(b.begin_rename(), Some(("/d/old".to_string(), "old".to_string())));
    assert_eq!(
        b.commit_rename(Ok("/d/new".to_string())),
        RenameCommit::Renamed { location_changed: true, restart_watcher: true }
    );
    assert_eq!(b.current_dir, "/d/new");
    assert_eq!(b.column_trail, strings(&["/d", "/d/new"]));
    assert_eq!(b.selected_paths, strings(&["/d/new"]));
    b.install_column_listings(vec![vec![item("/d/new", FileItemKind::Folder)], Vec::new()]);
    assert_eq!(b.column_listings.len(), b.column_trail.len());
    assert_eq!(b.column_listings[0][0].path, "/d/new");
}

#[test]
fn transfers_need_sources() {
    assert!(plan_file_transfer(FileTransferKind::Copy, Vec::new(), "/d".to_string()).is_none());
    let job = plan_file_transfer(FileTransferKind::Move, strings(&["/a"]), "/d".to_string()).unwrap();
    assert_eq!(job.kind, FileTransferKind::Move);
    assert_eq!(job.sources, strings(&["/a"]));
    assert_eq!(job.destination, "/d");
    let empty = FileClipboard { operation: ClipboardOperation::Copy, paths: Vec::new() };
    assert!(plan_paste(&empty, "/d".to_string()).is_none());
    let cut = FileClipboard { operation: ClipboardOperation::Cut, paths: strings(&["/a"]) };
    let job = plan_paste(&cut, "/d".to_string()).unwrap();
    assert_eq!(job.kind, FileTransferKind::Move);
    assert_eq!(job.sources, strings(&["/a"]));
}

#[test]
fn paste_reloads_exactly_on_success() {
    let copy = FileClipboard { operation: ClipboardOperation::Copy, paths: strings(&["/a"]) };
    let (kept, reload) = finish_paste(copy.clone(), true);
    assert!(reload);
    assert_eq!(kept.unwrap().paths, strings(&["/a"]));
    let cut = FileClipboard { operation: ClipboardOperation::Cut, paths: strings(&["/a"]) };
    let (kept, reload) = finish_paste(cut.clone(), true);
    assert!(reload && kept.is_none());
    let (kept, reload) = finish_paste(cut, false);
    assert!(!reload);
    assert_eq!(kept.unwrap().operation, ClipboardOperation::Cut);
}

#[test]
fn timestamp_range_ends_format() {
    let first = format_system_time(Some(MIN_TIMESTAMP));
    assert!(first.starts_with("-262143-01-01 ") || first.starts_with("-262144-12-31 "));
    let last = format_system_time(Some(MAX_TIMESTAMP));
    assert!(last.starts_with("+262142-12-31 ") || last.starts_with("+262143-01-01 "));
}
