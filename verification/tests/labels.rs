use cyberfiles_ui::commands::{
    format_system_time, keep_existing, load_files_dir, paths_for_file_tag, shortcut_script, terminal_arguments,
    FileTagEntry, ShortcutError, TerminalError,
};
use cyberfiles_ui::labels::{drag_preview_label, format_size, item_type_label, rename_basename_selection_end, TypeLabels};
use cyberfiles_ui::model::{FileItem, FileItemKind};

fn strings(v: &[&str]) -> Vec<String> {
    v.iter().map(|s| s.to_string()).collect()
}

fn labels() -> TypeLabels {
    TypeLabels {
        folder: "Folder".to_string(),
        symlink: "Link".to_string(),
        other: "Other".to_string(),
        file: "File".to_string(),
    }
}

fn file(path: &str, kind: FileItemKind, extension: Option<&str>) -> FileItem {
    FileItem {
        path: path.to_string(),
        kind,
        extension: extension.map(|e| e.to_string()),
        display_name: path.to_string(),
        size: None,
    }
}

#[test]
fn type_labels() {
    let l = labels();
    assert_eq!(item_type_label(&file("/a", FileItemKind::Folder, None), &l), "Folder");
    assert_eq!(item_type_label(&file("/a", FileItemKind::Symlink, None), &l), "Link");
    assert_eq!(item_type_label(&file("/a", FileItemKind::Other, None), &l), "Other");
    assert_eq!(item_type_label(&file("/a.pdf", FileItemKind::File, Some("pdf")), &l), "PDF file");
    assert_eq!(item_type_label(&file("/a.straße", FileItemKind::File, Some("straße")), &l), "STRASSE file");
    assert_eq!(item_type_label(&file("/a", FileItemKind::File, None), &l), "File");
}

#[test]
fn drag_labels() {
    assert_eq!(drag_preview_label(&strings(&["/d/report.pdf"]), "File", "items"), "report.pdf");
    assert_eq!(drag_preview_label(&strings(&["/"]), "File", "items"), "File");
    assert_eq!(drag_preview_label(&strings(&["/a", "/b", "/c"]), "File", "items"), "3 items");
    assert_eq!(drag_preview_label(&strings(&[]), "File", "items"), "0 items");
}

#[test]
fn rename_selection_covers_the_stem() {
    assert_eq!(rename_basename_selection_end("/d/report.pdf", "report.pdf", true), Some(6));
    assert_eq!(rename_basename_selection_end("/d/archive.tar.gz", "archive.tar.gz", true), Some(11));
    assert_eq!(rename_basename_selection_end("/d/😀x.txt", "😀x.txt", true), Some(3));
    assert_eq!(rename_basename_selection_end("/d/report.pdf", "report.pdf", false), None);
    assert_eq!(rename_basename_selection_end("/d/README", "README", true), None);
    assert_eq!(rename_basename_selection_end("/d/.bashrc", ".bashrc", true), None);
    assert_eq!(rename_basename_selection_end("/d/report.pdf", "other.pdf", true), None);
    assert_eq!(rename_basename_selection_end("/d/name.", "name.", true), None);
}

#[test]
fn sizes_in_units() {
    assert_eq!(format_size(None), "");
    assert_eq!(format_size(Some(0)), "0 B");
    assert_eq!(format_size(Some(1023)), "1023 B");
    assert_eq!(format_size(Some(1024)), "1.0 KB");
    assert_eq!(format_size(Some(1536)), "1.5 KB");
    assert_eq!(format_size(Some(1048576)), "1.0 MB");
    assert_eq!(format_size(Some(5 * 1073741824)), "5.0 GB");
    assert_eq!(format_size(Some(2 * 1099511627776)), "2.0 TB");
    assert_eq!(format_size(Some(1048575)), "1024.0 KB");
}

fn float_format_size(size: u64) -> String {
    const UNITS: [&str; 5] = ["B", "KB", "MB", "GB", "TB"];
    let mut value = size as f64;
    let mut unit = 0;
    while value >= 1024. && unit < UNITS.len() - 1 {
        value /= 1024.;
        unit += 1;
    }
    if unit == 0 {
        format!("{} {}", size, UNITS[unit])
    } else {
        format!("{value:.1} {}", UNITS[unit])
    }
}

#[test]
fn sizes_agree_with_float_formatting() {
    let mut samples: Vec<u64> = vec![1280, 1331, 1433, 2560, 3584, 1126, 10 * 1024 + 512, 1099511627776 * 1024 + 3];
    for k in 0..64u32 {
        let p = 1u64 << k;
        samples.push(p);
        samples.push(p - 1);
        samples.push(p + 1);
        samples.push(p.wrapping_mul(3) / 2);
    }
    samples.push(u64::MAX);
    samples.push(u64::MAX - 1024);
    samples.push((1u64 << 53) + 1);
    samples.push((1u64 << 60) + 12345);
    let mut x: u64 = 0x9E3779B97F4A7C15;
    for _ in 0..2000 {
        x ^= x << 13;
        x ^= x >> 7;
        x ^= x << 17;
        samples.push(x >> (x % 60));
    }
    for s in samples {
        assert_eq!(format_size(Some(s)), float_format_size(s), "size {s}");
    }
}

#[test]
fn terminal_arguments_for_folders_and_files() {
    assert_eq!(
        terminal_arguments(&strings(&["/a", "/b/f.txt"]), &vec![true, false]),
        Ok(strings(&["-d", "/a", ";", "nt", "-d", "/b"]))
    );
    assert_eq!(terminal_arguments(&strings(&[]), &vec![]), Ok(Vec::new()));
    assert_eq!(terminal_arguments(&strings(&["/"]), &vec![false]), Err(TerminalError::NoParentDirectory));
}

#[test]
fn shortcut_scripts() {
    assert_eq!(
        shortcut_script("/d/it's.txt"),
        Ok("$s = (New-Object -ComObject WScript.Shell).CreateShortcut('/d/Shortcut to it''s.lnk'); $s.TargetPath='/d/it''s.txt'; $s.Save()".to_string())
    );
    assert_eq!(
        shortcut_script("/d/.."),
        Ok("$s = (New-Object -ComObject WScript.Shell).CreateShortcut('/d/Shortcut to Shortcut.lnk'); $s.TargetPath='/d/..'; $s.Save()".to_string())
    );
    assert_eq!(shortcut_script("/"), Err(ShortcutError::NoParentDirectory));
}

#[test]
fn times_and_tags() {
    assert_eq!(format_system_time(None), "");
    assert_eq!(format_system_time(Some(0)).len(), 16);
    let epoch = format_system_time(Some(0));
    assert!(epoch.starts_with("1970-01-01 ") || epoch.starts_with("1969-12-31 "));
    let far = format_system_time(Some(300_000_000_000));
    let c: Vec<char> = far.chars().collect();
    let n = c.len();
    assert!(c[0] == '+' && n == 18);
    assert_eq!((c[n - 12], c[n - 9], c[n - 6], c[n - 3]), ('-', '-', ' ', ':'));
    assert!(c.iter().enumerate().all(|(i, ch)| i == 0 || [n - 12, n - 9, n - 6, n - 3].contains(&i) || ch.is_ascii_digit()));
    let tags = vec![
        FileTagEntry { name: "work".to_string(), paths: strings(&["/w/a", "/w/b"]) },
        FileTagEntry { name: "work".to_string(), paths: strings(&["/other"]) },
    ];
    assert_eq!(paths_for_file_tag("work", &tags), strings(&["/w/a", "/w/b"]));
    assert!(paths_for_file_tag("home", &tags).is_empty());
    assert_eq!(keep_existing(&strings(&["/a", "/b", "/c"]), &vec![true, false, true]), strings(&["/a", "/c"]));
}

#[test]
fn listing_from_read_result() {
    let (items, error) = load_files_dir(Err("no access".to_string()));
    assert!(items.is_empty());
    assert_eq!(error.as_deref(), Some("no access"));
    let read = vec![FileItem {
        path: "/a".to_string(),
        kind: FileItemKind::File,
        extension: None,
        display_name: "a".to_string(),
        size: Some(3),
    }];
    let (items, error) = load_files_dir(Ok(read));
    assert_eq!(items.len(), 1);
    assert!(error.is_none());
}
