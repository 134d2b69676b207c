use cyberfiles_ui::icons::{extension_svg_path, list_icon_key, list_icon_keys_for_items, named_icon_path, ListIconCache};
use cyberfiles_ui::locale::{
    init_locale, is_traditional_chinese, locale_for_system, normalize_locale, set_locale, LOCALE_ZH_HANS, LOCALE_ZH_HANT,
};
use cyberfiles_ui::model::{
    sort_direction_config_value, sort_direction_from_config, sort_option_config_value, sort_option_from_config,
    toggled_direction, Confirm, DraggedFilePaths, FileItem, FileItemKind, FileTransferKind, SortDirection, SortOption,
    ViewMode,
};

fn item(path: &str, kind: FileItemKind, extension: Option<&str>) -> FileItem {
    FileItem {
        path: path.to_string(),
        kind,
        extension: extension.map(|e| e.to_string()),
        display_name: path.to_string(),
        size: None,
    }
}

#[test]
fn named_icons() {
    assert_eq!(named_icon_path("folder"), Some("icons/ic_folder.svg"));
    assert_eq!(named_icon_path("paste"), Some("icons/ic_paste.svg"));
    assert_eq!(named_icon_path("new_file"), Some("icons/ic_new_file.svg"));
    assert_eq!(named_icon_path("Folder"), None);
    assert_eq!(named_icon_path("trash"), None);
}

#[test]
fn extension_icons_ignore_case() {
    assert_eq!(extension_svg_path("pdf"), Some("icons/ic_pdf.svg"));
    assert_eq!(extension_svg_path("PDF"), Some("icons/ic_pdf.svg"));
    assert_eq!(extension_svg_path("JpEg"), Some("icons/ic_image.svg"));
    assert_eq!(extension_svg_path("hpp"), Some("icons/ic_cpp.svg"));
    assert_eq!(extension_svg_path("yaml"), Some("icons/ic_yml.svg"));
    assert_eq!(extension_svg_path("rs"), Some("icons/ic_rust.svg"));
    assert_eq!(extension_svg_path("docx"), None);
    assert_eq!(extension_svg_path(""), None);
}

#[test]
fn list_icon_keys() {
    assert_eq!(list_icon_key(&item("/d", FileItemKind::Folder, None)), ":folder:");
    assert_eq!(list_icon_key(&item("/l", FileItemKind::Symlink, Some("zip"))), ":symlink:");
    assert_eq!(list_icon_key(&item("/a.ZIP", FileItemKind::File, Some("ZIP"))), ".zip");
    assert_eq!(list_icon_key(&item("/a.", FileItemKind::File, Some(""))), ":noext:");
    assert_eq!(list_icon_key(&item("/a", FileItemKind::Other, None)), ":noext:");
    let items = vec![
        item("/b.zip", FileItemKind::File, Some("zip")),
        item("/d", FileItemKind::Folder, None),
        item("/a.ZIP", FileItemKind::File, Some("ZIP")),
        item("/c.exe", FileItemKind::File, Some("exe")),
    ];
    assert_eq!(list_icon_keys_for_items(&items), vec![".exe".to_string(), ".zip".to_string(), ":folder:".to_string()]);
    assert!(list_icon_keys_for_items(&[]).is_empty());
}

#[test]
fn icon_cache_stores_and_warms() {
    let mut cache = ListIconCache::new();
    assert_eq!(cache.list_icon_png_cached(".zip", 16), None);
    cache.store_list_icon(".zip".to_string(), 16, vec![1, 2, 3]);
    cache.store_list_icon(".exe".to_string(), 16, Vec::new());
    assert_eq!(cache.list_icon_png_cached(".zip", 16), Some(vec![1, 2, 3]));
    assert_eq!(cache.list_icon_png_cached(".zip", 32), None);
    assert_eq!(cache.list_icon_png_cached(".exe", 16), None);
    cache.warm_list_icons(
        vec![".zip".to_string(), ".exe".to_string(), ":folder:".to_string()],
        16,
        vec![vec![9], vec![4, 4], Vec::new()],
    );
    assert_eq!(cache.list_icon_png_cached(".zip", 16), Some(vec![1, 2, 3]));
    assert_eq!(cache.list_icon_png_cached(".exe", 16), Some(vec![4, 4]));
    assert_eq!(cache.list_icon_png_cached(":folder:", 16), None);
    cache.store_list_icon(".zip".to_string(), 16, vec![7]);
    assert_eq!(cache.list_icon_png_cached(".zip", 16), Some(vec![7]));
}

#[test]
fn locales_are_normalized() {
    assert_eq!(normalize_locale("en"), "en");
    assert_eq!(normalize_locale("EN-us"), "en");
    assert_eq!(normalize_locale("english"), "en");
    assert_eq!(normalize_locale("zh-TW"), LOCALE_ZH_HANT);
    assert_eq!(normalize_locale("zh-Hant-CN"), LOCALE_ZH_HANT);
    assert_eq!(normalize_locale("zh_HK"), LOCALE_ZH_HANS);
    assert_eq!(normalize_locale("zh"), LOCALE_ZH_HANS);
    assert_eq!(normalize_locale("ZH-cn"), LOCALE_ZH_HANS);
    assert_eq!(normalize_locale("sr-Latn-hant"), LOCALE_ZH_HANT);
    assert_eq!(normalize_locale("fr-FR"), "en");
    assert_eq!(normalize_locale(""), "en");
    for l in ["en", "zh-CN", "zh-HK", "zh-tw", "de"] {
        let once = normalize_locale(l);
        assert_eq!(normalize_locale(once), once);
    }
    assert!(is_traditional_chinese("zh-sg"));
    assert!(is_traditional_chinese("zh-hant"));
    assert!(!is_traditional_chinese("zh-SG"));
    assert!(!is_traditional_chinese("zh-cn"));
    assert_eq!(locale_for_system(None), "en");
    assert_eq!(locale_for_system(Some("zh-MO".to_string())), "zh-HK");
}

#[test]
fn locale_is_applied() {
    assert_eq!(set_locale("zh-TW"), "zh-HK");
    assert_eq!(set_locale("de"), "en");
    let applied = init_locale();
    assert!(applied == "en" || applied == "zh-CN" || applied == "zh-HK");
}

#[test]
fn configuration_strings_round_trip() {
    for option in [
        SortOption::Name,
        SortOption::DateModified,
        SortOption::DateCreated,
        SortOption::Size,
        SortOption::FileType,
        SortOption::Path,
    ] {
        assert_eq!(sort_option_from_config(sort_option_config_value(option)), option);
    }
    assert_eq!(sort_option_from_config("weird"), SortOption::Name);
    for direction in [SortDirection::Ascending, SortDirection::Descending] {
        assert_eq!(sort_direction_from_config(sort_direction_config_value(direction)), direction);
        assert_ne!(toggled_direction(direction), direction);
    }
    assert_eq!(sort_direction_from_config("DESC"), SortDirection::Ascending);
    for mode in [ViewMode::Details, ViewMode::Grid, ViewMode::Cards, ViewMode::Columns] {
        assert_eq!(ViewMode::from_config(mode.config_value()), mode);
    }
    assert_eq!(ViewMode::from_config(ViewMode::List.config_value()), ViewMode::Details);
    assert_eq!(ViewMode::from_config("nonsense"), ViewMode::Details);
}

#[test]
fn plain_values() {
    let dragged = DraggedFilePaths(vec!["/a".to_string()]);
    assert_eq!(dragged.clone().0, vec!["/a".to_string()]);
    assert!(DraggedFilePaths::default().0.is_empty());
    assert_ne!(FileTransferKind::Copy, FileTransferKind::Move);
    assert_eq!(Confirm { secondary: true }, Confirm { secondary: true });
}
