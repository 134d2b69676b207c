use cyberfiles_ui::browser::FileBrowser;
use cyberfiles_ui::menu::{
    build_background_menu, build_context_menu, build_directory_item_menu, build_file_tag_item_menu,
    build_recycle_item_menu, layout_entries, new_entries, sort_entries, ItemMenuFacts, MenuCommand, MenuEntry,
    MenuPreferences, MenuSubmenu, ShellMenuState,
};
use cyberfiles_ui::model::{BrowseLocation, SortOption, ViewMode};

use MenuCommand as C;
use MenuEntry::{Check, Item, Notice, Separator, ShellEntries, ShellLoading, Submenu};

fn strings(v: &[&str]) -> Vec<String> {
    v.iter().map(|s| s.to_string()).collect()
}

fn facts(is_dir: Vec<bool>) -> ItemMenuFacts {
    ItemMenuFacts {
        is_dir,
        can_paste: false,
        open_with_available: false,
        send_to_available: false,
        pinned: false,
        exists: true,
        shell_submenu: true,
        shell: ShellMenuState::Loading,
    }
}

const ALL_PREFS: MenuPreferences = MenuPreferences {
    create_shortcut: true,
    compress: true,
    send_to: true,
    pin: true,
    open_in_terminal: true,
    file_tags: true,
};

const NO_PREFS: MenuPreferences = MenuPreferences {
    create_shortcut: false,
    compress: false,
    send_to: false,
    pin: false,
    open_in_terminal: false,
    file_tags: false,
};

#[test]
fn background_menu_in_a_directory() {
    let menu = build_background_menu(&BrowseLocation::Directory, true);
    assert_eq!(
        menu,
        vec![
            Item(C::Paste, true),
            Separator,
            Submenu(MenuSubmenu::Layout),
            Submenu(MenuSubmenu::Sort),
            Separator,
            Submenu(MenuSubmenu::New),
            Item(C::Refresh, true),
        ]
    );
}

#[test]
fn background_menu_in_recycle_bin_has_no_paste_or_new() {
    let menu = build_background_menu(&BrowseLocation::RecycleBin, true);
    assert_eq!(menu, vec![Submenu(MenuSubmenu::Layout), Submenu(MenuSubmenu::Sort), Item(C::Refresh, true)]);
    let tag = build_background_menu(&BrowseLocation::FileTag { tag_name: "t".to_string() }, false);
    assert_eq!(tag.len(), 3);
}

#[test]
fn submenus() {
    assert_eq!(
        layout_entries(ViewMode::Grid),
        vec![
            Check(C::ViewDetails, false),
            Check(C::ViewGrid, true),
            Check(C::ViewCards, false),
            Check(C::ViewColumns, false),
        ]
    );
    let sort = sort_entries(SortOption::Size, true);
    assert_eq!(sort[3], Check(C::SortBySize, true));
    assert_eq!(sort[0], Check(C::SortByName, false));
    assert_eq!(sort[5], Separator);
    assert_eq!(sort[7], Item(C::HideHidden, true));
    assert_eq!(sort_entries(SortOption::Name, false)[7], Item(C::ShowHidden, true));
    assert_eq!(new_entries(), vec![Item(C::NewFolder, true), Item(C::NewFile, true)]);
}

#[test]
fn directory_menu_for_a_single_file() {
    let paths = strings(&["/d/report.pdf"]);
    let menu = build_directory_item_menu(&paths, &facts(vec![false]), NO_PREFS);
    assert_eq!(
        menu,
        vec![
            Item(C::Cut, true),
            Item(C::Copy, true),
            Item(C::Paste, false),
            Item(C::Rename, true),
            Item(C::Delete, true),
            Item(C::Properties, true),
            Separator,
            Item(C::Open, true),
            Item(C::OpenWith, true),
            Item(C::OpenInNewTab, true),
            Item(C::OpenInNewWindow, true),
            Item(C::OpenInNewPane, true),
            Separator,
            Item(C::CopyPath, true),
            Item(C::OpenFileLocation, true),
            Separator,
            Submenu(MenuSubmenu::ShowMoreOptions),
        ]
    );
}

#[test]
fn directory_menu_for_several_folders_with_all_entries() {
    let paths = strings(&["/d/a", "/d/b"]);
    let mut f = facts(vec![true, true]);
    f.shell_submenu = false;
    f.shell = ShellMenuState::Ready;
    let menu = build_directory_item_menu(&paths, &f, ALL_PREFS);
    assert_eq!(
        menu[8..].to_vec(),
        vec![
            Separator,
            Item(C::CopyPath, true),
            Item(C::CreateFolderFromSelection, true),
            Item(C::CreateShortcut, true),
            Item(C::Compress, true),
            Notice(C::SendTo),
            Separator,
            Item(C::OpenInTerminal, true),
            Separator,
            Submenu(MenuSubmenu::AddToTag),
            Submenu(MenuSubmenu::RemoveFromTag),
            Separator,
            ShellEntries,
        ]
    );
    assert_eq!(menu[6], Separator);
    assert_eq!(menu[7], Item(C::Open, true));
}

#[test]
fn directory_menu_pins_and_shortcuts() {
    let single_dir = strings(&["/d/a"]);
    let mut f = facts(vec![true]);
    f.pinned = true;
    f.send_to_available = true;
    f.shell_submenu = false;
    let menu = build_directory_item_menu(&single_dir, &f, ALL_PREFS);
    assert!(menu.contains(&Item(C::Unpin, true)));
    assert!(!menu.contains(&Item(C::Pin, true)));
    assert!(menu.contains(&Submenu(MenuSubmenu::SendTo)));
    assert_eq!(*menu.last().unwrap(), ShellLoading);
    f.pinned = false;
    f.exists = false;
    let menu = build_directory_item_menu(&single_dir, &f, ALL_PREFS);
    assert!(!menu.contains(&Item(C::Pin, true)));
    f.exists = true;
    let menu = build_directory_item_menu(&single_dir, &f, ALL_PREFS);
    assert!(menu.contains(&Item(C::Pin, true)));
    let shortcut = strings(&["/d/App.LNK"]);
    let menu = build_directory_item_menu(&shortcut, &facts(vec![false]), ALL_PREFS);
    assert!(!menu.contains(&Item(C::CreateShortcut, true)));
    let mut with_open_with = facts(vec![false]);
    with_open_with.open_with_available = true;
    let menu = build_directory_item_menu(&shortcut, &with_open_with, NO_PREFS);
    assert_eq!(menu[8], Submenu(MenuSubmenu::OpenWith));
}

#[test]
fn directory_menu_with_empty_shell_entries() {
    let paths = strings(&["/d/a"]);
    let mut f = facts(vec![false]);
    f.shell_submenu = false;
    f.shell = ShellMenuState::Empty;
    let menu = build_directory_item_menu(&paths, &f, NO_PREFS);
    assert_eq!(*menu.last().unwrap(), Separator);
}

#[test]
fn recycle_and_file_tag_menus() {
    assert_eq!(
        build_recycle_item_menu(true, false),
        vec![
            Item(C::Open, true),
            Separator,
            Item(C::Copy, true),
            Separator,
            Item(C::DeletePermanent, true),
            Item(C::Properties, true),
            Item(C::Paste, false),
        ]
    );
    assert_eq!(
        build_file_tag_item_menu(true),
        vec![Item(C::Open, true), Item(C::OpenInNewTab, true), Item(C::CopyPath, true), Item(C::Properties, true)]
    );
    assert_eq!(build_file_tag_item_menu(false).len(), 3);
}

#[test]
fn context_menu_dispatch() {
    let mut b = FileBrowser::new("/d".to_string(), ViewMode::Details);
    let none: Vec<String> = Vec::new();
    let bg = build_context_menu(&b, &none, &facts(vec![]), NO_PREFS);
    assert_eq!(bg, build_background_menu(&BrowseLocation::Directory, false));
    b.selected_paths = strings(&["/d/a"]);
    let paths = b.effective_selected_paths();
    let item = build_context_menu(&b, &paths, &facts(vec![false]), NO_PREFS);
    assert_eq!(item, build_directory_item_menu(&paths, &facts(vec![false]), NO_PREFS));
    b.open_recycle_bin("/trash".to_string());
    b.selected_paths = strings(&["/trash/a"]);
    let recycle = build_context_menu(&b, &strings(&["/trash/a"]), &facts(vec![false]), NO_PREFS);
    assert_eq!(recycle, build_recycle_item_menu(true, false));
}
