//! The entries of the file list's context menus: on the background, on
//! items of a directory, of the recycle bin and of a file tag.
use vstd::prelude::*;
use crate::model::{ViewMode, SortOption, BrowseLocation};
use crate::path::{extension_spec, path_extension, parent_spec, path_parent};
use crate::text::{lower_seq, eq_ignore_ascii_case};
use crate::selection::views;

verus! {

/// A command a menu entry runs.
#[derive(Clone, Copy, Debug, PartialEq, Eq, Structural)]
pub enum MenuCommand {
    Cut,
    Copy,
    Paste,
    Rename,
    Delete,
    DeletePermanent,
    Properties,
    Open,
    OpenWith,
    OpenInNewTab,
    OpenInNewWindow,
    OpenInNewPane,
    CopyPath,
    CreateFolderFromSelection,
    CreateShortcut,
    Compress,
    SendTo,
    Pin,
    Unpin,
    OpenFileLocation,
    OpenInTerminal,
    Refresh,
    NewFolder,
    NewFile,
    ViewDetails,
    ViewGrid,
    ViewCards,
    ViewColumns,
    SortByName,
    SortByModified,
    SortByCreated,
    SortBySize,
    SortByType,
    ToggleSortDirection,
    ShowHidden,
    HideHidden,
    Eject,
    Disconnect,
    StorageSense,
}

/// A submenu a menu entry opens.
#[derive(Clone, Copy, Debug, PartialEq, Eq, Structural)]
pub enum MenuSubmenu {
    Layout,
    Sort,
    New,
    OpenWith,
    SendTo,
    AddToTag,
    RemoveFromTag,
    ShowMoreOptions,
}

/// One entry of a context menu.
#[derive(Clone, Copy, Debug, PartialEq, Eq, Structural)]
pub enum MenuEntry {
    /// A command, greyed out when not enabled.
    Item(MenuCommand, bool),
    /// A command with a check mark when `checked`.
    Check(MenuCommand, bool),
    /// A command that only tells that it is not available yet.
    Notice(MenuCommand),
    /// A submenu.
    Submenu(MenuSubmenu),
    /// The system's menu entries are still loading.
    ShellLoading,
    /// The system's menu entries, inline.
    ShellEntries,
    Separator,
}

/// Which item entries the user turned on.
#[derive(Clone, Copy, Debug, PartialEq, Eq, Structural)]
pub struct MenuPreferences {
    pub create_shortcut: bool,
    pub compress: bool,
    pub send_to: bool,
    pub pin: bool,
    pub open_in_terminal: bool,
    pub file_tags: bool,
}

/// Where the system's menu entries for the selection stand.
#[derive(Clone, Copy, Debug, PartialEq, Eq, Structural)]
pub enum ShellMenuState {
    Loading,
    Empty,
    Ready,
}

/// What an item menu depends on besides the selected paths: which of them
/// are directories, whether the app clipboard holds items, whether the
/// system offers "open with" and "send to" entries, whether the single
/// selected folder is pinned and exists, whether the system entries go in a
/// submenu, and where those entries stand.
#[derive(Debug)]
pub struct ItemMenuFacts {
    pub is_dir: Vec<bool>,
    pub can_paste: bool,
    pub open_with_available: bool,
    pub send_to_available: bool,
    pub pinned: bool,
    pub exists: bool,
    pub shell_submenu: bool,
    pub shell: ShellMenuState,
}

/// `s` when `c` holds, else nothing.
pub open spec fn when(c: bool, s: Seq<MenuEntry>) -> Seq<MenuEntry> {
    if c {
        s
    } else {
        Seq::empty()
    }
}

/// The entries of the layout submenu, the current mode checked.
pub open spec fn layout_entries_spec(mode: ViewMode) -> Seq<MenuEntry> {
    seq![
        MenuEntry::Check(MenuCommand::ViewDetails, mode == ViewMode::Details),
        MenuEntry::Check(MenuCommand::ViewGrid, mode == ViewMode::Grid),
        MenuEntry::Check(MenuCommand::ViewCards, mode == ViewMode::Cards),
        MenuEntry::Check(MenuCommand::ViewColumns, mode == ViewMode::Columns),
    ]
}

/// The entries of the sort submenu: the sort fields, the current one
/// checked, then the direction toggle and the hidden-items toggle.
pub open spec fn sort_entries_spec(option: SortOption, show_hidden: bool) -> Seq<MenuEntry> {
    seq![
        MenuEntry::Check(MenuCommand::SortByName, option == SortOption::Name),
        MenuEntry::Check(MenuCommand::SortByModified, option == SortOption::DateModified),
        MenuEntry::Check(MenuCommand::SortByCreated, option == SortOption::DateCreated),
        MenuEntry::Check(MenuCommand::SortBySize, option == SortOption::Size),
        MenuEntry::Check(MenuCommand::SortByType, option == SortOption::FileType),
        MenuEntry::Separator,
        MenuEntry::Item(MenuCommand::ToggleSortDirection, true),
        MenuEntry::Item(if show_hidden { MenuCommand::HideHidden } else { MenuCommand::ShowHidden }, true),
    ]
}

/// The entries of the "new" submenu.
pub open spec fn new_entries_spec() -> Seq<MenuEntry> {
    seq![MenuEntry::Item(MenuCommand::NewFolder, true), MenuEntry::Item(MenuCommand::NewFile, true)]
}

/// The background menu: paste (outside the recycle bin and file tags),
/// layout and sort, "new" (outside the recycle bin and file tags), refresh.
pub open spec fn background_menu_spec(plain_directory: bool, can_paste: bool) -> Seq<MenuEntry> {
    when(plain_directory, seq![MenuEntry::Item(MenuCommand::Paste, can_paste), MenuEntry::Separator])
        + seq![MenuEntry::Submenu(MenuSubmenu::Layout), MenuEntry::Submenu(MenuSubmenu::Sort)]
        + when(plain_directory, seq![MenuEntry::Separator, MenuEntry::Submenu(MenuSubmenu::New)])
        + seq![MenuEntry::Item(MenuCommand::Refresh, true)]
}

/// The clipboard and editing commands at the top of a directory item menu.
pub open spec fn clipboard_entries_spec(has_selection: bool, can_paste: bool) -> Seq<MenuEntry> {
    seq![
        MenuEntry::Item(MenuCommand::Cut, has_selection),
        MenuEntry::Item(MenuCommand::Copy, has_selection),
        MenuEntry::Item(MenuCommand::Paste, can_paste),
        MenuEntry::Item(MenuCommand::Rename, has_selection),
        MenuEntry::Item(MenuCommand::Delete, has_selection),
        MenuEntry::Item(MenuCommand::Properties, has_selection),
    ]
}

/// Whether a path names a shortcut (`.lnk` in any case).
pub open spec fn is_shortcut(p: Seq<char>) -> bool {
    match extension_spec(p) {
        Some(e) => lower_seq(e) == "lnk"@,
        None => false,
    }
}

/// "Open with", for a single file: a submenu when the system offers entries.
pub open spec fn open_with_entries_spec(single_file: bool, available: bool) -> Seq<MenuEntry> {
    when(single_file, seq![if available {
        MenuEntry::Submenu(MenuSubmenu::OpenWith)
    } else {
        MenuEntry::Item(MenuCommand::OpenWith, true)
    }])
}

/// The entries that open a single item elsewhere.
pub open spec fn open_elsewhere_entries_spec(single: bool) -> Seq<MenuEntry> {
    when(single, seq![
        MenuEntry::Item(MenuCommand::OpenInNewTab, true),
        MenuEntry::Item(MenuCommand::OpenInNewWindow, true),
        MenuEntry::Item(MenuCommand::OpenInNewPane, true),
    ])
}

/// "Send to", when turned on and something is selected: a submenu when the
/// system offers entries, else a notice.
pub open spec fn send_to_entries_spec(shown: bool, available: bool) -> Seq<MenuEntry> {
    when(shown, seq![if available {
        MenuEntry::Submenu(MenuSubmenu::SendTo)
    } else {
        MenuEntry::Notice(MenuCommand::SendTo)
    }])
}

/// Pin or unpin, for a single folder when turned on: unpin when it is
/// pinned, pin when it is not and exists.
pub open spec fn pin_entries_spec(shown: bool, pinned: bool, exists: bool) -> Seq<MenuEntry> {
    when(shown && pinned, seq![MenuEntry::Item(MenuCommand::Unpin, true)])
        + when(shown && !pinned && exists, seq![MenuEntry::Item(MenuCommand::Pin, true)])
}

/// The file tag submenus and the closing separator.
pub open spec fn tag_entries_spec(file_tags: bool) -> Seq<MenuEntry> {
    when(file_tags, seq![
        MenuEntry::Separator,
        MenuEntry::Submenu(MenuSubmenu::AddToTag),
        MenuEntry::Submenu(MenuSubmenu::RemoveFromTag),
    ]) + seq![MenuEntry::Separator]
}

/// The system's entries for a selection: a submenu, or inline (loading,
/// nothing, or the entries).
pub open spec fn shell_entries_spec(has_selection: bool, submenu: bool, shell: ShellMenuState) -> Seq<MenuEntry> {
    when(has_selection && submenu, seq![MenuEntry::Submenu(MenuSubmenu::ShowMoreOptions)])
        + when(has_selection && !submenu && shell == ShellMenuState::Loading, seq![MenuEntry::ShellLoading])
        + when(has_selection && !submenu && shell == ShellMenuState::Ready, seq![MenuEntry::ShellEntries])
}

/// Whether every selected path is a directory (and something is selected).
pub open spec fn all_dirs_spec(is_dir: Seq<bool>) -> bool {
    is_dir.len() > 0 && forall|i: int| 0 <= i < is_dir.len() ==> #[trigger] is_dir[i]
}

/// Whether a selected path is a shortcut.
pub open spec fn has_shortcut_spec(paths: Seq<Seq<char>>) -> bool {
    exists|i: int| 0 <= i < paths.len() && is_shortcut(#[trigger] paths[i])
}

/// The menu of the selected items of a directory.
pub open spec fn directory_item_menu_spec(
    paths: Seq<Seq<char>>,
    is_dir: Seq<bool>,
    facts: ItemMenuFacts,
    prefs: MenuPreferences,
) -> Seq<MenuEntry> {
    let has_selection = paths.len() > 0;
    let single = paths.len() == 1;
    let single_dir = single && is_dir[0];
    clipboard_entries_spec(has_selection, facts.can_paste)
        + seq![MenuEntry::Separator, MenuEntry::Item(MenuCommand::Open, true)]
        + open_with_entries_spec(single && !is_dir[0], facts.open_with_available)
        + open_elsewhere_entries_spec(single)
        + seq![MenuEntry::Separator, MenuEntry::Item(MenuCommand::CopyPath, true)]
        + when(paths.len() > 1, seq![MenuEntry::Item(MenuCommand::CreateFolderFromSelection, true)])
        + when(prefs.create_shortcut && has_selection && !has_shortcut_spec(paths), seq![MenuEntry::Item(MenuCommand::CreateShortcut, true)])
        + when(prefs.compress, seq![MenuEntry::Item(MenuCommand::Compress, true)])
        + send_to_entries_spec(prefs.send_to && has_selection, facts.send_to_available)
        + pin_entries_spec(prefs.pin && single_dir, facts.pinned, facts.exists)
        + when(single && parent_spec(paths[0]) is Some, seq![MenuEntry::Item(MenuCommand::OpenFileLocation, true)])
        + when(prefs.open_in_terminal && all_dirs_spec(is_dir), seq![MenuEntry::Separator, MenuEntry::Item(MenuCommand::OpenInTerminal, true)])
        + tag_entries_spec(prefs.file_tags)
        + shell_entries_spec(has_selection, facts.shell_submenu, facts.shell)
}

/// The menu of the selected items of the recycle bin.
pub open spec fn recycle_item_menu_spec(has_selection: bool, can_paste: bool) -> Seq<MenuEntry> {
    seq![
        MenuEntry::Item(MenuCommand::Open, true),
        MenuEntry::Separator,
        MenuEntry::Item(MenuCommand::Copy, has_selection),
        MenuEntry::Separator,
        MenuEntry::Item(MenuCommand::DeletePermanent, has_selection),
        MenuEntry::Item(MenuCommand::Properties, true),
        MenuEntry::Item(MenuCommand::Paste, can_paste),
    ]
}

/// The menu of the selected items of a file tag.
pub open spec fn file_tag_item_menu_spec(single_dir: bool) -> Seq<MenuEntry> {
    seq![MenuEntry::Item(MenuCommand::Open, true)]
        + when(single_dir, seq![MenuEntry::Item(MenuCommand::OpenInNewTab, true)])
        + seq![MenuEntry::Item(MenuCommand::CopyPath, true), MenuEntry::Item(MenuCommand::Properties, true)]
}

/// The entries of the layout submenu.
pub fn layout_entries(mode: ViewMode) -> (r: Vec<MenuEntry>)
    ensures
        r@ == layout_entries_spec(mode),
{
    let r = vec![
        MenuEntry::Check(MenuCommand::ViewDetails, mode == ViewMode::Details),
        MenuEntry::Check(MenuCommand::ViewGrid, mode == ViewMode::Grid),
        MenuEntry::Check(MenuCommand::ViewCards, mode == ViewMode::Cards),
        MenuEntry::Check(MenuCommand::ViewColumns, mode == ViewMode::Columns),
    ];
    proof {
        assert(r@ =~= layout_entries_spec(mode));
    }
    r
}

/// The entries of the sort submenu.
pub fn sort_entries(option: SortOption, show_hidden: bool) -> (r: Vec<MenuEntry>)
    ensures
        r@ == sort_entries_spec(option, show_hidden),
{
    let hidden = if show_hidden { MenuCommand::HideHidden } else { MenuCommand::ShowHidden };
    let r = vec![
        MenuEntry::Check(MenuCommand::SortByName, option == SortOption::Name),
        MenuEntry::Check(MenuCommand::SortByModified, option == SortOption::DateModified),
        MenuEntry::Check(MenuCommand::SortByCreated, option == SortOption::DateCreated),
        MenuEntry::Check(MenuCommand::SortBySize, option == SortOption::Size),
        MenuEntry::Check(MenuCommand::SortByType, option == SortOption::FileType),
        MenuEntry::Separator,
        MenuEntry::Item(MenuCommand::ToggleSortDirection, true),
        MenuEntry::Item(hidden, true),
    ];
    proof {
        assert(r@ =~= sort_entries_spec(option, show_hidden));
    }
    r
}

/// The entries of the "new" submenu.
pub fn new_entries() -> (r: Vec<MenuEntry>)
    ensures
        r@ == new_entries_spec(),
{
    let r = vec![MenuEntry::Item(MenuCommand::NewFolder, true), MenuEntry::Item(MenuCommand::NewFile, true)];
    proof {
        assert(r@ =~= new_entries_spec());
    }
    r
}

/// The menu shown on the background of the file list.
pub fn build_background_menu(location: &BrowseLocation, can_paste: bool) -> (r: Vec<MenuEntry>)
    ensures
        r@ == background_menu_spec(location is Directory, can_paste),
{
    let plain = matches!(location, BrowseLocation::Directory);
    let mut r: Vec<MenuEntry> = Vec::new();
    if plain {
        r.push(MenuEntry::Item(MenuCommand::Paste, can_paste));
        r.push(MenuEntry::Separator);
    }
    r.push(MenuEntry::Submenu(MenuSubmenu::Layout));
    r.push(MenuEntry::Submenu(MenuSubmenu::Sort));
    if plain {
        r.push(MenuEntry::Separator);
        r.push(MenuEntry::Submenu(MenuSubmenu::New));
    }
    r.push(MenuEntry::Item(MenuCommand::Refresh, true));
    proof {
        assert(r@ =~= background_menu_spec(plain, can_paste));
    }
    r
}

/// Whether a path names a shortcut.
fn path_is_shortcut(p: &str) -> (r: bool)
    ensures
        r == is_shortcut(p@),
{
    match path_extension(p) {
        Some(e) => {
            let r = eq_ignore_ascii_case(e.as_str(), "lnk");
            proof {
                reveal_strlit("lnk");
                assert(lower_seq("lnk"@) =~= "lnk"@);
            }
            r
        },
        None => false,
    }
}

/// Appends `entry` when `c` holds.
fn push_when(r: &mut Vec<MenuEntry>, c: bool, entry: MenuEntry)
    ensures
        final(r)@ == old(r)@ + when(c, seq![entry]),
{
    if c {
        r.push(entry);
    }
    proof {
        if c {
            assert(final(r)@ =~= old(r)@ + seq![entry]);
        } else {
            assert(final(r)@ =~= old(r)@ + Seq::<MenuEntry>::empty());
        }
    }
}

/// Appends two entries when `c` holds.
fn push_two_when(r: &mut Vec<MenuEntry>, c: bool, a: MenuEntry, b: MenuEntry)
    ensures
        final(r)@ == old(r)@ + when(c, seq![a, b]),
{
    if c {
        r.push(a);
        r.push(b);
    }
    proof {
        if c {
            assert(final(r)@ =~= old(r)@ + seq![a, b]);
        } else {
            assert(final(r)@ =~= old(r)@ + Seq::<MenuEntry>::empty());
        }
    }
}

/// Whether every selected path is a directory, and whether one is a shortcut.
fn selection_kinds(paths: &Vec<String>, is_dir: &Vec<bool>) -> (r: (bool, bool))
    requires
        is_dir.len() == paths.len(),
    ensures
        r.0 == all_dirs_spec(is_dir@),
        r.1 == has_shortcut_spec(views(paths@)),
{
    let ghost pv = views(paths@);
    let n = paths.len();
    let mut all_dirs = n > 0;
    let mut has_shortcut = false;
    let mut i: usize = 0;
    while i < n
        invariant
            i <= n,
            n == paths.len(),
            n == is_dir.len(),
            pv == views(paths@),
            all_dirs == (n > 0 && forall|k: int| 0 <= k < i ==> #[trigger] is_dir@[k]),
            has_shortcut == exists|k: int| 0 <= k < i && is_shortcut(#[trigger] pv[k]),
        decreases n - i,
    {
        if !is_dir[i] {
            all_dirs = false;
        }
        proof {
            assert(pv[i as int] == paths@[i as int]@);
        }
        if path_is_shortcut(paths[i].as_str()) {
            has_shortcut = true;
        }
        i += 1;
    }
    (all_dirs, has_shortcut)
}

/// Appends the entries that open a single item elsewhere.
fn push_open_elsewhere(r: &mut Vec<MenuEntry>, single: bool)
    ensures
        final(r)@ == old(r)@ + open_elsewhere_entries_spec(single),
{
    if single {
        r.push(MenuEntry::Item(MenuCommand::OpenInNewTab, true));
        r.push(MenuEntry::Item(MenuCommand::OpenInNewWindow, true));
        r.push(MenuEntry::Item(MenuCommand::OpenInNewPane, true));
    }
    proof {
        assert(final(r)@ =~= old(r)@ + open_elsewhere_entries_spec(single));
    }
}

/// Appends pin or unpin.
fn push_pin(r: &mut Vec<MenuEntry>, shown: bool, pinned: bool, exists: bool)
    ensures
        final(r)@ == old(r)@ + pin_entries_spec(shown, pinned, exists),
{
    if shown && pinned {
        r.push(MenuEntry::Item(MenuCommand::Unpin, true));
    } else if shown && exists {
        r.push(MenuEntry::Item(MenuCommand::Pin, true));
    }
    proof {
        assert(final(r)@ =~= old(r)@ + pin_entries_spec(shown, pinned, exists));
    }
}

/// Appends the file tag submenus and the closing separator.
fn push_tags(r: &mut Vec<MenuEntry>, file_tags: bool)
    ensures
        final(r)@ == old(r)@ + tag_entries_spec(file_tags),
{
    if file_tags {
        r.push(MenuEntry::Separator);
        r.push(MenuEntry::Submenu(MenuSubmenu::AddToTag));
        r.push(MenuEntry::Submenu(MenuSubmenu::RemoveFromTag));
    }
    r.push(MenuEntry::Separator);
    proof {
        assert(final(r)@ =~= old(r)@ + tag_entries_spec(file_tags));
    }
}

/// Appends the system's entries for a selection.
fn push_shell(r: &mut Vec<MenuEntry>, has_selection: bool, submenu: bool, shell: ShellMenuState)
    ensures
        final(r)@ == old(r)@ + shell_entries_spec(has_selection, submenu, shell),
{
    if has_selection && submenu {
        r.push(MenuEntry::Submenu(MenuSubmenu::ShowMoreOptions));
    } else if has_selection {
        match shell {
            ShellMenuState::Loading => r.push(MenuEntry::ShellLoading),
            ShellMenuState::Empty => {},
            ShellMenuState::Ready => r.push(MenuEntry::ShellEntries),
        }
    }
    proof {
        assert(final(r)@ =~= old(r)@ + shell_entries_spec(has_selection, submenu, shell));
    }
}

/// The menu of the selected items (`paths`) of a directory.
pub fn build_directory_item_menu(paths: &Vec<String>, facts: &ItemMenuFacts, prefs: MenuPreferences) -> (r: Vec<MenuEntry>)
    requires
        facts.is_dir.len() == paths.len(),
    ensures
        r@ == directory_item_menu_spec(views(paths@), facts.is_dir@, *facts, prefs),
{
    let n = paths.len();
    let has_selection = n > 0;
    let single = n == 1;
    let single_file = single && !facts.is_dir[0];
    let single_dir = single && facts.is_dir[0];
    let (all_dirs, has_shortcut) = selection_kinds(paths, &facts.is_dir);

    let mut r = clipboard_entries(has_selection, facts.can_paste);
    push_two_when(&mut r, true, MenuEntry::Separator, MenuEntry::Item(MenuCommand::Open, true));
    push_when(&mut r, single_file, if facts.open_with_available {
        MenuEntry::Submenu(MenuSubmenu::OpenWith)
    } else {
        MenuEntry::Item(MenuCommand::OpenWith, true)
    });
    push_open_elsewhere(&mut r, single);
    push_two_when(&mut r, true, MenuEntry::Separator, MenuEntry::Item(MenuCommand::CopyPath, true));
    push_when(&mut r, n > 1, MenuEntry::Item(MenuCommand::CreateFolderFromSelection, true));
    push_when(&mut r, prefs.create_shortcut && has_selection && !has_shortcut, MenuEntry::Item(MenuCommand::CreateShortcut, true));
    push_when(&mut r, prefs.compress, MenuEntry::Item(MenuCommand::Compress, true));
    push_when(&mut r, prefs.send_to && has_selection, if facts.send_to_available {
        MenuEntry::Submenu(MenuSubmenu::SendTo)
    } else {
        MenuEntry::Notice(MenuCommand::SendTo)
    });
    push_pin(&mut r, prefs.pin && single_dir, facts.pinned, facts.exists);
    let has_location = single && path_parent(paths[0].as_str()).is_some();
    proof {
        if single {
            assert(views(paths@)[0] == paths@[0]@);
        }
    }
    push_when(&mut r, has_location, MenuEntry::Item(MenuCommand::OpenFileLocation, true));
    push_two_when(&mut r, prefs.open_in_terminal && all_dirs, MenuEntry::Separator, MenuEntry::Item(MenuCommand::OpenInTerminal, true));
    push_tags(&mut r, prefs.file_tags);
    push_shell(&mut r, has_selection, facts.shell_submenu, facts.shell);
    r
}

/// The clipboard and editing commands.
pub fn clipboard_entries(has_selection: bool, can_paste: bool) -> (r: Vec<MenuEntry>)
    ensures
        r@ == clipboard_entries_spec(has_selection, can_paste),
{
    let r = vec![
        MenuEntry::Item(MenuCommand::Cut, has_selection),
        MenuEntry::Item(MenuCommand::Copy, has_selection),
        MenuEntry::Item(MenuCommand::Paste, can_paste),
        MenuEntry::Item(MenuCommand::Rename, has_selection),
        MenuEntry::Item(MenuCommand::Delete, has_selection),
        MenuEntry::Item(MenuCommand::Properties, has_selection),
    ];
    proof {
        assert(r@ =~= clipboard_entries_spec(has_selection, can_paste));
    }
    r
}

/// The menu of the selected items of the recycle bin.
pub fn build_recycle_item_menu(has_selection: bool, can_paste: bool) -> (r: Vec<MenuEntry>)
    ensures
        r@ == recycle_item_menu_spec(has_selection, can_paste),
{
    let r = vec![
        MenuEntry::Item(MenuCommand::Open, true),
        MenuEntry::Separator,
        MenuEntry::Item(MenuCommand::Copy, has_selection),
        MenuEntry::Separator,
        MenuEntry::Item(MenuCommand::DeletePermanent, has_selection),
        MenuEntry::Item(MenuCommand::Properties, true),
        MenuEntry::Item(MenuCommand::Paste, can_paste),
    ];
    proof {
        assert(r@ =~= recycle_item_menu_spec(has_selection, can_paste));
    }
    r
}

/// The menu of the selected items of a file tag; `single_dir` is whether
/// exactly one folder is selected.
pub fn build_file_tag_item_menu(single_dir: bool) -> (r: Vec<MenuEntry>)
    ensures
        r@ == file_tag_item_menu_spec(single_dir),
{
    let mut r: Vec<MenuEntry> = Vec::new();
    r.push(MenuEntry::Item(MenuCommand::Open, true));
    if single_dir {
        r.push(MenuEntry::Item(MenuCommand::OpenInNewTab, true));
    }
    r.push(MenuEntry::Item(MenuCommand::CopyPath, true));
    r.push(MenuEntry::Item(MenuCommand::Properties, true));
    proof {
        assert(r@ =~= file_tag_item_menu_spec(single_dir));
    }
    r
}


/// The context menu of the file list: on the background when nothing is
/// selected, otherwise the item menu of the location shown. `paths` are the
/// paths item commands act on.
pub open spec fn context_menu_spec(
    location: BrowseLocation,
    nothing_selected: bool,
    paths: Seq<Seq<char>>,
    facts: ItemMenuFacts,
    prefs: MenuPreferences,
) -> Seq<MenuEntry> {
    if nothing_selected {
        background_menu_spec(location is Directory, facts.can_paste)
    } else {
        match location {
            BrowseLocation::RecycleBin => recycle_item_menu_spec(true, facts.can_paste),
            BrowseLocation::FileTag { .. } => file_tag_item_menu_spec(paths.len() == 1 && facts.is_dir@[0]),
            BrowseLocation::Directory => directory_item_menu_spec(paths, facts.is_dir@, facts, prefs),
        }
    }
}

/// Builds the file list's context menu for `browser`; `paths` are its
/// command paths (`effective_selected_paths`) and `facts` describe them.
pub fn build_context_menu(
    browser: &crate::browser::FileBrowser,
    paths: &Vec<String>,
    facts: &ItemMenuFacts,
    prefs: MenuPreferences,
) -> (r: Vec<MenuEntry>)
    requires
        facts.is_dir.len() == paths.len(),
    ensures
        r@ == context_menu_spec(browser.browse_location, browser.selected_paths.len() == 0, views(paths@), *facts, prefs),
{
    if browser.is_background_context_menu() {
        return build_background_menu(&browser.browse_location, facts.can_paste);
    }
    match &browser.browse_location {
        BrowseLocation::RecycleBin => build_recycle_item_menu(browser.selected_paths.len() > 0, facts.can_paste),
        BrowseLocation::FileTag { .. } => build_file_tag_item_menu(paths.len() == 1 && facts.is_dir[0]),
        BrowseLocation::Directory => build_directory_item_menu(paths, facts, prefs),
    }
}

/// The home page's menu of a folder card: open, open in a new tab, pin or
/// unpin, properties.
pub open spec fn home_folder_menu_spec(is_pinned: bool) -> Seq<MenuEntry> {
    seq![
        MenuEntry::Item(MenuCommand::Open, true),
        MenuEntry::Item(MenuCommand::OpenInNewTab, true),
        MenuEntry::Item(if is_pinned { MenuCommand::Unpin } else { MenuCommand::Pin }, true),
        MenuEntry::Item(MenuCommand::Properties, true),
    ]
}

/// The home page's menu of a folder card.
pub fn home_folder_menu(is_pinned: bool) -> (r: Vec<MenuEntry>)
    ensures
        r@ == home_folder_menu_spec(is_pinned),
{
    let r = vec![
        MenuEntry::Item(MenuCommand::Open, true),
        MenuEntry::Item(MenuCommand::OpenInNewTab, true),
        MenuEntry::Item(if is_pinned { MenuCommand::Unpin } else { MenuCommand::Pin }, true),
        MenuEntry::Item(MenuCommand::Properties, true),
    ];
    proof {
        assert(r@ =~= home_folder_menu_spec(is_pinned));
    }
    r
}

/// The home page's menu of a recent file: open, open in a new tab, properties.
pub open spec fn home_file_menu_spec() -> Seq<MenuEntry> {
    seq![
        MenuEntry::Item(MenuCommand::Open, true),
        MenuEntry::Item(MenuCommand::OpenInNewTab, true),
        MenuEntry::Item(MenuCommand::Properties, true),
    ]
}

/// The home page's menu of a recent file.
pub fn home_file_menu() -> (r: Vec<MenuEntry>)
    ensures
        r@ == home_file_menu_spec(),
{
    let r = vec![
        MenuEntry::Item(MenuCommand::Open, true),
        MenuEntry::Item(MenuCommand::OpenInNewTab, true),
        MenuEntry::Item(MenuCommand::Properties, true),
    ];
    proof {
        assert(r@ =~= home_file_menu_spec());
    }
    r
}

/// What the drive menu depends on.
#[derive(Clone, Copy, Debug, PartialEq, Eq, Structural)]
pub struct DriveFacts {
    pub is_removable: bool,
    pub is_network: bool,
    pub has_total_bytes: bool,
}

/// The home page's menu of a drive: the folder menu (never pinned), then
/// disconnect for a network drive or eject for a removable one, and the
/// storage settings for a fixed drive whose size is known.
pub open spec fn home_drive_menu_spec(drive: DriveFacts) -> Seq<MenuEntry> {
    home_folder_menu_spec(false)
        + when(drive.is_removable || drive.is_network, seq![MenuEntry::Item(
            if drive.is_network { MenuCommand::Disconnect } else { MenuCommand::Eject }, true)])
        + when(!drive.is_removable && !drive.is_network && drive.has_total_bytes,
            seq![MenuEntry::Item(MenuCommand::StorageSense, true)])
}

/// The home page's menu of a drive.
pub fn home_drive_menu(drive: DriveFacts) -> (r: Vec<MenuEntry>)
    ensures
        r@ == home_drive_menu_spec(drive),
{
    let mut r = home_folder_menu(false);
    if drive.is_removable || drive.is_network {
        r.push(MenuEntry::Item(if drive.is_network { MenuCommand::Disconnect } else { MenuCommand::Eject }, true));
    }
    if !drive.is_removable && !drive.is_network && drive.has_total_bytes {
        r.push(MenuEntry::Item(MenuCommand::StorageSense, true));
    }
    proof {
        assert(r@ =~= home_drive_menu_spec(drive));
    }
    r
}


/// The sort field a sort command of the sort submenu picks.
pub open spec fn sort_command_field(c: MenuCommand) -> Option<SortOption> {
    match c {
        MenuCommand::SortByName => Some(SortOption::Name),
        MenuCommand::SortByModified => Some(SortOption::DateModified),
        MenuCommand::SortByCreated => Some(SortOption::DateCreated),
        MenuCommand::SortBySize => Some(SortOption::Size),
        MenuCommand::SortByType => Some(SortOption::FileType),
        _ => None,
    }
}

/// Whether a menu entry is the check entry of sort field `f`.
pub open spec fn is_check_for(x: MenuEntry, f: SortOption) -> bool {
    match x {
        MenuEntry::Check(c, _) => sort_command_field(c) == Some(f),
        _ => false,
    }
}

/// Whether the entries hold a check entry for sort field `f`.
pub open spec fn offers_sort_field(e: Seq<MenuEntry>, f: SortOption) -> bool {
    exists|i: int| 0 <= i < e.len() && #[trigger] is_check_for(e[i], f)
}

/// Law: in the sort submenu every check entry is a sort field's command,
/// checked exactly when the list is sorted by that field; each of the five
/// fields offered has an entry, and at most one entry is checked (exactly
/// one unless the list is sorted by a field the submenu does not offer).
pub proof fn law_sort_menu_checks_current_field(option: SortOption, show_hidden: bool)
    ensures
        ({
            let e = sort_entries_spec(option, show_hidden);
            &&& forall|i: int| 0 <= i < e.len() ==> match #[trigger] e[i] {
                MenuEntry::Check(c, checked) => sort_command_field(c) is Some
                    && checked == (sort_command_field(c) == Some(option)),
                _ => true,
            }
            &&& forall|f: SortOption| f != SortOption::Path ==> #[trigger] offers_sort_field(e, f)
            &&& forall|i: int, j: int| 0 <= i < e.len() && 0 <= j < e.len()
                && (#[trigger] e[i] matches MenuEntry::Check(_, true)) && (#[trigger] e[j] matches MenuEntry::Check(_, true)) ==> i == j
            &&& option != SortOption::Path ==> exists|i: int| 0 <= i < e.len() && (#[trigger] e[i] matches MenuEntry::Check(_, true))
        }),
{
    let e = sort_entries_spec(option, show_hidden);
    assert forall|f: SortOption| f != SortOption::Path implies #[trigger] offers_sort_field(e, f) by {
        match f {
            SortOption::Name => assert(is_check_for(e[0], f)),
            SortOption::DateModified => assert(is_check_for(e[1], f)),
            SortOption::DateCreated => assert(is_check_for(e[2], f)),
            SortOption::Size => assert(is_check_for(e[3], f)),
            SortOption::FileType => assert(is_check_for(e[4], f)),
            SortOption::Path => {},
        }
    }
    if option != SortOption::Path {
        match option {
            SortOption::Name => assert(e[0] matches MenuEntry::Check(_, true)),
            SortOption::DateModified => assert(e[1] matches MenuEntry::Check(_, true)),
            SortOption::DateCreated => assert(e[2] matches MenuEntry::Check(_, true)),
            SortOption::Size => assert(e[3] matches MenuEntry::Check(_, true)),
            SortOption::FileType => assert(e[4] matches MenuEntry::Check(_, true)),
            SortOption::Path => {},
        }
    }
}

} // verus!
