//! The values the file browser works on: listed items, view modes, sort
//! preferences, where a browser is and where navigation can go.
use vstd::prelude::*;
use crate::text::{string_from, string_of_range, chars_of, lower_seq, starts_with_seq, starts_with_chars, eq_ignore_ascii_case};
use crate::language::eq_lit;

verus! {

/// What kind of file system entry an item is.
#[derive(Clone, Copy, Debug, PartialEq, Eq, Structural)]
pub enum FileItemKind {
    Folder,
    File,
    Symlink,
    Other,
}

/// One entry of a directory listing.
#[derive(Clone, Debug)]
pub struct FileItem {
    pub path: String,
    pub kind: FileItemKind,
    pub extension: Option<String>,
    pub display_name: String,
    pub size: Option<u64>,
}

/// A copy of an optional string.
pub fn clone_opt_string(s: &Option<String>) -> (r: Option<String>)
    ensures
        r == *s,
{
    match s {
        Some(v) => Some(v.clone()),
        None => None,
    }
}

impl FileItem {
    /// A copy of the item.
    pub fn duplicate(&self) -> (r: FileItem)
        ensures
            r == *self,
    {
        FileItem {
            path: self.path.clone(),
            kind: self.kind,
            extension: clone_opt_string(&self.extension),
            display_name: self.display_name.clone(),
            size: self.size,
        }
    }
}

/// The paths of a list of items.
pub open spec fn item_paths(items: Seq<FileItem>) -> Seq<Seq<char>> {
    items.map_values(|it: FileItem| it.path@)
}

/// How the file list is laid out.
#[derive(Clone, Copy, Debug, PartialEq, Eq, Structural)]
pub enum ViewMode {
    Details,
    List,
    Grid,
    Cards,
    Columns,
}

/// What the file list is sorted by.
#[derive(Clone, Copy, Debug, PartialEq, Eq, Structural)]
pub enum SortOption {
    Name,
    DateModified,
    DateCreated,
    Size,
    FileType,
    Path,
}

/// Which way the file list is sorted.
#[derive(Clone, Copy, Debug, PartialEq, Eq, Structural)]
pub enum SortDirection {
    Ascending,
    Descending,
}

/// What a browser shows: a directory, the recycle bin or the files of a tag.
#[derive(Clone, Debug, PartialEq, Eq)]
pub enum BrowseLocation {
    Directory,
    RecycleBin,
    FileTag { tag_name: String },
}

/// Where the app can navigate.
#[derive(Clone, Debug, PartialEq, Eq)]
pub enum NavigationTarget {
    Home,
    Settings,
    RecycleBin,
    FileTag(String),
    Path(String),
}

/// Whether `t` is where a breadcrumb with path `path` leads (see
/// `breadcrumb_navigation_target`).
pub open spec fn breadcrumb_target_spec(path: Seq<char>, t: NavigationTarget) -> bool {
    match t {
        NavigationTarget::Home => lower_seq(path) == "home"@,
        NavigationTarget::Settings => lower_seq(path) != "home"@ && lower_seq(path) == "settings"@,
        NavigationTarget::RecycleBin => lower_seq(path) != "home"@ && lower_seq(path) != "settings"@
            && lower_seq(path) == "recycle"@,
        NavigationTarget::FileTag(name) => lower_seq(path) != "home"@ && lower_seq(path) != "settings"@
            && lower_seq(path) != "recycle"@ && starts_with_seq(path, "tag:"@) && name@ == path.skip(4),
        NavigationTarget::Path(p) => lower_seq(path) != "home"@ && lower_seq(path) != "settings"@
            && lower_seq(path) != "recycle"@ && !starts_with_seq(path, "tag:"@) && p@ == path,
    }
}

/// Whether two navigation targets lead to the same place.
pub open spec fn same_target(a: NavigationTarget, b: NavigationTarget) -> bool {
    match (a, b) {
        (NavigationTarget::Home, NavigationTarget::Home) => true,
        (NavigationTarget::Settings, NavigationTarget::Settings) => true,
        (NavigationTarget::RecycleBin, NavigationTarget::RecycleBin) => true,
        (NavigationTarget::FileTag(x), NavigationTarget::FileTag(y)) => x@ == y@,
        (NavigationTarget::Path(x), NavigationTarget::Path(y)) => x@ == y@,
        _ => false,
    }
}

/// Where a breadcrumb's path leads: the pseudo paths `home`, `settings` and
/// `recycle` (in any ASCII case) name pages, `tag:` followed by a name names a
/// file tag, and anything else is a folder path.
pub fn breadcrumb_navigation_target(path: &str) -> (t: NavigationTarget)
    ensures
        breadcrumb_target_spec(path@, t),
{
    proof {
        reveal_strlit("home");
        reveal_strlit("settings");
        reveal_strlit("recycle");
        reveal_strlit("tag:");
    }
    if eq_ignore_ascii_case(path, "home") {
        proof { lemma_lower_literal("home"@); }
        NavigationTarget::Home
    } else if eq_ignore_ascii_case(path, "settings") {
        proof { lemma_lower_literal("home"@); lemma_lower_literal("settings"@); }
        NavigationTarget::Settings
    } else if eq_ignore_ascii_case(path, "recycle") {
        proof { lemma_lower_literal("home"@); lemma_lower_literal("settings"@); lemma_lower_literal("recycle"@); }
        NavigationTarget::RecycleBin
    } else {
        proof { lemma_lower_literal("home"@); lemma_lower_literal("settings"@); lemma_lower_literal("recycle"@); }
        let cs = chars_of(path);
        let prefix = chars_of("tag:");
        if starts_with_chars(cs.as_slice(), prefix.as_slice()) {
            let name = string_of_range(cs.as_slice(), 4, cs.len());
            proof {
                assert(cs@.subrange(4, cs@.len() as int) =~= path@.skip(4));
            }
            NavigationTarget::FileTag(name)
        } else {
            NavigationTarget::Path(string_from(path))
        }
    }
}

/// A string of lowercase letters is its own lowercase form.
proof fn lemma_lower_literal(s: Seq<char>)
    requires
        forall|i: int| 0 <= i < s.len() ==> 'a' <= #[trigger] s[i] <= 'z',
    ensures
        lower_seq(s) == s,
{
    assert(lower_seq(s) =~= s);
}

/// The modifier keys of a click: shift extends, secondary (ctrl, or cmd on macOS) toggles.
#[derive(Clone, Copy, Debug, PartialEq, Eq, Structural)]
pub struct Modifiers {
    pub shift: bool,
    pub secondary: bool,
}

/// Whether a transfer copies or moves.
#[derive(Clone, Copy, Debug, PartialEq, Eq, Structural)]
pub enum FileTransferKind {
    Copy,
    Move,
}

/// Paths being dragged between the app's drop targets.
#[derive(Clone, Debug, Default)]
pub struct DraggedFilePaths(pub Vec<String>);

/// The popup menu's confirm action; `secondary` asks for the alternate command.
#[derive(Clone, Copy, Debug, PartialEq, Eq, Structural)]
pub struct Confirm {
    pub secondary: bool,
}

/// The configuration string of each view mode.
pub open spec fn view_mode_config_spec(mode: ViewMode) -> Seq<char> {
    match mode {
        ViewMode::Details => "details"@,
        ViewMode::List => "list"@,
        ViewMode::Grid => "grid"@,
        ViewMode::Cards => "cards"@,
        ViewMode::Columns => "columns"@,
    }
}

/// `ViewMode::from_config`: grid, cards and columns are read back; anything
/// else, the list mode's string included, gives the details view.
pub open spec fn view_mode_from_config_spec(value: Seq<char>) -> ViewMode {
    if value == "grid"@ {
        ViewMode::Grid
    } else if value == "cards"@ {
        ViewMode::Cards
    } else if value == "columns"@ {
        ViewMode::Columns
    } else {
        ViewMode::Details
    }
}

impl ViewMode {
    /// The view mode stored under `value`.
    pub fn from_config(value: &str) -> (m: ViewMode)
        ensures
            m == view_mode_from_config_spec(value@),
    {
        let v = crate::text::chars_of(value);
        if eq_lit(v.as_slice(), "grid") {
            ViewMode::Grid
        } else if eq_lit(v.as_slice(), "cards") {
            ViewMode::Cards
        } else if eq_lit(v.as_slice(), "columns") {
            ViewMode::Columns
        } else {
            ViewMode::Details
        }
    }

    /// The string under which the view mode is stored.
    pub fn config_value(self) -> (s: &'static str)
        ensures
            s@ == view_mode_config_spec(self),
    {
        match self {
            ViewMode::Details => "details",
            ViewMode::List => "list",
            ViewMode::Grid => "grid",
            ViewMode::Cards => "cards",
            ViewMode::Columns => "columns",
        }
    }
}

/// The configuration string of each sort option.
pub open spec fn sort_option_config_spec(option: SortOption) -> Seq<char> {
    match option {
        SortOption::Name => "name"@,
        SortOption::DateModified => "modified"@,
        SortOption::DateCreated => "created"@,
        SortOption::Size => "size"@,
        SortOption::FileType => "type"@,
        SortOption::Path => "path"@,
    }
}

/// `sort_option_from_config`: unknown strings sort by name.
pub open spec fn sort_option_from_config_spec(value: Seq<char>) -> SortOption {
    if value == "modified"@ {
        SortOption::DateModified
    } else if value == "created"@ {
        SortOption::DateCreated
    } else if value == "size"@ {
        SortOption::Size
    } else if value == "type"@ {
        SortOption::FileType
    } else if value == "path"@ {
        SortOption::Path
    } else {
        SortOption::Name
    }
}

/// The sort option stored under `value`.
pub fn sort_option_from_config(value: &str) -> (o: SortOption)
    ensures
        o == sort_option_from_config_spec(value@),
{
    let v = crate::text::chars_of(value);
    let v = v.as_slice();
    if eq_lit(v, "modified") {
        SortOption::DateModified
    } else if eq_lit(v, "created") {
        SortOption::DateCreated
    } else if eq_lit(v, "size") {
        SortOption::Size
    } else if eq_lit(v, "type") {
        SortOption::FileType
    } else if eq_lit(v, "path") {
        SortOption::Path
    } else {
        SortOption::Name
    }
}

/// The string under which a sort option is stored.
pub fn sort_option_config_value(option: SortOption) -> (s: &'static str)
    ensures
        s@ == sort_option_config_spec(option),
{
    match option {
        SortOption::Name => "name",
        SortOption::DateModified => "modified",
        SortOption::DateCreated => "created",
        SortOption::Size => "size",
        SortOption::FileType => "type",
        SortOption::Path => "path",
    }
}

/// The configuration string of each sort direction.
pub open spec fn sort_direction_config_spec(direction: SortDirection) -> Seq<char> {
    match direction {
        SortDirection::Ascending => "asc"@,
        SortDirection::Descending => "desc"@,
    }
}

/// `sort_direction_from_config`: only `desc` is descending.
pub open spec fn sort_direction_from_config_spec(value: Seq<char>) -> SortDirection {
    if value == "desc"@ {
        SortDirection::Descending
    } else {
        SortDirection::Ascending
    }
}

/// The sort direction stored under `value`.
pub fn sort_direction_from_config(value: &str) -> (d: SortDirection)
    ensures
        d == sort_direction_from_config_spec(value@),
{
    let v = crate::text::chars_of(value);
    if eq_lit(v.as_slice(), "desc") {
        SortDirection::Descending
    } else {
        SortDirection::Ascending
    }
}

/// The string under which a sort direction is stored.
pub fn sort_direction_config_value(direction: SortDirection) -> (s: &'static str)
    ensures
        s@ == sort_direction_config_spec(direction),
{
    match direction {
        SortDirection::Ascending => "asc",
        SortDirection::Descending => "desc",
    }
}

/// The opposite sort direction (the "toggle direction" command).
pub fn toggled_direction(direction: SortDirection) -> (d: SortDirection)
    ensures
        d != direction,
        d == (match direction {
            SortDirection::Ascending => SortDirection::Descending,
            SortDirection::Descending => SortDirection::Ascending,
        }),
{
    match direction {
        SortDirection::Ascending => SortDirection::Descending,
        SortDirection::Descending => SortDirection::Ascending,
    }
}

/// Two strings of different lengths differ.
pub proof fn lemma_lengths_differ(a: Seq<char>, b: Seq<char>)
    requires
        a.len() != b.len(),
    ensures
        a != b,
{
}

/// Two strings that differ at their first character differ.
pub proof fn lemma_first_differs(a: Seq<char>, b: Seq<char>)
    requires
        a.len() > 0,
        b.len() > 0,
        a[0] != b[0],
    ensures
        a != b,
{
}

/// Law: every sort option is read back from the string it is stored under.
pub proof fn law_sort_option_round_trip(option: SortOption)
    ensures
        sort_option_from_config_spec(sort_option_config_spec(option)) == option,
{
    reveal_strlit("name");
    reveal_strlit("modified");
    reveal_strlit("created");
    reveal_strlit("size");
    reveal_strlit("type");
    reveal_strlit("path");
    lemma_first_differs("name"@, "modified"@);
    lemma_first_differs("name"@, "created"@);
    lemma_first_differs("name"@, "size"@);
    lemma_first_differs("name"@, "type"@);
    lemma_first_differs("name"@, "path"@);
    lemma_first_differs("created"@, "modified"@);
    lemma_first_differs("size"@, "modified"@);
    lemma_first_differs("size"@, "created"@);
    lemma_first_differs("type"@, "modified"@);
    lemma_first_differs("type"@, "created"@);
    lemma_first_differs("type"@, "size"@);
    lemma_first_differs("path"@, "modified"@);
    lemma_first_differs("path"@, "created"@);
    lemma_first_differs("path"@, "size"@);
    lemma_first_differs("path"@, "type"@);
}

/// Law: every sort direction is read back from the string it is stored under.
pub proof fn law_sort_direction_round_trip(direction: SortDirection)
    ensures
        sort_direction_from_config_spec(sort_direction_config_spec(direction)) == direction,
{
    reveal_strlit("asc");
    reveal_strlit("desc");
    lemma_lengths_differ("asc"@, "desc"@);
}

/// Law: every view mode but the list view is read back from its stored
/// string; the list view's string reads back as the details view.
pub proof fn law_view_mode_round_trip(mode: ViewMode)
    ensures
        mode != ViewMode::List ==> view_mode_from_config_spec(view_mode_config_spec(mode)) == mode,
        view_mode_from_config_spec(view_mode_config_spec(ViewMode::List)) == ViewMode::Details,
{
    reveal_strlit("details");
    reveal_strlit("list");
    reveal_strlit("grid");
    reveal_strlit("cards");
    reveal_strlit("columns");
    lemma_first_differs("details"@, "grid"@);
    lemma_first_differs("details"@, "cards"@);
    lemma_first_differs("details"@, "columns"@);
    lemma_first_differs("list"@, "grid"@);
    lemma_first_differs("list"@, "cards"@);
    lemma_first_differs("list"@, "columns"@);
    lemma_first_differs("cards"@, "grid"@);
    lemma_lengths_differ("columns"@, "grid"@);
    lemma_lengths_differ("columns"@, "cards"@);
}

} // verus!
