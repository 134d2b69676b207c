//! The state of a file browser pane and the decisions it makes: where it is
//! and how it got there, which items are selected and focused, the columns
//! of the column view, and what follows a delete or a rename.
use vstd::prelude::*;
use crate::model::{FileItem, FileItemKind, ViewMode, SortOption, SortDirection, BrowseLocation,
    NavigationTarget, Modifiers, FileTransferKind, sort_option_from_config, sort_direction_from_config};
use crate::path::{same_path, components, parent_spec, path_parent, paths_equal, path_starts_with,
    path_starts_with_spec, renamed_path, renamed_path_spec, rewrite_path_list, rewritten_entry,
    law_parent_drops_last_component};
use crate::selection::{comp_set, sel_unique, views, sel_contains, sel_insert, sel_remove,
    clone_strings, sorted_selection, sorted_paths, path_lt, path_less, law_path_order_irreflexive,
    law_path_order_transitive, same_path_list, law_sorted_key_order_independent};
use crate::text::string_from;

verus! {

broadcast use crate::text::lemma_chars_deep_view;

/// Where a browser is and where back and forward lead: the current
/// directory, the back stack (last entry on top) and the forward stack.
pub type History = (Seq<char>, Seq<Seq<char>>, Seq<Seq<char>>);

/// The history after navigating to `p`: nothing changes when `p` is the
/// current directory; otherwise the current directory goes on the back
/// stack and the forward stack is emptied.
pub open spec fn history_after_navigate(h: History, p: Seq<char>) -> History {
    if same_path(p, h.0) {
        h
    } else {
        (p, h.1.push(h.0), Seq::empty())
    }
}

/// The history after going back: the top of the back stack becomes current
/// and the current directory goes on the forward stack.
pub open spec fn history_after_back(h: History) -> History {
    if h.1.len() == 0 {
        h
    } else {
        (h.1.last(), h.1.drop_last(), h.2.push(h.0))
    }
}

/// The history after going forward.
pub open spec fn history_after_forward(h: History) -> History {
    if h.2.len() == 0 {
        h
    } else {
        (h.2.last(), h.1.push(h.0), h.2.drop_last())
    }
}

/// Law: going back right after navigating somewhere new returns to where
/// the browser was, with the same back stack and the new place forward.
pub proof fn law_back_undoes_navigate(h: History, p: Seq<char>)
    requires
        !same_path(p, h.0),
    ensures
        history_after_back(history_after_navigate(h, p)) == (h.0, h.1, seq![p]),
{
    assert(h.1.push(h.0).drop_last() =~= h.1);
    assert(Seq::<Seq<char>>::empty().push(p) =~= seq![p]);
}

/// Law: going forward right after going back restores the history.
pub proof fn law_forward_undoes_back(h: History)
    requires
        h.1.len() > 0,
    ensures
        history_after_forward(history_after_back(h)) == h,
{
    assert(h.2.push(h.0).drop_last() =~= h.2);
    assert(h.1.drop_last().push(h.1.last()) =~= h.1);
}

/// Law: going back right after going forward restores the history.
pub proof fn law_back_undoes_forward(h: History)
    requires
        h.2.len() > 0,
    ensures
        history_after_back(history_after_forward(h)) == h,
{
    assert(h.1.push(h.0).drop_last() =~= h.1);
    assert(h.2.drop_last().push(h.2.last()) =~= h.2);
}

/// A file browser pane's state.
#[derive(Debug)]
pub struct FileBrowser {
    pub browse_location: BrowseLocation,
    pub current_dir: String,
    pub back_stack: Vec<String>,
    pub forward_stack: Vec<String>,
    /// The listing of the current location, as read.
    pub items: Vec<FileItem>,
    /// The listing after the search filter: what the views show.
    pub display_items: Vec<FileItem>,
    pub error: Option<String>,
    /// Selected paths; no path twice (paths compare by components).
    pub selected_paths: Vec<String>,
    pub anchor_index: Option<usize>,
    pub focused_index: Option<usize>,
    pub view_mode: ViewMode,
    pub sort_option: SortOption,
    pub sort_direction: SortDirection,
    pub show_hidden_items: bool,
    pub show_dot_files: bool,
    pub show_file_extensions: bool,
    pub show_info_pane: bool,
    pub search_query: String,
    /// The directories shown as columns, outermost first.
    pub column_trail: Vec<String>,
    /// The filtered listing of each trail directory.
    pub column_listings: Vec<Vec<FileItem>>,
    /// The file selected in the column view: its column and path.
    pub column_selected_path: Option<(usize, String)>,
    pub active_column_index: Option<usize>,
    pub watched_dir: Option<String>,
    pub context_menu_extended_verbs: bool,
    pub shell_menu_revision: u64,
    pub list_icon_warm_token: u64,
    pub list_icon_warm_scheduled: u64,
    /// What the cached system context menu was fetched for.
    pub shell_menu_cache: Option<ShellMenuCacheKey>,
    /// The (normalized) paths of a system menu fetch in flight.
    pub shell_menu_fetch_paths: Option<Vec<String>>,
    pub shell_menu_fetch_generation: u64,
    pub context_menu_open: bool,
    /// The path whose name is being edited in place, if any.
    pub renaming: Option<String>,
}

/// What a cached system context menu was fetched for: the normalized
/// paths, whether extended verbs were asked for, and whether it has entries.
#[derive(Debug)]
pub struct ShellMenuCacheKey {
    pub paths: Vec<String>,
    pub extended_verbs: bool,
    pub has_entries: bool,
}

/// The paths of a list of items.
pub open spec fn item_paths(items: Seq<FileItem>) -> Seq<Seq<char>> {
    items.map_values(|it: FileItem| it.path@)
}

/// The selected paths, each as its components.
pub open spec fn selection_set(b: FileBrowser) -> Set<Seq<Seq<char>>> {
    comp_set(views(b.selected_paths@))
}

/// Whether the column view of a directory is shown.
pub open spec fn in_columns(b: FileBrowser) -> bool {
    b.view_mode == ViewMode::Columns && b.browse_location is Directory
}

impl FileBrowser {
    /// The browser's invariant: no path is selected twice.
    pub open spec fn wf(&self) -> bool {
        sel_unique(views(self.selected_paths@))
    }

    /// Where the browser is and where back and forward lead.
    pub open spec fn history(&self) -> History {
        (self.current_dir@, views(self.back_stack@), views(self.forward_stack@))
    }

    /// Whether `self` differs from `other` at most in where the browser is,
    /// its history and its selection.
    pub open spec fn nav_frame(&self, other: &FileBrowser) -> bool {
        *self == (FileBrowser {
            browse_location: self.browse_location,
            current_dir: self.current_dir,
            back_stack: self.back_stack,
            forward_stack: self.forward_stack,
            selected_paths: self.selected_paths,
            anchor_index: self.anchor_index,
            focused_index: self.focused_index,
            column_selected_path: self.column_selected_path,
            watched_dir: self.watched_dir,
            shell_menu_cache: self.shell_menu_cache,
            shell_menu_fetch_paths: self.shell_menu_fetch_paths,
            ..*other
        })
    }

    /// Whether `self` differs from `other` at most in its selection, anchor,
    /// focus and column selection.
    pub open spec fn selection_frame(&self, other: &FileBrowser) -> bool {
        *self == (FileBrowser {
            selected_paths: self.selected_paths,
            anchor_index: self.anchor_index,
            focused_index: self.focused_index,
            column_selected_path: self.column_selected_path,
            ..*other
        })
    }

    /// Whether nothing is selected, anchored or focused.
    pub open spec fn selection_cleared(&self) -> bool {
        &&& self.selected_paths@.len() == 0
        &&& self.anchor_index is None
        &&& self.focused_index is None
        &&& self.column_selected_path is None
    }

    /// A browser of `current_dir` in `view_mode`, with nothing listed yet.
    pub fn new(current_dir: String, view_mode: ViewMode) -> (b: Self)
        ensures
            b.wf(),
            b.browse_location is Directory,
            b.history() == (current_dir@, Seq::<Seq<char>>::empty(), Seq::<Seq<char>>::empty()),
            b.view_mode == view_mode,
            b.sort_option == SortOption::Name,
            b.sort_direction == SortDirection::Ascending,
            b.items@.len() == 0,
            b.display_items@.len() == 0,
            b.selection_cleared(),
            b.search_query@.len() == 0,
            b.column_trail@.len() == 0,
            b.column_listings@.len() == 0,
            b.active_column_index is None,
            b.watched_dir is None,
            b.error is None,
            !b.show_hidden_items,
            !b.show_dot_files,
            b.show_file_extensions,
            !b.show_info_pane,
            !b.context_menu_extended_verbs,
            b.list_icon_warm_token == 0,
            b.list_icon_warm_scheduled == u64::MAX,
            b.renaming is None,
    {
        let b = FileBrowser {
            browse_location: BrowseLocation::Directory,
            current_dir,
            back_stack: Vec::new(),
            forward_stack: Vec::new(),
            items: Vec::new(),
            display_items: Vec::new(),
            error: None,
            selected_paths: Vec::new(),
            anchor_index: None,
            focused_index: None,
            view_mode,
            sort_option: SortOption::Name,
            sort_direction: SortDirection::Ascending,
            show_hidden_items: false,
            show_dot_files: false,
            show_file_extensions: true,
            show_info_pane: false,
            search_query: String::new(),
            column_trail: Vec::new(),
            column_listings: Vec::new(),
            column_selected_path: None,
            active_column_index: None,
            watched_dir: None,
            context_menu_extended_verbs: false,
            shell_menu_revision: 0,
            list_icon_warm_token: 0,
            list_icon_warm_scheduled: u64::MAX,
            shell_menu_cache: None,
            shell_menu_fetch_paths: None,
            shell_menu_fetch_generation: 0,
            context_menu_open: false,
            renaming: None,
        };
        proof {
            assert(views(b.back_stack@) =~= Seq::<Seq<char>>::empty());
            assert(views(b.forward_stack@) =~= Seq::<Seq<char>>::empty());
            assert(views(b.selected_paths@) =~= Seq::<Seq<char>>::empty());
        }
        b
    }

    /// Applies the saved sort and visibility preferences: a saved sort
    /// option and direction are read from their configuration strings, a
    /// saved hidden-items switch sets both hidden items and dot files.
    pub fn apply_saved_preferences(
        &mut self,
        sort_option: Option<&str>,
        sort_direction: Option<&str>,
        show_hidden: Option<bool>,
        show_file_extensions: bool,
    )
        ensures
            final(self).sort_option == match sort_option {
                Some(v) => crate::model::sort_option_from_config_spec(v@),
                None => old(self).sort_option,
            },
            final(self).sort_direction == match sort_direction {
                Some(v) => crate::model::sort_direction_from_config_spec(v@),
                None => old(self).sort_direction,
            },
            final(self).show_hidden_items == match show_hidden {
                Some(h) => h,
                None => old(self).show_hidden_items,
            },
            final(self).show_dot_files == match show_hidden {
                Some(h) => h,
                None => old(self).show_dot_files,
            },
            final(self).show_file_extensions == show_file_extensions,
            *final(self) == (FileBrowser {
                sort_option: final(self).sort_option,
                sort_direction: final(self).sort_direction,
                show_hidden_items: final(self).show_hidden_items,
                show_dot_files: final(self).show_dot_files,
                show_file_extensions: final(self).show_file_extensions,
                ..*old(self)
            }),
    {
        if let Some(option) = sort_option {
            self.sort_option = sort_option_from_config(option);
        }
        if let Some(direction) = sort_direction {
            self.sort_direction = sort_direction_from_config(direction);
        }
        if let Some(hidden) = show_hidden {
            self.show_hidden_items = hidden;
            self.show_dot_files = hidden;
        }
        self.show_file_extensions = show_file_extensions;
    }

    /// Clears the selection, the anchor, the focus and the column selection.
    pub fn clear_selection(&mut self)
        ensures
            final(self).wf(),
            final(self).selection_cleared(),
            final(self).selection_frame(old(self)),
    {
        self.selected_paths = Vec::new();
        self.anchor_index = None;
        self.focused_index = None;
        self.column_selected_path = None;
        proof {
            assert(views(self.selected_paths@) =~= Seq::<Seq<char>>::empty());
        }
    }

    /// Goes to directory `path`. Returns whether the browser moved (it does
    /// not when `path` is the current directory); after a move the caller
    /// reloads the listing. The browser shows a plain directory afterwards
    /// either way.
    pub fn navigate_to(&mut self, path: String) -> (moved: bool)
        ensures
            final(self).wf() == old(self).wf() || moved,
            final(self).browse_location is Directory,
            final(self).history() == history_after_navigate(old(self).history(), path@),
            moved == !same_path(path@, old(self).current_dir@),
            moved ==> final(self).wf() && final(self).selection_cleared() && final(self).shell_menu_cache is None
                && final(self).shell_menu_fetch_paths is None,
            !moved ==> final(self).shell_menu_cache == old(self).shell_menu_cache
                && final(self).shell_menu_fetch_paths == old(self).shell_menu_fetch_paths,
            !moved ==> final(self).selected_paths == old(self).selected_paths
                && final(self).focused_index == old(self).focused_index
                && final(self).anchor_index == old(self).anchor_index
                && final(self).column_selected_path == old(self).column_selected_path,
            final(self).nav_frame(old(self)),
            final(self).watched_dir == old(self).watched_dir,
    {
        if !matches!(self.browse_location, BrowseLocation::Directory) {
            self.browse_location = BrowseLocation::Directory;
        }
        if paths_equal(path.as_str(), self.current_dir.as_str()) {
            return false;
        }
        self.clear_shell_menu_cache();
        let ghost old_back = views(self.back_stack@);
        let mut previous = path;
        std::mem::swap(&mut previous, &mut self.current_dir);
        self.back_stack.push(previous);
        self.forward_stack = Vec::new();
        self.clear_selection();
        proof {
            assert(views(self.back_stack@) =~= old_back.push(old(self).current_dir@));
            assert(views(self.forward_stack@) =~= Seq::<Seq<char>>::empty());
        }
        true
    }

    /// Goes back one step; returns whether there was a step to go back to.
    pub fn navigate_back(&mut self) -> (moved: bool)
        requires
            old(self).wf(),
        ensures
            final(self).wf(),
            final(self).history() == history_after_back(old(self).history()),
            moved == (old(self).back_stack.len() > 0),
            moved ==> final(self).selection_cleared(),
            !moved ==> *final(self) == *old(self),
            final(self).nav_frame(old(self)),
            final(self).browse_location == old(self).browse_location,
            final(self).watched_dir == old(self).watched_dir,
    {
        if self.back_stack.len() == 0 {
            return false;
        }
        match self.back_stack.pop() {
            None => false,
            Some(path) => {
                let ghost old_fwd = views(self.forward_stack@);
                let mut previous = path;
                std::mem::swap(&mut previous, &mut self.current_dir);
                self.forward_stack.push(previous);
                self.clear_selection();
                proof {
                    assert(views(self.back_stack@) =~= views(old(self).back_stack@).drop_last());
                    assert(views(self.forward_stack@) =~= old_fwd.push(old(self).current_dir@));
                }
                true
            },
        }
    }

    /// Goes forward one step; returns whether there was a step to go forward to.
    pub fn navigate_forward(&mut self) -> (moved: bool)
        requires
            old(self).wf(),
        ensures
            final(self).wf(),
            final(self).history() == history_after_forward(old(self).history()),
            moved == (old(self).forward_stack.len() > 0),
            moved ==> final(self).selection_cleared(),
            !moved ==> *final(self) == *old(self),
            final(self).nav_frame(old(self)),
            final(self).browse_location == old(self).browse_location,
            final(self).watched_dir == old(self).watched_dir,
    {
        if self.forward_stack.len() == 0 {
            return false;
        }
        match self.forward_stack.pop() {
            None => false,
            Some(path) => {
                let ghost old_back = views(self.back_stack@);
                let mut previous = path;
                std::mem::swap(&mut previous, &mut self.current_dir);
                self.back_stack.push(previous);
                self.clear_selection();
                proof {
                    assert(views(self.forward_stack@) =~= views(old(self).forward_stack@).drop_last());
                    assert(views(self.back_stack@) =~= old_back.push(old(self).current_dir@));
                }
                true
            },
        }
    }

    /// Goes to the parent directory, if there is one; returns whether the browser moved.
    pub fn navigate_parent(&mut self) -> (moved: bool)
        requires
            old(self).wf(),
        ensures
            final(self).wf(),
            match parent_spec(old(self).current_dir@) {
                Some(p) => final(self).history() == history_after_navigate(old(self).history(), p)
                    && moved == !same_path(p, old(self).current_dir@)
                    && final(self).browse_location is Directory,
                None => !moved && *final(self) == *old(self),
            },
            final(self).nav_frame(old(self)),
            final(self).watched_dir == old(self).watched_dir,
    {
        match path_parent(self.current_dir.as_str()) {
            Some(parent) => self.navigate_to(parent),
            None => false,
        }
    }

    /// Whether there is a step to go back to.
    pub fn can_go_back(&self) -> (r: bool)
        ensures
            r == (self.back_stack.len() > 0),
    {
        self.back_stack.len() > 0
    }

    /// Whether there is a step to go forward to.
    pub fn can_go_forward(&self) -> (r: bool)
        ensures
            r == (self.forward_stack.len() > 0),
    {
        self.forward_stack.len() > 0
    }

    /// Whether the current directory has a parent.
    pub fn can_go_up(&self) -> (r: bool)
        ensures
            r == parent_spec(self.current_dir@) is Some,
    {
        path_parent(self.current_dir.as_str()).is_some()
    }

    /// The back button: `navigate_back`; the caller reloads when it moved.
    pub fn go_back(&mut self) -> (moved: bool)
        requires
            old(self).wf(),
        ensures
            final(self).wf(),
            final(self).history() == history_after_back(old(self).history()),
            moved == (old(self).back_stack.len() > 0),
            moved ==> final(self).selection_cleared(),
            !moved ==> *final(self) == *old(self),
            final(self).nav_frame(old(self)),
    {
        self.navigate_back()
    }

    /// The forward button: `navigate_forward`; the caller reloads when it moved.
    pub fn go_forward(&mut self) -> (moved: bool)
        requires
            old(self).wf(),
        ensures
            final(self).wf(),
            final(self).history() == history_after_forward(old(self).history()),
            moved == (old(self).forward_stack.len() > 0),
            moved ==> final(self).selection_cleared(),
            !moved ==> *final(self) == *old(self),
            final(self).nav_frame(old(self)),
    {
        self.navigate_forward()
    }

    /// The up button: `navigate_parent`; the caller reloads when it moved.
    pub fn go_up(&mut self) -> (moved: bool)
        requires
            old(self).wf(),
        ensures
            final(self).wf(),
            match parent_spec(old(self).current_dir@) {
                Some(p) => final(self).history() == history_after_navigate(old(self).history(), p)
                    && moved == !same_path(p, old(self).current_dir@),
                None => !moved && *final(self) == *old(self),
            },
            final(self).nav_frame(old(self)),
    {
        self.navigate_parent()
    }

    /// The directory shown.
    pub fn current_directory(&self) -> (r: &String)
        ensures
            *r == self.current_dir,
    {
        &self.current_dir
    }

    /// Opens `path` with an empty history; the caller reloads the listing.
    pub fn open_directory_reset_history(&mut self, path: String)
        ensures
            final(self).wf(),
            final(self).browse_location is Directory,
            final(self).history() == (path@, Seq::<Seq<char>>::empty(), Seq::<Seq<char>>::empty()),
            final(self).selection_cleared(),
            final(self).nav_frame(old(self)),
            final(self).watched_dir == old(self).watched_dir,
    {
        self.browse_location = BrowseLocation::Directory;
        self.back_stack = Vec::new();
        self.forward_stack = Vec::new();
        self.current_dir = path;
        self.clear_selection();
        proof {
            assert(views(self.back_stack@) =~= Seq::<Seq<char>>::empty());
            assert(views(self.forward_stack@) =~= Seq::<Seq<char>>::empty());
        }
    }

    /// Shows the files of tag `tag_name`, with an empty history and the
    /// home directory (`home`) as the current directory; the directory is
    /// no longer watched. The caller reloads the listing.
    pub fn open_file_tag(&mut self, tag_name: String, home: String)
        ensures
            final(self).wf(),
            match final(self).browse_location {
                BrowseLocation::FileTag { tag_name: t } => t@ == tag_name@,
                _ => false,
            },
            final(self).history() == (home@, Seq::<Seq<char>>::empty(), Seq::<Seq<char>>::empty()),
            final(self).selection_cleared(),
            final(self).watched_dir is None,
            final(self).shell_menu_cache is None,
            final(self).shell_menu_fetch_paths is None,
            final(self).nav_frame(old(self)),
    {
        self.clear_shell_menu_cache();
        self.browse_location = BrowseLocation::FileTag { tag_name };
        self.back_stack = Vec::new();
        self.forward_stack = Vec::new();
        self.current_dir = home;
        self.clear_selection();
        self.watched_dir = None;
        proof {
            assert(views(self.back_stack@) =~= Seq::<Seq<char>>::empty());
            assert(views(self.forward_stack@) =~= Seq::<Seq<char>>::empty());
        }
    }

    /// Shows the recycle bin, whose folder is `folder` (the home directory
    /// where the system has none), with an empty history; the directory is
    /// no longer watched. The caller reloads the listing.
    pub fn open_recycle_bin(&mut self, folder: String)
        ensures
            final(self).wf(),
            final(self).browse_location is RecycleBin,
            final(self).history() == (folder@, Seq::<Seq<char>>::empty(), Seq::<Seq<char>>::empty()),
            final(self).selection_cleared(),
            final(self).watched_dir is None,
            final(self).shell_menu_cache is None,
            final(self).shell_menu_fetch_paths is None,
            final(self).nav_frame(old(self)),
    {
        self.clear_shell_menu_cache();
        self.browse_location = BrowseLocation::RecycleBin;
        self.back_stack = Vec::new();
        self.forward_stack = Vec::new();
        self.current_dir = folder;
        self.clear_selection();
        self.watched_dir = None;
        proof {
            assert(views(self.back_stack@) =~= Seq::<Seq<char>>::empty());
            assert(views(self.forward_stack@) =~= Seq::<Seq<char>>::empty());
        }
    }

    /// Where the app's navigation stands for this browser.
    pub fn navigation_target(&self) -> (t: NavigationTarget)
        ensures
            match self.browse_location {
                BrowseLocation::Directory => t matches NavigationTarget::Path(p) && p@ == self.current_dir@,
                BrowseLocation::RecycleBin => t is RecycleBin,
                BrowseLocation::FileTag { tag_name } => t matches NavigationTarget::FileTag(n) && n@ == tag_name@,
            },
    {
        match &self.browse_location {
            BrowseLocation::Directory => NavigationTarget::Path(self.current_dir.clone()),
            BrowseLocation::RecycleBin => NavigationTarget::RecycleBin,
            BrowseLocation::FileTag { tag_name } => NavigationTarget::FileTag(tag_name.clone()),
        }
    }

    /// How many items the views show.
    pub fn item_count(&self) -> (n: usize)
        ensures
            n == self.display_items.len(),
    {
        self.display_items.len()
    }
}


/// The paths of `items[lo..hi]`, each as its components.
pub open spec fn range_set(items: Seq<FileItem>, lo: int, hi: int) -> Set<Seq<Seq<char>>> {
    Set::new(|c: Seq<Seq<char>>| exists|i: int| lo <= i < hi && 0 <= i < items.len() && components(#[trigger] items[i].path@) == c)
}

/// The paths of `items[lo..hi]` as a selection.
pub fn paths_in_range(items: &Vec<FileItem>, lo: usize, hi: usize) -> (sel: Vec<String>)
    requires
        hi <= items.len(),
    ensures
        sel_unique(views(sel@)),
        comp_set(views(sel@)) == range_set(items@, lo as int, hi as int),
{
    let mut sel: Vec<String> = Vec::new();
    proof {
        assert(comp_set(views(sel@)) =~= Set::<Seq<Seq<char>>>::empty());
        assert(range_set(items@, lo as int, lo as int) =~= Set::<Seq<Seq<char>>>::empty());
    }
    if lo >= hi {
        proof {
            assert(range_set(items@, lo as int, hi as int) =~= Set::<Seq<Seq<char>>>::empty());
            assert(views(sel@) =~= Seq::<Seq<char>>::empty());
        }
        return sel;
    }
    let mut i: usize = lo;
    proof {
        assert(views(sel@) =~= Seq::<Seq<char>>::empty());
    }
    while i < hi
        invariant
            lo <= i <= hi,
            hi <= items.len(),
            sel_unique(views(sel@)),
            comp_set(views(sel@)) == range_set(items@, lo as int, i as int),
        decreases hi - i,
    {
        let ghost before = comp_set(views(sel@));
        sel_insert(&mut sel, items[i].path.clone());
        proof {
            assert(range_set(items@, lo as int, i + 1) =~= range_set(items@, lo as int, i as int).insert(components(items@[i as int].path@)));
        }
        i += 1;
    }
    sel
}

impl FileBrowser {
    /// Handles a click on displayed item `index`: with shift the range from
    /// the anchor (or the item) to the item is selected; with the secondary
    /// modifier the item's selection is toggled and it becomes the anchor;
    /// a plain click selects only the item, which becomes the anchor. The
    /// item is focused. A click past the listing changes nothing.
    pub fn handle_row_click(&mut self, index: usize, modifiers: Modifiers)
        requires
            old(self).wf(),
        ensures
            final(self).wf(),
            index >= old(self).display_items.len() ==> *final(self) == *old(self),
            index < old(self).display_items.len() ==> {
                let path = old(self).display_items@[index as int].path@;
                &&& final(self).focused_index == Some(index)
                &&& if modifiers.shift {
                    let anchor: int = match old(self).anchor_index { Some(a) => a as int, None => index as int };
                    let lo = if anchor <= index { anchor } else { index as int };
                    let hi = if anchor <= index { index as int } else { anchor };
                    &&& selection_set(*final(self)) == range_set(old(self).display_items@, lo, hi + 1)
                    &&& final(self).anchor_index == old(self).anchor_index
                } else if modifiers.secondary {
                    &&& selection_set(*final(self)) == if selection_set(*old(self)).contains(components(path)) {
                        selection_set(*old(self)).remove(components(path))
                    } else {
                        selection_set(*old(self)).insert(components(path))
                    }
                    &&& final(self).anchor_index == Some(index)
                } else {
                    &&& selection_set(*final(self)) == Set::<Seq<Seq<char>>>::empty().insert(components(path))
                    &&& final(self).anchor_index == Some(index)
                }
                &&& final(self).column_selected_path == old(self).column_selected_path
                &&& final(self).selection_frame(old(self))
            },
    {
        if index >= self.display_items.len() {
            return;
        }
        let path = self.display_items[index].path.clone();
        if modifiers.shift {
            let anchor = match self.anchor_index {
                Some(a) => a,
                None => index,
            };
            let (start, end) = if anchor <= index { (anchor, index) } else { (index, anchor) };
            let hi = if end < self.display_items.len() { end + 1 } else { self.display_items.len() };
            self.selected_paths = paths_in_range(&self.display_items, start, hi);
            proof {
                assert(range_set(self.display_items@, start as int, hi as int) =~= range_set(self.display_items@, start as int, end + 1));
            }
        } else if modifiers.secondary {
            if sel_contains(&self.selected_paths, path.as_str()) {
                sel_remove(&mut self.selected_paths, path.as_str());
            } else {
                sel_insert(&mut self.selected_paths, path);
            }
            self.anchor_index = Some(index);
        } else {
            let mut sel: Vec<String> = Vec::new();
            proof {
                assert(views(sel@) =~= Seq::<Seq<char>>::empty());
                assert(comp_set(views(sel@)) =~= Set::<Seq<Seq<char>>>::empty());
            }
            sel_insert(&mut sel, path);
            self.selected_paths = sel;
            self.anchor_index = Some(index);
        }
        self.focused_index = Some(index);
    }

    /// Drops from the selection every path no longer displayed, and a
    /// focus past the displayed items.
    pub fn reconcile_selection(&mut self)
        requires
            sel_unique(views(old(self).selected_paths@)),
        ensures
            final(self).wf(),
            selection_set(*final(self)) == selection_set(*old(self)).filter(
                |c: Seq<Seq<char>>| range_set(old(self).display_items@, 0, old(self).display_items.len() as int).contains(c)),
            final(self).focused_index == match old(self).focused_index {
                Some(i) => if i < old(self).display_items.len() { Some(i) } else { None },
                None => None,
            },
            final(self).anchor_index == old(self).anchor_index,
            final(self).column_selected_path == old(self).column_selected_path,
            final(self).selection_frame(old(self)),
    {
        let shown = paths_in_range(&self.display_items, 0, self.display_items.len());
        let ghost all = range_set(self.display_items@, 0, self.display_items.len() as int);
        let ghost old_sel = views(self.selected_paths@);
        let mut kept: Vec<String> = Vec::new();
        let mut i: usize = 0;
        proof {
            assert(views(kept@) =~= Seq::<Seq<char>>::empty());
            assert(comp_set(views(kept@)) =~= comp_set(old_sel.take(0)).filter(|c: Seq<Seq<char>>| all.contains(c)));
        }
        while i < self.selected_paths.len()
            invariant
                i <= self.selected_paths.len(),
                old_sel == views(self.selected_paths@),
                comp_set(views(shown@)) == all,
                sel_unique(views(kept@)),
                comp_set(views(kept@)) == comp_set(old_sel.take(i as int)).filter(|c: Seq<Seq<char>>| all.contains(c)),
            decreases self.selected_paths.len() - i,
        {
            let ghost before = comp_set(old_sel.take(i as int));
            proof {
                assert(comp_set(old_sel.take(i + 1)) =~= before.insert(components(old_sel[i as int]))) by {
                    assert(old_sel.take(i + 1) =~= old_sel.take(i as int).push(old_sel[i as int]));
                    let t = old_sel.take(i + 1);
                    assert forall|c: Seq<Seq<char>>| comp_set(t).contains(c) implies before.insert(components(old_sel[i as int])).contains(c) by {
                        let k = choose|k: int| 0 <= k < t.len() && components(t[k]) == c;
                        if k < i {
                            assert(old_sel.take(i as int)[k] == t[k]);
                        }
                    }
                    assert forall|c: Seq<Seq<char>>| before.insert(components(old_sel[i as int])).contains(c) implies comp_set(t).contains(c) by {
                        if c == components(old_sel[i as int]) {
                            assert(components(t[i as int]) == c);
                        } else {
                            let k = choose|k: int| 0 <= k < i && components(old_sel.take(i as int)[k]) == c;
                            assert(t[k] == old_sel.take(i as int)[k]);
                        }
                    }
                }
            }
            if sel_contains(&shown, self.selected_paths[i].as_str()) {
                sel_insert(&mut kept, self.selected_paths[i].clone());
                proof {
                    assert(comp_set(views(kept@)) =~= comp_set(old_sel.take(i + 1)).filter(|c: Seq<Seq<char>>| all.contains(c)));
                }
            } else {
                proof {
                    assert(comp_set(views(kept@)) =~= comp_set(old_sel.take(i + 1)).filter(|c: Seq<Seq<char>>| all.contains(c)));
                }
            }
            i += 1;
        }
        proof {
            assert(old_sel.take(old_sel.len() as int) =~= old_sel);
        }
        self.selected_paths = kept;
        if let Some(index) = self.focused_index {
            if index >= self.display_items.len() {
                self.focused_index = None;
            }
        }
    }
}

/// The paths of all items of a listing, each as its components.
pub open spec fn listing_set(items: Seq<FileItem>) -> Set<Seq<Seq<char>>> {
    range_set(items, 0, items.len() as int)
}

impl FileBrowser {
    /// Keeps the focus on a displayed item: none when nothing is
    /// displayed, the last item when it pointed past the end.
    pub fn clamp_focused_index(&mut self)
        ensures
            final(self).focused_index == if old(self).display_items.len() == 0 {
                None
            } else {
                match old(self).focused_index {
                    Some(i) => if i >= old(self).display_items.len() {
                        Some((old(self).display_items.len() - 1) as usize)
                    } else {
                        Some(i)
                    },
                    None => None,
                }
            },
            sel_unique(views(old(self).selected_paths@)) ==> final(self).wf(),
            *final(self) == (FileBrowser { focused_index: final(self).focused_index, ..*old(self) }),
    {
        if self.display_items.len() == 0 {
            self.focused_index = None;
            return;
        }
        if let Some(index) = self.focused_index {
            if index >= self.display_items.len() {
                self.focused_index = Some(self.display_items.len() - 1);
            }
        }
    }

    /// Moves the focus by `delta` items from the focused one (or the first),
    /// stopping at either end; nothing happens when nothing is displayed.
    pub fn move_focus(&mut self, delta: isize)
        requires
            old(self).wf(),
            old(self).display_items.len() <= isize::MAX,
            match old(self).focused_index { Some(i) => i <= isize::MAX, None => true },
            old(self).display_items.len() > 0 ==> isize::MIN <= (match old(self).focused_index {
                Some(i) => i as int,
                None => 0,
            }) + delta <= isize::MAX,
        ensures
            final(self).wf(),
            old(self).display_items.len() == 0 ==> *final(self) == *old(self),
            old(self).display_items.len() > 0 ==> {
                let start: int = match old(self).focused_index { Some(i) => i as int, None => 0 };
                let target = start + delta;
                let last = old(self).display_items.len() - 1;
                final(self).focused_index == Some(
                    (if target < 0 { 0 } else if target > last { last } else { target }) as usize)
            },
            *final(self) == (FileBrowser { focused_index: final(self).focused_index, ..*old(self) }),
    {
        if self.display_items.len() == 0 {
            return;
        }
        let index: usize = match self.focused_index {
            Some(i) => i,
            None => 0,
        };
        let target: isize = index as isize + delta;
        let last: usize = self.display_items.len() - 1;
        let next: usize = if target < 0 {
            0
        } else if target as usize > last {
            last
        } else {
            target as usize
        };
        self.focused_index = Some(next);
    }

    /// Selects every item: in the column view those of the active column
    /// (the last column when none is active), otherwise every displayed
    /// item. The focused item becomes the anchor; with no focus the first
    /// displayed item is focused and anchored.
    pub fn select_all(&mut self)
        requires
            old(self).wf(),
        ensures
            final(self).wf(),
            old(self).view_mode == ViewMode::Columns ==> {
                let col: int = match old(self).active_column_index {
                    Some(c) => c as int,
                    None => if old(self).column_listings.len() == 0 { 0 } else { old(self).column_listings.len() - 1 },
                };
                &&& selection_set(*final(self)) == if col < old(self).column_listings.len() {
                    listing_set(old(self).column_listings@[col]@)
                } else {
                    Set::<Seq<Seq<char>>>::empty()
                }
                &&& final(self).column_selected_path is None
            },
            old(self).view_mode != ViewMode::Columns ==> selection_set(*final(self)) == listing_set(old(self).display_items@)
                && final(self).column_selected_path == old(self).column_selected_path,
            match old(self).focused_index {
                Some(i) => final(self).anchor_index == Some(i) && final(self).focused_index == Some(i),
                None => if old(self).display_items.len() > 0 {
                    final(self).anchor_index == Some(0usize) && final(self).focused_index == Some(0usize)
                } else {
                    final(self).anchor_index == old(self).anchor_index && final(self).focused_index is None
                },
            },
            final(self).selection_frame(old(self)),
    {
        if self.view_mode == ViewMode::Columns {
            let col: usize = match self.active_column_index {
                Some(c) => c,
                None => if self.column_listings.len() == 0 { 0 } else { self.column_listings.len() - 1 },
            };
            if col < self.column_listings.len() {
                self.selected_paths = paths_in_range(&self.column_listings[col], 0, self.column_listings[col].len());
            } else {
                self.selected_paths = Vec::new();
                proof {
                    assert(views(self.selected_paths@) =~= Seq::<Seq<char>>::empty());
                    assert(comp_set(views(self.selected_paths@)) =~= Set::<Seq<Seq<char>>>::empty());
                }
            }
            self.column_selected_path = None;
        } else {
            self.selected_paths = paths_in_range(&self.display_items, 0, self.display_items.len());
        }
        if let Some(index) = self.focused_index {
            self.anchor_index = Some(index);
        } else if self.display_items.len() > 0 {
            self.anchor_index = Some(0);
            self.focused_index = Some(0);
        }
    }

    /// Shows `display_items` (the listing after the search filter) and keeps
    /// the focus on a displayed item. The caller reloads the column listings
    /// in the column view.
    pub fn apply_filtered_items(&mut self, display_items: Vec<FileItem>)
        requires
            old(self).wf(),
        ensures
            final(self).wf(),
            final(self).display_items@ == display_items@,
            final(self).focused_index == if display_items.len() == 0 {
                None
            } else {
                match old(self).focused_index {
                    Some(i) => if i >= display_items.len() { Some((display_items.len() - 1) as usize) } else { Some(i) },
                    None => None,
                }
            },
            *final(self) == (FileBrowser {
                display_items: final(self).display_items,
                focused_index: final(self).focused_index,
                ..*old(self)
            }),
    {
        self.display_items = display_items;
        self.clamp_focused_index();
    }

    /// Completes a reload: the listing read (`items`, or the error it gave),
    /// the displayed part of it, then the selection keeps only displayed
    /// paths, the focus stays on a displayed item, and the icon warm-up
    /// token moves on.
    pub fn finish_refresh(&mut self, items: Vec<FileItem>, error: Option<String>, display_items: Vec<FileItem>)
        requires
            old(self).wf(),
        ensures
            final(self).wf(),
            final(self).items@ == items@,
            final(self).error == error,
            final(self).display_items@ == display_items@,
            selection_set(*final(self)) == selection_set(*old(self)).filter(
                |c: Seq<Seq<char>>| listing_set(display_items@).contains(c)),
            final(self).focused_index == match old(self).focused_index {
                Some(i) => if i < display_items.len() { Some(i) } else if display_items.len() > 0 {
                    Some((display_items.len() - 1) as usize)
                } else {
                    None
                },
                None => None,
            },
            final(self).list_icon_warm_token == if old(self).list_icon_warm_token == u64::MAX { 0 } else { (old(self).list_icon_warm_token + 1) as u64 },
            *final(self) == (FileBrowser {
                items: final(self).items,
                error: final(self).error,
                display_items: final(self).display_items,
                selected_paths: final(self).selected_paths,
                focused_index: final(self).focused_index,
                list_icon_warm_token: final(self).list_icon_warm_token,
                ..*old(self)
            }),
    {
        self.items = items;
        self.error = error;
        self.apply_filtered_items(display_items);
        self.reconcile_selection();
        self.clamp_focused_index();
        self.list_icon_warm_token = if self.list_icon_warm_token == u64::MAX { 0 } else { self.list_icon_warm_token + 1 };
    }

    /// Whether the icons of the current listing still need loading; marks
    /// them as scheduled (once per reload).
    pub fn take_list_icon_warm(&mut self) -> (warm: bool)
        ensures
            warm == (old(self).list_icon_warm_scheduled != old(self).list_icon_warm_token),
            final(self).list_icon_warm_scheduled == old(self).list_icon_warm_token,
            *final(self) == (FileBrowser { list_icon_warm_scheduled: final(self).list_icon_warm_scheduled, ..*old(self) }),
    {
        if self.list_icon_warm_scheduled == self.list_icon_warm_token {
            return false;
        }
        self.list_icon_warm_scheduled = self.list_icon_warm_token;
        true
    }
}

/// The first item of `items` whose path is `p`.
pub open spec fn find_item(items: Seq<FileItem>, p: Seq<char>) -> Option<FileItem>
    decreases items.len(),
{
    if items.len() == 0 {
        None
    } else if same_path(items[0].path@, p) {
        Some(items[0])
    } else {
        find_item(items.drop_first(), p)
    }
}

/// The first item whose path is `p` in the listings, taken in order.
pub open spec fn find_in_listings(ls: Seq<Vec<FileItem>>, p: Seq<char>) -> Option<FileItem>
    decreases ls.len(),
{
    if ls.len() == 0 {
        None
    } else {
        match find_item(ls[0]@, p) {
            Some(x) => Some(x),
            None => find_in_listings(ls.drop_first(), p),
        }
    }
}

/// Going from column `col` toward the first, the first column whose listing
/// holds the directory opened from it (the next trail entry): that item.
pub open spec fn find_trail_item(ls: Seq<Vec<FileItem>>, trail: Seq<Seq<char>>, col: int) -> Option<FileItem>
    decreases col + 1,
{
    if col < 0 || col >= ls.len() {
        None
    } else {
        let here = if col + 1 < trail.len() { find_item(ls[col]@, trail[col + 1]) } else { None };
        match here {
            Some(x) => Some(x),
            None => find_trail_item(ls, trail, col - 1),
        }
    }
}

/// The item the browser treats as the one selected: in the column view the
/// file selected there; else the single selected path's item (among the
/// displayed items, then the column listings); else, in the column view
/// with nothing selected, the deepest folder opened in a column.
pub open spec fn primary_item_spec(b: FileBrowser) -> Option<FileItem> {
    let from_column = if in_columns(b) {
        match b.column_selected_path {
            Some((c, p)) => if c < b.column_listings.len() { find_item(b.column_listings@[c as int]@, p@) } else { None },
            None => None,
        }
    } else {
        None
    };
    if from_column is Some {
        from_column
    } else if b.selected_paths.len() == 1 {
        let p = b.selected_paths@[0]@;
        match find_item(b.display_items@, p) {
            Some(x) => Some(x),
            None => find_in_listings(b.column_listings@, p),
        }
    } else if in_columns(b) && b.selected_paths.len() == 0 {
        find_trail_item(b.column_listings@, views(b.column_trail@), b.column_listings.len() - 1)
    } else {
        None
    }
}

/// The index of the first item of `items` whose path is `p`.
pub fn find_item_index(items: &Vec<FileItem>, p: &str) -> (r: Option<usize>)
    ensures
        match r {
            Some(i) => i < items.len() && find_item(items@, p@) == Some(items@[i as int])
                && same_path(items@[i as int].path@, p@)
                && forall|j: int| 0 <= j < i ==> !same_path(#[trigger] items@[j].path@, p@),
            None => find_item(items@, p@) is None
                && forall|j: int| 0 <= j < items.len() ==> !same_path(#[trigger] items@[j].path@, p@),
        },
{
    let mut i: usize = 0;
    proof {
        assert(items@.skip(0) =~= items@);
    }
    while i < items.len()
        invariant
            i <= items.len(),
            find_item(items@, p@) == find_item(items@.skip(i as int), p@),
            forall|j: int| 0 <= j < i ==> !same_path(#[trigger] items@[j].path@, p@),
        decreases items.len() - i,
    {
        proof {
            assert(items@.skip(i as int)[0] == items@[i as int]);
            assert(items@.skip(i as int).drop_first() =~= items@.skip(i + 1));
        }
        if paths_equal(items[i].path.as_str(), p) {
            return Some(i);
        }
        i += 1;
    }
    proof {
        assert(items@.skip(i as int).len() == 0);
    }
    None
}

/// The first item whose path is `p` in the listings.
fn find_in_listings_exec(ls: &Vec<Vec<FileItem>>, p: &str) -> (r: Option<FileItem>)
    ensures
        r == find_in_listings(ls@, p@),
{
    let mut k: usize = 0;
    proof {
        assert(ls@.skip(0) =~= ls@);
    }
    while k < ls.len()
        invariant
            k <= ls.len(),
            find_in_listings(ls@, p@) == find_in_listings(ls@.skip(k as int), p@),
        decreases ls.len() - k,
    {
        proof {
            assert(ls@.skip(k as int)[0] == ls@[k as int]);
            assert(ls@.skip(k as int).drop_first() =~= ls@.skip(k + 1));
        }
        match find_item_index(&ls[k], p) {
            Some(i) => {
                return Some(ls[k][i].duplicate());
            },
            None => {},
        }
        k += 1;
    }
    None
}

/// Whether every selected path has a parent and all those parents are one path.
pub open spec fn common_parent_spec(sel: Seq<Seq<char>>) -> Option<Seq<char>> {
    if sel.len() > 0 && forall|i: int| 0 <= i < sel.len() ==> (#[trigger] parent_spec(sel[i])) is Some
        && same_path(parent_spec(sel[i])->0, parent_spec(sel[0])->0) {
        parent_spec(sel[0])
    } else {
        None
    }
}

/// The directory that operations (new items, paste, drop) work in.
pub open spec fn operation_directory_spec(b: FileBrowser) -> Seq<char> {
    let trail = b.column_trail@;
    if in_columns(b) {
        let by_selection = match b.column_selected_path {
            Some((c, _)) => if c < trail.len() { Some(trail[c as int]@) } else { None },
            None => None,
        };
        let by_active = match b.active_column_index {
            Some(c) => if c < trail.len() { Some(trail[c as int]@) } else { None },
            None => None,
        };
        match by_selection {
            Some(d) => d,
            None => match by_active {
                Some(d) => d,
                None => match common_parent_spec(views(b.selected_paths@)) {
                    Some(d) => d,
                    None => b.current_dir@,
                },
            },
        }
    } else {
        b.current_dir@
    }
}

/// The selection in path order, or the primary item's path in the column
/// view when nothing is selected.
pub open spec fn effective_paths_ok(b: FileBrowser, r: Seq<Seq<char>>) -> bool {
    if b.selected_paths.len() > 0 {
        r.to_multiset() == views(b.selected_paths@).to_multiset() && sorted_paths(r)
    } else if in_columns(b) {
        match primary_item_spec(b) {
            Some(it) => r == seq![it.path@],
            None => r.len() == 0,
        }
    } else {
        r.len() == 0
    }
}

impl FileBrowser {
    /// The item the browser treats as the one selected (see `primary_item_spec`).
    pub fn primary_selected_item(&self) -> (r: Option<FileItem>)
        ensures
            r == primary_item_spec(*self),
    {
        let columns = self.view_mode == ViewMode::Columns && matches!(self.browse_location, BrowseLocation::Directory);
        if columns {
            if let Some((c, p)) = &self.column_selected_path {
                if *c < self.column_listings.len() {
                    match find_item_index(&self.column_listings[*c], p.as_str()) {
                        Some(i) => {
                            return Some(self.column_listings[*c][i].duplicate());
                        },
                        None => {},
                    }
                }
            }
        }
        if self.selected_paths.len() == 1 {
            let p = self.selected_paths[0].as_str();
            return match find_item_index(&self.display_items, p) {
                Some(i) => Some(self.display_items[i].duplicate()),
                None => find_in_listings_exec(&self.column_listings, p),
            };
        }
        if columns && self.selected_paths.len() == 0 {
            let mut col: usize = self.column_listings.len();
            let ghost trail = views(self.column_trail@);
            while col > 0
                invariant
                    col <= self.column_listings.len(),
                    trail == views(self.column_trail@),
                    primary_item_spec(*self) == find_trail_item(self.column_listings@, trail, col - 1),
                decreases col,
            {
                let c = col - 1;
                if c + 1 < self.column_trail.len() {
                    proof {
                        assert(trail[c + 1] == self.column_trail@[c + 1]@);
                    }
                    match find_item_index(&self.column_listings[c], self.column_trail[c + 1].as_str()) {
                        Some(i) => {
                            return Some(self.column_listings[c][i].duplicate());
                        },
                        None => {},
                    }
                }
                col = c;
            }
            return None;
        }
        None
    }

    /// The primary item's path.
    pub fn primary_path(&self) -> (r: Option<String>)
        ensures
            match primary_item_spec(*self) {
                Some(it) => r matches Some(p) && p@ == it.path@,
                None => r is None,
            },
    {
        match self.primary_selected_item() {
            Some(it) => Some(it.path),
            None => None,
        }
    }

    /// The paths that item commands act on: the selection in path order, or
    /// in the column view with nothing selected the primary item's path.
    pub fn effective_selected_paths(&self) -> (r: Vec<String>)
        ensures
            effective_paths_ok(*self, views(r@)),
    {
        if self.selected_paths.len() > 0 {
            return sorted_selection(&self.selected_paths);
        }
        if self.view_mode == ViewMode::Columns && matches!(self.browse_location, BrowseLocation::Directory) {
            let mut r: Vec<String> = Vec::new();
            if let Some(p) = self.primary_path() {
                r.push(p);
            }
            proof {
                match primary_item_spec(*self) {
                    Some(it) => assert(views(r@) =~= seq![it.path@]),
                    None => {},
                }
            }
            return r;
        }
        Vec::new()
    }

    /// How many paths item commands act on.
    pub fn selected_count(&self) -> (n: usize)
        ensures
            n == if self.selected_paths.len() > 0 {
                self.selected_paths.len() as int
            } else if in_columns(*self) && primary_item_spec(*self) is Some {
                1
            } else {
                0
            },
    {
        let r = self.effective_selected_paths();
        proof {
            if self.selected_paths.len() > 0 {
                views(r@).to_multiset_ensures();
                views(self.selected_paths@).to_multiset_ensures();
            }
        }
        r.len()
    }

    /// The paths dragged from the item at `path`: the command paths when it
    /// is selected, otherwise just it.
    pub fn drag_paths_for_item(&self, path: &str) -> (r: Vec<String>)
        ensures
            if selection_set(*self).contains(components(path@)) {
                effective_paths_ok(*self, views(r@))
            } else {
                views(r@) == seq![path@]
            },
    {
        if self.selected_paths.len() > 0 && sel_contains(&self.selected_paths, path) {
            return self.effective_selected_paths();
        }
        proof {
            if self.selected_paths.len() == 0 {
                assert(views(self.selected_paths@) =~= Seq::<Seq<char>>::empty());
                assert(!comp_set(views(self.selected_paths@)).contains(components(path@)));
            }
        }
        let mut r: Vec<String> = Vec::new();
        r.push(string_from(path));
        proof {
            assert(views(r@) =~= seq![path@]);
        }
        r
    }

    /// The parent shared by all selected paths, if they share one.
    pub fn selected_paths_common_parent(&self) -> (r: Option<String>)
        ensures
            r.deep_view() == common_parent_spec(views(self.selected_paths@)),
    {
        let ghost sel = views(self.selected_paths@);
        if self.selected_paths.len() == 0 {
            return None;
        }
        let first = match path_parent(self.selected_paths[0].as_str()) {
            Some(p) => p,
            None => {
                proof {
                    assert(parent_spec(sel[0]) is None);
                }
                return None;
            },
        };
        let mut i: usize = 0;
        while i < self.selected_paths.len()
            invariant
                i <= self.selected_paths.len(),
                sel == views(self.selected_paths@),
                parent_spec(sel[0]) == Some(first@),
                forall|k: int| 0 <= k < i ==> (#[trigger] parent_spec(sel[k])) is Some
                    && same_path(parent_spec(sel[k])->0, first@),
            decreases self.selected_paths.len() - i,
        {
            proof {
                assert(sel[i as int] == self.selected_paths@[i as int]@);
            }
            match path_parent(self.selected_paths[i].as_str()) {
                Some(p) => {
                    if !paths_equal(p.as_str(), first.as_str()) {
                        proof {
                            assert(!(parent_spec(sel[i as int]) is Some
                                && same_path(parent_spec(sel[i as int])->0, parent_spec(sel[0])->0)));
                        }
                        return None;
                    }
                },
                None => {
                    proof {
                        assert(!((parent_spec(sel[i as int])) is Some));
                    }
                    return None;
                },
            }
            i += 1;
        }
        Some(first)
    }

    /// The directory that new items, pastes and drops go to: in the column
    /// view the column of the selected file, else the active column, else the
    /// selection's common parent; otherwise the current directory.
    pub fn operation_directory(&self) -> (r: String)
        ensures
            r@ == operation_directory_spec(*self),
    {
        if self.view_mode == ViewMode::Columns && matches!(self.browse_location, BrowseLocation::Directory) {
            if let Some((c, _)) = &self.column_selected_path {
                if *c < self.column_trail.len() {
                    return self.column_trail[*c].clone();
                }
            }
            if let Some(c) = self.active_column_index {
                if c < self.column_trail.len() {
                    return self.column_trail[c].clone();
                }
            }
            if let Some(parent) = self.selected_paths_common_parent() {
                return parent;
            }
        }
        self.current_dir.clone()
    }

    /// Whether a context menu opens on the background (nothing selected)
    /// rather than on items.
    pub fn is_background_context_menu(&self) -> (r: bool)
        ensures
            r == (self.selected_paths.len() == 0),
    {
        self.selected_paths.len() == 0
    }

    /// Whether the browser shows directory `path`: it is the current
    /// directory, or one of the columns of the column view.
    pub fn shows_directory(&self, path: &str) -> (r: bool)
        ensures
            r == (same_path(self.current_dir@, path@) || (in_columns(*self)
                && exists|k: int| 0 <= k < self.column_trail.len() && same_path(#[trigger] self.column_trail@[k]@, path@))),
    {
        if paths_equal(self.current_dir.as_str(), path) {
            return true;
        }
        if !(self.view_mode == ViewMode::Columns && matches!(self.browse_location, BrowseLocation::Directory)) {
            return false;
        }
        let mut k: usize = 0;
        while k < self.column_trail.len()
            invariant
                k <= self.column_trail.len(),
                in_columns(*self),
                forall|j: int| 0 <= j < k ==> !same_path(#[trigger] self.column_trail@[j]@, path@),
            decreases self.column_trail.len() - k,
        {
            if paths_equal(self.column_trail[k].as_str(), path) {
                proof {
                    assert(same_path(self.column_trail@[k as int]@, path@));
                }
                return true;
            }
            k += 1;
        }
        false
    }
}

/// Whether a path is gone after deleting `deleted`: it is one of them or
/// lies under one.
pub open spec fn removed_by(p: Seq<char>, deleted: Seq<Seq<char>>) -> bool {
    exists|k: int| 0 <= k < deleted.len() && (same_path(p, #[trigger] deleted[k]) || path_starts_with_spec(p, deleted[k]))
}

/// The nearest proper ancestor of `p` that survives the delete.
pub open spec fn surviving_ancestor(p: Seq<char>, deleted: Seq<Seq<char>>) -> Option<Seq<char>>
    decreases components(p).len(),
{
    match parent_spec(p) {
        None => None,
        Some(q) => {
            proof {
                law_parent_drops_last_component(p);
            }
            if !removed_by(q, deleted) {
                Some(q)
            } else {
                surviving_ancestor(q, deleted)
            }
        },
    }
}

/// Whether `p` is gone after deleting `deleted`.
pub fn path_removed(p: &str, deleted: &Vec<String>) -> (r: bool)
    ensures
        r == removed_by(p@, views(deleted@)),
{
    let ghost d = views(deleted@);
    let mut k: usize = 0;
    while k < deleted.len()
        invariant
            k <= deleted.len(),
            d == views(deleted@),
            forall|j: int| 0 <= j < k ==> !(same_path(p@, #[trigger] d[j]) || path_starts_with_spec(p@, d[j])),
        decreases deleted.len() - k,
    {
        proof {
            assert(d[k as int] == deleted@[k as int]@);
        }
        if paths_equal(p, deleted[k].as_str()) || path_starts_with(p, deleted[k].as_str()) {
            return true;
        }
        k += 1;
    }
    false
}

/// The entries of `list` that survive the delete, in order.
fn surviving_paths(list: &Vec<String>, deleted: &Vec<String>) -> (out: Vec<String>)
    ensures
        views(out@) == views(list@).filter(|p: Seq<char>| !removed_by(p, views(deleted@))),
{
    let ghost f = |p: Seq<char>| !removed_by(p, views(deleted@));
    let mut out: Vec<String> = Vec::new();
    let mut i: usize = 0;
    proof {
        assert(views(list@).take(0) =~= Seq::<Seq<char>>::empty());
        assert(views(out@) =~= Seq::<Seq<char>>::empty());
        assert(Seq::<Seq<char>>::empty().filter(f) =~= Seq::<Seq<char>>::empty());
    }
    while i < list.len()
        invariant
            i <= list.len(),
            f == |p: Seq<char>| !removed_by(p, views(deleted@)),
            views(out@) == views(list@).take(i as int).filter(f),
        decreases list.len() - i,
    {
        let ghost before = views(out@);
        proof {
            assert(views(list@).take(i + 1) =~= views(list@).take(i as int).push(list@[i as int]@));
            views(list@).take(i as int).lemma_filter_push(list@[i as int]@, f);
        }
        if !path_removed(list[i].as_str(), deleted) {
            out.push(list[i].clone());
            proof {
                assert(views(out@) =~= before.push(list@[i as int]@));
            }
        }
        i += 1;
    }
    proof {
        assert(views(list@).take(list.len() as int) =~= views(list@));
    }
    out
}

impl FileBrowser {
    /// Forgets what a delete of `deleted` removed: those paths leave the
    /// back and forward stacks, the selection and the column selection. When
    /// the column view's current directory is gone, the browser moves to its
    /// nearest surviving ancestor (or `home`) with nothing selected.
    pub fn cleanup_after_delete(&mut self, deleted: &Vec<String>, home: String)
        requires
            old(self).wf(),
        ensures
            final(self).wf(),
            views(final(self).back_stack@) == views(old(self).back_stack@).filter(|p: Seq<char>| !removed_by(p, views(deleted@))),
            views(final(self).forward_stack@) == views(old(self).forward_stack@).filter(|p: Seq<char>| !removed_by(p, views(deleted@))),
            if in_columns(*old(self)) && removed_by(old(self).current_dir@, views(deleted@)) {
                &&& final(self).current_dir@ == match surviving_ancestor(old(self).current_dir@, views(deleted@)) {
                    Some(a) => a,
                    None => home@,
                }
                &&& final(self).active_column_index is None
                &&& final(self).selection_cleared()
            } else {
                &&& final(self).current_dir == old(self).current_dir
                &&& final(self).active_column_index == old(self).active_column_index
                &&& final(self).anchor_index == old(self).anchor_index
                &&& final(self).focused_index == old(self).focused_index
                &&& selection_set(*final(self)) == selection_set(*old(self)).filter(
                    |c: Seq<Seq<char>>| !exists|k: int| 0 <= k < deleted.len()
                        && (c == components(#[trigger] deleted@[k]@) || crate::path::is_prefix_of(components(deleted@[k]@), c)))
                &&& final(self).column_selected_path == match old(self).column_selected_path {
                    Some((c, p)) => if removed_by(p@, views(deleted@)) { None } else { Some((c, p)) },
                    None => None,
                }
            },
            *final(self) == (FileBrowser {
                current_dir: final(self).current_dir,
                back_stack: final(self).back_stack,
                forward_stack: final(self).forward_stack,
                selected_paths: final(self).selected_paths,
                anchor_index: final(self).anchor_index,
                focused_index: final(self).focused_index,
                column_selected_path: final(self).column_selected_path,
                active_column_index: final(self).active_column_index,
                ..*old(self)
            }),
    {
        let ghost dv = views(deleted@);
        self.back_stack = surviving_paths(&self.back_stack, deleted);
        self.forward_stack = surviving_paths(&self.forward_stack, deleted);

        let ghost old_sel = views(self.selected_paths@);
        let ghost gone = |c: Seq<Seq<char>>| exists|k: int| 0 <= k < deleted.len()
            && (c == components(#[trigger] deleted@[k]@) || crate::path::is_prefix_of(components(deleted@[k]@), c));
        let mut kept: Vec<String> = Vec::new();
        let mut i: usize = 0;
        proof {
            assert(views(kept@) =~= Seq::<Seq<char>>::empty());
            assert(comp_set(views(kept@)) =~= comp_set(old_sel.take(0)).filter(|c: Seq<Seq<char>>| !gone(c)));
        }
        while i < self.selected_paths.len()
            invariant
                i <= self.selected_paths.len(),
                old_sel == views(self.selected_paths@),
                dv == views(deleted@),
                gone == |c: Seq<Seq<char>>| exists|k: int| 0 <= k < deleted.len()
                    && (c == components(#[trigger] deleted@[k]@) || crate::path::is_prefix_of(components(deleted@[k]@), c)),
                sel_unique(views(kept@)),
                comp_set(views(kept@)) == comp_set(old_sel.take(i as int)).filter(|c: Seq<Seq<char>>| !gone(c)),
            decreases self.selected_paths.len() - i,
        {
            let ghost before = comp_set(old_sel.take(i as int));
            proof {
                assert(comp_set(old_sel.take(i + 1)) =~= before.insert(components(old_sel[i as int]))) by {
                    let t = old_sel.take(i + 1);
                    assert forall|c: Seq<Seq<char>>| comp_set(t).contains(c) implies before.insert(components(old_sel[i as int])).contains(c) by {
                        let k = choose|k: int| 0 <= k < t.len() && components(t[k]) == c;
                        if k < i {
                            assert(old_sel.take(i as int)[k] == t[k]);
                        }
                    }
                    assert forall|c: Seq<Seq<char>>| before.insert(components(old_sel[i as int])).contains(c) implies comp_set(t).contains(c) by {
                        if c == components(old_sel[i as int]) {
                            assert(components(t[i as int]) == c);
                        } else {
                            let k = choose|k: int| 0 <= k < i && components(old_sel.take(i as int)[k]) == c;
                            assert(t[k] == old_sel.take(i as int)[k]);
                        }
                    }
                }
            }
            let removed = path_removed(self.selected_paths[i].as_str(), deleted);
            proof {
                let c = components(old_sel[i as int]);
                assert(old_sel[i as int] == self.selected_paths@[i as int]@);
                if removed {
                    let k = choose|k: int| 0 <= k < dv.len() && (same_path(old_sel[i as int], #[trigger] dv[k]) || path_starts_with_spec(old_sel[i as int], dv[k]));
                    assert(dv[k] == deleted@[k]@);
                    assert(gone(c));
                } else {
                    assert forall|k: int| 0 <= k < deleted.len() implies !(c == components(#[trigger] deleted@[k]@) || crate::path::is_prefix_of(components(deleted@[k]@), c)) by {
                        assert(dv[k] == deleted@[k]@);
                    }
                    assert(!gone(c));
                }
            }
            if !removed {
                sel_insert(&mut kept, self.selected_paths[i].clone());
            }
            proof {
                assert(comp_set(views(kept@)) =~= comp_set(old_sel.take(i + 1)).filter(|c: Seq<Seq<char>>| !gone(c)));
            }
            i += 1;
        }
        proof {
            assert(old_sel.take(old_sel.len() as int) =~= old_sel);
        }
        self.selected_paths = kept;

        let drop_column = match &self.column_selected_path {
            Some((_, p)) => path_removed(p.as_str(), deleted),
            None => false,
        };
        if drop_column {
            self.column_selected_path = None;
        }

        if self.view_mode == ViewMode::Columns && matches!(self.browse_location, BrowseLocation::Directory)
            && path_removed(self.current_dir.as_str(), deleted) {
            let ghost start = self.current_dir@;
            let mut cur = self.current_dir.clone();
            let mut found: Option<String> = None;
            loop
                invariant_except_break
                    surviving_ancestor(start, dv) == surviving_ancestor(cur@, dv),
                invariant
                    dv == views(deleted@),
                ensures
                    surviving_ancestor(start, dv) == found.deep_view(),
                decreases components(cur@).len(),
            {
                match path_parent(cur.as_str()) {
                    None => {
                        found = None;
                        break;
                    },
                    Some(q) => {
                        proof {
                            law_parent_drops_last_component(cur@);
                        }
                        if !path_removed(q.as_str(), deleted) {
                            found = Some(q);
                            break;
                        }
                        cur = q;
                    },
                }
            }
            self.current_dir = match found {
                Some(a) => a,
                None => home,
            };
            self.active_column_index = None;
            self.clear_selection();
        }
    }
}

/// What a change of view mode asks the caller to reload.
#[derive(Clone, Copy, Debug, PartialEq, Eq, Structural)]
pub enum ViewModeChange {
    /// The mode was already shown; nothing changed.
    Unchanged,
    /// The mode changed; the preferences are saved, nothing is reloaded.
    Changed,
    /// The column view was entered: the column listings are reloaded.
    ReloadColumns,
    /// The column view was left: the listing is reloaded.
    ReloadListing,
}

/// What a click on an item of the column view leads to.
#[derive(Clone, Copy, Debug, PartialEq, Eq, Structural)]
pub enum ColumnClick {
    /// Only the selection changed.
    SelectionChanged,
    /// A folder was opened in a new column: the listing is reloaded.
    OpenedFolder,
    /// A file was selected: the column listings are reloaded for the shortened trail.
    SelectedFile,
}

/// How an item is opened.
#[derive(Clone, Copy, Debug, PartialEq, Eq, Structural)]
pub enum OpenAction {
    /// The browser moved to the folder (when `true` the listing is reloaded).
    Navigated(bool),
    /// The folder is opened by the app's navigation (from a file tag view).
    NavigateApp,
    /// The file is handed to the system.
    OpenWithSystem,
}

impl FileBrowser {
    /// Updates the paths that a rename of `from` to `to` moves: the current
    /// directory, the back and forward stacks, the column trail, the watched
    /// directory and the column selection (dropped when it is neither moved
    /// nor in an earlier column than the last). Returns whether the current
    /// directory moved. The caller reloads the column listings.
    #[verifier::rlimit(40)]
    pub fn rewrite_paths_after_rename(&mut self, from: &str, to: &str) -> (location_changed: bool)
        requires
            old(self).wf(),
        ensures
            final(self).wf(),
            location_changed == renamed_path_spec(old(self).current_dir@, from@, to@) is Some,
            final(self).current_dir@ == rewritten_entry(old(self).current_dir@, from@, to@),
            views(final(self).back_stack@) == views(old(self).back_stack@).map_values(|p: Seq<char>| rewritten_entry(p, from@, to@)),
            views(final(self).forward_stack@) == views(old(self).forward_stack@).map_values(|p: Seq<char>| rewritten_entry(p, from@, to@)),
            views(final(self).column_trail@) == views(old(self).column_trail@).map_values(|p: Seq<char>| rewritten_entry(p, from@, to@)),
            final(self).watched_dir.deep_view() == match old(self).watched_dir {
                Some(w) => Some(rewritten_entry(w@, from@, to@)),
                None => None,
            },
            final(self).column_selected_path.deep_view() == match old(self).column_selected_path {
                Some((c, p)) => match renamed_path_spec(p@, from@, to@) {
                    Some(q) => Some((c, q)),
                    None => if c as int >= (if old(self).column_trail.len() == 0 { 0 } else { old(self).column_trail.len() - 1 }) {
                        None
                    } else {
                        Some((c, p@))
                    },
                },
                None => None,
            },
            *final(self) == (FileBrowser {
                current_dir: final(self).current_dir,
                back_stack: final(self).back_stack,
                forward_stack: final(self).forward_stack,
                column_trail: final(self).column_trail,
                watched_dir: final(self).watched_dir,
                column_selected_path: final(self).column_selected_path,
                ..*old(self)
            }),
    {
        let mut location_changed = false;
        if let Some(path) = renamed_path(self.current_dir.as_str(), from, to) {
            self.current_dir = path;
            location_changed = true;
        }
        rewrite_path_list(&mut self.back_stack, from, to);
        rewrite_path_list(&mut self.forward_stack, from, to);
        rewrite_path_list(&mut self.column_trail, from, to);
        proof {
            assert(views(self.back_stack@) =~= views(old(self).back_stack@).map_values(|p: Seq<char>| rewritten_entry(p, from@, to@)));
            assert(views(self.forward_stack@) =~= views(old(self).forward_stack@).map_values(|p: Seq<char>| rewritten_entry(p, from@, to@)));
            assert(views(self.column_trail@) =~= views(old(self).column_trail@).map_values(|p: Seq<char>| rewritten_entry(p, from@, to@)));
        }
        let watched = match &self.watched_dir {
            Some(w) => renamed_path(w.as_str(), from, to),
            None => None,
        };
        if let Some(path) = watched {
            self.watched_dir = Some(path);
        }
        let last_col: usize = if self.column_trail.len() == 0 { 0 } else { self.column_trail.len() - 1 };
        let selected = match &self.column_selected_path {
            Some((c, p)) => Some((*c, renamed_path(p.as_str(), from, to))),
            None => None,
        };
        match selected {
            Some((c, Some(q))) => {
                self.column_selected_path = Some((c, q));
            },
            Some((c, None)) => {
                if c >= last_col {
                    self.column_selected_path = None;
                }
            },
            None => {},
        }
        location_changed
    }

    /// Moves a selected `from` to `to` after a rename.
    pub fn rename_selected_path(&mut self, from: &str, to: String)
        requires
            old(self).wf(),
        ensures
            final(self).wf(),
            selection_set(*final(self)) == if selection_set(*old(self)).contains(components(from@)) {
                selection_set(*old(self)).remove(components(from@)).insert(components(to@))
            } else {
                selection_set(*old(self))
            },
            final(self).selection_frame(old(self)),
            final(self).anchor_index == old(self).anchor_index,
            final(self).focused_index == old(self).focused_index,
            final(self).column_selected_path == old(self).column_selected_path,
    {
        if sel_remove(&mut self.selected_paths, from) {
            sel_insert(&mut self.selected_paths, to);
        }
    }

    /// After a rename: whether the directory watcher must restart (the
    /// location moved, or the watched directory is not the current one);
    /// if so the current directory becomes the watched one.
    pub fn rewatch_after_rename(&mut self, location_changed: bool) -> (restart: bool)
        ensures
            restart == (location_changed || !(match old(self).watched_dir {
                Some(w) => same_path(w@, old(self).current_dir@),
                None => false,
            })),
            restart ==> (final(self).watched_dir matches Some(w) && w@ == old(self).current_dir@),
            !restart ==> final(self).watched_dir == old(self).watched_dir,
            *final(self) == (FileBrowser { watched_dir: final(self).watched_dir, ..*old(self) }),
    {
        let same = match &self.watched_dir {
            Some(w) => paths_equal(w.as_str(), self.current_dir.as_str()),
            None => false,
        };
        if location_changed || !same {
            self.watched_dir = Some(self.current_dir.clone());
            return true;
        }
        false
    }

    /// Switches the view mode. A new mode clears the selection, the column
    /// selection and the active column; entering the column view reloads its
    /// listings and leaving it reloads the listing.
    pub fn set_view_mode(&mut self, mode: ViewMode) -> (change: ViewModeChange)
        requires
            old(self).wf(),
        ensures
            final(self).wf(),
            old(self).view_mode == mode ==> change == ViewModeChange::Unchanged && *final(self) == *old(self),
            old(self).view_mode != mode ==> {
                &&& final(self).view_mode == mode
                &&& final(self).selection_cleared()
                &&& final(self).active_column_index is None
                &&& change == if mode == ViewMode::Columns {
                    ViewModeChange::ReloadColumns
                } else if old(self).view_mode == ViewMode::Columns {
                    ViewModeChange::ReloadListing
                } else {
                    ViewModeChange::Changed
                }
                &&& *final(self) == (FileBrowser {
                    view_mode: final(self).view_mode,
                    selected_paths: final(self).selected_paths,
                    anchor_index: final(self).anchor_index,
                    focused_index: final(self).focused_index,
                    column_selected_path: final(self).column_selected_path,
                    active_column_index: final(self).active_column_index,
                    ..*old(self)
                })
            },
    {
        if self.view_mode == mode {
            return ViewModeChange::Unchanged;
        }
        let was_columns = self.view_mode == ViewMode::Columns;
        self.view_mode = mode;
        self.clear_selection();
        self.active_column_index = None;
        if mode == ViewMode::Columns {
            ViewModeChange::ReloadColumns
        } else if was_columns {
            ViewModeChange::ReloadListing
        } else {
            ViewModeChange::Changed
        }
    }

    /// The preferences to save: the view mode, sort option and sort
    /// direction as configuration strings, and the two visibility switches.
    pub fn preference_values(&self) -> (r: (&'static str, &'static str, &'static str, bool, bool))
        ensures
            r.0@ == crate::model::view_mode_config_spec(self.view_mode),
            r.1@ == crate::model::sort_option_config_spec(self.sort_option),
            r.2@ == crate::model::sort_direction_config_spec(self.sort_direction),
            r.3 == self.show_hidden_items,
            r.4 == self.show_file_extensions,
    {
        (
            self.view_mode.config_value(),
            crate::model::sort_option_config_value(self.sort_option),
            crate::model::sort_direction_config_value(self.sort_direction),
            self.show_hidden_items,
            self.show_file_extensions,
        )
    }

    /// Sorts by `option`; the caller reloads the listing and saves the preferences.
    pub fn set_sort_option(&mut self, option: SortOption)
        ensures
            *final(self) == (FileBrowser { sort_option: option, ..*old(self) }),
    {
        self.sort_option = option;
    }

    /// Reverses the sort direction; the caller reloads and saves.
    pub fn toggle_sort_direction(&mut self)
        ensures
            final(self).sort_direction != old(self).sort_direction,
            *final(self) == (FileBrowser { sort_direction: final(self).sort_direction, ..*old(self) }),
    {
        self.sort_direction = crate::model::toggled_direction(self.sort_direction);
    }

    /// Shows or hides hidden items (dot files follow); the caller reloads and saves.
    pub fn toggle_show_hidden(&mut self)
        ensures
            final(self).show_hidden_items == !old(self).show_hidden_items,
            final(self).show_dot_files == final(self).show_hidden_items,
            *final(self) == (FileBrowser {
                show_hidden_items: final(self).show_hidden_items,
                show_dot_files: final(self).show_dot_files,
                ..*old(self)
            }),
    {
        self.show_hidden_items = !self.show_hidden_items;
        self.show_dot_files = self.show_hidden_items;
    }

    /// Shows or hides file extensions; the caller reloads and saves.
    pub fn toggle_show_file_extensions(&mut self)
        ensures
            final(self).show_file_extensions == !old(self).show_file_extensions,
            *final(self) == (FileBrowser { show_file_extensions: final(self).show_file_extensions, ..*old(self) }),
    {
        self.show_file_extensions = !self.show_file_extensions;
    }

    /// Shows or hides the info pane; returns whether that changed anything.
    pub fn set_show_info_pane(&mut self, show: bool) -> (changed: bool)
        ensures
            changed == (old(self).show_info_pane != show),
            *final(self) == (FileBrowser { show_info_pane: show, ..*old(self) }),
    {
        if self.show_info_pane != show {
            self.show_info_pane = show;
            return true;
        }
        false
    }

    /// Sets the search query; the caller filters the listing with it and
    /// hands the result to `apply_filtered_items`.
    pub fn set_search_query(&mut self, query: String)
        ensures
            *final(self) == (FileBrowser { search_query: query, ..*old(self) }),
    {
        self.search_query = query;
    }

    /// Records whether context menus show extended verbs. A cached system
    /// menu fetched the other way is dropped and the menu revision moves on;
    /// returns whether that happened.
    pub fn set_context_menu_extended_verbs(&mut self, extended: bool) -> (stale: bool)
        ensures
            stale == (match old(self).shell_menu_cache { Some(c) => c.extended_verbs != extended, None => false }),
            final(self).context_menu_extended_verbs == extended,
            stale ==> final(self).shell_menu_cache is None,
            final(self).shell_menu_revision == if stale {
                if old(self).shell_menu_revision == u64::MAX { 0 } else { (old(self).shell_menu_revision + 1) as u64 }
            } else {
                old(self).shell_menu_revision
            },
            *final(self) == (FileBrowser {
                context_menu_extended_verbs: extended,
                shell_menu_revision: final(self).shell_menu_revision,
                shell_menu_cache: final(self).shell_menu_cache,
                ..*old(self)
            }),
            !stale ==> final(self).shell_menu_cache == old(self).shell_menu_cache,
    {
        self.context_menu_extended_verbs = extended;
        let stale = match &self.shell_menu_cache {
            Some(c) => c.extended_verbs != extended,
            None => false,
        };
        if stale {
            self.shell_menu_cache = None;
            self.shell_menu_revision = if self.shell_menu_revision == u64::MAX { 0 } else { self.shell_menu_revision + 1 };
        }
        stale
    }

    /// Drops the cached system menu and forgets a fetch in flight (the
    /// caller ends the system's menu session).
    pub fn clear_shell_menu_cache(&mut self)
        ensures
            *final(self) == (FileBrowser { shell_menu_cache: None, shell_menu_fetch_paths: None, ..*old(self) }),
    {
        self.shell_menu_cache = None;
        self.shell_menu_fetch_paths = None;
    }

    /// Opens an item: a folder is navigated to (by the app's navigation when
    /// a file tag is shown), anything else is handed to the system.
    pub fn open_item(&mut self, path: String, kind: FileItemKind) -> (action: OpenAction)
        requires
            old(self).wf(),
        ensures
            final(self).wf(),
            match kind {
                FileItemKind::Folder => if old(self).browse_location is FileTag {
                    action == OpenAction::NavigateApp && *final(self) == *old(self)
                } else {
                    action == OpenAction::Navigated(!same_path(path@, old(self).current_dir@))
                        && final(self).history() == history_after_navigate(old(self).history(), path@)
                        && final(self).browse_location is Directory
                        && final(self).nav_frame(old(self))
                },
                _ => action == OpenAction::OpenWithSystem && *final(self) == *old(self),
            },
    {
        match kind {
            FileItemKind::Folder => {
                if matches!(self.browse_location, BrowseLocation::FileTag { .. }) {
                    return OpenAction::NavigateApp;
                }
                let moved = self.navigate_to(path);
                OpenAction::Navigated(moved)
            },
            _ => OpenAction::OpenWithSystem,
        }
    }
}

/// The index of the item in column `col` that opened the next column.
pub open spec fn implicit_index_spec(b: FileBrowser, col: int) -> Option<int> {
    if 0 <= col && col + 1 < b.column_trail.len() && col < b.column_listings.len() {
        let items = b.column_listings@[col]@;
        let target = b.column_trail@[col + 1]@;
        if exists|i: int| 0 <= i < items.len() && same_path(#[trigger] items[i].path@, target) {
            Some(choose|i: int| 0 <= i < items.len() && same_path(#[trigger] items[i].path@, target)
                && forall|j: int| 0 <= j < i ==> !same_path(#[trigger] items[j].path@, target))
        } else {
            None
        }
    } else {
        None
    }
}

/// Whether every path has directory `dest` as its parent.
pub open spec fn all_in_directory(paths: Seq<Seq<char>>, dest: Seq<char>) -> bool {
    forall|i: int| 0 <= i < paths.len() ==> (#[trigger] parent_spec(paths[i])) is Some
        && same_path(parent_spec(paths[i])->0, dest)
}

/// The transfer a drop of `paths` on directory `dest` starts: none when
/// nothing is dropped, `dest` is not a directory, or every path already
/// lies directly in `dest`; a copy with the copy modifier, else a move.
pub open spec fn drop_transfer_spec(paths: Seq<Seq<char>>, dest_is_dir: bool, dest: Seq<char>, copy: bool) -> Option<FileTransferKind> {
    if paths.len() == 0 || !dest_is_dir || all_in_directory(paths, dest) {
        None
    } else if copy {
        Some(FileTransferKind::Copy)
    } else {
        Some(FileTransferKind::Move)
    }
}

/// Whether every path lies directly in `dest`.
pub fn paths_all_in_directory(paths: &Vec<String>, dest: &str) -> (r: bool)
    ensures
        r == all_in_directory(views(paths@), dest@),
{
    let ghost v = views(paths@);
    let mut i: usize = 0;
    while i < paths.len()
        invariant
            i <= paths.len(),
            v == views(paths@),
            forall|k: int| 0 <= k < i ==> (#[trigger] parent_spec(v[k])) is Some && same_path(parent_spec(v[k])->0, dest@),
        decreases paths.len() - i,
    {
        proof {
            assert(v[i as int] == paths@[i as int]@);
        }
        match path_parent(paths[i].as_str()) {
            Some(p) => {
                if !paths_equal(p.as_str(), dest) {
                    return false;
                }
            },
            None => {
                return false;
            },
        }
        i += 1;
    }
    true
}

/// The transfer a drop of `paths` on `dest` starts (see `drop_transfer_spec`).
pub fn drop_transfer(paths: &Vec<String>, dest: &str, dest_is_dir: bool, copy: bool) -> (r: Option<FileTransferKind>)
    ensures
        r == drop_transfer_spec(views(paths@), dest_is_dir, dest@, copy),
{
    if paths.len() == 0 || !dest_is_dir || paths_all_in_directory(paths, dest) {
        return None;
    }
    if copy {
        Some(FileTransferKind::Copy)
    } else {
        Some(FileTransferKind::Move)
    }
}

impl FileBrowser {
    /// What a drop of `paths` on the browser does: the transfer and the
    /// directory it goes to (the operation directory).
    pub fn handle_drop(&self, paths: &Vec<String>, copy: bool) -> (r: Option<(FileTransferKind, String)>)
        ensures
            match r {
                Some((kind, dest)) => dest@ == operation_directory_spec(*self)
                    && drop_transfer_spec(views(paths@), true, dest@, copy) == Some(kind),
                None => drop_transfer_spec(views(paths@), true, operation_directory_spec(*self), copy) is None,
            },
    {
        if paths.len() == 0 {
            return None;
        }
        let dest = self.operation_directory();
        match drop_transfer(paths, dest.as_str(), true, copy) {
            Some(kind) => Some((kind, dest)),
            None => None,
        }
    }

    /// The index of the item in column `col` that opened the next column.
    pub fn implicit_column_selected_index(&self, col: usize) -> (r: Option<usize>)
        ensures
            match r {
                Some(i) => implicit_index_spec(*self, col as int) == Some(i as int)
                    && col < self.column_listings.len() && i < self.column_listings@[col as int].len(),
                None => implicit_index_spec(*self, col as int) is None,
            },
    {
        if col >= self.column_listings.len() || self.column_trail.len() == 0 || col >= self.column_trail.len() - 1 {
            return None;
        }
        let r = find_item_index(&self.column_listings[col], self.column_trail[col + 1].as_str());
        proof {
            let items = self.column_listings@[col as int]@;
            let target = self.column_trail@[col + 1]@;
            match r {
                Some(i) => {
                    assert(same_path(items[i as int].path@, target));
                    let c = choose|k: int| 0 <= k < items.len() && same_path(#[trigger] items[k].path@, target)
                        && forall|j: int| 0 <= j < k ==> !same_path(#[trigger] items[j].path@, target);
                    if c < i {
                        assert(!same_path(items[c].path@, target));
                    } else if c > i {
                        assert(!same_path(items[i as int].path@, target));
                    }
                },
                None => {},
            }
        }
        r
    }

    /// The selection that the item which opened the next column stands for.
    pub fn implicit_column_base_selection(&self, col: usize) -> (sel: Vec<String>)
        ensures
            sel_unique(views(sel@)),
            comp_set(views(sel@)) == match implicit_index_spec(*self, col as int) {
                Some(i) => Set::<Seq<Seq<char>>>::empty().insert(components(self.column_listings@[col as int]@[i].path@)),
                None => Set::<Seq<Seq<char>>>::empty(),
            },
    {
        let mut base: Vec<String> = Vec::new();
        proof {
            assert(views(base@) =~= Seq::<Seq<char>>::empty());
            assert(comp_set(views(base@)) =~= Set::<Seq<Seq<char>>>::empty());
        }
        if let Some(i) = self.implicit_column_selected_index(col) {
            sel_insert(&mut base, self.column_listings[col][i].path.clone());
        }
        base
    }

    /// Opens folder `path` from column `col`: the trail is cut after that
    /// column and the folder added, the browser moves there (onto the back
    /// stack unless it already is there), and nothing stays selected. The
    /// caller reloads the listing.
    pub fn select_column_folder(&mut self, col: usize, path: String)
        requires
            old(self).wf(),
        ensures
            final(self).wf(),
            final(self).active_column_index == Some(col),
            final(self).history() == history_after_navigate(old(self).history(), path@)
                || (same_path(path@, old(self).current_dir@) && final(self).history() == (path@, views(old(self).back_stack@), views(old(self).forward_stack@))),
            final(self).current_dir@ == path@,
            views(final(self).column_trail@) == views(old(self).column_trail@).take(
                if col + 1 <= old(self).column_trail.len() { col + 1 } else { old(self).column_trail.len() as int }).push(path@),
            final(self).selection_cleared(),
            *final(self) == (FileBrowser {
                active_column_index: final(self).active_column_index,
                current_dir: final(self).current_dir,
                back_stack: final(self).back_stack,
                forward_stack: final(self).forward_stack,
                column_trail: final(self).column_trail,
                selected_paths: final(self).selected_paths,
                anchor_index: final(self).anchor_index,
                focused_index: final(self).focused_index,
                column_selected_path: final(self).column_selected_path,
                ..*old(self)
            }),
    {
        self.active_column_index = Some(col);
        if !paths_equal(self.current_dir.as_str(), path.as_str()) {
            let ghost old_back = views(self.back_stack@);
            self.back_stack.push(self.current_dir.clone());
            self.forward_stack = Vec::new();
            proof {
                assert(views(self.back_stack@) =~= old_back.push(old(self).current_dir@));
                assert(views(self.forward_stack@) =~= Seq::<Seq<char>>::empty());
            }
        }
        self.current_dir = path.clone();
        let keep: usize = if col < self.column_trail.len() { col + 1 } else { self.column_trail.len() };
        let ghost old_trail = views(self.column_trail@);
        self.column_trail.truncate(keep);
        self.column_trail.push(path);
        proof {
            assert(views(self.column_trail@) =~= old_trail.take(keep as int).push(self.current_dir@));
        }
        self.clear_selection();
    }

    /// Makes column `col` the active one and its directory the current one;
    /// returns whether that column exists.
    pub fn activate_column(&mut self, col: usize) -> (done: bool)
        ensures
            done == (col < old(self).column_trail.len()),
            done ==> final(self).active_column_index == Some(col)
                && final(self).current_dir == old(self).column_trail@[col as int]
                && *final(self) == (FileBrowser {
                    active_column_index: Some(col),
                    current_dir: final(self).current_dir,
                    ..*old(self)
                }),
            !done ==> *final(self) == *old(self),
    {
        if col >= self.column_trail.len() {
            return false;
        }
        self.active_column_index = Some(col);
        self.current_dir = self.column_trail[col].clone();
        true
    }

    /// Handles a click on item `index` (whose item is `item`) of column
    /// `col`. Shift selects the range from the anchor (or the item that
    /// opened the next column, or the item) to the item; the secondary
    /// modifier toggles the item, starting from the item that opened the
    /// next column when nothing is selected; a plain click opens a folder in
    /// a new column or selects a file and cuts the trail after its column.
    #[verifier::rlimit(60)]
    #[verifier::spinoff_prover]
    pub fn handle_column_item_click(&mut self, col: usize, index: usize, item: &FileItem, modifiers: Modifiers) -> (click: ColumnClick)
        requires
            old(self).wf(),
        ensures
            final(self).wf(),
            final(self).active_column_index == Some(col),
            final(self).focused_index == Some(index),
            (modifiers.shift || modifiers.secondary || item.kind != FileItemKind::Folder) ==> *final(self) == (FileBrowser {
                selected_paths: final(self).selected_paths,
                anchor_index: final(self).anchor_index,
                focused_index: final(self).focused_index,
                active_column_index: final(self).active_column_index,
                column_selected_path: final(self).column_selected_path,
                column_trail: final(self).column_trail,
                ..*old(self)
            }),
            (modifiers.shift || modifiers.secondary) ==> final(self).column_trail == old(self).column_trail,
            (!modifiers.shift && !modifiers.secondary && item.kind == FileItemKind::Folder) ==> *final(self) == (FileBrowser {
                active_column_index: final(self).active_column_index,
                current_dir: final(self).current_dir,
                back_stack: final(self).back_stack,
                forward_stack: final(self).forward_stack,
                column_trail: final(self).column_trail,
                selected_paths: final(self).selected_paths,
                anchor_index: final(self).anchor_index,
                focused_index: final(self).focused_index,
                column_selected_path: final(self).column_selected_path,
                ..*old(self)
            }),
            modifiers.shift ==> {
                let anchor: int = match old(self).anchor_index {
                    Some(a) => a as int,
                    None => match implicit_index_spec(*old(self), col as int) { Some(i) => i, None => index as int },
                };
                let lo = if anchor <= index { anchor } else { index as int };
                let hi = if anchor <= index { index as int } else { anchor };
                &&& click == ColumnClick::SelectionChanged
                &&& selection_set(*final(self)) == if col < old(self).column_listings.len() {
                    range_set(old(self).column_listings@[col as int]@, lo, hi + 1)
                } else {
                    Set::<Seq<Seq<char>>>::empty()
                }
                &&& final(self).column_selected_path is None
                &&& final(self).anchor_index == old(self).anchor_index
            },
            !modifiers.shift && modifiers.secondary ==> {
                let base = if views(old(self).selected_paths@).len() == 0 {
                    match implicit_index_spec(*old(self), col as int) {
                        Some(i) => Set::<Seq<Seq<char>>>::empty().insert(components(old(self).column_listings@[col as int]@[i].path@)),
                        None => Set::<Seq<Seq<char>>>::empty(),
                    }
                } else {
                    selection_set(*old(self))
                };
                &&& click == ColumnClick::SelectionChanged
                &&& selection_set(*final(self)) == if base.contains(components(item.path@)) {
                    base.remove(components(item.path@))
                } else {
                    base.insert(components(item.path@))
                }
                &&& final(self).column_selected_path is None
                &&& final(self).anchor_index == Some(index)
            },
            !modifiers.shift && !modifiers.secondary ==> {
                &&& final(self).anchor_index == Some(index)
                &&& if item.kind == FileItemKind::Folder {
                    &&& click == ColumnClick::OpenedFolder
                    &&& final(self).current_dir@ == item.path@
                    &&& views(final(self).column_trail@) == views(old(self).column_trail@).take(
                        if col + 1 <= old(self).column_trail.len() { col + 1 } else { old(self).column_trail.len() as int }).push(item.path@)
                    &&& final(self).selected_paths@.len() == 0
                    &&& final(self).column_selected_path is None
                } else {
                    &&& click == ColumnClick::SelectedFile
                    &&& final(self).column_selected_path matches Some((c, p)) && c == col && p@ == item.path@
                    &&& selection_set(*final(self)) == Set::<Seq<Seq<char>>>::empty().insert(components(item.path@))
                    &&& views(final(self).column_trail@) == views(old(self).column_trail@).take(
                        if col + 1 <= old(self).column_trail.len() { col + 1 } else { old(self).column_trail.len() as int })
                    &&& final(self).current_dir == old(self).current_dir
                }
            },
    {
        if modifiers.shift {
            let anchor: usize = match self.anchor_index {
                Some(a) => a,
                None => match self.implicit_column_selected_index(col) {
                    Some(i) => i,
                    None => index,
                },
            };
            self.active_column_index = Some(col);
            let (start, end) = if anchor <= index { (anchor, index) } else { (index, anchor) };
            if col < self.column_listings.len() {
                let n = self.column_listings[col].len();
                let hi = if end < n { end + 1 } else { n };
                self.selected_paths = paths_in_range(&self.column_listings[col], start, hi);
                proof {
                    assert(range_set(self.column_listings@[col as int]@, start as int, hi as int)
                        =~= range_set(self.column_listings@[col as int]@, start as int, end + 1));
                }
            } else {
                self.selected_paths = Vec::new();
                proof {
                    assert(views(self.selected_paths@) =~= Seq::<Seq<char>>::empty());
                    assert(comp_set(views(self.selected_paths@)) =~= Set::<Seq<Seq<char>>>::empty());
                }
            }
            self.column_selected_path = None;
            self.focused_index = Some(index);
            return ColumnClick::SelectionChanged;
        }
        if modifiers.secondary {
            if self.selected_paths.len() == 0 {
                self.selected_paths = self.implicit_column_base_selection(col);
            }
            self.active_column_index = Some(col);
            if sel_contains(&self.selected_paths, item.path.as_str()) {
                sel_remove(&mut self.selected_paths, item.path.as_str());
            } else {
                sel_insert(&mut self.selected_paths, item.path.clone());
            }
            self.column_selected_path = None;
            self.anchor_index = Some(index);
            self.focused_index = Some(index);
            return ColumnClick::SelectionChanged;
        }
        if item.kind == FileItemKind::Folder {
            self.select_column_folder(col, item.path.clone());
            self.anchor_index = Some(index);
            self.focused_index = Some(index);
            return ColumnClick::OpenedFolder;
        }
        self.active_column_index = Some(col);
        self.anchor_index = Some(index);
        self.focused_index = Some(index);
        self.column_selected_path = Some((col, item.path.clone()));
        let mut sel: Vec<String> = Vec::new();
        proof {
            assert(views(sel@) =~= Seq::<Seq<char>>::empty());
            assert(comp_set(views(sel@)) =~= Set::<Seq<Seq<char>>>::empty());
        }
        sel_insert(&mut sel, item.path.clone());
        self.selected_paths = sel;
        let keep: usize = if col < self.column_trail.len() { col + 1 } else { self.column_trail.len() };
        let ghost old_trail = views(self.column_trail@);
        self.column_trail.truncate(keep);
        proof {
            assert(views(self.column_trail@) =~= old_trail.take(keep as int));
        }
        ColumnClick::SelectedFile
    }
}

/// Where a sweep (rubber-band) selection runs: the main list or a column.
#[derive(Clone, Copy, Debug, PartialEq, Eq, Structural)]
pub enum SweepSurface {
    Main,
    Column(usize),
}

/// A sweep selection in progress: where it runs, the item it started from
/// and the one under the pointer, the selection it started with, and the
/// modifier keys held.
#[derive(Debug)]
pub struct SweepSelection {
    pub surface: SweepSurface,
    pub start_index: Option<usize>,
    pub current_index: Option<usize>,
    pub base_selection: Vec<String>,
    pub modifiers: Modifiers,
}

/// `sel` with the path whose components are `c` toggled.
pub open spec fn toggled(sel: Set<Seq<Seq<char>>>, c: Seq<Seq<char>>) -> Set<Seq<Seq<char>>> {
    if sel.contains(c) { sel.remove(c) } else { sel.insert(c) }
}

/// `base` with each hit toggled in turn.
pub open spec fn toggle_all(base: Set<Seq<Seq<char>>>, hits: Seq<Seq<char>>) -> Set<Seq<Seq<char>>>
    decreases hits.len(),
{
    if hits.len() == 0 {
        base
    } else {
        toggled(toggle_all(base, hits.drop_last()), components(hits.last()))
    }
}

/// The paths of `hits`, each as its components.
pub open spec fn hit_set(hits: Seq<Seq<char>>) -> Set<Seq<Seq<char>>> {
    Set::new(|c: Seq<Seq<char>>| exists|i: int| 0 <= i < hits.len() && components(#[trigger] hits[i]) == c)
}

/// The selection a sweep over `hits` gives: with the secondary modifier
/// the starting selection `base` with each hit toggled, otherwise the hits.
pub fn sweep_selection_from_hits(base: &Vec<String>, hits: &Vec<String>, secondary: bool) -> (sel: Vec<String>)
    requires
        sel_unique(views(base@)),
    ensures
        sel_unique(views(sel@)),
        secondary ==> comp_set(views(sel@)) == toggle_all(comp_set(views(base@)), views(hits@)),
        !secondary ==> comp_set(views(sel@)) == hit_set(views(hits@)),
{
    let mut sel: Vec<String> = if secondary { clone_strings(base) } else { Vec::new() };
    let ghost hv = views(hits@);
    proof {
        if !secondary {
            assert(views(sel@) =~= Seq::<Seq<char>>::empty());
            assert(comp_set(views(sel@)) =~= hit_set(hv.take(0)));
        } else {
            assert(views(sel@) == views(base@));
            assert(hv.take(0) =~= Seq::<Seq<char>>::empty());
        }
    }
    let mut i: usize = 0;
    while i < hits.len()
        invariant
            i <= hits.len(),
            hv == views(hits@),
            sel_unique(views(sel@)),
            secondary ==> comp_set(views(sel@)) == toggle_all(comp_set(views(base@)), hv.take(i as int)),
            !secondary ==> comp_set(views(sel@)) == hit_set(hv.take(i as int)),
        decreases hits.len() - i,
    {
        proof {
            assert(hv.take(i + 1).drop_last() =~= hv.take(i as int));
            assert(hv.take(i + 1).last() == hits@[i as int]@);
        }
        if secondary {
            if !sel_insert(&mut sel, hits[i].clone()) {
                sel_remove(&mut sel, hits[i].as_str());
            }
        } else {
            sel_insert(&mut sel, hits[i].clone());
            proof {
                let t = hv.take(i + 1);
                assert(hit_set(t) =~= hit_set(hv.take(i as int)).insert(components(hits@[i as int]@))) by {
                    assert forall|c: Seq<Seq<char>>| hit_set(t).contains(c) implies hit_set(hv.take(i as int)).insert(components(hits@[i as int]@)).contains(c) by {
                        let k = choose|k: int| 0 <= k < t.len() && components(t[k]) == c;
                        if k < i {
                            assert(hv.take(i as int)[k] == t[k]);
                        }
                    }
                    assert forall|c: Seq<Seq<char>>| hit_set(hv.take(i as int)).insert(components(hits@[i as int]@)).contains(c) implies hit_set(t).contains(c) by {
                        if c == components(hits@[i as int]@) {
                            assert(components(t[i as int]) == c);
                        } else {
                            let k = choose|k: int| 0 <= k < i && components(hv.take(i as int)[k]) == c;
                            assert(t[k] == hv.take(i as int)[k]);
                        }
                    }
                }
            }
        }
        i += 1;
    }
    proof {
        assert(hv.take(hits.len() as int) =~= hv);
    }
    sel
}

impl FileBrowser {
    /// Starts a sweep on `surface`. With shift the sweep starts from the
    /// anchor (in a column, else the item that opened the next column); it
    /// remembers the selection (in a column with nothing selected, the item
    /// that opened the next column). Without a modifier the selection is
    /// cleared first (on the main list also the anchor, focus and column
    /// selection); a column sweep makes its column active.
    pub fn begin_sweep_selection(&mut self, surface: SweepSurface, modifiers: Modifiers) -> (sweep: SweepSelection)
        requires
            old(self).wf(),
        ensures
            final(self).wf(),
            sweep.surface == surface,
            sweep.modifiers == modifiers,
            sweep.current_index is None,
            sel_unique(views(sweep.base_selection@)),
            sweep.start_index == if modifiers.shift {
                match surface {
                    SweepSurface::Main => old(self).anchor_index,
                    SweepSurface::Column(c) => match old(self).anchor_index {
                        Some(a) => Some(a),
                        None => match implicit_index_spec(*old(self), c as int) {
                            Some(i) => Some(i as usize),
                            None => None,
                        },
                    },
                }
            } else {
                None
            },
            comp_set(views(sweep.base_selection@)) == match surface {
                SweepSurface::Column(c) => if old(self).selected_paths.len() == 0 {
                    match implicit_index_spec(*old(self), c as int) {
                        Some(i) => Set::<Seq<Seq<char>>>::empty().insert(components(old(self).column_listings@[c as int]@[i].path@)),
                        None => Set::<Seq<Seq<char>>>::empty(),
                    }
                } else {
                    selection_set(*old(self))
                },
                SweepSurface::Main => selection_set(*old(self)),
            },
            match surface {
                SweepSurface::Main => {
                    &&& final(self).active_column_index is None
                    &&& if !modifiers.secondary && !modifiers.shift {
                        final(self).selection_cleared()
                    } else {
                        final(self).selected_paths == old(self).selected_paths
                            && final(self).anchor_index == old(self).anchor_index
                            && final(self).focused_index == old(self).focused_index
                            && final(self).column_selected_path == old(self).column_selected_path
                    }
                },
                SweepSurface::Column(c) => {
                    &&& final(self).active_column_index == Some(c)
                    &&& final(self).column_selected_path is None
                    &&& final(self).anchor_index == old(self).anchor_index
                    &&& final(self).focused_index == old(self).focused_index
                    &&& if !modifiers.secondary && !modifiers.shift {
                        final(self).selected_paths@.len() == 0
                    } else {
                        final(self).selected_paths == old(self).selected_paths
                    }
                },
            },
            *final(self) == (FileBrowser {
                selected_paths: final(self).selected_paths,
                anchor_index: final(self).anchor_index,
                focused_index: final(self).focused_index,
                column_selected_path: final(self).column_selected_path,
                active_column_index: final(self).active_column_index,
                ..*old(self)
            }),
    {
        let start_index = if modifiers.shift {
            match surface {
                SweepSurface::Main => self.anchor_index,
                SweepSurface::Column(c) => match self.anchor_index {
                    Some(a) => Some(a),
                    None => self.implicit_column_selected_index(c),
                },
            }
        } else {
            None
        };
        let base_selection = match surface {
            SweepSurface::Main => clone_strings(&self.selected_paths),
            SweepSurface::Column(c) => if self.selected_paths.len() == 0 {
                self.implicit_column_base_selection(c)
            } else {
                clone_strings(&self.selected_paths)
            },
        };
        match surface {
            SweepSurface::Main => {
                self.active_column_index = None;
                if !modifiers.secondary && !modifiers.shift {
                    self.clear_selection();
                }
            },
            SweepSurface::Column(c) => {
                self.active_column_index = Some(c);
                self.column_selected_path = None;
                if !modifiers.secondary && !modifiers.shift {
                    self.selected_paths = Vec::new();
                    proof {
                        assert(views(self.selected_paths@) =~= Seq::<Seq<char>>::empty());
                    }
                }
            },
        }
        SweepSelection { surface, start_index, current_index: None, base_selection, modifiers }
    }

    /// Applies the items a sweep rectangle covers (`hits`, their paths):
    /// the selection becomes the sweep's result and nothing is focused; a
    /// column sweep makes its column active and drops the column selection.
    pub fn apply_sweep_hits(&mut self, sweep: &SweepSelection, hits: &Vec<String>)
        requires
            sel_unique(views(sweep.base_selection@)),
        ensures
            final(self).wf(),
            sweep.modifiers.secondary ==> selection_set(*final(self)) == toggle_all(comp_set(views(sweep.base_selection@)), views(hits@)),
            !sweep.modifiers.secondary ==> selection_set(*final(self)) == hit_set(views(hits@)),
            final(self).focused_index is None,
            match sweep.surface {
                SweepSurface::Main => final(self).active_column_index == old(self).active_column_index
                    && final(self).column_selected_path == old(self).column_selected_path,
                SweepSurface::Column(c) => final(self).active_column_index == Some(c)
                    && final(self).column_selected_path is None,
            },
            *final(self) == (FileBrowser {
                selected_paths: final(self).selected_paths,
                focused_index: final(self).focused_index,
                column_selected_path: final(self).column_selected_path,
                active_column_index: final(self).active_column_index,
                ..*old(self)
            }),
    {
        self.selected_paths = sweep_selection_from_hits(&sweep.base_selection, hits, sweep.modifiers.secondary);
        self.focused_index = None;
        if let SweepSurface::Column(c) = sweep.surface {
            self.active_column_index = Some(c);
            self.column_selected_path = None;
        }
    }
}

/// Records that the pointer is over item `hover` of `surface`: the sweep's
/// start becomes the item when it had none. Returns whether the covered
/// items must be recomputed (the sweep runs there and the item changed).
pub fn update_sweep_hover(sweep: &mut SweepSelection, surface: SweepSurface, hover: usize) -> (changed: bool)
    ensures
        old(sweep).surface != surface ==> !changed && *final(sweep) == *old(sweep),
        old(sweep).surface == surface ==> {
            &&& final(sweep).start_index == match old(sweep).start_index { Some(s) => Some(s), None => Some(hover) }
            &&& final(sweep).current_index == Some(hover)
            &&& changed == (old(sweep).current_index != Some(hover))
            &&& *final(sweep) == (SweepSelection {
                start_index: final(sweep).start_index,
                current_index: final(sweep).current_index,
                ..*old(sweep)
            })
        },
{
    if sweep.surface != surface {
        return false;
    }
    if sweep.start_index.is_none() {
        sweep.start_index = Some(hover);
    }
    if sweep.current_index == Some(hover) {
        return false;
    }
    sweep.current_index = Some(hover);
    true
}

/// The order-independent key of a list of paths: the paths in path order.
pub fn normalize_paths_for_shell_cache(paths: &Vec<String>) -> (key: Vec<String>)
    ensures
        views(key@).to_multiset() == views(paths@).to_multiset(),
        sorted_paths(views(key@)),
{
    sorted_selection(paths)
}

/// Whether two path lists hold the same paths at each position (`Vec<PathBuf> ==`).
pub fn path_lists_equal(a: &Vec<String>, b: &Vec<String>) -> (r: bool)
    ensures
        r == same_path_list(views(a@), views(b@)),
{
    if a.len() != b.len() {
        return false;
    }
    let mut i: usize = 0;
    while i < a.len()
        invariant
            i <= a.len(),
            a.len() == b.len(),
            forall|k: int| 0 <= k < i ==> same_path(#[trigger] views(a@)[k], views(b@)[k]),
        decreases a.len() - i,
    {
        if !paths_equal(a[i].as_str(), b[i].as_str()) {
            proof {
                assert(!same_path(views(a@)[i as int], views(b@)[i as int]));
            }
            return false;
        }
        i += 1;
    }
    true
}

proof fn lemma_same_path_list_congruence(x: Seq<Seq<char>>, a: Seq<Seq<char>>, y: Seq<Seq<char>>, b: Seq<Seq<char>>)
    requires
        same_path_list(x, a),
        same_path_list(y, b),
    ensures
        same_path_list(x, y) == same_path_list(a, b),
{
    if same_path_list(a, b) {
        assert forall|i: int| 0 <= i < x.len() implies same_path(#[trigger] x[i], y[i]) by {
            assert(same_path(x[i], a[i]) && same_path(a[i], b[i]) && same_path(y[i], b[i]));
        }
    }
    if same_path_list(x, y) {
        assert forall|i: int| 0 <= i < a.len() implies same_path(#[trigger] a[i], b[i]) by {
            assert(same_path(x[i], a[i]) && same_path(x[i], y[i]) && same_path(y[i], b[i]));
        }
    }
}

/// Whether a cached system menu for `cache_paths` fits `selection`: their
/// keys agree. Every sorted arrangement of the two lists gives the same
/// answer, so the order of either list does not matter.
pub fn shell_cache_matches_selection(cache_paths: &Vec<String>, selection: &Vec<String>) -> (r: bool)
    ensures
        r == paths_match(views(cache_paths@), views(selection@)),
        forall|x: Seq<Seq<char>>, y: Seq<Seq<char>>|
            x.to_multiset() == views(cache_paths@).to_multiset() && sorted_paths(x)
            && y.to_multiset() == views(selection@).to_multiset() && sorted_paths(y)
            ==> (r == same_path_list(x, y)),
        views(cache_paths@).to_multiset() == views(selection@).to_multiset() ==> r,
{
    let a = normalize_paths_for_shell_cache(cache_paths);
    let b = normalize_paths_for_shell_cache(selection);
    let r = path_lists_equal(&a, &b);
    proof {
        assert forall|x: Seq<Seq<char>>, y: Seq<Seq<char>>|
            x.to_multiset() == views(cache_paths@).to_multiset() && sorted_paths(x)
            && y.to_multiset() == views(selection@).to_multiset() && sorted_paths(y)
            implies (r == same_path_list(x, y)) by {
            law_sorted_key_order_independent(x, views(a@));
            law_sorted_key_order_independent(y, views(b@));
            lemma_same_path_list_congruence(x, views(a@), y, views(b@));
        }
        if views(cache_paths@).to_multiset() == views(selection@).to_multiset() {
            law_sorted_key_order_independent(views(a@), views(b@));
        }
        if r {
            assert(views(a@).to_multiset() == views(cache_paths@).to_multiset() && sorted_paths(views(a@))
                && views(b@).to_multiset() == views(selection@).to_multiset() && sorted_paths(views(b@))
                && same_path_list(views(a@), views(b@)));
        }
    }
    r
}

/// Whether two path lists hold the same paths once each is sorted
/// (`Vec<PathBuf> ==` after `sort`): some sorted arrangements of the two
/// agree path by path.
pub open spec fn paths_match(a: Seq<Seq<char>>, b: Seq<Seq<char>>) -> bool {
    exists|x: Seq<Seq<char>>, y: Seq<Seq<char>>| #![trigger x.to_multiset(), y.to_multiset()]
        x.to_multiset() == a.to_multiset() && sorted_paths(x)
        && y.to_multiset() == b.to_multiset() && sorted_paths(y)
        && same_path_list(x, y)
}

/// Where the system menu stands for `paths` (with extended verbs or not):
/// loading unless the cache was fetched for the same paths and verbs;
/// then empty or ready.
pub open spec fn shell_snapshot_spec(cache: Option<ShellMenuCacheKey>, paths: Seq<Seq<char>>, extended: bool, matches: bool) -> crate::menu::ShellMenuState {
    match cache {
        None => crate::menu::ShellMenuState::Loading,
        Some(c) => if !matches || c.extended_verbs != extended {
            crate::menu::ShellMenuState::Loading
        } else if c.has_entries {
            crate::menu::ShellMenuState::Ready
        } else {
            crate::menu::ShellMenuState::Empty
        },
    }
}

/// What a finished system menu fetch did.
#[derive(Clone, Copy, Debug, PartialEq, Eq, Structural)]
pub enum ShellFetchOutcome {
    /// A newer fetch started meanwhile; this one was ignored.
    Stale,
    /// The cache was updated; when the menu is open it is rebuilt, and
    /// after a failure the fetch is tried again.
    Applied { menu_open: bool, retry: bool },
}


/// Whether the cached system menu was fetched for the paths `e`, with the
/// browser's verbs, and has entries.
pub open spec fn cache_covers(b: FileBrowser, e: Seq<Seq<char>>) -> bool {
    match b.shell_menu_cache {
        Some(c) => same_path_list(views(c.paths@), e) && c.extended_verbs == b.context_menu_extended_verbs
            && c.has_entries,
        None => false,
    }
}

/// Whether a system menu fetch for the paths `e` is under way.
pub open spec fn fetch_in_flight(b: FileBrowser, e: Seq<Seq<char>>) -> bool {
    match b.shell_menu_fetch_paths {
        Some(q) => same_path_list(views(q@), e),
        None => false,
    }
}

/// When no system menu fetch is started: the browser does not show a
/// plain directory, or its command paths are none, already cached with
/// entries, or being fetched.
pub open spec fn fetch_not_needed(b: FileBrowser) -> bool {
    ||| !(b.browse_location is Directory)
    ||| exists|e: Seq<Seq<char>>| #[trigger] effective_paths_ok(b, e)
        && (e.len() == 0 || cache_covers(b, e) || fetch_in_flight(b, e))
}

/// Two path lists that are each the same as a third are the same.
proof fn lemma_same_path_list_trans(a: Seq<Seq<char>>, b: Seq<Seq<char>>, c: Seq<Seq<char>>)
    requires
        same_path_list(a, b),
        same_path_list(b, c),
    ensures
        same_path_list(a, c),
{
    assert forall|i: int| 0 <= i < a.len() implies same_path(#[trigger] a[i], c[i]) by {
        assert(same_path(a[i], b[i]));
        assert(same_path(b[i], c[i]));
    }
}

impl FileBrowser {
    /// Where the system menu stands for `paths` (see `shell_snapshot_spec`).
    pub fn shell_submenu_snapshot(&self, paths: &Vec<String>, extended: bool) -> (r: crate::menu::ShellMenuState)
        ensures
            match self.shell_menu_cache {
                None => r == crate::menu::ShellMenuState::Loading,
                Some(c) => {
                    if c.extended_verbs != extended || !paths_match(views(c.paths@), views(paths@)) {
                        r == crate::menu::ShellMenuState::Loading
                    } else {
                        r == if c.has_entries { crate::menu::ShellMenuState::Ready } else { crate::menu::ShellMenuState::Empty }
                    }
                },
            },
    {
        match &self.shell_menu_cache {
            None => crate::menu::ShellMenuState::Loading,
            Some(c) => {
                if !shell_cache_matches_selection(&c.paths, paths) || c.extended_verbs != extended {
                    crate::menu::ShellMenuState::Loading
                } else if c.has_entries {
                    crate::menu::ShellMenuState::Ready
                } else {
                    crate::menu::ShellMenuState::Empty
                }
            },
        }
    }

    /// Starts fetching the system menu for the command paths, unless the
    /// browser does not show a plain directory, nothing is selected, the
    /// cache already holds entries for those paths and verbs, or a fetch
    /// for them is under way. Returns the key and generation of the fetch
    /// started (the fetch in flight is recorded).
    pub fn request_shell_menu_fetch(&mut self) -> (fetch: Option<(Vec<String>, u64)>)
        requires
            old(self).wf(),
        ensures
            final(self).wf(),
            match fetch {
                Some((key, generation)) => {
                    &&& old(self).browse_location is Directory
                    &&& key@.len() > 0
                    &&& exists|e: Seq<Seq<char>>| #[trigger] effective_paths_ok(*old(self), e)
                        && views(key@).to_multiset() == e.to_multiset()
                    &&& sorted_paths(views(key@))
                    &&& generation == if old(self).shell_menu_fetch_generation == u64::MAX { 0 } else { (old(self).shell_menu_fetch_generation + 1) as u64 }
                    &&& final(self).shell_menu_fetch_generation == generation
                    &&& final(self).shell_menu_fetch_paths matches Some(p) && views(p@) == views(key@)
                    &&& !(old(self).shell_menu_fetch_paths matches Some(q) && same_path_list(views(q@), views(key@)))
                    &&& !(old(self).shell_menu_cache matches Some(c) && same_path_list(views(c.paths@), views(key@))
                        && c.extended_verbs == old(self).context_menu_extended_verbs && c.has_entries)
                    &&& *final(self) == (FileBrowser {
                        shell_menu_fetch_paths: final(self).shell_menu_fetch_paths,
                        shell_menu_fetch_generation: generation,
                        ..*old(self)
                    })
                },
                None => *final(self) == *old(self),
            },
            !(old(self).browse_location is Directory) ==> fetch is None,
            fetch is None ==> fetch_not_needed(*old(self)),
    {
        if !matches!(self.browse_location, BrowseLocation::Directory) {
            return None;
        }
        let paths = self.effective_selected_paths();
        if paths.len() == 0 {
            proof {
                assert(effective_paths_ok(*self, views(paths@)));
            }
            return None;
        }
        let key = normalize_paths_for_shell_cache(&paths);
        proof {
            views(key@).to_multiset_ensures();
            views(paths@).to_multiset_ensures();
            assert(effective_paths_ok(*self, views(paths@)));
            if self.selected_paths.len() == 0 {
                assert(sorted_paths(views(paths@)));
            }
            law_sorted_key_order_independent(views(key@), views(paths@));
        }
        let cached = match &self.shell_menu_cache {
            Some(c) => path_lists_equal(&c.paths, &key) && c.extended_verbs == self.context_menu_extended_verbs && c.has_entries,
            None => false,
        };
        if cached {
            proof {
                let c = self.shell_menu_cache->0;
                lemma_same_path_list_trans(views(c.paths@), views(key@), views(paths@));
                assert(cache_covers(*self, views(paths@)));
            }
            return None;
        }
        let in_flight = match &self.shell_menu_fetch_paths {
            Some(p) => path_lists_equal(p, &key),
            None => false,
        };
        if in_flight {
            proof {
                let q = self.shell_menu_fetch_paths->0;
                lemma_same_path_list_trans(views(q@), views(key@), views(paths@));
                assert(fetch_in_flight(*self, views(paths@)));
            }
            return None;
        }
        self.shell_menu_fetch_paths = Some(clone_strings(&key));
        self.shell_menu_fetch_generation = if self.shell_menu_fetch_generation == u64::MAX { 0 } else { self.shell_menu_fetch_generation + 1 };
        Some((key, self.shell_menu_fetch_generation))
    }

    /// Records the end of fetch `generation` for `key` (with extended verbs
    /// `extended`): `entries` tells whether the system answered and with any
    /// entries. A fetch that is not the latest is ignored; otherwise the
    /// cache holds the answer (none after a failure) and the menu revision
    /// moves on.
    pub fn finish_shell_menu_fetch(&mut self, key: Vec<String>, extended: bool, generation: u64, entries: Option<bool>) -> (outcome: ShellFetchOutcome)
        ensures
            final(self).shell_menu_fetch_paths is None,
            generation != old(self).shell_menu_fetch_generation ==> outcome == ShellFetchOutcome::Stale
                && *final(self) == (FileBrowser { shell_menu_fetch_paths: None, ..*old(self) }),
            generation == old(self).shell_menu_fetch_generation ==> {
                &&& outcome == (ShellFetchOutcome::Applied { menu_open: old(self).context_menu_open, retry: entries is None })
                &&& match entries {
                    Some(has) => final(self).shell_menu_cache matches Some(c) && views(c.paths@) == views(key@)
                        && c.extended_verbs == extended && c.has_entries == has,
                    None => final(self).shell_menu_cache is None,
                }
                &&& final(self).shell_menu_revision == if old(self).shell_menu_revision == u64::MAX { 0 } else { (old(self).shell_menu_revision + 1) as u64 }
                &&& *final(self) == (FileBrowser {
                    shell_menu_fetch_paths: None,
                    shell_menu_cache: final(self).shell_menu_cache,
                    shell_menu_revision: final(self).shell_menu_revision,
                    ..*old(self)
                })
            },
    {
        self.shell_menu_fetch_paths = None;
        if generation != self.shell_menu_fetch_generation {
            return ShellFetchOutcome::Stale;
        }
        self.shell_menu_cache = match entries {
            Some(has) => Some(ShellMenuCacheKey { paths: key, extended_verbs: extended, has_entries: has }),
            None => None,
        };
        self.shell_menu_revision = if self.shell_menu_revision == u64::MAX { 0 } else { self.shell_menu_revision + 1 };
        ShellFetchOutcome::Applied { menu_open: self.context_menu_open, retry: entries.is_none() }
    }

    /// Whether a failed fetch for `key` is tried again: the menu is still
    /// open, the command paths still have that key, and nothing is cached.
    pub fn shell_menu_retry_due(&self, key: &Vec<String>) -> (retry: bool)
        ensures
            retry ==> self.context_menu_open && self.shell_menu_cache is None,
            self.context_menu_open && self.shell_menu_cache is None ==> exists|e: Seq<Seq<char>>, n: Seq<Seq<char>>|
                #![trigger effective_paths_ok(*self, e), sorted_paths(n)]
                effective_paths_ok(*self, e) && n.to_multiset() == e.to_multiset() && sorted_paths(n)
                && same_path_list(n, views(key@)) == retry,
    {
        if !self.context_menu_open || self.shell_menu_cache.is_some() {
            return false;
        }
        let paths = self.effective_selected_paths();
        let normalized = normalize_paths_for_shell_cache(&paths);
        let r = path_lists_equal(&normalized, key);
        proof {
            assert(effective_paths_ok(*self, views(paths@)) && views(normalized@).to_multiset() == views(paths@).to_multiset()
                && sorted_paths(views(normalized@)) && same_path_list(views(normalized@), views(key@)) == r);
        }
        r
    }
}

/// The paths one per line, as they are copied to the clipboard.
pub open spec fn joined_lines(ps: Seq<Seq<char>>) -> Seq<char>
    decreases ps.len(),
{
    if ps.len() == 0 {
        Seq::empty()
    } else if ps.len() == 1 {
        ps[0]
    } else {
        joined_lines(ps.drop_last()) + seq!['\n'] + ps.last()
    }
}

/// The paths joined with line breaks.
pub fn join_lines(paths: &Vec<String>) -> (r: String)
    ensures
        r@ == joined_lines(views(paths@)),
{
    let mut out: Vec<char> = Vec::new();
    let mut i: usize = 0;
    while i < paths.len()
        invariant
            i <= paths.len(),
            out@ == joined_lines(views(paths@).take(i as int)),
        decreases paths.len() - i,
    {
        proof {
            assert(views(paths@).take(i + 1).drop_last() =~= views(paths@).take(i as int));
        }
        if i > 0 {
            out.push('\n');
        }
        crate::text::push_str_chars(&mut out, paths[i].as_str());
        proof {
            let t = views(paths@).take(i + 1);
            assert(t.last() == paths@[i as int]@);
            if i == 0 {
                assert(out@ =~= t[0]);
            }
        }
        i += 1;
    }
    proof {
        assert(views(paths@).take(paths.len() as int) =~= views(paths@));
    }
    crate::text::string_of(out.as_slice())
}

/// The labels of the sort fields, in the user's language.
pub struct SortLabels {
    pub name: String,
    pub modified: String,
    pub created: String,
    pub size: String,
    pub file_type: String,
    pub path: String,
}

/// The label of a sort field.
pub open spec fn sort_field_label(option: SortOption, labels: SortLabels) -> Seq<char> {
    match option {
        SortOption::Name => labels.name@,
        SortOption::DateModified => labels.modified@,
        SortOption::DateCreated => labels.created@,
        SortOption::Size => labels.size@,
        SortOption::FileType => labels.file_type@,
        SortOption::Path => labels.path@,
    }
}

/// The arrow of a sort direction.
pub open spec fn sort_arrow(direction: SortDirection) -> Seq<char> {
    match direction {
        SortDirection::Ascending => "\u{2191}"@,
        SortDirection::Descending => "\u{2193}"@,
    }
}

impl FileBrowser {
    /// Before a context menu opens on item `index`: an item outside the
    /// selection becomes the only selected, anchored and focused item; a
    /// selected item, or an index past the listing, changes nothing.
    pub fn prepare_context_menu_target(&mut self, index: usize)
        requires
            old(self).wf(),
        ensures
            final(self).wf(),
            if index < old(self).display_items.len()
                && !selection_set(*old(self)).contains(components(old(self).display_items@[index as int].path@)) {
                &&& views(final(self).selected_paths@) == seq![old(self).display_items@[index as int].path@]
                &&& final(self).anchor_index == Some(index)
                &&& final(self).focused_index == Some(index)
                &&& *final(self) == (FileBrowser {
                    selected_paths: final(self).selected_paths,
                    anchor_index: final(self).anchor_index,
                    focused_index: final(self).focused_index,
                    ..*old(self)
                })
            } else {
                *final(self) == *old(self)
            },
    {
        if index >= self.display_items.len() {
            return;
        }
        let path = self.display_items[index].path.clone();
        if sel_contains(&self.selected_paths, path.as_str()) {
            return;
        }
        self.selected_paths = vec![path];
        self.anchor_index = Some(index);
        self.focused_index = Some(index);
        proof {
            assert(views(self.selected_paths@) =~= seq![old(self).display_items@[index as int].path@]);
        }
    }

    /// Before a context menu opens on item `index` of column `col`: an item
    /// outside the selection becomes the only selected item (and the
    /// column's selected file), anchored and focused; the column becomes
    /// active. Positions past the listings change nothing.
    pub fn prepare_column_context_menu_target(&mut self, col: usize, index: usize)
        requires
            old(self).wf(),
        ensures
            final(self).wf(),
            if col < old(self).column_listings.len() && index < old(self).column_listings@[col as int].len() {
                let p = old(self).column_listings@[col as int]@[index as int].path@;
                &&& final(self).active_column_index == Some(col)
                &&& if selection_set(*old(self)).contains(components(p)) {
                    *final(self) == (FileBrowser { active_column_index: final(self).active_column_index, ..*old(self) })
                } else {
                    &&& views(final(self).selected_paths@) == seq![p]
                    &&& final(self).column_selected_path matches Some((c, q)) && c == col && q@ == p
                    &&& final(self).anchor_index == Some(index)
                    &&& final(self).focused_index == Some(index)
                    &&& *final(self) == (FileBrowser {
                        selected_paths: final(self).selected_paths,
                        column_selected_path: final(self).column_selected_path,
                        anchor_index: final(self).anchor_index,
                        focused_index: final(self).focused_index,
                        active_column_index: final(self).active_column_index,
                        ..*old(self)
                    })
                }
            } else {
                *final(self) == *old(self)
            },
    {
        if col >= self.column_listings.len() || index >= self.column_listings[col].len() {
            return;
        }
        let path = self.column_listings[col][index].path.clone();
        if !sel_contains(&self.selected_paths, path.as_str()) {
            self.selected_paths = vec![path.clone()];
            self.column_selected_path = Some((col, path));
            self.anchor_index = Some(index);
            self.focused_index = Some(index);
            proof {
                assert(views(self.selected_paths@) =~= seq![old(self).column_listings@[col as int]@[index as int].path@]);
            }
        }
        self.active_column_index = Some(col);
    }

    /// Opens the focused item (see `open_item`); nothing when no item is focused.
    pub fn open_focused(&mut self) -> (action: Option<OpenAction>)
        requires
            old(self).wf(),
        ensures
            final(self).wf(),
            match old(self).focused_index {
                Some(i) if i < old(self).display_items.len() => {
                    let item = old(self).display_items@[i as int];
                    action matches Some(a) && match item.kind {
                        FileItemKind::Folder => if old(self).browse_location is FileTag {
                            a == OpenAction::NavigateApp && *final(self) == *old(self)
                        } else {
                            a == OpenAction::Navigated(!same_path(item.path@, old(self).current_dir@))
                                && final(self).history() == history_after_navigate(old(self).history(), item.path@)
                                && final(self).browse_location is Directory
                                && final(self).nav_frame(old(self))
                        },
                        _ => a == OpenAction::OpenWithSystem && *final(self) == *old(self),
                    }
                },
                _ => action is None && *final(self) == *old(self),
            },
    {
        match self.focused_index {
            Some(i) => {
                if i >= self.display_items.len() {
                    return None;
                }
                let path = self.display_items[i].path.clone();
                let kind = self.display_items[i].kind;
                Some(self.open_item(path, kind))
            },
            None => None,
        }
    }

    /// After a new folder or file was made at `path` and the listing
    /// reloaded: when it is listed, it becomes the only selected item,
    /// focused and anchored, and the caller starts renaming it (`true`);
    /// otherwise nothing changes (`false`).
    pub fn focus_created_item(&mut self, path: &str) -> (found: bool)
        requires
            old(self).wf(),
        ensures
            final(self).wf(),
            found == (find_item(old(self).display_items@, path@) is Some),
            found ==> {
                exists|i: usize| {
                    &&& #[trigger] final(self).focused_index == Some(i)
                    &&& i < old(self).display_items.len()
                    &&& find_item(old(self).display_items@, path@) == Some(old(self).display_items@[i as int])
                    &&& forall|j: int| 0 <= j < i ==> !same_path(#[trigger] old(self).display_items@[j].path@, path@)
                    &&& final(self).anchor_index == Some(i)
                    &&& views(final(self).selected_paths@) == seq![path@]
                    &&& *final(self) == (FileBrowser {
                        selected_paths: final(self).selected_paths,
                        anchor_index: final(self).anchor_index,
                        focused_index: final(self).focused_index,
                        ..*old(self)
                    })
                }
            },
            !found ==> *final(self) == *old(self),
    {
        match find_item_index(&self.display_items, path) {
            Some(i) => {
                self.focused_index = Some(i);
                self.selected_paths = vec![crate::text::string_from(path)];
                self.anchor_index = Some(i);
                proof {
                    assert(views(self.selected_paths@) =~= seq![path@]);
                }
                true
            },
            None => false,
        }
    }

    /// The text that "copy path" puts on the clipboard: the paths that
    /// item commands act on, one per line; nothing when there are none.
    pub fn copy_paths(&self) -> (r: Option<String>)
        ensures
            exists|ps: Seq<Seq<char>>| #[trigger] effective_paths_ok(*self, ps) && match r {
                Some(t) => ps.len() > 0 && t@ == joined_lines(ps),
                None => ps.len() == 0,
            },
    {
        let paths = self.effective_selected_paths();
        proof {
            assert(effective_paths_ok(*self, views(paths@)));
        }
        if paths.len() == 0 {
            return None;
        }
        Some(join_lines(&paths))
    }

    /// The sort button's label: the field, a space and an arrow for the direction.
    pub fn sort_label(&self, labels: &SortLabels) -> (r: String)
        ensures
            r@ == sort_field_label(self.sort_option, *labels) + " "@ + sort_arrow(self.sort_direction),
    {
        let field = match self.sort_option {
            SortOption::Name => labels.name.as_str(),
            SortOption::DateModified => labels.modified.as_str(),
            SortOption::DateCreated => labels.created.as_str(),
            SortOption::Size => labels.size.as_str(),
            SortOption::FileType => labels.file_type.as_str(),
            SortOption::Path => labels.path.as_str(),
        };
        let arrow = match self.sort_direction {
            SortDirection::Ascending => "\u{2191}",
            SortDirection::Descending => "\u{2193}",
        };
        let mut out: Vec<char> = Vec::new();
        crate::text::push_str_chars(&mut out, field);
        crate::text::push_str_chars(&mut out, " ");
        crate::text::push_str_chars(&mut out, arrow);
        proof {
            reveal_strlit(" ");
        }
        crate::text::string_of(out.as_slice())
    }
}


/// What a click on an item of the column view does: with shift or the
/// secondary modifier, or on a file clicked once, it goes to
/// `handle_column_item_click`; a folder opens in the next column
/// (`select_column_folder`); a double click on a file opens it (`open_item`).
#[derive(Clone, Copy, Debug, PartialEq, Eq, Structural)]
pub enum ColumnCellAction {
    Click,
    OpenColumn,
    OpenItem,
}

/// The action of a click (`click_count` clicks) on an item of kind `kind`.
pub open spec fn column_cell_action_spec(kind: FileItemKind, modifiers: Modifiers, click_count: u32) -> ColumnCellAction {
    if modifiers.shift || modifiers.secondary {
        ColumnCellAction::Click
    } else if kind == FileItemKind::Folder {
        ColumnCellAction::OpenColumn
    } else if click_count == 2 {
        ColumnCellAction::OpenItem
    } else {
        ColumnCellAction::Click
    }
}

/// What a click on an item of the column view does.
pub fn column_click_action(kind: FileItemKind, modifiers: Modifiers, click_count: u32) -> (a: ColumnCellAction)
    ensures
        a == column_cell_action_spec(kind, modifiers, click_count),
{
    if modifiers.shift || modifiers.secondary {
        ColumnCellAction::Click
    } else if kind == FileItemKind::Folder {
        ColumnCellAction::OpenColumn
    } else if click_count == 2 {
        ColumnCellAction::OpenItem
    } else {
        ColumnCellAction::Click
    }
}

/// The title of a column showing folder `path`: its name, or the whole
/// path when it has none.
pub fn column_title(path: &str) -> (r: String)
    ensures
        r@ == crate::session::path_tab_title_spec(path@),
{
    crate::session::path_tab_title(path)
}

/// The name of the folder that column `col` opened into the next column.
pub open spec fn column_selection_name_spec(b: FileBrowser, col: int) -> Option<Seq<char>> {
    if 0 <= col && col + 1 < b.column_trail.len() {
        crate::path::file_name_spec(b.column_trail@[col + 1]@)
    } else {
        None
    }
}

/// Whether the column selection names column `col`.
pub open spec fn column_marked(b: FileBrowser, col: int) -> bool {
    match b.column_selected_path {
        Some((c, _)) => c == col,
        None => false,
    }
}

/// Whether the column selection is file `p` of column `col`.
pub open spec fn column_file_marked(b: FileBrowser, col: int, p: Seq<char>) -> bool {
    match b.column_selected_path {
        Some((c, q)) => c == col && same_path(q@, p),
        None => false,
    }
}

/// Whether column `col` holds a selected item or the column selection.
pub open spec fn column_has_explicit_selection(b: FileBrowser, col: int) -> bool {
    ||| column_marked(b, col)
    ||| 0 <= col < b.column_listings.len() && exists|i: int| 0 <= i < b.column_listings@[col]@.len()
        && selection_set(b).contains(components(#[trigger] b.column_listings@[col]@[i].path@))
}

/// Whether item `index` of column `col` is drawn selected: a selected
/// item always is; a file also when it is the column selection; when the
/// column holds no explicit selection, a folder also when it opened the
/// next column.
pub open spec fn column_cell_selected_spec(b: FileBrowser, col: int, index: int) -> bool {
    if 0 <= col < b.column_listings.len() && 0 <= index < b.column_listings@[col]@.len() {
        let item = b.column_listings@[col]@[index];
        let in_sel = selection_set(b).contains(components(item.path@));
        if column_has_explicit_selection(b, col) {
            if item.kind == FileItemKind::Folder { in_sel } else { column_file_marked(b, col, item.path@) || in_sel }
        } else if item.kind == FileItemKind::Folder {
            column_selection_name_spec(b, col) == Some(item.display_name@) || in_sel
        } else {
            column_file_marked(b, col, item.path@) || in_sel
        }
    } else {
        false
    }
}

impl FileBrowser {
    /// The name of the folder that column `col` opened into the next column.
    pub fn column_selection_name(&self, col: usize) -> (r: Option<String>)
        ensures
            r.deep_view() == column_selection_name_spec(*self, col as int),
    {
        if col < self.column_trail.len() && col + 1 < self.column_trail.len() {
            crate::path::path_file_name(self.column_trail[col + 1].as_str())
        } else {
            None
        }
    }

    /// Whether item `index` of column `col` is drawn selected.
    pub fn column_cell_selected(&self, col: usize, index: usize) -> (r: bool)
        requires
            self.wf(),
        ensures
            r == column_cell_selected_spec(*self, col as int, index as int),
    {
        if col >= self.column_listings.len() || index >= self.column_listings[col].len() {
            return false;
        }
        let items = &self.column_listings[col];
        let mut explicit = match &self.column_selected_path {
            Some((c, _)) => *c == col,
            None => false,
        };
        let mut i: usize = 0;
        while i < items.len() && !explicit
            invariant
                i <= items.len(),
                items@ == self.column_listings@[col as int]@,
                col < self.column_listings.len(),
                explicit ==> column_has_explicit_selection(*self, col as int),
                !explicit ==> !column_marked(*self, col as int) && forall|j: int| 0 <= j < i
                    ==> !selection_set(*self).contains(components(#[trigger] items@[j].path@)),
            decreases items.len() - i,
        {
            if sel_contains(&self.selected_paths, items[i].path.as_str()) {
                explicit = true;
            }
            i += 1;
        }
        let item = &items[index];
        let in_sel = sel_contains(&self.selected_paths, item.path.as_str());
        let marked = match &self.column_selected_path {
            Some((c, q)) => *c == col && paths_equal(q.as_str(), item.path.as_str()),
            None => false,
        };
        if explicit {
            if item.kind == FileItemKind::Folder { in_sel } else { marked || in_sel }
        } else if item.kind == FileItemKind::Folder {
            let name = self.column_selection_name(col);
            let named = match &name {
                Some(n) => crate::text::str_equal(n.as_str(), item.display_name.as_str()),
                None => false,
            };
            named || in_sel
        } else {
            marked || in_sel
        }
    }

    /// The paths a delete asks about: the paths item commands act on; none
    /// (no dialog opens and nothing is deleted) when there are none.
    pub fn delete_dialog_paths(&self) -> (r: Option<Vec<String>>)
        ensures
            exists|e: Seq<Seq<char>>| #[trigger] effective_paths_ok(*self, e) && match r {
                Some(p) => e.len() > 0 && views(p@) == e,
                None => e.len() == 0,
            },
    {
        let paths = self.effective_selected_paths();
        proof {
            assert(effective_paths_ok(*self, views(paths@)));
        }
        if paths.len() == 0 {
            None
        } else {
            Some(paths)
        }
    }

    /// After the delete of the paths from `delete_dialog_paths` finished:
    /// when it succeeded (`ok`), the deleted paths are forgotten
    /// (`cleanup_after_delete`), nothing stays selected and the listing is
    /// reloaded (`reload`); after a failure nothing changes and nothing reloads.
    pub fn after_delete(&mut self, deleted: &Vec<String>, home: String, ok: bool) -> (reload: bool)
        requires
            old(self).wf(),
        ensures
            final(self).wf(),
            reload == ok,
            !ok ==> *final(self) == *old(self),
            ok ==> {
                &&& views(final(self).back_stack@) == views(old(self).back_stack@).filter(|p: Seq<char>| !removed_by(p, views(deleted@)))
                &&& views(final(self).forward_stack@) == views(old(self).forward_stack@).filter(|p: Seq<char>| !removed_by(p, views(deleted@)))
                &&& if in_columns(*old(self)) && removed_by(old(self).current_dir@, views(deleted@)) {
                    &&& final(self).current_dir@ == match surviving_ancestor(old(self).current_dir@, views(deleted@)) {
                        Some(a) => a,
                        None => home@,
                    }
                    &&& final(self).active_column_index is None
                } else {
                    &&& final(self).current_dir == old(self).current_dir
                    &&& final(self).active_column_index == old(self).active_column_index
                }
                &&& final(self).selection_cleared()
                &&& *final(self) == (FileBrowser {
                    current_dir: final(self).current_dir,
                    back_stack: final(self).back_stack,
                    forward_stack: final(self).forward_stack,
                    selected_paths: final(self).selected_paths,
                    anchor_index: final(self).anchor_index,
                    focused_index: final(self).focused_index,
                    column_selected_path: final(self).column_selected_path,
                    active_column_index: final(self).active_column_index,
                    ..*old(self)
                })
            },
    {
        if ok {
            self.cleanup_after_delete(deleted, home);
            self.clear_selection();
        }
        ok
    }

    /// Installs the listings read again for the column trail (after a
    /// rename moved it): one listing per trail directory.
    pub fn install_column_listings(&mut self, listings: Vec<Vec<FileItem>>)
        requires
            listings.len() == old(self).column_trail.len(),
        ensures
            final(self).column_listings@ == listings@,
            final(self).column_listings.len() == final(self).column_trail.len(),
            *final(self) == (FileBrowser { column_listings: final(self).column_listings, ..*old(self) }),
    {
        self.column_listings = listings;
    }

    /// Starts editing the name of the primary item in place: returns its
    /// path and the name the editor starts with (its file name, or nothing);
    /// nothing when no item is the primary one.
    pub fn begin_rename(&mut self) -> (r: Option<(String, String)>)
        ensures
            match primary_item_spec(*old(self)) {
                None => r is None && *final(self) == *old(self),
                Some(it) => {
                    &&& r matches Some((p, name)) && p@ == it.path@ && name@ == match crate::path::file_name_spec(it.path@) {
                        Some(n) => n,
                        None => Seq::<char>::empty(),
                    }
                    &&& final(self).renaming matches Some(q) && q@ == it.path@
                    &&& *final(self) == (FileBrowser { renaming: final(self).renaming, ..*old(self) })
                },
            },
    {
        match self.primary_path() {
            None => None,
            Some(p) => {
                let name = match crate::path::path_file_name(p.as_str()) {
                    Some(n) => n,
                    None => String::new(),
                };
                self.renaming = Some(p.clone());
                Some((p, name))
            },
        }
    }

    /// Stops editing a name without renaming.
    pub fn cancel_rename(&mut self)
        ensures
            final(self).renaming is None,
            *final(self) == (FileBrowser { renaming: None, ..*old(self) }),
    {
        self.renaming = None;
    }

    /// Ends the name edit with what renaming the file gave (`outcome`: the
    /// new path, or the error's message). Without an edit under way nothing
    /// happens. A failure keeps the edit open and shows the error. A success
    /// closes the edit, clears the error, moves every path at or under the
    /// old one (`rewrite_paths_after_rename`), the selection with it
    /// (`rename_selected_path`), and the watched directory
    /// (`rewatch_after_rename`); the caller then reloads the listing and
    /// the column listings, restarts the watcher when asked, and reports a
    /// moved location.
    #[verifier::rlimit(40)]
    pub fn commit_rename(&mut self, outcome: Result<String, String>) -> (r: RenameCommit)
        requires
            old(self).wf(),
        ensures
            final(self).wf(),
            match old(self).renaming {
                None => r == RenameCommit::NotRenaming && *final(self) == *old(self),
                Some(from) => match outcome {
                    Err(e) => r == RenameCommit::Failed && *final(self) == (FileBrowser { error: Some(e), ..*old(self) }),
                    Ok(to) => {
                        let cur = rewritten_entry(old(self).current_dir@, from@, to@);
                        let changed = renamed_path_spec(old(self).current_dir@, from@, to@) is Some;
                        let watched = match old(self).watched_dir {
                            Some(w) => Some(rewritten_entry(w@, from@, to@)),
                            None => None,
                        };
                        let restart = changed || !(match watched {
                            Some(w) => same_path(w, cur),
                            None => false,
                        });
                        &&& r == (RenameCommit::Renamed { location_changed: changed, restart_watcher: restart })
                        &&& final(self).renaming is None
                        &&& final(self).error is None
                        &&& final(self).current_dir@ == cur
                        &&& views(final(self).back_stack@) == views(old(self).back_stack@).map_values(|p: Seq<char>| rewritten_entry(p, from@, to@))
                        &&& views(final(self).forward_stack@) == views(old(self).forward_stack@).map_values(|p: Seq<char>| rewritten_entry(p, from@, to@))
                        &&& views(final(self).column_trail@) == views(old(self).column_trail@).map_values(|p: Seq<char>| rewritten_entry(p, from@, to@))
                        &&& final(self).watched_dir.deep_view() == if restart { Some(cur) } else { watched }
                        &&& final(self).column_selected_path.deep_view() == match old(self).column_selected_path {
                            Some((c, p)) => match renamed_path_spec(p@, from@, to@) {
                                Some(q) => Some((c, q)),
                                None => if c as int >= (if old(self).column_trail.len() == 0 { 0 } else { old(self).column_trail.len() - 1 }) {
                                    None
                                } else {
                                    Some((c, p@))
                                },
                            },
                            None => None,
                        }
                        &&& selection_set(*final(self)) == if selection_set(*old(self)).contains(components(from@)) {
                            selection_set(*old(self)).remove(components(from@)).insert(components(to@))
                        } else {
                            selection_set(*old(self))
                        }
                        &&& *final(self) == (FileBrowser {
                            current_dir: final(self).current_dir,
                            back_stack: final(self).back_stack,
                            forward_stack: final(self).forward_stack,
                            column_trail: final(self).column_trail,
                            watched_dir: final(self).watched_dir,
                            column_selected_path: final(self).column_selected_path,
                            selected_paths: final(self).selected_paths,
                            renaming: None,
                            error: None,
                            ..*old(self)
                        })
                    },
                },
            },
    {
        let pending = self.renaming.take();
        match pending {
            None => RenameCommit::NotRenaming,
            Some(from) => match outcome {
                Err(e) => {
                    self.renaming = Some(from);
                    self.error = Some(e);
                    RenameCommit::Failed
                },
                Ok(to) => {
                    self.error = None;
                    let changed = self.rewrite_paths_after_rename(from.as_str(), to.as_str());
                    self.rename_selected_path(from.as_str(), to);
                    let restart = self.rewatch_after_rename(changed);
                    RenameCommit::Renamed { location_changed: changed, restart_watcher: restart }
                },
            },
        }
    }
}

/// How ending a name edit went.
#[derive(Clone, Copy, Debug, PartialEq, Eq, Structural)]
pub enum RenameCommit {
    /// No edit was under way.
    NotRenaming,
    /// Renaming failed; the edit stays open and the error is shown.
    Failed,
    /// Renamed: whether the current directory moved, and whether the
    /// directory watcher must restart.
    Renamed { location_changed: bool, restart_watcher: bool },
}


/// Law: a drop of paths on a directory starts a transfer as soon as one
/// dropped path does not already lie directly in it: a copy with the copy
/// modifier, a move without.
pub proof fn law_drop_transfers_when_a_path_lies_elsewhere(paths: Seq<Seq<char>>, dest: Seq<char>, copy: bool, i: int)
    requires
        0 <= i < paths.len(),
        !(parent_spec(paths[i]) is Some && same_path(parent_spec(paths[i])->0, dest)),
    ensures
        drop_transfer_spec(paths, true, dest, copy) == Some(if copy { FileTransferKind::Copy } else { FileTransferKind::Move }),
{
    assert(!all_in_directory(paths, dest)) by {
        if all_in_directory(paths, dest) {
            assert(parent_spec(paths[i]) is Some);
        }
    }
}

/// Law: a drop whose every path already lies directly in the directory
/// starts nothing.
pub proof fn law_drop_into_own_directory_does_nothing(paths: Seq<Seq<char>>, dest: Seq<char>, copy: bool)
    requires
        forall|i: int| 0 <= i < paths.len() ==> parent_spec(#[trigger] paths[i]) is Some
            && same_path(parent_spec(paths[i])->0, dest),
    ensures
        drop_transfer_spec(paths, true, dest, copy) is None,
{
}

} // verus!
