//! The system context menu as the app shows it: which system entries are
//! the "Send to" and "Open with" submenus, which item is "Properties", and
//! how a list of system entries is laid out in a popup menu.
use vstd::prelude::*;
use crate::text::{chars_of, lower_chars, lower_seq, contains_chars, contains_seq, eq_ignore_ascii_case};

verus! {

/// An entry of the system context menu as the platform reports it.
#[derive(Debug)]
pub enum ShellMenuEntry {
    Separator,
    Item {
        label: String,
        command_offset: u32,
        command_string: Option<String>,
        icon_png: Option<Vec<u8>>,
    },
    Submenu {
        label: String,
        children: Vec<ShellMenuEntry>,
        /// Set when the children are loaded on demand from the platform.
        lazy_parent_index: Option<u32>,
    },
}

/// Whether the ASCII-lowercased label contains `lit`.
fn lower_has(lower: &[char], lit: &str) -> (r: bool)
    ensures
        r == contains_seq(lower@, lit@),
{
    let needle = chars_of(lit);
    contains_chars(lower, needle.as_slice())
}

/// Whether a system item is "Properties": its verb is `properties` (in
/// any ASCII case), or its label holds the word in English or Chinese.
pub open spec fn is_properties_spec(command_string: Option<Seq<char>>, label: Seq<char>) -> bool {
    (command_string matches Some(c) && lower_seq(c) == "properties"@)
        || contains_seq(lower_seq(label), "properties"@)
        || contains_seq(lower_seq(label), "\u{5c5e}\u{6027}"@)
}

/// Whether a system item is the "Properties" command (it is then run as
/// the properties dialog rather than as a menu verb).
pub fn shell_menu_item_is_properties(command_string: Option<&str>, label: &str) -> (r: bool)
    ensures
        r == is_properties_spec(match command_string { Some(c) => Some(c@), None => None }, label@),
{
    proof {
        reveal_strlit("properties");
    }
    if let Some(c) = command_string {
        if eq_ignore_ascii_case(c, "properties") {
            proof {
                assert(lower_seq("properties"@) =~= "properties"@);
            }
            return true;
        }
        proof {
            assert(lower_seq("properties"@) =~= "properties"@);
        }
    }
    let lower = lower_chars(chars_of(label).as_slice());
    lower_has(lower.as_slice(), "properties") || lower_has(lower.as_slice(), "\u{5c5e}\u{6027}")
}

/// Whether a submenu label names "Send to" (English, Simplified or
/// Traditional Chinese).
pub open spec fn is_send_to_label_spec(label: Seq<char>) -> bool {
    let lower = lower_seq(label);
    contains_seq(lower, "send to"@)
        || contains_seq(lower, "\u{53d1}\u{9001}\u{5230}"@)
        || contains_seq(lower, "\u{50b3}\u{9001}\u{5230}"@)
        || contains_seq(lower, "\u{5bc4}\u{9001}\u{5230}"@)
}

/// Whether a submenu label names "Open with".
pub open spec fn is_open_with_label_spec(label: Seq<char>) -> bool {
    let lower = lower_seq(label);
    contains_seq(lower, "open with"@)
        || contains_seq(lower, "\u{6253}\u{5f00}\u{65b9}\u{5f0f}"@)
        || contains_seq(lower, "\u{958b}\u{555f}\u{65b9}\u{5f0f}"@)
        || contains_seq(lower, "\u{958b}\u{555f}\u{6a94}\u{6848}"@)
}

/// Whether a system submenu is "Send to".
pub fn is_send_to_submenu_label(label: &str) -> (r: bool)
    ensures
        r == is_send_to_label_spec(label@),
{
    let lower = lower_chars(chars_of(label).as_slice());
    lower_has(lower.as_slice(), "send to")
        || lower_has(lower.as_slice(), "\u{53d1}\u{9001}\u{5230}")
        || lower_has(lower.as_slice(), "\u{50b3}\u{9001}\u{5230}")
        || lower_has(lower.as_slice(), "\u{5bc4}\u{9001}\u{5230}")
}

/// Whether a system submenu is "Open with".
pub fn is_open_with_submenu_label(label: &str) -> (r: bool)
    ensures
        r == is_open_with_label_spec(label@),
{
    let lower = lower_chars(chars_of(label).as_slice());
    lower_has(lower.as_slice(), "open with")
        || lower_has(lower.as_slice(), "\u{6253}\u{5f00}\u{65b9}\u{5f0f}")
        || lower_has(lower.as_slice(), "\u{958b}\u{555f}\u{65b9}\u{5f0f}")
        || lower_has(lower.as_slice(), "\u{958b}\u{555f}\u{6a94}\u{6848}")
}

/// The system submenus the app shows under its own names.
#[derive(Clone, Copy, Debug, PartialEq, Eq, Structural)]
pub enum FeatureSubmenu {
    SendTo,
    OpenWith,
}

/// Whether `label` names the submenu `kind`.
pub open spec fn names_feature(kind: FeatureSubmenu, label: Seq<char>) -> bool {
    match kind {
        FeatureSubmenu::SendTo => is_send_to_label_spec(label),
        FeatureSubmenu::OpenWith => is_open_with_label_spec(label),
    }
}

/// Whether entry `e` is a submenu whose label names `kind`.
pub open spec fn is_feature_entry(kind: FeatureSubmenu, e: ShellMenuEntry) -> bool {
    e matches ShellMenuEntry::Submenu { label, .. } && names_feature(kind, label@)
}

/// Where the children of a found submenu come from.
#[derive(Debug)]
pub enum SubmenuSource {
    /// No submenu of that kind.
    NotFound,
    /// The children the platform already reported.
    Children(Vec<ShellMenuEntry>),
    /// Children the platform loads on demand for this index.
    Lazy(u32),
}

/// The first submenu of `entries` that names `kind`, and where its
/// children come from: loaded on demand when the platform says so,
/// otherwise the children it reported (taken out of `entries`).
pub fn extract_labeled_submenu(entries: Vec<ShellMenuEntry>, kind: FeatureSubmenu) -> (r: SubmenuSource)
    ensures
        match r {
            SubmenuSource::NotFound => forall|i: int| 0 <= i < entries.len() ==> !is_feature_entry(kind, #[trigger] entries@[i]),
            SubmenuSource::Children(c) => exists|i: int| {
                &&& 0 <= i < entries.len()
                &&& forall|j: int| 0 <= j < i ==> !is_feature_entry(kind, #[trigger] entries@[j])
                &&& #[trigger] entries@[i] matches ShellMenuEntry::Submenu { label, children, lazy_parent_index }
                &&& names_feature(kind, label@)
                &&& lazy_parent_index is None
                &&& c == children
            },
            SubmenuSource::Lazy(x) => exists|i: int| {
                &&& 0 <= i < entries.len()
                &&& forall|j: int| 0 <= j < i ==> !is_feature_entry(kind, #[trigger] entries@[j])
                &&& #[trigger] entries@[i] matches ShellMenuEntry::Submenu { label, lazy_parent_index, .. }
                &&& names_feature(kind, label@)
                &&& lazy_parent_index == Some(x)
            },
        },
{
    let mut i: usize = 0;
    while i < entries.len()
        invariant
            i <= entries.len(),
            forall|j: int| 0 <= j < i ==> !is_feature_entry(kind, #[trigger] entries@[j]),
        decreases entries.len() - i,
    {
        let named = match &entries[i] {
            ShellMenuEntry::Submenu { label, .. } => match kind {
                FeatureSubmenu::SendTo => is_send_to_submenu_label(label.as_str()),
                FeatureSubmenu::OpenWith => is_open_with_submenu_label(label.as_str()),
            },
            _ => false,
        };
        if named {
            let ghost all = entries@;
            let mut rest = entries;
            let found = rest.remove(i);
            proof {
                assert(found == all[i as int]);
                assert(is_feature_entry(kind, all[i as int]));
            }
            return match found {
                ShellMenuEntry::Submenu { children, lazy_parent_index, .. } => match lazy_parent_index {
                    Some(x) => SubmenuSource::Lazy(x),
                    None => SubmenuSource::Children(children),
                },
                _ => SubmenuSource::NotFound,
            };
        }
        i += 1;
    }
    SubmenuSource::NotFound
}

/// Whether any entry is a submenu.
pub open spec fn has_submenu(entries: Seq<ShellMenuEntry>) -> bool {
    exists|i: int| 0 <= i < entries.len() && #[trigger] entries[i] is Submenu
}

/// Whether any entry is a submenu.
pub fn entries_contain_submenu(entries: &Vec<ShellMenuEntry>) -> (r: bool)
    ensures
        r == has_submenu(entries@),
{
    let mut i: usize = 0;
    while i < entries.len()
        invariant
            i <= entries.len(),
            forall|j: int| 0 <= j < i ==> !(#[trigger] entries@[j] is Submenu),
        decreases entries.len() - i,
    {
        if let ShellMenuEntry::Submenu { .. } = &entries[i] {
            return true;
        }
        i += 1;
    }
    false
}

/// A row of the popup menu that shows system entries: a separator, or the
/// item or submenu at that position of the entries.
#[derive(Clone, Copy, Debug, PartialEq, Eq, Structural)]
pub enum ShellMenuRow {
    Separator,
    Item(usize),
    Submenu(usize),
}

/// The row of entry `i`.
pub open spec fn row_of(entries: Seq<ShellMenuEntry>, i: int) -> ShellMenuRow {
    match entries[i] {
        ShellMenuEntry::Separator => ShellMenuRow::Separator,
        ShellMenuEntry::Item { .. } => ShellMenuRow::Item(i as usize),
        ShellMenuEntry::Submenu { .. } => ShellMenuRow::Submenu(i as usize),
    }
}

/// How system entries are shown: every entry in order, and the menu
/// scrolls when it has no submenus (a scrolling menu cannot open them).
pub fn shell_entry_rows(entries: &Vec<ShellMenuEntry>) -> (r: (Vec<ShellMenuRow>, bool))
    ensures
        r.0@ == Seq::new(entries.len() as nat, |i: int| row_of(entries@, i)),
        r.1 == !has_submenu(entries@),
{
    let mut rows: Vec<ShellMenuRow> = Vec::new();
    let mut i: usize = 0;
    while i < entries.len()
        invariant
            i <= entries.len(),
            rows@ == Seq::new(i as nat, |k: int| row_of(entries@, k)),
        decreases entries.len() - i,
    {
        let row = match &entries[i] {
            ShellMenuEntry::Separator => ShellMenuRow::Separator,
            ShellMenuEntry::Item { .. } => ShellMenuRow::Item(i),
            ShellMenuEntry::Submenu { .. } => ShellMenuRow::Submenu(i),
        };
        rows.push(row);
        proof {
            assert(rows@ =~= Seq::new((i + 1) as nat, |k: int| row_of(entries@, k)));
        }
        i += 1;
    }
    let scrollable = !entries_contain_submenu(entries);
    (rows, scrollable)
}

} // verus!
