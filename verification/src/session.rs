//! The window's session: how tabs are stored and restored, the list of
//! recently closed tabs, which tab stays active when one closes, pinned
//! folders, and where a path typed into the omnibar leads.
use vstd::prelude::*;
use crate::model::{NavigationTarget, breadcrumb_target_spec, same_target};
use crate::path::{parent_spec, path_parent};
use crate::text::{chars_of, string_of, string_from, push_str_chars, lower_seq, trim_seq, trim_chars,
    eq_ignore_ascii_case, starts_with_seq};
use crate::selection::views;

verus! {

/// How a tab's target is stored: `home`, `recycle`, `settings`, `tag:`
/// and the tag's name, or the folder shown (`current_path`, else `home_path`).
pub open spec fn encode_session_target_spec(t: NavigationTarget, current_path: Option<Seq<char>>, home_path: Seq<char>) -> Seq<char> {
    match t {
        NavigationTarget::Home => "home"@,
        NavigationTarget::RecycleBin => "recycle"@,
        NavigationTarget::Settings => "settings"@,
        NavigationTarget::FileTag(name) => "tag:"@ + name@,
        NavigationTarget::Path(_) => match current_path {
            Some(p) => p,
            None => home_path,
        },
    }
}

/// How a tab's target is stored.
pub fn encode_session_target(t: &NavigationTarget, current_path: Option<&str>, home_path: &str) -> (r: String)
    ensures
        r@ == encode_session_target_spec(*t, match current_path { Some(p) => Some(p@), None => None }, home_path@),
{
    match t {
        NavigationTarget::Home => string_from("home"),
        NavigationTarget::RecycleBin => string_from("recycle"),
        NavigationTarget::Settings => string_from("settings"),
        NavigationTarget::FileTag(name) => {
            let mut out = chars_of("tag:");
            push_str_chars(&mut out, name.as_str());
            string_of(out.as_slice())
        },
        NavigationTarget::Path(_) => match current_path {
            Some(p) => string_from(p),
            None => string_from(home_path),
        },
    }
}

/// Law: a stored home, settings, recycle-bin or file-tag target leads back
/// to the same target when read as a breadcrumb path.
pub proof fn law_stored_page_target_reads_back(t: NavigationTarget, current_path: Option<Seq<char>>, home_path: Seq<char>, back: NavigationTarget)
    requires
        !(t is Path),
        breadcrumb_target_spec(encode_session_target_spec(t, current_path, home_path), back),
    ensures
        same_target(back, t),
{
    reveal_strlit("home");
    reveal_strlit("settings");
    reveal_strlit("recycle");
    reveal_strlit("tag:");
    let s = encode_session_target_spec(t, current_path, home_path);
    let l = lower_seq(s);
    match t {
        NavigationTarget::Home => {
            assert(l =~= "home"@);
        },
        NavigationTarget::Settings => {
            assert(l =~= "settings"@);
            assert(l != "home"@);
        },
        NavigationTarget::RecycleBin => {
            assert(l =~= "recycle"@);
            assert(l != "home"@);
            assert(l != "settings"@) by {
                assert(l[0] != "settings"@[0]);
            }
        },
        NavigationTarget::FileTag(name) => {
            assert(s.take(4) =~= "tag:"@);
            assert(s.skip(4) =~= name@);
            assert(l[3] == ':');
            assert(l != "home"@) by {
                assert(l.len() < 4 || l[3] != "home"@[3] || l.len() != 4);
            }
            assert(l != "settings"@) by {
                if l.len() == 8 {
                    assert(l[3] != "settings"@[3]);
                }
            }
            assert(l != "recycle"@) by {
                if l.len() == 7 {
                    assert(l[3] != "recycle"@[3]);
                }
            }
        },
        NavigationTarget::Path(_) => {},
    }
}

/// The title of a tab showing folder `dir`: its name, or the whole path
/// when it has none (a root).
pub open spec fn path_tab_title_spec(dir: Seq<char>) -> Seq<char> {
    match crate::path::file_name_spec(dir) {
        Some(name) => name,
        None => dir,
    }
}

/// The title of a tab showing folder `dir`.
pub fn path_tab_title(dir: &str) -> (r: String)
    ensures
        r@ == path_tab_title_spec(dir@),
{
    match crate::path::path_file_name(dir) {
        Some(name) => name,
        None => string_from(dir),
    }
}

/// A closed tab as the session stores it: its target and its pane layout.
#[derive(Clone, Debug)]
pub struct ClosedTabSession {
    pub tab: String,
    pub dual_pane: bool,
    pub active_side: String,
    pub secondary_tab: String,
}

/// How many closed tabs the session keeps.
pub const MAX_CLOSED_TABS: usize = 12;

/// The closed tabs after closing `session`: it comes first, an older entry
/// for the same target is dropped, and at most the newest
/// `MAX_CLOSED_TABS` are kept.
pub open spec fn closed_tabs_after(closed: Seq<ClosedTabSession>, session: ClosedTabSession) -> Seq<ClosedTabSession> {
    let all = seq![session] + closed.filter(|c: ClosedTabSession| c.tab@ != session.tab@);
    if all.len() > MAX_CLOSED_TABS { all.take(MAX_CLOSED_TABS as int) } else { all }
}

/// Records a closed tab in the list of recently closed tabs.
pub fn record_closed_tab(closed: &mut Vec<ClosedTabSession>, session: ClosedTabSession)
    ensures
        final(closed)@ == closed_tabs_after(old(closed)@, session),
{
    let ghost f = |c: ClosedTabSession| c.tab@ != session.tab@;
    let ghost start = closed@;
    let mut kept: Vec<ClosedTabSession> = Vec::new();
    let mut i: usize = 0;
    proof {
        assert(start.take(0).filter(f) =~= Seq::<ClosedTabSession>::empty());
    }
    let mut old_list: Vec<ClosedTabSession> = Vec::new();
    std::mem::swap(&mut old_list, closed);
    let n = old_list.len();
    kept.push(session);
    let ghost first = kept@[0];
    proof {
        assert(kept@ =~= seq![first] + start.take(0).filter(f));
    }
    while old_list.len() > 0
        invariant
            i + old_list.len() == n,
            n == start.len(),
            old_list@ == start.skip(i as int),
            f == |c: ClosedTabSession| c.tab@ != first.tab@,
            kept@ == seq![first] + start.take(i as int).filter(f),
        decreases old_list.len(),
    {
        let entry = old_list.remove(0);
        proof {
            assert(entry == start[i as int]);
            assert(start.take(i + 1) =~= start.take(i as int).push(start[i as int]));
            start.take(i as int).lemma_filter_push(start[i as int], f);
            assert(old_list@ =~= start.skip(i + 1));
        }
        let ghost before = kept@;
        if !crate::text::str_equal(entry.tab.as_str(), kept[0].tab.as_str()) {
            kept.push(entry);
            proof {
                assert(kept@ =~= before.push(start[i as int]));
            }
        }
        i += 1;
    }
    proof {
        assert(start.take(n as int) =~= start);
    }
    if kept.len() > MAX_CLOSED_TABS {
        kept.truncate(MAX_CLOSED_TABS);
    }
    *closed = kept;
}

/// Takes closed tab `index` out of the list, if there is one.
pub fn reopen_closed_tab_at(closed: &mut Vec<ClosedTabSession>, index: usize) -> (r: Option<ClosedTabSession>)
    ensures
        index >= old(closed).len() ==> r is None && final(closed)@ == old(closed)@,
        index < old(closed).len() ==> r == Some(old(closed)@[index as int])
            && final(closed)@ == old(closed)@.remove(index as int),
{
    if index >= closed.len() {
        return None;
    }
    Some(closed.remove(index))
}

/// The tab that is active after closing tab `index` of `count` tabs while
/// tab `active` was active; `None` when it was the last tab (the window
/// closes).
pub open spec fn active_after_close_spec(count: nat, active: nat, index: nat) -> Option<nat> {
    if count <= 1 {
        None
    } else if active >= count - 1 {
        Some((count - 2) as nat)
    } else if index < active {
        Some((active - 1) as nat)
    } else {
        Some(active)
    }
}

/// Which tab is active after closing tab `index` (see `active_after_close_spec`).
pub fn active_tab_after_close(count: usize, active: usize, index: usize) -> (r: Option<usize>)
    requires
        index < count,
    ensures
        match r {
            Some(a) => active_after_close_spec(count as nat, active as nat, index as nat) == Some(a as nat),
            None => active_after_close_spec(count as nat, active as nat, index as nat) is None,
        },
{
    if count <= 1 {
        return None;
    }
    let remaining = count - 1;
    if active >= remaining {
        Some(remaining - 1)
    } else if index < active {
        Some(active - 1)
    } else {
        Some(active)
    }
}

/// Law: after closing a tab other than the active one, the same tab stays
/// active (its index moves down when a tab before it closed); after any
/// close the active index points at a remaining tab.
pub proof fn law_close_keeps_active_tab(count: nat, active: nat, index: nat)
    requires
        index < count,
        active < count,
        count > 1,
    ensures
        active_after_close_spec(count, active, index) matches Some(a) && a < count - 1,
        index != active ==> active_after_close_spec(count, active, index) == Some(
            if index < active { (active - 1) as nat } else { active }),
{
}

/// Whether `v` holds the string `s`.
pub open spec fn holds(v: Seq<String>, s: Seq<char>) -> bool {
    exists|i: int| 0 <= i < v.len() && (#[trigger] v[i])@ == s
}

/// The position of the first entry equal to `s`.
fn position_of(v: &Vec<String>, s: &str) -> (r: Option<usize>)
    ensures
        match r {
            Some(i) => i < v.len() && v@[i as int]@ == s@ && forall|j: int| 0 <= j < i ==> (#[trigger] v@[j])@ != s@,
            None => !holds(v@, s@),
        },
{
    let mut i: usize = 0;
    while i < v.len()
        invariant
            i <= v.len(),
            forall|j: int| 0 <= j < i ==> (#[trigger] v@[j])@ != s@,
        decreases v.len() - i,
    {
        if crate::text::str_equal(v[i].as_str(), s) {
            return Some(i);
        }
        i += 1;
    }
    None
}

/// Pins a folder; returns whether it was added (it is not when already pinned).
pub fn pin_folder_path(pinned: &mut Vec<String>, path: &str) -> (added: bool)
    ensures
        added == !holds(old(pinned)@, path@),
        added ==> views(final(pinned)@) == views(old(pinned)@).push(path@),
        !added ==> final(pinned)@ == old(pinned)@,
{
    if position_of(pinned, path).is_some() {
        return false;
    }
    let ghost before = views(pinned@);
    pinned.push(string_from(path));
    proof {
        assert(views(pinned@) =~= before.push(path@));
    }
    true
}

/// Unpins a folder; returns whether it was pinned.
pub fn unpin_folder_path(pinned: &mut Vec<String>, path: &str) -> (removed: bool)
    ensures
        removed == holds(old(pinned)@, path@),
        removed ==> exists|i: int| 0 <= i < old(pinned).len() && old(pinned)@[i]@ == path@
            && (forall|j: int| 0 <= j < i ==> (#[trigger] old(pinned)@[j])@ != path@)
            && final(pinned)@ == old(pinned)@.remove(i),
        !removed ==> final(pinned)@ == old(pinned)@,
{
    match position_of(pinned, path) {
        Some(i) => {
            pinned.remove(i);
            true
        },
        None => false,
    }
}

/// Law: pinning a folder that was not pinned and then unpinning it
/// restores the list.
pub proof fn law_unpin_undoes_pin(pinned: Seq<String>, path: Seq<char>, after_pin: Seq<String>, after_unpin: Seq<String>)
    requires
        !holds(pinned, path),
        views(after_pin) == views(pinned).push(path),
        after_pin.len() == pinned.len() + 1,
        exists|i: int| 0 <= i < after_pin.len() && after_pin[i]@ == path
            && (forall|j: int| 0 <= j < i ==> (#[trigger] after_pin[j])@ != path)
            && after_unpin == after_pin.remove(i),
    ensures
        views(after_unpin) == views(pinned),
{
    let i = choose|i: int| 0 <= i < after_pin.len() && after_pin[i]@ == path
        && (forall|j: int| 0 <= j < i ==> (#[trigger] after_pin[j])@ != path)
        && after_unpin == after_pin.remove(i);
    assert forall|j: int| 0 <= j < pinned.len() implies after_pin[j]@ == pinned[j]@ by {
        assert(views(after_pin)[j] == views(pinned).push(path)[j]);
    }
    if i < pinned.len() {
        assert(after_pin[i]@ == pinned[i]@);
        assert(holds(pinned, path));
    }
    assert(i == pinned.len());
    assert(views(after_unpin) =~= views(pinned));
}

/// Moves a pinned folder by `delta` places, stopping at either end; returns
/// whether it moved.
pub fn move_pinned_folder(pinned: &mut Vec<String>, path: &str, delta: i32) -> (moved: bool)
    requires
        old(pinned).len() <= i32::MAX,
    ensures
        match position_of_spec(old(pinned)@, path@) {
            None => !moved && final(pinned)@ == old(pinned)@,
            Some(i) => {
                let target = i + delta;
                let last = old(pinned).len() - 1;
                let to = if target < 0 { 0 } else if target > last { last } else { target };
                &&& moved == (to != i)
                &&& moved ==> final(pinned)@ == old(pinned)@.remove(i).insert(to, old(pinned)@[i])
                &&& !moved ==> final(pinned)@ == old(pinned)@
            },
        },
{
    let index = match position_of(pinned, path) {
        Some(i) => i,
        None => {
            return false;
        },
    };
    proof {
        lemma_position_of_spec(pinned@, path@, index as int);
    }
    let last: i64 = pinned.len() as i64 - 1;
    let target: i64 = index as i64 + delta as i64;
    let to: i64 = if target < 0 { 0 } else if target > last { last } else { target };
    if to == index as i64 {
        return false;
    }
    let entry = pinned.remove(index);
    pinned.insert(to as usize, entry);
    true
}

/// The position of the first entry equal to `s`.
pub open spec fn position_of_spec(v: Seq<String>, s: Seq<char>) -> Option<int> {
    if holds(v, s) {
        Some(choose|i: int| 0 <= i < v.len() && v[i]@ == s && forall|j: int| 0 <= j < i ==> (#[trigger] v[j])@ != s)
    } else {
        None
    }
}

proof fn lemma_position_of_spec(v: Seq<String>, s: Seq<char>, i: int)
    requires
        0 <= i < v.len(),
        v[i]@ == s,
        forall|j: int| 0 <= j < i ==> (#[trigger] v[j])@ != s,
    ensures
        position_of_spec(v, s) == Some(i),
{
    assert(holds(v, s));
    let c = choose|k: int| 0 <= k < v.len() && v[k]@ == s && forall|j: int| 0 <= j < k ==> (#[trigger] v[j])@ != s;
    if c < i {
        assert(v[c]@ != s);
    } else if c > i {
        assert(v[i]@ != s);
    }
}

/// Pins the current folder, or unpins it when it is pinned.
pub fn toggle_pinned_folder(pinned: &mut Vec<String>, path: &str) -> (now_pinned: bool)
    ensures
        now_pinned == !holds(old(pinned)@, path@),
        now_pinned ==> views(final(pinned)@) == views(old(pinned)@).push(path@),
        !now_pinned ==> final(pinned)@ == old(pinned)@.remove(position_of_spec(old(pinned)@, path@)->0),
{
    match position_of(pinned, path) {
        Some(i) => {
            proof {
                lemma_position_of_spec(pinned@, path@, i as int);
            }
            pinned.remove(i);
            false
        },
        None => {
            let ghost before = views(pinned@);
            pinned.push(string_from(path));
            proof {
                assert(views(pinned@) =~= before.push(path@));
            }
            true
        },
    }
}

/// What a path typed into the omnibar is, as the file system tells.
#[derive(Clone, Copy, Debug, PartialEq, Eq, Structural)]
pub enum PathKind {
    Directory,
    File,
    Missing,
}

/// The path the omnibar looks up for submitted text (the text trimmed).
pub fn submitted_path(text: &str) -> (r: String)
    ensures
        r@ == trim_seq(text@),
{
    let cs = chars_of(text);
    let t = trim_chars(cs.as_slice());
    string_of(t.as_slice())
}

/// Where submitted omnibar text leads: nowhere when blank; the home,
/// settings or recycle-bin page for those words (any ASCII case, `recycle
/// bin` too); a directory; the directory of a file; nowhere otherwise.
/// `kind` is what the trimmed text names on disk.
pub open spec fn resolve_path_submit_spec(text: Seq<char>, kind: PathKind, t: Option<NavigationTarget>) -> bool {
    let p = trim_seq(text);
    let l = lower_seq(p);
    if p.len() == 0 {
        t is None
    } else if l == "home"@ {
        t matches Some(x) && x is Home
    } else if l == "settings"@ {
        t matches Some(x) && x is Settings
    } else if l == "recycle bin"@ || l == "recycle"@ {
        t matches Some(x) && x is RecycleBin
    } else {
        match kind {
            PathKind::Directory => t matches Some(NavigationTarget::Path(d)) && d@ == p,
            PathKind::File => match parent_spec(p) {
                Some(q) => t matches Some(NavigationTarget::Path(d)) && d@ == q,
                None => t is None,
            },
            PathKind::Missing => t is None,
        }
    }
}

/// Where submitted omnibar text leads (see `resolve_path_submit_spec`).
pub fn resolve_path_submit(text: &str, kind: PathKind) -> (r: Option<NavigationTarget>)
    ensures
        resolve_path_submit_spec(text@, kind, r),
{
    let p = submitted_path(text);
    let cs = chars_of(p.as_str());
    if cs.len() == 0 {
        return None;
    }
    proof {
        reveal_strlit("home");
        reveal_strlit("settings");
        reveal_strlit("recycle bin");
        reveal_strlit("recycle");
        assert(lower_seq("home"@) =~= "home"@);
        assert(lower_seq("settings"@) =~= "settings"@);
        assert(lower_seq("recycle bin"@) =~= "recycle bin"@);
        assert(lower_seq("recycle"@) =~= "recycle"@);
    }
    if eq_ignore_ascii_case(p.as_str(), "home") {
        return Some(NavigationTarget::Home);
    }
    if eq_ignore_ascii_case(p.as_str(), "settings") {
        return Some(NavigationTarget::Settings);
    }
    if eq_ignore_ascii_case(p.as_str(), "recycle bin") || eq_ignore_ascii_case(p.as_str(), "recycle") {
        return Some(NavigationTarget::RecycleBin);
    }
    match kind {
        PathKind::Directory => Some(NavigationTarget::Path(p)),
        PathKind::File => match path_parent(p.as_str()) {
            Some(q) => Some(NavigationTarget::Path(q)),
            None => None,
        },
        PathKind::Missing => None,
    }
}


/// Law: closing the active tab when it is not the last one keeps the same
/// index active, so the tab that slides into its place becomes active;
/// closing the active last tab activates the new last tab.
pub proof fn law_close_active_tab_activates_neighbour(count: nat, active: nat)
    requires
        count > 1,
        active < count,
    ensures
        active < count - 1 ==> active_after_close_spec(count, active, active) == Some(active),
        active == count - 1 ==> active_after_close_spec(count, active, active) == Some((count - 2) as nat),
{
}

} // verus!
