//! The tab strip of the files page: its tabs, which one is active, and the
//! id the next tab gets. Each tab carries the handle of its browser.
use vstd::prelude::*;
use crate::text::{decimal_seq, push_decimal, push_str_chars, string_of, string_from};
use crate::session::{active_after_close_spec, active_tab_after_close};

verus! {

/// One tab: its id, its title and its browser.
pub struct FileTab<B> {
    pub id: u64,
    pub title: String,
    pub browser: B,
}

/// A tab strip with at least one tab.
pub struct FilesShell<B> {
    tabs: Vec<FileTab<B>>,
    active_tab: usize,
    next_tab_id: u64,
}

/// The title of a tab added with id `id`: `Tab ` and `id + 1`.
pub open spec fn new_tab_title(id: u64) -> Seq<char> {
    "Tab "@ + decimal_seq((id + 1) as nat)
}

/// The tabs after closing tab `index`: unchanged when it is the only one.
pub open spec fn tabs_after_close<T>(tabs: Seq<T>, index: int) -> Seq<T> {
    if tabs.len() <= 1 {
        tabs
    } else {
        tabs.remove(index)
    }
}

impl<B> FilesShell<B> {
    /// The tabs, in order.
    pub closed spec fn tabs_view(&self) -> Seq<FileTab<B>> {
        self.tabs@
    }

    /// The index of the active tab.
    pub closed spec fn active_view(&self) -> nat {
        self.active_tab as nat
    }

    /// The id the next tab gets.
    pub closed spec fn next_id_view(&self) -> u64 {
        self.next_tab_id
    }

    /// The strip's invariant: there is a tab, the active index is one of
    /// them, and every id was handed out before the next one.
    pub open spec fn wf(&self) -> bool {
        &&& self.tabs_view().len() >= 1
        &&& self.active_view() < self.tabs_view().len()
        &&& forall|i: int| 0 <= i < self.tabs_view().len() ==> (#[trigger] self.tabs_view()[i]).id < self.next_id_view()
    }

    /// A strip with one tab, `Files` (id 0), showing `browser`.
    pub fn new(browser: B) -> (s: Self)
        ensures
            s.wf(),
            s.tabs_view().len() == 1,
            s.tabs_view()[0].id == 0,
            s.tabs_view()[0].title@ == "Files"@,
            s.tabs_view()[0].browser == browser,
            s.active_view() == 0,
            s.next_id_view() == 1,
    {
        let tab = FileTab { id: 0, title: string_from("Files"), browser };
        FilesShell { tabs: vec![tab], active_tab: 0, next_tab_id: 1 }
    }

    /// The number of tabs.
    pub fn tab_count(&self) -> (n: usize)
        ensures
            n == self.tabs_view().len(),
    {
        self.tabs.len()
    }

    /// The index of the active tab.
    pub fn active_index(&self) -> (i: usize)
        ensures
            i == self.active_view(),
    {
        self.active_tab
    }

    /// Tab `index`.
    pub fn tab(&self, index: usize) -> (t: &FileTab<B>)
        requires
            index < self.tabs_view().len(),
        ensures
            *t == self.tabs_view()[index as int],
    {
        &self.tabs[index]
    }

    /// The browser of the active tab.
    pub fn active_browser(&self) -> (b: &B)
        requires
            self.wf(),
        ensures
            *b == self.tabs_view()[self.active_view() as int].browser,
    {
        &self.tabs[self.active_tab].browser
    }

    /// Adds a tab showing `browser`, with the next id and the title
    /// `Tab <id + 1>`, and makes it active.
    pub fn add_tab(&mut self, browser: B)
        requires
            old(self).wf(),
            old(self).next_id_view() < u64::MAX,
        ensures
            final(self).wf(),
            final(self).tabs_view().len() == old(self).tabs_view().len() + 1,
            final(self).tabs_view().drop_last() == old(self).tabs_view(),
            final(self).tabs_view().last().id == old(self).next_id_view(),
            final(self).tabs_view().last().title@ == new_tab_title(old(self).next_id_view()),
            final(self).tabs_view().last().browser == browser,
            final(self).active_view() == old(self).tabs_view().len(),
            final(self).next_id_view() == old(self).next_id_view() + 1,
    {
        let id = self.next_tab_id;
        self.next_tab_id = id + 1;
        let mut title: Vec<char> = Vec::new();
        push_str_chars(&mut title, "Tab ");
        push_decimal(&mut title, id + 1);
        let ghost before = self.tabs@;
        self.tabs.push(FileTab { id, title: string_of(title.as_slice()), browser });
        self.active_tab = self.tabs.len() - 1;
        proof {
            assert(self.tabs@.drop_last() =~= before);
            assert forall|i: int| 0 <= i < self.tabs@.len() implies (#[trigger] self.tabs@[i]).id < self.next_tab_id by {
                if i < before.len() {
                    assert(self.tabs@[i] == before[i]);
                }
            }
        }
    }

    /// Closes tab `index` unless it is the only one; the active index
    /// follows `active_tab_after_close`.
    pub fn close_tab(&mut self, index: usize)
        requires
            old(self).wf(),
            old(self).tabs_view().len() <= 1 || index < old(self).tabs_view().len(),
        ensures
            final(self).wf(),
            final(self).tabs_view() == tabs_after_close(old(self).tabs_view(), index as int),
            old(self).tabs_view().len() <= 1 ==> final(self).active_view() == old(self).active_view(),
            old(self).tabs_view().len() > 1 ==> active_after_close_spec(
                old(self).tabs_view().len(), old(self).active_view(), index as nat) == Some(final(self).active_view()),
            final(self).next_id_view() == old(self).next_id_view(),
    {
        if self.tabs.len() <= 1 {
            return;
        }
        let active = active_tab_after_close(self.tabs.len(), self.active_tab, index);
        let ghost before = self.tabs@;
        self.tabs.remove(index);
        match active {
            Some(a) => {
                self.active_tab = a;
            },
            None => {},
        }
        proof {
            assert(self.tabs@ =~= before.remove(index as int));
            assert forall|i: int| 0 <= i < self.tabs@.len() implies (#[trigger] self.tabs@[i]).id < self.next_tab_id by {
                if i < index {
                    assert(self.tabs@[i] == before[i]);
                } else {
                    assert(self.tabs@[i] == before[i + 1]);
                }
            }
        }
    }

    /// Makes tab `index` active (a click on it).
    pub fn select_tab(&mut self, index: usize)
        requires
            old(self).wf(),
            index < old(self).tabs_view().len(),
        ensures
            final(self).wf(),
            final(self).active_view() == index,
            final(self).tabs_view() == old(self).tabs_view(),
            final(self).next_id_view() == old(self).next_id_view(),
    {
        self.active_tab = index;
    }
}

/// Law: closing the tab just added gives back the tabs as they were, and
/// the active tab becomes the last of them.
pub proof fn law_close_undoes_add_tab<T>(tabs: Seq<T>, added: T)
    requires
        tabs.len() >= 1,
    ensures
        tabs_after_close(tabs.push(added), tabs.len() as int) == tabs,
        active_after_close_spec((tabs.len() + 1) as nat, tabs.len(), tabs.len()) == Some((tabs.len() - 1) as nat),
{
    assert(tabs.push(added).remove(tabs.len() as int) =~= tabs);
}

/// Law: whatever tabs are closed, one tab always remains.
pub proof fn law_last_tab_stays<T>(tabs: Seq<T>, index: int)
    requires
        tabs.len() >= 1,
        0 <= index < tabs.len(),
    ensures
        tabs_after_close(tabs, index).len() >= 1,
        tabs.len() > 1 ==> tabs_after_close(tabs, index).len() == tabs.len() - 1,
{
}

} // verus!
