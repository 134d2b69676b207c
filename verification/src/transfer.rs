//! Copying and moving files: what a paste takes from the clipboards, what
//! the app's clipboard holds after it, when a listing is reloaded, and the
//! progress of a running transfer.
use vstd::prelude::*;
use crate::model::FileTransferKind;
use crate::path::{same_path, paths_equal};
use crate::selection::{views, clone_strings};

verus! {

/// Whether clipboard items are copied or cut.
#[derive(Clone, Copy, Debug, PartialEq, Eq, Structural)]
pub enum ClipboardOperation {
    Copy,
    Cut,
}

/// The app's file clipboard: the operation and the paths.
#[derive(Clone, Debug)]
pub struct FileClipboard {
    pub operation: ClipboardOperation,
    pub paths: Vec<String>,
}

/// The transfer a paste runs: a copy for copied items, a move for cut ones.
pub fn transfer_kind_for(operation: ClipboardOperation) -> (kind: FileTransferKind)
    ensures
        kind == match operation {
            ClipboardOperation::Copy => FileTransferKind::Copy,
            ClipboardOperation::Cut => FileTransferKind::Move,
        },
{
    match operation {
        ClipboardOperation::Copy => FileTransferKind::Copy,
        ClipboardOperation::Cut => FileTransferKind::Move,
    }
}

/// What a paste works from: the app's clipboard (taken) when it holds
/// something, else the system clipboard's file paths as a copy; nothing
/// when that leaves no paths.
pub fn paste_source(app_clipboard: Option<FileClipboard>, system_paths: Vec<String>) -> (r: Option<FileClipboard>)
    ensures
        match r {
            Some(c) => c.paths@.len() > 0 && match app_clipboard {
                Some(a) => c.operation == a.operation && c.paths@ == a.paths@,
                None => c.operation == ClipboardOperation::Copy && c.paths@ == system_paths@,
            },
            None => match app_clipboard {
                Some(a) => a.paths@.len() == 0,
                None => system_paths@.len() == 0,
            },
        },
{
    let clipboard = match app_clipboard {
        Some(c) => c,
        None => {
            if system_paths.len() == 0 {
                return None;
            }
            FileClipboard { operation: ClipboardOperation::Copy, paths: system_paths }
        },
    };
    if clipboard.paths.len() == 0 {
        return None;
    }
    Some(clipboard)
}

/// What the app's clipboard holds after a paste of `clipboard` finished:
/// copied items stay available, cut items are gone once moved, and after
/// a failure the items are put back.
pub fn clipboard_after_paste(clipboard: FileClipboard, succeeded: bool) -> (r: Option<FileClipboard>)
    ensures
        match r {
            Some(c) => c.operation == clipboard.operation && c.paths@ == clipboard.paths@
                && (!succeeded || clipboard.operation == ClipboardOperation::Copy),
            None => succeeded && clipboard.operation == ClipboardOperation::Cut,
        },
{
    if succeeded && clipboard.operation == ClipboardOperation::Cut {
        None
    } else {
        Some(clipboard)
    }
}

/// Whether a browser showing `current_dir` reloads after a transfer into
/// `destination`: when the transfer succeeded there.
pub fn reload_after_transfer(succeeded: bool, current_dir: &str, destination: &str) -> (r: bool)
    ensures
        r == (succeeded && same_path(current_dir@, destination@)),
{
    succeeded && paths_equal(current_dir, destination)
}

/// A copy or move to run: its kind, the paths and the directory they go to.
#[derive(Debug)]
pub struct TransferJob {
    pub kind: FileTransferKind,
    pub sources: Vec<String>,
    pub destination: String,
}

/// The transfer to start for `sources`: none when there are none (nothing
/// runs and nothing is shown), else one transfer of exactly those paths.
pub fn plan_file_transfer(kind: FileTransferKind, sources: Vec<String>, destination: String) -> (r: Option<TransferJob>)
    ensures
        r is None <==> sources.len() == 0,
        r matches Some(j) ==> j.kind == kind && j.sources == sources && j.destination == destination,
{
    if sources.len() == 0 {
        None
    } else {
        Some(TransferJob { kind, sources, destination })
    }
}

/// The transfer a paste of `clipboard` into `destination` starts: none
/// when it holds no paths, else one transfer of its paths, a copy for
/// copied items and a move for cut ones.
pub fn plan_paste(clipboard: &FileClipboard, destination: String) -> (r: Option<TransferJob>)
    ensures
        r is None <==> clipboard.paths.len() == 0,
        r matches Some(j) ==> j.kind == match clipboard.operation {
            ClipboardOperation::Copy => FileTransferKind::Copy,
            ClipboardOperation::Cut => FileTransferKind::Move,
        } && j.sources@ == clipboard.paths@ && j.destination == destination,
{
    if clipboard.paths.len() == 0 {
        return None;
    }
    Some(TransferJob {
        kind: transfer_kind_for(clipboard.operation),
        sources: clone_strings(&clipboard.paths),
        destination,
    })
}

/// When a paste of `clipboard` finished (`succeeded` or not): what the
/// app's clipboard then holds (`clipboard_after_paste`: copied items stay,
/// cut items go once moved, everything comes back after a failure), and
/// whether the browser reloads: exactly when the paste succeeded.
pub fn finish_paste(clipboard: FileClipboard, succeeded: bool) -> (r: (Option<FileClipboard>, bool))
    ensures
        r.1 == succeeded,
        match r.0 {
            Some(c) => c.operation == clipboard.operation && c.paths@ == clipboard.paths@
                && (!succeeded || clipboard.operation == ClipboardOperation::Copy),
            None => succeeded && clipboard.operation == ClipboardOperation::Cut,
        },
{
    (clipboard_after_paste(clipboard, succeeded), succeeded)
}

/// The app's own file clipboard, shared by every browser: empty, or the
/// items last copied or cut.
pub struct AppFileClipboard(pub Option<FileClipboard>);

/// A copy of a clipboard's contents.
fn copy_clipboard(c: &FileClipboard) -> (r: FileClipboard)
    ensures
        r.operation == c.operation,
        views(r.paths@) == views(c.paths@),
{
    FileClipboard { operation: c.operation, paths: clone_strings(&c.paths) }
}

impl AppFileClipboard {
    /// An empty clipboard.
    pub fn new() -> (c: Self)
        ensures
            c.0 is None,
    {
        AppFileClipboard(None)
    }

    /// A copy of what the clipboard holds, leaving it as it is.
    pub fn peek(&self) -> (r: Option<FileClipboard>)
        ensures
            match (r, self.0) {
                (Some(a), Some(b)) => a.operation == b.operation && views(a.paths@) == views(b.paths@),
                (None, None) => true,
                _ => false,
            },
    {
        match &self.0 {
            Some(c) => Some(copy_clipboard(c)),
            None => None,
        }
    }

    /// Empties the clipboard and returns what it held; the caller refreshes
    /// the page when something was taken.
    pub fn take(&mut self) -> (r: Option<FileClipboard>)
        ensures
            r == old(self).0,
            final(self).0 is None,
    {
        self.0.take()
    }

    /// Holds `paths`, copied or cut.
    pub fn store(&mut self, operation: ClipboardOperation, paths: Vec<String>)
        ensures
            final(self).0 matches Some(c) && c.operation == operation && c.paths == paths,
    {
        self.0 = Some(FileClipboard { operation, paths });
    }

    /// Holds `clipboard` (puts items back after a failed paste).
    pub fn set(&mut self, clipboard: FileClipboard)
        ensures
            final(self).0 == Some(clipboard),
    {
        self.0 = Some(clipboard);
    }

    /// Empties the clipboard; returns whether it held something (the page
    /// is refreshed only then).
    pub fn clear(&mut self) -> (changed: bool)
        ensures
            changed == old(self).0 is Some,
            final(self).0 is None,
    {
        let changed = self.0.is_some();
        self.0 = None;
        changed
    }

    /// Whether the clipboard holds something.
    pub fn has_items(&self) -> (r: bool)
        ensures
            r == self.0 is Some,
    {
        self.0.is_some()
    }
}

/// A running transfer as the status bar shows it: its message, items done
/// out of a total (at least one), and whether cancelling was asked for.
pub struct ActiveTransfer {
    pub message: String,
    total: u32,
    completed: u32,
    cancelled: bool,
}

impl ActiveTransfer {
    /// The message shown with the transfer.
    pub closed spec fn message_view(&self) -> String {
        self.message
    }

    /// The number of items to transfer.
    pub closed spec fn total_view(&self) -> u32 {
        self.total
    }

    /// The number of items transferred so far.
    pub closed spec fn completed_view(&self) -> u32 {
        self.completed
    }

    /// Whether cancelling was asked for.
    pub closed spec fn cancelled_view(&self) -> bool {
        self.cancelled
    }

    /// A transfer of `total` items (counted as one when zero), none done.
    pub fn new(message: String, total: u32) -> (p: Self)
        ensures
            p.message_view() == message,
            p.total_view() == if total == 0 { 1 } else { total },
            p.completed_view() == 0,
            !p.cancelled_view(),
    {
        ActiveTransfer { message, total: if total == 0 { 1 } else { total }, completed: 0, cancelled: false }
    }

    /// The number of items to transfer.
    pub fn total(&self) -> (n: u32)
        ensures
            n == self.total_view(),
    {
        self.total
    }

    /// Records how many items are done.
    pub fn set_completed(&mut self, completed: u32)
        ensures
            final(self).completed_view() == completed,
            final(self).message_view() == old(self).message_view(),
            final(self).total_view() == old(self).total_view(),
            final(self).cancelled_view() == old(self).cancelled_view(),
    {
        self.completed = completed;
    }

    /// How many items are done.
    pub fn completed(&self) -> (n: u32)
        ensures
            n == self.completed_view(),
    {
        self.completed
    }

    /// Asks the transfer to stop.
    pub fn request_cancel(&mut self)
        ensures
            final(self).cancelled_view(),
            final(self).message_view() == old(self).message_view(),
            final(self).completed_view() == old(self).completed_view(),
            final(self).total_view() == old(self).total_view(),
    {
        self.cancelled = true;
    }

    /// Whether cancelling was asked for.
    pub fn cancel_requested(&self) -> (r: bool)
        ensures
            r == self.cancelled_view(),
    {
        self.cancelled
    }
}

} // verus!
