//! The editor's buffer model (text, metrics, cursor, revision) and its
//! session (file, saved text, dirty flag, queries and view toggles).
use vstd::prelude::*;
use crate::text::{chars_of, string_from, str_equal};
use crate::editor_text::{Position, SearchMatch, editable, find_next_spec, find_previous_spec, find_next_in_text, find_previous_in_text};
use crate::editor_meta::{LineEndingKind, IndentStyle, line_ending_spec, indent_style_spec, line_count_spec, detect_line_ending, detect_indent_style, line_count, line_ending_label_spec, indent_label_spec, indent_unit_spec, preferred_indent_unit};
use crate::language::{language_for_path_spec, language_for_path};
use crate::path::join_spec;

verus! {

/// The text shown by the editor with the metrics derived from it.
pub struct EditorBufferModel {
    text: String,
    language: String,
    revision: u64,
    line_count: usize,
    char_count: usize,
    cursor: Position,
}

impl EditorBufferModel {
    pub closed spec fn text_view(&self) -> Seq<char> {
        self.text@
    }

    pub closed spec fn language_view(&self) -> Seq<char> {
        self.language@
    }

    pub closed spec fn revision_view(&self) -> u64 {
        self.revision
    }

    pub closed spec fn cursor_view(&self) -> Position {
        self.cursor
    }

    /// The metrics agree with the text.
    pub closed spec fn wf(&self) -> bool {
        &&& self.line_count == line_count_spec(self.text@)
        &&& self.char_count == self.text@.len()
    }

    /// A model of `text` at revision 0 with the cursor at the start.
    pub fn new(text: String, language: String) -> (m: Self)
        ensures
            m.wf(),
            m.text_view() == text@,
            m.language_view() == language@,
            m.revision_view() == 0,
            m.cursor_view() == Position::new_spec(0, 0),
    {
        let lines = line_count(text.as_str());
        let chars = chars_of(text.as_str()).len();
        EditorBufferModel { text, language, revision: 0, line_count: lines, char_count: chars, cursor: Position { line: 0, character: 0 } }
    }

    pub fn revision(&self) -> (r: u64)
        ensures
            r == self.revision_view(),
    {
        self.revision
    }

    /// The number of lines, at least one.
    pub fn line_count(&self) -> (n: usize)
        requires
            self.wf(),
        ensures
            n == line_count_spec(self.text_view()),
    {
        self.line_count
    }

    /// The number of characters.
    pub fn char_count(&self) -> (n: usize)
        requires
            self.wf(),
        ensures
            n == self.text_view().len(),
    {
        self.char_count
    }

    pub fn cursor(&self) -> (p: Position)
        ensures
            p == self.cursor_view(),
    {
        self.cursor
    }

    pub fn text(&self) -> (s: &str)
        ensures
            s@ == self.text_view(),
    {
        self.text.as_str()
    }

    /// The next match of `query` from the cursor, wrapping around.
    pub fn find_next(&self, query: &str) -> (r: Option<SearchMatch>)
        requires
            editable(self.text_view()),
        ensures
            r == find_next_spec(self.text_view(), self.cursor_view(), query@),
    {
        find_next_in_text(self.text.as_str(), self.cursor, query)
    }

    /// The previous match of `query` before the cursor, wrapping around.
    pub fn find_previous(&self, query: &str) -> (r: Option<SearchMatch>)
        requires
            editable(self.text_view()),
        ensures
            r == find_previous_spec(self.text_view(), self.cursor_view(), query@),
    {
        find_previous_in_text(self.text.as_str(), self.cursor, query)
    }

    /// Loads a new document: the revision advances and the cursor returns to the start.
    pub fn set_document(&mut self, text: String, language: String)
        ensures
            final(self).wf(),
            final(self).text_view() == text@,
            final(self).language_view() == language@,
            final(self).revision_view() == old(self).revision_view().wrapping_add(1),
            final(self).cursor_view() == Position::new_spec(0, 0),
    {
        self.line_count = line_count(text.as_str());
        self.char_count = chars_of(text.as_str()).len();
        self.text = text;
        self.language = language;
        self.revision = self.revision.wrapping_add(1);
        self.cursor = Position { line: 0, character: 0 };
    }

    /// Changes the highlighting language; the revision advances.
    pub fn set_language(&mut self, language: String)
        ensures
            final(self).text_view() == old(self).text_view(),
            final(self).wf() == old(self).wf(),
            final(self).language_view() == language@,
            final(self).revision_view() == old(self).revision_view().wrapping_add(1),
            final(self).cursor_view() == old(self).cursor_view(),
    {
        self.language = language;
        self.revision = self.revision.wrapping_add(1);
    }

    /// Takes over the editor's current text; only a changed text advances the revision.
    pub fn sync_text(&mut self, text: &str)
        requires
            old(self).wf(),
        ensures
            final(self).wf(),
            final(self).text_view() == text@,
            final(self).language_view() == old(self).language_view(),
            final(self).cursor_view() == old(self).cursor_view(),
            final(self).revision_view() == if old(self).text_view() == text@ {
                old(self).revision_view()
            } else {
                old(self).revision_view().wrapping_add(1)
            },
    {
        if str_equal(self.text.as_str(), text) {
            return;
        }
        self.text = string_from(text);
        self.revision = self.revision.wrapping_add(1);
        self.line_count = line_count(text);
        self.char_count = chars_of(text).len();
    }

    /// Records the editor's cursor.
    pub fn sync_cursor(&mut self, cursor: Position)
        ensures
            final(self).text_view() == old(self).text_view(),
            final(self).wf() == old(self).wf(),
            final(self).language_view() == old(self).language_view(),
            final(self).revision_view() == old(self).revision_view(),
            final(self).cursor_view() == cursor,
    {
        self.cursor = cursor;
    }
}

impl Position {
    pub open spec fn new_spec(line: u32, character: u32) -> Position {
        Position { line, character }
    }
}

/// Whether a text differs from the text last saved or loaded.
pub open spec fn is_dirty(saved: Seq<char>, current: Seq<char>) -> bool {
    current != saved
}

/// The path of an optional path string, as a spec value.
pub open spec fn opt_view(p: Option<String>) -> Option<Seq<char>> {
    match p {
        Some(s) => Some(s@),
        None => None,
    }
}

/// One editing session: the file, the text last saved or loaded, and the
/// editor's toggles and queries.
pub struct EditorSession {
    file_path: Option<String>,
    language: String,
    saved_text: String,
    find_query: String,
    replace_query: String,
    dirty: bool,
    line_numbers: bool,
    soft_wrap: bool,
    encoding_label: String,
    line_ending: LineEndingKind,
    indent_style: IndentStyle,
}

impl EditorSession {
    pub closed spec fn file_path_view(&self) -> Option<Seq<char>> {
        opt_view(self.file_path)
    }

    pub closed spec fn language_view(&self) -> Seq<char> {
        self.language@
    }

    pub closed spec fn saved_view(&self) -> Seq<char> {
        self.saved_text@
    }

    pub closed spec fn find_query_view(&self) -> Seq<char> {
        self.find_query@
    }

    pub closed spec fn replace_query_view(&self) -> Seq<char> {
        self.replace_query@
    }

    pub closed spec fn dirty_view(&self) -> bool {
        self.dirty
    }

    pub closed spec fn line_numbers_view(&self) -> bool {
        self.line_numbers
    }

    pub closed spec fn soft_wrap_view(&self) -> bool {
        self.soft_wrap
    }

    pub closed spec fn encoding_view(&self) -> Seq<char> {
        self.encoding_label@
    }

    pub closed spec fn line_ending_view(&self) -> LineEndingKind {
        self.line_ending
    }

    pub closed spec fn indent_view(&self) -> IndentStyle {
        self.indent_style
    }

    /// A clean session for `initial_text`, with line numbers on and soft wrap off.
    pub fn new(file_path: Option<String>, initial_text: String) -> (s: Self)
        ensures
            s.file_path_view() == opt_view(file_path),
            s.language_view() == language_for_path_spec(opt_view(file_path)),
            s.saved_view() == initial_text@,
            s.find_query_view() == Seq::<char>::empty(),
            s.replace_query_view() == Seq::<char>::empty(),
            !s.dirty_view(),
            s.line_numbers_view(),
            !s.soft_wrap_view(),
            s.encoding_view() == "UTF-8"@,
            s.line_ending_view() == line_ending_spec(initial_text@),
            s.indent_view() == indent_style_spec(initial_text@),
    {
        let language = match &file_path {
            Some(p) => string_from(language_for_path(Some(p.as_str()))),
            None => string_from(language_for_path(None)),
        };
        let line_ending = detect_line_ending(initial_text.as_str());
        let indent_style = detect_indent_style(initial_text.as_str());
        EditorSession {
            file_path,
            language,
            saved_text: initial_text,
            find_query: String::new(),
            replace_query: String::new(),
            dirty: false,
            line_numbers: true,
            soft_wrap: false,
            encoding_label: string_from("UTF-8"),
            line_ending,
            indent_style,
        }
    }

    pub fn file_path(&self) -> (r: Option<&String>)
        ensures
            match r {
                Some(p) => self.file_path_view() == Some(p@),
                None => self.file_path_view() is None,
            },
    {
        self.file_path.as_ref()
    }

    pub fn language(&self) -> (r: &String)
        ensures
            r@ == self.language_view(),
    {
        &self.language
    }

    pub fn dirty(&self) -> (r: bool)
        ensures
            r == self.dirty_view(),
    {
        self.dirty
    }

    pub fn find_query(&self) -> (r: &str)
        ensures
            r@ == self.find_query_view(),
    {
        self.find_query.as_str()
    }

    pub fn replace_query(&self) -> (r: &str)
        ensures
            r@ == self.replace_query_view(),
    {
        self.replace_query.as_str()
    }

    pub fn line_numbers(&self) -> (r: bool)
        ensures
            r == self.line_numbers_view(),
    {
        self.line_numbers
    }

    pub fn soft_wrap(&self) -> (r: bool)
        ensures
            r == self.soft_wrap_view(),
    {
        self.soft_wrap
    }

    pub fn encoding_label(&self) -> (r: &String)
        ensures
            r@ == self.encoding_view(),
    {
        &self.encoding_label
    }

    pub fn line_ending_label(&self) -> (r: &'static str)
        ensures
            r@ == line_ending_label_spec(self.line_ending_view()),
    {
        self.line_ending.label()
    }

    pub fn indent_label(&self) -> (r: String)
        ensures
            r@ == indent_label_spec(self.indent_view()),
    {
        self.indent_style.label()
    }

    pub fn preferred_indent_unit(&self) -> (r: String)
        ensures
            r@ == indent_unit_spec(self.indent_view()),
    {
        preferred_indent_unit(self.indent_style)
    }

    /// Re-derives the dirty flag and text metadata from the editor's text;
    /// returns whether the dirty flag changed.
    pub fn update_dirty_from_text(&mut self, current_text: &str) -> (changed: bool)
        ensures
            final(self).dirty_view() == is_dirty(old(self).saved_view(), current_text@),
            changed == (final(self).dirty_view() != old(self).dirty_view()),
            final(self).line_ending_view() == line_ending_spec(current_text@),
            final(self).indent_view() == indent_style_spec(current_text@),
            final(self).saved_view() == old(self).saved_view(),
            final(self).file_path_view() == old(self).file_path_view(),
            final(self).language_view() == old(self).language_view(),
            final(self).line_numbers_view() == old(self).line_numbers_view(),
            final(self).soft_wrap_view() == old(self).soft_wrap_view(),
            final(self).find_query_view() == old(self).find_query_view(),
            final(self).replace_query_view() == old(self).replace_query_view(),
    {
        let dirty = !str_equal(current_text, self.saved_text.as_str());
        let changed = dirty != self.dirty;
        self.dirty = dirty;
        self.line_ending = detect_line_ending(current_text);
        self.indent_style = detect_indent_style(current_text);
        changed
    }

    /// Records a save of `text` to `path`: the session is clean and follows the new path.
    pub fn apply_save(&mut self, path: String, text: String)
        ensures
            final(self).file_path_view() == Some(path@),
            final(self).language_view() == language_for_path_spec(Some(path@)),
            final(self).saved_view() == text@,
            !final(self).dirty_view(),
            final(self).line_ending_view() == line_ending_spec(text@),
            final(self).indent_view() == indent_style_spec(text@),
            final(self).line_numbers_view() == old(self).line_numbers_view(),
            final(self).soft_wrap_view() == old(self).soft_wrap_view(),
            final(self).find_query_view() == old(self).find_query_view(),
            final(self).replace_query_view() == old(self).replace_query_view(),
    {
        self.language = string_from(language_for_path(Some(path.as_str())));
        self.file_path = Some(path);
        self.line_ending = detect_line_ending(text.as_str());
        self.indent_style = detect_indent_style(text.as_str());
        self.saved_text = text;
        self.dirty = false;
    }

    /// Records that `text` was loaded from `path`: the session is clean.
    pub fn apply_loaded_document(&mut self, path: String, text: String)
        ensures
            final(self).file_path_view() == Some(path@),
            final(self).language_view() == language_for_path_spec(Some(path@)),
            final(self).saved_view() == text@,
            !final(self).dirty_view(),
            final(self).line_ending_view() == line_ending_spec(text@),
            final(self).indent_view() == indent_style_spec(text@),
            final(self).line_numbers_view() == old(self).line_numbers_view(),
            final(self).soft_wrap_view() == old(self).soft_wrap_view(),
            final(self).find_query_view() == old(self).find_query_view(),
            final(self).replace_query_view() == old(self).replace_query_view(),
    {
        self.apply_save(path, text);
    }

    /// Where "Save As" starts: the session's file, else `untitled.txt` in
    /// `current_dir` (`.` when the working directory is unknown).
    pub fn suggested_save_path(&self, current_dir: Option<&str>) -> (r: String)
        ensures
            r@ == match self.file_path_view() {
                Some(p) => p,
                None => join_spec(
                    match current_dir {
                        Some(d) => d@,
                        None => "."@,
                    },
                    "untitled.txt"@,
                ),
            },
    {
        match &self.file_path {
            Some(p) => p.clone(),
            None => {
                let dir = match current_dir {
                    Some(d) => d,
                    None => ".",
                };
                crate::path::path_join(dir, "untitled.txt")
            },
        }
    }

    /// Flips line numbers and returns the new setting.
    pub fn toggle_line_numbers(&mut self) -> (r: bool)
        ensures
            r == !old(self).line_numbers_view(),
            final(self).line_numbers_view() == r,
            final(self).soft_wrap_view() == old(self).soft_wrap_view(),
            final(self).dirty_view() == old(self).dirty_view(),
            final(self).saved_view() == old(self).saved_view(),
    {
        self.line_numbers = !self.line_numbers;
        self.line_numbers
    }

    /// Flips soft wrap and returns the new setting.
    pub fn toggle_soft_wrap(&mut self) -> (r: bool)
        ensures
            r == !old(self).soft_wrap_view(),
            final(self).soft_wrap_view() == r,
            final(self).line_numbers_view() == old(self).line_numbers_view(),
            final(self).dirty_view() == old(self).dirty_view(),
            final(self).saved_view() == old(self).saved_view(),
    {
        self.soft_wrap = !self.soft_wrap;
        self.soft_wrap
    }

    pub fn set_find_query(&mut self, query: String)
        ensures
            final(self).find_query_view() == query@,
            final(self).replace_query_view() == old(self).replace_query_view(),
            final(self).dirty_view() == old(self).dirty_view(),
            final(self).saved_view() == old(self).saved_view(),
    {
        self.find_query = query;
    }

    pub fn set_replace_query(&mut self, query: String)
        ensures
            final(self).replace_query_view() == query@,
            final(self).find_query_view() == old(self).find_query_view(),
            final(self).dirty_view() == old(self).dirty_view(),
            final(self).saved_view() == old(self).saved_view(),
    {
        self.replace_query = query;
    }
}

/// Law: the text just saved or loaded is clean, any other text is dirty.
pub proof fn law_saved_text_is_clean(saved: Seq<char>, current: Seq<char>)
    ensures
        !is_dirty(saved, saved),
        is_dirty(saved, current) <==> current != saved,
{
}

} // verus!

verus! {

/// What reading a document's file found.
#[derive(Debug)]
pub enum FileProbe {
    /// Nothing exists at the path.
    Missing,
    /// The path is a directory.
    Directory,
    /// The file was read as UTF-8 text.
    Read(String),
    /// Reading failed with this error message.
    Failed(String),
}

/// A document to open in the editor: its text, or an error to show.
#[derive(Debug)]
pub struct LoadedDocument {
    pub text: String,
    pub load_error: Option<String>,
}

/// `load_document` after the file was probed: no path or a missing file give
/// an empty document, a directory or a read failure an error message.
pub open spec fn loaded_document_spec(path: Option<Seq<char>>, probe: FileProbe) -> (Seq<char>, Option<Seq<char>>) {
    match path {
        None => (Seq::empty(), None),
        Some(p) => match probe {
            FileProbe::Missing => (Seq::empty(), None),
            FileProbe::Directory => (Seq::empty(), Some(p + " is a directory, not a file."@)),
            FileProbe::Read(text) => (text@, None),
            FileProbe::Failed(err) => (Seq::empty(), Some("Failed to open "@ + p + " as UTF-8 text: "@ + err@)),
        },
    }
}

/// The document for `path` given what probing its file found.
pub fn load_document(path: Option<&str>, probe: FileProbe) -> (d: LoadedDocument)
    ensures
        (d.text@, match d.load_error { Some(e) => Some(e@), None => None }) == loaded_document_spec(
            match path { Some(p) => Some(p@), None => None },
            probe,
        ),
{
    match path {
        None => LoadedDocument { text: String::new(), load_error: None },
        Some(p) => match probe {
            FileProbe::Missing => LoadedDocument { text: String::new(), load_error: None },
            FileProbe::Directory => {
                let mut out: Vec<char> = Vec::new();
                crate::text::push_str_chars(&mut out, p);
                crate::text::push_str_chars(&mut out, " is a directory, not a file.");
                LoadedDocument { text: String::new(), load_error: Some(crate::text::string_of(out.as_slice())) }
            },
            FileProbe::Read(text) => LoadedDocument { text, load_error: None },
            FileProbe::Failed(err) => {
                let mut out: Vec<char> = Vec::new();
                crate::text::push_str_chars(&mut out, "Failed to open ");
                crate::text::push_str_chars(&mut out, p);
                crate::text::push_str_chars(&mut out, " as UTF-8 text: ");
                crate::text::push_str_chars(&mut out, err.as_str());
                proof {
                    assert(out@ =~= "Failed to open "@ + p@ + " as UTF-8 text: "@ + err@);
                }
                LoadedDocument { text: String::new(), load_error: Some(crate::text::string_of(out.as_slice())) }
            },
        },
    }
}

/// `display_name`: the file name of the path, or `Untitled`.
pub open spec fn display_name_spec(path: Option<Seq<char>>) -> Seq<char> {
    match path {
        Some(p) => match crate::path::file_name_spec(p) {
            Some(name) => if name.len() > 0 { name } else { "Untitled"@ },
            None => "Untitled"@,
        },
        None => "Untitled"@,
    }
}

/// The name shown for a document.
pub fn display_name(path: Option<&str>) -> (r: String)
    ensures
        r@ == display_name_spec(match path { Some(p) => Some(p@), None => None }),
{
    match path {
        Some(p) => match crate::path::path_file_name(p) {
            Some(name) => if name.as_str().unicode_len() > 0 { name } else { string_from("Untitled") },
            None => string_from("Untitled"),
        },
        None => string_from("Untitled"),
    }
}

/// The path shown for a document, or `No file open`.
pub fn display_path(path: Option<&str>) -> (r: String)
    ensures
        r@ == match path { Some(p) => p@, None => "No file open"@ },
{
    match path {
        Some(p) => string_from(p),
        None => string_from("No file open"),
    }
}

/// The status-bar language label.
pub fn display_language(language: &str) -> (r: String)
    ensures
        r@ == "Language: "@ + language@,
{
    let mut out: Vec<char> = Vec::new();
    crate::text::push_str_chars(&mut out, "Language: ");
    crate::text::push_str_chars(&mut out, language);
    crate::text::string_of(out.as_slice())
}

/// The editor window title: `* ` when dirty, the document name, then the app name.
pub open spec fn window_title_spec(dirty: bool, path: Option<Seq<char>>) -> Seq<char> {
    (if dirty { "* "@ } else { Seq::empty() }) + display_name_spec(path) + " - CyberEditor"@
}

/// The editor window title.
pub fn window_title(dirty: bool, path: Option<&str>) -> (r: String)
    ensures
        r@ == window_title_spec(dirty, match path { Some(p) => Some(p@), None => None }),
{
    let mut out: Vec<char> = Vec::new();
    if dirty {
        crate::text::push_str_chars(&mut out, "* ");
    }
    let name = display_name(path);
    crate::text::push_str_chars(&mut out, name.as_str());
    crate::text::push_str_chars(&mut out, " - CyberEditor");
    proof {
        if !dirty {
            assert(out@ =~= Seq::<char>::empty() + name@ + " - CyberEditor"@);
        }
    }
    crate::text::string_of(out.as_slice())
}

} // verus!
