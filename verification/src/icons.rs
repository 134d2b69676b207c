//! Icons of the file list: the bundled SVG of a named icon or an extension,
//! the cache key of a row's shell icon, and the cache of loaded icon images.
use vstd::prelude::*;
use crate::text::{chars_of, lower_chars, lower_seq, string_of, string_from};
use crate::language::eq_lit;
use crate::model::{FileItem, FileItemKind};
use crate::selection::{chars_lt, views, law_chars_order_total, lemma_chars_lt_irrefl, lemma_chars_lt_trans};

verus! {

/// The view of an optional static string.
pub open spec fn opt_str_view(r: Option<&'static str>) -> Option<Seq<char>> {
    match r {
        Some(s) => Some(s@),
        None => None,
    }
}

/// The bundled SVG of each named UI icon.
pub open spec fn named_icon_spec(name: Seq<char>) -> Option<Seq<char>> {
    if name == "folder"@ { Some("icons/ic_folder.svg"@) }
    else if name == "new_folder"@ { Some("icons/ic_new_folder.svg"@) }
    else if name == "new_file"@ { Some("icons/ic_new_file.svg"@) }
    else if name == "home"@ { Some("icons/ic_home.svg"@) }
    else if name == "copy"@ { Some("icons/ic_copy.svg"@) }
    else if name == "cut"@ { Some("icons/ic_cut.svg"@) }
    else if name == "paste"@ { Some("icons/ic_paste.svg"@) }
    else { None }
}

/// App-bundled SVG path for a named UI icon.
pub fn named_icon_path(name: &str) -> (r: Option<&'static str>)
    ensures
        opt_str_view(r) == named_icon_spec(name@),
{
    let n = chars_of(name);
    let n = n.as_slice();
    if eq_lit(n, "folder") { Some("icons/ic_folder.svg") }
    else if eq_lit(n, "new_folder") { Some("icons/ic_new_folder.svg") }
    else if eq_lit(n, "new_file") { Some("icons/ic_new_file.svg") }
    else if eq_lit(n, "home") { Some("icons/ic_home.svg") }
    else if eq_lit(n, "copy") { Some("icons/ic_copy.svg") }
    else if eq_lit(n, "cut") { Some("icons/ic_cut.svg") }
    else if eq_lit(n, "paste") { Some("icons/ic_paste.svg") }
    else { None }
}

/// The bundled colored SVG of each lowercase file extension.
pub open spec fn extension_icon_spec(ext: Seq<char>) -> Option<Seq<char>> {
    if ext == "cpp"@ || ext == "cc"@ || ext == "cxx"@ || ext == "hpp"@ { Some("icons/ic_cpp.svg"@) }
    else if ext == "go"@ { Some("icons/ic_go.svg"@) }
    else if ext == "h"@ { Some("icons/ic_h.svg"@) }
    else if ext == "html"@ { Some("icons/ic_html.svg"@) }
    else if ext == "ico"@ || ext == "png"@ || ext == "jpg"@ || ext == "jpeg"@ || ext == "bmp"@
        || ext == "webp"@ { Some("icons/ic_image.svg"@) }
    else if ext == "gif"@ { Some("icons/ic_gif.svg"@) }
    else if ext == "java"@ { Some("icons/ic_java.svg"@) }
    else if ext == "js"@ { Some("icons/ic_js.svg"@) }
    else if ext == "json"@ { Some("icons/ic_json.svg"@) }
    else if ext == "kts"@ { Some("icons/ic_kts.svg"@) }
    else if ext == "pdf"@ { Some("icons/ic_pdf.svg"@) }
    else if ext == "rs"@ { Some("icons/ic_rust.svg"@) }
    else if ext == "svg"@ { Some("icons/ic_svg.svg"@) }
    else if ext == "toml"@ { Some("icons/ic_toml.svg"@) }
    else if ext == "ts"@ || ext == "tsx"@ { Some("icons/ic_ts.svg"@) }
    else if ext == "txt"@ { Some("icons/ic_txt.svg"@) }
    else if ext == "yml"@ || ext == "yaml"@ { Some("icons/ic_yml.svg"@) }
    else { None }
}

fn extension_icon_for_lower(e: &[char]) -> (r: Option<&'static str>)
    ensures
        opt_str_view(r) == extension_icon_spec(e@),
{
    if eq_lit(e, "cpp") || eq_lit(e, "cc") || eq_lit(e, "cxx") || eq_lit(e, "hpp") { Some("icons/ic_cpp.svg") }
    else if eq_lit(e, "go") { Some("icons/ic_go.svg") }
    else if eq_lit(e, "h") { Some("icons/ic_h.svg") }
    else if eq_lit(e, "html") { Some("icons/ic_html.svg") }
    else if eq_lit(e, "ico") || eq_lit(e, "png") || eq_lit(e, "jpg") || eq_lit(e, "jpeg") || eq_lit(e, "bmp")
        || eq_lit(e, "webp") { Some("icons/ic_image.svg") }
    else if eq_lit(e, "gif") { Some("icons/ic_gif.svg") }
    else if eq_lit(e, "java") { Some("icons/ic_java.svg") }
    else if eq_lit(e, "js") { Some("icons/ic_js.svg") }
    else if eq_lit(e, "json") { Some("icons/ic_json.svg") }
    else if eq_lit(e, "kts") { Some("icons/ic_kts.svg") }
    else if eq_lit(e, "pdf") { Some("icons/ic_pdf.svg") }
    else if eq_lit(e, "rs") { Some("icons/ic_rust.svg") }
    else if eq_lit(e, "svg") { Some("icons/ic_svg.svg") }
    else if eq_lit(e, "toml") { Some("icons/ic_toml.svg") }
    else if eq_lit(e, "ts") || eq_lit(e, "tsx") { Some("icons/ic_ts.svg") }
    else if eq_lit(e, "txt") { Some("icons/ic_txt.svg") }
    else if eq_lit(e, "yml") || eq_lit(e, "yaml") { Some("icons/ic_yml.svg") }
    else { None }
}

/// App-bundled colored SVG path for a file extension, matched without
/// regard to ASCII case (`"PDF"` gives `icons/ic_pdf.svg`).
pub fn extension_svg_path(ext: &str) -> (r: Option<&'static str>)
    ensures
        opt_str_view(r) == extension_icon_spec(lower_seq(ext@)),
{
    let cs = chars_of(ext);
    let lower = lower_chars(cs.as_slice());
    extension_icon_for_lower(lower.as_slice())
}

/// The shell-icon cache key of a row: `:folder:`, `:symlink:`, a dot and the
/// lowercased extension, or `:noext:` for a file without extension.
pub open spec fn list_icon_key_spec(kind: FileItemKind, extension: Option<Seq<char>>) -> Seq<char> {
    match kind {
        FileItemKind::Folder => ":folder:"@,
        FileItemKind::Symlink => ":symlink:"@,
        _ => match extension {
            Some(e) => if e.len() > 0 { seq!['.'] + lower_seq(e) } else { ":noext:"@ },
            None => ":noext:"@,
        },
    }
}

/// The view of an optional string.
pub open spec fn opt_string_view(s: Option<String>) -> Option<Seq<char>> {
    match s {
        Some(v) => Some(v@),
        None => None,
    }
}

/// The cache key of an item.
pub open spec fn item_icon_key(item: FileItem) -> Seq<char> {
    list_icon_key_spec(item.kind, opt_string_view(item.extension))
}

/// Extension / kind key for a row.
pub fn list_icon_key(item: &FileItem) -> (key: String)
    ensures
        key@ == item_icon_key(*item),
{
    match item.kind {
        FileItemKind::Folder => string_from(":folder:"),
        FileItemKind::Symlink => string_from(":symlink:"),
        _ => match &item.extension {
            Some(e) => {
                let cs = chars_of(e.as_str());
                if cs.len() > 0 {
                    let lower = lower_chars(cs.as_slice());
                    let mut out: Vec<char> = Vec::new();
                    out.push('.');
                    crate::text::push_chars(&mut out, lower.as_slice());
                    proof {
                        assert(out@ =~= seq!['.'] + lower_seq(e@));
                    }
                    string_of(out.as_slice())
                } else {
                    string_from(":noext:")
                }
            },
            None => string_from(":noext:"),
        },
    }
}

/// Every entry of `v` sorts strictly before every later one.
pub open spec fn strictly_sorted(v: Seq<Seq<char>>) -> bool {
    forall|i: int, j: int| 0 <= i < j < v.len() ==> chars_lt(#[trigger] v[i], #[trigger] v[j])
}

/// Adds `key` to a strictly sorted list of keys unless it is there already.
fn insert_sorted_unique(v: &mut Vec<String>, key: String)
    requires
        strictly_sorted(views(old(v)@)),
    ensures
        strictly_sorted(views(final(v)@)),
        forall|s: Seq<char>| views(final(v)@).contains(s) <==> (views(old(v)@).contains(s) || s == key@),
{
    let ghost old_v = views(v@);
    let mut i: usize = 0;
    while i < v.len() && crate::selection::chars_less_str(v[i].as_str(), key.as_str())
        invariant
            i <= v.len(),
            views(v@) == old_v,
            forall|k: int| 0 <= k < i ==> chars_lt(#[trigger] old_v[k], key@),
        decreases v.len() - i,
    {
        i += 1;
    }
    if i < v.len() && crate::text::str_equal(v[i].as_str(), key.as_str()) {
        proof {
            assert(old_v[i as int] == key@);
            assert forall|s: Seq<char>| views(v@).contains(s) <==> (old_v.contains(s) || s == key@) by {
                if s == key@ {
                    assert(old_v[i as int] == s);
                }
            }
        }
        return;
    }
    let ghost kv = key@;
    v.insert(i, key);
    proof {
        let nv = views(v@);
        assert(nv =~= old_v.insert(i as int, kv));
        if i < old_v.len() {
            assert(!chars_lt(old_v[i as int], kv));
            assert(old_v[i as int] != kv);
            law_chars_order_total(old_v[i as int], kv);
            assert(chars_lt(kv, old_v[i as int]));
        }
        assert forall|a: int, b: int| 0 <= a < b < nv.len() implies chars_lt(#[trigger] nv[a], #[trigger] nv[b]) by {
            if b < i {
                assert(nv[a] == old_v[a] && nv[b] == old_v[b]);
            } else if b == i {
                assert(nv[a] == old_v[a] && nv[b] == kv);
            } else if a < i {
                assert(nv[a] == old_v[a] && nv[b] == old_v[b - 1]);
                assert(chars_lt(old_v[a], kv));
                assert(chars_lt(kv, old_v[i as int]));
                if b - 1 > i {
                    assert(chars_lt(old_v[i as int], old_v[b - 1]));
                    lemma_chars_lt_trans(kv, old_v[i as int], old_v[b - 1]);
                }
                lemma_chars_lt_trans(old_v[a], kv, old_v[b - 1]);
            } else if a == i {
                assert(nv[a] == kv && nv[b] == old_v[b - 1]);
                if b - 1 > i {
                    assert(chars_lt(old_v[i as int], old_v[b - 1]));
                    lemma_chars_lt_trans(kv, old_v[i as int], old_v[b - 1]);
                }
            } else {
                assert(nv[a] == old_v[a - 1] && nv[b] == old_v[b - 1]);
            }
        }
        assert forall|s: Seq<char>| nv.contains(s) <==> (old_v.contains(s) || s == kv) by {
            if nv.contains(s) {
                let k = choose|k: int| 0 <= k < nv.len() && nv[k] == s;
                if k < i {
                    assert(old_v[k] == s);
                } else if k > i {
                    assert(old_v[k - 1] == s);
                }
            }
            if old_v.contains(s) {
                let k = choose|k: int| 0 <= k < old_v.len() && old_v[k] == s;
                if k < i {
                    assert(nv[k] == s);
                } else {
                    assert(nv[k + 1] == s);
                }
            }
            if s == kv {
                assert(nv[i as int] == s);
            }
        }
    }
}

/// The cache keys of a listing's items.
pub open spec fn item_keys(items: Seq<FileItem>) -> Seq<Seq<char>> {
    items.map_values(|it: FileItem| item_icon_key(it))
}

/// Unique keys for all rows in a directory listing, in ascending order (as
/// a `BTreeSet` of the keys yields them).
pub fn list_icon_keys_for_items(items: &[FileItem]) -> (keys: Vec<String>)
    ensures
        strictly_sorted(views(keys@)),
        forall|s: Seq<char>| views(keys@).contains(s) <==> item_keys(items@).contains(s),
{
    let mut keys: Vec<String> = Vec::new();
    let mut i: usize = 0;
    while i < items.len()
        invariant
            i <= items.len(),
            strictly_sorted(views(keys@)),
            forall|s: Seq<char>| views(keys@).contains(s) <==> item_keys(items@.take(i as int)).contains(s),
        decreases items.len() - i,
    {
        let key = list_icon_key(&items[i]);
        let ghost before = views(keys@);
        insert_sorted_unique(&mut keys, key);
        proof {
            let ks = item_keys(items@.take(i + 1));
            let kp = item_keys(items@.take(i as int));
            assert(ks =~= kp.push(item_icon_key(items@[i as int])));
            assert forall|s: Seq<char>| views(keys@).contains(s) <==> ks.contains(s) by {
                if ks.contains(s) {
                    let k = choose|k: int| 0 <= k < ks.len() && ks[k] == s;
                    if k < kp.len() {
                        assert(kp[k] == s);
                    }
                }
                if kp.contains(s) {
                    let k = choose|k: int| 0 <= k < kp.len() && kp[k] == s;
                    assert(ks[k] == s);
                }
                if s == item_icon_key(items@[i as int]) {
                    assert(ks[i as int] == s);
                }
            }
        }
        i += 1;
    }
    proof {
        assert(items@.take(items@.len() as int) =~= items@);
    }
    keys
}

/// Loaded shell-icon images, by key and pixel size.
pub struct ListIconCache {
    entries: Vec<(String, u32, Vec<u8>)>,
}

/// The image stored for a key and size in an entry list.
pub open spec fn entries_map(e: Seq<(String, u32, Vec<u8>)>) -> Map<(Seq<char>, u32), Seq<u8>>
    decreases e.len(),
{
    if e.len() == 0 {
        Map::empty()
    } else {
        entries_map(e.drop_last()).insert((e.last().0@, e.last().1), e.last().2@)
    }
}

/// Whether every image in a cache view has bytes (failed loads are never stored).
pub open spec fn images_non_empty(m: Map<(Seq<char>, u32), Seq<u8>>) -> bool {
    forall|k: (Seq<char>, u32)| #[trigger] m.contains_key(k) ==> m[k].len() > 0
}

impl ListIconCache {
    /// The images in the cache: a key and a pixel size map to PNG bytes.
    pub closed spec fn view(&self) -> Map<(Seq<char>, u32), Seq<u8>> {
        entries_map(self.entries@)
    }

    /// An empty cache.
    pub fn new() -> (c: Self)
        ensures
            c.view() == Map::<(Seq<char>, u32), Seq<u8>>::empty(),
            images_non_empty(c.view()),
    {
        ListIconCache { entries: Vec::new() }
    }

    fn find(&self, key: &str, size_px: u32) -> (r: Option<usize>)
        ensures
            match r {
                Some(i) => i < self.entries.len() && self.entries@[i as int].0@ == key@
                    && self.entries@[i as int].1 == size_px
                    && forall|j: int| i < j < self.entries.len() ==> !(#[trigger] self.entries@[j].0@ == key@ && self.entries@[j].1 == size_px),
                None => forall|j: int| 0 <= j < self.entries.len() ==> !(#[trigger] self.entries@[j].0@ == key@ && self.entries@[j].1 == size_px),
            },
    {
        let mut i: usize = self.entries.len();
        while i > 0
            invariant
                i <= self.entries.len(),
                forall|j: int| i <= j < self.entries.len() ==> !(#[trigger] self.entries@[j].0@ == key@ && self.entries@[j].1 == size_px),
            decreases i,
        {
            let k = i - 1;
            if self.entries[k].1 == size_px && crate::text::str_equal(self.entries[k].0.as_str(), key) {
                return Some(k);
            }
            i = k;
        }
        None
    }

    proof fn lemma_map_absent(e: Seq<(String, u32, Vec<u8>)>, key: Seq<char>, size: u32)
        requires
            forall|j: int| 0 <= j < e.len() ==> !(#[trigger] e[j].0@ == key && e[j].1 == size),
        ensures
            !entries_map(e).contains_key((key, size)),
        decreases e.len(),
    {
        if e.len() > 0 {
            Self::lemma_map_absent(e.drop_last(), key, size);
        }
    }

    proof fn lemma_map_at(e: Seq<(String, u32, Vec<u8>)>, i: int, key: Seq<char>, size: u32)
        requires
            0 <= i < e.len(),
            e[i].0@ == key,
            e[i].1 == size,
            forall|j: int| i < j < e.len() ==> !(#[trigger] e[j].0@ == key && e[j].1 == size),
        ensures
            entries_map(e).contains_key((key, size)),
            entries_map(e)[(key, size)] == e[i].2@,
        decreases e.len(),
    {
        if i < e.len() - 1 {
            Self::lemma_map_at(e.drop_last(), i, key, size);
        }
    }

    /// Cached PNG for a list icon key, if already loaded.
    pub fn list_icon_png_cached(&self, key: &str, size_px: u32) -> (r: Option<Vec<u8>>)
        ensures
            match r {
                Some(png) => self.view().contains_key((key@, size_px)) && png@ == self.view()[(key@, size_px)],
                None => !self.view().contains_key((key@, size_px)),
            },
    {
        match self.find(key, size_px) {
            Some(i) => {
                proof {
                    Self::lemma_map_at(self.entries@, i as int, key@, size_px);
                }
                let png = self.entries[i].2.clone();
                proof {
                    assert(png@ =~= self.entries@[i as int].2@);
                }
                Some(png)
            },
            None => {
                proof {
                    Self::lemma_map_absent(self.entries@, key@, size_px);
                }
                None
            },
        }
    }

    /// Stores a loaded image; an empty image is not stored.
    pub fn store_list_icon(&mut self, key: String, size_px: u32, png: Vec<u8>)
        ensures
            png@.len() == 0 ==> final(self).view() == old(self).view(),
            png@.len() > 0 ==> final(self).view() == old(self).view().insert((key@, size_px), png@),
            images_non_empty(old(self).view()) ==> images_non_empty(final(self).view()),
    {
        if png.len() == 0 {
            return;
        }
        let ghost kv = key@;
        let ghost pv = png@;
        self.entries.push((key, size_px, png));
        proof {
            assert(self.entries@.drop_last() =~= old(self).entries@);
        }
    }

    /// The keys of `keys`, in order, that have no image of size `size_px`
    /// yet: those whose icon still has to be loaded.
    pub fn missing_list_icon_keys(&self, keys: &Vec<String>, size_px: u32) -> (r: Vec<String>)
        ensures
            views(r@) == views(keys@).filter(|k: Seq<char>| !self.view().contains_key((k, size_px))),
    {
        let ghost f = |k: Seq<char>| !self.view().contains_key((k, size_px));
        let mut r: Vec<String> = Vec::new();
        let mut i: usize = 0;
        proof {
            assert(views(keys@).take(0).filter(f) =~= Seq::<Seq<char>>::empty());
            assert(views(r@) =~= Seq::<Seq<char>>::empty());
        }
        while i < keys.len()
            invariant
                i <= keys.len(),
                f == |k: Seq<char>| !self.view().contains_key((k, size_px)),
                views(r@) == views(keys@).take(i as int).filter(f),
            decreases keys.len() - i,
        {
            proof {
                assert(views(keys@).take(i + 1) =~= views(keys@).take(i as int).push(keys@[i as int]@));
                Seq::filter_distributes_over_add(views(keys@).take(i as int), seq![keys@[i as int]@], f);
            }
            let cached = self.list_icon_png_cached(keys[i].as_str(), size_px);
            let ghost before = views(r@);
            if cached.is_none() {
                r.push(keys[i].clone());
                proof {
                    assert(views(r@) =~= before.push(keys@[i as int]@));
                    assert(f(keys@[i as int]@));
                    reveal_with_fuel(Seq::filter, 2);
                    assert(seq![keys@[i as int]@].drop_last() =~= Seq::<Seq<char>>::empty());
                    assert(seq![keys@[i as int]@].filter(f) =~= seq![keys@[i as int]@]);
                }
            } else {
                proof {
                    assert(!f(keys@[i as int]@));
                    reveal_with_fuel(Seq::filter, 2);
                    assert(seq![keys@[i as int]@].drop_last() =~= Seq::<Seq<char>>::empty());
                    assert(seq![keys@[i as int]@].filter(f) =~= Seq::<Seq<char>>::empty());
                }
            }
            proof {
                assert(views(keys@).take(i as int).push(keys@[i as int]@) =~= views(keys@).take(i as int) + seq![keys@[i as int]@]);
                assert(views(keys@).take(i + 1).filter(f) =~= views(r@));
            }
            i += 1;
        }
        proof {
            assert(views(keys@).take(keys.len() as int) =~= views(keys@));
        }
        r
    }

    /// Stores the images loaded for `keys` (`pngs[i]` is what the shell gave
    /// for `keys[i]`, empty when it failed); keys already cached keep their image.
    pub fn warm_list_icons(&mut self, keys: Vec<String>, size_px: u32, pngs: Vec<Vec<u8>>)
        requires
            keys.len() == pngs.len(),
        ensures
            forall|k: (Seq<char>, u32)| #[trigger] old(self).view().contains_key(k) ==>
                final(self).view().contains_key(k) && final(self).view()[k] == old(self).view()[k],
            forall|i: int| 0 <= i < keys.len() && pngs@[i]@.len() > 0 ==>
                final(self).view().contains_key((#[trigger] keys@[i]@, size_px)),
            forall|k: (Seq<char>, u32)| #[trigger] final(self).view().contains_key(k) ==>
                old(self).view().contains_key(k) || (k.1 == size_px && exists|i: int| 0 <= i < keys.len()
                    && keys@[i]@ == k.0 && pngs@[i]@.len() > 0 && final(self).view()[k] == pngs@[i]@),
            images_non_empty(old(self).view()) ==> images_non_empty(final(self).view()),
    {
        let mut i: usize = 0;
        let ghost start = self.view();
        while i < keys.len()
            invariant
                i <= keys.len(),
                keys.len() == pngs.len(),
                forall|k: (Seq<char>, u32)| #[trigger] start.contains_key(k) ==>
                    self.view().contains_key(k) && self.view()[k] == start[k],
                forall|j: int| 0 <= j < i && pngs@[j]@.len() > 0 ==>
                    self.view().contains_key((#[trigger] keys@[j]@, size_px)),
                forall|k: (Seq<char>, u32)| #[trigger] self.view().contains_key(k) ==>
                    start.contains_key(k) || (k.1 == size_px && exists|j: int| 0 <= j < i
                        && keys@[j]@ == k.0 && pngs@[j]@.len() > 0 && self.view()[k] == pngs@[j]@),
            decreases keys.len() - i,
        {
            let cached = self.find(keys[i].as_str(), size_px);
            if cached.is_none() && pngs[i].len() > 0 {
                proof {
                    Self::lemma_map_absent(self.entries@, keys@[i as int]@, size_px);
                }
                let ghost before = self.view();
                let png = pngs[i].clone();
                proof {
                    assert(png@ =~= pngs@[i as int]@);
                }
                self.store_list_icon(keys[i].clone(), size_px, png);
                proof {
                    assert forall|k: (Seq<char>, u32)| #[trigger] self.view().contains_key(k) implies
                        start.contains_key(k) || (k.1 == size_px && exists|j: int| 0 <= j < i + 1
                            && keys@[j]@ == k.0 && pngs@[j]@.len() > 0 && self.view()[k] == pngs@[j]@) by {
                        if k == (keys@[i as int]@, size_px) {
                            assert(keys@[i as int]@ == k.0);
                        } else {
                            assert(before.contains_key(k));
                        }
                    }
                }
            } else if cached.is_some() {
                proof {
                    let c = cached.unwrap();
                    Self::lemma_map_at(self.entries@, c as int, keys@[i as int]@, size_px);
                }
            }
            i += 1;
        }
    }
}


/// Law: the icon of an extension does not depend on its ASCII case: two
/// extensions equal but for case get the same icon, and an extension gets
/// the icon of its lowercase form.
pub proof fn law_extension_icon_ignores_case(a: Seq<char>, b: Seq<char>)
    requires
        lower_seq(a) == lower_seq(b),
    ensures
        extension_icon_spec(lower_seq(a)) == extension_icon_spec(lower_seq(b)),
        extension_icon_spec(lower_seq(a)) == extension_icon_spec(lower_seq(lower_seq(a))),
{
    crate::text::lemma_lower_seq_idempotent(a);
}

} // verus!
