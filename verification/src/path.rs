//! Paths as `/`-separated strings, with the component semantics of
//! `std::path` on Unix: repeated separators and `.` components inside a path
//! are ignored, a leading `/` is the root and a leading `.` the current dir.
use vstd::prelude::*;
use crate::text::{chars_of, chars_equal, string_of, string_of_range};

verus! {

broadcast use crate::text::lemma_chars_deep_view;

/// Splits a character sequence on `/`, keeping empty segments.
pub open spec fn split_segments(s: Seq<char>) -> Seq<Seq<char>>
    decreases s.len(),
{
    if s.len() == 0 {
        seq![Seq::<char>::empty()]
    } else {
        let rest = split_segments(s.drop_last());
        if s.last() == '/' {
            rest.push(Seq::<char>::empty())
        } else {
            rest.update(rest.len() - 1, rest.last().push(s.last()))
        }
    }
}

/// A segment that stands for a named component (not empty, not `.`).
pub open spec fn is_normal_segment(seg: Seq<char>) -> bool {
    seg.len() > 0 && seg != seq!['.']
}

/// The named segments among `segs`, in order.
pub open spec fn keep_normal(segs: Seq<Seq<char>>) -> Seq<Seq<char>>
    decreases segs.len(),
{
    if segs.len() == 0 {
        Seq::empty()
    } else {
        let rest = keep_normal(segs.drop_last());
        if is_normal_segment(segs.last()) {
            rest.push(segs.last())
        } else {
            rest
        }
    }
}

/// The root component, written as `/`.
pub open spec fn root_component() -> Seq<char> {
    seq!['/']
}

/// The current-directory component, written as `.`.
pub open spec fn cur_dir_component() -> Seq<char> {
    seq!['.']
}

/// The components of a path: the root (`/`) if the path is absolute, a leading
/// `.` if the path begins with the segment `.`, then every named segment.
pub open spec fn components(s: Seq<char>) -> Seq<Seq<char>> {
    let segs = split_segments(s);
    if s.len() > 0 && s[0] == '/' {
        seq![root_component()] + keep_normal(segs.drop_first())
    } else if segs[0] == cur_dir_component() {
        seq![cur_dir_component()] + keep_normal(segs.drop_first())
    } else {
        keep_normal(segs)
    }
}

/// Joins parts with `/` between them.
pub open spec fn join_parts(parts: Seq<Seq<char>>) -> Seq<char>
    decreases parts.len(),
{
    if parts.len() == 0 {
        Seq::empty()
    } else if parts.len() == 1 {
        parts[0]
    } else {
        join_parts(parts.drop_last()) + seq!['/'] + parts.last()
    }
}

/// Writes components back as a path string.
pub open spec fn render_components(comps: Seq<Seq<char>>) -> Seq<char> {
    if comps.len() > 0 && comps[0] == root_component() {
        seq!['/'] + join_parts(comps.drop_first())
    } else {
        join_parts(comps)
    }
}

/// Whether two paths are equal as `Path` values (component by component).
pub open spec fn same_path(a: Seq<char>, b: Seq<char>) -> bool {
    components(a) == components(b)
}

/// Whether `prefix` is an initial part of `s`.
pub open spec fn is_prefix_of<A>(prefix: Seq<A>, s: Seq<A>) -> bool {
    prefix.len() <= s.len() && s.take(prefix.len() as int) == prefix
}

/// `Path::starts_with`: the components of `base` begin the components of `path`.
pub open spec fn path_starts_with_spec(path: Seq<char>, base: Seq<char>) -> bool {
    is_prefix_of(components(base), components(path))
}

/// `Path::strip_prefix`, its remainder written out from the remaining components.
pub open spec fn strip_prefix_spec(path: Seq<char>, base: Seq<char>) -> Option<Seq<char>> {
    if path_starts_with_spec(path, base) {
        Some(render_components(components(path).skip(components(base).len() as int)))
    } else {
        None
    }
}

/// `Path::parent`: every component but the last, unless the path is empty or the root.
pub open spec fn parent_spec(path: Seq<char>) -> Option<Seq<char>> {
    let comps = components(path);
    if comps.len() == 0 || comps.last() == root_component() {
        None
    } else {
        Some(render_components(comps.drop_last()))
    }
}

/// `Path::file_name`: the last component when it is a name (not root, `.` or `..`).
pub open spec fn file_name_spec(path: Seq<char>) -> Option<Seq<char>> {
    let comps = components(path);
    if comps.len() == 0 || comps.last() == root_component() || comps.last() == cur_dir_component()
        || comps.last() == seq!['.', '.'] {
        None
    } else {
        Some(comps.last())
    }
}

/// Whether `name` has a `.` at index `i` and none after it.
pub open spec fn is_last_dot(name: Seq<char>, i: int) -> bool {
    0 <= i < name.len() && name[i] == '.' && forall|j: int| i < j < name.len() ==> name[j] != '.'
}

/// Whether `name` holds a `.` at all.
pub open spec fn has_dot(name: Seq<char>) -> bool {
    exists|i: int| 0 <= i < name.len() && name[i] == '.'
}

/// The part of a file name after its last `.`, if a non-empty part precedes
/// that dot (so `.bashrc` and `name` have none, `name.` has an empty one).
pub open spec fn name_extension(name: Seq<char>, dot: int) -> Option<Seq<char>> {
    if dot <= 0 {
        None
    } else {
        Some(name.skip(dot + 1))
    }
}

/// `Path::extension`.
pub open spec fn extension_spec(path: Seq<char>) -> Option<Seq<char>> {
    match file_name_spec(path) {
        None => None,
        Some(name) => if has_dot(name) {
            name_extension(name, choose|i: int| is_last_dot(name, i))
        } else {
            None
        },
    }
}

/// `Path::file_stem`.
pub open spec fn file_stem_spec(path: Seq<char>) -> Option<Seq<char>> {
    match file_name_spec(path) {
        None => None,
        Some(name) => if has_dot(name) {
            let dot = choose|i: int| is_last_dot(name, i);
            if dot <= 0 {
                Some(name)
            } else {
                Some(name.take(dot))
            }
        } else {
            Some(name)
        },
    }
}

/// `PathBuf::join` on Unix: an absolute `rel` replaces `base`; otherwise a `/`
/// is put between them unless `base` is empty or already ends with one.
pub open spec fn join_spec(base: Seq<char>, rel: Seq<char>) -> Seq<char> {
    if rel.len() > 0 && rel[0] == '/' {
        rel
    } else if base.len() > 0 && base.last() != '/' {
        base + seq!['/'] + rel
    } else {
        base + rel
    }
}

proof fn lemma_split_nonempty(s: Seq<char>)
    ensures
        split_segments(s).len() >= 1,
    decreases s.len(),
{
    if s.len() > 0 {
        lemma_split_nonempty(s.drop_last());
    }
}

/// The segments of a character sequence split on `/`.
fn split_on_slash(cs: &[char]) -> (segs: Vec<Vec<char>>)
    ensures
        segs.deep_view() == split_segments(cs@),
{
    let mut segs: Vec<Vec<char>> = Vec::new();
    let mut cur: Vec<char> = Vec::new();
    let mut i: usize = 0;
    proof {
        assert(cs@.take(0) =~= Seq::<char>::empty());
        assert(segs.deep_view().push(cur@) =~= seq![Seq::<char>::empty()]);
    }
    while i < cs.len()
        invariant
            i <= cs.len(),
            split_segments(cs@.take(i as int)) == segs.deep_view().push(cur@),
        decreases cs.len() - i,
    {
        let ghost before = segs.deep_view();
        let ghost cur_before = cur@;
        proof {
            assert(cs@.take(i + 1).drop_last() =~= cs@.take(i as int));
            assert(cs@.take(i + 1).last() == cs@[i as int]);
        }
        if cs[i] == '/' {
            segs.push(cur);
            cur = Vec::new();
            proof {
                assert(segs.deep_view() =~= before.push(cur_before));
                assert(segs.deep_view().push(cur@) =~= before.push(cur_before).push(Seq::<char>::empty()));
            }
        } else {
            cur.push(cs[i]);
            proof {
                let r = before.push(cur_before);
                assert(segs.deep_view() =~= before);
                assert(segs.deep_view().push(cur@) =~= r.update(r.len() - 1, r.last().push(cs@[i as int])));
            }
        }
        i += 1;
    }
    let ghost before = segs.deep_view();
    let ghost last = cur@;
    segs.push(cur);
    proof {
        assert(segs.deep_view() =~= before.push(last));
        assert(cs@.take(cs@.len() as int) =~= cs@);
    }
    segs
}

/// Whether a segment is exactly `.`.
fn is_dot_seg(seg: &[char]) -> (r: bool)
    ensures
        r == (seg@ == seq!['.']),
{
    let r = seg.len() == 1 && seg[0] == '.';
    proof {
        if seg@.len() == 1 && seg@[0] == '.' {
            assert(seg@ =~= seq!['.']);
        }
    }
    r
}

/// Whether a segment is exactly `..`.
fn is_dotdot_seg(seg: &[char]) -> (r: bool)
    ensures
        r == (seg@ == seq!['.', '.']),
{
    let r = seg.len() == 2 && seg[0] == '.' && seg[1] == '.';
    proof {
        if seg@.len() == 2 && seg@[0] == '.' && seg@[1] == '.' {
            assert(seg@ =~= seq!['.', '.']);
        }
    }
    r
}

/// Whether a component is the root `/`.
fn is_root_seg(seg: &[char]) -> (r: bool)
    ensures
        r == (seg@ == seq!['/']),
{
    let r = seg.len() == 1 && seg[0] == '/';
    proof {
        if seg@.len() == 1 && seg@[0] == '/' {
            assert(seg@ =~= seq!['/']);
        }
    }
    r
}

/// A one-character vector.
fn single(c: char) -> (v: Vec<char>)
    ensures
        v@ == seq![c],
{
    let mut v = Vec::new();
    v.push(c);
    proof {
        assert(v@ =~= seq![c]);
    }
    v
}

/// The components of a path (see `components`).
pub fn path_components(path: &str) -> (comps: Vec<Vec<char>>)
    ensures
        comps.deep_view() == components(path@),
{
    let cs = chars_of(path);
    let segs = split_on_slash(cs.as_slice());
    let ghost dv = segs.deep_view();
    proof {
        lemma_split_nonempty(cs@);
    }
    let mut out: Vec<Vec<char>> = Vec::new();
    let from: usize;
    let ghost header: Seq<Seq<char>>;
    if cs.len() > 0 && cs[0] == '/' {
        out.push(single('/'));
        from = 1;
        proof {
            header = seq![root_component()];
            assert(out.deep_view() =~= header);
        }
    } else if is_dot_seg(segs[0].as_slice()) {
        out.push(single('.'));
        from = 1;
        proof {
            header = seq![cur_dir_component()];
            assert(dv[0] == segs@[0]@);
            assert(out.deep_view() =~= header);
        }
    } else {
        from = 0;
        proof {
            header = Seq::empty();
            assert(out.deep_view() =~= header);
        }
    }
    let mut i: usize = from;
    proof {
        assert(dv.subrange(from as int, from as int) =~= Seq::<Seq<char>>::empty());
        assert(out.deep_view() =~= header + keep_normal(dv.subrange(from as int, i as int)));
    }
    while i < segs.len()
        invariant
            from <= i <= segs.len(),
            dv == segs.deep_view(),
            out.deep_view() == header + keep_normal(dv.subrange(from as int, i as int)),
        decreases segs.len() - i,
    {
        let ghost before = out.deep_view();
        proof {
            assert(dv.subrange(from as int, i + 1).drop_last() =~= dv.subrange(from as int, i as int));
            assert(dv.subrange(from as int, i + 1).last() == dv[i as int]);
            assert(dv[i as int] == segs@[i as int]@);
        }
        let seg = &segs[i];
        if seg.len() > 0 && !is_dot_seg(seg.as_slice()) {
            out.push(seg.clone());
            proof {
                assert(out.deep_view() =~= before.push(dv[i as int]));
                assert(seq!['.'] =~= seq!['.']);
            }
        } else {
            proof {
                assert(!is_normal_segment(dv[i as int]));
            }
        }
        i += 1;
    }
    proof {
        assert(dv.subrange(from as int, dv.len() as int) =~= if from == 1 { dv.drop_first() } else { dv });
    }
    out
}

/// Whether two component lists are equal.
fn components_equal(a: &Vec<Vec<char>>, b: &Vec<Vec<char>>) -> (r: bool)
    ensures
        r == (a.deep_view() == b.deep_view()),
{
    if a.len() != b.len() {
        proof {
            assert(a.deep_view().len() != b.deep_view().len());
        }
        return false;
    }
    let mut i: usize = 0;
    while i < a.len()
        invariant
            i <= a.len(),
            a.len() == b.len(),
            forall|j: int| 0 <= j < i ==> a.deep_view()[j] == b.deep_view()[j],
        decreases a.len() - i,
    {
        if !chars_equal(a[i].as_slice(), b[i].as_slice()) {
            proof {
                assert(a.deep_view()[i as int] != b.deep_view()[i as int]);
            }
            return false;
        }
        i += 1;
    }
    proof {
        assert(a.deep_view() =~= b.deep_view());
    }
    true
}

/// Whether the first `n` components of `a` and `b` are equal.
fn components_prefix(base: &Vec<Vec<char>>, path: &Vec<Vec<char>>) -> (r: bool)
    ensures
        r == is_prefix_of(base.deep_view(), path.deep_view()),
{
    if base.len() > path.len() {
        return false;
    }
    let mut i: usize = 0;
    while i < base.len()
        invariant
            i <= base.len(),
            base.len() <= path.len(),
            forall|j: int| 0 <= j < i ==> base.deep_view()[j] == path.deep_view()[j],
        decreases base.len() - i,
    {
        if !chars_equal(base[i].as_slice(), path[i].as_slice()) {
            proof {
                assert(path.deep_view().take(base.len() as int)[i as int] != base.deep_view()[i as int]);
            }
            return false;
        }
        i += 1;
    }
    proof {
        assert(path.deep_view().take(base.len() as int) =~= base.deep_view());
    }
    true
}

/// Joins the characters of `parts[from..]` with `/`.
fn join_from(parts: &Vec<Vec<char>>, from: usize) -> (out: Vec<char>)
    requires
        from <= parts.len(),
    ensures
        out@ == join_parts(parts.deep_view().skip(from as int)),
{
    let ghost dv = parts.deep_view();
    let mut out: Vec<char> = Vec::new();
    let mut i: usize = from;
    proof {
        assert(dv.subrange(from as int, from as int) =~= Seq::<Seq<char>>::empty());
    }
    while i < parts.len()
        invariant
            from <= i <= parts.len(),
            dv == parts.deep_view(),
            out@ == join_parts(dv.subrange(from as int, i as int)),
        decreases parts.len() - i,
    {
        let ghost before = out@;
        let ghost sub = dv.subrange(from as int, i + 1);
        proof {
            assert(sub.drop_last() =~= dv.subrange(from as int, i as int));
            assert(sub.last() == dv[i as int]);
            assert(dv[i as int] == parts@[i as int]@);
        }
        if i > from {
            out.push('/');
        }
        let part = &parts[i];
        let mut k: usize = 0;
        while k < part.len()
            invariant
                k <= part.len(),
                out@ == (if i > from { before + seq!['/'] } else { before }) + part@.take(k as int),
            decreases part.len() - k,
        {
            out.push(part[k]);
            proof {
                assert(part@.take(k + 1) =~= part@.take(k as int).push(part@[k as int]));
            }
            k += 1;
        }
        proof {
            assert(part@.take(part@.len() as int) =~= part@);
            if i == from {
                assert(sub.len() == 1);
                assert(before =~= Seq::<char>::empty());
                assert(out@ =~= sub[0]);
            } else {
                assert(out@ =~= join_parts(sub.drop_last()) + seq!['/'] + sub.last());
            }
        }
        i += 1;
    }
    proof {
        assert(dv.subrange(from as int, dv.len() as int) =~= dv.skip(from as int));
    }
    out
}

/// Writes `comps[from..]` as a path string.
fn render_from(comps: &Vec<Vec<char>>, from: usize) -> (out: Vec<char>)
    requires
        from <= comps.len(),
    ensures
        out@ == render_components(comps.deep_view().skip(from as int)),
{
    let ghost rest = comps.deep_view().skip(from as int);
    if from < comps.len() && is_root_seg(comps[from].as_slice()) {
        proof {
            assert(comps.deep_view()[from as int] == comps@[from as int]@);
            assert(rest[0] == root_component());
            assert(rest.drop_first() =~= comps.deep_view().skip(from + 1));
        }
        let tail = join_from(comps, from + 1);
        let mut out: Vec<char> = single('/');
        let mut k: usize = 0;
        while k < tail.len()
            invariant
                k <= tail.len(),
                out@ == seq!['/'] + tail@.take(k as int),
            decreases tail.len() - k,
        {
            out.push(tail[k]);
            proof {
                assert(tail@.take(k + 1) =~= tail@.take(k as int).push(tail@[k as int]));
            }
            k += 1;
        }
        proof {
            assert(tail@.take(tail@.len() as int) =~= tail@);
        }
        out
    } else {
        proof {
            if from < comps.len() {
                assert(comps.deep_view()[from as int] == comps@[from as int]@);
                assert(rest[0] == comps.deep_view()[from as int]);
            }
        }
        join_from(comps, from)
    }
}

/// `Path == Path`: whether two paths have the same components.
pub fn paths_equal(a: &str, b: &str) -> (r: bool)
    ensures
        r == same_path(a@, b@),
{
    let ca = path_components(a);
    let cb = path_components(b);
    components_equal(&ca, &cb)
}

/// `Path::starts_with`.
pub fn path_starts_with(path: &str, base: &str) -> (r: bool)
    ensures
        r == path_starts_with_spec(path@, base@),
{
    let cp = path_components(path);
    let cb = path_components(base);
    components_prefix(&cb, &cp)
}

/// `Path::strip_prefix`: the rest of `path` after the components of `base`.
pub fn path_strip_prefix(path: &str, base: &str) -> (r: Option<String>)
    ensures
        r.deep_view() == strip_prefix_spec(path@, base@),
{
    let cp = path_components(path);
    let cb = path_components(base);
    if components_prefix(&cb, &cp) {
        let rest = render_from(&cp, cb.len());
        Some(string_of(rest.as_slice()))
    } else {
        None
    }
}

/// `Path::parent`.
pub fn path_parent(path: &str) -> (r: Option<String>)
    ensures
        r.deep_view() == parent_spec(path@),
{
    let mut cp = path_components(path);
    let n = cp.len();
    if n == 0 {
        return None;
    }
    if is_root_seg(cp[n - 1].as_slice()) {
        proof {
            assert(cp.deep_view().last() == cp@[n - 1]@);
        }
        return None;
    }
    let ghost full = cp.deep_view();
    proof {
        assert(full.last() == cp@[n - 1]@);
    }
    cp.pop();
    proof {
        assert(cp.deep_view() =~= full.drop_last());
        assert(cp.deep_view().skip(0) =~= cp.deep_view());
    }
    let rest = render_from(&cp, 0);
    Some(string_of(rest.as_slice()))
}

/// `Path::file_name`.
pub fn path_file_name(path: &str) -> (r: Option<String>)
    ensures
        r.deep_view() == file_name_spec(path@),
{
    let cp = path_components(path);
    let n = cp.len();
    if n == 0 {
        return None;
    }
    let last = &cp[n - 1];
    proof {
        assert(cp.deep_view().last() == cp@[n - 1]@);
    }
    if is_root_seg(last.as_slice()) || is_dot_seg(last.as_slice())
        || is_dotdot_seg(last.as_slice()) {
        return None;
    }
    Some(string_of(last.as_slice()))
}

/// The index of the last `.` in a name, if any.
fn last_dot(name: &[char]) -> (r: Option<usize>)
    ensures
        match r {
            Some(i) => is_last_dot(name@, i as int),
            None => !has_dot(name@),
        },
{
    let mut i: usize = name.len();
    while i > 0
        invariant
            i <= name.len(),
            forall|j: int| i <= j < name.len() ==> name@[j] != '.',
        decreases i,
    {
        if name[i - 1] == '.' {
            return Some(i - 1);
        }
        i -= 1;
    }
    None
}

proof fn lemma_last_dot_unique(name: Seq<char>, i: int, k: int)
    requires
        is_last_dot(name, i),
        is_last_dot(name, k),
    ensures
        i == k,
{
}

/// `Path::extension`.
pub fn path_extension(path: &str) -> (r: Option<String>)
    ensures
        r.deep_view() == extension_spec(path@),
{
    let name = match path_file_name(path) {
        None => return None,
        Some(n) => n,
    };
    let cs = chars_of(name.as_str());
    match last_dot(cs.as_slice()) {
        None => None,
        Some(dot) => {
            proof {
                let c = choose|i: int| is_last_dot(cs@, i);
                lemma_last_dot_unique(cs@, dot as int, c);
            }
            assert(dot < cs.len());
            if dot == 0 {
                None
            } else {
                let out = string_of_range(cs.as_slice(), dot + 1, cs.len());
                proof {
                    assert(cs@.subrange(dot + 1, cs@.len() as int) =~= cs@.skip(dot + 1));
                }
                Some(out)
            }
        },
    }
}

/// `Path::file_stem`.
pub fn path_file_stem(path: &str) -> (r: Option<String>)
    ensures
        r.deep_view() == file_stem_spec(path@),
{
    let name = match path_file_name(path) {
        None => return None,
        Some(n) => n,
    };
    let cs = chars_of(name.as_str());
    match last_dot(cs.as_slice()) {
        None => Some(name),
        Some(dot) => {
            proof {
                let c = choose|i: int| is_last_dot(cs@, i);
                lemma_last_dot_unique(cs@, dot as int, c);
            }
            if dot == 0 {
                Some(name)
            } else {
                Some(string_of_range(cs.as_slice(), 0, dot))
            }
        },
    }
}

/// `PathBuf::join` (see `join_spec`).
pub fn path_join(base: &str, rel: &str) -> (r: String)
    ensures
        r@ == join_spec(base@, rel@),
{
    let b = chars_of(base);
    let t = chars_of(rel);
    let mut out: Vec<char>;
    if t.len() > 0 && t[0] == '/' {
        return string_of(t.as_slice());
    }
    out = b.clone();
    if b.len() > 0 && b[b.len() - 1] != '/' {
        out.push('/');
    }
    let ghost start = out@;
    let mut k: usize = 0;
    while k < t.len()
        invariant
            k <= t.len(),
            out@ == start + t@.take(k as int),
        decreases t.len() - k,
    {
        out.push(t[k]);
        proof {
            assert(t@.take(k + 1) =~= t@.take(k as int).push(t@[k as int]));
        }
        k += 1;
    }
    proof {
        assert(t@.take(t@.len() as int) =~= t@);
        assert(b@.last() == b@[b@.len() - 1]);
    }
    string_of(out.as_slice())
}

} // verus!

verus! {

/// Where `path` goes when `from` is renamed to `to`: `to` itself when `path`
/// is `from`, `to` joined with the rest when `path` lies under `from`.
pub open spec fn renamed_path_spec(path: Seq<char>, from: Seq<char>, to: Seq<char>) -> Option<Seq<char>> {
    if same_path(path, from) {
        Some(to)
    } else {
        match strip_prefix_spec(path, from) {
            Some(rest) => Some(join_spec(to, rest)),
            None => None,
        }
    }
}

/// The new location of `path` after renaming `from` to `to`, if it moves.
pub fn renamed_path(path: &str, from: &str, to: &str) -> (r: Option<String>)
    ensures
        r.deep_view() == renamed_path_spec(path@, from@, to@),
{
    if paths_equal(path, from) {
        return Some(crate::text::string_from(to));
    }
    match path_strip_prefix(path, from) {
        Some(rest) => Some(path_join(to, rest.as_str())),
        None => None,
    }
}

/// A path list entry after renaming `from` to `to`.
pub open spec fn rewritten_entry(path: Seq<char>, from: Seq<char>, to: Seq<char>) -> Seq<char> {
    match renamed_path_spec(path, from, to) {
        Some(p) => p,
        None => path,
    }
}

/// Rewrites every entry of `paths` that is `from` or lies under it.
pub fn rewrite_path_list(paths: &mut Vec<String>, from: &str, to: &str)
    ensures
        final(paths).len() == old(paths).len(),
        forall|i: int| 0 <= i < old(paths).len() ==>
            #[trigger] final(paths)@[i]@ == rewritten_entry(old(paths)@[i]@, from@, to@),
{
    let ghost orig = paths@;
    let mut i: usize = 0;
    while i < paths.len()
        invariant
            i <= paths.len(),
            paths.len() == orig.len(),
            forall|j: int| 0 <= j < i ==> #[trigger] paths@[j]@ == rewritten_entry(orig[j]@, from@, to@),
            forall|j: int| i <= j < orig.len() ==> #[trigger] paths@[j] == orig[j],
        decreases orig.len() - i,
    {
        if let Some(updated) = renamed_path(paths[i].as_str(), from, to) {
            paths.set(i, updated);
        }
        i += 1;
    }
}

/// Law: renaming `from` to `to` sends `from` itself to `to`.
pub proof fn law_renamed_path_of_source(from: Seq<char>, to: Seq<char>)
    ensures
        renamed_path_spec(from, from, to) == Some(to),
{
}

/// Law: a path that neither is nor lies under `from` does not move.
pub proof fn law_renamed_path_elsewhere(path: Seq<char>, from: Seq<char>, to: Seq<char>)
    requires
        !path_starts_with_spec(path, from),
    ensures
        renamed_path_spec(path, from, to) == None::<Seq<char>>,
{
    if same_path(path, from) {
        assert(components(path).take(components(from).len() as int) =~= components(from));
    }
}

} // verus!

verus! {

/// A component that is a plain name: not empty, not `.`, without `/`.
pub open spec fn normal_comp(x: Seq<char>) -> bool {
    x.len() > 0 && x != seq!['.'] && forall|j: int| 0 <= j < x.len() ==> x[j] != '/'
}

/// A list of components as `components` produces them: an optional leading
/// root or `.`, then plain names.
pub open spec fn valid_comps(c: Seq<Seq<char>>) -> bool {
    c.len() == 0 || ((c[0] == root_component() || c[0] == cur_dir_component() || normal_comp(c[0]))
        && forall|i: int| 1 <= i < c.len() ==> normal_comp(#[trigger] c[i]))
}

proof fn lemma_split_no_slash(s: Seq<char>)
    ensures
        forall|i: int, j: int| 0 <= i < split_segments(s).len() && 0 <= j < split_segments(s)[i].len()
            ==> split_segments(s)[i][j] != '/',
    decreases s.len(),
{
    if s.len() > 0 {
        lemma_split_no_slash(s.drop_last());
        lemma_split_nonempty(s.drop_last());
    }
}

proof fn lemma_keep_normal_normal(segs: Seq<Seq<char>>)
    requires
        forall|i: int, j: int| 0 <= i < segs.len() && 0 <= j < segs[i].len() ==> segs[i][j] != '/',
    ensures
        forall|i: int| 0 <= i < keep_normal(segs).len() ==> normal_comp(#[trigger] keep_normal(segs)[i]),
    decreases segs.len(),
{
    if segs.len() > 0 {
        lemma_keep_normal_normal(segs.drop_last());
        let r = keep_normal(segs.drop_last());
        if is_normal_segment(segs.last()) {
            assert forall|i: int| 0 <= i < keep_normal(segs).len() implies normal_comp(#[trigger] keep_normal(segs)[i]) by {
                if i < r.len() {
                    assert(keep_normal(segs)[i] == r[i]);
                } else {
                    assert(keep_normal(segs)[i] == segs.last());
                    assert(segs.last() == segs[segs.len() - 1]);
                }
            }
        }
    }
}

/// Every path's components form a valid component list.
pub proof fn lemma_components_valid(s: Seq<char>)
    ensures
        valid_comps(components(s)),
{
    let segs = split_segments(s);
    lemma_split_nonempty(s);
    lemma_split_no_slash(s);
    assert forall|i: int, j: int| 0 <= i < segs.drop_first().len() && 0 <= j < segs.drop_first()[i].len()
        implies segs.drop_first()[i][j] != '/' by {
        assert(segs.drop_first()[i] == segs[i + 1]);
    }
    lemma_keep_normal_normal(segs.drop_first());
    lemma_keep_normal_normal(segs);
    let c = components(s);
    if s.len() > 0 && s[0] == '/' {
        assert forall|i: int| 1 <= i < c.len() implies normal_comp(#[trigger] c[i]) by {
            assert(c[i] == keep_normal(segs.drop_first())[i - 1]);
        }
    } else if segs[0] == cur_dir_component() {
        assert forall|i: int| 1 <= i < c.len() implies normal_comp(#[trigger] c[i]) by {
            assert(c[i] == keep_normal(segs.drop_first())[i - 1]);
        }
    } else {
        if c.len() > 0 {
            assert(normal_comp(c[0]));
        }
    }
}

/// Splitting at a `/` splits the two sides apart.
proof fn lemma_split_concat(s: Seq<char>, t: Seq<char>)
    ensures
        split_segments(s + seq!['/'] + t) == split_segments(s) + split_segments(t),
    decreases t.len(),
{
    if t.len() == 0 {
        assert(s + seq!['/'] + t =~= s.push('/'));
        assert((s.push('/')).drop_last() =~= s);
        assert(split_segments(s) + split_segments(t) =~= split_segments(s).push(Seq::empty()));
    } else {
        let u = t.drop_last();
        lemma_split_concat(s, u);
        lemma_split_nonempty(u);
        let whole = s + seq!['/'] + t;
        assert(whole.drop_last() =~= s + seq!['/'] + u);
        assert(whole.last() == t.last());
        let a = split_segments(s);
        let b = split_segments(u);
        if t.last() == '/' {
            assert(split_segments(whole) =~= (a + b).push(Seq::empty()));
            assert(split_segments(t) =~= b.push(Seq::empty()));
            assert((a + b).push(Seq::empty()) =~= a + b.push(Seq::empty()));
        } else {
            let r = a + b;
            assert(split_segments(t) =~= b.update(b.len() - 1, b.last().push(t.last())));
            assert(r.update(r.len() - 1, r.last().push(t.last())) =~= a + b.update(b.len() - 1, b.last().push(t.last())));
        }
    }
}

proof fn lemma_split_plain(x: Seq<char>)
    requires
        forall|j: int| 0 <= j < x.len() ==> x[j] != '/',
    ensures
        split_segments(x) == seq![x],
    decreases x.len(),
{
    if x.len() > 0 {
        lemma_split_plain(x.drop_last());
        assert(x.drop_last().push(x.last()) =~= x);
    } else {
        assert(x =~= Seq::<char>::empty());
    }
}

proof fn lemma_split_join(c: Seq<Seq<char>>)
    requires
        c.len() > 0,
        forall|i: int| 0 <= i < c.len() ==> normal_comp(#[trigger] c[i]),
    ensures
        split_segments(join_parts(c)) == c,
    decreases c.len(),
{
    if c.len() == 1 {
        lemma_split_plain(c[0]);
        assert(seq![c[0]] =~= c);
    } else {
        let d = c.drop_last();
        assert forall|i: int| 0 <= i < d.len() implies normal_comp(#[trigger] d[i]) by {
            assert(d[i] == c[i]);
        }
        lemma_split_join(d);
        lemma_split_concat(join_parts(d), c.last());
        assert(normal_comp(c[c.len() - 1]));
        lemma_split_plain(c.last());
        assert(d + seq![c.last()] =~= c);
    }
}

proof fn lemma_keep_all_normal(c: Seq<Seq<char>>)
    requires
        forall|i: int| 0 <= i < c.len() ==> normal_comp(#[trigger] c[i]),
    ensures
        keep_normal(c) == c,
    decreases c.len(),
{
    if c.len() > 0 {
        let d = c.drop_last();
        assert forall|i: int| 0 <= i < d.len() implies normal_comp(#[trigger] d[i]) by {
            assert(d[i] == c[i]);
        }
        lemma_keep_all_normal(d);
        assert(normal_comp(c[c.len() - 1]));
        assert(d.push(c.last()) =~= c);
    }
}

proof fn lemma_keep_normal_blank()
    ensures
        keep_normal(seq![Seq::<char>::empty()]) == Seq::<Seq<char>>::empty(),
{
    assert(seq![Seq::<char>::empty()].drop_last() =~= Seq::<Seq<char>>::empty());
    assert(seq![Seq::<char>::empty()].last() == Seq::<char>::empty());
    assert(!is_normal_segment(Seq::<char>::empty()));
    assert(keep_normal(Seq::<Seq<char>>::empty()) == Seq::<Seq<char>>::empty());
    let x = seq![Seq::<char>::empty()];
    assert(x.len() == 1);
    assert(keep_normal(x) == keep_normal(x.drop_last()));
}

proof fn lemma_join_cons(a: Seq<char>, rest: Seq<Seq<char>>)
    requires
        rest.len() > 0,
    ensures
        join_parts(seq![a] + rest) == a + seq!['/'] + join_parts(rest),
    decreases rest.len(),
{
    let c = seq![a] + rest;
    if rest.len() == 1 {
        assert(c.drop_last() =~= seq![a]);
        assert(c.len() == 2);
        assert(c.last() == rest[0]);
        assert(join_parts(c.drop_last()) == a);
        assert(join_parts(rest) == rest[0]);
    } else {
        lemma_join_cons(a, rest.drop_last());
        assert(c.drop_last() =~= seq![a] + rest.drop_last());
        assert(join_parts(rest) == join_parts(rest.drop_last()) + seq!['/'] + rest.last());
    }
}

proof fn lemma_join_first(c: Seq<Seq<char>>)
    requires
        c.len() > 0,
        c[0].len() > 0,
    ensures
        join_parts(c).len() > 0,
        join_parts(c)[0] == c[0][0],
    decreases c.len(),
{
    if c.len() > 1 {
        lemma_join_first(c.drop_last());
    }
}

/// Writing components out and reading them back gives the same components.
pub proof fn lemma_components_render(c: Seq<Seq<char>>)
    requires
        valid_comps(c),
    ensures
        components(render_components(c)) == c,
{
    if c.len() == 0 {
        assert(render_components(c) =~= Seq::<char>::empty());
        assert(split_segments(Seq::<char>::empty()) =~= seq![Seq::<char>::empty()]);
        lemma_keep_normal_blank();
    } else if c[0] == root_component() {
        let rest = c.drop_first();
        let s = render_components(c);
        assert(s == seq!['/'] + join_parts(rest));
        assert(s =~= Seq::<char>::empty() + seq!['/'] + join_parts(rest));
        lemma_split_concat(Seq::<char>::empty(), join_parts(rest));
        assert(split_segments(Seq::<char>::empty()) =~= seq![Seq::<char>::empty()]);
        assert forall|i: int| 0 <= i < rest.len() implies normal_comp(#[trigger] rest[i]) by {
            assert(rest[i] == c[i + 1]);
        }
        if rest.len() == 0 {
            assert(join_parts(rest) =~= Seq::<char>::empty());
            assert(split_segments(join_parts(rest)) =~= seq![Seq::<char>::empty()]);
            lemma_keep_normal_blank();
            assert(seq![root_component()] =~= c);
        } else {
            lemma_split_join(rest);
            lemma_keep_all_normal(rest);
        }
        let segs = split_segments(s);
        assert(segs.drop_first() =~= split_segments(join_parts(rest)));
        assert(seq![root_component()] + rest =~= c);
    } else if c[0] == cur_dir_component() {
        let rest = c.drop_first();
        assert forall|i: int| 0 <= i < rest.len() implies normal_comp(#[trigger] rest[i]) by {
            assert(rest[i] == c[i + 1]);
        }
        let s = render_components(c);
        if rest.len() == 0 {
            assert(c =~= seq![seq!['.']]);
            assert(s == seq!['.']);
            assert(s.drop_last() =~= Seq::<char>::empty());
            assert(split_segments(s.drop_last()) =~= seq![Seq::<char>::empty()]);
            assert(split_segments(s) =~= seq![seq!['.']]);
            assert(keep_normal(Seq::<Seq<char>>::empty()) =~= Seq::<Seq<char>>::empty());
            assert(seq![cur_dir_component()] + Seq::<Seq<char>>::empty() =~= c);
        } else {
            assert(seq![c[0]] + rest =~= c);
            lemma_join_cons(c[0], rest);
            lemma_split_concat(seq!['.'], join_parts(rest));
            lemma_split_plain(seq!['.']);
            lemma_split_join(rest);
            lemma_keep_all_normal(rest);
            let segs = split_segments(s);
            assert(segs =~= seq![seq!['.']] + rest);
            assert(segs.drop_first() =~= rest);
            assert(s[0] == '.');
        }
    } else {
        assert(normal_comp(c[0]));
        assert forall|i: int| 0 <= i < c.len() implies normal_comp(#[trigger] c[i]) by {
        }
        lemma_split_join(c);
        lemma_keep_all_normal(c);
        lemma_join_first(c);
        let s = render_components(c);
        assert(s == join_parts(c));
        assert(s[0] != '/');
    }
}

/// Law: a parent has exactly the components of its child but the last.
pub proof fn law_parent_drops_last_component(path: Seq<char>)
    requires
        parent_spec(path) is Some,
    ensures
        components(parent_spec(path)->0) == components(path).drop_last(),
{
    let c = components(path);
    lemma_components_valid(path);
    let d = c.drop_last();
    assert(valid_comps(d)) by {
        if d.len() > 0 {
            assert(d[0] == c[0]);
            assert forall|i: int| 1 <= i < d.len() implies normal_comp(#[trigger] d[i]) by {
                assert(d[i] == c[i]);
            }
        }
    }
    lemma_components_render(d);
}

/// Law: a path lies under (starts with) each of its parents.
pub proof fn law_path_starts_with_parent(path: Seq<char>)
    requires
        parent_spec(path) is Some,
    ensures
        path_starts_with_spec(path, parent_spec(path)->0),
{
    law_parent_drops_last_component(path);
    let c = components(path);
    assert(c.take(c.drop_last().len() as int) =~= c.drop_last());
}


/// Keeping the named segments of two lists one after the other keeps those
/// of each.
proof fn lemma_keep_normal_concat(a: Seq<Seq<char>>, b: Seq<Seq<char>>)
    ensures
        keep_normal(a + b) == keep_normal(a) + keep_normal(b),
    decreases b.len(),
{
    if b.len() == 0 {
        assert(a + b =~= a);
        assert(keep_normal(a) + keep_normal(b) =~= keep_normal(a));
    } else {
        lemma_keep_normal_concat(a, b.drop_last());
        assert((a + b).drop_last() =~= a + b.drop_last());
        assert((a + b).last() == b.last());
        if is_normal_segment(b.last()) {
            assert(keep_normal(a) + keep_normal(b) =~= (keep_normal(a) + keep_normal(b.drop_last())).push(b.last()));
        } else {
            assert(keep_normal(a) + keep_normal(b) =~= keep_normal(a) + keep_normal(b.drop_last()));
        }
    }
}

/// An absolute path joined with a relative path made of named components
/// has the components of the first followed by those names.
proof fn lemma_components_join_absolute(t: Seq<char>, suffix: Seq<Seq<char>>)
    requires
        t.len() > 0,
        t[0] == '/',
        suffix.len() > 0,
        forall|i: int| 0 <= i < suffix.len() ==> normal_comp(#[trigger] suffix[i]),
    ensures
        components(join_spec(t, join_parts(suffix))) == components(t) + suffix,
{
    let rest = join_parts(suffix);
    lemma_join_first(suffix);
    assert(normal_comp(suffix[0]));
    assert(rest[0] != '/');
    lemma_split_join(suffix);
    lemma_keep_all_normal(suffix);
    let t0 = if t.last() == '/' { t.drop_last() } else { t };
    let q = join_spec(t, rest);
    assert(q =~= t0 + seq!['/'] + rest) by {
        if t.last() == '/' {
            assert(t0 + seq!['/'] =~= t);
        }
    }
    lemma_split_concat(t0, rest);
    lemma_split_nonempty(t0);
    let st0 = split_segments(t0);
    assert(split_segments(q) == st0 + suffix);
    assert(q[0] == '/') by {
        if t0.len() == 0 {
            assert(q[0] == (seq!['/'] + rest)[0]);
        } else {
            assert(t0[0] == t[0]);
        }
    }
    assert((st0 + suffix).drop_first() =~= st0.drop_first() + suffix);
    lemma_keep_normal_concat(st0.drop_first(), suffix);
    // the components of `t` itself
    if t.last() == '/' {
        assert(t =~= t0 + seq!['/'] + Seq::<char>::empty());
        lemma_split_concat(t0, Seq::<char>::empty());
        assert(split_segments(Seq::<char>::empty()) =~= seq![Seq::<char>::empty()]);
        assert(split_segments(t).drop_first() =~= st0.drop_first() + seq![Seq::<char>::empty()]);
        lemma_keep_normal_concat(st0.drop_first(), seq![Seq::<char>::empty()]);
        lemma_keep_normal_blank();
        assert(keep_normal(st0.drop_first()) + Seq::<Seq<char>>::empty() =~= keep_normal(st0.drop_first()));
        if t0.len() == 0 {
            assert(t[0] == '/');
        }
    }
    assert(components(q) =~= seq![root_component()] + keep_normal(st0.drop_first()) + suffix);
}

/// A path under an absolute `base`: its components are those of `base`
/// followed by named ones, and it is written out again as `base` joined
/// with the rest (`strip_prefix`).
proof fn lemma_strip_absolute(path: Seq<char>, base: Seq<char>)
    requires
        base.len() > 0,
        base[0] == '/',
        path_starts_with_spec(path, base),
    ensures
        ({
            let suffix = components(path).skip(components(base).len() as int);
            &&& components(path) == components(base) + suffix
            &&& forall|i: int| 0 <= i < suffix.len() ==> normal_comp(#[trigger] suffix[i])
            &&& strip_prefix_spec(path, base) == Some(join_parts(suffix))
        }),
{
    let cb = components(base);
    let cp = components(path);
    let suffix = cp.skip(cb.len() as int);
    lemma_components_valid(path);
    assert(cb.len() >= 1);
    assert(cp =~= cb + suffix);
    assert forall|i: int| 0 <= i < suffix.len() implies normal_comp(#[trigger] suffix[i]) by {
        assert(suffix[i] == cp[i + cb.len()]);
    }
    if suffix.len() > 0 {
        assert(suffix[0] != root_component()) by {
            assert(normal_comp(suffix[0]));
            assert(root_component()[0] == '/');
        }
    }
}

/// Law: renaming a path from `from` to `to` (both absolute) and then back
/// from `to` to `from` gives back the same path (as `Path`s compare).
pub proof fn law_rename_back(path: Seq<char>, from: Seq<char>, to: Seq<char>)
    requires
        from.len() > 0,
        from[0] == '/',
        to.len() > 0,
        to[0] == '/',
        renamed_path_spec(path, from, to) is Some,
    ensures
        path_starts_with_spec(renamed_path_spec(path, from, to)->0, to),
        renamed_path_spec(renamed_path_spec(path, from, to)->0, to, from) matches Some(back) && same_path(back, path),
{
    let q = renamed_path_spec(path, from, to)->0;
    if same_path(path, from) {
        assert(components(to).take(components(to).len() as int) =~= components(to));
    } else {
        lemma_strip_absolute(path, from);
        let suffix = components(path).skip(components(from).len() as int);
        assert(suffix.len() > 0) by {
            if suffix.len() == 0 {
                assert(components(path) =~= components(from));
            }
        }
        lemma_components_join_absolute(to, suffix);
        assert(components(q) == components(to) + suffix);
        assert(components(q).take(components(to).len() as int) =~= components(to));
        assert(!same_path(q, to)) by {
            assert(components(q).len() > components(to).len());
        }
        lemma_strip_absolute(q, to);
        assert(components(q).skip(components(to).len() as int) =~= suffix);
        lemma_components_join_absolute(from, suffix);
    }
}

} // verus!
