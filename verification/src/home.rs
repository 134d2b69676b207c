//! Values of the home page: which sections are expanded, the key under
//! which a folder's thumbnail is cached, and a tag's hex color.
use vstd::prelude::*;
use crate::text::{chars_of, lower_chars, lower_seq, string_of, trim_seq, trim_chars};
use crate::editor_text::{utf8_len, utf8_width};

verus! {

/// Whether the home page's sections are expanded.
#[derive(Clone, Copy, Debug, PartialEq, Eq, Structural)]
pub struct HomeSectionsExpanded {
    pub quick_access: bool,
    pub drives: bool,
    pub network: bool,
    pub file_tags: bool,
    pub recent: bool,
}

/// Expands or collapses the home section named `section`
/// (`quick_access`, `drives`, `network`, `file_tags` or `recent`); other
/// names change nothing.
pub fn toggle_expanded(prefs: &mut HomeSectionsExpanded, section: &str)
    ensures
        final(prefs).quick_access == (old(prefs).quick_access != (section@ == "quick_access"@)),
        final(prefs).drives == (old(prefs).drives != (section@ == "drives"@)),
        final(prefs).network == (old(prefs).network != (section@ == "network"@)),
        final(prefs).file_tags == (old(prefs).file_tags != (section@ == "file_tags"@)),
        final(prefs).recent == (old(prefs).recent != (section@ == "recent"@)),
{
    proof {
        reveal_strlit("quick_access");
        reveal_strlit("drives");
        reveal_strlit("network");
        reveal_strlit("file_tags");
        reveal_strlit("recent");
        crate::model::lemma_lengths_differ("quick_access"@, "drives"@);
        crate::model::lemma_lengths_differ("quick_access"@, "network"@);
        crate::model::lemma_lengths_differ("quick_access"@, "file_tags"@);
        crate::model::lemma_lengths_differ("quick_access"@, "recent"@);
        crate::model::lemma_lengths_differ("drives"@, "network"@);
        crate::model::lemma_lengths_differ("drives"@, "file_tags"@);
        crate::model::lemma_first_differs("drives"@, "recent"@);
        crate::model::lemma_lengths_differ("network"@, "file_tags"@);
        crate::model::lemma_lengths_differ("network"@, "recent"@);
        crate::model::lemma_lengths_differ("file_tags"@, "recent"@);
    }
    let s = chars_of(section);
    let s = s.as_slice();
    if crate::language::eq_lit(s, "quick_access") {
        prefs.quick_access = !prefs.quick_access;
    } else if crate::language::eq_lit(s, "drives") {
        prefs.drives = !prefs.drives;
    } else if crate::language::eq_lit(s, "network") {
        prefs.network = !prefs.network;
    } else if crate::language::eq_lit(s, "file_tags") {
        prefs.file_tags = !prefs.file_tags;
    } else if crate::language::eq_lit(s, "recent") {
        prefs.recent = !prefs.recent;
    }
}


/// The cache key of a folder's thumbnail: its resolved path (the path
/// itself when it cannot be resolved), lowercased.
pub fn thumbnail_cache_key(resolved_path: &str) -> (key: String)
    ensures
        key@ == lower_seq(resolved_path@),
{
    let cs = chars_of(resolved_path);
    let lower = lower_chars(cs.as_slice());
    string_of(lower.as_slice())
}

/// A string without its leading `#` characters.
pub open spec fn strip_hashes(s: Seq<char>) -> Seq<char>
    decreases s.len(),
{
    if s.len() > 0 && s[0] == '#' {
        strip_hashes(s.drop_first())
    } else {
        s
    }
}

/// The value of a hexadecimal digit.
pub open spec fn hex_digit(c: char) -> Option<nat> {
    if '0' <= c <= '9' {
        Some((c as u32 - '0' as u32) as nat)
    } else if 'a' <= c <= 'f' {
        Some((c as u32 - 'a' as u32 + 10) as nat)
    } else if 'A' <= c <= 'F' {
        Some((c as u32 - 'A' as u32 + 10) as nat)
    } else {
        None
    }
}

/// A byte of two hex characters as `u8::from_str_radix(.., 16)` reads it:
/// two hex digits, or `+` and one hex digit.
pub open spec fn hex_pair(a: char, b: char) -> Option<nat> {
    if a == '+' {
        hex_digit(b)
    } else {
        match (hex_digit(a), hex_digit(b)) {
            (Some(x), Some(y)) => Some(16 * x + y),
            _ => None,
        }
    }
}

/// Whether byte offset `b` of `h` starts a character.
pub open spec fn char_boundary(h: Seq<char>, b: nat) -> bool {
    exists|k: int| 0 <= k <= h.len() && utf8_len(#[trigger] h.take(k)) == b
}

/// The color a hex string names, as `0xRRGGBB`: the trimmed string without
/// leading `#` must be six ASCII characters making three bytes.
pub open spec fn parse_hex_color_spec(s: Seq<char>) -> Option<nat> {
    let h = strip_hashes(trim_seq(s));
    if h.len() != 6 || utf8_len(h) != 6 {
        None
    } else {
        match (hex_pair(h[0], h[1]), hex_pair(h[2], h[3]), hex_pair(h[4], h[5])) {
            (Some(r), Some(g), Some(b)) => Some(r * 65536 + g * 256 + b),
            _ => None,
        }
    }
}

/// Whether slicing the six bytes of the stripped string into pairs stays on
/// character boundaries (the slicing panics otherwise).
pub open spec fn hex_color_slices_ok(s: Seq<char>) -> bool {
    let h = strip_hashes(trim_seq(s));
    utf8_len(h) == 6 ==> char_boundary(h, 2) && char_boundary(h, 4)
}

fn hex_digit_exec(c: char) -> (r: Option<u32>)
    ensures
        match r {
            Some(v) => hex_digit(c) == Some(v as nat) && v < 16,
            None => hex_digit(c) is None,
        },
{
    if '0' <= c && c <= '9' {
        Some(c as u32 - '0' as u32)
    } else if 'a' <= c && c <= 'f' {
        Some(c as u32 - 'a' as u32 + 10)
    } else if 'A' <= c && c <= 'F' {
        Some(c as u32 - 'A' as u32 + 10)
    } else {
        None
    }
}

fn hex_pair_exec(a: char, b: char) -> (r: Option<u32>)
    ensures
        match r {
            Some(v) => hex_pair(a, b) == Some(v as nat) && v < 256,
            None => hex_pair(a, b) is None,
        },
{
    if a == '+' {
        return hex_digit_exec(b);
    }
    match (hex_digit_exec(a), hex_digit_exec(b)) {
        (Some(x), Some(y)) => Some(16 * x + y),
        _ => None,
    }
}

/// The color a hex string such as `#3a7bd5` names, as `0xRRGGBB`.
pub fn parse_hex_color(s: &str) -> (r: Option<u32>)
    requires
        hex_color_slices_ok(s@),
    ensures
        match r {
            Some(v) => parse_hex_color_spec(s@) == Some(v as nat),
            None => parse_hex_color_spec(s@) is None,
        },
{
    let cs = chars_of(s);
    let t = trim_chars(cs.as_slice());
    let mut start: usize = 0;
    proof {
        assert(t@.skip(0) =~= t@);
    }
    while start < t.len() && t[start] == '#'
        invariant
            start <= t.len(),
            strip_hashes(t@) == strip_hashes(t@.skip(start as int)),
        decreases t.len() - start,
    {
        proof {
            assert(t@.skip(start as int).drop_first() =~= t@.skip(start + 1));
        }
        start += 1;
    }
    let ghost h = t@.skip(start as int);
    proof {
        assert(strip_hashes(h) == h);
    }
    if t.len() - start != 6 {
        return None;
    }
    let mut bytes: usize = 0;
    let mut i: usize = start;
    while i < t.len()
        invariant
            start <= i <= t.len(),
            t.len() - start == 6,
            h == t@.skip(start as int),
            bytes == utf8_len(h.take(i - start)),
            bytes <= 4 * (i - start),
        decreases t.len() - i,
    {
        proof {
            assert(h.take(i - start + 1).drop_last() =~= h.take(i - start));
            assert(h.take(i - start + 1).last() == t@[i as int]);
        }
        let u = t[i] as u32;
        let w: usize = if u < 0x80 { 1 } else if u < 0x800 { 2 } else if u < 0x10000 { 3 } else { 4 };
        bytes = bytes + w;
        i += 1;
    }
    proof {
        assert(h.take(6) =~= h);
    }
    if bytes != 6 {
        return None;
    }
    let r = hex_pair_exec(t[start], t[start + 1]);
    let g = hex_pair_exec(t[start + 2], t[start + 3]);
    let b = hex_pair_exec(t[start + 4], t[start + 5]);
    match (r, g, b) {
        (Some(r), Some(g), Some(b)) => Some(r * 65536 + g * 256 + b),
        _ => None,
    }
}

} // verus!
