//! Positions, byte offsets and find / replace over editor text.
use vstd::prelude::*;
use crate::text::{chars_of, occurs_at, matches_at, string_of, push_chars};

verus! {

/// A 0-based line and character position in editor text.
#[derive(Clone, Copy, Debug, PartialEq, Eq, Structural)]
pub struct Position {
    pub line: u32,
    pub character: u32,
}

impl Position {
    pub fn new(line: u32, character: u32) -> (p: Position)
        ensures
            p.line == line,
            p.character == character,
    {
        Position { line, character }
    }
}

/// A match found in editor text: where it starts and how many characters it spans.
#[derive(Clone, Copy, Debug, PartialEq, Eq, Structural)]
pub struct SearchMatch {
    pub start: Position,
    pub char_len: u32,
}

/// The (line, column) reached after walking over `s`: a `\n` starts a new
/// line at column 0, any other character advances the column.
pub open spec fn pos_after(s: Seq<char>) -> (int, int)
    decreases s.len(),
{
    if s.len() == 0 {
        (0, 0)
    } else {
        let p = pos_after(s.drop_last());
        if s.last() == '\n' {
            (p.0 + 1, 0)
        } else {
            (p.0, p.1 + 1)
        }
    }
}

/// The (line, column) of the character at index `k`.
pub open spec fn position_at(text: Seq<char>, k: int) -> (int, int) {
    pos_after(text.take(k))
}

/// Whether character `k` of `text` stands at (`line`, `col`).
pub open spec fn is_index_of(text: Seq<char>, line: int, col: int, k: int) -> bool {
    0 <= k < text.len() && position_at(text, k) == (line, col)
}

/// The index of the character at (`line`, `col`), or the text length when no
/// character stands there.
pub open spec fn char_index_of(text: Seq<char>, line: int, col: int) -> int {
    if exists|k: int| is_index_of(text, line, col, k) {
        choose|k: int| is_index_of(text, line, col, k)
    } else {
        text.len() as int
    }
}

/// The number of UTF-8 bytes of one character (`char::len_utf8`).
pub open spec fn utf8_width(c: char) -> nat {
    if (c as u32) < 0x80 {
        1
    } else if (c as u32) < 0x800 {
        2
    } else if (c as u32) < 0x10000 {
        3
    } else {
        4
    }
}

/// The number of UTF-8 bytes of a character sequence.
pub open spec fn utf8_len(s: Seq<char>) -> nat
    decreases s.len(),
{
    if s.len() == 0 {
        0
    } else {
        utf8_len(s.drop_last()) + utf8_width(s.last())
    }
}

/// Whether `k` is the first character index whose starting byte is at or past `b`.
pub open spec fn is_index_for_byte(text: Seq<char>, b: int, k: int) -> bool {
    0 <= k < text.len() && utf8_len(text.take(k)) >= b && forall|j: int|
        0 <= j < k ==> utf8_len(text.take(j)) < b
}

/// How many characters of `text` start before byte `b`.
pub open spec fn index_for_byte(text: Seq<char>, b: int) -> int {
    if exists|k: int| is_index_for_byte(text, b, k) {
        choose|k: int| is_index_for_byte(text, b, k)
    } else {
        text.len() as int
    }
}

/// Editor text small enough for `u32` line and column counters and a byte length in `usize`.
pub open spec fn editable(text: Seq<char>) -> bool {
    text.len() <= u32::MAX && utf8_len(text) <= usize::MAX
}

proof fn lemma_pos_bounds(s: Seq<char>)
    ensures
        0 <= pos_after(s).0 <= s.len(),
        0 <= pos_after(s).1 <= s.len(),
    decreases s.len(),
{
    if s.len() > 0 {
        lemma_pos_bounds(s.drop_last());
    }
}

/// Positions strictly increase (in line, then column order) along the text.
proof fn lemma_pos_increasing(s: Seq<char>, i: int, j: int)
    requires
        0 <= i < j <= s.len(),
    ensures
        pos_after(s.take(i)).0 < pos_after(s.take(j)).0 || (pos_after(s.take(i)).0
            == pos_after(s.take(j)).0 && pos_after(s.take(i)).1 < pos_after(s.take(j)).1),
    decreases j - i,
{
    assert(s.take(j).drop_last() =~= s.take(j - 1));
    if i < j - 1 {
        lemma_pos_increasing(s, i, j - 1);
    }
}

proof fn lemma_index_of_unique(text: Seq<char>, line: int, col: int, a: int, b: int)
    requires
        is_index_of(text, line, col, a),
        is_index_of(text, line, col, b),
    ensures
        a == b,
{
    if a < b {
        lemma_pos_increasing(text, a, b);
    } else if b < a {
        lemma_pos_increasing(text, b, a);
    }
}

proof fn lemma_utf8_len_mono(s: Seq<char>, i: int, j: int)
    requires
        0 <= i <= j <= s.len(),
    ensures
        utf8_len(s.take(i)) <= utf8_len(s.take(j)),
        i < j ==> utf8_len(s.take(i)) < utf8_len(s.take(j)),
    decreases j - i,
{
    if i < j {
        assert(s.take(j).drop_last() =~= s.take(j - 1));
        lemma_utf8_len_mono(s, i, j - 1);
    }
}

fn char_width(c: char) -> (w: usize)
    ensures
        w == utf8_width(c),
{
    let u = c as u32;
    if u < 0x80 {
        1
    } else if u < 0x800 {
        2
    } else if u < 0x10000 {
        3
    } else {
        4
    }
}

/// The character index of `position` in `cs` (see `char_index_of`).
pub fn position_to_char_index(cs: &[char], position: Position) -> (k: usize)
    requires
        cs@.len() <= u32::MAX,
    ensures
        k as int == char_index_of(cs@, position.line as int, position.character as int),
{
    let mut line: u32 = 0;
    let mut column: u32 = 0;
    let mut k: usize = 0;
    proof {
        assert(cs@.take(0) =~= Seq::<char>::empty());
    }
    while k < cs.len()
        invariant
            k <= cs.len(),
            cs@.len() <= u32::MAX,
            (line as int, column as int) == position_at(cs@, k as int),
            forall|j: int| 0 <= j < k ==> !is_index_of(cs@, position.line as int, position.character as int, j),
        decreases cs.len() - k,
    {
        if line == position.line && column == position.character {
            proof {
                assert(is_index_of(cs@, position.line as int, position.character as int, k as int));
                let c = choose|j: int| is_index_of(cs@, position.line as int, position.character as int, j);
                lemma_index_of_unique(cs@, position.line as int, position.character as int, c, k as int);
            }
            return k;
        }
        proof {
            lemma_pos_bounds(cs@.take(k as int));
            assert(cs@.take(k + 1).drop_last() =~= cs@.take(k as int));
        }
        if cs[k] == '\n' {
            line = line + 1;
            column = 0;
        } else {
            column = column + 1;
        }
        k += 1;
    }
    k
}

/// The byte offset in `text` of `position`: the offset of the character at
/// that position, or the text's byte length when no character stands there.
pub fn position_to_byte_offset(text: &str, position: Position) -> (offset: usize)
    requires
        editable(text@),
    ensures
        offset == utf8_len(text@.take(char_index_of(text@, position.line as int, position.character as int))),
{
    let cs = chars_of(text);
    let k = position_to_char_index(cs.as_slice(), position);
    let mut offset: usize = 0;
    let mut i: usize = 0;
    proof {
        assert(cs@.take(0) =~= Seq::<char>::empty());
    }
    while i < k
        invariant
            i <= k <= cs.len(),
            utf8_len(cs@) <= usize::MAX,
            offset == utf8_len(cs@.take(i as int)),
        decreases k - i,
    {
        proof {
            assert(cs@.take(i + 1).drop_last() =~= cs@.take(i as int));
            lemma_utf8_len_mono(cs@, i + 1, cs@.len() as int);
            assert(cs@.take(cs@.len() as int) =~= cs@);
        }
        offset = offset + char_width(cs[i]);
        i += 1;
    }
    offset
}

/// The character index in `cs` of the first character starting at or after
/// byte `b` (see `index_for_byte`).
pub fn byte_to_char_index(cs: &[char], b: usize) -> (k: usize)
    requires
        utf8_len(cs@) <= usize::MAX,
    ensures
        k as int == index_for_byte(cs@, b as int),
        k <= cs.len(),
{
    let mut offset: usize = 0;
    let mut k: usize = 0;
    proof {
        assert(cs@.take(0) =~= Seq::<char>::empty());
    }
    while k < cs.len()
        invariant
            k <= cs.len(),
            utf8_len(cs@) <= usize::MAX,
            offset == utf8_len(cs@.take(k as int)),
            forall|j: int| 0 <= j < k ==> utf8_len(cs@.take(j)) < b,
        decreases cs.len() - k,
    {
        if offset >= b {
            proof {
                assert(is_index_for_byte(cs@, b as int, k as int));
                let c = choose|j: int| is_index_for_byte(cs@, b as int, j);
                if c < k {
                } else if k < c {
                }
            }
            return k;
        }
        proof {
            assert(cs@.take(k + 1).drop_last() =~= cs@.take(k as int));
            lemma_utf8_len_mono(cs@, k + 1, cs@.len() as int);
            assert(cs@.take(cs@.len() as int) =~= cs@);
        }
        offset = offset + char_width(cs[k]);
        k += 1;
    }
    k
}

/// The position of the character at index `k` of `cs`.
pub fn char_index_to_position(cs: &[char], k: usize) -> (p: Position)
    requires
        k <= cs.len(),
        cs@.len() <= u32::MAX,
    ensures
        (p.line as int, p.character as int) == position_at(cs@, k as int),
{
    let mut line: u32 = 0;
    let mut column: u32 = 0;
    let mut i: usize = 0;
    proof {
        assert(cs@.take(0) =~= Seq::<char>::empty());
    }
    while i < k
        invariant
            i <= k <= cs.len(),
            cs@.len() <= u32::MAX,
            (line as int, column as int) == position_at(cs@, i as int),
        decreases k - i,
    {
        proof {
            lemma_pos_bounds(cs@.take(i as int));
            assert(cs@.take(i + 1).drop_last() =~= cs@.take(i as int));
        }
        if cs[i] == '\n' {
            line = line + 1;
            column = 0;
        } else {
            column = column + 1;
        }
        i += 1;
    }
    Position { line, character: column }
}

/// The position in `text` of the character holding byte `byte_offset`: the
/// line and column reached after every character that starts before it.
pub fn byte_offset_to_position(text: &str, byte_offset: usize) -> (p: Position)
    requires
        editable(text@),
    ensures
        (p.line as int, p.character as int) == position_at(text@, index_for_byte(text@, byte_offset as int)),
{
    let cs = chars_of(text);
    let k = byte_to_char_index(cs.as_slice(), byte_offset);
    char_index_to_position(cs.as_slice(), k)
}

/// `at` is the first occurrence of `needle` at or after `lo`.
pub open spec fn is_first_from(hay: Seq<char>, needle: Seq<char>, lo: int, at: int) -> bool {
    lo <= at && occurs_at(hay, needle, at) && forall|k: int| lo <= k < at ==> !occurs_at(hay, needle, k)
}

/// `at` is the first occurrence of `needle` that ends at or before `hi`.
pub open spec fn is_first_before(hay: Seq<char>, needle: Seq<char>, hi: int, at: int) -> bool {
    at + needle.len() <= hi && occurs_at(hay, needle, at) && forall|k: int|
        0 <= k < at ==> !(occurs_at(hay, needle, k) && k + needle.len() <= hi)
}

/// `at` is the last occurrence of `needle` that ends at or before `hi`.
pub open spec fn is_last_before(hay: Seq<char>, needle: Seq<char>, hi: int, at: int) -> bool {
    at + needle.len() <= hi && occurs_at(hay, needle, at) && forall|k: int|
        at < k && k + needle.len() <= hi ==> !occurs_at(hay, needle, k)
}

/// `at` is the last occurrence of `needle` at or after `lo`.
pub open spec fn is_last_from(hay: Seq<char>, needle: Seq<char>, lo: int, at: int) -> bool {
    lo <= at && occurs_at(hay, needle, at) && forall|k: int| at < k ==> !occurs_at(hay, needle, k)
}

/// Where searching forward from character `lo` finds `needle`: the first
/// occurrence at or after `lo`, else (wrapping around) the first one that
/// ends by `lo`; an empty needle is never found.
pub open spec fn next_match_index(hay: Seq<char>, needle: Seq<char>, lo: int) -> Option<int> {
    if needle.len() == 0 {
        None
    } else if exists|at: int| is_first_from(hay, needle, lo, at) {
        Some(choose|at: int| is_first_from(hay, needle, lo, at))
    } else if exists|at: int| is_first_before(hay, needle, lo, at) {
        Some(choose|at: int| is_first_before(hay, needle, lo, at))
    } else {
        None
    }
}

/// Where searching backward from character `hi` finds `needle`: the last
/// occurrence that ends by `hi`, else (wrapping around) the last occurrence at
/// or after `hi`; an empty needle is never found.
pub open spec fn previous_match_index(hay: Seq<char>, needle: Seq<char>, hi: int) -> Option<int> {
    if needle.len() == 0 {
        None
    } else if exists|at: int| is_last_before(hay, needle, hi, at) {
        Some(choose|at: int| is_last_before(hay, needle, hi, at))
    } else if exists|at: int| is_last_from(hay, needle, hi, at) {
        Some(choose|at: int| is_last_from(hay, needle, hi, at))
    } else {
        None
    }
}

/// First occurrence at or after `lo` (`str::find` on `hay[lo..]`).
fn find_from(hay: &[char], needle: &[char], lo: usize) -> (r: Option<usize>)
    requires
        lo <= hay.len(),
    ensures
        match r {
            Some(at) => is_first_from(hay@, needle@, lo as int, at as int),
            None => forall|at: int| lo <= at ==> !occurs_at(hay@, needle@, at),
        },
{
    let mut at: usize = lo;
    while at < hay.len()
        invariant
            lo <= at <= hay.len(),
            forall|k: int| lo <= k < at ==> !occurs_at(hay@, needle@, k),
        decreases hay.len() - at,
    {
        if matches_at(hay, needle, at) {
            return Some(at);
        }
        at += 1;
    }
    if matches_at(hay, needle, at) {
        return Some(at);
    }
    proof {
        assert forall|k: int| lo <= k implies !occurs_at(hay@, needle@, k) by {
            if k > hay.len() {
            }
        }
    }
    None
}

/// First occurrence that ends by `hi` (`str::find` on `hay[..hi]`).
fn find_before(hay: &[char], needle: &[char], hi: usize) -> (r: Option<usize>)
    requires
        hi <= hay.len(),
    ensures
        match r {
            Some(at) => is_first_before(hay@, needle@, hi as int, at as int),
            None => forall|at: int| 0 <= at ==> !(occurs_at(hay@, needle@, at) && at + needle@.len() <= hi),
        },
{
    if needle.len() > hi {
        return None;
    }
    let last = hi - needle.len();
    let mut at: usize = 0;
    loop
        invariant
            last == hi - needle.len(),
            hi <= hay.len(),
            at <= last,
            forall|k: int| 0 <= k < at ==> !(occurs_at(hay@, needle@, k) && k + needle@.len() <= hi),
        decreases last - at,
    {
        if matches_at(hay, needle, at) {
            return Some(at);
        }
        if at == last {
            return None;
        }
        at += 1;
    }
}

/// Last occurrence that ends by `hi` (`str::rfind` on `hay[..hi]`).
fn rfind_before(hay: &[char], needle: &[char], hi: usize) -> (r: Option<usize>)
    requires
        hi <= hay.len(),
    ensures
        match r {
            Some(at) => is_last_before(hay@, needle@, hi as int, at as int),
            None => forall|at: int| 0 <= at ==> !(occurs_at(hay@, needle@, at) && at + needle@.len() <= hi),
        },
{
    if needle.len() > hi {
        return None;
    }
    let mut at: usize = hi - needle.len();
    loop
        invariant
            hi <= hay.len(),
            at + needle.len() <= hi,
            forall|k: int| at < k && k + needle@.len() <= hi ==> !occurs_at(hay@, needle@, k),
        decreases at,
    {
        if matches_at(hay, needle, at) {
            return Some(at);
        }
        if at == 0 {
            return None;
        }
        at -= 1;
    }
}

/// Last occurrence at or after `lo` (`str::rfind` on `hay[lo..]`).
fn rfind_from(hay: &[char], needle: &[char], lo: usize) -> (r: Option<usize>)
    requires
        lo <= hay.len(),
    ensures
        match r {
            Some(at) => is_last_from(hay@, needle@, lo as int, at as int),
            None => forall|at: int| lo <= at ==> !occurs_at(hay@, needle@, at),
        },
{
    if needle.len() > hay.len() - lo {
        return None;
    }
    let mut at: usize = hay.len() - needle.len();
    loop
        invariant
            lo <= at,
            at + needle.len() <= hay.len(),
            forall|k: int| at < k ==> !occurs_at(hay@, needle@, k),
        decreases at,
    {
        if matches_at(hay, needle, at) {
            return Some(at);
        }
        if at == lo {
            return None;
        }
        at -= 1;
    }
}

/// The character index where searching forward from `lo` finds `needle`.
pub fn next_match(hay: &[char], needle: &[char], lo: usize) -> (r: Option<usize>)
    requires
        lo <= hay.len(),
    ensures
        r matches Some(at) ==> (at as int) + needle@.len() <= hay@.len(),
        match next_match_index(hay@, needle@, lo as int) {
            Some(at) => r == Some(at as usize),
            None => r is None,
        },
{
    if needle.len() == 0 {
        return None;
    }
    match find_from(hay, needle, lo) {
        Some(at) => {
            proof {
                let c = choose|x: int| is_first_from(hay@, needle@, lo as int, x);
                if c < at {
                } else if at < c {
                }
            }
            Some(at)
        },
        None => {
            let r = find_before(hay, needle, lo);
            proof {
                assert(!exists|x: int| is_first_from(hay@, needle@, lo as int, x));
                if let Some(at) = r {
                    let c = choose|x: int| is_first_before(hay@, needle@, lo as int, x);
                    if c < at {
                    } else if at < c {
                    }
                }
            }
            r
        },
    }
}

/// The character index where searching backward from `hi` finds `needle`.
pub fn previous_match(hay: &[char], needle: &[char], hi: usize) -> (r: Option<usize>)
    requires
        hi <= hay.len(),
    ensures
        r matches Some(at) ==> (at as int) + needle@.len() <= hay@.len(),
        match previous_match_index(hay@, needle@, hi as int) {
            Some(at) => r == Some(at as usize),
            None => r is None,
        },
{
    if needle.len() == 0 {
        return None;
    }
    match rfind_before(hay, needle, hi) {
        Some(at) => {
            proof {
                let c = choose|x: int| is_last_before(hay@, needle@, hi as int, x);
                if c < at {
                } else if at < c {
                }
            }
            Some(at)
        },
        None => {
            let r = rfind_from(hay, needle, hi);
            proof {
                assert(!exists|x: int| is_last_before(hay@, needle@, hi as int, x));
                if let Some(at) = r {
                    let c = choose|x: int| is_last_from(hay@, needle@, hi as int, x);
                    if c < at {
                    } else if at < c {
                    }
                }
            }
            r
        },
    }
}

} // verus!

verus! {

/// The `Position` for a (line, column) pair.
pub open spec fn to_position(p: (int, int)) -> Position {
    Position { line: p.0 as u32, character: p.1 as u32 }
}

/// What searching forward from `cursor` for `query` finds in `text`.
pub open spec fn find_next_spec(text: Seq<char>, cursor: Position, query: Seq<char>) -> Option<SearchMatch> {
    let lo = char_index_of(text, cursor.line as int, cursor.character as int);
    match next_match_index(text, query, lo) {
        Some(at) => Some(SearchMatch { start: to_position(position_at(text, at)), char_len: query.len() as u32 }),
        None => None,
    }
}

/// What searching backward from `cursor` for `query` finds in `text`.
pub open spec fn find_previous_spec(text: Seq<char>, cursor: Position, query: Seq<char>) -> Option<SearchMatch> {
    let hi = char_index_of(text, cursor.line as int, cursor.character as int);
    match previous_match_index(text, query, hi) {
        Some(at) => Some(SearchMatch { start: to_position(position_at(text, at)), char_len: query.len() as u32 }),
        None => None,
    }
}

/// The text after replacing the match found forward from `cursor`, with the
/// match that now covers the replacement.
pub open spec fn replace_next_spec(text: Seq<char>, cursor: Position, query: Seq<char>, replacement: Seq<char>) -> Option<(Seq<char>, SearchMatch)> {
    let lo = char_index_of(text, cursor.line as int, cursor.character as int);
    match next_match_index(text, query, lo) {
        Some(at) => Some((
            text.take(at) + replacement + text.skip(at + query.len()),
            SearchMatch { start: to_position(position_at(text, at)), char_len: replacement.len() as u32 },
        )),
        None => None,
    }
}

proof fn lemma_char_index_bound(text: Seq<char>, line: int, col: int)
    ensures
        0 <= char_index_of(text, line, col) <= text.len(),
{
    if exists|k: int| is_index_of(text, line, col, k) {
        let k = choose|k: int| is_index_of(text, line, col, k);
        assert(is_index_of(text, line, col, k));
    }
}

fn truncate_len(n: usize) -> (r: u32)
    ensures
        r == n as u32,
{
    #[verifier::truncate]
    (n as u32)
}

/// Searches forward from `cursor` for `query`, wrapping around to the start.
pub fn find_next_in_text(text: &str, cursor: Position, query: &str) -> (r: Option<SearchMatch>)
    requires
        editable(text@),
    ensures
        r == find_next_spec(text@, cursor, query@),
{
    let cs = chars_of(text);
    let q = chars_of(query);
    let lo = position_to_char_index(cs.as_slice(), cursor);
    proof {
        lemma_char_index_bound(cs@, cursor.line as int, cursor.character as int);
    }
    match next_match(cs.as_slice(), q.as_slice(), lo) {
        Some(at) => {
            let p = char_index_to_position(cs.as_slice(), at);
            Some(SearchMatch { start: p, char_len: truncate_len(q.len()) })
        },
        None => None,
    }
}

/// Searches backward from `cursor` for `query`, wrapping around to the end.
pub fn find_previous_in_text(text: &str, cursor: Position, query: &str) -> (r: Option<SearchMatch>)
    requires
        editable(text@),
    ensures
        r == find_previous_spec(text@, cursor, query@),
{
    let cs = chars_of(text);
    let q = chars_of(query);
    let hi = position_to_char_index(cs.as_slice(), cursor);
    proof {
        lemma_char_index_bound(cs@, cursor.line as int, cursor.character as int);
    }
    match previous_match(cs.as_slice(), q.as_slice(), hi) {
        Some(at) => {
            let p = char_index_to_position(cs.as_slice(), at);
            Some(SearchMatch { start: p, char_len: truncate_len(q.len()) })
        },
        None => None,
    }
}

/// Replaces the next match of `query` after `cursor` with `replacement`.
pub fn replace_next_in_text(text: &str, cursor: Position, query: &str, replacement: &str) -> (r: Option<(String, SearchMatch)>)
    requires
        editable(text@),
    ensures
        match (r, replace_next_spec(text@, cursor, query@, replacement@)) {
            (Some((t, m)), Some((st, sm))) => t@ == st && m == sm,
            (None, None) => true,
            _ => false,
        },
{
    let cs = chars_of(text);
    let q = chars_of(query);
    let rep = chars_of(replacement);
    let lo = position_to_char_index(cs.as_slice(), cursor);
    proof {
        lemma_char_index_bound(cs@, cursor.line as int, cursor.character as int);
    }
    match next_match(cs.as_slice(), q.as_slice(), lo) {
        Some(at) => {
            let mut out: Vec<char> = Vec::new();
            let mut i: usize = 0;
            while i < at
                invariant
                    i <= at <= cs.len(),
                    out@ == cs@.take(i as int),
                decreases at - i,
            {
                out.push(cs[i]);
                proof {
                    assert(cs@.take(i + 1) =~= cs@.take(i as int).push(cs@[i as int]));
                }
                i += 1;
            }
            push_chars(&mut out, rep.as_slice());
            let ghost mid = out@;
            let mut j: usize = at + q.len();
            while j < cs.len()
                invariant
                    at + q.len() <= j <= cs.len(),
                    out@ == mid + cs@.subrange(at + q.len(), j as int),
                decreases cs.len() - j,
            {
                out.push(cs[j]);
                proof {
                    assert(cs@.subrange(at + q.len(), j + 1) =~= cs@.subrange(at + q.len(), j as int).push(cs@[j as int]));
                }
                j += 1;
            }
            proof {
                assert(cs@.subrange(at + q.len(), cs@.len() as int) =~= cs@.skip(at + q.len()));
            }
            let p = char_index_to_position(cs.as_slice(), at);
            Some((string_of(out.as_slice()), SearchMatch { start: p, char_len: truncate_len(rep.len()) }))
        },
        None => None,
    }
}

/// Law: a match found by searching lies in the text and spells the query.
pub proof fn law_next_match_is_occurrence(hay: Seq<char>, needle: Seq<char>, lo: int, at: int)
    requires
        next_match_index(hay, needle, lo) == Some(at),
    ensures
        occurs_at(hay, needle, at),
{
    if exists|x: int| is_first_from(hay, needle, lo, x) {
        let c = choose|x: int| is_first_from(hay, needle, lo, x);
        assert(is_first_from(hay, needle, lo, c));
    } else {
        let c = choose|x: int| is_first_before(hay, needle, lo, x);
        assert(is_first_before(hay, needle, lo, c));
    }
}

/// Law: a match found searching backward lies in the text and spells the query.
pub proof fn law_previous_match_is_occurrence(hay: Seq<char>, needle: Seq<char>, hi: int, at: int)
    requires
        previous_match_index(hay, needle, hi) == Some(at),
    ensures
        occurs_at(hay, needle, at),
{
    if exists|x: int| is_last_before(hay, needle, hi, x) {
        let c = choose|x: int| is_last_before(hay, needle, hi, x);
        assert(is_last_before(hay, needle, hi, c));
    } else {
        let c = choose|x: int| is_last_from(hay, needle, hi, x);
        assert(is_last_from(hay, needle, hi, c));
    }
}

/// Law: a query that occurs in the text is found from any cursor, unless the
/// occurrence straddles the cursor (the search looks at the text on each side
/// of the cursor separately).
pub proof fn law_present_query_is_found(hay: Seq<char>, needle: Seq<char>, lo: int, at: int)
    requires
        needle.len() > 0,
        0 <= lo <= hay.len(),
        occurs_at(hay, needle, at),
        at >= lo || at + needle.len() <= lo,
    ensures
        next_match_index(hay, needle, lo) is Some,
        previous_match_index(hay, needle, lo) is Some,
    decreases at,
{
    lemma_first_exists_from(hay, needle, lo, at);
    lemma_last_exists(hay, needle, lo, at);
}

proof fn lemma_first_exists_from(hay: Seq<char>, needle: Seq<char>, lo: int, at: int)
    requires
        needle.len() > 0,
        0 <= lo <= hay.len(),
        occurs_at(hay, needle, at),
        at >= lo || at + needle.len() <= lo,
    ensures
        next_match_index(hay, needle, lo) is Some,
    decreases at,
{
    if at >= lo {
        lemma_least_from(hay, needle, lo, at);
    } else {
        lemma_least_before(hay, needle, lo, at);
    }
}

proof fn lemma_least_from(hay: Seq<char>, needle: Seq<char>, lo: int, at: int)
    requires
        lo <= at,
        occurs_at(hay, needle, at),
    ensures
        exists|x: int| is_first_from(hay, needle, lo, x),
    decreases at - lo,
{
    if forall|k: int| lo <= k < at ==> !occurs_at(hay, needle, k) {
        assert(is_first_from(hay, needle, lo, at));
    } else {
        let k = choose|k: int| lo <= k < at && occurs_at(hay, needle, k);
        lemma_least_from(hay, needle, lo, k);
    }
}

proof fn lemma_least_before(hay: Seq<char>, needle: Seq<char>, hi: int, at: int)
    requires
        at + needle.len() <= hi,
        occurs_at(hay, needle, at),
    ensures
        exists|x: int| is_first_before(hay, needle, hi, x),
    decreases at,
{
    if forall|k: int| 0 <= k < at ==> !(occurs_at(hay, needle, k) && k + needle.len() <= hi) {
        assert(is_first_before(hay, needle, hi, at));
    } else {
        let k = choose|k: int| 0 <= k < at && (occurs_at(hay, needle, k) && k + needle.len() <= hi);
        lemma_least_before(hay, needle, hi, k);
    }
}

proof fn lemma_last_exists(hay: Seq<char>, needle: Seq<char>, hi: int, at: int)
    requires
        needle.len() > 0,
        0 <= hi <= hay.len(),
        occurs_at(hay, needle, at),
        at >= hi || at + needle.len() <= hi,
    ensures
        previous_match_index(hay, needle, hi) is Some,
{
    if at + needle.len() <= hi {
        lemma_greatest_before(hay, needle, hi, at);
    } else {
        lemma_greatest_from(hay, needle, hi, at);
    }
}

proof fn lemma_greatest_before(hay: Seq<char>, needle: Seq<char>, hi: int, at: int)
    requires
        at + needle.len() <= hi,
        occurs_at(hay, needle, at),
    ensures
        exists|x: int| is_last_before(hay, needle, hi, x),
    decreases hi - at,
{
    if forall|k: int| at < k && k + needle.len() <= hi ==> !occurs_at(hay, needle, k) {
        assert(is_last_before(hay, needle, hi, at));
    } else {
        let k = choose|k: int| at < k && k + needle.len() <= hi && occurs_at(hay, needle, k);
        lemma_greatest_before(hay, needle, hi, k);
    }
}

proof fn lemma_greatest_from(hay: Seq<char>, needle: Seq<char>, lo: int, at: int)
    requires
        needle.len() > 0,
        lo <= at,
        occurs_at(hay, needle, at),
    ensures
        exists|x: int| is_last_from(hay, needle, lo, x),
    decreases hay.len() - at,
{
    if forall|k: int| at < k ==> !occurs_at(hay, needle, k) {
        assert(is_last_from(hay, needle, lo, at));
    } else {
        let k = choose|k: int| at < k && occurs_at(hay, needle, k);
        lemma_greatest_from(hay, needle, lo, k);
    }
}


/// The first character starting at or after the byte where character `k`
/// starts is character `k` (the text's length when `k` is the end).
proof fn lemma_index_for_boundary(text: Seq<char>, k: int)
    requires
        0 <= k <= text.len(),
    ensures
        index_for_byte(text, utf8_len(text.take(k)) as int) == k,
{
    let b = utf8_len(text.take(k)) as int;
    if k < text.len() {
        assert forall|j: int| 0 <= j < k implies utf8_len(text.take(j)) < b by {
            lemma_utf8_len_mono(text, j, k);
        }
        assert(is_index_for_byte(text, b, k));
        let c = choose|c: int| is_index_for_byte(text, b, c);
        if c < k {
            lemma_utf8_len_mono(text, c, k);
        }
    } else {
        if exists|c: int| is_index_for_byte(text, b, c) {
            let c = choose|c: int| is_index_for_byte(text, b, c);
            lemma_utf8_len_mono(text, c, k);
        }
    }
}

/// The character standing at the position of character `k` is character
/// `k` (none, so the text's length, when `k` is the end).
proof fn lemma_index_of_position(text: Seq<char>, k: int)
    requires
        0 <= k <= text.len(),
    ensures
        char_index_of(text, position_at(text, k).0, position_at(text, k).1) == k,
{
    let p = position_at(text, k);
    if k < text.len() {
        assert(is_index_of(text, p.0, p.1, k));
        let c = choose|c: int| is_index_of(text, p.0, p.1, c);
        lemma_index_of_unique(text, p.0, p.1, c, k);
    } else {
        if exists|c: int| is_index_of(text, p.0, p.1, c) {
            let c = choose|c: int| is_index_of(text, p.0, p.1, c);
            lemma_pos_increasing(text, c, k);
        }
    }
}

/// Law: at a character boundary `b` of the text (where character `k`
/// starts, or its end), `byte_offset_to_position` and then
/// `position_to_byte_offset` give back `b`.
pub proof fn law_byte_offset_round_trip(text: Seq<char>, k: int)
    requires
        0 <= k <= text.len(),
    ensures
        ({
            let b = utf8_len(text.take(k)) as int;
            let p = position_at(text, index_for_byte(text, b));
            utf8_len(text.take(char_index_of(text, p.0, p.1))) == b
        }),
{
    lemma_index_for_boundary(text, k);
    lemma_index_of_position(text, k);
}

} // verus!
