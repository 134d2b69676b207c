//! What the file browser hands to the system: the terminal's arguments,
//! the script that creates shortcuts, listed times, the paths of a file
//! tag and a listing read from a directory.
use vstd::prelude::*;
use crate::model::FileItem;
use crate::path::{parent_spec, file_stem_spec, join_spec, path_parent, path_file_stem, path_join};
use crate::text::{chars_of, string_of, string_from, push_str_chars, push_chars, decimal_seq, digit_char};
use crate::selection::views;

verus! {

broadcast use crate::text::lemma_chars_deep_view;

/// Why the terminal cannot be opened: a selected file has no parent directory.
#[derive(Clone, Copy, Debug, PartialEq, Eq, Structural)]
pub enum TerminalError {
    NoParentDirectory,
}

/// The directory the terminal opens for each path: the path itself for a
/// directory, its parent for anything else.
pub open spec fn terminal_dir(p: Seq<char>, is_dir: bool) -> Option<Seq<char>> {
    if is_dir {
        Some(p)
    } else {
        parent_spec(p)
    }
}

/// The Windows Terminal arguments for the directories: `-d dir` for the
/// first, `; nt -d dir` for each further one.
pub open spec fn terminal_args_spec(dirs: Seq<Seq<char>>) -> Seq<Seq<char>>
    decreases dirs.len(),
{
    if dirs.len() == 0 {
        Seq::empty()
    } else {
        terminal_args_spec(dirs.drop_last())
            + (if dirs.len() > 1 { seq![";"@, "nt"@] } else { Seq::empty() })
            + seq!["-d"@, dirs.last()]
    }
}

/// The terminal's arguments for `paths`, or the error when one of them
/// (not a directory) has no parent; no arguments when nothing is given.
pub open spec fn terminal_arguments_spec(paths: Seq<Seq<char>>, is_dir: Seq<bool>) -> Result<Seq<Seq<char>>, TerminalError> {
    if exists|i: int| 0 <= i < paths.len() && (#[trigger] terminal_dir(paths[i], is_dir[i])) is None {
        Err(TerminalError::NoParentDirectory)
    } else {
        Ok(terminal_args_spec(Seq::new(paths.len(), |i: int| terminal_dir(paths[i], is_dir[i])->0)))
    }
}

/// The arguments that open a Windows Terminal tab in each directory of
/// `paths` (`is_dir[i]` tells whether `paths[i]` is a directory).
pub fn terminal_arguments(paths: &Vec<String>, is_dir: &Vec<bool>) -> (r: Result<Vec<String>, TerminalError>)
    requires
        is_dir.len() == paths.len(),
    ensures
        match (r, terminal_arguments_spec(views(paths@), is_dir@)) {
            (Ok(args), Ok(expected)) => views(args@) == expected,
            (Err(e), Err(f)) => e == f,
            _ => false,
        },
{
    let ghost pv = views(paths@);
    let mut dirs: Vec<String> = Vec::new();
    let mut i: usize = 0;
    while i < paths.len()
        invariant
            i <= paths.len(),
            is_dir.len() == paths.len(),
            pv == views(paths@),
            dirs.len() == i,
            forall|k: int| 0 <= k < i ==> ((#[trigger] terminal_dir(pv[k], is_dir@[k])) matches Some(d) && dirs@[k]@ == d),
        decreases paths.len() - i,
    {
        proof {
            assert(pv[i as int] == paths@[i as int]@);
        }
        if is_dir[i] {
            dirs.push(paths[i].clone());
        } else {
            match path_parent(paths[i].as_str()) {
                Some(p) => dirs.push(p),
                None => {
                    proof {
                        assert(terminal_dir(pv[i as int], is_dir@[i as int]) is None);
                    }
                    return Err(TerminalError::NoParentDirectory);
                },
            }
        }
        i += 1;
    }
    let ghost dseq = Seq::new(pv.len(), |k: int| terminal_dir(pv[k], is_dir@[k])->0);
    proof {
        assert(views(dirs@) =~= dseq);
    }
    let mut args: Vec<String> = Vec::new();
    let mut j: usize = 0;
    proof {
        assert(views(args@) =~= terminal_args_spec(dseq.take(0)));
    }
    while j < dirs.len()
        invariant
            j <= dirs.len(),
            views(dirs@) == dseq,
            views(args@) == terminal_args_spec(dseq.take(j as int)),
        decreases dirs.len() - j,
    {
        let ghost before = views(args@);
        if j > 0 {
            args.push(string_from(";"));
            args.push(string_from("nt"));
        }
        args.push(string_from("-d"));
        args.push(dirs[j].clone());
        proof {
            let t = dseq.take(j + 1);
            assert(t.drop_last() =~= dseq.take(j as int));
            assert(t.last() == dirs@[j as int]@);
            if j > 0 {
                assert(views(args@) =~= before + seq![";"@, "nt"@] + seq!["-d"@, t.last()]);
            } else {
                assert(views(args@) =~= before + Seq::<Seq<char>>::empty() + seq!["-d"@, t.last()]);
            }
        }
        j += 1;
    }
    proof {
        assert(dseq.take(dirs.len() as int) =~= dseq);
    }
    Ok(args)
}

/// Why a shortcut cannot be made: the path has no parent directory.
#[derive(Clone, Copy, Debug, PartialEq, Eq, Structural)]
pub enum ShortcutError {
    NoParentDirectory,
}

/// A string with every `'` doubled, for a single-quoted PowerShell string.
pub open spec fn escape_single_quotes(s: Seq<char>) -> Seq<char>
    decreases s.len(),
{
    if s.len() == 0 {
        Seq::empty()
    } else {
        escape_single_quotes(s.drop_last()) + if s.last() == '\'' { seq!['\'', '\''] } else { seq![s.last()] }
    }
}

/// Where the shortcut to `path` goes: `Shortcut to <stem>.lnk` beside it
/// (`Shortcut` when the path has no stem).
pub open spec fn shortcut_link_spec(path: Seq<char>) -> Option<Seq<char>> {
    match parent_spec(path) {
        None => None,
        Some(parent) => {
            let stem = match file_stem_spec(path) {
                Some(s) => s,
                None => "Shortcut"@,
            };
            Some(join_spec(parent, "Shortcut to "@ + stem + ".lnk"@))
        },
    }
}

/// The PowerShell script that creates the shortcut to `path`.
pub open spec fn shortcut_script_spec(path: Seq<char>) -> Result<Seq<char>, ShortcutError> {
    match shortcut_link_spec(path) {
        None => Err(ShortcutError::NoParentDirectory),
        Some(link) => Ok("$s = (New-Object -ComObject WScript.Shell).CreateShortcut('"@
            + escape_single_quotes(link) + "'); $s.TargetPath='"@ + escape_single_quotes(path)
            + "'; $s.Save()"@),
    }
}

/// Appends `s` with every `'` doubled.
fn push_escaped(out: &mut Vec<char>, s: &str)
    ensures
        final(out)@ == old(out)@ + escape_single_quotes(s@),
{
    let cs = chars_of(s);
    let ghost start = out@;
    let mut i: usize = 0;
    while i < cs.len()
        invariant
            i <= cs.len(),
            cs@ == s@,
            out@ == start + escape_single_quotes(cs@.take(i as int)),
        decreases cs.len() - i,
    {
        let ghost before = out@;
        if cs[i] == '\'' {
            out.push('\'');
            out.push('\'');
        } else {
            out.push(cs[i]);
        }
        proof {
            let t = cs@.take(i + 1);
            assert(t.drop_last() =~= cs@.take(i as int));
            assert(t.last() == cs@[i as int]);
            if cs@[i as int] == '\'' {
                assert(out@ =~= before + seq!['\'', '\'']);
            } else {
                assert(out@ =~= before + seq![cs@[i as int]]);
            }
            assert(out@ =~= start + escape_single_quotes(t));
        }
        i += 1;
    }
    proof {
        assert(cs@.take(cs@.len() as int) =~= cs@);
    }
}

/// The PowerShell script that creates `Shortcut to <stem>.lnk` beside `path`.
pub fn shortcut_script(path: &str) -> (r: Result<String, ShortcutError>)
    ensures
        match (r, shortcut_script_spec(path@)) {
            (Ok(s), Ok(t)) => s@ == t,
            (Err(e), Err(f)) => e == f,
            _ => false,
        },
{
    let parent = match path_parent(path) {
        Some(p) => p,
        None => return Err(ShortcutError::NoParentDirectory),
    };
    let stem = match path_file_stem(path) {
        Some(s) => s,
        None => string_from("Shortcut"),
    };
    let mut name: Vec<char> = Vec::new();
    push_str_chars(&mut name, "Shortcut to ");
    push_str_chars(&mut name, stem.as_str());
    push_str_chars(&mut name, ".lnk");
    let name = string_of(name.as_slice());
    let link = path_join(parent.as_str(), name.as_str());
    let mut out: Vec<char> = Vec::new();
    push_str_chars(&mut out, "$s = (New-Object -ComObject WScript.Shell).CreateShortcut('");
    push_escaped(&mut out, link.as_str());
    push_str_chars(&mut out, "'); $s.TargetPath='");
    push_escaped(&mut out, path);
    push_str_chars(&mut out, "'; $s.Save()");
    proof {
        assert(name@ =~= "Shortcut to "@ + stem@ + ".lnk"@);
    }
    Ok(string_of(out.as_slice()))
}

/// The earliest and latest seconds since the Unix epoch that chrono can
/// turn into a date: 1 January of year -262143, 00:00:00, to 31 December
/// of year 262142, 23:59:59.
pub const MIN_TIMESTAMP: i64 = -8334601228800;
/// See `MIN_TIMESTAMP`.
pub const MAX_TIMESTAMP: i64 = 8210266876799;

/// Whether `y` is a leap year of the proleptic Gregorian calendar.
pub open spec fn is_leap_year(y: int) -> bool {
    y % 4 == 0 && (y % 100 != 0 || y % 400 == 0)
}

/// The number of days of month `m` (1 to 12) of year `y`.
pub open spec fn days_in_month(y: int, m: int) -> int {
    if m == 2 {
        if is_leap_year(y) { 29 } else { 28 }
    } else if m == 4 || m == 6 || m == 9 || m == 11 {
        30
    } else {
        31
    }
}

/// The number of days of year `y` before month `m` starts.
pub open spec fn days_before_month(y: int, m: int) -> int
    decreases m,
{
    if m <= 1 { 0 } else { days_before_month(y, m - 1) + days_in_month(y, m - 1) }
}

/// The number of days from 1 January of year 1 to 1 January of year `y`
/// (negative before year 1; year 0 is the leap year before year 1).
pub open spec fn days_before_year(y: int) -> int {
    365 * (y - 1) + (y - 1) / 4 - (y - 1) / 100 + (y - 1) / 400
}

/// The day `d` of month `m` of year `y`, counted in days from 1 January 1970.
pub open spec fn day_number(y: int, m: int, d: int) -> int {
    days_before_year(y) + days_before_month(y, m) + d - 1 - 719162
}

/// The calendar date and the hour and minute, in the proleptic Gregorian
/// calendar, of `secs` seconds after 1 January 1970 00:00: year, month
/// (1 to 12), day, hour (0 to 23) and minute (0 to 59).
pub open spec fn civil_minute(secs: int) -> (int, int, int, int, int) {
    let n = secs / 86400;
    let sod = secs % 86400;
    let (y, m, d) = choose|y: int, m: int, d: int|
        1 <= m <= 12 && 1 <= d <= days_in_month(y, m) && day_number(y, m, d) == n;
    (y, m, d, sod / 3600, (sod % 3600) / 60)
}

/// `digits` with `0`s in front up to `width` characters.
pub open spec fn zero_padded(digits: Seq<char>, width: int) -> Seq<char> {
    if digits.len() >= width {
        digits
    } else {
        Seq::new((width - digits.len()) as nat, |_i: int| '0') + digits
    }
}

/// How `%Y` writes a year: four digits (zero-padded) for years 0 to 9999,
/// otherwise a sign and the digits, at least four of them.
pub open spec fn year_field(y: int) -> Seq<char> {
    if 0 <= y <= 9999 {
        zero_padded(decimal_seq(y as nat), 4)
    } else if y > 9999 {
        seq!['+'] + decimal_seq(y as nat)
    } else {
        seq!['-'] + zero_padded(decimal_seq((-y) as nat), 4)
    }
}

/// Two zero-padded digits of `v` (0 to 99), as `%m`, `%d`, `%H`, `%M` write them.
pub open spec fn two_digit_field(v: int) -> Seq<char> {
    seq![digit_char((v / 10) as nat), digit_char((v % 10) as nat)]
}

/// `%Y-%m-%d %H:%M` of the date and minute of `secs` seconds after the epoch.
pub open spec fn minute_text(secs: int) -> Seq<char> {
    let (y, m, d, h, mi) = civil_minute(secs);
    year_field(y) + "-"@ + two_digit_field(m) + "-"@ + two_digit_field(d) + " "@ + two_digit_field(h) + ":"@
        + two_digit_field(mi)
}

/// Whether `text` is the date and minute of `secs` seconds after the epoch
/// in some time zone: the local second count differs from `secs` by an
/// offset of less than a day either way.
pub open spec fn shows_local_minute(text: Seq<char>, secs: int) -> bool {
    exists|local: int| -86400 < local - secs < 86400 && text == #[trigger] minute_text(local)
}

/// `chrono::DateTime::<Utc>::from_timestamp`, then `with_timezone(&Local)`
/// and `format("%Y-%m-%d %H:%M")`: the local date and minute of `secs`
/// seconds after the Unix epoch. `from_timestamp` gives a date for every
/// `secs` in the range that `requires` admits; the local time is that
/// instant moved by the zone's offset, which chrono keeps strictly within
/// one day (`FixedOffset`), and chrono writes the proleptic Gregorian date
/// and time of it as `minute_text` does. Which offset applies depends on
/// the machine's time zone, so it is left open.
#[verifier::external_body]
fn format_local_minutes(secs: i64) -> (r: String)
    requires
        MIN_TIMESTAMP <= secs <= MAX_TIMESTAMP,
    ensures
        shows_local_minute(r@, secs as int),
{
    chrono::DateTime::<chrono::Utc>::from_timestamp(secs, 0).unwrap().with_timezone(&chrono::Local).format(
        "%Y-%m-%d %H:%M",
    ).to_string()
}

/// A listed time (whole seconds since the Unix epoch, rounded down) as the
/// local date and minute (`YYYY-MM-DD HH:MM`); empty when the item has no time.
pub fn format_system_time(time: Option<i64>) -> (r: String)
    requires
        match time {
            Some(t) => MIN_TIMESTAMP <= t <= MAX_TIMESTAMP,
            None => true,
        },
    ensures
        match time {
            Some(t) => shows_local_minute(r@, t as int),
            None => r@.len() == 0,
        },
{
    match time {
        Some(t) => format_local_minutes(t),
        None => String::new(),
    }
}

/// A file tag as the configuration stores it.
#[derive(Clone, Debug)]
pub struct FileTagEntry {
    pub name: String,
    pub paths: Vec<String>,
}

/// The paths of the first tag named `tag_name`, or none.
pub open spec fn tag_paths_spec(tags: Seq<FileTagEntry>, tag_name: Seq<char>) -> Seq<Seq<char>>
    decreases tags.len(),
{
    if tags.len() == 0 {
        Seq::empty()
    } else if tags[0].name@ == tag_name {
        views(tags[0].paths@)
    } else {
        tag_paths_spec(tags.drop_first(), tag_name)
    }
}

/// The paths stored for tag `tag_name` (the first tag of that name); the
/// caller keeps those that exist (`keep_existing`).
pub fn paths_for_file_tag(tag_name: &str, tags: &Vec<FileTagEntry>) -> (r: Vec<String>)
    ensures
        views(r@) == tag_paths_spec(tags@, tag_name@),
{
    let mut i: usize = 0;
    proof {
        assert(tags@.skip(0) =~= tags@);
    }
    while i < tags.len()
        invariant
            i <= tags.len(),
            tag_paths_spec(tags@, tag_name@) == tag_paths_spec(tags@.skip(i as int), tag_name@),
        decreases tags.len() - i,
    {
        proof {
            assert(tags@.skip(i as int)[0] == tags@[i as int]);
            assert(tags@.skip(i as int).drop_first() =~= tags@.skip(i + 1));
        }
        if crate::text::str_equal(tags[i].name.as_str(), tag_name) {
            return crate::selection::clone_strings(&tags[i].paths);
        }
        i += 1;
    }
    Vec::new()
}

/// The paths whose `exists` flag is set, in order.
pub fn keep_existing(paths: &Vec<String>, exists: &Vec<bool>) -> (r: Vec<String>)
    requires
        exists.len() == paths.len(),
    ensures
        views(r@) == Seq::new(paths.len() as nat, |i: int| (paths@[i]@, exists@[i])).filter(|e: (Seq<char>, bool)| e.1).map_values(|e: (Seq<char>, bool)| e.0),
{
    let ghost pairs = Seq::new(paths.len() as nat, |i: int| (paths@[i]@, exists@[i]));
    let ghost f = |e: (Seq<char>, bool)| e.1;
    let ghost g = |e: (Seq<char>, bool)| e.0;
    let mut r: Vec<String> = Vec::new();
    let mut i: usize = 0;
    proof {
        assert(pairs.take(0) =~= Seq::<(Seq<char>, bool)>::empty());
        assert(Seq::<(Seq<char>, bool)>::empty().filter(f) =~= Seq::<(Seq<char>, bool)>::empty());
        assert(views(r@) =~= pairs.take(0).filter(f).map_values(g));
    }
    while i < paths.len()
        invariant
            i <= paths.len(),
            exists.len() == paths.len(),
            pairs == Seq::new(paths.len() as nat, |i: int| (paths@[i]@, exists@[i])),
            f == |e: (Seq<char>, bool)| e.1,
            g == |e: (Seq<char>, bool)| e.0,
            views(r@) == pairs.take(i as int).filter(f).map_values(g),
        decreases paths.len() - i,
    {
        let ghost before = views(r@);
        proof {
            assert(pairs.take(i + 1) =~= pairs.take(i as int).push(pairs[i as int]));
            pairs.take(i as int).lemma_filter_push(pairs[i as int], f);
        }
        if exists[i] {
            r.push(paths[i].clone());
            proof {
                assert(views(r@) =~= before.push(paths@[i as int]@));
                assert(pairs.take(i as int).filter(f).push(pairs[i as int]).map_values(g)
                    =~= pairs.take(i as int).filter(f).map_values(g).push(paths@[i as int]@));
            }
        }
        i += 1;
    }
    proof {
        assert(pairs.take(paths.len() as int) =~= pairs);
    }
    r
}

/// A directory listing from what reading the directory gave: the items, or
/// no items and the error's message.
pub fn load_files_dir(read: Result<Vec<FileItem>, String>) -> (r: (Vec<FileItem>, Option<String>))
    ensures
        match read {
            Ok(items) => r.0@ == items@ && r.1 is None,
            Err(message) => r.0@.len() == 0 && r.1 == Some(message),
        },
{
    match read {
        Ok(items) => (items, None),
        Err(message) => (Vec::new(), Some(message)),
    }
}


/// Whether `a` gives directory `j` of `dirs` (for `j >= 1`) a tab of its
/// own: the four arguments before it are `;`, `nt`, `-d` and the directory.
pub open spec fn opens_new_tab(a: Seq<Seq<char>>, dirs: Seq<Seq<char>>, j: int) -> bool {
    &&& a[4 * j - 2] == ";"@
    &&& a[4 * j - 1] == "nt"@
    &&& a[4 * j] == "-d"@
    &&& a[4 * j + 1] == dirs[j]
}

/// Law: for `k >= 1` directories the terminal gets `4k - 2` arguments: `-d`
/// and the first directory, then for every further directory `j` the four
/// arguments `;`, `nt`, `-d` and that directory, so each opens its own tab.
pub proof fn law_terminal_tab_per_directory(dirs: Seq<Seq<char>>)
    requires
        dirs.len() >= 1,
    ensures
        terminal_args_spec(dirs).len() == 4 * dirs.len() - 2,
        terminal_args_spec(dirs)[0] == "-d"@,
        terminal_args_spec(dirs)[1] == dirs[0],
        forall|j: int| 1 <= j < dirs.len() ==> #[trigger] opens_new_tab(terminal_args_spec(dirs), dirs, j),
    decreases dirs.len(),
{
    let a = terminal_args_spec(dirs);
    if dirs.len() > 1 {
        let d = dirs.drop_last();
        law_terminal_tab_per_directory(d);
        let b = terminal_args_spec(d);
        assert(a =~= b + seq![";"@, "nt"@, "-d"@, dirs.last()]);
        assert(b.len() == 4 * d.len() - 2);
        assert forall|j: int| 1 <= j < dirs.len() implies #[trigger] opens_new_tab(a, dirs, j) by {
            if j < dirs.len() - 1 {
                assert(opens_new_tab(b, d, j));
                assert(d[j] == dirs[j]);
                assert(a[4 * j - 2] == b[4 * j - 2]);
                assert(a[4 * j - 1] == b[4 * j - 1]);
                assert(a[4 * j] == b[4 * j]);
                assert(a[4 * j + 1] == b[4 * j + 1]);
            } else {
                assert(4 * j - 2 == b.len());
                assert(dirs[j] == dirs.last());
                assert(a[4 * j - 2] == ";"@);
                assert(a[4 * j - 1] == "nt"@);
                assert(a[4 * j] == "-d"@);
            }
        }
        assert(d[0] == dirs[0]);
        assert(a[0] == b[0] && a[1] == b[1]);
    } else {
        assert(dirs.drop_last() =~= Seq::<Seq<char>>::empty());
        assert(terminal_args_spec(dirs.drop_last()) =~= Seq::<Seq<char>>::empty());
        assert(a =~= seq!["-d"@, dirs.last()]);
        assert(dirs.last() == dirs[0]);
    }
}

} // verus!
