//! Texts and command lines the file browser derives from paths: type
//! labels, drag previews, the rename selection, terminal arguments, the
//! shortcut script and listed times.
use vstd::prelude::*;
use crate::model::{FileItem, FileItemKind};
use crate::path::{extension_spec, file_stem_spec, file_name_spec, parent_spec, join_spec,
    path_extension, path_file_stem, path_file_name, path_parent, path_join};
use crate::text::{chars_of, string_of, string_from, push_str_chars, push_chars, decimal_seq,
    push_decimal, ends_with_seq, ends_with_chars, chars_equal};
use crate::selection::views;

verus! {

broadcast use crate::text::lemma_chars_deep_view;

/// The Unicode uppercase form of a string (`str::to_uppercase`), which the
/// Unicode case tables define.
pub uninterp spec fn unicode_uppercase(s: Seq<char>) -> Seq<char>;

/// `str::to_uppercase`: the string's Unicode uppercase form, a function of
/// the string alone (named `unicode_uppercase`).
#[verifier::external_body]
fn to_uppercase(s: &str) -> (r: String)
    ensures
        r@ == unicode_uppercase(s@),
{
    s.to_uppercase()
}

/// The translated words the type labels use.
#[derive(Debug)]
pub struct TypeLabels {
    pub folder: String,
    pub symlink: String,
    pub other: String,
    pub file: String,
}

/// The type shown for an item: the translated kind, or for a file with an
/// extension the uppercased extension followed by ` file`.
pub open spec fn item_type_label_spec(kind: FileItemKind, extension: Option<Seq<char>>, labels: TypeLabels) -> Seq<char> {
    match kind {
        FileItemKind::Folder => labels.folder@,
        FileItemKind::Symlink => labels.symlink@,
        FileItemKind::Other => labels.other@,
        FileItemKind::File => match extension {
            Some(e) => unicode_uppercase(e) + " file"@,
            None => labels.file@,
        },
    }
}

/// The type shown for an item.
pub fn item_type_label(item: &FileItem, labels: &TypeLabels) -> (r: String)
    ensures
        r@ == item_type_label_spec(item.kind, crate::icons::opt_string_view(item.extension), *labels),
{
    match item.kind {
        FileItemKind::Folder => labels.folder.clone(),
        FileItemKind::Symlink => labels.symlink.clone(),
        FileItemKind::Other => labels.other.clone(),
        FileItemKind::File => match &item.extension {
            Some(e) => {
                let upper = to_uppercase(e.as_str());
                let mut out = chars_of(upper.as_str());
                push_str_chars(&mut out, " file");
                string_of(out.as_slice())
            },
            None => labels.file.clone(),
        },
    }
}

/// The label of a drag preview: the dragged item's name (or the word for a
/// file when it has none), or the count and the word for items.
pub open spec fn drag_preview_label_spec(paths: Seq<Seq<char>>, file_word: Seq<char>, items_word: Seq<char>) -> Seq<char> {
    if paths.len() == 1 {
        match file_name_spec(paths[0]) {
            Some(n) => n,
            None => file_word,
        }
    } else {
        decimal_seq(paths.len()) + seq![' '] + items_word
    }
}

/// The label of a drag preview.
pub fn drag_preview_label(paths: &Vec<String>, file_word: &str, items_word: &str) -> (r: String)
    requires
        paths.len() <= u64::MAX,
    ensures
        r@ == drag_preview_label_spec(views(paths@), file_word@, items_word@),
{
    if paths.len() == 1 {
        proof {
            assert(views(paths@)[0] == paths@[0]@);
        }
        return match path_file_name(paths[0].as_str()) {
            Some(n) => n,
            None => string_from(file_word),
        };
    }
    let mut out: Vec<char> = Vec::new();
    push_decimal(&mut out, paths.len() as u64);
    out.push(' ');
    push_str_chars(&mut out, items_word);
    proof {
        assert(out@ =~= decimal_seq(paths.len() as nat) + seq![' '] + items_word@);
    }
    string_of(out.as_slice())
}

/// The number of UTF-16 code units of a string.
pub open spec fn utf16_len(s: Seq<char>) -> nat
    decreases s.len(),
{
    if s.len() == 0 {
        0
    } else {
        utf16_len(s.drop_last()) + if (s.last() as u32) > 0xFFFF { 2nat } else { 1nat }
    }
}

proof fn lemma_utf16_len_bound(s: Seq<char>)
    ensures
        utf16_len(s) <= 2 * s.len(),
    decreases s.len(),
{
    if s.len() > 0 {
        lemma_utf16_len_bound(s.drop_last());
    }
}

/// The UTF-16 length of a character sequence.
fn utf16_count(s: &[char]) -> (n: usize)
    requires
        2 * s.len() <= usize::MAX,
    ensures
        n == utf16_len(s@),
{
    let mut n: usize = 0;
    let mut i: usize = 0;
    while i < s.len()
        invariant
            i <= s.len(),
            2 * s.len() <= usize::MAX,
            n == utf16_len(s@.take(i as int)),
        decreases s.len() - i,
    {
        proof {
            assert(s@.take(i + 1).drop_last() =~= s@.take(i as int));
            lemma_utf16_len_bound(s@.take(i as int));
        }
        if (s[i] as u32) > 0xFFFF {
            n = n + 2;
        } else {
            n = n + 1;
        }
        i += 1;
    }
    proof {
        assert(s@.take(s@.len() as int) =~= s@);
    }
    n
}

/// Where the rename box's selection ends so that only the base name is
/// selected: the UTF-16 length of the stem, for a file whose default name
/// is its stem, a dot and its non-empty extension.
pub open spec fn rename_selection_end_spec(path: Seq<char>, default_name: Seq<char>, is_file: bool) -> Option<nat> {
    match extension_spec(path) {
        None => None,
        Some(ext) => if !is_file || ext.len() == 0 {
            None
        } else {
            match file_stem_spec(path) {
                None => None,
                Some(stem) => if ends_with_seq(default_name, ext) {
                    let rest = default_name.take(default_name.len() - ext.len());
                    if rest.len() > 0 && rest.last() == '.' && rest.drop_last() == stem {
                        Some(utf16_len(stem))
                    } else {
                        None
                    }
                } else {
                    None
                },
            }
        },
    }
}

/// Where the rename selection ends (see `rename_selection_end_spec`);
/// `is_file` is whether the path is a file.
pub fn rename_basename_selection_end(path: &str, default_name: &str, is_file: bool) -> (r: Option<usize>)
    requires
        2 * default_name@.len() <= usize::MAX,
    ensures
        match r {
            Some(n) => rename_selection_end_spec(path@, default_name@, is_file) == Some(n as nat),
            None => rename_selection_end_spec(path@, default_name@, is_file) is None,
        },
{
    let ext = match path_extension(path) {
        Some(e) => e,
        None => return None,
    };
    let e = chars_of(ext.as_str());
    if !is_file || e.len() == 0 {
        return None;
    }
    let stem = match path_file_stem(path) {
        Some(s) => s,
        None => return None,
    };
    let name = chars_of(default_name);
    if !ends_with_chars(name.as_slice(), e.as_slice()) {
        return None;
    }
    let keep = name.len() - e.len();
    if keep == 0 || name[keep - 1] != '.' {
        proof {
            let rest = name@.take(keep as int);
            if keep > 0 {
                assert(rest.last() == name@[keep - 1]);
            }
        }
        return None;
    }
    let stem_chars = chars_of(stem.as_str());
    let mut rest: Vec<char> = Vec::new();
    let mut i: usize = 0;
    while i < keep - 1
        invariant
            i <= keep - 1,
            keep <= name.len(),
            rest@ == name@.take(i as int),
        decreases keep - 1 - i,
    {
        rest.push(name[i]);
        proof {
            assert(name@.take(i + 1) =~= name@.take(i as int).push(name@[i as int]));
        }
        i += 1;
    }
    proof {
        assert(name@.take(keep as int).drop_last() =~= name@.take(keep - 1));
        assert(name@.take(keep as int).last() == name@[keep - 1]);
    }
    if !chars_equal(rest.as_slice(), stem_chars.as_slice()) {
        return None;
    }
    Some(utf16_count(stem_chars.as_slice()))
}


/// Two to the power `k`.
pub open spec fn pow2(k: nat) -> nat
    decreases k,
{
    if k == 0 { 1 } else { 2 * pow2((k - 1) as nat) }
}

/// `n / d` rounded to the nearest whole number, ties to the even one.
pub open spec fn div_round_even(n: nat, d: nat) -> nat {
    let q = n / d;
    let r = n % d;
    if 2 * r > d || (2 * r == d && q % 2 == 1) { q + 1 } else { q }
}

/// How many times `n` is halved before it is below 2^53: the scale of the
/// last bit an `f64` keeps of `n`.
pub open spec fn f64_scale(n: nat) -> nat
    decreases n,
{
    if n < 9007199254740992 { 0 } else { 1 + f64_scale(n / 2) }
}

/// The value of `n as f64`: `n` rounded to 53 significant bits, ties to even.
pub open spec fn f64_value(n: nat) -> nat {
    let s = f64_scale(n);
    div_round_even(n, pow2(s)) * pow2(s)
}

/// The unit a size is shown in: how many times 1024 fits (up to terabytes).
pub open spec fn size_unit(v: nat) -> nat {
    if v >= pow2(40) { 4 } else if v >= pow2(30) { 3 } else if v >= pow2(20) { 2 } else if v >= pow2(10) { 1 } else { 0 }
}

/// The name of a size unit.
pub open spec fn unit_name(u: nat) -> Seq<char> {
    if u == 0 { "B"@ } else if u == 1 { "KB"@ } else if u == 2 { "MB"@ } else if u == 3 { "GB"@ } else { "TB"@ }
}

/// A file size as the list shows it: bytes as a whole number below 1 KB,
/// otherwise the size (as an `f64`) in the largest unit up to TB that it
/// reaches, with one decimal (rounded to nearest, ties to even); empty for
/// no size.
pub open spec fn format_size_spec(size: Option<u64>) -> Seq<char> {
    match size {
        None => Seq::empty(),
        Some(n) => {
            let v = f64_value(n as nat);
            let u = size_unit(v);
            if u == 0 {
                decimal_seq(n as nat) + " B"@
            } else {
                let tenths = div_round_even(10 * v, pow2(10 * u));
                decimal_seq(tenths / 10) + seq!['.'] + decimal_seq(tenths % 10) + seq![' '] + unit_name(u)
            }
        },
    }
}

proof fn lemma_pow2_values()
    ensures
        pow2(10) == 1024,
        pow2(20) == 1048576,
        pow2(30) == 1073741824,
        pow2(40) == 1099511627776,
        pow2(53) == 9007199254740992,
{
    reveal_with_fuel(pow2, 54);
}

proof fn lemma_pow2_large()
    ensures
        pow2(0) == 1, pow2(1) == 2, pow2(2) == 4, pow2(3) == 8, pow2(4) == 16, pow2(5) == 32,
        pow2(6) == 64, pow2(7) == 128, pow2(8) == 256, pow2(9) == 512, pow2(10) == 1024, pow2(11) == 2048,
        pow2(53) == 9007199254740992,
        pow2(54) == 18014398509481984,
        pow2(55) == 36028797018963968,
        pow2(56) == 72057594037927936,
        pow2(57) == 144115188075855872,
        pow2(58) == 288230376151711744,
        pow2(59) == 576460752303423488,
        pow2(60) == 1152921504606846976,
        pow2(61) == 2305843009213693952,
        pow2(62) == 4611686018427387904,
        pow2(63) == 9223372036854775808,
        pow2(64) == 18446744073709551616,
{
    reveal_with_fuel(pow2, 65);
}

proof fn lemma_pow2_succ(k: nat)
    ensures
        pow2(k + 1) == 2 * pow2(k),
{
}

/// A number between 2^(52+s) and 2^(53+s) keeps its bits from 2^s up.
proof fn lemma_f64_scale(n: nat, s: nat)
    requires
        pow2(52 + s) <= n < pow2(53 + s),
    ensures
        f64_scale(n) == s,
    decreases s,
{
    lemma_pow2_values();
    if s == 0 {
    } else {
        lemma_pow2_succ((51 + s) as nat);
        lemma_pow2_succ((52 + s) as nat);
        lemma_pow2_ge_53((52 + s) as nat);
        lemma_f64_scale(n / 2, (s - 1) as nat);
    }
}

proof fn lemma_pow2_ge_53(k: nat)
    requires
        k >= 53,
    ensures
        pow2(k) >= pow2(53),
    decreases k,
{
    if k > 53 {
        lemma_pow2_ge_53((k - 1) as nat);
    }
}

/// `n as f64` for a `u64`, as an integer (it can reach 2^64).
fn f64_value_of(n: u64) -> (v: u128)
    ensures
        v == f64_value(n as nat),
        v <= 0x1_0000_0000_0000_0000u128,
{
    proof {
        lemma_pow2_values();
        lemma_pow2_large();
    }
    let (s, d): (u64, u64) = if n >= 9223372036854775808 { (11, 2048) }
        else if n >= 4611686018427387904 { (10, 1024) }
        else if n >= 2305843009213693952 { (9, 512) }
        else if n >= 1152921504606846976 { (8, 256) }
        else if n >= 576460752303423488 { (7, 128) }
        else if n >= 288230376151711744 { (6, 64) }
        else if n >= 144115188075855872 { (5, 32) }
        else if n >= 72057594037927936 { (4, 16) }
        else if n >= 36028797018963968 { (3, 8) }
        else if n >= 18014398509481984 { (2, 4) }
        else if n >= 9007199254740992 { (1, 2) }
        else { (0, 1) };
    proof {
        if s > 0 {
            lemma_f64_scale(n as nat, s as nat);
        }
        assert(pow2(s as nat) == d);
    }
    let q: u64 = n / d;
    let r: u64 = n % d;
    let rounded: u64 = if 2 * r > d || (2 * r == d && q % 2 == 1) { q + 1 } else { q };
    proof {
        assert(q < 9007199254740992) by (nonlinear_arith)
            requires q == n as int / d as int, d >= 1, n < 9007199254740992int * d as int;
        assert(rounded as int * d as int <= 0x1_0000_0000_0000_0000int) by (nonlinear_arith)
            requires rounded <= 9007199254740992int, n < 9007199254740992int * d as int, d <= 2048,
                rounded <= q + 1, q == n as int / d as int, d >= 1,
                (d == 2048 ==> n >= 9223372036854775808int), n <= 18446744073709551615int;
    }
    let v: u128 = rounded as u128 * d as u128;
    v
}

/// The decimal digits of a `u128` below 2^64.
fn push_decimal_u128(out: &mut Vec<char>, n: u128)
    requires
        n <= u64::MAX,
    ensures
        final(out)@ == old(out)@ + decimal_seq(n as nat),
{
    push_decimal(out, n as u64);
}

/// A file size as the list shows it (see `format_size_spec`).
pub fn format_size(size: Option<u64>) -> (r: String)
    ensures
        r@ == format_size_spec(size),
{
    let n = match size {
        None => return String::new(),
        Some(n) => n,
    };
    proof {
        lemma_pow2_values();
    }
    let v = f64_value_of(n);
    let (unit, scale, name): (u32, u128, &str) = if v >= 1099511627776 {
        (4, 1099511627776, "TB")
    } else if v >= 1073741824 {
        (3, 1073741824, "GB")
    } else if v >= 1048576 {
        (2, 1048576, "MB")
    } else if v >= 1024 {
        (1, 1024, "KB")
    } else {
        (0, 1, "B")
    };
    let mut out: Vec<char> = Vec::new();
    if unit == 0 {
        push_decimal(&mut out, n);
        push_str_chars(&mut out, " B");
        proof {
            assert(size_unit(v as nat) == 0);
        }
        return string_of(out.as_slice());
    }
    proof {
        assert(size_unit(v as nat) == unit as nat);
        assert(pow2(10 * unit as nat) == scale);
        reveal_strlit("TB");
        reveal_strlit("GB");
        reveal_strlit("MB");
        reveal_strlit("KB");
        assert(name@ == unit_name(unit as nat));
    }
    let ten_v: u128 = 10 * v;
    let q: u128 = ten_v / scale;
    let rem: u128 = ten_v % scale;
    let tenths: u128 = if 2 * rem > scale || (2 * rem == scale && q % 2 == 1) { q + 1 } else { q };
    proof {
        assert(tenths / 10 <= u64::MAX) by (nonlinear_arith)
            requires tenths <= ten_v / scale + 1, ten_v == 10 * v, v <= 0x1_0000_0000_0000_0000u128, scale >= 1024;
    }
    push_decimal_u128(&mut out, tenths / 10);
    out.push('.');
    push_decimal_u128(&mut out, tenths % 10);
    out.push(' ');
    push_str_chars(&mut out, name);
    proof {
        assert(out@ =~= decimal_seq((tenths / 10) as nat) + seq!['.'] + decimal_seq((tenths % 10) as nat) + seq![' '] + name@);
    }
    string_of(out.as_slice())
}
} // verus!
