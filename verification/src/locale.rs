//! The app's language: a system or user locale tag is mapped to English,
//! Simplified Chinese or one Traditional Chinese locale.
use vstd::prelude::*;
use crate::text::{chars_of, lower_chars, lower_seq, lower_char, starts_with_chars, contains_chars,
    starts_with_seq, contains_seq};
use crate::language::eq_lit;

verus! {

/// The Traditional Chinese locale the app uses for HK, TW, MO, SG and `zh-Hant`.
pub const LOCALE_ZH_HANT: &'static str = "zh-HK";

/// The Simplified Chinese locale.
pub const LOCALE_ZH_HANS: &'static str = "zh-CN";

/// Whether a lowercase locale tag names Traditional Chinese.
pub open spec fn traditional_spec(l: Seq<char>) -> bool {
    starts_with_seq(l, "zh-hk"@) || starts_with_seq(l, "zh-tw"@) || starts_with_seq(l, "zh-mo"@)
        || starts_with_seq(l, "zh-sg"@) || starts_with_seq(l, "zh-hant"@) || contains_seq(l, "-hant"@)
}

/// The locale the app uses for a locale tag.
pub open spec fn normalize_locale_spec(locale: Seq<char>) -> Seq<char> {
    let l = lower_seq(locale);
    if l == "en"@ || starts_with_seq(l, "en-"@) {
        "en"@
    } else if traditional_spec(l) {
        "zh-HK"@
    } else if starts_with_seq(l, "zh"@) {
        "zh-CN"@
    } else {
        "en"@
    }
}

/// The locales the app can show.
pub open spec fn supported_locale(l: Seq<char>) -> bool {
    l == "en"@ || l == "zh-CN"@ || l == "zh-HK"@
}

/// Taiwan, Hong Kong, Macau, Singapore and explicit `zh-Hant` (in a
/// lowercase tag) are Traditional Chinese.
pub fn is_traditional_chinese(locale: &str) -> (r: bool)
    ensures
        r == traditional_spec(locale@),
{
    let l = chars_of(locale);
    let l = l.as_slice();
    let a = chars_of("zh-hk");
    let b = chars_of("zh-tw");
    let c = chars_of("zh-mo");
    let d = chars_of("zh-sg");
    let e = chars_of("zh-hant");
    let f = chars_of("-hant");
    starts_with_chars(l, a.as_slice()) || starts_with_chars(l, b.as_slice()) || starts_with_chars(
        l,
        c.as_slice(),
    ) || starts_with_chars(l, d.as_slice()) || starts_with_chars(l, e.as_slice()) || contains_chars(
        l,
        f.as_slice(),
    )
}

/// Maps region and script tags to `en`, `zh-CN` or the unified Traditional
/// `zh-HK`; the tag is matched without regard to ASCII case.
pub fn normalize_locale(locale: &str) -> (r: &'static str)
    ensures
        r@ == normalize_locale_spec(locale@),
{
    let cs = chars_of(locale);
    let l = lower_chars(cs.as_slice());
    let l = l.as_slice();
    let en_dash = chars_of("en-");
    let zh = chars_of("zh");
    if eq_lit(l, "en") || starts_with_chars(l, en_dash.as_slice()) {
        return "en";
    }
    let ls = crate::text::string_of(l);
    if is_traditional_chinese(ls.as_str()) {
        return LOCALE_ZH_HANT;
    }
    if starts_with_chars(l, zh.as_slice()) {
        return LOCALE_ZH_HANS;
    }
    "en"
}

/// The locale for what the system reported: its normalized form, or `en`
/// when the system reported none.
pub fn locale_for_system(detected: Option<String>) -> (r: &'static str)
    ensures
        r@ == match detected {
            Some(l) => normalize_locale_spec(l@),
            None => "en"@,
        },
{
    match detected {
        Some(l) => normalize_locale(l.as_str()),
        None => "en",
    }
}

/// Law: whatever tag is given, the locale chosen is one the app supports.
pub proof fn law_normalized_locale_is_supported(locale: Seq<char>)
    ensures
        supported_locale(normalize_locale_spec(locale)),
{
}

/// Law: normalizing a locale the app already uses keeps it.
pub proof fn law_normalize_locale_idempotent(locale: Seq<char>)
    ensures
        normalize_locale_spec(normalize_locale_spec(locale)) == normalize_locale_spec(locale),
{
    reveal_strlit("en");
    reveal_strlit("en-");
    reveal_strlit("zh-CN");
    reveal_strlit("zh-HK");
    reveal_strlit("zh-hk");
    reveal_strlit("zh");
    let n = normalize_locale_spec(locale);
    if n == "en"@ {
        assert(lower_seq(n)[0] == lower_char(n[0]));
        assert(lower_seq(n)[1] == lower_char(n[1]));
        assert(lower_seq(n) =~= "en"@);
    } else if n == "zh-HK"@ {
        let l = lower_seq(n);
        assert((('H' as u32) + 32) as char == 'h');
        assert((('K' as u32) + 32) as char == 'k');
        assert(l[0] == lower_char(n[0]));
        assert(l[1] == lower_char(n[1]));
        assert(l[2] == lower_char(n[2]));
        assert(l[3] == lower_char(n[3]));
        assert(l[4] == lower_char(n[4]));
        assert(l =~= "zh-hk"@);
        assert(l.take(5) =~= "zh-hk"@);
        assert(l != "en"@);
        assert(!starts_with_seq(l, "en-"@));
    } else {
        assert(n == "zh-CN"@);
        let l = lower_seq(n);
        assert((('C' as u32) + 32) as char == 'c');
        assert((('N' as u32) + 32) as char == 'n');
        assert(l[0] == lower_char(n[0]));
        assert(l[1] == lower_char(n[1]));
        assert(l[2] == lower_char(n[2]));
        assert(l[3] == lower_char(n[3]));
        assert(l[4] == lower_char(n[4]));
        assert(l =~= seq!['z', 'h', '-', 'c', 'n']);
        assert(l.take(2) =~= "zh"@);
        assert(l != "en"@);
        assert(!starts_with_seq(l, "en-"@)) by {
            assert(l.take(3)[0] != "en-"@[0]);
        }
        reveal_strlit("zh-tw");
        reveal_strlit("zh-mo");
        reveal_strlit("zh-sg");
        reveal_strlit("zh-hant");
        reveal_strlit("-hant");
        assert(!starts_with_seq(l, "zh-hk"@)) by {
            assert(l.take(5)[3] != "zh-hk"@[3]);
        }
        assert(!starts_with_seq(l, "zh-tw"@)) by {
            assert(l.take(5)[3] != "zh-tw"@[3]);
        }
        assert(!starts_with_seq(l, "zh-mo"@)) by {
            assert(l.take(5)[3] != "zh-mo"@[3]);
        }
        assert(!starts_with_seq(l, "zh-sg"@)) by {
            assert(l.take(5)[3] != "zh-sg"@[3]);
        }
        assert(!starts_with_seq(l, "zh-hant"@));
        assert(!contains_seq(l, "-hant"@)) by {
            assert forall|at: int| !crate::text::occurs_at(l, "-hant"@, at) by {
                if 0 <= at && at + 5 <= l.len() {
                    assert(at == 0);
                    assert(l.subrange(0, 5)[0] != "-hant"@[0]);
                }
            }
        }
    }
}

/// `sys_locale::get_locale`: the locale the operating system reports for
/// the user, if any. What it reports depends on the machine and the
/// environment, so nothing is stated of it.
#[verifier::external_body]
fn system_locale() -> (r: Option<String>)
{
    sys_locale::get_locale()
}

/// `rust_i18n::set_locale`: makes `locale` the process-wide locale that
/// translations are looked up in. It returns nothing to state.
#[verifier::external_body]
fn apply_translation_locale(locale: &str)
{
    rust_i18n::set_locale(locale);
}

/// Switches the app's translations to the normalized form of `locale` and
/// returns that form (for the UI toolkit's own strings).
pub fn set_locale(locale: &str) -> (applied: &'static str)
    ensures
        applied@ == normalize_locale_spec(locale@),
{
    let applied = normalize_locale(locale);
    apply_translation_locale(applied);
    applied
}

/// Detects the system locale and applies `en`, `zh-CN` or `zh-HK`; returns
/// the locale applied.
pub fn init_locale() -> (applied: &'static str)
    ensures
        supported_locale(applied@),
{
    let detected = system_locale();
    let locale = locale_for_system(detected);
    let applied = set_locale(locale);
    proof {
        law_normalized_locale_is_supported(applied@);
    }
    applied
}

} // verus!
