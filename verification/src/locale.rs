//! Locales: reading a POSIX locale name as a BCP-47 tag.

use crate::text::{copy_str, first_segment, replace, replace_all, str_eq};
use icu_locale::Locale;
use vstd::prelude::*;

verus! {

/// A locale identifier of `icu_locale`, carried through the library unread.
#[verifier::external_type_specification]
#[verifier::external_body]
pub struct ExLocale(Locale);

/// Whether `icu_locale::Locale::try_from_str` accepts the text `s` (the
/// grammar of BCP-47 language tags with Unicode extensions).
pub uninterp spec fn locale_tag_valid(s: Seq<char>) -> bool;

/// The canonical tag of the locale that `icu_locale::Locale::try_from_str`
/// makes of the text `s`: what that locale writes as (`Display`).
pub uninterp spec fn canonical_locale_tag(s: Seq<char>) -> Seq<char>;

/// `s.parse::<icu_locale::Locale>()`, with the locale's canonical tag
/// (`to_string`); none where the text is no locale.
#[verifier::external_body]
fn parse_locale_tag(s: &str) -> (res: Option<(Locale, String)>)
    ensures
        res is Some <==> locale_tag_valid(s@),
        res matches Some((_, tag)) ==> tag@ == canonical_locale_tag(s@),
{
    match s.parse::<Locale>() {
        Ok(locale) => {
            let tag = locale.to_string();
            Some((locale, tag))
        },
        Err(_) => None,
    }
}

/// A locale, with the canonical tag it writes as.
///
/// Its fields are private and `AppLocale::parse` is its only constructor, so
/// the tag is always the canonical tag of the locale beside it.
#[derive(Debug)]
pub struct AppLocale {
    locale: Locale,
    tag: String,
}

impl View for AppLocale {
    type V = Seq<char>;

    /// The canonical tag.
    closed spec fn view(&self) -> Seq<char> {
        self.tag@
    }
}

impl AppLocale {
    /// The locale a BCP-47 tag stands for; none where the text is no tag.
    pub fn parse(s: &str) -> (res: Option<AppLocale>)
        ensures
            res is Some <==> locale_tag_valid(s@),
            res matches Some(l) ==> l@ == canonical_locale_tag(s@),
    {
        match parse_locale_tag(s) {
            Some((locale, tag)) => Some(AppLocale { locale, tag }),
            None => None,
        }
    }

    /// The locale.
    pub fn locale(&self) -> &Locale {
        &self.locale
    }

    /// The canonical tag, such as `en-US`.
    pub fn tag(&self) -> (res: &str)
        ensures
            res@ == self@,
    {
        self.tag.as_str()
    }
}

/// `Locale::clone`; nothing is stated of the copy, which the locale type
/// keeps opaque.
pub assume_specification[ <Locale as Clone>::clone ](locale: &Locale) -> Locale;

impl Clone for AppLocale {
    /// A copy, with the same locale and tag.
    fn clone(&self) -> (res: AppLocale)
        ensures
            res@ == self@,
    {
        AppLocale { locale: self.locale.clone(), tag: self.tag.clone() }
    }
}

/// Two locales are the same where their canonical tags are.
impl PartialEq for AppLocale {
    fn eq(&self, other: &AppLocale) -> (res: bool) {
        str_eq(self.tag.as_str(), other.tag.as_str())
    }
}

impl vstd::std_specs::cmp::PartialEqSpecImpl for AppLocale {
    open spec fn obeys_eq_spec() -> bool {
        true
    }

    open spec fn eq_spec(&self, other: &AppLocale) -> bool {
        self@ == other@
    }
}

/// A text that is no locale.
#[derive(Clone, Copy, Debug, PartialEq, Eq, Structural)]
pub enum LocaleError {
    InvalidTag,
}

impl std::str::FromStr for AppLocale {
    type Err = LocaleError;

    fn from_str(s: &str) -> Result<AppLocale, LocaleError> {
        match AppLocale::parse(s) {
            Some(l) => Ok(l),
            None => Err(LocaleError::InvalidTag),
        }
    }
}

/// The BCP-47 tag that a POSIX locale name stands for: the part before the
/// first `.` (the encoding is dropped), with `_` written as `-`; none for an
/// empty name and for the byte-order locales `C` and `POSIX`.
pub open spec fn posix_locale_tag(s: Seq<char>) -> Option<Seq<char>> {
    let base = first_segment(s, '.');
    if base.len() == 0 || base == seq!['C'] || base == seq!['P', 'O', 'S', 'I', 'X'] {
        None
    } else {
        Some(replace_all(base, seq!['_'], seq!['-']))
    }
}

/// Parses a POSIX locale string (such as `en_US.UTF-8`) as an ICU locale.
///
/// `C` and `POSIX` (with or without an encoding) give none: they stand for
/// byte-order comparison, and the caller falls back to the root collation.
pub fn parse_posix_locale(locale_str: &str) -> (res: Option<AppLocale>)
    ensures
        res is Some <==> (match posix_locale_tag(locale_str@) {
            Some(tag) => locale_tag_valid(tag),
            None => false,
        }),
        res matches Some(l) ==> l@ == canonical_locale_tag(posix_locale_tag(locale_str@)->0),
{
    let base = crate::text::first_segment_of(locale_str, '.');
    if base.as_str().is_empty() {
        return None;
    }
    let c = copy_str("C");
    let posix = copy_str("POSIX");
    proof {
        reveal_strlit("C");
        reveal_strlit("POSIX");
        assert(c@ =~= seq!['C']);
        assert(posix@ =~= seq!['P', 'O', 'S', 'I', 'X']);
    }
    if base == c || base == posix {
        return None;
    }
    let underscore = "_";
    let dash = "-";
    proof {
        reveal_strlit("_");
        reveal_strlit("-");
        assert(underscore@ =~= seq!['_']);
        assert(dash@ =~= seq!['-']);
    }
    let tag = replace(base.as_str(), underscore, dash);
    AppLocale::parse(tag.as_str())
}

} // verus!
