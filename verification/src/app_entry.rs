//! Applications as the launcher lists them: built from desktop entries,
//! matched against the query, hidden and shown.

use crate::config::{Config, Field, NameOverride};
use crate::desktop::{
    desktop_entry_parse, entry_attr, field_value, get_field, parse_desktop_entry, DesktopEntry,
    EntryView,
};
use crate::history::{History, HistoryData};
use crate::text::{
    after_first, after_first_of, concat, contains, contains_seq, join, join_with, lowercase,
    replace, replace_all, str_eq, to_lowercase, views, without_suffix, remove_suffix,
};
use fuzzy_matcher::skim::SkimMatcherV2;
use fuzzy_matcher::FuzzyMatcher;
use regex::RegexSet;
use vstd::prelude::*;

verus! {

/// An application in the launcher's list.
#[derive(Clone, Debug)]
pub struct AppEntry {
    /// The desktop file name, such as `org.gnome.Nautilus.desktop`.
    pub id: String,
    pub name: String,
    /// The name with the extra text, as the list shows it.
    pub display_string: String,
    /// The text the query is matched against.
    pub search_string: String,
    pub extra_text: Option<String>,
    pub command_line: String,
    pub icon_path: Option<String>,
    pub is_terminal: bool,
    /// The match score; 0 hides the entry.
    pub score: i64,
    pub history: HistoryData,
}

fn copy_opt(o: &Option<String>) -> (res: Option<String>)
    ensures
        res == *o,
{
    match o {
        Some(t) => Some(t.clone()),
        None => None,
    }
}

impl AppEntry {
    /// A copy of this entry, equal to it in every field.
    pub fn duplicate(&self) -> (res: AppEntry)
        ensures
            res == *self,
    {
        AppEntry {
            id: self.id.clone(),
            name: self.name.clone(),
            display_string: self.display_string.clone(),
            search_string: self.search_string.clone(),
            extra_text: copy_opt(&self.extra_text),
            command_line: self.command_line.clone(),
            icon_path: copy_opt(&self.icon_path),
            is_terminal: self.is_terminal,
            score: self.score,
            history: self.history,
        }
    }
}

impl PartialEq for AppEntry {
    /// Entries are equal when they rank the same before their names are
    /// compared: same score and same history.
    fn eq(&self, other: &Self) -> (res: bool) {
        self.score == other.score && self.history == other.history
    }
}

impl vstd::std_specs::cmp::PartialEqSpecImpl for AppEntry {
    open spec fn obeys_eq_spec() -> bool {
        true
    }

    open spec fn eq_spec(&self, other: &Self) -> bool {
        self.score == other.score && self.history == other.history
    }
}

// ---------------------------------------------------------------------------
// Fuzzy matching
// ---------------------------------------------------------------------------

/// What `fuzzy_matcher::skim::SkimMatcherV2` in its default configuration
/// (smart case) gives when it matches `pattern` against `choice`: the score
/// and the positions, in characters, of the matched characters of `choice`;
/// none where `pattern` does not match.
pub uninterp spec fn skim_fuzzy_indices(choice: Seq<char>, pattern: Seq<char>) -> Option<(i64, Seq<usize>)>;

/// `SkimMatcherV2::default().fuzzy_indices(choice, pattern)`.
#[verifier::external_body]
fn fuzzy_indices(choice: &str, pattern: &str) -> (res: Option<(i64, Vec<usize>)>)
    ensures
        match res {
            Some((score, indices)) => skim_fuzzy_indices(choice@, pattern@) == Some((score, indices@)),
            None => skim_fuzzy_indices(choice@, pattern@) is None,
        },
{
    SkimMatcherV2::default().fuzzy_indices(choice, pattern)
}

/// The positions of `indices` below `bound`, in order.
pub open spec fn indices_below(indices: Seq<usize>, bound: nat) -> Seq<usize>
    decreases indices.len(),
{
    if indices.len() == 0 {
        Seq::empty()
    } else {
        let rest = indices_below(indices.drop_last(), bound);
        if (indices.last() as nat) < bound {
            rest.push(indices.last())
        } else {
            rest
        }
    }
}

/// The length in bytes of the UTF-8 form of a text (`str::len`).
pub open spec fn byte_len(s: Seq<char>) -> usize {
    vstd::utf8::encode_utf8(s).len() as usize
}

/// Everything about an entry but its score.
pub open spec fn same_but_score(a: AppEntry, b: AppEntry) -> bool {
    &&& a.id == b.id
    &&& a.name == b.name
    &&& a.display_string == b.display_string
    &&& a.search_string == b.search_string
    &&& a.extra_text == b.extra_text
    &&& a.command_line == b.command_line
    &&& a.icon_path == b.icon_path
    &&& a.is_terminal == b.is_terminal
    &&& a.history == b.history
}

impl AppEntry {
    /// Matches the query `pattern` against the entry's search text, sets the
    /// entry's score, and returns the matched positions that fall inside the
    /// display text (positions in characters, bounded by the display text's
    /// length in bytes). An empty query shows every entry with score 100; a
    /// query that does not match hides the entry.
    pub fn update_match(&mut self, pattern: &str) -> (res: Vec<usize>)
        ensures
            same_but_score(*final(self), *old(self)),
            pattern@.len() == 0 ==> final(self).score == 100 && res@.len() == 0,
            pattern@.len() > 0 ==> match skim_fuzzy_indices(old(self).search_string@, pattern@) {
                Some((score, indices)) => {
                    &&& final(self).score == score
                    &&& res@ == indices_below(indices, byte_len(old(self).display_string@) as nat)
                },
                None => final(self).score == 0 && res@.len() == 0,
            },
    {
        if pattern.is_empty() {
            self.score = 100;
            return Vec::new();
        }
        match fuzzy_indices(self.search_string.as_str(), pattern) {
            Some((score, indices)) => {
                self.score = score;
                let bound = self.display_string.as_str().len();
                let mut res: Vec<usize> = Vec::new();
                let mut i: usize = 0;
                while i < indices.len()
                    invariant
                        i <= indices@.len(),
                        bound == byte_len(self.display_string@),
                        res@ == indices_below(indices@.take(i as int), bound as nat),
                    decreases indices.len() - i,
                {
                    proof {
                        assert(indices@.take(i + 1).drop_last() =~= indices@.take(i as int));
                    }
                    if indices[i] < bound {
                        res.push(indices[i]);
                    }
                    i = i + 1;
                }
                assert(indices@.take(indices@.len() as int) =~= indices@);
                res
            },
            None => {
                self.score = 0;
                Vec::new()
            },
        }
    }

    /// Hides the entry.
    pub fn hide_entry(&mut self)
        ensures
            final(self).score == 0,
            same_but_score(*final(self), *old(self)),
    {
        self.score = 0;
    }

    /// Whether the entry is hidden.
    pub fn hidden(&self) -> (res: bool)
        ensures
            res == (self.score == 0),
    {
        self.score == 0
    }
}

// ---------------------------------------------------------------------------
// Building entries from desktop files
// ---------------------------------------------------------------------------

/// The name that `overrides` gives the application `app_id`: the first
/// override for it.
pub open spec fn name_override_of(overrides: Seq<NameOverride>, app_id: Seq<char>) -> Option<Seq<char>>
    decreases overrides.len(),
{
    if overrides.len() == 0 {
        None
    } else if overrides[0].app_id@ == app_id {
        Some(overrides[0].name@)
    } else {
        name_override_of(overrides.drop_first(), app_id)
    }
}

proof fn lemma_name_override_skip(overrides: Seq<NameOverride>, app_id: Seq<char>, i: int)
    requires
        0 <= i <= overrides.len(),
        forall|k: int| 0 <= k < i ==> (#[trigger] overrides[k]).app_id@ != app_id,
    ensures
        name_override_of(overrides, app_id) == name_override_of(overrides.skip(i), app_id),
    decreases i,
{
    if i > 0 {
        let t = overrides.drop_first();
        assert forall|k: int| 0 <= k < i - 1 implies (#[trigger] t[k]).app_id@ != app_id by {
            assert(t[k] == overrides[k + 1]);
        }
        assert(overrides[0].app_id@ != app_id);
        lemma_name_override_skip(t, app_id, i - 1);
        assert(t.skip(i - 1) =~= overrides.skip(i));
    } else {
        assert(overrides.skip(0) =~= overrides);
    }
}

fn find_override<'a>(overrides: &'a Vec<NameOverride>, app_id: &str) -> (res: Option<&'a String>)
    ensures
        match res {
            Some(n) => name_override_of(overrides@, app_id@) == Some(n@),
            None => name_override_of(overrides@, app_id@) is None,
        },
{
    let mut i: usize = 0;
    while i < overrides.len()
        invariant
            i <= overrides@.len(),
            forall|k: int| 0 <= k < i ==> (#[trigger] overrides@[k]).app_id@ != app_id@,
        decreases overrides.len() - i,
    {
        if str_eq(overrides[i].app_id.as_str(), app_id) {
            proof {
                lemma_name_override_skip(overrides@, app_id@, i as int);
                assert(overrides@.skip(i as int)[0] == overrides@[i as int]);
            }
            return Some(&overrides[i].name);
        }
        i = i + 1;
    }
    proof {
        lemma_name_override_skip(overrides@, app_id@, i as int);
        assert(overrides@.skip(i as int).len() == 0);
    }
    None
}

/// The fields' values, in order, leaving out the fields that have none.
pub open spec fn field_values(e: EntryView, id: Seq<char>, fields: Seq<Field>) -> Seq<Seq<char>>
    decreases fields.len(),
{
    if fields.len() == 0 {
        Seq::empty()
    } else {
        let rest = field_values(e, id, fields.drop_last());
        match field_value(e, id, fields.last()) {
            Some(v) => rest.push(v),
            None => rest,
        }
    }
}

/// The text that separates the name from the extra text.
pub open spec fn extra_separator(config: Config) -> Seq<char> {
    if config.extra_field_newline {
        "\n"@
    } else {
        " "@
    }
}

/// The extra text shown beside `name`: the value of the first extra field,
/// unless it is hidden because the name already contains it (ignoring case).
pub open spec fn shown_extra(config: Config, e: EntryView, id: Seq<char>, name: Seq<char>) -> Option<
    Seq<char>,
> {
    if config.extra_field@.len() == 0 {
        None
    } else {
        match field_value(e, id, config.extra_field@[0]) {
            Some(x) => if !config.hide_extra_if_contained || !contains_seq(
                lowercase(name),
                lowercase(x),
            ) {
                Some(x)
            } else {
                None
            },
            None => None,
        }
    }
}

/// The display text and the extra text of an application: a name override
/// shows its text with carriage returns as spaces, and what follows its first
/// carriage return as the extra text; otherwise the name is followed by the
/// extra text, if one is shown.
pub open spec fn display_and_extra(config: Config, e: EntryView, id: Seq<char>, name: Seq<char>) -> (
    Seq<char>,
    Option<Seq<char>>,
) {
    match name_override_of(config.name_overrides@, without_suffix(id, ".desktop"@)) {
        Some(ov) => (replace_all(ov, "\r"@, " "@), after_first(ov, '\r')),
        None => match shown_extra(config, e, id, name) {
            Some(x) => (name + extra_separator(config) + x, Some(x)),
            None => (name, None),
        },
    }
}

/// The fields of a listed application, as text.
pub struct EntryFields {
    pub id: Seq<char>,
    pub name: Seq<char>,
    pub display: Seq<char>,
    pub search: Seq<char>,
    pub extra: Option<Seq<char>>,
    pub command_line: Seq<char>,
    pub is_terminal: bool,
    pub score: i64,
    pub history: HistoryData,
    pub icon_name: Option<Seq<char>>,
}

/// Whether an application is left out of the list: it asks not to be shown
/// (`NoDisplay=true` or `Hidden=true`), has no id, is excluded by the
/// configuration, or lacks a name or a command line.
pub open spec fn left_out(e: EntryView, id: Seq<char>, excluded: bool) -> bool {
    ||| entry_attr(e, "NoDisplay"@) == Some("true"@)
    ||| entry_attr(e, "Hidden"@) == Some("true"@)
    ||| id.len() == 0
    ||| excluded
    ||| entry_attr(e, "Name"@) is None
    ||| entry_attr(e, "Exec"@) is None
}

/// The history an application is ranked by: its last use only when recent
/// applications come first, its launch count only when frequent ones do.
pub open spec fn ranking_history(config: Config, history: Map<Seq<char>, HistoryData>, id: Seq<char>) -> HistoryData {
    let past = if history.contains_key(id) {
        history[id]
    } else {
        HistoryData { last_used: 0, usage_count: 0 }
    };
    HistoryData {
        last_used: if config.recent_first {
            past.last_used
        } else {
            0
        },
        usage_count: if config.frequent_first {
            past.usage_count
        } else {
            0
        },
    }
}

/// The listed application that a desktop entry with file name `id` gives.
pub open spec fn entry_spec(
    config: Config,
    history: Map<Seq<char>, HistoryData>,
    excluded: bool,
    id: Seq<char>,
    e: EntryView,
) -> Option<EntryFields> {
    if left_out(e, id, excluded) {
        None
    } else {
        match (entry_attr(e, "Name"@), entry_attr(e, "Exec"@)) {
            (Some(name), Some(command_line)) => {
                let (display, extra) = display_and_extra(config, e, id, name);
                let hidden = join_with(field_values(e, id, config.hidden_fields@), " "@);
                let search = if hidden.len() == 0 {
                    display
                } else {
                    display + " "@ + hidden
                };
                let terminal = entry_attr(e, "Terminal"@);
                Some(
                    EntryFields {
                        id,
                        name,
                        display,
                        search,
                        extra,
                        command_line,
                        is_terminal: terminal == Some("true"@) || terminal == Some("1"@),
                        score: 100,
                        history: ranking_history(config, history, id),
                        icon_name: entry_attr(e, "Icon"@),
                    },
                )
            },
            _ => None,
        }
    }
}

/// A listed application, with the name of its icon (the icon's file is
/// looked up on disk separately).
pub struct LoadedEntry {
    pub entry: AppEntry,
    pub icon_name: Option<String>,
}

/// The fields of a loaded application.
pub open spec fn fields_of(l: LoadedEntry) -> EntryFields {
    EntryFields {
        id: l.entry.id@,
        name: l.entry.name@,
        display: l.entry.display_string@,
        search: l.entry.search_string@,
        extra: crate::desktop::opt_str(l.entry.extra_text),
        command_line: l.entry.command_line@,
        is_terminal: l.entry.is_terminal,
        score: l.entry.score,
        history: l.entry.history,
        icon_name: crate::desktop::opt_str(l.icon_name),
    }
}

/// The fields of an optional loaded application.
pub open spec fn opt_fields(l: Option<LoadedEntry>) -> Option<EntryFields> {
    match l {
        Some(l) => Some(fields_of(l)),
        None => None,
    }
}

fn is_value(v: &Option<String>, text: &str) -> (res: bool)
    ensures
        res == (crate::desktop::opt_str(*v) == Some(text@)),
{
    match v {
        Some(s) => str_eq(s.as_str(), text),
        None => false,
    }
}

fn field_texts(entry: &DesktopEntry, id: &str, fields: &Vec<Field>) -> (res: Vec<String>)
    ensures
        views(res@) == field_values(entry@, id@, fields@),
{
    let mut res: Vec<String> = Vec::new();
    let mut i: usize = 0;
    while i < fields.len()
        invariant
            i <= fields@.len(),
            views(res@) == field_values(entry@, id@, fields@.take(i as int)),
        decreases fields.len() - i,
    {
        proof {
            assert(fields@.take(i + 1).drop_last() =~= fields@.take(i as int));
        }
        let ghost before = res@;
        match get_field(entry, id, fields[i]) {
            Some(v) => {
                res.push(v);
                proof {
                    assert(views(res@) =~= views(before).push(res@.last()@));
                }
            },
            None => {},
        }
        i = i + 1;
    }
    assert(fields@.take(fields@.len() as int) =~= fields@);
    res
}

fn display_and_extra_of(config: &Config, entry: &DesktopEntry, id: &str, name: &String) -> (res: (
    String,
    Option<String>,
))
    ensures
        (res.0@, crate::desktop::opt_str(res.1)) == display_and_extra(*config, entry@, id@, name@),
{
    let app_id = remove_suffix(id, ".desktop");
    match find_override(&config.name_overrides, app_id.as_str()) {
        Some(ov) => {
            proof {
                reveal_strlit("\r");
            }
            let display = replace(ov.as_str(), "\r", " ");
            let extra = after_first_of(ov.as_str(), '\r');
            (display, extra)
        },
        None => {
            let extra = if config.extra_field.len() == 0 {
                None
            } else {
                match get_field(entry, id, config.extra_field[0]) {
                    Some(x) => {
                        let lower_name = to_lowercase(name.as_str());
                        let lower_x = to_lowercase(x.as_str());
                        if !config.hide_extra_if_contained || !contains(
                            lower_name.as_str(),
                            lower_x.as_str(),
                        ) {
                            Some(x)
                        } else {
                            None
                        }
                    },
                    None => None,
                }
            };
            match extra {
                Some(x) => {
                    let separator = if config.extra_field_newline {
                        "\n"
                    } else {
                        " "
                    };
                    let first = concat(name.as_str(), separator);
                    let display = concat(first.as_str(), x.as_str());
                    (display, Some(x))
                },
                None => (name.clone(), None),
            }
        },
    }
}

/// Builds the listed application for the desktop entry `entry` with file name
/// `id`, or none where the application is left out; `excluded` says whether
/// the configuration's exclusion patterns match `id`.
pub fn build_entry(
    config: &Config,
    history: &History,
    excluded: bool,
    id: &str,
    entry: &DesktopEntry,
) -> (res: Option<LoadedEntry>)
    ensures
        opt_fields(res) == entry_spec(*config, history@, excluded, id@, entry@),
{
    if is_value(&entry.get_attr("NoDisplay"), "true") {
        return None;
    }
    if is_value(&entry.get_attr("Hidden"), "true") {
        return None;
    }
    if id.is_empty() || excluded {
        return None;
    }
    let name = match entry.get_attr("Name") {
        Some(n) => n,
        None => return None,
    };
    let command_line = match entry.get_attr("Exec") {
        Some(c) => c,
        None => return None,
    };
    let terminal = entry.get_attr("Terminal");
    let is_terminal = is_value(&terminal, "true") || is_value(&terminal, "1");
    let icon_name = entry.get_attr("Icon");
    let (display_string, extra_text) = display_and_extra_of(config, entry, id, &name);
    let hidden_values = field_texts(entry, id, &config.hidden_fields);
    let hidden = join(&hidden_values, " ");
    let search_string = if hidden.as_str().is_empty() {
        display_string.clone()
    } else {
        let first = concat(display_string.as_str(), " ");
        concat(first.as_str(), hidden.as_str())
    };
    let past = match history.get(id) {
        Some(h) => h,
        None => HistoryData::default(),
    };
    let last_used = if config.recent_first {
        past.last_used
    } else {
        0
    };
    let usage_count = if config.frequent_first {
        past.usage_count
    } else {
        0
    };
    Some(
        LoadedEntry {
            entry: AppEntry {
                id: crate::text::copy_str(id),
                name,
                display_string,
                search_string,
                extra_text,
                command_line,
                icon_path: None,
                is_terminal,
                score: 100,
                history: HistoryData { last_used, usage_count },
            },
            icon_name,
        },
    )
}

// ---------------------------------------------------------------------------
// Exclusion patterns
// ---------------------------------------------------------------------------

/// A set of regular expressions of the `regex` crate.
#[verifier::external_type_specification]
#[verifier::external_body]
pub struct ExRegexSet(RegexSet);

/// The error `regex::RegexSet::new` reports for a pattern it refuses.
#[verifier::external_type_specification]
#[verifier::external_body]
pub struct ExRegexError(regex::Error);

/// The patterns a regex set was built from, in order (`RegexSet::patterns`).
pub uninterp spec fn regex_set_patterns(set: RegexSet) -> Seq<Seq<char>>;

/// Whether `regex::RegexSet::new` accepts every one of the patterns.
pub uninterp spec fn regex_set_compiles(patterns: Seq<Seq<char>>) -> bool;

/// Whether a set built by `RegexSet::new` from `patterns` (the default
/// options of `regex`) matches somewhere in `text` (`RegexSet::is_match`).
pub uninterp spec fn regex_set_matches(patterns: Seq<Seq<char>>, text: Seq<char>) -> bool;

/// `RegexSet::new(patterns)`: the set holds the patterns, in order.
#[verifier::external_body]
fn new_regex_set(patterns: &Vec<String>) -> (res: Result<RegexSet, regex::Error>)
    ensures
        match res {
            Ok(set) => regex_set_compiles(views(patterns@)) && regex_set_patterns(set) == views(
                patterns@,
            ),
            Err(_) => !regex_set_compiles(views(patterns@)),
        },
{
    RegexSet::new(patterns)
}

/// The exclusion patterns, compiled with the default options of `regex`.
///
/// Its field is private and `exclude_set` is its only constructor, so the set
/// inside is always one that `RegexSet::new` built.
pub struct ExcludeSet {
    set: RegexSet,
}

impl View for ExcludeSet {
    type V = Seq<Seq<char>>;

    /// The patterns, in the order they were given.
    closed spec fn view(&self) -> Seq<Seq<char>> {
        regex_set_patterns(self.set)
    }
}

/// `set.is_match(text)` on the compiled exclusion patterns; a set of no
/// patterns matches nothing.
#[verifier::external_body]
fn regex_set_is_match(exclude: &ExcludeSet, text: &str) -> (res: bool)
    ensures
        res == regex_set_matches(exclude@, text@),
        exclude@.len() == 0 ==> !res,
{
    exclude.set.is_match(text)
}

/// A pattern of the exclusion list is not a regular expression.
#[derive(Clone, Copy, Debug, PartialEq, Eq, Structural)]
pub enum ExcludeError {
    InvalidPattern,
}

/// The set of exclusion patterns; an error where one is not a regular
/// expression.
pub fn exclude_set(patterns: &Vec<String>) -> (res: Result<ExcludeSet, ExcludeError>)
    ensures
        match res {
            Ok(set) => regex_set_compiles(views(patterns@)) && set@ == views(patterns@),
            Err(e) => !regex_set_compiles(views(patterns@)) && e == ExcludeError::InvalidPattern,
        },
{
    match new_regex_set(patterns) {
        Ok(set) => Ok(ExcludeSet { set }),
        Err(_) => Err(ExcludeError::InvalidPattern),
    }
}

/// Whether the exclusion patterns match the desktop file name `id`.
pub fn is_excluded(exclude: &ExcludeSet, id: &str) -> (res: bool)
    ensures
        res == regex_set_matches(exclude@, id@),
        exclude@.len() == 0 ==> !res,
{
    regex_set_is_match(exclude, id)
}

/// Builds the listed application from the bytes of the desktop file named
/// `id`; none where the bytes are not a desktop entry or the application is
/// left out.
pub fn load_entry(
    config: &Config,
    history: &History,
    exclude: &ExcludeSet,
    id: &str,
    contents: &[u8],
) -> (res: Option<LoadedEntry>)
    ensures
        match desktop_entry_parse(contents@) {
            Some(e) => opt_fields(res) == entry_spec(
                *config,
                history@,
                regex_set_matches(exclude@, id@),
                id@,
                e,
            ),
            None => res is None,
        },
{
    let entry = match parse_desktop_entry(contents) {
        Some(e) => e,
        None => return None,
    };
    let excluded = is_excluded(exclude, id);
    build_entry(config, history, excluded, id, &entry)
}


/// The history a listed application is ranked by: its launch count only
/// where frequent applications come first (0 otherwise, whatever the history
/// holds), its last use only where recent applications come first (0
/// otherwise); an application with no history counts as never launched.
pub proof fn law_ranking_follows_config(
    config: Config,
    history: Map<Seq<char>, HistoryData>,
    excluded: bool,
    id: Seq<char>,
    e: EntryView,
)
    ensures
        entry_spec(config, history, excluded, id, e) matches Some(f) ==> {
            &&& !config.frequent_first ==> f.history.usage_count == 0
            &&& !config.recent_first ==> f.history.last_used == 0
            &&& config.frequent_first && history.contains_key(id) ==> f.history.usage_count
                == history[id].usage_count
            &&& config.recent_first && history.contains_key(id) ==> f.history.last_used
                == history[id].last_used
            &&& !history.contains_key(id) ==> f.history.usage_count == 0 && f.history.last_used == 0
            &&& f.score == 100
        },
{
}

} // verus!
