//! Desktop entries (`.desktop` files) and the fields read from them.

use crate::config::Field;
use crate::text::{
    first_segment, first_word, first_word_of, last_segment, last_segment_of, remove_suffix, str_eq,
    without_suffix,
};
use vstd::prelude::*;

verus! {

/// The view of an attribute: its key, its locale parameter (`Name[de]` has
/// the parameter `de`) and its values, one per time the key is given.
pub type AttrView = (Seq<char>, Option<Seq<char>>, Seq<Seq<char>>);

/// The view of a section: its title and its attributes.
pub type SectionView = (Seq<char>, Seq<AttrView>);

/// The view of a desktop entry: its sections, in file order.
pub type EntryView = Seq<SectionView>;

/// An attribute of a section of a desktop entry.
pub struct DesktopAttr {
    pub key: String,
    pub param: Option<String>,
    pub values: Vec<String>,
}

/// A section (`[Title]`) of a desktop entry.
pub struct DesktopSection {
    pub title: String,
    pub attrs: Vec<DesktopAttr>,
}

/// A parsed desktop entry.
pub struct DesktopEntry {
    pub sections: Vec<DesktopSection>,
}

/// The view of an optional string.
pub open spec fn opt_str(o: Option<String>) -> Option<Seq<char>> {
    match o {
        Some(s) => Some(s@),
        None => None,
    }
}

impl View for DesktopAttr {
    type V = AttrView;

    open spec fn view(&self) -> AttrView {
        (self.key@, opt_str(self.param), self.values@.map_values(|v: String| v@))
    }
}

impl View for DesktopSection {
    type V = SectionView;

    open spec fn view(&self) -> SectionView {
        (self.title@, self.attrs@.map_values(|a: DesktopAttr| a@))
    }
}

impl View for DesktopEntry {
    type V = EntryView;

    open spec fn view(&self) -> EntryView {
        self.sections@.map_values(|s: DesktopSection| s@)
    }
}

/// What `freedesktop_entry_parser::Entry::parse` makes of the bytes of a
/// desktop file, as its sections and their attributes in file order; none
/// where the bytes are not a desktop entry.
pub uninterp spec fn desktop_entry_parse(bytes: Seq<u8>) -> Option<EntryView>;

/// Parses the bytes of a desktop file with `freedesktop_entry_parser::Entry::parse`
/// and copies its sections and attributes, in order, into a `DesktopEntry`.
#[verifier::external_body]
pub(crate) fn parse_desktop_entry(bytes: &[u8]) -> (res: Option<DesktopEntry>)
    ensures
        match res {
            Some(e) => desktop_entry_parse(bytes@) == Some(e@),
            None => desktop_entry_parse(bytes@) is None,
        },
{
    let entry = freedesktop_entry_parser::Entry::parse(bytes).ok()?;
    let sections = entry.sections().map(|(title, section)| DesktopSection {
        title: title.clone(),
        attrs: section.attrs().map(|(key, values)| DesktopAttr {
            key: key.key.clone(),
            param: key.param.clone(),
            values: values.clone(),
        }).collect(),
    }).collect();
    Some(DesktopEntry { sections })
}

/// The first section with the given title.
pub open spec fn find_section(secs: Seq<SectionView>, title: Seq<char>) -> Option<SectionView>
    decreases secs.len(),
{
    if secs.len() == 0 {
        None
    } else if secs[0].0 == title {
        Some(secs[0])
    } else {
        find_section(secs.drop_first(), title)
    }
}

/// The values of the first attribute with the given key and no locale
/// parameter.
pub open spec fn find_attr(attrs: Seq<AttrView>, key: Seq<char>) -> Option<Seq<Seq<char>>>
    decreases attrs.len(),
{
    if attrs.len() == 0 {
        None
    } else if attrs[0].0 == key && attrs[0].1 is None {
        Some(attrs[0].2)
    } else {
        find_attr(attrs.drop_first(), key)
    }
}

/// The first value of the attribute `key` of the `[Desktop Entry]` section.
pub open spec fn entry_attr(e: EntryView, key: Seq<char>) -> Option<Seq<char>> {
    match find_section(e, "Desktop Entry"@) {
        Some(sec) => match find_attr(sec.1, key) {
            Some(vals) => if vals.len() > 0 {
                Some(vals[0])
            } else {
                None
            },
            None => None,
        },
        None => None,
    }
}

proof fn lemma_find_section(secs: Seq<SectionView>, title: Seq<char>, i: int)
    requires
        0 <= i <= secs.len(),
        forall|k: int| 0 <= k < i ==> (#[trigger] secs[k]).0 != title,
    ensures
        find_section(secs, title) == find_section(secs.skip(i), title),
    decreases i,
{
    if i > 0 {
        let t = secs.drop_first();
        assert forall|k: int| 0 <= k < i - 1 implies (#[trigger] t[k]).0 != title by {
            assert(t[k] == secs[k + 1]);
        }
        assert(secs[0].0 != title);
        lemma_find_section(t, title, i - 1);
        assert(t.skip(i - 1) =~= secs.skip(i));
    } else {
        assert(secs.skip(0) =~= secs);
    }
}

proof fn lemma_find_attr(attrs: Seq<AttrView>, key: Seq<char>, i: int)
    requires
        0 <= i <= attrs.len(),
        forall|k: int| 0 <= k < i ==> !((#[trigger] attrs[k]).0 == key && attrs[k].1 is None),
    ensures
        find_attr(attrs, key) == find_attr(attrs.skip(i), key),
    decreases i,
{
    if i > 0 {
        let t = attrs.drop_first();
        assert forall|k: int| 0 <= k < i - 1 implies !((#[trigger] t[k]).0 == key && t[k].1 is None) by {
            assert(t[k] == attrs[k + 1]);
        }
        assert(!(attrs[0].0 == key && attrs[0].1 is None));
        lemma_find_attr(t, key, i - 1);
        assert(t.skip(i - 1) =~= attrs.skip(i));
    } else {
        assert(attrs.skip(0) =~= attrs);
    }
}

impl DesktopSection {
    /// The values of the attribute `key` (without a locale parameter).
    fn attr_values(&self, key: &str) -> (res: Option<&Vec<String>>)
        ensures
            match res {
                Some(v) => find_attr(self@.1, key@) == Some(v@.map_values(|s: String| s@)),
                None => find_attr(self@.1, key@) is None,
            },
    {
        let ghost attrs = self@.1;
        let mut i: usize = 0;
        while i < self.attrs.len()
            invariant
                i <= self.attrs@.len(),
                attrs == self@.1,
                attrs.len() == self.attrs@.len(),
                forall|k: int| 0 <= k < i ==> !((#[trigger] attrs[k]).0 == key@ && attrs[k].1 is None),
            decreases self.attrs.len() - i,
        {
            let a = &self.attrs[i];
            assert(attrs[i as int] == a@);
            if str_eq(a.key.as_str(), key) && a.param.is_none() {
                proof {
                    lemma_find_attr(attrs, key@, i as int);
                    assert(attrs.skip(i as int)[0] == a@);
                }
                return Some(&a.values);
            }
            i = i + 1;
        }
        proof {
            lemma_find_attr(attrs, key@, i as int);
            assert(attrs.skip(i as int).len() == 0);
        }
        None
    }
}

impl DesktopEntry {
    /// The first value of the attribute `key` of the `[Desktop Entry]` section.
    pub fn get_attr(&self, key: &str) -> (res: Option<String>)
        ensures
            opt_str(res) == entry_attr(self@, key@),
    {
        let ghost secs = self@;
        let mut i: usize = 0;
        while i < self.sections.len()
            invariant
                i <= self.sections@.len(),
                secs == self@,
                secs.len() == self.sections@.len(),
                forall|k: int| 0 <= k < i ==> (#[trigger] secs[k]).0 != "Desktop Entry"@,
            decreases self.sections.len() - i,
        {
            let sec = &self.sections[i];
            assert(secs[i as int] == sec@);
            if str_eq(sec.title.as_str(), "Desktop Entry") {
                proof {
                    lemma_find_section(secs, "Desktop Entry"@, i as int);
                    assert(secs.skip(i as int)[0] == sec@);
                    assert(find_section(secs, "Desktop Entry"@) == Some(sec@));
                }
                return match sec.attr_values(key) {
                    Some(values) => {
                        if values.len() > 0 {
                            assert(values@.map_values(|s: String| s@)[0] == values@[0]@);
                            Some(values[0].clone())
                        } else {
                            None
                        }
                    },
                    None => None,
                };
            }
            i = i + 1;
        }
        proof {
            lemma_find_section(secs, "Desktop Entry"@, i as int);
            assert(secs.skip(i as int).len() == 0);
        }
        None
    }
}

/// The components of a `/`-separated path: the segments between the `/`s,
/// leaving out the empty ones and `.`.
pub open spec fn path_parts(path: Seq<char>) -> Seq<Seq<char>>
    decreases path.len(),
{
    let head = first_segment(path, '/');
    let rest = if head.len() < path.len() {
        path_parts(path.skip(head.len() + 1 as int))
    } else {
        Seq::empty()
    };
    if head.len() == 0 || head == seq!['.'] {
        rest
    } else {
        seq![head] + rest
    }
}

/// What `std::path::Path::file_name` gives for a path: its last component,
/// as text; none where no component is left (`""`, `/`, `.`) or the last is
/// `..`.
pub open spec fn path_file_name(path: Seq<char>) -> Option<Seq<char>> {
    let parts = path_parts(path);
    if parts.len() == 0 || parts.last() == seq!['.', '.'] {
        None
    } else {
        Some(parts.last())
    }
}

/// The final component of a path (`Path::new(path).file_name()`, as text).
#[verifier::external_body]
fn file_name_of(path: &str) -> (res: Option<String>)
    ensures
        opt_str(res) == path_file_name(path@),
{
    std::path::Path::new(path).file_name().map(|name| name.to_string_lossy().to_string())
}

/// The field of a desktop entry that the entry itself gives.
pub open spec fn app_field(e: EntryView, field: Field) -> Option<Seq<char>> {
    match field {
        Field::Comment => entry_attr(e, "Comment"@),
        Field::Id => None,
        Field::IdSuffix => None,
        Field::Executable => match entry_attr(e, "Exec"@) {
            Some(exec) => match first_word(exec) {
                Some(program) => match path_file_name(program) {
                    Some(name) => Some(name),
                    None => Some(program),
                },
                None => None,
            },
            None => None,
        },
        Field::Commandline => entry_attr(e, "Exec"@),
    }
}

/// The field of an application that its desktop file name gives: the name
/// without `.desktop`, or the part of it after the last `.`.
pub open spec fn id_field(id: Seq<char>, field: Field) -> Option<Seq<char>> {
    let base = without_suffix(id, ".desktop"@);
    match field {
        Field::Id => Some(base),
        Field::IdSuffix => Some(last_segment(base, '.')),
        _ => None,
    }
}

/// The field of a desktop entry: the comment, the executable's file name or
/// the command line.
pub fn get_app_field(entry: &DesktopEntry, field: Field) -> (res: Option<String>)
    ensures
        opt_str(res) == app_field(entry@, field),
{
    match field {
        Field::Comment => entry.get_attr("Comment"),
        Field::Id => None,
        Field::IdSuffix => None,
        Field::Executable => match entry.get_attr("Exec") {
            Some(exec) => match first_word_of(exec.as_str()) {
                Some(program) => match file_name_of(program.as_str()) {
                    Some(name) => Some(name),
                    None => Some(program),
                },
                None => None,
            },
            None => None,
        },
        Field::Commandline => entry.get_attr("Exec"),
    }
}

/// The field of an application that its desktop file name `id` gives.
pub fn get_id_field(id: &str, field: Field) -> (res: Option<String>)
    ensures
        opt_str(res) == id_field(id@, field),
{
    let base = remove_suffix(id, ".desktop");
    match field {
        Field::Id => Some(base),
        Field::IdSuffix => Some(last_segment_of(base.as_str(), '.')),
        _ => None,
    }
}

/// A field of an application: what its desktop entry gives, or else what its
/// desktop file name gives.
pub open spec fn field_value(e: EntryView, id: Seq<char>, field: Field) -> Option<Seq<char>> {
    match app_field(e, field) {
        Some(v) => Some(v),
        None => id_field(id, field),
    }
}

/// A field of an application: what its desktop entry gives, or else what its
/// desktop file name gives.
pub fn get_field(entry: &DesktopEntry, id: &str, field: Field) -> (res: Option<String>)
    ensures
        opt_str(res) == field_value(entry@, id@, field),
{
    match get_app_field(entry, field) {
        Some(v) => Some(v),
        None => get_id_field(id, field),
    }
}

/// The id field puts back the desktop file name once `.desktop` is appended
/// again, and the id suffix field holds no `.`.
pub proof fn law_id_fields(id: Seq<char>)
    ensures
        crate::text::has_suffix(id, ".desktop"@) ==> id_field(id, Field::Id) == Some(
            without_suffix(id, ".desktop"@),
        ) && without_suffix(id, ".desktop"@) + ".desktop"@ == id,
        !crate::text::has_suffix(id, ".desktop"@) ==> id_field(id, Field::Id) == Some(id),
        forall|k: int|
            0 <= k < last_segment(without_suffix(id, ".desktop"@), '.').len() ==> #[trigger] last_segment(
                without_suffix(id, ".desktop"@),
                '.',
            )[k] != '.',
{
    reveal_strlit(".desktop");
    if crate::text::has_suffix(id, ".desktop"@) {
        let base = id.take(id.len() - 8);
        assert(base + ".desktop"@ =~= id);
        assert((base + ".desktop"@).take((base + ".desktop"@).len() - 8) =~= base);
    }
    crate::text::lemma_last_segment_no_sep(without_suffix(id, ".desktop"@), '.');
}

} // verus!
