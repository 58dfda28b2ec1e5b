//! The order of the list: best score first, then most launched, then most
//! recently launched, then by name in the user's collation.

use crate::app_entry::AppEntry;
use icu_collator::{Collator, CollatorBorrowed, CollatorPreferences};
use crate::locale::AppLocale;
use std::cmp::Ordering;
use vstd::prelude::*;

verus! {

broadcast use vstd::seq_lib::group_to_multiset_ensures, vstd::multiset::group_multiset_axioms;

/// A collator of `icu_collator`: compares text in a locale's order.
#[verifier::external_type_specification]
#[verifier::external_body]
pub struct ExCollatorBorrowed<'a>(CollatorBorrowed<'a>);

/// The canonical tag of an optional locale.
pub open spec fn opt_tag(locale: Option<AppLocale>) -> Option<Seq<char>> {
    match locale {
        Some(l) => Some(l@),
        None => None,
    }
}

/// Whether `icu_collator::Collator::try_new`, on the data compiled into the
/// crate and with default options, builds a collator for the locale with
/// this canonical tag (the root collation where there is none).
pub uninterp spec fn collator_builds(locale: Option<Seq<char>>) -> bool;

/// What `CollatorBorrowed::compare` gives for the texts `a` and `b`, with the
/// collator that `Collator::try_new` builds, on compiled data and with default
/// options, for the locale with this canonical tag (the root collation where
/// there is none).
pub uninterp spec fn collation(locale: Option<Seq<char>>, a: Seq<char>, b: Seq<char>) -> Ordering;

/// `Collator::try_new` for `locale` (the root collation where there is none),
/// on compiled data and with default options; none where it fails.
#[verifier::external_body]
fn try_new_collator(locale: &Option<AppLocale>) -> (res: Option<CollatorBorrowed<'static>>)
    ensures
        res is Some <==> collator_builds(opt_tag(*locale)),
{
    let prefs = match locale {
        Some(l) => CollatorPreferences::from(l.locale()),
        None => CollatorPreferences::default(),
    };
    Collator::try_new(prefs, Default::default()).ok()
}

/// A collator, with the canonical tag of the locale it was built for.
///
/// Its fields are private and `collator_for` is its only constructor, so the
/// tag is always that of the collator's locale.
pub struct TextCollator {
    collator: CollatorBorrowed<'static>,
    locale: Ghost<Option<Seq<char>>>,
}

impl View for TextCollator {
    type V = Option<Seq<char>>;

    /// The canonical tag of the collator's locale (none for the root
    /// collation).
    closed spec fn view(&self) -> Option<Seq<char>> {
        self.locale@
    }
}

/// The collator could not be built.
#[derive(Clone, Copy, Debug, PartialEq, Eq, Structural)]
pub enum CollatorError {
    MissingData,
}

/// The collator for `locale`, or the root collation where there is none;
/// an error where `icu_collator` cannot build it.
pub fn collator_for(locale: &Option<AppLocale>) -> (res: Result<TextCollator, CollatorError>)
    ensures
        res is Ok <==> collator_builds(opt_tag(*locale)),
        res matches Ok(c) ==> c@ == opt_tag(*locale),
        res matches Err(e) ==> e == CollatorError::MissingData,
{
    match try_new_collator(locale) {
        Some(c) => Ok(TextCollator { collator: c, locale: Ghost(opt_tag(*locale)) }),
        None => Err(CollatorError::MissingData),
    }
}

/// Compares two texts in the collator's order (`CollatorBorrowed::compare`).
///
/// Equal texts compare equal, swapping the texts reverses the result, and the
/// order is transitive through `a` and `b`: `icu_collator` documents the
/// comparison as the same as comparing the texts' sort keys byte by byte.
#[verifier::external_body]
pub fn string_collate(collator: &TextCollator, a: &str, b: &str) -> (res: Ordering)
    ensures
        res == collation(collator@, a@, b@),
        a@ == b@ ==> res == Ordering::Equal,
        res == reversed(collation(collator@, b@, a@)),
        forall|c: Seq<char>|
            res != Ordering::Greater && collation(collator@, b@, c) != Ordering::Greater
                ==> #[trigger] collation(collator@, a@, c) != Ordering::Greater,
        forall|c: Seq<char>|
            collation(collator@, c, a@) != Ordering::Greater && res != Ordering::Greater
                ==> #[trigger] collation(collator@, c, b@) != Ordering::Greater,
{
    collator.collator.compare(a, b)
}

/// `a` ranks at least as high as `b` on score, launch count and last use,
/// compared in that order.
pub open spec fn ranks_at_least(a: AppEntry, b: AppEntry) -> bool {
    ||| a.score > b.score
    ||| a.score == b.score && a.history.usage_count > b.history.usage_count
    ||| a.score == b.score && a.history.usage_count == b.history.usage_count
        && a.history.last_used >= b.history.last_used
}

/// `a` and `b` rank the same on score, launch count and last use.
pub open spec fn same_rank(a: AppEntry, b: AppEntry) -> bool {
    a.score == b.score && a.history.usage_count == b.history.usage_count && a.history.last_used
        == b.history.last_used
}

/// Where `a` goes relative to `b`: a higher score first, then more launches,
/// then a later last use; for entries of the same rank, `collation`, the
/// comparison of their display texts.
pub open spec fn rank_order(a: AppEntry, b: AppEntry, collation: Ordering) -> Ordering {
    if a.score != b.score {
        if a.score > b.score {
            Ordering::Less
        } else {
            Ordering::Greater
        }
    } else if a.history.usage_count != b.history.usage_count {
        if a.history.usage_count > b.history.usage_count {
            Ordering::Less
        } else {
            Ordering::Greater
        }
    } else if a.history.last_used != b.history.last_used {
        if a.history.last_used > b.history.last_used {
            Ordering::Less
        } else {
            Ordering::Greater
        }
    } else {
        collation
    }
}

/// The opposite order.
pub open spec fn reversed(o: Ordering) -> Ordering {
    match o {
        Ordering::Less => Ordering::Greater,
        Ordering::Equal => Ordering::Equal,
        Ordering::Greater => Ordering::Less,
    }
}

/// Ranking is a total preorder: total and transitive.
pub proof fn lemma_ranks_total_preorder(a: AppEntry, b: AppEntry, c: AppEntry)
    ensures
        ranks_at_least(a, b) || ranks_at_least(b, a),
        ranks_at_least(a, a),
        ranks_at_least(a, b) && ranks_at_least(b, c) ==> ranks_at_least(a, c),
        ranks_at_least(a, b) && ranks_at_least(b, a) <==> same_rank(a, b),
{
}

/// Swapping the entries reverses their order, once the collation of their
/// texts is reversed too.
pub proof fn lemma_rank_order_antisymmetric(a: AppEntry, b: AppEntry, collation: Ordering)
    ensures
        rank_order(a, b, collation) == reversed(rank_order(b, a, reversed(collation))),
{
    match collation {
        Ordering::Less => {},
        Ordering::Equal => {},
        Ordering::Greater => {},
    }
}

/// The order says `Less` only where `a` ranks at least as high as `b`, and
/// `Greater` only where `b` ranks at least as high as `a`.
pub proof fn lemma_rank_order_agrees(a: AppEntry, b: AppEntry, collation: Ordering)
    ensures
        rank_order(a, b, collation) == Ordering::Less ==> ranks_at_least(a, b),
        rank_order(a, b, collation) == Ordering::Greater ==> ranks_at_least(b, a),
        !same_rank(a, b) ==> (rank_order(a, b, collation) == Ordering::Less <==> ranks_at_least(a, b)),
{
}

impl AppEntry {
    /// Where this entry goes relative to `other`, given the collation of their
    /// display texts.
    pub fn cmp_with_collation(&self, other: &AppEntry, collation: Ordering) -> (res: Ordering)
        ensures
            res == rank_order(*self, *other, collation),
    {
        if self.score != other.score {
            if self.score > other.score {
                Ordering::Less
            } else {
                Ordering::Greater
            }
        } else if self.history.usage_count != other.history.usage_count {
            if self.history.usage_count > other.history.usage_count {
                Ordering::Less
            } else {
                Ordering::Greater
            }
        } else if self.history.last_used != other.history.last_used {
            if self.history.last_used > other.history.last_used {
                Ordering::Less
            } else {
                Ordering::Greater
            }
        } else {
            collation
        }
    }

    /// Where this entry goes relative to `other` in the list; entries of the
    /// same rank are compared by their display texts in the collator's order.
    pub fn cmp(&self, other: &AppEntry, collator: &TextCollator) -> (res: Ordering)
        ensures
            res == list_order(collator@, *self, *other),
            res == reversed(list_order(collator@, *other, *self)),
            res != Ordering::Greater ==> forall|e: AppEntry|
                in_order(collator@, *other, e) ==> #[trigger] in_order(collator@, *self, e),
            res != Ordering::Greater ==> forall|e: AppEntry|
                in_order(collator@, e, *self) ==> #[trigger] in_order(collator@, e, *other),
    {
        if self.score == other.score && self.history.usage_count == other.history.usage_count
            && self.history.last_used == other.history.last_used {
            let res = string_collate(collator, self.display_string.as_str(), other.display_string.as_str());
            proof {
                assert forall|e: AppEntry| res != Ordering::Greater && in_order(collator@, *other, e)
                    implies #[trigger] in_order(collator@, *self, e) by {
                    assert(collation(collator@, self.display_string@, e.display_string@)
                        == collation(collator@, self.display_string@, e.display_string@));
                }
                assert forall|e: AppEntry| res != Ordering::Greater && in_order(collator@, e, *self)
                    implies #[trigger] in_order(collator@, e, *other) by {
                    assert(collation(collator@, e.display_string@, other.display_string@)
                        == collation(collator@, e.display_string@, other.display_string@));
                }
            }
            res
        } else {
            self.cmp_with_collation(other, Ordering::Equal)
        }
    }
}

/// Where `a` goes relative to `b` in the list, with the collator of the
/// locale with tag `locale`: by rank, then by display text in that collation.
pub open spec fn list_order(locale: Option<Seq<char>>, a: AppEntry, b: AppEntry) -> Ordering {
    rank_order(a, b, collation(locale, a.display_string@, b.display_string@))
}

/// `a` may stand before `b` in the list.
pub open spec fn in_order(locale: Option<Seq<char>>, a: AppEntry, b: AppEntry) -> bool {
    list_order(locale, a, b) != Ordering::Greater
}

/// `a` and `b` are equal in the list's order.
pub open spec fn tied(locale: Option<Seq<char>>, a: AppEntry, b: AppEntry) -> bool {
    list_order(locale, a, b) == Ordering::Equal
}

/// The entries are in list order: each may stand before every entry after
/// it (by rank, and by the collation between entries of the same rank).
pub open spec fn in_list_order(locale: Option<Seq<char>>, s: Seq<AppEntry>) -> bool {
    forall|a: int, b: int| 0 <= a < b < s.len() ==> in_order(locale, #[trigger] s[a], #[trigger] s[b])
}

/// Swapping two entries reverses their order in the list, wherever swapping
/// their display texts reverses the collation.
pub proof fn law_list_order_reverses(locale: Option<Seq<char>>, a: AppEntry, b: AppEntry)
    requires
        collation(locale, a.display_string@, b.display_string@) == reversed(
            collation(locale, b.display_string@, a.display_string@),
        ),
    ensures
        list_order(locale, a, b) == reversed(list_order(locale, b, a)),
{
    lemma_rank_order_antisymmetric(a, b, collation(locale, a.display_string@, b.display_string@));
    match collation(locale, b.display_string@, a.display_string@) {
        Ordering::Less => {},
        Ordering::Equal => {},
        Ordering::Greater => {},
    }
}

/// The entries are in list order: each ranks at least as high as every
/// entry after it.
pub open spec fn sorted_by_rank(s: Seq<AppEntry>) -> bool {
    forall|i: int, j: int| 0 <= i < j < s.len() ==> ranks_at_least(#[trigger] s[i], #[trigger] s[j])
}

fn goes_after(a: &AppEntry, b: &AppEntry, collator: &TextCollator) -> (res: bool)
    ensures
        res == !in_order(collator@, *a, *b),
        res ==> in_order(collator@, *b, *a) && !tied(collator@, *b, *a),
        !res ==> forall|e: AppEntry| in_order(collator@, e, *a) ==> #[trigger] in_order(collator@, e, *b),
        res ==> ranks_at_least(*b, *a),
        !res ==> ranks_at_least(*a, *b),
{
    match a.cmp(b, collator) {
        Ordering::Greater => true,
        _ => {
            proof {
                lemma_ranks_total_preorder(*a, *b, *b);
            }
            false
        },
    }
}

/// The positions of the shown entries (those with a score), in order.
pub open spec fn shown_positions(entries: Seq<AppEntry>, n: int) -> Seq<usize>
    decreases n,
{
    if n <= 0 {
        Seq::empty()
    } else {
        let rest = shown_positions(entries, n - 1);
        if entries[n - 1].score != 0 {
            rest.push((n - 1) as usize)
        } else {
            rest
        }
    }
}

proof fn lemma_shown_positions(entries: Seq<AppEntry>, n: int)
    requires
        0 <= n <= entries.len() <= usize::MAX,
    ensures
        forall|k: int| 0 <= k < shown_positions(entries, n).len() ==> {
            let p = #[trigger] shown_positions(entries, n)[k];
            p < n && entries[p as int].score != 0
        },
        forall|a: int, b: int| 0 <= a < b < shown_positions(entries, n).len() ==> #[trigger] shown_positions(entries, n)[a] < #[trigger] shown_positions(entries, n)[b],
        forall|p: int| 0 <= p < n && entries[p].score != 0 ==> shown_positions(entries, n).contains(p as usize),
    decreases n,
{
    if n > 0 {
        lemma_shown_positions(entries, n - 1);
        let rest = shown_positions(entries, n - 1);
        let sp = shown_positions(entries, n);
        if entries[n - 1].score != 0 {
            assert forall|k: int| 0 <= k < sp.len() implies {
                let p = #[trigger] sp[k];
                p < n && entries[p as int].score != 0
            } by {
                if k < rest.len() {
                    assert(sp[k] == rest[k]);
                }
            }
            assert forall|a: int, b: int| 0 <= a < b < sp.len() implies #[trigger] sp[a] < #[trigger] sp[b] by {
                assert(sp[a] == rest[a]);
                if b < rest.len() {
                    assert(sp[b] == rest[b]);
                }
            }
            assert forall|p: int| 0 <= p < n && entries[p].score != 0 implies sp.contains(p as usize) by {
                if p < n - 1 {
                    let k = choose|k: int| 0 <= k < rest.len() && rest[k] == p as usize;
                    assert(sp[k] == rest[k]);
                } else {
                    assert(sp[sp.len() - 1] == p as usize);
                }
            }
        }
    }
}

/// The first `n` positions of `list` are in list order for the entries: each
/// entry may stand before every later one, and entries that tie keep their
/// positions' order.
pub open spec fn positions_in_order(
    locale: Option<Seq<char>>,
    entries: Seq<AppEntry>,
    list: Seq<usize>,
    n: int,
) -> bool {
    forall|a: int, b: int|
        0 <= a < b < n ==> {
            &&& in_order(locale, entries[#[trigger] list[a] as int], entries[#[trigger] list[b] as int])
            &&& tied(locale, entries[list[a] as int], entries[list[b] as int]) ==> list[a] < list[b]
        }
}

/// Inserting the position `x`, taken from just after a prefix in list order,
/// where it belongs keeps the prefix in list order, and keeps it below the
/// positions after it.
proof fn lemma_insertion_keeps_positions(
    t: Option<Seq<char>>,
    entries: Seq<AppEntry>,
    before: Seq<usize>,
    w: Seq<usize>,
    x: usize,
    i: int,
    j: int,
)
    requires
        0 <= j <= i < before.len(),
        w == before.remove(i),
        x == before[i],
        positions_in_order(t, entries, before, i),
        forall|k: int, l: int| 0 <= k < i <= l < before.len() ==> #[trigger] before[k] < #[trigger] before[l],
        forall|k: int, l: int| i <= k < l < before.len() ==> #[trigger] before[k] < #[trigger] before[l],
        j > 0 ==> in_order(t, entries[w[j - 1] as int], entries[x as int]),
        j > 0 ==> forall|e: AppEntry| in_order(t, e, entries[w[j - 1] as int]) ==> #[trigger] in_order(t, e, entries[x as int]),
        forall|k: int| j <= k < i ==> in_order(t, entries[x as int], entries[#[trigger] w[k] as int]) && !tied(t, entries[x as int], entries[w[k] as int]),
    ensures
        positions_in_order(t, entries, w.insert(j, x), i + 1),
        forall|k: int, l: int| 0 <= k < i + 1 <= l < before.len() ==> #[trigger] w.insert(j, x)[k] < #[trigger] w.insert(j, x)[l],
        forall|k: int, l: int| i + 1 <= k < l < before.len() ==> #[trigger] w.insert(j, x)[k] < #[trigger] w.insert(j, x)[l],
{
    let v = w.insert(j, x);
    let m = before.len();
    assert forall|k: int, l: int| 0 <= k < i + 1 <= l < m implies #[trigger] v[k] < #[trigger] v[l] by {
        assert(v[l] == before[l]);
        if k < j {
            assert(v[k] == before[k]);
        } else if k > j {
            assert(v[k] == before[k - 1]);
        }
    }
    assert forall|k: int, l: int| i + 1 <= k < l < m implies #[trigger] v[k] < #[trigger] v[l] by {
        assert(v[k] == before[k] && v[l] == before[l]);
    }
    assert forall|a: int, b: int| 0 <= a < b < i + 1 implies {
        &&& in_order(t, entries[#[trigger] v[a] as int], entries[#[trigger] v[b] as int])
        &&& tied(t, entries[v[a] as int], entries[v[b] as int]) ==> v[a] < v[b]
    } by {
        if b < j {
            assert(v[a] == before[a] && v[b] == before[b]);
        } else if b == j {
            assert(v[a] == w[a] && w[a] == before[a]);
            if a < j - 1 {
                assert(w[j - 1] == before[j - 1]);
                assert(in_order(t, entries[before[a] as int], entries[before[j - 1] as int]));
            }
        } else if a < j {
            assert(v[a] == before[a] && v[b] == before[b - 1]);
        } else if a == j {
            assert(v[b] == w[b - 1]);
        } else {
            assert(v[a] == before[a - 1] && v[b] == before[b - 1]);
        }
    }
}

/// `res` is `entries` in the order `perm`, a permutation of their positions.
pub open spec fn reordered(entries: Seq<AppEntry>, perm: Seq<usize>, res: Seq<AppEntry>) -> bool {
    &&& perm.len() == entries.len()
    &&& res.len() == entries.len()
    &&& perm.no_duplicates()
    &&& forall|k: int| 0 <= k < perm.len() ==> #[trigger] perm[k] < entries.len() && res[k] == entries[perm[k] as int]
}

/// Sorts the entries into list order with a stable sort: by rank, entries of
/// the same rank by their display texts in the collator's order, and entries
/// that tie in the order they were given.
pub fn sort_entries(entries: Vec<AppEntry>, collator: &TextCollator) -> (res: Vec<AppEntry>)
    ensures
        exists|perm: Seq<usize>| #[trigger] reordered(entries@, perm, res@) && positions_in_order(
            collator@,
            entries@,
            perm,
            perm.len() as int,
        ),
        sorted_by_rank(res@),
        in_list_order(collator@, res@),
{
    let n = entries.len();
    let mut positions: Vec<usize> = Vec::new();
    let mut i: usize = 0;
    while i < n
        invariant
            i <= n,
            positions@ == Seq::new(i as nat, |k: int| k as usize),
        decreases n - i,
    {
        positions.push(i);
        proof {
            assert(positions@ =~= Seq::new((i + 1) as nat, |k: int| k as usize));
        }
        i = i + 1;
    }
    let ghost start = positions@;
    let perm = sort_positions(&entries, positions, collator);
    proof {
        assert(start.no_duplicates());
        start.lemma_multiset_has_no_duplicates();
        perm@.lemma_multiset_has_no_duplicates_conv();
    }
    let mut res: Vec<AppEntry> = Vec::new();
    let mut k: usize = 0;
    while k < n
        invariant
            k <= n == entries@.len() == perm@.len(),
            forall|q: int| 0 <= q < perm@.len() ==> #[trigger] perm@[q] < n,
            res@.len() == k,
            forall|q: int| 0 <= q < k ==> #[trigger] res@[q] == entries@[perm@[q] as int],
        decreases n - k,
    {
        let e = entries[perm[k]].duplicate();
        res.push(e);
        k = k + 1;
    }
    proof {
        assert(reordered(entries@, perm@, res@));
        assert forall|a: int, b: int| 0 <= a < b < res@.len() implies ranks_at_least(#[trigger] res@[a], #[trigger] res@[b]) by {
            assert(res@[a] == entries@[perm@[a] as int] && res@[b] == entries@[perm@[b] as int]);
        }
        assert forall|a: int, b: int| 0 <= a < b < res@.len() implies in_order(collator@, #[trigger] res@[a], #[trigger] res@[b]) by {
            assert(res@[a] == entries@[perm@[a] as int] && res@[b] == entries@[perm@[b] as int]);
        }
    }
    res
}

/// Sorts the positions `v` of entries (rising, each naming an entry) into list
/// order with a stable insertion sort: entries that tie keep the order of
/// their positions.
fn sort_positions(entries: &Vec<AppEntry>, v: Vec<usize>, collator: &TextCollator) -> (res: Vec<usize>)
    requires
        forall|k: int| 0 <= k < v@.len() ==> #[trigger] v@[k] < entries@.len(),
        forall|k: int, l: int| 0 <= k < l < v@.len() ==> #[trigger] v@[k] < #[trigger] v@[l],
    ensures
        res@.len() == v@.len(),
        res@.to_multiset() == v@.to_multiset(),
        forall|k: int| 0 <= k < res@.len() ==> #[trigger] res@[k] < entries@.len(),
        forall|i: int, j: int| 0 <= i < j < res@.len() ==> ranks_at_least(entries@[#[trigger] res@[i] as int], entries@[#[trigger] res@[j] as int]),
        positions_in_order(collator@, entries@, res@, res@.len() as int),
{
    let ghost t = collator@;
    let ghost shown = v@;
    let n = entries.len();
    let mut v = v;
    let m = v.len();
    if m > 0 {
        let mut i: usize = 1;
        while i < m
            invariant
                1 <= i <= m,
                n == entries@.len(),
                t == collator@,
                v@.len() == m,
                v@.to_multiset() == shown.to_multiset(),
                forall|k: int| 0 <= k < v@.len() ==> #[trigger] v@[k] < n,
                forall|a: int, b: int| 0 <= a < b < i ==> ranks_at_least(entries@[#[trigger] v@[a] as int], entries@[#[trigger] v@[b] as int]),
                positions_in_order(t, entries@, v@, i as int),
                forall|k: int, l: int| 0 <= k < i <= l < m ==> #[trigger] v@[k] < #[trigger] v@[l],
                forall|k: int, l: int| i <= k < l < m ==> #[trigger] v@[k] < #[trigger] v@[l],
            decreases m - i,
        {
            let ghost before = v@;
            let x = v.remove(i);
            assert(x < n) by { assert(before[i as int] == x); }
            let mut j: usize = i;
            while j > 0 && goes_after(&entries[v[j - 1]], &entries[x], collator)
                invariant
                    0 <= j <= i < m,
                    before.len() == m,
                    x < n == entries@.len(),
                    x == before[i as int],
                    t == collator@,
                    v@ == before.remove(i as int),
                    forall|k: int| 0 <= k < v@.len() ==> #[trigger] v@[k] < n,
                    forall|a: int, b: int| 0 <= a < b < i ==> ranks_at_least(entries@[#[trigger] v@[a] as int], entries@[#[trigger] v@[b] as int]),
                    forall|k: int| j <= k < i ==> ranks_at_least(entries@[x as int], entries@[#[trigger] v@[k] as int]),
                    forall|k: int| j <= k < i ==> in_order(t, entries@[x as int], entries@[#[trigger] v@[k] as int]) && !tied(
                        t,
                        entries@[x as int],
                        entries@[v@[k] as int],
                    ),
                decreases j,
            {
                j = j - 1;
            }
            let ghost w = v@;
            proof {
                assert(j > 0 ==> in_order(t, entries@[w[j - 1] as int], entries@[x as int]));
                assert(j > 0 ==> forall|e: AppEntry| in_order(t, e, entries@[w[j - 1] as int]) ==> #[trigger] in_order(t, e, entries@[x as int]));
            }
            v.insert(j, x);
            proof {
                assert(v@ =~= w.insert(j as int, x));
                assert(v@.to_multiset() =~= before.to_multiset());
                assert forall|k: int| 0 <= k < v@.len() implies #[trigger] v@[k] < n by {
                    if k < j {
                        assert(v@[k] == w[k]);
                    } else if k > j {
                        assert(v@[k] == w[k - 1]);
                    }
                }
                assert forall|a: int, b: int| 0 <= a < b < i + 1 implies ranks_at_least(
                    entries@[#[trigger] v@[a] as int],
                    entries@[#[trigger] v@[b] as int],
                ) by {
                    if a < j && b < j {
                        assert(v@[a] == w[a] && v@[b] == w[b]);
                    } else if a < j && b == j {
                        assert(v@[a] == w[a]);
                        if a < j - 1 {
                            lemma_ranks_total_preorder(entries@[w[a] as int], entries@[w[j - 1] as int], entries@[x as int]);
                        }
                    } else if a < j {
                        assert(v@[a] == w[a] && v@[b] == w[b - 1]);
                    } else if a == j {
                        assert(v@[b] == w[b - 1]);
                    } else {
                        assert(v@[a] == w[a - 1] && v@[b] == w[b - 1]);
                    }
                }
                lemma_insertion_keeps_positions(t, entries@, before, w, x, i as int, j as int);
            }
            i = i + 1;
        }
    }
    v
}

/// The positions of the shown entries (those with a score), in list order;
/// entries that tie keep the order of their positions.
pub fn rank_shown(entries: &Vec<AppEntry>, collator: &TextCollator) -> (res: Vec<usize>)
    ensures
        res@.to_multiset() == shown_positions(entries@, entries@.len() as int).to_multiset(),
        res@.no_duplicates(),
        forall|k: int| 0 <= k < res@.len() ==> #[trigger] res@[k] < entries@.len() && entries@[res@[k] as int].score != 0,
        forall|p: int| 0 <= p < entries@.len() && entries@[p].score != 0 ==> res@.contains(p as usize),
        forall|i: int, j: int| 0 <= i < j < res@.len() ==> ranks_at_least(entries@[#[trigger] res@[i] as int], entries@[#[trigger] res@[j] as int]),
        positions_in_order(collator@, entries@, res@, res@.len() as int),
{
    let ghost t = collator@;
    let n = entries.len();
    let mut v: Vec<usize> = Vec::new();
    let mut p: usize = 0;
    while p < n
        invariant
            p <= n == entries@.len(),
            v@ == shown_positions(entries@, p as int),
        decreases n - p,
    {
        if entries[p].score != 0 {
            v.push(p);
        }
        p = p + 1;
    }
    let ghost shown = v@;
    proof {
        lemma_shown_positions(entries@, n as int);
    }
    let v = sort_positions(entries, v, collator);
    assert(v@.to_multiset() == shown.to_multiset());
    proof {
        assert forall|k: int| 0 <= k < v@.len() implies #[trigger] v@[k] < entries@.len() && entries@[v@[k] as int].score != 0 by {
            assert(v@.contains(v@[k]));
            assert(v@.to_multiset().count(v@[k]) > 0);
            assert(shown.to_multiset().count(v@[k]) > 0);
            assert(shown.contains(v@[k]));
        }
        assert forall|q: int| 0 <= q < entries@.len() && entries@[q].score != 0 implies v@.contains(q as usize) by {
            assert(shown.contains(q as usize));
            assert(shown.to_multiset().count(q as usize) > 0);
            assert(v@.to_multiset().count(q as usize) > 0);
        }
        assert(shown.no_duplicates());
        shown.lemma_multiset_has_no_duplicates();
        v@.lemma_multiset_has_no_duplicates_conv();
    }
    v
}

} // verus!
