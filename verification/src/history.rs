//! The launch history: when each application was last launched and how often.

use vstd::prelude::*;

verus! {

/// When an application was last launched (seconds since the Unix epoch) and
/// how many times it has been launched.
#[derive(Clone, Copy, Debug, PartialEq, Eq, Structural)]
pub struct HistoryData {
    pub last_used: u64,
    pub usage_count: u32,
}

impl Default for HistoryData {
    /// An application never launched.
    fn default() -> (res: Self)
        ensures
            res.last_used == 0,
            res.usage_count == 0,
    {
        HistoryData { last_used: 0, usage_count: 0 }
    }
}

/// The history of one application, under its desktop file name.
#[derive(Debug)]
pub struct HistoryEntry {
    pub id: String,
    pub data: HistoryData,
}

impl HistoryEntry {
    /// A copy of this entry.
    pub fn duplicate(&self) -> (res: HistoryEntry)
        ensures
            res.id@ == self.id@,
            res.data == self.data,
    {
        HistoryEntry { id: self.id.clone(), data: self.data }
    }
}

/// The map from ids to history that a list of entries stands for; a later
/// entry for an id wins over an earlier one.
pub open spec fn map_of(s: Seq<HistoryEntry>) -> Map<Seq<char>, HistoryData>
    decreases s.len(),
{
    if s.len() == 0 {
        Map::empty()
    } else {
        map_of(s.drop_last()).insert(s.last().id@, s.last().data)
    }
}

/// No id occurs twice.
pub open spec fn ids_distinct(s: Seq<HistoryEntry>) -> bool {
    forall|i: int, j: int| 0 <= i < s.len() && 0 <= j < s.len() && i != j ==> s[i].id@ != s[j].id@
}

proof fn lemma_map_of_dom(s: Seq<HistoryEntry>, k: Seq<char>)
    ensures
        map_of(s).contains_key(k) <==> exists|i: int| 0 <= i < s.len() && #[trigger] s[i].id@ == k,
    decreases s.len(),
{
    if s.len() > 0 {
        let t = s.drop_last();
        lemma_map_of_dom(t, k);
        if map_of(s).contains_key(k) {
            if k == s.last().id@ {
                assert(s[s.len() - 1].id@ == k);
            } else {
                let i = choose|i: int| 0 <= i < t.len() && #[trigger] t[i].id@ == k;
                assert(s[i].id@ == k);
            }
        }
        if exists|i: int| 0 <= i < s.len() && #[trigger] s[i].id@ == k {
            let i = choose|i: int| 0 <= i < s.len() && #[trigger] s[i].id@ == k;
            if i < s.len() - 1 {
                assert(t[i].id@ == k);
            }
        }
    }
}

proof fn lemma_map_of_index(s: Seq<HistoryEntry>, i: int)
    requires
        ids_distinct(s),
        0 <= i < s.len(),
    ensures
        map_of(s).contains_key(s[i].id@),
        map_of(s)[s[i].id@] == s[i].data,
    decreases s.len(),
{
    let t = s.drop_last();
    if i < s.len() - 1 {
        assert(t[i] == s[i]);
        lemma_map_of_index(t, i);
        assert(s[i].id@ != s.last().id@);
    }
}

/// The launch history of all applications; no id occurs twice.
pub struct History {
    entries: Vec<HistoryEntry>,
}

impl View for History {
    type V = Map<Seq<char>, HistoryData>;

    closed spec fn view(&self) -> Map<Seq<char>, HistoryData> {
        map_of(self.entries@)
    }
}

impl History {
    #[verifier::type_invariant]
    closed spec fn wf(self) -> bool {
        ids_distinct(self.entries@)
    }

    /// An empty history.
    pub fn new() -> (res: History)
        ensures
            res@ == Map::<Seq<char>, HistoryData>::empty(),
    {
        History { entries: Vec::new() }
    }

    /// The number of applications in the history.
    pub fn len(&self) -> (res: usize)
        ensures
            self@.dom().finite(),
            res == self@.dom().len(),
    {
        proof {
            use_type_invariant(self);
            lemma_map_len(self.entries@);
        }
        self.entries.len()
    }

    /// The history of the application with id `id`, if it has one.
    pub fn get(&self, id: &str) -> (res: Option<HistoryData>)
        ensures
            res == (if self@.contains_key(id@) {
                Some(self@[id@])
            } else {
                None
            }),
    {
        proof {
            use_type_invariant(self);
        }
        let mut i: usize = 0;
        while i < self.entries.len()
            invariant
                i <= self.entries@.len(),
                ids_distinct(self.entries@),
                forall|k: int| 0 <= k < i ==> #[trigger] self.entries@[k].id@ != id@,
            decreases self.entries.len() - i,
        {
            if crate::text::str_eq(self.entries[i].id.as_str(), id) {
                proof {
                    lemma_map_of_index(self.entries@, i as int);
                }
                return Some(self.entries[i].data);
            }
            i = i + 1;
        }
        proof {
            lemma_map_of_dom(self.entries@, id@);
        }
        None
    }

    /// Index of the entry for `id`, if there is one.
    fn position(&self, id: &str) -> (res: Option<usize>)
        ensures
            match res {
                Some(i) => i < self.entries@.len() && self.entries@[i as int].id@ == id@,
                None => forall|k: int| 0 <= k < self.entries@.len() ==> #[trigger] self.entries@[k].id@ != id@,
            },
    {
        let mut i: usize = 0;
        while i < self.entries.len()
            invariant
                i <= self.entries@.len(),
                forall|k: int| 0 <= k < i ==> #[trigger] self.entries@[k].id@ != id@,
            decreases self.entries.len() - i,
        {
            if crate::text::str_eq(self.entries[i].id.as_str(), id) {
                return Some(i);
            }
            i = i + 1;
        }
        None
    }

    /// Sets the history of the application with id `id`.
    pub fn insert(&mut self, id: &str, data: HistoryData)
        ensures
            final(self)@ == old(self)@.insert(id@, data),
            final(self)@.dom().finite(),
    {
        proof {
            use_type_invariant(&*self);
            lemma_map_of_finite(self.entries@);
        }
        let ghost s = self.entries@;
        match self.position(id) {
            Some(i) => {
                let name = self.entries[i].id.clone();
                let mut entries: Vec<HistoryEntry> = Vec::new();
                std::mem::swap(&mut entries, &mut self.entries);
                entries.set(i, HistoryEntry { id: name, data });
                proof {
                    let t = entries@;
                    assert forall|a: int, b: int|
                        0 <= a < t.len() && 0 <= b < t.len() && a != b implies t[a].id@
                        != t[b].id@ by {
                        assert(t[a].id@ == s[a].id@);
                        assert(t[b].id@ == s[b].id@);
                    }
                    lemma_map_of_update(s, i as int, data);
                }
                self.entries = entries;
            },
            None => {
                let mut entries: Vec<HistoryEntry> = Vec::new();
                std::mem::swap(&mut entries, &mut self.entries);
                entries.push(HistoryEntry { id: crate::text::copy_str(id), data });
                proof {
                    let t = entries@;
                    assert(t.drop_last() =~= s);
                    assert forall|a: int, b: int|
                        0 <= a < t.len() && 0 <= b < t.len() && a != b implies t[a].id@
                        != t[b].id@ by {
                        if a < s.len() && b < s.len() {
                            assert(t[a] == s[a] && t[b] == s[b]);
                        } else if a < s.len() {
                            assert(t[a] == s[a]);
                        } else {
                            assert(t[b] == s[b]);
                        }
                    }
                }
                self.entries = entries;
            },
        }
    }

    /// The entries of the history, one per application.
    pub fn entries(&self) -> (res: &[HistoryEntry])
        ensures
            res@.len() == self@.dom().len(),
            forall|i: int| 0 <= i < res@.len() ==> self@.contains_key(#[trigger] res@[i].id@)
                && self@[res@[i].id@] == res@[i].data,
            forall|k: Seq<char>| #[trigger] self@.contains_key(k) ==> exists|i: int|
                0 <= i < res@.len() && res@[i].id@ == k,
    {
        proof {
            use_type_invariant(self);
            lemma_map_len(self.entries@);
            assert forall|i: int| 0 <= i < self.entries@.len() implies self@.contains_key(
                #[trigger] self.entries@[i].id@,
            ) && self@[self.entries@[i].id@] == self.entries@[i].data by {
                lemma_map_of_index(self.entries@, i);
            }
            assert forall|k: Seq<char>| #[trigger] self@.contains_key(k) implies exists|i: int|
                0 <= i < self.entries@.len() && self.entries@[i].id@ == k by {
                lemma_map_of_dom(self.entries@, k);
            }
        }
        self.entries.as_slice()
    }

    /// Keeps only the history of applications launched within the last `days`
    /// days before `now`; `days == 0` keeps everything.
    pub fn retain_recent(&mut self, days: u32, now: u64)
        requires
            days * 86400 <= now,
        ensures
            final(self)@ == old(self)@.restrict(
                old(self)@.dom().filter(|k: Seq<char>| is_recent(old(self)@[k], days, now)),
            ),
            final(self)@.dom().finite(),
    {
        proof {
            lemma_map_of_finite(self.entries@);
            use_type_invariant(&*self);
        }
        let cutoff: u64 = now - (days as u64) * 86400;
        let ghost s = self.entries@;
        let mut kept: Vec<HistoryEntry> = Vec::new();
        let mut i: usize = 0;
        while i < self.entries.len()
            invariant
                s == self.entries@,
                ids_distinct(s),
                cutoff == now - days * 86400,
                i <= s.len(),
                ids_distinct(kept@),
                forall|k: int| 0 <= k < kept@.len() ==> exists|j: int|
                    0 <= j < i && #[trigger] kept@[k].id@ == s[j].id@ && kept@[k].data == s[j].data,
                forall|j: int|
                    0 <= j < i && is_recent(#[trigger] s[j].data, days, now) ==> exists|k: int|
                        0 <= k < kept@.len() && kept@[k].id@ == s[j].id@,
                forall|k: int|
                    0 <= k < kept@.len() ==> is_recent(#[trigger] kept@[k].data, days, now),
            decreases s.len() - i,
        {
            let e = &self.entries[i];
            if days == 0 || e.data.last_used >= cutoff {
                let ghost before = kept@;
                kept.push(e.duplicate());
                proof {
                    let t = kept@;
                    assert forall|a: int, b: int|
                        0 <= a < t.len() && 0 <= b < t.len() && a != b implies t[a].id@
                        != t[b].id@ by {
                        if a < before.len() && b < before.len() {
                            assert(t[a] == before[a] && t[b] == before[b]);
                        } else {
                            let other = if a < before.len() { a } else { b };
                            assert(t[other] == before[other]);
                            let j = choose|j: int|
                                0 <= j < i && #[trigger] before[other].id@ == s[j].id@
                                    && before[other].data == s[j].data;
                            assert(s[j].id@ != s[i as int].id@);
                        }
                    }
                    assert forall|k: int| 0 <= k < t.len() implies exists|j: int|
                        0 <= j < i + 1 && #[trigger] t[k].id@ == s[j].id@ && t[k].data
                            == s[j].data by {
                        if k < before.len() {
                            assert(t[k] == before[k]);
                        } else {
                            assert(t[k].id@ == s[i as int].id@);
                        }
                    }
                    assert forall|j: int|
                        0 <= j < i + 1 && is_recent(#[trigger] s[j].data, days, now) implies exists|
                        k: int,
                    | 0 <= k < t.len() && t[k].id@ == s[j].id@ by {
                        if j < i {
                            let k = choose|k: int|
                                0 <= k < before.len() && before[k].id@ == s[j].id@;
                            assert(t[k] == before[k]);
                        } else {
                            assert(t[t.len() - 1].id@ == s[j].id@);
                        }
                    }
                    assert forall|k: int| 0 <= k < t.len() implies is_recent(
                        #[trigger] t[k].data,
                        days,
                        now,
                    ) by {
                        if k < before.len() {
                            assert(t[k] == before[k]);
                        }
                    }
                }
            }
            i = i + 1;
        }
        proof {
            let m = map_of(s).restrict(
                map_of(s).dom().filter(|k: Seq<char>| is_recent(map_of(s)[k], days, now)),
            );
            assert forall|key: Seq<char>| #[trigger] map_of(kept@).contains_key(key)
                == m.contains_key(key) && (m.contains_key(key) ==> map_of(kept@)[key]
                == m[key]) by {
                lemma_map_of_dom(kept@, key);
                lemma_map_of_dom(s, key);
                if map_of(kept@).contains_key(key) {
                    let k = choose|k: int| 0 <= k < kept@.len() && #[trigger] kept@[k].id@ == key;
                    let j = choose|j: int|
                        0 <= j < i && #[trigger] kept@[k].id@ == s[j].id@ && kept@[k].data
                            == s[j].data;
                    lemma_map_of_index(kept@, k);
                    lemma_map_of_index(s, j);
                }
                if m.contains_key(key) {
                    let j = choose|j: int| 0 <= j < s.len() && #[trigger] s[j].id@ == key;
                    lemma_map_of_index(s, j);
                    let k = choose|k: int| 0 <= k < kept@.len() && kept@[k].id@ == s[j].id@;
                    lemma_map_of_index(kept@, k);
                    let j2 = choose|j2: int|
                        0 <= j2 < i && #[trigger] kept@[k].id@ == s[j2].id@ && kept@[k].data
                            == s[j2].data;
                    assert(j2 == j);
                }
            }
            assert(map_of(kept@) =~= m);
            lemma_map_of_finite(kept@);
        }
        self.entries = kept;
    }
}

/// The entry kept by `retain_recent`: pruning is off (`days == 0`) or the
/// application was launched at or after `days` days before `now`.
pub open spec fn is_recent(data: HistoryData, days: u32, now: u64) -> bool {
    days == 0 || data.last_used >= now - days * 86400
}

proof fn lemma_map_of_update(s: Seq<HistoryEntry>, i: int, data: HistoryData)
    requires
        ids_distinct(s),
        0 <= i < s.len(),
    ensures
        map_of(s.update(i, HistoryEntry { id: s[i].id, data })) == map_of(s).insert(s[i].id@, data),
{
    let t = s.update(i, HistoryEntry { id: s[i].id, data });
    assert(ids_distinct(t)) by {
        assert forall|a: int, b: int|
            0 <= a < t.len() && 0 <= b < t.len() && a != b implies t[a].id@ != t[b].id@ by {
            assert(t[a].id@ == s[a].id@);
            assert(t[b].id@ == s[b].id@);
        }
    }
    let m = map_of(s).insert(s[i].id@, data);
    assert forall|key: Seq<char>| #[trigger] map_of(t).contains_key(key) == m.contains_key(key) && (
    m.contains_key(key) ==> map_of(t)[key] == m[key]) by {
        lemma_map_of_dom(t, key);
        lemma_map_of_dom(s, key);
        if exists|j: int| 0 <= j < t.len() && #[trigger] t[j].id@ == key {
            let j = choose|j: int| 0 <= j < t.len() && #[trigger] t[j].id@ == key;
            assert(s[j].id@ == key);
        }
        if m.contains_key(key) {
            if key == s[i].id@ {
                lemma_map_of_index(t, i);
            } else {
                let j = choose|j: int| 0 <= j < s.len() && #[trigger] s[j].id@ == key;
                assert(t[j] == s[j]);
                lemma_map_of_index(t, j);
                lemma_map_of_index(s, j);
            }
        }
    }
    assert(map_of(t) =~= m);
}

proof fn lemma_map_of_finite(s: Seq<HistoryEntry>)
    ensures
        map_of(s).dom().finite(),
    decreases s.len(),
{
    if s.len() > 0 {
        lemma_map_of_finite(s.drop_last());
    }
}

proof fn lemma_map_len(s: Seq<HistoryEntry>)
    requires
        ids_distinct(s),
    ensures
        map_of(s).dom().finite(),
        map_of(s).dom().len() == s.len(),
    decreases s.len(),
{
    if s.len() > 0 {
        let t = s.drop_last();
        assert(ids_distinct(t)) by {
            assert forall|a: int, b: int|
                0 <= a < t.len() && 0 <= b < t.len() && a != b implies t[a].id@ != t[b].id@ by {
                assert(t[a] == s[a] && t[b] == s[b]);
            }
        }
        lemma_map_len(t);
        lemma_map_of_dom(t, s.last().id@);
        if map_of(t).contains_key(s.last().id@) {
            let j = choose|j: int| 0 <= j < t.len() && #[trigger] t[j].id@ == s.last().id@;
            assert(s[j].id@ == s[s.len() - 1].id@);
        }
    }
}

/// The current time in whole seconds since the Unix epoch; none where the
/// system clock is set before the epoch.
///
/// Which value comes back depends on the clock and is not stated.
#[verifier::external_body]
fn seconds_since_epoch() -> (res: Option<u64>) {
    match std::time::SystemTime::now().duration_since(std::time::UNIX_EPOCH) {
        Ok(elapsed) => Some(elapsed.as_secs()),
        Err(_) => None,
    }
}

/// What is read back after a write: the history written for `id`, and for
/// every other application what was there before.
pub proof fn law_history_read_after_write(
    h: Map<Seq<char>, HistoryData>,
    id: Seq<char>,
    data: HistoryData,
    other: Seq<char>,
)
    ensures
        h.insert(id, data).contains_key(id),
        h.insert(id, data)[id] == data,
        other != id ==> h.insert(id, data).contains_key(other) == h.contains_key(other),
        other != id && h.contains_key(other) ==> h.insert(id, data)[other] == h[other],
{
}

/// Recording a launch adds one to the application's launch count and leaves
/// every other application's count alone.
pub proof fn law_launch_counts_up(h: Map<Seq<char>, HistoryData>, id: Seq<char>, now: u64, other: Seq<char>)
    requires
        launch_count(h, id) < u32::MAX,
    ensures
        ({
            let after = h.insert(
                id,
                HistoryData { last_used: now, usage_count: (launch_count(h, id) + 1) as u32 },
            );
            &&& launch_count(after, id) == launch_count(h, id) + 1
            &&& after[id].last_used == now
            &&& other != id ==> launch_count(after, other) == launch_count(h, other)
        }),
{
}

/// Pruning with `days == 0` keeps the whole history.
pub proof fn law_no_pruning_keeps_all(h: Map<Seq<char>, HistoryData>, now: u64)
    ensures
        h.restrict(h.dom().filter(|k: Seq<char>| is_recent(h[k], 0, now))) == h,
{
    assert(h.dom().filter(|k: Seq<char>| is_recent(h[k], 0, now)) =~= h.dom());
    assert(h.restrict(h.dom()) =~= h);
}

/// Pruning keeps exactly the applications launched at or after the cut-off,
/// with their history unchanged.
pub proof fn law_pruning_keeps_recent(h: Map<Seq<char>, HistoryData>, days: u32, now: u64, id: Seq<char>)
    requires
        days > 0,
        days * 86400 <= now,
    ensures
        ({
            let kept = h.restrict(h.dom().filter(|k: Seq<char>| is_recent(h[k], days, now)));
            &&& kept.contains_key(id) <==> (h.contains_key(id) && h[id].last_used >= now - days * 86400)
            &&& kept.contains_key(id) ==> kept[id] == h[id]
        }),
{
}

/// The system clock read before the Unix epoch.
#[derive(Clone, Copy, Debug, PartialEq, Eq, Structural)]
pub enum ClockError {
    BeforeEpoch,
}

/// The number of launches an application has behind it.
pub open spec fn launch_count(h: Map<Seq<char>, HistoryData>, id: Seq<char>) -> int {
    if h.contains_key(id) {
        h[id].usage_count as int
    } else {
        0
    }
}

/// Records a launch of the application `id` at time `now`: its last use
/// becomes `now` and its launch count grows by one.
pub fn update_history_at(history: &mut History, id: &str, now: u64)
    requires
        launch_count(old(history)@, id@) < u32::MAX,
    ensures
        final(history)@ == old(history)@.insert(
            id@,
            HistoryData { last_used: now, usage_count: (launch_count(old(history)@, id@) + 1) as u32 },
        ),
{
    let usage_count = match history.get(id) {
        Some(h) => h.usage_count,
        None => 0,
    } + 1;
    history.insert(id, HistoryData { last_used: now, usage_count });
}

/// The history `new` records, over `old`, a launch of the application `id`
/// at time `now`.
pub open spec fn launch_recorded(
    old: Map<Seq<char>, HistoryData>,
    id: Seq<char>,
    now: u64,
    new: Map<Seq<char>, HistoryData>,
) -> bool {
    new == old.insert(id, HistoryData { last_used: now, usage_count: (launch_count(old, id) + 1) as u32 })
}

/// A recorded launch sets the application's last use to the time of the
/// launch, whatever it was before, adds one to its launch count, and leaves
/// every other application as it was.
pub proof fn law_launch_sets_last_use(
    old: Map<Seq<char>, HistoryData>,
    id: Seq<char>,
    now: u64,
    new: Map<Seq<char>, HistoryData>,
    other: Seq<char>,
)
    requires
        launch_recorded(old, id, now, new),
        launch_count(old, id) < u32::MAX,
    ensures
        new.contains_key(id),
        new[id].last_used == now,
        new[id].usage_count == launch_count(old, id) + 1,
        other != id ==> new.contains_key(other) == old.contains_key(other),
        other != id && old.contains_key(other) ==> new[other] == old[other],
{
}

/// Records a launch of the application `id` now, and returns the time
/// recorded: the system clock's reading, in seconds since the Unix epoch.
///
/// It fails only on what the system clock reads (set before the Unix epoch),
/// and then leaves the history as it was; `update_history_at` states what a
/// launch at a given time records.
pub fn update_history(history: &mut History, id: &str) -> (res: Result<u64, ClockError>)
    requires
        launch_count(old(history)@, id@) < u32::MAX,
    ensures
        match res {
            Ok(now) => {
                &&& launch_recorded(old(history)@, id@, now, final(history)@)
                &&& final(history)@.contains_key(id@)
                &&& final(history)@[id@].usage_count == launch_count(old(history)@, id@) + 1
                &&& final(history)@[id@].last_used == now
                &&& final(history)@.remove(id@) == old(history)@.remove(id@)
                &&& final(history)@.dom().finite()
                &&& final(history)@.dom().len() == old(history)@.dom().len() + (if old(history)@.contains_key(id@) { 0int } else { 1int })
            },
            Err(_) => final(history)@ == old(history)@,
        },
{
    proof {
        lemma_map_of_finite(history.entries@);
    }
    match seconds_since_epoch() {
        Some(now) => {
            update_history_at(history, id, now);
            proof {
                assert(final(history)@.remove(id@) =~= old(history)@.remove(id@));
            }
            Ok(now)
        },
        None => Err(ClockError::BeforeEpoch),
    }
}

} // verus!
