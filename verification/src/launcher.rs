//! The launcher's state machine: from the current state and a user event to
//! the next state and what the caller is to do.

use crate::app_entry::{same_but_score, skim_fuzzy_indices, AppEntry};
use crate::history::History;
use crate::launch::{command_text, is_cmd};
use crate::order::{positions_in_order, rank_shown, ranks_at_least, shown_positions};
use crate::text::{has_prefix, trim};
use crate::order::TextCollator;
use vstd::prelude::*;

verus! {

/// A key the launcher reacts to; other keys go to the query field.
#[derive(Clone, Copy, Debug, PartialEq, Eq, Structural)]
pub enum Key {
    Escape,
    ArrowUp,
    ArrowDown,
    Tab,
    Other,
}

/// An event for the launcher.
#[derive(Clone, Debug)]
pub enum Message {
    /// The query text changed.
    InputChanged(String),
    /// Enter was pressed in the query field.
    Submit,
    KeyPressed(Key),
    /// The entry at this position of the list was clicked.
    Launch(usize),
    /// The query field should take the keyboard focus.
    FocusInput,
    /// An event the launcher does not handle.
    Ignored,
}

/// What the caller is to do after an event.
#[derive(Clone, Debug)]
pub enum Action {
    Nothing,
    /// Close the launcher.
    Exit,
    /// Scroll the list so that this row of it is visible.
    ScrollTo(usize),
    /// Give the query field the keyboard focus.
    FocusInput,
    /// Run this typed command, then close.
    RunCommand(String),
    /// Launch the entry at this position, record the launch in the history,
    /// then close.
    LaunchEntry(usize),
}

/// The launcher: the query, every application, the positions of those shown
/// (in list order), and the selected row of the shown list.
pub struct Launcher {
    pub query: String,
    pub entries: Vec<AppEntry>,
    pub filtered_indices: Vec<usize>,
    pub selected: usize,
    pub history: History,
}

/// The score the query gives an entry's search text.
pub open spec fn match_score(search: Seq<char>, query: Seq<char>) -> i64 {
    if query.len() == 0 {
        100
    } else {
        match skim_fuzzy_indices(search, query) {
            Some((score, _)) => score,
            None => 0,
        }
    }
}

/// The shown list is `list` for `entries`, with the collator of the locale
/// with tag `locale`: each shown entry once, in list order, entries that tie
/// in the order of their positions.
pub open spec fn ranked_list(locale: Option<Seq<char>>, entries: Seq<AppEntry>, list: Seq<usize>) -> bool {
    &&& positions_in_order(locale, entries, list, list.len() as int)
    &&& list.to_multiset() == shown_positions(entries, entries.len() as int).to_multiset()
    &&& list.no_duplicates()
    &&& forall|k: int| 0 <= k < list.len() ==> #[trigger] list[k] < entries.len() && entries[list[k] as int].score != 0
    &&& forall|p: int| 0 <= p < entries.len() && entries[p].score != 0 ==> list.contains(p as usize)
    &&& forall|i: int, j: int| 0 <= i < j < list.len() ==> ranks_at_least(entries[#[trigger] list[i] as int], entries[#[trigger] list[j] as int])
}

impl Launcher {
    /// The state is consistent: the shown list names entries, and the
    /// selection is a row of it (row 0 where it is empty).
    pub open spec fn wf(&self) -> bool {
        &&& forall|k: int| 0 <= k < self.filtered_indices@.len() ==> #[trigger] self.filtered_indices@[k] < self.entries@.len()
        &&& (self.selected == 0 || self.selected < self.filtered_indices@.len())
    }

    /// A launcher that shows every application in the given order, with the
    /// first selected and an empty query.
    pub fn new(entries: Vec<AppEntry>, history: History) -> (res: Launcher)
        ensures
            res.wf(),
            res.query@.len() == 0,
            res.entries@ == entries@,
            res.filtered_indices@ == Seq::new(entries@.len(), |i: int| i as usize),
            res.selected == 0,
            res.history@ == history@,
    {
        let mut filtered: Vec<usize> = Vec::new();
        let mut i: usize = 0;
        while i < entries.len()
            invariant
                i <= entries@.len(),
                filtered@ == Seq::new(i as nat, |k: int| k as usize),
            decreases entries.len() - i,
        {
            filtered.push(i);
            proof {
                assert(filtered@ =~= Seq::new((i + 1) as nat, |k: int| k as usize));
            }
            i = i + 1;
        }
        Launcher { query: String::new(), entries, filtered_indices: filtered, selected: 0, history }
    }

    /// The position of the selected entry, if the shown list has one.
    pub fn selected_entry(&self) -> (res: Option<usize>)
        ensures
            res == (if self.selected < self.filtered_indices@.len() {
                Some(self.filtered_indices@[self.selected as int])
            } else {
                None
            }),
    {
        if self.selected < self.filtered_indices.len() {
            Some(self.filtered_indices[self.selected])
        } else {
            None
        }
    }

    fn set_query(&mut self, query: String, command_prefix: &str, collator: &TextCollator)
        requires
            old(self).wf(),
        ensures
            final(self).wf(),
            final(self).query == query,
            final(self).selected == 0,
            final(self).history == old(self).history,
            final(self).entries@.len() == old(self).entries@.len(),
            forall|i: int| 0 <= i < final(self).entries@.len() ==> same_but_score(#[trigger] final(self).entries@[i], old(self).entries@[i]),
            is_cmd_spec(query@, command_prefix@) ==> {
                &&& forall|i: int| 0 <= i < final(self).entries@.len() ==> (#[trigger] final(self).entries@[i]).score == 0
                &&& final(self).filtered_indices@.len() == 0
            },
            !is_cmd_spec(query@, command_prefix@) ==> {
                &&& forall|i: int| 0 <= i < final(self).entries@.len() ==> (#[trigger] final(self).entries@[i]).score == match_score(old(self).entries@[i].search_string@, query@)
                &&& ranked_list(collator@, final(self).entries@, final(self).filtered_indices@)
            },
    {
        let command = is_cmd(query.as_str(), command_prefix);
        let n = self.entries.len();
        let mut i: usize = 0;
        while i < n
            invariant
                n == self.entries@.len() == old(self).entries@.len(),
                i <= n,
                command == is_cmd_spec(query@, command_prefix@),
                self.history == old(self).history,
                forall|k: int| 0 <= k < n ==> same_but_score(#[trigger] self.entries@[k], old(self).entries@[k]),
                forall|k: int| i <= k < n ==> #[trigger] self.entries@[k] == old(self).entries@[k],
                command ==> forall|k: int| 0 <= k < i ==> (#[trigger] self.entries@[k]).score == 0,
                !command ==> forall|k: int| 0 <= k < i ==> (#[trigger] self.entries@[k]).score == match_score(old(self).entries@[k].search_string@, query@),
            decreases n - i,
        {
            if command {
                self.entries[i].hide_entry();
            } else {
                let _ = self.entries[i].update_match(query.as_str());
            }
            i = i + 1;
        }
        if command {
            self.filtered_indices = Vec::new();
        } else {
            self.filtered_indices = rank_shown(&self.entries, collator);
        }
        self.query = query;
        self.selected = 0;
    }

    /// Handles one event: returns what the caller is to do next.
    pub fn update(&mut self, message: Message, command_prefix: &str, collator: &TextCollator) -> (action: Action)
        requires
            old(self).wf(),
        ensures
            final(self).wf(),
            final(self).history == old(self).history,
            final(self).entries@.len() == old(self).entries@.len(),
            update_spec(*old(self), message, command_prefix@, collator@, *final(self), action),
    {
        match message {
            Message::InputChanged(query) => {
                self.set_query(query, command_prefix, collator);
                Action::Nothing
            },
            Message::Submit => {
                if is_cmd(self.query.as_str(), command_prefix) {
                    Action::RunCommand(command_text(self.query.as_str(), command_prefix))
                } else {
                    match self.selected_entry() {
                        Some(idx) => Action::LaunchEntry(idx),
                        None => Action::Nothing,
                    }
                }
            },
            Message::KeyPressed(key) => match key {
                Key::Escape => Action::Exit,
                Key::ArrowDown => {
                    let len = self.filtered_indices.len();
                    if len > 0 {
                        let next = if self.selected + 1 < len - 1 {
                            self.selected + 1
                        } else {
                            len - 1
                        };
                        self.selected = next;
                        Action::ScrollTo(next)
                    } else {
                        Action::Nothing
                    }
                },
                Key::ArrowUp => {
                    if self.selected > 0 {
                        self.selected = self.selected - 1;
                        Action::ScrollTo(self.selected)
                    } else {
                        Action::Nothing
                    }
                },
                Key::Tab => {
                    let len = self.filtered_indices.len();
                    if len > 0 {
                        self.selected = (self.selected + 1) % len;
                        Action::ScrollTo(self.selected)
                    } else {
                        Action::Nothing
                    }
                },
                Key::Other => Action::Nothing,
            },
            Message::FocusInput => Action::FocusInput,
            Message::Launch(idx) => {
                if idx < self.entries.len() {
                    Action::LaunchEntry(idx)
                } else {
                    Action::Nothing
                }
            },
            Message::Ignored => Action::Nothing,
        }
    }
}

/// Whether the query is a typed command for the prefix.
pub open spec fn is_cmd_spec(query: Seq<char>, prefix: Seq<char>) -> bool {
    prefix.len() > 0 && has_prefix(query, prefix)
}

/// The selection after the down arrow: the next row, but not past the last.
pub open spec fn selection_down(selected: usize, len: nat) -> usize {
    if selected + 1 < len - 1 {
        (selected + 1) as usize
    } else {
        (len - 1) as usize
    }
}

/// Everything but the selection is unchanged.
pub open spec fn only_selection_changes(old: Launcher, new: Launcher) -> bool {
    &&& new.query == old.query
    &&& new.entries == old.entries
    &&& new.filtered_indices == old.filtered_indices
    &&& new.history == old.history
}

/// What one event does to the launcher and what it asks the caller to do.
pub open spec fn update_spec(
    old: Launcher,
    message: Message,
    prefix: Seq<char>,
    locale: Option<Seq<char>>,
    new: Launcher,
    action: Action,
) -> bool {
    match message {
        Message::InputChanged(query) => {
            &&& action is Nothing
            &&& new.query == query
            &&& new.selected == 0
            &&& new.history == old.history
            &&& new.entries@.len() == old.entries@.len()
            &&& forall|i: int| 0 <= i < new.entries@.len() ==> same_but_score(#[trigger] new.entries@[i], old.entries@[i])
            &&& is_cmd_spec(query@, prefix) ==> {
                &&& forall|i: int| 0 <= i < new.entries@.len() ==> (#[trigger] new.entries@[i]).score == 0
                &&& new.filtered_indices@.len() == 0
            }
            &&& !is_cmd_spec(query@, prefix) ==> {
                &&& forall|i: int| 0 <= i < new.entries@.len() ==> (#[trigger] new.entries@[i]).score == match_score(old.entries@[i].search_string@, query@)
                &&& ranked_list(locale, new.entries@, new.filtered_indices@)
            }
        },
        Message::Submit => {
            &&& new == old
            &&& if is_cmd_spec(old.query@, prefix) {
                action matches Action::RunCommand(cmd) && cmd@ == trim(old.query@.skip(prefix.len() as int))
            } else if old.selected < old.filtered_indices@.len() {
                action == Action::LaunchEntry(old.filtered_indices@[old.selected as int])
            } else {
                action is Nothing
            }
        },
        Message::KeyPressed(key) => match key {
            Key::Escape => new == old && action is Exit,
            Key::ArrowDown => only_selection_changes(old, new) && if old.filtered_indices@.len() > 0 {
                &&& new.selected == selection_down(old.selected, old.filtered_indices@.len())
                &&& action == Action::ScrollTo(new.selected)
            } else {
                new == old && action is Nothing
            },
            Key::ArrowUp => only_selection_changes(old, new) && if old.selected > 0 {
                &&& new.selected == old.selected - 1
                &&& action == Action::ScrollTo(new.selected)
            } else {
                new == old && action is Nothing
            },
            Key::Tab => only_selection_changes(old, new) && if old.filtered_indices@.len() > 0 {
                &&& new.selected == (old.selected + 1) % (old.filtered_indices@.len() as int)
                &&& action == Action::ScrollTo(new.selected)
            } else {
                new == old && action is Nothing
            },
            Key::Other => new == old && action is Nothing,
        },
        Message::Launch(idx) => new == old && if idx < old.entries@.len() {
            action == Action::LaunchEntry(idx)
        } else {
            action is Nothing
        },
        Message::FocusInput => new == old && action is FocusInput,
        Message::Ignored => new == old && action is Nothing,
    }
}

proof fn lemma_all_shown_len(entries: Seq<AppEntry>, n: int)
    requires
        0 <= n <= entries.len(),
        forall|i: int| 0 <= i < entries.len() ==> (#[trigger] entries[i]).score != 0,
    ensures
        shown_positions(entries, n).len() == n,
    decreases n,
{
    if n > 0 {
        lemma_all_shown_len(entries, n - 1);
    }
}

/// An empty query lists every application: each gets score 100, and a list
/// ranked for entries that all have a score names every one of them.
pub proof fn law_empty_query_lists_all(
    locale: Option<Seq<char>>,
    entries: Seq<AppEntry>,
    list: Seq<usize>,
    search: Seq<char>,
)
    requires
        forall|i: int| 0 <= i < entries.len() ==> (#[trigger] entries[i]).score != 0,
        ranked_list(locale, entries, list),
    ensures
        match_score(search, Seq::empty()) == 100,
        list.len() == entries.len(),
{
    lemma_all_shown_len(entries, entries.len() as int);
    broadcast use vstd::seq_lib::group_to_multiset_ensures;
    assert(list.to_multiset().len() == list.len());
    assert(shown_positions(entries, entries.len() as int).to_multiset().len() == entries.len());
}

/// The selection stays on the shown list whatever the arrow and tab keys do:
/// the down arrow stops at the last row, and tab wraps around to the first.
pub proof fn law_selection_stays_on_list(selected: usize, len: nat)
    requires
        0 < len <= usize::MAX,
        selected < len,
    ensures
        selection_down(selected, len) < len,
        selection_down(selected, len) >= selected,
        selected + 1 < len ==> selection_down(selected, len) == selected + 1,
        (selected + 1) % (len as int) < len,
        selected + 1 == len ==> (selected + 1) % (len as int) == 0,
{
    if selected + 1 == len {
        vstd::arithmetic::div_mod::lemma_mod_self_0(len as int);
    }
}


/// The keys that move the selection: the up arrow moves it one row up (and
/// does nothing on the top row), the down arrow one row down (staying on the
/// last row), tab one row down, wrapping from the last row to the top;
/// escape closes the launcher. Only the selection changes, and the list
/// scrolls to the new row.
pub proof fn law_keys_move_selection(
    old: Launcher,
    prefix: Seq<char>,
    locale: Option<Seq<char>>,
    new: Launcher,
    action: Action,
    key: Key,
)
    requires
        update_spec(old, Message::KeyPressed(key), prefix, locale, new, action),
        old.selected < old.filtered_indices@.len(),
    ensures
        new.query == old.query && new.entries == old.entries && new.filtered_indices
            == old.filtered_indices && new.history == old.history,
        key == Key::ArrowUp && old.selected > 0 ==> new.selected + 1 == old.selected
            && action == Action::ScrollTo(new.selected),
        key == Key::ArrowUp && old.selected == 0 ==> new.selected == 0 && action is Nothing,
        key == Key::ArrowDown && old.selected + 1 < old.filtered_indices@.len() ==> new.selected
            == old.selected + 1 && action == Action::ScrollTo(new.selected),
        key == Key::ArrowDown && old.selected + 1 == old.filtered_indices@.len() ==> new.selected
            == old.selected && action == Action::ScrollTo(new.selected),
        key == Key::Tab && old.selected + 1 < old.filtered_indices@.len() ==> new.selected
            == old.selected + 1 && action == Action::ScrollTo(new.selected),
        key == Key::Tab && old.selected + 1 == old.filtered_indices@.len() ==> new.selected == 0
            && action == Action::ScrollTo(0),
        key == Key::Escape ==> new.selected == old.selected && action is Exit,
{
    let len = old.filtered_indices@.len() as int;
    assert(old.filtered_indices.len() == len);
    if key == Key::ArrowDown && old.selected + 1 < len {
        assert(selection_down(old.selected, old.filtered_indices@.len()) == old.selected + 1);
    }
    if key == Key::Tab {
        if old.selected + 1 == len {
            vstd::arithmetic::div_mod::lemma_mod_self_0(len);
        } else {
            vstd::arithmetic::div_mod::lemma_small_mod((old.selected + 1) as nat, len as nat);
        }
    }
}

} // verus!
