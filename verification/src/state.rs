//! The popup in its plain form: one list of entries, filtered on demand, and
//! the widget that shows a window of it.

use crate::entry::{views, CompletionEntry, ScoredCompletionItem, ScoredView};
use crate::rank::{is_ranking, rank, survivors};
use crate::session::{entry_views, fresh_items, wrap_entries};
use crate::viewport::scroll_to;
use crate::viewport::scroll_target;
use vstd::prelude::*;

verus! {

/// The entries of one completion and what the user has typed against them.
#[derive(Debug)]
pub struct CompletionState {
    /// The entries as the server sent them.
    pub items: Vec<ScoredCompletionItem>,
    /// What the user has typed behind `offset`.
    pub input: String,
    /// The text position at which completion was asked for.
    pub offset: usize,
    /// The selected row of the shown list.
    pub index: usize,
    /// How far the list is scrolled, in whole pixels.
    pub scroll_offset: u64,
}

/// A `CompletionState` as a value.
pub struct StateView {
    pub items: Seq<ScoredView>,
    pub input: Seq<char>,
    pub offset: usize,
    pub index: usize,
    pub scroll_offset: u64,
}

impl StateView {
    /// The number of rows of the shown list: all entries under the empty
    /// prefix, else those that match it.
    pub open spec fn shown_len(self) -> nat {
        if self.input.len() == 0 {
            self.items.len()
        } else {
            survivors(self.items, self.input).len()
        }
    }

    /// Whether the selected row can be scrolled to under rows of
    /// `line_height`: there is such a row, and its lower edge is a pixel
    /// count.
    pub open spec fn can_reveal(self, line_height: u64) -> bool {
        self.index < self.shown_len() && (self.index + 1) * line_height <= u64::MAX
    }

    /// The scroll offset after the selected row was brought into a window of
    /// `height`.
    pub open spec fn revealed_offset(self, line_height: u64, height: u64) -> int {
        if self.can_reveal(line_height) {
            scroll_target(
                self.scroll_offset as int,
                self.index as int,
                line_height as int,
                height as int,
                self.shown_len() as int,
            )
        } else {
            self.scroll_offset as int
        }
    }
}

impl View for CompletionState {
    type V = StateView;

    open spec fn view(&self) -> StateView {
        StateView {
            items: views(self.items@),
            input: self.input@,
            offset: self.offset,
            index: self.index,
            scroll_offset: self.scroll_offset,
        }
    }
}

/// The state without entries, prefix, selection or scroll.
pub open spec fn empty_state() -> StateView {
    StateView { items: Seq::empty(), input: Seq::empty(), offset: 0, index: 0, scroll_offset: 0 }
}

impl CompletionState {
    pub fn new() -> (r: CompletionState)
        ensures
            r@ == empty_state(),
    {
        let r = CompletionState {
            items: Vec::new(),
            input: String::new(),
            offset: 0,
            index: 0,
            scroll_offset: 0,
        };
        assert(r@.items =~= Seq::empty());
        r
    }

    /// The number of rows of the shown list.
    pub fn len(&self) -> (n: usize)
        ensures
            n == self@.shown_len(),
    {
        let shown = self.current_items();
        proof {
            vstd::seq_lib::to_multiset_len(views(shown@));
            vstd::seq_lib::to_multiset_len(survivors(self@.items, self@.input));
        }
        shown.len()
    }

    /// The shown list: all entries in the server's order under the empty
    /// prefix, else the entries that match it, best first.
    pub fn current_items(&self) -> (shown: Vec<ScoredCompletionItem>)
        ensures
            is_ranking(self@.items, self@.input, views(shown@)),
    {
        rank(&self.items, self.input.as_str())
    }

    /// Empties the state.
    pub fn clear(&mut self)
        ensures
            final(self)@ == empty_state(),
    {
        self.input = String::new();
        self.items = Vec::new();
        self.offset = 0;
        self.index = 0;
        self.scroll_offset = 0;
        assert(self@.items =~= Seq::empty());
    }

    /// Empties the state and returns whether it held anything, so that the
    /// caller knows to paint anew.
    pub fn cancel(&mut self) -> (changed: bool)
        ensures
            final(self)@ == empty_state(),
            changed == (old(self)@ != empty_state()),
    {
        let changed = self.items.len() > 0 || !self.input.as_str().is_empty() || self.offset != 0
            || self.index != 0 || self.scroll_offset != 0;
        proof {
            if !changed {
                assert(self@.items =~= Seq::empty());
                assert(self@.input =~= Seq::empty());
            }
        }
        self.clear();
        changed
    }

    /// Takes `entries` as the entries to choose from and `input` as the
    /// prefix typed so far.
    pub fn update(&mut self, input: String, entries: Vec<CompletionEntry>)
        ensures
            final(self)@ == (StateView {
                items: fresh_items(entry_views(entries@)),
                input: input@,
                ..old(self)@
            }),
    {
        self.items = wrap_entries(&entries);
        self.input = input;
    }

    /// Replaces the typed prefix by `input`; selection and scroll start
    /// over.
    pub fn update_input(&mut self, input: String)
        ensures
            final(self)@ == (StateView {
                input: input@,
                index: 0,
                scroll_offset: 0,
                ..old(self)@
            }),
    {
        self.input = input;
        self.index = 0;
        self.scroll_offset = 0;
    }
}

/// The rows of a list of `count` rows that a window of `height` at `offset`
/// draws: from the row at the offset, as many as fit the window whole, and
/// none behind the end of the list.
pub open spec fn window_rows(offset: int, line_height: int, height: int, count: int) -> (int, int) {
    let start = offset / line_height;
    let end = start + height / line_height;
    (
        if start < count {
            start
        } else {
            count
        },
        if end < count {
            end
        } else {
            count
        },
    )
}

/// The popup window: it is known by its window, its tab and its own id.
#[derive(Clone, Copy, Debug)]
pub struct CompletionWidget {
    pub window_id: u64,
    pub tab_id: u64,
    pub id: u64,
}

impl CompletionWidget {
    pub fn new(window_id: u64, tab_id: u64, id: u64) -> (r: CompletionWidget)
        ensures
            r.window_id == window_id,
            r.tab_id == tab_id,
            r.id == id,
    {
        CompletionWidget { window_id, tab_id, id }
    }

    /// The height of the popup for a list of `count` rows where `available`
    /// is free: the height of the list, or all that is free where the list
    /// is higher.
    pub fn popup_height(&self, count: usize, line_height: u64, available: u64) -> (height: u64)
        ensures
            height == if count * line_height < available {
                count * line_height
            } else {
                available as int
            },
    {
        match (count as u64).checked_mul(line_height) {
            Some(list_height) => if list_height < available {
                list_height
            } else {
                available
            },
            None => available,
        }
    }

    /// Scrolls `completion` so that its selected row is in a window of
    /// `height`, by the least movement, and returns the rows to draw: from
    /// the first of the pair up to, and without, the second. The first is
    /// the row at the scroll offset, and as many rows follow as fit the
    /// window whole.
    pub fn paint_raw(&self, completion: &mut CompletionState, line_height: u64, height: u64) -> (rows:
        (usize, usize))
        requires
            line_height > 0,
        ensures
            final(completion)@ == (StateView {
                scroll_offset: final(completion)@.scroll_offset,
                ..old(completion)@
            }),
            final(completion)@.scroll_offset == old(completion)@.revealed_offset(
                line_height,
                height,
            ),
            (rows.0 as int, rows.1 as int) == window_rows(
                final(completion)@.scroll_offset as int,
                line_height as int,
                height as int,
                old(completion)@.shown_len() as int,
            ),
    {
        let count = completion.len();
        if completion.index < count && (completion.index as u64 + 1).checked_mul(
            line_height,
        ).is_some() {
            completion.scroll_offset =
            scroll_to(completion.scroll_offset, completion.index, line_height, height, count);
        }
        let start: u128 = (completion.scroll_offset / line_height) as u128;
        let end: u128 = start + (height / line_height) as u128;
        let first: usize = if start < count as u128 {
            start as usize
        } else {
            count
        };
        let last: usize = if end < count as u128 {
            end as usize
        } else {
            count
        };
        (first, last)
    }
}

} // verus!
