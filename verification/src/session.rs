//! The completion session: which request is current, what the server sent
//! for it, what the user has typed since, and which entry is selected.

use crate::entry::{
    same_items, views, CompletionEntry, EntryView, ScoredCompletionItem, ScoredView,
};
use crate::fuzzy::is_subsequence;
use crate::rank::{
    is_ranking, is_survivor_of, lemma_ranking_holds_the_matches, lemma_ranking_unique, rank,
    rescored, rising_places,
};
use vstd::prelude::*;

verus! {

/// Where a session stands: idle, waiting for the server, or showing entries.
#[derive(Clone, Copy, Debug, PartialEq, Eq, Structural)]
pub enum CompletionStatus {
    Inactive,
    Started,
    Done,
}

/// The way the selection moves through the list.
#[derive(Clone, Copy, Debug, PartialEq, Eq, Structural)]
pub enum Direction {
    Next,
    Previous,
}

/// The state of the completion popup of one editor tab.
#[derive(Debug)]
pub struct CompletionData {
    /// The id of the latest request; a response is taken only under this id.
    pub request_id: usize,
    pub status: CompletionStatus,
    /// The text position at which completion was asked for.
    pub offset: usize,
    /// The buffer in which it was asked for.
    pub buffer_id: usize,
    /// What the user has typed behind `offset`.
    pub input: String,
    /// The selected row of the active list.
    pub index: usize,
    /// The entries as the server sent them.
    pub items: Vec<ScoredCompletionItem>,
    /// The entries that match `input`, best first; read only while `input`
    /// is not empty.
    pub filtered_items: Vec<ScoredCompletionItem>,
    /// How far the list is scrolled, in whole pixels.
    pub scroll_offset: u64,
}

/// A `CompletionData` as a value.
pub struct SessionView {
    pub request_id: usize,
    pub status: CompletionStatus,
    pub offset: usize,
    pub buffer_id: usize,
    pub input: Seq<char>,
    pub index: usize,
    pub items: Seq<ScoredView>,
    pub filtered_items: Seq<ScoredView>,
    pub scroll_offset: u64,
}

/// The values of a list of entries, in order.
pub open spec fn entry_views(entries: Seq<CompletionEntry>) -> Seq<EntryView> {
    entries.map_values(|entry: CompletionEntry| entry@)
}

/// `entries` as unscored items: each at its own place, with score zero and
/// nothing matched.
pub open spec fn fresh_items(entries: Seq<EntryView>) -> Seq<ScoredView> {
    Seq::new(
        entries.len(),
        |i: int| ScoredView { item: entries[i], index: i as usize, score: 0, indices: Seq::empty() },
    )
}

/// The next place of a selection at `index` in a list of `count` rows.
pub open spec fn moved_index(index: usize, count: nat, direction: Direction, wrap: bool) -> usize {
    if count == 0 {
        index
    } else {
        match direction {
            Direction::Next => if index + 1 < count {
                (index + 1) as usize
            } else if wrap {
                0
            } else {
                index
            },
            Direction::Previous => if index > 0 {
                (index - 1) as usize
            } else if wrap {
                (count - 1) as usize
            } else {
                index
            },
        }
    }
}

/// The place of a selection after the moves of `directions`, one after the
/// other, each wrapping at the ends.
pub open spec fn index_after(index: usize, count: nat, directions: Seq<Direction>) -> usize
    decreases directions.len(),
{
    if directions.len() == 0 {
        index
    } else {
        moved_index(index_after(index, count, directions.drop_last()), count, directions.last(), true)
    }
}

impl SessionView {
    /// The list that the popup shows: all entries under the empty query,
    /// else the filtered ones.
    pub open spec fn active_items(self) -> Seq<ScoredView> {
        if self.input.len() == 0 {
            self.items
        } else {
            self.filtered_items
        }
    }

    /// The state invariant.
    pub open spec fn wf(self) -> bool {
        &&& self.items.len() <= usize::MAX
        &&& self.items == fresh_items(self.items.map_values(|item: ScoredView| item.item))
        &&& self.input.len() > 0 ==> is_ranking(self.items, self.input, self.filtered_items)
        &&& self.index == 0 || self.index < self.active_items().len()
        &&& self.status is Inactive ==> {
            &&& self.items.len() == 0
            &&& self.filtered_items.len() == 0
            &&& self.input.len() == 0
            &&& self.index == 0
            &&& self.scroll_offset == 0
        }
    }

    /// The state after a request was issued for `buffer_id` at `offset`.
    pub open spec fn started(self, buffer_id: usize, offset: usize) -> SessionView {
        SessionView {
            request_id: (self.request_id + 1) as usize,
            status: CompletionStatus::Started,
            offset,
            buffer_id,
            input: Seq::empty(),
            index: 0,
            scroll_offset: 0,
            ..self
        }
    }

    /// Whether a response tagged `request_id` is the awaited one.
    pub open spec fn awaits(self, request_id: usize) -> bool {
        self.status is Started && self.request_id == request_id
    }

    /// Whether `next` is this state with the response `entries`, typed
    /// prefix `input`, taken in.
    pub open spec fn is_done_with(self, input: Seq<char>, entries: Seq<EntryView>, next: SessionView) -> bool {
        &&& next.status is Done
        &&& next.input == input
        &&& next.items == fresh_items(entries)
        &&& next.index == 0
        &&& if input.len() == 0 {
            next.filtered_items == self.filtered_items
        } else {
            is_ranking(next.items, input, next.filtered_items)
        }
        &&& next.request_id == self.request_id
        &&& next.offset == self.offset
        &&& next.buffer_id == self.buffer_id
        &&& next.scroll_offset == self.scroll_offset
    }

    /// Whether `next` is this state with the typed prefix replaced by
    /// `input`.
    pub open spec fn is_requeried_with(self, input: Seq<char>, next: SessionView) -> bool {
        &&& next.input == input
        &&& next.index == 0
        &&& if input.len() == 0 {
            next.filtered_items == self.filtered_items
        } else {
            is_ranking(self.items, input, next.filtered_items)
        }
        &&& next.status == self.status
        &&& next.items == self.items
        &&& next.request_id == self.request_id
        &&& next.offset == self.offset
        &&& next.buffer_id == self.buffer_id
        &&& next.scroll_offset == self.scroll_offset
    }

    /// The state after a cancellation.
    pub open spec fn cancelled(self) -> SessionView {
        if self.status is Inactive {
            self
        } else {
            SessionView {
                status: CompletionStatus::Inactive,
                input: Seq::empty(),
                index: 0,
                items: Seq::empty(),
                filtered_items: Seq::empty(),
                scroll_offset: 0,
                ..self
            }
        }
    }

    /// The state after one move of the selection.
    pub open spec fn moved(self, direction: Direction, wrap: bool) -> SessionView {
        SessionView {
            index: moved_index(self.index, self.active_items().len(), direction, wrap),
            ..self
        }
    }
}

impl View for CompletionData {
    type V = SessionView;

    open spec fn view(&self) -> SessionView {
        SessionView {
            request_id: self.request_id,
            status: self.status,
            offset: self.offset,
            buffer_id: self.buffer_id,
            input: self.input@,
            index: self.index,
            items: views(self.items@),
            filtered_items: views(self.filtered_items@),
            scroll_offset: self.scroll_offset,
        }
    }
}

/// Wraps `entries` into unscored items, each at its own place.
pub fn wrap_entries(entries: &Vec<CompletionEntry>) -> (items: Vec<ScoredCompletionItem>)
    ensures
        views(items@) == fresh_items(entry_views(entries@)),
{
    let mut items: Vec<ScoredCompletionItem> = Vec::new();
    let mut i: usize = 0;
    while i < entries.len()
        invariant
            i <= entries.len(),
            items.len() == i,
            views(items@) == fresh_items(entry_views(entries@.take(i as int))),
        decreases entries.len() - i,
    {
        let ghost before = items@;
        items.push(
            ScoredCompletionItem {
                item: entries[i].clone(),
                index: i,
                score: 0,
                indices: Vec::new(),
            },
        );
        i += 1;
        assert forall|k: int| 0 <= k < i implies views(items@)[k] == fresh_items(
            entry_views(entries@.take(i as int)),
        )[k] by {
            if k < i - 1 {
                assert(views(before)[k] == fresh_items(entry_views(entries@.take(i - 1)))[k]);
            } else {
                assert(items@[k].indices@ =~= Seq::<usize>::empty());
            }
        }
        assert(views(items@) =~= fresh_items(entry_views(entries@.take(i as int))));
    }
    assert(entries@.take(entries.len() as int) =~= entries@);
    items
}

/// Whether `items` are unscored items, each at its own place.
pub fn is_fresh(items: &Vec<ScoredCompletionItem>) -> (r: bool)
    ensures
        r == (views(items@) == fresh_items(
            views(items@).map_values(|item: ScoredView| item.item),
        )),
{
    let ghost fresh = fresh_items(views(items@).map_values(|item: ScoredView| item.item));
    let mut i: usize = 0;
    while i < items.len()
        invariant
            i <= items.len(),
            fresh == fresh_items(views(items@).map_values(|item: ScoredView| item.item)),
            forall|k: int| 0 <= k < i ==> views(items@)[k] == fresh[k],
        decreases items.len() - i,
    {
        if items[i].index != i || items[i].score != 0 || items[i].indices.len() != 0 {
            assert(views(items@)[i as int] != fresh[i as int]);
            return false;
        }
        assert(items[i as int].indices@ =~= Seq::<usize>::empty());
        i += 1;
    }
    assert(views(items@) =~= fresh);
    true
}

/// Fresh items are fresh items of their own entries.
pub proof fn lemma_fresh_items_wf(entries: Seq<EntryView>)
    ensures
        fresh_items(entries) == fresh_items(
            fresh_items(entries).map_values(|item: ScoredView| item.item),
        ),
{
    assert(fresh_items(entries).map_values(|item: ScoredView| item.item) =~= entries);
}

/// In two sessions that hold the same entries and the same typed prefix, the
/// filtered lists are the same: the state invariant leaves no choice.
pub proof fn lemma_filtered_list_is_determined(a: SessionView, b: SessionView)
    requires
        a.wf(),
        b.wf(),
        a.items == b.items,
        a.input == b.input,
        a.input.len() > 0,
    ensures
        a.filtered_items == b.filtered_items,
{
    assert(rising_places(a.items));
    lemma_ranking_unique(a.items, a.input, a.filtered_items, b.filtered_items);
}

/// While a prefix is typed, every entry of the filtered list is one of the
/// entries that the server sent, with its place in the server's list, and
/// every entry that matches the prefix is in the filtered list.
pub proof fn lemma_filtered_entries_are_entries(session: SessionView)
    requires
        session.wf(),
        session.input.len() > 0,
    ensures
        session.filtered_items.len() <= session.items.len(),
        forall|item: ScoredView| #[trigger]
            session.filtered_items.contains(item) <==> is_survivor_of(
                session.items,
                session.input,
                item,
            ),
        forall|i: int|
            0 <= i < session.filtered_items.len() ==> {
                let item = #[trigger] session.filtered_items[i];
                item.index < session.items.len() && session.items[item.index as int].item
                    == item.item
            },
{
    lemma_ranking_holds_the_matches(session.items, session.input, session.filtered_items);
    assert forall|i: int| 0 <= i < session.filtered_items.len() implies {
        let item = #[trigger] session.filtered_items[i];
        item.index < session.items.len() && session.items[item.index as int].item == item.item
    } by {
        let item = session.filtered_items[i];
        assert(session.filtered_items.contains(item));
        let k = choose|k: int|
            0 <= k < session.items.len() && is_subsequence(
                session.input,
                (#[trigger] session.items[k]).item.label,
            ) && item == rescored(session.items[k], session.input);
        assert(session.items[k].index == k as usize);
    }
}

/// Once a new request is issued, a response under any id issued before it
/// is not the awaited one: `complete` drops it, and status, entries and typed
/// prefix stay as they are.
pub proof fn lemma_stale_response_not_awaited(
    session: SessionView,
    buffer_id: usize,
    offset: usize,
    stale_id: usize,
)
    requires
        session.request_id < usize::MAX,
        stale_id <= session.request_id,
    ensures
        !session.started(buffer_id, offset).awaits(stale_id),
        session.started(buffer_id, offset).awaits((session.request_id + 1) as usize),
{
}

/// Under moves that wrap, a selection inside the list stays inside it,
/// however many moves are made.
pub proof fn lemma_selection_stays_in_list(index: usize, count: nat, directions: Seq<Direction>)
    requires
        index < count <= usize::MAX,
    ensures
        index_after(index, count, directions) < count,
    decreases directions.len(),
{
    if directions.len() > 0 {
        lemma_selection_stays_in_list(index, count, directions.drop_last());
    }
}

/// A move that wraps leads from the last row on to the first and from the
/// first row back to the last; anywhere else it leads to the neighbour.
pub proof fn lemma_selection_wraps_at_the_ends(index: usize, count: nat)
    requires
        index < count <= usize::MAX,
    ensures
        moved_index((count - 1) as usize, count, Direction::Next, true) == 0,
        moved_index(0, count, Direction::Previous, true) == count - 1,
        index + 1 < count ==> moved_index(index, count, Direction::Next, true) == index + 1,
        index > 0 ==> moved_index(index, count, Direction::Previous, true) == index - 1,
{
}

/// A cancelled session is idle and empty, whatever it held.
pub proof fn lemma_cancel_clears(session: SessionView)
    requires
        session.wf(),
    ensures
        session.cancelled().wf(),
        session.cancelled().status is Inactive,
        session.cancelled().items.len() == 0,
        session.cancelled().filtered_items.len() == 0,
        session.cancelled().input.len() == 0,
        session.cancelled().index == 0,
        session.cancelled().scroll_offset == 0,
        session.cancelled().request_id == session.request_id,
{
    let next = session.cancelled();
    if !(session.status is Inactive) {
        assert(next.items =~= fresh_items(next.items.map_values(|item: ScoredView| item.item)));
    }
}

impl CompletionData {
    /// The state invariant.
    pub open spec fn wf(&self) -> bool {
        self@.wf()
    }

    /// Whether the state invariant holds. It holds of every session that was
    /// made by `new` and changed by the operations of this type alone.
    pub fn is_well_formed(&self) -> (r: bool)
        ensures
            r == self.wf(),
    {
        if !is_fresh(&self.items) {
            return false;
        }
        let typed = !self.input.as_str().is_empty();
        if typed {
            let ranked = rank(&self.items, self.input.as_str());
            let same = same_items(&self.filtered_items, &ranked);
            proof {
                assert(self@.items.len() == self.items.len());
                assert(rising_places(self@.items));
                if self@.wf() {
                    lemma_ranking_unique(
                        self@.items,
                        self@.input,
                        self@.filtered_items,
                        views(ranked@),
                    );
                }
            }
            if !same {
                return false;
            }
        }
        if self.index != 0 && self.index >= self.len() {
            return false;
        }
        proof {
            assert(self@.items.len() == self.items.len());
            assert(self@.filtered_items.len() == self.filtered_items.len());
        }
        if self.status == CompletionStatus::Inactive {
            self.items.len() == 0 && self.filtered_items.len() == 0 && !typed && self.index == 0
                && self.scroll_offset == 0
        } else {
            true
        }
    }

    /// An idle session that has issued no request.
    pub fn new() -> (r: Self)
        ensures
            r.wf(),
            r@.status is Inactive,
            r@.request_id == 0,
            r@.offset == 0,
            r@.buffer_id == 0,
    {
        let r = CompletionData {
            request_id: 0,
            status: CompletionStatus::Inactive,
            offset: 0,
            buffer_id: 0,
            input: String::new(),
            index: 0,
            items: Vec::new(),
            filtered_items: Vec::new(),
            scroll_offset: 0,
        };
        proof {
            assert(r@.items =~= fresh_items(r@.items.map_values(|item: ScoredView| item.item)));
        }
        r
    }

    /// The number of rows of the active list.
    pub fn len(&self) -> (n: usize)
        ensures
            n == self@.active_items().len(),
    {
        if self.input.as_str().is_empty() {
            self.items.len()
        } else {
            self.filtered_items.len()
        }
    }

    /// The active list: all entries in the server's order under the empty
    /// query, else the entries that match it, best first.
    pub fn active_items(&self) -> (items: &Vec<ScoredCompletionItem>)
        ensures
            views(items@) == self@.active_items(),
    {
        if self.input.as_str().is_empty() {
            &self.items
        } else {
            &self.filtered_items
        }
    }

    /// The label of the selected entry.
    pub fn current(&self) -> (label: &str)
        requires
            self.index < self@.active_items().len(),
        ensures
            label@ == self@.active_items()[self.index as int].item.label,
    {
        if self.input.as_str().is_empty() {
            self.items[self.index].item.label.as_str()
        } else {
            self.filtered_items[self.index].item.label.as_str()
        }
    }

    /// Issues a request for `buffer_id` at `offset` and returns its id. The
    /// typed prefix, the selection and the scroll offset start over; a
    /// request still in flight is superseded.
    pub fn start(&mut self, buffer_id: usize, offset: usize) -> (request_id: usize)
        requires
            old(self).wf(),
            old(self).request_id < usize::MAX,
        ensures
            final(self).wf(),
            final(self)@ == old(self)@.started(buffer_id, offset),
            request_id == old(self).request_id + 1,
    {
        self.request_id = self.request_id + 1;
        self.status = CompletionStatus::Started;
        self.offset = offset;
        self.buffer_id = buffer_id;
        self.input = String::new();
        self.index = 0;
        self.scroll_offset = 0;
        self.request_id
    }

    /// Takes in the server's response to request `request_id`, if that
    /// request is the one awaited; any other response is dropped and leaves
    /// the session as it is. Returns whether the response was taken.
    pub fn complete(&mut self, request_id: usize, input: String, entries: Vec<CompletionEntry>) -> (taken:
        bool)
        requires
            old(self).wf(),
        ensures
            final(self).wf(),
            taken == old(self)@.awaits(request_id),
            taken ==> old(self)@.is_done_with(input@, entry_views(entries@), final(self)@),
            !taken ==> final(self)@ == old(self)@,
    {
        if self.request_id == request_id && self.status == CompletionStatus::Started {
            self.done(input, entries);
            true
        } else {
            false
        }
    }

    /// Takes in `entries` as the list to choose from, with `input` as the
    /// prefix typed so far, and shows them.
    pub fn done(&mut self, input: String, entries: Vec<CompletionEntry>)
        ensures
            final(self).wf(),
            old(self)@.is_done_with(input@, entry_views(entries@), final(self)@),
    {
        self.status = CompletionStatus::Done;
        self.input = input;
        self.index = 0;
        self.items = wrap_entries(&entries);
        proof {
            lemma_fresh_items_wf(entry_views(entries@));
            assert(views(self.items@).len() == self.items.len());
        }
        self.filter_items();
    }

    /// Replaces the typed prefix by `input` and filters anew, if entries are
    /// showing; else leaves the session as it is. Returns whether the prefix
    /// was taken.
    pub fn update_input(&mut self, input: String) -> (taken: bool)
        requires
            old(self).wf(),
        ensures
            final(self).wf(),
            taken == (old(self)@.status is Done),
            taken ==> old(self)@.is_requeried_with(input@, final(self)@),
            !taken ==> final(self)@ == old(self)@,
    {
        if self.status != CompletionStatus::Done {
            return false;
        }
        self.input = input;
        self.index = 0;
        self.filter_items();
        true
    }

    /// `update_input` for the request `request_id`: a prefix typed for
    /// another request than the current one is dropped as well.
    pub fn update_query(&mut self, request_id: usize, input: String) -> (taken: bool)
        requires
            old(self).wf(),
        ensures
            final(self).wf(),
            taken == (old(self)@.status is Done && old(self)@.request_id == request_id),
            taken ==> old(self)@.is_requeried_with(input@, final(self)@),
            !taken ==> final(self)@ == old(self)@,
    {
        if self.request_id != request_id {
            return false;
        }
        self.update_input(input)
    }

    /// Derives the filtered list from all entries and the typed prefix.
    /// Under the empty prefix nothing is derived: the active list is then
    /// the full one.
    pub fn filter_items(&mut self)
        ensures
            final(self)@.input.len() > 0 ==> is_ranking(
                final(self)@.items,
                final(self)@.input,
                final(self)@.filtered_items,
            ),
            final(self)@.input.len() == 0 ==> final(self)@.filtered_items == old(
                self,
            )@.filtered_items,
            final(self)@ == (SessionView {
                filtered_items: final(self)@.filtered_items,
                ..old(self)@
            }),
    {
        if self.input.as_str().is_empty() {
            return ;
        }
        self.filtered_items = rank(&self.items, self.input.as_str());
    }

    /// Ends the session: all entries and the typed prefix go, selection and
    /// scroll offset return to zero. Nothing happens to an idle session.
    /// Returns whether anything changed.
    pub fn cancel(&mut self) -> (changed: bool)
        requires
            old(self).wf(),
        ensures
            final(self).wf(),
            final(self)@ == old(self)@.cancelled(),
            changed == !(old(self)@.status is Inactive),
    {
        if self.status == CompletionStatus::Inactive {
            return false;
        }
        self.status = CompletionStatus::Inactive;
        self.input = String::new();
        self.index = 0;
        self.items = Vec::new();
        self.filtered_items = Vec::new();
        self.scroll_offset = 0;
        proof {
            assert(self@.items =~= Seq::empty());
            assert(self@.filtered_items =~= Seq::empty());
            assert(self@.items =~= fresh_items(
                self@.items.map_values(|item: ScoredView| item.item),
            ));
        }
        true
    }

    /// Cancels on behalf of the request `request_id`, if that request is
    /// still awaited; else leaves the session as it is.
    pub fn cancel_request(&mut self, request_id: usize) -> (changed: bool)
        requires
            old(self).wf(),
        ensures
            final(self).wf(),
            changed == old(self)@.awaits(request_id),
            changed ==> final(self)@ == old(self)@.cancelled(),
            !changed ==> final(self)@ == old(self)@,
    {
        if self.request_id == request_id && self.status == CompletionStatus::Started {
            self.cancel()
        } else {
            false
        }
    }

    /// Moves the selection by one row. At either end it wraps to the other
    /// if `wrap` is set, and stays otherwise; in an empty list it stays.
    /// Returns whether the selection changed.
    pub fn move_selection(&mut self, direction: Direction, wrap: bool) -> (changed: bool)
        requires
            old(self).wf(),
        ensures
            final(self).wf(),
            final(self)@ == old(self)@.moved(direction, wrap),
            changed == (final(self).index != old(self).index),
    {
        let count = self.len();
        if count == 0 {
            return false;
        }
        let before = self.index;
        match direction {
            Direction::Next => {
                if self.index < count - 1 {
                    self.index = self.index + 1;
                } else if wrap {
                    self.index = 0;
                }
            },
            Direction::Previous => {
                if self.index > 0 {
                    self.index = self.index - 1;
                } else if wrap {
                    self.index = count - 1;
                }
            },
        }
        self.index != before
    }

    /// Selects the next row, and the first after the last.
    pub fn next(&mut self)
        requires
            old(self).wf(),
        ensures
            final(self).wf(),
            final(self)@ == old(self)@.moved(Direction::Next, true),
    {
        self.move_selection(Direction::Next, true);
    }

    /// Selects the previous row, and the last before the first.
    pub fn previous(&mut self)
        requires
            old(self).wf(),
        ensures
            final(self).wf(),
            final(self)@ == old(self)@.moved(Direction::Previous, true),
    {
        self.move_selection(Direction::Previous, true);
    }
}

} // verus!
