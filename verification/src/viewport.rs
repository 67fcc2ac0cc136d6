//! Scroll arithmetic: the offset that keeps the selected row in view, and the
//! rows that a viewport shows. Heights and offsets are whole pixels.

use crate::entry::same_items;
use crate::session::{CompletionData, CompletionStatus, SessionView};
use vstd::prelude::*;

verus! {

/// The offset to scroll to from `current` so that row `selected` comes into
/// view: as far as its lower edge needs where that edge is below the
/// viewport, though never past the end of the list; up to its upper edge
/// where that edge is above the viewport; and `current` where the row is in
/// view already.
pub open spec fn scroll_target(
    current: int,
    selected: int,
    item_height: int,
    viewport_height: int,
    total: int,
) -> int {
    let top = selected * item_height;
    let bottom = (selected + 1) * item_height;
    if bottom > current + viewport_height {
        if bottom <= total * item_height {
            bottom - viewport_height
        } else {
            total * item_height - viewport_height
        }
    } else if top < current {
        top
    } else {
        current
    }
}

/// Row `row` lies wholly inside the viewport at `offset`.
pub open spec fn row_in_view(row: int, offset: int, item_height: int, viewport_height: int) -> bool {
    offset <= row * item_height && (row + 1) * item_height <= offset + viewport_height
}

/// Row `row` shows at least in part in the viewport at `offset`.
pub open spec fn row_shows(row: int, offset: int, item_height: int, viewport_height: int) -> bool {
    row * item_height < offset + viewport_height && (row + 1) * item_height > offset
}

/// A row of a list lies above the end of the list.
pub proof fn lemma_row_within_list(selected: int, total: int, item_height: int)
    requires
        0 <= selected < total,
        0 <= item_height,
    ensures
        0 <= selected * item_height,
        selected * item_height <= (selected + 1) * item_height,
        (selected + 1) * item_height <= total * item_height,
        (selected + 1) * item_height == selected * item_height + item_height,
{
    assert(0 <= selected * item_height) by (nonlinear_arith)
        requires
            0 <= selected,
            0 <= item_height,
    ;
    assert((selected + 1) * item_height == selected * item_height + item_height)
        by (nonlinear_arith);
    assert((selected + 1) * item_height <= total * item_height) by (nonlinear_arith)
        requires
            selected + 1 <= total,
            0 <= item_height,
    ;
}

/// The scroll target brings a row that fits the viewport wholly into view,
/// and leaves the offset alone where the row is in view already.
pub proof fn lemma_scroll_target_reveals(
    current: int,
    selected: int,
    item_height: int,
    viewport_height: int,
    total: int,
)
    requires
        0 <= selected < total,
        0 <= current,
        0 <= item_height <= viewport_height,
    ensures
        row_in_view(
            selected,
            scroll_target(current, selected, item_height, viewport_height, total),
            item_height,
            viewport_height,
        ),
        row_in_view(selected, current, item_height, viewport_height) ==> scroll_target(
            current,
            selected,
            item_height,
            viewport_height,
            total,
        ) == current,
{
    lemma_row_within_list(selected, total, item_height);
}

/// The offset that brings row `selected_index` of `total_count` rows into a
/// viewport that stands at `current_offset`, with the least movement.
pub fn scroll_to(
    current_offset: u64,
    selected_index: usize,
    item_height: u64,
    viewport_height: u64,
    total_count: usize,
) -> (offset: u64)
    requires
        selected_index < total_count,
        (selected_index + 1) * item_height <= u64::MAX,
    ensures
        offset == scroll_target(
            current_offset as int,
            selected_index as int,
            item_height as int,
            viewport_height as int,
            total_count as int,
        ),
        item_height <= viewport_height ==> row_in_view(
            selected_index as int,
            offset as int,
            item_height as int,
            viewport_height as int,
        ),
{
    proof {
        lemma_row_within_list(selected_index as int, total_count as int, item_height as int);
        if item_height <= viewport_height {
            lemma_scroll_target_reveals(
                current_offset as int,
                selected_index as int,
                item_height as int,
                viewport_height as int,
                total_count as int,
            );
        }
    }
    let top: u64 = (selected_index as u64) * item_height;
    let bottom: u64 = top + item_height;
    if bottom > viewport_height && bottom - viewport_height > current_offset {
        bottom - viewport_height
    } else if top < current_offset {
        top
    } else {
        current_offset
    }
}

/// The first row that shows in a viewport at `offset`, if the list is long
/// enough, else the number of rows.
pub open spec fn first_visible(offset: int, item_height: int, total: int) -> int {
    if offset / item_height < total {
        offset / item_height
    } else {
        total
    }
}

/// The row behind the last one that shows in a viewport at `offset`, if the
/// list is long enough, else the number of rows.
pub open spec fn end_visible(offset: int, item_height: int, viewport_height: int, total: int) -> int {
    let end = (offset + viewport_height + item_height - 1) / item_height;
    if end < total {
        end
    } else {
        total
    }
}

/// The rows between `first_visible` and `end_visible` are the rows of the
/// list that show in the viewport.
pub proof fn lemma_visible_rows_show(
    row: int,
    offset: int,
    item_height: int,
    viewport_height: int,
    total: int,
)
    requires
        0 <= row,
        0 <= offset,
        0 < item_height,
        0 <= viewport_height,
        0 <= total,
    ensures
        (first_visible(offset, item_height, total) <= row < end_visible(
            offset,
            item_height,
            viewport_height,
            total,
        )) <==> (row < total && row_shows(row, offset, item_height, viewport_height)),
{
    let floor = offset / item_height;
    let reach = offset + viewport_height + item_height - 1;
    let ceil = reach / item_height;
    vstd::arithmetic::div_mod::lemma_fundamental_div_mod(offset, item_height);
    vstd::arithmetic::div_mod::lemma_fundamental_div_mod(reach, item_height);
    assert(0 <= offset % item_height < item_height);
    assert(0 <= reach % item_height < item_height);
    assert((row >= floor) <==> ((row + 1) * item_height > offset)) by (nonlinear_arith)
        requires
            offset == item_height * floor + offset % item_height,
            0 <= offset % item_height < item_height,
            0 < item_height,
    ;
    assert((row < ceil) <==> (row * item_height < offset + viewport_height)) by (nonlinear_arith)
        requires
            reach == item_height * ceil + reach % item_height,
            reach == offset + viewport_height + item_height - 1,
            0 <= reach % item_height < item_height,
            0 < item_height,
    ;
}

/// The rows of a list of `total_count` rows that show in a viewport at
/// `offset`: from the first of the pair up to, and without, the second.
pub fn visible_range(offset: u64, item_height: u64, viewport_height: u64, total_count: usize) -> (range:
    (usize, usize))
    requires
        item_height > 0,
    ensures
        range.0 == first_visible(offset as int, item_height as int, total_count as int),
        range.1 == end_visible(
            offset as int,
            item_height as int,
            viewport_height as int,
            total_count as int,
        ),
        range.0 <= total_count,
        range.1 <= total_count,
        forall|row: int|
            0 <= row ==> ((range.0 <= row < range.1) <==> (row < total_count && #[trigger] row_shows(
                row,
                offset as int,
                item_height as int,
                viewport_height as int,
            ))),
{
    let floor: u64 = offset / item_height;
    let reach: u128 = offset as u128 + viewport_height as u128 + (item_height as u128 - 1);
    let ceil: u128 = reach / (item_height as u128);
    let first: usize = if floor < total_count as u64 {
        floor as usize
    } else {
        total_count
    };
    let end: usize = if ceil < total_count as u128 {
        ceil as usize
    } else {
        total_count
    };
    proof {
        assert forall|row: int| 0 <= row implies ((first <= row < end) <==> (row < total_count
            && #[trigger] row_shows(
            row,
            offset as int,
            item_height as int,
            viewport_height as int,
        ))) by {
            lemma_visible_rows_show(
                row,
                offset as int,
                item_height as int,
                viewport_height as int,
                total_count as int,
            );
        }
    }
    (first, end)
}

/// The list of entries as a column of rows of one height.
#[derive(Clone, Copy, Debug)]
pub struct CompletionNew {}

impl CompletionNew {
    pub fn new() -> (r: Self) {
        CompletionNew {  }
    }

    /// The height of a list of `count` rows.
    pub fn content_height(&self, count: usize, line_height: u64) -> (height: u64)
        requires
            count * line_height <= u64::MAX,
        ensures
            height == count * line_height,
    {
        (count as u64) * line_height
    }

    /// The rows to draw into the strip of the list from `y0` down to `y1`:
    /// from the first of the pair up to, and without, the second.
    pub fn rows_to_paint(&self, y0: u64, y1: u64, line_height: u64, count: usize) -> (range: (
        usize,
        usize,
    ))
        requires
            line_height > 0,
            y0 <= y1,
        ensures
            range.0 == first_visible(y0 as int, line_height as int, count as int),
            range.1 == end_visible(y0 as int, line_height as int, y1 - y0, count as int),
    {
        visible_range(y0, line_height, y1 - y0, count)
    }
}

/// Whether the selected row of `session` can be scrolled to under rows of
/// `line_height`: there is such a row, and its lower edge is a pixel count.
pub open spec fn can_reveal(session: SessionView, line_height: u64) -> bool {
    session.index < session.active_items().len() && (session.index + 1) * line_height <= u64::MAX
}

/// What the frame has to do after the session changed.
#[derive(Clone, Copy, Debug, PartialEq, Eq, Structural)]
pub struct Refresh {
    /// Lay the list out and paint it anew.
    pub layout: bool,
    /// Show the scroll bar at full strength again.
    pub reset_fade: bool,
    /// Bring the selected row into view and paint anew.
    pub reveal: bool,
}

/// What the change from `old` to `new` asks of the frame: a layout when the
/// typed prefix, the request, the status or the entries changed; the scroll
/// bar when entries came to show or the prefix changed; the selected row
/// when the selection moved.
pub open spec fn refresh_for(old: SessionView, new: SessionView) -> Refresh {
    Refresh {
        layout: old.input != new.input || old.request_id != new.request_id || old.status
            != new.status || old.items != new.items,
        reset_fade: (!(old.status is Done) && new.status is Done) || old.input != new.input,
        reveal: old.index != new.index,
    }
}

/// The frame in which the list scrolls.
#[derive(Clone, Copy, Debug)]
pub struct CompletionContainer {
    /// The height of the frame.
    pub content_height: u64,
}

impl CompletionContainer {
    /// A frame that has not been laid out yet.
    pub fn new() -> (r: Self)
        ensures
            r.content_height == 0,
    {
        CompletionContainer { content_height: 0 }
    }

    /// Gives the frame the height of the list of `data`, or `max_height`
    /// where the list is higher, and returns it.
    pub fn layout(&mut self, data: &CompletionData, line_height: u64, max_height: u64) -> (height:
        u64)
        ensures
            final(self).content_height == height,
            height == if data@.active_items().len() * line_height <= max_height {
                data@.active_items().len() * line_height
            } else {
                max_height as int
            },
    {
        let count = data.len();
        let height = match (count as u64).checked_mul(line_height) {
            Some(height) => if height <= max_height {
                height
            } else {
                max_height
            },
            None => max_height,
        };
        self.content_height = height;
        height
    }

    /// Scrolls `data` so that its selected row is in the frame, by the least
    /// movement, and returns whether that changed the scroll offset. Where
    /// no row is selected nothing moves.
    pub fn ensure_item_visble(&self, data: &mut CompletionData, line_height: u64) -> (scrolled:
        bool)
        requires
            old(data).wf(),
        ensures
            final(data).wf(),
            final(data)@ == (SessionView {
                scroll_offset: final(data)@.scroll_offset,
                ..old(data)@
            }),
            final(data)@.scroll_offset == if can_reveal(old(data)@, line_height) {
                scroll_target(
                    old(data)@.scroll_offset as int,
                    old(data)@.index as int,
                    line_height as int,
                    self.content_height as int,
                    old(data)@.active_items().len() as int,
                )
            } else {
                old(data)@.scroll_offset as int
            },
            scrolled == (final(data)@.scroll_offset != old(data)@.scroll_offset),
    {
        let count = data.len();
        if data.index >= count {
            return false;
        }
        if (data.index as u64 + 1).checked_mul(line_height).is_none() {
            return false;
        }
        let before = data.scroll_offset;
        data.scroll_offset =
        scroll_to(before, data.index, line_height, self.content_height, count);
        data.scroll_offset != before
    }

    /// What the frame has to do now that the session went from `old_data` to
    /// `data`.
    pub fn update(&self, old_data: &CompletionData, data: &CompletionData) -> (r: Refresh)
        ensures
            r == refresh_for(old_data@, data@),
    {
        let input_changed = old_data.input != data.input;
        let status_changed = old_data.status != data.status;
        Refresh {
            layout: input_changed || old_data.request_id != data.request_id || status_changed
                || !same_items(&old_data.items, &data.items),
            reset_fade: (old_data.status != CompletionStatus::Done && data.status
                == CompletionStatus::Done) || input_changed,
            reveal: old_data.index != data.index,
        }
    }

    /// Whether there is a list to draw: entries are showing and at least one
    /// is listed.
    pub fn should_paint(&self, data: &CompletionData) -> (r: bool)
        ensures
            r == (data@.status is Done && data@.active_items().len() > 0),
    {
        data.status == CompletionStatus::Done && data.len() > 0
    }
}

} // verus!
