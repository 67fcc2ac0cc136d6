use completion::session::CompletionData;
use completion::viewport::{scroll_to, visible_range, CompletionContainer, CompletionNew};
use completion::CompletionEntry;

fn entries(n: usize) -> Vec<CompletionEntry> {
    (0..n)
        .map(|i| CompletionEntry {
            label: format!("entry{}", i),
            kind: None,
            insert_text: format!("entry{}", i),
        })
        .collect()
}

fn showing(n: usize) -> CompletionData {
    let mut data = CompletionData::new();
    let id = data.start(1, 0);
    assert!(data.complete(id, String::new(), entries(n)));
    data
}

#[test]
fn moving_to_row_ten_of_fifty_scrolls_to_one_hundred() {
    assert_eq!(scroll_to(0, 10, 20, 120, 50), 100);
}

#[test]
fn a_row_in_view_leaves_the_offset_alone() {
    assert_eq!(scroll_to(0, 0, 20, 120, 50), 0);
    assert_eq!(scroll_to(0, 5, 20, 120, 50), 0);
    assert_eq!(scroll_to(100, 5, 20, 120, 50), 100);
    assert_eq!(scroll_to(100, 10, 20, 120, 50), 100);
    assert_eq!(scroll_to(37, 3, 20, 120, 50), 37);
}

#[test]
fn a_row_above_the_viewport_comes_to_its_top() {
    assert_eq!(scroll_to(100, 4, 20, 120, 50), 80);
    assert_eq!(scroll_to(100, 0, 20, 120, 50), 0);
    assert_eq!(scroll_to(61, 3, 20, 120, 50), 60);
}

#[test]
fn a_row_below_the_viewport_comes_to_its_bottom() {
    assert_eq!(scroll_to(0, 6, 20, 120, 50), 20);
    assert_eq!(scroll_to(0, 49, 20, 120, 50), 880);
    assert_eq!(scroll_to(105, 11, 20, 120, 50), 120);
}

#[test]
fn a_row_higher_than_the_viewport_shows_its_lower_part() {
    assert_eq!(scroll_to(0, 2, 50, 30, 5), 120);
}

#[test]
fn the_last_row_of_a_short_list_needs_no_scrolling() {
    assert_eq!(scroll_to(0, 2, 20, 120, 3), 0);
}

#[test]
fn visible_range_covers_the_rows_that_show() {
    assert_eq!(visible_range(0, 20, 120, 50), (0, 6));
    assert_eq!(visible_range(100, 20, 120, 50), (5, 11));
    assert_eq!(visible_range(110, 20, 120, 50), (5, 12));
    assert_eq!(visible_range(119, 20, 1, 50), (5, 6));
    assert_eq!(visible_range(120, 20, 1, 50), (6, 7));
}

#[test]
fn visible_range_stops_at_the_end_of_the_list() {
    assert_eq!(visible_range(0, 20, 120, 3), (0, 3));
    assert_eq!(visible_range(900, 20, 120, 50), (45, 50));
    assert_eq!(visible_range(5000, 20, 120, 50), (50, 50));
    assert_eq!(visible_range(0, 20, 120, 0), (0, 0));
}

#[test]
fn visible_range_of_a_viewport_without_height() {
    assert_eq!(visible_range(40, 20, 0, 50), (2, 2));
    assert_eq!(visible_range(45, 20, 0, 50), (2, 3));
}

#[test]
fn visible_range_takes_the_largest_pixel_counts() {
    assert_eq!(visible_range(u64::MAX, 1, u64::MAX, usize::MAX), (usize::MAX, usize::MAX));
    assert_eq!(visible_range(u64::MAX, u64::MAX, u64::MAX, 10), (1, 2));
}

#[test]
fn content_height_is_rows_times_line_height() {
    let list = CompletionNew::new();
    assert_eq!(list.content_height(50, 20), 1000);
    assert_eq!(list.content_height(0, 20), 0);
    assert_eq!(list.content_height(7, 0), 0);
}

#[test]
fn rows_to_paint_follow_the_strip() {
    let list = CompletionNew::new();
    assert_eq!(list.rows_to_paint(0, 120, 20, 50), (0, 6));
    assert_eq!(list.rows_to_paint(30, 70, 20, 50), (1, 4));
    assert_eq!(list.rows_to_paint(30, 70, 20, 2), (1, 2));
}

#[test]
fn frame_is_as_high_as_the_list_up_to_the_limit() {
    let mut frame = CompletionContainer::new();
    assert_eq!(frame.content_height, 0);
    assert_eq!(frame.layout(&showing(3), 20, 300), 60);
    assert_eq!(frame.content_height, 60);
    assert_eq!(frame.layout(&showing(50), 20, 300), 300);
    assert_eq!(frame.content_height, 300);
    assert_eq!(frame.layout(&showing(2), u64::MAX, 300), 300);
    assert_eq!(frame.layout(&CompletionData::new(), 20, 300), 0);
}

#[test]
fn frame_scrolls_the_session_to_its_selection() {
    let mut frame = CompletionContainer::new();
    let mut data = showing(50);
    frame.layout(&data, 20, 120);
    for _ in 0..10 {
        data.next();
    }
    assert_eq!(data.index, 10);
    assert!(frame.ensure_item_visble(&mut data, 20));
    assert_eq!(data.scroll_offset, 100);
    assert!(!frame.ensure_item_visble(&mut data, 20));
    assert_eq!(data.scroll_offset, 100);
    data.previous();
    assert!(!frame.ensure_item_visble(&mut data, 20));
    data.next();
    data.next();
    assert!(frame.ensure_item_visble(&mut data, 20));
    assert_eq!(data.scroll_offset, 120);
}

#[test]
fn frame_leaves_an_empty_session_alone() {
    let frame = CompletionContainer { content_height: 120 };
    let mut data = CompletionData::new();
    assert!(!frame.ensure_item_visble(&mut data, 20));
    assert_eq!(data.scroll_offset, 0);
    let mut data = showing(0);
    assert!(!frame.ensure_item_visble(&mut data, 20));
    assert_eq!(data.scroll_offset, 0);
}

#[test]
fn frame_does_not_scroll_past_what_pixels_can_count() {
    let frame = CompletionContainer { content_height: 120 };
    let mut data = showing(3);
    data.next();
    assert!(!frame.ensure_item_visble(&mut data, u64::MAX));
    assert_eq!(data.scroll_offset, 0);
}

#[test]
fn frame_paints_only_a_list_that_shows() {
    let frame = CompletionContainer::new();
    assert!(!frame.should_paint(&CompletionData::new()));
    let mut data = CompletionData::new();
    data.start(1, 0);
    assert!(!frame.should_paint(&data));
    assert!(frame.should_paint(&showing(2)));
    assert!(!frame.should_paint(&showing(0)));
}
