use completion::entry::{
    completion_svg, copy_items, copy_offsets, same_entry, same_item, same_items, same_kind,
    same_offsets, CompletionEntry, CompletionKind, ScoredCompletionItem,
};
use completion::viewport::{CompletionContainer, Refresh};
use completion::rank::{insert_ranked, rank};
use completion::session::{is_fresh, wrap_entries, CompletionData, CompletionStatus, Direction};

fn entry(label: &str) -> CompletionEntry {
    CompletionEntry { label: label.to_string(), kind: None, insert_text: label.to_string() }
}

fn entries(labels: &[&str]) -> Vec<CompletionEntry> {
    labels.iter().map(|label| entry(label)).collect()
}

fn labels(items: &[ScoredCompletionItem]) -> Vec<String> {
    items.iter().map(|item| item.item.label.clone()).collect()
}

fn scored(label: &str, index: usize, score: i64) -> ScoredCompletionItem {
    ScoredCompletionItem { item: entry(label), index, score, indices: Vec::new() }
}

fn showing(labels: &[&str], input: &str) -> CompletionData {
    let mut data = CompletionData::new();
    let id = data.start(1, 0);
    assert!(data.complete(id, input.to_string(), entries(labels)));
    data
}

#[test]
fn new_session_is_idle_and_empty() {
    let data = CompletionData::new();
    assert_eq!(data.status, CompletionStatus::Inactive);
    assert_eq!(data.request_id, 0);
    assert_eq!(data.input, "");
    assert_eq!(data.index, 0);
    assert_eq!(data.scroll_offset, 0);
    assert!(data.items.is_empty());
    assert!(data.filtered_items.is_empty());
    assert_eq!(data.len(), 0);
}

#[test]
fn start_complete_and_filter() {
    let mut data = CompletionData::new();
    let id = data.start(7, 42);
    assert_eq!(id, 1);
    assert_eq!(data.status, CompletionStatus::Started);
    assert_eq!(data.buffer_id, 7);
    assert_eq!(data.offset, 42);

    assert!(data.complete(1, String::new(), entries(&["foo", "bar", "foobar"])));
    assert_eq!(data.status, CompletionStatus::Done);
    assert_eq!(data.items.len(), 3);
    assert_eq!(labels(&data.items), vec!["foo", "bar", "foobar"]);
    assert_eq!(data.len(), 3);
    for (place, item) in data.items.iter().enumerate() {
        assert_eq!(item.index, place);
        assert_eq!(item.score, 0);
        assert!(item.indices.is_empty());
    }

    assert!(data.update_query(1, "fo".to_string()));
    assert_eq!(data.input, "fo");
    assert_eq!(labels(&data.filtered_items), vec!["foo", "foobar"]);
    assert_eq!(labels(data.active_items()), vec!["foo", "foobar"]);
    assert_eq!(data.len(), 2);
    assert_eq!(data.filtered_items[0].index, 0);
    assert_eq!(data.filtered_items[1].index, 2);
    assert_eq!(data.filtered_items[0].indices, vec![0, 1]);
    assert_eq!(data.filtered_items[1].indices, vec![0, 1]);
    assert!(data.filtered_items[0].score >= data.filtered_items[1].score);
    assert_eq!(labels(&data.items), vec!["foo", "bar", "foobar"]);
}

#[test]
fn cancel_from_done_clears_the_session() {
    let mut data = showing(&["foo", "bar"], "f");
    data.next();
    assert_eq!(data.status, CompletionStatus::Done);
    assert!(data.cancel());
    assert_eq!(data.status, CompletionStatus::Inactive);
    assert!(data.items.is_empty());
    assert!(data.filtered_items.is_empty());
    assert_eq!(data.input, "");
    assert_eq!(data.index, 0);
    assert_eq!(data.scroll_offset, 0);
    assert_eq!(data.request_id, 1);
}

#[test]
fn cancel_from_started_and_from_idle() {
    let mut data = CompletionData::new();
    assert!(!data.cancel());
    assert_eq!(data.status, CompletionStatus::Inactive);
    data.start(1, 0);
    assert!(data.cancel());
    assert_eq!(data.status, CompletionStatus::Inactive);
    assert!(!data.cancel());
}

#[test]
fn cancel_request_needs_the_awaited_id() {
    let mut data = CompletionData::new();
    let id = data.start(1, 0);
    assert!(!data.cancel_request(id + 1));
    assert_eq!(data.status, CompletionStatus::Started);
    assert!(data.cancel_request(id));
    assert_eq!(data.status, CompletionStatus::Inactive);

    let mut data = showing(&["foo"], "");
    assert!(!data.cancel_request(1));
    assert_eq!(data.status, CompletionStatus::Done);
    assert_eq!(data.items.len(), 1);
}

#[test]
fn stale_response_is_dropped() {
    let mut data = CompletionData::new();
    let old = data.start(1, 0);
    let new = data.start(1, 5);
    assert_eq!((old, new), (1, 2));
    assert!(!data.complete(old, "x".to_string(), entries(&["xa", "xb"])));
    assert_eq!(data.status, CompletionStatus::Started);
    assert!(data.items.is_empty());
    assert_eq!(data.input, "");
    assert!(data.complete(new, String::new(), entries(&["foo"])));
    assert_eq!(labels(&data.items), vec!["foo"]);
}

#[test]
fn stale_response_after_a_later_request_keeps_the_shown_list() {
    let mut data = showing(&["foo", "bar"], "");
    let new = data.start(1, 9);
    assert_eq!(new, 2);
    assert!(!data.complete(1, "b".to_string(), entries(&["late"])));
    assert_eq!(data.status, CompletionStatus::Started);
    assert_eq!(labels(&data.items), vec!["foo", "bar"]);
    assert_eq!(data.input, "");
}

#[test]
fn second_response_to_one_request_is_dropped() {
    let mut data = showing(&["foo", "bar"], "");
    assert!(!data.complete(1, "f".to_string(), entries(&["other"])));
    assert_eq!(data.status, CompletionStatus::Done);
    assert_eq!(labels(&data.items), vec!["foo", "bar"]);
    assert_eq!(data.input, "");
}

#[test]
fn response_to_an_idle_session_is_dropped() {
    let mut data = CompletionData::new();
    assert!(!data.complete(0, String::new(), entries(&["foo"])));
    assert_eq!(data.status, CompletionStatus::Inactive);
    assert!(data.items.is_empty());
}

#[test]
fn start_resets_prefix_selection_and_scroll() {
    let mut data = showing(&["foo", "foobar", "fob"], "fo");
    data.next();
    data.scroll_offset = 40;
    let id = data.start(3, 11);
    assert_eq!(id, 2);
    assert_eq!(data.status, CompletionStatus::Started);
    assert_eq!(data.input, "");
    assert_eq!(data.index, 0);
    assert_eq!(data.scroll_offset, 0);
    assert_eq!(data.buffer_id, 3);
    assert_eq!(data.offset, 11);
}

#[test]
fn request_ids_grow_by_one() {
    let mut data = CompletionData::new();
    for expected in 1..=5 {
        assert_eq!(data.start(0, 0), expected);
        data.cancel();
    }
}

#[test]
fn response_with_a_typed_prefix_is_filtered_at_once() {
    let data = showing(&["foo", "bar", "foobar"], "ba");
    assert_eq!(data.status, CompletionStatus::Done);
    assert_eq!(data.input, "ba");
    assert_eq!(labels(&data.items), vec!["foo", "bar", "foobar"]);
    assert_eq!(labels(&data.filtered_items), vec!["bar", "foobar"]);
    assert_eq!(data.len(), 2);
}

#[test]
fn done_takes_entries_in_any_state() {
    let mut data = CompletionData::new();
    data.done("o".to_string(), entries(&["one", "two", "three"]));
    assert_eq!(data.status, CompletionStatus::Done);
    assert_eq!(labels(&data.items), vec!["one", "two", "three"]);
    assert_eq!(labels(&data.filtered_items), vec!["one", "two"]);
    assert_eq!(data.index, 0);
}

#[test]
fn update_input_is_ignored_unless_entries_show() {
    let mut data = CompletionData::new();
    assert!(!data.update_input("f".to_string()));
    assert_eq!(data.input, "");
    data.start(1, 0);
    assert!(!data.update_input("f".to_string()));
    assert!(!data.update_query(1, "f".to_string()));
    assert_eq!(data.input, "");
    assert_eq!(data.status, CompletionStatus::Started);
}

#[test]
fn update_query_for_another_request_is_ignored() {
    let mut data = showing(&["foo", "bar"], "");
    assert!(!data.update_query(2, "f".to_string()));
    assert_eq!(data.input, "");
    assert!(data.update_query(1, "f".to_string()));
    assert_eq!(data.input, "f");
}

#[test]
fn update_input_resets_the_selection_and_filters_from_all_entries() {
    let mut data = showing(&["foo", "bar", "foobar", "baz"], "");
    data.next();
    data.next();
    assert_eq!(data.index, 2);
    assert!(data.update_input("ba".to_string()));
    assert_eq!(data.index, 0);
    assert_eq!(labels(&data.filtered_items), vec!["bar", "baz", "foobar"]);
    assert!(data.update_input("baz".to_string()));
    assert_eq!(labels(&data.filtered_items), vec!["baz"]);
    assert!(data.update_input("f".to_string()));
    assert_eq!(labels(&data.filtered_items), vec!["foo", "foobar"]);
    assert!(data.update_input(String::new()));
    assert_eq!(labels(data.active_items()), vec!["foo", "bar", "foobar", "baz"]);
    assert_eq!(data.len(), 4);
}

#[test]
fn no_survivor_is_no_error() {
    let mut data = showing(&["foo", "bar"], "");
    assert!(data.update_input("zzz".to_string()));
    assert!(data.filtered_items.is_empty());
    assert_eq!(data.len(), 0);
    assert_eq!(data.index, 0);
    assert!(!data.move_selection(Direction::Next, true));
    assert!(!data.move_selection(Direction::Previous, true));
    assert_eq!(data.index, 0);
}

#[test]
fn filter_items_rederives_the_filtered_list() {
    let mut data = showing(&["foo", "bar", "foobar"], "fo");
    data.filtered_items.clear();
    data.filter_items();
    assert_eq!(labels(&data.filtered_items), vec!["foo", "foobar"]);
    let mut data = showing(&["foo", "bar"], "");
    data.filter_items();
    assert!(data.filtered_items.is_empty());
    assert_eq!(data.len(), 2);
}

#[test]
fn selection_wraps_at_both_ends() {
    let mut data = showing(&["a", "b", "c"], "");
    assert_eq!(data.index, 0);
    data.previous();
    assert_eq!(data.index, 2);
    data.next();
    assert_eq!(data.index, 0);
    data.next();
    assert_eq!(data.index, 1);
    data.next();
    assert_eq!(data.index, 2);
    data.next();
    assert_eq!(data.index, 0);
    for _ in 0..100 {
        data.next();
        assert!(data.index < 3);
    }
    for _ in 0..100 {
        data.previous();
        assert!(data.index < 3);
    }
}

#[test]
fn selection_without_wrap_stops_at_the_ends() {
    let mut data = showing(&["a", "b"], "");
    assert!(!data.move_selection(Direction::Previous, false));
    assert_eq!(data.index, 0);
    assert!(data.move_selection(Direction::Next, false));
    assert_eq!(data.index, 1);
    assert!(!data.move_selection(Direction::Next, false));
    assert_eq!(data.index, 1);
    assert!(data.move_selection(Direction::Next, true));
    assert_eq!(data.index, 0);
}

#[test]
fn selection_in_a_list_of_one_stays() {
    let mut data = showing(&["only"], "");
    assert!(!data.move_selection(Direction::Next, true));
    assert!(!data.move_selection(Direction::Previous, true));
    assert_eq!(data.index, 0);
}

#[test]
fn selection_moves_in_the_filtered_list() {
    let mut data = showing(&["foo", "bar", "foobar", "baz"], "fo");
    data.next();
    assert_eq!(data.index, 1);
    assert_eq!(data.current(), "foobar");
    data.next();
    assert_eq!(data.index, 0);
    assert_eq!(data.current(), "foo");
}

#[test]
fn current_is_the_selected_label() {
    let mut data = showing(&["foo", "bar"], "");
    assert_eq!(data.current(), "foo");
    data.next();
    assert_eq!(data.current(), "bar");
}

#[test]
fn rank_under_the_empty_query_is_the_identity() {
    let all = vec![scored("b", 0, 5), scored("a", 1, 9), scored("c", 2, -3)];
    let ranked = rank(&all, "");
    assert_eq!(ranked.len(), 3);
    for (before, after) in all.iter().zip(ranked.iter()) {
        assert_eq!(before.item.label, after.item.label);
        assert_eq!(before.index, after.index);
        assert_eq!(before.score, after.score);
        assert_eq!(before.indices, after.indices);
    }
    assert!(rank(&Vec::new(), "").is_empty());
}

#[test]
fn rank_drops_what_does_not_match_and_orders_by_score() {
    let all = wrap_entries(&entries(&["a_long_name_with_x", "x", "nothing", "axe", "xa"]));
    let ranked = rank(&all, "x");
    let mut kept: Vec<usize> = ranked.iter().map(|item| item.index).collect();
    for pair in ranked.windows(2) {
        assert!(
            pair[0].score > pair[1].score
                || (pair[0].score == pair[1].score && pair[0].index < pair[1].index)
        );
    }
    kept.sort();
    assert_eq!(kept, vec![0, 1, 3, 4]);
    for item in &ranked {
        assert_eq!(item.indices.len(), 1);
        assert_eq!(item.item.label.chars().nth(item.indices[0]), Some('x'));
    }
    assert!(rank(&all, "q").is_empty());
    assert!(rank(&Vec::new(), "x").is_empty());
}

#[test]
fn rank_keeps_the_servers_order_among_equal_scores() {
    let all = wrap_entries(&entries(&["same", "same", "same"]));
    let ranked = rank(&all, "sa");
    let places: Vec<usize> = ranked.iter().map(|item| item.index).collect();
    assert_eq!(places, vec![0, 1, 2]);
}

#[test]
fn rank_puts_the_better_match_first() {
    let all = wrap_entries(&entries(&["f_x_o_x", "fo"]));
    let ranked = rank(&all, "fo");
    assert_eq!(labels(&ranked), vec!["fo", "f_x_o_x"]);
    assert!(ranked[0].score > ranked[1].score);
}

#[test]
fn insert_ranked_goes_behind_equal_scores_of_earlier_entries() {
    let mut ranked = vec![scored("a", 0, 9), scored("b", 3, 5), scored("c", 1, 2)];
    insert_ranked(&mut ranked, scored("d", 4, 5));
    assert_eq!(labels(&ranked), vec!["a", "b", "d", "c"]);
    insert_ranked(&mut ranked, scored("e", 2, 5));
    assert_eq!(labels(&ranked), vec!["a", "e", "b", "d", "c"]);
    insert_ranked(&mut ranked, scored("f", 5, 100));
    assert_eq!(labels(&ranked), vec!["f", "a", "e", "b", "d", "c"]);
    insert_ranked(&mut ranked, scored("g", 6, -1));
    assert_eq!(labels(&ranked), vec!["f", "a", "e", "b", "d", "c", "g"]);
    let mut empty = Vec::new();
    insert_ranked(&mut empty, scored("h", 0, 0));
    assert_eq!(labels(&empty), vec!["h"]);
}

#[test]
fn wrap_entries_numbers_the_entries() {
    let items = wrap_entries(&entries(&["x", "y"]));
    assert_eq!(labels(&items), vec!["x", "y"]);
    assert_eq!(items[0].index, 0);
    assert_eq!(items[1].index, 1);
    assert_eq!(items[1].score, 0);
    assert!(items[1].indices.is_empty());
    assert!(wrap_entries(&Vec::new()).is_empty());
}

#[test]
fn entries_keep_kind_and_insert_text() {
    let sent = vec![CompletionEntry {
        label: "len".to_string(),
        kind: Some(CompletionKind::Method),
        insert_text: "len()".to_string(),
    }];
    let mut data = CompletionData::new();
    let id = data.start(1, 0);
    assert!(data.complete(id, "l".to_string(), sent));
    assert_eq!(data.filtered_items[0].item.kind, Some(CompletionKind::Method));
    assert_eq!(data.filtered_items[0].item.insert_text, "len()");
    let copy = data.filtered_items[0].clone();
    assert_eq!(copy.item.label, "len");
    assert_eq!(copy.item.kind, Some(CompletionKind::Method));
    assert_eq!(copy.indices, data.filtered_items[0].indices);
}

#[test]
fn glyph_names_by_kind() {
    assert_eq!(completion_svg(None), None);
    assert_eq!(completion_svg(Some(CompletionKind::Other)), None);
    assert_eq!(completion_svg(Some(CompletionKind::Method)), Some("method"));
    assert_eq!(completion_svg(Some(CompletionKind::Function)), Some("method"));
    assert_eq!(completion_svg(Some(CompletionKind::Enum)), Some("enum"));
    assert_eq!(completion_svg(Some(CompletionKind::EnumMember)), Some("enum-member"));
    assert_eq!(completion_svg(Some(CompletionKind::Class)), Some("class"));
    assert_eq!(completion_svg(Some(CompletionKind::Variable)), Some("variable"));
    assert_eq!(completion_svg(Some(CompletionKind::Struct)), Some("structure"));
    assert_eq!(completion_svg(Some(CompletionKind::Keyword)), Some("keyword"));
    assert_eq!(completion_svg(Some(CompletionKind::Constant)), Some("constant"));
    assert_eq!(completion_svg(Some(CompletionKind::Property)), Some("property"));
    assert_eq!(completion_svg(Some(CompletionKind::Field)), Some("field"));
    assert_eq!(completion_svg(Some(CompletionKind::Interface)), Some("interface"));
    assert_eq!(completion_svg(Some(CompletionKind::Snippet)), Some("snippet"));
    assert_eq!(completion_svg(Some(CompletionKind::Module)), Some("namespace"));
}

#[test]
fn frame_asks_for_what_the_change_needs() {
    let frame = CompletionContainer::new();
    let idle = CompletionData::new();
    let mut started = CompletionData::new();
    started.start(1, 0);
    let shown = showing(&["foo", "bar"], "");
    let mut typed = showing(&["foo", "bar"], "");
    typed.update_input("f".to_string());
    let mut moved = showing(&["foo", "bar"], "");
    moved.next();
    let other = showing(&["foo", "baz"], "");

    let nothing = Refresh { layout: false, reset_fade: false, reveal: false };
    assert_eq!(frame.update(&idle, &idle), nothing);
    assert_eq!(frame.update(&shown, &shown), nothing);
    assert_eq!(
        frame.update(&idle, &started),
        Refresh { layout: true, reset_fade: false, reveal: false }
    );
    assert_eq!(
        frame.update(&started, &shown),
        Refresh { layout: true, reset_fade: true, reveal: false }
    );
    assert_eq!(
        frame.update(&shown, &typed),
        Refresh { layout: true, reset_fade: true, reveal: false }
    );
    assert_eq!(
        frame.update(&shown, &moved),
        Refresh { layout: false, reset_fade: false, reveal: true }
    );
    assert_eq!(
        frame.update(&shown, &other),
        Refresh { layout: true, reset_fade: false, reveal: false }
    );
    assert_eq!(
        frame.update(&shown, &idle),
        Refresh { layout: true, reset_fade: false, reveal: false }
    );
}

#[test]
fn items_compare_by_value() {
    assert!(same_offsets(&vec![], &vec![]));
    assert!(same_offsets(&vec![1, 2], &vec![1, 2]));
    assert!(!same_offsets(&vec![1, 2], &vec![1, 3]));
    assert!(!same_offsets(&vec![1, 2], &vec![1]));
    assert!(same_kind(None, None));
    assert!(same_kind(Some(CompletionKind::Enum), Some(CompletionKind::Enum)));
    assert!(!same_kind(Some(CompletionKind::Enum), Some(CompletionKind::Class)));
    assert!(!same_kind(Some(CompletionKind::Enum), None));
    assert!(same_entry(&entry("a"), &entry("a")));
    assert!(!same_entry(&entry("a"), &entry("b")));
    let mut with_kind = entry("a");
    with_kind.kind = Some(CompletionKind::Field);
    assert!(!same_entry(&entry("a"), &with_kind));
    let mut with_text = entry("a");
    with_text.insert_text = "a()".to_string();
    assert!(!same_entry(&entry("a"), &with_text));
    assert!(same_item(&scored("a", 1, 2), &scored("a", 1, 2)));
    assert!(!same_item(&scored("a", 1, 2), &scored("a", 0, 2)));
    assert!(!same_item(&scored("a", 1, 2), &scored("a", 1, 3)));
    let mut matched = scored("a", 1, 2);
    matched.indices = vec![0];
    assert!(!same_item(&scored("a", 1, 2), &matched));
    assert!(same_items(&vec![], &vec![]));
    assert!(same_items(&vec![scored("a", 0, 0), scored("b", 1, 0)], &vec![scored("a", 0, 0), scored("b", 1, 0)]));
    assert!(!same_items(&vec![scored("a", 0, 0), scored("b", 1, 0)], &vec![scored("a", 0, 0)]));
    assert!(!same_items(&vec![scored("a", 0, 0), scored("b", 1, 0)], &vec![scored("a", 0, 0), scored("c", 1, 0)]));
}

#[test]
fn copies_are_equal_to_their_origin() {
    assert_eq!(copy_offsets(&vec![3, 1, 2]), vec![3, 1, 2]);
    let items = vec![scored("a", 0, 4), scored("b", 1, -2)];
    assert!(same_items(&copy_items(&items), &items));
    assert!(copy_items(&Vec::new()).is_empty());
}

#[test]
fn fresh_items_are_recognised() {
    assert!(is_fresh(&Vec::new()));
    assert!(is_fresh(&wrap_entries(&entries(&["a", "b"]))));
    assert!(is_fresh(&vec![scored("a", 0, 0), scored("b", 1, 0)]));
    assert!(!is_fresh(&vec![scored("a", 0, 0), scored("b", 2, 0)]));
    assert!(!is_fresh(&vec![scored("a", 1, 0)]));
    assert!(!is_fresh(&vec![scored("a", 0, 3)]));
    let mut matched = scored("a", 0, 0);
    matched.indices = vec![0];
    assert!(!is_fresh(&vec![matched]));
}

#[test]
fn sessions_stay_well_formed_through_their_operations() {
    let mut data = CompletionData::new();
    assert!(data.is_well_formed());
    data.start(1, 2);
    assert!(data.is_well_formed());
    data.complete(1, "o".to_string(), entries(&["foo", "bar", "foobar", "oboe"]));
    assert!(data.is_well_formed());
    data.next();
    data.next();
    assert!(data.is_well_formed());
    data.update_input("ob".to_string());
    assert!(data.is_well_formed());
    data.previous();
    assert!(data.is_well_formed());
    data.update_input(String::new());
    data.previous();
    assert!(data.is_well_formed());
    data.start(1, 3);
    assert!(data.is_well_formed());
    data.cancel();
    assert!(data.is_well_formed());
}

#[test]
fn a_session_changed_by_hand_may_be_ill_formed() {
    let mut data = showing(&["foo", "bar", "foobar"], "fo");
    assert!(data.is_well_formed());
    data.index = 2;
    assert!(!data.is_well_formed());
    data.index = 1;
    assert!(data.is_well_formed());
    data.filtered_items.swap(0, 1);
    assert!(!data.is_well_formed());
    data.filtered_items.swap(0, 1);
    assert!(data.is_well_formed());
    data.filtered_items.pop();
    assert!(!data.is_well_formed());
    data.filter_items();
    assert!(data.is_well_formed());
    data.items[1].score = 5;
    assert!(!data.is_well_formed());
    data.items[1].score = 0;
    data.status = CompletionStatus::Inactive;
    assert!(!data.is_well_formed());

    let mut idle = CompletionData::new();
    idle.scroll_offset = 1;
    assert!(!idle.is_well_formed());
    idle.scroll_offset = 0;
    idle.index = 1;
    assert!(!idle.is_well_formed());
}
