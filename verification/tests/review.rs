use docsearch::review::{
    handle_key, line_highlighted, separator_before, summary_line, ReviewKey, ReviewStep,
    StatefulList,
};
use docsearch::search_match::SearchMatch;

fn rec(path: &str, n: usize) -> SearchMatch {
    SearchMatch::new(path.to_string(), 1, n, format!("content {}", n), "ctx".to_string())
}

#[test]
fn navigation_wraps_forward() {
    let mut list = StatefulList::with_items(vec![1, 2, 3]);
    assert_eq!(list.selected, 0);
    list.next();
    assert_eq!(list.selected, 1);
    list.next();
    assert_eq!(list.selected, 2);
    list.next();
    assert_eq!(list.selected, 0);
}

#[test]
fn navigation_wraps_backward() {
    let mut list = StatefulList::with_items(vec![1, 2, 3]);
    list.previous();
    assert_eq!(list.selected, 2);
    list.previous();
    assert_eq!(list.selected, 1);
}

#[test]
fn navigation_single_item_stays() {
    let mut list = StatefulList::with_items(vec![7]);
    list.next();
    assert_eq!(list.selected, 0);
    list.previous();
    assert_eq!(list.selected, 0);
    assert_eq!(*list.get_selected_item(), 7);
}

#[test]
fn five_record_grouping() {
    let items = vec![rec("A", 1), rec("A", 2), rec("B", 3), rec("A", 4), rec("A", 5)];
    assert!(separator_before(&items, 0));
    assert!(!separator_before(&items, 1));
    assert!(separator_before(&items, 2));
    assert!(separator_before(&items, 3));
    assert!(!separator_before(&items, 4));
}

#[test]
fn enter_returns_record_under_cursor() {
    let items = vec![rec("A", 1), rec("A", 2), rec("B", 3)];
    let mut list = StatefulList::with_items(items);
    assert_eq!(handle_key(&mut list, ReviewKey::Down), ReviewStep::Continue);
    let step = handle_key(&mut list, ReviewKey::Enter);
    assert_eq!(step, ReviewStep::Chosen);
    assert_eq!(list.selected, 1);
    assert_eq!(list.get_selected_item().line, 2);
}

#[test]
fn quit_cancels_without_mutation() {
    let items = vec![rec("A", 1), rec("B", 2)];
    let mut list = StatefulList::with_items(items);
    handle_key(&mut list, ReviewKey::Down);
    let before = list.selected;
    let step = handle_key(&mut list, ReviewKey::Quit);
    assert_eq!(step, ReviewStep::Cancelled);
    assert_eq!(list.selected, before);
    assert_eq!(list.get_selected_item().path, "B");
}

#[test]
fn other_keys_are_ignored() {
    let mut list = StatefulList::with_items(vec![1, 2]);
    assert_eq!(handle_key(&mut list, ReviewKey::Other), ReviewStep::Continue);
    assert_eq!(list.selected, 0);
}

#[test]
fn highlight_is_case_insensitive() {
    assert!(line_highlighted("This is BEAUTIFUL text.", "beautiful"));
    assert!(line_highlighted("mixed CaSe TERM here", "case term"));
    assert!(!line_highlighted("nothing to see", "beautiful"));
    assert!(line_highlighted("Alpha", ""));
}

#[test]
fn summary_line_text() {
    assert_eq!(summary_line(12), "Number of results: 12, below is preview.");
    assert_eq!(summary_line(0), "Number of results: 0, below is preview.");
}
