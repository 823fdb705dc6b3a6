use ncmprs::selection::ListSelection;

#[test]
fn default_selects_nothing() {
    let s = ListSelection::default();
    assert_eq!(s.selected(), None);
    assert_eq!(s.offset, 0);
}

#[test]
fn next_from_nothing_selects_first() {
    let mut s = ListSelection::default();
    s.select_next();
    assert_eq!(s.selected(), Some(0));
    s.select_next();
    assert_eq!(s.selected(), Some(1));
}

#[test]
fn previous_from_nothing_selects_last() {
    let mut s = ListSelection::default();
    s.select_previous();
    assert_eq!(s.selected(), Some(usize::MAX));
}

#[test]
fn previous_stops_at_first() {
    let mut s = ListSelection::default().with_selected(Some(0));
    s.select_previous();
    assert_eq!(s.selected(), Some(0));
}

#[test]
fn next_stops_at_largest_index() {
    let mut s = ListSelection::default().with_selected(Some(usize::MAX));
    s.select_next();
    assert_eq!(s.selected(), Some(usize::MAX));
}

#[test]
fn next_then_previous_comes_back() {
    let mut s = ListSelection::default().with_selected(Some(4));
    s.select_next();
    s.select_previous();
    assert_eq!(s.selected(), Some(4));
}

#[test]
fn first_and_last() {
    let mut s = ListSelection { offset: 3, selected: Some(7) };
    s.select_first();
    assert_eq!(s.selected(), Some(0));
    assert_eq!(s.offset, 3);
    s.select_last();
    assert_eq!(s.selected(), Some(usize::MAX));
    assert_eq!(s.offset, 3);
}

#[test]
fn clearing_selection_scrolls_to_top() {
    let mut s = ListSelection { offset: 5, selected: Some(9) };
    s.select(Some(2));
    assert_eq!(s.offset, 5);
    s.select(None);
    assert_eq!(s.offset, 0);
    assert_eq!(s.selected(), None);
}
