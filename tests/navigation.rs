use tarnished::cursor::{Navigation, SelectionCursor};
use tarnished::display::fits_minimum_size;

#[test]
fn three_records_wrap_both_ways() {
    let mut c = SelectionCursor::new(3);
    assert_eq!(c.selected(), Some(0));
    c.apply(Navigation::Next);
    c.apply(Navigation::Next);
    c.apply(Navigation::Next);
    assert_eq!(c.selected(), Some(0));
    c.apply(Navigation::Prev);
    assert_eq!(c.selected(), Some(2));
}

#[test]
fn k_moves_forward_land_on_k_mod_n() {
    for n in 1..6usize {
        let mut c = SelectionCursor::new(n);
        for k in 1..20usize {
            c.next();
            assert_eq!(c.selected(), Some(k % n));
        }
    }
}

#[test]
fn k_moves_back_land_on_n_minus_k_mod_n() {
    for n in 1..6usize {
        let mut c = SelectionCursor::new(n);
        for k in 1..20usize {
            c.prev();
            assert_eq!(c.selected(), Some((n - k % n) % n));
        }
    }
}

#[test]
fn empty_collection_stays_empty() {
    let mut c = SelectionCursor::new(0);
    assert_eq!(c.selected(), None);
    c.next();
    c.prev();
    c.apply(Navigation::Prev);
    assert_eq!(c.selected(), None);
    assert_eq!(c.len(), 0);
}

#[test]
fn reload_returns_to_first_record() {
    let mut c = SelectionCursor::new(4);
    c.prev();
    assert_eq!(c.selected(), Some(3));
    c.reload(2);
    assert_eq!(c.selected(), Some(0));
    assert_eq!(c.len(), 2);
    c.reload(0);
    assert_eq!(c.selected(), None);
}

#[test]
fn terminal_size_threshold() {
    assert!(fits_minimum_size(80, 30));
    assert!(fits_minimum_size(200, 60));
    assert!(!fits_minimum_size(79, 30));
    assert!(!fits_minimum_size(80, 29));
    assert!(!fits_minimum_size(10, 31));
}
