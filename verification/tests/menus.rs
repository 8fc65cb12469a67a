use l1t::menu::{Menu, Selection};

#[test]
fn highlight_steps_wrap_around() {
    assert_eq!(Menu::step_up(0, 3), 2);
    assert_eq!(Menu::step_up(2, 3), 1);
    assert_eq!(Menu::step_down(2, 3), 0);
    assert_eq!(Menu::step_down(0, 3), 1);
}

#[test]
fn level_steps_wrap_at_the_highest_available() {
    assert_eq!(Menu::step_level_left(0, 4), 4);
    assert_eq!(Menu::step_level_left(3, 4), 2);
    assert_eq!(Menu::step_level_right(4, 4), 0);
    assert_eq!(Menu::step_level_right(1, 4), 2);
}

#[test]
fn highest_available_level_follows_progress() {
    assert_eq!(Menu::highest_available(&vec![], 5), 0);
    assert_eq!(Menu::highest_available(&vec![0, 2, 1], 5), 2);
    assert_eq!(Menu::highest_available(&vec![7], 3), 2);
}

#[test]
fn scrolling_stops_at_both_ends() {
    assert_eq!(Menu::scroll_up(0), 0);
    assert_eq!(Menu::scroll_up(4), 3);
    assert_eq!(Menu::scroll_down(0, 10, 5), 0);
    assert_eq!(Menu::scroll_down(0, 3, 5), 1);
    assert_eq!(Menu::scroll_down(2, 3, 5), 2);
}

#[test]
fn selections_compare_by_value() {
    assert_eq!(Selection::Play(2), Selection::Play(2));
    assert_ne!(Selection::Play(2), Selection::Item(2));
    assert_ne!(Selection::Help, Selection::Quit);
    assert_eq!(Selection::Yes, Selection::Yes);
    assert_ne!(Selection::Yes, Selection::No);
}
