use wyclef_rs::clef::parse;
use wyclef_rs::state::StatefulList;
use wyclef_rs::tui::{handle_key, main_title, remaining_timeout_ms, App, KeyInput};
use wyclef_rs::{get_app_arguments_from_program_args, AppArguments};

#[test]
fn previous_and_next_are_inverse_away_from_the_boundary() {
    let mut list = StatefulList::with_items(vec![10, 20, 30, 40, 50]);
    list.select(0);
    list.previous(1);
    assert_eq!(list.selected, Some(4));
    list.next(1);
    assert_eq!(list.selected, Some(0));

    list.select(2);
    list.next(1);
    assert_eq!(list.selected, Some(3));
    list.previous(1);
    assert_eq!(list.selected, Some(2));
}

#[test]
fn navigation_on_an_empty_list_is_a_harmless_no_op() {
    let mut list: StatefulList<u8> = StatefulList::with_items(Vec::new());
    list.next(1);
    assert_eq!(list.selected, None);
    list.previous(10);
    assert_eq!(list.selected, None);
    list.to_first();
    list.to_last();
    assert_eq!(list.selected, None);
}

#[test]
fn unselect_then_next_selects_the_first_item() {
    let mut list = StatefulList::with_items(vec![1, 2, 3]);
    list.select(2);
    list.unselect();
    assert_eq!(list.selected, None);
    list.next(1);
    assert_eq!(list.selected, Some(0));
}

#[test]
fn next_wraps_from_the_last_index_and_clamps_overshoot() {
    let mut list = StatefulList::with_items(vec![1, 2, 3, 4, 5]);
    list.select(4);
    list.next(1);
    assert_eq!(list.selected, Some(0));
    list.next(10);
    assert_eq!(list.selected, Some(4));
    list.next(1);
    assert_eq!(list.selected, Some(0));
}

#[test]
fn previous_wraps_from_the_first_index_and_clamps_overshoot() {
    let mut list = StatefulList::with_items(vec![1, 2, 3, 4, 5]);
    list.select(3);
    list.previous(10);
    assert_eq!(list.selected, Some(0));
    list.previous(1);
    assert_eq!(list.selected, Some(4));
}

#[test]
fn to_first_and_to_last_select_the_ends() {
    let mut list = StatefulList::with_items(vec![1, 2, 3]);
    list.to_last();
    assert_eq!(list.selected, Some(2));
    list.to_first();
    assert_eq!(list.selected, Some(0));
}

#[test]
fn key_dispatch_moves_quits_and_unselects() {
    let args = AppArguments {
        file_path: "test.jlog".to_string(),
    };
    let events = vec![
        parse(b"{\"@m\":\"a\"}").unwrap(),
        parse(b"{\"@m\":\"b\"}").unwrap(),
        parse(b"{\"@m\":\"c\"}").unwrap(),
    ];
    let mut app = App::new(args, events);
    assert_eq!(app.items.selected, None);

    assert!(!handle_key(&mut app, KeyInput::Down, false));
    assert_eq!(app.items.selected, Some(0));
    assert!(!handle_key(&mut app, KeyInput::Down, true));
    assert_eq!(app.items.selected, Some(2));
    assert!(!handle_key(&mut app, KeyInput::Up, false));
    assert_eq!(app.items.selected, Some(1));
    assert!(!handle_key(&mut app, KeyInput::Other, true));
    assert_eq!(app.items.selected, Some(1));
    assert!(!handle_key(&mut app, KeyInput::Char('x'), false));
    assert_eq!(app.items.selected, Some(1));
    assert!(!handle_key(&mut app, KeyInput::Enter, false));
    assert_eq!(app.items.selected, None);
    assert!(handle_key(&mut app, KeyInput::Char('q'), false));
    assert_eq!(app.items.selected, None);
}

#[test]
fn app_arguments_flow_into_the_app_state() {
    let argv = vec!["viewer".to_string(), "example.clef".to_string()];
    let args = get_app_arguments_from_program_args(&argv).unwrap();
    let app = App::new(args, Vec::new());
    assert_eq!(app.args.file_path, "example.clef");
    assert_eq!(app.items.items.len(), 0);
}

#[test]
fn the_frame_title_names_the_open_file() {
    let title = main_title(&"test.jlog".to_string());
    assert_eq!(title, "Reading File: test.jlog");
}

#[test]
fn remaining_timeout_is_the_budget_minus_elapsed_clamped_at_zero() {
    assert_eq!(remaining_timeout_ms(250, 0), 250);
    assert_eq!(remaining_timeout_ms(250, 100), 150);
    assert_eq!(remaining_timeout_ms(250, 250), 0);
    assert_eq!(remaining_timeout_ms(250, 400), 0);
}
