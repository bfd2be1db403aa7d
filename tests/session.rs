use termoil::codec::{Key, Modifiers, MouseButton, MouseEncoding, MouseKind, MouseMode};
use termoil::layout::Direction;
use termoil::session::{command_for_key, grid_area, grid_cell_sizes, inner_size, pane_border, App, Border, Command};
use termoil::layout::{compute_pane_areas, Rect};

fn app_with(n: u32) -> App<u32> {
    let mut app = App::new();
    for i in 0..n {
        app.add_pane(i);
    }
    app
}

#[test]
fn new_registry_is_empty_grid() {
    let app: App<u32> = App::new();
    assert!(app.panes.is_empty());
    assert_eq!(app.selected, 0);
    assert!(!app.zoomed);
    assert!(app.mouse_capture_enabled);
    assert_eq!(app.tick, 0);
}

#[test]
fn add_selects_new_pane() {
    let app = app_with(3);
    assert_eq!(app.panes, vec![0, 1, 2]);
    assert_eq!(app.attention, vec![false, false, false]);
    assert_eq!(app.selected, 2);
}

#[test]
fn closing_only_pane_empties_registry() {
    let mut app = app_with(1);
    assert!(app.zoom_selected());
    app.scroll_offset = 4;
    assert_eq!(app.close_selected_pane(), Some(0));
    assert!(app.panes.is_empty());
    assert!(app.attention.is_empty());
    assert_eq!(app.selected, 0);
    assert!(!app.zoomed);
    assert_eq!(app.scroll_offset, 0);
    assert_eq!(app.close_selected_pane(), None);
}

#[test]
fn closing_last_pane_clamps_selection() {
    let mut app = app_with(3);
    app.attention = vec![true, false, true];
    assert_eq!(app.close_selected_pane(), Some(2));
    assert_eq!(app.panes, vec![0, 1]);
    assert_eq!(app.attention, vec![true, false]);
    assert_eq!(app.selected, 1);
    app.selected = 0;
    assert_eq!(app.close_selected_pane(), Some(0));
    assert_eq!(app.selected, 0);
    assert_eq!(app.attention, vec![false]);
}

#[test]
fn restart_keeps_slot_and_clears_its_flag() {
    let mut app = app_with(3);
    app.attention = vec![true, true, true];
    app.selected = 1;
    assert!(app.zoom_selected());
    let old = app.restart_selected_pane(42);
    assert_eq!(old, 1);
    assert_eq!(app.panes, vec![0, 42, 2]);
    assert_eq!(app.attention, vec![true, false, true]);
    assert_eq!(app.selected, 1);
    assert!(app.zoomed);
}

#[test]
fn navigate_moves_selection() {
    let mut app = app_with(4);
    app.selected = 0;
    app.navigate(Direction::Down);
    assert_eq!(app.selected, 2);
    app.navigate(Direction::Right);
    assert_eq!(app.selected, 3);
    app.navigate(Direction::Up);
    assert_eq!(app.selected, 1);
    app.navigate(Direction::Up);
    assert_eq!(app.selected, 1);
    let mut empty: App<u32> = App::new();
    empty.navigate(Direction::Down);
    assert_eq!(empty.selected, 0);
}

#[test]
fn zoom_and_unzoom() {
    let mut app = app_with(2);
    assert!(!app.zoom_to(2));
    assert!(!app.zoomed);
    assert!(app.zoom_to(0));
    assert_eq!(app.selected, 0);
    assert!(app.zoomed);
    app.scroll_offset = 3;
    app.unzoom();
    assert!(!app.zoomed);
    assert_eq!(app.scroll_offset, 0);
    let mut empty: App<u32> = App::new();
    assert!(!empty.zoom_selected());
    assert!(!empty.zoomed);
}

#[test]
fn keys_reach_only_zoomed_pane() {
    let mut app = app_with(1);
    assert_eq!(app.key_for_selected(Key::Enter, false), None);
    app.zoom_selected();
    assert_eq!(app.key_for_selected(Key::Enter, false), Some(vec![b'\r']));
    assert_eq!(app.key_for_selected(Key::Other, false), None);
}

#[test]
fn tick_wraps_and_blinks() {
    let mut app = app_with(1);
    assert!(app.blink_on());
    for _ in 0..5 {
        app.advance_tick();
    }
    assert!(!app.blink_on());
    app.tick = u64::MAX;
    app.advance_tick();
    assert_eq!(app.tick, 0);
}

#[test]
fn classify_sets_one_flag() {
    let mut app = app_with(2);
    app.classify(0, "Continue? [y/n]", "Continue? [y/n]");
    assert_eq!(app.attention, vec![true, false]);
    app.classify(0, "$ ", "Continue? [y/n]");
    assert_eq!(app.attention, vec![false, false]);
}

#[test]
fn toggles_mouse_capture() {
    let mut app = app_with(0);
    app.toggle_mouse_capture();
    assert!(!app.mouse_capture_enabled);
    app.toggle_mouse_capture();
    assert!(app.mouse_capture_enabled);
}

#[test]
fn border_roles() {
    assert_eq!(pane_border(true, true, true), Border::Alert);
    assert_eq!(pane_border(true, true, false), Border::Selected);
    assert_eq!(pane_border(true, false, true), Border::Alert);
    assert_eq!(pane_border(true, false, false), Border::AlertDim);
    assert_eq!(pane_border(false, true, true), Border::Selected);
    assert_eq!(pane_border(false, false, false), Border::Plain);
}

#[test]
fn grid_sizes() {
    assert_eq!(grid_area(40, 100), Rect::new(0, 7, 100, 33));
    assert_eq!(grid_area(5, 100), Rect::new(0, 7, 100, 0));
    assert_eq!(inner_size(Rect::new(0, 0, 10, 6)), (4, 8));
    assert_eq!(inner_size(Rect::new(0, 0, 2, 1)), (1, 1));
    let areas = compute_pane_areas(grid_area(47, 100), 2);
    assert_eq!(grid_cell_sizes(&areas), vec![(38, 48), (38, 48)]);
    let app = app_with(2);
    assert_eq!(app.selected_grid_inner_size(47, 100), (38, 48));
    let empty: App<u32> = App::new();
    assert_eq!(empty.selected_grid_inner_size(47, 100), (24, 80));
}

#[test]
fn grid_keys_are_commands() {
    assert_eq!(command_for_key(false, 0, Key::Char('q'), false), Command::Quit);
    assert_eq!(command_for_key(false, 3, Key::Char('n'), false), Command::Spawn);
    assert_eq!(command_for_key(false, 9, Key::Char('n'), false), Command::Ignore);
    assert_eq!(command_for_key(false, 3, Key::Char('x'), false), Command::CloseSelected);
    assert_eq!(command_for_key(false, 3, Key::Char('r'), false), Command::RestartSelected);
    assert_eq!(command_for_key(false, 3, Key::Char('1'), false), Command::ZoomTo(0));
    assert_eq!(command_for_key(false, 3, Key::Char('9'), false), Command::ZoomTo(8));
    assert_eq!(command_for_key(false, 3, Key::Char('0'), false), Command::Ignore);
    assert_eq!(command_for_key(false, 3, Key::Up, false), Command::Navigate(Direction::Up));
    assert_eq!(command_for_key(false, 3, Key::Right, false), Command::Navigate(Direction::Right));
    assert_eq!(command_for_key(false, 3, Key::Enter, false), Command::ZoomSelected);
    assert_eq!(command_for_key(false, 3, Key::Tab, false), Command::Ignore);
    assert_eq!(command_for_key(false, 3, Key::F(2), false), Command::ToggleMouseCapture);
}

#[test]
fn zoomed_keys_go_to_the_pane() {
    assert_eq!(command_for_key(true, 2, Key::Char('q'), false), Command::Forward(Key::Char('q'), false));
    assert_eq!(command_for_key(true, 2, Key::Char('c'), true), Command::Forward(Key::Char('c'), true));
    assert_eq!(command_for_key(true, 2, Key::Char(' '), true), Command::Unzoom);
    assert_eq!(command_for_key(true, 2, Key::Char(' '), false), Command::Forward(Key::Char(' '), false));
    assert_eq!(command_for_key(true, 2, Key::F(2), false), Command::ToggleMouseCapture);
    assert_eq!(command_for_key(true, 2, Key::F(3), false), Command::Forward(Key::F(3), false));
}

#[test]
fn mouse_reaches_only_zoomed_pane_with_capture() {
    let mut app = app_with(1);
    let down = MouseKind::Down(MouseButton::Left);
    let none = Modifiers { shift: false, alt: false, control: false };
    let report = |app: &App<u32>| app.mouse_for_selected(MouseMode::Press, MouseEncoding::Sgr, down, none, 3, 4, 80, 24);
    assert_eq!(report(&app), None);
    app.zoom_selected();
    assert_eq!(report(&app), Some(b"\x1b[<0;3;4M".to_vec()));
    app.toggle_mouse_capture();
    assert_eq!(report(&app), None);
}

#[test]
fn refresh_reclassifies_every_pane_in_grid_only() {
    let mut app = app_with(2);
    let texts = vec![
        ("Continue? [y/n]".to_string(), "Continue? [y/n]".to_string()),
        ("$ ".to_string(), "Password:".to_string()),
    ];
    app.refresh_attention(&texts);
    assert_eq!(app.attention, vec![true, false]);
    app.zoom_selected();
    let quiet = vec![("".to_string(), "".to_string()), ("".to_string(), "Password:".to_string())];
    app.refresh_attention(&quiet);
    assert_eq!(app.attention, vec![true, false]);
    app.unzoom();
    app.refresh_attention(&quiet);
    assert_eq!(app.attention, vec![false, true]);
}
