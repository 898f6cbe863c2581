use lumi_ui::events::{first_of_each_kind, process_events, WindowAction, WindowEvent};

#[test]
fn keeps_first_event_of_each_kind() {
    assert_eq!(first_of_each_kind(&vec![3, 1, 3, 2, 1, 1]), vec![0, 1, 3]);
    assert_eq!(first_of_each_kind(&vec![]), Vec::<usize>::new());
    assert_eq!(first_of_each_kind(&vec![7, 7, 7]), vec![0]);
}

#[test]
fn window_events_become_actions_then_a_draw() {
    let events = vec![
        WindowEvent::WindowSize(800, 600),
        WindowEvent::Other,
        WindowEvent::CursorPos((1.5f64, 2.0f64)),
        WindowEvent::Redraw,
        WindowEvent::FocusChange(true),
    ];
    let (actions, close) = process_events(&events);
    assert!(!close);
    assert_eq!(
        actions,
        vec![
            WindowAction::SetDimensions(800, 600),
            WindowAction::SetCursor((1.5, 2.0)),
            WindowAction::Draw,
            WindowAction::SetFocus(true),
            WindowAction::Draw,
        ]
    );
}

#[test]
fn close_request_ends_the_batch() {
    let events: Vec<WindowEvent<(i32, i32)>> =
        vec![WindowEvent::FocusChange(false), WindowEvent::CloseRequested, WindowEvent::Redraw];
    let (actions, close) = process_events(&events);
    assert!(close);
    assert_eq!(actions, vec![WindowAction::SetFocus(false)]);
    let (actions, close) = process_events::<u8>(&vec![]);
    assert!(!close);
    assert_eq!(actions, vec![WindowAction::Draw]);
}
