use lumi_ui::frame_notifier::{FrameListener, FrameNotifier};
use lumi_ui::signals::Signal;
use lumi_ui::slots::{BlockingCallback, NotifSlot, Slot};
use lumi_ui::future::FutureState;
use lumi_ui::widgets::{image_object, is_within, Area, Drawable, Interact, InteractEvent, InteractState, Widget, LOADING_COLOR};
use std::cell::Cell;

#[test]
fn is_within_is_strict() {
    assert!(is_within(0, 0, 10, 10, 5, 5));
    assert!(!is_within(0, 0, 10, 10, 0, 5));
    assert!(!is_within(0, 0, 10, 10, 10, 5));
    assert!(!is_within(0, 0, 10, 10, 5, 10));
    assert!(is_within(-5, -5, 3, 3, -4, -3));
    assert!(!is_within(0, 0, 0, 0, 0, 0));
}

#[test]
fn widget_objects_and_children() {
    let s = Signal { index: 3 };
    assert_eq!(Widget::Rectangle(s).get_objects(), Some(s));
    assert_eq!(Widget::Interact(Interact {}).get_objects(), None);
    assert_eq!(Widget::Text(s).expected_children(), 0);
    assert_eq!(Widget::Svg(s).expected_children(), 1);
}

#[test]
fn interact_click_sequence() {
    let area = Area { x: 0, y: 0, width: 100, height: 50 };
    let idle = InteractState { hovered: false, click_left: false, click_right: false, click_middle: false };
    let o = Interact::handle(idle, area, InteractEvent::Left(true));
    assert_eq!(o.state, idle);
    let o = Interact::handle(idle, area, InteractEvent::Cursor(10, 10));
    assert!(o.state.hovered);
    assert!(!o.drag);
    let o = Interact::handle(o.state, area, InteractEvent::Left(true));
    assert!(o.state.click_left && o.drag && !o.clicked);
    let moved = Interact::handle(o.state, area, InteractEvent::Cursor(20, 20));
    assert!(moved.drag);
    let o = Interact::handle(moved.state, area, InteractEvent::Left(false));
    assert!(o.clicked);
    assert!(!o.state.click_left);
    let o = Interact::handle(o.state, area, InteractEvent::Right(true));
    assert!(o.right_clicked && o.state.click_right);
    let o = Interact::handle(o.state, area, InteractEvent::Right(false));
    assert!(!o.state.click_right);
    let out = Interact::handle(o.state, area, InteractEvent::Cursor(200, 10));
    assert!(!out.state.hovered);
}

#[test]
fn release_outside_is_no_click() {
    let area = Area { x: 0, y: 0, width: 10, height: 10 };
    let s = InteractState { hovered: true, click_left: true, click_right: false, click_middle: true };
    let o = Interact::handle(s, area, InteractEvent::Cursor(50, 50));
    let o = Interact::handle(o.state, area, InteractEvent::Left(false));
    assert!(!o.clicked);
    let o = Interact::handle(o.state, area, InteractEvent::Middle(false));
    assert!(!o.state.click_middle);
}

#[test]
fn frame_notifier_runs_and_expires() {
    let mut n = FrameNotifier::new();
    n.add(FrameListener::new(1, 100));
    n.add(FrameListener::new(2, 50));
    n.add(FrameListener::new(3, 200));
    let (calls, active) = n.run(50);
    assert_eq!(calls, vec![1, 2, 3]);
    assert!(active);
    assert_eq!(n.listeners.len(), 2);
    let (calls, active) = n.run(150);
    assert_eq!(calls, vec![1, 3]);
    assert!(active);
    let (calls, active) = n.run(300);
    assert_eq!(calls, vec![3]);
    assert!(!active);
    n.get_mut().push(FrameListener::new(4, 400));
    assert_eq!(n.run(0), (vec![4], true));
}

#[test]
fn slots_invoke_their_callbacks() {
    let seen = Cell::new(0);
    let slot = Slot::new(|v: &i32| seen.set(seen.get() + *v));
    slot.invoke(&5);
    slot.invoke(&7);
    assert_eq!(seen.get(), 12);
    let count = Cell::new(0);
    let n = NotifSlot::new(|| count.set(count.get() + 1));
    n.invoke();
    n.invoke();
    let b = BlockingCallback::new(|| count.set(count.get() + 10));
    b.invoke();
    assert_eq!(count.get(), 12);
}

#[test]
fn image_object_shows_placeholder_until_decoded() {
    let area = Area { x: 1, y: 2, width: 30, height: 40 };
    assert_eq!(
        image_object::<u8>(area, &FutureState::Running),
        Drawable::Rectangle { x: 1, y: 2, width: 30, height: 40, color: LOADING_COLOR }
    );
    assert_eq!(LOADING_COLOR, 0x57595C66);
    assert_eq!(
        image_object(area, &FutureState::Completed(9u8)),
        Drawable::Image { x: 1, y: 2, width: 30, height: 40, image: 9 }
    );
}
