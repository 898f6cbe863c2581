use lumi_ui::future::{Dispatch, FutureSignal, FutureState};

#[test]
fn future_round_trip() {
    let mut f: FutureSignal<i32> = FutureSignal::empty();
    f.subscribe(1);
    f.notify(2);
    let ticket = f.set();
    assert_eq!(*f.get(), FutureState::Running);
    let calls = f.complete(ticket, 42);
    assert_eq!(*f.get(), FutureState::Completed(42));
    assert_eq!(calls, vec![Dispatch::Value(1), Dispatch::Notify(2)]);
    assert!(f.complete(ticket, 43).is_empty());
    assert_eq!(*f.get(), FutureState::Completed(42));
}

#[test]
fn future_new_is_running() {
    let (f, ticket): (FutureSignal<u8>, u64) = FutureSignal::new();
    assert_eq!(ticket, 1);
    assert_eq!(*f.get(), FutureState::Running);
}

#[test]
fn future_retrigger_last_writer_wins() {
    let mut f: FutureSignal<&str> = FutureSignal::empty();
    f.subscribe(9);
    let first = f.set();
    let second = f.set();
    assert!(f.complete(first, "stale").is_empty());
    assert_eq!(*f.get(), FutureState::Running);
    assert_eq!(f.complete(second, "fresh"), vec![Dispatch::Value(9)]);
    assert_eq!(*f.get(), FutureState::Completed("fresh"));
    let third = f.set();
    assert_eq!(*f.get(), FutureState::Running);
    assert_eq!(third, second + 1);
}
