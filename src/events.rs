use vstd::prelude::*;

verus! {

/// No event before position `j` of `kinds` has the kind of event `j`.
pub open spec fn first_of_its_kind(kinds: Seq<u64>, j: int) -> bool {
    forall|i: int| 0 <= i < j ==> kinds[i] != kinds[j]
}

/// The positions among the first `n` events of `kinds` whose event is the
/// first of its kind, in increasing order.
pub open spec fn kept_positions(kinds: Seq<u64>, n: int) -> Seq<usize>
    decreases n,
{
    if n <= 0 {
        Seq::empty()
    } else if first_of_its_kind(kinds, n - 1) {
        kept_positions(kinds, n - 1).push((n - 1) as usize)
    } else {
        kept_positions(kinds, n - 1)
    }
}

/// Of a batch of window events, given by their kinds in arrival order, the
/// positions of the events that are handled: the first event of each kind.
pub fn first_of_each_kind(kinds: &Vec<u64>) -> (r: Vec<usize>)
    ensures
        r@ == kept_positions(kinds@, kinds@.len() as int),
{
    let mut r: Vec<usize> = Vec::new();
    let mut j: usize = 0;
    while j < kinds.len()
        invariant
            j <= kinds@.len(),
            r@ == kept_positions(kinds@, j as int),
        decreases kinds@.len() - j,
    {
        let mut seen = false;
        let mut i: usize = 0;
        while i < j
            invariant
                i <= j < kinds@.len(),
                seen == exists|t: int| 0 <= t < i && kinds@[t] == kinds@[j as int],
            decreases j - i,
        {
            if kinds[i] == kinds[j] {
                seen = true;
            }
            i = i + 1;
        }
        if !seen {
            r.push(j);
        }
        j = j + 1;
    }
    r
}

/// An event of one window, with cursor positions of type `P`.
#[derive(Clone, Copy, PartialEq, Eq, Structural, Debug)]
pub enum WindowEvent<P> {
    CloseRequested,
    Redraw,
    WindowSize(u32, u32),
    CursorPos(P),
    FocusChange(bool),
    Other,
}

/// What the owner of a window does: set one of the window's state signals,
/// or draw the window's children.
#[derive(Clone, Copy, PartialEq, Eq, Structural, Debug)]
pub enum WindowAction<P> {
    SetDimensions(u32, u32),
    SetCursor(P),
    SetFocus(bool),
    Draw,
}

/// The action that event `e` asks for, if any; a close request asks for none.
pub open spec fn action_of<P>(e: WindowEvent<P>) -> Option<WindowAction<P>> {
    match e {
        WindowEvent::Redraw => Some(WindowAction::Draw),
        WindowEvent::WindowSize(w, h) => Some(WindowAction::SetDimensions(w, h)),
        WindowEvent::CursorPos(p) => Some(WindowAction::SetCursor(p)),
        WindowEvent::FocusChange(f) => Some(WindowAction::SetFocus(f)),
        _ => None,
    }
}

/// The actions for the first `n` events, in order.
pub open spec fn actions_for<P>(events: Seq<WindowEvent<P>>, n: int) -> Seq<WindowAction<P>>
    decreases n,
{
    if n <= 0 {
        Seq::empty()
    } else {
        match action_of(events[n - 1]) {
            Some(a) => actions_for(events, n - 1).push(a),
            None => actions_for(events, n - 1),
        }
    }
}

/// `c` is the position of the first close request among `events`.
pub open spec fn first_close<P>(events: Seq<WindowEvent<P>>, c: int) -> bool {
    &&& 0 <= c < events.len()
    &&& events[c] == WindowEvent::<P>::CloseRequested
    &&& forall|i: int| 0 <= i < c ==> events[i] != WindowEvent::<P>::CloseRequested
}

/// The decisions for a batch of events of one window. A close request ends
/// the batch: the actions of the events before it are returned with `true`,
/// and the window is to be closed. Otherwise the actions of all events are
/// returned, followed by one last draw, with `false`.
pub fn process_events<P: Copy>(events: &Vec<WindowEvent<P>>) -> (r: (Vec<WindowAction<P>>, bool))
    ensures
        r.1 <==> exists|c: int| first_close(events@, c),
        forall|c: int| first_close(events@, c) ==> r.0@ == actions_for(events@, c),
        !r.1 ==> r.0@ == actions_for(events@, events@.len() as int).push(WindowAction::Draw),
{
    let mut actions: Vec<WindowAction<P>> = Vec::new();
    let mut i: usize = 0;
    while i < events.len()
        invariant
            i <= events@.len(),
            actions@ == actions_for(events@, i as int),
            forall|j: int| 0 <= j < i ==> events@[j] != WindowEvent::<P>::CloseRequested,
        decreases events@.len() - i,
    {
        let a = match events[i] {
            WindowEvent::CloseRequested => {
                proof {
                    assert(first_close(events@, i as int));
                    assert forall|c: int| first_close(events@, c) implies c == i by {
                        if c < i {
                            assert(events@[c] != WindowEvent::<P>::CloseRequested);
                        } else if c > i {
                            assert(events@[i as int] == WindowEvent::<P>::CloseRequested);
                        }
                    }
                }
                return (actions, true);
            },
            WindowEvent::Redraw => Some(WindowAction::Draw),
            WindowEvent::WindowSize(w, h) => Some(WindowAction::SetDimensions(w, h)),
            WindowEvent::CursorPos(p) => Some(WindowAction::SetCursor(p)),
            WindowEvent::FocusChange(f) => Some(WindowAction::SetFocus(f)),
            WindowEvent::Other => None,
        };
        if let Some(a) = a {
            actions.push(a);
        }
        i = i + 1;
    }
    proof {
        assert forall|c: int| !first_close(events@, c) by {
            if 0 <= c < events@.len() {
                assert(events@[c] != WindowEvent::<P>::CloseRequested);
            }
        }
    }
    actions.push(WindowAction::Draw);
    (actions, false)
}

} // verus!
