use vstd::prelude::*;
use crate::future::FutureState;
use crate::signals::Signal;

verus! {

/// The payload of a widget element. Each drawable widget holds the signal of
/// what it draws, derived from the signals it was built from.
#[derive(Clone, Copy, PartialEq, Eq, Structural, Debug)]
pub enum Widget {
    Rectangle(Signal),
    Text(Signal),
    Image(Signal),
    Svg(Signal),
    Interact(Interact),
}

/// An invisible widget that turns pointer events into hover and click state.
#[derive(Clone, Copy, PartialEq, Eq, Structural, Debug)]
pub struct Interact {}

/// The builder of the root, which is never built as a widget of its own.
#[derive(Clone, Copy, PartialEq, Eq, Structural, Debug)]
pub struct RootBuilder {}

impl Widget {
    /// The signal of what the widget draws, if it draws anything.
    pub fn get_objects(&self) -> (r: Option<Signal>)
        ensures
            self is Interact ==> r is None,
            self is Rectangle ==> r == Some(self->Rectangle_0),
            self is Text ==> r == Some(self->Text_0),
            self is Image ==> r == Some(self->Image_0),
            self is Svg ==> r == Some(self->Svg_0),
    {
        match self {
            Widget::Rectangle(s) => Some(*s),
            Widget::Text(s) => Some(*s),
            Widget::Image(s) => Some(*s),
            Widget::Svg(s) => Some(*s),
            Widget::Interact(_) => None,
        }
    }

    /// How many children the widget expects: none for text, one otherwise.
    pub fn expected_children(&self) -> (r: usize)
        ensures
            r == if self is Text {
                0usize
            } else {
                1usize
            },
    {
        match self {
            Widget::Text(_) => 0,
            _ => 1,
        }
    }
}

/// Whether the point `(tx, ty)` lies strictly inside the rectangle with corner
/// `(x, y)` and the given size; the size is read as a signed 32-bit number.
pub fn is_within(x: i32, y: i32, width: u32, height: u32, tx: i32, ty: i32) -> (r: bool)
    ensures
        r == (tx > x && ty > y && tx < x + (width as i32) && ty < y + (height as i32)),
{
    let w = width as i32;
    let h = height as i32;
    let right: i64 = x as i64 + w as i64;
    let bottom: i64 = y as i64 + h as i64;
    tx > x && ty > y && (tx as i64) < right && (ty as i64) < bottom
}

/// The pointer state of an interact widget.
#[derive(Clone, Copy, PartialEq, Eq, Structural, Debug)]
pub struct InteractState {
    pub hovered: bool,
    pub click_left: bool,
    pub click_right: bool,
    pub click_middle: bool,
}

/// The area of an interact widget.
#[derive(Clone, Copy, PartialEq, Eq, Structural, Debug)]
pub struct Area {
    pub x: i32,
    pub y: i32,
    pub width: u32,
    pub height: u32,
}

/// A pointer event of the window: the cursor moved to a point, or a button
/// went down (`true`) or up (`false`).
#[derive(Clone, Copy, PartialEq, Eq, Structural, Debug)]
pub enum InteractEvent {
    Cursor(i32, i32),
    Left(bool),
    Right(bool),
    Middle(bool),
}

/// What an event does: the new state, and which callbacks to run. `drag`
/// asks for the drag slot to be invoked with the cursor position.
#[derive(Clone, Copy, PartialEq, Eq, Structural, Debug)]
pub struct InteractOutcome {
    pub state: InteractState,
    pub clicked: bool,
    pub right_clicked: bool,
    pub drag: bool,
}

/// Whether a point lies strictly inside an area.
pub open spec fn inside(a: Area, tx: i32, ty: i32) -> bool {
    tx > a.x && ty > a.y && tx < a.x + (a.width as i32) && ty < a.y + (a.height as i32)
}

/// The rules of an interact widget. Moving the cursor sets `hovered` to
/// whether it is inside the area, and drags while the left button is held.
/// A button goes down only over the widget; the left one then starts a drag.
/// The left button going up over the widget after going down on it is a
/// click; the right button is a click as it goes down. A button that goes up
/// is released wherever the cursor is.
pub open spec fn interact_spec(s: InteractState, a: Area, e: InteractEvent) -> InteractOutcome {
    match e {
        InteractEvent::Cursor(tx, ty) => InteractOutcome {
            state: InteractState { hovered: inside(a, tx, ty), ..s },
            clicked: false,
            right_clicked: false,
            drag: s.click_left,
        },
        InteractEvent::Left(down) => if down {
            InteractOutcome {
                state: InteractState { click_left: s.click_left || s.hovered, ..s },
                clicked: false,
                right_clicked: false,
                drag: s.hovered,
            }
        } else {
            InteractOutcome {
                state: InteractState { click_left: false, ..s },
                clicked: s.click_left && s.hovered,
                right_clicked: false,
                drag: false,
            }
        },
        InteractEvent::Right(down) => if down {
            InteractOutcome {
                state: InteractState { click_right: s.click_right || s.hovered, ..s },
                clicked: false,
                right_clicked: s.hovered,
                drag: false,
            }
        } else {
            InteractOutcome {
                state: InteractState { click_right: false, ..s },
                clicked: false,
                right_clicked: false,
                drag: false,
            }
        },
        InteractEvent::Middle(down) => if down {
            InteractOutcome {
                state: InteractState { click_middle: s.click_middle || s.hovered, ..s },
                clicked: false,
                right_clicked: false,
                drag: false,
            }
        } else {
            InteractOutcome {
                state: InteractState { click_middle: false, ..s },
                clicked: false,
                right_clicked: false,
                drag: false,
            }
        },
    }
}

impl Interact {
    /// Applies one pointer event to the state of an interact widget over `area`.
    pub fn handle(state: InteractState, area: Area, event: InteractEvent) -> (r: InteractOutcome)
        ensures
            r == interact_spec(state, area, event),
    {
        let mut next = state;
        let mut clicked = false;
        let mut right_clicked = false;
        let mut drag = false;
        match event {
            InteractEvent::Cursor(tx, ty) => {
                next.hovered = is_within(area.x, area.y, area.width, area.height, tx, ty);
                drag = state.click_left;
            },
            InteractEvent::Left(down) => {
                if down {
                    if state.hovered {
                        next.click_left = true;
                        drag = true;
                    }
                } else {
                    if state.click_left && state.hovered {
                        clicked = true;
                    }
                    next.click_left = false;
                }
            },
            InteractEvent::Right(down) => {
                if down {
                    if state.hovered {
                        next.click_right = true;
                        right_clicked = true;
                    }
                } else {
                    next.click_right = false;
                }
            },
            InteractEvent::Middle(down) => {
                if down {
                    if state.hovered {
                        next.click_middle = true;
                    }
                } else {
                    next.click_middle = false;
                }
            },
        }
        InteractOutcome { state: next, clicked, right_clicked, drag }
    }
}

/// The color of the placeholder drawn while an image is still loading.
pub const LOADING_COLOR: u32 = 0x57595C66;

/// Something for the renderer to draw: a filled rectangle or a decoded image
/// of type `I`, at a position and with a size.
#[derive(Clone, Copy, PartialEq, Eq, Structural, Debug)]
pub enum Drawable<I> {
    Rectangle { x: i32, y: i32, width: u32, height: u32, color: u32 },
    Image { x: i32, y: i32, width: u32, height: u32, image: I },
}

/// The loading placeholder over `area`.
pub open spec fn placeholder<I>(area: Area) -> Drawable<I> {
    Drawable::Rectangle {
        x: area.x,
        y: area.y,
        width: area.width,
        height: area.height,
        color: LOADING_COLOR,
    }
}

/// Image `img` drawn over `area`.
pub open spec fn image_at<I>(area: Area, img: I) -> Drawable<I> {
    Drawable::Image { x: area.x, y: area.y, width: area.width, height: area.height, image: img }
}

/// What an image widget draws: the loading placeholder while its decoding
/// runs, the decoded image once it completed.
pub fn image_object<I: Copy>(area: Area, state: &FutureState<I>) -> (r: Drawable<I>)
    ensures
        *state == FutureState::<I>::Running ==> r == placeholder::<I>(area),
        forall|img: I| *state == FutureState::Completed(img) ==> r == image_at(area, img),
{
    match state {
        FutureState::Running => Drawable::Rectangle {
            x: area.x,
            y: area.y,
            width: area.width,
            height: area.height,
            color: LOADING_COLOR,
        },
        FutureState::Completed(image) => Drawable::Image {
            x: area.x,
            y: area.y,
            width: area.width,
            height: area.height,
            image: *image,
        },
    }
}

} // verus!
