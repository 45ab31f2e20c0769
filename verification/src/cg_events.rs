//! Which events tell macOS what a mouse or a modifier does.

use vstd::prelude::*;

use crate::input_handling::{
    ModifierState, BTN_EXTRA, BTN_LEFT, BTN_MIDDLE, BTN_RIGHT, BTN_SIDE,
};

verus! {

/// The nanoseconds within which a second click makes a double click.
pub const DOUBLE_CLICK_INTERVAL: u128 = 500_000_000;

/// The number of the middle button in an event.
pub const CG_BUTTON_CENTER: i64 = 2;

/// The number of the back button in an event.
pub const CG_BUTTON_SIDE: i64 = 3;

/// The number of the forward button in an event.
pub const CG_BUTTON_EXTRA: i64 = 4;

/// The buttons that macOS tells apart by the type of an event.
#[derive(Clone, Copy, Debug, PartialEq, Eq, Structural)]
pub enum ButtonClass {
    Left,
    Right,
    Other,
}

/// The type of a mouse event.
#[derive(Clone, Copy, Debug, PartialEq, Eq, Structural)]
pub enum MouseEventType {
    Moved,
    Down(ButtonClass),
    Up(ButtonClass),
    Dragged(ButtonClass),
}

/// A mouse event to post, with the number of the button and the number of
/// clicks where it carries them.
#[derive(Clone, Copy, Debug, PartialEq, Eq, Structural)]
pub struct MousePost {
    pub event_type: MouseEventType,
    pub button: Option<i64>,
    pub clicks: Option<i64>,
}

/// The class and the number of a button, and `None` for one that is not known.
pub open spec fn button_of(code: u32) -> Option<(ButtonClass, Option<i64>)> {
    if code == BTN_LEFT {
        Some((ButtonClass::Left, None))
    } else if code == BTN_RIGHT {
        Some((ButtonClass::Right, None))
    } else if code == BTN_MIDDLE {
        Some((ButtonClass::Other, Some(CG_BUTTON_CENTER)))
    } else if code == BTN_SIDE {
        Some((ButtonClass::Other, Some(CG_BUTTON_SIDE)))
    } else if code == BTN_EXTRA {
        Some((ButtonClass::Other, Some(CG_BUTTON_EXTRA)))
    } else {
        None
    }
}

fn button_class(code: u32) -> (r: Option<(ButtonClass, Option<i64>)>)
    ensures
        r == button_of(code),
{
    if code == BTN_LEFT {
        Some((ButtonClass::Left, None))
    } else if code == BTN_RIGHT {
        Some((ButtonClass::Right, None))
    } else if code == BTN_MIDDLE {
        Some((ButtonClass::Other, Some(CG_BUTTON_CENTER)))
    } else if code == BTN_SIDE {
        Some((ButtonClass::Other, Some(CG_BUTTON_SIDE)))
    } else if code == BTN_EXTRA {
        Some((ButtonClass::Other, Some(CG_BUTTON_EXTRA)))
    } else {
        None
    }
}

/// Follows the button that is held and the clicks that belong together: what
/// the stream of a real mouse carries by itself.
#[derive(Clone, Copy, Debug)]
pub struct ClickTracker {
    pub held: Option<(ButtonClass, Option<i64>)>,
    pub last_button: Option<u32>,
    /// When the last press was, in nanoseconds.
    pub last_time: u128,
    pub clicks: i64,
}

/// A press belongs to the click before it: the same button, soon enough and
/// near enough.
pub open spec fn continues_click(t: ClickTracker, code: u32, now: u128, same_spot: bool) -> bool {
    t.last_button == Some(code) && now - t.last_time <= DOUBLE_CLICK_INTERVAL && same_spot
}

/// The number of clicks with one more, around the end of its range.
pub open spec fn one_more_click(clicks: i64) -> i64 {
    if clicks == i64::MAX {
        i64::MIN
    } else {
        (clicks + 1) as i64
    }
}

/// The tracker behind a press or a release of a known button.
pub open spec fn tracker_after(
    t: ClickTracker,
    code: u32,
    pressed: bool,
    now: u128,
    same_spot: bool,
) -> ClickTracker {
    if button_of(code) is None {
        t
    } else if pressed {
        ClickTracker {
            held: button_of(code),
            last_button: Some(code),
            last_time: now,
            clicks: if continues_click(t, code, now, same_spot) {
                one_more_click(t.clicks)
            } else {
                1
            },
        }
    } else {
        ClickTracker { held: None, ..t }
    }
}

/// The event for a press or a release. A release counts as many clicks as the
/// press.
pub open spec fn button_post(
    t: ClickTracker,
    code: u32,
    pressed: bool,
    now: u128,
    same_spot: bool,
) -> Option<MousePost> {
    match button_of(code) {
        Some((class, number)) => Some(
            MousePost {
                event_type: if pressed {
                    MouseEventType::Down(class)
                } else {
                    MouseEventType::Up(class)
                },
                button: number,
                clicks: Some(tracker_after(t, code, pressed, now, same_spot).clicks),
            },
        ),
        None => None,
    }
}

/// The event for a move: a drag while a button is held.
pub open spec fn move_post(t: ClickTracker) -> MousePost {
    match t.held {
        Some((class, number)) => MousePost {
            event_type: MouseEventType::Dragged(class),
            button: number,
            clicks: None,
        },
        None => MousePost { event_type: MouseEventType::Moved, button: None, clicks: None },
    }
}

impl ClickTracker {
    /// A tracker that has seen no click.
    pub fn new(now: u128) -> (r: Self)
        ensures
            r == (ClickTracker { held: None, last_button: None, last_time: now, clicks: 1 }),
    {
        ClickTracker { held: None, last_button: None, last_time: now, clicks: 1 }
    }

    /// The event to post for a move.
    pub fn moved(&self) -> (r: MousePost)
        ensures
            r == move_post(*self),
    {
        match self.held {
            Some((class, number)) => MousePost {
                event_type: MouseEventType::Dragged(class),
                button: number,
                clicks: None,
            },
            None => MousePost { event_type: MouseEventType::Moved, button: None, clicks: None },
        }
    }

    /// The event to post for a press or a release at `now`, and `None` for a
    /// button that is not known. `same_spot` says whether the cursor is near
    /// the last press.
    pub fn button(&mut self, code: u32, pressed: bool, now: u128, same_spot: bool) -> (r: Option<
        MousePost,
    >)
        ensures
            r == button_post(*old(self), code, pressed, now, same_spot),
            *final(self) == tracker_after(*old(self), code, pressed, now, same_spot),
    {
        match button_class(code) {
            Some((class, number)) => {
                let event_type: MouseEventType = if pressed {
                    let continues: bool = self.last_button == Some(code) && (now <= self.last_time
                        || now - self.last_time <= DOUBLE_CLICK_INTERVAL) && same_spot;
                    self.clicks = if !continues {
                        1
                    } else if self.clicks == i64::MAX {
                        i64::MIN
                    } else {
                        self.clicks + 1
                    };
                    self.last_button = Some(code);
                    self.last_time = now;
                    self.held = Some((class, number));
                    MouseEventType::Down(class)
                } else {
                    self.held = None;
                    MouseEventType::Up(class)
                };
                Some(MousePost { event_type, button: number, clicks: Some(self.clicks) })
            },
            None => None,
        }
    }
}

/// Two clicks of one button in the same spot, soon after each other, are a
/// double click; a click that comes too late, elsewhere or with another button
/// starts anew.
pub proof fn quick_clicks_add_up(
    t: ClickTracker,
    first: u32,
    second: u32,
    start: u128,
    released: u128,
    now: u128,
    same_spot: bool,
)
    requires
        button_of(first) is Some,
        button_of(second) is Some,
    ensures
        ({
            let pressed = tracker_after(t, first, true, start, false);
            let up = tracker_after(pressed, first, false, released, false);
            &&& pressed.clicks == 1
            &&& button_post(up, second, true, now, same_spot)->0.clicks == if first == second && now
                - start <= DOUBLE_CLICK_INTERVAL && same_spot {
                Some(2i64)
            } else {
                Some(1i64)
            }
        }),
{
}

/// A move between a press and its release is a drag of that button, and one
/// behind the release is a plain move.
pub proof fn held_buttons_drag(
    t: ClickTracker,
    code: u32,
    now: u128,
    later: u128,
    same_spot: bool,
)
    requires
        button_of(code) is Some,
    ensures
        ({
            let down = tracker_after(t, code, true, now, same_spot);
            let up = tracker_after(down, code, false, later, same_spot);
            &&& move_post(down).event_type == MouseEventType::Dragged((button_of(code)->0).0)
            &&& move_post(up).event_type == MouseEventType::Moved
        }),
{
}

/// The modifiers that an event carries.
#[derive(Clone, Copy, Debug, PartialEq, Eq, Structural)]
pub struct EventFlags {
    pub shift: bool,
    pub control: bool,
    pub alternate: bool,
    pub command: bool,
}

/// The modifiers that events carry while those of `state` are held. macOS
/// reaches the third level of a layout by the option key.
pub open spec fn flags_for(state: ModifierState) -> EventFlags {
    EventFlags {
        shift: state.shift,
        control: state.ctrl,
        alternate: state.alt || state.level3,
        command: state.super_,
    }
}

/// The modifiers that events carry from now on.
pub fn event_flags(state: ModifierState) -> (r: EventFlags)
    ensures
        r == flags_for(state),
        r == (EventFlags {
            shift: state.shift,
            control: state.ctrl,
            alternate: state.alt || state.level3,
            command: state.super_,
        }),
{
    EventFlags {
        shift: state.shift,
        control: state.ctrl,
        alternate: state.alt || state.level3,
        command: state.super_,
    }
}

/// Shift, Ctrl and Win, each by itself, hold Shift, Control and Command; Alt
/// and AltGr both hold Option; and what several of them hold is what each of
/// them holds.
pub proof fn modifiers_keep_their_meaning(a: ModifierState, b: ModifierState)
    ensures
        flags_for(a).shift != flags_for(b).shift <==> a.shift != b.shift,
        flags_for(a).control != flags_for(b).control <==> a.ctrl != b.ctrl,
        flags_for(a).command != flags_for(b).command <==> a.super_ != b.super_,
        a.shift ==> flags_for(a).shift,
        a.ctrl ==> flags_for(a).control,
        a.super_ ==> flags_for(a).command,
        flags_for(a).alternate <==> !(!a.alt && !a.level3),
{
}

/// Left and right have types of their own, without a number; the other three
/// share a type and are numbered 2 to 4. A press posts a press and a release a
/// release.
pub proof fn buttons_keep_their_type(
    t: ClickTracker,
    pressed: bool,
    now: u128,
    same_spot: bool,
    i: int,
)
    requires
        0 <= i < 5,
    ensures
        ({
            let post = button_post(t, (0x110 + i) as u32, pressed, now, same_spot);
            let class = if i == 0 {
                ButtonClass::Left
            } else if i == 1 {
                ButtonClass::Right
            } else {
                ButtonClass::Other
            };
            &&& post is Some
            &&& pressed ==> (post->0).event_type == MouseEventType::Down(class)
            &&& !pressed ==> (post->0).event_type == MouseEventType::Up(class)
            &&& i < 2 ==> (post->0).button is None
            &&& i >= 2 ==> (post->0).button == Some(i as i64)
        }),
{
}

/// A button that is not known posts nothing and changes nothing.
pub proof fn unknown_buttons_do_nothing(
    t: ClickTracker,
    code: u32,
    pressed: bool,
    now: u128,
    same_spot: bool,
)
    requires
        code < 0x110 || code > 0x114,
    ensures
        button_post(t, code, pressed, now, same_spot) is None,
        tracker_after(t, code, pressed, now, same_spot) == t,
{
}

/// A press counts one more than the press before it where it is of the same
/// button, within half a second and in the same spot, and starts at one
/// otherwise. Its release counts what it counted.
pub proof fn presses_are_counted(
    t: ClickTracker,
    code: u32,
    now: u128,
    later: u128,
    same_spot: bool,
    moved: bool,
)
    requires
        0x110 <= code <= 0x114,
        t.clicks < i64::MAX,
    ensures
        ({
            let down = button_post(t, code, true, now, same_spot)->0;
            let held = tracker_after(t, code, true, now, same_spot);
            let up = button_post(held, code, false, later, moved)->0;
            let near = same_spot && t.last_button == Some(code) && now - t.last_time
                <= 500_000_000;
            &&& down.clicks == Some(
                if near {
                    (t.clicks + 1) as i64
                } else {
                    1i64
                },
            )
            &&& up.clicks == down.clicks
            &&& held.last_button == Some(code)
            &&& held.last_time == now
        }),
{
}

/// A release is no press: it changes neither the count nor what the next press
/// is held against.
pub proof fn releases_are_not_counted(
    t: ClickTracker,
    code: u32,
    now: u128,
    same_spot: bool,
)
    ensures
        ({
            let up = tracker_after(t, code, false, now, same_spot);
            &&& up.clicks == t.clicks
            &&& up.last_button == t.last_button
            &&& up.last_time == t.last_time
        }),
{
}

/// A drag carries the type and the number of the button that is held, and
/// neither a drag nor a move counts clicks.
pub proof fn drags_name_their_button(
    t: ClickTracker,
    code: u32,
    now: u128,
    same_spot: bool,
)
    requires
        0x110 <= code <= 0x114,
    ensures
        ({
            let held = tracker_after(t, code, true, now, same_spot);
            let down = button_post(t, code, true, now, same_spot)->0;
            &&& move_post(held).button == down.button
            &&& match down.event_type {
                MouseEventType::Down(class) => move_post(held).event_type
                    == MouseEventType::Dragged(class),
                _ => false,
            }
            &&& move_post(t).clicks is None
            &&& t.held is None ==> move_post(t).button is None
        }),
{
}

} // verus!
