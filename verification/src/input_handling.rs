//! From the numbers in mouse and keyboard packages to what a machine is to do.

use std::collections::{HashSet, VecDeque};
use std::time::{Duration, Instant};
use vstd::prelude::*;

use crate::vk_keycode;

verus! {

broadcast use vstd::std_specs::hash::group_hash_axioms;

// The window messages in the flags of a mouse package.
pub const WM_MOUSEMOVE: u32 = 0x0200;
pub const WM_LBUTTONDOWN: u32 = 0x0201;
pub const WM_LBUTTONUP: u32 = 0x0202;
pub const WM_RBUTTONDOWN: u32 = 0x0204;
pub const WM_RBUTTONUP: u32 = 0x0205;
pub const WM_MBUTTONDOWN: u32 = 0x0207;
pub const WM_MBUTTONUP: u32 = 0x0208;
pub const WM_MOUSEWHEEL: u32 = 0x020A;
pub const WM_XBUTTONDOWN: u32 = 0x020B;
pub const WM_XBUTTONUP: u32 = 0x020C;
pub const WM_MOUSEHWHEEL: u32 = 0x020E;

// The evdev codes of the mouse buttons.
pub const BTN_LEFT: u32 = 0x110;
pub const BTN_RIGHT: u32 = 0x111;
pub const BTN_MIDDLE: u32 = 0x112;
pub const BTN_SIDE: u32 = 0x113;
pub const BTN_EXTRA: u32 = 0x114;

/// The bit in the flags of a keyboard package that marks a release.
pub const LLKHF_UP: u32 = 0x80;

pub const VK_NUMLOCK: u32 = 0x90;
pub const VK_L: u32 = 0x4C;
pub const VK_LWIN: u32 = 0x5B;
pub const VK_RWIN: u32 = 0x5C;

/// The nanoseconds that the keys of a lock combination may spread over.
pub const LOCK_COMBO_WINDOW: u128 = 150_000_000;

/// How many key events the lock detector remembers.
pub const LOCK_COMBO_EVENTS: usize = 8;

/// Which modifiers are held.
#[derive(Clone, Copy, Debug, PartialEq, Eq, Structural)]
pub struct ModifierState {
    pub shift: bool,
    pub ctrl: bool,
    pub alt: bool,
    pub super_: bool,
    /// AltGr, which reaches the third level of a layout.
    pub level3: bool,
}

/// No modifier is held.
pub open spec fn no_modifiers() -> ModifierState {
    ModifierState { shift: false, ctrl: false, alt: false, super_: false, level3: false }
}

impl Default for ModifierState {
    fn default() -> (r: Self)
        ensures
            r == no_modifiers(),
    {
        ModifierState { shift: false, ctrl: false, alt: false, super_: false, level3: false }
    }
}

/// One thing that a machine is told to do.
#[derive(Clone, Copy, Debug, PartialEq, Eq, Structural)]
pub enum InputAction {
    Move { x: u32, y: u32, x_extent: u32, y_extent: u32 },
    Button { code: u32, pressed: bool },
    /// By so many 120ths of a wheel click, downwards.
    ScrollVertical { delta: i32 },
    /// By so many 120ths of a wheel click, to the right.
    ScrollHorizontal { delta: i32 },
    Key { code: u32, pressed: bool },
    Modifiers { state: ModifierState, numlock: bool },
}

/// What carries actions out on a machine. Buttons and keys have evdev codes.
pub trait InputSink {
    /// All that was carried out so far. It is there for contracts alone, and a
    /// sink of which nothing is to be proved need not say what it is.
    open spec fn log(&self) -> Seq<InputAction> {
        arbitrary()
    }

    fn move_absolute(&mut self, x: u32, y: u32, x_extent: u32, y_extent: u32)
        ensures
            final(self).log() == old(self).log().push(
                (InputAction::Move { x, y, x_extent, y_extent }),
            ),
    ;

    fn button(&mut self, button_code: u32, pressed: bool)
        ensures
            final(self).log() == old(self).log().push(
                (InputAction::Button { code: button_code, pressed }),
            ),
    ;

    fn scroll_vertical(&mut self, delta: i32)
        ensures
            final(self).log() == old(self).log().push((InputAction::ScrollVertical { delta })),
    ;

    fn scroll_horizontal(&mut self, delta: i32)
        ensures
            final(self).log() == old(self).log().push((InputAction::ScrollHorizontal { delta })),
    ;

    fn key(&mut self, evdev_code: u32, pressed: bool)
        ensures
            final(self).log() == old(self).log().push(
                (InputAction::Key { code: evdev_code, pressed }),
            ),
    ;

    /// Called before the key that changes the modifiers, and with `numlock`
    /// before every keypad key: the machine is to read it as a number,
    /// whatever its own lock says.
    fn modifiers(&mut self, state: ModifierState, numlock: bool)
        ensures
            final(self).log() == old(self).log().push((InputAction::Modifiers { state, numlock })),
    ;
}

/// A sink that keeps the actions in order.
pub struct RecordedInput {
    pub actions: Vec<InputAction>,
}

impl RecordedInput {
    pub fn new() -> (r: Self)
        ensures
            r.log() == Seq::<InputAction>::empty(),
    {
        RecordedInput { actions: Vec::new() }
    }
}

impl InputSink for RecordedInput {
    open spec fn log(&self) -> Seq<InputAction> {
        self.actions@
    }

    fn move_absolute(&mut self, x: u32, y: u32, x_extent: u32, y_extent: u32) {
        self.actions.push(InputAction::Move { x, y, x_extent, y_extent });
    }

    fn button(&mut self, button_code: u32, pressed: bool) {
        self.actions.push(InputAction::Button { code: button_code, pressed });
    }

    fn scroll_vertical(&mut self, delta: i32) {
        self.actions.push(InputAction::ScrollVertical { delta });
    }

    fn scroll_horizontal(&mut self, delta: i32) {
        self.actions.push(InputAction::ScrollHorizontal { delta });
    }

    fn key(&mut self, evdev_code: u32, pressed: bool) {
        self.actions.push(InputAction::Key { code: evdev_code, pressed });
    }

    fn modifiers(&mut self, state: ModifierState, numlock: bool) {
        self.actions.push(InputAction::Modifiers { state, numlock });
    }
}

/// The number that 32 bits stand for in two's complement.
pub open spec fn signed_32(v: u32) -> int {
    if v < 0x8000_0000 {
        v as int
    } else {
        v - 0x1_0000_0000
    }
}

/// The number that the low 16 bits stand for in two's complement.
pub open spec fn signed_low_16(v: u32) -> int {
    let low = v as int % 0x1_0000;
    if low < 0x8000 {
        low
    } else {
        low - 0x1_0000
    }
}

/// A coordinate, brought back between 0 and 65535. A cursor that overshoots an
/// edge gives a small negative one.
pub open spec fn clamped(v: int) -> u32 {
    if v < 0 {
        0
    } else if v > 65535 {
        65535
    } else {
        v as u32
    }
}

/// The extra button that a mouse package names.
pub open spec fn extra_button(m3: u32) -> u32 {
    if m3 == 2 {
        BTN_EXTRA
    } else {
        BTN_SIDE
    }
}

/// What a mouse package asks for. Windows counts a wheel upwards, a sink
/// downwards.
pub open spec fn mouse_actions(m1: u32, m2: u32, m3: u32, flags: u32) -> Seq<InputAction> {
    if flags == WM_MOUSEMOVE {
        seq![
            InputAction::Move {
                x: clamped(signed_32(m1)),
                y: clamped(signed_32(m2)),
                x_extent: 65535,
                y_extent: 65535,
            },
        ]
    } else if flags == WM_LBUTTONDOWN || flags == WM_LBUTTONUP {
        seq![InputAction::Button { code: BTN_LEFT, pressed: flags == WM_LBUTTONDOWN }]
    } else if flags == WM_RBUTTONDOWN || flags == WM_RBUTTONUP {
        seq![InputAction::Button { code: BTN_RIGHT, pressed: flags == WM_RBUTTONDOWN }]
    } else if flags == WM_MBUTTONDOWN || flags == WM_MBUTTONUP {
        seq![InputAction::Button { code: BTN_MIDDLE, pressed: flags == WM_MBUTTONDOWN }]
    } else if flags == WM_MOUSEWHEEL {
        seq![InputAction::ScrollVertical { delta: -signed_low_16(m3) as i32 }]
    } else if flags == WM_MOUSEHWHEEL {
        seq![InputAction::ScrollHorizontal { delta: signed_low_16(m3) as i32 }]
    } else if flags == WM_XBUTTONDOWN || flags == WM_XBUTTONUP {
        seq![InputAction::Button { code: extra_button(m3), pressed: flags == WM_XBUTTONDOWN }]
    } else {
        Seq::empty()
    }
}

fn clamp_coordinate(m: u32) -> (r: u32)
    ensures
        r == clamped(signed_32(m)),
{
    if m >= 0x8000_0000 {
        0
    } else if m > 65535 {
        65535
    } else {
        m
    }
}

fn wheel_delta(m3: u32) -> (r: i32)
    ensures
        r == signed_low_16(m3),
        -0x8000 <= r < 0x8000,
{
    let low: i32 = (m3 % 0x1_0000) as i32;
    if low < 0x8000 {
        low
    } else {
        low - 0x1_0000
    }
}

fn extra_button_code(m3: u32) -> (r: u32)
    ensures
        r == extra_button(m3),
{
    if m3 == 2 {
        BTN_EXTRA
    } else {
        BTN_SIDE
    }
}

/// Hands one mouse package on to the sink. A wheel moves by its delta, in
/// 120ths of a click.
pub fn handle_mouse<S: InputSink>(sink: &mut S, m1: u32, m2: u32, m3: u32, flags: u32)
    ensures
        final(sink).log() == old(sink).log() + mouse_actions(m1, m2, m3, flags),
{
    let ghost before = sink.log();
    if flags == WM_MOUSEMOVE {
        sink.move_absolute(clamp_coordinate(m1), clamp_coordinate(m2), 65535, 65535);
    } else if flags == WM_LBUTTONDOWN {
        sink.button(BTN_LEFT, true);
    } else if flags == WM_LBUTTONUP {
        sink.button(BTN_LEFT, false);
    } else if flags == WM_RBUTTONDOWN {
        sink.button(BTN_RIGHT, true);
    } else if flags == WM_RBUTTONUP {
        sink.button(BTN_RIGHT, false);
    } else if flags == WM_MBUTTONDOWN {
        sink.button(BTN_MIDDLE, true);
    } else if flags == WM_MBUTTONUP {
        sink.button(BTN_MIDDLE, false);
    } else if flags == WM_MOUSEWHEEL {
        sink.scroll_vertical(-wheel_delta(m3));
    } else if flags == WM_MOUSEHWHEEL {
        sink.scroll_horizontal(wheel_delta(m3));
    } else if flags == WM_XBUTTONDOWN {
        sink.button(extra_button_code(m3), true);
    } else if flags == WM_XBUTTONUP {
        sink.button(extra_button_code(m3), false);
    }
    assert(sink.log() =~= before + mouse_actions(m1, m2, m3, flags));
}

/// Every move stays on the screen.
pub proof fn moves_stay_on_screen(m1: u32, m2: u32, m3: u32, flags: u32)
    ensures
        forall|i: int|
            0 <= i < mouse_actions(m1, m2, m3, flags).len() ==> match #[trigger] mouse_actions(
                m1,
                m2,
                m3,
                flags,
            )[i] {
                InputAction::Move { x, y, x_extent, y_extent } => x <= x_extent && y <= y_extent,
                _ => true,
            },
{
}

pub open spec fn is_modifier(vk: u32) -> bool {
    vk == 0x10 || vk == 0xA0 || vk == 0xA1 || vk == 0x11 || vk == 0xA2 || vk == 0xA3 || vk == 0x12
        || vk == 0xA4 || vk == 0xA5 || vk == VK_LWIN || vk == VK_RWIN
}

/// The modifiers behind a key event. Windows reports AltGr as a Ctrl that
/// nobody pressed, followed by the right Alt: that Ctrl is taken back.
pub open spec fn modifiers_after(state: ModifierState, vk: u32, pressed: bool) -> ModifierState {
    if vk == 0x10 || vk == 0xA0 || vk == 0xA1 {
        ModifierState { shift: pressed, ..state }
    } else if vk == 0x11 || vk == 0xA2 || vk == 0xA3 {
        ModifierState { ctrl: pressed, ..state }
    } else if vk == 0x12 || vk == 0xA4 {
        ModifierState { alt: pressed, ..state }
    } else if vk == 0xA5 {
        ModifierState { ctrl: false, level3: pressed, ..state }
    } else if vk == VK_LWIN || vk == VK_RWIN {
        ModifierState { super_: pressed, ..state }
    } else {
        state
    }
}

/// The modifiers, followed from key to key.
pub struct ModState {
    pub state: ModifierState,
}

impl ModState {
    pub fn new() -> (r: Self)
        ensures
            r.state == no_modifiers(),
    {
        ModState { state: ModifierState::default() }
    }

    /// Takes a key event in and says whether it was a modifier.
    pub fn update(&mut self, vk: u32, pressed: bool) -> (r: bool)
        ensures
            final(self).state == modifiers_after(old(self).state, vk, pressed),
            r == is_modifier(vk),
    {
        match vk {
            0x10 | 0xA0 | 0xA1 => {
                self.state.shift = pressed;
                true
            },
            0x11 | 0xA2 | 0xA3 => {
                self.state.ctrl = pressed;
                true
            },
            0x12 | 0xA4 => {
                self.state.alt = pressed;
                true
            },
            0xA5 => {
                self.state.ctrl = false;
                self.state.level3 = pressed;
                true
            },
            0x5B | 0x5C => {
                self.state.super_ = pressed;
                true
            },
            _ => false,
        }
    }
}

/// The modifiers and the keys that are held.
pub ghost struct KeyboardModel {
    pub mods: ModifierState,
    pub pressed: Set<u32>,
}

pub open spec fn is_press(flags: u32) -> bool {
    flags / LLKHF_UP % 2 == 0
}

pub open spec fn is_keypad_key(vk: u32) -> bool {
    0x60 <= vk <= 0x6F
}

/// The modifiers that a keyboard package has a sink told about.
pub open spec fn modifier_actions(mods: ModifierState, vk: u32) -> Seq<InputAction> {
    if is_modifier(vk) {
        seq![InputAction::Modifiers { state: mods, numlock: false }]
    } else if is_keypad_key(vk) {
        seq![InputAction::Modifiers { state: mods, numlock: true }]
    } else {
        Seq::empty()
    }
}

/// What a keyboard package asks for. A press of a key that is held already is
/// the repetition of Windows and is left out; a release always goes through.
/// Num Lock is never handed on.
pub open spec fn keyboard_actions(before: KeyboardModel, vk: u32, flags: u32) -> Seq<InputAction> {
    match vk_keycode::forwarded_code(vk) {
        Some(code) if vk != VK_NUMLOCK => modifier_actions(
            modifiers_after(before.mods, vk, is_press(flags)),
            vk,
        ) + (if is_press(flags) && before.pressed.contains(code) {
            Seq::empty()
        } else {
            seq![InputAction::Key { code, pressed: is_press(flags) }]
        }),
        _ => Seq::empty(),
    }
}

/// The keyboard behind a keyboard package.
pub open spec fn keyboard_after(before: KeyboardModel, vk: u32, flags: u32) -> KeyboardModel {
    if vk == VK_NUMLOCK {
        before
    } else {
        KeyboardModel {
            mods: modifiers_after(before.mods, vk, is_press(flags)),
            pressed: match vk_keycode::forwarded_code(vk) {
                Some(code) => if is_press(flags) {
                    before.pressed.insert(code)
                } else {
                    before.pressed.remove(code)
                },
                None => before.pressed,
            },
        }
    }
}

/// What a connection remembers of the keyboard.
pub struct KeyboardState {
    mods: ModState,
    pressed_keys: HashSet<u32>,
}

impl View for KeyboardState {
    type V = KeyboardModel;

    closed spec fn view(&self) -> KeyboardModel {
        KeyboardModel { mods: self.mods.state, pressed: self.pressed_keys@ }
    }
}

/// Nothing is held.
pub open spec fn idle_keyboard() -> KeyboardModel {
    KeyboardModel { mods: no_modifiers(), pressed: Set::empty() }
}

impl KeyboardState {
    pub fn new() -> (r: Self)
        ensures
            r@ == idle_keyboard(),
    {
        KeyboardState { mods: ModState::new(), pressed_keys: HashSet::new() }
    }
}

impl Default for KeyboardState {
    fn default() -> (r: Self)
        ensures
            r@ == idle_keyboard(),
    {
        KeyboardState::new()
    }
}

/// Whether the flags of a keyboard package tell of a press.
pub fn is_key_press(flags: u32) -> (r: bool)
    ensures
        r == is_press(flags),
{
    flags / LLKHF_UP % 2 == 0
}

/// Hands one keyboard package on to the sink.
pub fn handle_keyboard<S: InputSink>(sink: &mut S, state: &mut KeyboardState, vk: u32, flags: u32)
    ensures
        final(sink).log() == old(sink).log() + keyboard_actions(old(state)@, vk, flags),
        final(state)@ == keyboard_after(old(state)@, vk, flags),
{
    let ghost log = sink.log();
    let ghost before = state@;
    if vk == VK_NUMLOCK {
        assert(log + keyboard_actions(before, vk, flags) =~= log);
        return;
    }
    let pressed: bool = is_key_press(flags);
    let is_mod: bool = state.mods.update(vk, pressed);
    let code: u32 = match vk_keycode::vk_to_evdev(vk) {
        Some(code) => code,
        None => match vk_keycode::keypad_to_evdev(vk) {
            Some(code) => code,
            None => {
                assert(log + keyboard_actions(before, vk, flags) =~= log);
                return;
            },
        },
    };
    if is_mod {
        sink.modifiers(state.mods.state, false);
    } else if 0x60 <= vk && vk <= 0x6F {
        sink.modifiers(state.mods.state, true);
    }
    assert(sink.log() =~= log + modifier_actions(state.mods.state, vk));
    if pressed {
        if !state.pressed_keys.insert(code) {
            assert(sink.log() =~= log + keyboard_actions(before, vk, flags));
            return;
        }
    } else {
        state.pressed_keys.remove(&code);
        assert(state.pressed_keys@ =~= before.pressed.remove(code));
    }
    sink.key(code, pressed);
    assert(sink.log() =~= log + keyboard_actions(before, vk, flags));
}

/// Num Lock is never handed on and changes nothing: the locks of two machines
/// are not in step.
pub proof fn num_lock_is_never_forwarded(before: KeyboardModel, flags: u32)
    ensures
        keyboard_actions(before, VK_NUMLOCK, flags).len() == 0,
        keyboard_after(before, VK_NUMLOCK, flags) == before,
{
}

/// A key that is held is not pressed again, however often Windows repeats it.
pub proof fn repeats_are_dropped(before: KeyboardModel, vk: u32, flags: u32, again: u32)
    requires
        is_press(flags),
        is_press(again),
    ensures
        forall|i: int|
            0 <= i < keyboard_actions(keyboard_after(before, vk, flags), vk, again).len() ==> !(
            #[trigger] keyboard_actions(keyboard_after(before, vk, flags), vk, again)[i] is Key),
        keyboard_after(keyboard_after(before, vk, flags), vk, again) == keyboard_after(
            before,
            vk,
            flags,
        ),
{
    let once = keyboard_after(before, vk, flags);
    assert(keyboard_after(once, vk, again).pressed =~= once.pressed);
}

/// A release always goes through, whether or not the press was seen: no key
/// can be left stuck.
pub proof fn releases_always_go_through(before: KeyboardModel, vk: u32, flags: u32)
    requires
        !is_press(flags),
        vk != VK_NUMLOCK,
        vk_keycode::forwarded_code(vk) is Some,
    ensures
        keyboard_actions(before, vk, flags).len() > 0,
        keyboard_actions(before, vk, flags).last() == (InputAction::Key {
            code: vk_keycode::forwarded_code(vk)->0,
            pressed: false,
        }),
        !keyboard_after(before, vk, flags).pressed.contains(vk_keycode::forwarded_code(vk)->0),
{
}

/// A key that was up is up again behind a press and a release, and no other
/// key has moved.
pub proof fn press_and_release_cancel(before: KeyboardModel, vk: u32, press: u32, release: u32)
    requires
        is_press(press),
        !is_press(release),
        vk_keycode::forwarded_code(vk) is Some ==> !before.pressed.contains(
            vk_keycode::forwarded_code(vk)->0,
        ),
    ensures
        keyboard_after(keyboard_after(before, vk, press), vk, release).pressed == before.pressed,
{
    assert(keyboard_after(keyboard_after(before, vk, press), vk, release).pressed
        =~= before.pressed);
}

/// AltGr, which Windows reports as the left Ctrl followed by the right Alt,
/// holds the third level and no Ctrl; released, it leaves neither.
pub proof fn alt_gr_is_level_three(before: ModifierState)
    ensures
        ({
            let down = modifiers_after(modifiers_after(before, 0xA2, true), 0xA5, true);
            let up = modifiers_after(modifiers_after(down, 0xA2, false), 0xA5, false);
            &&& down == ModifierState { ctrl: false, level3: true, ..before }
            &&& up == ModifierState { ctrl: false, level3: false, ..before }
        }),
{
}

/// A keypad key comes with its lock forced, so that it always gives a number.
pub proof fn keypad_keys_force_num_lock(before: KeyboardModel, vk: u32, flags: u32)
    requires
        is_keypad_key(vk),
        vk_keycode::forwarded_code(vk) is Some,
    ensures
        keyboard_actions(before, vk, flags).len() > 0,
        keyboard_actions(before, vk, flags)[0] == (InputAction::Modifiers {
            state: before.mods,
            numlock: true,
        }),
{
}

/// The modifiers as the bits of an XKB keymap.
pub open spec fn xkb_bits(state: ModifierState) -> u32 {
    ((if state.shift {
        0x01int
    } else {
        0
    }) + (if state.ctrl {
        0x04int
    } else {
        0
    }) + (if state.alt {
        0x08int
    } else {
        0
    }) + (if state.super_ {
        0x40int
    } else {
        0
    }) + (if state.level3 {
        0x80int
    } else {
        0
    })) as u32
}

/// The lock that is on, as the bits of an XKB keymap.
pub open spec fn xkb_lock(numlock: bool) -> u32 {
    if numlock {
        0x10
    } else {
        0
    }
}

/// The XKB bits of the modifiers that are held, and of the lock that is on.
pub fn xkb_modifiers(state: ModifierState, numlock: bool) -> (r: (u32, u32))
    ensures
        r.0 == xkb_bits(state),
        r.1 == xkb_lock(numlock),
        r.1 == (if numlock {
            0x10u32
        } else {
            0
        }),
{
    let mut held: u32 = 0;
    if state.shift {
        held += 0x01;
    }
    if state.ctrl {
        held += 0x04;
    }
    if state.alt {
        held += 0x08;
    }
    if state.super_ {
        held += 0x40;
    }
    if state.level3 {
        held += 0x80;
    }
    let locked: u32 = if numlock {
        0x10
    } else {
        0
    };
    (held, locked)
}

/// A key event: the virtual key, whether it was pressed, and when.
pub type KeyEvent = (u32, bool, u128);

/// The events behind the leading ones that are too old.
pub open spec fn without_stale(events: Seq<KeyEvent>, now: u128) -> Seq<KeyEvent>
    decreases events.len(),
{
    if events.len() > 0 && now - events[0].2 > LOCK_COMBO_WINDOW {
        without_stale(events.skip(1), now)
    } else {
        events
    }
}

/// What is remembered with one more event: it and up to seven before it, from
/// the first on that is recent.
pub open spec fn remembered(
    recent: Seq<KeyEvent>,
    vk: u32,
    pressed: bool,
    now: u128,
) -> Seq<KeyEvent> {
    let all = recent.push((vk, pressed, now));
    without_stale(
        if all.len() > LOCK_COMBO_EVENTS {
            all.skip(all.len() - LOCK_COMBO_EVENTS)
        } else {
            all
        },
        now,
    )
}

pub open spec fn has_win(events: Seq<KeyEvent>, pressed: bool) -> bool {
    exists|i: int|
        0 <= i < events.len() && ((#[trigger] events[i]).0 == VK_LWIN || events[i].0 == VK_RWIN)
            && events[i].1 == pressed
}

pub open spec fn has_l(events: Seq<KeyEvent>, pressed: bool) -> bool {
    exists|i: int|
        0 <= i < events.len() && (#[trigger] events[i]).0 == VK_L && events[i].1 == pressed
}

/// The lock combination is there: Win and L, each pressed and released.
pub open spec fn is_lock_combo(events: Seq<KeyEvent>) -> bool {
    has_win(events, true) && has_l(events, true) && has_win(events, false) && has_l(events, false)
}

/// What is remembered behind an event: nothing, once the combination has been
/// seen.
pub open spec fn observed(
    recent: Seq<KeyEvent>,
    vk: u32,
    pressed: bool,
    now: u128,
) -> Seq<KeyEvent> {
    if is_lock_combo(remembered(recent, vk, pressed, now)) {
        Seq::empty()
    } else {
        remembered(recent, vk, pressed, now)
    }
}

#[verifier::external_type_specification]
#[verifier::external_body]
pub struct ExInstant(std::time::Instant);

/// `Instant::now` of std: a point in time. Nothing is promised of it.
pub assume_specification[ Instant::now ]() -> (r: Instant)
;

/// `Instant::elapsed` of std: the time since an instant. Nothing is promised
/// of it.
pub assume_specification[ Instant::elapsed ](t: &Instant) -> (r: Duration)
;

/// `Duration::as_nanos` of std: the length in nanoseconds. Nothing is promised
/// of it, as nothing is known of a duration.
pub assume_specification[ Duration::as_nanos ](d: &Duration) -> (r: u128)
;

/// Recognises the keys that a locking Windows machine sends: Win and L, down
/// and up within a moment that no hand can match.
pub struct LockComboDetector {
    recent: VecDeque<KeyEvent>,
    origin: Instant,
}

impl View for LockComboDetector {
    type V = Seq<KeyEvent>;

    closed spec fn view(&self) -> Seq<KeyEvent> {
        self.recent@
    }
}

impl LockComboDetector {
    pub fn new() -> (r: Self)
        ensures
            r@ == Seq::<KeyEvent>::empty(),
    {
        LockComboDetector { recent: VecDeque::with_capacity(8), origin: Instant::now() }
    }

    /// Takes in a key event that comes in now, and says whether it completes
    /// the combination.
    pub fn observe(&mut self, vk: u32, pressed: bool) -> (r: bool)
        ensures
            exists|now: u128|
                {
                    &&& final(self)@ == #[trigger] observed(old(self)@, vk, pressed, now)
                    &&& r == is_lock_combo(remembered(old(self)@, vk, pressed, now))
                },
            final(self)@.len() <= LOCK_COMBO_EVENTS,
    {
        let now: u128 = self.time();
        self.observe_at(vk, pressed, now)
    }

    /// The time since the detector was made, in nanoseconds. The clock gives
    /// any number: what is made of it holds for each.
    pub(crate) fn time(&self) -> (r: u128) {
        self.origin.elapsed().as_nanos()
    }

    /// Takes in a key event that came in at `now`, in nanoseconds, and says
    /// whether it completes the combination. It does so once: what led to it
    /// is forgotten.
    pub fn observe_at(&mut self, vk: u32, pressed: bool, now: u128) -> (r: bool)
        ensures
            final(self)@ == observed(old(self)@, vk, pressed, now),
            r == is_lock_combo(remembered(old(self)@, vk, pressed, now)),
            final(self)@.len() <= LOCK_COMBO_EVENTS,
    {
        let ghost before = self@;
        self.recent.push_back((vk, pressed, now));
        let ghost all = self@;
        let ghost kept = if all.len() > LOCK_COMBO_EVENTS {
            all.skip(all.len() - LOCK_COMBO_EVENTS)
        } else {
            all
        };
        while self.recent.len() > LOCK_COMBO_EVENTS
            invariant
                self@.len() <= all.len(),
                self@ == all.skip(all.len() - self@.len()),
                self@.len() < all.len() ==> self@.len() >= LOCK_COMBO_EVENTS,
            decreases self@.len(),
        {
            self.recent.pop_front();
            assert(self@ =~= all.skip(all.len() - self@.len()));
        }
        assert(self@ =~= kept);
        let mut stale: bool = true;
        while stale
            invariant
                self@.len() <= LOCK_COMBO_EVENTS,
                without_stale(self@, now) == remembered(before, vk, pressed, now),
                !stale ==> self@ == remembered(before, vk, pressed, now),
            decreases self@.len(), stale as int,
        {
            if self.recent.len() == 0 {
                stale = false;
            } else {
                let first: KeyEvent = self.recent[0];
                if now > first.2 && now - first.2 > LOCK_COMBO_WINDOW {
                    let ghost held = self@;
                    self.recent.pop_front();
                    assert(self@ =~= held.skip(1));
                } else {
                    stale = false;
                }
            }
        }
        let fired: bool = self.holds_combo();
        if fired {
            self.recent.clear();
        }
        fired
    }

    fn holds_combo(&self) -> (r: bool)
        ensures
            r == is_lock_combo(self@),
    {
        let mut win_down: bool = false;
        let mut win_up: bool = false;
        let mut l_down: bool = false;
        let mut l_up: bool = false;
        let mut i: usize = 0;
        while i < self.recent.len()
            invariant
                i <= self@.len(),
                win_down == has_win(self@.take(i as int), true),
                win_up == has_win(self@.take(i as int), false),
                l_down == has_l(self@.take(i as int), true),
                l_up == has_l(self@.take(i as int), false),
            decreases self@.len() - i,
        {
            let (vk, pressed, _) = self.recent[i];
            proof {
                lemma_one_more(self@, i as int);
            }
            if vk == VK_LWIN || vk == VK_RWIN {
                if pressed {
                    win_down = true;
                } else {
                    win_up = true;
                }
            } else if vk == VK_L {
                if pressed {
                    l_down = true;
                } else {
                    l_up = true;
                }
            }
            i += 1;
        }
        assert(self@.take(self@.len() as int) =~= self@);
        win_down && l_down && win_up && l_up
    }
}

impl Default for LockComboDetector {
    fn default() -> (r: Self)
        ensures
            r@ == Seq::<KeyEvent>::empty(),
    {
        LockComboDetector::new()
    }
}

proof fn lemma_one_more(events: Seq<KeyEvent>, i: int)
    requires
        0 <= i < events.len(),
    ensures
        forall|p: bool|
            #[trigger] has_win(events.take(i + 1), p) == (has_win(events.take(i), p) || ((
            events[i].0 == VK_LWIN || events[i].0 == VK_RWIN) && events[i].1 == p)),
        forall|p: bool|
            #[trigger] has_l(events.take(i + 1), p) == (has_l(events.take(i), p) || (events[i].0
                == VK_L && events[i].1 == p)),
{
    let shorter = events.take(i);
    let longer = events.take(i + 1);
    assert(longer[i] == events[i]);
    assert(forall|j: int| 0 <= j < i ==> #[trigger] longer[j] == shorter[j]);
    assert(forall|j: int| 0 <= j < i ==> #[trigger] shorter[j] == longer[j]);
}

proof fn lemma_without_stale_len(events: Seq<KeyEvent>, now: u128)
    ensures
        without_stale(events, now).len() <= events.len(),
    decreases events.len(),
{
    if events.len() > 0 && now - events[0].2 > LOCK_COMBO_WINDOW {
        lemma_without_stale_len(events.skip(1), now);
    }
}

proof fn lemma_combo_len(events: Seq<KeyEvent>)
    requires
        is_lock_combo(events),
    ensures
        events.len() >= 4,
{
    let a = choose|i: int|
        0 <= i < events.len() && ((#[trigger] events[i]).0 == VK_LWIN || events[i].0 == VK_RWIN)
            && events[i].1 == true;
    let b = choose|i: int|
        0 <= i < events.len() && (#[trigger] events[i]).0 == VK_L && events[i].1 == true;
    let c = choose|i: int|
        0 <= i < events.len() && ((#[trigger] events[i]).0 == VK_LWIN || events[i].0 == VK_RWIN)
            && events[i].1 == false;
    let d = choose|i: int|
        0 <= i < events.len() && (#[trigger] events[i]).0 == VK_L && events[i].1 == false;
    assert(a != b && a != c && a != d && b != c && b != d && c != d);
}

/// One burst locks once: of the next three events none completes the
/// combination again.
pub proof fn a_combo_fires_once(
    recent: Seq<KeyEvent>,
    a: KeyEvent,
    b: KeyEvent,
    c: KeyEvent,
    d: KeyEvent,
)
    requires
        is_lock_combo(remembered(recent, a.0, a.1, a.2)),
    ensures
        ({
            let first = observed(recent, a.0, a.1, a.2);
            let second = observed(first, b.0, b.1, b.2);
            let third = observed(second, c.0, c.1, c.2);
            &&& !is_lock_combo(remembered(first, b.0, b.1, b.2))
            &&& !is_lock_combo(remembered(second, c.0, c.1, c.2))
            &&& !is_lock_combo(remembered(third, d.0, d.1, d.2))
        }),
{
    let first = observed(recent, a.0, a.1, a.2);
    let second = observed(first, b.0, b.1, b.2);
    let third = observed(second, c.0, c.1, c.2);
    lemma_few_events(first, b);
    lemma_few_events(second, c);
    lemma_few_events(third, d);
}

proof fn lemma_few_events(recent: Seq<KeyEvent>, next: KeyEvent)
    requires
        recent.len() < 3,
    ensures
        !is_lock_combo(remembered(recent, next.0, next.1, next.2)),
        observed(recent, next.0, next.1, next.2).len() <= recent.len() + 1,
{
    lemma_without_stale_len(recent.push((next.0, next.1, next.2)), next.2);
    if is_lock_combo(remembered(recent, next.0, next.1, next.2)) {
        lemma_combo_len(remembered(recent, next.0, next.1, next.2));
    }
}

pub open spec fn ends_with(events: Seq<KeyEvent>, tail: Seq<KeyEvent>) -> bool {
    tail.len() <= events.len() && events.skip(events.len() - tail.len()) == tail
}

/// No event of these is too old at `now`.
pub open spec fn all_recent(events: Seq<KeyEvent>, now: u128) -> bool {
    forall|i: int| 0 <= i < events.len() ==> now - (#[trigger] events[i]).2 <= LOCK_COMBO_WINDOW
}

proof fn lemma_recent_events_stay(events: Seq<KeyEvent>, tail: Seq<KeyEvent>, now: u128)
    requires
        ends_with(events, tail),
        all_recent(tail, now),
    ensures
        ends_with(without_stale(events, now), tail),
    decreases events.len(),
{
    if events.len() > 0 && now - events[0].2 > LOCK_COMBO_WINDOW {
        if tail.len() == events.len() {
            assert(tail[0] == events[0]);
        }
        assert(events.skip(1).skip(events.len() - 1 - tail.len()) =~= tail);
        lemma_recent_events_stay(events.skip(1), tail, now);
    }
}

proof fn lemma_remembered(
    recent: Seq<KeyEvent>,
    tail: Seq<KeyEvent>,
    vk: u32,
    pressed: bool,
    now: u128,
)
    requires
        ends_with(recent, tail),
        tail.len() < LOCK_COMBO_EVENTS,
        all_recent(tail, now),
    ensures
        ends_with(remembered(recent, vk, pressed, now), tail.push((vk, pressed, now))),
{
    let all = recent.push((vk, pressed, now));
    let longer = tail.push((vk, pressed, now));
    assert(all_recent(longer, now));
    let kept = if all.len() > LOCK_COMBO_EVENTS {
        all.skip(all.len() - LOCK_COMBO_EVENTS)
    } else {
        all
    };
    assert forall|i: int| 0 <= i < longer.len() implies #[trigger] kept.skip(
        kept.len() - longer.len(),
    )[i] == longer[i] by {
        if i < tail.len() {
            assert(recent.skip(recent.len() - tail.len())[i] == tail[i]);
        }
    }
    assert(kept.skip(kept.len() - longer.len()) =~= longer);
    lemma_recent_events_stay(kept, longer, now);
}

proof fn lemma_combo_in_tail(events: Seq<KeyEvent>, tail: Seq<KeyEvent>)
    requires
        ends_with(events, tail),
        is_lock_combo(tail),
    ensures
        is_lock_combo(events),
{
    let n = events.len() - tail.len();
    assert forall|i: int| 0 <= i < tail.len() implies #[trigger] tail[i] == events[n + i] by {
        assert(events.skip(n)[i] == tail[i]);
    }
}

/// The events came in in this order.
pub open spec fn in_order(events: Seq<KeyEvent>) -> bool {
    forall|i: int, j: int|
        0 <= i <= j < events.len() ==> (#[trigger] events[i]).2 <= (#[trigger] events[j]).2
}

/// What is remembered behind a row of events.
pub open spec fn observed_all(recent: Seq<KeyEvent>, events: Seq<KeyEvent>) -> Seq<KeyEvent>
    decreases events.len(),
{
    if events.len() == 0 {
        recent
    } else {
        let e = events.last();
        observed(observed_all(recent, events.drop_last()), e.0, e.1, e.2)
    }
}

/// Event `i` of a row completes the combination.
pub open spec fn locks_at(recent: Seq<KeyEvent>, events: Seq<KeyEvent>, i: int) -> bool {
    is_lock_combo(
        remembered(observed_all(recent, events.take(i)), events[i].0, events[i].1, events[i].2),
    )
}

proof fn lemma_burst_is_remembered(recent: Seq<KeyEvent>, burst: Seq<KeyEvent>, n: int)
    requires
        0 <= n < burst.len() <= LOCK_COMBO_EVENTS,
        in_order(burst),
        burst.last().2 - burst[0].2 <= LOCK_COMBO_WINDOW,
        forall|i: int| 0 <= i < n ==> !locks_at(recent, burst, i),
    ensures
        ends_with(observed_all(recent, burst.take(n)), burst.take(n)),
        ends_with(
            remembered(
                observed_all(recent, burst.take(n)),
                burst[n].0,
                burst[n].1,
                burst[n].2,
            ),
            burst.take(n + 1),
        ),
    decreases n,
{
    let before = burst.take(n);
    let held = observed_all(recent, before);
    if n == 0 {
        assert(held.skip(held.len() as int) =~= before);
    } else {
        lemma_burst_is_remembered(recent, burst, n - 1);
        assert(before.drop_last() =~= burst.take(n - 1));
        assert(before.last() == burst[n - 1]);
        assert(!locks_at(recent, burst, n - 1));
    }
    assert forall|i: int| 0 <= i < before.len() implies burst[n].2 - (#[trigger] before[i]).2
        <= LOCK_COMBO_WINDOW by {
        assert(burst[0].2 <= burst[i].2);
        assert(burst[n].2 <= burst[burst.len() - 1].2);
    }
    lemma_remembered(held, before, burst[n].0, burst[n].1, burst[n].2);
    assert(before.push(burst[n]) =~= burst.take(n + 1));
}

/// A row of events within the window that holds Win and L, each pressed and
/// released, locks the machine, whatever was typed before and whatever other
/// keys are among them: one of the events completes the combination.
pub proof fn a_burst_locks(recent: Seq<KeyEvent>, burst: Seq<KeyEvent>)
    requires
        is_lock_combo(burst),
        burst.len() <= LOCK_COMBO_EVENTS,
        in_order(burst),
        burst.last().2 - burst[0].2 <= LOCK_COMBO_WINDOW,
    ensures
        exists|i: int| 0 <= i < burst.len() && locks_at(recent, burst, i),
{
    lemma_combo_len(burst);
    if forall|i: int| 0 <= i < burst.len() ==> !locks_at(recent, burst, i) {
        let n = burst.len() - 1;
        lemma_burst_is_remembered(recent, burst, n);
        assert(burst.take(n + 1) =~= burst);
        lemma_combo_in_tail(
            remembered(
                observed_all(recent, burst.take(n)),
                burst[n].0,
                burst[n].1,
                burst[n].2,
            ),
            burst,
        );
        assert(locks_at(recent, burst, n));
    }
}

proof fn lemma_stale_events_go(events: Seq<KeyEvent>, now: u128)
    requires
        in_order(events),
    ensures
        in_order(without_stale(events, now)),
        all_recent(without_stale(events, now), now),
    decreases events.len(),
{
    if events.len() > 0 {
        if now - events[0].2 > LOCK_COMBO_WINDOW {
            let rest = events.skip(1);
            assert forall|i: int, j: int| 0 <= i <= j < rest.len() implies (#[trigger] rest[i]).2
                <= (#[trigger] rest[j]).2 by {
                assert(events[i + 1].2 <= events[j + 1].2);
            }
            lemma_stale_events_go(rest, now);
        } else {
            assert forall|i: int| 0 <= i < events.len() implies now - (#[trigger] events[i]).2
                <= LOCK_COMBO_WINDOW by {
                assert(events[0].2 <= events[i].2);
            }
        }
    }
}

/// Under a clock that never goes back, the events that count lie within the
/// window: keys that are pressed by hand, more slowly than that, do not lock.
pub proof fn only_recent_keys_count(recent: Seq<KeyEvent>, vk: u32, pressed: bool, now: u128)
    requires
        in_order(recent),
        recent.len() > 0 ==> recent.last().2 <= now,
    ensures
        in_order(remembered(recent, vk, pressed, now)),
        all_recent(remembered(recent, vk, pressed, now), now),
{
    let all = recent.push((vk, pressed, now));
    assert forall|i: int, j: int| 0 <= i <= j < all.len() implies (#[trigger] all[i]).2 <= (
    #[trigger] all[j]).2 by {
        if j < recent.len() {
            assert(recent[i].2 <= recent[j].2);
        } else if i < recent.len() {
            assert(recent[i].2 <= recent[recent.len() - 1].2);
        }
    }
    let kept = if all.len() > LOCK_COMBO_EVENTS {
        all.skip(all.len() - LOCK_COMBO_EVENTS)
    } else {
        all
    };
    let n = all.len() - kept.len();
    assert forall|i: int, j: int| 0 <= i <= j < kept.len() implies (#[trigger] kept[i]).2 <= (
    #[trigger] kept[j]).2 by {
        assert(all[n + i].2 <= all[n + j].2);
    }
    lemma_stale_events_go(kept, now);
}

/// A place on the screen is handed on as it is. Beyond an edge the cursor stops
/// at the edge: a number with its top bit set lies left of or above the screen.
pub proof fn moves_follow_the_mouse(m1: u32, m2: u32, m3: u32)
    ensures
        mouse_actions(m1, m2, m3, 0x0200).len() == 1,
        match mouse_actions(m1, m2, m3, 0x0200)[0] {
            InputAction::Move { x, y, x_extent, y_extent } => {
                &&& x_extent == 65535 && y_extent == 65535
                &&& m1 <= 65535 ==> x == m1
                &&& m2 <= 65535 ==> y == m2
                &&& 65535 < m1 < 0x8000_0000 ==> x == 65535
                &&& 65535 < m2 < 0x8000_0000 ==> y == 65535
                &&& m1 >= 0x8000_0000 ==> x == 0
                &&& m2 >= 0x8000_0000 ==> y == 0
            },
            _ => false,
        },
{
}

/// A press or a release of a mouse button is a press or a release of the same
/// button here, and nothing else, wherever the cursor is.
pub proof fn buttons_follow_the_mouse(m1: u32, m2: u32, m3: u32)
    ensures
        mouse_actions(m1, m2, m3, 0x0201) == seq![
            InputAction::Button { code: 0x110, pressed: true },
        ],
        mouse_actions(m1, m2, m3, 0x0202) == seq![
            InputAction::Button { code: 0x110, pressed: false },
        ],
        mouse_actions(m1, m2, m3, 0x0204) == seq![
            InputAction::Button { code: 0x111, pressed: true },
        ],
        mouse_actions(m1, m2, m3, 0x0205) == seq![
            InputAction::Button { code: 0x111, pressed: false },
        ],
        mouse_actions(m1, m2, m3, 0x0207) == seq![
            InputAction::Button { code: 0x112, pressed: true },
        ],
        mouse_actions(m1, m2, m3, 0x0208) == seq![
            InputAction::Button { code: 0x112, pressed: false },
        ],
        mouse_actions(m1, m2, m3, 0x020B) == seq![
            InputAction::Button {
                code: if m3 == 2 {
                    0x114
                } else {
                    0x113
                },
                pressed: true,
            },
        ],
        mouse_actions(m1, m2, m3, 0x020C) == seq![
            InputAction::Button {
                code: if m3 == 2 {
                    0x114
                } else {
                    0x113
                },
                pressed: false,
            },
        ],
{
}

/// A wheel turns by the signed number in the low 16 bits: the vertical one the
/// other way round, as down counts up here, the horizontal one as it is.
pub proof fn wheels_follow_the_mouse(m1: u32, m2: u32, m3: u32)
    ensures
        mouse_actions(m1, m2, m3, 0x020A).len() == 1,
        match mouse_actions(m1, m2, m3, 0x020A)[0] {
            InputAction::ScrollVertical { delta } => -0x8000 < delta <= 0x8000 && (delta + m3)
                % 0x1_0000 == 0,
            _ => false,
        },
        mouse_actions(m1, m2, m3, 0x020E).len() == 1,
        match mouse_actions(m1, m2, m3, 0x020E)[0] {
            InputAction::ScrollHorizontal { delta } => -0x8000 <= delta < 0x8000 && (delta - m3)
                % 0x1_0000 == 0,
            _ => false,
        },
{
}

/// Every other mouse message is passed over.
pub proof fn other_mouse_messages_do_nothing(m1: u32, m2: u32, m3: u32, flags: u32)
    requires
        flags < 0x0200 || flags == 0x0203 || flags == 0x0206 || flags == 0x0209 || flags == 0x020D
            || flags > 0x020E,
    ensures
        mouse_actions(m1, m2, m3, flags).len() == 0,
{
}

/// A release is marked by bit 7 of the flags, and by no other.
pub proof fn bit_seven_marks_a_release(flags: u32)
    ensures
        is_press(flags) <==> flags & 0x80 == 0,
{
    assert(flags / 0x80 % 2 == 0 <==> flags & 0x80 == 0) by (bit_vector);
}

/// A press of a key that is not held goes through, whatever modifiers and
/// whatever other keys are held: its key action comes last, and before it there
/// is nothing but the modifiers.
pub proof fn fresh_presses_go_through(before: KeyboardModel, vk: u32, flags: u32)
    requires
        flags & 0x80 == 0,
        vk != 0x90,
        vk_keycode::forwarded_code(vk) is Some,
        !before.pressed.contains(vk_keycode::forwarded_code(vk)->0),
    ensures
        ({
            let actions = keyboard_actions(before, vk, flags);
            &&& actions.len() == 1 || actions.len() == 2
            &&& actions.last() == (InputAction::Key {
                code: vk_keycode::forwarded_code(vk)->0,
                pressed: true,
            })
            &&& actions.len() == 2 ==> actions[0] is Modifiers
        }),
{
    bit_seven_marks_a_release(flags);
}

/// Every release of a key goes through likewise, whatever is held.
pub proof fn releases_go_through(before: KeyboardModel, vk: u32, flags: u32)
    requires
        flags & 0x80 != 0,
        vk != 0x90,
        vk_keycode::forwarded_code(vk) is Some,
    ensures
        ({
            let actions = keyboard_actions(before, vk, flags);
            &&& actions.len() == 1 || actions.len() == 2
            &&& actions.last() == (InputAction::Key {
                code: vk_keycode::forwarded_code(vk)->0,
                pressed: false,
            })
            &&& actions.len() == 2 ==> actions[0] is Modifiers
        }),
{
    bit_seven_marks_a_release(flags);
}

/// A key that is no modifier and not on the keypad is told by itself: nothing
/// is said of modifiers, and a repetition of it is not told at all.
pub proof fn plain_keys_are_told_alone(before: KeyboardModel, vk: u32, flags: u32)
    requires
        vk_keycode::forwarded_code(vk) is Some,
        !(0x10 <= vk <= 0x12),
        !(0x5B <= vk <= 0x6F),
        !(0xA0 <= vk <= 0xA5),
        vk != 0x90,
    ensures
        ({
            let code = vk_keycode::forwarded_code(vk)->0;
            let actions = keyboard_actions(before, vk, flags);
            if flags & 0x80 == 0 && before.pressed.contains(code) {
                actions.len() == 0
            } else {
                actions == seq![InputAction::Key { code, pressed: flags & 0x80 == 0 }]
            }
        }),
{
    bit_seven_marks_a_release(flags);
}

/// A modifier key first tells what is now held, with its own change in it, and
/// forces no lock.
pub proof fn modifier_keys_tell_what_is_held(before: KeyboardModel, vk: u32, flags: u32)
    requires
        0x10 <= vk <= 0x12 || 0x5B <= vk <= 0x5C || 0xA0 <= vk <= 0xA5,
    ensures
        keyboard_actions(before, vk, flags).len() > 0,
        keyboard_actions(before, vk, flags)[0] == (InputAction::Modifiers {
            state: keyboard_after(before, vk, flags).mods,
            numlock: false,
        }),
{
}

/// Each modifier key sets its own modifier, to whether it is pressed, and
/// leaves the others; the right Alt also takes a Ctrl back. No other key
/// changes a modifier.
pub proof fn modifier_keys_set_their_own(before: KeyboardModel, vk: u32, flags: u32)
    ensures
        ({
            let was = before.mods;
            let is = keyboard_after(before, vk, flags).mods;
            let pressed = flags & 0x80 == 0;
            &&& is.shift == (if vk == 0x10 || vk == 0xA0 || vk == 0xA1 {
                pressed
            } else {
                was.shift
            })
            &&& is.ctrl == (if vk == 0x11 || vk == 0xA2 || vk == 0xA3 {
                pressed
            } else {
                was.ctrl && vk != 0xA5
            })
            &&& is.alt == (if vk == 0x12 || vk == 0xA4 {
                pressed
            } else {
                was.alt
            })
            &&& is.super_ == (if vk == 0x5B || vk == 0x5C {
                pressed
            } else {
                was.super_
            })
            &&& is.level3 == (if vk == 0xA5 {
                pressed
            } else {
                was.level3
            })
        }),
{
    bit_seven_marks_a_release(flags);
}

/// A key event changes whether its own key is held, and no other key.
pub proof fn keys_are_held_until_released(before: KeyboardModel, vk: u32, flags: u32, code: u32)
    ensures
        keyboard_after(before, vk, flags).pressed.contains(code) == (if vk != 0x90
            && vk_keycode::forwarded_code(vk) == Some(code) {
            flags & 0x80 == 0
        } else {
            before.pressed.contains(code)
        }),
{
    bit_seven_marks_a_release(flags);
}

/// A key without a place on the keyboard is not told, and nothing is held by
/// it.
pub proof fn unknown_keys_do_nothing(before: KeyboardModel, vk: u32, flags: u32)
    requires
        vk_keycode::forwarded_code(vk) is None,
    ensures
        keyboard_actions(before, vk, flags).len() == 0,
        keyboard_after(before, vk, flags).pressed == before.pressed,
{
}

/// Each modifier has the bit of the real modifier that stands for it in XKB:
/// Shift, Control, Mod1, Mod4 and Mod5. No other bit is ever set, so that what
/// several modifiers give is what each of them gives, together.
pub proof fn xkb_bits_tell_modifiers_apart(state: ModifierState)
    ensures
        state.shift <==> xkb_bits(state) & 0x01 == 0x01,
        state.ctrl <==> xkb_bits(state) & 0x04 == 0x04,
        state.alt <==> xkb_bits(state) & 0x08 == 0x08,
        state.super_ <==> xkb_bits(state) & 0x40 == 0x40,
        state.level3 <==> xkb_bits(state) & 0x80 == 0x80,
        xkb_bits(state) & 0x32 == 0,
        xkb_bits(state) < 0x100,
{
    let (a, b, c, d, e) = (state.shift, state.ctrl, state.alt, state.super_, state.level3);
    let v = xkb_bits(state);
    let s: u32 = if a {
        1
    } else {
        0
    };
    let t: u32 = if b {
        4
    } else {
        0
    };
    let u: u32 = if c {
        8
    } else {
        0
    };
    let w: u32 = if d {
        0x40
    } else {
        0
    };
    let x: u32 = if e {
        0x80
    } else {
        0
    };
    assert(v == s + t + u + w + x);
    assert((s == 1 <==> v & 0x01 == 0x01) && (t == 4 <==> v & 0x04 == 0x04) && (u == 8 <==> v & 0x08
        == 0x08) && (w == 0x40 <==> v & 0x40 == 0x40) && (x == 0x80 <==> v & 0x80 == 0x80) && v
        & 0x32 == 0 && v < 0x100) by (bit_vector)
        requires
            v == s + t + u + w + x,
            s == 0 || s == 1,
            t == 0 || t == 4,
            u == 0 || u == 8,
            w == 0 || w == 0x40,
            x == 0 || x == 0x80,
    ;
}

/// The machine is locked only where Win and L have each been pressed and
/// released among the last eight events, and always where they have.
pub proof fn win_and_l_make_the_combo(events: Seq<KeyEvent>, a: int, b: int, c: int, d: int)
    ensures
        is_lock_combo(events) ==> {
            &&& exists|i: int|
                0 <= i < events.len() && 0x5B <= (#[trigger] events[i]).0 <= 0x5C && events[i].1
            &&& exists|i: int|
                0 <= i < events.len() && 0x5B <= (#[trigger] events[i]).0 <= 0x5C && !events[i].1
            &&& exists|i: int|
                0 <= i < events.len() && (#[trigger] events[i]).0 == 0x4C && events[i].1
            &&& exists|i: int|
                0 <= i < events.len() && (#[trigger] events[i]).0 == 0x4C && !events[i].1
        },
        0 <= a < events.len() && 0 <= b < events.len() && 0 <= c < events.len() && 0 <= d
            < events.len() && 0x5B <= events[a].0 <= 0x5C && events[a].1 && 0x5B <= events[b].0
            <= 0x5C && !events[b].1 && events[c].0 == 0x4C && events[c].1 && events[d].0 == 0x4C
            && !events[d].1 ==> is_lock_combo(events),
{
}

/// An event is remembered for 150 milliseconds and behind at most seven others:
/// what is remembered ends with it, is no longer than eight, is the end of all
/// that came in, and starts with the first of the last eight that is recent.
pub proof fn the_last_eight_are_remembered(
    recent: Seq<KeyEvent>,
    vk: u32,
    pressed: bool,
    now: u128,
)
    ensures
        ({
            let all = recent.push((vk, pressed, now));
            let kept = remembered(recent, vk, pressed, now);
            &&& 1 <= kept.len() <= 8
            &&& kept == all.skip(all.len() - kept.len())
            &&& forall|i: int|
                0 <= i < all.len() - kept.len() && all.len() - 8 <= i ==> now - (
                #[trigger] all[i]).2 > 150_000_000
            &&& now - kept[0].2 <= 150_000_000
        }),
{
    let all = recent.push((vk, pressed, now));
    let last = if all.len() > 8 {
        all.skip(all.len() - 8)
    } else {
        all
    };
    lemma_stale_prefix(last, now);
    let kept = without_stale(last, now);
    let n = all.len() - last.len();
    assert(kept =~= all.skip(all.len() - kept.len()));
    assert forall|i: int| 0 <= i < all.len() - kept.len() && all.len() - 8 <= i implies now - (
    #[trigger] all[i]).2 > 150_000_000 by {
        assert(last[i - n] == all[i]);
    }
}

proof fn lemma_stale_prefix(events: Seq<KeyEvent>, now: u128)
    requires
        events.len() > 0,
        events.last().2 == now,
    ensures
        ({
            let kept = without_stale(events, now);
            &&& 1 <= kept.len() <= events.len()
            &&& kept == events.skip(events.len() - kept.len())
            &&& forall|i: int|
                0 <= i < events.len() - kept.len() ==> now - (#[trigger] events[i]).2
                    > LOCK_COMBO_WINDOW
            &&& now - kept[0].2 <= LOCK_COMBO_WINDOW
        }),
    decreases events.len(),
{
    if now - events[0].2 > LOCK_COMBO_WINDOW {
        let rest = events.skip(1);
        lemma_stale_prefix(rest, now);
        let kept = without_stale(events, now);
        assert(kept =~= events.skip(events.len() - kept.len()));
        assert forall|i: int| 0 <= i < events.len() - kept.len() implies now - (
        #[trigger] events[i]).2 > LOCK_COMBO_WINDOW by {
            if i > 0 {
                assert(rest[i - 1] == events[i]);
            }
        }
    } else {
        assert(events.skip(0) =~= events);
    }
}

/// A combination that is completed is forgotten, and short of that everything
/// remembered stays.
pub proof fn a_completed_combo_is_forgotten(
    recent: Seq<KeyEvent>,
    vk: u32,
    pressed: bool,
    now: u128,
)
    ensures
        observed(recent, vk, pressed, now).len() == 0 <==> is_lock_combo(
            remembered(recent, vk, pressed, now),
        ),
        observed(recent, vk, pressed, now).len() > 0 ==> observed(recent, vk, pressed, now)
            == remembered(recent, vk, pressed, now),
{
    the_last_eight_are_remembered(recent, vk, pressed, now);
}

/// The lock is Mod2, which no modifier shares.
pub proof fn xkb_lock_is_apart(state: ModifierState, numlock: bool)
    ensures
        numlock <==> xkb_lock(numlock) == 0x10,
        !numlock <==> xkb_lock(numlock) == 0,
        xkb_bits(state) & xkb_lock(true) == 0,
{
    xkb_bits_tell_modifiers_apart(state);
    let v = xkb_bits(state);
    assert(v & 0x10 == 0) by (bit_vector)
        requires
            v & 0x32 == 0,
    ;
}

/// Every key of the keypad, pressed, repeated or released, first has its lock
/// forced, with the modifiers that are held.
pub proof fn keypad_gives_numbers(before: KeyboardModel, vk: u32, flags: u32)
    requires
        0x60 <= vk <= 0x6F,
        vk != 0x6C,
    ensures
        keyboard_actions(before, vk, flags).len() > 0,
        keyboard_actions(before, vk, flags)[0] == (InputAction::Modifiers {
            state: before.mods,
            numlock: true,
        }),
{
    vk_keycode::each_key_is_in_one_block(vk);
}

} // verus!
