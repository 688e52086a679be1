//! Input devices: decoding mouse packets and key events, and handing the
//! resulting bytes to the processes that read the mouse or the keyboard.

use vstd::prelude::*;

use pc_keyboard::{KeyCode, KeyboardLayout, ScancodeSet, ScancodeSet1};

use crate::process::{OwnedStreamType, Processes};

verus! {

#[verifier::external_type_specification]
#[verifier::external_body]
pub struct ExScancodeSet1(ScancodeSet1);

#[verifier::external_type_specification]
#[verifier::external_body]
pub struct ExKeyCode(KeyCode);

/// A movement of the mouse and the state of its buttons.
#[derive(Debug, Clone, Copy, PartialEq, Eq, Structural)]
pub struct MouseEvent {
    pub x_movement: i8,
    pub y_movement: i8,
    pub left_button_pressed: u8,
    pub right_button_pressed: u8,
}

/// The movement that a byte of a packet gives, negated when the sign bit of
/// its axis is set.
pub open spec fn movement(byte: u8, negative: bool) -> i8 {
    if negative {
        (-(byte as i8)) as i8
    } else {
        byte as i8
    }
}

/// Decodes a packet of the mouse: the first byte holds the buttons (bit 0
/// left, bit 1 right) and the signs of the movements (bit 2 for x, bit 3 for
/// y); the second and third bytes hold the movements.  A movement of -128
/// with its sign bit set has no negation, and the kernel stops on it.
pub fn decode_mouse_packet(byte1: u8, byte2: u8, byte3: u8) -> (r: MouseEvent)
    requires
        byte1 & 0b0000_0100 != 0 ==> byte2 != 0x80,
        byte1 & 0b0000_1000 != 0 ==> byte3 != 0x80,
    ensures
        r.left_button_pressed == (if byte1 & 0b0000_0001 != 0 { 1u8 } else { 0u8 }),
        r.right_button_pressed == (if byte1 & 0b0000_0010 != 0 { 1u8 } else { 0u8 }),
        r.x_movement == movement(byte2, byte1 & 0b0000_0100 != 0),
        r.y_movement == movement(byte3, byte1 & 0b0000_1000 != 0),
{
    let right_button = byte1 & 0b0000_0010 != 0;
    let left_button = byte1 & 0b0000_0001 != 0;
    let x_movement = if byte1 & 0b0000_0100 == 0 {
        byte2 as i8
    } else {
        assert((byte2 as i8) > -128) by (bit_vector)
            requires
                byte2 != 0x80,
        ;
        -(byte2 as i8)
    };
    let y_movement = if byte1 & 0b0000_1000 == 0 {
        byte3 as i8
    } else {
        assert((byte3 as i8) > -128) by (bit_vector)
            requires
                byte3 != 0x80,
        ;
        -(byte3 as i8)
    };
    MouseEvent {
        x_movement,
        y_movement,
        left_button_pressed: if left_button { 1 } else { 0 },
        right_button_pressed: if right_button { 1 } else { 0 },
    }
}

impl MouseEvent {
    /// The bytes of the event in the order of its fields, as a process
    /// reads it from the mouse stream.
    pub fn to_bytes(&self) -> (r: Vec<u8>)
        ensures
            r@ == seq![self.x_movement as u8, self.y_movement as u8, self.left_button_pressed, self.right_button_pressed],
    {
        let mut r: Vec<u8> = Vec::new();
        r.push(self.x_movement as u8);
        r.push(self.y_movement as u8);
        r.push(self.left_button_pressed);
        r.push(self.right_button_pressed);
        r
    }
}

/// Whether the status byte of the controller says that the mouse has data.
pub fn mouse_has_data(status: u8) -> (r: bool)
    ensures
        r == (status & 0x20 != 0),
{
    status & 0x20 != 0
}

/// The keys whose state the keyboard driver follows.
#[derive(Debug, Clone, Copy, PartialEq, Eq, Structural)]
pub enum ModifierKey {
    LShift,
    LAlt,
    LControl,
}

/// A key event after the layout has been applied.
#[derive(Debug, Clone, Copy, PartialEq, Eq, Structural)]
pub enum KeyPress {
    /// A key without a character that the driver follows.
    Modifier(ModifierKey),
    /// Another key without a character.
    OtherRawKey,
    /// A key that gives a character.
    Char(char),
}

/// The state of the keyboard driver: the scancode decoder and the modifier
/// keys it follows.
pub struct Keyboard {
    pub decoder: ScancodeSet1,
    pub lshift: bool,
    pub lalt: bool,
    pub lctrl: bool,
}

/// A new scancode set 1 decoder, `pc_keyboard::ScancodeSet1::new`.
#[verifier::external_body]
fn new_decoder() -> ScancodeSet1 {
    ScancodeSet1::new()
}

/// What feeding `code` to the scancode set 1 decoder `decoder` gives: the
/// decoder after it, and the key of the event it completes with whether it
/// is pressed, or nothing when no event is complete or the code is an error.
pub uninterp spec fn scancode_step(decoder: ScancodeSet1, code: u8) -> (ScancodeSet1, Option<(KeyCode, bool)>);

/// Feeds `code` to the decoder with `ScancodeSet::advance_state` and gives
/// back the key of the event it completes and whether it is pressed
/// (`KeyState::Down`); nothing when no event is complete or the code is an
/// error.  The decoder's next state and the result depend on its present
/// state and `code` alone, and are named `scancode_step`.
#[verifier::external_body]
fn advance_state(decoder: &mut ScancodeSet1, code: u8) -> (r: Option<(KeyCode, bool)>)
    ensures
        (*final(decoder), r) == scancode_step(*old(decoder), code),
{
    match decoder.advance_state(code) {
        Ok(Some(event)) => Some((event.code, event.state == pc_keyboard::KeyState::Down)),
        _ => None,
    }
}

/// What the keyboard layout gives for a key: a character, or a key without
/// one, by the number of its `pc_keyboard::KeyCode` (the enum is `repr(u8)`).
#[derive(Debug, Clone, Copy, PartialEq, Eq, Structural)]
pub enum LayoutKey {
    Unicode(char),
    RawKey(u8),
}

/// What the German 105-key layout gives for the key with the number `code`
/// under the given modifier states, control keys ignored.
pub uninterp spec fn layout_key(
    code: u8,
    lshift: bool,
    rshift: bool,
    lctrl: bool,
    rctrl: bool,
    numlock: bool,
    capslock: bool,
    lalt: bool,
    ralt: bool,
    rctrl2: bool,
) -> LayoutKey;

/// The number of the key `code`: its discriminant, `code as u8`, since
/// `pc_keyboard::KeyCode` is `repr(u8)`.
pub uninterp spec fn key_number(code: KeyCode) -> u8;

/// Applies the German 105-key layout, `De105Key::map_keycode` with
/// `HandleControl::Ignore`, to `code` under the modifier states given, one
/// argument for each field of `pc_keyboard::Modifiers`, and gives back the
/// number of `code` (`key_number`) with what the layout gave, a character
/// or a raw key by its number.  What the layout gives is named `layout_key`
/// of that number and the modifier states: it depends on nothing else.
#[verifier::external_body]
fn map_keycode(
    code: KeyCode,
    lshift: bool,
    rshift: bool,
    lctrl: bool,
    rctrl: bool,
    numlock: bool,
    capslock: bool,
    lalt: bool,
    ralt: bool,
    rctrl2: bool,
) -> (r: (u8, LayoutKey))
    ensures
        r.0 == key_number(code),
        r.1 == layout_key(r.0, lshift, rshift, lctrl, rctrl, numlock, capslock, lalt, ralt, rctrl2),
{
    let modifiers = pc_keyboard::Modifiers { lshift, rshift, lctrl, rctrl, numlock, capslock, lalt, ralt, rctrl2 };
    let key = match pc_keyboard::layouts::De105Key.map_keycode(code, &modifiers, pc_keyboard::HandleControl::Ignore) {
        pc_keyboard::DecodedKey::Unicode(c) => LayoutKey::Unicode(c),
        pc_keyboard::DecodedKey::RawKey(k) => LayoutKey::RawKey(k as u8),
    };
    (code as u8, key)
}

/// The number of `pc_keyboard::KeyCode::LShift`.
pub const KEY_LSHIFT: u8 = 76;
/// The number of `pc_keyboard::KeyCode::LControl`.
pub const KEY_LCONTROL: u8 = 93;
/// The number of `pc_keyboard::KeyCode::LAlt`.
pub const KEY_LALT: u8 = 95;

/// The key press that what the layout gave stands for: a character, one of
/// the followed modifier keys, or another key without a character.
pub open spec fn press_of(key: LayoutKey) -> KeyPress {
    match key {
        LayoutKey::Unicode(c) => KeyPress::Char(c),
        LayoutKey::RawKey(k) => if k == KEY_LSHIFT {
            KeyPress::Modifier(ModifierKey::LShift)
        } else if k == KEY_LALT {
            KeyPress::Modifier(ModifierKey::LAlt)
        } else if k == KEY_LCONTROL {
            KeyPress::Modifier(ModifierKey::LControl)
        } else {
            KeyPress::OtherRawKey
        },
    }
}

/// Tells apart what the layout gave: `press_of`.
pub fn key_press(key: LayoutKey) -> (r: KeyPress)
    ensures
        r == press_of(key),
{
    match key {
        LayoutKey::Unicode(c) => KeyPress::Char(c),
        LayoutKey::RawKey(k) => if k == KEY_LSHIFT {
            KeyPress::Modifier(ModifierKey::LShift)
        } else if k == KEY_LALT {
            KeyPress::Modifier(ModifierKey::LAlt)
        } else if k == KEY_LCONTROL {
            KeyPress::Modifier(ModifierKey::LControl)
        } else {
            KeyPress::OtherRawKey
        },
    }
}

/// The states of left shift, left alt and left control, and the byte, that
/// a key event of `key`, pressed when `down`, gives from the states `mods`:
/// a followed modifier key takes the state `down`, and a character typed
/// while left control is up gives its byte when the key goes down and the
/// character is ASCII.
pub open spec fn key_effect(mods: (bool, bool, bool), key: KeyPress, down: bool) -> ((bool, bool, bool), Option<u8>) {
    let (lshift, lalt, lctrl) = mods;
    (
        (
            if key == KeyPress::Modifier(ModifierKey::LShift) { down } else { lshift },
            if key == KeyPress::Modifier(ModifierKey::LAlt) { down } else { lalt },
            if key == KeyPress::Modifier(ModifierKey::LControl) { down } else { lctrl },
        ),
        match key {
            KeyPress::Char(c) => if !lctrl && down && (c as u32) < 128 {
                Some(c as u8)
            } else {
                None
            },
            _ => None,
        },
    )
}

impl Keyboard {
    /// The states of left shift, left alt and left control.
    pub open spec fn modifiers(&self) -> (bool, bool, bool) {
        (self.lshift, self.lalt, self.lctrl)
    }

    /// A keyboard with a new decoder, as `ScancodeSet1::new` makes it (at
    /// the start of a scancode), and no modifier key down.
    pub fn new() -> (r: Self)
        ensures
            !r.lshift && !r.lalt && !r.lctrl,
    {
        Keyboard { decoder: new_decoder(), lshift: false, lalt: false, lctrl: false }
    }

    /// Handles a key event: a followed modifier key records whether it is
    /// down; a character typed while left control is up gives its byte when
    /// the key goes down and the character is ASCII.  Nothing else gives a byte.
    pub fn apply_key(&mut self, key: KeyPress, down: bool) -> (r: Option<u8>)
        ensures
            final(self).lshift == if key == KeyPress::Modifier(ModifierKey::LShift) { down } else { old(self).lshift },
            final(self).lalt == if key == KeyPress::Modifier(ModifierKey::LAlt) { down } else { old(self).lalt },
            final(self).lctrl == if key == KeyPress::Modifier(ModifierKey::LControl) { down } else { old(self).lctrl },
            r == match key {
                KeyPress::Char(c) => if !old(self).lctrl && down && (c as u32) < 128 {
                    Some(c as u8)
                } else {
                    None
                },
                _ => None,
            },
            (final(self).modifiers(), r) == key_effect(old(self).modifiers(), key, down),
            final(self).decoder == old(self).decoder,
    {
        match key {
            KeyPress::Modifier(ModifierKey::LShift) => {
                self.lshift = down;
                None
            },
            KeyPress::Modifier(ModifierKey::LAlt) => {
                self.lalt = down;
                None
            },
            KeyPress::Modifier(ModifierKey::LControl) => {
                self.lctrl = down;
                None
            },
            KeyPress::OtherRawKey => None,
            KeyPress::Char(c) => {
                if self.lctrl {
                    None
                } else if down && (c as u32) < 128 {
                    Some(c as u8)
                } else {
                    None
                }
            },
        }
    }

    /// What a key event of the key with the number `k`, pressed when `down`,
    /// does from the state `self`: the layout is applied under the followed
    /// modifier states, every other modifier off, and the key press it gives
    /// goes to `key_effect`.
    pub open spec fn key_event_effect(&self, k: u8, down: bool) -> ((bool, bool, bool), Option<u8>) {
        key_effect(
            self.modifiers(),
            press_of(layout_key(k, self.lshift, false, self.lctrl, false, false, false, self.lalt, false, false)),
            down,
        )
    }

    /// Handles a key event of `key`, pressed when `down`: the layout is
    /// applied to it under the left shift, left control and left alt states,
    /// with right shift, right control, num lock, caps lock and right alt
    /// off, and what it gives goes to [`Keyboard::apply_key`].
    pub fn handle_key_event(&mut self, key: KeyCode, down: bool) -> (r: Option<u8>)
        ensures
            r matches Some(b) ==> b < 128,
            (final(self).modifiers(), r) == old(self).key_event_effect(key_number(key), down),
            final(self).decoder == old(self).decoder,
    {
        let (number, decoded) = map_keycode(key, self.lshift, false, self.lctrl, false, false, false, self.lalt, false, false);
        let press = key_press(decoded);
        let ghost before = *self;
        let r = self.apply_key(press, down);
        assert((self.modifiers(), r) == before.key_event_effect(number, down));
        r
    }

    /// Handles a byte from the keyboard: the decoder of scancode set 1 takes
    /// its step on `code` (`scancode_step`); when that completes a key event,
    /// [`Keyboard::handle_key_event`] handles it, and otherwise nothing else
    /// changes.
    pub fn handle_scancode(&mut self, code: u8) -> (r: Option<u8>)
        ensures
            r matches Some(b) ==> b < 128,
            final(self).decoder == scancode_step(old(self).decoder, code).0,
            match scancode_step(old(self).decoder, code).1 {
                None => r is None && final(self).modifiers() == old(self).modifiers(),
                Some((key, down)) => (final(self).modifiers(), r) == old(self).key_event_effect(key_number(key), down),
            },
    {
        match advance_state(&mut self.decoder, code) {
            Some((key, down)) => {
                let ghost before = *self;
                assert(before.modifiers() == old(self).modifiers());
                let r = self.handle_key_event(key, down);
                assert(before.key_event_effect(key_number(key), down) == old(self).key_event_effect(
                    key_number(key),
                    down,
                ));
                r
            },
            None => None,
        }
    }
}

} // verus!
