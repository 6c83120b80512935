//! The keys the game reacts to.

use vstd::prelude::*;

verus! {

/// A key press, as the game distinguishes keys.
#[derive(Clone, Copy, Debug, PartialEq, Eq, Structural)]
pub enum Key {
    Key1, Key2, Key3, Key4, Key5, Key6, Key7, Key8, Key9, Key0,
    A, B, C, D, E, F, G, H, I, J, K, L, M, N, O, P, Q, R, S, T, U, V, W, X, Y, Z,
    Left, Right, Up, Down,
    Numpad1, Numpad2, Numpad3, Numpad4, Numpad5, Numpad6, Numpad7, Numpad8, Numpad9,
    Space, Period, Comma, Escape, Backslash, Return, Back, Equals, Minus,
    Other,
}

/// The position of a letter in the alphabet (A is 0), or -1 for any other key.
pub open spec fn spec_letter_to_option(key: Key) -> int {
    match key {
        Key::A => 0, Key::B => 1, Key::C => 2, Key::D => 3, Key::E => 4, Key::F => 5,
        Key::G => 6, Key::H => 7, Key::I => 8, Key::J => 9, Key::K => 10, Key::L => 11,
        Key::M => 12, Key::N => 13, Key::O => 14, Key::P => 15, Key::Q => 16, Key::R => 17,
        Key::S => 18, Key::T => 19, Key::U => 20, Key::V => 21, Key::W => 22, Key::X => 23,
        Key::Y => 24, Key::Z => 25,
        _ => -1,
    }
}

/// The menu option a letter key picks: A is 0, B is 1, ..., and -1 for any other key.
pub fn letter_to_option(key: Key) -> (o: i32)
    ensures
        o == spec_letter_to_option(key),
{
    match key {
        Key::A => 0, Key::B => 1, Key::C => 2, Key::D => 3, Key::E => 4, Key::F => 5,
        Key::G => 6, Key::H => 7, Key::I => 8, Key::J => 9, Key::K => 10, Key::L => 11,
        Key::M => 12, Key::N => 13, Key::O => 14, Key::P => 15, Key::Q => 16, Key::R => 17,
        Key::S => 18, Key::T => 19, Key::U => 20, Key::V => 21, Key::W => 22, Key::X => 23,
        Key::Y => 24, Key::Z => 25,
        _ => -1,
    }
}

/// The number on a digit key 1 to 9.
pub open spec fn spec_digit_key(key: Key) -> Option<i32> {
    match key {
        Key::Key1 => Some(1i32), Key::Key2 => Some(2i32), Key::Key3 => Some(3i32),
        Key::Key4 => Some(4i32), Key::Key5 => Some(5i32), Key::Key6 => Some(6i32),
        Key::Key7 => Some(7i32), Key::Key8 => Some(8i32), Key::Key9 => Some(9i32),
        _ => None,
    }
}

pub fn digit_key(key: Key) -> (d: Option<i32>)
    ensures
        d == spec_digit_key(key),
{
    match key {
        Key::Key1 => Some(1), Key::Key2 => Some(2), Key::Key3 => Some(3),
        Key::Key4 => Some(4), Key::Key5 => Some(5), Key::Key6 => Some(6),
        Key::Key7 => Some(7), Key::Key8 => Some(8), Key::Key9 => Some(9),
        _ => None,
    }
}

} // verus!
