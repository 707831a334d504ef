//! Key transitions from typed characters, for driving the engine by hand: an
//! uppercase character presses a key, its lowercase counterpart releases it.

use crate::buffers::{log_events, log_push};
use crate::lex::{Event, Key, STACK_SIZE};
use vstd::prelude::*;

verus! {

/// The key that a character presses.
pub open spec fn pressed_by(value: char) -> Option<Key> {
    match value {
        'Q' => Some(Key::L1),
        'W' => Some(Key::L2),
        'E' => Some(Key::L3),
        'R' => Some(Key::L4),
        'T' => Some(Key::L5),
        'A' => Some(Key::L6),
        'S' => Some(Key::L7),
        'D' => Some(Key::L8),
        'F' => Some(Key::L9),
        'G' => Some(Key::L10),
        'Z' => Some(Key::L11),
        'X' => Some(Key::L12),
        'C' => Some(Key::L13),
        'V' => Some(Key::L14),
        'B' => Some(Key::L15),
        'Y' => Some(Key::R5),
        'U' => Some(Key::R4),
        'I' => Some(Key::R3),
        'O' => Some(Key::R2),
        'P' => Some(Key::R1),
        'H' => Some(Key::R10),
        'J' => Some(Key::R9),
        'K' => Some(Key::R8),
        'L' => Some(Key::R7),
        ':' => Some(Key::R6),
        'N' => Some(Key::R15),
        'M' => Some(Key::R14),
        '<' => Some(Key::R13),
        '>' => Some(Key::R12),
        '?' => Some(Key::R11),
        _ => None,
    }
}

/// The character that releases what `value` presses: the lowercase letter of
/// an uppercase letter, and the unshifted character of a shifted sign.
pub open spec fn release_of(value: char) -> char {
    if 'A' <= value <= 'Z' {
        ((value as u32) + 32) as char
    } else if value == ':' {
        ';'
    } else if value == '<' {
        ','
    } else if value == '>' {
        '.'
    } else if value == '?' {
        '/'
    } else {
        value
    }
}

/// The key that a character releases.
pub open spec fn released_by(value: char) -> Option<Key> {
    match value {
        'q' => Some(Key::L1),
        'w' => Some(Key::L2),
        'e' => Some(Key::L3),
        'r' => Some(Key::L4),
        't' => Some(Key::L5),
        'a' => Some(Key::L6),
        's' => Some(Key::L7),
        'd' => Some(Key::L8),
        'f' => Some(Key::L9),
        'g' => Some(Key::L10),
        'z' => Some(Key::L11),
        'x' => Some(Key::L12),
        'c' => Some(Key::L13),
        'v' => Some(Key::L14),
        'b' => Some(Key::L15),
        'y' => Some(Key::R5),
        'u' => Some(Key::R4),
        'i' => Some(Key::R3),
        'o' => Some(Key::R2),
        'p' => Some(Key::R1),
        'h' => Some(Key::R10),
        'j' => Some(Key::R9),
        'k' => Some(Key::R8),
        'l' => Some(Key::R7),
        ';' => Some(Key::R6),
        'n' => Some(Key::R15),
        'm' => Some(Key::R14),
        ',' => Some(Key::R13),
        '.' => Some(Key::R12),
        '/' => Some(Key::R11),
        _ => None,
    }
}

/// The transition that a character stands for, if any.
pub open spec fn simulated(value: char) -> Option<Event> {
    match pressed_by(value) {
        Some(key) => Some(Event::Down(key)),
        None => match released_by(value) {
            Some(key) => Some(Event::Up(key)),
            None => None,
        },
    }
}

/// Every character that presses a key has a counterpart that releases the
/// same key, and no character does both.
pub proof fn lemma_release_matches_press(value: char)
    ensures
        pressed_by(value) is Some ==> released_by(release_of(value)) == pressed_by(value),
        !(pressed_by(value) is Some && released_by(value) is Some),
{
}

/// The transition that a typed character stands for; `None` for a character
/// that stands for none.
pub fn simulate_tastlib_input(value: char) -> (event: Option<Event>)
    ensures
        event == simulated(value),
{
    let down = match value {
        'Q' => Key::L1,
        'W' => Key::L2,
        'E' => Key::L3,
        'R' => Key::L4,
        'T' => Key::L5,
        'A' => Key::L6,
        'S' => Key::L7,
        'D' => Key::L8,
        'F' => Key::L9,
        'G' => Key::L10,
        'Z' => Key::L11,
        'X' => Key::L12,
        'C' => Key::L13,
        'V' => Key::L14,
        'B' => Key::L15,
        'Y' => Key::R5,
        'U' => Key::R4,
        'I' => Key::R3,
        'O' => Key::R2,
        'P' => Key::R1,
        'H' => Key::R10,
        'J' => Key::R9,
        'K' => Key::R8,
        'L' => Key::R7,
        ':' => Key::R6,
        'N' => Key::R15,
        'M' => Key::R14,
        '<' => Key::R13,
        '>' => Key::R12,
        '?' => Key::R11,
        _ => {
            let up = match value {
                'q' => Key::L1,
                'w' => Key::L2,
                'e' => Key::L3,
                'r' => Key::L4,
                't' => Key::L5,
                'a' => Key::L6,
                's' => Key::L7,
                'd' => Key::L8,
                'f' => Key::L9,
                'g' => Key::L10,
                'z' => Key::L11,
                'x' => Key::L12,
                'c' => Key::L13,
                'v' => Key::L14,
                'b' => Key::L15,
                'y' => Key::R5,
                'u' => Key::R4,
                'i' => Key::R3,
                'o' => Key::R2,
                'p' => Key::R1,
                'h' => Key::R10,
                'j' => Key::R9,
                'k' => Key::R8,
                'l' => Key::R7,
                ';' => Key::R6,
                'n' => Key::R15,
                'm' => Key::R14,
                ',' => Key::R13,
                '.' => Key::R12,
                '/' => Key::R11,
                _ => {
                    return None;
                },
            };
            return Some(Event::Up(up));
        },
    };
    Some(Event::Down(down))
}

/// One stroke of a toggling key: a press where the toggle is off, a release
/// where it is on. The transition goes to the end of the log, the character
/// to the end of the typed text, and the toggle flips.
pub fn sim(
    key: Key,
    toggler: &mut bool,
    stack: &mut heapless::Vec<Event, STACK_SIZE>,
    charstck: &mut Vec<char>,
    chr: char,
)
    requires
        log_events(*old(stack)).len() < STACK_SIZE,
    ensures
        *final(toggler) == !*old(toggler),
        log_events(*final(stack)) == log_events(*old(stack)).push(
            if *old(toggler) {
                Event::Up(key)
            } else {
                Event::Down(key)
            },
        ),
        final(charstck)@ == old(charstck)@.push(chr),
{
    charstck.push(chr);
    let evt = if *toggler {
        Event::Up(key)
    } else {
        Event::Down(key)
    };
    *toggler = !*toggler;
    let _ = log_push(stack, evt);
}

} // verus!
