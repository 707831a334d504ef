use heapless::Vec;
use tastlib::lex::{Key, REPORT_SIZE};
use tastlib::parse::Emit;
use tastlib::parse::Emit::{Alt, Code, Ctrl, Identity, Mod, Shift};
use tastlib::report::{
    build_keyboard_report, build_keyboard_report_identity, build_keyboard_report_modifiers,
    letter_code_of, push_stroke, report_fits, report_from_chr,
};
use usbd_human_interface_device::page::Keyboard as Keyb;

fn codes(keys: &[Keyb]) -> std::vec::Vec<u8> {
    keys.iter().map(|key| u8::from(*key)).collect()
}

#[test]
fn test_report_identity() {
    let mut keyboard: Vec<u8, REPORT_SIZE> = Vec::new();
    let emit = tastlib::parse::Emit::Identity;
    let identity = Emit::Code(u8::from(Keyb::Q));
    build_keyboard_report_identity(emit, identity, &mut keyboard);
    assert_eq!(u8::from(Keyb::Q), keyboard[0]);
}

#[test]
fn test_report_string() {
    let mut keyboard: Vec<u8, REPORT_SIZE> = Vec::new();
    let emit = Emit::String("Hello");
    let identity = tastlib::parse::Emit::Identity;
    build_keyboard_report_identity(emit, identity, &mut keyboard);
    assert_eq!(u8::from(Keyb::LeftShift), keyboard[0]);
    assert_eq!(u8::from(Keyb::H), keyboard[1]);
    assert_eq!(u8::from(Keyb::Out), keyboard[2]);
    assert_eq!(u8::from(Keyb::E), keyboard[3]);
    assert_eq!(u8::from(Keyb::Out), keyboard[4]);
    assert_eq!(u8::from(Keyb::L), keyboard[5]);
    assert_eq!(u8::from(Keyb::Out), keyboard[6]);
    assert_eq!(u8::from(Keyb::L), keyboard[7]);
    assert_eq!(u8::from(Keyb::Out), keyboard[8]);
    assert_eq!(u8::from(Keyb::O), keyboard[9]);
    assert_eq!(u8::from(Keyb::Out), keyboard[10]);
    assert_eq!(keyboard.len(), 11);
}

#[test]
fn test_report_code() {
    let mut keyboard: Vec<u8, REPORT_SIZE> = Vec::new();
    let emit = Emit::Identity;
    let identity = Emit::Code(u8::from(Keyb::A));
    build_keyboard_report_identity(emit, identity, &mut keyboard);
    assert_eq!(u8::from(Keyb::A), keyboard[0]);
}

#[test]
fn test_report_modifiers_left() {
    let mut keyboard: Vec<u8, REPORT_SIZE> = Vec::new();
    let emit = Emit::Shift(&Emit::Identity);
    let first = &tastlib::lex::Key::L8;
    let emit = build_keyboard_report_modifiers(emit, first, &mut keyboard);
    assert_eq!(u8::from(Keyb::LeftShift), keyboard[0]);
    assert_eq!(Emit::Identity, emit);
}

#[test]
fn test_report_modifiers_right() {
    let mut keyboard: Vec<u8, REPORT_SIZE> = Vec::new();
    let emit = Emit::Ctrl(&Emit::Identity);
    let first = &tastlib::lex::Key::R8;
    let emit = build_keyboard_report_modifiers(emit, first, &mut keyboard);
    assert_eq!(u8::from(Keyb::RightControl), keyboard[0]);
    assert_eq!(Emit::Identity, emit);
}

#[test]
fn test_build_keyboard_report_shift() {
    let mut keyboard: Vec<u8, REPORT_SIZE> = Vec::new();
    let emit = Emit::Shift(&Emit::Identity);
    let first = &Key::R6; // right gui
    let identity = Emit::Code(u8::from(Keyb::Keyboard1));
    build_keyboard_report(emit, identity, first, &mut keyboard);
    assert_eq!(u8::from(Keyb::RightShift), keyboard[0]);
    assert_eq!(u8::from(Keyb::Keyboard1), keyboard[1]);
}

#[test]
fn test_build_keyboard_report_god() {
    let mut keyboard: Vec<u8, REPORT_SIZE> = Vec::new();
    let emit = Mod(&Ctrl(&Alt(&Shift(&Emit::Identity))));
    let first = &Key::R6; // right gui
    let identity = Emit::Code(u8::from(Keyb::Q));
    build_keyboard_report(emit, identity, first, &mut keyboard);
    assert_eq!(u8::from(Keyb::RightGUI), keyboard[0]);
    assert_eq!(u8::from(Keyb::RightControl), keyboard[1]);
    assert_eq!(u8::from(Keyb::RightAlt), keyboard[2]);
    assert_eq!(u8::from(Keyb::RightShift), keyboard[3]);
    assert_eq!(u8::from(Keyb::Q), keyboard[4]);
}

#[test]
fn modifiers_of_the_left_hand() {
    let mut keyboard: Vec<u8, REPORT_SIZE> = Vec::new();
    let emit = Mod(&Ctrl(&Alt(&Shift(&Emit::Identity))));
    build_keyboard_report(emit, Code(u8::from(Keyb::Q)), &Key::L6, &mut keyboard);
    assert_eq!(
        keyboard.as_slice(),
        codes(&[Keyb::LeftGUI, Keyb::LeftControl, Keyb::LeftAlt, Keyb::LeftShift, Keyb::Q])
            .as_slice()
    );
}

#[test]
fn right_hand_chord_gives_right_hand_modifiers() {
    for first in [Key::R1, Key::R9, Key::R17] {
        let mut keyboard: Vec<u8, REPORT_SIZE> = Vec::new();
        let emit: Emit<u8> = Ctrl(&Shift(&Identity));
        let leaf = build_keyboard_report_modifiers(emit, &first, &mut keyboard);
        assert_eq!(Identity, leaf);
        assert_eq!(
            keyboard.as_slice(),
            codes(&[Keyb::RightControl, Keyb::RightShift]).as_slice()
        );
    }
}

#[test]
fn modifiers_keep_what_the_report_held() {
    let mut keyboard: Vec<u8, REPORT_SIZE> = Vec::new();
    keyboard.push(u8::from(Keyb::A)).unwrap();
    let emit: Emit<u8> = Alt(&Code(7));
    let leaf = build_keyboard_report_modifiers(emit, &Key::L1, &mut keyboard);
    assert_eq!(Code(7), leaf);
    assert_eq!(keyboard.as_slice(), codes(&[Keyb::A, Keyb::LeftAlt]).as_slice());
}

#[test]
fn leaf_without_modifiers_pushes_nothing() {
    let mut keyboard: Vec<u8, REPORT_SIZE> = Vec::new();
    let leaf = build_keyboard_report_modifiers(Emit::String("hello"), &Key::L1, &mut keyboard);
    assert_eq!(Emit::String("hello"), leaf);
    assert!(keyboard.is_empty());
}

#[test]
fn layer_mapping_stands_in_for_identity() {
    // The key of the shift layer began the chord and no rule matched: what
    // the layer maps the last key to is emitted, not its base code.
    let shift_layer_of_k = Emit::Code(u8::from(Keyb::Keyboard8));
    let mut keyboard: Vec<u8, REPORT_SIZE> = Vec::new();
    build_keyboard_report(Identity, shift_layer_of_k, &Key::L16, &mut keyboard);
    assert_eq!(keyboard.as_slice(), codes(&[Keyb::Keyboard8]).as_slice());
}

#[test]
fn code_ignores_identity() {
    let mut keyboard: Vec<u8, REPORT_SIZE> = Vec::new();
    build_keyboard_report_identity(Code(9), Code(8), &mut keyboard);
    assert_eq!(keyboard.as_slice(), &[9]);
}

#[test]
fn identity_may_be_a_text() {
    let mut keyboard: Vec<u8, REPORT_SIZE> = Vec::new();
    build_keyboard_report_identity(Identity, Emit::String("he"), &mut keyboard);
    assert_eq!(keyboard.as_slice(), codes(&[Keyb::H, Keyb::Out, Keyb::E, Keyb::Out]).as_slice());
}

#[test]
fn unresolved_identity_adds_nothing() {
    let mut keyboard: Vec<u8, REPORT_SIZE> = Vec::new();
    build_keyboard_report_identity(Identity, Identity, &mut keyboard);
    assert!(keyboard.is_empty());
    build_keyboard_report_identity(Identity, Shift(&Code(4)), &mut keyboard);
    assert!(keyboard.is_empty());
    build_keyboard_report_identity(Shift(&Code(4)), Code(5), &mut keyboard);
    assert!(keyboard.is_empty());
}

#[test]
fn text_marks_uppercase_and_separates_letters() {
    let mut keyboard: Vec<u8, REPORT_SIZE> = Vec::new();
    build_keyboard_report_identity(Emit::String("oLl"), Identity, &mut keyboard);
    assert_eq!(
        keyboard.as_slice(),
        codes(&[
            Keyb::O,
            Keyb::Out,
            Keyb::LeftShift,
            Keyb::L,
            Keyb::Out,
            Keyb::L,
            Keyb::Out
        ])
        .as_slice()
    );
}

#[test]
fn empty_text_adds_nothing() {
    let mut keyboard: Vec<u8, REPORT_SIZE> = Vec::new();
    build_keyboard_report_identity(Emit::String(""), Identity, &mut keyboard);
    assert!(keyboard.is_empty());
}

#[test]
fn letters_with_a_code() {
    assert_eq!(report_from_chr('h'), u8::from(Keyb::H));
    assert_eq!(report_from_chr('e'), u8::from(Keyb::E));
    assert_eq!(report_from_chr('l'), u8::from(Keyb::L));
    assert_eq!(report_from_chr('o'), u8::from(Keyb::O));
    assert_eq!(report_from_chr('H'), u8::from(Keyb::H));
    assert_eq!(report_from_chr('E'), u8::from(Keyb::E));
    assert_eq!(report_from_chr('L'), u8::from(Keyb::L));
    assert_eq!(report_from_chr('O'), u8::from(Keyb::O));
}

#[test]
fn characters_without_a_code() {
    assert_eq!(report_from_chr('a'), u8::from(Keyb::NoEventIndicated));
    assert_eq!(report_from_chr(' '), u8::from(Keyb::NoEventIndicated));
    assert_eq!(report_from_chr('1'), u8::from(Keyb::NoEventIndicated));
    assert_eq!(report_from_chr('\u{130}'), u8::from(Keyb::NoEventIndicated));
}

#[test]
fn usage_codes_are_those_of_the_keyboard_page() {
    assert_eq!(tastlib::report::NO_EVENT, u8::from(Keyb::NoEventIndicated));
    assert_eq!(tastlib::report::KEY_E, u8::from(Keyb::E));
    assert_eq!(tastlib::report::KEY_H, u8::from(Keyb::H));
    assert_eq!(tastlib::report::KEY_L, u8::from(Keyb::L));
    assert_eq!(tastlib::report::KEY_O, u8::from(Keyb::O));
    assert_eq!(tastlib::report::OUT, u8::from(Keyb::Out));
    assert_eq!(tastlib::report::LEFT_CONTROL, u8::from(Keyb::LeftControl));
    assert_eq!(tastlib::report::LEFT_SHIFT, u8::from(Keyb::LeftShift));
    assert_eq!(tastlib::report::LEFT_ALT, u8::from(Keyb::LeftAlt));
    assert_eq!(tastlib::report::LEFT_GUI, u8::from(Keyb::LeftGUI));
    assert_eq!(tastlib::report::RIGHT_CONTROL, u8::from(Keyb::RightControl));
    assert_eq!(tastlib::report::RIGHT_SHIFT, u8::from(Keyb::RightShift));
    assert_eq!(tastlib::report::RIGHT_ALT, u8::from(Keyb::RightAlt));
    assert_eq!(tastlib::report::RIGHT_GUI, u8::from(Keyb::RightGUI));
}

#[test]
fn report_fits_counts_every_code() {
    let empty: Vec<u8, REPORT_SIZE> = Vec::new();
    assert!(report_fits(Identity, Identity, &empty));
    assert!(report_fits(Mod(&Ctrl(&Alt(&Shift(&Identity)))), Code(1), &empty));

    // 32 lowercase characters need 64 codes, which is the capacity.
    const FULL: &str = "hellohellohellohellohellohellohe";
    assert_eq!(2 * FULL.len(), REPORT_SIZE);
    assert!(report_fits(Emit::String(FULL), Identity, &empty));
    assert!(report_fits(Identity, Emit::String(FULL), &empty));
    assert!(!report_fits(Shift(&Emit::String(FULL)), Identity, &empty));

    // One uppercase character needs one code more.
    let text = "Hellohellohellohellohellohellohe";
    assert!(!report_fits(Emit::String(text), Identity, &empty));

    let mut used: Vec<u8, REPORT_SIZE> = Vec::new();
    for _ in 0..(REPORT_SIZE - 1) {
        used.push(0).unwrap();
    }
    assert!(report_fits(Code(1), Identity, &used));
    assert!(!report_fits(Shift(&Code(1)), Identity, &used));
    used.push(0).unwrap();
    assert!(report_fits(Identity, Identity, &used));
    assert!(!report_fits(Code(1), Identity, &used));
}

#[test]
fn report_filled_to_capacity() {
    let mut keyboard: Vec<u8, REPORT_SIZE> = Vec::new();
    let text = "hellohellohellohellohellohellohe";
    build_keyboard_report(Emit::String(text), Identity, &Key::L1, &mut keyboard);
    assert_eq!(keyboard.len(), REPORT_SIZE);
    assert_eq!(keyboard[62], u8::from(Keyb::E));
    assert_eq!(keyboard[63], u8::from(Keyb::Out));
}

#[test]
fn lowercase_letters_and_their_codes() {
    assert_eq!(letter_code_of('h'), u8::from(Keyb::H));
    assert_eq!(letter_code_of('e'), u8::from(Keyb::E));
    assert_eq!(letter_code_of('l'), u8::from(Keyb::L));
    assert_eq!(letter_code_of('o'), u8::from(Keyb::O));
    assert_eq!(letter_code_of('H'), u8::from(Keyb::NoEventIndicated));
    assert_eq!(letter_code_of('x'), u8::from(Keyb::NoEventIndicated));
}

#[test]
fn stroke_with_and_without_shift() {
    let mut keyboard: Vec<u8, REPORT_SIZE> = Vec::new();
    push_stroke(false, 7, &mut keyboard);
    assert_eq!(keyboard.as_slice(), &[7, u8::from(Keyb::Out)]);
    push_stroke(true, 9, &mut keyboard);
    assert_eq!(
        keyboard.as_slice(),
        &[7, u8::from(Keyb::Out), u8::from(Keyb::LeftShift), 9, u8::from(Keyb::Out)]
    );
}
