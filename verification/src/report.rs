//! The report synthesizer: from a classification to HID usage codes.

use crate::buffers::{
    chord_keys, chord_new, chord_push, chord_slice, log_events, report_codes, report_new,
    report_push, report_slice,
};
use crate::chars::{is_uppercase, lowercase_of, to_lowercase, uppercase};
use crate::layer::{layer_code, lookup, Layer};
use crate::lex::{
    chord, chord_fits, peek_chord, segment, Event, Key, Pressed, PRESS_SIZE, REPORT_SIZE,
    STACK_SIZE,
};
use crate::parse::{classify, parse_with, ChordEmit, Emit};
use vstd::prelude::*;

verus! {

/// Usage code of the HID keyboard page for "no event".
pub const NO_EVENT: u8 = 0x00;

/// Usage code of the letter E.
pub const KEY_E: u8 = 0x08;

/// Usage code of the letter H.
pub const KEY_H: u8 = 0x0B;

/// Usage code of the letter L.
pub const KEY_L: u8 = 0x0F;

/// Usage code of the letter O.
pub const KEY_O: u8 = 0x12;

/// Usage code that stands behind every character of a text: the key is
/// released, so that a repeated letter can be told from a held one.
pub const OUT: u8 = 0xA0;

/// Usage code of the left control key.
pub const LEFT_CONTROL: u8 = 0xE0;

/// Usage code of the left shift key.
pub const LEFT_SHIFT: u8 = 0xE1;

/// Usage code of the left alt key.
pub const LEFT_ALT: u8 = 0xE2;

/// Usage code of the left GUI key.
pub const LEFT_GUI: u8 = 0xE3;

/// Usage code of the right control key.
pub const RIGHT_CONTROL: u8 = 0xE4;

/// Usage code of the right shift key.
pub const RIGHT_SHIFT: u8 = 0xE5;

/// Usage code of the right alt key.
pub const RIGHT_ALT: u8 = 0xE6;

/// Usage code of the right GUI key.
pub const RIGHT_GUI: u8 = 0xE7;

/// The modifier codes of the wrappers around the leaf of `emit`, outermost
/// first, each in the variant of the hand that began the chord.
pub open spec fn modifier_codes(emit: Emit<u8>, left: bool) -> Seq<u8>
    decreases emit,
{
    match emit {
        Emit::Mod(next) => seq![if left { LEFT_GUI } else { RIGHT_GUI }] + modifier_codes(
            *next,
            left,
        ),
        Emit::Alt(next) => seq![if left { LEFT_ALT } else { RIGHT_ALT }] + modifier_codes(
            *next,
            left,
        ),
        Emit::Shift(next) => seq![if left { LEFT_SHIFT } else { RIGHT_SHIFT }] + modifier_codes(
            *next,
            left,
        ),
        Emit::Ctrl(next) => seq![if left { LEFT_CONTROL } else { RIGHT_CONTROL }]
            + modifier_codes(*next, left),
        _ => Seq::empty(),
    }
}

/// What is left of `emit` when its modifier wrappers are taken off.
pub open spec fn leaf_of(emit: Emit<u8>) -> Emit<u8>
    decreases emit,
{
    match emit {
        Emit::Mod(next) => leaf_of(*next),
        Emit::Alt(next) => leaf_of(*next),
        Emit::Shift(next) => leaf_of(*next),
        Emit::Ctrl(next) => leaf_of(*next),
        _ => emit,
    }
}

/// The code of a lowercase letter that has one; `NO_EVENT` for any other
/// character.
pub open spec fn letter_code(letter: char) -> u8 {
    if letter == 'h' {
        KEY_H
    } else if letter == 'e' {
        KEY_E
    } else if letter == 'l' {
        KEY_L
    } else if letter == 'o' {
        KEY_O
    } else {
        NO_EVENT
    }
}

/// The key code of a character: that of the last character of its lowercase
/// mapping.
pub open spec fn char_code(chr: char) -> u8 {
    letter_code(lowercase_of(chr).last())
}

/// The codes of one stroke of a text: a shift marker where the stroke is an
/// uppercase one, then the key code, then `OUT`.
pub open spec fn key_stroke(upper: bool, code: u8) -> Seq<u8> {
    if upper {
        seq![LEFT_SHIFT, code, OUT]
    } else {
        seq![code, OUT]
    }
}

/// The codes of one character of a text: the stroke of its key code,
/// uppercase where the character is.
pub open spec fn char_codes(chr: char) -> Seq<u8> {
    key_stroke(uppercase(chr), char_code(chr))
}

/// The codes of a text: those of its characters, in order.
pub open spec fn text_codes(text: Seq<char>) -> Seq<u8>
    decreases text.len(),
{
    if text.len() == 0 {
        Seq::empty()
    } else {
        text_codes(text.drop_last()) + char_codes(text.last())
    }
}

/// The codes of a leaf that stands for itself. A text and a code do; nothing
/// else does.
pub open spec fn terminal_codes(leaf: Emit<u8>) -> Seq<u8> {
    match leaf {
        Emit::String(text) => text_codes(text@),
        Emit::Code(code) => seq![code],
        _ => Seq::empty(),
    }
}

/// The codes of the leaf `emit`, with `identity` standing in where the leaf
/// is `Identity`.
pub open spec fn leaf_codes(emit: Emit<u8>, identity: Emit<u8>) -> Seq<u8> {
    match emit {
        Emit::Identity => terminal_codes(identity),
        _ => terminal_codes(emit),
    }
}

/// The whole expansion of `emit` for a chord whose first key is `first`:
/// the modifier codes, then the codes of the leaf.
pub open spec fn expansion(emit: Emit<u8>, identity: Emit<u8>, first: Key) -> Seq<u8> {
    modifier_codes(emit, first.on_left()) + leaf_codes(leaf_of(emit), identity)
}

/// The number of modifier wrappers around the leaf of `emit`.
pub open spec fn modifier_count(emit: Emit<u8>) -> nat
    decreases emit,
{
    match emit {
        Emit::Mod(next) => 1 + modifier_count(*next),
        Emit::Alt(next) => 1 + modifier_count(*next),
        Emit::Shift(next) => 1 + modifier_count(*next),
        Emit::Ctrl(next) => 1 + modifier_count(*next),
        _ => 0,
    }
}

/// The number of codes of a text: two for each character and one more for
/// each uppercase character.
pub open spec fn text_len(text: Seq<char>) -> nat
    decreases text.len(),
{
    if text.len() == 0 {
        0
    } else {
        text_len(text.drop_last()) + if uppercase(text.last()) {
            3nat
        } else {
            2nat
        }
    }
}

/// The number of codes of a leaf that stands for itself.
pub open spec fn terminal_len(leaf: Emit<u8>) -> nat {
    match leaf {
        Emit::String(text) => text_len(text@),
        Emit::Code(_) => 1,
        _ => 0,
    }
}

/// The number of codes of the leaf `emit`.
pub open spec fn leaf_len(emit: Emit<u8>, identity: Emit<u8>) -> nat {
    match emit {
        Emit::Identity => terminal_len(identity),
        _ => terminal_len(emit),
    }
}

/// The number of codes of the whole expansion of `emit`.
pub open spec fn expansion_len(emit: Emit<u8>, identity: Emit<u8>) -> nat {
    modifier_count(emit) + leaf_len(leaf_of(emit), identity)
}

/// `text_len` is the length of `text_codes`.
pub proof fn lemma_text_len(text: Seq<char>)
    ensures
        text_codes(text).len() == text_len(text),
    decreases text.len(),
{
    if text.len() > 0 {
        lemma_text_len(text.drop_last());
    }
}

/// The lengths above are the lengths of the code sequences, whichever hand
/// began the chord.
pub proof fn lemma_expansion_len(emit: Emit<u8>, identity: Emit<u8>, first: Key)
    ensures
        modifier_codes(emit, first.on_left()).len() == modifier_count(emit),
        leaf_codes(leaf_of(emit), identity).len() == leaf_len(leaf_of(emit), identity),
        expansion(emit, identity, first).len() == expansion_len(emit, identity),
    decreases emit,
{
    match emit {
        Emit::Mod(next) => lemma_expansion_len(*next, identity, first),
        Emit::Alt(next) => lemma_expansion_len(*next, identity, first),
        Emit::Shift(next) => lemma_expansion_len(*next, identity, first),
        Emit::Ctrl(next) => lemma_expansion_len(*next, identity, first),
        Emit::String(text) => lemma_text_len(text@),
        Emit::Identity => {
            if let Emit::String(text) = identity {
                lemma_text_len(text@);
            }
        },
        _ => {},
    }
}

/// `code` is a modifier code of the left hand (`left`) or of the right hand.
pub open spec fn modifier_of_hand(code: u8, left: bool) -> bool {
    if left {
        code == LEFT_CONTROL || code == LEFT_SHIFT || code == LEFT_ALT || code == LEFT_GUI
    } else {
        code == RIGHT_CONTROL || code == RIGHT_SHIFT || code == RIGHT_ALT || code == RIGHT_GUI
    }
}

/// Handedness: every modifier code of an expansion is of the hand of the
/// chord's first key, however long the chain of modifiers is.
pub proof fn lemma_modifiers_follow_first_key(emit: Emit<u8>, first: Key)
    ensures
        forall|i: int|
            0 <= i < modifier_codes(emit, first.on_left()).len() ==> modifier_of_hand(
                #[trigger] modifier_codes(emit, first.on_left())[i],
                first.on_left(),
            ),
    decreases emit,
{
    let left = first.on_left();
    let codes = modifier_codes(emit, left);
    match emit {
        Emit::Mod(next) => {
            lemma_modifiers_follow_first_key(*next, first);
            lemma_hand_of_all(codes[0], modifier_codes(*next, left), left);
        },
        Emit::Alt(next) => {
            lemma_modifiers_follow_first_key(*next, first);
            lemma_hand_of_all(codes[0], modifier_codes(*next, left), left);
        },
        Emit::Shift(next) => {
            lemma_modifiers_follow_first_key(*next, first);
            lemma_hand_of_all(codes[0], modifier_codes(*next, left), left);
        },
        Emit::Ctrl(next) => {
            lemma_modifiers_follow_first_key(*next, first);
            lemma_hand_of_all(codes[0], modifier_codes(*next, left), left);
        },
        _ => {},
    }
}

proof fn lemma_hand_of_all(head: u8, rest: Seq<u8>, left: bool)
    requires
        modifier_of_hand(head, left),
        forall|i: int| 0 <= i < rest.len() ==> modifier_of_hand(#[trigger] rest[i], left),
    ensures
        forall|i: int|
            0 <= i < (seq![head] + rest).len() ==> modifier_of_hand(
                #[trigger] (seq![head] + rest)[i],
                left,
            ),
{
    assert forall|i: int| 0 <= i < (seq![head] + rest).len() implies modifier_of_hand(
        #[trigger] (seq![head] + rest)[i],
        left,
    ) by {
        if i > 0 {
            assert((seq![head] + rest)[i] == rest[i - 1]);
        }
    }
}

/// A chord begun by the right hand and classified as control around shift
/// around `Identity` gives right control, then right shift, then what
/// `Identity` stands for.
pub proof fn lemma_right_control_shift(emit: Emit<u8>, identity: Emit<u8>, first: Key)
    requires
        first.on_right(),
        emit matches Emit::Ctrl(inner) && (*inner matches Emit::Shift(leaf) && *leaf
            == Emit::<u8>::Identity),
    ensures
        expansion(emit, identity, first) == seq![RIGHT_CONTROL, RIGHT_SHIFT] + terminal_codes(
            identity,
        ),
{
    reveal_with_fuel(modifier_codes, 3);
    reveal_with_fuel(leaf_of, 3);
    assert(modifier_codes(emit, false) =~= seq![RIGHT_CONTROL, RIGHT_SHIFT]);
}

/// An empty chord gives an empty report under every rule table, and so does
/// an empty log: nothing of an earlier cycle comes back.
pub proof fn lemma_empty_chord_empty_report(rules: Seq<ChordEmit<u8>>)
    ensures
        eval_codes(Seq::empty(), rules) == Seq::<u8>::empty(),
        eval_len(Seq::empty(), rules) == 0,
        eval_codes(segment(Seq::empty()).keys, rules) == Seq::<u8>::empty(),
        eval_len(segment(Seq::empty()).keys, rules) == 0,
        segment(Seq::empty()).consumed == 0,
{
}

/// A prefix of a text needs no more room than the text, and each character
/// behind the prefix needs at least two codes more.
proof fn lemma_text_len_prefix(text: Seq<char>, k: int)
    requires
        0 <= k <= text.len(),
    ensures
        text_len(text.take(k)) + 2 * (text.len() - k) <= text_len(text),
    decreases text.len() - k,
{
    if k == text.len() {
        assert(text.take(k) =~= text);
    } else {
        lemma_text_len_prefix(text, k + 1);
        assert(text.take(k + 1).drop_last() =~= text.take(k));
    }
}

/// Pushes the modifier codes of `emit` and returns its leaf.
pub fn build_keyboard_report_modifiers(
    emit: Emit<u8>,
    first: &Key,
    keyboard: &mut heapless::Vec<u8, REPORT_SIZE>,
) -> (leaf: Emit<u8>)
    requires
        report_codes(*old(keyboard)).len() + modifier_count(emit) <= REPORT_SIZE,
    ensures
        leaf == leaf_of(emit),
        report_codes(*final(keyboard)) == report_codes(*old(keyboard)) + modifier_codes(
            emit,
            first.on_left(),
        ),
    decreases emit,
{
    let ghost before = report_codes(*keyboard);
    match emit {
        Emit::Mod(next) => {
            if first.is_left() {
                let _ = report_push(keyboard, LEFT_GUI);
            } else {
                let _ = report_push(keyboard, RIGHT_GUI);
            }
            let leaf = build_keyboard_report_modifiers(*next, first, keyboard);
            assert(report_codes(*keyboard) =~= before + modifier_codes(emit, first.on_left()));
            leaf
        },
        Emit::Alt(next) => {
            if first.is_left() {
                let _ = report_push(keyboard, LEFT_ALT);
            } else {
                let _ = report_push(keyboard, RIGHT_ALT);
            }
            let leaf = build_keyboard_report_modifiers(*next, first, keyboard);
            assert(report_codes(*keyboard) =~= before + modifier_codes(emit, first.on_left()));
            leaf
        },
        Emit::Shift(next) => {
            if first.is_left() {
                let _ = report_push(keyboard, LEFT_SHIFT);
            } else {
                let _ = report_push(keyboard, RIGHT_SHIFT);
            }
            let leaf = build_keyboard_report_modifiers(*next, first, keyboard);
            assert(report_codes(*keyboard) =~= before + modifier_codes(emit, first.on_left()));
            leaf
        },
        Emit::Ctrl(next) => {
            if first.is_left() {
                let _ = report_push(keyboard, LEFT_CONTROL);
            } else {
                let _ = report_push(keyboard, RIGHT_CONTROL);
            }
            let leaf = build_keyboard_report_modifiers(*next, first, keyboard);
            assert(report_codes(*keyboard) =~= before + modifier_codes(emit, first.on_left()));
            leaf
        },
        _ => {
            assert(before =~= before + modifier_codes(emit, first.on_left()));
            emit
        },
    }
}

/// The code of a lowercase letter that has one; `NO_EVENT` for any other
/// character.
pub fn letter_code_of(letter: char) -> (code: u8)
    ensures
        code == letter_code(letter),
{
    if letter == 'h' {
        KEY_H
    } else if letter == 'e' {
        KEY_E
    } else if letter == 'l' {
        KEY_L
    } else if letter == 'o' {
        KEY_O
    } else {
        NO_EVENT
    }
}

/// The key code of a character of a text.
pub fn report_from_chr(chr: char) -> (code: u8)
    ensures
        code == char_code(chr),
{
    let lower = to_lowercase(chr);
    letter_code_of(lower[lower.len() - 1])
}

/// Pushes one stroke of a text: a shift marker where the stroke is an
/// uppercase one, then the key code, then `OUT`.
pub fn push_stroke(upper: bool, code: u8, keyboard: &mut heapless::Vec<u8, REPORT_SIZE>)
    requires
        report_codes(*old(keyboard)).len() + key_stroke(upper, code).len() <= REPORT_SIZE,
    ensures
        report_codes(*final(keyboard)) == report_codes(*old(keyboard)) + key_stroke(upper, code),
{
    let ghost before = report_codes(*keyboard);
    if upper {
        let _ = report_push(keyboard, LEFT_SHIFT);
    }
    let _ = report_push(keyboard, code);
    let _ = report_push(keyboard, OUT);
    assert(report_codes(*keyboard) =~= before + key_stroke(upper, code));
}

/// Pushes the codes of a leaf that stands for itself.
fn push_terminal(leaf: Emit<u8>, keyboard: &mut heapless::Vec<u8, REPORT_SIZE>)
    requires
        report_codes(*old(keyboard)).len() + terminal_len(leaf) <= REPORT_SIZE,
    ensures
        report_codes(*final(keyboard)) == report_codes(*old(keyboard)) + terminal_codes(leaf),
{
    let ghost before = report_codes(*keyboard);
    match leaf {
        Emit::String(text) => {
            for chr in iter: text.chars()
                invariant
                    iter.seq() == text@,
                    before.len() + text_len(text@) <= REPORT_SIZE,
                    report_codes(*keyboard) == before + text_codes(text@.take(iter.index())),
            {
                proof {
                    let k = iter.index();
                    lemma_text_len(text@.take(k));
                    lemma_text_len_prefix(text@, k + 1);
                    assert(text@.take(k + 1).drop_last() =~= text@.take(k));
                }
                push_stroke(is_uppercase(chr), report_from_chr(chr), keyboard);
                assert(report_codes(*keyboard) =~= before + text_codes(
                    text@.take(iter.index() + 1),
                ));
            }
            assert(text@.take(text@.len() as int) =~= text@);
        },
        Emit::Code(code) => {
            let _ = report_push(keyboard, code);
        },
        _ => {
            assert(before =~= before + terminal_codes(leaf));
        },
    }
}

/// Pushes the codes of the leaf `emit`; where the leaf is `Identity`, those
/// of `identity` in its place. An `identity` that is itself no text and no
/// code adds nothing.
pub fn build_keyboard_report_identity(
    emit: Emit<u8>,
    identity: Emit<u8>,
    keyboard: &mut heapless::Vec<u8, REPORT_SIZE>,
)
    requires
        report_codes(*old(keyboard)).len() + leaf_len(emit, identity) <= REPORT_SIZE,
    ensures
        report_codes(*final(keyboard)) == report_codes(*old(keyboard)) + leaf_codes(
            emit,
            identity,
        ),
{
    match emit {
        Emit::Identity => push_terminal(identity, keyboard),
        _ => push_terminal(emit, keyboard),
    }
}

/// Expands a classification into the report: first the modifier codes, in
/// the variant of the hand of `first`, then the codes of the leaf. The report
/// has to have room for them, which `report_fits` tells.
pub fn build_keyboard_report(
    emit: Emit<u8>,
    identity: Emit<u8>,
    first: &Key,
    keyboard: &mut heapless::Vec<u8, REPORT_SIZE>,
)
    requires
        report_codes(*old(keyboard)).len() + expansion_len(emit, identity) <= REPORT_SIZE,
    ensures
        report_codes(*final(keyboard)) == report_codes(*old(keyboard)) + expansion(
            emit,
            identity,
            *first,
        ),
{
    proof {
        lemma_expansion_len(emit, identity, *first);
    }
    let leaf = build_keyboard_report_modifiers(emit, first, keyboard);
    build_keyboard_report_identity(leaf, identity, keyboard);
}

/// Whether the codes of `text` fit into `room` places.
fn text_fits(text: &str, room: usize) -> (fits: bool)
    ensures
        fits == (text_len(text@) <= room),
{
    let mut used: usize = 0;
    for chr in iter: text.chars()
        invariant
            iter.seq() == text@,
            used == text_len(text@.take(iter.index())),
            used <= room,
    {
        proof {
            let k = iter.index();
            lemma_text_len_prefix(text@, k + 1);
            assert(text@.take(k + 1).drop_last() =~= text@.take(k));
        }
        let need: usize = if is_uppercase(chr) {
            3
        } else {
            2
        };
        if room - used < need {
            return false;
        }
        used += need;
    }
    assert(text@.take(text@.len() as int) =~= text@);
    true
}

/// Whether the codes of a leaf that stands for itself fit into `room` places.
fn terminal_fits(leaf: Emit<u8>, room: usize) -> (fits: bool)
    ensures
        fits == (terminal_len(leaf) <= room),
{
    match leaf {
        Emit::String(text) => text_fits(text, room),
        Emit::Code(_) => room >= 1,
        _ => true,
    }
}

/// Whether the whole expansion of `emit` fits into `room` places.
fn expansion_fits(emit: Emit<u8>, identity: Emit<u8>, room: usize) -> (fits: bool)
    ensures
        fits == (expansion_len(emit, identity) <= room),
    decreases emit,
{
    match emit {
        Emit::Mod(next) => room >= 1 && expansion_fits(*next, identity, room - 1),
        Emit::Alt(next) => room >= 1 && expansion_fits(*next, identity, room - 1),
        Emit::Shift(next) => room >= 1 && expansion_fits(*next, identity, room - 1),
        Emit::Ctrl(next) => room >= 1 && expansion_fits(*next, identity, room - 1),
        Emit::Identity => terminal_fits(identity, room),
        _ => terminal_fits(emit, room),
    }
}

/// Whether the expansion of `emit` fits into what is left of the report.
pub fn report_fits(
    emit: Emit<u8>,
    identity: Emit<u8>,
    keyboard: &heapless::Vec<u8, REPORT_SIZE>,
) -> (fits: bool)
    ensures
        fits == (report_codes(*keyboard).len() + expansion_len(emit, identity) <= REPORT_SIZE),
{
    let used = report_slice(keyboard).len();
    used <= REPORT_SIZE && expansion_fits(emit, identity, REPORT_SIZE - used)
}

/// What `Identity` stands for in a chord of `keys` where no layer decides:
/// for a chord of several keys the classification of its last key alone, for
/// a chord of one key the classification of the chord.
pub open spec fn identity_of(keys: Seq<Pressed>, rules: Seq<ChordEmit<u8>>) -> Emit<u8> {
    if keys.len() > 1 {
        classify(seq![keys.last()], rules)
    } else {
        classify(keys, rules)
    }
}

/// What `Identity` stands for in a chord of `keys`: the code that the layer
/// of the chord has for the chord's last key. The layer is chosen by the
/// chord's first key. Where no layer serves the chord, the rule table
/// decides as `identity_of` says.
pub open spec fn layered_identity(
    keys: Seq<Pressed>,
    rules: Seq<ChordEmit<u8>>,
    layers: Seq<Layer>,
) -> Emit<u8> {
    match layer_code(layers, keys) {
        Some(code) => Emit::Code(code),
        None => identity_of(keys, rules),
    }
}

/// The report of a chord of `keys` under `rules` and `layers`; empty for the
/// empty chord.
pub open spec fn layered_codes(
    keys: Seq<Pressed>,
    rules: Seq<ChordEmit<u8>>,
    layers: Seq<Layer>,
) -> Seq<u8> {
    if keys.len() == 0 {
        Seq::empty()
    } else {
        expansion(classify(keys, rules), layered_identity(keys, rules, layers), keys[0].0)
    }
}

/// The length of the report of a chord of `keys` under `rules` and `layers`.
pub open spec fn layered_len(
    keys: Seq<Pressed>,
    rules: Seq<ChordEmit<u8>>,
    layers: Seq<Layer>,
) -> nat {
    if keys.len() == 0 {
        0
    } else {
        expansion_len(classify(keys, rules), layered_identity(keys, rules, layers))
    }
}

/// The report of a chord of `keys` under `rules` alone.
pub open spec fn eval_codes(keys: Seq<Pressed>, rules: Seq<ChordEmit<u8>>) -> Seq<u8> {
    layered_codes(keys, rules, Seq::empty())
}

/// The length of the report of a chord of `keys` under `rules` alone.
pub open spec fn eval_len(keys: Seq<Pressed>, rules: Seq<ChordEmit<u8>>) -> nat {
    layered_len(keys, rules, Seq::empty())
}

/// `layered_len` is the length of `layered_codes`.
pub proof fn lemma_layered_len(
    keys: Seq<Pressed>,
    rules: Seq<ChordEmit<u8>>,
    layers: Seq<Layer>,
)
    ensures
        layered_codes(keys, rules, layers).len() == layered_len(keys, rules, layers),
        eval_codes(keys, rules).len() == eval_len(keys, rules),
{
    if keys.len() > 0 {
        lemma_expansion_len(
            classify(keys, rules),
            layered_identity(keys, rules, layers),
            keys[0].0,
        );
        lemma_expansion_len(
            classify(keys, rules),
            layered_identity(keys, rules, Seq::empty()),
            keys[0].0,
        );
    }
}

/// Without layers the rule table alone decides what `Identity` stands for.
pub proof fn lemma_eval_without_layers(keys: Seq<Pressed>, rules: Seq<ChordEmit<u8>>)
    requires
        keys.len() > 0,
    ensures
        layered_identity(keys, rules, Seq::empty()) == identity_of(keys, rules),
        eval_codes(keys, rules) == expansion(
            classify(keys, rules),
            identity_of(keys, rules),
            keys[0].0,
        ),
        eval_len(keys, rules) == expansion_len(classify(keys, rules), identity_of(keys, rules)),
{
}

/// The layer decides: where a chord of several keys is classified as
/// modifiers around `Identity`, and the chord's first key is the key of a
/// layer that no layer in front of it forestalls, the report is the modifier
/// codes and then the one code that this layer has for the chord's last key,
/// whatever the rule table holds for that key.
pub proof fn lemma_layer_decides_identity(
    keys: Seq<Pressed>,
    rules: Seq<ChordEmit<u8>>,
    layers: Seq<Layer>,
    i: int,
)
    requires
        keys.len() > 1,
        0 <= i < layers.len(),
        layers[i].key == Some(keys[0].0),
        forall|j: int| 0 <= j < i ==> !(#[trigger] layers[j]).serves(keys),
        leaf_of(classify(keys, rules)) is Identity,
    ensures
        layered_codes(keys, rules, layers) == modifier_codes(
            classify(keys, rules),
            keys[0].0.on_left(),
        ) + seq![layers[i].code_of(keys.last().0)],
{
    crate::layer::lemma_first_layer_wins(layers, keys, i);
}

/// A chord of several keys that no rule matches, begun by the key of a
/// layer, gives the code that this layer has for the chord's last key, and
/// nothing else.
pub proof fn lemma_unmatched_chord_takes_layer_code(
    keys: Seq<Pressed>,
    rules: Seq<ChordEmit<u8>>,
    layers: Seq<Layer>,
    i: int,
)
    requires
        keys.len() > 1,
        0 <= i < layers.len(),
        layers[i].key == Some(keys[0].0),
        forall|j: int| 0 <= j < i ==> !(#[trigger] layers[j]).serves(keys),
        forall|j: int|
            0 <= j < rules.len() ==> !crate::parse::pattern_matches(keys, #[trigger] rules[j].0@),
    ensures
        layered_codes(keys, rules, layers) == seq![layers[i].code_of(keys.last().0)],
{
    crate::parse::lemma_no_match_is_identity(keys, rules);
    lemma_layer_decides_identity(keys, rules, layers, i);
    assert(layered_codes(keys, rules, layers) =~= seq![layers[i].code_of(keys.last().0)]);
}

/// With a base layer in the table the mapping is total: a chord classified
/// as modifiers around `Identity` gives the modifier codes and exactly one
/// more code.
pub proof fn lemma_identity_is_total(
    keys: Seq<Pressed>,
    rules: Seq<ChordEmit<u8>>,
    layers: Seq<Layer>,
    i: int,
)
    requires
        keys.len() > 0,
        0 <= i < layers.len(),
        layers[i].key is None,
        leaf_of(classify(keys, rules)) is Identity,
    ensures
        layer_code(layers, keys) matches Some(code) && layered_codes(keys, rules, layers)
            == modifier_codes(classify(keys, rules), keys[0].0.on_left()) + seq![code],
{
    crate::layer::lemma_base_layer_is_total(layers, keys, i);
}

/// Classifies a chord that is not empty, and finds what `Identity` stands
/// for in it.
fn resolve<const RULE_SIZE: usize, const LAYERS: usize>(
    chrd: &heapless::Vec<Pressed, PRESS_SIZE>,
    rules: &[ChordEmit<u8>; RULE_SIZE],
    layers: &[Layer; LAYERS],
) -> (found: (Emit<u8>, Emit<u8>))
    requires
        chord_keys(*chrd).len() > 0,
    ensures
        found.0 == classify(chord_keys(*chrd), rules@),
        found.1 == layered_identity(chord_keys(*chrd), rules@, layers@),
{
    let keys = chord_slice(chrd);
    let emit = parse_with(chrd, rules);
    let identity = match lookup(layers, keys) {
        Some(code) => Emit::Code(code),
        None => {
            if keys.len() > 1 {
                let mut identity_chord = chord_new();
                let last = keys[keys.len() - 1];
                let _ = chord_push(&mut identity_chord, last);
                assert(chord_keys(identity_chord) =~= seq![keys@.last()]);
                parse_with(&identity_chord, rules)
            } else {
                emit
            }
        },
    };
    (emit, identity)
}

/// One evaluation cycle with layers: takes the chord at the head of the log,
/// classifies it and expands the classification into a fresh report. Where
/// the classification ends in `Identity`, the code comes from the layer that
/// the chord's first key selects, applied to the chord's last key. Where the
/// log holds no chord yet, the report is empty.
///
/// The chord and the report have to fit into their buffers;
/// `try_eval_layered` asks for nothing.
pub fn eval_layered<const RULE_SIZE: usize, const LAYERS: usize>(
    stack: &mut heapless::Vec<Event, STACK_SIZE>,
    rules: &[ChordEmit<u8>; RULE_SIZE],
    layers: &[Layer; LAYERS],
) -> (keyboard: heapless::Vec<u8, REPORT_SIZE>)
    requires
        segment(log_events(*old(stack))).keys.len() <= PRESS_SIZE,
        layered_len(segment(log_events(*old(stack))).keys, rules@, layers@) <= REPORT_SIZE,
    ensures
        report_codes(keyboard) == layered_codes(
            segment(log_events(*old(stack))).keys,
            rules@,
            layers@,
        ),
        log_events(*final(stack)) == log_events(*old(stack)).skip(
            segment(log_events(*old(stack))).consumed as int,
        ),
        segment(log_events(*old(stack))).keys.len() == 0 ==> report_codes(keyboard) == Seq::<
            u8,
        >::empty(),
        segment(log_events(*old(stack))).keys.len() > 0 && leaf_of(
            classify(segment(log_events(*old(stack))).keys, rules@),
        ) is Identity ==> (layer_code(layers@, segment(log_events(*old(stack))).keys) matches Some(
            code,
        ) ==> report_codes(keyboard) == modifier_codes(
            classify(segment(log_events(*old(stack))).keys, rules@),
            segment(log_events(*old(stack))).keys[0].0.on_left(),
        ) + seq![code]),
{
    let mut keyboard = report_new();
    let chrd = chord(stack);
    let keys = chord_slice(&chrd);
    if keys.len() == 0 {
        return keyboard;
    }
    let (emit, identity) = resolve(&chrd, rules, layers);
    let Pressed(first) = keys[0];
    build_keyboard_report(emit, identity, &first, &mut keyboard);
    assert(report_codes(keyboard) =~= layered_codes(chord_keys(chrd), rules@, layers@));
    keyboard
}

/// One evaluation cycle with layers that first makes sure of the capacities.
/// Where the chord or its report does not fit, the result is `None` and the
/// log stays as it is; otherwise the result holds what `eval_layered`
/// returns.
pub fn try_eval_layered<const RULE_SIZE: usize, const LAYERS: usize>(
    stack: &mut heapless::Vec<Event, STACK_SIZE>,
    rules: &[ChordEmit<u8>; RULE_SIZE],
    layers: &[Layer; LAYERS],
) -> (report: Option<heapless::Vec<u8, REPORT_SIZE>>)
    ensures
        report is Some <==> segment(log_events(*old(stack))).keys.len() <= PRESS_SIZE
            && layered_len(segment(log_events(*old(stack))).keys, rules@, layers@)
            <= REPORT_SIZE,
        report matches Some(keyboard) ==> report_codes(keyboard) == layered_codes(
            segment(log_events(*old(stack))).keys,
            rules@,
            layers@,
        ) && log_events(*final(stack)) == log_events(*old(stack)).skip(
            segment(log_events(*old(stack))).consumed as int,
        ),
        report is None ==> log_events(*final(stack)) == log_events(*old(stack)),
{
    if !chord_fits(stack) {
        return None;
    }
    let (chrd, _) = peek_chord(stack);
    if chord_slice(&chrd).len() > 0 {
        let (emit, identity) = resolve(&chrd, rules, layers);
        if !expansion_fits(emit, identity, REPORT_SIZE) {
            return None;
        }
    }
    Some(eval_layered(stack, rules, layers))
}

/// One evaluation cycle without layers: as `eval_layered`, with the rule
/// table deciding what `Identity` stands for.
///
/// The chord and the report have to fit into their buffers; `try_eval` asks
/// for nothing.
pub fn eval<const RULE_SIZE: usize>(
    stack: &mut heapless::Vec<Event, STACK_SIZE>,
    rules: &[ChordEmit<u8>; RULE_SIZE],
) -> (keyboard: heapless::Vec<u8, REPORT_SIZE>)
    requires
        segment(log_events(*old(stack))).keys.len() <= PRESS_SIZE,
        eval_len(segment(log_events(*old(stack))).keys, rules@) <= REPORT_SIZE,
    ensures
        report_codes(keyboard) == eval_codes(segment(log_events(*old(stack))).keys, rules@),
        log_events(*final(stack)) == log_events(*old(stack)).skip(
            segment(log_events(*old(stack))).consumed as int,
        ),
        segment(log_events(*old(stack))).keys.len() == 0 ==> report_codes(keyboard) == Seq::<
            u8,
        >::empty(),
{
    let layers: [Layer; 0] = [];
    assert(layers@ =~= Seq::<Layer>::empty());
    eval_layered(stack, rules, &layers)
}

/// One evaluation cycle without layers that first makes sure of the
/// capacities. Where the chord or its report does not fit, the result is
/// `None` and the log stays as it is; otherwise the result holds what `eval`
/// returns.
pub fn try_eval<const RULE_SIZE: usize>(
    stack: &mut heapless::Vec<Event, STACK_SIZE>,
    rules: &[ChordEmit<u8>; RULE_SIZE],
) -> (report: Option<heapless::Vec<u8, REPORT_SIZE>>)
    ensures
        report is Some <==> segment(log_events(*old(stack))).keys.len() <= PRESS_SIZE && eval_len(
            segment(log_events(*old(stack))).keys,
            rules@,
        ) <= REPORT_SIZE,
        report matches Some(keyboard) ==> report_codes(keyboard) == eval_codes(
            segment(log_events(*old(stack))).keys,
            rules@,
        ) && log_events(*final(stack)) == log_events(*old(stack)).skip(
            segment(log_events(*old(stack))).consumed as int,
        ),
        report is None ==> log_events(*final(stack)) == log_events(*old(stack)),
{
    let layers: [Layer; 0] = [];
    assert(layers@ =~= Seq::<Layer>::empty());
    try_eval_layered(stack, rules, &layers)
}

} // verus!
