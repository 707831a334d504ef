//! Patterns, rules and the rule engine.

use crate::buffers::{chord_keys, chord_slice};
use crate::lex::{Pressed, PRESS_SIZE};
use vstd::prelude::*;

verus! {

/// One positional matcher of a pattern.
#[derive(Debug, Clone, Copy)]
pub enum ChordEvent {
    /// Two chord positions that hold the two keys, in either order.
    Both(Pressed, Pressed),
    /// One chord position that holds exactly this key.
    On(Pressed),
    /// The inner matcher, or nothing.
    Optional(&'static ChordEvent),
    /// Any key of the right hand; ends the pattern.
    RAny,
    /// Any key of the left hand; ends the pattern.
    LAny,
    /// Any one key.
    Any,
}

/// What a matched chord produces: a chain of modifiers around a leaf.
#[derive(Debug, PartialEq, Eq, Copy, Clone)]
pub enum Emit<T: 'static + std::marker::Copy> {
    /// The GUI modifier around what follows.
    Mod(&'static Emit<T>),
    /// The control modifier around what follows.
    Ctrl(&'static Emit<T>),
    /// The shift modifier around what follows.
    Shift(&'static Emit<T>),
    /// The alt modifier around what follows.
    Alt(&'static Emit<T>),
    /// A text, put out character by character.
    String(&'static str),
    /// One output code.
    Code(T),
    /// Whatever the layout maps the chord's last key to.
    Identity,
}

/// A rule: a pattern and what a chord that matches it produces.
#[derive(Debug)]
pub struct ChordEmit<T: 'static + std::marker::Copy>(pub &'static [ChordEvent], pub Emit<T>);

/// What one matcher does at a chord position.
#[derive(Debug, Clone, Copy)]
pub enum Step {
    /// The chord does not match.
    Reject,
    /// The chord matches, whatever follows in it or in the pattern.
    Accept,
    /// The matcher is satisfied and the next one looks this many positions on.
    Advance(usize),
}

/// What `event` does at position `at` of `chord`, for `0 <= at < chord.len()`.
///
/// `On` asks for its key and `Any` for any key; both take one position. A
/// side wildcard asks for a key of its hand and then accepts the chord as a
/// whole. `Both` asks for two positions of which at least one holds one of
/// its two keys, and takes both. `Optional` takes one position where its
/// inner matcher does not reject it, and none where it does.
pub open spec fn step_at(chord: Seq<Pressed>, at: int, event: ChordEvent) -> Step
    decreases event,
{
    match event {
        ChordEvent::On(key) => if chord[at] == key {
            Step::Advance(1)
        } else {
            Step::Reject
        },
        ChordEvent::Any => Step::Advance(1),
        ChordEvent::LAny => if chord[at].0.on_left() {
            Step::Accept
        } else {
            Step::Reject
        },
        ChordEvent::RAny => if chord[at].0.on_right() {
            Step::Accept
        } else {
            Step::Reject
        },
        ChordEvent::Both(first, second) => if at + 2 <= chord.len() && (chord[at] == first
            || chord[at + 1] == second || chord[at] == second || chord[at + 1] == first) {
            Step::Advance(2)
        } else {
            Step::Reject
        },
        ChordEvent::Optional(inner) => if step_at(chord, at, *inner) is Reject {
            Step::Advance(0)
        } else {
            Step::Advance(1)
        },
    }
}

/// The matchers of `pattern` from index `from` on are satisfied by `chord`
/// from position `at` on. A matcher that finds no position left in the chord
/// fails, an optional one too; keys of the chord that no matcher looks at do
/// no harm.
pub open spec fn matches_from(
    chord: Seq<Pressed>,
    at: int,
    pattern: Seq<ChordEvent>,
    from: int,
) -> bool
    decreases pattern.len() - from,
{
    if from < 0 || from >= pattern.len() {
        true
    } else if at < 0 || at >= chord.len() {
        false
    } else {
        match step_at(chord, at, pattern[from]) {
            Step::Reject => false,
            Step::Accept => true,
            Step::Advance(n) => matches_from(chord, at + n, pattern, from + 1),
        }
    }
}

/// `chord` satisfies `pattern`.
pub open spec fn pattern_matches(chord: Seq<Pressed>, pattern: Seq<ChordEvent>) -> bool {
    matches_from(chord, 0, pattern, 0)
}

/// The result of the first rule from index `from` on whose pattern `chord`
/// satisfies; `Identity` where there is none.
pub open spec fn classify_from<T: 'static + std::marker::Copy>(
    chord: Seq<Pressed>,
    rules: Seq<ChordEmit<T>>,
    from: int,
) -> Emit<T>
    decreases rules.len() - from,
{
    if from < 0 || from >= rules.len() {
        Emit::Identity
    } else if pattern_matches(chord, rules[from].0@) {
        rules[from].1
    } else {
        classify_from(chord, rules, from + 1)
    }
}

/// The classification of `chord` by the rule table `rules`.
pub open spec fn classify<T: 'static + std::marker::Copy>(
    chord: Seq<Pressed>,
    rules: Seq<ChordEmit<T>>,
) -> Emit<T> {
    classify_from(chord, rules, 0)
}

/// `On` is positional: two `On` matchers accept their two keys in their
/// order, and neither another second key nor the opposite order.
pub proof fn lemma_on_keeps_order(first: Pressed, second: Pressed, other: Pressed)
    requires
        first != second,
        other != second,
    ensures
        pattern_matches(
            seq![first, second],
            seq![ChordEvent::On(first), ChordEvent::On(second)],
        ),
        !pattern_matches(seq![first, other], seq![ChordEvent::On(first), ChordEvent::On(second)]),
        !pattern_matches(
            seq![second, first],
            seq![ChordEvent::On(first), ChordEvent::On(second)],
        ),
{
    reveal_with_fuel(matches_from, 3);
}

/// `Both` takes its two keys in either order and two positions of the chord:
/// a chord that is too short for what follows does not match.
pub proof fn lemma_both_takes_either_order(first: Pressed, second: Pressed, third: Pressed)
    ensures
        pattern_matches(
            seq![first, second, third],
            seq![ChordEvent::Both(first, second), ChordEvent::On(third)],
        ),
        pattern_matches(
            seq![second, first, third],
            seq![ChordEvent::Both(first, second), ChordEvent::On(third)],
        ),
        !pattern_matches(
            seq![first, third],
            seq![ChordEvent::Both(first, second), ChordEvent::On(third)],
        ),
{
    reveal_with_fuel(matches_from, 3);
}

/// An optional key in front of a pattern may be there or not: the rest of
/// the pattern decides.
pub proof fn lemma_optional_may_be_absent(
    pattern: Seq<ChordEvent>,
    opt: Pressed,
    first: Pressed,
    second: Pressed,
)
    requires
        opt != first,
        pattern.len() == 3,
        pattern[0] matches ChordEvent::Optional(inner) && *inner == ChordEvent::On(opt),
        pattern[1] == ChordEvent::On(first),
        pattern[2] == ChordEvent::On(second),
    ensures
        pattern_matches(seq![opt, first, second], pattern),
        pattern_matches(seq![first, second], pattern),
{
    reveal_with_fuel(matches_from, 4);
    reveal_with_fuel(step_at, 2);
}

/// First match wins: a rule that matches, with no rule before it that does,
/// decides the classification.
pub proof fn lemma_first_match_wins<T: 'static + std::marker::Copy>(
    chord: Seq<Pressed>,
    rules: Seq<ChordEmit<T>>,
    i: int,
)
    requires
        0 <= i < rules.len(),
        pattern_matches(chord, rules[i].0@),
        forall|j: int| 0 <= j < i ==> !pattern_matches(chord, #[trigger] rules[j].0@),
    ensures
        classify(chord, rules) == rules[i].1,
{
    lemma_classify_skips(chord, rules, 0, i);
}

/// Of two rules that both match, the later one never decides: the
/// classification is the result of a matching rule that stands no later than
/// the earlier of the two.
pub proof fn lemma_earlier_rule_wins<T: 'static + std::marker::Copy>(
    chord: Seq<Pressed>,
    rules: Seq<ChordEmit<T>>,
    i: int,
    j: int,
)
    requires
        0 <= i < j < rules.len(),
        pattern_matches(chord, rules[i].0@),
        pattern_matches(chord, rules[j].0@),
    ensures
        exists|k: int|
            0 <= k <= i && pattern_matches(chord, #[trigger] rules[k].0@) && classify(chord, rules)
                == rules[k].1,
{
    lemma_classify_finds(chord, rules, 0, i);
}

/// Where no rule matches, the classification is `Identity`.
pub proof fn lemma_no_match_is_identity<T: 'static + std::marker::Copy>(
    chord: Seq<Pressed>,
    rules: Seq<ChordEmit<T>>,
)
    requires
        forall|j: int| 0 <= j < rules.len() ==> !pattern_matches(chord, #[trigger] rules[j].0@),
    ensures
        classify(chord, rules) == Emit::<T>::Identity,
{
    lemma_classify_skips(chord, rules, 0, rules.len() as int);
}

proof fn lemma_classify_skips<T: 'static + std::marker::Copy>(
    chord: Seq<Pressed>,
    rules: Seq<ChordEmit<T>>,
    from: int,
    to: int,
)
    requires
        0 <= from <= to <= rules.len(),
        forall|j: int| from <= j < to ==> !pattern_matches(chord, #[trigger] rules[j].0@),
    ensures
        classify_from(chord, rules, from) == classify_from(chord, rules, to),
    decreases to - from,
{
    if from < to {
        lemma_classify_skips(chord, rules, from + 1, to);
    }
}

proof fn lemma_classify_finds<T: 'static + std::marker::Copy>(
    chord: Seq<Pressed>,
    rules: Seq<ChordEmit<T>>,
    from: int,
    i: int,
)
    requires
        0 <= from <= i < rules.len(),
        pattern_matches(chord, rules[i].0@),
    ensures
        exists|k: int|
            from <= k <= i && pattern_matches(chord, #[trigger] rules[k].0@) && classify_from(
                chord,
                rules,
                from,
            ) == rules[k].1,
    decreases i - from,
{
    if !pattern_matches(chord, rules[from].0@) {
        lemma_classify_finds(chord, rules, from + 1, i);
    }
}

/// Applies one matcher at one position of the chord.
fn step(chord: &[Pressed], at: usize, event: &ChordEvent) -> (taken: Step)
    requires
        at < chord@.len(),
    ensures
        taken == step_at(chord@, at as int, *event),
        taken matches Step::Advance(n) ==> at + n <= chord@.len(),
    decreases *event,
{
    match event {
        ChordEvent::On(key) => {
            if chord[at] == *key {
                Step::Advance(1)
            } else {
                Step::Reject
            }
        },
        ChordEvent::Any => Step::Advance(1),
        ChordEvent::LAny => {
            if chord[at].0.is_left() {
                Step::Accept
            } else {
                Step::Reject
            }
        },
        ChordEvent::RAny => {
            if chord[at].0.is_right() {
                Step::Accept
            } else {
                Step::Reject
            }
        },
        ChordEvent::Both(first, second) => {
            if chord.len() - at < 2 {
                return Step::Reject;
            }
            let ch1 = chord[at];
            let ch2 = chord[at + 1];
            if ch1 != *first && ch2 != *second && ch1 != *second && ch2 != *first {
                return Step::Reject;
            }
            Step::Advance(2)
        },
        ChordEvent::Optional(inner) => {
            match step(chord, at, inner) {
                Step::Reject => Step::Advance(0),
                _ => Step::Advance(1),
            }
        },
    }
}

/// Decides whether a chord satisfies a pattern, matcher by matcher from the
/// left. The chord is only read.
pub fn rule_match(
    chord: &heapless::Vec<Pressed, PRESS_SIZE>,
    rule_events: &[ChordEvent],
) -> (matched: bool)
    ensures
        matched == pattern_matches(chord_keys(*chord), rule_events@),
{
    let keys = chord_slice(chord);
    let mut at: usize = 0;
    let mut ix: usize = 0;
    while ix < rule_events.len()
        invariant
            ix <= rule_events@.len(),
            at <= keys@.len(),
            keys@ == chord_keys(*chord),
            pattern_matches(keys@, rule_events@) == matches_from(
                keys@,
                at as int,
                rule_events@,
                ix as int,
            ),
        decreases rule_events@.len() - ix,
    {
        if at >= keys.len() {
            return false;
        }
        match step(keys, at, &rule_events[ix]) {
            Step::Reject => {
                return false;
            },
            Step::Accept => {
                return true;
            },
            Step::Advance(n) => {
                at = at + n;
            },
        }
        ix += 1;
    }
    true
}

/// Classifies a chord: the result of the first rule, in table order, whose
/// pattern the chord satisfies, and `Identity` where no rule does.
pub fn parse_with<T: 'static + std::marker::Copy, const RULE_SIZE: usize>(
    chord: &heapless::Vec<Pressed, PRESS_SIZE>,
    rules: &[ChordEmit<T>; RULE_SIZE],
) -> (emit: Emit<T>)
    ensures
        emit == classify(chord_keys(*chord), rules@),
{
    let mut i: usize = 0;
    while i < RULE_SIZE
        invariant
            i <= RULE_SIZE,
            rules@.len() == RULE_SIZE,
            classify(chord_keys(*chord), rules@) == classify_from(
                chord_keys(*chord),
                rules@,
                i as int,
            ),
        decreases RULE_SIZE - i,
    {
        if rule_match(chord, rules[i].0) {
            return rules[i].1;
        }
        i += 1;
    }
    Emit::Identity
}

} // verus!
