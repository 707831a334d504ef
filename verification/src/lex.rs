//! Key vocabulary and the chord segmenter.

use crate::buffers::{
    chord_keys, chord_new, chord_push, chord_slice, log_events, log_remove, log_slice,
};
use vstd::prelude::*;

verus! {

/// A physical key position. `L1..L17` sit under the left hand, `R1..R17`
/// under the right hand. `LAny` and `RAny` stand for "some key of that
/// hand"; they occur in layouts, never as the subject of an event.
#[derive(Debug, PartialEq, Eq, Copy, Clone, Structural)]
pub enum Key {
    L1, L2, L3, L4, L5, L6, L7, L8, L9, L10, L11, L12, L13, L14, L15, L16, L17, LAny,
    R1, R2, R3, R4, R5, R6, R7, R8, R9, R10, R11, R12, R13, R14, R15, R16, R17, RAny,
}

impl Key {
    /// The key belongs to the left hand.
    pub open spec fn on_left(self) -> bool {
        match self {
            Key::L1 | Key::L2 | Key::L3 | Key::L4 | Key::L5 | Key::L6 | Key::L7 | Key::L8
            | Key::L9 | Key::L10 | Key::L11 | Key::L12 | Key::L13 | Key::L14 | Key::L15
            | Key::L16 | Key::L17 | Key::LAny => true,
            _ => false,
        }
    }

    /// The key belongs to the right hand: every key is on exactly one side.
    pub open spec fn on_right(self) -> bool {
        !self.on_left()
    }

    /// The place of the key in a table with one entry for each key: the
    /// keys of the left hand in their order, then those of the right hand.
    pub open spec fn ordinal(self) -> nat {
        match self {
            Key::L1 => 0,
            Key::L2 => 1,
            Key::L3 => 2,
            Key::L4 => 3,
            Key::L5 => 4,
            Key::L6 => 5,
            Key::L7 => 6,
            Key::L8 => 7,
            Key::L9 => 8,
            Key::L10 => 9,
            Key::L11 => 10,
            Key::L12 => 11,
            Key::L13 => 12,
            Key::L14 => 13,
            Key::L15 => 14,
            Key::L16 => 15,
            Key::L17 => 16,
            Key::LAny => 17,
            Key::R1 => 18,
            Key::R2 => 19,
            Key::R3 => 20,
            Key::R4 => 21,
            Key::R5 => 22,
            Key::R6 => 23,
            Key::R7 => 24,
            Key::R8 => 25,
            Key::R9 => 26,
            Key::R10 => 27,
            Key::R11 => 28,
            Key::R12 => 29,
            Key::R13 => 30,
            Key::R14 => 31,
            Key::R15 => 32,
            Key::R16 => 33,
            Key::R17 => 34,
            Key::RAny => 35,
        }
    }

    /// The place of the key in a table with one entry for each key.
    pub fn index(&self) -> (place: usize)
        ensures
            place == self.ordinal(),
            place < KEY_COUNT,
    {
        match self {
            Key::L1 => 0,
            Key::L2 => 1,
            Key::L3 => 2,
            Key::L4 => 3,
            Key::L5 => 4,
            Key::L6 => 5,
            Key::L7 => 6,
            Key::L8 => 7,
            Key::L9 => 8,
            Key::L10 => 9,
            Key::L11 => 10,
            Key::L12 => 11,
            Key::L13 => 12,
            Key::L14 => 13,
            Key::L15 => 14,
            Key::L16 => 15,
            Key::L17 => 16,
            Key::LAny => 17,
            Key::R1 => 18,
            Key::R2 => 19,
            Key::R3 => 20,
            Key::R4 => 21,
            Key::R5 => 22,
            Key::R6 => 23,
            Key::R7 => 24,
            Key::R8 => 25,
            Key::R9 => 26,
            Key::R10 => 27,
            Key::R11 => 28,
            Key::R12 => 29,
            Key::R13 => 30,
            Key::R14 => 31,
            Key::R15 => 32,
            Key::R16 => 33,
            Key::R17 => 34,
            Key::RAny => 35,
        }
    }

    /// Whether the key belongs to the left hand.
    pub fn is_left(&self) -> (left: bool)
        ensures
            left == self.on_left(),
    {
        match self {
            Key::L1 | Key::L2 | Key::L3 | Key::L4 | Key::L5 | Key::L6 | Key::L7 | Key::L8
            | Key::L9 | Key::L10 | Key::L11 | Key::L12 | Key::L13 | Key::L14 | Key::L15
            | Key::L16 | Key::L17 | Key::LAny => true,
            _ => false,
        }
    }

    /// Whether the key belongs to the right hand.
    pub fn is_right(&self) -> (right: bool)
        ensures
            right == self.on_right(),
    {
        !self.is_left()
    }
}

/// A key transition. Its time is its position in the log.
#[derive(Debug, Copy, Clone, PartialEq, Eq, Structural)]
pub enum Event {
    Down(Key),
    Up(Key),
}

/// A key that went down and came up again within one chord.
#[derive(Debug, Copy, Clone, PartialEq, Eq, Structural)]
pub struct Pressed(pub Key);

/// The number of keys.
pub const KEY_COUNT: usize = 36;

/// Capacity of the event log.
pub const STACK_SIZE: usize = 128;

/// Capacity of a chord.
pub const PRESS_SIZE: usize = 64;

/// Capacity of an output report.
pub const REPORT_SIZE: usize = 64;

/// Every key has a place of its own in a table of `KEY_COUNT` entries, and
/// the left hand holds the first half of the table.
pub proof fn lemma_ordinal_tells_keys_apart(one: Key, other: Key)
    ensures
        one.ordinal() < KEY_COUNT,
        one.ordinal() == other.ordinal() ==> one == other,
        one.on_left() <==> one.ordinal() < 18,
{
}

/// What one pass over a log yields: the keys of the chord in press order, and
/// how many leading events the pass uses up.
pub struct Segment {
    pub keys: Seq<Pressed>,
    pub consumed: nat,
}

/// `key` is released somewhere in `log` at or behind position `from`.
pub open spec fn released_from(log: Seq<Event>, from: int, key: Key) -> bool {
    exists|j: int| from <= j < log.len() && log[j] == Event::Up(key)
}

/// The pass over `log` from position `at` on, with `keys` recorded so far.
///
/// The first recorded key is the root of the chord. The release of the root
/// ends the chord and is its last event. A press whose release follows later
/// is recorded. A press that is not released yet stops the pass in front of
/// it: it stays in the log with all that follows. Any other release is passed
/// over. A pass that reaches the end uses up the whole log.
pub open spec fn scan(log: Seq<Event>, at: int, keys: Seq<Pressed>) -> Segment
    decreases log.len() - at,
{
    if at < 0 || at >= log.len() {
        Segment { keys, consumed: log.len() }
    } else if keys.len() > 0 && log[at] == Event::Up(keys[0].0) {
        Segment { keys, consumed: (at + 1) as nat }
    } else {
        match log[at] {
            Event::Down(key) => if released_from(log, at + 1, key) {
                scan(log, at + 1, keys.push(Pressed(key)))
            } else {
                Segment { keys, consumed: at as nat }
            },
            Event::Up(_) => scan(log, at + 1, keys),
        }
    }
}

/// The chord at the head of `log`, and the length of the prefix it uses up.
pub open spec fn segment(log: Seq<Event>) -> Segment {
    scan(log, 0, Seq::empty())
}

/// A pass never forgets a recorded key and never uses up more than the log.
pub proof fn lemma_scan_bounds(log: Seq<Event>, at: int, keys: Seq<Pressed>)
    requires
        0 <= at <= log.len(),
    ensures
        scan(log, at, keys).keys.len() >= keys.len(),
        keys =~= scan(log, at, keys).keys.take(keys.len() as int),
        at <= scan(log, at, keys).consumed <= log.len(),
    decreases log.len() - at,
{
    if at < log.len() && !(keys.len() > 0 && log[at] == Event::Up(keys[0].0)) {
        match log[at] {
            Event::Down(key) => {
                if released_from(log, at + 1, key) {
                    lemma_scan_bounds(log, at + 1, keys.push(Pressed(key)));
                }
            },
            Event::Up(_) => {
                lemma_scan_bounds(log, at + 1, keys);
            },
        }
    }
}

/// The keys that `events` press, in order.
pub open spec fn presses(events: Seq<Event>) -> Seq<Pressed>
    decreases events.len(),
{
    if events.len() == 0 {
        Seq::empty()
    } else {
        match events.last() {
            Event::Down(key) => presses(events.drop_last()).push(Pressed(key)),
            Event::Up(_) => presses(events.drop_last()),
        }
    }
}

/// There are no more presses than events.
pub proof fn lemma_presses_len(events: Seq<Event>)
    ensures
        presses(events).len() <= events.len(),
    decreases events.len(),
{
    if events.len() > 0 {
        lemma_presses_len(events.drop_last());
    }
}

/// `key` goes down in front of position `before` of `log` and comes up
/// again somewhere behind its press.
pub open spec fn finished_press(log: Seq<Event>, key: Key, before: int) -> bool {
    exists|press: int, release: int|
        0 <= press < before && press < release < log.len() && #[trigger] log[press]
            == Event::Down(key) && #[trigger] log[release] == Event::Up(key)
}

/// A pass that starts with the presses of what lies behind it ends with the
/// presses of what it has used up, each of them a finished press within what
/// the pass has used up.
proof fn lemma_scan_presses(log: Seq<Event>, at: int, keys: Seq<Pressed>)
    requires
        0 <= at <= log.len(),
        keys == presses(log.take(at)),
        forall|i: int| 0 <= i < keys.len() ==> finished_press(log, #[trigger] keys[i].0, at),
    ensures
        scan(log, at, keys).keys == presses(log.take(scan(log, at, keys).consumed as int)),
        forall|i: int|
            0 <= i < scan(log, at, keys).keys.len() ==> finished_press(
                log,
                #[trigger] scan(log, at, keys).keys[i].0,
                scan(log, at, keys).consumed as int,
            ),
    decreases log.len() - at,
{
    if at >= log.len() {
        assert(log.take(at) =~= log.take(log.len() as int));
    } else {
        assert(log.take(at + 1).drop_last() =~= log.take(at));
        if keys.len() > 0 && log[at] == Event::Up(keys[0].0) {
            assert forall|i: int| 0 <= i < keys.len() implies finished_press(
                log,
                #[trigger] keys[i].0,
                at + 1,
            ) by {
                lemma_finished_press_stays(log, keys[i].0, at, at + 1);
            }
        } else {
            match log[at] {
                Event::Down(key) => {
                    if released_from(log, at + 1, key) {
                        let next = keys.push(Pressed(key));
                        assert forall|i: int| 0 <= i < next.len() implies finished_press(
                            log,
                            #[trigger] next[i].0,
                            at + 1,
                        ) by {
                            if i == keys.len() {
                                let release = choose|j: int|
                                    at + 1 <= j < log.len() && log[j] == Event::Up(key);
                                assert(log[at] == Event::Down(key) && log[release] == Event::Up(
                                    key,
                                ));
                            } else {
                                assert(next[i] == keys[i]);
                                lemma_finished_press_stays(log, keys[i].0, at, at + 1);
                            }
                        }
                        lemma_scan_presses(log, at + 1, next);
                    }
                },
                Event::Up(_) => {
                    assert forall|i: int| 0 <= i < keys.len() implies finished_press(
                        log,
                        #[trigger] keys[i].0,
                        at + 1,
                    ) by {
                        lemma_finished_press_stays(log, keys[i].0, at, at + 1);
                    }
                    lemma_scan_presses(log, at + 1, keys);
                },
            }
        }
    }
}

/// A finished press in front of a position is one in front of every later
/// position.
proof fn lemma_finished_press_stays(log: Seq<Event>, key: Key, before: int, later: int)
    requires
        finished_press(log, key, before),
        before <= later,
    ensures
        finished_press(log, key, later),
{
    let (press, release) = choose|press: int, release: int|
        0 <= press < before && press < release < log.len() && #[trigger] log[press]
            == Event::Down(key) && #[trigger] log[release] == Event::Up(key);
    assert(0 <= press < later && press < release < log.len() && log[press] == Event::Down(key)
        && log[release] == Event::Up(key));
}

/// The chord is the presses of the events that it uses up, in the order of
/// the presses, and each of them is finished: the key goes down within what
/// the chord uses up, and its release lies behind its press. So a chord is no
/// longer than what it uses up, and a chord that is not empty uses up at
/// least one event.
pub proof fn lemma_chord_is_presses_of_prefix(log: Seq<Event>)
    ensures
        segment(log).consumed <= log.len(),
        segment(log).keys == presses(log.take(segment(log).consumed as int)),
        segment(log).keys.len() <= segment(log).consumed,
        forall|i: int|
            0 <= i < segment(log).keys.len() ==> finished_press(
                log,
                #[trigger] segment(log).keys[i].0,
                segment(log).consumed as int,
            ),
{
    lemma_scan_bounds(log, 0, Seq::empty());
    assert(log.take(0) =~= Seq::<Event>::empty());
    lemma_scan_presses(log, 0, Seq::empty());
    lemma_presses_len(log.take(segment(log).consumed as int));
}

/// An empty log holds no chord, and its pass uses up nothing.
pub proof fn lemma_empty_log()
    ensures
        segment(Seq::<Event>::empty()) == (Segment { keys: Seq::empty(), consumed: 0 }),
{
}

/// A log of one press and release of `key` is the chord of that key, and the
/// chord uses up the whole log.
pub proof fn lemma_single_press(key: Key)
    ensures
        segment(seq![Event::Down(key), Event::Up(key)]) == (Segment {
            keys: seq![Pressed(key)],
            consumed: 2,
        }),
{
    let log = seq![Event::Down(key), Event::Up(key)];
    let keys = Seq::<Pressed>::empty().push(Pressed(key));
    assert(log[1] == Event::Up(key));
    assert(released_from(log, 1, key));
    assert(scan(log, 1, keys) == (Segment { keys, consumed: 2 }));
    assert(keys =~= seq![Pressed(key)]);
}

/// Two keys pressed one after the other and released in the opposite order
/// are one chord, in press order, and the chord uses up the whole log.
pub proof fn lemma_nested_presses(outer: Key, inner: Key)
    requires
        outer != inner,
    ensures
        segment(
            seq![Event::Down(outer), Event::Down(inner), Event::Up(inner), Event::Up(outer)],
        ) == (Segment { keys: seq![Pressed(outer), Pressed(inner)], consumed: 4 }),
{
    let log = seq![Event::Down(outer), Event::Down(inner), Event::Up(inner), Event::Up(outer)];
    let one = Seq::<Pressed>::empty().push(Pressed(outer));
    let two = one.push(Pressed(inner));
    assert(log[3] == Event::Up(outer));
    assert(released_from(log, 1, outer));
    assert(log[2] == Event::Up(inner));
    assert(released_from(log, 2, inner));
    assert(scan(log, 3, two) == (Segment { keys: two, consumed: 4 }));
    assert(scan(log, 2, two) == scan(log, 3, two));
    assert(scan(log, 1, one) == scan(log, 2, two));
    assert(two =~= seq![Pressed(outer), Pressed(inner)]);
}

/// A press behind a finished chord stays in the log: the chord ends with the
/// release of its root.
pub proof fn lemma_surplus_press(key: Key, next: Key)
    ensures
        segment(seq![Event::Down(key), Event::Up(key), Event::Down(next)]) == (Segment {
            keys: seq![Pressed(key)],
            consumed: 2,
        }),
{
    let log = seq![Event::Down(key), Event::Up(key), Event::Down(next)];
    let keys = Seq::<Pressed>::empty().push(Pressed(key));
    assert(log[1] == Event::Up(key));
    assert(released_from(log, 1, key));
    assert(scan(log, 1, keys) == (Segment { keys, consumed: 2 }));
    assert(keys =~= seq![Pressed(key)]);
}

/// A press that is not released yet stops the pass: it is not part of the
/// chord and stays in the log.
pub proof fn lemma_open_press_stays(log: Seq<Event>, at: int, keys: Seq<Pressed>, key: Key)
    requires
        0 <= at < log.len(),
        log[at] == Event::Down(key),
        !released_from(log, at + 1, key),
    ensures
        scan(log, at, keys) == (Segment { keys, consumed: at as nat }),
{
}

/// Looks for a release of `key` at or behind position `from`.
fn has_release(stack: &[Event], from: usize, key: Key) -> (found: bool)
    requires
        from <= stack@.len(),
    ensures
        found == released_from(stack@, from as int, key),
{
    let mut j: usize = from;
    while j < stack.len()
        invariant
            from <= j <= stack@.len(),
            forall|i: int| from <= i < j ==> stack@[i] != Event::Up(key),
        decreases stack@.len() - j,
    {
        if stack[j] == Event::Up(key) {
            return true;
        }
        j += 1;
    }
    false
}

/// The pass of `scan` from position `at` on: records the keys in `pressed`
/// and returns how many events of `stack` the pass leaves.
fn rec_chord(
    stack: &[Event],
    at: usize,
    pressed: &mut heapless::Vec<Pressed, PRESS_SIZE>,
) -> (remaining: usize)
    requires
        at < stack@.len(),
        scan(stack@, at as int, chord_keys(*old(pressed))).keys.len() <= PRESS_SIZE,
    ensures
        chord_keys(*final(pressed)) == scan(stack@, at as int, chord_keys(*old(pressed))).keys,
        remaining == stack@.len() - scan(stack@, at as int, chord_keys(*old(pressed))).consumed,
    decreases stack@.len() - at,
{
    let ghost before = chord_keys(*pressed);
    let keys = chord_slice(pressed);
    if keys.len() > 0 {
        let Pressed(root_key) = keys[0];
        if stack[at] == Event::Up(root_key) {
            return stack.len() - at - 1;
        }
    }
    if let Event::Down(start_key) = stack[at] {
        if has_release(stack, at + 1, start_key) {
            proof {
                lemma_scan_bounds(stack@, at + 1, before.push(Pressed(start_key)));
            }
            let _ = chord_push(pressed, Pressed(start_key));
        } else {
            return stack.len() - at;
        }
    }
    if stack.len() - at >= 2 {
        return rec_chord(stack, at + 1, pressed);
    }
    assert(scan(stack@, at + 1, chord_keys(*pressed)).consumed == stack@.len());
    0
}

/// The length of the chord at the head of `stack`, found without a buffer.
fn peek_count(stack: &[Event]) -> (count: usize)
    ensures
        count == segment(stack@).keys.len(),
{
    let mut at: usize = 0;
    let mut count: usize = 0;
    let mut root: Option<Key> = None;
    let ghost mut keys: Seq<Pressed> = Seq::empty();
    while at < stack.len()
        invariant
            at <= stack@.len(),
            count == keys.len(),
            count <= at,
            root == (if keys.len() > 0 {
                Some(keys[0].0)
            } else {
                None::<Key>
            }),
            scan(stack@, at as int, keys) == segment(stack@),
        decreases stack@.len() - at,
    {
        if let Some(root_key) = root {
            if stack[at] == Event::Up(root_key) {
                return count;
            }
        }
        if let Event::Down(start_key) = stack[at] {
            if has_release(stack, at + 1, start_key) {
                if count == 0 {
                    root = Some(start_key);
                }
                count += 1;
                proof {
                    keys = keys.push(Pressed(start_key));
                }
            } else {
                return count;
            }
        }
        at += 1;
    }
    count
}

/// Whether the log has room for one more event.
pub fn log_has_room(stack: &heapless::Vec<Event, STACK_SIZE>) -> (room: bool)
    ensures
        room == (log_events(*stack).len() < STACK_SIZE),
{
    log_slice(stack).len() < STACK_SIZE
}

/// Whether the chord at the head of the log fits into a chord buffer.
pub fn chord_fits(stack: &heapless::Vec<Event, STACK_SIZE>) -> (fits: bool)
    ensures
        fits == (segment(log_events(*stack)).keys.len() <= PRESS_SIZE),
{
    peek_count(log_slice(stack)) <= PRESS_SIZE
}

/// The chord at the head of the log and the number of events it uses up; the
/// log stays as it is.
pub(crate) fn peek_chord(
    stack: &heapless::Vec<Event, STACK_SIZE>,
) -> (found: (heapless::Vec<Pressed, PRESS_SIZE>, usize))
    requires
        segment(log_events(*stack)).keys.len() <= PRESS_SIZE,
    ensures
        chord_keys(found.0) == segment(log_events(*stack)).keys,
        found.1 == segment(log_events(*stack)).consumed,
        found.1 <= log_events(*stack).len(),
{
    let mut pressed = chord_new();
    let events = log_slice(stack);
    let start_len = events.len();
    proof {
        lemma_scan_bounds(events@, 0, Seq::empty());
    }
    if start_len > 0 {
        let remaining = rec_chord(events, 0, &mut pressed);
        (pressed, start_len - remaining)
    } else {
        (pressed, 0)
    }
}

/// Removes the first `count` events from the log.
pub(crate) fn drop_front(stack: &mut heapless::Vec<Event, STACK_SIZE>, count: usize)
    requires
        count <= log_events(*old(stack)).len(),
    ensures
        log_events(*final(stack)) == log_events(*old(stack)).skip(count as int),
{
    let ghost log = log_events(*stack);
    let mut n: usize = 0;
    assert(log.skip(0) =~= log);
    while n < count
        invariant
            n <= count <= log.len(),
            log_events(*stack) == log.skip(n as int),
        decreases count - n,
    {
        let _ = log_remove(stack, 0);
        n += 1;
        assert(log.skip(n as int - 1).remove(0) =~= log.skip(n as int));
    }
}

/// Extracts the chord at the head of the log and removes from the log the
/// events that the chord uses up. An empty log, and a log that begins with a
/// press that is not released yet, give an empty chord and stay as they are.
///
/// The chord has to fit into its buffer, which `chord_fits` tells.
pub fn chord(
    stack: &mut heapless::Vec<Event, STACK_SIZE>,
) -> (pressed: heapless::Vec<Pressed, PRESS_SIZE>)
    requires
        segment(log_events(*old(stack))).keys.len() <= PRESS_SIZE,
    ensures
        chord_keys(pressed) == segment(log_events(*old(stack))).keys,
        log_events(*final(stack)) == log_events(*old(stack)).skip(
            segment(log_events(*old(stack))).consumed as int,
        ),
{
    let (pressed, consumed) = peek_chord(stack);
    drop_front(stack, consumed);
    pressed
}

} // verus!
