//! The fixed-capacity buffers of the engine. Each is a `heapless::Vec`; what
//! one holds is known to the verifier only through the functions below.

use crate::lex::{Event, Pressed, PRESS_SIZE, REPORT_SIZE, STACK_SIZE};
use vstd::prelude::*;

verus! {

/// `heapless::Vec`: up to `N` elements in an array of its own, in the order
/// in which they were pushed. The verifier sees nothing inside it.
#[verifier::external_type_specification]
#[verifier::external_body]
#[verifier::reject_recursive_types(T)]
pub struct ExHeaplessVec<T, const N: usize>(heapless::Vec<T, N>);

/// The transitions that an event log holds, oldest first.
pub uninterp spec fn log_events(log: heapless::Vec<Event, STACK_SIZE>) -> Seq<Event>;

/// The keys that a chord holds, in press order.
pub uninterp spec fn chord_keys(chord: heapless::Vec<Pressed, PRESS_SIZE>) -> Seq<Pressed>;

/// The usage codes that a report holds, in output order.
pub uninterp spec fn report_codes(report: heapless::Vec<u8, REPORT_SIZE>) -> Seq<u8>;

/// `heapless::Vec::as_slice` on an event log: the slice is the log's
/// contents, in order.
#[verifier::external_body]
pub(crate) fn log_slice(log: &heapless::Vec<Event, STACK_SIZE>) -> (events: &[Event])
    ensures
        events@ == log_events(*log),
{
    log.as_slice()
}

/// `heapless::Vec::push` on an event log: below capacity the event is
/// appended and the result is `Ok`; at capacity the log is left as it was and
/// the event comes back in `Err`.
#[verifier::external_body]
pub(crate) fn log_push(
    log: &mut heapless::Vec<Event, STACK_SIZE>,
    event: Event,
) -> (pushed: Result<(), Event>)
    ensures
        pushed == (if log_events(*old(log)).len() < STACK_SIZE {
            Ok(())
        } else {
            Err(event)
        }),
        log_events(*final(log)) == (if log_events(*old(log)).len() < STACK_SIZE {
            log_events(*old(log)).push(event)
        } else {
            log_events(*old(log))
        }),
{
    log.push(event)
}

/// `heapless::Vec::remove` on an event log: the element at `index` is taken
/// out and returned, and those behind it move up by one. The outside function
/// panics on an index past the end, which `requires` rules out.
#[verifier::external_body]
pub(crate) fn log_remove(
    log: &mut heapless::Vec<Event, STACK_SIZE>,
    index: usize,
) -> (event: Event)
    requires
        index < log_events(*old(log)).len(),
    ensures
        log_events(*final(log)) == log_events(*old(log)).remove(index as int),
        event == log_events(*old(log))[index as int],
{
    log.remove(index)
}

/// `heapless::Vec::new` for a chord: the new chord holds nothing.
#[verifier::external_body]
pub(crate) fn chord_new() -> (chord: heapless::Vec<Pressed, PRESS_SIZE>)
    ensures
        chord_keys(chord) == Seq::<Pressed>::empty(),
{
    heapless::Vec::new()
}

/// `heapless::Vec::push` on a chord: below capacity the key is appended and
/// the result is `Ok`; at capacity the chord is left as it was and the key
/// comes back in `Err`.
#[verifier::external_body]
pub(crate) fn chord_push(
    chord: &mut heapless::Vec<Pressed, PRESS_SIZE>,
    key: Pressed,
) -> (pushed: Result<(), Pressed>)
    ensures
        pushed == (if chord_keys(*old(chord)).len() < PRESS_SIZE {
            Ok(())
        } else {
            Err(key)
        }),
        chord_keys(*final(chord)) == (if chord_keys(*old(chord)).len() < PRESS_SIZE {
            chord_keys(*old(chord)).push(key)
        } else {
            chord_keys(*old(chord))
        }),
{
    chord.push(key)
}

/// `heapless::Vec::as_slice` on a chord: the slice is the chord's contents,
/// in order.
#[verifier::external_body]
pub(crate) fn chord_slice(chord: &heapless::Vec<Pressed, PRESS_SIZE>) -> (keys: &[Pressed])
    ensures
        keys@ == chord_keys(*chord),
{
    chord.as_slice()
}

/// `heapless::Vec::new` for a report: the new report holds nothing.
#[verifier::external_body]
pub(crate) fn report_new() -> (report: heapless::Vec<u8, REPORT_SIZE>)
    ensures
        report_codes(report) == Seq::<u8>::empty(),
{
    heapless::Vec::new()
}

/// `heapless::Vec::push` on a report: below capacity the code is appended and
/// the result is `Ok`; at capacity the report is left as it was and the code
/// comes back in `Err`.
#[verifier::external_body]
pub(crate) fn report_push(
    report: &mut heapless::Vec<u8, REPORT_SIZE>,
    code: u8,
) -> (pushed: Result<(), u8>)
    ensures
        pushed == (if report_codes(*old(report)).len() < REPORT_SIZE {
            Ok(())
        } else {
            Err(code)
        }),
        report_codes(*final(report)) == (if report_codes(*old(report)).len() < REPORT_SIZE {
            report_codes(*old(report)).push(code)
        } else {
            report_codes(*old(report))
        }),
{
    report.push(code)
}

/// `heapless::Vec::as_slice` on a report: the slice is the report's contents,
/// in order.
#[verifier::external_body]
pub(crate) fn report_slice(report: &heapless::Vec<u8, REPORT_SIZE>) -> (codes: &[u8])
    ensures
        codes@ == report_codes(*report),
{
    report.as_slice()
}

} // verus!
