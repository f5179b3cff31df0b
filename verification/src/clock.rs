//! The time of day.

use crate::text;
use vstd::prelude::*;

verus! {

/// `std::time::SystemTimeError`, of which nothing is looked at.
#[verifier::external_type_specification]
#[verifier::external_body]
pub struct ExSystemTimeError(std::time::SystemTimeError);

/// `SystemTime::elapsed` of `std::time::UNIX_EPOCH`: the time since the epoch by
/// the system clock, or an error where that clock stands before the epoch.
/// Nothing can be said of what the clock shows.
#[verifier::external_body]
fn since_epoch() -> (elapsed: Result<std::time::Duration, std::time::SystemTimeError>)
{
    std::time::UNIX_EPOCH.elapsed()
}

/// `Duration::as_secs`: the whole seconds of a duration. A duration is opaque
/// here, so that nothing is said of their number.
pub assume_specification[ std::time::Duration::as_secs ](d: &std::time::Duration) -> (seconds: u64)
;

/// The seconds since the epoch, where `elapsed` is what the system clock says;
/// a clock that stands before the epoch counts as the epoch.
pub fn unix_seconds(elapsed: Option<u64>) -> (seconds: u64)
    ensures
        seconds == (match elapsed {
            Some(s) => s,
            None => 0,
        }),
{
    match elapsed {
        Some(s) => s,
        None => 0,
    }
}

/// The seconds since the epoch by the system clock.
pub fn now() -> (seconds: u64)
{
    let elapsed: Option<u64> = match since_epoch() {
        Ok(d) => Some(d.as_secs()),
        Err(_) => None,
    };
    unix_seconds(elapsed)
}

/// The time of day, in UTC, at `now` seconds after the epoch: hours, minutes
/// and seconds, two digits each.
pub open spec fn clock_of(now: nat) -> Seq<char> {
    let secs = now % 86_400;
    text::two_digits_of(secs / 3600).push(':') + text::two_digits_of(secs / 60 % 60).push(':') + text::two_digits_of(
        secs % 60,
    )
}

/// The time of day at `now` seconds after the epoch.
pub fn clock_at(now: u64) -> (text: String)
    ensures
        text@ == clock_of(now as nat),
{
    let secs: u64 = now % 86_400;
    let mut text = String::new();
    text::push_two_digits(&mut text, secs / 3600);
    text.push(':');
    text::push_two_digits(&mut text, (secs / 60) % 60);
    text.push(':');
    text::push_two_digits(&mut text, secs % 60);
    assert(text@ =~= clock_of(now as nat));
    text
}

/// The time of day by the system clock.
pub fn clock() -> (text: String)
    ensures
        exists|now: u64| text@ == #[trigger] clock_of(now as nat),
{
    clock_at(now())
}

/// The clock shows the same at the same second of every day.
pub proof fn law_clock_repeats_daily(now: nat, days: nat)
    ensures
        clock_of(now + days * 86_400) == clock_of(now),
        clock_of(now).len() == 8,
{
    assert((now + days * 86_400) % 86_400 == now % 86_400) by (nonlinear_arith);
}

/// The clock spells the time of day: hours, minutes and seconds that add up to the
/// seconds since midnight, two digits each, with colons between.
pub proof fn law_clock_spells_time_of_day(now: nat)
    ensures
        ({
            let shown = clock_of(now);
            let hours = text::number_of(shown.subrange(0, 2));
            let minutes = text::number_of(shown.subrange(3, 5));
            let seconds = text::number_of(shown.subrange(6, 8));
            &&& shown.len() == 8
            &&& shown[2] == ':' && shown[5] == ':'
            &&& 0 <= hours < 24 && 0 <= minutes < 60 && 0 <= seconds < 60
            &&& hours * 3600 + minutes * 60 + seconds == now % 86_400
        }),
{
    let secs = now % 86_400;
    let shown = clock_of(now);
    text::law_two_digits_spell_number(secs / 3600);
    text::law_two_digits_spell_number(secs / 60 % 60);
    text::law_two_digits_spell_number(secs % 60);
    assert(shown.subrange(0, 2) =~= text::two_digits_of(secs / 3600));
    assert(shown.subrange(3, 5) =~= text::two_digits_of(secs / 60 % 60));
    assert(shown.subrange(6, 8) =~= text::two_digits_of(secs % 60));
}

} // verus!
