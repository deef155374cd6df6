//! Clock-style rendering of media timestamps: `HH:MM:SS.mmm`.

use vstd::prelude::*;
use crate::text::{
    digits_value, lemma_zero_padded_len, lemma_zero_padded_value, pow10, push_char, push_padded,
    zero_padded,
};

verus! {

/// `HH:MM:SS.mmm` for a whole number of seconds and a millisecond part:
/// hours, minutes and seconds padded to two digits, milliseconds to three;
/// no field is ever truncated (hours may use more digits).
pub open spec fn clock_text(total_secs: nat, millis: nat) -> Seq<char> {
    zero_padded(total_secs / 3600, 2) + seq![':'] + zero_padded((total_secs % 3600) / 60, 2)
        + seq![':'] + zero_padded(total_secs % 60, 2) + seq!['.'] + zero_padded(millis, 3)
}

/// The clock text of a timestamp in milliseconds; timestamps before zero
/// render as the zero time.
pub open spec fn human_time(time_ms: int) -> Seq<char> {
    if time_ms < 0 {
        clock_text(0, 0)
    } else {
        clock_text((time_ms / 1000) as nat, (time_ms % 1000) as nat)
    }
}

/// Renders whole seconds and a millisecond part below one second as
/// `HH:MM:SS.mmm`.
pub fn format_clock(total_secs: u64, millis: u32) -> (res: String)
    requires
        millis < 1000,
    ensures
        res@ == clock_text(total_secs as nat, millis as nat),
{
    let mut s = String::new();
    push_padded(&mut s, total_secs / 3600, 2);
    push_char(&mut s, ':');
    push_padded(&mut s, (total_secs % 3600) / 60, 2);
    push_char(&mut s, ':');
    push_padded(&mut s, total_secs % 60, 2);
    push_char(&mut s, '.');
    push_padded(&mut s, millis as u64, 3);
    assert(s@ =~= clock_text(total_secs as nat, millis as nat));
    s
}

/// Formats a timestamp given in milliseconds as `HH:MM:SS.mmm`.
pub fn format_human_time(time_ms: i64) -> (res: String)
    ensures
        res@ == human_time(time_ms as int),
{
    if time_ms < 0 {
        format_clock(0, 0)
    } else {
        let secs = (time_ms / 1000) as u64;
        let millis = (time_ms % 1000) as u32;
        format_clock(secs, millis)
    }
}

/// Reads clock text back: the last three characters are milliseconds,
/// then come '.', two digits of seconds, ':', two digits of minutes, ':',
/// and the hours take the rest. Yields (whole seconds, milliseconds).
pub open spec fn read_clock(t: Seq<char>) -> (nat, nat) {
    let n = t.len() as int;
    let hours = digits_value(t.subrange(0, n - 10));
    let minutes = digits_value(t.subrange(n - 9, n - 7));
    let seconds = digits_value(t.subrange(n - 6, n - 4));
    let millis = digits_value(t.subrange(n - 3, n));
    ((hours * 3600 + minutes * 60 + seconds) as nat, millis)
}

/// Clock text denotes its time exactly: reading it back gives the seconds
/// and milliseconds it was made from.
pub proof fn clock_text_reads_back(total_secs: nat, millis: nat)
    requires
        millis < 1000,
    ensures
        read_clock(clock_text(total_secs, millis)) == (total_secs, millis),
{
    reveal_with_fuel(pow10, 4);
    let h = total_secs / 3600;
    let m = (total_secs % 3600) / 60;
    let s = total_secs % 60;
    let ph = zero_padded(h, 2);
    let pm = zero_padded(m, 2);
    let ps = zero_padded(s, 2);
    let pms = zero_padded(millis, 3);
    lemma_zero_padded_len(m, 2);
    lemma_zero_padded_len(s, 2);
    lemma_zero_padded_len(millis, 3);
    lemma_zero_padded_value(h, 2);
    lemma_zero_padded_value(m, 2);
    lemma_zero_padded_value(s, 2);
    lemma_zero_padded_value(millis, 3);
    let t = clock_text(total_secs, millis);
    let n = t.len() as int;
    assert(n == ph.len() + 10);
    assert(t.subrange(0, n - 10) =~= ph);
    assert(t.subrange(n - 9, n - 7) =~= pm);
    assert(t.subrange(n - 6, n - 4) =~= ps);
    assert(t.subrange(n - 3, n) =~= pms);
}

/// The clock text of a timestamp at or after zero reads back to that
/// timestamp: whole seconds and milliseconds recombine to it.
pub proof fn human_time_reads_back(time_ms: int)
    requires
        time_ms >= 0,
    ensures
        ({
            let (secs, millis) = read_clock(human_time(time_ms));
            secs * 1000 + millis == time_ms
        }),
{
    clock_text_reads_back((time_ms / 1000) as nat, (time_ms % 1000) as nat);
}

/// `HH:MM:SS` for a duration in whole seconds, each field padded to two
/// digits (hours may use more).
pub open spec fn duration_text(total_secs: nat) -> Seq<char> {
    zero_padded(total_secs / 3600, 2) + seq![':'] + zero_padded((total_secs % 3600) / 60, 2)
        + seq![':'] + zero_padded(total_secs % 60, 2)
}

/// Renders a duration in whole seconds as `HH:MM:SS`.
pub fn format_duration(total_secs: u64) -> (res: String)
    ensures
        res@ == duration_text(total_secs as nat),
{
    let mut s = String::new();
    push_padded(&mut s, total_secs / 3600, 2);
    push_char(&mut s, ':');
    push_padded(&mut s, (total_secs % 3600) / 60, 2);
    push_char(&mut s, ':');
    push_padded(&mut s, total_secs % 60, 2);
    assert(s@ =~= duration_text(total_secs as nat));
    s
}

} // verus!
