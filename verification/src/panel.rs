//! Rules of the control panel that do not depend on how it is drawn.

use vstd::prelude::*;

verus! {

/// How hot the laser module runs.
#[derive(Debug, Clone, Copy, PartialEq, Eq, Structural)]
pub enum TempLevel {
    /// Up to 40 °C.
    Normal,
    /// 41 to 55 °C.
    Warm,
    /// Above 55 °C.
    Hot,
}

/// The band of a temperature reading.
pub open spec fn spec_temperature_level(t: u8) -> TempLevel {
    if t <= 40 {
        TempLevel::Normal
    } else if t <= 55 {
        TempLevel::Warm
    } else {
        TempLevel::Hot
    }
}

/// Classifies a temperature reading for display.
pub fn temperature_level(t: u8) -> (level: TempLevel)
    ensures
        level == spec_temperature_level(t),
{
    if t <= 40 {
        TempLevel::Normal
    } else if t <= 55 {
        TempLevel::Warm
    } else {
        TempLevel::Hot
    }
}

/// How many lines the log keeps.
pub const LOG_CAPACITY: usize = 200;

/// The log after one more line: the line is appended, and the oldest line
/// goes when the log would exceed its capacity.
pub open spec fn spec_append_log<T>(log: Seq<T>, line: T) -> Seq<T> {
    if log.len() + 1 > LOG_CAPACITY {
        log.push(line).drop_first()
    } else {
        log.push(line)
    }
}

/// Appends a line to the log, dropping the oldest one beyond the capacity.
pub fn append_log_line(log: &mut Vec<String>, line: String)
    ensures
        final(log)@ == spec_append_log(old(log)@, line),
{
    log.push(line);
    if log.len() > LOG_CAPACITY {
        log.remove(0);
    }
    assert(final(log)@ =~= spec_append_log(old(log)@, line));
}


/// The log never grows past its capacity, and its newest line is the one
/// appended last.
pub proof fn lemma_log_is_bounded<T>(log: Seq<T>, line: T)
    requires
        log.len() <= LOG_CAPACITY,
    ensures
        spec_append_log(log, line).len() <= LOG_CAPACITY,
        spec_append_log(log, line).last() == line,
{
}

/// The rank of a band, coolest first.
pub open spec fn level_rank(l: TempLevel) -> int {
    match l {
        TempLevel::Normal => 0,
        TempLevel::Warm => 1,
        TempLevel::Hot => 2,
    }
}

/// A hotter reading never falls in a cooler band; 40 °C is the last normal
/// reading and 55 °C the last warm one.
pub proof fn lemma_temperature_bands(t1: u8, t2: u8)
    ensures
        t1 <= t2 ==> level_rank(spec_temperature_level(t1)) <= level_rank(spec_temperature_level(t2)),
        spec_temperature_level(40) == TempLevel::Normal,
        spec_temperature_level(41) == TempLevel::Warm,
        spec_temperature_level(55) == TempLevel::Warm,
        spec_temperature_level(56) == TempLevel::Hot,
{
}

} // verus!
