//! Timestamps as they travel on the wire: either whole epoch seconds, or a
//! structured pair of seconds and nanoseconds.

use vstd::prelude::*;

verus! {

/// Which of the two time representations a client was configured with.
/// The choice is made once, at client construction, and applies to every
/// record the client ships.
#[derive(Debug, Clone, Copy, PartialEq, Eq)]
pub enum TimeFormat {
    /// Timestamps travel as a plain 64-bit count of epoch seconds.
    Integer,
    /// Timestamps travel as a fixed-width seconds + nanoseconds pair.
    Structured,
}

/// A timestamp ready for encoding.
#[derive(Debug, Clone, Copy, PartialEq, Eq)]
pub enum TimestampValue {
    /// Whole seconds since the epoch.
    Integer(i64),
    /// Seconds and sub-second nanoseconds, kept separately.
    Structured { seconds: u32, nanoseconds: u32 },
}

impl TimestampValue {
    /// A structured timestamp never carries a full second of nanoseconds.
    pub open spec fn wf(&self) -> bool {
        match self {
            TimestampValue::Integer(_) => true,
            TimestampValue::Structured { seconds: _, nanoseconds } => *nanoseconds
                < 1_000_000_000,
        }
    }
}

/// The wire keeps four bytes of seconds in structured mode, so an epoch
/// count is reduced modulo 2^32, as a plain narrowing of the integer would.
pub open spec fn seconds_wire(epoch_seconds: i64) -> u32 {
    ((epoch_seconds as int) % 0x1_0000_0000) as u32
}

/// Turn an epoch-seconds count plus nanoseconds into the representation the
/// configured format calls for. Integer mode drops the nanoseconds; structured
/// mode keeps both components.
pub fn encode_time(format: TimeFormat, epoch_seconds: i64, nanoseconds: u32) -> (t: TimestampValue)
    requires
        nanoseconds < 1_000_000_000,
    ensures
        t.wf(),
        format == TimeFormat::Integer ==> t == TimestampValue::Integer(epoch_seconds),
        format == TimeFormat::Structured ==> t == (TimestampValue::Structured {
            seconds: seconds_wire(epoch_seconds),
            nanoseconds,
        }),
{
    match format {
        TimeFormat::Integer => TimestampValue::Integer(epoch_seconds),
        TimeFormat::Structured => {
            let r: i64 = epoch_seconds % 0x1_0000_0000;
            let wrapped: i64 = if r < 0 {
                r + 0x1_0000_0000
            } else {
                r
            };
            proof {
                vstd::arithmetic::div_mod::lemma_fundamental_div_mod(
                    epoch_seconds as int,
                    0x1_0000_0000,
                );
            }
            TimestampValue::Structured { seconds: wrapped as u32, nanoseconds }
        },
    }
}

/// Relies on time::OffsetDateTime: `now_utc` reads the system clock, and
/// `nanosecond` is documented to return a value in 0..=999_999_999. Nothing
/// more can be promised of a clock reading.
#[verifier::external_body]
fn clock_now() -> (r: (i64, u32))
    ensures
        r.1 < 1_000_000_000,
{
    let now = time::OffsetDateTime::now_utc();
    (now.unix_timestamp(), now.nanosecond())
}

/// Read the clock and build a timestamp in the configured format.
pub fn encode_time_now(format: TimeFormat) -> (t: TimestampValue)
    ensures
        t.wf(),
        (format == TimeFormat::Integer) <==> (t is Integer),
{
    let (s, n) = clock_now();
    encode_time(format, s, n)
}

} // verus!
