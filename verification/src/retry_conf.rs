//! The delivery configuration: how often to attempt, how the inter-attempt
//! delay grows, and where to buffer records that could not be delivered.

use vstd::prelude::*;

verus! {

/// Immutable delivery settings, supplied at client construction.
///
/// The backoff multiplier is a rational greater than one, kept as a
/// numerator/denominator pair so that the delay growth is exact.
#[derive(Debug, Clone, PartialEq)]
pub struct RetryConf {
    /// How many delivery attempts at most; at least one.
    pub max_attempts: u32,
    /// Numerator of the backoff multiplier.
    pub multiplier_num: u64,
    /// Denominator of the backoff multiplier.
    pub multiplier_den: u64,
    /// The delay before the first retry, in milliseconds.
    pub base_delay: u64,
    /// Where to persist a record after all attempts fail, if anywhere.
    pub buffer_path: Option<String>,
}

impl RetryConf {
    /// At least one attempt, and a multiplier strictly above one.
    pub open spec fn wf(&self) -> bool {
        &&& self.max_attempts >= 1
        &&& self.multiplier_den >= 1
        &&& self.multiplier_num > self.multiplier_den
    }

    /// The default configuration: thirteen attempts, delays doubling from
    /// half a second, no buffer file.
    pub fn new() -> (c: RetryConf)
        ensures
            c.wf(),
            c.max_attempts == 13,
            c.multiplier_num == 2,
            c.multiplier_den == 1,
            c.base_delay == 500,
            c.buffer_path is None,
    {
        RetryConf {
            max_attempts: 13,
            multiplier_num: 2,
            multiplier_den: 1,
            base_delay: 500,
            buffer_path: None,
        }
    }

    /// Change the attempt ceiling.
    pub fn max(self, max_attempts: u32) -> (c: RetryConf)
        requires
            max_attempts >= 1,
        ensures
            c == (RetryConf { max_attempts, ..self }),
    {
        RetryConf { max_attempts, ..self }
    }

    /// Change the backoff multiplier to `num / den`.
    pub fn multiplier(self, num: u64, den: u64) -> (c: RetryConf)
        requires
            den >= 1,
            num > den,
        ensures
            c == (RetryConf { multiplier_num: num, multiplier_den: den, ..self }),
    {
        RetryConf { multiplier_num: num, multiplier_den: den, ..self }
    }

    /// Change the delay before the first retry.
    pub fn base(self, base_delay: u64) -> (c: RetryConf)
        ensures
            c == (RetryConf { base_delay, ..self }),
    {
        RetryConf { base_delay, ..self }
    }

    /// Configure a buffer file for records whose delivery fails for good.
    pub fn store_file(self, path: String) -> (c: RetryConf)
        ensures
            c == (RetryConf { buffer_path: Some(path), ..self }),
    {
        RetryConf { buffer_path: Some(path), ..self }
    }

    /// The attempt ceiling and the multiplier pair, for a caller driving the
    /// attempts itself.
    pub fn build(&self) -> (r: (u32, u64, u64))
        ensures
            r == (self.max_attempts, self.multiplier_num, self.multiplier_den),
    {
        (self.max_attempts, self.multiplier_num, self.multiplier_den)
    }
}

} // verus!
