//! Settings.

use vstd::prelude::*;

use crate::rate::Rate;
use crate::span::Span;

verus! {

/// The settings of the monitor.
#[derive(Clone, Copy, Debug)]
pub struct Config {
    /// The speed from which the connection counts as healthy, and above which it counts as
    /// recovered.
    pub threshold_mbps: Rate,
    /// How long to rest after a round.
    pub sleep_duration: Span,
    /// How long the speed is measured in a check.
    pub check_duration: Span,
    /// How many downloads run in parallel.
    pub streams: usize,
    /// How many of the last speeds are kept, for an average over them.
    pub rolling_window_secs: usize,
}

/// The bit pattern of 20 Mbit/s.
pub const DEFAULT_THRESHOLD_BITS: u64 = 0x4034_0000_0000_0000;

/// The bit pattern of the default threshold stands for 20.
pub proof fn lemma_default_threshold()
    ensures
        !(Rate { bits: DEFAULT_THRESHOLD_BITS }).is_nan(),
        (Rate { bits: DEFAULT_THRESHOLD_BITS }).value() == 20 * vstd::arithmetic::power2::pow2(1074),
{
    let f: nat = 0x10_0000_0000_0000;
    let m: nat = 0x4034_0000_0000_0000;
    assert(m / f == 1027 && m % f == 0x4_0000_0000_0000);
    vstd::arithmetic::power2::lemma2_to64();
    vstd::arithmetic::power2::lemma2_to64_rest();
    vstd::arithmetic::power2::lemma_pow2_adds(50, 1026);
    vstd::arithmetic::power2::lemma_pow2_adds(2, 1074);
    let p = vstd::arithmetic::power2::pow2(1026);
    assert(vstd::arithmetic::power2::pow2(50) == 0x4_0000_0000_0000);
    assert((0x14_0000_0000_0000 as nat) * p == 5 * (0x4_0000_0000_0000 * p)) by (nonlinear_arith);
}

/// The settings that hold where nothing else is asked for.
pub open spec fn default_config() -> Config {
    Config {
        threshold_mbps: Rate { bits: DEFAULT_THRESHOLD_BITS },
        sleep_duration: Span::of_secs(3600),
        check_duration: Span::of_secs(5),
        streams: 4,
        rolling_window_secs: 5,
    }
}

impl Default for Config {
    /// A threshold of 20 Mbit/s, an hour of sleep, checks of five seconds, four parallel
    /// downloads and the last five speeds kept.
    fn default() -> (r: Config)
        ensures
            r == default_config(),
            r.threshold_mbps.bits == 0x4034_0000_0000_0000,
            r.threshold_mbps.value() == 20 * vstd::arithmetic::power2::pow2(1074),
            r.sleep_duration.nanos == 3_600_000_000_000,
            r.check_duration.nanos == 5_000_000_000,
            r.streams == 4,
            r.rolling_window_secs == 5,
    {
        proof {
            lemma_default_threshold();
        }
        Config {
            threshold_mbps: Rate { bits: DEFAULT_THRESHOLD_BITS },
            sleep_duration: Span::from_secs(3600),
            check_duration: Span::from_secs(5),
            streams: 4,
            rolling_window_secs: 5,
        }
    }
}

} // verus!
