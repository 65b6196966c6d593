//! Global statistics: monotonic connection counters classified as allowed,
//! blocked or errored, byte counters per direction, and a sampled speed
//! snapshot with running averages.
//!
//! The balance invariant holds at every quiescent point: the total equals
//! the sum of the allowed, blocked and errored counts, because every
//! recording operation bumps the total and exactly one class together.

use vstd::prelude::*;

verus! {

/// Saturating addition on the u64 range, as a mathematical function.
pub open spec fn spec_sat_add(a: int, b: int) -> int {
    if a + b <= u64::MAX {
        a + b
    } else {
        u64::MAX as int
    }
}

/// The sampled byte rate in bits per second: bytes times 8, over the
/// elapsed milliseconds, clamped to the u64 range.
pub open spec fn spec_rate(dbytes: int, dmillis: int) -> int {
    if dmillis > 0 {
        if dbytes * 8000 / dmillis <= u64::MAX {
            dbytes * 8000 / dmillis
        } else {
            u64::MAX as int
        }
    } else {
        0
    }
}

/// The global counters and the speed-sampling snapshot.
pub struct Statistics {
    pub total_connections: u64,
    pub allowed_connections: u64,
    pub blocked_connections: u64,
    pub errors_connections: u64,
    pub traffic_in: u64,
    pub traffic_out: u64,
    pub last_traffic_in: u64,
    pub last_traffic_out: u64,
    /// Bits per second, from the latest sample.
    pub speed_in: u64,
    pub speed_out: u64,
    /// Running sum and denominator for the average download rate; the
    /// denominator starts at one so the average is always defined.
    pub speed_in_sum: u64,
    pub speed_in_weight: u64,
    pub speed_out_sum: u64,
    pub speed_out_weight: u64,
    /// When the sampler last ran, in milliseconds of a monotonic clock.
    pub last_time_millis: Option<u64>,
}

/// The balance invariant: every counted connection is in exactly one class.
pub open spec fn spec_balanced(s: Statistics) -> bool {
    s.total_connections == s.allowed_connections + s.blocked_connections + s.errors_connections
}

/// Well-formedness of the sampling snapshot: the last sample never exceeds
/// the live byte counters, and the average denominators are positive.
pub open spec fn spec_stats_wf(s: Statistics) -> bool {
    &&& s.last_traffic_in <= s.traffic_in
    &&& s.last_traffic_out <= s.traffic_out
    &&& s.speed_in_weight >= 1
    &&& s.speed_out_weight >= 1
}

impl Statistics {
    /// Fresh statistics: all counters zero, average denominators one.
    pub fn new() -> (s: Statistics)
        ensures
            s.total_connections == 0,
            s.allowed_connections == 0,
            s.blocked_connections == 0,
            s.errors_connections == 0,
            s.traffic_in == 0,
            s.traffic_out == 0,
            s.speed_in == 0,
            s.speed_out == 0,
            s.speed_in_sum == 0,
            s.speed_out_sum == 0,
            s.last_time_millis is None,
            spec_balanced(s),
            spec_stats_wf(s),
    {
        Statistics {
            total_connections: 0,
            allowed_connections: 0,
            blocked_connections: 0,
            errors_connections: 0,
            traffic_in: 0,
            traffic_out: 0,
            last_traffic_in: 0,
            last_traffic_out: 0,
            speed_in: 0,
            speed_out: 0,
            speed_in_sum: 0,
            speed_in_weight: 1,
            speed_out_sum: 0,
            speed_out_weight: 1,
            last_time_millis: None,
        }
    }

    /// Count one connection that was forwarded without fragmentation.
    /// Balance is preserved: the total and the allowed class move together.
    pub fn record_allowed(&mut self)
        requires
            old(self).total_connections < u64::MAX,
            old(self).allowed_connections < u64::MAX,
        ensures
            *final (self) == (Statistics {
                total_connections: (old(self).total_connections + 1) as u64,
                allowed_connections: (old(self).allowed_connections + 1) as u64,
                ..*old(self)
            }),
            spec_balanced(*old(self)) ==> spec_balanced(*final (self)),
            spec_stats_wf(*old(self)) ==> spec_stats_wf(*final (self)),
    {
        self.total_connections = self.total_connections + 1;
        self.allowed_connections = self.allowed_connections + 1;
    }

    /// Count one connection whose first TLS record was fragmented.
    pub fn record_blocked(&mut self)
        requires
            old(self).total_connections < u64::MAX,
            old(self).blocked_connections < u64::MAX,
        ensures
            *final (self) == (Statistics {
                total_connections: (old(self).total_connections + 1) as u64,
                blocked_connections: (old(self).blocked_connections + 1) as u64,
                ..*old(self)
            }),
            spec_balanced(*old(self)) ==> spec_balanced(*final (self)),
            spec_stats_wf(*old(self)) ==> spec_stats_wf(*final (self)),
    {
        self.total_connections = self.total_connections + 1;
        self.blocked_connections = self.blocked_connections + 1;
    }

    /// Count one connection that ended in an error.
    pub fn record_error(&mut self)
        requires
            old(self).total_connections < u64::MAX,
            old(self).errors_connections < u64::MAX,
        ensures
            *final (self) == (Statistics {
                total_connections: (old(self).total_connections + 1) as u64,
                errors_connections: (old(self).errors_connections + 1) as u64,
                ..*old(self)
            }),
            spec_balanced(*old(self)) ==> spec_balanced(*final (self)),
            spec_stats_wf(*old(self)) ==> spec_stats_wf(*final (self)),
    {
        self.total_connections = self.total_connections + 1;
        self.errors_connections = self.errors_connections + 1;
    }

    /// Add copied bytes to the two byte counters, saturating at the top of
    /// the range.
    pub fn add_traffic(&mut self, incoming: u64, outgoing: u64)
        ensures
            *final (self) == (Statistics {
                traffic_in: spec_sat_add(old(self).traffic_in as int, incoming as int) as u64,
                traffic_out: spec_sat_add(old(self).traffic_out as int, outgoing as int) as u64,
                ..*old(self)
            }),
            spec_balanced(*old(self)) ==> spec_balanced(*final (self)),
            spec_stats_wf(*old(self)) ==> spec_stats_wf(*final (self)),
    {
        self.traffic_in = self.traffic_in.saturating_add(incoming);
        self.traffic_out = self.traffic_out.saturating_add(outgoing);
    }

    /// One sampler tick at `now_millis` on a monotonic clock. On the first
    /// tick it only records the baseline; afterwards it computes each
    /// direction's rate over the elapsed interval, feeds positive rates
    /// into the running averages, and re-arms the baseline.
    pub fn update_speeds(&mut self, now_millis: u64)
        requires
            spec_stats_wf(*old(self)),
            match old(self).last_time_millis {
                Some(prev) => prev <= now_millis,
                None => true,
            },
        ensures
            spec_stats_wf(*final (self)),
            final (self).last_traffic_in == old(self).traffic_in,
            final (self).last_traffic_out == old(self).traffic_out,
            final (self).last_time_millis == Some(now_millis),
            final (self).total_connections == old(self).total_connections,
            final (self).allowed_connections == old(self).allowed_connections,
            final (self).blocked_connections == old(self).blocked_connections,
            final (self).errors_connections == old(self).errors_connections,
            final (self).traffic_in == old(self).traffic_in,
            final (self).traffic_out == old(self).traffic_out,
            spec_balanced(*old(self)) ==> spec_balanced(*final (self)),
            match old(self).last_time_millis {
                Some(prev) => if prev < now_millis {
                    &&& final (self).speed_in == spec_rate(
                        old(self).traffic_in - old(self).last_traffic_in,
                        now_millis - prev,
                    )
                    &&& final (self).speed_out == spec_rate(
                        old(self).traffic_out - old(self).last_traffic_out,
                        now_millis - prev,
                    )
                    &&& final (self).speed_in_sum == (if final (self).speed_in > 0 {
                        spec_sat_add(old(self).speed_in_sum as int, final (self).speed_in as int)
                    } else {
                        old(self).speed_in_sum as int
                    })
                    &&& final (self).speed_in_weight == (if final (self).speed_in > 0 {
                        spec_sat_add(old(self).speed_in_weight as int, 1)
                    } else {
                        old(self).speed_in_weight as int
                    })
                    &&& final (self).speed_out_sum == (if final (self).speed_out > 0 {
                        spec_sat_add(old(self).speed_out_sum as int, final (self).speed_out as int)
                    } else {
                        old(self).speed_out_sum as int
                    })
                    &&& final (self).speed_out_weight == (if final (self).speed_out > 0 {
                        spec_sat_add(old(self).speed_out_weight as int, 1)
                    } else {
                        old(self).speed_out_weight as int
                    })
                } else {
                    &&& final (self).speed_in == old(self).speed_in
                    &&& final (self).speed_out == old(self).speed_out
                    &&& final (self).speed_in_sum == old(self).speed_in_sum
                    &&& final (self).speed_in_weight == old(self).speed_in_weight
                    &&& final (self).speed_out_sum == old(self).speed_out_sum
                    &&& final (self).speed_out_weight == old(self).speed_out_weight
                },
                None => {
                    &&& final (self).speed_in == old(self).speed_in
                    &&& final (self).speed_out == old(self).speed_out
                    &&& final (self).speed_in_sum == old(self).speed_in_sum
                    &&& final (self).speed_in_weight == old(self).speed_in_weight
                    &&& final (self).speed_out_sum == old(self).speed_out_sum
                    &&& final (self).speed_out_weight == old(self).speed_out_weight
                },
            },
    {
        match self.last_time_millis {
            Some(prev) => {
                if prev < now_millis {
                    let diff = now_millis - prev;
                    let din = self.traffic_in - self.last_traffic_in;
                    let dout = self.traffic_out - self.last_traffic_out;
                    self.speed_in = rate_bits_per_sec(din, diff);
                    self.speed_out = rate_bits_per_sec(dout, diff);
                    if self.speed_in > 0 {
                        self.speed_in_sum = self.speed_in_sum.saturating_add(self.speed_in);
                        self.speed_in_weight = self.speed_in_weight.saturating_add(1);
                    }
                    if self.speed_out > 0 {
                        self.speed_out_sum = self.speed_out_sum.saturating_add(self.speed_out);
                        self.speed_out_weight = self.speed_out_weight.saturating_add(1);
                    }
                }
            },
            None => {},
        }
        self.last_traffic_in = self.traffic_in;
        self.last_traffic_out = self.traffic_out;
        self.last_time_millis = Some(now_millis);
    }

    /// The running average download rate, in bits per second.
    pub fn average_speed_in(&self) -> (r: u64)
        requires
            spec_stats_wf(*self),
        ensures
            r == self.speed_in_sum as int / self.speed_in_weight as int,
    {
        self.speed_in_sum / self.speed_in_weight
    }

    /// The running average upload rate, in bits per second.
    pub fn average_speed_out(&self) -> (r: u64)
        requires
            spec_stats_wf(*self),
        ensures
            r == self.speed_out_sum as int / self.speed_out_weight as int,
    {
        self.speed_out_sum / self.speed_out_weight
    }
}

/// `dbytes * 8000 / dmillis`, computed in 128 bits and clamped to u64.
fn rate_bits_per_sec(dbytes: u64, dmillis: u64) -> (r: u64)
    requires
        dmillis > 0,
    ensures
        r == spec_rate(dbytes as int, dmillis as int),
{
    let wide: u128 = (dbytes as u128) * 8000 / (dmillis as u128);
    if wide > u64::MAX as u128 {
        u64::MAX
    } else {
        wide as u64
    }
}

} // verus!
