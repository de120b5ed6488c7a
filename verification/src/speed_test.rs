//! The mirror-probe primitive: streaming measurement state for one download.
//!
//! The network transfer itself happens outside the library.  A caller feeds
//! every received chunk (with its arrival time) into [`ProbeState::on_chunk`]
//! and is told when the measurement has converged; [`ProbeState::finish`]
//! then either rejects the probe or yields a [`SpeedTestResult`].

use vstd::prelude::*;

use crate::arith::isqrt;
use crate::config::Config;
use crate::mirror::Mirror;

verus! {

/// Ceiling on bytes a probe may account (2^53); far above any real download.
pub const MAX_PROBE_BYTES: u64 = 0x20_0000_0000_0000;

/// Ceiling on a single chunk-speed sample, bytes per second (2^50).
pub const SPEED_CAP: u64 = 0x4_0000_0000_0000;

/// Ceiling on probe timestamps, milliseconds (2^32, about 49 days).
pub const MAX_PROBE_TIME_MS: u64 = 0x1_0000_0000;

/// Why a probe failed.
#[derive(Clone, Debug)]
pub enum SpeedTestError {
    /// DNS/TCP/TLS failure or connect timeout, with the transport's message.
    ReqwestError(String),
    /// The clock misbehaved while timing the request.
    SystemTimeError(String),
    /// Fewer bytes arrived than the configured minimum.
    TooFewBytesDownloadedError,
}

/// Outcome of one successful probe.
#[derive(Clone, Debug)]
pub struct SpeedTestResult {
    /// Bytes received while measuring.
    pub bytes_downloaded: u64,
    /// Measurement wall-clock, milliseconds; always positive.
    pub elapsed_ms: u64,
    /// Average download speed, bytes per second.
    pub speed: u64,
    /// Wall-clock from request send to response headers, milliseconds.
    pub connection_time_ms: u64,
    /// The mirror that was measured.
    pub item: Mirror,
}

/// An ordered collection of probe outcomes.
pub type SpeedTestResults = Vec<SpeedTestResult>;

impl SpeedTestResult {
    /// The arithmetic relation every result maintains: a positive elapsed
    /// time, and the speed computed from bytes and elapsed time.
    pub open spec fn wf(&self) -> bool {
        &&& 1 <= self.elapsed_ms <= MAX_PROBE_TIME_MS
        &&& self.bytes_downloaded <= MAX_PROBE_BYTES
        &&& self.speed == self.bytes_downloaded * 1000 / self.elapsed_ms as int
    }

    /// Builds a result, deriving the speed in bytes per second.
    pub fn new(item: Mirror, bytes_downloaded: u64, elapsed_ms: u64, connection_time_ms: u64) -> (r:
        SpeedTestResult)
        requires
            1 <= elapsed_ms <= MAX_PROBE_TIME_MS,
            bytes_downloaded <= MAX_PROBE_BYTES,
        ensures
            r.item == item,
            r.bytes_downloaded == bytes_downloaded,
            r.elapsed_ms == elapsed_ms,
            r.connection_time_ms == connection_time_ms,
            r.speed == bytes_downloaded * 1000 / elapsed_ms as int,
            r.wf(),
    {
        let speed: u64 = bytes_downloaded * 1000 / elapsed_ms;
        SpeedTestResult { bytes_downloaded, elapsed_ms, speed, connection_time_ms, item }
    }
}

/// One chunk-speed sample: bytes per second, from a chunk length and the
/// milliseconds since the previous chunk.  A zero interval is counted as one
/// millisecond, and samples are capped so that later sums stay in bounds.
pub open spec fn spec_chunk_speed(len: int, dt: int) -> int {
    let raw = if dt <= 0 {
        len * 1000
    } else {
        len * 1000 / dt
    };
    if raw > SPEED_CAP as int {
        SPEED_CAP as int
    } else {
        raw
    }
}

/// Sum of a sequence of speed samples.
pub open spec fn spec_sum(s: Seq<u64>) -> int
    decreases s.len(),
{
    if s.len() == 0 {
        0
    } else {
        spec_sum(s.drop_last()) + s.last()
    }
}

/// Sum of squared deviations from `mean`.
pub open spec fn spec_sq_dev_sum(s: Seq<u64>, mean: int) -> int
    decreases s.len(),
{
    if s.len() == 0 {
        0
    } else {
        spec_sq_dev_sum(s.drop_last(), mean) + (mean - s.last()) * (mean - s.last())
    }
}

/// The integer square root, as a value.
pub open spec fn spec_isqrt(x: int) -> int {
    choose|r: int| 0 <= r && #[trigger] (r * r) <= x < (r + 1) * (r + 1)
}

/// The integer square root is unique, so the `choose` above picks exactly
/// the witness the executable search finds.
pub proof fn lemma_isqrt_unique(x: int, r: int)
    requires
        0 <= r,
        r * r <= x,
        x < (r + 1) * (r + 1),
    ensures
        spec_isqrt(x) == r,
{
    let c = choose|c: int| 0 <= c && #[trigger] (c * c) <= x < (c + 1) * (c + 1);
    assert(0 <= c && c * c <= x < (c + 1) * (c + 1));
    if c < r {
        assert((c + 1) * (c + 1) <= r * r) by (nonlinear_arith)
            requires
                0 <= c,
                c + 1 <= r,
        ;
        assert(false);
    }
    if r < c {
        assert((r + 1) * (r + 1) <= c * c) by (nonlinear_arith)
            requires
                0 <= r,
                r + 1 <= c,
        ;
        assert(false);
    }
}

/// The convergence rule: enough bytes, enough wall-clock, a full ring
/// buffer, and a coefficient of variation (deviation over mean) at or below
/// the configured threshold.
pub open spec fn spec_converged(speeds: Seq<u64>, bytes: int, now_ms: int, cfg: Config) -> bool {
    &&& bytes >= cfg.min_bytes_per_mirror
    &&& now_ms > cfg.min_per_mirror
    &&& speeds.len() == cfg.eps_checks
    &&& {
        let n = cfg.eps_checks as int;
        let mean = spec_sum(speeds) / n;
        let sigma = spec_isqrt(spec_sq_dev_sum(speeds, mean) / n);
        mean > 0 && sigma * 1000000 <= cfg.eps_micros * mean
    }
}

/// Streaming state of one probe, advanced once per received chunk.
///
/// Timestamps are milliseconds since the first response byte; the state
/// keeps the ring buffer of recent chunk speeds exactly as described by the
/// `ensures` of [`ProbeState::on_chunk`].
pub struct ProbeState {
    /// Bytes received so far.
    pub bytes_downloaded: u64,
    /// Arrival time of the most recent chunk, ms from download start.
    pub elapsed_ms: u64,
    /// Ring buffer of recent chunk speeds.
    pub speeds: Vec<u64>,
    /// Next ring-buffer slot to overwrite.
    pub index: usize,
    /// Whether the ring buffer is still being filled for the first time.
    pub filling_up: bool,
}

impl ProbeState {
    /// Structural invariant of the ring buffer.
    pub open spec fn wf(&self, cfg: Config) -> bool {
        &&& cfg.wf()
        &&& self.bytes_downloaded <= MAX_PROBE_BYTES
        &&& self.elapsed_ms <= MAX_PROBE_TIME_MS
        &&& self.index < cfg.eps_checks
        &&& (self.filling_up ==> self.speeds@.len() == self.index)
        &&& (!self.filling_up ==> self.speeds@.len() == cfg.eps_checks)
        &&& forall|i: int| 0 <= i < self.speeds@.len() ==> self.speeds@[i] <= SPEED_CAP
    }

    /// A fresh probe: nothing received yet.
    pub fn new(cfg: &Config) -> (r: ProbeState)
        requires
            cfg.wf(),
        ensures
            r.wf(*cfg),
            r.bytes_downloaded == 0,
            r.elapsed_ms == 0,
            r.speeds@ =~= Seq::<u64>::empty(),
            r.index == 0,
            r.filling_up,
    {
        ProbeState {
            bytes_downloaded: 0,
            elapsed_ms: 0,
            speeds: Vec::new(),
            index: 0,
            filling_up: true,
        }
    }

    /// Accounts one received chunk and reports whether the measurement has
    /// converged.  Convergence is never reported before `min_per_mirror`
    /// wall-clock has passed, nor before `min_bytes_per_mirror` bytes and a
    /// full ring buffer were seen.
    pub fn on_chunk(&mut self, chunk_len: u64, now_ms: u64, cfg: &Config) -> (r: bool)
        requires
            old(self).wf(*cfg),
            old(self).bytes_downloaded + chunk_len <= MAX_PROBE_BYTES,
            now_ms <= MAX_PROBE_TIME_MS,
        ensures
            final(self).wf(*cfg),
            final(self).bytes_downloaded == old(self).bytes_downloaded + chunk_len,
            final(self).elapsed_ms == if now_ms > old(self).elapsed_ms {
                now_ms as int
            } else {
                old(self).elapsed_ms as int
            },
            ({
                let dt = now_ms - old(self).elapsed_ms;
                let speed = spec_chunk_speed(chunk_len as int, dt);
                if old(self).filling_up {
                    final(self).speeds@ =~= old(self).speeds@.push(speed as u64)
                } else {
                    final(self).speeds@ =~= old(self).speeds@.update(
                        old(self).index as int,
                        speed as u64,
                    )
                }
            }),
            final(self).index == (old(self).index + 1) % (cfg.eps_checks as int),
            r == spec_converged(
                final(self).speeds@,
                final(self).bytes_downloaded as int,
                final(self).elapsed_ms as int,
                *cfg,
            ),
            r ==> final(self).elapsed_ms > cfg.min_per_mirror,
    {
        let dt: u64 = if now_ms > self.elapsed_ms {
            now_ms - self.elapsed_ms
        } else {
            0
        };
        let ghost dt_spec: int = now_ms - old(self).elapsed_ms;
        proof {
            assert(spec_chunk_speed(chunk_len as int, dt_spec) == spec_chunk_speed(
                chunk_len as int,
                dt as int,
            ));
        }
        let raw: u64 = if dt == 0 {
            chunk_len * 1000
        } else {
            chunk_len * 1000 / dt
        };
        let chunk_speed: u64 = if raw > SPEED_CAP {
            SPEED_CAP
        } else {
            raw
        };
        self.bytes_downloaded = self.bytes_downloaded + chunk_len;
        if now_ms > self.elapsed_ms {
            self.elapsed_ms = now_ms;
        }
        if self.filling_up {
            self.speeds.push(chunk_speed);
            self.index = (self.index + 1) % cfg.eps_checks;
            if self.index == 0 {
                self.filling_up = false;
            }
        } else {
            self.speeds.set(self.index, chunk_speed);
            self.index = (self.index + 1) % cfg.eps_checks;
        }
        proof {
            let n = cfg.eps_checks as int;
            if old(self).index + 1 < n {
                vstd::arithmetic::div_mod::lemma_small_mod((old(self).index + 1) as nat, n as nat);
            } else {
                assert(old(self).index + 1 == n);
                vstd::arithmetic::div_mod::lemma_mod_self_0(n);
            }
            assert(self.wf(*cfg));
        }
        if self.bytes_downloaded >= cfg.min_bytes_per_mirror && self.elapsed_ms > cfg.min_per_mirror
            && self.speeds.len() == cfg.eps_checks {
            self.check_variation(cfg)
        } else {
            false
        }
    }

    /// Whether the coefficient of variation of the ring buffer is at or
    /// below the threshold; only meaningful on a full buffer.
    fn check_variation(&self, cfg: &Config) -> (r: bool)
        requires
            self.wf(*cfg),
            self.speeds@.len() == cfg.eps_checks,
        ensures
            r == ({
                let n = cfg.eps_checks as int;
                let mean = spec_sum(self.speeds@) / n;
                let sigma = spec_isqrt(spec_sq_dev_sum(self.speeds@, mean) / n);
                mean > 0 && sigma * 1000000 <= cfg.eps_micros * mean
            }),
    {
        let n = self.speeds.len();
        let mut sum: u64 = 0;
        let mut i: usize = 0;
        while i < n
            invariant
                n == self.speeds@.len(),
                0 <= i <= n,
                n <= 4096,
                forall|j: int| 0 <= j < n ==> self.speeds@[j] <= SPEED_CAP,
                sum == spec_sum(self.speeds@.subrange(0, i as int)),
                sum <= i * (SPEED_CAP as int),
            decreases n - i,
        {
            proof {
                assert(self.speeds@.subrange(0, i + 1).drop_last() =~= self.speeds@.subrange(
                    0,
                    i as int,
                ));
                assert(i * (SPEED_CAP as int) + (SPEED_CAP as int) == (i + 1) * (SPEED_CAP as int))
                    by (nonlinear_arith);
            }
            sum = sum + self.speeds[i];
            i += 1;
        }
        proof {
            assert(self.speeds@.subrange(0, n as int) =~= self.speeds@);
        }
        let mean: u64 = sum / (n as u64);
        proof {
            assert(mean <= SPEED_CAP) by (nonlinear_arith)
                requires
                    mean == sum as int / n as int,
                    sum <= n * (SPEED_CAP as int),
                    0 < n,
            ;
        }
        if mean == 0 {
            return false;
        }
        let mut sq_sum: u128 = 0;
        let mut i: usize = 0;
        while i < n
            invariant
                n == self.speeds@.len(),
                0 <= i <= n,
                n <= 4096,
                mean <= SPEED_CAP,
                forall|j: int| 0 <= j < n ==> self.speeds@[j] <= SPEED_CAP,
                sq_sum == spec_sq_dev_sum(self.speeds@.subrange(0, i as int), mean as int),
                sq_sum <= i * ((SPEED_CAP as int) * (SPEED_CAP as int)),
            decreases n - i,
        {
            let s = self.speeds[i];
            let diff: u64 = if mean >= s {
                mean - s
            } else {
                s - mean
            };
            proof {
                assert(self.speeds@.subrange(0, i + 1).drop_last() =~= self.speeds@.subrange(
                    0,
                    i as int,
                ));
                assert((mean as int - s as int) * (mean as int - s as int) == (diff as int) * (
                diff as int)) by (nonlinear_arith)
                    requires
                        diff as int == if mean as int >= s as int {
                            mean as int - s as int
                        } else {
                            s as int - mean as int
                        },
                ;
                assert((diff as int) * (diff as int) <= (SPEED_CAP as int) * (SPEED_CAP as int))
                    by (nonlinear_arith)
                    requires
                        0 <= diff as int <= SPEED_CAP as int,
                ;
                assert(i * ((SPEED_CAP as int) * (SPEED_CAP as int)) + (SPEED_CAP as int) * (
                SPEED_CAP as int) == (i + 1) * ((SPEED_CAP as int) * (SPEED_CAP as int)))
                    by (nonlinear_arith);
                assert(4096 * ((SPEED_CAP as int) * (SPEED_CAP as int)) < u128::MAX as int);
            }
            sq_sum = sq_sum + (diff as u128) * (diff as u128);
            i += 1;
        }
        proof {
            assert(self.speeds@.subrange(0, n as int) =~= self.speeds@);
        }
        let variance: u128 = sq_sum / (n as u128);
        let sigma: u64 = isqrt(variance);
        proof {
            lemma_isqrt_unique(variance as int, sigma as int);
            assert((sigma as int) * (sigma as int) <= variance);
            assert(variance <= (SPEED_CAP as int) * (SPEED_CAP as int)) by (nonlinear_arith)
                requires
                    variance as int == sq_sum as int / n as int,
                    sq_sum as int <= n * ((SPEED_CAP as int) * (SPEED_CAP as int)),
                    0 < n,
            ;
            assert(sigma as int <= SPEED_CAP as int) by (nonlinear_arith)
                requires
                    0 <= sigma as int,
                    (sigma as int) * (sigma as int) <= (SPEED_CAP as int) * (SPEED_CAP as int),
            ;
            assert((sigma as int) * 1000000 <= u128::MAX as int) by (nonlinear_arith)
                requires
                    0 <= sigma as int <= SPEED_CAP as int,
            ;
            assert((cfg.eps_micros as int) * (mean as int) <= u128::MAX as int) by (nonlinear_arith)
                requires
                    0 <= cfg.eps_micros as int <= 0x4000_0000,
                    0 <= mean as int <= SPEED_CAP as int,
            ;
        }
        (sigma as u128) * 1000000 <= (cfg.eps_micros as u128) * (mean as u128)
    }

    /// Ends the probe: fails exactly when fewer bytes arrived than
    /// `min_bytes_per_mirror`, and otherwise yields a result whose elapsed
    /// time is positive (a sub-millisecond download counts as one
    /// millisecond) and whose speed is bytes over elapsed seconds.
    pub fn finish(self, item: Mirror, connection_time_ms: u64, cfg: &Config) -> (r: Result<
        SpeedTestResult,
        SpeedTestError,
    >)
        requires
            self.wf(*cfg),
        ensures
            r is Err <==> self.bytes_downloaded < cfg.min_bytes_per_mirror,
            r is Err ==> r->Err_0 is TooFewBytesDownloadedError,
            r is Ok ==> ({
                let res = r->Ok_0;
                &&& res.wf()
                &&& res.item == item
                &&& res.bytes_downloaded == self.bytes_downloaded >= cfg.min_bytes_per_mirror
                &&& res.elapsed_ms as int == vstd::math::max(self.elapsed_ms as int, 1)
                &&& res.connection_time_ms == connection_time_ms
                &&& res.speed == res.bytes_downloaded * 1000 / res.elapsed_ms as int
            }),
    {
        if self.bytes_downloaded < cfg.min_bytes_per_mirror {
            return Err(SpeedTestError::TooFewBytesDownloadedError);
        }
        let elapsed: u64 = if self.elapsed_ms == 0 {
            1
        } else {
            self.elapsed_ms
        };
        Ok(SpeedTestResult::new(item, self.bytes_downloaded, elapsed, connection_time_ms))
    }
}

/// How many milliseconds of reading budget remain before the hard
/// per-probe cap, `None` when the cap is already reached.  Enforced by the
/// caller between chunk reads; reaching the cap is not an error.
pub fn probe_deadline(now_ms: u64, cfg: &Config) -> (r: Option<u64>)
    ensures
        r is Some <==> now_ms < cfg.max_per_mirror,
        r is Some ==> r->0 == cfg.max_per_mirror - now_ms,
{
    if now_ms < cfg.max_per_mirror {
        Some(cfg.max_per_mirror - now_ms)
    } else {
        None
    }
}

} // verus!
