//! The flight analyzer's decision logic: phase detection, anomaly
//! detection, rate extremes and approach stability, all exact over binary64
//! bit patterns.
//!
//! Floating-point arithmetic proper — averaging a window, subtracting
//! timestamps — is the caller's: where a decision depends on such a result
//! (the five-second landing roll-out), the caller hands the differences in
//! and the decision is verified for every value of them.

use vstd::prelude::*;
use vstd::string::StringExecFns;
use crate::fbits::{
    f32_gt, f64_gt, f64_lt, spec_f32_gt, spec_f64_gt, spec_f64_lt, spec_f64_max, spec_f64_min,
    spec_f64_of_i32, spec_widen_f32, f64_max, f64_min, f64_bits_of_i32, widen_f32_bits,
};
use crate::model::{DataFrameV, DataValue, DataValueV, XDRData};

verus! {

// Binary64 bit patterns of the analyzer's thresholds.
/// 10.0: the AGL altitude threshold separating ground from flight.
pub const ALTITUDE_THRESHOLD_AGL: u64 = 0x4024_0000_0000_0000;

/// -2000.0: vertical speed below this is an excessive descent rate.
pub const DESCENT_ANOMALY_THRESHOLD: u64 = 0xc09f_4000_0000_0000;

/// 2.5: G-load above this is an anomaly.
pub const G_HIGH_THRESHOLD: u64 = 0x4004_0000_0000_0000;

/// -1.0: G-load below this is an anomaly.
pub const G_LOW_THRESHOLD: u64 = 0xbff0_0000_0000_0000;

/// 3.0: G-load above this escalates the anomaly to high severity.
pub const G_SEVERE_HIGH_THRESHOLD: u64 = 0x4008_0000_0000_0000;

/// -1.5: G-load below this escalates the anomaly to high severity.
pub const G_SEVERE_LOW_THRESHOLD: u64 = 0xbff8_0000_0000_0000;

/// -300.0: the shallow end of a stable descent rate.
pub const STABLE_DESCENT_SHALLOW: u64 = 0xc072_c000_0000_0000;

/// -1000.0: the steep end of a stable descent rate.
pub const STABLE_DESCENT_STEEP: u64 = 0xc08f_4000_0000_0000;

/// 5.0 as binary32 bits: the landing roll-out window in seconds.
pub const LANDING_ROLLOUT_SECONDS_F32: u32 = 0x40a0_0000;

/// Binary64 +infinity, the seed of a running minimum.
pub const F64_INFINITY_BITS: u64 = 0x7ff0_0000_0000_0000;

/// Binary64 -infinity, the seed of a running maximum and the "channel
/// absent" marker of the aggregate maxima.
pub const F64_NEG_INFINITY_BITS: u64 = 0xfff0_0000_0000_0000;

// ---------------------------------------------------------------------------
// Running maxima and minima with NaN-ignoring fold semantics.
// ---------------------------------------------------------------------------

pub open spec fn spec_fold_max(vs: Seq<u64>, acc: u64) -> u64
    decreases vs.len(),
{
    if vs.len() == 0 {
        acc
    } else {
        spec_fold_max(vs.drop_first(), spec_f64_max(acc, vs.first()))
    }
}

pub open spec fn spec_fold_min(vs: Seq<u64>, acc: u64) -> u64
    decreases vs.len(),
{
    if vs.len() == 0 {
        acc
    } else {
        spec_fold_min(vs.drop_first(), spec_f64_min(acc, vs.first()))
    }
}

/// The maximum of a projected channel, folded from -infinity, NaN samples
/// ignored.
pub fn fold_max(vs: &Vec<u64>) -> (r: u64)
    ensures
        r == spec_fold_max(vs@, F64_NEG_INFINITY_BITS),
{
    let mut acc: u64 = F64_NEG_INFINITY_BITS;
    let mut i: usize = 0;
    proof {
        assert(vs@.skip(0) =~= vs@);
    }
    while i < vs.len()
        invariant
            i <= vs@.len(),
            spec_fold_max(vs@, F64_NEG_INFINITY_BITS) == spec_fold_max(vs@.skip(i as int), acc),
        decreases vs@.len() - i,
    {
        proof {
            assert(vs@.skip(i as int).first() == vs@[i as int]);
            assert(vs@.skip(i as int).drop_first() =~= vs@.skip(i as int + 1));
        }
        acc = f64_max(acc, vs[i]);
        i = i + 1;
    }
    proof {
        assert(vs@.skip(i as int).len() == 0);
    }
    acc
}

/// The minimum of a projected channel, folded from +infinity, NaN samples
/// ignored.
pub fn fold_min(vs: &Vec<u64>) -> (r: u64)
    ensures
        r == spec_fold_min(vs@, F64_INFINITY_BITS),
{
    let mut acc: u64 = F64_INFINITY_BITS;
    let mut i: usize = 0;
    proof {
        assert(vs@.skip(0) =~= vs@);
    }
    while i < vs.len()
        invariant
            i <= vs@.len(),
            spec_fold_min(vs@, F64_INFINITY_BITS) == spec_fold_min(vs@.skip(i as int), acc),
        decreases vs@.len() - i,
    {
        proof {
            assert(vs@.skip(i as int).first() == vs@[i as int]);
            assert(vs@.skip(i as int).drop_first() =~= vs@.skip(i as int + 1));
        }
        acc = f64_min(acc, vs[i]);
        i = i + 1;
    }
    proof {
        assert(vs@.skip(i as int).len() == 0);
    }
    acc
}

// ---------------------------------------------------------------------------
// Phase detection.
// ---------------------------------------------------------------------------

/// One detected flight phase; times are binary32 bit patterns of the frame
/// timestamps.
pub struct FlightPhase {
    pub name: String,
    pub start_time: u32,
    pub end_time: u32,
}

/// Ghost counterpart of `FlightPhase`.
pub struct FlightPhaseV {
    pub name: Seq<char>,
    pub start_time: u32,
    pub end_time: u32,
}

impl View for FlightPhase {
    type V = FlightPhaseV;

    open spec fn view(&self) -> FlightPhaseV {
        FlightPhaseV { name: self.name@, start_time: self.start_time, end_time: self.end_time }
    }
}

/// What phase detection found: at most a takeoff and the first landing.
pub struct PhaseScan {
    pub phases: Vec<FlightPhase>,
    pub touchdown_index: Option<usize>,
    pub landing_g: Option<u64>,
}

/// The altitude the detector reads directly from a frame: a scalar float or
/// int widened exactly, anything else (including a missing value) 0.0.
pub open spec fn spec_alt_at(f: DataFrameV, alt_i: int) -> u64 {
    if 0 <= alt_i < f.values.len() {
        match f.values[alt_i] {
            DataValueV::Float(b) => spec_widen_f32(b),
            DataValueV::Int(x) => spec_f64_of_i32(x),
            _ => 0u64,
        }
    } else {
        0u64
    }
}

/// The first frame at or after `i` whose altitude crosses above the ground
/// threshold: the takeoff frame.
pub open spec fn spec_first_airborne(frames: Seq<DataFrameV>, alt_i: int, i: int) -> Option<int>
    decreases frames.len() - i,
{
    if i < 0 || i >= frames.len() {
        None
    } else if spec_f64_gt(spec_alt_at(frames[i], alt_i), ALTITUDE_THRESHOLD_AGL) {
        Some(i)
    } else {
        spec_first_airborne(frames, alt_i, i + 1)
    }
}

/// The first frame at or after `i` that is back below the threshold once
/// past the midpoint of the recording: the touchdown frame.
pub open spec fn spec_first_touchdown(frames: Seq<DataFrameV>, alt_i: int, i: int) -> Option<int>
    decreases frames.len() - i,
{
    if i < 0 || i >= frames.len() {
        None
    } else if spec_f64_lt(spec_alt_at(frames[i], alt_i), ALTITUDE_THRESHOLD_AGL) && i
        > frames.len() / 2 {
        Some(i)
    } else {
        spec_first_touchdown(frames, alt_i, i + 1)
    }
}

/// The G-load recorded at touchdown: only a scalar float value counts.
pub open spec fn spec_landing_g(f: DataFrameV, g_i: Option<usize>) -> Option<u64> {
    match g_i {
        None => None,
        Some(g) => if 0 <= g < f.values.len() {
            match f.values[g as int] {
                DataValueV::Float(b) => Some(spec_widen_f32(b)),
                _ => None,
            }
        } else {
            None
        },
    }
}

impl XDRData {
    /// Scans the frames once for the takeoff and the first landing.
    ///
    /// A frame above 10.0 (AGL) starts the flight; a later frame below the
    /// threshold counts as the landing only past the midpoint frame of the
    /// recording, and detection stops there.  The takeoff phase initially
    /// ends where it starts and is closed at the landing; the landing phase
    /// starts at touchdown with zero extent, to be extended by
    /// `landing_end_index`.
    pub fn detect_phases(&self, alt_index: usize, g_index: Option<usize>) -> (r: PhaseScan)
        ensures
            match spec_first_airborne(self.frames_view(), alt_index as int, 0) {
                None => r.phases@.len() == 0 && r.touchdown_index is None && r.landing_g is None,
                Some(to) => {
                    match spec_first_touchdown(self.frames_view(), alt_index as int, to + 1) {
                        None => {
                            &&& r.phases@.len() == 1
                            &&& r.phases@[0]@ == (FlightPhaseV {
                                name: "Takeoff"@,
                                start_time: self.frames_view()[to].timestamp,
                                end_time: self.frames_view()[to].timestamp,
                            })
                            &&& r.touchdown_index is None
                            &&& r.landing_g is None
                        },
                        Some(la) => {
                            &&& r.phases@.len() == 2
                            &&& r.phases@[0]@ == (FlightPhaseV {
                                name: "Takeoff"@,
                                start_time: self.frames_view()[to].timestamp,
                                end_time: self.frames_view()[la].timestamp,
                            })
                            &&& r.phases@[1]@ == (FlightPhaseV {
                                name: "Landing"@,
                                start_time: self.frames_view()[la].timestamp,
                                end_time: self.frames_view()[la].timestamp,
                            })
                            &&& r.touchdown_index == Some(la as usize)
                            &&& r.landing_g == spec_landing_g(self.frames_view()[la], g_index)
                        },
                    }
                },
            },
    {
        let ghost fv = self.frames_view();
        let ghost ai = alt_index as int;
        let n: usize = self.frames.len();
        let mut phases: Vec<FlightPhase> = Vec::new();
        let mut touchdown_index: Option<usize> = None;
        let mut landing_g: Option<u64> = None;
        let mut in_flight: bool = false;
        let ghost mut takeoff_at: int = 0;
        let mut i: usize = 0;
        while i < n
            invariant
                n == self.frames@.len(),
                fv == self.frames_view(),
                ai == alt_index as int,
                i <= n,
                touchdown_index is None,
                landing_g is None,
                !in_flight ==> phases@.len() == 0 && spec_first_airborne(fv, ai, 0)
                    == spec_first_airborne(fv, ai, i as int),
                in_flight ==> {
                    &&& 0 <= takeoff_at < i
                    &&& spec_first_airborne(fv, ai, 0) == Some(takeoff_at)
                    &&& phases@.len() == 1
                    &&& phases@[0]@ == (FlightPhaseV {
                        name: "Takeoff"@,
                        start_time: fv[takeoff_at].timestamp,
                        end_time: fv[takeoff_at].timestamp,
                    })
                    &&& spec_first_touchdown(fv, ai, takeoff_at + 1) == spec_first_touchdown(
                        fv,
                        ai,
                        i as int,
                    )
                },
            decreases n - i,
        {
            let frame = &self.frames[i];
            let ghost f = fv[i as int];
            proof {
                assert(f == self.frames@[i as int]@);
            }
            let alt: u64 = if alt_index < frame.values.len() {
                match &frame.values[alt_index] {
                    DataValue::Float(b) => widen_f32_bits(*b),
                    DataValue::Int(x) => f64_bits_of_i32(*x),
                    _ => 0,
                }
            } else {
                0
            };
            proof {
                if alt_index < frame.values@.len() {
                    assert(f.values[ai] == frame.values@[ai]@);
                }
                assert(alt == spec_alt_at(f, ai));
            }
            if !in_flight && f64_gt(alt, ALTITUDE_THRESHOLD_AGL) {
                in_flight = true;
                proof {
                    takeoff_at = i as int;
                }
                phases.push(
                    FlightPhase {
                        name: String::from_str("Takeoff"),
                        start_time: frame.timestamp,
                        end_time: frame.timestamp,
                    },
                );
            } else if in_flight && f64_lt(alt, ALTITUDE_THRESHOLD_AGL) && i > n / 2 {
                // Landing: close the takeoff phase and open the landing one.
                let t_land: u32 = frame.timestamp;
                let mut closed = FlightPhase {
                    name: String::from_str("Takeoff"),
                    start_time: 0,
                    end_time: t_land,
                };
                match phases.pop() {
                    Some(ph) => {
                        closed.start_time = ph.start_time;
                    },
                    None => {},
                }
                phases.push(closed);
                phases.push(
                    FlightPhase {
                        name: String::from_str("Landing"),
                        start_time: t_land,
                        end_time: t_land,
                    },
                );
                touchdown_index = Some(i);
                match g_index {
                    Some(g) => {
                        if g < frame.values.len() {
                            match &frame.values[g] {
                                DataValue::Float(b) => {
                                    landing_g = Some(widen_f32_bits(*b));
                                },
                                _ => {},
                            }
                        }
                    },
                    None => {},
                }
                proof {
                    assert(spec_first_touchdown(fv, ai, i as int) == Some(i as int));
                    if g_index is Some {
                        let g = g_index->0;
                        if (g as int) < f.values.len() {
                            assert(f.values[g as int] == frame.values@[g as int]@);
                        }
                    }
                    assert(landing_g == spec_landing_g(f, g_index));
                }
                return PhaseScan { phases, touchdown_index, landing_g };
            }
            i = i + 1;
        }
        PhaseScan { phases, touchdown_index, landing_g }
    }

    /// Where the landing phase ends: given the differences between each
    /// post-touchdown timestamp and the touchdown timestamp (binary32 bits,
    /// computed by the caller), the phase extends frame by frame until the
    /// first difference above five seconds, or to the last frame.
    pub fn landing_end_index(&self, touchdown: usize, diffs: &Vec<u32>) -> (r: usize)
        requires
            touchdown < self.frames@.len(),
            diffs@.len() == self.frames@.len() - touchdown - 1,
        ensures
            touchdown + 1 == self.frames@.len() ==> r == touchdown,
            touchdown + 1 < self.frames@.len() ==> {
                &&& touchdown < r < self.frames@.len()
                &&& (forall|j: int|
                    touchdown + 1 <= j < r ==> !spec_f32_gt(
                        #[trigger] diffs@[j - touchdown - 1],
                        LANDING_ROLLOUT_SECONDS_F32,
                    ))
                &&& (r < self.frames@.len() - 1 ==> spec_f32_gt(
                    diffs@[r - touchdown - 1],
                    LANDING_ROLLOUT_SECONDS_F32,
                ))
            },
    {
        let n: usize = self.frames.len();
        if touchdown + 1 >= n {
            return touchdown;
        }
        let mut j: usize = touchdown + 1;
        while j < n - 1
            invariant
                n == self.frames@.len(),
                diffs@.len() == n - touchdown - 1,
                touchdown + 1 <= j <= n - 1,
                forall|t: int|
                    touchdown + 1 <= t < j ==> !spec_f32_gt(
                        #[trigger] diffs@[t - touchdown - 1],
                        LANDING_ROLLOUT_SECONDS_F32,
                    ),
            decreases n - j,
        {
            if f32_gt(diffs[j - touchdown - 1], LANDING_ROLLOUT_SECONDS_F32) {
                return j;
            }
            j = j + 1;
        }
        j
    }
}

// ---------------------------------------------------------------------------
// Anomaly detection.
// ---------------------------------------------------------------------------

/// One detected anomaly; `timestamp` is binary32 bits, `value` binary64
/// bits.
pub struct Anomaly {
    pub timestamp: u32,
    pub severity: String,
    pub description: String,
    pub parameter: String,
    pub value: u64,
}

/// Ghost counterpart of `Anomaly`.
pub struct AnomalyV {
    pub timestamp: u32,
    pub severity: Seq<char>,
    pub description: Seq<char>,
    pub parameter: Seq<char>,
    pub value: u64,
}

impl View for Anomaly {
    type V = AnomalyV;

    open spec fn view(&self) -> AnomalyV {
        AnomalyV {
            timestamp: self.timestamp,
            severity: self.severity@,
            description: self.description@,
            parameter: self.parameter@,
            value: self.value,
        }
    }
}

/// The descent-rate anomalies of a projected vertical-speed channel: every
/// sample below -2000, high severity, in channel order.
pub open spec fn spec_descent_anomalies(times: Seq<u32>, vals: Seq<u64>, i: int) -> Seq<AnomalyV>
    decreases vals.len() - i,
{
    if i < 0 || i >= vals.len() {
        Seq::empty()
    } else {
        let rest = spec_descent_anomalies(times, vals, i + 1);
        if spec_f64_lt(vals[i], DESCENT_ANOMALY_THRESHOLD) {
            seq![
                AnomalyV {
                    timestamp: times[i],
                    severity: "high"@,
                    description: "Excessive descent rate"@,
                    parameter: "Vertical Speed"@,
                    value: vals[i],
                },
            ] + rest
        } else {
            rest
        }
    }
}

/// The G-load anomalies of a projected G-load channel: every sample above
/// 2.5 or below -1.0, escalated to high severity above 3.0 or below -1.5.
pub open spec fn spec_g_anomalies(times: Seq<u32>, vals: Seq<u64>, i: int) -> Seq<AnomalyV>
    decreases vals.len() - i,
{
    if i < 0 || i >= vals.len() {
        Seq::empty()
    } else {
        let rest = spec_g_anomalies(times, vals, i + 1);
        if spec_f64_gt(vals[i], G_HIGH_THRESHOLD) || spec_f64_lt(vals[i], G_LOW_THRESHOLD) {
            let severe = spec_f64_gt(vals[i], G_SEVERE_HIGH_THRESHOLD) || spec_f64_lt(
                vals[i],
                G_SEVERE_LOW_THRESHOLD,
            );
            seq![
                AnomalyV {
                    timestamp: times[i],
                    severity: if severe {
                        "high"@
                    } else {
                        "medium"@
                    },
                    description: "Excessive G-force"@,
                    parameter: "G Load"@,
                    value: vals[i],
                },
            ] + rest
        } else {
            rest
        }
    }
}

/// Collects the descent-rate anomalies of a projected channel.
pub fn descent_anomalies(times: &Vec<u32>, vals: &Vec<u64>) -> (r: Vec<Anomaly>)
    requires
        vals@.len() <= times@.len(),
    ensures
        r@.map(|i: int, a: Anomaly| a@) == spec_descent_anomalies(times@, vals@, 0),
{
    let mut out: Vec<Anomaly> = Vec::new();
    let mut i: usize = 0;
    proof {
        assert(out@.map(|i: int, a: Anomaly| a@) + spec_descent_anomalies(times@, vals@, 0)
            =~= spec_descent_anomalies(times@, vals@, 0));
    }
    while i < vals.len()
        invariant
            vals@.len() <= times@.len(),
            i <= vals@.len(),
            spec_descent_anomalies(times@, vals@, 0) == out@.map(|i: int, a: Anomaly| a@)
                + spec_descent_anomalies(times@, vals@, i as int),
        decreases vals@.len() - i,
    {
        let ghost out0 = out@.map(|i: int, a: Anomaly| a@);
        if f64_lt(vals[i], DESCENT_ANOMALY_THRESHOLD) {
            let a = Anomaly {
                timestamp: times[i],
                severity: String::from_str("high"),
                description: String::from_str("Excessive descent rate"),
                parameter: String::from_str("Vertical Speed"),
                value: vals[i],
            };
            let ghost av = a@;
            out.push(a);
            proof {
                assert(out@.map(|i: int, a: Anomaly| a@) =~= out0 + seq![av]);
                assert(out0 + (seq![av] + spec_descent_anomalies(times@, vals@, i + 1)) =~= (out0
                    + seq![av]) + spec_descent_anomalies(times@, vals@, i + 1));
            }
        }
        i = i + 1;
    }
    proof {
        assert(spec_descent_anomalies(times@, vals@, i as int) =~= Seq::<AnomalyV>::empty());
        assert(out@.map(|i: int, a: Anomaly| a@) + Seq::<AnomalyV>::empty() =~= out@.map(
            |i: int, a: Anomaly| a@,
        ));
    }
    out
}

/// Collects the G-load anomalies of a projected channel.
pub fn g_anomalies(times: &Vec<u32>, vals: &Vec<u64>) -> (r: Vec<Anomaly>)
    requires
        vals@.len() <= times@.len(),
    ensures
        r@.map(|i: int, a: Anomaly| a@) == spec_g_anomalies(times@, vals@, 0),
{
    let mut out: Vec<Anomaly> = Vec::new();
    let mut i: usize = 0;
    proof {
        assert(out@.map(|i: int, a: Anomaly| a@) + spec_g_anomalies(times@, vals@, 0)
            =~= spec_g_anomalies(times@, vals@, 0));
    }
    while i < vals.len()
        invariant
            vals@.len() <= times@.len(),
            i <= vals@.len(),
            spec_g_anomalies(times@, vals@, 0) == out@.map(|i: int, a: Anomaly| a@)
                + spec_g_anomalies(times@, vals@, i as int),
        decreases vals@.len() - i,
    {
        let ghost out0 = out@.map(|i: int, a: Anomaly| a@);
        let v = vals[i];
        if f64_gt(v, G_HIGH_THRESHOLD) || f64_lt(v, G_LOW_THRESHOLD) {
            let severe = f64_gt(v, G_SEVERE_HIGH_THRESHOLD) || f64_lt(v, G_SEVERE_LOW_THRESHOLD);
            let a = Anomaly {
                timestamp: times[i],
                severity: if severe {
                    String::from_str("high")
                } else {
                    String::from_str("medium")
                },
                description: String::from_str("Excessive G-force"),
                parameter: String::from_str("G Load"),
                value: v,
            };
            let ghost av = a@;
            out.push(a);
            proof {
                assert(out@.map(|i: int, a: Anomaly| a@) =~= out0 + seq![av]);
                assert(out0 + (seq![av] + spec_g_anomalies(times@, vals@, i + 1)) =~= (out0 + seq![
                    av,
                ]) + spec_g_anomalies(times@, vals@, i + 1));
            }
        }
        i = i + 1;
    }
    proof {
        assert(spec_g_anomalies(times@, vals@, i as int) =~= Seq::<AnomalyV>::empty());
        assert(out@.map(|i: int, a: Anomaly| a@) + Seq::<AnomalyV>::empty() =~= out@.map(
            |i: int, a: Anomaly| a@,
        ));
    }
    out
}

// ---------------------------------------------------------------------------
// Approach stability.
// ---------------------------------------------------------------------------

/// How many samples lie strictly between -1000 and -300: the stable band of
/// a descent.
pub open spec fn spec_stable_count(vals: Seq<u64>, i: int) -> int
    decreases vals.len() - i,
{
    if i < 0 || i >= vals.len() {
        0
    } else {
        let rest = spec_stable_count(vals, i + 1);
        if spec_f64_lt(vals[i], STABLE_DESCENT_SHALLOW) && spec_f64_gt(
            vals[i],
            STABLE_DESCENT_STEEP,
        ) {
            1 + rest
        } else {
            rest
        }
    }
}

/// Counts the vertical-speed samples in the stable band.
pub fn stable_count(vals: &Vec<u64>) -> (r: usize)
    ensures
        r == spec_stable_count(vals@, 0),
{
    let mut count: usize = 0;
    let mut i: usize = 0;
    proof {
        lemma_stable_count_bounds(vals@, 0);
    }
    while i < vals.len()
        invariant
            i <= vals@.len(),
            count == spec_stable_count(vals@, 0) - spec_stable_count(vals@, i as int),
            0 <= spec_stable_count(vals@, i as int) <= vals@.len() - i,
            0 <= spec_stable_count(vals@, 0) <= vals@.len(),
        decreases vals@.len() - i,
    {
        proof {
            lemma_stable_count_bounds(vals@, i as int + 1);
        }
        if f64_lt(vals[i], STABLE_DESCENT_SHALLOW) && f64_gt(vals[i], STABLE_DESCENT_STEEP) {
            count = count + 1;
        }
        i = i + 1;
    }
    count
}

proof fn lemma_stable_count_bounds(vals: Seq<u64>, i: int)
    requires
        0 <= i <= vals.len(),
    ensures
        0 <= spec_stable_count(vals, i) <= vals.len() - i,
    decreases vals.len() - i,
{
    if i < vals.len() {
        lemma_stable_count_bounds(vals, i + 1);
    }
}

/// Whether an approach was stable: at least 70% of its vertical-speed
/// samples in the stable band.
pub fn is_stable_approach(stable: usize, total: usize) -> (r: bool)
    ensures
        r == (10 * stable >= 7 * total),
{
    (stable as u128) * 10 >= (total as u128) * 7
}

} // verus!
