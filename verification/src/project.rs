//! The time-series accessor: projects one scalar channel out of the frame
//! sequence, with optional inclusive time-range filtering and downsampling.
//!
//! This is the single source of truth every analysis component reads frames
//! through; none of them indexes frames on its own.

use vstd::prelude::*;
use crate::fbits::{
    f32_gt, f32_lt, f64_bits_of_i32, spec_f32_gt, spec_f32_lt, spec_f64_of_i32, spec_widen_f32,
    widen_f32_bits,
};
use crate::model::{DataFrameV, DataValue, DataValueV, XDRData};

verus! {

/// A downsample factor of zero is treated as 1: every frame is visited.
pub open spec fn spec_stride(downsample: usize) -> int {
    if downsample == 0 {
        1
    } else {
        downsample as int
    }
}

/// Whether the frame at position `i` survives downsampling and the optional
/// inclusive time range.  A NaN timestamp is inside every range, as IEEE
/// comparison semantics dictate.
pub open spec fn spec_frame_kept(
    f: DataFrameV,
    i: int,
    stride: int,
    range: Option<(u32, u32)>,
) -> bool {
    i % stride == 0 && match range {
        None => true,
        Some((lo, hi)) => !(spec_f32_lt(f.timestamp, lo) || spec_f32_gt(f.timestamp, hi)),
    }
}

/// The double a kept frame contributes for the channel at `dref` with array
/// sub-index `sub`: scalars widen exactly; arrays index and widen, an
/// out-of-bounds sub-index yields 0.0; a string value yields 0.0.
pub open spec fn spec_sample(v: DataValueV, sub: int) -> u64 {
    match v {
        DataValueV::Float(b) => spec_widen_f32(b),
        DataValueV::Int(x) => spec_f64_of_i32(x),
        DataValueV::FloatArray(a) => if 0 <= sub < a.len() {
            spec_widen_f32(a[sub])
        } else {
            0u64
        },
        DataValueV::IntArray(a) => if 0 <= sub < a.len() {
            spec_f64_of_i32(a[sub])
        } else {
            0u64
        },
        DataValueV::Str(_) => 0u64,
    }
}

/// The projected timestamps from position `i` on: one per kept frame.
pub open spec fn spec_project_ts(
    frames: Seq<DataFrameV>,
    i: int,
    stride: int,
    range: Option<(u32, u32)>,
) -> Seq<u32>
    decreases frames.len() - i,
{
    if i < 0 || i >= frames.len() {
        Seq::empty()
    } else {
        let rest = spec_project_ts(frames, i + 1, stride, range);
        if spec_frame_kept(frames[i], i, stride, range) {
            seq![frames[i].timestamp] + rest
        } else {
            rest
        }
    }
}

/// The projected doubles from position `i` on: one per kept frame whose
/// value count still covers `dref` (frames cut short contribute their
/// timestamp but no value).
pub open spec fn spec_project_vals(
    frames: Seq<DataFrameV>,
    i: int,
    stride: int,
    range: Option<(u32, u32)>,
    dref: int,
    sub: int,
) -> Seq<u64>
    decreases frames.len() - i,
{
    if i < 0 || i >= frames.len() {
        Seq::empty()
    } else {
        let rest = spec_project_vals(frames, i + 1, stride, range, dref, sub);
        if spec_frame_kept(frames[i], i, stride, range) && 0 <= dref < frames[i].values.len() {
            seq![spec_sample(frames[i].values[dref], sub)] + rest
        } else {
            rest
        }
    }
}

/// The default downsample factor: every frame is visited.
pub fn default_downsample() -> (r: usize)
    ensures
        r == 1,
{
    1
}

impl XDRData {
    /// Projects the channel `dataref_index` (array element `array_index`)
    /// out of the frame sequence: an out-of-range channel yields two empty
    /// vectors; otherwise one timestamp per kept frame and one double per
    /// kept frame that carries the channel.
    pub fn get_parameter_data(
        &self,
        dataref_index: usize,
        array_index: usize,
        time_range: Option<(u32, u32)>,
        downsample_factor: usize,
    ) -> (r: (Vec<u32>, Vec<u64>))
        ensures
            dataref_index >= self.datarefs@.len() ==> r.0@ == Seq::<u32>::empty() && r.1@
                == Seq::<u64>::empty(),
            dataref_index < self.datarefs@.len() ==> r.0@ == spec_project_ts(
                self.frames_view(),
                0,
                spec_stride(downsample_factor),
                time_range,
            ) && r.1@ == spec_project_vals(
                self.frames_view(),
                0,
                spec_stride(downsample_factor),
                time_range,
                dataref_index as int,
                array_index as int,
            ),
            r.1@.len() <= r.0@.len(),
    {
        let mut timestamps: Vec<u32> = Vec::new();
        let mut values: Vec<u64> = Vec::new();
        if dataref_index >= self.datarefs.len() {
            return (timestamps, values);
        }
        let stride: usize = if downsample_factor == 0 {
            1
        } else {
            downsample_factor
        };
        let ghost fv = self.frames_view();
        let ghost rng = time_range;
        let n: usize = self.frames.len();
        let mut i: usize = 0;
        proof {
            assert(timestamps@ + spec_project_ts(fv, 0, stride as int, rng) =~= spec_project_ts(
                fv,
                0,
                stride as int,
                rng,
            ));
            assert(values@ + spec_project_vals(
                fv,
                0,
                stride as int,
                rng,
                dataref_index as int,
                array_index as int,
            ) =~= spec_project_vals(
                fv,
                0,
                stride as int,
                rng,
                dataref_index as int,
                array_index as int,
            ));
        }
        while i < n
            invariant
                n == self.frames@.len(),
                fv == self.frames_view(),
                rng == time_range,
                stride == spec_stride(downsample_factor),
                stride >= 1,
                i <= n,
                spec_project_ts(fv, 0, stride as int, rng) == timestamps@ + spec_project_ts(
                    fv,
                    i as int,
                    stride as int,
                    rng,
                ),
                spec_project_vals(
                    fv,
                    0,
                    stride as int,
                    rng,
                    dataref_index as int,
                    array_index as int,
                ) == values@ + spec_project_vals(
                    fv,
                    i as int,
                    stride as int,
                    rng,
                    dataref_index as int,
                    array_index as int,
                ),
                values@.len() <= timestamps@.len(),
            decreases n - i,
        {
            let ghost ts0 = timestamps@;
            let ghost vs0 = values@;
            let frame = &self.frames[i];
            let ghost f = fv[i as int];
            proof {
                assert(f == self.frames@[i as int]@);
            }
            let mut kept: bool = i % stride == 0;
            if kept {
                match time_range {
                    Some((lo, hi)) => {
                        let below = f32_lt(frame.timestamp, lo);
                        let above = f32_gt(frame.timestamp, hi);
                        if below || above {
                            kept = false;
                        }
                    },
                    None => {},
                }
            }
            proof {
                assert(kept == spec_frame_kept(f, i as int, stride as int, rng));
            }
            if kept {
                timestamps.push(frame.timestamp);
                if dataref_index < frame.values.len() {
                    let sample: u64 = match &frame.values[dataref_index] {
                        DataValue::Float(b) => widen_f32_bits(*b),
                        DataValue::Int(x) => f64_bits_of_i32(*x),
                        DataValue::FloatArray(a) => {
                            if array_index < a.len() {
                                widen_f32_bits(a[array_index])
                            } else {
                                0
                            }
                        },
                        DataValue::IntArray(a) => {
                            if array_index < a.len() {
                                f64_bits_of_i32(a[array_index])
                            } else {
                                0
                            }
                        },
                        DataValue::Str(_) => 0,
                    };
                    proof {
                        let di0 = dataref_index as int;
                        assert(f.values[di0] == frame.values@[di0]@);
                        assert(sample == spec_sample(
                            f.values[dataref_index as int],
                            array_index as int,
                        ));
                    }
                    values.push(sample);
                }
            }
            i = i + 1;
            proof {
                let stride_i = stride as int;
                let di = dataref_index as int;
                let si = array_index as int;
                assert(spec_project_ts(fv, i - 1, stride_i, rng) == if spec_frame_kept(
                    f,
                    i - 1,
                    stride_i,
                    rng,
                ) {
                    seq![f.timestamp] + spec_project_ts(fv, i as int, stride_i, rng)
                } else {
                    spec_project_ts(fv, i as int, stride_i, rng)
                });
                assert(spec_project_vals(fv, i - 1, stride_i, rng, di, si) == if spec_frame_kept(
                    f,
                    i - 1,
                    stride_i,
                    rng,
                ) && 0 <= di < f.values.len() {
                    seq![spec_sample(f.values[di], si)] + spec_project_vals(
                        fv,
                        i as int,
                        stride_i,
                        rng,
                        di,
                        si,
                    )
                } else {
                    spec_project_vals(fv, i as int, stride_i, rng, di, si)
                });
                if kept {
                    assert(timestamps@ =~= ts0 + seq![f.timestamp]);
                    assert(ts0 + (seq![f.timestamp] + spec_project_ts(fv, i as int, stride_i, rng))
                        =~= timestamps@ + spec_project_ts(fv, i as int, stride_i, rng));
                    if 0 <= di < f.values.len() {
                        assert(values@ =~= vs0 + seq![spec_sample(f.values[di], si)]);
                        assert(vs0 + (seq![spec_sample(f.values[di], si)] + spec_project_vals(
                            fv,
                            i as int,
                            stride_i,
                            rng,
                            di,
                            si,
                        )) =~= values@ + spec_project_vals(fv, i as int, stride_i, rng, di, si));
                    }
                }
            }
        }
        proof {
            assert(spec_project_ts(fv, n as int, stride as int, rng) =~= Seq::<u32>::empty());
            assert(timestamps@ + Seq::<u32>::empty() =~= timestamps@);
            assert(spec_project_vals(
                fv,
                n as int,
                stride as int,
                rng,
                dataref_index as int,
                array_index as int,
            ) =~= Seq::<u64>::empty());
            assert(values@ + Seq::<u64>::empty() =~= values@);
        }
        (timestamps, values)
    }
}

// ---------------------------------------------------------------------------
// Laws of the projection.
// ---------------------------------------------------------------------------

/// With stride 1 and no time range, the projection returns exactly one
/// timestamp per frame, in the original order.
pub proof fn lemma_project_identity(frames: Seq<DataFrameV>)
    ensures
        spec_project_ts(frames, 0, 1, None) == frames.map(|i: int, f: DataFrameV| f.timestamp),
{
    lemma_project_identity_from(frames, 0);
    assert(spec_project_ts(frames, 0, 1, None) =~= frames.map(
        |i: int, f: DataFrameV| f.timestamp,
    ));
}

proof fn lemma_project_identity_from(frames: Seq<DataFrameV>, i: int)
    requires
        0 <= i <= frames.len(),
    ensures
        spec_project_ts(frames, i, 1, None) == frames.skip(i).map(
            |j: int, f: DataFrameV| f.timestamp,
        ),
    decreases frames.len() - i,
{
    if i == frames.len() {
        assert(spec_project_ts(frames, i, 1, None) =~= frames.skip(i).map(
            |j: int, f: DataFrameV| f.timestamp,
        ));
    } else {
        lemma_project_identity_from(frames, i + 1);
        assert(spec_frame_kept(frames[i], i, 1, None));
        assert(frames.skip(i).map(|j: int, f: DataFrameV| f.timestamp) =~= seq![
            frames[i].timestamp,
        ] + frames.skip(i + 1).map(|j: int, f: DataFrameV| f.timestamp));
    }
}

/// With stride `k` and no time range, the projection returns exactly
/// ceil(n / k) timestamps: those of the frames at positions 0, k, 2k, ….
pub proof fn lemma_project_stride(frames: Seq<DataFrameV>, k: int)
    requires
        k >= 1,
    ensures
        spec_project_ts(frames, 0, k, None).len() == (frames.len() + k - 1) / k,
        forall|j: int|
            0 <= j < spec_project_ts(frames, 0, k, None).len() ==> spec_project_ts(
                frames,
                0,
                k,
                None,
            )[j] == frames[j * k].timestamp,
{
    lemma_project_stride_from(frames, 0, k);
    assert forall|j: int| 0 <= j < spec_project_ts(frames, 0, k, None).len() implies spec_project_ts(
        frames,
        0,
        k,
        None,
    )[j] == frames[j * k].timestamp by {
        assert(spec_project_ts(frames, 0, k, None)[j] == frames[0 + j * k].timestamp);
    }
}

/// From a position `i` that is a multiple of the stride, the tail projection
/// keeps positions i, i+k, i+2k, ….
proof fn lemma_project_stride_from(frames: Seq<DataFrameV>, i: int, k: int)
    requires
        k >= 1,
        0 <= i,
        i % k == 0,
    ensures
        i <= frames.len() ==> spec_project_ts(frames, i, k, None).len() == (frames.len() - i + k
            - 1) / k,
        i > frames.len() ==> spec_project_ts(frames, i, k, None).len() == 0,
        forall|j: int|
            0 <= j < spec_project_ts(frames, i, k, None).len() ==> #[trigger] spec_project_ts(
                frames,
                i,
                k,
                None,
            )[j] == frames[i + j * k].timestamp,
    decreases frames.len() - i + k,
{
    if i >= frames.len() {
        if i <= frames.len() {
            assert((frames.len() - i + k - 1) / k == 0) by (nonlinear_arith)
                requires k >= 1, frames.len() - i == 0,
            ;
        }
    } else {
        assert forall|t: int| i + 1 <= t < i + k implies #[trigger] (t % k) != 0 by {
            assert(t % k == t - i) by (nonlinear_arith)
                requires k >= 1, i % k == 0, i >= 0, i < t < i + k,
            ;
        }
        lemma_project_skip_range(frames, i + 1, i + k, k);
        assert(spec_frame_kept(frames[i], i, k, None));
        let tail = spec_project_ts(frames, i + 1, k, None);
        let whole = spec_project_ts(frames, i, k, None);
        assert(whole == seq![frames[i].timestamp] + tail);
        assert((i + k) % k == 0) by (nonlinear_arith)
            requires k >= 1, i % k == 0, i >= 0,
        ;
        lemma_project_stride_from(frames, i + k, k);
        if i + k <= frames.len() {
            assert((frames.len() - i + k - 1) / k == 1 + (frames.len() - (i + k) + k - 1) / k)
                by (nonlinear_arith)
                requires k >= 1, frames.len() - i >= k,
            ;
        } else {
            assert((frames.len() - i + k - 1) / k == 1) by (nonlinear_arith)
                requires k >= 1, 1 <= frames.len() - i, frames.len() - i < k,
            ;
        }
        assert forall|j: int| 0 <= j < whole.len() implies #[trigger] whole[j] == frames[i + j
            * k].timestamp by {
            if j == 0 {
                assert(0 * k == 0) by (nonlinear_arith);
            } else {
                assert(spec_project_ts(frames, i + k, k, None)[j - 1] == frames[(i + k) + (j - 1)
                    * k].timestamp);
                assert((i + k) + (j - 1) * k == i + j * k) by (nonlinear_arith);
            }
        }
    }
}

/// Positions that the stride skips contribute nothing: the tail projection
/// from `j` equals the one from `stop` when no position in between is a
/// multiple of the stride.
proof fn lemma_project_skip_range(frames: Seq<DataFrameV>, j: int, stop: int, k: int)
    requires
        k >= 1,
        0 <= j <= stop,
        forall|t: int| j <= t < stop ==> #[trigger] (t % k) != 0,
    ensures
        spec_project_ts(frames, j, k, None) == spec_project_ts(frames, stop, k, None),
    decreases stop - j,
{
    if j < stop {
        if j >= frames.len() {
            assert(spec_project_ts(frames, j, k, None) =~= Seq::<u32>::empty());
            lemma_project_skip_range(frames, j + 1, stop, k);
        } else {
            assert(!spec_frame_kept(frames[j], j, k, None));
            lemma_project_skip_range(frames, j + 1, stop, k);
        }
    }
}

} // verus!
