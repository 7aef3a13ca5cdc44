//! The correlation engine's verified half: degenerate-input gating and the
//! exact pair of projected channels a Pearson correlation runs on.
//!
//! The accumulation itself (mean-centering, covariance, the square root) is
//! floating-point arithmetic and is left to the caller; the two laws below
//! ground the caller's two structural guarantees — a self-correlation sees
//! the same sequence twice, and the pair is order-symmetric — in the
//! projection.

use vstd::prelude::*;
use crate::model::XDRData;
use crate::project::spec_project_vals;

verus! {

/// What a correlation projects for one channel: stride 1, no time range,
/// empty for an out-of-range index.
pub open spec fn spec_corr_vals(d: XDRData, idx: int, sub: int) -> Seq<u64> {
    if 0 <= idx < d.datarefs@.len() {
        spec_project_vals(d.frames_view(), 0, 1, None, idx, sub)
    } else {
        Seq::empty()
    }
}

impl XDRData {
    /// Projects the two channels a Pearson correlation compares, with one
    /// identical time policy, and applies the degenerate-input convention:
    /// `None` (for which the correlation is reported as 0.0) exactly when
    /// the two sequences differ in length or have fewer than two samples.
    pub fn correlation_inputs(
        &self,
        param1_index: usize,
        param1_array_idx: usize,
        param2_index: usize,
        param2_array_idx: usize,
    ) -> (r: Option<(Vec<u64>, Vec<u64>)>)
        ensures
            ({
                let v1 = spec_corr_vals(*self, param1_index as int, param1_array_idx as int);
                let v2 = spec_corr_vals(*self, param2_index as int, param2_array_idx as int);
                if v1.len() != v2.len() || v1.len() < 2 {
                    r is None
                } else {
                    r matches Some(p) && p.0@ == v1 && p.1@ == v2
                }
            }),
    {
        let (_t1, values1) = self.get_parameter_data(param1_index, param1_array_idx, None, 1);
        let (_t2, values2) = self.get_parameter_data(param2_index, param2_array_idx, None, 1);
        if values1.len() != values2.len() || values1.len() < 2 {
            return None;
        }
        Some((values1, values2))
    }
}

} // verus!
