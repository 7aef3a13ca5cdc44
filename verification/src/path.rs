//! The flight path extractor: latitude, longitude and absolute altitude as
//! four parallel downsampled sequences.

use vstd::prelude::*;
use crate::channels::{
    lemma_first_role_in_range, resolve_channels, spec_first_role, spec_lower_names, Role,
};
use crate::model::XDRData;
use crate::project::{spec_project_ts, spec_project_vals};

verus! {

/// The adaptive downsample stride of the path: one point per thousand
/// frames, never below one.
pub open spec fn spec_path_stride(n: nat) -> int {
    if n / 1000 >= 1 {
        n as int / 1000
    } else {
        1
    }
}

impl XDRData {
    /// Resolves the latitude, longitude and elevation/altitude channels (the
    /// AGL altitude is deliberately excluded) and returns the downsampled
    /// path as latitudes, longitudes, altitudes and timestamps — binary64,
    /// binary64, binary64 and binary32 bit patterns.  `None` when any of the
    /// three channels is missing.
    pub fn get_flight_path(&self) -> (r: Option<(Vec<u64>, Vec<u64>, Vec<u64>, Vec<u32>)>)
        ensures
            ({
                let names = spec_lower_names(self.datarefs@);
                let lat = spec_first_role(names, Role::Latitude, 0);
                let lon = spec_first_role(names, Role::Longitude, 0);
                let alt = spec_first_role(names, Role::ElevationAltitude, 0);
                let stride = spec_path_stride(self.frames@.len());
                if lat is None || lon is None || alt is None {
                    r is None
                } else {
                    r matches Some(t) && {
                        &&& t.0@ == spec_project_vals(
                            self.frames_view(),
                            0,
                            stride,
                            None,
                            lat->0,
                            0,
                        )
                        &&& t.1@ == spec_project_vals(
                            self.frames_view(),
                            0,
                            stride,
                            None,
                            lon->0,
                            0,
                        )
                        &&& t.2@ == spec_project_vals(
                            self.frames_view(),
                            0,
                            stride,
                            None,
                            alt->0,
                            0,
                        )
                        &&& t.3@ == spec_project_ts(self.frames_view(), 0, stride, None)
                    }
                }
            }),
    {
        let ghost names = spec_lower_names(self.datarefs@);
        let m = resolve_channels(&self.datarefs);
        match (m.latitude, m.longitude, m.elevation_altitude) {
            (Some(lat_i), Some(lon_i), Some(alt_i)) => {
                proof {
                    lemma_first_role_in_range(names, Role::Latitude, 0);
                    lemma_first_role_in_range(names, Role::Longitude, 0);
                    lemma_first_role_in_range(names, Role::ElevationAltitude, 0);
                    assert(names.len() == self.datarefs@.len());
                }
                let raw_stride: usize = self.frames.len() / 1000;
                let stride: usize = if raw_stride < 1 {
                    1
                } else {
                    raw_stride
                };
                let n_datarefs: usize = self.datarefs.len();
                proof {
                    assert(names.len() == n_datarefs);
                    assert(lat_i < self.datarefs@.len());
                    assert(lon_i < self.datarefs@.len());
                    assert(alt_i < self.datarefs@.len());
                    assert(lat_i as int == spec_first_role(names, Role::Latitude, 0)->0);
                    assert(lon_i as int == spec_first_role(names, Role::Longitude, 0)->0);
                    assert(alt_i as int == spec_first_role(names, Role::ElevationAltitude, 0)->0);
                    assert(crate::project::spec_stride(stride) == spec_path_stride(
                        self.frames@.len(),
                    ));
                }
                let (times, lats) = self.get_parameter_data(lat_i, 0, None, stride);
                let (_t2, lons) = self.get_parameter_data(lon_i, 0, None, stride);
                let (_t3, alts) = self.get_parameter_data(alt_i, 0, None, stride);
                Some((lats, lons, alts, times))
            },
            _ => None,
        }
    }
}

} // verus!
