//! Channel resolution: the explicit mapping from each semantic role the
//! analysis layer needs (altitude AGL, ground speed, vertical speed, fuel
//! flow, G-load, latitude, longitude, elevation altitude) to the dataref
//! index that carries it, built once per dataset.
//!
//! A role matches by case-insensitive substring rules; within one dataref
//! the roles are tried in a fixed priority order, and across datarefs the
//! first match wins, in declaration order.

use vstd::prelude::*;
use vstd::string::StrSliceExecFns;
use crate::model::DatarefDef;
use crate::trusted::{lower_of, lowercase};

verus! {

// ---------------------------------------------------------------------------
// Substring search.
// ---------------------------------------------------------------------------

pub open spec fn spec_contains_at(s: Seq<char>, pat: Seq<char>, i: int) -> bool {
    0 <= i && i + pat.len() <= s.len() && s.subrange(i, i + pat.len()) == pat
}

pub open spec fn spec_contains(s: Seq<char>, pat: Seq<char>) -> bool {
    exists|i: int| spec_contains_at(s, pat, i)
}

/// Naive substring search over characters.
pub fn str_contains(s: &str, pat: &str) -> (r: bool)
    ensures
        r == spec_contains(s@, pat@),
{
    let n: usize = s.unicode_len();
    let m: usize = pat.unicode_len();
    if m > n {
        proof {
            assert(forall|i: int| !spec_contains_at(s@, pat@, i));
        }
        return false;
    }
    let mut i: usize = 0;
    while i <= n - m
        invariant
            n == s@.len(),
            m == pat@.len(),
            m <= n,
            i <= n - m + 1,
            forall|t: int| 0 <= t < i ==> !spec_contains_at(s@, pat@, t),
        decreases n - m + 1 - i,
    {
        let mut j: usize = 0;
        let mut matches: bool = true;
        while j < m
            invariant
                n == s@.len(),
                m == pat@.len(),
                i + m <= n,
                j <= m,
                matches ==> forall|t: int| 0 <= t < j ==> s@[i + t] == pat@[t],
                !matches ==> s@.subrange(i as int, i + m as int) != pat@,
                m == 0 ==> matches,
            decreases m - j,
        {
            if s.get_char(i + j) != pat.get_char(j) {
                matches = false;
                proof {
                    assert(s@.subrange(i as int, i + m as int)[j as int] != pat@[j as int]);
                }
                j = m;
            } else {
                j = j + 1;
            }
        }
        if matches {
            proof {
                assert(s@.subrange(i as int, i + m as int) =~= pat@);
                assert(spec_contains_at(s@, pat@, i as int));
            }
            return true;
        }
        proof {
            assert(m >= 1);
            assert(!spec_contains_at(s@, pat@, i as int));
        }
        i = i + 1;
    }
    proof {
        assert(forall|t: int|
            i <= t && t + pat@.len() <= s@.len() ==> !(#[trigger] spec_contains_at(s@, pat@, t)));
    }
    false
}

// ---------------------------------------------------------------------------
// Role predicates over an already-lowercased name.  Each chain's later roles
// exclude the earlier ones, mirroring the priority order.
// ---------------------------------------------------------------------------

pub open spec fn matches_altitude_agl(s: Seq<char>) -> bool {
    spec_contains(s, "altitude"@) && spec_contains(s, "agl"@)
}

pub open spec fn matches_ground_speed(s: Seq<char>) -> bool {
    !matches_altitude_agl(s) && (spec_contains(s, "groundspeed"@) || spec_contains(
        s,
        "ground_speed"@,
    ))
}

pub open spec fn matches_vertical_speed(s: Seq<char>) -> bool {
    !matches_altitude_agl(s) && !(spec_contains(s, "groundspeed"@) || spec_contains(
        s,
        "ground_speed"@,
    )) && (spec_contains(s, "vvi"@) || spec_contains(s, "vertical_speed"@))
}

pub open spec fn matches_fuel_flow(s: Seq<char>) -> bool {
    !matches_altitude_agl(s) && !(spec_contains(s, "groundspeed"@) || spec_contains(
        s,
        "ground_speed"@,
    )) && !(spec_contains(s, "vvi"@) || spec_contains(s, "vertical_speed"@)) && spec_contains(
        s,
        "fuel_flow"@,
    )
}

pub open spec fn matches_g_load(s: Seq<char>) -> bool {
    !matches_altitude_agl(s) && !(spec_contains(s, "groundspeed"@) || spec_contains(
        s,
        "ground_speed"@,
    )) && !(spec_contains(s, "vvi"@) || spec_contains(s, "vertical_speed"@)) && !spec_contains(
        s,
        "fuel_flow"@,
    ) && (spec_contains(s, "g_nrml"@) || spec_contains(s, "g_load"@))
}

pub open spec fn matches_latitude(s: Seq<char>) -> bool {
    spec_contains(s, "latitude"@)
}

pub open spec fn matches_longitude(s: Seq<char>) -> bool {
    !matches_latitude(s) && spec_contains(s, "longitude"@)
}

pub open spec fn matches_elevation_altitude(s: Seq<char>) -> bool {
    !matches_latitude(s) && !spec_contains(s, "longitude"@) && (spec_contains(s, "elevation"@)
        || spec_contains(s, "altitude"@)) && !spec_contains(s, "agl"@)
}

// ---------------------------------------------------------------------------
// First-match resolution.
// ---------------------------------------------------------------------------

/// The semantic roles the analysis layer resolves.
pub enum Role {
    AltitudeAgl,
    GroundSpeed,
    VerticalSpeed,
    FuelFlow,
    GLoad,
    Latitude,
    Longitude,
    ElevationAltitude,
}

/// Whether a lowercased name claims the role, under its chain's priority.
pub open spec fn role_matches(r: Role, s: Seq<char>) -> bool {
    match r {
        Role::AltitudeAgl => matches_altitude_agl(s),
        Role::GroundSpeed => matches_ground_speed(s),
        Role::VerticalSpeed => matches_vertical_speed(s),
        Role::FuelFlow => matches_fuel_flow(s),
        Role::GLoad => matches_g_load(s),
        Role::Latitude => matches_latitude(s),
        Role::Longitude => matches_longitude(s),
        Role::ElevationAltitude => matches_elevation_altitude(s),
    }
}

/// The first position at or after `i` whose lowercased name claims the role.
pub open spec fn spec_first_role(names: Seq<Seq<char>>, r: Role, i: int) -> Option<int>
    decreases names.len() - i,
{
    if i < 0 || i >= names.len() {
        None
    } else if role_matches(r, names[i]) {
        Some(i)
    } else {
        spec_first_role(names, r, i + 1)
    }
}

/// A resolved field holds exactly the first match for its role.
pub open spec fn resolves(names: Seq<Seq<char>>, r: Role, o: Option<usize>) -> bool {
    match spec_first_role(names, r, 0) {
        None => o is None,
        Some(i) => o == Some(i as usize),
    }
}

proof fn lemma_first_role_found(names: Seq<Seq<char>>, r: Role, i: int, j: int)
    requires
        0 <= i <= j < names.len(),
        role_matches(r, names[j]),
        forall|t: int| i <= t < j ==> !role_matches(r, #[trigger] names[t]),
    ensures
        spec_first_role(names, r, i) == Some(j),
    decreases j - i,
{
    if i < j {
        lemma_first_role_found(names, r, i + 1, j);
    }
}

proof fn lemma_first_role_none(names: Seq<Seq<char>>, r: Role, i: int)
    requires
        0 <= i,
        forall|t: int| i <= t < names.len() ==> !role_matches(r, #[trigger] names[t]),
    ensures
        spec_first_role(names, r, i) is None,
    decreases names.len() - i,
{
    if i < names.len() {
        lemma_first_role_none(names, r, i + 1);
    }
}

/// A successful first match lies in range and claims its role.
pub proof fn lemma_first_role_in_range(names: Seq<Seq<char>>, r: Role, i: int)
    requires
        spec_first_role(names, r, i) is Some,
    ensures
        i <= spec_first_role(names, r, i)->0 < names.len(),
        role_matches(r, names[spec_first_role(names, r, i)->0]),
    decreases names.len() - i,
{
    if !(i < 0 || i >= names.len()) && !role_matches(r, names[i]) {
        lemma_first_role_in_range(names, r, i + 1);
    }
}

/// The resolved channel map: one optional dataref index per semantic role.
pub struct ChannelMap {
    pub altitude_agl: Option<usize>,
    pub ground_speed: Option<usize>,
    pub vertical_speed: Option<usize>,
    pub fuel_flow: Option<usize>,
    pub g_load: Option<usize>,
    pub latitude: Option<usize>,
    pub longitude: Option<usize>,
    pub elevation_altitude: Option<usize>,
}

/// The lowercased names of a schema.
pub open spec fn spec_lower_names(datarefs: Seq<DatarefDef>) -> Seq<Seq<char>> {
    datarefs.map(|i: int, d: DatarefDef| lower_of(d.name@))
}

/// Every field of the map is the first dataref whose lowercased name claims
/// the role under the chain's priority order.
pub open spec fn channel_map_resolves(m: ChannelMap, names: Seq<Seq<char>>) -> bool {
    &&& resolves(names, Role::AltitudeAgl, m.altitude_agl)
    &&& resolves(names, Role::GroundSpeed, m.ground_speed)
    &&& resolves(names, Role::VerticalSpeed, m.vertical_speed)
    &&& resolves(names, Role::FuelFlow, m.fuel_flow)
    &&& resolves(names, Role::GLoad, m.g_load)
    &&& resolves(names, Role::Latitude, m.latitude)
    &&& resolves(names, Role::Longitude, m.longitude)
    &&& resolves(names, Role::ElevationAltitude, m.elevation_altitude)
}

/// The loop's per-role bookkeeping: what the field holds after the first `i`
/// names have been examined.
spec fn partial(o: Option<usize>, names: Seq<Seq<char>>, r: Role, i: int) -> bool {
    match o {
        Some(j) => 0 <= j < i && j < names.len() && role_matches(r, names[j as int]) && forall|
            t: int,
        | 0 <= t < j ==> !role_matches(r, #[trigger] names[t]),
        None => forall|t: int| 0 <= t < i && t < names.len() ==> !role_matches(
            r,
            #[trigger] names[t],
        ),
    }
}

/// After the whole schema was examined, the bookkeeping is exactly
/// first-match resolution.
proof fn finish(o: Option<usize>, names: Seq<Seq<char>>, r: Role)
    requires
        partial(o, names, r, names.len() as int),
    ensures
        resolves(names, r, o),
{
    match o {
        Some(j) => {
            lemma_first_role_found(names, r, 0, j as int);
        },
        None => {
            lemma_first_role_none(names, r, 0);
        },
    }
}

/// Builds the role map for a schema: case-insensitive substring matching,
/// first match winning in dataref declaration order.
pub fn resolve_channels(datarefs: &Vec<DatarefDef>) -> (r: ChannelMap)
    ensures
        channel_map_resolves(r, spec_lower_names(datarefs@)),
{
    let ghost names = spec_lower_names(datarefs@);
    let mut m = ChannelMap {
        altitude_agl: None,
        ground_speed: None,
        vertical_speed: None,
        fuel_flow: None,
        g_load: None,
        latitude: None,
        longitude: None,
        elevation_altitude: None,
    };
    let n: usize = datarefs.len();
    let mut i: usize = 0;
    while i < n
        invariant
            n == datarefs@.len(),
            names == spec_lower_names(datarefs@),
            i <= n,
            partial(m.altitude_agl, names, Role::AltitudeAgl, i as int),
            partial(m.ground_speed, names, Role::GroundSpeed, i as int),
            partial(m.vertical_speed, names, Role::VerticalSpeed, i as int),
            partial(m.fuel_flow, names, Role::FuelFlow, i as int),
            partial(m.g_load, names, Role::GLoad, i as int),
            partial(m.latitude, names, Role::Latitude, i as int),
            partial(m.longitude, names, Role::Longitude, i as int),
            partial(m.elevation_altitude, names, Role::ElevationAltitude, i as int),
        decreases n - i,
    {
        let low: String = lowercase(datarefs[i].name.as_str());
        let ghost ln = names[i as int];
        proof {
            assert(low@ == ln);
        }
        let has_altitude = str_contains(low.as_str(), "altitude");
        let has_agl = str_contains(low.as_str(), "agl");
        let has_gs = str_contains(low.as_str(), "groundspeed") || str_contains(
            low.as_str(),
            "ground_speed",
        );
        let has_vs = str_contains(low.as_str(), "vvi") || str_contains(
            low.as_str(),
            "vertical_speed",
        );
        let has_ff = str_contains(low.as_str(), "fuel_flow");
        let has_g = str_contains(low.as_str(), "g_nrml") || str_contains(low.as_str(), "g_load");
        if has_altitude && has_agl {
            if m.altitude_agl.is_none() {
                m.altitude_agl = Some(i);
            }
        } else if has_gs {
            if m.ground_speed.is_none() {
                m.ground_speed = Some(i);
            }
        } else if has_vs {
            if m.vertical_speed.is_none() {
                m.vertical_speed = Some(i);
            }
        } else if has_ff {
            if m.fuel_flow.is_none() {
                m.fuel_flow = Some(i);
            }
        } else if has_g {
            if m.g_load.is_none() {
                m.g_load = Some(i);
            }
        }
        let has_lat = str_contains(low.as_str(), "latitude");
        let has_lon = str_contains(low.as_str(), "longitude");
        let has_elev = str_contains(low.as_str(), "elevation");
        if has_lat {
            if m.latitude.is_none() {
                m.latitude = Some(i);
            }
        } else if has_lon {
            if m.longitude.is_none() {
                m.longitude = Some(i);
            }
        } else if (has_elev || has_altitude) && !has_agl {
            if m.elevation_altitude.is_none() {
                m.elevation_altitude = Some(i);
            }
        }
        i = i + 1;
    }
    proof {
        finish(m.altitude_agl, names, Role::AltitudeAgl);
        finish(m.ground_speed, names, Role::GroundSpeed);
        finish(m.vertical_speed, names, Role::VerticalSpeed);
        finish(m.fuel_flow, names, Role::FuelFlow);
        finish(m.g_load, names, Role::GLoad);
        finish(m.latitude, names, Role::Latitude);
        finish(m.longitude, names, Role::Longitude);
        finish(m.elevation_altitude, names, Role::ElevationAltitude);
    }
    m
}

} // verus!

