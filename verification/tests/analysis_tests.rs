use xfdr::analysis::{
    descent_anomalies, fold_max, fold_min, g_anomalies, is_stable_approach, stable_count,
};
use xfdr::channels::resolve_channels;
use xfdr::encode::{encode_file, EncDataref, EncFile, EncFrame, EncValue};
use xfdr::model::{DatarefDef, XDRData};

fn dataref(name: &str) -> DatarefDef {
    DatarefDef { name: name.to_string(), data_type: "float".to_string(), array_size: 0 }
}

fn flight_file(altitudes: &[f32]) -> XDRData {
    let f = EncFile {
        version: 1,
        level: 2,
        interval: 1.0f32.to_bits(),
        start_timestamp: 0,
        datarefs: vec![
            EncDataref { name_bytes: b"sim/Altitude_AGL".to_vec(), type_code: 0, array_size: 0 },
            EncDataref { name_bytes: b"sim/G_NRML".to_vec(), type_code: 0, array_size: 0 },
        ],
        frames: altitudes
            .iter()
            .enumerate()
            .map(|(i, alt)| EncFrame {
                timestamp: (i as f32).to_bits(),
                values: vec![
                    EncValue::Float(alt.to_bits()),
                    EncValue::Float(1.25f32.to_bits()),
                ],
            })
            .collect(),
        footer: None,
    };
    XDRData::decode(&encode_file(&f)).expect("decode")
}

#[test]
fn test_resolve_channels_case_insensitive_first_match() {
    let datarefs = vec![
        dataref("sim/flightmodel/position/Latitude"),
        dataref("sim/flightmodel/position/LONGITUDE"),
        dataref("sim/cockpit2/Altitude_AGL_ft"),
        dataref("sim/GroundSpeed"),
        dataref("sim/VVI_fpm"),
        dataref("sim/fuel_flow_kg_sec"),
        dataref("sim/G_Load_norm"),
        dataref("sim/gps/elevation_m"),
        dataref("sim/other/altitude_agl_backup"),
    ];
    let m = resolve_channels(&datarefs);
    assert_eq!(m.latitude, Some(0));
    assert_eq!(m.longitude, Some(1));
    assert_eq!(m.altitude_agl, Some(2)); // first match wins over index 8
    assert_eq!(m.ground_speed, Some(3));
    assert_eq!(m.vertical_speed, Some(4));
    assert_eq!(m.fuel_flow, Some(5));
    assert_eq!(m.g_load, Some(6));
    assert_eq!(m.elevation_altitude, Some(7));
}

#[test]
fn test_resolve_channels_missing_roles() {
    let datarefs = vec![dataref("sim/time"), dataref("sim/weight")];
    let m = resolve_channels(&datarefs);
    assert_eq!(m.altitude_agl, None);
    assert_eq!(m.ground_speed, None);
    assert_eq!(m.latitude, None);
}

#[test]
fn test_detect_phases_takeoff_and_landing() {
    // Ground, climb above 10 at frame 2, stay up, descend below 10 at
    // frame 8 (past the midpoint of 10 frames), roll out.
    let alts = [2.0, 5.0, 50.0, 200.0, 300.0, 300.0, 120.0, 40.0, 3.0, 1.0];
    let d = flight_file(&alts);
    let scan = d.detect_phases(0, Some(1));
    assert_eq!(scan.phases.len(), 2);
    assert_eq!(scan.phases[0].name, "Takeoff");
    assert_eq!(f32::from_bits(scan.phases[0].start_time), 2.0);
    assert_eq!(f32::from_bits(scan.phases[0].end_time), 8.0);
    assert_eq!(scan.phases[1].name, "Landing");
    assert_eq!(f32::from_bits(scan.phases[1].start_time), 8.0);
    assert_eq!(scan.touchdown_index, Some(8));
    assert_eq!(scan.landing_g.map(f64::from_bits), Some(1.25));
}

#[test]
fn test_detect_phases_no_landing_in_first_half() {
    // The dip below 10 at frame 2 of 10 is before the midpoint: no landing.
    let alts = [2.0, 50.0, 3.0, 60.0, 80.0, 90.0, 95.0, 99.0, 100.0, 100.0];
    let d = flight_file(&alts);
    let scan = d.detect_phases(0, None);
    assert_eq!(scan.phases.len(), 1);
    assert_eq!(scan.phases[0].name, "Takeoff");
    assert_eq!(scan.touchdown_index, None);
}

#[test]
fn test_detect_phases_never_airborne() {
    let alts = [1.0, 2.0, 3.0, 2.0];
    let d = flight_file(&alts);
    let scan = d.detect_phases(0, None);
    assert_eq!(scan.phases.len(), 0);
    assert_eq!(scan.touchdown_index, None);
    assert_eq!(scan.landing_g, None);
}

#[test]
fn test_landing_end_index_five_second_rollout() {
    let alts = [2.0, 50.0, 100.0, 100.0, 100.0, 100.0, 8.0, 7.0, 6.0, 5.0, 4.0, 3.0, 2.0, 1.0];
    let d = flight_file(&alts);
    let scan = d.detect_phases(0, None);
    let touchdown = scan.touchdown_index.expect("landing");
    assert_eq!(touchdown, 8); // frame 6 and 7 are before the midpoint of 14
    let t_land = f32::from_bits(d.frames[touchdown].timestamp);
    let diffs: Vec<u32> = d.frames[touchdown + 1..]
        .iter()
        .map(|fr| (f32::from_bits(fr.timestamp) - t_land).to_bits())
        .collect();
    let end = d.landing_end_index(touchdown, &diffs);
    // Timestamps advance one second per frame: the first difference above
    // 5.0 seconds is at frame 14... which is past the end, so the phase
    // runs to the last frame.
    assert_eq!(end, 13);
}

#[test]
fn test_fold_max_min_ignore_nan() {
    let vals: Vec<u64> = vec![
        f64::NAN.to_bits(),
        3.0f64.to_bits(),
        (-7.5f64).to_bits(),
        11.0f64.to_bits(),
    ];
    assert_eq!(f64::from_bits(fold_max(&vals)), 11.0);
    assert_eq!(f64::from_bits(fold_min(&vals)), -7.5);
    let empty: Vec<u64> = vec![];
    assert_eq!(fold_max(&empty), f64::NEG_INFINITY.to_bits());
    assert_eq!(fold_min(&empty), f64::INFINITY.to_bits());
}

#[test]
fn test_descent_anomalies() {
    let times: Vec<u32> = (0..4).map(|i| (i as f32).to_bits()).collect();
    let vals: Vec<u64> = vec![
        (-500.0f64).to_bits(),
        (-2500.0f64).to_bits(),
        (-2000.0f64).to_bits(), // exactly at the threshold: not below it
        (-3000.0f64).to_bits(),
    ];
    let anomalies = descent_anomalies(&times, &vals);
    assert_eq!(anomalies.len(), 2);
    assert_eq!(anomalies[0].severity, "high");
    assert_eq!(anomalies[0].description, "Excessive descent rate");
    assert_eq!(anomalies[0].parameter, "Vertical Speed");
    assert_eq!(f32::from_bits(anomalies[0].timestamp), 1.0);
    assert_eq!(f64::from_bits(anomalies[0].value), -2500.0);
    assert_eq!(f64::from_bits(anomalies[1].value), -3000.0);
}

#[test]
fn test_g_anomalies_severity_escalation() {
    let times: Vec<u32> = (0..5).map(|i| (i as f32).to_bits()).collect();
    let vals: Vec<u64> = vec![
        1.0f64.to_bits(),    // normal
        2.6f64.to_bits(),    // medium
        3.5f64.to_bits(),    // high
        (-1.2f64).to_bits(), // medium
        (-1.7f64).to_bits(), // high
    ];
    let anomalies = g_anomalies(&times, &vals);
    assert_eq!(anomalies.len(), 4);
    assert_eq!(anomalies[0].severity, "medium");
    assert_eq!(anomalies[1].severity, "high");
    assert_eq!(anomalies[2].severity, "medium");
    assert_eq!(anomalies[3].severity, "high");
    assert_eq!(anomalies[0].description, "Excessive G-force");
    assert_eq!(anomalies[0].parameter, "G Load");
}

#[test]
fn test_stable_count_and_threshold() {
    let vals: Vec<u64> = vec![
        (-500.0f64).to_bits(),  // stable
        (-300.0f64).to_bits(),  // boundary: not strictly below -300
        (-999.0f64).to_bits(),  // stable
        (-1000.0f64).to_bits(), // boundary: not strictly above -1000
        (-700.0f64).to_bits(),  // stable
    ];
    assert_eq!(stable_count(&vals), 3);
    assert!(is_stable_approach(7, 10));
    assert!(!is_stable_approach(6, 10));
    assert!(is_stable_approach(0, 0));
}

#[test]
fn test_correlation_inputs_self_and_degenerate() {
    let alts = [2.0, 50.0, 100.0, 80.0, 3.0, 1.0];
    let d = flight_file(&alts);
    let pair = d.correlation_inputs(0, 0, 0, 0).expect("self correlation inputs");
    assert_eq!(pair.0, pair.1);
    let xs: Vec<f64> = pair.0.iter().map(|b| f64::from_bits(*b)).collect();
    let n = xs.len() as f64;
    let mean = xs.iter().sum::<f64>() / n;
    let mut cov = 0.0;
    let mut var = 0.0;
    for x in &xs {
        cov += (x - mean) * (x - mean);
        var += (x - mean) * (x - mean);
    }
    let r = cov / (var * var).sqrt();
    assert!((r - 1.0).abs() < 1e-12);
    // Out-of-range channel projects nothing: lengths differ, so no inputs.
    assert!(d.correlation_inputs(0, 0, 9, 0).is_none());
}

#[test]
fn test_flight_path_resolution_and_lengths() {
    let f = EncFile {
        version: 1,
        level: 2,
        interval: 1.0f32.to_bits(),
        start_timestamp: 0,
        datarefs: vec![
            EncDataref { name_bytes: b"sim/Latitude_deg".to_vec(), type_code: 0, array_size: 0 },
            EncDataref { name_bytes: b"sim/Longitude_deg".to_vec(), type_code: 0, array_size: 0 },
            EncDataref { name_bytes: b"sim/altitude_agl_ft".to_vec(), type_code: 0, array_size: 0 },
            EncDataref { name_bytes: b"sim/elevation_ft".to_vec(), type_code: 0, array_size: 0 },
        ],
        frames: (0..5)
            .map(|i| EncFrame {
                timestamp: (i as f32).to_bits(),
                values: vec![
                    EncValue::Float((40.0 + i as f32).to_bits()),
                    EncValue::Float((-70.0 - i as f32).to_bits()),
                    EncValue::Float(5.0f32.to_bits()),
                    EncValue::Float((1000.0 + i as f32).to_bits()),
                ],
            })
            .collect(),
        footer: None,
    };
    let d = XDRData::decode(&encode_file(&f)).expect("decode");
    let (lats, lons, alts, times) = d.get_flight_path().expect("path");
    assert_eq!(lats.len(), 5);
    assert_eq!(lons.len(), 5);
    assert_eq!(alts.len(), 5);
    assert_eq!(times.len(), 5);
    // The AGL channel is excluded: the altitude comes from "elevation".
    assert_eq!(f64::from_bits(alts[0]), 1000.0);
    assert_eq!(f64::from_bits(lats[2]), 42.0);
    assert_eq!(f64::from_bits(lons[2]), -72.0);
}

#[test]
fn test_flight_path_missing_channel() {
    let alts = [2.0, 50.0, 3.0];
    let d = flight_file(&alts); // no latitude/longitude channels
    assert!(d.get_flight_path().is_none());
}
