use xfdr::encode::{encode_file, EncDataref, EncFile, EncFrame, EncValue};
use xfdr::model::XDRData;
use xfdr::project::default_downsample;

fn mixed_file() -> XDRData {
    let f = EncFile {
        version: 1,
        level: 2,
        interval: 1.0f32.to_bits(),
        start_timestamp: 0,
        datarefs: vec![
            EncDataref { name_bytes: b"speed".to_vec(), type_code: 0, array_size: 0 },
            EncDataref { name_bytes: b"count".to_vec(), type_code: 1, array_size: 0 },
            EncDataref { name_bytes: b"label".to_vec(), type_code: 2, array_size: 0 },
            EncDataref { name_bytes: b"egt".to_vec(), type_code: 0, array_size: 2 },
        ],
        frames: (0..7)
            .map(|i| EncFrame {
                timestamp: (i as f32).to_bits(),
                values: vec![
                    EncValue::Float((10.0 * i as f32).to_bits()),
                    EncValue::Int(-5 * i as i32),
                    EncValue::Text(b"ok".to_vec()),
                    EncValue::FloatArray(vec![
                        (100.0 + i as f32).to_bits(),
                        (200.0 + i as f32).to_bits(),
                    ]),
                ],
            })
            .collect(),
        footer: None,
    };
    XDRData::decode(&encode_file(&f)).expect("decode")
}

#[test]
fn test_default_downsample() {
    assert_eq!(default_downsample(), 1);
}

#[test]
fn test_projection_identity_order() {
    let d = mixed_file();
    let (times, values) = d.get_parameter_data(0, 0, None, 1);
    assert_eq!(times.len(), 7);
    assert_eq!(values.len(), 7);
    for i in 0..7 {
        assert_eq!(f32::from_bits(times[i]), i as f32);
        assert_eq!(f64::from_bits(values[i]), 10.0 * i as f64);
    }
}

#[test]
fn test_projection_stride_positions() {
    let d = mixed_file();
    // ceil(7 / 3) = 3 entries, at positions 0, 3 and 6.
    let (times, values) = d.get_parameter_data(0, 0, None, 3);
    assert_eq!(times.len(), 3);
    assert_eq!(values.len(), 3);
    assert_eq!(f32::from_bits(times[0]), 0.0);
    assert_eq!(f32::from_bits(times[1]), 3.0);
    assert_eq!(f32::from_bits(times[2]), 6.0);
    assert_eq!(f64::from_bits(values[1]), 30.0);
}

#[test]
fn test_projection_stride_zero_treated_as_one() {
    let d = mixed_file();
    let (times, _) = d.get_parameter_data(0, 0, None, 0);
    assert_eq!(times.len(), 7);
}

#[test]
fn test_projection_inclusive_time_range() {
    let d = mixed_file();
    let range = Some((2.0f32.to_bits(), 4.0f32.to_bits()));
    let (times, values) = d.get_parameter_data(0, 0, range, 1);
    let ts: Vec<f32> = times.iter().map(|b| f32::from_bits(*b)).collect();
    assert_eq!(ts, vec![2.0, 3.0, 4.0]);
    assert_eq!(values.len(), 3);
    assert_eq!(f64::from_bits(values[0]), 20.0);
}

#[test]
fn test_projection_out_of_range_channel_is_empty() {
    let d = mixed_file();
    let (times, values) = d.get_parameter_data(42, 0, None, 1);
    assert!(times.is_empty());
    assert!(values.is_empty());
}

#[test]
fn test_projection_int_channel_widens() {
    let d = mixed_file();
    let (_, values) = d.get_parameter_data(1, 0, None, 1);
    assert_eq!(f64::from_bits(values[3]), -15.0);
}

#[test]
fn test_projection_string_channel_yields_zero() {
    let d = mixed_file();
    let (_, values) = d.get_parameter_data(2, 0, None, 1);
    assert_eq!(values.len(), 7);
    assert!(values.iter().all(|b| f64::from_bits(*b) == 0.0));
}

#[test]
fn test_projection_array_subindex() {
    let d = mixed_file();
    let (_, values) = d.get_parameter_data(3, 1, None, 1);
    assert_eq!(f64::from_bits(values[2]), 202.0);
    // An out-of-bounds sub-index yields 0.0 rather than failing.
    let (times, oob) = d.get_parameter_data(3, 9, None, 1);
    assert_eq!(times.len(), 7);
    assert!(oob.iter().all(|b| f64::from_bits(*b) == 0.0));
}

#[test]
fn test_projection_nan_timestamp_survives_range() {
    let f = EncFile {
        version: 1,
        level: 2,
        interval: 1.0f32.to_bits(),
        start_timestamp: 0,
        datarefs: vec![EncDataref { name_bytes: b"x".to_vec(), type_code: 0, array_size: 0 }],
        frames: vec![
            EncFrame { timestamp: 1.0f32.to_bits(), values: vec![EncValue::Float(1.0f32.to_bits())] },
            EncFrame { timestamp: f32::NAN.to_bits(), values: vec![EncValue::Float(2.0f32.to_bits())] },
            EncFrame { timestamp: 9.0f32.to_bits(), values: vec![EncValue::Float(3.0f32.to_bits())] },
        ],
        footer: None,
    };
    let d = XDRData::decode(&encode_file(&f)).expect("decode");
    // IEEE comparisons with a NaN timestamp are false, so neither range
    // test excludes it: the NaN frame is kept, 9.0 is filtered out.
    let (times, values) = d.get_parameter_data(0, 0, Some((0.0f32.to_bits(), 5.0f32.to_bits())), 1);
    assert_eq!(times.len(), 2);
    assert!(f32::from_bits(times[1]).is_nan());
    assert_eq!(f64::from_bits(values[1]), 2.0);
}

#[test]
fn test_get_table_data_window() {
    let d = mixed_file();
    let t = d.get_table_data(2, 2);
    assert_eq!(t.total, 7);
    assert_eq!(t.rows.len(), 2);
    assert_eq!(t.rows[0].index, 2);
    assert_eq!(f32::from_bits(t.rows[0].timestamp), 2.0);
    // speed, count, label, egt[0], egt[1] flattened to 5 cells.
    assert_eq!(t.rows[0].values.len(), 5);
    assert_eq!(
        t.headers,
        vec!["Index", "Timestamp", "speed", "count", "label", "egt[0]", "egt[1]"]
    );
    let beyond = d.get_table_data(100, 5);
    assert_eq!(beyond.rows.len(), 0);
    assert_eq!(beyond.total, 7);
    let clipped = d.get_table_data(5, 100);
    assert_eq!(clipped.rows.len(), 2);
}

#[test]
fn test_plottable_parameters_expand_arrays_and_skip_strings() {
    let d = mixed_file();
    let params = d.get_all_plottable_parameters();
    let names: Vec<&str> = params.iter().map(|p| p.name.as_str()).collect();
    assert_eq!(names, vec!["speed", "count", "egt[0]", "egt[1]"]);
    assert_eq!(params[2].index, 3);
    assert_eq!(params[2].array_index, 0);
    assert_eq!(params[3].array_index, 1);
    assert_eq!(params[0].data_type, "float");
    assert_eq!(params[1].data_type, "int");
}
