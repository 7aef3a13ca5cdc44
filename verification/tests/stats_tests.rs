use xfdr::encode::{encode_file, EncDataref, EncFile, EncFrame, EncValue};
use xfdr::model::XDRData;
use xfdr::stats::sort_doubles;

fn channel_file(values: &[f32]) -> XDRData {
    let f = EncFile {
        version: 1,
        level: 2,
        interval: 1.0f32.to_bits(),
        start_timestamp: 0,
        datarefs: vec![EncDataref { name_bytes: b"IAS".to_vec(), type_code: 0, array_size: 0 }],
        frames: values
            .iter()
            .enumerate()
            .map(|(i, v)| EncFrame {
                timestamp: (i as f32).to_bits(),
                values: vec![EncValue::Float(v.to_bits())],
            })
            .collect(),
        footer: None,
    };
    XDRData::decode(&encode_file(&f)).expect("decode")
}

#[test]
fn test_statistics_even_count_median() {
    // [1, 2, 3, 4]: median 2.5, mean 2.5, population std ~ 1.118.
    let d = channel_file(&[3.0, 1.0, 4.0, 2.0]);
    let st = d.get_parameter_statistics(0, 0).expect("stats");
    assert_eq!(st.count, 4);
    assert_eq!(f64::from_bits(st.min), 1.0);
    assert_eq!(f64::from_bits(st.max), 4.0);
    assert_eq!(f64::from_bits(st.median_low), 2.0);
    assert_eq!(f64::from_bits(st.median_high), 3.0);
    let median = (f64::from_bits(st.median_low) + f64::from_bits(st.median_high)) / 2.0;
    assert_eq!(median, 2.5);
    let (_, values) = d.get_parameter_data(0, 0, None, 1);
    let vs: Vec<f64> = values.iter().map(|b| f64::from_bits(*b)).collect();
    let mean = vs.iter().sum::<f64>() / vs.len() as f64;
    assert_eq!(mean, 2.5);
    let var = vs.iter().map(|v| (v - mean) * (v - mean)).sum::<f64>() / vs.len() as f64;
    let std = var.sqrt();
    assert!((std - 1.118033988749895).abs() < 1e-12);
    let range = f64::from_bits(st.max) - f64::from_bits(st.min);
    assert_eq!(range, 3.0);
}

#[test]
fn test_statistics_odd_count_median() {
    let d = channel_file(&[9.0, 1.0, 5.0]);
    let st = d.get_parameter_statistics(0, 0).expect("stats");
    assert_eq!(st.count, 3);
    assert_eq!(f64::from_bits(st.median_low), 5.0);
    assert_eq!(f64::from_bits(st.median_high), 5.0);
}

#[test]
fn test_statistics_absent_cases() {
    let d = channel_file(&[]);
    assert!(d.get_parameter_statistics(0, 0).is_none()); // no samples
    let d2 = channel_file(&[1.0]);
    assert!(d2.get_parameter_statistics(5, 0).is_none()); // no such channel
}

#[test]
fn test_statistics_name_carries_subindex() {
    let f = EncFile {
        version: 1,
        level: 2,
        interval: 1.0f32.to_bits(),
        start_timestamp: 0,
        datarefs: vec![EncDataref { name_bytes: b"EGT".to_vec(), type_code: 0, array_size: 2 }],
        frames: vec![EncFrame {
            timestamp: 0.0f32.to_bits(),
            values: vec![EncValue::FloatArray(vec![600.0f32.to_bits(), 650.0f32.to_bits()])],
        }],
        footer: None,
    };
    let d = XDRData::decode(&encode_file(&f)).expect("decode");
    let st0 = d.get_parameter_statistics(0, 0).expect("stats");
    assert_eq!(st0.name, "EGT");
    let st1 = d.get_parameter_statistics(0, 1).expect("stats");
    assert_eq!(st1.name, "EGT[1]");
    assert_eq!(f64::from_bits(st1.min), 650.0);
}

#[test]
fn test_sort_doubles_total_order() {
    let vals: Vec<u64> = vec![
        2.0f64.to_bits(),
        f64::NAN.to_bits(),
        (-1.0f64).to_bits(),
        f64::NEG_INFINITY.to_bits(),
        0.0f64.to_bits(),
        (-0.0f64).to_bits(),
        f64::INFINITY.to_bits(),
    ];
    let sorted = sort_doubles(&vals);
    let got: Vec<f64> = sorted.iter().map(|b| f64::from_bits(*b)).collect();
    assert_eq!(got[0], f64::NEG_INFINITY);
    assert_eq!(got[1], -1.0);
    assert_eq!(got[2].abs(), 0.0);
    assert_eq!(got[3].abs(), 0.0);
    assert_eq!(got[4], 2.0);
    assert_eq!(got[5], f64::INFINITY);
    assert!(got[6].is_nan()); // positive NaN sorts above +inf
    assert_eq!(sorted.len(), vals.len());
}

#[test]
fn test_statistics_min_max_ignore_nan() {
    let d = channel_file(&[f32::NAN, 8.0, 2.0]);
    let st = d.get_parameter_statistics(0, 0).expect("stats");
    assert_eq!(f64::from_bits(st.min), 2.0);
    assert_eq!(f64::from_bits(st.max), 8.0);
}
