use xfdr::decode::XdrError;
use xfdr::encode::{encode_file, EncDataref, EncFile, EncFooter, EncFrame, EncValue};
use xfdr::model::{DataValue, XDRData};

fn scalar_dataref(name: &str, type_code: u8) -> EncDataref {
    EncDataref { name_bytes: name.as_bytes().to_vec(), type_code, array_size: 0 }
}

fn example_file() -> EncFile {
    // Magic XFDR, version 1, level 2, interval 1.0, start 1700000000, one
    // float dataref "ALT", three frames at 0/1/2 seconds with altitudes
    // 5.0, 20.0, 3.0, and a footer with 3 records ending at 1700000002.
    EncFile {
        version: 1,
        level: 2,
        interval: 1.0f32.to_bits(),
        start_timestamp: 1_700_000_000,
        datarefs: vec![scalar_dataref("ALT", 0)],
        frames: vec![
            EncFrame { timestamp: 0.0f32.to_bits(), values: vec![EncValue::Float(5.0f32.to_bits())] },
            EncFrame { timestamp: 1.0f32.to_bits(), values: vec![EncValue::Float(20.0f32.to_bits())] },
            EncFrame { timestamp: 2.0f32.to_bits(), values: vec![EncValue::Float(3.0f32.to_bits())] },
        ],
        footer: Some(EncFooter { total_records: 3, end_timestamp: 1_700_000_002 }),
    }
}

#[test]
fn test_end_to_end_example() {
    let bytes = encode_file(&example_file());
    let d = XDRData::decode(&bytes).expect("decode");
    assert_eq!(d.header.magic, "XFDR");
    assert_eq!(d.header.version, 1);
    assert_eq!(d.header.level, 2);
    assert_eq!(d.header.level_name, "Normal");
    assert_eq!(d.header.interval, 1.0f32.to_bits());
    assert_eq!(d.header.start_timestamp, 1_700_000_000);
    assert_eq!(d.header.start_datetime, "2023-11-14T22:13:20");
    assert_eq!(d.header.dataref_count, 1);
    assert_eq!(d.header.total_records, Some(3));
    assert_eq!(d.header.end_timestamp, Some(1_700_000_002));
    assert_eq!(d.header.end_datetime.as_deref(), Some("2023-11-14T22:13:22"));
    assert_eq!(d.header.duration, Some(2));
    assert!(d.is_complete);

    assert_eq!(d.datarefs.len(), 1);
    assert_eq!(d.datarefs[0].name, "ALT");
    assert_eq!(d.datarefs[0].data_type, "float");
    assert_eq!(d.datarefs[0].array_size, 0);

    let params = d.get_all_plottable_parameters();
    assert_eq!(params.len(), 1);
    assert_eq!(params[0].name, "ALT");
    assert_eq!(params[0].index, 0);
    assert_eq!(params[0].array_index, 0);
    assert_eq!(params[0].data_type, "float");

    let (times, values) = d.get_parameter_data(0, 0, None, 1);
    let ts: Vec<f32> = times.iter().map(|b| f32::from_bits(*b)).collect();
    let vs: Vec<f64> = values.iter().map(|b| f64::from_bits(*b)).collect();
    assert_eq!(ts, vec![0.0, 1.0, 2.0]);
    assert_eq!(vs, vec![5.0, 20.0, 3.0]);

    let st = d.get_parameter_statistics(0, 0).expect("stats");
    assert_eq!(st.count, 3);
    assert_eq!(f64::from_bits(st.min), 3.0);
    assert_eq!(f64::from_bits(st.max), 20.0);
    let mean = vs.iter().sum::<f64>() / vs.len() as f64;
    assert!((mean - 9.333333333333334).abs() < 1e-12);
}

#[test]
fn test_bad_magic_fails_with_nothing_retained() {
    let mut bytes = encode_file(&example_file());
    bytes[0] = b'X';
    bytes[1] = b'X';
    bytes[2] = b'X';
    bytes[3] = b'X';
    match XDRData::decode(&bytes) {
        Err(XdrError::BadMagic(found)) => {
            assert_eq!(found, vec![b'X', b'X', b'X', b'X']);
        }
        other => panic!("expected a bad-magic failure, got {:?}", other.is_ok()),
    }
}

#[test]
fn test_truncated_header() {
    assert!(matches!(XDRData::decode(&vec![]), Err(XdrError::TruncatedHeader)));
    assert!(matches!(XDRData::decode(&vec![b'X', b'F']), Err(XdrError::TruncatedHeader)));
    let bytes = encode_file(&example_file());
    assert!(matches!(XDRData::decode(&bytes[..10].to_vec()), Err(XdrError::TruncatedHeader)));
}

#[test]
fn test_truncated_schema() {
    let bytes = encode_file(&example_file());
    // Cut inside the dataref definition (header is 21 bytes, the schema
    // entry takes 2 + 3 + 2 more).
    assert!(matches!(XDRData::decode(&bytes[..23].to_vec()), Err(XdrError::TruncatedSchema)));
}

#[test]
fn test_truncated_mid_array_keeps_prior_frames() {
    let f = EncFile {
        version: 3,
        level: 1,
        interval: 0.5f32.to_bits(),
        start_timestamp: 100,
        datarefs: vec![EncDataref { name_bytes: b"engine_rpm".to_vec(), type_code: 0, array_size: 4 }],
        frames: vec![
            EncFrame {
                timestamp: 0.0f32.to_bits(),
                values: vec![EncValue::FloatArray(vec![
                    1.0f32.to_bits(),
                    2.0f32.to_bits(),
                    3.0f32.to_bits(),
                    4.0f32.to_bits(),
                ])],
            },
            EncFrame {
                timestamp: 1.0f32.to_bits(),
                values: vec![EncValue::FloatArray(vec![
                    5.0f32.to_bits(),
                    6.0f32.to_bits(),
                    7.0f32.to_bits(),
                    8.0f32.to_bits(),
                ])],
            },
        ],
        footer: None,
    };
    let mut bytes = encode_file(&f);
    // Append a third frame cut off inside its array payload.
    bytes.extend_from_slice(b"DATA");
    bytes.extend_from_slice(&2.0f32.to_bits().to_le_bytes());
    bytes.extend_from_slice(&9.0f32.to_bits().to_le_bytes());
    bytes.extend_from_slice(&10.0f32.to_bits().to_le_bytes()[..2]);
    let d = XDRData::decode(&bytes).expect("truncation is not an error");
    assert_eq!(d.frames.len(), 2);
    assert!(!d.is_complete);
    assert_eq!(d.header.total_records, None);
    match &d.frames[1].values[0] {
        DataValue::FloatArray(a) => {
            let got: Vec<f32> = a.iter().map(|b| f32::from_bits(*b)).collect();
            assert_eq!(got, vec![5.0, 6.0, 7.0, 8.0]);
        }
        _ => panic!("expected a float array"),
    }
}

#[test]
fn test_round_trip_all_value_kinds() {
    let f = EncFile {
        version: 7,
        level: 9,
        interval: 0.25f32.to_bits(),
        start_timestamp: 1_600_000_000,
        datarefs: vec![
            scalar_dataref("sim/altitude_agl", 0),
            scalar_dataref("sim/frame_count", 1),
            scalar_dataref("sim/tail_number", 2),
            EncDataref { name_bytes: b"sim/egt".to_vec(), type_code: 0, array_size: 2 },
            EncDataref { name_bytes: b"sim/gear".to_vec(), type_code: 1, array_size: 3 },
        ],
        frames: vec![EncFrame {
            timestamp: 12.5f32.to_bits(),
            values: vec![
                EncValue::Float((-123.75f32).to_bits()),
                EncValue::Int(-42),
                EncValue::Text(b"N12345".to_vec()),
                EncValue::FloatArray(vec![700.5f32.to_bits(), f32::NAN.to_bits()]),
                EncValue::IntArray(vec![1, 0, i32::MIN]),
            ],
        }],
        footer: Some(EncFooter { total_records: 1, end_timestamp: 1_600_000_100 }),
    };
    let bytes = encode_file(&f);
    let d = XDRData::decode(&bytes).expect("decode");
    assert_eq!(d.header.version, 7);
    assert_eq!(d.header.level, 9);
    assert_eq!(d.header.level_name, "Unknown");
    assert_eq!(d.header.interval, 0.25f32.to_bits());
    assert_eq!(d.datarefs.len(), 5);
    assert_eq!(d.datarefs[0].name, "sim/altitude_agl");
    assert_eq!(d.datarefs[0].data_type, "float");
    assert_eq!(d.datarefs[1].data_type, "int");
    assert_eq!(d.datarefs[2].data_type, "string");
    assert_eq!(d.datarefs[3].array_size, 2);
    assert_eq!(d.datarefs[4].array_size, 3);
    assert_eq!(d.frames.len(), 1);
    let frame = &d.frames[0];
    assert_eq!(frame.timestamp, 12.5f32.to_bits());
    assert_eq!(frame.values.len(), 5);
    match &frame.values[0] {
        DataValue::Float(b) => assert_eq!(*b, (-123.75f32).to_bits()),
        _ => panic!("kind"),
    }
    match &frame.values[1] {
        DataValue::Int(v) => assert_eq!(*v, -42),
        _ => panic!("kind"),
    }
    match &frame.values[2] {
        DataValue::Str(s) => assert_eq!(s, "N12345"),
        _ => panic!("kind"),
    }
    match &frame.values[3] {
        DataValue::FloatArray(a) => {
            assert_eq!(a[0], 700.5f32.to_bits());
            assert!(f32::from_bits(a[1]).is_nan());
        }
        _ => panic!("kind"),
    }
    match &frame.values[4] {
        DataValue::IntArray(a) => assert_eq!(a, &vec![1, 0, i32::MIN]),
        _ => panic!("kind"),
    }
    assert_eq!(d.header.duration, Some(100));
}

#[test]
fn test_unknown_type_code_consumes_nothing() {
    // Built by hand: one dataref with type code 7 and one float dataref;
    // the unknown entry contributes no value to the frame.
    let mut bytes: Vec<u8> = Vec::new();
    bytes.extend_from_slice(b"XFDR");
    bytes.extend_from_slice(&1u16.to_le_bytes());
    bytes.push(1);
    bytes.extend_from_slice(&1.0f32.to_bits().to_le_bytes());
    bytes.extend_from_slice(&0u64.to_le_bytes());
    bytes.extend_from_slice(&2u16.to_le_bytes());
    // dataref "mystery", code 7, size 0
    bytes.extend_from_slice(&7u16.to_le_bytes());
    bytes.extend_from_slice(b"mystery");
    bytes.push(7);
    bytes.push(0);
    // dataref "speed", code 0, size 0
    bytes.extend_from_slice(&5u16.to_le_bytes());
    bytes.extend_from_slice(b"speed");
    bytes.push(0);
    bytes.push(0);
    // one frame holding only the float
    bytes.extend_from_slice(b"DATA");
    bytes.extend_from_slice(&0.0f32.to_bits().to_le_bytes());
    bytes.extend_from_slice(&99.0f32.to_bits().to_le_bytes());
    let d = XDRData::decode(&bytes).expect("decode");
    assert_eq!(d.datarefs[0].data_type, "unknown");
    assert_eq!(d.frames.len(), 1);
    assert_eq!(d.frames[0].values.len(), 1);
    match &d.frames[0].values[0] {
        DataValue::Float(b) => assert_eq!(f32::from_bits(*b), 99.0),
        _ => panic!("kind"),
    }
}

#[test]
fn test_garbage_marker_stops_stream_without_footer() {
    let mut f = example_file();
    f.footer = None;
    let mut bytes = encode_file(&f);
    bytes.extend_from_slice(b"JUNKJUNK");
    let d = XDRData::decode(&bytes).expect("decode");
    assert_eq!(d.frames.len(), 3);
    assert!(!d.is_complete);
    assert_eq!(d.header.duration, None);
}

#[test]
fn test_footer_truncated_fields_absent_together() {
    let mut f = example_file();
    f.footer = None;
    let mut bytes = encode_file(&f);
    bytes.extend_from_slice(b"ENDR");
    bytes.extend_from_slice(&3u32.to_le_bytes()[..2]);
    let d = XDRData::decode(&bytes).expect("decode");
    assert_eq!(d.frames.len(), 3);
    assert!(d.is_complete);
    assert_eq!(d.header.total_records, None);
    assert_eq!(d.header.end_timestamp, None);
    assert_eq!(d.header.end_datetime, None);
    assert_eq!(d.header.duration, None);
}

#[test]
fn test_footer_end_before_start_clamps_duration() {
    let mut f = example_file();
    f.footer = Some(EncFooter { total_records: 3, end_timestamp: 5 });
    let bytes = encode_file(&f);
    let d = XDRData::decode(&bytes).expect("decode");
    assert_eq!(d.header.duration, Some(0));
}

#[test]
fn test_out_of_range_timestamp_formats_as_invalid() {
    let mut f = example_file();
    f.start_timestamp = 9_000_000_000_000; // beyond the representable years
    let bytes = encode_file(&f);
    let d = XDRData::decode(&bytes).expect("decode");
    assert_eq!(d.header.start_datetime, "Invalid timestamp");
}

#[test]
fn test_new_is_empty() {
    let d = XDRData::new();
    assert_eq!(d.header.dataref_count, 0);
    assert_eq!(d.datarefs.len(), 0);
    assert_eq!(d.frames.len(), 0);
    assert!(!d.is_complete);
    assert_eq!(d.filepath, "");
}

#[test]
fn test_timestamp_range_boundary() {
    // The last second chrono can represent formats normally; one past it
    // falls back to the documented string.
    let mut f = example_file();
    f.start_timestamp = 8_210_266_876_799;
    let d = XDRData::decode(&encode_file(&f)).expect("decode");
    assert_ne!(d.header.start_datetime, "Invalid timestamp");
    f.start_timestamp = 8_210_266_876_800;
    let d2 = XDRData::decode(&encode_file(&f)).expect("decode");
    assert_eq!(d2.header.start_datetime, "Invalid timestamp");
}

#[test]
fn test_timestamp_wrapped_negative_boundary() {
    // Huge u64 timestamps wrap negative through the i64 cast.  The first
    // value that reaches chrono's earliest instant (-262143-01-01T00:00:00,
    // seconds -8334601228800) formats; the value one below it does not.
    let mut f = example_file();
    f.start_timestamp = 18_446_735_739_108_322_816;
    let d = XDRData::decode(&encode_file(&f)).expect("decode");
    assert_ne!(d.header.start_datetime, "Invalid timestamp");
    assert!(d.header.start_datetime.contains("-262143"));
    f.start_timestamp = 18_446_735_739_108_322_815;
    let d2 = XDRData::decode(&encode_file(&f)).expect("decode");
    assert_eq!(d2.header.start_datetime, "Invalid timestamp");
}

#[test]
fn test_empty_string_value() {
    let f = EncFile {
        version: 1,
        level: 2,
        interval: 1.0f32.to_bits(),
        start_timestamp: 0,
        datarefs: vec![scalar_dataref("note", 2)],
        frames: vec![EncFrame { timestamp: 0.0f32.to_bits(), values: vec![EncValue::Text(vec![])] }],
        footer: None,
    };
    let d = XDRData::decode(&encode_file(&f)).expect("decode");
    match &d.frames[0].values[0] {
        DataValue::Str(s) => assert_eq!(s, ""),
        _ => panic!("kind"),
    }
}

#[test]
fn test_no_frames_just_footer() {
    let f = EncFile {
        version: 1,
        level: 3,
        interval: 1.0f32.to_bits(),
        start_timestamp: 50,
        datarefs: vec![scalar_dataref("x", 0)],
        frames: vec![],
        footer: Some(EncFooter { total_records: 0, end_timestamp: 50 }),
    };
    let d = XDRData::decode(&encode_file(&f)).expect("decode");
    assert_eq!(d.frames.len(), 0);
    assert!(d.is_complete);
    assert_eq!(d.header.total_records, Some(0));
    assert_eq!(d.header.duration, Some(0));
    assert_eq!(d.header.level_name, "Detailed");
}

#[test]
fn test_largest_array_size() {
    let elements: Vec<u32> = (0..255).map(|i| (i as f32).to_bits()).collect();
    let f = EncFile {
        version: 1,
        level: 1,
        interval: 1.0f32.to_bits(),
        start_timestamp: 0,
        datarefs: vec![EncDataref { name_bytes: b"big".to_vec(), type_code: 0, array_size: 255 }],
        frames: vec![EncFrame {
            timestamp: 0.0f32.to_bits(),
            values: vec![EncValue::FloatArray(elements.clone())],
        }],
        footer: None,
    };
    let d = XDRData::decode(&encode_file(&f)).expect("decode");
    match &d.frames[0].values[0] {
        DataValue::FloatArray(a) => assert_eq!(a, &elements),
        _ => panic!("kind"),
    }
    let params = d.get_all_plottable_parameters();
    assert_eq!(params.len(), 255);
    assert_eq!(params[254].name, "big[254]");
    let (_, values) = d.get_parameter_data(0, 254, None, 1);
    assert_eq!(f64::from_bits(values[0]), 254.0);
}

#[test]
fn test_lossy_name_decoding() {
    // An invalid UTF-8 byte in a name is replaced, not fatal.
    let f = EncFile {
        version: 1,
        level: 1,
        interval: 1.0f32.to_bits(),
        start_timestamp: 0,
        datarefs: vec![EncDataref { name_bytes: vec![b'a', 0xff, b'b'], type_code: 0, array_size: 0 }],
        frames: vec![],
        footer: None,
    };
    let d = XDRData::decode(&encode_file(&f)).expect("decode");
    assert_eq!(d.datarefs[0].name, "a\u{fffd}b");
}
