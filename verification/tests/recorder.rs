use glove_host::recorder::{commit, conclude, record_file_name, CommitError};
use glove_host::sample::{Calibration, RawSample};

const HEADER: &str = "timestamp_ms,user_id,session_id,class_label,ch0_raw,ch1_raw,ch2_raw,ch3_raw,ch4_raw,ch0_norm,ch1_norm,ch2_norm,ch3_norm,ch4_norm,baseline_ch0,baseline_ch1,baseline_ch2,baseline_ch3,baseline_ch4,maxbend_ch0,maxbend_ch1,maxbend_ch2,maxbend_ch3,maxbend_ch4,glove_fit,sensor_map_ref,notes";

fn calibration(baseline: [i32; 5], max_bend: [i32; 5]) -> Calibration {
    Calibration { baseline: baseline.to_vec(), max_bend: max_bend.to_vec() }
}

#[test]
fn commit_normalizes_one_sample() {
    let samples = [RawSample { timestamp: 1234, channels: [80, 0, 0, 0, 0] }];
    let cal = calibration([50, 0, 0, 0, 0], [150, 100, 100, 100, 100]);
    let record = commit(&samples, "fist", "u1", "s1", &cal, 1_700_000_000).unwrap();
    assert_eq!(record.file_name, "u1_s1_fist_1700000000.csv");
    assert_eq!(record.lines.len(), 2);
    assert_eq!(record.lines[0], HEADER);
    let fields: Vec<&str> = record.lines[1].split(',').collect();
    assert_eq!(fields.len(), 27);
    assert_eq!(fields[9], "0.300");
    assert_eq!(
        record.lines[1],
        "1234,u1,s1,fist,80,0,0,0,0,0.300,0.000,0.000,0.000,0.000,50,0,0,0,0,150,100,100,100,100,normal-fit,CH0=thumb|CH1=index|CH2=middle|CH3=ring|CH4=pinky,"
    );
}

#[test]
fn commit_rejects_empty_buffer() {
    let cal = calibration([0; 5], [100; 5]);
    let result = commit(&[], "fist", "u1", "s1", &cal, 1);
    assert!(matches!(result, Err(CommitError::InvalidInput)));
}

#[test]
fn commit_rejects_short_calibration() {
    let samples = [RawSample { timestamp: 0, channels: [1, 2, 3, 4, 5] }];
    let short_baseline = Calibration { baseline: vec![0, 0, 0, 0], max_bend: vec![9; 5] };
    assert!(matches!(
        commit(&samples, "g", "u", "s", &short_baseline, 1),
        Err(CommitError::InvalidInput)
    ));
    let short_max = Calibration { baseline: vec![0; 5], max_bend: vec![] };
    assert!(matches!(commit(&samples, "g", "u", "s", &short_max, 1), Err(CommitError::InvalidInput)));
}

#[test]
fn commit_succeeds_with_degenerate_calibration() {
    let samples = [RawSample { timestamp: -5, channels: [10, 20, 30, 40, 50] }];
    let cal = calibration([10, 20, 30, 40, 50], [10, 5, 30, -40, 60]);
    let record = commit(&samples, "open", "user", "sess", &cal, 42).unwrap();
    assert_eq!(
        record.lines[1],
        "-5,user,sess,open,10,20,30,40,50,0.000,0.000,0.000,0.000,0.000,10,20,30,40,50,10,5,30,-40,60,normal-fit,CH0=thumb|CH1=index|CH2=middle|CH3=ring|CH4=pinky,"
    );
}

#[test]
fn commit_writes_one_row_per_sample_in_order() {
    let samples = [
        RawSample { timestamp: 1, channels: [0, 25, 50, 75, 100] },
        RawSample { timestamp: 2, channels: [100, 75, 50, 25, 0] },
        RawSample { timestamp: 3, channels: [-10, 200, 33, 66, 1] },
    ];
    let cal = Calibration { baseline: vec![0, 0, 0, 0, 0, 7], max_bend: vec![100, 100, 100, 100, 100, 8, 9] };
    let record = commit(&samples, "wave", "ann", "7", &cal, 0).unwrap();
    assert_eq!(record.file_name, "ann_7_wave_0.csv");
    assert_eq!(record.lines.len(), 4);
    assert!(record.lines[1].starts_with("1,ann,7,wave,0,25,50,75,100,0.000,0.250,0.500,0.750,1.000,0,0,0,0,0,100,"));
    assert!(record.lines[2].starts_with("2,ann,7,wave,100,75,50,25,0,1.000,0.750,0.500,0.250,0.000,"));
    assert!(record.lines[3].starts_with("3,ann,7,wave,-10,200,33,66,1,0.000,1.000,0.330,0.660,0.010,"));
}

#[test]
fn commit_handles_extreme_values() {
    let samples = [RawSample { timestamp: i64::MIN, channels: [i32::MIN, i32::MAX, 0, -1, 1] }];
    let cal = calibration([i32::MIN; 5], [i32::MAX; 5]);
    let record = commit(&samples, "", "", "", &cal, u64::MAX).unwrap();
    assert_eq!(record.file_name, "___18446744073709551615.csv");
    assert_eq!(
        record.lines[1],
        "-9223372036854775808,,,,-2147483648,2147483647,0,-1,1,0.000,1.000,0.500,0.500,0.500,-2147483648,-2147483648,-2147483648,-2147483648,-2147483648,2147483647,2147483647,2147483647,2147483647,2147483647,normal-fit,CH0=thumb|CH1=index|CH2=middle|CH3=ring|CH4=pinky,"
    );
}

#[test]
fn file_name_joins_identifiers_and_time() {
    assert_eq!(record_file_name("u", "s", "g", 10), "u_s_g_10.csv");
}

#[test]
fn conclude_reports_location_or_storage_error() {
    assert_eq!(conclude("/data/r.csv".to_string(), Ok(())).unwrap(), "/data/r.csv");
    match conclude("/data/r.csv".to_string(), Err("disk full".to_string())) {
        Err(CommitError::Storage { reason }) => assert_eq!(reason, "disk full"),
        other => panic!("unexpected {:?}", other),
    }
}
