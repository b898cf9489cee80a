use gx1convert::channel::demux;
use gx1convert::pipeline::{channel_table, convert_core};

fn lines(v: &[&str]) -> Vec<String> {
    v.iter().map(|s| s.to_string()).collect()
}

#[test]
fn demux_assigns_position_i_to_channel_i_mod_n() {
    let samples: Vec<i16> = vec![10, 20, 30, 40, 50];
    let channels = demux(&samples, 2);
    assert_eq!(channels.len(), 2);
    assert_eq!(channels[0], vec![10, 30, 50]);
    assert_eq!(channels[1], vec![20, 40]);
}

#[test]
fn demux_with_one_channel_keeps_the_stream() {
    let samples: Vec<i16> = vec![5, -6, 7];
    let channels = demux(&samples, 1);
    assert_eq!(channels, vec![vec![5, -6, 7]]);
}

#[test]
fn demux_preserves_order_within_each_channel() {
    let samples: Vec<i16> = vec![0, 1, 2, 3, 4, 5, 6];
    let channels = demux(&samples, 3);
    assert_eq!(channels[0], vec![0, 3, 6]);
    assert_eq!(channels[1], vec![1, 4]);
    assert_eq!(channels[2], vec![2, 5]);
}

#[test]
fn end_to_end_scenario_two_channels() {
    let header = lines(&["SERIES A, B", "SLOPE 1.0, 2.0", "Y_OFFSET 0.0, 0.0"]);
    // Four little-endian samples: 1, 2, 3, 4.
    let dat: Vec<u8> = vec![1, 0, 2, 0, 3, 0, 4, 0];
    let (meta, cols) = convert_core(&header, &dat).unwrap();
    assert_eq!(meta.names, vec!["A".to_string(), "B".to_string()]);
    assert_eq!(cols, vec![vec![1, 3], vec![2, 4]]);

    // The floating-point tail the caller applies: raw * slope + offset.
    let slopes: Vec<f32> = meta
        .slope_tokens
        .iter()
        .map(|t| t.parse::<f32>().unwrap())
        .collect();
    let offsets: Vec<f32> = meta
        .offset_tokens
        .iter()
        .map(|t| t.parse::<f32>().unwrap())
        .collect();
    let calibrated: Vec<Vec<f32>> = cols
        .iter()
        .enumerate()
        .map(|(c, col)| {
            col.iter()
                .map(|&raw| raw as f32 * slopes[c] + offsets[c])
                .collect()
        })
        .collect();
    assert_eq!(calibrated[0], vec![1.0, 3.0]);
    assert_eq!(calibrated[1], vec![4.0, 8.0]);
}

#[test]
fn calibration_formula_scales_then_offsets() {
    // raw = 100, slope = 0.5, offset = 2.0: the documented affine form.
    let raw: i16 = 100;
    let value = raw as f32 * 0.5_f32 + 2.0_f32;
    assert_eq!(value, 52.0_f32);
}

#[test]
fn channel_table_uses_the_header_stride() {
    let header_lines = lines(&["SERIES x, y, z", "SLOPE 1, 1, 1", "Y_OFFSET 0, 0, 0"]);
    let dat: Vec<u8> = vec![9, 0, 8, 0, 7, 0, 6, 0];
    let (meta, _) = convert_core(&header_lines, &dat).unwrap();
    let cols = channel_table(&meta, &dat);
    assert_eq!(cols.len(), 3);
    assert_eq!(cols[0], vec![9, 6]);
    assert_eq!(cols[1], vec![8]);
    assert_eq!(cols[2], vec![7]);
}

#[test]
fn conversion_is_repeatable() {
    let header = lines(&["SERIES A, B", "SLOPE 1.0, 2.0", "Y_OFFSET 0.5, -0.5"]);
    let dat: Vec<u8> = vec![1, 0, 0xFF, 0xFF, 3, 0, 4, 0, 5];
    let first = convert_core(&header, &dat).unwrap();
    let second = convert_core(&header, &dat).unwrap();
    assert_eq!(first.0.names, second.0.names);
    assert_eq!(first.0.slope_tokens, second.0.slope_tokens);
    assert_eq!(first.0.offset_tokens, second.0.offset_tokens);
    assert_eq!(first.1, second.1);
}
