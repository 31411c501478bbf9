use radarc::error::DemError;
use radarc::hgt::{decode_hgt, parse_hgt_name};

fn tile_bytes(side: usize) -> Vec<u8> {
    vec![0u8; 2 * side * side]
}

#[test]
fn decodes_three_arc_second_tile() {
    let mut buf = tile_bytes(1201);
    // first sample: 0x01 0x2C = 300
    buf[0] = 0x01;
    buf[1] = 0x2C;
    // second sample: 0xFF 0x9C = -100
    buf[2] = 0xFF;
    buf[3] = 0x9C;
    // third sample: void marker 0x80 0x00
    buf[4] = 0x80;
    buf[5] = 0x00;
    // last sample: 0x7F 0xFF = 32767
    let n = buf.len();
    buf[n - 2] = 0x7F;
    buf[n - 1] = 0xFF;
    let tile = decode_hgt(&buf).expect("valid tile");
    assert_eq!(tile.side, 1201);
    assert_eq!(tile.samples.len(), 1201 * 1201);
    assert_eq!(tile.samples[0], Some(300));
    assert_eq!(tile.samples[1], Some(-100));
    assert_eq!(tile.samples[2], None);
    assert_eq!(tile.samples[3], Some(0));
    assert_eq!(tile.samples[1201 * 1201 - 1], Some(32767));
}

#[test]
fn decodes_one_arc_second_tile() {
    let mut buf = tile_bytes(3601);
    buf[2 * 3601] = 0x80;
    buf[2 * 3601 + 1] = 0x01;
    let tile = decode_hgt(&buf).expect("valid tile");
    assert_eq!(tile.side, 3601);
    assert_eq!(tile.samples.len(), 3601 * 3601);
    assert_eq!(tile.samples[3601], Some(-32767));
}

#[test]
fn trailing_odd_byte_is_ignored() {
    let mut buf = tile_bytes(1201);
    buf.push(0xAB);
    let tile = decode_hgt(&buf).expect("valid tile");
    assert_eq!(tile.side, 1201);
    assert_eq!(tile.samples.len(), 1201 * 1201);
}

#[test]
fn rejects_unknown_tile_size() {
    let buf = vec![0u8; 1000];
    match decode_hgt(&buf) {
        Err(DemError::InvalidHgtSize(n)) => assert_eq!(n, 1000),
        other => panic!("unexpected result: {:?}", other.map(|t| t.side)),
    }
    match decode_hgt(&[]) {
        Err(DemError::InvalidHgtSize(n)) => assert_eq!(n, 0),
        other => panic!("unexpected result: {:?}", other.map(|t| t.side)),
    }
}

#[test]
fn splits_north_west_tile_name() {
    let parts = parse_hgt_name("N37W122");
    assert!(!parts.lat_south);
    assert_eq!(parts.lat_degrees, "37");
    assert!(parts.lon_west);
    assert_eq!(parts.lon_degrees, "122");
}

#[test]
fn splits_lower_case_south_east_name() {
    let parts = parse_hgt_name("s05e010_v3");
    assert!(parts.lat_south);
    assert_eq!(parts.lat_degrees, "05");
    assert!(!parts.lon_west);
    assert_eq!(parts.lon_degrees, "010");
}

#[test]
fn longitude_without_digits_is_empty() {
    let parts = parse_hgt_name("N37Wabc");
    assert!(parts.lon_west);
    assert_eq!(parts.lon_degrees, "");
    let parts = parse_hgt_name("S1.5w");
    assert!(parts.lat_south);
    assert_eq!(parts.lat_degrees, "1.");
    assert!(!parts.lon_west);
    assert_eq!(parts.lon_degrees, "");
}

#[test]
fn longitude_digits_stop_before_non_ascii() {
    let parts = parse_hgt_name("N12E34é5");
    assert_eq!(parts.lon_degrees, "34");
}

#[test]
fn splits_equator_tile_name() {
    let parts = parse_hgt_name("N00E000");
    assert!(!parts.lat_south);
    assert_eq!(parts.lat_degrees, "00");
    assert!(!parts.lon_west);
    assert_eq!(parts.lon_degrees, "000");
}

#[test]
fn name_ending_after_longitude_hemisphere_has_no_digits() {
    let parts = parse_hgt_name("N37W");
    assert!(parts.lon_west);
    assert_eq!(parts.lon_degrees, "");
    let parts = parse_hgt_name("S12E045");
    assert!(parts.lat_south);
    assert_eq!(parts.lat_degrees, "12");
    assert!(!parts.lon_west);
    assert_eq!(parts.lon_degrees, "045");
}
