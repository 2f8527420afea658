//! Frames on the simulator's socket.

use robot_fleet::agent::telemetry::{
    parse_frame, pause_after_ack, read_frames, reads_socket, split_nanos, SocketReader,
    TelemetryFrame,
};

fn payload_of(timestamp_ns: i64, positions: &[f64], torques: &[f64]) -> Vec<u8> {
    let mut payload: Vec<u8> = Vec::new();
    payload.extend_from_slice(&timestamp_ns.to_be_bytes());
    payload.extend_from_slice(&(positions.len() as u32).to_be_bytes());
    for &p in positions {
        payload.extend_from_slice(&p.to_be_bytes());
    }
    for &t in torques {
        payload.extend_from_slice(&t.to_be_bytes());
    }
    payload
}

fn encode_frame(timestamp_ns: i64, positions: &[f64], torques: &[f64]) -> Vec<u8> {
    let payload = payload_of(timestamp_ns, positions, torques);
    let mut frame = (payload.len() as u32).to_be_bytes().to_vec();
    frame.extend_from_slice(&payload);
    frame
}

fn positions_of(frame: &TelemetryFrame) -> Vec<f64> {
    frame.joints.iter().map(|j| f64::from_bits(j.position_bits)).collect()
}

fn torques_of(frame: &TelemetryFrame) -> Vec<f64> {
    frame.joints.iter().map(|j| f64::from_bits(j.torque_bits)).collect()
}

fn nanos_of(frame: &TelemetryFrame) -> i64 {
    frame.recorded_at.seconds * 1_000_000_000 + frame.recorded_at.nanos as i64
}

#[test]
fn wire_format_round_trip_6_joints() {
    let positions = vec![0.1, 0.2, 0.3, 0.4, 0.5, 0.6];
    let torques = vec![1.1, 2.2, 3.3, 4.4, 5.5, 6.6];
    let ts: i64 = 1_700_000_000_123_456_789;

    let frame = encode_frame(ts, &positions, &torques);
    let length = u32::from_be_bytes(frame[0..4].try_into().unwrap()) as usize;
    assert_eq!(length, frame.len() - 4, "length prefix must match payload size");

    let decoded = parse_frame("dev", &frame[4..]).unwrap();
    assert_eq!(nanos_of(&decoded), ts);
    assert_eq!(decoded.joints.len(), 6);
    for (a, b) in positions.iter().zip(positions_of(&decoded).iter()) {
        assert!((a - b).abs() < 1e-12, "position mismatch: {a} vs {b}");
    }
    for (a, b) in torques.iter().zip(torques_of(&decoded).iter()) {
        assert!((a - b).abs() < 1e-12, "torque mismatch: {a} vs {b}");
    }
}

#[test]
fn wire_format_timestamp_splits_correctly_at_second_boundary() {
    let ts_ns: i64 = 1_700_000_001_500_000_000;
    let frame = encode_frame(ts_ns, &[0.0; 6], &[0.0; 6]);
    let decoded = parse_frame("dev", &frame[4..]).unwrap();
    assert_eq!(decoded.recorded_at.seconds, 1_700_000_001);
    assert_eq!(decoded.recorded_at.nanos, 500_000_000);
    let ts = nanos_of(&decoded);
    assert_eq!(ts / 1_000_000_000, 1_700_000_001);
    assert_eq!(ts % 1_000_000_000, 500_000_000);
}

#[test]
fn wire_format_rejects_truncated_payload() {
    assert!(parse_frame("dev", &[0u8; 5]).is_none());
}

#[test]
fn wire_format_rejects_joint_count_beyond_payload() {
    let frame = encode_frame(0, &[0.0; 3], &[0.0; 3]);
    let mut bad = frame[4..].to_vec();
    bad[8..12].copy_from_slice(&99u32.to_be_bytes());
    assert!(parse_frame("dev", &bad).is_none());
}

#[test]
fn parse_frame_round_trip() {
    let positions = vec![0.1, 0.2, 0.3, 0.4, 0.5, 0.6];
    let torques = vec![1.0, 2.0, 3.0, 4.0, 5.0, 6.0];
    let ts = 1_700_000_000_000_000_000i64;
    let payload = payload_of(ts, &positions, &torques);

    let frame = parse_frame("dev-001", &payload).unwrap();
    assert_eq!(frame.device_id, "dev-001");
    assert_eq!(frame.joints.len(), 6);
    assert!((f64::from_bits(frame.joints[0].position_bits) - 0.1).abs() < 1e-9);
    assert!((f64::from_bits(frame.joints[0].torque_bits) - 1.0).abs() < 1e-9);
    assert!((f64::from_bits(frame.joints[5].position_bits) - 0.6).abs() < 1e-9);
}

#[test]
fn parse_frame_timestamp_correctly_split() {
    let ts_ns: i64 = 1_700_000_001_500_000_000;
    let payload = payload_of(ts_ns, &[0.0; 6], &[0.0; 6]);
    let frame = parse_frame("dev", &payload).unwrap();
    let recorded = frame.recorded_at;
    assert_eq!(recorded.seconds, 1_700_000_001);
    assert_eq!(recorded.nanos, 500_000_000);
}

#[test]
fn parse_frame_rejects_truncated_payload() {
    assert!(parse_frame("dev", &[0u8; 5]).is_none());
}

#[test]
fn parse_frame_rejects_mismatched_joint_count() {
    let payload = payload_of(0, &[0.0; 3], &[0.0; 3]);
    let mut bad = payload.clone();
    bad[8..12].copy_from_slice(&6u32.to_be_bytes());
    assert!(parse_frame("dev", &bad).is_none());
}

#[test]
fn joint_names_assigned_from_known_list() {
    let payload = payload_of(0, &[0.0; 6], &[0.0; 6]);
    let frame = parse_frame("dev", &payload).unwrap();
    assert_eq!(frame.joints[0].name, "panda_joint1");
    assert_eq!(frame.joints[5].name, "panda_joint6");
}

#[test]
fn seventh_joint_has_no_name_of_its_own() {
    let payload = payload_of(0, &[0.0; 7], &[0.0; 7]);
    let frame = parse_frame("dev", &payload).unwrap();
    assert_eq!(frame.joints.len(), 7);
    assert_eq!(frame.joints[6].name, "unknown");
}

#[test]
fn every_joint_is_at_35_degrees() {
    let payload = payload_of(0, &[1.0], &[2.0]);
    let frame = parse_frame("dev", &payload).unwrap();
    assert_eq!(f64::from_bits(frame.joints[0].temperature_bits), 35.0);
}

#[test]
fn bytes_beyond_the_joints_are_not_looked_at() {
    let mut payload = payload_of(5, &[1.5], &[2.5]);
    payload.extend_from_slice(&[9, 9, 9]);
    let frame = parse_frame("dev", &payload).unwrap();
    assert_eq!(positions_of(&frame), vec![1.5]);
    assert_eq!(torques_of(&frame), vec![2.5]);
}

#[test]
fn negative_times_are_split_towards_zero() {
    let t = split_nanos(-1_500_000_000);
    assert_eq!((t.seconds, t.nanos), (-1, -500_000_000));
    let t = split_nanos(i64::MIN);
    assert_eq!(t.seconds, i64::MIN / 1_000_000_000);
    assert_eq!(t.nanos as i64, i64::MIN % 1_000_000_000);
    let t = split_nanos(i64::MAX);
    assert_eq!(t.seconds, i64::MAX / 1_000_000_000);
    assert_eq!(t.nanos as i64, i64::MAX % 1_000_000_000);
}

#[test]
fn simulator_to_agent_socket_delivers_frames() {
    let positions = vec![0.1, 0.2, 0.3, 0.4, 0.5, 0.6];
    let torques = vec![0.5, 1.0, 1.5, 2.0, 2.5, 3.0];
    let mut stream: Vec<u8> = Vec::new();
    for i in 0..3i64 {
        let ts = 1_000_000_000i64 + i * 100_000_000;
        stream.extend_from_slice(&encode_frame(ts, &positions, &torques));
    }

    let frames = read_frames("dev", &stream);
    assert_eq!(frames.len(), 3);
    for (i, frame) in frames.iter().enumerate() {
        assert_eq!(nanos_of(frame), 1_000_000_000i64 + i as i64 * 100_000_000);
        let (pos, tor) = (positions_of(frame), torques_of(frame));
        assert_eq!(pos.len(), 6);
        assert_eq!(tor.len(), 6);
        assert!((pos[0] - 0.1).abs() < 1e-12);
        assert!((tor[0] - 0.5).abs() < 1e-12);
    }
}

#[test]
fn simulator_disconnect_does_not_panic_server() {
    let frames = read_frames("dev", &[]);
    assert!(frames.is_empty());
    let mut reader = SocketReader::new("dev");
    assert_eq!(reader.wants(), Some(4));
    reader.stop();
    let got_eof = reader.wants().is_none();
    assert!(got_eof, "server should detect client disconnect cleanly");
}

#[test]
fn a_payload_that_is_no_frame_is_passed_over() {
    let mut stream: Vec<u8> = vec![0, 0, 0, 3, 1, 2, 3];
    stream.extend_from_slice(&encode_frame(7, &[1.0], &[2.0]));
    let frames = read_frames("dev", &stream);
    assert_eq!(frames.len(), 1);
    assert_eq!(nanos_of(&frames[0]), 7);
}

#[test]
fn reading_stops_at_a_length_that_is_not_read() {
    let mut empty: Vec<u8> = vec![0, 0, 0, 0];
    empty.extend_from_slice(&encode_frame(7, &[1.0], &[2.0]));
    assert!(read_frames("dev", &empty).is_empty());

    let mut reader = SocketReader::new("dev");
    assert!(reader.received(&1_000_000u32.to_be_bytes()).is_none());
    assert_eq!(reader.wants(), Some(1_000_000));
    let mut reader = SocketReader::new("dev");
    assert!(reader.received(&1_000_001u32.to_be_bytes()).is_none());
    assert_eq!(reader.wants(), None);
}

#[test]
fn an_unfinished_frame_is_not_delivered() {
    let whole = encode_frame(7, &[1.0], &[2.0]);
    let frames = read_frames("dev", &whole[..whole.len() - 1]);
    assert!(frames.is_empty());
}

#[test]
fn throttling_pauses_for_half_a_second() {
    assert_eq!(pause_after_ack(true), Some(500));
    assert_eq!(pause_after_ack(false), None);
}

#[test]
fn the_socket_is_read_where_it_is_named_and_there() {
    assert!(reads_socket(true, true));
    assert!(!reads_socket(true, false));
    assert!(!reads_socket(false, true));
}
