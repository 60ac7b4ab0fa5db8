use mfro::dsp::convolve;
use rustfft::num_complex::Complex;
use mfro::frame::{MessageParser, SyncLock, accept_frame};
use mfro::message::{DeviceEvent, DeviceState, Message, RadioAction, RadioLoop, mqtt_topic};
use mfro::scan::{ScanAction, ScanPhase, ScanState};

const HONEYWELL_5816_CRC: crc::Algorithm<u16> = crc::Algorithm {
    width: 16,
    poly: 0x8005,
    init: 0x0000,
    refin: false,
    refout: false,
    xorout: 0,
    check: 0xaee7,
    residue: 0,
};

fn honeywell_crc(body: u32) -> u16 {
    crc::Crc::<u16>::new(&HONEYWELL_5816_CRC).checksum(&body.to_be_bytes())
}

fn frame_bits(body: u32, crc: u16) -> Vec<bool> {
    let mut bits = Vec::new();
    for i in (0..32).rev() {
        bits.push((body >> i) & 1 == 1);
    }
    for i in (0..16).rev() {
        bits.push((crc >> i) & 1 == 1);
    }
    bits
}

#[test]
fn message_parse_back_door_open() {
    let m = Message::parse(0x8ede12a0);
    assert_eq!(m.channel, 0x8);
    assert_eq!(m.device_id, 0xede12);
    assert_eq!(m.event, 0xa0);
    assert!(m.contact);
    assert!(!m.tamper);
    assert!(m.reed_open);
    assert!(!m.alarm);
    assert!(!m.low_battery);
    assert!(!m.heartbeat);
}

#[test]
fn message_parse_back_door_closed() {
    let m = Message::parse(0x8ede1280);
    assert_eq!(m.device_id, 0xede12);
    assert!(m.contact);
    assert!(!m.reed_open);
}

#[test]
fn message_parse_all_flags() {
    let m = Message::parse(0x1234_56fc);
    assert_eq!(m.channel, 0x1);
    assert_eq!(m.device_id, 0x23456);
    assert_eq!(m.event, 0xfc);
    assert!(m.contact && m.tamper && m.reed_open && m.alarm && m.low_battery && m.heartbeat);
    let n = Message::parse(0x0000_0003);
    assert!(!(n.contact || n.tamper || n.reed_open || n.alarm || n.low_battery || n.heartbeat));
}

#[test]
fn message_fields_rebuild_payload() {
    for body in [0u32, 0x8ede12a0, 0x851b9980, 0xffff_ffff, 0x8d31e3a0] {
        let m = Message::parse(body);
        let rebuilt = ((m.channel as u32) << 28) | (m.device_id << 8) | m.event as u32;
        assert_eq!(rebuilt, body);
    }
}

#[test]
fn device_event_from_message() {
    let m = Message::parse(0x851b99b8);
    let e = DeviceEvent::from_message(&m);
    assert_eq!(
        e,
        DeviceEvent {
            device_id: 0x51b99,
            state: DeviceState { open: true, motion: true, low_battery: true },
        }
    );
}

#[test]
fn catalog_crc_equals_honeywell_algorithm() {
    for body in [0x8ede12a0u32, 0x8e89b6c2, 0x851b9980, 0, 0xffff_ffff] {
        let catalog = crc::Crc::<u16>::new(&crc::CRC_16_UMTS).checksum(&body.to_be_bytes());
        assert_eq!(catalog, honeywell_crc(body));
    }
}

#[test]
fn check_frame_accepts_matching_crc() {
    let parser = MessageParser::new(500);
    for body in [0x8ede12a0u32, 0x8e89b6e0, 0x8d31e380, 0x851b99a0] {
        let bits = frame_bits(body, honeywell_crc(body));
        assert_eq!(parser.check_frame(&bits), Some(body));
    }
}

#[test]
fn check_frame_rejects_wrong_crc() {
    let parser = MessageParser::new(500);
    let body = 0x8ede12a0u32;
    let bits = frame_bits(body, honeywell_crc(body) ^ 0x0001);
    assert_eq!(parser.check_frame(&bits), None);
    let mut flipped = frame_bits(body, honeywell_crc(body));
    flipped[5] = !flipped[5];
    assert_eq!(parser.check_frame(&flipped), None);
}

#[test]
fn check_frame_crc_zero_is_not_accepted_blindly() {
    let parser = MessageParser::new(500);
    let body = 0x8ede12a0u32;
    assert_ne!(honeywell_crc(body), 0);
    assert_eq!(parser.check_frame(&frame_bits(body, 0)), None);
}

#[test]
fn accept_frame_compares_crcs() {
    assert_eq!(accept_frame(7, 0x1234, 0x1234), Some(7));
    assert_eq!(accept_frame(7, 0x1234, 0x1235), None);
}

fn pulses(len: usize, starts: &[usize], width: usize) -> (Vec<bool>, Vec<bool>) {
    let mut rising = vec![false; len];
    let mut falling = vec![false; len];
    for &s in starts {
        rising[s] = true;
        falling[s + width] = true;
    }
    (rising, falling)
}

#[test]
fn find_sync_locks_on_fifteen_pulses() {
    let starts: Vec<usize> = (0..15).map(|i| i * 10).collect();
    let (rising, falling) = pulses(200, &starts, 4);
    let parser = MessageParser::new(5);
    assert_eq!(
        parser.find_sync(&rising, &falling),
        Some(SyncLock { first: 0, last: 140, origin: 144 })
    );
}

#[test]
fn find_sync_needs_fifteen_pulses() {
    let starts: Vec<usize> = (0..14).map(|i| i * 10).collect();
    let (rising, falling) = pulses(200, &starts, 4);
    let parser = MessageParser::new(5);
    assert_eq!(parser.find_sync(&rising, &falling), None);
}

#[test]
fn find_sync_restarts_after_long_pulse() {
    let mut starts = vec![0usize];
    starts.extend((0..15).map(|i| 30 + i * 10));
    let mut rising = vec![false; 200];
    let mut falling = vec![false; 200];
    rising[0] = true;
    falling[20] = true;
    for &s in &starts[1..] {
        rising[s] = true;
        falling[s + 4] = true;
    }
    let parser = MessageParser::new(5);
    assert_eq!(
        parser.find_sync(&rising, &falling),
        Some(SyncLock { first: 30, last: 170, origin: 174 })
    );
}

#[test]
fn find_sync_without_falling_edge_fails() {
    let starts: Vec<usize> = (0..15).map(|i| i * 10).collect();
    let (rising, mut falling) = pulses(200, &starts, 4);
    falling[144] = false;
    let parser = MessageParser::new(5);
    assert_eq!(parser.find_sync(&rising, &falling), None);
}

#[test]
fn radio_loop_publishes_decoded_payloads() {
    let mut radio = RadioLoop::new();
    match radio.on_broadcast(Some(0x8ede12a0)) {
        RadioAction::Publish { message, event } => {
            assert_eq!(message, Message::parse(0x8ede12a0));
            assert_eq!(event.device_id, 0xede12);
            assert!(event.state.open);
            assert!(!event.state.motion);
        }
        other => panic!("unexpected {:?}", other),
    }
    assert_eq!(radio.on_broadcast(None), RadioAction::SaveCapture { slot: 0 });
}

#[test]
fn radio_loop_capture_slots_wrap_at_100() {
    let mut radio = RadioLoop::new();
    for expected in 0..100u32 {
        assert_eq!(radio.on_broadcast(None), RadioAction::SaveCapture { slot: expected });
    }
    assert_eq!(radio.on_broadcast(None), RadioAction::SaveCapture { slot: 0 });
    let _ = radio.on_broadcast(Some(1));
    assert_eq!(radio.on_broadcast(None), RadioAction::SaveCapture { slot: 1 });
}

#[test]
fn scan_state_machine() {
    let mut scan = ScanState::new();
    assert_eq!(scan.phase(), ScanPhase::Idle);
    assert_eq!(scan.on_chunk(false, true, false), ScanAction::UpdateBaseline);
    assert_eq!(scan.on_chunk(true, false, true), ScanAction::UpdateBaseline);
    assert_eq!(scan.on_chunk(true, true, false), ScanAction::StartBroadcast);
    assert_eq!(scan.phase(), ScanPhase::Collecting);
    assert_eq!(scan.on_chunk(true, false, false), ScanAction::Continue);
    assert_eq!(scan.on_chunk(true, true, false), ScanAction::Continue);
    assert_eq!(scan.on_chunk(true, false, true), ScanAction::Finish);
    assert_eq!(scan.phase(), ScanPhase::Idle);
}

#[test]
fn convolve_reversed_windows() {
    let a = [1i64, 2, 3, 4];
    let b = [1i64, 10];
    assert_eq!(convolve::<i64, i64, i64>(&a, &b), vec![12, 23, 34]);
}

#[test]
fn convolve_floats_and_short_input() {
    let a = [1.0f64, 0.5, 0.25];
    let b = [2.0f64, 4.0, 8.0];
    let r = convolve::<f64, f64, f64>(&a, &b);
    assert_eq!(r, vec![0.25 * 2.0 + 0.5 * 4.0 + 1.0 * 8.0]);
    let empty = convolve::<f64, f64, f64>(&a[..1], &b);
    assert!(empty.is_empty());
}

#[test]
fn mqtt_topic_names_device_in_decimal() {
    assert_eq!(mqtt_topic(0), "mfro/honeywell5816/0");
    assert_eq!(mqtt_topic(0xede12), "mfro/honeywell5816/974354");
    assert_eq!(mqtt_topic(u32::MAX), "mfro/honeywell5816/4294967295");
    assert_eq!(mqtt_topic(10), format!("mfro/honeywell5816/{}", 10));
}

fn bitwise_crc16_umts(data: &[u8]) -> u16 {
    let mut crc: u16 = 0;
    for &byte in data {
        for k in (0..8).rev() {
            let bit = (byte >> k) & 1 == 1;
            let top = crc & 0x8000 != 0;
            crc <<= 1;
            if top != bit {
                crc ^= 0x8005;
            }
        }
    }
    crc
}

#[test]
fn crc16_umts_is_the_bitwise_register() {
    assert_eq!(bitwise_crc16_umts(b"123456789"), 0xFEE8);
    for body in [0u32, 1, 0x8000_0000, 0x1234_5678, 0xdead_beef, 0xffff_ffff, 0x3021_a4f0] {
        let catalog = crc::Crc::<u16>::new(&crc::CRC_16_UMTS).checksum(&body.to_be_bytes());
        assert_eq!(catalog, bitwise_crc16_umts(&body.to_be_bytes()));
    }
}

#[test]
fn parse_bits_passes_on_missing_frames_and_checks_crc() {
    let parser = MessageParser::new(500);
    assert_eq!(parser.parse_bits(None), None);
    let body = 0x8e89b6e0u32;
    assert_eq!(parser.parse_bits(Some(frame_bits(body, honeywell_crc(body)))), Some(body));
    assert_eq!(parser.parse_bits(Some(frame_bits(body, honeywell_crc(body) ^ 0x8000))), None);
}

#[test]
fn convolve_sums_start_from_the_default_value() {
    let a = [Complex::new(-0.0f32, -0.0f32)];
    let b = [1.0f32];
    let r = convolve::<Complex<f32>, f32, Complex<f32>>(&a, &b);
    assert_eq!(r.len(), 1);
    assert!(r[0].re.is_sign_positive() && r[0].im.is_sign_positive());
    let sum: Complex<f32> = a.iter().map(|x| *x * b[0]).sum();
    assert_eq!(r[0].re.to_bits(), sum.re.to_bits());
    assert_eq!(r[0].im.to_bits(), sum.im.to_bits());
}
