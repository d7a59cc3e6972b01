// End-to-end tests: header decode, protocol gating, the packet loop and
// its terminal packet, and the bounded-region containment guarantee.

use demodec::demo::Header;
use demodec::error::ParserError;
use demodec::packet::{Packet, UserCmd};
use demodec::parsing::{parse_demo, parse_packets};
use demodec::reader::BitReader;

struct BitWriter {
    bytes: Vec<u8>,
    bit: usize,
}

impl BitWriter {
    fn new() -> BitWriter {
        BitWriter { bytes: Vec::new(), bit: 0 }
    }

    fn push_bits(&mut self, value: u64, n: usize) {
        for i in 0..n {
            if self.bit % 8 == 0 {
                self.bytes.push(0);
            }
            let b = ((value >> i) & 1) as u8;
            let idx = self.bit / 8;
            self.bytes[idx] |= b << (self.bit % 8);
            self.bit += 1;
        }
    }

    fn push_byte(&mut self, b: u8) {
        self.push_bits(b as u64, 8);
    }

    fn push_i32(&mut self, v: i32) {
        self.push_bits(v as u32 as u64, 32);
    }

    fn push_fixed_str(&mut self, s: &str, len: usize) {
        let bytes = s.as_bytes();
        for i in 0..len {
            self.push_byte(if i < bytes.len() {
                bytes[i]
            } else {
                0
            });
        }
    }

    fn finish(mut self, min: usize) -> Vec<u8> {
        while self.bytes.len() < min {
            self.bytes.push(0);
        }
        self.bytes
    }
}

fn push_header(w: &mut BitWriter, demo_protocol: i32, network_protocol: i32) {
    w.push_fixed_str("HL2DEMO", 8);
    w.push_i32(demo_protocol);
    w.push_i32(network_protocol);
    w.push_fixed_str("srv", 260);
    w.push_fixed_str("client", 260);
    w.push_fixed_str("testchmb", 260);
    w.push_fixed_str("portal", 260);
    w.push_bits(1.5f32.to_bits() as u64, 32);
    w.push_i32(9999);
    w.push_i32(300);
    w.push_i32(1234);
}

#[test]
fn header_decodes_exactly() {
    let mut w = BitWriter::new();
    push_header(&mut w, 3, 15);
    let buf = w.finish(1080);
    let mut r = BitReader::new(&buf).unwrap();
    let h = Header::parse(&mut r).unwrap();
    assert_eq!(h.signature, "HL2DEMO".to_string());
    assert_eq!(h.demo_protocol, 3);
    assert_eq!(h.network_protocol, 15);
    assert_eq!(h.server_name, "srv".to_string());
    assert_eq!(h.client_name, "client".to_string());
    assert_eq!(h.map_name, "testchmb".to_string());
    assert_eq!(h.game_directory, "portal".to_string());
    assert_eq!(f32::from_bits(h.playback_time), 1.5);
    assert_eq!(h.playback_ticks, 9999);
    assert_eq!(h.playback_frames, 300);
    assert_eq!(h.sign_on_length, 1234);
    assert_eq!(r.current, 8576);
}

#[test]
fn unsupported_demo_protocol_fails_before_any_packet() {
    // demo_protocol 2: the header is read, then decoding stops; the
    // buffer holds no decodable packet at all, so reaching one would
    // fail differently.
    let mut w = BitWriter::new();
    push_header(&mut w, 2, 15);
    let buf = w.finish(1080);
    let mut r = BitReader::new(&buf).unwrap();
    assert_eq!(parse_demo(&mut r).err(), Some(ParserError::UnsupportedFormat));
}

#[test]
fn unsupported_network_protocol_fails() {
    let mut w = BitWriter::new();
    push_header(&mut w, 3, 16);
    let buf = w.finish(1080);
    let mut r = BitReader::new(&buf).unwrap();
    assert_eq!(parse_demo(&mut r).err(), Some(ParserError::UnsupportedFormat));
}

#[test]
fn decode_halts_at_the_first_stop_packet() {
    let mut w = BitWriter::new();
    push_header(&mut w, 3, 15);
    // A sync-tick packet, the stop packet, then trailing garbage that
    // would fail decoding if the loop ran on.
    w.push_byte(3);
    w.push_i32(50);
    w.push_byte(7);
    w.push_bits(60, 24);
    w.push_byte(250); // no such packet type
    w.push_byte(251);
    let buf = w.finish(1100);
    let mut r = BitReader::new(&buf).unwrap();
    let demo = parse_demo(&mut r).unwrap();
    assert_eq!(demo.packets.len(), 2);
    assert!(matches!(demo.packets[0], Packet::SyncTick(50)));
    assert!(matches!(demo.packets[1], Packet::Stop(60)));
}

#[test]
fn unknown_packet_type_fails_decode() {
    let mut w = BitWriter::new();
    w.push_byte(9);
    let buf = w.finish(16);
    let mut r = BitReader::new(&buf).unwrap();
    let mut info = demodec::demo::DemoInfo {
        net_svc_message_bits: 6,
        net_protocol: 15,
        demo_protocol: 3,
        game: demodec::demo::Game::PORTAL_5135,
        game_event_list: Vec::new(),
    };
    assert_eq!(parse_packets(&mut r, &mut info).err(), Some(ParserError::DecodeError));
}

#[test]
fn missing_stop_packet_is_out_of_bounds() {
    let mut w = BitWriter::new();
    w.push_byte(3);
    w.push_i32(1);
    let buf = w.finish(8);
    let mut r = BitReader::new(&buf).unwrap();
    let mut info = demodec::demo::DemoInfo {
        net_svc_message_bits: 6,
        net_protocol: 15,
        demo_protocol: 3,
        game: demodec::demo::Game::PORTAL_5135,
        game_event_list: Vec::new(),
    };
    // 40 of 64 bits consumed; the next type byte reads zeros (no such
    // packet type 0), which is a decode failure, never a crash.
    assert_eq!(parse_packets(&mut r, &mut info).err(), Some(ParserError::DecodeError));
}

#[test]
fn user_cmd_region_containment() {
    // The declared 4-byte region is left exactly, although the inner
    // grammar (all presence bits clear) consumes only 14 of its 32 bits.
    let mut w = BitWriter::new();
    w.push_i32(7); // command id
    w.push_i32(4); // declared byte size
    w.push_bits(0, 32); // region: all presence bits clear
    w.push_byte(0x99); // marker right after the region
    let buf = w.finish(32);
    let mut r = BitReader::new(&buf).unwrap();
    let u = UserCmd::parse(&mut r).unwrap();
    assert_eq!(u.cmd, 7);
    assert_eq!(u.size, 4);
    assert_eq!(u.info.command_number, None);
    assert_eq!(u.info.mouse_dy, None);
    assert_eq!(r.current, 64 + 32);
    assert_eq!(r.read_bits(8).unwrap(), 0x99);
}

#[test]
fn user_cmd_fields_decode_when_present() {
    let mut w = BitWriter::new();
    w.push_i32(1);
    w.push_i32(16); // region size in bytes
    // command_number present: 42
    w.push_bits(1, 1);
    w.push_bits(42, 32);
    // tick_count absent
    w.push_bits(0, 1);
    // view angles x present (raw float bits), y and z absent
    w.push_bits(1, 1);
    w.push_bits(2.0f32.to_bits() as u64, 32);
    w.push_bits(0, 1);
    w.push_bits(0, 1);
    // forward/side/up absent
    w.push_bits(0, 3);
    // buttons absent, impulse absent
    w.push_bits(0, 2);
    // weapon_select present: 11 bits value 17, subtype attempted, absent
    w.push_bits(1, 1);
    w.push_bits(17, 11);
    w.push_bits(0, 1);
    // mouse dx present: -3 sign-extended from 16 bits; dy absent
    w.push_bits(1, 1);
    w.push_bits(0xFFFD, 16);
    w.push_bits(0, 1);
    let buf = w.finish(40);
    let mut r = BitReader::new(&buf).unwrap();
    let u = UserCmd::parse(&mut r).unwrap();
    assert_eq!(u.info.command_number, Some(42));
    assert_eq!(u.info.tick_count, None);
    assert_eq!(u.info.view_angles.x, Some(2.0f32.to_bits()));
    assert_eq!(u.info.view_angles.y, None);
    assert_eq!(u.info.weapon_select, Some(17));
    assert_eq!(u.info.weapon_subtype, None);
    assert_eq!(u.info.mouse_dx, Some(-3));
    assert_eq!(u.info.mouse_dy, None);
    assert_eq!(r.current, 64 + 16 * 8);
}

#[test]
fn full_demo_with_packet_payload() {
    let mut w = BitWriter::new();
    push_header(&mut w, 3, 15);
    // An ordinary packet: command info (608 bits), sequences, an empty
    // message region.
    w.push_byte(2);
    w.push_i32(10); // tick
    for _ in 0..19 {
        w.push_i32(0); // command info words
    }
    w.push_i32(4); // in sequence
    w.push_i32(5); // out sequence
    w.push_i32(0); // message region byte size
    // The stop packet.
    w.push_byte(7);
    w.push_bits(11, 24);
    let buf = w.finish(1200);
    let mut r = BitReader::new(&buf).unwrap();
    let demo = parse_demo(&mut r).unwrap();
    assert_eq!(demo.header.network_protocol, 15);
    assert_eq!(demo.packets.len(), 2);
    match &demo.packets[0] {
        Packet::Packet(tick, pp) => {
            assert_eq!(*tick, 10);
            assert_eq!(pp.in_sequence, 4);
            assert_eq!(pp.out_sequence, 5);
            assert_eq!(pp.size, 0);
            assert_eq!(pp.messages.len(), 0);
        },
        other => panic!("expected an ordinary packet, got {:?}", other),
    }
    assert!(matches!(demo.packets[1], Packet::Stop(11)));
}
