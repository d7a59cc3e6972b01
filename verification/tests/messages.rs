// Tests for the embedded message grammars, the schema registry, and the
// message sub-stream loop.

use demodec::demo::{DemoInfo, Game};
use demodec::error::ParserError;
use demodec::game_event::{GameEvent, GameEventDescriptor, GameEventKeyType};
use demodec::net_svc_messages::{
    parse_net_svc_messages, NetSetConVar, NetSvcMessage, SvcClassInfo, SvcCreateStringTable,
    SvcFixAngle, SvcMenu, SvcPacketEntities, SvcPrefetch, SvcServerInfo, SvcSounds,
    SvcTempEntities, SvcUpdateStringTable, SvcUserMessage, SvcVoiceData, SvcVoiceInit,
};
use demodec::reader::BitReader;

struct BitWriter {
    bytes: Vec<u8>,
    bit: usize,
}

impl BitWriter {
    fn new() -> BitWriter {
        BitWriter { bytes: Vec::new(), bit: 0 }
    }

    fn push_bits(&mut self, value: u64, n: usize) {
        for i in 0..n {
            if self.bit % 8 == 0 {
                self.bytes.push(0);
            }
            let b = ((value >> i) & 1) as u8;
            let idx = self.bit / 8;
            self.bytes[idx] |= b << (self.bit % 8);
            self.bit += 1;
        }
    }

    fn push_byte(&mut self, b: u8) {
        self.push_bits(b as u64, 8);
    }

    fn push_nulled(&mut self, s: &str) {
        for b in s.as_bytes() {
            self.push_byte(*b);
        }
        self.push_byte(0);
    }

    fn finish(mut self, min: usize) -> Vec<u8> {
        while self.bytes.len() < min {
            self.bytes.push(0);
        }
        self.bytes
    }
}

fn info_5135() -> DemoInfo {
    DemoInfo {
        net_svc_message_bits: 6,
        net_protocol: 15,
        demo_protocol: 3,
        game: Game::PORTAL_5135,
        game_event_list: Vec::new(),
    }
}

#[test]
fn schema_lookup_past_registry_length_fails() {
    // Identifier 3 against an empty registry: a schema-lookup failure,
    // never an out-of-bounds access.
    let mut w = BitWriter::new();
    w.push_bits(3, 9);
    let buf = w.finish(16);
    let mut r = BitReader::new(&buf).unwrap();
    let info = info_5135();
    assert_eq!(GameEvent::parse(&mut r, &info), Err(ParserError::SchemaLookupError));
}

#[test]
fn schema_lookup_at_registry_length_fails() {
    let mut w = BitWriter::new();
    w.push_bits(1, 9);
    let buf = w.finish(16);
    let mut r = BitReader::new(&buf).unwrap();
    let mut info = info_5135();
    info.game_event_list.push(GameEventDescriptor {
        event_id: 0,
        name: "only".to_string(),
        key_definitions: Vec::new(),
    });
    assert_eq!(GameEvent::parse(&mut r, &info), Err(ParserError::SchemaLookupError));
}

#[test]
fn schema_define_then_consume() {
    // Two-phase schema: a schema-defining message fills the registry,
    // a later event record is decoded through it.
    let mut w = BitWriter::new();
    // Schema list: 1 event, length field 0, descriptor id 0, name "e",
    // one key "k" of type 3 (int32), terminator tag 0.
    w.push_bits(1, 9);
    w.push_bits(0, 20);
    w.push_bits(0, 9);
    w.push_nulled("e");
    w.push_bits(3, 3);
    w.push_nulled("k");
    w.push_bits(0, 3);
    // The event record: id 0, one 32-bit value.
    w.push_bits(0, 9);
    w.push_bits(1234567, 32);
    let buf = w.finish(32);
    let mut r = BitReader::new(&buf).unwrap();
    let mut info = info_5135();
    let list = demodec::net_svc_messages::SvcGameEventList::parse(&mut r, &mut info).unwrap();
    assert_eq!(list.events, 1);
    assert_eq!(info.game_event_list.len(), 1);
    assert_eq!(info.game_event_list[0].name, "e".to_string());
    assert_eq!(info.game_event_list[0].key_definitions, vec![("k".to_string(), 3u8)]);
    let ev = GameEvent::parse(&mut r, &info).unwrap();
    assert_eq!(ev.key_values.len(), 1);
    assert_eq!(ev.key_values[0].0, "k".to_string());
    assert_eq!(ev.key_values[0].1, GameEventKeyType::Int32(1234567));
}

#[test]
fn game_event_bad_value_tag_fails_decode() {
    let mut w = BitWriter::new();
    w.push_bits(0, 9);
    let buf = w.finish(16);
    let mut r = BitReader::new(&buf).unwrap();
    let mut info = info_5135();
    info.game_event_list.push(GameEventDescriptor {
        event_id: 0,
        name: "bad".to_string(),
        key_definitions: vec![("k".to_string(), 0u8)],
    });
    assert_eq!(GameEvent::parse(&mut r, &info), Err(ParserError::DecodeError));
}

#[test]
fn create_string_table_entry_count_width() {
    // Entry-count width is bit_length(max_entries) + 1... the smallest
    // width whose range holds max_entries: 3 bits for a maximum of 4.
    let mut w = BitWriter::new();
    w.push_nulled("t");
    w.push_bits(4, 16); // max_entries
    w.push_bits(5, 3); // num_entries, 3 bits wide because of the maximum
    w.push_bits(16, 20); // content bit length
    w.push_bits(0, 1); // user data not fixed size
    w.push_bits(1, 1); // flags (network protocol 15, demo protocol 3)
    w.push_bits(0xABCD, 16); // skipped content
    w.push_byte(0x77); // marker
    let buf = w.finish(32);
    let mut r = BitReader::new(&buf).unwrap();
    let info = info_5135();
    let m = SvcCreateStringTable::parse(&mut r, &info).unwrap();
    assert_eq!(m.max_entries, 4);
    assert_eq!(m.num_entries, 5);
    assert_eq!(m.length, 16);
    assert!(!m.user_data_fixed_size);
    assert_eq!(m.user_data_size, None);
    assert_eq!(m.flags, 1);
    // The declared content length was skipped exactly.
    assert_eq!(r.read_bits(8).unwrap(), 0x77);
}

#[test]
fn create_string_table_zero_maximum_fails_decode() {
    let mut w = BitWriter::new();
    w.push_nulled("t");
    w.push_bits(0, 16);
    let buf = w.finish(16);
    let mut r = BitReader::new(&buf).unwrap();
    let info = info_5135();
    assert_eq!(
        SvcCreateStringTable::parse(&mut r, &info).err(),
        Some(ParserError::DecodeError)
    );
}

#[test]
fn voice_data_skips_declared_length_exactly() {
    let mut w = BitWriter::new();
    w.push_byte(2); // client
    w.push_byte(1); // proximity
    w.push_bits(11, 16); // content bit length
    w.push_bits(1, 1); // audible
    w.push_bits(0x7FF, 11); // skipped content
    w.push_byte(0x5A); // marker
    let buf = w.finish(16);
    let mut r = BitReader::new(&buf).unwrap();
    let m = SvcVoiceData::parse(&mut r).unwrap();
    assert_eq!(m.client, 2);
    assert_eq!(m.length, 11);
    assert_eq!(m.audible, vec![true]);
    assert_eq!(r.read_bits(8).unwrap(), 0x5A);
}

#[test]
fn fix_angle_keeps_raw_angle_fields() {
    let mut w = BitWriter::new();
    w.push_bits(1, 1);
    w.push_bits(16384, 16);
    w.push_bits(0, 16);
    w.push_bits(49152, 16); // -16384 as a raw 16-bit field
    let buf = w.finish(16);
    let mut r = BitReader::new(&buf).unwrap();
    let m = SvcFixAngle::parse(&mut r).unwrap();
    assert!(m.relative);
    assert_eq!(m.angle, vec![16384i16, 0, -16384]);
}

#[test]
fn message_loop_stops_within_seven_bits_of_region_end() {
    // One NetTick message (tag 3, then 64 bits) in a 9-byte region:
    // 70 of 72 bits consumed, under 7 remain, the loop stops.
    let mut w = BitWriter::new();
    w.push_bits(3, 6);
    w.push_bits(77, 32); // tick
    w.push_bits(10, 16);
    w.push_bits(20, 16);
    w.push_bits(0, 2); // pad to 9 bytes
    w.push_byte(0xEE); // past the region
    let buf = w.finish(32);
    let mut r = BitReader::new(&buf).unwrap();
    let mut info = info_5135();
    let msgs = parse_net_svc_messages(&mut r, 9, &mut info).unwrap();
    assert_eq!(msgs.len(), 1);
    match &msgs[0] {
        NetSvcMessage::NetTick(t) => {
            assert_eq!(t.tick, 77);
            assert_eq!(t.host_frame_time, 10);
            assert_eq!(t.host_frame_time_std_deviation, 20);
        },
        other => panic!("expected a tick message, got {:?}", other),
    }
}

#[test]
fn message_loop_uses_five_bit_tags_for_the_oldest_protocol() {
    // Network protocol 14 dispatches on 5-bit tags: one set-pause
    // message (tag 11, one payload bit) in a 1-byte region.
    let mut w = BitWriter::new();
    w.push_bits(11, 5);
    w.push_bits(1, 1);
    w.push_bits(0, 2);
    let buf = w.finish(16);
    let mut r = BitReader::new(&buf).unwrap();
    let mut info = DemoInfo {
        net_svc_message_bits: 5,
        net_protocol: 14,
        demo_protocol: 3,
        game: Game::PORTAL_3420,
        game_event_list: Vec::new(),
    };
    let msgs = parse_net_svc_messages(&mut r, 1, &mut info).unwrap();
    assert_eq!(msgs.len(), 1);
    assert!(matches!(&msgs[0], NetSvcMessage::SvcSetPause(p) if p.paused));
}

#[test]
fn message_loop_rejects_unknown_tag() {
    let mut w = BitWriter::new();
    w.push_bits(16, 6); // unassigned tag
    w.push_bits(0, 58);
    let buf = w.finish(16);
    let mut r = BitReader::new(&buf).unwrap();
    let mut info = info_5135();
    assert_eq!(
        parse_net_svc_messages(&mut r, 8, &mut info).err(),
        Some(ParserError::DecodeError)
    );
}

fn info_steampipe() -> DemoInfo {
    DemoInfo {
        net_svc_message_bits: 6,
        net_protocol: 24,
        demo_protocol: 4,
        game: Game::PORTAL_STEAMPIPE,
        game_event_list: Vec::new(),
    }
}

#[test]
fn server_info_reads_checksum_for_older_variants() {
    let mut w = BitWriter::new();
    w.push_bits(14, 16); // protocol
    w.push_bits(2, 32); // server count
    w.push_bits(0, 1); // hltv
    w.push_bits(1, 1); // dedicated
    w.push_bits(0xDEAD, 32); // client checksum
    w.push_bits(48, 16); // max classes
    w.push_bits(0.015f32.to_bits() as u64, 32); // tick interval, raw
    w.push_bits(0xBEEF, 32); // map checksum (non-steampipe)
    w.push_byte(1); // player slot
    w.push_byte(4); // max clients
    w.push_byte(b'l'); // platform
    w.push_nulled("portal");
    w.push_nulled("testchmb");
    w.push_nulled("sky");
    w.push_nulled("host");
    let buf = w.finish(64);
    let mut r = BitReader::new(&buf).unwrap();
    let info = info_5135();
    let m = SvcServerInfo::parse(&mut r, &info).unwrap();
    assert_eq!(m.protocol, 14);
    assert_eq!(m.server_count, 2);
    assert!(!m.is_hltv && m.is_dedicated);
    assert_eq!(m.client_crc, 0xDEAD);
    assert_eq!(m.max_classes, 48);
    assert_eq!(f32::from_bits(m.tick_interval), 0.015);
    assert_eq!(m.map_crc, Some(0xBEEF));
    assert_eq!(m.map_md5, None);
    assert_eq!(m.platform, 'l');
    assert_eq!(m.game_dir, "portal".to_string());
    assert_eq!(m.host_name, "host".to_string());
    assert_eq!(m.has_replay, None);
}

#[test]
fn server_info_reads_hash_and_replay_flag_for_steampipe() {
    let mut w = BitWriter::new();
    w.push_bits(24, 16);
    w.push_bits(1, 32);
    w.push_bits(0, 2);
    w.push_bits(7, 32);
    w.push_bits(10, 16);
    w.push_bits(0, 32);
    for i in 0..16 {
        w.push_byte(i as u8); // 16-byte map hash
    }
    w.push_byte(0);
    w.push_byte(2);
    w.push_byte(b'w');
    w.push_nulled("p2");
    w.push_nulled("map");
    w.push_nulled("s");
    w.push_nulled("h");
    w.push_bits(1, 1); // has replay
    let buf = w.finish(64);
    let mut r = BitReader::new(&buf).unwrap();
    let info = info_steampipe();
    let m = SvcServerInfo::parse(&mut r, &info).unwrap();
    assert_eq!(m.map_crc, None);
    assert_eq!(m.map_md5, Some((0u8..16).collect::<Vec<u8>>()));
    assert_eq!(m.has_replay, Some(true));
}

#[test]
fn update_string_table_default_entry_count() {
    let mut w = BitWriter::new();
    w.push_bits(6, 5); // table id
    w.push_bits(0, 1); // count absent: defaults to 1
    w.push_bits(3, 20); // content bit length
    w.push_bits(0b101, 3); // skipped content
    w.push_byte(0x44);
    let buf = w.finish(16);
    let mut r = BitReader::new(&buf).unwrap();
    let m = SvcUpdateStringTable::parse(&mut r).unwrap();
    assert_eq!(m.table_id, 6);
    assert_eq!(m.num_changed_entries, 1);
    assert_eq!(m.length, 3);
    assert_eq!(r.read_bits(8).unwrap(), 0x44);
}

#[test]
fn sounds_reliable_batch_is_one_sound_with_a_short_length() {
    let mut w = BitWriter::new();
    w.push_bits(1, 1); // reliable
    w.push_bits(12, 8); // 8-bit content length
    w.push_bits(0xFFF, 12); // skipped content
    w.push_byte(0x21);
    let buf = w.finish(16);
    let mut r = BitReader::new(&buf).unwrap();
    let m = SvcSounds::parse(&mut r).unwrap();
    assert!(m.reliable_sounds);
    assert_eq!(m.num_sounds, 1);
    assert_eq!(m.length, 12);
    assert_eq!(r.read_bits(8).unwrap(), 0x21);
}

#[test]
fn sounds_unreliable_batch_has_count_and_full_length() {
    let mut w = BitWriter::new();
    w.push_bits(0, 1);
    w.push_byte(3); // sounds in the batch
    w.push_bits(5, 16); // 16-bit content length
    w.push_bits(0, 5);
    w.push_byte(0x22);
    let buf = w.finish(16);
    let mut r = BitReader::new(&buf).unwrap();
    let m = SvcSounds::parse(&mut r).unwrap();
    assert!(!m.reliable_sounds);
    assert_eq!(m.num_sounds, 3);
    assert_eq!(m.length, 5);
    assert_eq!(r.read_bits(8).unwrap(), 0x22);
}

#[test]
fn voice_init_sample_rate_behind_sentinel_quality() {
    let mut w = BitWriter::new();
    w.push_nulled("vaudio");
    w.push_byte(255);
    w.push_bits(22050, 32);
    let buf = w.finish(32);
    let mut r = BitReader::new(&buf).unwrap();
    let m = SvcVoiceInit::parse(&mut r).unwrap();
    assert_eq!(m.codec, "vaudio".to_string());
    assert_eq!(m.quality, 255);
    assert_eq!(m.sample_rate, Some(22050));

    let mut w2 = BitWriter::new();
    w2.push_nulled("vaudio");
    w2.push_byte(5);
    let buf2 = w2.finish(32);
    let mut r2 = BitReader::new(&buf2).unwrap();
    let m2 = SvcVoiceInit::parse(&mut r2).unwrap();
    assert_eq!(m2.quality, 5);
    assert_eq!(m2.sample_rate, None);
}

#[test]
fn packet_entities_fixed_length_field_off_steampipe() {
    let mut w = BitWriter::new();
    w.push_bits(64, 11); // max entries
    w.push_bits(1, 1); // delta
    w.push_bits(9, 32); // delta from
    w.push_bits(0, 1); // baseline
    w.push_bits(2, 11); // updated entries
    w.push_bits(4, 20); // content bit length, fixed-width field
    w.push_bits(1, 1); // update baseline
    w.push_bits(0xF, 4); // skipped content
    w.push_byte(0x66);
    let buf = w.finish(32);
    let mut r = BitReader::new(&buf).unwrap();
    let info = info_5135();
    let m = SvcPacketEntities::parse(&mut r, &info).unwrap();
    assert_eq!(m.max_entries, 64);
    assert!(m.is_delta);
    assert_eq!(m.delta_from, Some(9));
    assert_eq!(m.updated_entries, 2);
    assert_eq!(m.length, 4);
    assert!(m.update_baseline);
    assert_eq!(r.read_bits(8).unwrap(), 0x66);
}

#[test]
fn packet_entities_varint_length_field_on_steampipe() {
    let mut w = BitWriter::new();
    w.push_bits(8, 11);
    w.push_bits(0, 1); // no delta
    w.push_bits(1, 1); // baseline
    w.push_bits(1, 11);
    w.push_byte(0x82); // varint continuation: 2 + 128 * 1 = 130
    w.push_byte(0x01);
    w.push_bits(0, 1); // update baseline
    w.push_bits(0, 130); // skipped content
    w.push_byte(0x67);
    let buf = w.finish(64);
    let mut r = BitReader::new(&buf).unwrap();
    let info = info_steampipe();
    let m = SvcPacketEntities::parse(&mut r, &info).unwrap();
    assert_eq!(m.delta_from, None);
    assert_eq!(m.length, 130);
    assert_eq!(r.read_bits(8).unwrap(), 0x67);
}

#[test]
fn temp_entities_length_field_width_depends_on_protocol() {
    let mut w = BitWriter::new();
    w.push_byte(2);
    w.push_bits(6, 17); // fixed 17-bit length off steampipe
    w.push_bits(0, 6);
    w.push_byte(0x10);
    let buf = w.finish(16);
    let mut r = BitReader::new(&buf).unwrap();
    let info = info_5135();
    let m = SvcTempEntities::parse(&mut r, &info).unwrap();
    assert_eq!(m.num_entries, 2);
    assert_eq!(m.length, 6);
    assert_eq!(r.read_bits(8).unwrap(), 0x10);

    let mut w2 = BitWriter::new();
    w2.push_byte(2);
    w2.push_byte(0x06); // varint length on steampipe
    w2.push_bits(0, 6);
    w2.push_byte(0x11);
    let buf2 = w2.finish(16);
    let mut r2 = BitReader::new(&buf2).unwrap();
    let sp = info_steampipe();
    let m2 = SvcTempEntities::parse(&mut r2, &sp).unwrap();
    assert_eq!(m2.length, 6);
    assert_eq!(r2.read_bits(8).unwrap(), 0x11);
}

#[test]
fn prefetch_index_width_depends_on_protocol() {
    let mut w = BitWriter::new();
    w.push_bits(5000, 13);
    w.push_byte(0x31);
    let buf = w.finish(16);
    let mut r = BitReader::new(&buf).unwrap();
    let info = info_5135();
    let m = SvcPrefetch::parse(&mut r, &info).unwrap();
    assert_eq!(m.sound_index, 5000);
    assert_eq!(r.read_bits(8).unwrap(), 0x31);

    let mut w2 = BitWriter::new();
    w2.push_bits(9000, 14);
    w2.push_byte(0x32);
    let buf2 = w2.finish(16);
    let mut r2 = BitReader::new(&buf2).unwrap();
    let sp = info_steampipe();
    let m2 = SvcPrefetch::parse(&mut r2, &sp).unwrap();
    assert_eq!(m2.sound_index, 9000);
    assert_eq!(r2.read_bits(8).unwrap(), 0x32);
}

#[test]
fn class_info_reads_declared_classes() {
    let mut w = BitWriter::new();
    w.push_bits(2, 16); // two classes
    w.push_bits(0, 1); // not created on the client
    w.push_bits(1, 32);
    w.push_nulled("CWorld");
    w.push_nulled("DT_World");
    w.push_bits(2, 32);
    w.push_nulled("CDoor");
    w.push_nulled("DT_Door");
    let buf = w.finish(64);
    let mut r = BitReader::new(&buf).unwrap();
    let m = SvcClassInfo::parse(&mut r).unwrap();
    assert_eq!(m.length, 2);
    assert!(!m.create_on_client);
    assert_eq!(m.server_classes.len(), 2);
    assert_eq!(m.server_classes[0].class_id, 1);
    assert_eq!(m.server_classes[0].class_name, "CWorld".to_string());
    assert_eq!(m.server_classes[1].data_table_name, "DT_Door".to_string());
}

#[test]
fn set_convar_reads_declared_pairs() {
    let mut w = BitWriter::new();
    w.push_byte(2);
    w.push_nulled("sv_cheats");
    w.push_nulled("1");
    w.push_nulled("host_timescale");
    w.push_nulled("0.5");
    let buf = w.finish(64);
    let mut r = BitReader::new(&buf).unwrap();
    let m = NetSetConVar::parse(&mut r).unwrap();
    assert_eq!(m.length, 2);
    assert_eq!(m.convars[0], ("sv_cheats".to_string(), "1".to_string()));
    assert_eq!(m.convars[1], ("host_timescale".to_string(), "0.5".to_string()));
}

#[test]
fn menu_skips_declared_length_exactly() {
    let mut w = BitWriter::new();
    w.push_bits(2, 16); // menu kind
    w.push_bits(9, 32); // content bit length
    w.push_bits(0x1FF, 9); // skipped content
    w.push_byte(0x42); // marker right after the region
    let buf = w.finish(16);
    let mut r = BitReader::new(&buf).unwrap();
    let m = SvcMenu::parse(&mut r).unwrap();
    assert_eq!(m.menu_type, 2);
    assert_eq!(m.length, 9);
    assert_eq!(r.read_bits(8).unwrap(), 0x42);
}

#[test]
fn user_message_skips_declared_length() {
    let mut w = BitWriter::new();
    w.push_byte(9); // kind
    w.push_bits(5, 11); // content bit length
    w.push_bits(0b10101, 5); // skipped content
    w.push_byte(0x33);
    let buf = w.finish(16);
    let mut r = BitReader::new(&buf).unwrap();
    let m = SvcUserMessage::parse(&mut r).unwrap();
    assert_eq!(m.type_, 9);
    assert_eq!(m.length, 5);
    assert_eq!(r.read_bits(8).unwrap(), 0x33);
}
