//! The embedded message kinds carried inside sign-on and ordinary packet
//! payloads. Messages are usually not byte-aligned; each is decoded at
//! the bit cursor, and every kind whose content is not modeled skips
//! exactly its declared length so the surrounding region stays aligned.

use vstd::prelude::*;
use vstd::utf8::{decode_utf8, valid_utf8};
use crate::bits::{bits_val, as_i16, as_i32, nul_scan, str_scan, stream_bytes,
    var_int_size, var_int_val, bit_width};
use crate::demo::{DemoInfo, Game};
use crate::error::ParserError;
use crate::game_event::{GameEvent, GameEventDescriptor};
use crate::reader::{BitReader, VectorCoord, coord_value, coords_width};
use crate::utils::log2_of_x_plus_one;

verus! {

/// A console variable assignment: name and value.
pub type ConVar = (String, String);

/// One server class entry of a class-info message.
#[derive(Debug, Clone, PartialEq, Eq)]
pub struct ServerClass {
    pub class_id: i32,
    pub class_name: String,
    pub data_table_name: String,
}

/// The closed union of embedded message kinds, dispatched by a leading
/// tag whose bit width the protocol profile fixes.
#[derive(Debug)]
pub enum NetSvcMessage {
    NetNop,
    NetDisconnect(NetDisconnect),
    NetFile(NetFile),
    NetTick(NetTick),
    NetStringCmd(NetStringCmd),
    NetSetConVar(NetSetConVar),
    NetSignonState(NetSignonState),
    SvcServerInfo(SvcServerInfo),
    SvcSendTable(SvcSendTable),
    SvcClassInfo(SvcClassInfo),
    SvcSetPause(SvcSetPause),
    SvcCreateStringTable(SvcCreateStringTable),
    SvcUpdateStringTable(SvcUpdateStringTable),
    SvcVoiceInit(SvcVoiceInit),
    SvcVoiceData(SvcVoiceData),
    SvcPrint(SvcPrint),
    SvcSounds(SvcSounds),
    SvcSetView(SvcSetView),
    SvcFixAngle(SvcFixAngle),
    SvcCrosshairAngle(SvcCrosshairAngle),
    SvcBspDecal(SvcBspDecal),
    SvcSplitScreen(SvcSplitScreen),
    SvcUserMessage(SvcUserMessage),
    SvcEntityMessage(SvcEntityMessage),
    SvcGameEvent(SvcGameEvent),
    SvcPacketEntities(SvcPacketEntities),
    SvcTempEntities(SvcTempEntities),
    SvcPrefetch(SvcPrefetch),
    SvcMenu(SvcMenu),
    SvcGameEventList(SvcGameEventList),
    SvcGetCvarValue(SvcGetCvarValue),
    SvcCmdKeyValues(SvcCmdKeyValues),
}

/// A disconnect notice with its reason text.
#[derive(Debug, Clone, PartialEq, Eq)]
pub struct NetDisconnect {
    pub data: String,
}

/// A file transfer request or acknowledgement.
#[derive(Debug, Clone, PartialEq, Eq)]
pub struct NetFile {
    pub transfer_id: i32,
    pub file_name: String,
    pub file_requested: bool,
}

/// A server tick marker; the frame-time fields are scaled fixed-point
/// values kept raw.
#[derive(Debug, Clone, Copy, PartialEq, Eq, Structural)]
pub struct NetTick {
    pub tick: i32,
    pub host_frame_time: i16,
    pub host_frame_time_std_deviation: i16,
}

/// A command string forwarded to the other side.
#[derive(Debug, Clone, PartialEq, Eq)]
pub struct NetStringCmd {
    pub cmd: String,
}

/// A batch of console variable assignments.
#[derive(Debug, Clone, PartialEq, Eq)]
pub struct NetSetConVar {
    pub length: u8,
    pub convars: Vec<ConVar>,
}

/// A sign-on state change.
#[derive(Debug, Clone, Copy, PartialEq, Eq, Structural)]
pub struct NetSignonState {
    pub signon_state: u8,
    pub spawn_count: i32,
}

/// Server session parameters. `tick_interval` keeps the raw IEEE 754
/// bits of its 32-bit float field. Exactly one of `map_crc` (other
/// variants) and `map_md5` (the steampipe variant) is present, and
/// `has_replay` only exists for the steampipe variant.
#[derive(Debug, Clone, PartialEq, Eq)]
pub struct SvcServerInfo {
    pub protocol: i16,
    pub server_count: i32,
    pub is_hltv: bool,
    pub is_dedicated: bool,
    pub client_crc: i32,
    pub max_classes: i16,
    pub tick_interval: u32,
    pub map_crc: Option<i32>,
    pub map_md5: Option<Vec<u8>>,
    pub player_slot: u8,
    pub max_clients: u8,
    pub platform: char,
    pub game_dir: String,
    pub map_name: String,
    pub sky_name: String,
    pub host_name: String,
    pub has_replay: Option<bool>,
}

/// A send-table marker.
#[derive(Debug, Clone, Copy, PartialEq, Eq, Structural)]
pub struct SvcSendTable {
    pub needs_decoder: bool,
    pub length: u8,
    pub props: i32,
}

/// Server class declarations; the list is present only when the client
/// is not asked to create them itself.
#[derive(Debug, Clone, PartialEq, Eq)]
pub struct SvcClassInfo {
    pub length: i16,
    pub create_on_client: bool,
    pub server_classes: Vec<ServerClass>,
}

/// A pause state change.
#[derive(Debug, Clone, Copy, PartialEq, Eq, Structural)]
pub struct SvcSetPause {
    pub paused: bool,
}

/// A string table creation: header fields, then a content region of the
/// declared bit length that is skipped, not interpreted.
#[derive(Debug, Clone, PartialEq, Eq)]
pub struct SvcCreateStringTable {
    pub name: String,
    pub max_entries: i16,
    pub num_entries: i32,
    pub length: i32,
    pub user_data_fixed_size: bool,
    pub user_data_size: Option<i16>,
    pub user_data_size_bits: Option<u8>,
    pub flags: u8,
}

/// A string table update: header fields, then a skipped content region
/// of the declared bit length.
#[derive(Debug, Clone, Copy, PartialEq, Eq, Structural)]
pub struct SvcUpdateStringTable {
    pub table_id: u8,
    pub num_changed_entries: i32,
    pub length: i32,
}

/// Voice codec initialization; a sample rate follows only when the
/// quality byte is the sentinel 255.
#[derive(Debug, Clone, PartialEq, Eq)]
pub struct SvcVoiceInit {
    pub codec: String,
    pub quality: u8,
    pub sample_rate: Option<i32>,
}

/// A voice data fragment: header fields, then a skipped content region
/// of the declared bit length.
#[derive(Debug, Clone, PartialEq, Eq)]
pub struct SvcVoiceData {
    pub client: u8,
    pub proximity: u8,
    pub length: i16,
    pub audible: Vec<bool>,
}

/// A text message printed on the client.
#[derive(Debug, Clone, PartialEq, Eq)]
pub struct SvcPrint {
    pub message: String,
}

/// A sound batch: header fields, then a skipped content region of the
/// declared bit length.
#[derive(Debug, Clone, Copy, PartialEq, Eq, Structural)]
pub struct SvcSounds {
    pub reliable_sounds: bool,
    pub num_sounds: u8,
    pub length: i16,
}

/// A view entity change.
#[derive(Debug, Clone, Copy, PartialEq, Eq, Structural)]
pub struct SvcSetView {
    pub ent_index: i16,
}

/// A forced view angle change; the three axis values are raw 16-bit
/// angle fields (degrees times 65536 over 360).
#[derive(Debug, Clone, PartialEq, Eq)]
pub struct SvcFixAngle {
    pub relative: bool,
    pub angle: Vec<i16>,
}

/// A crosshair angle change; raw 16-bit angle fields as in
/// [`SvcFixAngle`].
#[derive(Debug, Clone, PartialEq, Eq)]
pub struct SvcCrosshairAngle {
    pub angle: Vec<i16>,
}

/// A decal placement: three optional coordinates, texture and optional
/// entity/model indices.
#[derive(Debug, Clone, PartialEq, Eq)]
pub struct SvcBspDecal {
    pub pos: Vec<Option<VectorCoord>>,
    pub decal_texture_index: i16,
    pub entity_index: Option<i16>,
    pub model_index: Option<i16>,
    pub low_priority: bool,
}

/// A split-screen notice: a kind bit and a skipped content region of the
/// declared bit length.
#[derive(Debug, Clone, Copy, PartialEq, Eq, Structural)]
pub struct SvcSplitScreen {
    pub type_: bool,
    pub length: i16,
}

/// A user message: its kind byte and a skipped content region of the
/// declared bit length.
#[derive(Debug, Clone, Copy, PartialEq, Eq, Structural)]
pub struct SvcUserMessage {
    pub type_: u8,
    pub length: i16,
}

/// An entity message: indices and a skipped content region of the
/// declared bit length.
#[derive(Debug, Clone, Copy, PartialEq, Eq, Structural)]
pub struct SvcEntityMessage {
    pub entity_index: i16,
    pub class_id: i16,
    pub length: i16,
}

/// A game event record: a declared length field and the event decoded
/// through the schema registry.
#[derive(Debug, Clone, PartialEq, Eq)]
pub struct SvcGameEvent {
    pub length: i16,
    pub data: GameEvent,
}

/// An entity state update: header fields, then a skipped content region
/// of the declared bit length.
#[derive(Debug, Clone, Copy, PartialEq, Eq, Structural)]
pub struct SvcPacketEntities {
    pub max_entries: i16,
    pub is_delta: bool,
    pub delta_from: Option<i32>,
    pub base_line: bool,
    pub updated_entries: i16,
    pub length: i32,
    pub update_baseline: bool,
}

/// A temporary entities batch: an entry count and a skipped content
/// region of the declared bit length.
#[derive(Debug, Clone, Copy, PartialEq, Eq, Structural)]
pub struct SvcTempEntities {
    pub num_entries: u8,
    pub length: i32,
}

/// A sound prefetch notice; the index field is one bit wider for the
/// steampipe network protocol.
#[derive(Debug, Clone, Copy, PartialEq, Eq, Structural)]
pub struct SvcPrefetch {
    pub sound_index: i16,
}

/// A menu message header; its content region is left at the cursor, as
/// the legacy grammar does.
#[derive(Debug, Clone, Copy, PartialEq, Eq, Structural)]
pub struct SvcMenu {
    pub menu_type: i16,
    pub length: i32,
}

/// The schema-defining message: the descriptors it carries replace the
/// session's event schema registry wholesale.
#[derive(Debug, Clone, PartialEq, Eq)]
pub struct SvcGameEventList {
    pub events: i16,
    pub length: i32,
    pub descriptor_list: Vec<GameEventDescriptor>,
}

/// A console variable value query.
#[derive(Debug, Clone, PartialEq, Eq)]
pub struct SvcGetCvarValue {
    pub cookie: String,
    pub cvar_name: String,
}

/// A command key-values blob: a declared bit length whose content is
/// skipped, not interpreted.
#[derive(Debug, Clone, Copy, PartialEq, Eq, Structural)]
pub struct SvcCmdKeyValues {
    pub length: i32,
}

impl NetDisconnect {
    /// Decodes a nul-terminated reason string.
    #[verifier::rlimit(100)]
    pub fn parse(r: &mut BitReader) -> (res: Result<NetDisconnect, ParserError>)
        requires
            old(r).wf(),
        ensures
            final(r).bits == old(r).bits,
            final(r).bit_size == old(r).bit_size,
            final(r).wf(),
            final(r).current >= old(r).current,
            res is Ok <==> (nul_scan(
                old(r).bits@,
                old(r).current as nat,
                old(r).bit_size as nat,
            ) matches Some(k) && valid_utf8(stream_bytes(old(r).bits@, old(r).current as nat, k))),
            (res matches Ok(m) ==> (nul_scan(
                old(r).bits@,
                old(r).current as nat,
                old(r).bit_size as nat,
            ) matches Some(k) && m.data@ == decode_utf8(
                stream_bytes(old(r).bits@, old(r).current as nat, k),
            ) && final(r).current == old(r).current + 8 * (k + 1))),
    {
        let data = r.read_ascii_string_nulled()?;
        Ok(NetDisconnect { data })
    }
}

impl NetFile {
    /// Decodes a 32-bit transfer id, a nul-terminated file name and a
    /// request flag bit.
    #[verifier::rlimit(100)]
    pub fn parse(r: &mut BitReader) -> (res: Result<NetFile, ParserError>)
        requires
            old(r).wf(),
        ensures
            final(r).bits == old(r).bits,
            final(r).bit_size == old(r).bit_size,
            final(r).wf(),
            final(r).current >= old(r).current,
            res is Ok <==> (old(r).current + 32 <= old(r).bit_size && (nul_scan(
                old(r).bits@,
                (old(r).current + 32) as nat,
                old(r).bit_size as nat,
            ) matches Some(k) && valid_utf8(
                stream_bytes(old(r).bits@, (old(r).current + 32) as nat, k),
            ) && old(r).current + 33 + 8 * (k + 1) <= old(r).bit_size)),
            (res matches Ok(m) ==> ({
                let data = old(r).bits@;
                let start = old(r).current as nat;
                &&& m.transfer_id as int == as_i32(bits_val(data, start, 32))
                &&& (nul_scan(data, (start + 32) as nat, old(r).bit_size as nat) matches Some(k)
                    && m.file_name@ == decode_utf8(stream_bytes(data, (start + 32) as nat, k))
                    && m.file_requested == (bits_val(data, (start + 32 + 8 * (k + 1)) as nat, 1)
                    == 1) && final(r).current == old(r).current + 33 + 8 * (k + 1))
            })),
    {
        let transfer_id = r.read_int(32)?;
        let file_name = r.read_ascii_string_nulled()?;
        let file_requested = r.read_bool()?;
        Ok(NetFile { transfer_id, file_name, file_requested })
    }
}

impl NetTick {
    /// Decodes a 32-bit tick and two raw 16-bit frame-time fields.
    #[verifier::rlimit(100)]
    pub fn parse(r: &mut BitReader) -> (res: Result<NetTick, ParserError>)
        requires
            old(r).wf(),
        ensures
            final(r).bits == old(r).bits,
            final(r).bit_size == old(r).bit_size,
            final(r).wf(),
            final(r).current >= old(r).current,
            res is Ok <==> old(r).current + 64 <= old(r).bit_size,
            (res matches Ok(m) ==> ({
                let data = old(r).bits@;
                let start = old(r).current as nat;
                &&& m.tick as int == as_i32(bits_val(data, start, 32))
                &&& m.host_frame_time as int == as_i16(bits_val(data, (start + 32) as nat, 16))
                &&& m.host_frame_time_std_deviation as int == as_i16(
                    bits_val(data, (start + 48) as nat, 16),
                )
                &&& final(r).current == old(r).current + 64
            })),
            res is Err ==> res == Err::<NetTick, ParserError>(ParserError::ReaderOutOfBounds),
    {
        let tick = r.read_int(32)?;
        let host_frame_time = r.read_short(16)?;
        let host_frame_time_std_deviation = r.read_short(16)?;
        Ok(NetTick { tick, host_frame_time, host_frame_time_std_deviation })
    }
}

impl NetStringCmd {
    /// Decodes a nul-terminated command string.
    #[verifier::rlimit(100)]
    pub fn parse(r: &mut BitReader) -> (res: Result<NetStringCmd, ParserError>)
        requires
            old(r).wf(),
        ensures
            final(r).bits == old(r).bits,
            final(r).bit_size == old(r).bit_size,
            final(r).wf(),
            final(r).current >= old(r).current,
            res is Ok <==> (nul_scan(
                old(r).bits@,
                old(r).current as nat,
                old(r).bit_size as nat,
            ) matches Some(k) && valid_utf8(stream_bytes(old(r).bits@, old(r).current as nat, k))),
            (res matches Ok(m) ==> (nul_scan(
                old(r).bits@,
                old(r).current as nat,
                old(r).bit_size as nat,
            ) matches Some(k) && m.cmd@ == decode_utf8(
                stream_bytes(old(r).bits@, old(r).current as nat, k),
            ) && final(r).current == old(r).current + 8 * (k + 1))),
    {
        let cmd = r.read_ascii_string_nulled()?;
        Ok(NetStringCmd { cmd })
    }
}

/// The console variable pairs as character sequences.
pub open spec fn convars_view(s: Seq<(String, String)>) -> Seq<(Seq<char>, Seq<char>)> {
    s.map_values(|c: (String, String)| (c.0@, c.1@))
}

/// Scans `n` console variable assignments at bit position `p`: each is a
/// nul-terminated UTF-8 name and value. `Some` carries the pairs in
/// stream order and the bit position just past the last one.
pub open spec fn convar_chain(data: Seq<u8>, p: nat, bitlen: nat, n: nat) -> Option<
    (Seq<(Seq<char>, Seq<char>)>, nat),
>
    decreases n,
{
    if n == 0 {
        Some((Seq::<(Seq<char>, Seq<char>)>::empty(), p))
    } else {
        match str_scan(data, p, bitlen) {
            Some(sc) => match str_scan(data, sc.1, bitlen) {
                Some(sc2) => match convar_chain(data, sc2.1, bitlen, (n - 1) as nat) {
                    Some(ch) => Some((seq![(sc.0, sc2.0)] + ch.0, ch.1)),
                    None => None,
                },
                None => None,
            },
            None => None,
        }
    }
}

impl NetSetConVar {
    /// Decodes a count byte, then that many name/value string pairs, in
    /// stream order.
    #[verifier::rlimit(100)]
    #[verifier::loop_isolation(false)]
    pub fn parse(r: &mut BitReader) -> (res: Result<NetSetConVar, ParserError>)
        requires
            old(r).wf(),
        ensures
            final(r).bits == old(r).bits,
            final(r).bit_size == old(r).bit_size,
            final(r).wf(),
            final(r).current >= old(r).current,
            res is Ok <==> (old(r).current + 8 <= old(r).bit_size && convar_chain(
                old(r).bits@,
                (old(r).current + 8) as nat,
                old(r).bit_size as nat,
                bits_val(old(r).bits@, old(r).current as nat, 8),
            ) is Some),
            (res matches Ok(m) ==> ({
                &&& m.length as nat == bits_val(old(r).bits@, old(r).current as nat, 8)
                &&& m.convars@.len() == m.length as nat
                &&& (convar_chain(
                    old(r).bits@,
                    (old(r).current + 8) as nat,
                    old(r).bit_size as nat,
                    m.length as nat,
                ) matches Some(ch) && ({
                    &&& (forall|j: int|
                        0 <= j < ch.0.len() ==> ((#[trigger] m.convars@[j]).0@ == ch.0[j].0
                            && m.convars@[j].1@ == ch.0[j].1))
                    &&& final(r).current as nat == ch.1
                }))
            })),
    {
        let ghost data = r.bits@;
        let ghost bitlen = r.bit_size as nat;
        let length = r.read_byte(8)?;
        let ghost p0 = r.current as nat;
        let mut convars: Vec<ConVar> = Vec::new();
        let mut i: u8 = 0;
        proof {
            assert(convars_view(convars@) =~= Seq::<(Seq<char>, Seq<char>)>::empty());
            if convar_chain(data, p0, bitlen, length as nat) is Some {
                let ch0 = convar_chain(data, p0, bitlen, length as nat)->Some_0;
                assert(convars_view(convars@) + ch0.0 =~= ch0.0);
            }
        }
        while i < length
            invariant
                r.wf(),
                r.bits == old(r).bits,
                r.bit_size == old(r).bit_size,
                r.current >= old(r).current,
                i <= length,
                convars@.len() == i as nat,
                (match convar_chain(data, r.current as nat, bitlen, (length - i) as nat) {
                    Some(ch) => convar_chain(data, p0, bitlen, length as nat) == Some(
                        (convars_view(convars@) + ch.0, ch.1),
                    ),
                    None => convar_chain(data, p0, bitlen, length as nat) is None,
                }),
            decreases length - i,
        {
            let ghost cur0 = r.current as nat;
            let name = match r.read_ascii_string_nulled() {
                Ok(v) => v,
                Err(e) => {
                    proof {
                        assert(convar_chain(data, cur0, bitlen, (length - i) as nat) is None);
                    }
                    return Err(e);
                },
            };
            let ghost kn = name@;
            let ghost mid = r.current as nat;
            proof {
                assert(str_scan(data, cur0, bitlen) == Some((kn, mid)));
            }
            let value = match r.read_ascii_string_nulled() {
                Ok(v) => v,
                Err(e) => {
                    proof {
                        assert(str_scan(data, mid, bitlen) is None);
                        assert(convar_chain(data, cur0, bitlen, (length - i) as nat) is None);
                    }
                    return Err(e);
                },
            };
            let ghost vl = value@;
            proof {
                assert(str_scan(data, mid, bitlen) == Some((vl, r.current as nat)));
            }
            let ghost old_view = convars_view(convars@);
            convars.push((name, value));
            proof {
                assert(convars_view(convars@) =~= old_view + seq![(kn, vl)]);
                if convar_chain(data, r.current as nat, bitlen, (length - i - 1) as nat)
                    is Some {
                    let ch2 = convar_chain(
                        data,
                        r.current as nat,
                        bitlen,
                        (length - i - 1) as nat,
                    )->Some_0;
                    assert(convar_chain(data, cur0, bitlen, (length - i) as nat) == Some(
                        (seq![(kn, vl)] + ch2.0, ch2.1),
                    ));
                    assert(old_view + (seq![(kn, vl)] + ch2.0) =~= (old_view + seq![(kn, vl)])
                        + ch2.0);
                } else {
                    assert(convar_chain(data, cur0, bitlen, (length - i) as nat) is None);
                }
            }
            i = i + 1;
        }
        proof {
            assert(convar_chain(data, r.current as nat, bitlen, 0) == Some(
                (Seq::<(Seq<char>, Seq<char>)>::empty(), r.current as nat),
            ));
            assert(convars_view(convars@) + Seq::<(Seq<char>, Seq<char>)>::empty()
                =~= convars_view(convars@));
        }
        Ok(NetSetConVar { length, convars })
    }
}

impl NetSignonState {
    /// Decodes a state byte and a 32-bit spawn count.
    #[verifier::rlimit(100)]
    pub fn parse(r: &mut BitReader) -> (res: Result<NetSignonState, ParserError>)
        requires
            old(r).wf(),
        ensures
            final(r).bits == old(r).bits,
            final(r).bit_size == old(r).bit_size,
            final(r).wf(),
            final(r).current >= old(r).current,
            res is Ok <==> old(r).current + 40 <= old(r).bit_size,
            (res matches Ok(m) ==> ({
                let data = old(r).bits@;
                let start = old(r).current as nat;
                &&& m.signon_state as nat == bits_val(data, start, 8)
                &&& m.spawn_count as int == as_i32(bits_val(data, (start + 8) as nat, 32))
                &&& final(r).current == old(r).current + 40
            })),
            res is Err ==> res == Err::<NetSignonState, ParserError>(
                ParserError::ReaderOutOfBounds,
            ),
    {
        let signon_state = r.read_byte(8)?;
        let spawn_count = r.read_int(32)?;
        Ok(NetSignonState { signon_state, spawn_count })
    }
}

impl SvcSendTable {
    /// Decodes a decoder flag bit, a length byte and a 32-bit props
    /// field.
    #[verifier::rlimit(100)]
    pub fn parse(r: &mut BitReader) -> (res: Result<SvcSendTable, ParserError>)
        requires
            old(r).wf(),
        ensures
            final(r).bits == old(r).bits,
            final(r).bit_size == old(r).bit_size,
            final(r).wf(),
            final(r).current >= old(r).current,
            res is Ok <==> old(r).current + 41 <= old(r).bit_size,
            (res matches Ok(m) ==> ({
                let data = old(r).bits@;
                let start = old(r).current as nat;
                &&& m.needs_decoder == (bits_val(data, start, 1) == 1)
                &&& m.length as nat == bits_val(data, (start + 1) as nat, 8)
                &&& m.props as int == as_i32(bits_val(data, (start + 9) as nat, 32))
                &&& final(r).current == old(r).current + 41
            })),
            res is Err ==> res == Err::<SvcSendTable, ParserError>(ParserError::ReaderOutOfBounds),
    {
        let needs_decoder = r.read_bool()?;
        let length = r.read_byte(8)?;
        let props = r.read_int(32)?;
        Ok(SvcSendTable { needs_decoder, length, props })
    }
}

impl SvcSetPause {
    /// Decodes the pause flag bit.
    #[verifier::rlimit(100)]
    pub fn parse(r: &mut BitReader) -> (res: Result<SvcSetPause, ParserError>)
        requires
            old(r).wf(),
        ensures
            final(r).bits == old(r).bits,
            final(r).bit_size == old(r).bit_size,
            final(r).wf(),
            final(r).current >= old(r).current,
            res is Ok <==> old(r).current + 1 <= old(r).bit_size,
            (res matches Ok(m) ==> ({
                &&& m.paused == (bits_val(old(r).bits@, old(r).current as nat, 1) == 1)
                &&& final(r).current == old(r).current + 1
            })),
            res is Err ==> res == Err::<SvcSetPause, ParserError>(ParserError::ReaderOutOfBounds),
    {
        let paused = r.read_bool()?;
        Ok(SvcSetPause { paused })
    }
}

impl SvcSetView {
    /// Decodes an 11-bit view entity index.
    #[verifier::rlimit(100)]
    pub fn parse(r: &mut BitReader) -> (res: Result<SvcSetView, ParserError>)
        requires
            old(r).wf(),
        ensures
            final(r).bits == old(r).bits,
            final(r).bit_size == old(r).bit_size,
            final(r).wf(),
            final(r).current >= old(r).current,
            res is Ok <==> old(r).current + 11 <= old(r).bit_size,
            (res matches Ok(m) ==> ({
                &&& m.ent_index as int == as_i16(bits_val(old(r).bits@, old(r).current as nat, 11))
                &&& final(r).current == old(r).current + 11
            })),
            res is Err ==> res == Err::<SvcSetView, ParserError>(ParserError::ReaderOutOfBounds),
    {
        let ent_index = r.read_short(11)?;
        Ok(SvcSetView { ent_index })
    }
}

impl SvcFixAngle {
    /// Decodes a relative flag bit and three raw 16-bit angle fields.
    #[verifier::rlimit(100)]
    pub fn parse(r: &mut BitReader) -> (res: Result<SvcFixAngle, ParserError>)
        requires
            old(r).wf(),
        ensures
            final(r).bits == old(r).bits,
            final(r).bit_size == old(r).bit_size,
            final(r).wf(),
            final(r).current >= old(r).current,
            res is Ok <==> old(r).current + 49 <= old(r).bit_size,
            (res matches Ok(m) ==> ({
                let data = old(r).bits@;
                let start = old(r).current as nat;
                &&& m.relative == (bits_val(data, start, 1) == 1)
                &&& m.angle@.len() == 3
                &&& m.angle@[0] as int == as_i16(bits_val(data, (start + 1) as nat, 16))
                &&& m.angle@[1] as int == as_i16(bits_val(data, (start + 17) as nat, 16))
                &&& m.angle@[2] as int == as_i16(bits_val(data, (start + 33) as nat, 16))
                &&& final(r).current == old(r).current + 49
            })),
            res is Err ==> res == Err::<SvcFixAngle, ParserError>(ParserError::ReaderOutOfBounds),
    {
        let relative = r.read_bool()?;
        let mut angle: Vec<i16> = Vec::new();
        angle.push(r.read_short(16)?);
        angle.push(r.read_short(16)?);
        angle.push(r.read_short(16)?);
        Ok(SvcFixAngle { relative, angle })
    }
}

impl SvcCrosshairAngle {
    /// Decodes three raw 16-bit angle fields.
    #[verifier::rlimit(100)]
    pub fn parse(r: &mut BitReader) -> (res: Result<SvcCrosshairAngle, ParserError>)
        requires
            old(r).wf(),
        ensures
            final(r).bits == old(r).bits,
            final(r).bit_size == old(r).bit_size,
            final(r).wf(),
            final(r).current >= old(r).current,
            res is Ok <==> old(r).current + 48 <= old(r).bit_size,
            (res matches Ok(m) ==> ({
                let data = old(r).bits@;
                let start = old(r).current as nat;
                &&& m.angle@.len() == 3
                &&& m.angle@[0] as int == as_i16(bits_val(data, start, 16))
                &&& m.angle@[1] as int == as_i16(bits_val(data, (start + 16) as nat, 16))
                &&& m.angle@[2] as int == as_i16(bits_val(data, (start + 32) as nat, 16))
                &&& final(r).current == old(r).current + 48
            })),
            res is Err ==> res == Err::<SvcCrosshairAngle, ParserError>(
                ParserError::ReaderOutOfBounds,
            ),
    {
        let mut angle: Vec<i16> = Vec::new();
        angle.push(r.read_short(16)?);
        angle.push(r.read_short(16)?);
        angle.push(r.read_short(16)?);
        Ok(SvcCrosshairAngle { angle })
    }
}

impl SvcPrint {
    /// Decodes a nul-terminated message string.
    #[verifier::rlimit(100)]
    pub fn parse(r: &mut BitReader) -> (res: Result<SvcPrint, ParserError>)
        requires
            old(r).wf(),
        ensures
            final(r).bits == old(r).bits,
            final(r).bit_size == old(r).bit_size,
            final(r).wf(),
            final(r).current >= old(r).current,
            res is Ok <==> (nul_scan(
                old(r).bits@,
                old(r).current as nat,
                old(r).bit_size as nat,
            ) matches Some(k) && valid_utf8(stream_bytes(old(r).bits@, old(r).current as nat, k))),
            (res matches Ok(m) ==> (nul_scan(
                old(r).bits@,
                old(r).current as nat,
                old(r).bit_size as nat,
            ) matches Some(k) && m.message@ == decode_utf8(
                stream_bytes(old(r).bits@, old(r).current as nat, k),
            ) && final(r).current == old(r).current + 8 * (k + 1))),
    {
        let message = r.read_ascii_string_nulled()?;
        Ok(SvcPrint { message })
    }
}

impl SvcMenu {
    /// Decodes a 16-bit menu kind and a 32-bit bit length, then skips
    /// exactly the declared content length, so the surrounding region
    /// stays aligned like every other declared-length variant.
    #[verifier::rlimit(100)]
    pub fn parse(r: &mut BitReader) -> (res: Result<SvcMenu, ParserError>)
        requires
            old(r).wf(),
        ensures
            final(r).bits == old(r).bits,
            final(r).bit_size == old(r).bit_size,
            final(r).wf(),
            final(r).current >= old(r).current,
            ({
                let l = as_i32(bits_val(old(r).bits@, (old(r).current + 16) as nat, 32));
                &&& (res is Ok <==> (old(r).current + 48 <= old(r).bit_size && l >= 0 && old(
                    r,
                ).current + 48 + l <= old(r).bit_size))
                &&& (res matches Ok(m) ==> ({
                    &&& m.menu_type as int == as_i16(
                        bits_val(old(r).bits@, old(r).current as nat, 16),
                    )
                    &&& m.length as int == l
                    &&& final(r).current as nat == old(r).current + 48 + l
                }))
            }),
            res is Err ==> res == Err::<SvcMenu, ParserError>(ParserError::ReaderOutOfBounds),
    {
        let menu_type = r.read_short(16)?;
        let length = r.read_int(32)?;
        if length < 0 {
            return Err(ParserError::ReaderOutOfBounds);
        }
        r.skip(length as usize)?;
        Ok(SvcMenu { menu_type, length })
    }
}

impl SvcPrefetch {
    /// Decodes a sound index of 14 bits on the steampipe network protocol
    /// and 13 bits otherwise.
    #[verifier::rlimit(100)]
    pub fn parse(r: &mut BitReader, info: &DemoInfo) -> (res: Result<SvcPrefetch, ParserError>)
        requires
            old(r).wf(),
        ensures
            final(r).bits == old(r).bits,
            final(r).bit_size == old(r).bit_size,
            final(r).wf(),
            final(r).current >= old(r).current,
            ({
                let w: nat = if info.net_protocol == 24 {
                    14
                } else {
                    13
                };
                &&& (res is Ok <==> old(r).current + w <= old(r).bit_size)
                &&& (res matches Ok(m) ==> ({
                    &&& m.sound_index as int == as_i16(
                        bits_val(old(r).bits@, old(r).current as nat, w),
                    )
                    &&& final(r).current == old(r).current + w
                }))
            }),
            res is Err ==> res == Err::<SvcPrefetch, ParserError>(ParserError::ReaderOutOfBounds),
    {
        let sound_index = if info.net_protocol == 24 {
            r.read_short(14)?
        } else {
            r.read_short(13)?
        };
        Ok(SvcPrefetch { sound_index })
    }
}

impl SvcCmdKeyValues {
    /// Decodes a 32-bit bit length, then skips exactly that many content
    /// bits so the surrounding region stays aligned.
    #[verifier::rlimit(100)]
    pub fn parse(r: &mut BitReader) -> (res: Result<SvcCmdKeyValues, ParserError>)
        requires
            old(r).wf(),
        ensures
            final(r).bits == old(r).bits,
            final(r).bit_size == old(r).bit_size,
            final(r).wf(),
            final(r).current >= old(r).current,
            ({
                let l = as_i32(bits_val(old(r).bits@, old(r).current as nat, 32));
                &&& (res is Ok <==> (old(r).current + 32 <= old(r).bit_size && l >= 0 && old(
                    r,
                ).current + 32 + l <= old(r).bit_size))
                &&& (res matches Ok(m) ==> (m.length as int == l && final(r).current == old(
                    r,
                ).current + 32 + l))
            }),
            res is Err ==> res == Err::<SvcCmdKeyValues, ParserError>(
                ParserError::ReaderOutOfBounds,
            ),
    {
        let length = r.read_int(32)?;
        if length < 0 {
            return Err(ParserError::ReaderOutOfBounds);
        }
        r.skip(length as usize)?;
        Ok(SvcCmdKeyValues { length })
    }
}

impl ServerClass {
    /// Decodes a 32-bit class id and two nul-terminated names.
    #[verifier::rlimit(100)]
    pub fn parse(r: &mut BitReader) -> (res: Result<ServerClass, ParserError>)
        requires
            old(r).wf(),
        ensures
            final(r).bits == old(r).bits,
            final(r).bit_size == old(r).bit_size,
            final(r).wf(),
            final(r).current >= old(r).current,
            res is Ok <==> (old(r).current + 32 <= old(r).bit_size && (str_scan(
                old(r).bits@,
                (old(r).current + 32) as nat,
                old(r).bit_size as nat,
            ) matches Some(sc) && str_scan(old(r).bits@, sc.1, old(r).bit_size as nat)
                is Some)),
            (res matches Ok(m) ==> ({
                &&& m.class_id as int == as_i32(bits_val(old(r).bits@, old(r).current as nat, 32))
                &&& (str_scan(
                    old(r).bits@,
                    (old(r).current + 32) as nat,
                    old(r).bit_size as nat,
                ) matches Some(sc) && m.class_name@ == sc.0 && (str_scan(
                    old(r).bits@,
                    sc.1,
                    old(r).bit_size as nat,
                ) matches Some(sc2) && m.data_table_name@ == sc2.0 && final(r).current as nat
                    == sc2.1))
                &&& final(r).current > old(r).current + 32
            })),
    {
        let class_id = r.read_int(32)?;
        let class_name = r.read_ascii_string_nulled()?;
        let data_table_name = r.read_ascii_string_nulled()?;
        Ok(ServerClass { class_id, class_name, data_table_name })
    }
}

/// The server class entries as plain values: id and the two names.
pub open spec fn classes_view(s: Seq<ServerClass>) -> Seq<(int, Seq<char>, Seq<char>)> {
    s.map_values(|c: ServerClass| (c.class_id as int, c.class_name@, c.data_table_name@))
}

/// Scans `n` server class entries at bit position `p`: each is a 32-bit
/// class id and two nul-terminated UTF-8 names. `Some` carries the
/// entries in stream order and the bit position just past the last one.
pub open spec fn class_chain(data: Seq<u8>, p: nat, bitlen: nat, n: nat) -> Option<
    (Seq<(int, Seq<char>, Seq<char>)>, nat),
>
    decreases n,
{
    if n == 0 {
        Some((Seq::<(int, Seq<char>, Seq<char>)>::empty(), p))
    } else if p + 32 > bitlen {
        None
    } else {
        match str_scan(data, (p + 32) as nat, bitlen) {
            Some(sc) => match str_scan(data, sc.1, bitlen) {
                Some(sc2) => match class_chain(data, sc2.1, bitlen, (n - 1) as nat) {
                    Some(ch) => Some(
                        (seq![(as_i32(bits_val(data, p, 32)), sc.0, sc2.0)] + ch.0, ch.1),
                    ),
                    None => None,
                },
                None => None,
            },
            None => None,
        }
    }
}

impl SvcClassInfo {
    /// Decodes a 16-bit class count and a creation flag; the class list
    /// itself is present only when the client is not asked to create it.
    #[verifier::loop_isolation(false)]
    #[verifier::rlimit(100)]
    pub fn parse(r: &mut BitReader) -> (res: Result<SvcClassInfo, ParserError>)
        requires
            old(r).wf(),
        ensures
            final(r).bits == old(r).bits,
            final(r).bit_size == old(r).bit_size,
            final(r).wf(),
            final(r).current >= old(r).current,
            res is Ok <==> (old(r).current + 17 <= old(r).bit_size && ({
                let len = as_i16(bits_val(old(r).bits@, old(r).current as nat, 16));
                let create = bits_val(old(r).bits@, (old(r).current + 16) as nat, 1) == 1;
                create || len <= 0 || class_chain(
                    old(r).bits@,
                    (old(r).current + 17) as nat,
                    old(r).bit_size as nat,
                    len as nat,
                ) is Some
            })),
            (res matches Ok(m) ==> ({
                let data = old(r).bits@;
                let start = old(r).current as nat;
                &&& m.length as int == as_i16(bits_val(data, start, 16))
                &&& m.create_on_client == (bits_val(data, (start + 16) as nat, 1) == 1)
                &&& m.server_classes@.len() == (if m.create_on_client || m.length < 0 {
                    0int
                } else {
                    m.length as int
                })
                &&& ((m.create_on_client || m.length <= 0) ==> final(r).current as nat == start
                    + 17)
                &&& ((!m.create_on_client && m.length > 0) ==> (class_chain(
                    data,
                    (start + 17) as nat,
                    old(r).bit_size as nat,
                    m.length as nat,
                ) matches Some(ch) && ({
                    &&& (forall|j: int|
                        0 <= j < ch.0.len() ==> ((#[trigger] m.server_classes@[j]).class_id as int
                            == ch.0[j].0 && m.server_classes@[j].class_name@ == ch.0[j].1
                            && m.server_classes@[j].data_table_name@ == ch.0[j].2))
                    &&& final(r).current as nat == ch.1
                })))
            })),
    {
        let length = r.read_short(16)?;
        let create_on_client = r.read_bool()?;
        let server_classes: Vec<ServerClass> = if !create_on_client && length > 0 {
            Self::parse_classes(r, length)?
        } else {
            Vec::new()
        };
        Ok(SvcClassInfo { length, create_on_client, server_classes })
    }

    /// Decodes `length > 0` consecutive server class entries.
    #[verifier::rlimit(100)]
    #[verifier::loop_isolation(false)]
    fn parse_classes(r: &mut BitReader, length: i16) -> (res: Result<
        Vec<ServerClass>,
        ParserError,
    >)
        requires
            old(r).wf(),
            length > 0,
        ensures
            final(r).bits == old(r).bits,
            final(r).bit_size == old(r).bit_size,
            final(r).wf(),
            final(r).current >= old(r).current,
            res is Ok <==> class_chain(
                old(r).bits@,
                old(r).current as nat,
                old(r).bit_size as nat,
                length as nat,
            ) is Some,
            (res matches Ok(v) ==> (class_chain(
                old(r).bits@,
                old(r).current as nat,
                old(r).bit_size as nat,
                length as nat,
            ) matches Some(ch) && ({
                &&& v@.len() == length as int
                &&& (forall|j: int|
                    0 <= j < ch.0.len() ==> ((#[trigger] v@[j]).class_id as int == ch.0[j].0
                        && v@[j].class_name@ == ch.0[j].1 && v@[j].data_table_name@
                        == ch.0[j].2))
                &&& final(r).current as nat == ch.1
            }))),
    {
        let ghost data = r.bits@;
        let ghost bitlen = r.bit_size as nat;
        let ghost p0 = r.current as nat;
        let mut server_classes: Vec<ServerClass> = Vec::new();
        {
            proof {
                assert(classes_view(server_classes@) =~= Seq::<
                    (int, Seq<char>, Seq<char>),
                >::empty());
                if length > 0 && class_chain(data, p0, bitlen, length as nat) is Some {
                    let ch0 = class_chain(data, p0, bitlen, length as nat)->Some_0;
                    assert(classes_view(server_classes@) + ch0.0 =~= ch0.0);
                }
            }
            let mut i: i16 = 0;
            while i < length
                invariant
                    r.wf(),
                    r.bits == old(r).bits,
                    r.bit_size == old(r).bit_size,
                    r.current >= old(r).current,
                    0 <= i,
                    length > 0 ==> i <= length,
                    length <= 0 ==> i == 0,
                    server_classes@.len() == i as int,
                    length > 0 ==> (match class_chain(
                        data,
                        r.current as nat,
                        bitlen,
                        (length - i) as nat,
                    ) {
                        Some(ch) => class_chain(data, p0, bitlen, length as nat) == Some(
                            (classes_view(server_classes@) + ch.0, ch.1),
                        ),
                        None => class_chain(data, p0, bitlen, length as nat) is None,
                    }),
                decreases length - i,
            {
                let ghost cur0 = r.current as nat;
                let sc = match ServerClass::parse(r) {
                    Ok(v) => v,
                    Err(e) => {
                        proof {
                            assert(class_chain(data, cur0, bitlen, (length - i) as nat)
                                is None);
                        }
                        return Err(e);
                    },
                };
                let ghost entry = (sc.class_id as int, sc.class_name@, sc.data_table_name@);
                let ghost old_view = classes_view(server_classes@);
                server_classes.push(sc);
                proof {
                    assert(classes_view(server_classes@) =~= old_view + seq![entry]);
                    if class_chain(data, r.current as nat, bitlen, (length - i - 1) as nat)
                        is Some {
                        let ch2 = class_chain(
                            data,
                            r.current as nat,
                            bitlen,
                            (length - i - 1) as nat,
                        )->Some_0;
                        assert(class_chain(data, cur0, bitlen, (length - i) as nat) == Some(
                            (seq![entry] + ch2.0, ch2.1),
                        ));
                        assert(old_view + (seq![entry] + ch2.0) =~= (old_view + seq![entry])
                            + ch2.0);
                    } else {
                        assert(class_chain(data, cur0, bitlen, (length - i) as nat) is None);
                    }
                }
                i = i + 1;
            }
            proof {
                if length > 0 {
                    assert(class_chain(data, r.current as nat, bitlen, 0) == Some(
                        (Seq::<(int, Seq<char>, Seq<char>)>::empty(), r.current as nat),
                    ));
                    assert(classes_view(server_classes@) + Seq::<
                        (int, Seq<char>, Seq<char>),
                    >::empty() =~= classes_view(server_classes@));
                }
            }
        }
        Ok(server_classes)
    }
}

impl SvcUpdateStringTable {
    /// Decodes a 5-bit table id, an optional 16-bit changed-entry count
    /// defaulting to 1, and a 20-bit bit length whose content region is
    /// skipped exactly.
    #[verifier::rlimit(100)]
    pub fn parse(r: &mut BitReader) -> (res: Result<SvcUpdateStringTable, ParserError>)
        requires
            old(r).wf(),
        ensures
            final(r).bits == old(r).bits,
            final(r).bit_size == old(r).bit_size,
            final(r).wf(),
            final(r).current >= old(r).current,
            ({
                let data = old(r).bits@;
                let start = old(r).current as nat;
                let present = bits_val(data, (start + 5) as nat, 1) == 1;
                let hdr: nat = if present {
                    42
                } else {
                    26
                };
                let lpos: nat = if present {
                    (start + 22) as nat
                } else {
                    (start + 6) as nat
                };
                let l = bits_val(data, lpos, 20);
                &&& (res is Ok <==> start + hdr + l <= old(r).bit_size)
                &&& (res matches Ok(m) ==> ({
                    &&& m.table_id as nat == bits_val(data, start, 5)
                    &&& m.num_changed_entries as int == (if present {
                        as_i32(bits_val(data, (start + 6) as nat, 16))
                    } else {
                        1int
                    })
                    &&& m.length as nat == l
                    &&& final(r).current as nat == start + hdr + l
                }))
            }),
            res is Err ==> res == Err::<SvcUpdateStringTable, ParserError>(
                ParserError::ReaderOutOfBounds,
            ),
    {
        let table_id = r.read_byte(5)?;
        let present = r.read_bool()?;
        let num_changed_entries = if present {
            r.read_int(16)?
        } else {
            1
        };
        let length = r.read_int(20)?;
        proof {
            crate::bits::lemma_bits_val_bound(
                old(r).bits@,
                (r.current - 20) as nat,
                20,
            );
            vstd::arithmetic::power2::lemma2_to64();
        }
        r.skip(length as usize)?;
        Ok(SvcUpdateStringTable { table_id, num_changed_entries, length })
    }
}

impl SvcVoiceInit {
    /// Decodes a nul-terminated codec name, a quality byte, and a 32-bit
    /// sample rate present only when the quality byte is the sentinel
    /// 255.
    #[verifier::rlimit(100)]
    pub fn parse(r: &mut BitReader) -> (res: Result<SvcVoiceInit, ParserError>)
        requires
            old(r).wf(),
        ensures
            final(r).bits == old(r).bits,
            final(r).bit_size == old(r).bit_size,
            final(r).wf(),
            final(r).current >= old(r).current,
            res is Ok <==> (nul_scan(
                old(r).bits@,
                old(r).current as nat,
                old(r).bit_size as nat,
            ) matches Some(k) && valid_utf8(stream_bytes(old(r).bits@, old(r).current as nat, k))
                && ({
                let p = (old(r).current + 8 * (k + 1)) as nat;
                &&& p + 8 <= old(r).bit_size
                &&& (bits_val(old(r).bits@, p, 8) == 255 ==> p + 40 <= old(r).bit_size)
            })),
            (res matches Ok(m) ==> ({
                let data = old(r).bits@;
                let start = old(r).current as nat;
                &&& (nul_scan(data, start, old(r).bit_size as nat) matches Some(k) && ({
                    let p = (start + 8 * (k + 1)) as nat;
                    &&& m.codec@ == decode_utf8(stream_bytes(data, start, k))
                    &&& m.quality as nat == bits_val(data, p, 8)
                    &&& (m.quality == 255 ==> (m.sample_rate matches Some(v) && v as int
                        == as_i32(bits_val(data, (p + 8) as nat, 32)) && final(r).current as nat
                        == p + 40))
                    &&& (m.quality != 255 ==> m.sample_rate is None && final(r).current as nat == p
                        + 8)
                }))
            })),
    {
        let codec = r.read_ascii_string_nulled()?;
        let quality = r.read_byte(8)?;
        let sample_rate = if quality == 255 {
            Some(r.read_int(32)?)
        } else {
            None
        };
        Ok(SvcVoiceInit { codec, quality, sample_rate })
    }
}

impl SvcVoiceData {
    /// Decodes client and proximity bytes, a 16-bit bit length and one
    /// audibility bit, then skips exactly the declared content length.
    #[verifier::rlimit(100)]
    pub fn parse(r: &mut BitReader) -> (res: Result<SvcVoiceData, ParserError>)
        requires
            old(r).wf(),
        ensures
            final(r).bits == old(r).bits,
            final(r).bit_size == old(r).bit_size,
            final(r).wf(),
            final(r).current >= old(r).current,
            ({
                let data = old(r).bits@;
                let start = old(r).current as nat;
                let l = as_i16(bits_val(data, (start + 16) as nat, 16));
                &&& (res is Ok <==> (start + 33 <= old(r).bit_size && l >= 0 && start + 33 + l
                    <= old(r).bit_size))
                &&& (res matches Ok(m) ==> ({
                    &&& m.client as nat == bits_val(data, start, 8)
                    &&& m.proximity as nat == bits_val(data, (start + 8) as nat, 8)
                    &&& m.length as int == l
                    &&& m.audible@.len() == 1
                    &&& m.audible@[0] == (bits_val(data, (start + 32) as nat, 1) == 1)
                    &&& final(r).current as nat == start + 33 + l
                }))
            }),
            res is Err ==> res == Err::<SvcVoiceData, ParserError>(ParserError::ReaderOutOfBounds),
    {
        let client = r.read_byte(8)?;
        let proximity = r.read_byte(8)?;
        let length = r.read_short(16)?;
        let mut audible: Vec<bool> = Vec::new();
        audible.push(r.read_bool()?);
        if length < 0 {
            return Err(ParserError::ReaderOutOfBounds);
        }
        r.skip(length as usize)?;
        Ok(SvcVoiceData { client, proximity, length, audible })
    }
}

impl SvcSounds {
    /// Decodes the reliable flag; a reliable batch is one sound with an
    /// 8-bit length, an unreliable one has a count byte and a 16-bit
    /// length. The declared content length is then skipped exactly.
    #[verifier::rlimit(100)]
    pub fn parse(r: &mut BitReader) -> (res: Result<SvcSounds, ParserError>)
        requires
            old(r).wf(),
        ensures
            final(r).bits == old(r).bits,
            final(r).bit_size == old(r).bit_size,
            final(r).wf(),
            final(r).current >= old(r).current,
            ({
                let data = old(r).bits@;
                let start = old(r).current as nat;
                let rel = bits_val(data, start, 1) == 1;
                let hdr: nat = if rel {
                    9
                } else {
                    25
                };
                let l = if rel {
                    as_i16(bits_val(data, (start + 1) as nat, 8))
                } else {
                    as_i16(bits_val(data, (start + 9) as nat, 16))
                };
                &&& (res is Ok <==> (start + hdr <= old(r).bit_size && l >= 0 && start + hdr + l
                    <= old(r).bit_size))
                &&& (res matches Ok(m) ==> ({
                    &&& m.reliable_sounds == rel
                    &&& m.num_sounds as int == (if rel {
                        1int
                    } else {
                        bits_val(data, (start + 1) as nat, 8) as int
                    })
                    &&& m.length as int == l
                    &&& final(r).current as nat == start + hdr + l
                }))
            }),
            res is Err ==> res == Err::<SvcSounds, ParserError>(ParserError::ReaderOutOfBounds),
    {
        let reliable_sounds = r.read_bool()?;
        let num_sounds = if reliable_sounds {
            1
        } else {
            r.read_byte(8)?
        };
        let length = if reliable_sounds {
            r.read_short(8)?
        } else {
            r.read_short(16)?
        };
        if length < 0 {
            return Err(ParserError::ReaderOutOfBounds);
        }
        r.skip(length as usize)?;
        Ok(SvcSounds { reliable_sounds, num_sounds, length })
    }
}

impl SvcSplitScreen {
    /// Decodes a kind bit and an 11-bit bit length, then skips exactly
    /// the declared content length.
    #[verifier::rlimit(100)]
    pub fn parse(r: &mut BitReader) -> (res: Result<SvcSplitScreen, ParserError>)
        requires
            old(r).wf(),
        ensures
            final(r).bits == old(r).bits,
            final(r).bit_size == old(r).bit_size,
            final(r).wf(),
            final(r).current >= old(r).current,
            ({
                let data = old(r).bits@;
                let start = old(r).current as nat;
                let l = bits_val(data, (start + 1) as nat, 11);
                &&& (res is Ok <==> start + 12 + l <= old(r).bit_size)
                &&& (res matches Ok(m) ==> ({
                    &&& m.type_ == (bits_val(data, start, 1) == 1)
                    &&& m.length as nat == l
                    &&& final(r).current as nat == start + 12 + l
                }))
            }),
            res is Err ==> res == Err::<SvcSplitScreen, ParserError>(
                ParserError::ReaderOutOfBounds,
            ),
    {
        let type_ = r.read_bool()?;
        let length = r.read_short(11)?;
        proof {
            crate::bits::lemma_bits_val_bound(old(r).bits@, (r.current - 11) as nat, 11);
            vstd::arithmetic::power2::lemma2_to64();
        }
        r.skip(length as usize)?;
        Ok(SvcSplitScreen { type_, length })
    }
}

impl SvcUserMessage {
    /// Decodes a kind byte and an 11-bit bit length, then skips exactly
    /// the declared content length.
    #[verifier::rlimit(100)]
    pub fn parse(r: &mut BitReader) -> (res: Result<SvcUserMessage, ParserError>)
        requires
            old(r).wf(),
        ensures
            final(r).bits == old(r).bits,
            final(r).bit_size == old(r).bit_size,
            final(r).wf(),
            final(r).current >= old(r).current,
            ({
                let data = old(r).bits@;
                let start = old(r).current as nat;
                let l = bits_val(data, (start + 8) as nat, 11);
                &&& (res is Ok <==> start + 19 + l <= old(r).bit_size)
                &&& (res matches Ok(m) ==> ({
                    &&& m.type_ as nat == bits_val(data, start, 8)
                    &&& m.length as nat == l
                    &&& final(r).current as nat == start + 19 + l
                }))
            }),
            res is Err ==> res == Err::<SvcUserMessage, ParserError>(
                ParserError::ReaderOutOfBounds,
            ),
    {
        let type_ = r.read_byte(8)?;
        let length = r.read_short(11)?;
        proof {
            crate::bits::lemma_bits_val_bound(old(r).bits@, (r.current - 11) as nat, 11);
            vstd::arithmetic::power2::lemma2_to64();
        }
        r.skip(length as usize)?;
        Ok(SvcUserMessage { type_, length })
    }
}

impl SvcEntityMessage {
    /// Decodes entity and class indices and an 11-bit bit length, then
    /// skips exactly the declared content length.
    #[verifier::rlimit(100)]
    pub fn parse(r: &mut BitReader) -> (res: Result<SvcEntityMessage, ParserError>)
        requires
            old(r).wf(),
        ensures
            final(r).bits == old(r).bits,
            final(r).bit_size == old(r).bit_size,
            final(r).wf(),
            final(r).current >= old(r).current,
            ({
                let data = old(r).bits@;
                let start = old(r).current as nat;
                let l = bits_val(data, (start + 20) as nat, 11);
                &&& (res is Ok <==> start + 31 + l <= old(r).bit_size)
                &&& (res matches Ok(m) ==> ({
                    &&& m.entity_index as int == as_i16(bits_val(data, start, 11))
                    &&& m.class_id as int == as_i16(bits_val(data, (start + 11) as nat, 9))
                    &&& m.length as nat == l
                    &&& final(r).current as nat == start + 31 + l
                }))
            }),
            res is Err ==> res == Err::<SvcEntityMessage, ParserError>(
                ParserError::ReaderOutOfBounds,
            ),
    {
        let entity_index = r.read_short(11)?;
        let class_id = r.read_short(9)?;
        let length = r.read_short(11)?;
        proof {
            crate::bits::lemma_bits_val_bound(old(r).bits@, (r.current - 11) as nat, 11);
            vstd::arithmetic::power2::lemma2_to64();
        }
        r.skip(length as usize)?;
        Ok(SvcEntityMessage { entity_index, class_id, length })
    }
}

impl SvcGameEvent {
    /// Decodes a declared 16-bit length, then the event record itself
    /// through the schema registry.
    #[verifier::rlimit(100)]
    pub fn parse(r: &mut BitReader, info: &DemoInfo) -> (res: Result<SvcGameEvent, ParserError>)
        requires
            old(r).wf(),
        ensures
            final(r).bits == old(r).bits,
            final(r).bit_size == old(r).bit_size,
            final(r).wf(),
            final(r).current >= old(r).current,
            res is Ok <==> (old(r).current + 16 <= old(r).bit_size
                && crate::game_event::game_event_ok(
                old(r).bits@,
                (old(r).current + 16) as nat,
                old(r).bit_size as nat,
                info.game_event_list@,
            )),
            (res matches Ok(m) ==> m.length as int == as_i16(
                bits_val(old(r).bits@, old(r).current as nat, 16),
            ) && crate::game_event::game_event_parsed(
                old(r).bits@,
                (old(r).current + 16) as nat,
                old(r).bit_size as nat,
                info.game_event_list@,
                m.data,
                final(r).current as nat,
            )),
            res == Err::<SvcGameEvent, ParserError>(ParserError::SchemaLookupError) <==> (old(
                r,
            ).current + 25 <= old(r).bit_size && as_i16(
                bits_val(old(r).bits@, (old(r).current + 16) as nat, 9),
            ) >= info.game_event_list@.len()),
    {
        let length = r.read_short(16)?;
        let data = GameEvent::parse(r, info)?;
        Ok(SvcGameEvent { length, data })
    }
}

impl SvcPacketEntities {
    /// Decodes the entity update header: an 11-bit entry maximum, a delta
    /// flag with its optional 32-bit source tick, a baseline flag, an
    /// 11-bit updated-entry count, then a region bit length that is a
    /// variable-length integer on the steampipe network protocol and a
    /// fixed 20-bit field otherwise, and an update-baseline flag. The
    /// declared content length is then skipped exactly.
    #[verifier::rlimit(100)]
    pub fn parse(r: &mut BitReader, info: &DemoInfo) -> (res: Result<
        SvcPacketEntities,
        ParserError,
    >)
        requires
            old(r).wf(),
        ensures
            final(r).bits == old(r).bits,
            final(r).bit_size == old(r).bit_size,
            final(r).wf(),
            final(r).current >= old(r).current,
            ({
                let data = old(r).bits@;
                let start = old(r).current as nat;
                let is_delta = bits_val(data, (start + 11) as nat, 1) == 1;
                let p1: nat = if is_delta {
                    (start + 44) as nat
                } else {
                    (start + 12) as nat
                };
                let lw: nat = if info.net_protocol == 24 {
                    8 * var_int_size(data, (p1 + 12) as nat, 5)
                } else {
                    20
                };
                let l = if info.net_protocol == 24 {
                    as_i32(var_int_val(data, (p1 + 12) as nat, 5))
                } else {
                    bits_val(data, (p1 + 12) as nat, 20) as int
                };
                let hdr_end = p1 + 12 + lw + 1;
                &&& (res is Ok <==> (hdr_end <= old(r).bit_size && l >= 0 && hdr_end + l <= old(
                    r,
                ).bit_size))
                &&& (res matches Ok(m) ==> ({
                    &&& m.max_entries as int == as_i16(bits_val(data, start, 11))
                    &&& m.is_delta == is_delta
                    &&& (m.delta_from matches Some(v) <==> is_delta)
                    &&& (m.delta_from matches Some(v) ==> v as int == as_i32(
                        bits_val(data, (start + 12) as nat, 32),
                    ))
                    &&& m.base_line == (bits_val(data, p1, 1) == 1)
                    &&& m.updated_entries as int == as_i16(bits_val(data, (p1 + 1) as nat, 11))
                    &&& m.length as int == l
                    &&& m.update_baseline == (bits_val(data, (p1 + 12 + lw) as nat, 1) == 1)
                    &&& final(r).current as nat == hdr_end + l
                }))
            }),
            res is Err ==> res == Err::<SvcPacketEntities, ParserError>(
                ParserError::ReaderOutOfBounds,
            ),
    {
        let ghost data = r.bits@;
        let ghost start = r.current as nat;
        let max_entries = r.read_short(11)?;
        let is_delta = r.read_bool()?;
        let delta_from = if is_delta {
            Some(r.read_int(32)?)
        } else {
            None
        };
        let ghost p1: nat = if is_delta {
            (start + 44) as nat
        } else {
            (start + 12) as nat
        };
        assert(r.current as nat == p1);
        Self::parse_tail(r, info, max_entries, is_delta, delta_from, Ghost(start), Ghost(p1))
    }

    /// Continuation of [`Self::parse`] once the delta header is read: the
    /// baseline flag, the updated-entry count, the region length, the
    /// update-baseline flag, and the exact skip over the content.
    #[verifier::rlimit(100)]
    fn parse_tail(
        r: &mut BitReader,
        info: &DemoInfo,
        max_entries: i16,
        is_delta: bool,
        delta_from: Option<i32>,
        Ghost(start): Ghost<nat>,
        Ghost(p1): Ghost<nat>,
    ) -> (res: Result<SvcPacketEntities, ParserError>)
        requires
            old(r).wf(),
            old(r).current as nat == p1,
            is_delta == (bits_val(old(r).bits@, (start + 11) as nat, 1) == 1),
            p1 == (if is_delta {
                (start + 44) as nat
            } else {
                (start + 12) as nat
            }),
            max_entries as int == as_i16(bits_val(old(r).bits@, start, 11)),
            (delta_from matches Some(v) <==> is_delta),
            (delta_from matches Some(v) ==> v as int == as_i32(
                bits_val(old(r).bits@, (start + 12) as nat, 32),
            )),
        ensures
            final(r).bits == old(r).bits,
            final(r).bit_size == old(r).bit_size,
            final(r).wf(),
            final(r).current >= old(r).current,
            ({
                let data = old(r).bits@;
                let lw: nat = if info.net_protocol == 24 {
                    8 * var_int_size(data, (p1 + 12) as nat, 5)
                } else {
                    20
                };
                let l = if info.net_protocol == 24 {
                    as_i32(var_int_val(data, (p1 + 12) as nat, 5))
                } else {
                    bits_val(data, (p1 + 12) as nat, 20) as int
                };
                let hdr_end = p1 + 12 + lw + 1;
                &&& (res is Ok <==> (hdr_end <= old(r).bit_size && l >= 0 && hdr_end + l <= old(
                    r,
                ).bit_size))
                &&& (res matches Ok(m) ==> ({
                    &&& m.max_entries as int == as_i16(bits_val(data, start, 11))
                    &&& m.is_delta == is_delta
                    &&& (m.delta_from matches Some(v) <==> is_delta)
                    &&& (m.delta_from matches Some(v) ==> v as int == as_i32(
                        bits_val(data, (start + 12) as nat, 32),
                    ))
                    &&& m.base_line == (bits_val(data, p1, 1) == 1)
                    &&& m.updated_entries as int == as_i16(bits_val(data, (p1 + 1) as nat, 11))
                    &&& m.length as int == l
                    &&& m.update_baseline == (bits_val(data, (p1 + 12 + lw) as nat, 1) == 1)
                    &&& final(r).current as nat == hdr_end + l
                }))
            }),
            res is Err ==> res == Err::<SvcPacketEntities, ParserError>(
                ParserError::ReaderOutOfBounds,
            ),
    {
        let ghost data = r.bits@;
        let base_line = r.read_bool()?;
        let updated_entries = r.read_short(11)?;
        let length = if info.net_protocol == 24 {
            r.read_var_int32()?
        } else {
            r.read_int(20)?
        };
        proof {
            if info.net_protocol != 24 {
                crate::bits::lemma_bits_val_bound(old(r).bits@, (r.current - 20) as nat, 20);
                vstd::arithmetic::power2::lemma2_to64();
            }
        }
        let ghost lw: nat = if info.net_protocol == 24 {
            8 * var_int_size(data, (p1 + 12) as nat, 5)
        } else {
            20
        };
        assert(r.current as nat == p1 + 12 + lw);
        let update_baseline = r.read_bool()?;
        assert(r.current as nat == p1 + 12 + lw + 1);
        if length < 0 {
            return Err(ParserError::ReaderOutOfBounds);
        }
        r.skip(length as usize)?;
        Ok(
            SvcPacketEntities {
                max_entries,
                is_delta,
                delta_from,
                base_line,
                updated_entries,
                length,
                update_baseline,
            },
        )
    }
}

impl SvcTempEntities {
    /// Decodes an entry count byte and a region bit length that is a
    /// variable-length integer on the steampipe network protocol and a
    /// fixed 17-bit field otherwise, then skips exactly the declared
    /// content length.
    #[verifier::rlimit(100)]
    pub fn parse(r: &mut BitReader, info: &DemoInfo) -> (res: Result<
        SvcTempEntities,
        ParserError,
    >)
        requires
            old(r).wf(),
        ensures
            final(r).bits == old(r).bits,
            final(r).bit_size == old(r).bit_size,
            final(r).wf(),
            final(r).current >= old(r).current,
            ({
                let data = old(r).bits@;
                let start = old(r).current as nat;
                let lw: nat = if info.net_protocol == 24 {
                    8 * var_int_size(data, (start + 8) as nat, 5)
                } else {
                    17
                };
                let l = if info.net_protocol == 24 {
                    as_i32(var_int_val(data, (start + 8) as nat, 5))
                } else {
                    bits_val(data, (start + 8) as nat, 17) as int
                };
                let hdr_end = start + 8 + lw;
                &&& (res is Ok <==> (hdr_end <= old(r).bit_size && l >= 0 && hdr_end + l <= old(
                    r,
                ).bit_size))
                &&& (res matches Ok(m) ==> ({
                    &&& m.num_entries as nat == bits_val(data, start, 8)
                    &&& m.length as int == l
                    &&& final(r).current as nat == hdr_end + l
                }))
            }),
            res is Err ==> res == Err::<SvcTempEntities, ParserError>(
                ParserError::ReaderOutOfBounds,
            ),
    {
        let num_entries = r.read_byte(8)?;
        let length = if info.net_protocol == 24 {
            r.read_var_int32()?
        } else {
            r.read_int(17)?
        };
        proof {
            if info.net_protocol != 24 {
                crate::bits::lemma_bits_val_bound(old(r).bits@, (r.current - 17) as nat, 17);
                vstd::arithmetic::power2::lemma2_to64();
            }
        }
        if length < 0 {
            return Err(ParserError::ReaderOutOfBounds);
        }
        r.skip(length as usize)?;
        Ok(SvcTempEntities { num_entries, length })
    }
}

impl SvcBspDecal {
    /// Decodes three optional coordinates, a 9-bit texture index, an
    /// optional pair of 11-bit entity and model indices gated by one
    /// presence bit, and a low-priority flag.
    #[verifier::rlimit(100)]
    pub fn parse(r: &mut BitReader) -> (res: Result<SvcBspDecal, ParserError>)
        requires
            old(r).wf(),
        ensures
            final(r).bits == old(r).bits,
            final(r).bit_size == old(r).bit_size,
            final(r).wf(),
            final(r).current >= old(r).current,
            ({
                let data = old(r).bits@;
                let start = old(r).current as nat;
                let p = (start + coords_width(data, start)) as nat;
                let pb = bits_val(data, (p + 9) as nat, 1) == 1;
                let end: nat = if pb {
                    (p + 33) as nat
                } else {
                    (p + 11) as nat
                };
                &&& (res is Ok <==> end <= old(r).bit_size)
                &&& (res matches Ok(m) ==> ({
                    let p1 = start + 3;
                    let w1: nat = if bits_val(data, start, 1) == 1 {
                        crate::reader::coord_width(data, p1)
                    } else {
                        0
                    };
                    let p2 = p1 + w1;
                    let w2: nat = if bits_val(data, (start + 1) as nat, 1) == 1 {
                        crate::reader::coord_width(data, p2)
                    } else {
                        0
                    };
                    let p3 = p2 + w2;
                    &&& m.pos@.len() == 3
                    &&& m.pos@[0] == (if bits_val(data, start, 1) == 1 {
                        Some(coord_value(data, p1))
                    } else {
                        None::<VectorCoord>
                    })
                    &&& m.pos@[1] == (if bits_val(data, (start + 1) as nat, 1) == 1 {
                        Some(coord_value(data, p2))
                    } else {
                        None::<VectorCoord>
                    })
                    &&& m.pos@[2] == (if bits_val(data, (start + 2) as nat, 1) == 1 {
                        Some(coord_value(data, p3))
                    } else {
                        None::<VectorCoord>
                    })
                    &&& m.decal_texture_index as int == as_i16(bits_val(data, p, 9))
                    &&& (m.entity_index matches Some(v) <==> pb)
                    &&& (m.model_index matches Some(v) <==> pb)
                    &&& (pb ==> (m.entity_index matches Some(v) && v as int == as_i16(
                        bits_val(data, (p + 10) as nat, 11),
                    )) && (m.model_index matches Some(v) && v as int == as_i16(
                        bits_val(data, (p + 21) as nat, 11),
                    )))
                    &&& m.low_priority == (bits_val(data, (end - 1) as nat, 1) == 1)
                    &&& final(r).current as nat == end
                }))
            }),
            res is Err ==> res == Err::<SvcBspDecal, ParserError>(ParserError::ReaderOutOfBounds),
    {
        let pos = r.read_vector_coords()?;
        let decal_texture_index = r.read_short(9)?;
        let present = r.read_bool()?;
        let entity_index = if present {
            Some(r.read_short(11)?)
        } else {
            None
        };
        let model_index = if present {
            Some(r.read_short(11)?)
        } else {
            None
        };
        let low_priority = r.read_bool()?;
        Ok(
            SvcBspDecal {
                pos,
                decal_texture_index,
                entity_index,
                model_index,
                low_priority,
            },
        )
    }
}

impl SvcGetCvarValue {
    /// Decodes a fixed 4-byte cookie and a nul-terminated variable name.
    #[verifier::rlimit(100)]
    pub fn parse(r: &mut BitReader) -> (res: Result<SvcGetCvarValue, ParserError>)
        requires
            old(r).wf(),
        ensures
            final(r).bits == old(r).bits,
            final(r).bit_size == old(r).bit_size,
            final(r).wf(),
            final(r).current >= old(r).current,
            res is Ok <==> (old(r).current + 32 <= old(r).bit_size && valid_utf8(
                crate::bits::fixed_str_bytes(old(r).bits@, old(r).current as nat, 4),
            ) && (nul_scan(
                old(r).bits@,
                (old(r).current + 32) as nat,
                old(r).bit_size as nat,
            ) matches Some(k) && valid_utf8(
                stream_bytes(old(r).bits@, (old(r).current + 32) as nat, k),
            ))),
            (res matches Ok(m) ==> ({
                let data = old(r).bits@;
                let start = old(r).current as nat;
                &&& m.cookie@ == crate::bits::fixed_str_view(data, start, 4)
                &&& (nul_scan(data, (start + 32) as nat, old(r).bit_size as nat) matches Some(k)
                    && m.cvar_name@ == decode_utf8(stream_bytes(data, (start + 32) as nat, k))
                    && final(r).current == old(r).current + 32 + 8 * (k + 1))
            })),
    {
        let cookie = r.read_ascii_string(32)?;
        let cvar_name = r.read_ascii_string_nulled()?;
        Ok(SvcGetCvarValue { cookie, cvar_name })
    }
}

impl SvcServerInfo {
    /// Decodes the session parameter block. The game variant decides the
    /// middle of the grammar: the steampipe variant carries a 16-byte map
    /// hash where the others carry a 32-bit map checksum, and only the
    /// steampipe variant ends with a has-replay flag.
    #[verifier::rlimit(100)]
    pub fn parse(r: &mut BitReader, info: &DemoInfo) -> (res: Result<SvcServerInfo, ParserError>)
        requires
            old(r).wf(),
        ensures
            final(r).bits == old(r).bits,
            final(r).bit_size == old(r).bit_size,
            final(r).wf(),
            final(r).current >= old(r).current,
            (res matches Ok(m) ==> ({
                let data = old(r).bits@;
                let start = old(r).current as nat;
                let sp = info.game == Game::PORTAL_STEAMPIPE;
                let f: nat = if sp {
                    (start + 258) as nat
                } else {
                    (start + 162) as nat
                };
                &&& m.protocol as int == as_i16(bits_val(data, start, 16))
                &&& m.server_count as int == as_i32(bits_val(data, (start + 16) as nat, 32))
                &&& m.is_hltv == (bits_val(data, (start + 48) as nat, 1) == 1)
                &&& m.is_dedicated == (bits_val(data, (start + 49) as nat, 1) == 1)
                &&& m.client_crc as int == as_i32(bits_val(data, (start + 50) as nat, 32))
                &&& m.max_classes as int == as_i16(bits_val(data, (start + 82) as nat, 16))
                &&& m.tick_interval as nat == bits_val(data, (start + 98) as nat, 32)
                &&& (!sp ==> (m.map_crc matches Some(v) && v as int == as_i32(
                    bits_val(data, (start + 130) as nat, 32),
                )) && m.map_md5 is None)
                &&& (sp ==> m.map_crc is None && (m.map_md5 matches Some(b) && b@ == stream_bytes(
                    data,
                    (start + 130) as nat,
                    16,
                )))
                &&& m.player_slot as nat == bits_val(data, f, 8)
                &&& m.max_clients as nat == bits_val(data, (f + 8) as nat, 8)
                &&& m.platform as nat == bits_val(data, (f + 16) as nat, 8)
                &&& (str_scan(data, (f + 24) as nat, old(r).bit_size as nat) matches Some(
                    (s1, q1),
                ) && m.game_dir@ == s1 && (str_scan(data, q1, old(r).bit_size as nat) matches Some(
                    (s2, q2),
                ) && m.map_name@ == s2 && (str_scan(data, q2, old(r).bit_size as nat) matches Some(
                    (s3, q3),
                ) && m.sky_name@ == s3 && (str_scan(
                    data,
                    q3,
                    old(r).bit_size as nat,
                ) matches Some((s4, q4)) && m.host_name@ == s4 && (sp ==> m.has_replay == Some(
                    bits_val(data, q4, 1) == 1,
                ) && final(r).current as nat == q4 + 1) && (!sp ==> m.has_replay is None
                    && final(r).current as nat == q4)))))
            })),
            res is Ok <==> ({
                let data = old(r).bits@;
                let bitlen = old(r).bit_size as nat;
                let start = old(r).current as nat;
                let sp = info.game == Game::PORTAL_STEAMPIPE;
                let f: nat = if sp {
                    (start + 258) as nat
                } else {
                    (start + 162) as nat
                };
                &&& f + 24 <= bitlen
                &&& (str_scan(data, (f + 24) as nat, bitlen) matches Some((s1, q1)) && (str_scan(
                    data,
                    q1,
                    bitlen,
                ) matches Some((s2, q2)) && (str_scan(data, q2, bitlen) matches Some((s3, q3))
                    && (str_scan(data, q3, bitlen) matches Some((s4, q4)) && (sp ==> q4 + 1
                    <= bitlen)))))
            }),
    {
        let is_steampipe = info.game == Game::PORTAL_STEAMPIPE;
        let protocol = r.read_short(16)?;
        let server_count = r.read_int(32)?;
        let is_hltv = r.read_bool()?;
        let is_dedicated = r.read_bool()?;
        let client_crc = r.read_int(32)?;
        let max_classes = r.read_short(16)?;
        let tick_interval = r.read_uint(32)?;
        let map_crc = if !is_steampipe {
            Some(r.read_int(32)?)
        } else {
            None
        };
        let map_md5 = if is_steampipe {
            Some(r.read_bytes(16)?)
        } else {
            None
        };
        let player_slot = r.read_byte(8)?;
        let max_clients = r.read_byte(8)?;
        let platform = r.read_byte(8)? as char;
        let game_dir = r.read_ascii_string_nulled()?;
        let map_name = r.read_ascii_string_nulled()?;
        let sky_name = r.read_ascii_string_nulled()?;
        let host_name = r.read_ascii_string_nulled()?;
        let has_replay = if is_steampipe {
            Some(r.read_bool()?)
        } else {
            None
        };
        Ok(
            SvcServerInfo {
                protocol,
                server_count,
                is_hltv,
                is_dedicated,
                client_crc,
                max_classes,
                tick_interval,
                map_crc,
                map_md5,
                player_slot,
                max_clients,
                platform,
                game_dir,
                map_name,
                sky_name,
                host_name,
                has_replay,
            },
        )
    }
}

/// When a string-table creation decodes successfully from the bits at
/// `start`: the name scan finds a well-formed string, the entry maximum
/// readable and nonzero, the whole header fits the buffer, and the
/// declared content length is nonnegative and in bounds.
#[verifier::opaque]
pub open spec fn create_string_table_ok(
    data: Seq<u8>,
    start: nat,
    bitlen: nat,
    np: int,
    dp: int,
) -> bool {
    crate::bits::str_scan(data, start, bitlen) matches Some((nm, p1)) && {
        let me = as_i16(bits_val(data, p1, 16));
        let w: nat = if me < 0 {
            32
        } else {
            bit_width(me as nat)
        };
        let p2 = (p1 + 16 + w) as nat;
        let lw: nat = if np == 24 {
            8 * var_int_size(data, p2, 5)
        } else {
            20
        };
        let l: int = if np == 24 {
            as_i32(var_int_val(data, p2, 5))
        } else {
            bits_val(data, p2, 20) as int
        };
        let p3 = (p2 + lw) as nat;
        let fixed = bits_val(data, p3, 1) == 1;
        let p4 = (p3 + 1 + (if fixed {
            16int
        } else {
            0int
        })) as nat;
        let fw: nat = if np >= 15 {
            if dp == 4 {
                2nat
            } else {
                1nat
            }
        } else {
            0
        };
        &&& p1 + 16 <= bitlen
        &&& me != 0
        &&& p4 + fw <= bitlen
        &&& l >= 0
        &&& p4 + fw + l <= bitlen
    }
}

/// The fields of a string-table creation decoded from the bits at
/// `start`, together with the cursor position `end` it leaves behind:
/// after the header fields, exactly the declared content length is
/// skipped.
#[verifier::opaque]
pub open spec fn create_string_table_parsed(
    data: Seq<u8>,
    start: nat,
    bitlen: nat,
    np: int,
    dp: int,
    m: SvcCreateStringTable,
    end: nat,
) -> bool {
    nul_scan(data, start, bitlen) matches Some(k) && {
        let p1 = (start + 8 * (k + 1)) as nat;
        let me = as_i16(bits_val(data, p1, 16));
        let w: nat = if me < 0 {
            32
        } else {
            bit_width(me as nat)
        };
        let p2 = (p1 + 16 + w) as nat;
        let lw: nat = if np == 24 {
            8 * var_int_size(data, p2, 5)
        } else {
            20
        };
        let l: int = if np == 24 {
            as_i32(var_int_val(data, p2, 5))
        } else {
            bits_val(data, p2, 20) as int
        };
        let p3 = (p2 + lw) as nat;
        let fixed = bits_val(data, p3, 1) == 1;
        let p4 = (p3 + 1 + (if fixed {
            16int
        } else {
            0int
        })) as nat;
        let fw: nat = if np >= 15 {
            if dp == 4 {
                2nat
            } else {
                1nat
            }
        } else {
            0
        };
        &&& m.name@ == decode_utf8(stream_bytes(data, start, k))
        &&& me != 0
        &&& m.max_entries as int == me
        &&& m.num_entries as int == as_i32(bits_val(data, (p1 + 16) as nat, w))
        &&& m.length as int == l
        &&& l >= 0
        &&& m.user_data_fixed_size == fixed
        &&& (fixed ==> (m.user_data_size matches Some(v) && v as int == as_i16(
            bits_val(data, (p3 + 1) as nat, 12),
        )) && (m.user_data_size_bits matches Some(v2) && v2 as nat == bits_val(
            data,
            (p3 + 13) as nat,
            4,
        )))
        &&& (!fixed ==> m.user_data_size is None && m.user_data_size_bits is None)
        &&& m.flags as nat == (if np >= 15 {
            bits_val(data, p4, fw)
        } else {
            0nat
        })
        &&& end == p4 + fw + l
    }
}

impl SvcCreateStringTable {
    /// Decodes a string table creation. The entry-count field is as wide
    /// as the declared entry maximum needs (`bit_width(max_entries) `);
    /// the region length is a variable-length integer on the steampipe
    /// network protocol and a fixed 20-bit field otherwise; an extra
    /// flags field of 1 or 2 bits (by demo-format revision) exists from
    /// network protocol 15 on. The declared content length is then
    /// skipped exactly, so the surrounding region stays aligned. A zero
    /// entry maximum leaves the entry-count width undefined and is a
    /// decode failure.
    #[verifier::rlimit(100)]
    pub fn parse(r: &mut BitReader, info: &DemoInfo) -> (res: Result<
        SvcCreateStringTable,
        ParserError,
    >)
        requires
            old(r).wf(),
        ensures
            final(r).bits == old(r).bits,
            final(r).bit_size == old(r).bit_size,
            final(r).wf(),
            final(r).current >= old(r).current,
            res is Ok <==> create_string_table_ok(
                old(r).bits@,
                old(r).current as nat,
                old(r).bit_size as nat,
                info.net_protocol as int,
                info.demo_protocol as int,
            ),
            (crate::bits::str_scan(
                old(r).bits@,
                old(r).current as nat,
                old(r).bit_size as nat,
            ) matches Some((nm, p1)) && p1 + 16 <= old(r).bit_size && as_i16(
                bits_val(old(r).bits@, p1, 16),
            ) == 0) ==> res == Err::<SvcCreateStringTable, ParserError>(ParserError::DecodeError),
            (res matches Ok(m) ==> create_string_table_parsed(
                old(r).bits@,
                old(r).current as nat,
                old(r).bit_size as nat,
                info.net_protocol as int,
                info.demo_protocol as int,
                m,
                final(r).current as nat,
            )),
    {
        proof {
            reveal(create_string_table_ok);
        }
        let ghost start = r.current as nat;
        let name = r.read_ascii_string_nulled()?;
        let max_entries = r.read_short(16)?;
        if max_entries == 0 {
            return Err(ParserError::DecodeError);
        }
        let width: usize = if max_entries < 0 {
            32
        } else {
            let w = log2_of_x_plus_one(max_entries as usize);
            proof {
                crate::bits::lemma_bit_width_unique(max_entries as nat, w as nat);
            }
            w
        };
        Self::parse_tail(r, info, name, max_entries, width, Ghost(start))
    }

    /// Continuation of [`Self::parse`] once the name and entry maximum
    /// are read and the entry-count width is fixed.
    #[verifier::rlimit(100)]
    fn parse_tail(
        r: &mut BitReader,
        info: &DemoInfo,
        name: String,
        max_entries: i16,
        width: usize,
        Ghost(start): Ghost<nat>,
    ) -> (res: Result<SvcCreateStringTable, ParserError>)
        requires
            old(r).wf(),
            (nul_scan(old(r).bits@, start, old(r).bit_size as nat) matches Some(k) && name@
                == decode_utf8(stream_bytes(old(r).bits@, start, k)) && old(r).current as nat
                == start + 8 * (k + 1) + 16),
            max_entries as int == as_i16(
                bits_val(old(r).bits@, (old(r).current - 16) as nat, 16),
            ),
            max_entries != 0,
            width as nat == (if max_entries < 0 {
                32nat
            } else {
                bit_width(max_entries as nat)
            }),
            1 <= width <= 32,
        ensures
            final(r).bits == old(r).bits,
            final(r).bit_size == old(r).bit_size,
            final(r).wf(),
            final(r).current >= old(r).current,
            res is Ok <==> ({
                let data = old(r).bits@;
                let bitlen = old(r).bit_size as nat;
                let p1 = (old(r).current - 16) as nat;
                let me = as_i16(bits_val(data, p1, 16));
                let w: nat = if me < 0 {
                    32
                } else {
                    bit_width(me as nat)
                };
                let p2 = (p1 + 16 + w) as nat;
                let lw: nat = if info.net_protocol == 24 {
                    8 * var_int_size(data, p2, 5)
                } else {
                    20
                };
                let l: int = if info.net_protocol == 24 {
                    as_i32(var_int_val(data, p2, 5))
                } else {
                    bits_val(data, p2, 20) as int
                };
                let p3 = (p2 + lw) as nat;
                let fixed = bits_val(data, p3, 1) == 1;
                let p4 = (p3 + 1 + (if fixed {
                    16int
                } else {
                    0int
                })) as nat;
                let fw: nat = if info.net_protocol >= 15 {
                    if info.demo_protocol == 4 {
                        2nat
                    } else {
                        1nat
                    }
                } else {
                    0
                };
                &&& p4 + fw <= bitlen
                &&& l >= 0
                &&& p4 + fw + l <= bitlen
            }),
            (res matches Ok(m) ==> create_string_table_parsed(
                old(r).bits@,
                start,
                old(r).bit_size as nat,
                info.net_protocol as int,
                info.demo_protocol as int,
                m,
                final(r).current as nat,
            )),
    {
        let ghost data = r.bits@;
        let ghost p1 = (r.current - 16) as nat;
        let num_entries = r.read_int(width)?;
        let ghost p2 = (p1 + 16 + width) as nat;
        assert(r.current as nat == p2);
        let length = if info.net_protocol == 24 {
            r.read_var_int32()?
        } else {
            r.read_int(20)?
        };
        proof {
            if info.net_protocol != 24 {
                crate::bits::lemma_bits_val_bound(old(r).bits@, (r.current - 20) as nat, 20);
                vstd::arithmetic::power2::lemma2_to64();
            }
        }
        Self::parse_tail2(
            r,
            info,
            name,
            max_entries,
            num_entries,
            length,
            Ghost(start),
            Ghost(p1),
        )
    }

    /// Last stage of [`Self::parse`]: the user-data fields, the flags
    /// field, and the exact skip over the declared content length.
    #[verifier::rlimit(100)]
    fn parse_tail2(
        r: &mut BitReader,
        info: &DemoInfo,
        name: String,
        max_entries: i16,
        num_entries: i32,
        length: i32,
        Ghost(start): Ghost<nat>,
        Ghost(p1): Ghost<nat>,
    ) -> (res: Result<SvcCreateStringTable, ParserError>)
        requires
            old(r).wf(),
            (nul_scan(old(r).bits@, start, old(r).bit_size as nat) matches Some(k) && name@
                == decode_utf8(stream_bytes(old(r).bits@, start, k)) && p1 == start + 8 * (k + 1)),
            max_entries as int == as_i16(bits_val(old(r).bits@, p1, 16)),
            max_entries != 0,
            ({
                let data = old(r).bits@;
                let me = as_i16(bits_val(data, p1, 16));
                let w: nat = if me < 0 {
                    32
                } else {
                    bit_width(me as nat)
                };
                let p2 = (p1 + 16 + w) as nat;
                let lw: nat = if info.net_protocol == 24 {
                    8 * var_int_size(data, p2, 5)
                } else {
                    20
                };
                let l: int = if info.net_protocol == 24 {
                    as_i32(var_int_val(data, p2, 5))
                } else {
                    bits_val(data, p2, 20) as int
                };
                &&& num_entries as int == as_i32(bits_val(data, (p1 + 16) as nat, w))
                &&& length as int == l
                &&& old(r).current as nat == p2 + lw
            }),
        ensures
            final(r).bits == old(r).bits,
            final(r).bit_size == old(r).bit_size,
            final(r).wf(),
            final(r).current >= old(r).current,
            res is Ok <==> ({
                let data = old(r).bits@;
                let bitlen = old(r).bit_size as nat;
                let p3 = old(r).current as nat;
                let fixed = bits_val(data, p3, 1) == 1;
                let p4 = (p3 + 1 + (if fixed {
                    16int
                } else {
                    0int
                })) as nat;
                let fw: nat = if info.net_protocol >= 15 {
                    if info.demo_protocol == 4 {
                        2nat
                    } else {
                        1nat
                    }
                } else {
                    0
                };
                &&& p4 + fw <= bitlen
                &&& length >= 0
                &&& p4 + fw + length <= bitlen
            }),
            (res matches Ok(m) ==> create_string_table_parsed(
                old(r).bits@,
                start,
                old(r).bit_size as nat,
                info.net_protocol as int,
                info.demo_protocol as int,
                m,
                final(r).current as nat,
            )),
    {
        proof {
            reveal(create_string_table_parsed);
        }
        let ghost data = r.bits@;
        let ghost p3 = r.current as nat;
        let user_data_fixed_size = r.read_bool()?;
        let user_data_size = if user_data_fixed_size {
            Some(r.read_short(12)?)
        } else {
            None
        };
        let user_data_size_bits = if user_data_fixed_size {
            Some(r.read_byte(4)?)
        } else {
            None
        };
        let ghost p4 = (p3 + 1 + (if user_data_fixed_size {
            16int
        } else {
            0int
        })) as nat;
        assert(r.current as nat == p4);
        let flags = if info.net_protocol >= 15 {
            if info.demo_protocol == 4 {
                r.read_byte(2)?
            } else {
                r.read_byte(1)?
            }
        } else {
            0
        };
        let ghost fw: nat = if info.net_protocol >= 15 {
            if info.demo_protocol == 4 {
                2nat
            } else {
                1nat
            }
        } else {
            0
        };
        assert(r.current as nat == p4 + fw);
        if length < 0 {
            return Err(ParserError::ReaderOutOfBounds);
        }
        r.skip(length as usize)?;
        Ok(
            SvcCreateStringTable {
                name,
                max_entries,
                num_entries,
                length,
                user_data_fixed_size,
                user_data_size,
                user_data_size_bits,
                flags,
            },
        )
    }
}

impl SvcGameEventList {
    /// Decodes a 9-bit event count and a 20-bit length, then that many
    /// descriptors, and replaces the session's event schema registry
    /// wholesale with an equal copy of the list (last write wins).
    #[verifier::rlimit(100)]
    pub fn parse(r: &mut BitReader, info: &mut DemoInfo) -> (res: Result<
        SvcGameEventList,
        ParserError,
    >)
        requires
            old(r).wf(),
        ensures
            final(r).bits == old(r).bits,
            final(r).bit_size == old(r).bit_size,
            final(r).wf(),
            final(r).current >= old(r).current,
            final(info).net_svc_message_bits == old(info).net_svc_message_bits,
            final(info).net_protocol == old(info).net_protocol,
            final(info).demo_protocol == old(info).demo_protocol,
            final(info).game == old(info).game,
            res is Err ==> *final(info) == *old(info),
            res is Ok <==> (old(r).current + 29 <= old(r).bit_size
                && crate::game_event::descriptor_pos(
                old(r).bits@,
                (old(r).current + 29) as nat,
                old(r).bit_size as nat,
                as_i16(bits_val(old(r).bits@, old(r).current as nat, 9)),
            ) is Some),
            (res matches Ok(m) ==> ({
                let data = old(r).bits@;
                let start = old(r).current as nat;
                &&& m.events as int == as_i16(bits_val(data, start, 9))
                &&& 0 <= m.events < 512
                &&& m.length as int == as_i32(bits_val(data, (start + 9) as nat, 20))
                &&& m.descriptor_list@.len() == m.events as int
                &&& (forall|j: int|
                    0 <= j < m.descriptor_list@.len() ==> (#[trigger] m.descriptor_list@[j]).wf())
                &&& (forall|j: int|
                    0 <= j < m.descriptor_list@.len() ==> ((#[trigger] crate::game_event::descriptor_pos(
                        data,
                        (start + 29) as nat,
                        old(r).bit_size as nat,
                        j,
                    )) is Some && crate::game_event::descriptor_at(
                        data,
                        crate::game_event::descriptor_pos(
                            data,
                            (start + 29) as nat,
                            old(r).bit_size as nat,
                            j,
                        )->Some_0,
                        old(r).bit_size as nat,
                        m.descriptor_list@[j],
                    )))
                &&& (crate::game_event::descriptor_pos(
                    data,
                    (start + 29) as nat,
                    old(r).bit_size as nat,
                    m.events as int,
                ) matches Some(e) && final(r).current as nat == e)
                &&& final(info).game_event_list@.len() == m.descriptor_list@.len()
                &&& (forall|j: int|
                    0 <= j < m.descriptor_list@.len() ==> crate::game_event::descriptor_eq(
                        m.descriptor_list@[j],
                        #[trigger] final(info).game_event_list@[j],
                    ))
                &&& (forall|j: int|
                    0 <= j < final(info).game_event_list@.len() ==> (
                    #[trigger] final(info).game_event_list@[j]).wf())
            })),
    {
        let ghost data = r.bits@;
        let ghost bitlen = r.bit_size as nat;
        let events = r.read_short(9)?;
        proof {
            crate::bits::lemma_bits_val_bound(data, old(r).current as nat, 9);
            vstd::arithmetic::power2::lemma2_to64();
        }
        let length = r.read_int(20)?;
        let ghost p0 = r.current as nat;
        let mut descriptor_list: Vec<GameEventDescriptor> = Vec::new();
        let mut i: i16 = 0;
        while i < events
            invariant
                r.wf(),
                r.bits == old(r).bits,
                r.bit_size == old(r).bit_size,
                r.current >= old(r).current,
                data == old(r).bits@,
                bitlen == old(r).bit_size as nat,
                old(r).current + 29 <= old(r).bit_size,
                p0 == (old(r).current + 29) as nat,
                events as int == as_i16(bits_val(data, old(r).current as nat, 9)),
                0 <= i <= events,
                descriptor_list@.len() == i as int,
                forall|j: int|
                    0 <= j < descriptor_list@.len() ==> (#[trigger] descriptor_list@[j]).wf(),
                crate::game_event::descriptor_pos(data, p0, bitlen, i as int) == Some(
                    r.current as nat,
                ),
                forall|j: int|
                    0 <= j < i ==> ((#[trigger] crate::game_event::descriptor_pos(
                        data,
                        p0,
                        bitlen,
                        j,
                    )) is Some && crate::game_event::descriptor_at(
                        data,
                        crate::game_event::descriptor_pos(data, p0, bitlen, j)->Some_0,
                        bitlen,
                        descriptor_list@[j],
                    )),
            decreases events - i,
        {
            let ghost q = r.current as nat;
            let d = match GameEventDescriptor::parse(r) {
                Ok(v) => v,
                Err(e) => {
                    proof {
                        assert(crate::game_event::descriptor_end(data, q, bitlen) is None);
                        if crate::game_event::descriptor_pos(data, p0, bitlen, events as int)
                            is Some {
                            crate::game_event::lemma_descriptor_pos_mono(
                                data,
                                p0,
                                bitlen,
                                i as int + 1,
                                events as int,
                            );
                            assert(false);
                        }
                    }
                    return Err(e);
                },
            };
            let ghost old_list = descriptor_list@;
            descriptor_list.push(d);
            proof {
                assert(crate::game_event::descriptor_at(data, q, bitlen, d));
                assert(crate::game_event::descriptor_pos(data, p0, bitlen, i as int + 1) == Some(
                    r.current as nat,
                ));
                assert forall|j: int| 0 <= j < i + 1 implies ((
                #[trigger] crate::game_event::descriptor_pos(data, p0, bitlen, j)) is Some
                    && crate::game_event::descriptor_at(
                    data,
                    crate::game_event::descriptor_pos(data, p0, bitlen, j)->Some_0,
                    bitlen,
                    descriptor_list@[j],
                )) by {
                    if j < i {
                        assert(descriptor_list@[j] == old_list[j]);
                    } else {
                        assert(descriptor_list@[j] == d);
                    }
                }
            }
            i = i + 1;
        }
        info.game_event_list = crate::game_event::duplicate_descriptors(&descriptor_list);
        Ok(SvcGameEventList { events, length, descriptor_list })
    }
}

/// When the message with the given tag decodes successfully from the
/// bits at `start`, under network protocol `np`, demo protocol `dp`,
/// variant `game` and schema registry `reg`: one arm per message kind,
/// each the success condition of that kind's own grammar. Tag 16 and
/// tags past 32 never decode.
pub open spec fn message_ok(
    data: Seq<u8>,
    start: nat,
    bitlen: nat,
    np: int,
    dp: int,
    game: Game,
    reg: Seq<GameEventDescriptor>,
    tag: u8,
) -> bool {
    if tag == 0 {
        true
    } else if tag == 1 || tag == 4 || tag == 7 {
        // disconnect / string command / print: one nul-terminated string
        str_scan(data, start, bitlen) is Some
    } else if tag == 2 {
        // file: id, name, request flag
        start + 32 <= bitlen && (str_scan(data, (start + 32) as nat, bitlen) matches Some(sc)
            && sc.1 + 1 <= bitlen)
    } else if tag == 3 {
        start + 64 <= bitlen
    } else if tag == 5 {
        start + 8 <= bitlen && convar_chain(
            data,
            (start + 8) as nat,
            bitlen,
            bits_val(data, start, 8),
        ) is Some
    } else if tag == 6 {
        start + 40 <= bitlen
    } else if tag == 8 {
        // server info: fixed prefix, four strings, variant-gated tail
        ({
            let sp = game == Game::PORTAL_STEAMPIPE;
            let f: nat = if sp {
                (start + 258) as nat
            } else {
                (start + 162) as nat
            };
            &&& f + 24 <= bitlen
            &&& (str_scan(data, (f + 24) as nat, bitlen) matches Some(s1) && (str_scan(
                data,
                s1.1,
                bitlen,
            ) matches Some(s2) && (str_scan(data, s2.1, bitlen) matches Some(s3) && (str_scan(
                data,
                s3.1,
                bitlen,
            ) matches Some(s4) && (sp ==> s4.1 + 1 <= bitlen)))))
        })
    } else if tag == 9 {
        start + 41 <= bitlen
    } else if tag == 10 {
        start + 17 <= bitlen && ({
            let len = as_i16(bits_val(data, start, 16));
            let create = bits_val(data, (start + 16) as nat, 1) == 1;
            create || len <= 0 || class_chain(data, (start + 17) as nat, bitlen, len as nat)
                is Some
        })
    } else if tag == 11 {
        start + 1 <= bitlen
    } else if tag == 12 {
        create_string_table_ok(data, start, bitlen, np, dp)
    } else if tag == 13 {
        ({
            let present = bits_val(data, (start + 5) as nat, 1) == 1;
            let hdr: nat = if present {
                42
            } else {
                26
            };
            let lpos: nat = if present {
                (start + 22) as nat
            } else {
                (start + 6) as nat
            };
            start + hdr + bits_val(data, lpos, 20) <= bitlen
        })
    } else if tag == 14 {
        // voice init: codec string, quality byte, gated sample rate
        str_scan(data, start, bitlen) matches Some(sc) && ({
            &&& sc.1 + 8 <= bitlen
            &&& (bits_val(data, sc.1, 8) == 255 ==> sc.1 + 40 <= bitlen)
        })
    } else if tag == 15 {
        ({
            let l = as_i16(bits_val(data, (start + 16) as nat, 16));
            start + 33 <= bitlen && l >= 0 && start + 33 + l <= bitlen
        })
    } else if tag == 17 {
        ({
            let rel = bits_val(data, start, 1) == 1;
            let hdr: nat = if rel {
                9
            } else {
                25
            };
            let l = if rel {
                as_i16(bits_val(data, (start + 1) as nat, 8))
            } else {
                as_i16(bits_val(data, (start + 9) as nat, 16))
            };
            start + hdr <= bitlen && l >= 0 && start + hdr + l <= bitlen
        })
    } else if tag == 18 {
        start + 11 <= bitlen
    } else if tag == 19 {
        start + 49 <= bitlen
    } else if tag == 20 {
        start + 48 <= bitlen
    } else if tag == 21 {
        ({
            let p = (start + crate::reader::coords_width(data, start)) as nat;
            let pb = bits_val(data, (p + 9) as nat, 1) == 1;
            let end: nat = if pb {
                (p + 33) as nat
            } else {
                (p + 11) as nat
            };
            end <= bitlen
        })
    } else if tag == 22 {
        start + 12 + bits_val(data, (start + 1) as nat, 11) <= bitlen
    } else if tag == 23 {
        start + 19 + bits_val(data, (start + 8) as nat, 11) <= bitlen
    } else if tag == 24 {
        start + 31 + bits_val(data, (start + 20) as nat, 11) <= bitlen
    } else if tag == 25 {
        start + 16 <= bitlen && crate::game_event::game_event_ok(
            data,
            (start + 16) as nat,
            bitlen,
            reg,
        )
    } else if tag == 26 {
        ({
            let is_delta = bits_val(data, (start + 11) as nat, 1) == 1;
            let p1: nat = if is_delta {
                (start + 44) as nat
            } else {
                (start + 12) as nat
            };
            let lw: nat = if np == 24 {
                8 * var_int_size(data, (p1 + 12) as nat, 5)
            } else {
                20
            };
            let l = if np == 24 {
                as_i32(var_int_val(data, (p1 + 12) as nat, 5))
            } else {
                bits_val(data, (p1 + 12) as nat, 20) as int
            };
            let hdr_end = p1 + 12 + lw + 1;
            hdr_end <= bitlen && l >= 0 && hdr_end + l <= bitlen
        })
    } else if tag == 27 {
        ({
            let lw: nat = if np == 24 {
                8 * var_int_size(data, (start + 8) as nat, 5)
            } else {
                17
            };
            let l = if np == 24 {
                as_i32(var_int_val(data, (start + 8) as nat, 5))
            } else {
                bits_val(data, (start + 8) as nat, 17) as int
            };
            start + 8 + lw <= bitlen && l >= 0 && start + 8 + lw + l <= bitlen
        })
    } else if tag == 28 {
        start + (if np == 24 {
            14nat
        } else {
            13nat
        }) <= bitlen
    } else if tag == 29 {
        ({
            let l = as_i32(bits_val(data, (start + 16) as nat, 32));
            start + 48 <= bitlen && l >= 0 && start + 48 + l <= bitlen
        })
    } else if tag == 30 {
        start + 29 <= bitlen && crate::game_event::descriptor_pos(
            data,
            (start + 29) as nat,
            bitlen,
            as_i16(bits_val(data, start, 9)),
        ) is Some
    } else if tag == 31 {
        start + 32 <= bitlen && valid_utf8(crate::bits::fixed_str_bytes(data, start, 4))
            && str_scan(data, (start + 32) as nat, bitlen) is Some
    } else if tag == 32 {
        ({
            let l = as_i32(bits_val(data, start, 32));
            start + 32 <= bitlen && l >= 0 && start + 32 + l <= bitlen
        })
    } else {
        false
    }
}

/// The tag value a decoded message stands for.
pub open spec fn message_tag(m: NetSvcMessage) -> int {
    match m {
        NetSvcMessage::NetNop => 0,
        NetSvcMessage::NetDisconnect(_) => 1,
        NetSvcMessage::NetFile(_) => 2,
        NetSvcMessage::NetTick(_) => 3,
        NetSvcMessage::NetStringCmd(_) => 4,
        NetSvcMessage::NetSetConVar(_) => 5,
        NetSvcMessage::NetSignonState(_) => 6,
        NetSvcMessage::SvcPrint(_) => 7,
        NetSvcMessage::SvcServerInfo(_) => 8,
        NetSvcMessage::SvcSendTable(_) => 9,
        NetSvcMessage::SvcClassInfo(_) => 10,
        NetSvcMessage::SvcSetPause(_) => 11,
        NetSvcMessage::SvcCreateStringTable(_) => 12,
        NetSvcMessage::SvcUpdateStringTable(_) => 13,
        NetSvcMessage::SvcVoiceInit(_) => 14,
        NetSvcMessage::SvcVoiceData(_) => 15,
        NetSvcMessage::SvcSounds(_) => 17,
        NetSvcMessage::SvcSetView(_) => 18,
        NetSvcMessage::SvcFixAngle(_) => 19,
        NetSvcMessage::SvcCrosshairAngle(_) => 20,
        NetSvcMessage::SvcBspDecal(_) => 21,
        NetSvcMessage::SvcSplitScreen(_) => 22,
        NetSvcMessage::SvcUserMessage(_) => 23,
        NetSvcMessage::SvcEntityMessage(_) => 24,
        NetSvcMessage::SvcGameEvent(_) => 25,
        NetSvcMessage::SvcPacketEntities(_) => 26,
        NetSvcMessage::SvcTempEntities(_) => 27,
        NetSvcMessage::SvcPrefetch(_) => 28,
        NetSvcMessage::SvcMenu(_) => 29,
        NetSvcMessage::SvcGameEventList(_) => 30,
        NetSvcMessage::SvcGetCvarValue(_) => 31,
        NetSvcMessage::SvcCmdKeyValues(_) => 32,
    }
}

impl NetSvcMessage {
    /// Dispatches one message tag to its variant grammar. Tag 16 is
    /// unassigned and any tag past 32 is unknown; both are decode
    /// failures for the whole demo. Only the schema-defining message
    /// (tag 30) may touch the session's registry.
    #[verifier::rlimit(100)]
    pub fn parse(r: &mut BitReader, msg_type: u8, info: &mut DemoInfo) -> (res: Result<
        NetSvcMessage,
        ParserError,
    >)
        requires
            old(r).wf(),
        ensures
            final(r).bits == old(r).bits,
            final(r).bit_size == old(r).bit_size,
            final(r).wf(),
            final(r).current >= old(r).current,
            final(info).net_svc_message_bits == old(info).net_svc_message_bits,
            final(info).net_protocol == old(info).net_protocol,
            final(info).demo_protocol == old(info).demo_protocol,
            final(info).game == old(info).game,
            msg_type != 30 ==> *final(info) == *old(info),
            msg_type == 16 || msg_type > 32 ==> res == Err::<NetSvcMessage, ParserError>(
                ParserError::DecodeError,
            ) && *final(r) == *old(r),
            msg_type == 0 ==> res == Ok::<NetSvcMessage, ParserError>(NetSvcMessage::NetNop)
                && *final(r) == *old(r),
            res is Ok <==> message_ok(
                old(r).bits@,
                old(r).current as nat,
                old(r).bit_size as nat,
                old(info).net_protocol as int,
                old(info).demo_protocol as int,
                old(info).game,
                old(info).game_event_list@,
                msg_type,
            ),
            (res matches Ok(m) ==> message_tag(m) == msg_type as int),
    {
        match msg_type {
            0u8 => Ok(NetSvcMessage::NetNop),
            1u8 => Ok(NetSvcMessage::NetDisconnect(NetDisconnect::parse(r)?)),
            2u8 => Ok(NetSvcMessage::NetFile(NetFile::parse(r)?)),
            3u8 => Ok(NetSvcMessage::NetTick(NetTick::parse(r)?)),
            4u8 => Ok(NetSvcMessage::NetStringCmd(NetStringCmd::parse(r)?)),
            5u8 => Ok(NetSvcMessage::NetSetConVar(NetSetConVar::parse(r)?)),
            6u8 => Ok(NetSvcMessage::NetSignonState(NetSignonState::parse(r)?)),
            7u8 => Ok(NetSvcMessage::SvcPrint(SvcPrint::parse(r)?)),
            8u8 => Ok(NetSvcMessage::SvcServerInfo(SvcServerInfo::parse(r, info)?)),
            9u8 => Ok(NetSvcMessage::SvcSendTable(SvcSendTable::parse(r)?)),
            10u8 => Ok(NetSvcMessage::SvcClassInfo(SvcClassInfo::parse(r)?)),
            11u8 => Ok(NetSvcMessage::SvcSetPause(SvcSetPause::parse(r)?)),
            12u8 => Ok(NetSvcMessage::SvcCreateStringTable(SvcCreateStringTable::parse(r, info)?)),
            13u8 => Ok(NetSvcMessage::SvcUpdateStringTable(SvcUpdateStringTable::parse(r)?)),
            14u8 => Ok(NetSvcMessage::SvcVoiceInit(SvcVoiceInit::parse(r)?)),
            15u8 => Ok(NetSvcMessage::SvcVoiceData(SvcVoiceData::parse(r)?)),
            17u8 => Ok(NetSvcMessage::SvcSounds(SvcSounds::parse(r)?)),
            18u8 => Ok(NetSvcMessage::SvcSetView(SvcSetView::parse(r)?)),
            19u8 => Ok(NetSvcMessage::SvcFixAngle(SvcFixAngle::parse(r)?)),
            20u8 => Ok(NetSvcMessage::SvcCrosshairAngle(SvcCrosshairAngle::parse(r)?)),
            21u8 => Ok(NetSvcMessage::SvcBspDecal(SvcBspDecal::parse(r)?)),
            22u8 => Ok(NetSvcMessage::SvcSplitScreen(SvcSplitScreen::parse(r)?)),
            23u8 => Ok(NetSvcMessage::SvcUserMessage(SvcUserMessage::parse(r)?)),
            24u8 => Ok(NetSvcMessage::SvcEntityMessage(SvcEntityMessage::parse(r)?)),
            25u8 => Ok(NetSvcMessage::SvcGameEvent(SvcGameEvent::parse(r, info)?)),
            26u8 => Ok(NetSvcMessage::SvcPacketEntities(SvcPacketEntities::parse(r, info)?)),
            27u8 => Ok(NetSvcMessage::SvcTempEntities(SvcTempEntities::parse(r, info)?)),
            28u8 => Ok(NetSvcMessage::SvcPrefetch(SvcPrefetch::parse(r, info)?)),
            29u8 => Ok(NetSvcMessage::SvcMenu(SvcMenu::parse(r)?)),
            30u8 => Ok(NetSvcMessage::SvcGameEventList(SvcGameEventList::parse(r, info)?)),
            31u8 => Ok(NetSvcMessage::SvcGetCvarValue(SvcGetCvarValue::parse(r)?)),
            32u8 => Ok(NetSvcMessage::SvcCmdKeyValues(SvcCmdKeyValues::parse(r)?)),
            _ => Err(ParserError::DecodeError),
        }
    }
}

/// Decodes the message sub-stream of one packet payload: within the
/// region of `size` declared bytes starting at the cursor, repeatedly
/// reads a tag of the profile's width and dispatches it, stopping once
/// fewer than 7 bits remain before the region's declared end (trailing
/// pad bits are tolerated, exact termination is not required).
#[verifier::rlimit(100)]
pub fn parse_net_svc_messages(r: &mut BitReader, size: usize, info: &mut DemoInfo) -> (res:
    Result<Vec<NetSvcMessage>, ParserError>)
    requires
        old(r).wf(),
        old(info).wf(),
    ensures
        final(r).bits == old(r).bits,
        final(r).bit_size == old(r).bit_size,
        final(r).wf(),
        final(r).current >= old(r).current,
        final(info).net_svc_message_bits == old(info).net_svc_message_bits,
        final(info).net_protocol == old(info).net_protocol,
        final(info).demo_protocol == old(info).demo_protocol,
        final(info).game == old(info).game,
        res is Ok ==> old(r).current + 8 * size <= final(r).current + 6,
        size == 0 ==> (res matches Ok(v) && v@.len() == 0),
        (res matches Ok(v) ==> (forall|j: int|
            0 <= j < v@.len() ==> (0 <= message_tag(#[trigger] v@[j]) <= 32 && message_tag(v@[j])
                != 16))),
        (res matches Ok(v) ==> (v@.len() > 0 ==> ({
            let tb = old(info).net_svc_message_bits as nat;
            let t0 = bits_val(old(r).bits@, old(r).current as nat, tb);
            &&& message_tag(v@[0]) == t0
            &&& message_ok(
                old(r).bits@,
                (old(r).current + tb) as nat,
                old(r).bit_size as nat,
                old(info).net_protocol as int,
                old(info).demo_protocol as int,
                old(info).game,
                old(info).game_event_list@,
                t0 as u8,
            )
        }))),
{
    let type_size = info.net_svc_message_bits;
    let start = r.current;
    if size > (usize::MAX - start) / 8 {
        return Err(ParserError::ReaderOutOfBounds);
    }
    let end = start + size * 8;
    let mut messages: Vec<NetSvcMessage> = Vec::new();
    while r.current < end && end - r.current > 6
        invariant
            r.wf(),
            r.bits == old(r).bits,
            r.bit_size == old(r).bit_size,
            r.current >= old(r).current,
            start == old(r).current,
            end == start + size * 8,
            type_size == info.net_svc_message_bits,
            info.wf(),
            info.net_svc_message_bits == old(info).net_svc_message_bits,
            info.net_protocol == old(info).net_protocol,
            info.demo_protocol == old(info).demo_protocol,
            info.game == old(info).game,
            size == 0 ==> messages@.len() == 0,
            forall|j: int|
                0 <= j < messages@.len() ==> (0 <= message_tag(#[trigger] messages@[j]) <= 32
                    && message_tag(messages@[j]) != 16),
            messages@.len() == 0 ==> (r.current == old(r).current && info.game_event_list
                == old(info).game_event_list),
            messages@.len() > 0 ==> ({
                let tb = old(info).net_svc_message_bits as nat;
                let t0 = bits_val(old(r).bits@, old(r).current as nat, tb);
                &&& message_tag(messages@[0]) == t0
                &&& message_ok(
                    old(r).bits@,
                    (old(r).current + tb) as nat,
                    old(r).bit_size as nat,
                    old(info).net_protocol as int,
                    old(info).demo_protocol as int,
                    old(info).game,
                    old(info).game_event_list@,
                    t0 as u8,
                )
            }),
        decreases r.bit_size - r.current,
    {
        let msg_type = r.read_byte(type_size)?;
        let message = NetSvcMessage::parse(r, msg_type, info)?;
        messages.push(message);
    }
    Ok(messages)
}

} // verus!
