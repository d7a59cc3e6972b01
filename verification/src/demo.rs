//! The decoded demo: header, session-wide protocol parameters, and the
//! final artifact owning the ordered packet sequence.

use vstd::prelude::*;
use vstd::utf8::{decode_utf8, valid_utf8};
use crate::bits::{bits_val, as_i32, fixed_str_bytes, fixed_str_view};
use crate::error::ParserError;
use crate::game_event::GameEventDescriptor;
use crate::packet::Packet;
use crate::reader::BitReader;

verus! {

/// All five fixed-width string fields of a header starting at bit `pos`
/// decode as UTF-8 once their trailing zero padding is removed.
pub open spec fn header_strings_utf8(data: Seq<u8>, pos: nat) -> bool {
    &&& valid_utf8(fixed_str_bytes(data, pos, 8))
    &&& valid_utf8(fixed_str_bytes(data, (pos + 128) as nat, 260))
    &&& valid_utf8(fixed_str_bytes(data, (pos + 2208) as nat, 260))
    &&& valid_utf8(fixed_str_bytes(data, (pos + 4288) as nat, 260))
    &&& valid_utf8(fixed_str_bytes(data, (pos + 6368) as nat, 260))
}

/// The demo file header, decoded once from the first bytes of the buffer
/// and immutable thereafter. `playback_time` keeps the raw IEEE 754 bits
/// of the 32-bit float field; presentation converts them.
#[derive(Debug, Clone, PartialEq, Eq)]
pub struct Header {
    pub signature: String,
    pub demo_protocol: i32,
    pub network_protocol: i32,
    pub server_name: String,
    pub client_name: String,
    pub map_name: String,
    pub game_directory: String,
    pub playback_time: u32,
    pub playback_ticks: i32,
    pub playback_frames: i32,
    pub sign_on_length: i32,
}

/// The fields of a header decoded from the 8576 bits at `start`.
pub open spec fn header_parsed(data: Seq<u8>, start: nat, h: Header) -> bool {
    &&& h.signature@ == fixed_str_view(data, start, 8)
    &&& h.demo_protocol as int == as_i32(bits_val(data, (start + 64) as nat, 32))
    &&& h.network_protocol as int == as_i32(bits_val(data, (start + 96) as nat, 32))
    &&& h.server_name@ == fixed_str_view(data, (start + 128) as nat, 260)
    &&& h.client_name@ == fixed_str_view(data, (start + 2208) as nat, 260)
    &&& h.map_name@ == fixed_str_view(data, (start + 4288) as nat, 260)
    &&& h.game_directory@ == fixed_str_view(data, (start + 6368) as nat, 260)
    &&& h.playback_time as nat == bits_val(data, (start + 8448) as nat, 32)
    &&& h.playback_ticks as int == as_i32(bits_val(data, (start + 8480) as nat, 32))
    &&& h.playback_frames as int == as_i32(bits_val(data, (start + 8512) as nat, 32))
    &&& h.sign_on_length as int == as_i32(bits_val(data, (start + 8544) as nat, 32))
}

impl Header {
    /// Decodes the fixed-layout header at the cursor.
    #[verifier::rlimit(100)]
    pub fn parse(r: &mut BitReader) -> (res: Result<Header, ParserError>)
        requires
            old(r).wf(),
        ensures
            final(r).bits == old(r).bits,
            final(r).bit_size == old(r).bit_size,
            final(r).wf(),
            res is Ok <==> (old(r).current + 8576 <= old(r).bit_size && header_strings_utf8(
                old(r).bits@,
                old(r).current as nat,
            )),
            (res matches Ok(h) ==> header_parsed(old(r).bits@, old(r).current as nat, h)
                && final(r).current == old(r).current + 8576),
            res is Err ==> (res == Err::<Header, ParserError>(ParserError::ReaderOutOfBounds)
                || res == Err::<Header, ParserError>(ParserError::DecodeError)),
            (old(r).current + 8576 <= old(r).bit_size && !header_strings_utf8(
                old(r).bits@,
                old(r).current as nat,
            )) ==> res == Err::<Header, ParserError>(ParserError::DecodeError),
    {
        let signature = match r.read_ascii_string(64) {
            Ok(s) => s,
            Err(e) => {
                return Err(e);
            },
        };
        let demo_protocol = match r.read_int(32) {
            Ok(v) => v,
            Err(e) => {
                return Err(e);
            },
        };
        let network_protocol = match r.read_int(32) {
            Ok(v) => v,
            Err(e) => {
                return Err(e);
            },
        };
        let server_name = match r.read_ascii_string(2080) {
            Ok(s) => s,
            Err(e) => {
                return Err(e);
            },
        };
        let client_name = match r.read_ascii_string(2080) {
            Ok(s) => s,
            Err(e) => {
                return Err(e);
            },
        };
        let map_name = match r.read_ascii_string(2080) {
            Ok(s) => s,
            Err(e) => {
                return Err(e);
            },
        };
        let game_directory = match r.read_ascii_string(2080) {
            Ok(s) => s,
            Err(e) => {
                return Err(e);
            },
        };
        let playback_time = match r.read_uint(32) {
            Ok(v) => v,
            Err(e) => {
                return Err(e);
            },
        };
        let playback_ticks = match r.read_int(32) {
            Ok(v) => v,
            Err(e) => {
                return Err(e);
            },
        };
        let playback_frames = match r.read_int(32) {
            Ok(v) => v,
            Err(e) => {
                return Err(e);
            },
        };
        let sign_on_length = match r.read_int(32) {
            Ok(v) => v,
            Err(e) => {
                return Err(e);
            },
        };
        Ok(
            Header {
                signature,
                demo_protocol,
                network_protocol,
                server_name,
                client_name,
                map_name,
                game_directory,
                playback_time,
                playback_ticks,
                playback_frames,
                sign_on_length,
            },
        )
    }
}

/// The game variant a network-protocol version selects; each variant has
/// its own field grammar in a few message kinds.
#[allow(non_camel_case_types)]
#[derive(Debug, Clone, Copy, PartialEq, Eq, Structural)]
pub enum Game {
    PORTAL_5135,
    PORTAL_3420,
    PORTAL_STEAMPIPE,
}

/// Session-wide decode parameters derived once from the header, plus the
/// event schema registry filled by a schema-defining message and consulted
/// by later event records. One value per decode session; never shared.
#[derive(Debug)]
pub struct DemoInfo {
    pub net_svc_message_bits: usize,
    pub net_protocol: i32,
    pub demo_protocol: i32,
    pub game: Game,
    pub game_event_list: Vec<GameEventDescriptor>,
}

impl DemoInfo {
    /// The message-tag width a profile can carry: 5 bits for the oldest
    /// supported network protocol, 6 for the others.
    pub open spec fn wf(self) -> bool {
        self.net_svc_message_bits == 5 || self.net_svc_message_bits == 6
    }
}

/// The complete decoded demo: the header and the ordered packet sequence.
#[derive(Debug)]
pub struct Demo {
    pub header: Header,
    pub packets: Vec<Packet>,
}

} // verus!
