//! The top-level packet kinds of the demo file and their payload types.

use vstd::prelude::*;
use vstd::utf8::{decode_utf8, valid_utf8};
use crate::bits::{bits_val, as_i32, nul_scan, stream_bytes};
use crate::error::ParserError;
use crate::net_svc_messages::NetSvcMessage;
use crate::reader::BitReader;
use crate::utils::Vec3;

verus! {

// Packet type codes as represented in the file.
pub const SIGNON: u8 = 1;

pub const PPACKET: u8 = 2;

pub const SYNCTICK: u8 = 3;

pub const CONSOLECMD: u8 = 4;

pub const USERCMD: u8 = 5;

pub const DATATABLES: u8 = 6;

pub const STOP: u8 = 7;

pub const STRINGTABLES: u8 = 8;

/// Per-packet command info: view state at the packet's tick. The vector
/// components keep the raw IEEE 754 bits of their 32-bit float fields.
#[derive(Debug, Clone, Copy, PartialEq, Eq, Structural)]
pub struct CmdInfo {
    pub flags: i32,
    pub view_origin: Vec3<u32>,
    pub view_angles: Vec3<u32>,
    pub local_view_angles: Vec3<u32>,
    pub view_origin2: Vec3<u32>,
    pub view_angles2: Vec3<u32>,
    pub local_view_angles2: Vec3<u32>,
}

/// The fields of a command info block decoded from the 608 bits at
/// `start`.
pub open spec fn cmd_info_parsed(data: Seq<u8>, start: nat, c: CmdInfo) -> bool {
    &&& c.flags as int == as_i32(bits_val(data, start, 32))
    &&& c.view_origin.x as nat == bits_val(data, (start + 32) as nat, 32)
    &&& c.view_origin.y as nat == bits_val(data, (start + 64) as nat, 32)
    &&& c.view_origin.z as nat == bits_val(data, (start + 96) as nat, 32)
    &&& c.view_angles.x as nat == bits_val(data, (start + 128) as nat, 32)
    &&& c.view_angles.y as nat == bits_val(data, (start + 160) as nat, 32)
    &&& c.view_angles.z as nat == bits_val(data, (start + 192) as nat, 32)
    &&& c.local_view_angles.x as nat == bits_val(data, (start + 224) as nat, 32)
    &&& c.local_view_angles.y as nat == bits_val(data, (start + 256) as nat, 32)
    &&& c.local_view_angles.z as nat == bits_val(data, (start + 288) as nat, 32)
    &&& c.view_origin2.x as nat == bits_val(data, (start + 320) as nat, 32)
    &&& c.view_origin2.y as nat == bits_val(data, (start + 352) as nat, 32)
    &&& c.view_origin2.z as nat == bits_val(data, (start + 384) as nat, 32)
    &&& c.view_angles2.x as nat == bits_val(data, (start + 416) as nat, 32)
    &&& c.view_angles2.y as nat == bits_val(data, (start + 448) as nat, 32)
    &&& c.view_angles2.z as nat == bits_val(data, (start + 480) as nat, 32)
    &&& c.local_view_angles2.x as nat == bits_val(data, (start + 512) as nat, 32)
    &&& c.local_view_angles2.y as nat == bits_val(data, (start + 544) as nat, 32)
    &&& c.local_view_angles2.z as nat == bits_val(data, (start + 576) as nat, 32)
}

impl CmdInfo {
    /// Decodes the fixed 608-bit command info block: a 32-bit flags field
    /// and six three-component float vectors.
    #[verifier::rlimit(100)]
    pub fn parse(r: &mut BitReader) -> (res: Result<CmdInfo, ParserError>)
        requires
            old(r).wf(),
        ensures
            final(r).bits == old(r).bits,
            final(r).bit_size == old(r).bit_size,
            final(r).wf(),
            final(r).current >= old(r).current,
            res is Ok <==> old(r).current + 608 <= old(r).bit_size,
            (res matches Ok(c) ==> cmd_info_parsed(old(r).bits@, old(r).current as nat, c)
                && final(r).current == old(r).current + 608),
            res is Err ==> res == Err::<CmdInfo, ParserError>(ParserError::ReaderOutOfBounds),
    {
        let flags = r.read_int(32)?;
        let view_origin = Vec3 { x: r.read_uint(32)?, y: r.read_uint(32)?, z: r.read_uint(32)? };
        let view_angles = Vec3 { x: r.read_uint(32)?, y: r.read_uint(32)?, z: r.read_uint(32)? };
        let local_view_angles = Vec3 {
            x: r.read_uint(32)?,
            y: r.read_uint(32)?,
            z: r.read_uint(32)?,
        };
        let view_origin2 = Vec3 { x: r.read_uint(32)?, y: r.read_uint(32)?, z: r.read_uint(32)? };
        let view_angles2 = Vec3 { x: r.read_uint(32)?, y: r.read_uint(32)?, z: r.read_uint(32)? };
        let local_view_angles2 = Vec3 {
            x: r.read_uint(32)?,
            y: r.read_uint(32)?,
            z: r.read_uint(32)?,
        };
        Ok(
            CmdInfo {
                flags,
                view_origin,
                view_angles,
                local_view_angles,
                view_origin2,
                view_angles2,
                local_view_angles2,
            },
        )
    }
}

/// Payload shared by the sign-on and ordinary packet kinds: command info,
/// two sequence numbers, the declared byte size of the message region,
/// and the messages decoded from it.
#[derive(Debug)]
pub struct PPacket {
    pub cmd_info: CmdInfo,
    pub in_sequence: i32,
    pub out_sequence: i32,
    pub size: i32,
    pub messages: Vec<NetSvcMessage>,
}

/// A console command packet: a declared size and the command text.
#[derive(Debug, Clone, PartialEq, Eq)]
pub struct ConsoleCmd {
    pub data_size: i32,
    pub data: String,
}

impl ConsoleCmd {
    /// Decodes a declared 32-bit size followed by a nul-terminated
    /// command string.
    #[verifier::rlimit(100)]
    pub fn parse(r: &mut BitReader) -> (res: Result<ConsoleCmd, ParserError>)
        requires
            old(r).wf(),
        ensures
            final(r).bits == old(r).bits,
            final(r).bit_size == old(r).bit_size,
            final(r).wf(),
            final(r).current >= old(r).current,
            (res matches Ok(c) ==> ({
                let data = old(r).bits@;
                let start = old(r).current as nat;
                &&& c.data_size as int == as_i32(bits_val(data, start, 32))
                &&& (nul_scan(data, (start + 32) as nat, old(r).bit_size as nat) matches Some(k)
                    && c.data@ == decode_utf8(stream_bytes(data, (start + 32) as nat, k))
                    && final(r).current == old(r).current + 32 + 8 * (k + 1))
            })),
            res is Ok <==> (old(r).current + 32 <= old(r).bit_size && (nul_scan(
                old(r).bits@,
                (old(r).current + 32) as nat,
                old(r).bit_size as nat,
            ) matches Some(k) && valid_utf8(
                stream_bytes(old(r).bits@, (old(r).current + 32) as nat, k),
            ))),
    {
        let data_size = r.read_int(32)?;
        let data = r.read_ascii_string_nulled()?;
        Ok(ConsoleCmd { data_size, data })
    }
}

/// The optional fields of a user command; each is present only when its
/// leading presence bit is set. Move fields keep the raw IEEE 754 bits of
/// their 32-bit float fields.
#[derive(Debug, Clone, Copy, PartialEq, Eq, Structural)]
pub struct UserCmdInfo {
    pub command_number: Option<i32>,
    pub tick_count: Option<i32>,
    pub view_angles: Vec3<Option<u32>>,
    pub forward_move: Option<u32>,
    pub side_move: Option<u32>,
    pub up_move: Option<u32>,
    pub buttons: Option<i32>,
    pub impulse: Option<i32>,
    pub weapon_select: Option<i32>,
    pub weapon_subtype: Option<i32>,
    pub mouse_dx: Option<i32>,
    pub mouse_dy: Option<i32>,
}

/// A user command packet: command id, declared byte size, and the nested
/// user command fields decoded from a bounded sub-region of that size.
#[derive(Debug, Clone, Copy, PartialEq, Eq, Structural)]
pub struct UserCmd {
    pub cmd: i32,
    pub size: i32,
    pub info: UserCmdInfo,
}

/// A data-tables packet: a declared byte size; the content is treated as
/// an opaque blob and skipped, never interpreted.
#[derive(Debug, Clone, PartialEq, Eq)]
pub struct DataTables {
    pub size: i32,
    pub data: Vec<u8>,
}

/// A string-tables packet: a declared byte size; the content is treated
/// as an opaque blob and skipped, never interpreted.
#[derive(Debug, Clone, PartialEq, Eq)]
pub struct StringTables {
    pub size: i32,
    pub data: Vec<u8>,
}

/// One packet of the demo file's top-level sequence; the first field of
/// each variant is the tick it was recorded at. The sequence ends at the
/// first `Stop`, whose tick field is only 24 bits wide.
#[derive(Debug)]
pub enum Packet {
    SignOn(i32, PPacket),
    Packet(i32, PPacket),
    SyncTick(i32),
    ConsoleCmd(i32, ConsoleCmd),
    UserCmd(i32, UserCmd),
    DataTables(i32, DataTables),
    Stop(i32),
    StringTables(i32, StringTables),
}

} // verus!
