//! Top-level decoding: the packet loop and the demo entry point, plus the
//! payload grammars that carve byte-bounded sub-regions out of the stream.

use vstd::prelude::*;
use crate::bits::{bits_val, as_i32, sint_of};
use crate::demo::{Demo, DemoInfo, Game, Header, header_parsed, header_strings_utf8};
use crate::error::ParserError;
use crate::net_svc_messages::parse_net_svc_messages;
use crate::packet::{CmdInfo, ConsoleCmd, DataTables, Packet, PPacket, StringTables, UserCmd,
    UserCmdInfo, cmd_info_parsed};
use crate::reader::BitReader;
use crate::utils::Vec3;

verus! {

/// Presence bit at `p`: an optional field exists only when it is set.
pub open spec fn opt_present(data: Seq<u8>, p: nat) -> bool {
    bits_val(data, p, 1) == 1
}

/// Width of an optional field: its presence bit, plus `w` bits when set.
pub open spec fn opt_width(data: Seq<u8>, p: nat, w: nat) -> nat {
    if opt_present(data, p) {
        1 + w
    } else {
        1
    }
}

/// Total width in bits of the user command fields starting at `start`.
/// Eleven optional fields follow each other; the weapon-subtype field is
/// only attempted at all when a weapon selection is present.
pub open spec fn ucmd_width(data: Seq<u8>, start: nat) -> nat {
    let p1 = start + opt_width(data, start, 32);  // command_number
    let p2 = p1 + opt_width(data, p1, 32);  // tick_count
    let p3 = p2 + opt_width(data, p2, 32);  // view_angles.x
    let p4 = p3 + opt_width(data, p3, 32);  // view_angles.y
    let p5 = p4 + opt_width(data, p4, 32);  // view_angles.z
    let p6 = p5 + opt_width(data, p5, 32);  // forward_move
    let p7 = p6 + opt_width(data, p6, 32);  // side_move
    let p8 = p7 + opt_width(data, p7, 32);  // up_move
    let p9 = p8 + opt_width(data, p8, 32);  // buttons
    let p10 = p9 + opt_width(data, p9, 8);  // impulse
    let p11 = p10 + opt_width(data, p10, 11);  // weapon_select
    let p12 = p11 + (if opt_present(data, p10) {
        opt_width(data, p11, 6)
    } else {
        0
    });  // weapon_subtype
    let p13 = p12 + opt_width(data, p12, 16);  // mouse_dx
    let p14 = p13 + opt_width(data, p13, 16);  // mouse_dy
    (p14 - start) as nat
}

/// The user command fields decoded from the bits at `start`. Move fields
/// keep the raw IEEE 754 bits of their 32-bit float fields; the mouse
/// fields are the only sign-extended ones.
pub open spec fn ucmd_value(data: Seq<u8>, start: nat) -> UserCmdInfo {
    let p1 = start + opt_width(data, start, 32);
    let p2 = p1 + opt_width(data, p1, 32);
    let p3 = p2 + opt_width(data, p2, 32);
    let p4 = p3 + opt_width(data, p3, 32);
    let p5 = p4 + opt_width(data, p4, 32);
    let p6 = p5 + opt_width(data, p5, 32);
    let p7 = p6 + opt_width(data, p6, 32);
    let p8 = p7 + opt_width(data, p7, 32);
    let p9 = p8 + opt_width(data, p8, 32);
    let p10 = p9 + opt_width(data, p9, 8);
    let p11 = p10 + opt_width(data, p10, 11);
    let p12 = p11 + (if opt_present(data, p10) {
        opt_width(data, p11, 6)
    } else {
        0
    });
    let p13 = p12 + opt_width(data, p12, 16);
    UserCmdInfo {
        command_number: if opt_present(data, start) {
            Some(as_i32(bits_val(data, start + 1, 32)) as i32)
        } else {
            None
        },
        tick_count: if opt_present(data, p1) {
            Some(as_i32(bits_val(data, p1 + 1, 32)) as i32)
        } else {
            None
        },
        view_angles: Vec3 {
            x: if opt_present(data, p2) {
                Some(bits_val(data, p2 + 1, 32) as u32)
            } else {
                None
            },
            y: if opt_present(data, p3) {
                Some(bits_val(data, p3 + 1, 32) as u32)
            } else {
                None
            },
            z: if opt_present(data, p4) {
                Some(bits_val(data, p4 + 1, 32) as u32)
            } else {
                None
            },
        },
        forward_move: if opt_present(data, p5) {
            Some(bits_val(data, p5 + 1, 32) as u32)
        } else {
            None
        },
        side_move: if opt_present(data, p6) {
            Some(bits_val(data, p6 + 1, 32) as u32)
        } else {
            None
        },
        up_move: if opt_present(data, p7) {
            Some(bits_val(data, p7 + 1, 32) as u32)
        } else {
            None
        },
        buttons: if opt_present(data, p8) {
            Some(as_i32(bits_val(data, p8 + 1, 32)) as i32)
        } else {
            None
        },
        impulse: if opt_present(data, p9) {
            Some(as_i32(bits_val(data, p9 + 1, 8)) as i32)
        } else {
            None
        },
        weapon_select: if opt_present(data, p10) {
            Some(as_i32(bits_val(data, p10 + 1, 11)) as i32)
        } else {
            None
        },
        weapon_subtype: if opt_present(data, p10) && opt_present(data, p11) {
            Some(as_i32(bits_val(data, p11 + 1, 6)) as i32)
        } else {
            None
        },
        mouse_dx: if opt_present(data, p12) {
            Some(sint_of(bits_val(data, p12 + 1, 16), 16) as i32)
        } else {
            None
        },
        mouse_dy: if opt_present(data, p13) {
            Some(sint_of(bits_val(data, p13 + 1, 16), 16) as i32)
        } else {
            None
        },
    }
}

/// Reads one optional field: a presence bit and, when set, `amount` bits
/// reinterpreted as a signed 32-bit value without sign extension.
fn read_opt_int(r: &mut BitReader, amount: usize) -> (res: Result<Option<i32>, ParserError>)
    requires
        old(r).wf(),
        1 <= amount <= 32,
    ensures
        final(r).bits == old(r).bits,
        final(r).bit_size == old(r).bit_size,
        final(r).wf(),
        final(r).current >= old(r).current,
        res is Ok <==> old(r).current + opt_width(old(r).bits@, old(r).current as nat, amount as nat)
            <= old(r).bit_size,
        (res matches Ok(o) ==> ({
            &&& o == (if opt_present(old(r).bits@, old(r).current as nat) {
                Some(as_i32(bits_val(old(r).bits@, (old(r).current + 1) as nat, amount as nat)) as i32)
            } else {
                None::<i32>
            })
            &&& final(r).current as nat == old(r).current + opt_width(
                old(r).bits@,
                old(r).current as nat,
                amount as nat,
            )
        })),
        res is Err ==> res == Err::<Option<i32>, ParserError>(ParserError::ReaderOutOfBounds),
{
    let present = r.read_bool()?;
    if present {
        Ok(Some(r.read_int(amount)?))
    } else {
        Ok(None)
    }
}

/// Reads one optional 32-bit float field, kept as its raw IEEE 754 bits.
fn read_opt_raw32(r: &mut BitReader) -> (res: Result<Option<u32>, ParserError>)
    requires
        old(r).wf(),
    ensures
        final(r).bits == old(r).bits,
        final(r).bit_size == old(r).bit_size,
        final(r).wf(),
        final(r).current >= old(r).current,
        res is Ok <==> old(r).current + opt_width(old(r).bits@, old(r).current as nat, 32) <= old(
            r,
        ).bit_size,
        (res matches Ok(o) ==> ({
            &&& o == (if opt_present(old(r).bits@, old(r).current as nat) {
                Some(bits_val(old(r).bits@, (old(r).current + 1) as nat, 32) as u32)
            } else {
                None::<u32>
            })
            &&& final(r).current as nat == old(r).current + opt_width(
                old(r).bits@,
                old(r).current as nat,
                32,
            )
        })),
        res is Err ==> res == Err::<Option<u32>, ParserError>(ParserError::ReaderOutOfBounds),
{
    let present = r.read_bool()?;
    if present {
        Ok(Some(r.read_uint(32)?))
    } else {
        Ok(None)
    }
}

impl UserCmdInfo {
    /// Decodes the chain of optional user command fields.
    #[verifier::rlimit(100)]
    pub fn parse(r: &mut BitReader) -> (res: Result<UserCmdInfo, ParserError>)
        requires
            old(r).wf(),
        ensures
            final(r).bits == old(r).bits,
            final(r).bit_size == old(r).bit_size,
            final(r).wf(),
            final(r).current >= old(r).current,
            res is Ok <==> old(r).current + ucmd_width(old(r).bits@, old(r).current as nat) <= old(
                r,
            ).bit_size,
            (res matches Ok(u) ==> ({
                &&& u == ucmd_value(old(r).bits@, old(r).current as nat)
                &&& final(r).current as nat == old(r).current + ucmd_width(
                    old(r).bits@,
                    old(r).current as nat,
                )
            })),
            res is Err ==> res == Err::<UserCmdInfo, ParserError>(ParserError::ReaderOutOfBounds),
    {
        let ghost data = r.bits@;
        let ghost start = r.current as nat;
        let command_number = read_opt_int(r, 32)?;
        let ghost q1 = start + opt_width(data, start, 32);
        assert(r.current as nat == q1);
        let tick_count = read_opt_int(r, 32)?;
        let ghost q2 = q1 + opt_width(data, q1, 32);
        assert(r.current as nat == q2);
        let va_x = read_opt_raw32(r)?;
        let ghost q3 = q2 + opt_width(data, q2, 32);
        assert(r.current as nat == q3);
        let va_y = read_opt_raw32(r)?;
        let ghost q4 = q3 + opt_width(data, q3, 32);
        assert(r.current as nat == q4);
        let va_z = read_opt_raw32(r)?;
        let ghost q5 = q4 + opt_width(data, q4, 32);
        assert(r.current as nat == q5);
        let forward_move = read_opt_raw32(r)?;
        let ghost q6 = q5 + opt_width(data, q5, 32);
        assert(r.current as nat == q6);
        let side_move = read_opt_raw32(r)?;
        let ghost q7 = q6 + opt_width(data, q6, 32);
        assert(r.current as nat == q7);
        let up_move = read_opt_raw32(r)?;
        let ghost q8 = q7 + opt_width(data, q7, 32);
        assert(r.current as nat == q8);
        let buttons = read_opt_int(r, 32)?;
        let ghost q9 = q8 + opt_width(data, q8, 32);
        assert(r.current as nat == q9);
        let impulse = read_opt_int(r, 8)?;
        let ghost q10 = q9 + opt_width(data, q9, 8);
        assert(r.current as nat == q10);
        let weapon_select = read_opt_int(r, 11)?;
        let ghost q11 = q10 + opt_width(data, q10, 11);
        assert(r.current as nat == q11);
        let weapon_subtype = if weapon_select.is_some() {
            read_opt_int(r, 6)?
        } else {
            None
        };
        let ghost q12 = q11 + (if opt_present(data, q10) {
            opt_width(data, q11, 6)
        } else {
            0
        });
        assert(r.current as nat == q12);
        let mouse_dx = r.read_sint_if_exists(16)?;
        let ghost q13 = q12 + opt_width(data, q12, 16);
        assert(r.current as nat == q13);
        let mouse_dy = r.read_sint_if_exists(16)?;
        let ghost q14 = q13 + opt_width(data, q13, 16);
        assert(r.current as nat == q14);
        Ok(
            UserCmdInfo {
                command_number,
                tick_count,
                view_angles: Vec3 { x: va_x, y: va_y, z: va_z },
                forward_move,
                side_move,
                up_move,
                buttons,
                impulse,
                weapon_select,
                weapon_subtype,
                mouse_dx,
                mouse_dy,
            },
        )
    }
}

impl UserCmd {
    /// Decodes a command id and a declared byte size, then the user
    /// command fields from an independent view of the next `size` bytes:
    /// however many bits the fields actually consume, this cursor lands
    /// exactly `size` bytes past the region start.
    #[verifier::rlimit(100)]
    pub fn parse(r: &mut BitReader) -> (res: Result<UserCmd, ParserError>)
        requires
            old(r).wf(),
        ensures
            final(r).bits == old(r).bits,
            final(r).bit_size == old(r).bit_size,
            final(r).wf(),
            final(r).current >= old(r).current,
            res is Ok <==> (old(r).current + 64 <= old(r).bit_size && ({
                let sz = as_i32(bits_val(old(r).bits@, (old(r).current + 32) as nat, 32));
                &&& sz >= 0
                &&& old(r).current + 64 + 8 * sz <= old(r).bit_size
                &&& old(r).current + 64 + ucmd_width(
                    old(r).bits@,
                    (old(r).current + 64) as nat,
                ) <= old(r).bit_size
            })),
            (res matches Ok(u) ==> ({
                let data = old(r).bits@;
                let start = old(r).current as nat;
                &&& u.cmd as int == as_i32(bits_val(data, start, 32))
                &&& u.size as int == as_i32(bits_val(data, (start + 32) as nat, 32))
                &&& u.size >= 0
                &&& u.info == ucmd_value(data, (start + 64) as nat)
                &&& final(r).current as nat == start + 64 + 8 * u.size
            })),
    {
        let cmd = r.read_int(32)?;
        let size = r.read_int(32)?;
        if size < 0 {
            return Err(ParserError::ReaderOutOfBounds);
        }
        let size_us = size as usize;
        if size_us > usize::MAX / 8 {
            return Err(ParserError::ReaderOutOfBounds);
        }
        let mut sub = r.split_and_skip(size_us * 8)?;
        let info = UserCmdInfo::parse(&mut sub)?;
        Ok(UserCmd { cmd, size, info })
    }
}

impl PPacket {
    /// Decodes the shared sign-on/packet payload: command info, two
    /// sequence numbers and a declared byte size, then the message
    /// sub-stream from an independent view of the next `size` bytes.
    /// However much of the region the message grammar actually consumes,
    /// this cursor lands exactly `size` bytes past the region start.
    #[verifier::rlimit(100)]
    pub fn parse(r: &mut BitReader, info: &mut DemoInfo) -> (res: Result<PPacket, ParserError>)
        requires
            old(r).wf(),
            old(info).wf(),
        ensures
            final(r).bits == old(r).bits,
            final(r).bit_size == old(r).bit_size,
            final(r).wf(),
            final(r).current >= old(r).current,
            final(info).net_svc_message_bits == old(info).net_svc_message_bits,
            final(info).net_protocol == old(info).net_protocol,
            final(info).demo_protocol == old(info).demo_protocol,
            final(info).game == old(info).game,
            (old(r).current + 704 <= old(r).bit_size && as_i32(
                bits_val(old(r).bits@, (old(r).current + 672) as nat, 32),
            ) == 0) ==> res is Ok,
            (res matches Ok(p) ==> ({
                let data = old(r).bits@;
                let start = old(r).current as nat;
                &&& cmd_info_parsed(data, start, p.cmd_info)
                &&& p.in_sequence as int == as_i32(bits_val(data, (start + 608) as nat, 32))
                &&& p.out_sequence as int == as_i32(bits_val(data, (start + 640) as nat, 32))
                &&& p.size as int == as_i32(bits_val(data, (start + 672) as nat, 32))
                &&& p.size >= 0
                &&& final(r).current as nat == start + 704 + 8 * p.size
                &&& (p.size == 0 ==> p.messages@.len() == 0)
                &&& (forall|j: int|
                    0 <= j < p.messages@.len() ==> (0 <= crate::net_svc_messages::message_tag(
                        #[trigger] p.messages@[j],
                    ) <= 32 && crate::net_svc_messages::message_tag(p.messages@[j]) != 16))
                &&& (p.messages@.len() > 0 ==> ({
                    let tb = old(info).net_svc_message_bits as nat;
                    let t0 = bits_val(data, (start + 704) as nat, tb);
                    &&& crate::net_svc_messages::message_tag(p.messages@[0]) == t0
                    &&& crate::net_svc_messages::message_ok(
                        data,
                        (start + 704 + tb) as nat,
                        old(r).bit_size as nat,
                        old(info).net_protocol as int,
                        old(info).demo_protocol as int,
                        old(info).game,
                        old(info).game_event_list@,
                        t0 as u8,
                    )
                }))
            })),
    {
        let cmd_info = CmdInfo::parse(r)?;
        let in_sequence = r.read_int(32)?;
        let out_sequence = r.read_int(32)?;
        let size = r.read_int(32)?;
        if size < 0 {
            return Err(ParserError::ReaderOutOfBounds);
        }
        let size_us = size as usize;
        if size_us > usize::MAX / 8 {
            return Err(ParserError::ReaderOutOfBounds);
        }
        let mut sub = r.split_and_skip(size_us * 8)?;
        let messages = parse_net_svc_messages(&mut sub, size_us, info)?;
        Ok(PPacket { cmd_info, in_sequence, out_sequence, size, messages })
    }
}

impl DataTables {
    /// Decodes a declared byte size and skips the opaque blob exactly,
    /// leaving the cursor at `region start + size * 8` bits.
    #[verifier::rlimit(100)]
    pub fn parse(r: &mut BitReader) -> (res: Result<DataTables, ParserError>)
        requires
            old(r).wf(),
        ensures
            final(r).bits == old(r).bits,
            final(r).bit_size == old(r).bit_size,
            final(r).wf(),
            final(r).current >= old(r).current,
            ({
                let l = as_i32(bits_val(old(r).bits@, old(r).current as nat, 32));
                &&& (res is Ok <==> (old(r).current + 32 <= old(r).bit_size && l >= 0 && old(
                    r,
                ).current + 32 + 8 * l <= old(r).bit_size))
                &&& (res matches Ok(m) ==> ({
                    &&& m.size as int == l
                    &&& m.data@.len() == 0
                    &&& final(r).current as nat == old(r).current + 32 + 8 * l
                }))
            }),
            res is Err ==> res == Err::<DataTables, ParserError>(ParserError::ReaderOutOfBounds),
    {
        let size = r.read_int(32)?;
        if size < 0 {
            return Err(ParserError::ReaderOutOfBounds);
        }
        let size_us = size as usize;
        if size_us > usize::MAX / 8 {
            return Err(ParserError::ReaderOutOfBounds);
        }
        r.skip(size_us * 8)?;
        Ok(DataTables { size, data: Vec::new() })
    }
}

impl StringTables {
    /// Decodes a declared byte size and skips the opaque blob exactly,
    /// leaving the cursor at `region start + size * 8` bits.
    #[verifier::rlimit(100)]
    pub fn parse(r: &mut BitReader) -> (res: Result<StringTables, ParserError>)
        requires
            old(r).wf(),
        ensures
            final(r).bits == old(r).bits,
            final(r).bit_size == old(r).bit_size,
            final(r).wf(),
            final(r).current >= old(r).current,
            ({
                let l = as_i32(bits_val(old(r).bits@, old(r).current as nat, 32));
                &&& (res is Ok <==> (old(r).current + 32 <= old(r).bit_size && l >= 0 && old(
                    r,
                ).current + 32 + 8 * l <= old(r).bit_size))
                &&& (res matches Ok(m) ==> ({
                    &&& m.size as int == l
                    &&& m.data@.len() == 0
                    &&& final(r).current as nat == old(r).current + 32 + 8 * l
                }))
            }),
            res is Err ==> res == Err::<StringTables, ParserError>(ParserError::ReaderOutOfBounds),
    {
        let size = r.read_int(32)?;
        if size < 0 {
            return Err(ParserError::ReaderOutOfBounds);
        }
        let size_us = size as usize;
        if size_us > usize::MAX / 8 {
            return Err(ParserError::ReaderOutOfBounds);
        }
        r.skip(size_us * 8)?;
        Ok(StringTables { size, data: Vec::new() })
    }
}

/// The on-disk type code of a decoded packet.
pub open spec fn packet_code(p: Packet) -> int {
    match p {
        Packet::SignOn(_, _) => 1,
        Packet::Packet(_, _) => 2,
        Packet::SyncTick(_) => 3,
        Packet::ConsoleCmd(_, _) => 4,
        Packet::UserCmd(_, _) => 5,
        Packet::DataTables(_, _) => 6,
        Packet::Stop(_) => 7,
        Packet::StringTables(_, _) => 8,
    }
}

/// The tick a decoded packet carries.
pub open spec fn packet_tick(p: Packet) -> int {
    match p {
        Packet::SignOn(t, _) => t as int,
        Packet::Packet(t, _) => t as int,
        Packet::SyncTick(t) => t as int,
        Packet::ConsoleCmd(t, _) => t as int,
        Packet::UserCmd(t, _) => t as int,
        Packet::DataTables(t, _) => t as int,
        Packet::Stop(t) => t as int,
        Packet::StringTables(t, _) => t as int,
    }
}

/// Decodes the top-level packet sequence: one 8-bit type code and a tick
/// per packet, dispatched over the eight known codes, until the terminal
/// packet. The sequence always ends with exactly one terminal packet:
/// decoding halts immediately after it and never continues past it, and
/// an unrecognized type code fails the whole decode.
#[verifier::rlimit(100)]
pub fn parse_packets(r: &mut BitReader, info: &mut DemoInfo) -> (res: Result<
    Vec<Packet>,
    ParserError,
>)
    requires
        old(r).wf(),
        old(info).wf(),
    ensures
        final(r).bits == old(r).bits,
        final(r).bit_size == old(r).bit_size,
        final(r).wf(),
        (res matches Ok(v) ==> ({
            &&& v@.len() >= 1
            &&& v@[v@.len() - 1] is Stop
            &&& (forall|i: int| 0 <= i < v@.len() - 1 ==> !((#[trigger] v@[i]) is Stop))
        })),
        (old(r).current + 8 <= old(r).bit_size && ({
            let t = bits_val(old(r).bits@, old(r).current as nat, 8);
            t == 0 || t > 8
        })) ==> res == Err::<Vec<Packet>, ParserError>(ParserError::DecodeError),
        (old(r).current + 32 <= old(r).bit_size && bits_val(
            old(r).bits@,
            old(r).current as nat,
            8,
        ) == 7) ==> (res matches Ok(v) && v@.len() == 1),
        (res matches Ok(v) ==> ({
            let t0 = bits_val(old(r).bits@, old(r).current as nat, 8);
            &&& packet_code(v@[0]) == t0
            &&& packet_tick(v@[0]) == (if t0 == 7 {
                as_i32(bits_val(old(r).bits@, (old(r).current + 8) as nat, 24))
            } else {
                as_i32(bits_val(old(r).bits@, (old(r).current + 8) as nat, 32))
            })
        })),
{
    let mut res_vec: Vec<Packet> = Vec::new();
    let mut done = false;
    while !done
        invariant
            r.wf(),
            r.bits == old(r).bits,
            r.bit_size == old(r).bit_size,
            info.wf(),
            !done ==> (forall|i: int| 0 <= i < res_vec@.len() ==> !((#[trigger] res_vec@[i])
                is Stop)),
            done ==> ({
                &&& res_vec@.len() >= 1
                &&& res_vec@[res_vec@.len() - 1] is Stop
                &&& (forall|i: int|
                    0 <= i < res_vec@.len() - 1 ==> !((#[trigger] res_vec@[i]) is Stop))
            }),
            ({
                let t0 = bits_val(old(r).bits@, old(r).current as nat, 8);
                &&& (old(r).current + 8 <= old(r).bit_size && (t0 == 0 || t0 > 8) ==> (!done
                    && r.current == old(r).current && res_vec@.len() == 0))
                &&& (old(r).current + 32 <= old(r).bit_size && t0 == 7 ==> (if done {
                    res_vec@.len() == 1
                } else {
                    r.current == old(r).current && res_vec@.len() == 0
                }))
            }),
            res_vec@.len() == 0 && !done ==> r.current == old(r).current,
            res_vec@.len() > 0 ==> ({
                let t0 = bits_val(old(r).bits@, old(r).current as nat, 8);
                &&& packet_code(res_vec@[0]) == t0
                &&& packet_tick(res_vec@[0]) == (if t0 == 7 {
                    as_i32(bits_val(old(r).bits@, (old(r).current + 8) as nat, 24))
                } else {
                    as_i32(bits_val(old(r).bits@, (old(r).current + 8) as nat, 32))
                })
            }),
        decreases r.bit_size - r.current,
    {
        let p_type = r.read_byte(8)?;
        if p_type == 1 {
            let tick = r.read_int(32)?;
            let pp = PPacket::parse(r, info)?;
            res_vec.push(Packet::SignOn(tick, pp));
        } else if p_type == 2 {
            let tick = r.read_int(32)?;
            let pp = PPacket::parse(r, info)?;
            res_vec.push(Packet::Packet(tick, pp));
        } else if p_type == 3 {
            let tick = r.read_int(32)?;
            res_vec.push(Packet::SyncTick(tick));
        } else if p_type == 4 {
            let tick = r.read_int(32)?;
            let c = ConsoleCmd::parse(r)?;
            res_vec.push(Packet::ConsoleCmd(tick, c));
        } else if p_type == 5 {
            let tick = r.read_int(32)?;
            let u = UserCmd::parse(r)?;
            res_vec.push(Packet::UserCmd(tick, u));
        } else if p_type == 6 {
            let tick = r.read_int(32)?;
            let d = DataTables::parse(r)?;
            res_vec.push(Packet::DataTables(tick, d));
        } else if p_type == 7 {
            let tick = r.read_int(24)?;
            res_vec.push(Packet::Stop(tick));
            done = true;
        } else if p_type == 8 {
            let tick = r.read_int(32)?;
            let s = StringTables::parse(r)?;
            res_vec.push(Packet::StringTables(tick, s));
        } else {
            return Err(ParserError::DecodeError);
        }
    }
    Ok(res_vec)
}

/// Derives the session's protocol profile from a decoded header: the
/// message-tag width is 5 bits for network protocol 14 and 6 otherwise,
/// and protocols 14, 15 and 24 select the three supported game variants.
/// Any other network protocol is an unsupported format. The registry
/// starts empty.
pub fn derive_demo_info(header: &Header) -> (res: Result<DemoInfo, ParserError>)
    ensures
        res is Ok <==> (header.network_protocol == 14 || header.network_protocol == 15
            || header.network_protocol == 24),
        (res matches Ok(i) ==> ({
            &&& i.wf()
            &&& i.net_svc_message_bits == (if header.network_protocol == 14 {
                5int
            } else {
                6int
            })
            &&& i.game == (if header.network_protocol == 14 {
                Game::PORTAL_3420
            } else if header.network_protocol == 15 {
                Game::PORTAL_5135
            } else {
                Game::PORTAL_STEAMPIPE
            })
            &&& i.net_protocol == header.network_protocol
            &&& i.demo_protocol == header.demo_protocol
            &&& i.game_event_list@.len() == 0
        })),
        res is Err ==> res == Err::<DemoInfo, ParserError>(ParserError::UnsupportedFormat),
{
    let game = if header.network_protocol == 14 {
        Game::PORTAL_3420
    } else if header.network_protocol == 15 {
        Game::PORTAL_5135
    } else if header.network_protocol == 24 {
        Game::PORTAL_STEAMPIPE
    } else {
        return Err(ParserError::UnsupportedFormat);
    };
    let net_svc_message_bits: usize = if header.network_protocol == 14 {
        5
    } else {
        6
    };
    Ok(
        DemoInfo {
            net_svc_message_bits,
            net_protocol: header.network_protocol,
            demo_protocol: header.demo_protocol,
            game,
            game_event_list: Vec::new(),
        },
    )
}

/// Decodes a whole demo: the header, the protocol profile derived from
/// it, then the packet sequence. A demo-format version other than 3
/// fails as an unsupported format before any packet is decoded, as does
/// an unrecognized network protocol.
#[verifier::rlimit(100)]
pub fn parse_demo(r: &mut BitReader) -> (res: Result<Demo, ParserError>)
    requires
        old(r).wf(),
    ensures
        final(r).bits == old(r).bits,
        final(r).bit_size == old(r).bit_size,
        final(r).wf(),
        (old(r).current + 8576 <= old(r).bit_size && header_strings_utf8(
            old(r).bits@,
            old(r).current as nat,
        ) && as_i32(bits_val(old(r).bits@, (old(r).current + 64) as nat, 32)) != 3) ==> res
            == Err::<Demo, ParserError>(ParserError::UnsupportedFormat),
        (old(r).current + 8576 <= old(r).bit_size && header_strings_utf8(
            old(r).bits@,
            old(r).current as nat,
        ) && as_i32(bits_val(old(r).bits@, (old(r).current + 64) as nat, 32)) == 3 && ({
            let np = as_i32(bits_val(old(r).bits@, (old(r).current + 96) as nat, 32));
            np != 14 && np != 15 && np != 24
        })) ==> res == Err::<Demo, ParserError>(ParserError::UnsupportedFormat),
        (old(r).current + 8576 + 32 <= old(r).bit_size && header_strings_utf8(
            old(r).bits@,
            old(r).current as nat,
        ) && as_i32(bits_val(old(r).bits@, (old(r).current + 64) as nat, 32)) == 3 && ({
            let np = as_i32(bits_val(old(r).bits@, (old(r).current + 96) as nat, 32));
            np == 14 || np == 15 || np == 24
        }) && bits_val(old(r).bits@, (old(r).current + 8576) as nat, 8) == 7) ==> res is Ok,
        (res matches Ok(d) ==> ({
            &&& header_parsed(old(r).bits@, old(r).current as nat, d.header)
            &&& d.header.demo_protocol == 3
            &&& (d.header.network_protocol == 14 || d.header.network_protocol == 15
                || d.header.network_protocol == 24)
            &&& d.packets@.len() >= 1
            &&& d.packets@[d.packets@.len() - 1] is Stop
            &&& (forall|i: int|
                0 <= i < d.packets@.len() - 1 ==> !((#[trigger] d.packets@[i]) is Stop))
            &&& ({
                let t0 = bits_val(old(r).bits@, (old(r).current + 8576) as nat, 8);
                &&& packet_code(d.packets@[0]) == t0
                &&& packet_tick(d.packets@[0]) == (if t0 == 7 {
                    as_i32(bits_val(old(r).bits@, (old(r).current + 8584) as nat, 24))
                } else {
                    as_i32(bits_val(old(r).bits@, (old(r).current + 8584) as nat, 32))
                })
            })
        })),
{
    let header = Header::parse(r)?;
    if header.demo_protocol != 3 {
        return Err(ParserError::UnsupportedFormat);
    }
    let mut info = derive_demo_info(&header)?;
    let packets = parse_packets(r, &mut info)?;
    Ok(Demo { header, packets })
}

} // verus!
