//! Two-phase dynamic event schema.
//!
//! A schema-defining message carries a list of [`GameEventDescriptor`]s:
//! an identifier, a name, and an ordered list of (key name, value-type
//! tag) pairs, where list position equals the identifier. A later event
//! record carries only an identifier and the values; it can only be
//! decoded by looking the identifier up in the registry filled earlier.

use vstd::prelude::*;
use vstd::utf8::{decode_utf8, valid_utf8};
use crate::bits::{bits_val, as_i16, as_i32, nul_scan, str_scan, stream_bytes};
use crate::demo::DemoInfo;
use crate::error::ParserError;
use crate::reader::BitReader;

verus! {

/// One typed value of a decoded game event. A `Float` keeps the raw IEEE
/// 754 bits of the 32-bit field; turning them into a floating-point number
/// is presentation work left to the caller.
#[derive(Debug, Clone, PartialEq, Eq)]
pub enum GameEventKeyType {
    Boolean(bool),
    Float(u32),
    Int16(i16),
    Int32(i32),
    Int8(u8),
    Str(String),
    UInt64(u64),
}

/// Field layout of one event kind: identifier, name, and the ordered
/// key-name/value-type pairs that later event records of this kind carry.
/// Value-type tags run 1 through 7; tag 0 terminates the on-disk list and
/// never appears here.
#[derive(Debug, Clone, PartialEq, Eq)]
pub struct GameEventDescriptor {
    pub event_id: i16,
    pub name: String,
    pub key_definitions: Vec<(String, u8)>,
}

/// The key-definition pairs as character sequences beside their tags.
pub open spec fn pairs_view(s: Seq<(String, u8)>) -> Seq<(Seq<char>, u8)> {
    s.map_values(|kd: (String, u8)| (kd.0@, kd.1))
}

/// Scans a key-definition list at bit position `pos`: 3-bit value-type
/// tags each followed by a nul-terminated UTF-8 key name, ended by a
/// zero tag. `Some` carries the (name, tag) pairs in stream order and the
/// bit position just past the zero tag; `None` means the buffer ends
/// first or a name is malformed.
pub open spec fn key_defs_scan(data: Seq<u8>, pos: nat, bitlen: nat) -> Option<
    (Seq<(Seq<char>, u8)>, nat),
>
    decreases bitlen - pos,
    via key_defs_scan_dec
{
    if pos + 3 > bitlen {
        None
    } else if bits_val(data, pos, 3) == 0 {
        Some((Seq::<(Seq<char>, u8)>::empty(), (pos + 3) as nat))
    } else {
        match str_scan(data, (pos + 3) as nat, bitlen) {
            Some(sc) => match key_defs_scan(data, sc.1, bitlen) {
                Some(kd) => Some(
                    (seq![(sc.0, bits_val(data, pos, 3) as u8)] + kd.0, kd.1),
                ),
                None => None,
            },
            None => None,
        }
    }
}

#[via_fn]
proof fn key_defs_scan_dec(data: Seq<u8>, pos: nat, bitlen: nat) {
    if pos + 3 <= bitlen && bits_val(data, pos, 3) != 0 {
        if nul_scan(data, (pos + 3) as nat, bitlen) is Some {
            crate::bits::lemma_nul_scan_in_bounds(data, (pos + 3) as nat, bitlen);
        }
    }
}

impl GameEventDescriptor {
    /// Every stored value-type tag is legal (1 through 7).
    pub open spec fn wf(self) -> bool {
        forall|j: int|
            0 <= j < self.key_definitions@.len() ==> 1 <= (
            #[trigger] self.key_definitions@[j]).1 <= 7
    }

    /// Decodes one descriptor: a 9-bit identifier, a name, then key
    /// definitions each led by a 3-bit value-type tag, until a zero tag,
    /// which is consumed but not stored.
    #[verifier::rlimit(100)]
    #[verifier::loop_isolation(false)]
    pub fn parse(r: &mut BitReader) -> (res: Result<GameEventDescriptor, ParserError>)
        requires
            old(r).wf(),
        ensures
            final(r).bits == old(r).bits,
            final(r).bit_size == old(r).bit_size,
            final(r).wf(),
            final(r).current >= old(r).current,
            res is Ok <==> (old(r).current + 9 <= old(r).bit_size && (str_scan(
                old(r).bits@,
                (old(r).current + 9) as nat,
                old(r).bit_size as nat,
            ) matches Some(sc) && key_defs_scan(old(r).bits@, sc.1, old(r).bit_size as nat)
                is Some)),
            (res matches Ok(d) ==> {
                &&& d.wf()
                &&& d.event_id as int == as_i16(
                    bits_val(old(r).bits@, old(r).current as nat, 9),
                )
                &&& 0 <= d.event_id < 512
                &&& (str_scan(
                    old(r).bits@,
                    (old(r).current + 9) as nat,
                    old(r).bit_size as nat,
                ) matches Some(sc) && d.name@ == sc.0 && (key_defs_scan(
                    old(r).bits@,
                    sc.1,
                    old(r).bit_size as nat,
                ) matches Some(kd) && ({
                    &&& d.key_definitions@.len() == kd.0.len()
                    &&& (forall|j: int|
                        0 <= j < kd.0.len() ==> ((#[trigger] d.key_definitions@[j]).0@
                            == kd.0[j].0 && d.key_definitions@[j].1 == kd.0[j].1))
                    &&& final(r).current as nat == kd.1
                })))
                &&& final(r).current > old(r).current + 9
            }),
    {
        let ghost data = r.bits@;
        let ghost bitlen = r.bit_size as nat;
        let ghost start0 = r.current as nat;
        let event_id = match r.read_short(9) {
            Ok(v) => v,
            Err(e) => {
                return Err(e);
            },
        };
        proof {
            crate::bits::lemma_bits_val_bound(data, start0, 9);
            vstd::arithmetic::power2::lemma2_to64();
        }
        let name = match r.read_ascii_string_nulled() {
            Ok(s) => s,
            Err(e) => {
                return Err(e);
            },
        };
        let ghost pk = r.current as nat;
        proof {
            assert(str_scan(data, (start0 + 9) as nat, bitlen) == Some((name@, pk)));
        }
        let mut key_definitions: Vec<(String, u8)> = Vec::new();
        let ghost mut tp: nat = pk;
        let mut val_type = match r.read_byte(3) {
            Ok(v) => v,
            Err(e) => {
                proof {
                    assert(key_defs_scan(data, pk, bitlen) is None);
                }
                return Err(e);
            },
        };
        proof {
            crate::bits::lemma_bits_val_bound(data, pk, 3);
            vstd::arithmetic::power2::lemma2_to64();
            assert(pairs_view(key_definitions@) =~= Seq::<(Seq<char>, u8)>::empty());
            if key_defs_scan(data, tp, bitlen) is Some {
                let kd0 = key_defs_scan(data, tp, bitlen)->Some_0;
                assert(pairs_view(key_definitions@) + kd0.0 =~= kd0.0);
            }
        }
        while val_type != 0
            invariant
                r.wf(),
                r.bits == old(r).bits,
                r.bit_size == old(r).bit_size,
                r.current > old(r).current + 9,
                r.current as nat == tp + 3,
                val_type as nat == bits_val(data, tp, 3),
                val_type <= 7,
                forall|j: int|
                    0 <= j < key_definitions@.len() ==> 1 <= (
                    #[trigger] key_definitions@[j]).1 <= 7,
                (match key_defs_scan(data, tp, bitlen) {
                    Some(kd) => key_defs_scan(data, pk, bitlen) == Some(
                        (pairs_view(key_definitions@) + kd.0, kd.1),
                    ),
                    None => key_defs_scan(data, pk, bitlen) is None,
                }),
            decreases r.bit_size - r.current,
        {
            let key_name = match r.read_ascii_string_nulled() {
                Ok(s) => s,
                Err(e) => {
                    proof {
                        assert(key_defs_scan(data, tp, bitlen) is None);
                    }
                    return Err(e);
                },
            };
            let ghost kn = key_name@;
            let ghost tag = val_type;
            let ghost old_view = pairs_view(key_definitions@);
            proof {
                assert(str_scan(data, (tp + 3) as nat, bitlen) == Some((kn, r.current as nat)));
            }
            key_definitions.push((key_name, val_type));
            let ghost p2 = r.current as nat;
            proof {
                assert(pairs_view(key_definitions@) =~= old_view + seq![(kn, tag)]);
            }
            val_type = match r.read_byte(3) {
                Ok(v) => v,
                Err(e) => {
                    proof {
                        assert(key_defs_scan(data, p2, bitlen) is None);
                        assert(key_defs_scan(data, tp, bitlen) is None);
                    }
                    return Err(e);
                },
            };
            proof {
                crate::bits::lemma_bits_val_bound(data, p2, 3);
                vstd::arithmetic::power2::lemma2_to64();
                if key_defs_scan(data, p2, bitlen) is Some {
                    let kd2 = key_defs_scan(data, p2, bitlen)->Some_0;
                    assert(key_defs_scan(data, tp, bitlen) == Some(
                        (seq![(kn, tag)] + kd2.0, kd2.1),
                    ));
                    assert(old_view + (seq![(kn, tag)] + kd2.0) =~= (old_view + seq![(kn, tag)])
                        + kd2.0);
                } else {
                    assert(key_defs_scan(data, tp, bitlen) is None);
                }
                tp = p2;
            }
        }
        proof {
            assert(key_defs_scan(data, tp, bitlen) == Some(
                (Seq::<(Seq<char>, u8)>::empty(), (tp + 3) as nat),
            ));
            assert(pairs_view(key_definitions@) + Seq::<(Seq<char>, u8)>::empty() =~= pairs_view(
                key_definitions@,
            ));
        }
        Ok(GameEventDescriptor { event_id, name, key_definitions })
    }
}

/// Two descriptors carry the same schema: same identifier, name, and
/// key-name/value-type pairs.
pub open spec fn descriptor_eq(a: GameEventDescriptor, b: GameEventDescriptor) -> bool {
    &&& a.event_id == b.event_id
    &&& a.name@ == b.name@
    &&& a.key_definitions@.len() == b.key_definitions@.len()
    &&& (forall|j: int|
        0 <= j < a.key_definitions@.len() ==> ((#[trigger] a.key_definitions@[j]).0@
            == b.key_definitions@[j].0@ && a.key_definitions@[j].1 == b.key_definitions@[j].1))
}

impl GameEventDescriptor {
    /// An equal copy of this descriptor, so the schema registry can hold
    /// the same schema the message keeps.
    pub fn duplicate(&self) -> (r: GameEventDescriptor)
        ensures
            descriptor_eq(*self, r),
            r.wf() <==> self.wf(),
    {
        let mut key_definitions: Vec<(String, u8)> = Vec::new();
        let mut i: usize = 0;
        while i < self.key_definitions.len()
            invariant
                i <= self.key_definitions@.len(),
                key_definitions@.len() == i,
                forall|j: int|
                    0 <= j < i ==> ((#[trigger] key_definitions@[j]).0@
                        == self.key_definitions@[j].0@ && key_definitions@[j].1
                        == self.key_definitions@[j].1),
            decreases self.key_definitions@.len() - i,
        {
            let key = self.key_definitions[i].0.clone();
            let tag = self.key_definitions[i].1;
            key_definitions.push((key, tag));
            i = i + 1;
        }
        let r = GameEventDescriptor { event_id: self.event_id, name: self.name.clone(), key_definitions };
        proof {
            assert forall|j: int| 0 <= j < r.key_definitions@.len() implies ((
            #[trigger] r.key_definitions@[j]).0@ == self.key_definitions@[j].0@
                && r.key_definitions@[j].1 == self.key_definitions@[j].1) by {}
            if self.wf() {
                assert forall|j: int| 0 <= j < r.key_definitions@.len() implies 1 <= (
                #[trigger] r.key_definitions@[j]).1 <= 7 by {
                    assert(1 <= self.key_definitions@[j].1 <= 7);
                }
            }
            if r.wf() {
                assert forall|j: int| 0 <= j < self.key_definitions@.len() implies 1 <= (
                #[trigger] self.key_definitions@[j]).1 <= 7 by {
                    assert(1 <= r.key_definitions@[j].1 <= 7);
                }
            }
        }
        r
    }
}

/// Copies of a descriptor list with the same schemas, in the same order.
pub fn duplicate_descriptors(list: &Vec<GameEventDescriptor>) -> (r: Vec<GameEventDescriptor>)
    ensures
        r@.len() == list@.len(),
        forall|j: int| 0 <= j < list@.len() ==> descriptor_eq(list@[j], #[trigger] r@[j]),
        forall|j: int| 0 <= j < list@.len() ==> ((#[trigger] r@[j]).wf() <==> list@[j].wf()),
{
    let mut r: Vec<GameEventDescriptor> = Vec::new();
    let mut i: usize = 0;
    while i < list.len()
        invariant
            i <= list@.len(),
            r@.len() == i,
            forall|j: int| 0 <= j < i ==> descriptor_eq(list@[j], #[trigger] r@[j]),
            forall|j: int| 0 <= j < i ==> ((#[trigger] r@[j]).wf() <==> list@[j].wf()),
        decreases list@.len() - i,
    {
        let d = list[i].duplicate();
        r.push(d);
        i = i + 1;
    }
    r
}

/// One decoded event record: the key names of its descriptor paired with
/// the typed values read for them, in descriptor order.
#[derive(Debug, Clone, PartialEq, Eq)]
pub struct GameEvent {
    pub key_values: Vec<(String, GameEventKeyType)>,
}

/// Whether a decoded value's variant is the one a value-type tag calls
/// for: 1 string, 2 float, 3 int32, 4 int16, 5 uint8, 6 boolean, 7 uint64.
pub open spec fn value_matches_tag(v: GameEventKeyType, tag: u8) -> bool {
    match v {
        GameEventKeyType::Str(_) => tag == 1,
        GameEventKeyType::Float(_) => tag == 2,
        GameEventKeyType::Int32(_) => tag == 3,
        GameEventKeyType::Int16(_) => tag == 4,
        GameEventKeyType::Int8(_) => tag == 5,
        GameEventKeyType::Boolean(_) => tag == 6,
        GameEventKeyType::UInt64(_) => tag == 7,
    }
}

/// Bit position just past one event value of the given value-type tag
/// read at `q`; `None` for an illegal tag or a string value the buffer
/// cannot hold.
pub open spec fn value_end(data: Seq<u8>, q: nat, bitlen: nat, tag: u8) -> Option<nat> {
    if tag == 1 {
        match str_scan(data, q, bitlen) {
            Some(sc) => Some(sc.1),
            None => None,
        }
    } else if tag == 2 || tag == 3 {
        Some((q + 32) as nat)
    } else if tag == 4 {
        Some((q + 16) as nat)
    } else if tag == 5 {
        Some((q + 8) as nat)
    } else if tag == 6 {
        Some((q + 1) as nat)
    } else if tag == 7 {
        Some((q + 64) as nat)
    } else {
        None
    }
}

/// Bit position where the `j`-th value of an event record starts, when
/// the first value starts at `start` and the values follow the given
/// key definitions.
pub open spec fn event_value_pos(
    data: Seq<u8>,
    start: nat,
    bitlen: nat,
    defs: Seq<(String, u8)>,
    j: int,
) -> Option<nat>
    decreases j,
{
    if j <= 0 {
        Some(start)
    } else {
        match event_value_pos(data, start, bitlen, defs, j - 1) {
            Some(q) => value_end(data, q, bitlen, defs[j - 1].1),
            None => None,
        }
    }
}

/// Whether `v` is exactly the value of the given tag decoded from the
/// bits at `q`.
pub open spec fn value_at(
    data: Seq<u8>,
    q: nat,
    bitlen: nat,
    tag: u8,
    v: GameEventKeyType,
) -> bool {
    match v {
        GameEventKeyType::Str(s) => tag == 1 && (str_scan(data, q, bitlen) matches Some(sc)
            && s@ == sc.0),
        GameEventKeyType::Float(u) => tag == 2 && u as nat == bits_val(data, q, 32),
        GameEventKeyType::Int32(i) => tag == 3 && i as int == as_i32(bits_val(data, q, 32)),
        GameEventKeyType::Int16(i) => tag == 4 && i as int == as_i16(bits_val(data, q, 16)),
        GameEventKeyType::Int8(u) => tag == 5 && u as nat == bits_val(data, q, 8),
        GameEventKeyType::Boolean(b) => tag == 6 && b == (bits_val(data, q, 1) == 1),
        GameEventKeyType::UInt64(u) => tag == 7 && u as nat == bits_val(data, q, 64),
    }
}

/// A found key-definition list ends past its first tag.
pub proof fn lemma_key_defs_scan_end(data: Seq<u8>, pos: nat, bitlen: nat)
    requires
        key_defs_scan(data, pos, bitlen) is Some,
    ensures
        key_defs_scan(data, pos, bitlen)->Some_0.1 >= pos + 3,
    decreases bitlen - pos,
{
    if pos + 3 <= bitlen && bits_val(data, pos, 3) != 0 {
        if str_scan(data, (pos + 3) as nat, bitlen) is Some {
            crate::bits::lemma_nul_scan_in_bounds(data, (pos + 3) as nat, bitlen);
            let p2 = str_scan(data, (pos + 3) as nat, bitlen)->Some_0.1;
            lemma_key_defs_scan_end(data, p2, bitlen);
        }
    }
}

/// Bit position just past one descriptor at `p`: its 9-bit identifier,
/// its name, and its key-definition list; `None` when any part does not
/// decode.
pub open spec fn descriptor_end(data: Seq<u8>, p: nat, bitlen: nat) -> Option<nat> {
    if p + 9 > bitlen {
        None
    } else {
        match str_scan(data, (p + 9) as nat, bitlen) {
            Some(sc) => match key_defs_scan(data, sc.1, bitlen) {
                Some(kd) => Some(kd.1),
                None => None,
            },
            None => None,
        }
    }
}

/// Whether `d` is exactly the descriptor decoded from the bits at `p`.
pub open spec fn descriptor_at(data: Seq<u8>, p: nat, bitlen: nat, d: GameEventDescriptor) -> bool {
    &&& d.event_id as int == as_i16(bits_val(data, p, 9))
    &&& (str_scan(data, (p + 9) as nat, bitlen) matches Some(sc) && d.name@ == sc.0 && (
    key_defs_scan(data, sc.1, bitlen) matches Some(kd) && ({
        &&& d.key_definitions@.len() == kd.0.len()
        &&& (forall|j: int|
            0 <= j < kd.0.len() ==> ((#[trigger] d.key_definitions@[j]).0@ == kd.0[j].0
                && d.key_definitions@[j].1 == kd.0[j].1))
    })))
}

/// Bit position where the `j`-th descriptor of a schema list starts,
/// when the first one starts at `start`.
pub open spec fn descriptor_pos(data: Seq<u8>, start: nat, bitlen: nat, j: int) -> Option<nat>
    decreases j,
{
    if j <= 0 {
        Some(start)
    } else {
        match descriptor_pos(data, start, bitlen, j - 1) {
            Some(q) => descriptor_end(data, q, bitlen),
            None => None,
        }
    }
}

/// Positions later in a schema list never precede earlier ones: when the
/// `j2`-th descriptor's position is defined, so is every earlier one, no
/// further along the stream.
pub proof fn lemma_descriptor_pos_mono(
    data: Seq<u8>,
    start: nat,
    bitlen: nat,
    j1: int,
    j2: int,
)
    requires
        0 <= j1 <= j2,
        descriptor_pos(data, start, bitlen, j2) is Some,
    ensures
        descriptor_pos(data, start, bitlen, j1) is Some,
        descriptor_pos(data, start, bitlen, j1)->Some_0 <= descriptor_pos(
            data,
            start,
            bitlen,
            j2,
        )->Some_0,
    decreases j2 - j1,
{
    if j1 < j2 {
        let q = descriptor_pos(data, start, bitlen, j2 - 1);
        assert(q is Some);
        assert(descriptor_pos(data, start, bitlen, j2)->Some_0 >= q->Some_0) by {
            let p = q->Some_0;
            assert(str_scan(data, (p + 9) as nat, bitlen) is Some);
            let sc1 = str_scan(data, (p + 9) as nat, bitlen)->Some_0.1;
            lemma_key_defs_scan_end(data, sc1, bitlen);
        }
        lemma_descriptor_pos_mono(data, start, bitlen, j1, j2 - 1);
    }
}

/// When one event record decodes successfully from the bits at `start`
/// against the given registry: the identifier is readable and present,
/// and every value of its descriptor fits the buffer.
pub open spec fn game_event_ok(
    data: Seq<u8>,
    start: nat,
    bitlen: nat,
    reg: Seq<GameEventDescriptor>,
) -> bool {
    start + 9 <= bitlen && {
        let id = as_i16(bits_val(data, start, 9));
        &&& 0 <= id < reg.len()
        &&& (event_value_pos(
            data,
            (start + 9) as nat,
            bitlen,
            reg[id].key_definitions@,
            reg[id].key_definitions@.len() as int,
        ) matches Some(e) && e <= bitlen)
    }
}

/// The content of one event record decoded from the bits at `start`
/// against the given registry, together with the bit position `end` it
/// leaves behind: one key per descriptor definition, in order, each value
/// decoded at its chained position by its value-type tag.
pub open spec fn game_event_parsed(
    data: Seq<u8>,
    start: nat,
    bitlen: nat,
    reg: Seq<GameEventDescriptor>,
    ev: GameEvent,
    end: nat,
) -> bool {
    let id = as_i16(bits_val(data, start, 9));
    &&& 0 <= id < reg.len()
    &&& ev.key_values@.len() == reg[id].key_definitions@.len()
    &&& (forall|j: int|
        0 <= j < ev.key_values@.len() ==> ((#[trigger] ev.key_values@[j]).0@
            == reg[id].key_definitions@[j].0@ && value_matches_tag(
            ev.key_values@[j].1,
            reg[id].key_definitions@[j].1,
        )))
    &&& (forall|j: int|
        0 <= j < ev.key_values@.len() ==> ((#[trigger] event_value_pos(
            data,
            (start + 9) as nat,
            bitlen,
            reg[id].key_definitions@,
            j,
        )) is Some && value_at(
            data,
            event_value_pos(data, (start + 9) as nat, bitlen, reg[id].key_definitions@, j)->Some_0,
            bitlen,
            reg[id].key_definitions@[j].1,
            ev.key_values@[j].1,
        )))
    &&& (event_value_pos(
        data,
        (start + 9) as nat,
        bitlen,
        reg[id].key_definitions@,
        reg[id].key_definitions@.len() as int,
    ) matches Some(e) && end == e)
}

/// Positions later in an event record never precede earlier ones: when
/// the `j2`-th value's position is defined, so is every earlier one, no
/// further along the stream.
pub proof fn lemma_event_value_pos_mono(
    data: Seq<u8>,
    start: nat,
    bitlen: nat,
    defs: Seq<(String, u8)>,
    j1: int,
    j2: int,
)
    requires
        0 <= j1 <= j2,
        event_value_pos(data, start, bitlen, defs, j2) is Some,
    ensures
        event_value_pos(data, start, bitlen, defs, j1) is Some,
        event_value_pos(data, start, bitlen, defs, j1)->Some_0 <= event_value_pos(
            data,
            start,
            bitlen,
            defs,
            j2,
        )->Some_0,
    decreases j2 - j1,
{
    if j1 < j2 {
        let q = event_value_pos(data, start, bitlen, defs, j2 - 1);
        assert(q is Some);
        assert(event_value_pos(data, start, bitlen, defs, j2)->Some_0 >= q->Some_0) by {
            let tag = defs[j2 - 1].1;
            if tag == 1 {
                assert(str_scan(data, q->Some_0, bitlen) is Some);
            }
        }
        lemma_event_value_pos_mono(data, start, bitlen, defs, j1, j2 - 1);
    }
}

/// Reads one event value of the given value-type tag: 1 a nul-terminated
/// string, 2 a raw 32-bit float, 3 a 32-bit integer, 4 a 16-bit integer,
/// 5 a byte, 6 one bit, 7 a 64-bit integer; any other tag is a decode
/// failure that reads nothing.
fn read_event_value(r: &mut BitReader, tag: u8) -> (res: Result<GameEventKeyType, ParserError>)
    requires
        old(r).wf(),
    ensures
        final(r).bits == old(r).bits,
        final(r).bit_size == old(r).bit_size,
        final(r).wf(),
        final(r).current >= old(r).current,
        res is Ok <==> (value_end(
            old(r).bits@,
            old(r).current as nat,
            old(r).bit_size as nat,
            tag,
        ) matches Some(e) && e <= old(r).bit_size),
        (res matches Ok(v) ==> ({
            &&& value_at(old(r).bits@, old(r).current as nat, old(r).bit_size as nat, tag, v)
            &&& (value_end(
                old(r).bits@,
                old(r).current as nat,
                old(r).bit_size as nat,
                tag,
            ) matches Some(e) && final(r).current as nat == e)
        })),
        !(1 <= tag <= 7) ==> res == Err::<GameEventKeyType, ParserError>(ParserError::DecodeError),
        res is Err ==> (res == Err::<GameEventKeyType, ParserError>(
            ParserError::ReaderOutOfBounds,
        ) || res == Err::<GameEventKeyType, ParserError>(ParserError::DecodeError)),
{
    let ghost q = r.current as nat;
    if tag == 1 {
        match r.read_ascii_string_nulled() {
            Ok(s) => {
                proof {
                    assert(str_scan(old(r).bits@, q, old(r).bit_size as nat) == Some(
                        (s@, r.current as nat),
                    ));
                    crate::bits::lemma_nul_scan_in_bounds(old(r).bits@, q, old(r).bit_size as nat);
                }
                Ok(GameEventKeyType::Str(s))
            },
            Err(e) => Err(e),
        }
    } else if tag == 2 {
        match r.read_uint(32) {
            Ok(v) => Ok(GameEventKeyType::Float(v)),
            Err(e) => Err(e),
        }
    } else if tag == 3 {
        match r.read_int(32) {
            Ok(v) => Ok(GameEventKeyType::Int32(v)),
            Err(e) => Err(e),
        }
    } else if tag == 4 {
        match r.read_short(16) {
            Ok(v) => Ok(GameEventKeyType::Int16(v)),
            Err(e) => Err(e),
        }
    } else if tag == 5 {
        match r.read_byte(8) {
            Ok(v) => Ok(GameEventKeyType::Int8(v)),
            Err(e) => Err(e),
        }
    } else if tag == 6 {
        match r.read_bool() {
            Ok(v) => Ok(GameEventKeyType::Boolean(v)),
            Err(e) => Err(e),
        }
    } else if tag == 7 {
        match r.read_uint_64() {
            Ok(v) => Ok(GameEventKeyType::UInt64(v)),
            Err(e) => Err(e),
        }
    } else {
        Err(ParserError::DecodeError)
    }
}

impl GameEvent {
    /// Decodes one event record: a 9-bit identifier looked up in the
    /// session's registry, then one typed value per key definition of the
    /// descriptor found there, in descriptor order. An identifier at or
    /// past the registry's length is a schema-lookup failure, never an
    /// out-of-bounds access; a value-type tag outside 1 through 7 is a
    /// decode failure.
    #[verifier::rlimit(100)]
    pub fn parse(r: &mut BitReader, info: &DemoInfo) -> (res: Result<GameEvent, ParserError>)
        requires
            old(r).wf(),
        ensures
            final(r).bits == old(r).bits,
            final(r).bit_size == old(r).bit_size,
            final(r).wf(),
            final(r).current >= old(r).current,
            old(r).current + 9 <= old(r).bit_size && as_i16(
                bits_val(old(r).bits@, old(r).current as nat, 9),
            ) >= info.game_event_list@.len() ==> res == Err::<GameEvent, ParserError>(
                ParserError::SchemaLookupError,
            ),
            res == Err::<GameEvent, ParserError>(ParserError::SchemaLookupError) ==> (old(
                r,
            ).current + 9 <= old(r).bit_size && as_i16(
                bits_val(old(r).bits@, old(r).current as nat, 9),
            ) >= info.game_event_list@.len()),
            res is Ok <==> game_event_ok(
                old(r).bits@,
                old(r).current as nat,
                old(r).bit_size as nat,
                info.game_event_list@,
            ),
            (old(r).current + 9 <= old(r).bit_size && ({
                let id = as_i16(bits_val(old(r).bits@, old(r).current as nat, 9));
                let defs = info.game_event_list@[id].key_definitions@;
                &&& 0 <= id < info.game_event_list@.len()
                &&& (exists|j: int|
                    0 <= j < defs.len() && ((#[trigger] event_value_pos(
                        old(r).bits@,
                        (old(r).current + 9) as nat,
                        old(r).bit_size as nat,
                        defs,
                        j,
                    )) matches Some(q) && q <= old(r).bit_size && !(1 <= defs[j].1 <= 7)))
            })) ==> res == Err::<GameEvent, ParserError>(ParserError::DecodeError),
            (res matches Ok(ev) ==> game_event_parsed(
                old(r).bits@,
                old(r).current as nat,
                old(r).bit_size as nat,
                info.game_event_list@,
                ev,
                final(r).current as nat,
            )),
    {
        let ghost data = old(r).bits@;
        let ghost bitlen = old(r).bit_size as nat;
        let event_id = match r.read_short(9) {
            Ok(v) => v,
            Err(e) => {
                return Err(e);
            },
        };
        proof {
            crate::bits::lemma_bits_val_bound(data, old(r).current as nat, 9);
            vstd::arithmetic::power2::lemma2_to64();
        }
        if event_id as usize >= info.game_event_list.len() {
            return Err(ParserError::SchemaLookupError);
        }
        let descriptor = &info.game_event_list[event_id as usize];
        let ghost id = event_id as int;
        let ghost vstart = (old(r).current + 9) as nat;
        let mut key_values: Vec<(String, GameEventKeyType)> = Vec::new();
        let mut i: usize = 0;
        while i < descriptor.key_definitions.len()
            invariant
                r.wf(),
                r.bits == old(r).bits,
                r.bit_size == old(r).bit_size,
                r.current >= old(r).current,
                data == old(r).bits@,
                bitlen == old(r).bit_size as nat,
                vstart == (old(r).current + 9) as nat,
                0 <= id < info.game_event_list@.len(),
                id == as_i16(bits_val(data, old(r).current as nat, 9)),
                old(r).current + 9 <= old(r).bit_size,
                descriptor == info.game_event_list@[id],
                i <= descriptor.key_definitions@.len(),
                key_values@.len() == i,
                forall|j: int|
                    0 <= j < i ==> 1 <= (#[trigger] descriptor.key_definitions@[j]).1 <= 7,
                forall|j: int|
                    0 <= j < i ==> ((#[trigger] key_values@[j]).0@
                        == descriptor.key_definitions@[j].0@ && value_matches_tag(
                        key_values@[j].1,
                        descriptor.key_definitions@[j].1,
                    )),
                event_value_pos(data, vstart, bitlen, descriptor.key_definitions@, i as int)
                    == Some(r.current as nat),
                forall|j: int|
                    0 <= j < i ==> ((#[trigger] event_value_pos(
                        data,
                        vstart,
                        bitlen,
                        descriptor.key_definitions@,
                        j,
                    )) is Some && value_at(
                        data,
                        event_value_pos(
                            data,
                            vstart,
                            bitlen,
                            descriptor.key_definitions@,
                            j,
                        )->Some_0,
                        bitlen,
                        descriptor.key_definitions@[j].1,
                        key_values@[j].1,
                    )),
            decreases descriptor.key_definitions@.len() - i,
        {
            let name = descriptor.key_definitions[i].0.clone();
            let value_type = descriptor.key_definitions[i].1;
            let ghost q = r.current as nat;
            let ghost defs = descriptor.key_definitions@;
            let value = match read_event_value(r, value_type) {
                Ok(v) => v,
                Err(e) => {
                    proof {
                        let n = defs.len() as int;
                        // The whole chain cannot be in bounds past a failed value.
                        if event_value_pos(data, vstart, bitlen, defs, n) matches Some(en)
                            && en <= bitlen {
                            lemma_event_value_pos_mono(data, vstart, bitlen, defs, i + 1, n);
                            assert(false);
                        }
                        // A stopped decode with a later illegal tag is impossible;
                        // an illegal tag here is this very error.
                        if exists|j: int|
                            0 <= j < defs.len() && ((#[trigger] event_value_pos(
                                data,
                                vstart,
                                bitlen,
                                defs,
                                j,
                            )) matches Some(qj) && qj <= bitlen && !(1 <= defs[j].1 <= 7)) {
                            let j = choose|j: int|
                                0 <= j < defs.len() && ((#[trigger] event_value_pos(
                                    data,
                                    vstart,
                                    bitlen,
                                    defs,
                                    j,
                                )) matches Some(qj) && qj <= bitlen && !(1 <= defs[j].1 <= 7));
                            if j > i {
                                lemma_event_value_pos_mono(data, vstart, bitlen, defs, i + 1, j);
                                assert(false);
                            } else if j < i {
                                assert(1 <= defs[j].1 <= 7);
                                assert(false);
                            } else {
                                assert(!(1 <= value_type <= 7));
                            }
                        }
                    }
                    return Err(e);
                },
            };
            let ghost old_kv = key_values@;
            key_values.push((name, value));
            proof {
                assert forall|j: int| 0 <= j < i + 1 implies ((#[trigger] event_value_pos(
                    data,
                    vstart,
                    bitlen,
                    defs,
                    j,
                )) is Some && value_at(
                    data,
                    event_value_pos(data, vstart, bitlen, defs, j)->Some_0,
                    bitlen,
                    defs[j].1,
                    key_values@[j].1,
                )) by {
                    if j < i {
                        assert(key_values@[j] == old_kv[j]);
                    } else {
                        assert(key_values@[j].1 == value);
                        assert(event_value_pos(data, vstart, bitlen, defs, j) == Some(q));
                    }
                }
                assert(event_value_pos(data, vstart, bitlen, defs, i as int + 1) == Some(
                    r.current as nat,
                ));
            }
            i = i + 1;
        }
        Ok(GameEvent { key_values })
    }
}

} // verus!
