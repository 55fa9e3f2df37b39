//! The wire codec: batches of element-update records packed against a
//! shared 32-bit base time, each record carrying its time as a signed
//! delta in the narrowest width (0, 8, 16 or 32 bits) that represents
//! it exactly.

use vstd::prelude::*;

use crate::msg::Command;
use crate::msg::Error;
use crate::msg::LedMsg;

verus! {

/// 64-bit wrapping sum: the time arithmetic of the protocol clock.
pub open spec fn wadd(a: u64, b: u64) -> u64 {
    vstd::wrapping::u64_specs::wrapping_add(a, b)
}

/// 64-bit wrapping difference.
pub open spec fn wsub(a: u64, b: u64) -> u64 {
    vstd::wrapping::u64_specs::wrapping_sub(a, b)
}

/// Adding a wrapped difference back to its base restores the original.
pub proof fn lemma_wadd_wsub(t: u64, b: u64)
    ensures
        wadd(b, wsub(t, b)) == t,
{
}

/// True when `d`, read as a signed 64-bit value, fits in 8 bits.
pub open spec fn fits8(d: u64) -> bool {
    d < 0x80 || d >= 0xFFFF_FFFF_FFFF_FF80
}

/// True when `d`, read as a signed 64-bit value, fits in 16 bits.
pub open spec fn fits16(d: u64) -> bool {
    d < 0x8000 || d >= 0xFFFF_FFFF_FFFF_8000
}

/// True when `d`, read as a signed 64-bit value, fits in 32 bits.
pub open spec fn fits32(d: u64) -> bool {
    d < 0x8000_0000 || d >= 0xFFFF_FFFF_8000_0000
}

/// The width flag of the narrowest delta encoding that represents `d`
/// exactly: 0 for no bytes, 1, 2 and 3 for one, two and four bytes.
/// `None` when even 32 bits cannot represent `d`.
pub open spec fn width_flag(d: u64) -> Option<u8> {
    if d == 0 {
        Some(0u8)
    } else if fits8(d) {
        Some(1u8)
    } else if fits16(d) {
        Some(2u8)
    } else if fits32(d) {
        Some(3u8)
    } else {
        None
    }
}

/// How many delta bytes a record with width flag `flag` carries.
pub open spec fn flag_len(flag: u8) -> int {
    if flag == 0 {
        0
    } else if flag == 1 {
        1
    } else if flag == 2 {
        2
    } else {
        4
    }
}

/// How many payload bytes a command with wire tag `tag` carries.
pub open spec fn tag_len(tag: u8) -> int {
    if tag == 0 {
        0
    } else {
        1
    }
}

/// Sign-extend a value read from one delta byte.
pub open spec fn sext8(v: u64) -> u64
    recommends
        v < 0x100,
{
    if v < 0x80 {
        v
    } else {
        (v + 0xFFFF_FFFF_FFFF_FF00) as u64
    }
}

/// Sign-extend a value read from two delta bytes.
pub open spec fn sext16(v: u64) -> u64
    recommends
        v < 0x1_0000,
{
    if v < 0x8000 {
        v
    } else {
        (v + 0xFFFF_FFFF_FFFF_0000) as u64
    }
}

/// Sign-extend a value read from four delta bytes.
pub open spec fn sext32(v: u64) -> u64
    recommends
        v < 0x1_0000_0000,
{
    if v < 0x8000_0000 {
        v
    } else {
        (v + 0xFFFF_FFFF_0000_0000) as u64
    }
}

/// The little-endian bytes of the low 32 bits of `t`.
pub open spec fn le4_bytes(t: u64) -> Seq<u8> {
    seq![
        (t % 256) as u8,
        ((t / 256) % 256) as u8,
        ((t / 0x1_0000) % 256) as u8,
        ((t / 0x100_0000) % 256) as u8,
    ]
}

/// The value held by the first four bytes, read little-endian.
pub open spec fn le4_val(b: Seq<u8>) -> u64
    recommends
        b.len() >= 4,
{
    (b[0] + 256 * b[1] + 0x1_0000 * b[2] + 0x100_0000 * b[3]) as u64
}

/// The delta bytes of a record, little-endian in the width that
/// `flag` selects.
pub open spec fn delta_bytes(d: u64, flag: u8) -> Seq<u8> {
    if flag == 0 {
        Seq::empty()
    } else if flag == 1 {
        seq![(d % 256) as u8]
    } else if flag == 2 {
        seq![(d % 256) as u8, ((d / 256) % 256) as u8]
    } else {
        seq![
            (d % 256) as u8,
            ((d / 256) % 256) as u8,
            ((d / 0x1_0000) % 256) as u8,
            ((d / 0x100_0000) % 256) as u8,
        ]
    }
}

/// The delta value read back from the bytes of one record, whose delta
/// field starts at offset 3.
pub open spec fn delta_val(bytes: Seq<u8>, flag: u8) -> u64
    recommends
        3 + flag_len(flag) <= bytes.len(),
{
    if flag == 0 {
        0
    } else if flag == 1 {
        sext8(bytes[3] as u64)
    } else if flag == 2 {
        sext16((bytes[3] + 256 * bytes[4]) as u64)
    } else {
        sext32((bytes[3] + 256 * bytes[4] + 0x1_0000 * bytes[5] + 0x100_0000 * bytes[6]) as u64)
    }
}

/// The command with wire tag `tag` and payload byte `v`.
pub open spec fn wire_cmd(tag: u8, v: u8) -> Command
    recommends
        tag <= 4,
{
    if tag == 0 {
        Command::Null
    } else if tag == 1 {
        Command::Flat(v)
    } else if tag == 2 {
        Command::PulseLinear(v)
    } else if tag == 3 {
        Command::PulseQuadratic(v)
    } else {
        Command::FlatStack(v)
    }
}

/// The wire bytes of one record relative to `base`: header, element,
/// color, delta bytes, payload. `None` when the record's delta does
/// not fit a 32-bit signed offset; the encoder skips such a record.
pub open spec fn rec_bytes(msg: LedMsg, base: u64) -> Option<Seq<u8>> {
    let d = wsub(msg.time, base);
    match width_flag(d) {
        None => None,
        Some(flag) => {
            let header = (flag * 64 + msg.cmd.tag() * 4) as u8;
            let head = seq![header, msg.element, msg.color] + delta_bytes(d, flag);
            match msg.cmd.payload() {
                None => Some(head),
                Some(v) => Some(head.push(v)),
            }
        },
    }
}

/// Parse the packed records that follow the base time. `None` stands
/// for a malformed buffer: a truncated record or an unknown command
/// tag aborts the whole batch.
pub open spec fn decode_records(bytes: Seq<u8>, base: u64) -> Option<Seq<LedMsg>>
    decreases bytes.len(),
{
    if bytes.len() == 0 {
        Some(Seq::empty())
    } else if bytes.len() < 3 {
        None
    } else {
        let flag = bytes[0] / 64;
        let tag = (bytes[0] / 4) % 8;
        if tag > 4 {
            None
        } else {
            let need = 3 + flag_len(flag) + tag_len(tag);
            if bytes.len() < need {
                None
            } else {
                let d = delta_val(bytes, flag);
                let pay = if tag == 0 {
                    0u8
                } else {
                    bytes[3 + flag_len(flag)]
                };
                let m = LedMsg {
                    time: wadd(base, d),
                    element: bytes[1],
                    color: bytes[2],
                    cmd: wire_cmd(tag, pay),
                };
                match decode_records(bytes.skip(need), base) {
                    None => None,
                    Some(rest) => Some(seq![m] + rest),
                }
            }
        }
    }
}

/// What the encoder does from record `j` on, with `pos` bytes of a
/// buffer of `cap` already used: the index where it stops and the
/// bytes it appends. A record that does not fit ends the batch; after
/// each record, fewer than 3 bytes of room also ends it; a record
/// whose delta is unrepresentable is passed over.
pub open spec fn encode_from(msgs: Seq<LedMsg>, j: int, base: u64, cap: int, pos: int) -> (
    int,
    Seq<u8>,
)
    decreases msgs.len() - j,
{
    if j < 0 || j >= msgs.len() {
        (msgs.len() as int, Seq::empty())
    } else {
        match rec_bytes(msgs[j], base) {
            None => encode_from(msgs, j + 1, base, cap, pos),
            Some(b) => {
                if pos + b.len() > cap {
                    (j, Seq::empty())
                } else if pos + b.len() + 3 > cap {
                    (j + 1, b)
                } else {
                    let r = encode_from(msgs, j + 1, base, cap, pos + b.len());
                    (r.0, b + r.1)
                }
            },
        }
    }
}

/// The wrapping distance between two clock values: the length of the
/// shorter way around the 64-bit circle.
pub open spec fn dist64(a: u64, b: u64) -> u64 {
    if wsub(a, b) <= wsub(b, a) {
        wsub(a, b)
    } else {
        wsub(b, a)
    }
}

/// Reconstruct a full 64-bit base time from its transmitted low 32
/// bits: of the epoch suggested by `hint`'s high bits and the adjacent
/// one, keep whichever candidate lies closer to `hint`.
pub open spec fn resolve_base(low: u64, hint: u64) -> u64
    recommends
        low < 0x1_0000_0000,
{
    let t0 = ((hint / 0x1_0000_0000) * 0x1_0000_0000 + low) as u64;
    let alt = if hint % 0x1_0000_0000 >= 0x8000_0000 {
        wadd(t0, 0x1_0000_0000)
    } else {
        wsub(t0, 0x1_0000_0000)
    };
    if dist64(hint, alt) < dist64(hint, t0) {
        alt
    } else {
        t0
    }
}

/// What decoding a whole buffer with clock hint `hint` yields; `None`
/// stands for a `BadInput` error.
pub open spec fn decode_spec(buf: Seq<u8>, hint: u64) -> Option<Seq<LedMsg>> {
    if buf.len() == 0 {
        Some(Seq::empty())
    } else if buf.len() < 4 {
        None
    } else {
        decode_records(buf.skip(4), resolve_base(le4_val(buf), hint))
    }
}

/// `p` prepended to a parse result, keeping a parse failure a failure.
pub open spec fn prepend_records(p: Seq<LedMsg>, o: Option<Seq<LedMsg>>) -> Option<Seq<LedMsg>> {
    match o {
        None => None,
        Some(r) => Some(p + r),
    }
}

/// The wrapping distance between two clock values.
fn dist64_exec(a: u64, b: u64) -> (r: u64)
    ensures
        r == dist64(a, b),
{
    let x = a.wrapping_sub(b);
    let y = b.wrapping_sub(a);
    if x <= y {
        x
    } else {
        y
    }
}

/// Reconstruct the batch base time from its low 32 bits and the local
/// clock.
fn resolve_base_exec(low: u64, hint: u64) -> (b: u64)
    requires
        low < 0x1_0000_0000,
    ensures
        b == resolve_base(low, hint),
{
    proof {
        vstd::arithmetic::div_mod::lemma_fundamental_div_mod(hint as int, 0x1_0000_0000);
        vstd::arithmetic::div_mod::lemma_div_is_ordered(
            hint as int,
            0xFFFF_FFFF_FFFF_FFFF,
            0x1_0000_0000,
        );
        vstd::arithmetic::mul::lemma_mul_inequality(
            hint as int / 0x1_0000_0000,
            0xFFFF_FFFF,
            0x1_0000_0000,
        );
    }
    let mask = (hint / 0x1_0000_0000) * 0x1_0000_0000;
    let t0 = mask + low;
    let alt = if hint % 0x1_0000_0000 >= 0x8000_0000 {
        t0.wrapping_add(0x1_0000_0000)
    } else {
        t0.wrapping_sub(0x1_0000_0000)
    };
    let d_alt = dist64_exec(hint, alt);
    let d_t0 = dist64_exec(hint, t0);
    if d_alt < d_t0 {
        alt
    } else {
        t0
    }
}

/// Write the wire bytes of one representable record at `pos`,
/// returning how many bytes were written.
fn write_record(ret: &mut Vec<u8>, pos: usize, msg: LedMsg, base: u64) -> (rlen: usize)
    requires
        rec_bytes(msg, base) is Some,
        pos + rec_bytes(msg, base)->Some_0.len() <= old(ret).len(),
    ensures
        final(ret).len() == old(ret).len(),
        rlen == rec_bytes(msg, base)->Some_0.len(),
        3 <= rlen <= 8,
        final(ret)@.subrange(pos as int, pos + rlen) == rec_bytes(msg, base)->Some_0,
        forall|k: int| 0 <= k < pos ==> final(ret)@[k] == old(ret)@[k],
        forall|k: int| pos + rlen <= k < old(ret).len() ==> final(ret)@[k] == old(ret)@[k],
{
    let ghost b = rec_bytes(msg, base)->Some_0;
    let d = msg.time.wrapping_sub(base);
    let (flag, extra0): (u8, usize) = if d == 0 {
        (0, 0)
    } else if d < 0x80 || d >= 0xFFFF_FFFF_FFFF_FF80 {
        (1, 1)
    } else if d < 0x8000 || d >= 0xFFFF_FFFF_FFFF_8000 {
        (2, 2)
    } else {
        (3, 4)
    };
    proof {
        assert(width_flag(d) == Some(flag));
        assert(flag_len(flag) == extra0 as int);
    }
    let (tag, pay, extra1): (u8, u8, usize) = match msg.cmd {
        Command::Null => (0, 0, 0),
        Command::Flat(v) => (1, v, 1),
        Command::PulseLinear(v) => (2, v, 1),
        Command::PulseQuadratic(v) => (3, v, 1),
        Command::FlatStack(v) => (4, v, 1),
    };
    let rlen = 3 + extra0 + extra1;
    proof {
        assert(b.len() == rlen);
    }
    ret[pos] = flag * 64 + tag * 4;
    ret[pos + 1] = msg.element;
    ret[pos + 2] = msg.color;
    if extra0 >= 1 {
        ret[pos + 3] = (d % 256) as u8;
    }
    if extra0 >= 2 {
        ret[pos + 4] = ((d / 256) % 256) as u8;
    }
    if extra0 == 4 {
        ret[pos + 5] = ((d / 0x1_0000) % 256) as u8;
        ret[pos + 6] = ((d / 0x100_0000) % 256) as u8;
    }
    if extra1 == 1 {
        ret[pos + 3 + extra0] = pay;
    }
    proof {
        assert(ret@.subrange(pos as int, pos + rlen) =~= b);
    }
    rlen
}

impl LedMsg {
    /// Greatest number of bytes one record occupies on the wire:
    /// header, element and color, the widest delta, one payload byte.
    pub const MAX_LEN: usize = 1 + 2 + 4 + 1;

    /// Decode one batch. The first four bytes carry the low 32 bits of
    /// the batch base time, resolved against `cur_time`; the rest is a
    /// packed run of records. An empty buffer is an empty batch; a
    /// buffer under four bytes, a truncated record or an unknown
    /// command tag is `BadInput`, and no partial batch is returned.
    pub fn deserialize(buf: &[u8], cur_time: u64) -> (r: Result<Vec<LedMsg>, Error>)
        ensures
            match r {
                Ok(v) => decode_spec(buf@, cur_time) == Some(v@),
                Err(e) => decode_spec(buf@, cur_time) is None && e is BadInput,
            },
    {
        if buf.len() == 0 {
            let empty: Vec<LedMsg> = Vec::new();
            assert(empty@ =~= Seq::<LedMsg>::empty());
            return Ok(empty);
        }
        if buf.len() < 4 {
            return Err(Error::BadInput("buffer is too short to hold a base time".to_string()));
        }
        let low: u64 = buf[0] as u64 + 256 * (buf[1] as u64) + 0x1_0000 * (buf[2] as u64)
            + 0x100_0000 * (buf[3] as u64);
        let base = resolve_base_exec(low, cur_time);
        let mut out: Vec<LedMsg> = Vec::new();
        let mut i: usize = 4;
        while i < buf.len()
            invariant
                4 <= i <= buf@.len(),
                base == resolve_base(le4_val(buf@), cur_time),
                decode_records(buf@.skip(4), base) == prepend_records(
                    out@,
                    decode_records(buf@.skip(i as int), base),
                ),
            decreases buf@.len() - i,
        {
            let ghost tail = buf@.skip(i as int);
            assert(tail.len() == buf@.len() - i);
            assert(forall|k: int| 0 <= k < tail.len() ==> tail[k] == buf@[i + k]);
            if buf.len() - i < 3 {
                return Err(Error::BadInput("a record is truncated at the end of the buffer".to_string()));
            }
            let h = buf[i];
            let flag = h / 64;
            let tag = (h / 4) % 8;
            if tag > 4 {
                return Err(Error::BadInput("unknown command tag".to_string()));
            }
            let extra0: usize = if flag == 0 {
                0
            } else if flag == 1 {
                1
            } else if flag == 2 {
                2
            } else {
                4
            };
            let extra1: usize = if tag == 0 {
                0
            } else {
                1
            };
            let need = 3 + extra0 + extra1;
            assert(extra0 == flag_len(flag) && extra1 == tag_len(tag));
            if buf.len() - i < need {
                return Err(Error::BadInput("a record's trailing bytes run past the buffer".to_string()));
            }
            let d: u64 = if flag == 0 {
                0
            } else if flag == 1 {
                let v = buf[i + 3] as u64;
                if v < 0x80 {
                    v
                } else {
                    v + 0xFFFF_FFFF_FFFF_FF00
                }
            } else if flag == 2 {
                let v = buf[i + 3] as u64 + 256 * (buf[i + 4] as u64);
                if v < 0x8000 {
                    v
                } else {
                    v + 0xFFFF_FFFF_FFFF_0000
                }
            } else {
                let v = buf[i + 3] as u64 + 256 * (buf[i + 4] as u64) + 0x1_0000 * (buf[i + 5]
                    as u64) + 0x100_0000 * (buf[i + 6] as u64);
                if v < 0x8000_0000 {
                    v
                } else {
                    v + 0xFFFF_FFFF_0000_0000
                }
            };
            assert(d == delta_val(tail, flag));
            let pay: u8 = if tag == 0 {
                0
            } else {
                buf[i + 3 + extra0]
            };
            let cmd = if tag == 0 {
                Command::Null
            } else if tag == 1 {
                Command::Flat(pay)
            } else if tag == 2 {
                Command::PulseLinear(pay)
            } else if tag == 3 {
                Command::PulseQuadratic(pay)
            } else {
                Command::FlatStack(pay)
            };
            let m = LedMsg { time: base.wrapping_add(d), element: buf[i + 1], color: buf[i + 2], cmd };
            proof {
                assert(cmd == wire_cmd(tag, if tag == 0 { 0u8 } else { tail[3 + flag_len(flag)] }));
                assert(tail.skip(3 + flag_len(flag) + tag_len(tag)) =~= buf@.skip(i + need));
                assert(decode_records(tail, base) == prepend_records(
                    seq![m],
                    decode_records(buf@.skip(i + need), base),
                ));
            }
            let ghost out_before = out@;
            out.push(m);
            proof {
                match decode_records(buf@.skip(i + need), base) {
                    None => {
                        assert(decode_records(buf@.skip(4), base) is None);
                    },
                    Some(rest) => {
                        assert(decode_records(tail, base) == Some(seq![m] + rest));
                        assert(out_before + (seq![m] + rest) =~= out@ + rest);
                    },
                }
            }
            i = i + need;
        }
        proof {
            assert(buf@.skip(buf@.len() as int) =~= Seq::<u8>::empty());
            assert(out@ + Seq::<LedMsg>::empty() =~= out@);
        }
        Ok(out)
    }

    /// Encode a run of records against base time `cur_time` into
    /// `ret`, which must hold at least 7 bytes: the 4-byte base time
    /// plus room for one minimal record. Returns how many records were
    /// consumed and how many bytes were written. Encoding stops early
    /// as soon as the next record would not fit, or fewer than 3 bytes
    /// remain, so a caller can split an oversized batch across
    /// packets; a record whose delta cannot be represented in 32 bits
    /// is skipped, not an error.
    pub fn serialize(msgs: &[LedMsg], ret: &mut Vec<u8>, cur_time: u64) -> (r: (usize, usize))
        requires
            old(ret).len() >= 7,
        ensures
            final(ret).len() == old(ret).len(),
            r.0 <= msgs@.len(),
            4 <= r.1 <= final(ret).len(),
            r.0 == encode_from(msgs@, 0, cur_time, old(ret).len() as int, 4).0,
            r.1 == 4 + encode_from(msgs@, 0, cur_time, old(ret).len() as int, 4).1.len(),
            final(ret)@.subrange(0, 4) == le4_bytes(cur_time),
            final(ret)@.subrange(4, r.1 as int) == encode_from(
                msgs@,
                0,
                cur_time,
                old(ret).len() as int,
                4,
            ).1,
            final(ret)@.skip(r.1 as int) == old(ret)@.skip(r.1 as int),
    {
        let ghost cap = ret.len() as int;
        ret[0] = (cur_time % 256) as u8;
        ret[1] = ((cur_time / 256) % 256) as u8;
        ret[2] = ((cur_time / 0x1_0000) % 256) as u8;
        ret[3] = ((cur_time / 0x100_0000) % 256) as u8;
        proof {
            assert(ret@.subrange(0, 4) =~= le4_bytes(cur_time));
        }
        let mut pos: usize = 4;
        let mut j: usize = 0;
        while j < msgs.len()
            invariant
                j <= msgs@.len(),
                4 <= pos <= ret.len(),
                ret.len() == old(ret).len(),
                ret.len() >= 7,
                ret.len() - pos >= 3,
                cap == ret.len() as int,
                ret@.subrange(0, 4) == le4_bytes(cur_time),
                forall|k: int| pos <= k < ret@.len() ==> ret@[k] == old(ret)@[k],
                encode_from(msgs@, 0, cur_time, cap, 4) == (
                    encode_from(msgs@, j as int, cur_time, cap, pos as int).0,
                    ret@.subrange(4, pos as int) + encode_from(
                        msgs@,
                        j as int,
                        cur_time,
                        cap,
                        pos as int,
                    ).1,
                ),
            decreases msgs@.len() - j,
        {
            let msg = msgs[j];
            let d = msg.time.wrapping_sub(cur_time);
            let repr: bool = d == 0 || d < 0x8000_0000 || d >= 0xFFFF_FFFF_8000_0000;
            if repr {
                let ghost b = rec_bytes(msg, cur_time)->Some_0;
                let extra0: usize = if d == 0 {
                    0
                } else if d < 0x80 || d >= 0xFFFF_FFFF_FFFF_FF80 {
                    1
                } else if d < 0x8000 || d >= 0xFFFF_FFFF_FFFF_8000 {
                    2
                } else {
                    4
                };
                let extra1: usize = match msg.cmd {
                    Command::Null => 0,
                    _ => 1,
                };
                let rlen = 3 + extra0 + extra1;
                proof {
                    assert(rec_bytes(msg, cur_time) is Some);
                    assert(b.len() == rlen);
                }
                if ret.len() - pos < rlen {
                    proof {
                        assert(encode_from(msgs@, j as int, cur_time, cap, pos as int) == (
                            j as int,
                            Seq::<u8>::empty(),
                        ));
                        assert(ret@.subrange(4, pos as int) + Seq::<u8>::empty() =~= ret@.subrange(
                            4,
                            pos as int,
                        ));
                        assert(ret@.skip(pos as int) =~= old(ret)@.skip(pos as int));
                    }
                    return (j, pos);
                }
                let ghost ret_before = ret@;
                let wlen = write_record(ret, pos, msg, cur_time);
                let newpos = pos + wlen;
                proof {
                    assert(wlen == rlen);
                    assert(ret@.subrange(0, 4) =~= ret_before.subrange(0, 4));
                    assert(ret@.subrange(4, newpos as int) =~= ret_before.subrange(4, pos as int)
                        + b);
                    assert(forall|k: int|
                        newpos <= k < ret@.len() ==> ret@[k] == old(ret)@[k]);
                }
                if ret.len() - newpos < 3 {
                    proof {
                        assert(encode_from(msgs@, j as int, cur_time, cap, pos as int) == (
                            j as int + 1,
                            b,
                        ));
                        assert(ret@.skip(newpos as int) =~= old(ret)@.skip(newpos as int));
                    }
                    return (j + 1, newpos);
                }
                proof {
                    let fut = encode_from(msgs@, j as int + 1, cur_time, cap, newpos as int);
                    assert(encode_from(msgs@, j as int, cur_time, cap, pos as int) == (
                        fut.0,
                        b + fut.1,
                    ));
                    assert(ret_before.subrange(4, pos as int) + (b + fut.1) =~= ret@.subrange(
                        4,
                        newpos as int,
                    ) + fut.1);
                }
                pos = newpos;
            } else {
                proof {
                    assert(rec_bytes(msg, cur_time) is None);
                    assert(encode_from(msgs@, j as int, cur_time, cap, pos as int) == encode_from(
                        msgs@,
                        j as int + 1,
                        cur_time,
                        cap,
                        pos as int,
                    ));
                }
            }
            j = j + 1;
        }
        proof {
            assert(encode_from(msgs@, msgs@.len() as int, cur_time, cap, pos as int) == (
                msgs@.len() as int,
                Seq::<u8>::empty(),
            ));
            assert(ret@.subrange(4, pos as int) + Seq::<u8>::empty() =~= ret@.subrange(
                4,
                pos as int,
            ));
            assert(ret@.skip(pos as int) =~= old(ret)@.skip(pos as int));
        }
        (msgs.len(), pos)
    }
}

/// The four little-endian bytes of `d` rebuild `d`'s low 32 bits.
proof fn lemma_le4(d: u64)
    ensures
        d % 256 + 256 * ((d / 256) % 256) + 0x1_0000 * ((d / 0x1_0000) % 256) + 0x100_0000 * ((d
            / 0x100_0000) % 256) == d % 0x1_0000_0000,
{
    vstd::arithmetic::div_mod::lemma_breakdown(d as int, 0x1_0000, 0x1_0000);
    vstd::arithmetic::div_mod::lemma_breakdown(d as int, 256, 256);
    vstd::arithmetic::div_mod::lemma_breakdown(d as int / 0x1_0000, 256, 256);
    vstd::arithmetic::div_mod::lemma_div_denominator(d as int, 0x1_0000, 256);
}

/// Sign extension undoes truncation to one byte when the value fits.
proof fn lemma_sext8(d: u64)
    requires
        fits8(d),
    ensures
        sext8(d % 256) == d,
{
    if d < 0x80 {
        vstd::arithmetic::div_mod::lemma_small_mod(d as nat, 256);
    } else {
        let r = d - 0xFFFF_FFFF_FFFF_FF00;
        vstd::arithmetic::div_mod::lemma_mod_multiples_vanish(0xFF_FFFF_FFFF_FFFF, r, 256);
        vstd::arithmetic::div_mod::lemma_small_mod(r as nat, 256);
    }
}

/// Sign extension undoes truncation to two bytes when the value fits.
proof fn lemma_sext16(d: u64)
    requires
        fits16(d),
    ensures
        sext16((d % 256 + 256 * ((d / 256) % 256)) as u64) == d,
{
    vstd::arithmetic::div_mod::lemma_breakdown(d as int, 256, 256);
    if d < 0x8000 {
        vstd::arithmetic::div_mod::lemma_small_mod(d as nat, 0x1_0000);
    } else {
        let r = d - 0xFFFF_FFFF_FFFF_0000;
        vstd::arithmetic::div_mod::lemma_mod_multiples_vanish(0xFFFF_FFFF_FFFF, r, 0x1_0000);
        vstd::arithmetic::div_mod::lemma_small_mod(r as nat, 0x1_0000);
    }
}

/// Sign extension undoes truncation to four bytes when the value fits.
proof fn lemma_sext32(d: u64)
    requires
        fits32(d),
    ensures
        sext32((d % 256 + 256 * ((d / 256) % 256) + 0x1_0000 * ((d / 0x1_0000) % 256) + 0x100_0000
            * ((d / 0x100_0000) % 256)) as u64) == d,
{
    lemma_le4(d);
    if d < 0x8000_0000 {
        vstd::arithmetic::div_mod::lemma_small_mod(d as nat, 0x1_0000_0000);
    } else {
        let r = d - 0xFFFF_FFFF_0000_0000;
        vstd::arithmetic::div_mod::lemma_mod_multiples_vanish(0xFFFF_FFFF, r, 0x1_0000_0000);
        vstd::arithmetic::div_mod::lemma_small_mod(r as nat, 0x1_0000_0000);
    }
}

/// A base time reconstructed from its own low 32 bits, with the full
/// value as the hint, is the value itself.
pub proof fn lemma_resolve_self(t: u64)
    ensures
        resolve_base(t % 0x1_0000_0000, t) == t,
{
    vstd::arithmetic::div_mod::lemma_fundamental_div_mod(t as int, 0x1_0000_0000);
    assert(((t / 0x1_0000_0000) * 0x1_0000_0000 + t % 0x1_0000_0000) as u64 == t);
    assert(dist64(t, t) == 0);
}

/// The two fields packed into a record's header byte read back as
/// themselves.
proof fn lemma_header_fields(flag: u8, tag: u8)
    requires
        flag <= 3,
        tag <= 4,
    ensures
        ((flag * 64 + tag * 4) as u8) / 64 == flag,
        (((flag * 64 + tag * 4) as u8) / 4) % 8 == tag,
{
    let h = (flag * 64 + tag * 4) as u8;
    assert(h == flag * 64 + tag * 4);
    assert(h / 64 == flag && (h / 4) % 8 == tag) by (bit_vector)
        requires
            h == flag * 64 + tag * 4,
            flag <= 3,
            tag <= 4,
    ;
}

/// Decoding what one record encodes restores that record, whatever
/// bytes follow it.
proof fn lemma_rec_roundtrip(msg: LedMsg, base: u64, rest: Seq<u8>)
    requires
        rec_bytes(msg, base) is Some,
    ensures
        decode_records(rec_bytes(msg, base)->Some_0 + rest, base) == prepend_records(
            seq![msg],
            decode_records(rest, base),
        ),
{
    let d = wsub(msg.time, base);
    let flag = width_flag(d)->Some_0;
    let tag = msg.cmd.tag();
    let b = rec_bytes(msg, base)->Some_0;
    let all = b + rest;
    let need = 3 + flag_len(flag) + tag_len(tag);
    assert(flag <= 3 && tag <= 4);
    lemma_header_fields(flag, tag);
    assert(all[0] == (flag * 64 + tag * 4) as u8);
    assert(all[1] == msg.element && all[2] == msg.color);
    assert(b.len() == need && all.len() == need + rest.len());
    assert(delta_val(all, flag) == d) by {
        if flag == 1 {
            lemma_sext8(d);
            assert(all[3] == (d % 256) as u8);
        } else if flag == 2 {
            lemma_sext16(d);
            assert(all[3] == (d % 256) as u8);
            assert(all[4] == ((d / 256) % 256) as u8);
        } else if flag == 3 {
            lemma_sext32(d);
            assert(all[3] == (d % 256) as u8);
            assert(all[4] == ((d / 256) % 256) as u8);
            assert(all[5] == ((d / 0x1_0000) % 256) as u8);
            assert(all[6] == ((d / 0x100_0000) % 256) as u8);
        }
    }
    assert(wadd(base, d) == msg.time) by {
        lemma_wadd_wsub(msg.time, base);
    }
    assert(wire_cmd(tag, if tag == 0 { 0u8 } else { all[3 + flag_len(flag)] }) == msg.cmd) by {
        if tag != 0 {
            assert(all[3 + flag_len(flag)] == msg.cmd.payload()->Some_0);
        }
    }
    assert(all.skip(need) =~= rest);
    match decode_records(rest, base) {
        None => {
            assert(decode_records(all, base) is None);
        },
        Some(r) => {
            assert(decode_records(all, base) == Some(seq![msg] + r));
        },
    }
}

/// The records among `msgs[j..n)` that are representable against
/// `base`: what the encoder actually emits of that range, in order.
pub open spec fn encodable(msgs: Seq<LedMsg>, base: u64, j: int, n: int) -> Seq<LedMsg>
    decreases n - j,
{
    if j < 0 || j >= n || n > msgs.len() {
        Seq::empty()
    } else if rec_bytes(msgs[j], base) is Some {
        seq![msgs[j]] + encodable(msgs, base, j + 1, n)
    } else {
        encodable(msgs, base, j + 1, n)
    }
}

/// Round trip: what the encoder emits starting at record `j` decodes
/// back to exactly the representable records of the consumed range,
/// in order — none lost, none duplicated, none changed.
pub proof fn lemma_round_trip(msgs: Seq<LedMsg>, base: u64, cap: int, j: int, pos: int)
    requires
        0 <= j <= msgs.len(),
    ensures
        j <= encode_from(msgs, j, base, cap, pos).0 <= msgs.len(),
        decode_records(encode_from(msgs, j, base, cap, pos).1, base) == Some(
            encodable(msgs, base, j, encode_from(msgs, j, base, cap, pos).0),
        ),
    decreases msgs.len() - j,
{
    if j >= msgs.len() {
        assert(decode_records(Seq::<u8>::empty(), base) == Some(Seq::<LedMsg>::empty()));
    } else {
        match rec_bytes(msgs[j], base) {
            None => {
                lemma_round_trip(msgs, base, cap, j + 1, pos);
            },
            Some(b) => {
                if pos + b.len() > cap {
                    assert(decode_records(Seq::<u8>::empty(), base) == Some(
                        Seq::<LedMsg>::empty(),
                    ));
                } else if pos + b.len() + 3 > cap {
                    lemma_rec_roundtrip(msgs[j], base, Seq::empty());
                    assert(b + Seq::<u8>::empty() =~= b);
                    assert(decode_records(Seq::<u8>::empty(), base) == Some(
                        Seq::<LedMsg>::empty(),
                    ));
                    assert(seq![msgs[j]] + Seq::<LedMsg>::empty() =~= seq![msgs[j]]);
                    assert(encodable(msgs, base, j + 1, j + 1) == Seq::<LedMsg>::empty());
                    assert(encodable(msgs, base, j, j + 1) == seq![msgs[j]]);
                } else {
                    lemma_round_trip(msgs, base, cap, j + 1, pos + b.len());
                    let rr = encode_from(msgs, j + 1, base, cap, pos + b.len());
                    lemma_rec_roundtrip(msgs[j], base, rr.1);
                    assert(encodable(msgs, base, j, rr.0) == seq![msgs[j]] + encodable(
                        msgs,
                        base,
                        j + 1,
                        rr.0,
                    ));
                }
            },
        }
    }
}

/// When every record of a range is representable, the representable
/// records of the range are the range itself.
pub proof fn lemma_encodable_exact(msgs: Seq<LedMsg>, base: u64, j: int, n: int)
    requires
        0 <= j <= n <= msgs.len(),
        forall|k: int| j <= k < n ==> rec_bytes(msgs[k], base) is Some,
    ensures
        encodable(msgs, base, j, n) == msgs.subrange(j, n),
    decreases n - j,
{
    if j >= n {
        assert(msgs.subrange(j, n) =~= Seq::<LedMsg>::empty());
    } else {
        lemma_encodable_exact(msgs, base, j + 1, n);
        assert(seq![msgs[j]] + msgs.subrange(j + 1, n) =~= msgs.subrange(j, n));
    }
}

/// With room for a full record and the 3-byte stop margin past `pos`,
/// the encoder always consumes at least one more record.
pub proof fn lemma_encode_progress(msgs: Seq<LedMsg>, base: u64, cap: int, j: int, pos: int)
    requires
        0 <= j < msgs.len(),
        pos + 8 <= cap,
    ensures
        encode_from(msgs, j, base, cap, pos).0 >= j + 1,
    decreases msgs.len() - j,
{
    match rec_bytes(msgs[j], base) {
        None => {
            if j + 1 < msgs.len() {
                lemma_encode_progress(msgs, base, cap, j + 1, pos);
            } else {
                assert(encode_from(msgs, j + 1, base, cap, pos) == (
                    msgs.len() as int,
                    Seq::<u8>::empty(),
                ));
            }
        },
        Some(b) => {
            assert(3 <= b.len() <= 8);
            assert(pos + b.len() <= cap);
            if pos + b.len() + 3 > cap {
                assert(encode_from(msgs, j, base, cap, pos).0 == j + 1);
            } else {
                lemma_round_trip(msgs, base, cap, j + 1, pos + b.len());
                assert(encode_from(msgs, j, base, cap, pos).0 == encode_from(
                    msgs,
                    j + 1,
                    base,
                    cap,
                    pos + b.len(),
                ).0);
            }
        },
    }
}


/// Round trip of a whole batch: when every record's delta from the
/// base fits 32 bits, the encoder's output decodes back to exactly
/// the prefix of records it reports as consumed.
pub proof fn lemma_batch_round_trip(msgs: Seq<LedMsg>, base: u64, cap: int)
    requires
        forall|k: int| 0 <= k < msgs.len() ==> rec_bytes(msgs[k], base) is Some,
    ensures
        decode_records(encode_from(msgs, 0, base, cap, 4).1, base) == Some(
            msgs.subrange(0, encode_from(msgs, 0, base, cap, 4).0),
        ),
{
    lemma_round_trip(msgs, base, cap, 0, 4);
    lemma_encodable_exact(msgs, base, 0, encode_from(msgs, 0, base, cap, 4).0);
}

/// Decode a run of packets against one clock hint and concatenate the
/// batches, in order; one bad packet fails the whole run.
pub open spec fn decode_all(pkts: Seq<Seq<u8>>, hint: u64) -> Option<Seq<LedMsg>>
    decreases pkts.len(),
{
    if pkts.len() == 0 {
        Some(Seq::empty())
    } else {
        match decode_spec(pkts[0], hint) {
            None => None,
            Some(h) => prepend_records(h, decode_all(pkts.skip(1), hint)),
        }
    }
}

/// Decoding one more packet extends the decoded run at its end.
proof fn lemma_decode_all_push(pkts: Seq<Seq<u8>>, p: Seq<u8>, hint: u64)
    ensures
        decode_all(pkts.push(p), hint) == (match (decode_all(pkts, hint), decode_spec(p, hint)) {
            (Some(h), Some(t)) => Some(h + t),
            _ => None,
        }),
    decreases pkts.len(),
{
    if pkts.len() == 0 {
        assert(pkts.push(p)[0] == p);
        assert(pkts.push(p).skip(1) =~= Seq::<Seq<u8>>::empty());
        assert(decode_all(Seq::<Seq<u8>>::empty(), hint) == Some(Seq::<LedMsg>::empty()));
        match decode_spec(p, hint) {
            None => {},
            Some(t) => {
                assert(t + Seq::<LedMsg>::empty() =~= t);
                assert(Seq::<LedMsg>::empty() + t =~= t);
            },
        }
    } else {
        lemma_decode_all_push(pkts.skip(1), p, hint);
        assert(pkts.push(p)[0] == pkts[0]);
        assert(pkts.push(p).skip(1) =~= pkts.skip(1).push(p));
        match (decode_spec(pkts[0], hint), decode_all(pkts.skip(1), hint), decode_spec(p, hint)) {
            (Some(h0), Some(h), Some(t)) => {
                assert(h0 + (h + t) =~= (h0 + h) + t);
            },
            _ => {},
        }
    }
}

/// The representable records of a range split at any midpoint.
proof fn lemma_encodable_concat(msgs: Seq<LedMsg>, base: u64, a: int, b: int, c: int)
    requires
        0 <= a <= b <= c <= msgs.len(),
    ensures
        encodable(msgs, base, a, c) == encodable(msgs, base, a, b) + encodable(msgs, base, b, c),
    decreases b - a,
{
    if a >= b {
        assert(encodable(msgs, base, a, b) == Seq::<LedMsg>::empty());
        assert(Seq::<LedMsg>::empty() + encodable(msgs, base, b, c) =~= encodable(
            msgs,
            base,
            b,
            c,
        ));
    } else {
        lemma_encodable_concat(msgs, base, a + 1, b, c);
        if rec_bytes(msgs[a], base) is Some {
            assert(seq![msgs[a]] + (encodable(msgs, base, a + 1, b) + encodable(msgs, base, b, c))
                =~= (seq![msgs[a]] + encodable(msgs, base, a + 1, b)) + encodable(
                msgs,
                base,
                b,
                c,
            ));
        }
    }
}

/// The representable records of a suffix, counted from the suffix's
/// own start, are those of the whole, shifted.
proof fn lemma_encodable_shift(msgs: Seq<LedMsg>, base: u64, off: int, j: int, n: int)
    requires
        0 <= off <= msgs.len(),
        0 <= j <= n <= msgs.len() - off,
    ensures
        encodable(msgs.subrange(off, msgs.len() as int), base, j, n) == encodable(
            msgs,
            base,
            off + j,
            off + n,
        ),
    decreases n - j,
{
    let sub = msgs.subrange(off, msgs.len() as int);
    if j >= n {
    } else {
        assert(sub[j] == msgs[off + j]);
        lemma_encodable_shift(msgs, base, off, j + 1, n);
    }
}

/// Split a batch across as many packets as it takes: each packet is
/// one encoded run against `base` of at most `mtu` bytes, and decoding
/// the packets in order with `base` as the clock hint yields every
/// representable record of `msgs`, in order, none lost and none
/// duplicated.
pub fn serialize_packets(msgs: &Vec<LedMsg>, mtu: usize, base: u64) -> (pkts: Vec<Vec<u8>>)
    requires
        12 <= mtu,
    ensures
        decode_all(pkts.deep_view(), base) == Some(
            encodable(msgs@, base, 0, msgs@.len() as int),
        ),
        forall|i: int| 0 <= i < pkts@.len() ==> pkts@[i]@.len() <= mtu,
{
    let mut pkts: Vec<Vec<u8>> = Vec::new();
    let mut done: usize = 0;
    proof {
        assert(pkts.deep_view() =~~= Seq::<Seq<u8>>::empty());
        assert(decode_all(pkts.deep_view(), base) == Some(Seq::<LedMsg>::empty()));
        assert(encodable(msgs@, base, 0, 0) == Seq::<LedMsg>::empty());
    }
    while done < msgs.len()
        invariant
            done <= msgs@.len(),
            12 <= mtu,
            decode_all(pkts.deep_view(), base) == Some(encodable(msgs@, base, 0, done as int)),
            forall|i: int| 0 <= i < pkts@.len() ==> pkts@[i]@.len() <= mtu,
        decreases msgs@.len() - done,
    {
        let ghost dv0 = pkts.deep_view();
        let sub: &[LedMsg] = &msgs.as_slice()[done..msgs.len()];
        assert(sub@ == msgs@.subrange(done as int, msgs@.len() as int));
        let mut buf: Vec<u8> = vec![0u8; mtu];
        let r = LedMsg::serialize(sub, &mut buf, base);
        let n = r.0;
        let used = r.1;
        let ghost full = buf@;
        buf.truncate(used);
        proof {
            lemma_round_trip(sub@, base, mtu as int, 0, 4);
            lemma_encode_progress(sub@, base, mtu as int, 0, 4);
            lemma_resolve_self(base);
            lemma_le4(base);
            assert(buf@ =~= full.subrange(0, used as int));
            assert(buf@.len() == used >= 4);
            assert(buf@[0] == le4_bytes(base)[0] && buf@[1] == le4_bytes(base)[1] && buf@[2]
                == le4_bytes(base)[2] && buf@[3] == le4_bytes(base)[3]) by {
                assert(full.subrange(0, 4) == le4_bytes(base));
                assert(full.subrange(0, 4)[0] == full[0] && full.subrange(0, 4)[1] == full[1]
                    && full.subrange(0, 4)[2] == full[2] && full.subrange(0, 4)[3] == full[3]);
            }
            assert(le4_val(buf@) == base % 0x1_0000_0000);
            assert(buf@.skip(4) =~= full.subrange(4, used as int));
            assert(decode_spec(buf@, base) == Some(encodable(sub@, base, 0, n as int)));
            lemma_encodable_shift(msgs@, base, done as int, 0, n as int);
            lemma_encodable_concat(msgs@, base, 0, done as int, done as int + n as int);
            lemma_decode_all_push(dv0, buf@, base);
        }
        pkts.push(buf);
        proof {
            assert(pkts.deep_view() =~~= dv0.push(full.subrange(0, used as int)));
        }
        done = done + n;
    }
    pkts
}

} // verus!
