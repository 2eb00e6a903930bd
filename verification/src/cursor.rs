//! The two pure cursors of the wire format: one skips a domain name, the
//! other skips the fixed record header plus its variable-length RDATA.

use vstd::prelude::*;

use crate::errors::DnsError;

verus! {

/// Value of the big-endian 16-bit field whose first byte sits at offset `i`.
pub open spec fn be16(s: Seq<u8>, i: int) -> int {
    (s[i] as int) * 256 + (s[i + 1] as int)
}

/// Value of the big-endian 32-bit field whose first byte sits at offset `i`.
pub open spec fn be32(s: Seq<u8>, i: int) -> int {
    (s[i] as int) * 0x1000000 + (s[i + 1] as int) * 0x10000 + (s[i + 2] as int) * 256
        + (s[i + 3] as int)
}

/// Offset just past the domain name that starts at `off`, or `None` when the
/// encoding is malformed or runs past the buffer end.
///
/// A name is a sequence of length-prefixed labels (length 1 to 63) ended by a
/// zero-length label or by a 2-byte compression pointer (top two bits of the
/// length byte set).  A pointer ends the name two bytes past its own start;
/// its target is never followed.  Length bytes 64 to 191 are reserved and
/// malformed.
pub open spec fn spec_skip_name(s: Seq<u8>, off: int) -> Option<int>
    decreases s.len() - off,
{
    if off < 0 || off >= s.len() {
        None
    } else if s[off] == 0 {
        Some(off + 1)
    } else if s[off] >= 192 {
        if off + 2 <= s.len() {
            Some(off + 2)
        } else {
            None
        }
    } else if s[off] >= 64 {
        None
    } else if off + 1 + (s[off] as int) <= s.len() {
        spec_skip_name(s, off + 1 + (s[off] as int))
    } else {
        None
    }
}

/// Offset just past the record whose fixed fields start at `name_end`:
/// 2 bytes TYPE, 2 CLASS, 4 TTL, 2 RDLENGTH, then RDLENGTH bytes of RDATA.
/// `None` when fewer than 10 bytes remain or the RDATA span would run past
/// the buffer end.
pub open spec fn spec_skip_rdata(s: Seq<u8>, name_end: int) -> Option<int> {
    if 0 <= name_end && name_end + 10 <= s.len() {
        if name_end + 10 + be16(s, name_end + 8) <= s.len() {
            Some(name_end + 10 + be16(s, name_end + 8))
        } else {
            None
        }
    } else {
        None
    }
}

/// Offset just past the whole record that starts at `off`: its name, then
/// its fixed fields and RDATA.
pub open spec fn spec_skip_record(s: Seq<u8>, off: int) -> Option<int> {
    match spec_skip_name(s, off) {
        Some(name_end) => spec_skip_rdata(s, name_end),
        None => None,
    }
}

/// A successful name skip lands strictly past its start and within the buffer.
pub proof fn lemma_skip_name_bounds(s: Seq<u8>, off: int)
    requires
        spec_skip_name(s, off) is Some,
    ensures
        0 <= off < s.len(),
        off < spec_skip_name(s, off)->Some_0 <= s.len(),
    decreases s.len() - off,
{
    if !(off < 0 || off >= s.len()) && s[off] != 0 && s[off] < 192 && s[off] < 64 && off + 1 + (
    s[off] as int) <= s.len() {
        lemma_skip_name_bounds(s, off + 1 + (s[off] as int));
    }
}

/// Skipping a name reads no byte before its start: updating such a byte
/// leaves the cursor's outcome unchanged, success or failure alike.
pub proof fn lemma_skip_name_update_before(s: Seq<u8>, off: int, p: int, v: u8)
    requires
        0 <= p < s.len(),
        p < off,
    ensures
        spec_skip_name(s.update(p, v), off) == spec_skip_name(s, off),
    decreases s.len() - off,
{
    if !(off < 0 || off >= s.len()) && s[off] != 0 && s[off] < 192 && s[off] < 64 && off + 1 + (
    s[off] as int) <= s.len() {
        lemma_skip_name_update_before(s, off + 1 + (s[off] as int), p, v);
    }
}

/// A successful name skip reads no byte at or past the name's end: updating
/// such a byte leaves the cursor's result unchanged.
pub proof fn lemma_skip_name_update_after(s: Seq<u8>, off: int, p: int, v: u8)
    requires
        0 <= p < s.len(),
        spec_skip_name(s, off) is Some,
        p >= spec_skip_name(s, off)->Some_0,
    ensures
        spec_skip_name(s.update(p, v), off) == spec_skip_name(s, off),
    decreases s.len() - off,
{
    lemma_skip_name_bounds(s, off);
    if !(off < 0 || off >= s.len()) && s[off] != 0 && s[off] < 192 && s[off] < 64 && off + 1 + (
    s[off] as int) <= s.len() {
        lemma_skip_name_update_after(s, off + 1 + (s[off] as int), p, v);
    }
}

/// The record cursor reads no byte before `name_end`: updating such a byte
/// leaves its outcome unchanged, success or failure alike.
pub proof fn lemma_skip_rdata_update_before(s: Seq<u8>, name_end: int, p: int, v: u8)
    requires
        0 <= p < s.len(),
        p < name_end,
    ensures
        spec_skip_rdata(s.update(p, v), name_end) == spec_skip_rdata(s, name_end),
{
}

/// The record cursor reads only the two RDLENGTH bytes: updating any other
/// byte leaves its outcome unchanged, success or failure alike.
pub proof fn lemma_skip_rdata_update_elsewhere(s: Seq<u8>, name_end: int, p: int, v: u8)
    requires
        0 <= p < s.len(),
        p != name_end + 8,
        p != name_end + 9,
    ensures
        spec_skip_rdata(s.update(p, v), name_end) == spec_skip_rdata(s, name_end),
{
}

/// Reads the big-endian 16-bit field whose first byte sits at offset `i`.
pub fn read_u16(packet: &Vec<u8>, i: usize) -> (r: u16)
    requires
        i + 2 <= packet@.len(),
    ensures
        r as int == be16(packet@, i as int),
{
    let len = packet.len();
    proof {
        assert(i + 2 <= len);
    }
    let hi = packet[i];
    let lo = packet[i + 1];
    (hi as u16) * 256 + (lo as u16)
}

/// Reads the big-endian 32-bit field whose first byte sits at offset `i`.
pub fn read_u32(packet: &Vec<u8>, i: usize) -> (r: u32)
    requires
        i + 4 <= packet@.len(),
    ensures
        r as int == be32(packet@, i as int),
{
    let len = packet.len();
    proof {
        assert(i + 4 <= len);
    }
    let b0 = packet[i];
    let b1 = packet[i + 1];
    let b2 = packet[i + 2];
    let b3 = packet[i + 3];
    (b0 as u32) * 0x1000000 + (b1 as u32) * 0x10000 + (b2 as u32) * 256 + (b3 as u32)
}

/// Name cursor: returns the offset immediately following the domain name
/// that starts at `offset`, without interpreting label contents.
///
/// Fails with `PacketTooSmall` exactly when the starting offset is already
/// at or past the buffer end, and with `InvalidName` for every other
/// structural violation: a reserved length byte (64 to 191), or a label or
/// pointer that would run past the buffer end.
pub fn skip_name(packet: &Vec<u8>, offset: usize) -> (r: Result<usize, DnsError>)
    ensures
        match r {
            Ok(end) => spec_skip_name(packet@, offset as int) == Some(end as int),
            Err(e) => spec_skip_name(packet@, offset as int) is None && e == (
            if offset >= packet@.len() {
                DnsError::PacketTooSmall
            } else {
                DnsError::InvalidName
            }),
        },
{
    let len = packet.len();
    if offset >= len {
        return Err(DnsError::PacketTooSmall);
    }
    let mut cur: usize = offset;
    loop
        invariant
            len == packet@.len(),
            offset < len,
            cur <= len,
            spec_skip_name(packet@, offset as int) == spec_skip_name(packet@, cur as int),
        decreases len - cur,
    {
        if cur >= len {
            return Err(DnsError::InvalidName);
        }
        let b = packet[cur];
        if b == 0 {
            return Ok(cur + 1);
        }
        if b >= 192 {
            if len - cur >= 2 {
                return Ok(cur + 2);
            }
            return Err(DnsError::InvalidName);
        }
        if b >= 64 {
            return Err(DnsError::InvalidName);
        }
        let adv = b as usize + 1;
        if adv <= len - cur {
            cur = cur + adv;
        } else {
            return Err(DnsError::InvalidName);
        }
    }
}

/// Record cursor: returns the offset immediately following the record whose
/// fixed fields start at `name_end` (skipping TYPE, CLASS, TTL, RDLENGTH and
/// RDLENGTH bytes of RDATA).
///
/// Fails with `PacketTooSmall` exactly when fewer than 10 bytes remain at
/// `name_end`, and with `InvalidPacket` exactly when the declared RDATA span
/// would run past the buffer end.
pub fn skip_rdata(packet: &Vec<u8>, name_end: usize) -> (r: Result<usize, DnsError>)
    ensures
        match r {
            Ok(end) => spec_skip_rdata(packet@, name_end as int) == Some(end as int),
            Err(e) => spec_skip_rdata(packet@, name_end as int) is None && e == (
            if name_end + 10 > packet@.len() {
                DnsError::PacketTooSmall
            } else {
                DnsError::InvalidPacket
            }),
        },
{
    let len = packet.len();
    if len < 10 || name_end > len - 10 {
        return Err(DnsError::PacketTooSmall);
    }
    let rdlength = read_u16(packet, name_end + 8);
    if rdlength as usize <= len - (name_end + 10) {
        Ok(name_end + 10 + rdlength as usize)
    } else {
        Err(DnsError::InvalidPacket)
    }
}

} // verus!
