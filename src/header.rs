use vstd::prelude::*;

use crate::cid::{copy_bytes, ConnectionId};

verus! {

/// QUIC version 1.
pub const VERSION_1: u32 = 0x0000_0001;

/// QUIC version 2.
pub const VERSION_2: u32 = 0x6b33_43cf;

/// The first and last draft versions that are still recognised.
pub const DRAFT_FIRST: u32 = 0xff00_001d;

pub const DRAFT_LAST: u32 = 0xff00_0020;

/// Longest connection ID in a recognised version.
pub const MAX_CID_LEN: usize = 20;

/// The kind of the first packet of a datagram, as far as the header shows it.
#[derive(Clone, Copy, Debug, PartialEq, Eq, Structural)]
pub enum PacketType {
    VersionNegotiation,
    Initial,
    Handshake,
    ZeroRtt,
    Retry,
    Short,
    OtherVersion,
}

/// The header fields of a datagram's first packet, as sequences.
pub ghost struct HeaderModel {
    pub packet_type: PacketType,
    pub version: u32,
    pub dcid: Seq<u8>,
    pub scid: Seq<u8>,
    pub token: Seq<u8>,
}

/// The decoded header of a datagram's first packet.
pub struct PublicHeader {
    pub packet_type: PacketType,
    pub version: u32,
    pub dcid: ConnectionId,
    pub scid: ConnectionId,
    pub token: Vec<u8>,
}

impl View for PublicHeader {
    type V = HeaderModel;

    open spec fn view(&self) -> HeaderModel {
        HeaderModel {
            packet_type: self.packet_type,
            version: self.version,
            dcid: self.dcid@,
            scid: self.scid@,
            token: self.token@,
        }
    }
}

pub open spec fn is_known_version(v: u32) -> bool {
    v == VERSION_1 || v == VERSION_2 || (DRAFT_FIRST <= v && v <= DRAFT_LAST)
}

/// Four bytes from `p` on, most significant first.
pub open spec fn be32(d: Seq<u8>, p: int) -> int {
    d[p] as int * 0x100_0000 + d[p + 1] as int * 0x1_0000 + d[p + 2] as int * 0x100
        + d[p + 3] as int
}

/// Type of a long-header packet from its version and first byte.
pub open spec fn long_type(v: u32, first: u8) -> PacketType {
    let t = (first / 16) % 4;
    if v == 0 {
        PacketType::VersionNegotiation
    } else if !is_known_version(v) {
        PacketType::OtherVersion
    } else if v == VERSION_2 {
        if t == 0 {
            PacketType::Retry
        } else if t == 1 {
            PacketType::Initial
        } else if t == 2 {
            PacketType::ZeroRtt
        } else {
            PacketType::Handshake
        }
    } else {
        if t == 0 {
            PacketType::Initial
        } else if t == 1 {
            PacketType::ZeroRtt
        } else if t == 2 {
            PacketType::Handshake
        } else {
            PacketType::Retry
        }
    }
}

/// Value of a byte string read most significant byte first.
pub open spec fn be_val(s: Seq<u8>) -> nat
    decreases s.len(),
{
    if s.len() == 0 {
        0
    } else {
        be_val(s.drop_last()) * 256 + s.last() as nat
    }
}

pub open spec fn pow256(n: nat) -> nat
    decreases n,
{
    if n == 0 {
        1
    } else {
        256 * pow256((n - 1) as nat)
    }
}

/// Width in bytes of a variable-length integer, from its first byte.
pub open spec fn varint_width(b: u8) -> nat {
    if b < 64 {
        1
    } else if b < 128 {
        2
    } else if b < 192 {
        4
    } else {
        8
    }
}

/// The variable-length integer at `p`: its value and its width.
pub open spec fn varint_spec(d: Seq<u8>, p: int) -> Option<(nat, nat)> {
    if p < 0 || p >= d.len() {
        None
    } else {
        let w = varint_width(d[p]);
        if p + w > d.len() {
            None
        } else {
            Some((be_val(d.subrange(p, p + w).update(0, d[p] % 64)), w))
        }
    }
}

/// What the first packet header of datagram `d` holds, where short-header
/// packets carry connection IDs of `n` bytes; `None` where it is malformed.
pub open spec fn decode_spec(d: Seq<u8>, n: nat) -> Option<HeaderModel> {
    if d.len() == 0 {
        None
    } else if d[0] < 128 {
        if d.len() < 1 + n {
            None
        } else {
            Some(
                HeaderModel {
                    packet_type: PacketType::Short,
                    version: 0,
                    dcid: d.subrange(1, 1 + n as int),
                    scid: Seq::empty(),
                    token: Seq::empty(),
                },
            )
        }
    } else if d.len() < 6 {
        None
    } else {
        let v = be32(d, 1) as u32;
        let strict = v != 0 && is_known_version(v);
        let dl = d[5] as int;
        if (strict && dl > MAX_CID_LEN) || d.len() < 7 + dl {
            None
        } else {
            let sl = d[6 + dl] as int;
            let e = 7 + dl + sl;
            if (strict && sl > MAX_CID_LEN) || d.len() < e {
                None
            } else {
                let t = long_type(v, d[0]);
                let dcid = d.subrange(6, 6 + dl);
                let scid = d.subrange(7 + dl, e);
                if t == PacketType::Initial {
                    match varint_spec(d, e) {
                        None => None,
                        Some((tl, w)) => if e + w + tl > d.len() {
                            None
                        } else {
                            Some(
                                HeaderModel {
                                    packet_type: t,
                                    version: v,
                                    dcid,
                                    scid,
                                    token: d.subrange(e + w, e + w + tl),
                                },
                            )
                        },
                    }
                } else {
                    Some(
                        HeaderModel {
                            packet_type: t,
                            version: v,
                            dcid,
                            scid,
                            token: Seq::empty(),
                        },
                    )
                }
            }
        }
    }
}

proof fn lemma_pow256_le(a: nat, b: nat)
    requires
        a <= b,
    ensures
        pow256(a) <= pow256(b),
    decreases b,
{
    if a < b {
        lemma_pow256_le(a, (b - 1) as nat);
    }
}

fn is_known(v: u32) -> (r: bool)
    ensures
        r == is_known_version(v),
{
    v == VERSION_1 || v == VERSION_2 || (DRAFT_FIRST <= v && v <= DRAFT_LAST)
}

fn packet_type_of(v: u32, first: u8) -> (r: PacketType)
    ensures
        r == long_type(v, first),
{
    let t = (first / 16) % 4;
    if v == 0 {
        PacketType::VersionNegotiation
    } else if !is_known(v) {
        PacketType::OtherVersion
    } else if v == VERSION_2 {
        if t == 0 {
            PacketType::Retry
        } else if t == 1 {
            PacketType::Initial
        } else if t == 2 {
            PacketType::ZeroRtt
        } else {
            PacketType::Handshake
        }
    } else {
        if t == 0 {
            PacketType::Initial
        } else if t == 1 {
            PacketType::ZeroRtt
        } else if t == 2 {
            PacketType::Handshake
        } else {
            PacketType::Retry
        }
    }
}

/// Reads the variable-length integer at `p`.
pub fn decode_varint(d: &[u8], p: usize) -> (r: Option<(u64, usize)>)
    ensures
        match varint_spec(d@, p as int) {
            None => r is None,
            Some((v, w)) => r == Some((v as u64, w as usize)) && v < 0x4000_0000_0000_0000,
        },
{
    if p >= d.len() {
        return None;
    }
    let b = d[p];
    let w: usize = if b < 64 {
        1
    } else if b < 128 {
        2
    } else if b < 192 {
        4
    } else {
        8
    };
    if w > d.len() - p {
        return None;
    }
    let ghost vs = d@.subrange(p as int, p + w).update(0, (b % 64) as u8);
    let end: usize = p + w;
    let mut v: u64 = (b % 64) as u64;
    let mut k: usize = 1;
    proof {
        let s1 = vs.subrange(0, 1);
        assert(s1.drop_last() =~= Seq::<u8>::empty());
        assert(s1.last() == vs[0]);
        assert(vs[0] == (b % 64) as u8);
        assert(be_val(s1) == be_val(s1.drop_last()) * 256 + s1.last() as nat);
        reveal_with_fuel(pow256, 2);
    }
    while k < w
        invariant
            1 <= k <= w <= 8,
            end == p + w,
            p + w <= d@.len(),
            vs == d@.subrange(p as int, p + w).update(0, (b % 64) as u8),
            v as nat == be_val(vs.subrange(0, k as int)),
            v < 64 * pow256((k - 1) as nat),
        decreases w - k,
    {
        proof {
            lemma_pow256_le((k - 1) as nat, 6);
            reveal_with_fuel(pow256, 7);
            assert(vs.subrange(0, k + 1).drop_last() =~= vs.subrange(0, k as int));
        }
        assert(p + k < d@.len());
        let nb = d[p + k];
        assert(vs[k as int] == nb);
        v = v * 256 + nb as u64;
        k = k + 1;
    }
    proof {
        assert(vs.subrange(0, w as int) =~= vs);
        lemma_pow256_le((w - 1) as nat, 7);
        reveal_with_fuel(pow256, 8);
    }
    Some((v, w))
}

/// Decodes the header of the first packet in datagram `d`; short-header
/// packets carry a destination connection ID of `cid_len` bytes.
pub fn decode_header(d: &[u8], cid_len: usize) -> (r: Option<PublicHeader>)
    ensures
        match decode_spec(d@, cid_len as nat) {
            None => r is None,
            Some(m) => r matches Some(h) && h@ == m,
        },
{
    if d.len() == 0 {
        return None;
    }
    if d[0] < 128 {
        if d.len() - 1 < cid_len {
            return None;
        }
        let dcid = ConnectionId::from_slice(&d[1..1 + cid_len]);
        return Some(
            PublicHeader {
                packet_type: PacketType::Short,
                version: 0,
                dcid,
                scid: ConnectionId { bytes: Vec::new() },
                token: Vec::new(),
            },
        );
    }
    if d.len() < 6 {
        return None;
    }
    let v: u32 = (d[1] as u32) * 0x100_0000 + (d[2] as u32) * 0x1_0000 + (d[3] as u32) * 0x100
        + d[4] as u32;
    assert(v as int == be32(d@, 1));
    let strict = v != 0 && is_known(v);
    let dl = d[5] as usize;
    if (strict && dl > MAX_CID_LEN) || d.len() < 7 + dl {
        return None;
    }
    let sl = d[6 + dl] as usize;
    let e = 7 + dl + sl;
    if (strict && sl > MAX_CID_LEN) || d.len() < e {
        return None;
    }
    let t = packet_type_of(v, d[0]);
    let dcid = ConnectionId::from_slice(&d[6..6 + dl]);
    let scid = ConnectionId::from_slice(&d[7 + dl..e]);
    let token = if t == PacketType::Initial {
        match decode_varint(d, e) {
            None => {
                return None;
            },
            Some((tl, w)) => {
                if tl > (d.len() - e - w) as u64 {
                    return None;
                }
                let tl = tl as usize;
                copy_bytes(&d[e + w..e + w + tl])
            },
        }
    } else {
        Vec::new()
    };
    Some(PublicHeader { packet_type: t, version: v, dcid, scid, token })
}

} // verus!
