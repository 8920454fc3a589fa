use vstd::prelude::*;

use crate::cid::PeerAddr;
use crate::header::{decode_spec, PacketType};
use crate::server::{
    version_bytes, versions_bytes, vn_packet, validation_spec, AddressValidationResult, Datagram, InitialAction, InitialDetails, Server,
    TokenCheck, Triage, ValidateAddress, MIN_INITIAL_PACKET_SIZE,
};
use crate::cid::ConnectionId;
use crate::cid_alloc::saved_has;
use crate::table::ConnectionTable;

verus! {

/// No two connections of a well-formed table answer the same handshake
/// attempt: a connection that answers an attempt is the only one that does.
pub proof fn lemma_attempt_owner_unique(t: ConnectionTable, i: int, j: int)
    requires
        t.wf(),
        0 <= i < t.conns@.len(),
        0 <= j < t.conns@.len(),
        t.conns@[i].attempt() is Some,
        t.conns@[i].attempt() == t.conns@[j].attempt(),
    ensures
        i == j,
{
    if i != j {
        assert(t.conns@[i].attempt() != t.conns@[j].attempt());
    }
}

/// A datagram shorter than the Initial minimum whose first packet is an
/// Initial gets no reply, whatever version it offers.
pub proof fn lemma_short_initial_no_reply(s: Server, d: Datagram, first: u8, r: Triage)
    requires
        s.wf(),
        s.triage_spec(d, first, r),
        decode_spec(d.data@, s.cid_len as nat) matches Some(m) && m.packet_type
            == PacketType::Initial,
        d.data@.len() < MIN_INITIAL_PACKET_SIZE,
    ensures
        !(r is Send),
{
}

/// A 0-RTT packet for which neither a route nor a handshake attempt
/// exists is dropped; triage itself changes no state.
pub proof fn lemma_early_zero_rtt_dropped(s: Server, d: Datagram, first: u8, r: Triage)
    requires
        s.wf(),
        s.triage_spec(d, first, r),
        decode_spec(d.data@, s.cid_len as nat) matches Some(m) && m.packet_type
            == PacketType::ZeroRtt && !s.table.is_routed(m.dcid) && forall|j: int|
            0 <= j < s.table.conns@.len() ==> #[trigger] s.table.conns@[j].attempt() != Some(
                (d.source, m.dcid),
            ),
    ensures
        r is Drop,
{
}

/// With the policy `Always`, an Initial without a token is answered with a
/// Retry bound to its destination connection ID, and no connection is
/// asked for.
pub proof fn lemma_always_validate_retries(
    s: Server,
    initial: InitialDetails,
    source: PeerAddr,
    r: InitialAction,
)
    requires
        s.wf(),
        s.initial_spec(
            initial,
            source,
            validation_spec(ValidateAddress::Always, TokenCheck::Absent),
            r,
        ),
    ensures
        r matches InitialAction::Retry(o) && o@ == initial.dst_cid@,
{
}

/// Once a connection answers an attempt, a second Initial of that attempt
/// that passes validation goes to that very connection: no second
/// connection is asked for.
pub proof fn lemma_duplicate_initial_same_connection(
    s: Server,
    initial: InitialDetails,
    source: PeerAddr,
    r: InitialAction,
    j: int,
)
    requires
        s.wf(),
        0 <= j < s.table.conns@.len(),
        s.table.conns@[j].attempt() == Some((source, initial.dst_cid@)),
        s.initial_spec(initial, source, AddressValidationResult::Pass, r),
    ensures
        r == InitialAction::Deliver(s.table.conns@[j].handle),
{
    match r {
        InitialAction::Deliver(h) => {
            let m = choose|m: int|
                0 <= m < s.table.conns@.len() && #[trigger] s.table.conns@[m].handle == h
                    && s.table.conns@[m].attempt() == Some((source, initial.dst_cid@));
            lemma_attempt_owner_unique(s.table, j, m);
        },
        _ => {
            assert(s.table.conns@[j].attempt() != Some((source, initial.dst_cid@)));
        },
    }
}

proof fn lemma_versions_bytes(s: Seq<u32>, i: int)
    requires
        0 <= i < s.len(),
    ensures
        versions_bytes(s).len() == 4 * s.len(),
        versions_bytes(s).subrange(4 * i, 4 * i + 4) == version_bytes(s[i]),
    decreases s.len(),
{
    let p = s.drop_last();
    if i < s.len() - 1 {
        lemma_versions_bytes(p, i);
        assert(versions_bytes(s).subrange(4 * i, 4 * i + 4) =~= versions_bytes(p).subrange(
            4 * i,
            4 * i + 4,
        ));
    } else {
        if p.len() > 0 {
            lemma_versions_bytes(p, 0);
        }
        assert(versions_bytes(p).len() == 4 * p.len());
        assert(versions_bytes(s).subrange(4 * i, 4 * i + 4) =~= version_bytes(s.last()));
    }
}

/// A Version Negotiation packet ends with the offered versions and nothing
/// else: after the header come four bytes per version, in order.
pub proof fn lemma_vn_lists_versions(first: u8, dcid: Seq<u8>, scid: Seq<u8>, versions: Seq<u32>, i: int)
    requires
        0 <= i < versions.len(),
    ensures
        vn_packet(first, dcid, scid, versions).len() == 7 + dcid.len() + scid.len() + 4
            * versions.len(),
        vn_packet(first, dcid, scid, versions).subrange(
            7 + dcid.len() + scid.len() + 4 * i,
            7 + dcid.len() + scid.len() + 4 * i + 4,
        ) == version_bytes(versions[i]),
{
    lemma_versions_bytes(versions, i);
    let off = 7 + dcid.len() + scid.len();
    let vn = vn_packet(first, dcid, scid, versions);
    let vb = versions_bytes(versions);
    assert(vn.subrange(off + 4 * i, off + 4 * i + 4) =~= vb.subrange(4 * i, 4 * i + 4));
}

/// Linking routes every connection ID that the allocator handed out before
/// the link to the linked connection: a table related to the one before by
/// what `set_connection` ensures routes each saved ID to `h`, and changes no
/// route of an ID that was not saved.
pub proof fn lemma_saved_cids_routed(
    before: ConnectionTable,
    after: ConnectionTable,
    saved: Seq<ConnectionId>,
    h: u64,
)
    requires
        forall|k: Seq<u8>, g: u64|
            #[trigger] after.routes_to(k, g) == if saved_has(saved, saved.len() as int, k) {
                g == h
            } else {
                before.routes_to(k, g)
            },
    ensures
        forall|i: int| 0 <= i < saved.len() ==> after.routes_to(#[trigger] saved[i]@, h),
        forall|k: Seq<u8>, g: u64|
            !saved_has(saved, saved.len() as int, k) ==> (#[trigger] after.routes_to(k, g)
                == before.routes_to(k, g)),
{
    assert forall|i: int| 0 <= i < saved.len() implies after.routes_to(#[trigger] saved[i]@, h) by {
        assert(saved_has(saved, saved.len() as int, saved[i]@));
    }
}

} // verus!
