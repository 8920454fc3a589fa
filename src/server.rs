use vstd::prelude::*;

use crate::cid::{AttemptKey, ConnectionId, PeerAddr};
use crate::cid_alloc::{saved_has, ServerConnectionIdGenerator};
use crate::header::{decode_header, decode_spec, HeaderModel, PacketType, PublicHeader, VERSION_2};
use crate::table::{ConnectionTable, State};

verus! {

/// Datagrams that carry an Initial packet must be at least this long.
pub const MIN_INITIAL_PACKET_SIZE: usize = 1200;

/// When the server asks a client to prove its address with a Retry.
#[derive(Clone, Copy, Debug, PartialEq, Eq, Structural)]
pub enum ValidateAddress {
    Never,
    NewConnection,
    Always,
}

/// What checking an Initial's token against its source address gave.
pub enum AddressValidationResult {
    Invalid,
    Pass,
    ValidRetry(ConnectionId),
    Validate,
}

/// How the handling of an Initial ends.
pub enum InitialResult {
    Accept,
    Drop,
    Retry(Vec<u8>),
}

/// A UDP datagram with its addresses and type-of-service byte.
pub struct Datagram {
    pub source: PeerAddr,
    pub destination: PeerAddr,
    pub tos: u8,
    pub data: Vec<u8>,
}

/// What a call of the driver hands back: nothing, a datagram to send, or a
/// time by which to call again.
pub enum Output {
    Idle,
    Datagram(Datagram),
    Callback(u64),
}

/// What processing an Initial packet needs from its header.
pub struct InitialDetails {
    pub src_cid: ConnectionId,
    pub dst_cid: ConnectionId,
    pub token: Vec<u8>,
    pub version: u32,
}

impl InitialDetails {
    pub fn new(packet: &PublicHeader) -> (r: InitialDetails)
        ensures
            r.src_cid@ == packet@.scid,
            r.dst_cid@ == packet@.dcid,
            r.token@ == packet@.token,
            r.version == packet@.version,
    {
        InitialDetails {
            src_cid: packet.scid.duplicate(),
            dst_cid: packet.dcid.duplicate(),
            token: crate::cid::copy_bytes(packet.token.as_slice()),
            version: packet.version,
        }
    }
}

/// Where an inbound datagram goes.
pub enum Triage {
    /// Discard it.
    Drop,
    /// Hand it to the connection with this handle.
    Deliver(u64),
    /// Send this datagram in reply.
    Send(Datagram),
    /// An Initial for no known connection: check its token, then continue
    /// with `Server::handle_initial`.
    Initial(InitialDetails),
}

/// Encrypted client hello configuration: its ID, public name and encoding.
pub struct EchConfig {
    pub config: u8,
    pub public_name: String,
    pub encoded: Vec<u8>,
}

/// A version in four bytes, most significant first.
pub open spec fn version_bytes(v: u32) -> Seq<u8> {
    seq![
        (v / 0x100_0000) as u8,
        ((v / 0x1_0000) % 256) as u8,
        ((v / 0x100) % 256) as u8,
        (v % 256) as u8,
    ]
}

/// A list of versions, four bytes each.
pub open spec fn versions_bytes(s: Seq<u32>) -> Seq<u8>
    decreases s.len(),
{
    if s.len() == 0 {
        Seq::empty()
    } else {
        versions_bytes(s.drop_last()) + version_bytes(s.last())
    }
}

/// A Version Negotiation packet with first byte `first | 0x80`,
/// destination `dcid`, source `scid`, listing `versions`.
pub open spec fn vn_packet(first: u8, dcid: Seq<u8>, scid: Seq<u8>, versions: Seq<u32>) -> Seq<u8> {
    seq![first | 0x80u8, 0u8, 0u8, 0u8, 0u8, dcid.len() as u8] + dcid + seq![scid.len() as u8]
        + scid + versions_bytes(versions)
}

fn push_all(out: &mut Vec<u8>, b: &[u8])
    ensures
        final(out)@ == old(out)@ + b@,
{
    let mut i: usize = 0;
    while i < b.len()
        invariant
            i <= b@.len(),
            out@ == old(out)@ + b@.subrange(0, i as int),
        decreases b@.len() - i,
    {
        out.push(b[i]);
        i = i + 1;
        assert(out@ =~= old(out)@ + b@.subrange(0, i as int));
    }
    assert(b@.subrange(0, b@.len() as int) =~= b@);
}

/// Encodes a Version Negotiation packet.
pub fn version_negotiation(first: u8, dcid: &[u8], scid: &[u8], versions: &Vec<u32>) -> (r: Vec<u8>)
    requires
        dcid@.len() < 256,
        scid@.len() < 256,
    ensures
        r@ == vn_packet(first, dcid@, scid@, versions@),
{
    let mut out: Vec<u8> = Vec::new();
    out.push(first | 0x80u8);
    out.push(0);
    out.push(0);
    out.push(0);
    out.push(0);
    out.push(dcid.len() as u8);
    push_all(&mut out, dcid);
    out.push(scid.len() as u8);
    push_all(&mut out, scid);
    let ghost head = out@;
    let mut i: usize = 0;
    while i < versions.len()
        invariant
            i <= versions@.len(),
            out@ == head + versions_bytes(versions@.subrange(0, i as int)),
        decreases versions@.len() - i,
    {
        let v = versions[i];
        out.push((v / 0x100_0000) as u8);
        out.push(((v / 0x1_0000) % 256) as u8);
        out.push(((v / 0x100) % 256) as u8);
        out.push((v % 256) as u8);
        proof {
            let s = versions@.subrange(0, i + 1);
            assert(s.drop_last() =~= versions@.subrange(0, i as int));
            assert(s.last() == v);
        }
        i = i + 1;
        assert(out@ =~= head + versions_bytes(versions@.subrange(0, i as int)));
    }
    assert(versions@.subrange(0, versions@.len() as int) =~= versions@);
    assert(out@ =~= vn_packet(first, dcid@, scid@, versions@));
    out
}

/// The first byte of a Retry packet of `version`, with `rand`'s low four
/// bits as its unused bits.
pub open spec fn retry_first_byte(version: u32, rand: u8) -> u8 {
    if version == VERSION_2 {
        (0xc0 + rand % 16) as u8
    } else {
        (0xf0 + rand % 16) as u8
    }
}

/// A Retry packet up to its integrity tag.
pub open spec fn retry_header_spec(version: u32, rand: u8, dcid: Seq<u8>, scid: Seq<u8>, token: Seq<u8>) -> Seq<u8> {
    seq![retry_first_byte(version, rand)] + version_bytes(version) + seq![dcid.len() as u8] + dcid
        + seq![scid.len() as u8] + scid + token
}

/// Encodes a Retry packet up to its integrity tag: to `dcid` (the
/// client's source connection ID), from `scid` (a fresh server connection
/// ID), carrying `token`.
pub fn retry_header(version: u32, rand: u8, dcid: &[u8], scid: &[u8], token: &[u8]) -> (r: Vec<u8>)
    requires
        dcid@.len() < 256,
        scid@.len() < 256,
    ensures
        r@ == retry_header_spec(version, rand, dcid@, scid@, token@),
{
    let mut out: Vec<u8> = Vec::new();
    out.push(if version == VERSION_2 { 0xc0 + rand % 16 } else { 0xf0 + rand % 16 });
    out.push((version / 0x100_0000) as u8);
    out.push(((version / 0x1_0000) % 256) as u8);
    out.push(((version / 0x100) % 256) as u8);
    out.push((version % 256) as u8);
    out.push(dcid.len() as u8);
    push_all(&mut out, dcid);
    out.push(scid.len() as u8);
    push_all(&mut out, scid);
    push_all(&mut out, token);
    assert(out@ =~= retry_header_spec(version, rand, dcid@, scid@, token@));
    out
}

/// The bytes that a Retry's integrity tag covers: the original destination
/// connection ID with its length, then the Retry packet up to the tag.
pub fn retry_pseudo_packet(odcid: &[u8], header: &[u8]) -> (r: Vec<u8>)
    requires
        odcid@.len() < 256,
    ensures
        r@ == seq![odcid@.len() as u8] + odcid@ + header@,
{
    let mut out: Vec<u8> = Vec::new();
    out.push(odcid.len() as u8);
    push_all(&mut out, odcid);
    push_all(&mut out, header);
    assert(out@ =~= seq![odcid@.len() as u8] + odcid@ + header@);
    out
}

/// A whole Retry packet: the header, then its 16-byte integrity tag.
pub fn retry_packet(header: &[u8], tag: &[u8]) -> (r: Vec<u8>)
    requires
        tag@.len() == 16,
    ensures
        r@ == header@ + tag@,
{
    let mut out: Vec<u8> = Vec::new();
    push_all(&mut out, header);
    push_all(&mut out, tag);
    assert(out@ =~= header@ + tag@);
    out
}

/// Whether an inbound first header asks for Version Negotiation.
pub open spec fn wants_vn(m: HeaderModel, versions: Seq<u32>) -> bool {
    m.packet_type == PacketType::OtherVersion || (m.packet_type == PacketType::Initial
        && !versions.contains(m.version))
}

/// What the token of an Initial turned out to be, once decrypted.
pub enum TokenCheck {
    /// The Initial carried no token.
    Absent,
    /// A Retry token: the original destination connection ID it was bound
    /// to, or `None` where it did not decrypt for this address and time.
    Retry(Option<ConnectionId>),
    /// A token from a NEW_TOKEN frame, and whether it was valid.
    NewToken(bool),
    /// A token of no known kind.
    Unknown,
}

/// What the server does with an Initial for which no connection routes.
pub enum InitialAction {
    Drop,
    /// Hand the datagram to the connection with this handle: it answers
    /// the same attempt.
    Deliver(u64),
    /// Reply with a Retry bound to this original destination connection ID
    /// (see `retry_datagram`).
    Retry(ConnectionId),
    /// Create a connection for this attempt; the second part is the
    /// original destination connection ID where a Retry was sent before.
    Accept(AttemptKey, Option<ConnectionId>),
}

pub open spec fn validation_spec(policy: ValidateAddress, t: TokenCheck) -> AddressValidationResult {
    match t {
        TokenCheck::Absent => if policy == ValidateAddress::Never {
            AddressValidationResult::Pass
        } else {
            AddressValidationResult::Validate
        },
        TokenCheck::Retry(Some(c)) => AddressValidationResult::ValidRetry(c),
        TokenCheck::Retry(None) => AddressValidationResult::Invalid,
        TokenCheck::NewToken(ok) => if !ok && policy == ValidateAddress::Always {
            AddressValidationResult::Validate
        } else {
            AddressValidationResult::Pass
        },
        TokenCheck::Unknown => AddressValidationResult::Invalid,
    }
}

/// Decides, from the validation policy and what the token turned out to
/// be, whether an Initial passes, carries a valid Retry token, is invalid,
/// or is to be answered with a Retry.
pub fn validation_decision(policy: ValidateAddress, t: TokenCheck) -> (r: AddressValidationResult)
    ensures
        r == validation_spec(policy, t),
{
    match t {
        TokenCheck::Absent => if policy == ValidateAddress::Never {
            AddressValidationResult::Pass
        } else {
            AddressValidationResult::Validate
        },
        TokenCheck::Retry(Some(c)) => AddressValidationResult::ValidRetry(c),
        TokenCheck::Retry(None) => AddressValidationResult::Invalid,
        TokenCheck::NewToken(ok) => if !ok && policy == ValidateAddress::Always {
            AddressValidationResult::Validate
        } else {
            AddressValidationResult::Pass
        },
        TokenCheck::Unknown => AddressValidationResult::Invalid,
    }
}

/// The reply that carries an encoded Retry packet back to the sender of
/// `dgram`; nothing where the packet could not be made.
pub fn retry_datagram(dgram: &Datagram, packet: Option<Vec<u8>>) -> (r: Output)
    ensures
        match packet {
            None => r is Idle,
            Some(p) => r matches Output::Datagram(d) && d.source == dgram.destination
                && d.destination == dgram.source && d.tos == dgram.tos && d.data@ == p@,
        },
{
    match packet {
        None => Output::Idle,
        Some(p) => Output::Datagram(
            Datagram { source: dgram.destination, destination: dgram.source, tos: dgram.tos, data: p },
        ),
    }
}

/// Earlier of two optional deadlines.
pub open spec fn min_deadline(a: Option<u64>, b: u64) -> u64 {
    match a {
        Some(x) => if x < b {
            x
        } else {
            b
        },
        None => b,
    }
}

/// The earliest deadline among the callbacks of `s`.
pub open spec fn earliest_callback(s: Seq<Output>) -> Option<u64>
    decreases s.len(),
{
    if s.len() == 0 {
        None
    } else {
        let rest = earliest_callback(s.drop_last());
        match s.last() {
            Output::Callback(t) => Some(min_deadline(rest, t)),
            _ => rest,
        }
    }
}

/// Folds what the connections handed back, in order: the first datagram,
/// else the earliest callback, else nothing.
pub fn next_output(outputs: Vec<Output>) -> (r: Output)
    ensures
        (exists|i: int| 0 <= i < outputs@.len() && #[trigger] outputs@[i] is Datagram) ==> exists|i: int|
            0 <= i < outputs@.len() && r == outputs@[i] && outputs@[i] is Datagram && forall|j: int|
                0 <= j < i ==> !(#[trigger] outputs@[j] is Datagram),
        (forall|i: int| 0 <= i < outputs@.len() ==> !(#[trigger] outputs@[i] is Datagram)) ==> match earliest_callback(outputs@) {
            Some(t) => r == Output::Callback(t),
            None => r is Idle,
        },
{
    let mut outs = outputs;
    let ghost all = outputs@;
    let mut callback: Option<u64> = None;
    let mut i: usize = 0;
    while i < outs.len()
        invariant
            outs@ == all,
            all == outputs@,
            i <= all.len(),
            forall|j: int| 0 <= j < i ==> !(#[trigger] all[j] is Datagram),
            callback == earliest_callback(all.subrange(0, i as int)),
        decreases all.len() - i,
    {
        proof {
            assert(all.subrange(0, i + 1).drop_last() =~= all.subrange(0, i as int));
        }
        match &outs[i] {
            Output::Datagram(_) => {
                let d = outs.remove(i);
                assert(d == all[i as int]);
                assert(all[i as int] is Datagram);
                assert(outputs@ == all);
                assert(0 <= i < outputs@.len() && d == outputs@[i as int] && outputs@[i as int] is Datagram && forall|j: int|
                0 <= j < i ==> !(#[trigger] outputs@[j] is Datagram));
                return d;
            },
            Output::Callback(t) => {
                let t = *t;
                callback = match callback {
                    Some(p) => Some(if p < t { p } else { t }),
                    None => Some(t),
                };
            },
            Output::Idle => {},
        }
        i = i + 1;
    }
    assert(all.subrange(0, all.len() as int) =~= all);
    match callback {
        Some(t) => Output::Callback(t),
        None => Output::Idle,
    }
}

/// The lowercase hexadecimal digit for `n < 16`, in ASCII.
pub open spec fn hex_digit(n: u8) -> u8 {
    if n < 10 {
        (48 + n) as u8
    } else {
        (87 + n) as u8
    }
}

/// Two lowercase hexadecimal digits for each byte, in ASCII.
pub open spec fn hex_spec(b: Seq<u8>) -> Seq<u8>
    decreases b.len(),
{
    if b.len() == 0 {
        Seq::empty()
    } else {
        hex_spec(b.drop_last()) + seq![hex_digit(b.last() / 16), hex_digit(b.last() % 16)]
    }
}

/// The name of the log file of a connection: its original destination
/// connection ID in lowercase hexadecimal, then `.qlog`, in ASCII.
pub fn qlog_file_name(odcid: &[u8]) -> (r: Vec<u8>)
    ensures
        r@ == hex_spec(odcid@) + seq![46u8, 113u8, 108u8, 111u8, 103u8],
{
    let mut out: Vec<u8> = Vec::new();
    let mut i: usize = 0;
    while i < odcid.len()
        invariant
            i <= odcid@.len(),
            out@ == hex_spec(odcid@.subrange(0, i as int)),
        decreases odcid@.len() - i,
    {
        let b = odcid[i];
        let hi = b / 16;
        let lo = b % 16;
        out.push(if hi < 10 { 48 + hi } else { 87 + hi });
        out.push(if lo < 10 { 48 + lo } else { 87 + lo });
        proof {
            let s = odcid@.subrange(0, i + 1);
            assert(s.drop_last() =~= odcid@.subrange(0, i as int));
            assert(s.last() == b);
        }
        i = i + 1;
        assert(out@ =~= hex_spec(odcid@.subrange(0, i as int)));
    }
    assert(odcid@.subrange(0, odcid@.len() as int) =~= odcid@);
    out.push(46);
    out.push(113);
    out.push(108);
    out.push(111);
    out.push(103);
    assert(out@ =~= hex_spec(odcid@) + seq![46u8, 113u8, 108u8, 111u8, 103u8]);
    out
}

/// The server: its configuration, and the connections it routes to.
pub struct Server {
    pub certs: Vec<String>,
    pub protocols: Vec<String>,
    pub ciphers: Vec<u16>,
    pub versions: Vec<u32>,
    pub cid_len: usize,
    pub validation: ValidateAddress,
    pub qlog_dir: Option<String>,
    pub ech: Option<EchConfig>,
    pub table: ConnectionTable,
}

impl Server {
    pub open spec fn wf(&self) -> bool {
        self.table.wf()
    }

    /// A server with no connections that supports `versions` and reads
    /// short-header connection IDs of `cid_len` bytes. Addresses are not
    /// validated until `set_validation` says otherwise.
    pub fn new(
        certs: Vec<String>,
        protocols: Vec<String>,
        versions: Vec<u32>,
        cid_len: usize,
    ) -> (r: Server)
        ensures
            r.wf(),
            r.table.conns@.len() == 0,
            r.table.routes@.len() == 0,
            r.certs@ == certs@,
            r.protocols@ == protocols@,
            r.versions@ == versions@,
            r.cid_len == cid_len,
            r.validation == ValidateAddress::Never,
            r.ciphers@.len() == 0,
            r.qlog_dir is None,
            r.ech is None,
    {
        Server {
            certs,
            protocols,
            ciphers: Vec::new(),
            versions,
            cid_len,
            validation: ValidateAddress::Never,
            qlog_dir: None,
            ech: None,
            table: ConnectionTable::new(),
        }
    }

    fn supports(&self, v: u32) -> (r: bool)
        ensures
            r == self.versions@.contains(v),
    {
        let mut i: usize = 0;
        while i < self.versions.len()
            invariant
                i <= self.versions@.len(),
                forall|j: int| 0 <= j < i ==> self.versions@[j] != v,
            decreases self.versions@.len() - i,
        {
            if self.versions[i] == v {
                return true;
            }
            i = i + 1;
        }
        false
    }

    /// Where triage sends datagram `dgram`, as a relation to its result `r`.
    pub open spec fn triage_spec(&self, dgram: Datagram, first: u8, r: Triage) -> bool {
        match decode_spec(dgram.data@, self.cid_len as nat) {
            None => r is Drop,
            Some(m) => if self.table.is_routed(m.dcid) {
                r matches Triage::Deliver(h) && self.table.routes_to(m.dcid, h)
            } else if m.packet_type == PacketType::Short {
                r is Drop
            } else if wants_vn(m, self.versions@) {
                if dgram.data@.len() < MIN_INITIAL_PACKET_SIZE {
                    r is Drop
                } else {
                    r matches Triage::Send(d) && d.source == dgram.destination
                        && d.destination == dgram.source && d.tos == dgram.tos && d.data@
                        == vn_packet(first, m.scid, m.dcid, self.versions@)
                }
            } else if m.packet_type == PacketType::Initial {
                if dgram.data@.len() < MIN_INITIAL_PACKET_SIZE {
                    r is Drop
                } else {
                    r matches Triage::Initial(i) && i.src_cid@ == m.scid && i.dst_cid@
                        == m.dcid && i.token@ == m.token && i.version == m.version
                }
            } else if m.packet_type == PacketType::ZeroRtt {
                match r {
                    Triage::Deliver(h) => exists|j: int|
                        0 <= j < self.table.conns@.len() && #[trigger] self.table.conns@[j].handle
                            == h && self.table.conns@[j].attempt() == Some(
                            (dgram.source, m.dcid),
                        ),
                    Triage::Drop => forall|j: int|
                        0 <= j < self.table.conns@.len() ==> #[trigger] self.table.conns@[j].attempt()
                            != Some((dgram.source, m.dcid)),
                    _ => false,
                }
            } else {
                r is Drop
            },
        }
    }

    /// Decides where an inbound datagram goes, from its first packet header
    /// alone. `first` supplies the unpredictable bits of the first byte of a
    /// Version Negotiation reply.
    pub fn process_input(&self, dgram: &Datagram, first: u8) -> (r: Triage)
        requires
            self.wf(),
        ensures
            self.triage_spec(*dgram, first, r),
    {
        let packet = match decode_header(dgram.data.as_slice(), self.cid_len) {
            None => {
                return Triage::Drop;
            },
            Some(p) => p,
        };
        if let Some(h) = self.table.connection(packet.dcid.bytes.as_slice()) {
            return Triage::Deliver(h);
        }
        if packet.packet_type == PacketType::Short {
            return Triage::Drop;
        }
        if packet.packet_type == PacketType::OtherVersion || (packet.packet_type
            == PacketType::Initial && !self.supports(packet.version)) {
            if dgram.data.len() < MIN_INITIAL_PACKET_SIZE {
                return Triage::Drop;
            }
            let vn = version_negotiation(
                first,
                packet.scid.bytes.as_slice(),
                packet.dcid.bytes.as_slice(),
                &self.versions,
            );
            return Triage::Send(
                Datagram {
                    source: dgram.destination,
                    destination: dgram.source,
                    tos: dgram.tos,
                    data: vn,
                },
            );
        }
        match packet.packet_type {
            PacketType::Initial => {
                if dgram.data.len() < MIN_INITIAL_PACKET_SIZE {
                    return Triage::Drop;
                }
                Triage::Initial(InitialDetails::new(&packet))
            },
            PacketType::ZeroRtt => {
                let key = AttemptKey { remote_address: dgram.source, odcid: packet.dcid };
                match self.table.find_attempt(&key) {
                    Some(j) => Triage::Deliver(self.table.conns[j].handle),
                    None => Triage::Drop,
                }
            },
            _ => Triage::Drop,
        }
    }

    /// What becomes of an Initial, as a relation to the result `r`.
    pub open spec fn initial_spec(&self, initial: InitialDetails, source: PeerAddr, res: AddressValidationResult, r: InitialAction) -> bool {
        match res {
            AddressValidationResult::Invalid => r is Drop,
            AddressValidationResult::Validate => r matches InitialAction::Retry(o) && o@ == initial.dst_cid@,
            AddressValidationResult::Pass => self.attempt_outcome(r, (source, initial.dst_cid@), None),
            AddressValidationResult::ValidRetry(o) => self.attempt_outcome(r, (source, o@), Some(o@)),
        }
    }

    /// Decides what becomes of an Initial for which no connection routes,
    /// given what address validation said of it.
    pub fn handle_initial(&self, initial: InitialDetails, source: PeerAddr, res: AddressValidationResult) -> (r: InitialAction)
        requires
            self.wf(),
        ensures
            self.initial_spec(initial, source, res, r),
    {
        match res {
            AddressValidationResult::Invalid => InitialAction::Drop,
            AddressValidationResult::Validate => InitialAction::Retry(initial.dst_cid),
            AddressValidationResult::Pass => {
                let key = AttemptKey { remote_address: source, odcid: initial.dst_cid };
                self.connection_attempt(key, None)
            },
            AddressValidationResult::ValidRetry(o) => {
                let key = AttemptKey { remote_address: source, odcid: o.duplicate() };
                self.connection_attempt(key, Some(o))
            },
        }
    }

    /// `r` sends an Initial of attempt `key` to the connection that answers
    /// it, or, where none does, asks for a new one.
    pub open spec fn attempt_outcome(&self, r: InitialAction, key: (PeerAddr, Seq<u8>), orig: Option<Seq<u8>>) -> bool {
        match r {
            InitialAction::Deliver(h) => exists|j: int|
                0 <= j < self.table.conns@.len() && #[trigger] self.table.conns@[j].handle == h
                    && self.table.conns@[j].attempt() == Some(key),
            InitialAction::Accept(k, o) => {
                &&& k@ == key
                &&& match (o, orig) {
                    (Some(x), Some(y)) => x@ == y,
                    (None, None) => true,
                    _ => false,
                }
                &&& forall|j: int|
                    0 <= j < self.table.conns@.len() ==> #[trigger] self.table.conns@[j].attempt()
                        != Some(key)
            },
            _ => false,
        }
    }

    fn connection_attempt(&self, key: AttemptKey, orig: Option<ConnectionId>) -> (r: InitialAction)
        ensures
            self.attempt_outcome(
                r,
                key@,
                match orig {
                    Some(o) => Some(o@),
                    None => None,
                },
            ),
    {
        match self.table.find_attempt(&key) {
            Some(j) => InitialAction::Deliver(self.table.conns[j].handle),
            None => InitialAction::Accept(key, orig),
        }
    }

    /// Adds a connection for attempt `key` whose engine took its connection
    /// IDs from `cids`, and links `cids` to it: every ID it kept is routed to
    /// the new connection. Nothing changes where a connection already
    /// answers `key`, or where no handle is left.
    pub fn accept_connection(&mut self, key: AttemptKey, cids: &mut ServerConnectionIdGenerator) -> (r: Option<u64>)
        requires
            old(self).wf(),
        ensures
            final(self).wf(),
            final(self).versions == old(self).versions,
            final(self).cid_len == old(self).cid_len,
            final(self).validation == old(self).validation,
            match r {
                Some(h) => {
                    &&& !old(self).table.has_conn(h)
                    &&& final(self).table.conns@.drop_last() == old(self).table.conns@
                    &&& final(self).table.conns@.last().handle == h
                    &&& final(self).table.conns@.last().state == State::Init
                    &&& final(self).table.conns@.last().attempt() == Some(key@)
                    &&& final(cids).link == Some(h)
                    &&& final(cids).saved_cids@.len() == 0
                    &&& forall|k: Seq<u8>, g: u64|
                        #[trigger] final(self).table.routes_to(k, g) == if saved_has(
                            old(cids).saved_cids@,
                            old(cids).saved_cids@.len() as int,
                            k,
                        ) {
                            g == h
                        } else {
                            old(self).table.routes_to(k, g)
                        }
                },
                None => {
                    &&& final(self).table == old(self).table
                    &&& *final(cids) == *old(cids)
                    &&& ((exists|j: int|
                        0 <= j < old(self).table.conns@.len() && #[trigger] old(self).table.conns@[j].attempt()
                            == Some(key@)) || old(self).table.next_handle == u64::MAX)
                },
            },
    {
        match self.table.add_connection(key) {
            None => None,
            Some(h) => {
                let ghost mid = self.table;
                assert forall|k: Seq<u8>, g: u64| #[trigger] mid.routes_to(k, g) == old(self).table.routes_to(k, g) by {
                    assert(mid.routes == old(self).table.routes);
                }
                cids.set_connection(&mut self.table, h);
                Some(h)
            },
        }
    }

    /// Records what the engine of connection `h` reported after a call.
    pub fn record(&mut self, h: u64, state: State, has_events: bool) -> (r: bool)
        requires
            old(self).wf(),
        ensures
            final(self).wf(),
            r == old(self).table.has_conn(h),
            final(self).versions == old(self).versions,
            final(self).cid_len == old(self).cid_len,
            final(self).table.routes == old(self).table.routes,
            final(self).table.conns@.len() == old(self).table.conns@.len(),
            forall|j: int|
                0 <= j < old(self).table.conns@.len() ==> {
                    let c = #[trigger] final(self).table.conns@[j];
                    let o = old(self).table.conns@[j];
                    if o.handle == h {
                        c.handle == h && c.state == state && c.has_events == has_events
                            && c.attempt() == if crate::table::past_handshaking(state) {
                            None
                        } else {
                            o.attempt()
                        }
                    } else {
                        c == o
                    }
                },
    {
        self.table.record(h, state, has_events)
    }

    /// Evicts every connection whose state is `Closed`, with its routes.
    pub fn remove_closed(&mut self)
        requires
            old(self).wf(),
        ensures
            final(self).wf(),
            final(self).versions == old(self).versions,
            final(self).cid_len == old(self).cid_len,
            forall|j: int|
                0 <= j < final(self).table.conns@.len() ==> #[trigger] final(self).table.conns@[j].state
                    != State::Closed,
            forall|k: Seq<u8>, g: u64|
                #[trigger] final(self).table.routes_to(k, g) == (old(self).table.routes_to(k, g)
                    && final(self).table.has_conn(g)),
    {
        self.table.remove_closed();
    }

    /// The handle of the connection that `cid` routes to.
    pub fn connection(&self, cid: &[u8]) -> (r: Option<u64>)
        requires
            self.wf(),
        ensures
            match r {
                Some(h) => self.table.routes_to(cid@, h),
                None => !self.table.is_routed(cid@),
            },
    {
        self.table.connection(cid)
    }

    /// Handles of the connections that have events pending, in table order.
    pub fn active_connections(&self) -> (r: Vec<u64>)
        ensures
            forall|x: int| 0 <= x < r@.len() ==> self.table.is_active(#[trigger] r@[x]),
            forall|j: int|
                0 <= j < self.table.conns@.len() && #[trigger] self.table.conns@[j].has_events
                    ==> r@.contains(self.table.conns@[j].handle),
    {
        let mut r: Vec<u64> = Vec::new();
        let ghost mut src: Seq<int> = Seq::empty();
        let mut j: usize = 0;
        while j < self.table.conns.len()
            invariant
                j <= self.table.conns@.len(),
                src.len() == r@.len(),
                forall|x: int|
                    0 <= x < r@.len() ==> 0 <= #[trigger] src[x] < j && self.table.conns@[src[x]].handle
                        == r@[x] && self.table.conns@[src[x]].has_events,
                forall|m: int|
                    0 <= m < j && #[trigger] self.table.conns@[m].has_events ==> r@.contains(
                        self.table.conns@[m].handle,
                    ),
            decreases self.table.conns@.len() - j,
        {
            let ghost pre = r@;
            if self.table.conns[j].has_events {
                r.push(self.table.conns[j].handle);
                proof {
                    src = src.push(j as int);
                    assert(r@[pre.len() as int] == self.table.conns@[j as int].handle);
                    assert forall|x: int| 0 <= x < r@.len() implies 0 <= #[trigger] src[x] < j + 1
                        && self.table.conns@[src[x]].handle == r@[x]
                        && self.table.conns@[src[x]].has_events by {
                        if x < pre.len() {
                            assert(r@[x] == pre[x]);
                        }
                    }
                    assert forall|m: int|
                        0 <= m < j + 1 && #[trigger] self.table.conns@[m].has_events implies r@.contains(
                            self.table.conns@[m].handle,
                        ) by {
                        if m < j {
                            let x = choose|x: int| 0 <= x < pre.len() && pre[x] == self.table.conns@[m].handle;
                            assert(r@[x] == pre[x]);
                        }
                    }
                }
            }
            j = j + 1;
        }
        assert forall|x: int| 0 <= x < r@.len() implies self.table.is_active(#[trigger] r@[x]) by {
            assert(self.table.conns@[src[x]].handle == r@[x]);
        }
        r
    }

    /// Whether any connection has events pending.
    pub fn has_active_connections(&self) -> (r: bool)
        ensures
            r == exists|j: int| 0 <= j < self.table.conns@.len() && #[trigger] self.table.conns@[j].has_events,
    {
        let mut j: usize = 0;
        while j < self.table.conns.len()
            invariant
                j <= self.table.conns@.len(),
                forall|m: int| 0 <= m < j ==> !(#[trigger] self.table.conns@[m].has_events),
            decreases self.table.conns@.len() - j,
        {
            if self.table.conns[j].has_events {
                return true;
            }
            j = j + 1;
        }
        false
    }

    /// Sets or clears the directory for per-connection logs.
    pub fn set_qlog_dir(&mut self, dir: Option<String>)
        ensures
            final(self).qlog_dir == dir,
            final(self).table == old(self).table,
            final(self).versions == old(self).versions,
            final(self).cid_len == old(self).cid_len,
            final(self).validation == old(self).validation,
    {
        self.qlog_dir = dir;
    }

    /// Sets the address validation policy.
    pub fn set_validation(&mut self, v: ValidateAddress)
        ensures
            final(self).validation == v,
            final(self).table == old(self).table,
            final(self).versions == old(self).versions,
            final(self).cid_len == old(self).cid_len,
    {
        self.validation = v;
    }

    /// Sets the cipher suites; an empty list means the defaults.
    pub fn set_ciphers(&mut self, ciphers: &[u16])
        ensures
            final(self).ciphers@ == ciphers@,
            final(self).table == old(self).table,
            final(self).versions == old(self).versions,
            final(self).cid_len == old(self).cid_len,
            final(self).validation == old(self).validation,
    {
        let mut v: Vec<u16> = Vec::new();
        let mut i: usize = 0;
        while i < ciphers.len()
            invariant
                i <= ciphers@.len(),
                v@ == ciphers@.subrange(0, i as int),
            decreases ciphers@.len() - i,
        {
            v.push(ciphers[i]);
            i = i + 1;
            assert(v@ =~= ciphers@.subrange(0, i as int));
        }
        assert(v@ =~= ciphers@);
        self.ciphers = v;
    }

    /// Enables encrypted client hello with an already encoded configuration.
    pub fn enable_ech(&mut self, config: u8, public_name: String, encoded: Vec<u8>)
        ensures
            final(self).ech matches Some(e) && e.config == config && e.public_name@
                == public_name@ && e.encoded@ == encoded@,
            final(self).table == old(self).table,
            final(self).versions == old(self).versions,
            final(self).cid_len == old(self).cid_len,
            final(self).validation == old(self).validation,
    {
        self.ech = Some(EchConfig { config, public_name, encoded });
    }

    /// The encoded encrypted client hello configuration; empty where none.
    pub fn ech_config(&self) -> (r: &[u8])
        ensures
            match self.ech {
                Some(e) => r@ == e.encoded@,
                None => r@.len() == 0,
            },
    {
        match &self.ech {
            Some(e) => e.encoded.as_slice(),
            None => &[],
        }
    }
}

} // verus!
