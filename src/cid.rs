use vstd::prelude::*;

verus! {

/// A connection ID: an opaque byte string compared byte-wise.
#[derive(Clone, Debug)]
pub struct ConnectionId {
    pub bytes: Vec<u8>,
}

impl View for ConnectionId {
    type V = Seq<u8>;

    open spec fn view(&self) -> Seq<u8> {
        self.bytes@
    }
}

impl ConnectionId {
    pub fn from_slice(b: &[u8]) -> (r: ConnectionId)
        ensures
            r@ == b@,
    {
        ConnectionId { bytes: copy_bytes(b) }
    }

    pub fn len(&self) -> (r: usize)
        ensures
            r == self@.len(),
    {
        self.bytes.len()
    }

    pub fn duplicate(&self) -> (r: ConnectionId)
        ensures
            r@ == self@,
    {
        ConnectionId { bytes: copy_bytes(self.bytes.as_slice()) }
    }
}

/// Copies a byte slice into a fresh vector.
pub fn copy_bytes(b: &[u8]) -> (r: Vec<u8>)
    ensures
        r@ == b@,
{
    let mut v: Vec<u8> = Vec::new();
    let mut i: usize = 0;
    while i < b.len()
        invariant
            i <= b@.len(),
            v@ == b@.subrange(0, i as int),
        decreases b@.len() - i,
    {
        v.push(b[i]);
        i = i + 1;
        assert(v@ =~= b@.subrange(0, i as int));
    }
    assert(v@ =~= b@);
    v
}

/// Byte-wise equality of two byte strings.
pub fn bytes_eq(a: &[u8], b: &[u8]) -> (r: bool)
    ensures
        r == (a@ == b@),
{
    if a.len() != b.len() {
        return false;
    }
    let mut i: usize = 0;
    while i < a.len()
        invariant
            a@.len() == b@.len(),
            i <= a@.len(),
            forall|j: int| 0 <= j < i ==> a@[j] == b@[j],
        decreases a@.len() - i,
    {
        if a[i] != b[i] {
            return false;
        }
        i = i + 1;
    }
    assert(a@ =~= b@);
    true
}

/// A peer's socket address as plain values: the IP address (IPv4 mapped
/// into the IPv6 space) and the port.
#[derive(Clone, Copy, Debug, PartialEq, Eq, Structural)]
pub struct PeerAddr {
    pub ip: u128,
    pub port: u16,
}

/// Identity of an in-flight handshake attempt: the peer's address and the
/// destination CID that the client first chose.
#[derive(Clone, Debug)]
pub struct AttemptKey {
    pub remote_address: PeerAddr,
    pub odcid: ConnectionId,
}

impl View for AttemptKey {
    type V = (PeerAddr, Seq<u8>);

    open spec fn view(&self) -> (PeerAddr, Seq<u8>) {
        (self.remote_address, self.odcid@)
    }
}

impl AttemptKey {
    pub fn same(&self, o: &AttemptKey) -> (r: bool)
        ensures
            r == (self@ == o@),
    {
        self.remote_address == o.remote_address && bytes_eq(
            self.odcid.bytes.as_slice(),
            o.odcid.bytes.as_slice(),
        )
    }

    pub fn duplicate(&self) -> (r: AttemptKey)
        ensures
            r@ == self@,
    {
        AttemptKey { remote_address: self.remote_address, odcid: self.odcid.duplicate() }
    }
}

} // verus!
