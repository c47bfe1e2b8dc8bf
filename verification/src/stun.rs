//! Minimal STUN Binding client (RFC 5389), which learns the public address of a UDP socket: the
//! request, the reading of the reply, and the schedule of the attempts.

use crate::net::{endpoint, IpAddr, SocketAddr};
use crate::random::random_bytes;
use vstd::prelude::*;

verus! {

/// How often a request is sent before giving up.
pub const ATTEMPTS: u32 = 3;

/// Type of the attribute that carries the mapped address.
pub const XOR_MAPPED_ADDRESS: u16 = 0x0020;

/// Why a message is not an answer that can be used.
#[derive(Clone, Copy, Debug, PartialEq, Eq, Structural)]
pub enum StunError {
    /// Not a binding success response to our transaction.
    NotOurs,
    /// An attribute is longer than what is left of the message.
    Truncated,
    /// The mapped address is of neither family, or too short for IPv6.
    UnknownFamily,
    /// The message holds no mapped address.
    Missing,
}

/// What a message amounts to.
pub enum Reading {
    /// The mapped address: its octets and its port.
    Found(Seq<u8>, u16),
    /// It cannot be used.
    Failed(StunError),
    /// An attribute that has to be skipped ends in the message, but its padding does not.
    Overrun,
}

/// The magic cookie, in the order in which it is sent.
pub open spec fn magic() -> Seq<u8> {
    seq![0x21u8, 0x12, 0xa4, 0x42]
}

/// The number written by two octets, most significant first.
pub open spec fn be16(hi: u8, lo: u8) -> int {
    hi as int * 256 + lo as int
}

/// `n` rounded up to a multiple of four.
pub open spec fn padded(n: int) -> int {
    (n + 3) / 4 * 4
}

/// `n` octets of `attr` from offset 8 on, each combined with its octet of `key`.
pub open spec fn unmask(attr: Seq<u8>, key: Seq<u8>, n: nat) -> Seq<u8> {
    Seq::new(n, |i: int| attr[8 + i] ^ key[i])
}

/// The port of a mapped-address attribute.
pub open spec fn unmask_port(attr: Seq<u8>, key: Seq<u8>) -> u16 {
    be16(attr[6] ^ key[0], attr[7] ^ key[1]) as u16
}

/// What a run of attributes amounts to, with `key` the cookie followed by the transaction.
pub open spec fn scan(attrs: Seq<u8>, key: Seq<u8>) -> Reading
    decreases attrs.len(),
{
    if attrs.len() < 4 {
        Reading::Failed(StunError::Missing)
    } else {
        let kind = be16(attrs[0], attrs[1]);
        let len = be16(attrs[2], attrs[3]);
        if attrs.len() < 4 + len {
            Reading::Failed(StunError::Truncated)
        } else if kind == XOR_MAPPED_ADDRESS && len >= 8 {
            if attrs[5] == 1 {
                Reading::Found(unmask(attrs, key, 4), unmask_port(attrs, key))
            } else if attrs[5] == 2 && len >= 20 {
                Reading::Found(unmask(attrs, key, 16), unmask_port(attrs, key))
            } else {
                Reading::Failed(StunError::UnknownFamily)
            }
        } else if attrs.len() < padded(4 + len) {
            Reading::Overrun
        } else {
            scan(attrs.skip(padded(4 + len)), key)
        }
    }
}

/// Whether a message has the header of a binding success response to `txid`.
pub open spec fn answers(msg: Seq<u8>, txid: Seq<u8>) -> bool {
    &&& msg.len() >= 20
    &&& msg.subrange(0, 2) == seq![1u8, 1]
    &&& msg.subrange(4, 8) == magic()
    &&& msg.subrange(8, 20) == txid
}

/// What `msg` amounts to as an answer to the transaction `txid`.
pub open spec fn reading(msg: Seq<u8>, txid: Seq<u8>) -> Reading {
    if answers(msg, txid) {
        scan(msg.skip(20), magic() + txid)
    } else {
        Reading::Failed(StunError::NotOurs)
    }
}

/// The Binding request for `txid`.
pub open spec fn request(txid: Seq<u8>) -> Seq<u8> {
    seq![0u8, 1, 0, 0] + magic() + txid
}

/// What reading a message gave, as a value.
enum Scan {
    Found(SocketAddr),
    Failed(StunError),
    Overrun,
}

impl Scan {
    spec fn reads(&self, r: Reading) -> bool {
        match (*self, r) {
            (Scan::Found(a), Reading::Found(octets, port)) => a@ == endpoint(octets, port),
            (Scan::Failed(e), Reading::Failed(f)) => e == f,
            (Scan::Overrun, Reading::Overrun) => true,
            _ => false,
        }
    }
}

/// The cookie followed by the transaction.
fn mask_key(txid: &[u8; 12]) -> (key: [u8; 16])
    ensures
        key@ == magic() + txid@,
{
    let key: [u8; 16] = [
        0x21,
        0x12,
        0xa4,
        0x42,
        txid[0],
        txid[1],
        txid[2],
        txid[3],
        txid[4],
        txid[5],
        txid[6],
        txid[7],
        txid[8],
        txid[9],
        txid[10],
        txid[11],
    ];
    assert(key@ =~= magic() + txid@);
    key
}

fn scan_message(msg: &[u8], txid: &[u8; 12]) -> (s: Scan)
    ensures
        s.reads(reading(msg@, txid@)),
{
    let key = mask_key(txid);
    if msg.len() < 20 || msg[0] != 1 || msg[1] != 1 {
        assert(msg@.len() >= 20 ==> msg@.subrange(0, 2)[0] == msg@[0] && msg@.subrange(0, 2)[1]
            == msg@[1]);
        return Scan::Failed(StunError::NotOurs);
    }
    assert(msg@.subrange(0, 2) =~= seq![1u8, 1]);
    let mut i: usize = 0;
    while i < 16
        invariant
            i <= 16,
            msg@.len() >= 20,
            key@ == magic() + txid@,
            forall|j: int| 0 <= j < i ==> msg@[4 + j] == key@[j],
        decreases 16 - i,
    {
        if msg[4 + i] != key[i] {
            proof {
                if i < 4 {
                    assert(msg@.subrange(4, 8)[i as int] != magic()[i as int]);
                } else {
                    assert(msg@.subrange(8, 20)[i - 4] != txid@[i - 4]);
                }
            }
            return Scan::Failed(StunError::NotOurs);
        }
        i += 1;
    }
    proof {
        assert forall|j: int| 0 <= j < 4 implies msg@.subrange(4, 8)[j] == magic()[j] by {
            assert(msg@[4 + j] == key@[j]);
        }
        assert(msg@.subrange(4, 8) =~= magic());
        assert forall|j: int| 0 <= j < 12 implies msg@.subrange(8, 20)[j] == txid@[j] by {
            assert(msg@[4 + (j + 4)] == key@[j + 4]);
        }
        assert(msg@.subrange(8, 20) =~= txid@);
    }
    scan_attributes(msg, 20, &key)
}

/// The IPv6 octets of the mapped-address attribute at `at`.
fn unmask_v6(msg: &[u8], at: usize, key: &[u8; 16]) -> (o: [u8; 16])
    requires
        at + 24 <= msg@.len(),
    ensures
        o@ == unmask(msg@.skip(at as int), key@, 16),
{
    let ghost attr = msg@.skip(at as int);
    let mut o: [u8; 16] = [0; 16];
    let end: usize = msg.len();
    assert(at + 24 <= end);
    let value: &[u8] = vstd::slice::slice_subrange(msg, at + 8, at + 24);
    let mut n: usize = 0;
    while n < 16
        invariant
            n <= 16,
            value@.len() == 16,
            at + 24 <= msg@.len(),
            attr == msg@.skip(at as int),
            value@ == msg@.subrange(at + 8, at + 24),
            forall|j: int| 0 <= j < n ==> o@[j] == attr[8 + j] ^ key@[j],
        decreases 16 - n,
    {
        assert(attr[8 + n] == value@[n as int]);
        o[n] = value[n] ^ key[n];
        n += 1;
    }
    assert(o@ =~= unmask(attr, key@, 16));
    o
}

/// Reads the attributes of `msg` from `start` on.
fn scan_attributes(msg: &[u8], start: usize, key: &[u8; 16]) -> (s: Scan)
    requires
        start <= msg@.len(),
    ensures
        s.reads(scan(msg@.skip(start as int), key@)),
{
    let mut at: usize = start;
    while msg.len() - at >= 4
        invariant
            start <= at <= msg@.len(),
            scan(msg@.skip(at as int), key@) == scan(msg@.skip(start as int), key@),
        decreases msg@.len() - at,
    {
        let ghost attrs = msg@.skip(at as int);
        let left: usize = msg.len() - at;
        let kind: u16 = msg[at] as u16 * 256 + msg[at + 1] as u16;
        let len: usize = msg[at + 2] as usize * 256 + msg[at + 3] as usize;
        assert(kind == be16(attrs[0], attrs[1]) && len == be16(attrs[2], attrs[3]));
        if left < 4 + len {
            return Scan::Failed(StunError::Truncated);
        }
        if kind == XOR_MAPPED_ADDRESS && len >= 8 {
            let hi: u8 = msg[at + 6] ^ key[0];
            let lo: u8 = msg[at + 7] ^ key[1];
            let port: u16 = hi as u16 * 256 + lo as u16;
            let family: u8 = msg[at + 5];
            if family == 1 {
                let o: [u8; 4] = [
                    msg[at + 8] ^ key[0],
                    msg[at + 9] ^ key[1],
                    msg[at + 10] ^ key[2],
                    msg[at + 11] ^ key[3],
                ];
                assert(o@ =~= unmask(attrs, key@, 4));
                return Scan::Found(SocketAddr::new(IpAddr::V4(o), port));
            }
            if family == 2 && len >= 20 {
                return Scan::Found(SocketAddr::new(IpAddr::V6(unmask_v6(msg, at, key)), port));
            }
            return Scan::Failed(StunError::UnknownFamily);
        }
        let step: usize = (4 + len + 3) / 4 * 4;
        if left < step {
            return Scan::Overrun;
        }
        assert(attrs.skip(step as int) =~= msg@.skip(at + step));
        at += step;
    }
    Scan::Failed(StunError::Missing)
}

/// Whether every attribute of `msg` that has to be skipped comes with its padding.
pub fn padding_present(msg: &[u8], txid: &[u8; 12]) -> (b: bool)
    ensures
        b == !(reading(msg@, txid@) is Overrun),
{
    match scan_message(msg, txid) {
        Scan::Overrun => false,
        _ => true,
    }
}

/// The mapped address in a response to the transaction `txid`.
pub fn parse_response(msg: &[u8], txid: &[u8; 12]) -> (r: Result<SocketAddr, StunError>)
    requires
        !(reading(msg@, txid@) is Overrun),
    ensures
        match r {
            Ok(addr) => reading(msg@, txid@) == Reading::Found(addr@.octets, addr@.port) && addr@
                == endpoint(addr@.octets, addr@.port),
            Err(e) => reading(msg@, txid@) == Reading::Failed(e),
        },
{
    match scan_message(msg, txid) {
        Scan::Found(addr) => Ok(addr),
        Scan::Failed(e) => Err(e),
        Scan::Overrun => Err(StunError::Missing),
    }
}

/// A fresh transaction: twelve random octets.
pub fn new_transaction_id() -> (txid: [u8; 12])
    ensures
        txid@.len() == 12,
{
    random_bytes()
}

/// The Binding request for the transaction `txid`.
pub fn binding_request(txid: &[u8; 12]) -> (req: Vec<u8>)
    ensures
        req@ == request(txid@),
{
    let key = mask_key(txid);
    let mut req: Vec<u8> = Vec::with_capacity(20);
    req.push(0);
    req.push(1);
    req.push(0);
    req.push(0);
    let mut i: usize = 0;
    while i < 16
        invariant
            i <= 16,
            req@ == seq![0u8, 1, 0, 0] + key@.take(i as int),
        decreases 16 - i,
    {
        req.push(key[i]);
        assert(key@.take(i + 1) =~= key@.take(i as int).push(key@[i as int]));
        i += 1;
    }
    assert(key@.take(16) =~= key@);
    assert(seq![0u8, 1, 0, 0] + (magic() + txid@) =~= request(txid@));
    req
}

/// How long each attempt waits for an answer, in milliseconds.
pub open spec fn waits() -> Seq<u64> {
    seq![400, 800, 1600]
}

/// A question to a server: it is put up to three times.
pub struct Query {
    server: SocketAddr,
    txid: [u8; 12],
    tried: u32,
}

impl Query {
    /// The server that is asked.
    pub closed spec fn server(&self) -> SocketAddr {
        self.server
    }

    /// The transaction.
    pub closed spec fn txid(&self) -> Seq<u8> {
        self.txid@
    }

    /// How often the question has been put.
    pub closed spec fn tried(&self) -> u32 {
        self.tried
    }

    /// That the question has not been put too often.
    pub closed spec fn wf(&self) -> bool {
        self.tried <= ATTEMPTS && self.txid@.len() == 12
    }

    /// A question that has not been put yet.
    pub fn new(server: SocketAddr, txid: [u8; 12]) -> (q: Query)
        ensures
            q.wf(),
            q.server() == server,
            q.txid() == txid@,
            q.tried() == 0,
    {
        Query { server, txid, tried: 0 }
    }

    /// The datagram that puts the question.
    pub fn datagram(&self) -> (req: Vec<u8>)
        ensures
            req@ == request(self.txid()),
    {
        binding_request(&self.txid)
    }

    /// Puts the question once more: how long to wait for the answer, or nothing if it is time to
    /// give up.
    pub fn next_try(&mut self) -> (wait: Option<u64>)
        requires
            old(self).wf(),
        ensures
            final(self).wf(),
            final(self).server() == old(self).server(),
            final(self).txid() == old(self).txid(),
            match wait {
                Some(ms) => old(self).tried() < waits().len() && ms == waits()[old(
                    self,
                ).tried() as int] && final(self).tried() == old(self).tried() + 1,
                None => old(self).tried() == waits().len() && final(self).tried() == old(
                    self,
                ).tried(),
            },
    {
        let wait: u64 = if self.tried == 0 {
            400
        } else if self.tried == 1 {
            800
        } else if self.tried == 2 {
            1600
        } else {
            return None;
        };
        self.tried = self.tried + 1;
        Some(wait)
    }

    /// Whether a datagram from `from` can be read: every attribute of an answer of the server that
    /// has to be skipped comes with its padding.
    pub fn readable(&self, from: &SocketAddr, msg: &[u8]) -> (b: bool)
        ensures
            b == (from@ == self.server()@ ==> !(reading(msg@, self.txid()) is Overrun)),
    {
        !from.same(&self.server) || padding_present(msg, &self.txid)
    }

    /// The mapped address in a datagram that came from `from`; anything that is not from the server
    /// that was asked, or not its answer to this question, is ignored.
    pub fn answer(&self, from: &SocketAddr, msg: &[u8]) -> (r: Option<SocketAddr>)
        requires
            from@ == self.server()@ ==> !(reading(msg@, self.txid()) is Overrun),
        ensures
            match r {
                Some(addr) => from@ == self.server()@ && reading(msg@, self.txid())
                    == Reading::Found(addr@.octets, addr@.port) && addr@ == endpoint(
                    addr@.octets,
                    addr@.port,
                ),
                None => from@ != self.server()@ || !(reading(msg@, self.txid()) is Found),
            },
    {
        if !from.same(&self.server) {
            return None;
        }
        match parse_response(msg, &self.txid) {
            Ok(addr) => Some(addr),
            Err(_) => None,
        }
    }
}

/// Whether `i` is the first of `addrs` that is of the wanted family.
pub open spec fn first_of_family(addrs: Seq<SocketAddr>, ipv4: bool, i: int) -> bool {
    &&& 0 <= i < addrs.len()
    &&& (addrs[i].ip@.len() == 4) == ipv4
    &&& forall|j: int| 0 <= j < i ==> (#[trigger] addrs[j].ip@.len() == 4) != ipv4
}

/// The first resolved address of the server that is of the socket's own family.
pub fn pick_server(addrs: &Vec<SocketAddr>, ipv4: bool) -> (r: Option<SocketAddr>)
    ensures
        match r {
            Some(a) => exists|i: int| first_of_family(addrs@, ipv4, i) && a == addrs@[i],
            None => forall|j: int|
                0 <= j < addrs@.len() ==> (#[trigger] addrs@[j].ip@.len() == 4) != ipv4,
        },
{
    let mut i: usize = 0;
    while i < addrs.len()
        invariant
            i <= addrs@.len(),
            forall|j: int| 0 <= j < i ==> (#[trigger] addrs@[j].ip@.len() == 4) != ipv4,
        decreases addrs@.len() - i,
    {
        if addrs[i].ip.is_ipv4() == ipv4 {
            assert(first_of_family(addrs@, ipv4, i as int));
            return Some(addrs[i]);
        }
        i += 1;
    }
    None
}

/// An attribute: its type, its value, and the octets that fill it up to a multiple of four.
pub struct Attribute {
    pub kind: u16,
    pub value: Seq<u8>,
    pub padding: Seq<u8>,
}

/// The head of an attribute: its type, and how long its value is.
pub open spec fn head(kind: u16, len: nat) -> Seq<u8> {
    seq![(kind / 256) as u8, (kind % 256) as u8, (len / 256) as u8, (len % 256) as u8]
}

impl Attribute {
    /// Whether the value can be sent, and the padding is as long as it has to be.
    pub open spec fn wf(self) -> bool {
        &&& self.value.len() < 65536
        &&& 4 + self.value.len() + self.padding.len() == padded(4 + self.value.len() as int)
    }

    /// The attribute as it is sent.
    pub open spec fn octets(self) -> Seq<u8> {
        head(self.kind, self.value.len()) + self.value + self.padding
    }

    /// Whether there is no mapped address to look for in it.
    pub open spec fn skippable(self) -> bool {
        self.kind != XOR_MAPPED_ADDRESS || self.value.len() < 8
    }
}

/// Attributes as they are sent, one after the other.
pub open spec fn written(attrs: Seq<Attribute>) -> Seq<u8>
    decreases attrs.len(),
{
    if attrs.len() == 0 {
        Seq::empty()
    } else {
        attrs[0].octets() + written(attrs.drop_first())
    }
}

/// The value of a mapped-address attribute for an address of four or sixteen octets. Its first octet
/// means nothing.
pub open spec fn mapped_value(first: u8, octets: Seq<u8>, port: u16, key: Seq<u8>) -> Seq<u8> {
    seq![
        first,
        if octets.len() == 4 { 1u8 } else { 2u8 },
        (port / 256) as u8 ^ key[0],
        (port % 256) as u8 ^ key[1],
    ] + Seq::new(octets.len(), |i: int| octets[i] ^ key[i])
}

/// A binding success response to `txid` with the given attributes.
pub open spec fn response(txid: Seq<u8>, len: u16, attrs: Seq<u8>) -> Seq<u8> {
    seq![1u8, 1, (len / 256) as u8, (len % 256) as u8] + magic() + txid + attrs
}

proof fn split16(n: int)
    requires
        0 <= n < 65536,
    ensures
        be16((n / 256) as u8, (n % 256) as u8) == n,
{
}

/// An attribute of another type, or one too short to hold an address, is passed over, whatever it
/// and its padding hold.
pub proof fn other_attributes_are_skipped(a: Attribute, rest: Seq<u8>, key: Seq<u8>)
    requires
        a.wf(),
        a.skippable(),
    ensures
        scan(a.octets() + rest, key) == scan(rest, key),
{
    let all = a.octets() + rest;
    split16(a.kind as int);
    split16(a.value.len() as int);
    assert(be16(all[0], all[1]) == a.kind);
    assert(be16(all[2], all[3]) == a.value.len());
    assert(all.skip(padded(4 + a.value.len() as int)) =~= rest);
}

/// So is any number of them.
pub proof fn all_other_attributes_are_skipped(
    attrs: Seq<Attribute>,
    rest: Seq<u8>,
    key: Seq<u8>,
)
    requires
        forall|i: int| 0 <= i < attrs.len() ==> (#[trigger] attrs[i]).wf() && attrs[i].skippable(),
    ensures
        scan(written(attrs) + rest, key) == scan(rest, key),
    decreases attrs.len(),
{
    if attrs.len() == 0 {
        assert(written(attrs) + rest =~= rest);
    } else {
        let others = attrs.drop_first();
        assert forall|i: int| 0 <= i < others.len() implies (#[trigger] others[i]).wf()
            && others[i].skippable() by {
            assert(others[i] == attrs[i + 1]);
        }
        all_other_attributes_are_skipped(others, rest, key);
        assert(written(attrs) + rest =~= attrs[0].octets() + (written(others) + rest));
        other_attributes_are_skipped(attrs[0], written(others) + rest, key);
    }
}

proof fn mapped_address_is_found(
    first: u8,
    octets: Seq<u8>,
    port: u16,
    tail: Seq<u8>,
    rest: Seq<u8>,
    key: Seq<u8>,
)
    requires
        octets.len() == 4 || octets.len() == 16,
        key.len() == 16,
        4 + octets.len() + tail.len() < 65536,
    ensures
        ({
            let value = mapped_value(first, octets, port, key) + tail;
            scan(head(XOR_MAPPED_ADDRESS, value.len()) + value + rest, key) == Reading::Found(
                octets,
                port,
            )
        }),
{
    let value = mapped_value(first, octets, port, key) + tail;
    let attrs = head(XOR_MAPPED_ADDRESS, value.len()) + value + rest;
    split16(XOR_MAPPED_ADDRESS as int);
    split16(value.len() as int);
    assert(be16(attrs[0], attrs[1]) == XOR_MAPPED_ADDRESS);
    assert(be16(attrs[2], attrs[3]) == value.len());
    assert(attrs[5] == value[1]);
    let (hi, lo, k0, k1) = ((port / 256) as u8, (port % 256) as u8, key[0], key[1]);
    assert(attrs[6] == hi ^ k0 && attrs[7] == lo ^ k1);
    assert(hi ^ k0 ^ k0 == hi) by (bit_vector);
    assert(lo ^ k1 ^ k1 == lo) by (bit_vector);
    split16(port as int);
    assert forall|i: int| 0 <= i < octets.len() implies attrs[8 + i] ^ key[i] == octets[i] by {
        assert(attrs[8 + i] == value[4 + i]);
        let (o, k) = (octets[i], key[i]);
        assert(o ^ k ^ k == o) by (bit_vector);
    }
    assert(unmask(attrs, key, octets.len()) =~= octets);
}

/// Reading a response gives back the address that it was written for: the first mapped address is
/// found, with its port, whatever stands before it, at the end of its value and behind it.
pub proof fn reading_undoes_writing(
    before: Seq<Attribute>,
    first: u8,
    octets: Seq<u8>,
    port: u16,
    tail: Seq<u8>,
    rest: Seq<u8>,
    txid: Seq<u8>,
    len: u16,
)
    requires
        forall|i: int|
            0 <= i < before.len() ==> (#[trigger] before[i]).wf() && before[i].skippable(),
        octets.len() == 4 || octets.len() == 16,
        4 + octets.len() + tail.len() < 65536,
        txid.len() == 12,
    ensures
        ({
            let value = mapped_value(first, octets, port, magic() + txid) + tail;
            let mapped = head(XOR_MAPPED_ADDRESS, value.len()) + value;
            reading(response(txid, len, written(before) + (mapped + rest)), txid)
        }) == Reading::Found(octets, port),
{
    let key = magic() + txid;
    let value = mapped_value(first, octets, port, key) + tail;
    let mapped = head(XOR_MAPPED_ADDRESS, value.len()) + value;
    let attrs = written(before) + (mapped + rest);
    let msg = response(txid, len, attrs);
    assert(msg.subrange(0, 2) =~= seq![1u8, 1]);
    assert(msg.subrange(4, 8) =~= magic());
    assert(msg.subrange(8, 20) =~= txid);
    assert(msg.skip(20) =~= attrs);
    all_other_attributes_are_skipped(before, mapped + rest, key);
    mapped_address_is_found(first, octets, port, tail, rest, key);
}

/// An answer to another transaction is never taken for ours.
pub proof fn foreign_answers_are_refused(msg: Seq<u8>, ours: Seq<u8>, theirs: Seq<u8>)
    requires
        ours != theirs,
        answers(msg, theirs),
    ensures
        reading(msg, ours) == Reading::Failed(StunError::NotOurs),
{
}

/// A request is twenty octets: a binding request without attributes, the magic cookie 0x2112A442, and
/// the transaction.
pub proof fn requests_name_their_transaction(txid: Seq<u8>)
    requires
        txid.len() == 12,
    ensures
        request(txid).len() == 20,
        request(txid)[0] == 0 && request(txid)[1] == 1,
        request(txid)[2] == 0 && request(txid)[3] == 0,
        request(txid)[4] == 0x21 && request(txid)[5] == 0x12,
        request(txid)[6] == 0xa4 && request(txid)[7] == 0x42,
        request(txid).skip(8) == txid,
{
    assert(request(txid).skip(8) =~= txid);
}

/// The same question is put three times, and each time twice as long is waited as before, at first
/// four tenths of a second.
pub proof fn waits_double(i: int)
    ensures
        waits().len() == 3,
        ATTEMPTS == 3,
        waits()[0] == 400,
        0 < i < 3 ==> waits()[i] == 2 * waits()[i - 1],
{
}

/// A message answers a transaction exactly if it has a whole header that says success and names the
/// magic cookie and the transaction; what length it gives makes no difference.
pub proof fn what_answers(msg: Seq<u8>, txid: Seq<u8>)
    requires
        txid.len() == 12,
    ensures
        answers(msg, txid) <==> msg.len() >= 20 && msg[0] == 1 && msg[1] == 1 && msg[4] == 0x21
            && msg[5] == 0x12 && msg[6] == 0xa4 && msg[7] == 0x42 && forall|i: int|
            0 <= i < 12 ==> #[trigger] txid[i] == msg[8 + i],
{
    if answers(msg, txid) {
        let kind = msg.subrange(0, 2);
        let cookie = msg.subrange(4, 8);
        let ours = msg.subrange(8, 20);
        assert(kind[0] == msg[0] && kind[1] == msg[1]);
        assert(cookie[0] == msg[4] && cookie[1] == msg[5] && cookie[2] == msg[6] && cookie[3]
            == msg[7]);
        assert forall|i: int| 0 <= i < 12 implies #[trigger] txid[i] == msg[8 + i] by {
            assert(ours[i] == msg[8 + i]);
        }
    }
    if msg.len() >= 20 && msg[0] == 1 && msg[1] == 1 && msg[4] == 0x21 && msg[5] == 0x12 && msg[6]
        == 0xa4 && msg[7] == 0x42 && forall|i: int|
        0 <= i < 12 ==> #[trigger] txid[i] == msg[8 + i] {
        assert(msg.subrange(0, 2) =~= seq![1u8, 1]);
        assert(msg.subrange(4, 8) =~= magic());
        assert(msg.subrange(8, 20) =~= txid);
    }
}

/// What holds no address is told apart: less than a head is the end, an attribute longer than what is
/// left is cut off, and a mapped address of neither family, or too short for its family, is unknown.
pub proof fn what_holds_no_address(attrs: Seq<u8>, key: Seq<u8>)
    ensures
        attrs.len() < 4 ==> scan(attrs, key) == Reading::Failed(StunError::Missing),
        attrs.len() >= 4 && attrs.len() < 4 + attrs[2] * 256 + attrs[3] ==> scan(attrs, key)
            == Reading::Failed(StunError::Truncated),
        attrs.len() >= 12 && attrs[0] == 0 && attrs[1] == 0x20 && attrs.len() >= 4 + attrs[2] * 256
            + attrs[3] && attrs[2] * 256 + attrs[3] >= 8 && attrs[5] != 1 && (attrs[5] != 2
            || attrs[2] * 256 + attrs[3] < 20) ==> scan(attrs, key) == Reading::Failed(
            StunError::UnknownFamily,
        ),
        XOR_MAPPED_ADDRESS == 0x20,
{
}

/// Attributes are filled up to the next multiple of four, by at most three octets.
pub proof fn padding_fills_up(n: int)
    requires
        n >= 0,
    ensures
        padded(n) % 4 == 0,
        n <= padded(n) < n + 4,
{
}

/// A server is asked at the first of its addresses that is of the wanted family: IPv4 addresses have
/// four octets.
pub proof fn the_first_of_the_family_is_asked(addrs: Seq<SocketAddr>, ipv4: bool, i: int, j: int)
    requires
        first_of_family(addrs, ipv4, i),
    ensures
        0 <= i < addrs.len(),
        ipv4 ==> addrs[i].ip@.len() == 4,
        !ipv4 ==> addrs[i].ip@.len() != 4,
        0 <= j < i && ipv4 ==> addrs[j].ip@.len() != 4,
        0 <= j < i && !ipv4 ==> addrs[j].ip@.len() == 4,
{
    if 0 <= j < i {
        assert((addrs[j].ip@.len() == 4) != ipv4);
    }
}

} // verus!
