use vstd::prelude::*;
use vstd::slice::slice_subrange;
use vstd::slice::SliceAdditionalExecFns;
use crate::checksum::add_span;
use crate::checksum::lemma_add_span_range;
use crate::checksum::Hasher;
use crate::fail::Fail;

verus! {

/// Bytes in the base-layer header: protocol (1), reserved (1), checksum (2, big-endian).
pub const IPV4_HEADER_SIZE: usize = 4;

/// Wire value of the protocol field designating an ICMPv4 payload.
pub const PROTO_ICMPV4: u8 = 1;

/// Wire value of the protocol field designating a TCP payload.
pub const PROTO_TCP: u8 = 6;

/// The next-layer protocols the base layer can designate.
#[derive(Debug, Clone, Copy, PartialEq, Eq, Structural)]
pub enum Protocol {
    Icmpv4,
    Tcp,
}

/// Protocol numbers this stack understands.
pub open spec fn known_protocol(n: u8) -> bool {
    n == PROTO_ICMPV4 || n == PROTO_TCP
}

impl Protocol {
    /// The wire value of this protocol's field.
    pub open spec fn number(self) -> u8 {
        match self {
            Protocol::Icmpv4 => PROTO_ICMPV4,
            Protocol::Tcp => PROTO_TCP,
        }
    }

    /// Parses a protocol field byte; unknown numbers are a recoverable failure.
    pub fn from_u8(n: u8) -> (r: Result<Protocol, Fail>)
        ensures
            known_protocol(n) <==> r is Ok,
            r matches Ok(p) ==> p.number() == n,
            r matches Err(f) ==> f == (Fail::Malformed { details: "unsupported protocol number" }),
    {
        if n == PROTO_ICMPV4 {
            Ok(Protocol::Icmpv4)
        } else if n == PROTO_TCP {
            Ok(Protocol::Tcp)
        } else {
            Err(Fail::Malformed { details: "unsupported protocol number" })
        }
    }

    /// The wire value of this protocol's field.
    pub fn to_u8(self) -> (r: u8)
        ensures
            r == self.number(),
    {
        match self {
            Protocol::Icmpv4 => PROTO_ICMPV4,
            Protocol::Tcp => PROTO_TCP,
        }
    }
}

/// The buffer is long enough to hold the base-layer header.
pub open spec fn ipv4_len_ok(b: Seq<u8>) -> bool {
    b.len() >= IPV4_HEADER_SIZE
}

/// The checksum stored big-endian at offsets 2..4 of the base-layer header.
pub open spec fn ipv4_stored_checksum(b: Seq<u8>) -> int {
    b[2] * 0x100 + b[3]
}

/// The checksum the base layer computes: over the header with the checksum
/// field excluded (bytes 0..2); the payload is not covered at this layer.
pub open spec fn ipv4_computed_checksum(b: Seq<u8>) -> int {
    0xFFFF - add_span(0, b.take(2))
}

pub open spec fn ipv4_checksum_ok(b: Seq<u8>) -> bool {
    ipv4_stored_checksum(b) == ipv4_computed_checksum(b)
}

/// Well-formedness of a buffer at the base layer alone.
pub open spec fn ipv4_valid(b: Seq<u8>) -> bool {
    ipv4_len_ok(b) && ipv4_checksum_ok(b)
}

/// The bytes delegated to the next layer.
pub open spec fn ipv4_payload(b: Seq<u8>) -> Seq<u8> {
    b.skip(IPV4_HEADER_SIZE as int)
}

/// The failure `from_bytes` reports for `b`; meaningful when `!ipv4_valid(b)`.
pub open spec fn ipv4_parse_error(b: Seq<u8>) -> Fail {
    if !ipv4_len_ok(b) {
        Fail::Malformed { details: "ipv4 datagram too small to contain a complete header" }
    } else {
        Fail::Malformed { details: "ipv4 checksum mismatch" }
    }
}

/// The buffer after the base layer seals it: the checksum over bytes 0..2
/// written big-endian into offsets 2..4.
pub open spec fn ipv4_seal_spec(b: Seq<u8>) -> Seq<u8> {
    let c = 0xFFFF - add_span(0, b.take(2));
    b.update(2, (c / 0x100) as u8).update(3, (c % 0x100) as u8)
}

/// Writes one byte of an owned buffer in place.
fn set_byte(v: &mut Vec<u8>, i: usize, b: u8)
    requires
        i < old(v)@.len(),
    ensures
        final(v)@ == old(v)@.update(i as int, b),
{
    let s = v.as_mut_slice();
    s.set(i, b);
}

/// Reads the big-endian 16-bit field at byte offset `off`.
fn read_u16(b: &Vec<u8>, off: usize) -> (r: u16)
    requires
        off + 1 < b@.len(),
    ensures
        r == b@[off as int] * 0x100 + b@[off as int + 1],
{
    let n: usize = b.len();
    assert(off + 1 < n);
    (b[off] as u16) * 0x100 + (b[off + 1] as u16)
}

/// Read accessor scoped to exactly the base-layer header window.
pub struct Ipv4Header {
    pub protocol_byte: u8,
    pub checksum: u16,
}

impl Ipv4Header {
    /// Parses the protocol field.
    pub fn protocol(&self) -> (r: Result<Protocol, Fail>)
        ensures
            known_protocol(self.protocol_byte) <==> r is Ok,
            r matches Ok(p) ==> p.number() == self.protocol_byte,
            r matches Err(f) ==> f == (Fail::Malformed { details: "unsupported protocol number" }),
    {
        Protocol::from_u8(self.protocol_byte)
    }
}

/// Immutable view of a buffer validated at the base layer. Construction
/// checks length and checksum; accessors need no further checks.
#[derive(Debug)]
pub struct Datagram {
    buf: Vec<u8>,
}

impl View for Datagram {
    type V = Seq<u8>;

    closed spec fn view(&self) -> Seq<u8> {
        self.buf@
    }
}

impl Datagram {
    /// Every constructed immutable view is well-formed at this layer.
    pub open spec fn wf(&self) -> bool {
        ipv4_valid(self@)
    }

    /// Validates `bytes` at the base layer: header length, then checksum.
    pub fn from_bytes(bytes: Vec<u8>) -> (r: Result<Datagram, Fail>)
        ensures
            ipv4_valid(bytes@) <==> r is Ok,
            r matches Ok(d) ==> d@ == bytes@ && d.wf(),
            r matches Err(f) ==> f == ipv4_parse_error(bytes@),
    {
        if bytes.len() < IPV4_HEADER_SIZE {
            return Err(Fail::Malformed {
                details: "ipv4 datagram too small to contain a complete header",
            });
        }
        let mut h = Hasher::new();
        h.write(slice_subrange(bytes.as_slice(), 0, 2));
        proof {
            assert(bytes@.subrange(0, 2) =~= bytes@.take(2));
        }
        let computed = h.finish();
        let stored = read_u16(&bytes, 2);
        if stored != computed {
            return Err(Fail::Malformed { details: "ipv4 checksum mismatch" });
        }
        Ok(Datagram { buf: bytes })
    }

    /// The accessor over exactly the header window.
    pub fn header(&self) -> (h: Ipv4Header)
        requires
            self.wf(),
        ensures
            h == (Ipv4Header {
                protocol_byte: self@[0],
                checksum: (ipv4_stored_checksum(self@) as u16),
            }),
    {
        Ipv4Header { protocol_byte: self.buf[0], checksum: read_u16(&self.buf, 2) }
    }

    /// The bytes after the header, for the next layer.
    pub fn payload(&self) -> (r: &[u8])
        requires
            self.wf(),
        ensures
            r@ == ipv4_payload(self@),
    {
        let r = slice_subrange(self.buf.as_slice(), IPV4_HEADER_SIZE, self.buf.len());
        proof {
            assert(r@ =~= ipv4_payload(self@));
        }
        r
    }

    /// The whole underlying buffer.
    pub fn as_bytes(&self) -> (r: &[u8])
        ensures
            r@ == self@,
    {
        self.buf.as_slice()
    }

    /// Surrenders the underlying buffer.
    pub fn into_bytes(self) -> (r: Vec<u8>)
        ensures
            r@ == self@,
    {
        self.buf
    }
}

/// Exclusive-write view of a buffer at the base layer. Construction checks
/// only the header length; checksums are derived at `seal` time.
#[derive(Debug)]
pub struct DatagramMut {
    buf: Vec<u8>,
}

impl View for DatagramMut {
    type V = Seq<u8>;

    closed spec fn view(&self) -> Seq<u8> {
        self.buf@
    }
}

impl DatagramMut {
    pub open spec fn wf(&self) -> bool {
        ipv4_len_ok(self@)
    }

    /// A fresh zero-filled buffer with room for the header and `payload_len`
    /// payload bytes.
    pub fn new_bytes(payload_len: usize) -> (r: Vec<u8>)
        requires
            payload_len <= usize::MAX - IPV4_HEADER_SIZE,
        ensures
            r@.len() == IPV4_HEADER_SIZE + payload_len,
            forall|i: int| 0 <= i < r@.len() ==> r@[i] == 0,
    {
        let total = IPV4_HEADER_SIZE + payload_len;
        let mut v: Vec<u8> = Vec::new();
        let mut i: usize = 0;
        while i < total
            invariant
                i <= total,
                v@.len() == i,
                forall|j: int| 0 <= j < i ==> v@[j] == 0,
            decreases total - i,
        {
            v.push(0);
            i = i + 1;
        }
        v
    }

    /// Takes exclusive ownership of `bytes` as a mutable base-layer view.
    pub fn from_bytes(bytes: Vec<u8>) -> (r: Result<DatagramMut, Fail>)
        ensures
            ipv4_len_ok(bytes@) <==> r is Ok,
            r matches Ok(d) ==> d@ == bytes@ && d.wf(),
            r matches Err(f) ==> f == (Fail::Malformed {
                details: "ipv4 datagram too small to contain a complete header",
            }),
    {
        if bytes.len() < IPV4_HEADER_SIZE {
            return Err(Fail::Malformed {
                details: "ipv4 datagram too small to contain a complete header",
            });
        }
        Ok(DatagramMut { buf: bytes })
    }

    /// The accessor over exactly the header window, with the current values.
    pub fn header(&self) -> (h: Ipv4Header)
        requires
            self.wf(),
        ensures
            h == (Ipv4Header {
                protocol_byte: self@[0],
                checksum: (ipv4_stored_checksum(self@) as u16),
            }),
    {
        Ipv4Header { protocol_byte: self.buf[0], checksum: read_u16(&self.buf, 2) }
    }

    /// Writes the protocol field.
    pub fn set_protocol(&mut self, p: Protocol)
        requires
            old(self).wf(),
        ensures
            final(self)@ == old(self)@.update(0, p.number()),
            final(self).wf(),
    {
        set_byte(&mut self.buf, 0, p.to_u8());
    }

    /// The bytes after the header.
    pub fn payload(&self) -> (r: &[u8])
        requires
            self.wf(),
        ensures
            r@ == ipv4_payload(self@),
    {
        let r = slice_subrange(self.buf.as_slice(), IPV4_HEADER_SIZE, self.buf.len());
        proof {
            assert(r@ =~= ipv4_payload(self@));
        }
        r
    }

    /// Writes one payload byte, at offset `i` past the header.
    pub fn set_payload_byte(&mut self, i: usize, b: u8)
        requires
            old(self).wf(),
            i < old(self)@.len() - IPV4_HEADER_SIZE,
        ensures
            final(self)@ == old(self)@.update(IPV4_HEADER_SIZE + i, b),
            final(self).wf(),
    {
        let n: usize = self.buf.len();
        assert(IPV4_HEADER_SIZE + i < n);
        set_byte(&mut self.buf, IPV4_HEADER_SIZE + i, b);
    }

    /// Derives and stores this layer's checksum, freezing the buffer into a
    /// validated immutable view.
    pub fn seal(self) -> (d: Datagram)
        requires
            self.wf(),
        ensures
            d@ == ipv4_seal_spec(self@),
            d.wf(),
    {
        let mut this = self;
        let ghost b0: Seq<u8> = this@;
        let mut h = Hasher::new();
        h.write(slice_subrange(this.buf.as_slice(), 0, 2));
        proof {
            assert(b0.subrange(0, 2) =~= b0.take(2));
            lemma_add_span_range(0, b0.take(2));
        }
        let c = h.finish();
        set_byte(&mut this.buf, 2, (c / 0x100) as u8);
        set_byte(&mut this.buf, 3, (c % 0x100) as u8);
        proof {
            assert(this@.take(2) =~= b0.take(2));
            assert(ipv4_stored_checksum(this@) == (c / 0x100) * 0x100 + (c % 0x100));
            assert(c == (c / 0x100) * 0x100 + (c % 0x100)) by {
                vstd::arithmetic::div_mod::lemma_fundamental_div_mod(c as int, 0x100);
            }
        }
        Datagram { buf: this.buf }
    }

    /// Converts to an immutable view, revalidating at this layer.
    pub fn unmut(self) -> (r: Result<Datagram, Fail>)
        ensures
            ipv4_valid(self@) <==> r is Ok,
            r matches Ok(d) ==> d@ == self@ && d.wf(),
            r matches Err(f) ==> f == ipv4_parse_error(self@),
    {
        Datagram::from_bytes(self.buf)
    }

    /// The whole underlying buffer.
    pub fn as_bytes(&self) -> (r: &[u8])
        ensures
            r@ == self@,
    {
        self.buf.as_slice()
    }
}

} // verus!
