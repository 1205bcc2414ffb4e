use vstd::prelude::*;
use vstd::slice::slice_index_get;
use vstd::slice::slice_subrange;
use crate::checksum::add_span;
use crate::checksum::lemma_add_span_range;
use crate::checksum::word_sum;
use crate::checksum::Hasher;
use crate::ipv4::ipv4_checksum_ok;
use crate::ipv4::ipv4_computed_checksum;
use crate::ipv4::ipv4_stored_checksum;
use crate::fail::Fail;
use crate::ipv4;
use crate::ipv4::ipv4_len_ok;
use crate::ipv4::ipv4_parse_error;
use crate::ipv4::ipv4_payload;
use crate::ipv4::ipv4_seal_spec;
use crate::ipv4::ipv4_valid;
use crate::ipv4::known_protocol;
use crate::ipv4::Protocol;
use crate::ipv4::IPV4_HEADER_SIZE;
use crate::ipv4::PROTO_ICMPV4;

verus! {

/// Bytes in the ICMPv4 header: type (1), code (1), checksum (2, big-endian).
pub const ICMPV4_HEADER_SIZE: usize = 4;

/// The checksum stored big-endian at offsets 2..4 of the ICMPv4 header.
/// `p` is the base layer's payload: ICMPv4 header plus ICMPv4 payload.
pub open spec fn icmpv4_stored_checksum(p: Seq<u8>) -> int {
    p[2] * 0x100 + p[3]
}

/// The checksum this layer computes: over the header with the checksum field
/// excluded, plus the entire payload.
pub open spec fn icmpv4_computed_checksum(p: Seq<u8>) -> int {
    0xFFFF - add_span(add_span(0, p.take(2)), p.skip(ICMPV4_HEADER_SIZE as int))
}

pub open spec fn icmpv4_checksum_ok(p: Seq<u8>) -> bool {
    icmpv4_stored_checksum(p) == icmpv4_computed_checksum(p)
}

pub open spec fn icmpv4_len_ok(p: Seq<u8>) -> bool {
    p.len() >= ICMPV4_HEADER_SIZE
}

/// Validity of a whole buffer at the base layer and at this layer.
pub open spec fn icmpv4_valid(b: Seq<u8>) -> bool {
    &&& ipv4_valid(b)
    &&& b[0] == PROTO_ICMPV4
    &&& icmpv4_len_ok(ipv4_payload(b))
    &&& icmpv4_checksum_ok(ipv4_payload(b))
}

/// The ICMPv4 payload of a whole buffer: what follows both headers.
pub open spec fn icmpv4_payload(b: Seq<u8>) -> Seq<u8> {
    ipv4_payload(b).skip(ICMPV4_HEADER_SIZE as int)
}

/// Caller-side obligation for interpreting a buffer as ICMPv4: a base-layer
/// protocol field that designates another known protocol is a caller bug
/// (a fatal defensive assertion), not malformed input.
pub open spec fn designates_icmpv4_if_known(b: Seq<u8>) -> bool {
    (ipv4_valid(b) && known_protocol(b[0])) ==> b[0] == PROTO_ICMPV4
}

/// The failure parsing reports for `b`; meaningful when `!icmpv4_valid(b)`.
pub open spec fn icmpv4_parse_error(b: Seq<u8>) -> Fail {
    if !ipv4_valid(b) {
        ipv4_parse_error(b)
    } else if !known_protocol(b[0]) {
        Fail::Malformed { details: "unsupported protocol number" }
    } else if !icmpv4_len_ok(ipv4_payload(b)) {
        Fail::Malformed {
            details: "ICMPv4 datagram isn't large enough to contain a complete header",
        }
    } else {
        Fail::Malformed { details: "ICMPv4 checksum mismatch" }
    }
}

/// Read accessor scoped to exactly the ICMPv4 header window.
#[derive(Debug, Clone, Copy, PartialEq, Eq, Structural)]
pub struct Icmpv4Header {
    pub type_byte: u8,
    pub code: u8,
    pub checksum: u16,
}

/// The header accessor read off a base-layer payload `p`.
pub open spec fn header_of(p: Seq<u8>) -> Icmpv4Header {
    Icmpv4Header {
        type_byte: p[0],
        code: p[1],
        checksum: (p[2] * 0x100 + p[3]) as u16,
    }
}

/// The whole buffer after sealing: the protocol field designates ICMPv4, this
/// layer's checksum is derived and stored, then the base layer seals its own
/// header (inside-out; the base checksum does not cover the payload, so one
/// pass suffices).
pub open spec fn icmpv4_seal_spec(b: Seq<u8>) -> Seq<u8> {
    let b1 = b.update(0, PROTO_ICMPV4);
    let p1 = ipv4_payload(b1);
    let c = icmpv4_computed_checksum(p1);
    let b2 = b1.update(IPV4_HEADER_SIZE as int + 2, (c / 0x100) as u8).update(
        IPV4_HEADER_SIZE as int + 3,
        (c % 0x100) as u8,
    );
    ipv4_seal_spec(b2)
}

/// A checksum value over byte spans is a 16-bit word.
proof fn lemma_checksum_range(p: Seq<u8>)
    ensures
        0 <= icmpv4_computed_checksum(p) <= 0xFFFF,
{
    lemma_add_span_range(0, p.take(2));
    lemma_add_span_range(add_span(0, p.take(2)), p.skip(ICMPV4_HEADER_SIZE as int));
}

/// A 16-bit word splits into its two big-endian bytes and back.
proof fn lemma_u16_bytes(c: int)
    requires
        0 <= c <= 0xFFFF,
    ensures
        0 <= c / 0x100 <= 0xFF,
        0 <= c % 0x100 <= 0xFF,
        (c / 0x100) * 0x100 + c % 0x100 == c,
{
    vstd::arithmetic::div_mod::lemma_fundamental_div_mod(c, 0x100);
    vstd::arithmetic::div_mod::lemma_div_pos_is_pos(c, 0x100);
    vstd::arithmetic::div_mod::lemma_div_is_ordered(c, 0xFFFF, 0x100);
    vstd::arithmetic::div_mod::lemma_mod_bound(c, 0x100);
}

/// Round-trip law: sealing any buffer large enough for both headers yields a
/// buffer that is valid at both layers, and leaves the type field, the code
/// field and every payload byte unchanged — so parsing the sealed bytes
/// succeeds and recovers the same field values and payload.
pub proof fn lemma_seal_round_trip(b: Seq<u8>)
    requires
        b.len() >= IPV4_HEADER_SIZE + ICMPV4_HEADER_SIZE,
    ensures
        ({
            let s = icmpv4_seal_spec(b);
            &&& s.len() == b.len()
            &&& icmpv4_valid(s)
            &&& header_of(ipv4_payload(s)).type_byte == ipv4_payload(b)[0]
            &&& header_of(ipv4_payload(s)).code == ipv4_payload(b)[1]
            &&& icmpv4_payload(s) == icmpv4_payload(b)
        }),
{
    let b1 = b.update(0, PROTO_ICMPV4);
    let p1 = ipv4_payload(b1);
    let c = icmpv4_computed_checksum(p1);
    lemma_checksum_range(p1);
    lemma_u16_bytes(c);
    let b2 = b1.update(IPV4_HEADER_SIZE as int + 2, (c / 0x100) as u8).update(
        IPV4_HEADER_SIZE as int + 3,
        (c % 0x100) as u8,
    );
    let p2 = ipv4_payload(b2);
    assert(p2 =~= p1.update(2, (c / 0x100) as u8).update(3, (c % 0x100) as u8));
    assert(p2.take(2) =~= p1.take(2));
    assert(p2.skip(ICMPV4_HEADER_SIZE as int) =~= p1.skip(ICMPV4_HEADER_SIZE as int));
    assert(icmpv4_stored_checksum(p2) == c);
    assert(icmpv4_checksum_ok(p2));
    let c2 = 0xFFFF - add_span(0, b2.take(2));
    lemma_add_span_range(0, b2.take(2));
    lemma_u16_bytes(c2);
    let s = b2.update(2, (c2 / 0x100) as u8).update(3, (c2 % 0x100) as u8);
    assert(s == icmpv4_seal_spec(b));
    assert(s.take(2) =~= b2.take(2));
    assert(ipv4_valid(s));
    assert(ipv4_payload(s) =~= p2);
    assert(s[0] == PROTO_ICMPV4);
    assert(icmpv4_payload(s) =~= icmpv4_payload(b));
    assert(ipv4_payload(s)[0] == ipv4_payload(b)[0]);
    assert(ipv4_payload(s)[1] == ipv4_payload(b)[1]);
}

/// The buffer with one bit of one byte flipped.
pub open spec fn flip_bit(b: Seq<u8>, i: int, k: int) -> Seq<u8> {
    b.update(i, b[i] ^ (1u8 << (k as u8)))
}

/// The ones'-complement accumulator over this layer's canonical spans of a
/// base-layer payload `p`, congruent modulo 0xFFFF to the plain word sums of
/// the two spans, and a 16-bit word.
proof fn lemma_icmpv4_acc_congruent(p: Seq<u8>)
    ensures
        0 <= 0xFFFF - icmpv4_computed_checksum(p) <= 0xFFFF,
        ((0xFFFF - icmpv4_computed_checksum(p)) - (word_sum(p.take(2)) + word_sum(
            p.skip(ICMPV4_HEADER_SIZE as int),
        ))) % 0xFFFF == 0,
{
    let t = p.take(2);
    let s = p.skip(ICMPV4_HEADER_SIZE as int);
    lemma_add_span_range(0, t);
    lemma_add_span_range(add_span(0, t), s);
    crate::checksum::lemma_add_span_congruent(0, t);
    crate::checksum::lemma_add_span_congruent(add_span(0, t), s);
    crate::checksum::lemma_zero_mod_add(
        add_span(0, t) - word_sum(t),
        add_span(add_span(0, t), s) - (add_span(0, t) + word_sum(s)),
    );
}

/// Checksum sensitivity law: flipping any single bit anywhere in a valid
/// (sealed) datagram — either checksummed span, either stored checksum
/// field, or the protocol field — leaves a buffer that no longer validates,
/// so parsing it fails.
pub proof fn lemma_checksum_sensitivity(b: Seq<u8>, i: int, k: int)
    requires
        icmpv4_valid(b),
        0 <= i < b.len(),
        0 <= k < 8,
    ensures
        !icmpv4_valid(flip_bit(b, i, k)),
{
    let x = b[i];
    let ku = k as u8;
    let v = x ^ (1u8 << ku);
    assert(x ^ (1u8 << ku) != x) by (bit_vector)
        requires
            ku < 8,
    ;
    let c = b.update(i, v);
    assert(c == flip_bit(b, i, k));
    if i < 2 {
        assert(c.take(2) =~= b.take(2).update(i, v));
        assert(b.take(2)[i] == x);
        crate::checksum::lemma_word_sum_update(b.take(2), i, v);
        let d = (if i % 2 == 0 { 0x100int } else { 1int }) * (v - x);
        assert(d != 0 && -0xFFFF < d < 0xFFFF);
        lemma_add_span_range(0, b.take(2));
        lemma_add_span_range(0, c.take(2));
        crate::checksum::lemma_add_span_congruent(0, b.take(2));
        crate::checksum::lemma_add_span_congruent(0, c.take(2));
        crate::checksum::lemma_congruence_difference(
            add_span(0, b.take(2)),
            word_sum(b.take(2)),
            add_span(0, c.take(2)),
            word_sum(c.take(2)),
            d,
        );
        crate::checksum::lemma_incongruent_distinct(
            add_span(0, b.take(2)),
            add_span(0, c.take(2)),
            d,
        );
        assert(c[2] == b[2] && c[3] == b[3]);
        assert(!ipv4_checksum_ok(c));
    } else if i < 4 {
        assert(c.take(2) =~= b.take(2));
        assert(ipv4_computed_checksum(c) == ipv4_computed_checksum(b));
        if i == 2 {
            assert(ipv4_stored_checksum(c) - ipv4_stored_checksum(b) == 0x100 * (v - x));
        } else {
            assert(ipv4_stored_checksum(c) - ipv4_stored_checksum(b) == v - x);
        }
        assert(!ipv4_checksum_ok(c));
    } else {
        let p = ipv4_payload(b);
        let q = ipv4_payload(c);
        let j = i - IPV4_HEADER_SIZE;
        assert(q =~= p.update(j, v));
        assert(p[j] == x);
        if j == 2 || j == 3 {
            assert(q.take(2) =~= p.take(2));
            assert(q.skip(ICMPV4_HEADER_SIZE as int) =~= p.skip(ICMPV4_HEADER_SIZE as int));
            assert(icmpv4_computed_checksum(q) == icmpv4_computed_checksum(p));
            if j == 2 {
                assert(icmpv4_stored_checksum(q) - icmpv4_stored_checksum(p) == 0x100 * (v
                    - x));
            } else {
                assert(icmpv4_stored_checksum(q) - icmpv4_stored_checksum(p) == v - x);
            }
            assert(!icmpv4_checksum_ok(q));
        } else {
            let d = (if j % 2 == 0 { 0x100int } else { 1int }) * (v - x);
            assert(d != 0 && -0xFFFF < d < 0xFFFF);
            if j < 2 {
                assert(q.take(2) =~= p.take(2).update(j, v));
                assert(q.skip(ICMPV4_HEADER_SIZE as int) =~= p.skip(ICMPV4_HEADER_SIZE as int));
                assert(p.take(2)[j] == x);
                crate::checksum::lemma_word_sum_update(p.take(2), j, v);
            } else {
                assert(q.take(2) =~= p.take(2));
                assert(q.skip(ICMPV4_HEADER_SIZE as int) =~= p.skip(
                    ICMPV4_HEADER_SIZE as int,
                ).update(j - ICMPV4_HEADER_SIZE, v));
                assert(p.skip(ICMPV4_HEADER_SIZE as int)[j - ICMPV4_HEADER_SIZE] == x);
                crate::checksum::lemma_word_sum_update(
                    p.skip(ICMPV4_HEADER_SIZE as int),
                    j - ICMPV4_HEADER_SIZE,
                    v,
                );
                assert((j - ICMPV4_HEADER_SIZE) % 2 == j % 2) by {
                    vstd::arithmetic::div_mod::lemma_mod_multiples_vanish(-2, j, 2);
                }
            }
            lemma_icmpv4_acc_congruent(p);
            lemma_icmpv4_acc_congruent(q);
            crate::checksum::lemma_congruence_difference(
                0xFFFF - icmpv4_computed_checksum(p),
                word_sum(p.take(2)) + word_sum(p.skip(ICMPV4_HEADER_SIZE as int)),
                0xFFFF - icmpv4_computed_checksum(q),
                word_sum(q.take(2)) + word_sum(q.skip(ICMPV4_HEADER_SIZE as int)),
                d,
            );
            crate::checksum::lemma_incongruent_distinct(
                0xFFFF - icmpv4_computed_checksum(p),
                0xFFFF - icmpv4_computed_checksum(q),
                d,
            );
            assert(q[2] == p[2] && q[3] == p[3]);
            assert(!icmpv4_checksum_ok(q));
        }
    }
}

/// Length boundary law: under a valid base layer that designates this
/// protocol, a buffer one byte short of holding this layer's header fails
/// with the size-related failure, while sealing a buffer with exactly both
/// headers — an empty payload — yields one that validates.
pub proof fn lemma_length_boundary(b: Seq<u8>, s: Seq<u8>)
    requires
        ipv4_valid(b),
        b[0] == PROTO_ICMPV4,
        b.len() == IPV4_HEADER_SIZE + ICMPV4_HEADER_SIZE - 1,
        s.len() == IPV4_HEADER_SIZE + ICMPV4_HEADER_SIZE,
    ensures
        !icmpv4_valid(b),
        icmpv4_parse_error(b) == (Fail::Malformed {
            details: "ICMPv4 datagram isn't large enough to contain a complete header",
        }),
        icmpv4_valid(icmpv4_seal_spec(s)),
{
    assert(ipv4_payload(b).len() == ICMPV4_HEADER_SIZE - 1);
    lemma_seal_round_trip(s);
}

/// Immutable view of a buffer validated as an ICMPv4 datagram carried by the
/// base layer. Construction validates this layer only; the base layer was
/// validated when the inner view was constructed.
#[derive(Debug)]
pub struct Icmpv4Datagram(ipv4::Datagram);

impl View for Icmpv4Datagram {
    type V = Seq<u8>;

    closed spec fn view(&self) -> Seq<u8> {
        self.0@
    }
}

impl Icmpv4Datagram {
    pub open spec fn wf(&self) -> bool {
        icmpv4_valid(self@)
    }

    /// Interprets the payload of an already validated base-layer view as an
    /// ICMPv4 datagram: checks the protocol field, this layer's minimum
    /// length, then this layer's checksum.
    pub fn try_from(ipv4_datagram: ipv4::Datagram) -> (r: Result<Icmpv4Datagram, Fail>)
        requires
            ipv4_datagram.wf(),
            designates_icmpv4_if_known(ipv4_datagram@),
        ensures
            icmpv4_valid(ipv4_datagram@) <==> r is Ok,
            r matches Ok(d) ==> d@ == ipv4_datagram@ && d.wf(),
            r matches Err(f) ==> f == icmpv4_parse_error(ipv4_datagram@),
    {
        let proto = match ipv4_datagram.header().protocol() {
            Ok(p) => p,
            Err(f) => {
                return Err(f);
            },
        };
        // The lower layer must actually designate this layer; a mismatch is a
        // caller bug, excluded by precondition rather than reported.
        assert(proto == Protocol::Icmpv4);
        let pl = ipv4_datagram.payload();
        let pl_len = pl.len();
        if pl_len < ICMPV4_HEADER_SIZE {
            return Err(Fail::Malformed {
                details: "ICMPv4 datagram isn't large enough to contain a complete header",
            });
        }
        let mut h = Hasher::new();
        h.write(slice_subrange(pl, 0, 2));
        h.write(slice_subrange(pl, ICMPV4_HEADER_SIZE, pl_len));
        proof {
            assert(pl@.subrange(0, 2) =~= pl@.take(2));
            assert(pl@.subrange(ICMPV4_HEADER_SIZE as int, pl_len as int) =~= pl@.skip(
                ICMPV4_HEADER_SIZE as int,
            ));
        }
        let computed = h.finish();
        let stored = (*slice_index_get(pl, 2) as u16) * 0x100 + (*slice_index_get(pl, 3) as u16);
        if stored != computed {
            return Err(Fail::Malformed { details: "ICMPv4 checksum mismatch" });
        }
        Ok(Icmpv4Datagram(ipv4_datagram))
    }

    /// Validates `bytes` at the base layer, then at this layer.
    pub fn from_bytes(bytes: Vec<u8>) -> (r: Result<Icmpv4Datagram, Fail>)
        requires
            designates_icmpv4_if_known(bytes@),
        ensures
            icmpv4_valid(bytes@) <==> r is Ok,
            r matches Ok(d) ==> d@ == bytes@ && d.wf(),
            r matches Err(f) ==> f == icmpv4_parse_error(bytes@),
    {
        let inner = match ipv4::Datagram::from_bytes(bytes) {
            Ok(d) => d,
            Err(f) => {
                return Err(f);
            },
        };
        Icmpv4Datagram::try_from(inner)
    }

    /// The accessor over exactly this layer's header window.
    pub fn header(&self) -> (h: Icmpv4Header)
        requires
            self.wf(),
        ensures
            h == header_of(ipv4_payload(self@)),
    {
        let pl = self.0.payload();
        Icmpv4Header {
            type_byte: *slice_index_get(pl, 0),
            code: *slice_index_get(pl, 1),
            checksum: (*slice_index_get(pl, 2) as u16) * 0x100 + (*slice_index_get(pl, 3) as u16),
        }
    }

    /// The lower-layer view this datagram is carried by.
    pub fn ipv4(&self) -> (r: &ipv4::Datagram)
        requires
            self.wf(),
        ensures
            r@ == self@,
            r.wf(),
    {
        &self.0
    }

    /// The bytes after this layer's header.
    pub fn payload(&self) -> (r: &[u8])
        requires
            self.wf(),
        ensures
            r@ == icmpv4_payload(self@),
    {
        let pl = self.0.payload();
        let r = slice_subrange(pl, ICMPV4_HEADER_SIZE, pl.len());
        proof {
            assert(r@ =~= icmpv4_payload(self@));
        }
        r
    }

    /// The whole underlying buffer.
    pub fn as_bytes(&self) -> (r: &[u8])
        ensures
            r@ == self@,
    {
        self.0.as_bytes()
    }

    /// Surrenders the underlying buffer.
    pub fn into_bytes(self) -> (r: Vec<u8>)
        ensures
            r@ == self@,
    {
        self.0.into_bytes()
    }
}

/// Exclusive-write view for constructing an outbound ICMPv4 datagram.
/// Construction checks only that both headers fit; checksums and the protocol
/// field are derived at `seal` time.
#[derive(Debug)]
pub struct Icmpv4DatagramMut(ipv4::DatagramMut);

impl View for Icmpv4DatagramMut {
    type V = Seq<u8>;

    closed spec fn view(&self) -> Seq<u8> {
        self.0@
    }
}

impl Icmpv4DatagramMut {
    pub open spec fn wf(&self) -> bool {
        self@.len() >= IPV4_HEADER_SIZE + ICMPV4_HEADER_SIZE
    }

    /// A fresh zero-filled buffer with room for both headers and an empty
    /// payload.
    pub fn new_bytes() -> (r: Vec<u8>)
        ensures
            r@.len() == IPV4_HEADER_SIZE + ICMPV4_HEADER_SIZE,
            forall|i: int| 0 <= i < r@.len() ==> r@[i] == 0,
    {
        ipv4::DatagramMut::new_bytes(ICMPV4_HEADER_SIZE)
    }

    /// Takes exclusive ownership of `bytes` as a mutable two-layer view,
    /// checking that both headers fit.
    pub fn from_bytes(bytes: Vec<u8>) -> (r: Result<Icmpv4DatagramMut, Fail>)
        ensures
            bytes@.len() >= IPV4_HEADER_SIZE + ICMPV4_HEADER_SIZE <==> r is Ok,
            r matches Ok(d) ==> d@ == bytes@ && d.wf(),
            r matches Err(f) ==> f == (if !ipv4_len_ok(bytes@) {
                Fail::Malformed { details: "ipv4 datagram too small to contain a complete header" }
            } else {
                Fail::Malformed {
                    details: "ICMPv4 datagram isn't large enough to contain a complete header",
                }
            }),
    {
        let n = bytes.len();
        let inner = match ipv4::DatagramMut::from_bytes(bytes) {
            Ok(d) => d,
            Err(f) => {
                return Err(f);
            },
        };
        if n < IPV4_HEADER_SIZE + ICMPV4_HEADER_SIZE {
            return Err(Fail::Malformed {
                details: "ICMPv4 datagram isn't large enough to contain a complete header",
            });
        }
        Ok(Icmpv4DatagramMut(inner))
    }

    /// The accessor over exactly this layer's header window, with the current
    /// values.
    pub fn header(&self) -> (h: Icmpv4Header)
        requires
            self.wf(),
        ensures
            h == header_of(ipv4_payload(self@)),
    {
        let pl = self.0.payload();
        Icmpv4Header {
            type_byte: *slice_index_get(pl, 0),
            code: *slice_index_get(pl, 1),
            checksum: (*slice_index_get(pl, 2) as u16) * 0x100 + (*slice_index_get(pl, 3) as u16),
        }
    }

    /// Writes this layer's type field.
    pub fn set_type(&mut self, t: u8)
        requires
            old(self).wf(),
        ensures
            final(self)@ == old(self)@.update(IPV4_HEADER_SIZE as int, t),
            final(self).wf(),
    {
        self.0.set_payload_byte(0, t);
    }

    /// Writes this layer's code field.
    pub fn set_code(&mut self, c: u8)
        requires
            old(self).wf(),
        ensures
            final(self)@ == old(self)@.update(IPV4_HEADER_SIZE as int + 1, c),
            final(self).wf(),
    {
        self.0.set_payload_byte(1, c);
    }

    /// Stores a checksum value big-endian into this layer's checksum field.
    pub fn set_checksum(&mut self, c: u16)
        requires
            old(self).wf(),
        ensures
            final(self)@ == old(self)@.update(IPV4_HEADER_SIZE as int + 2, (c / 0x100) as u8)
                .update(IPV4_HEADER_SIZE as int + 3, (c % 0x100) as u8),
            final(self).wf(),
    {
        self.0.set_payload_byte(2, (c / 0x100) as u8);
        self.0.set_payload_byte(3, (c % 0x100) as u8);
    }

    /// Writes the whole payload of this layer, which must fill the buffer.
    pub fn write_payload(&mut self, src: &[u8])
        requires
            old(self).wf(),
            src@.len() == old(self)@.len() - (IPV4_HEADER_SIZE + ICMPV4_HEADER_SIZE),
        ensures
            final(self)@ == old(self)@.take((IPV4_HEADER_SIZE + ICMPV4_HEADER_SIZE) as int)
                + src@,
            final(self).wf(),
    {
        let ghost orig: Seq<u8> = self@;
        let total: usize = self.0.as_bytes().len();
        let n = src.len();
        let mut i: usize = 0;
        while i < n
            invariant
                i <= n,
                n == src@.len(),
                orig.len() == total,
                self@.len() == orig.len(),
                orig.len() >= IPV4_HEADER_SIZE + ICMPV4_HEADER_SIZE,
                n == orig.len() - (IPV4_HEADER_SIZE + ICMPV4_HEADER_SIZE),
                forall|j: int|
                    0 <= j < IPV4_HEADER_SIZE + ICMPV4_HEADER_SIZE ==> self@[j] == orig[j],
                forall|j: int|
                    0 <= j < i ==> self@[IPV4_HEADER_SIZE + ICMPV4_HEADER_SIZE + j] == src@[j],
            decreases n - i,
        {
            self.0.set_payload_byte(ICMPV4_HEADER_SIZE + i, *slice_index_get(src, i));
            i = i + 1;
        }
        proof {
            assert(self@ =~= orig.take((IPV4_HEADER_SIZE + ICMPV4_HEADER_SIZE) as int) + src@);
        }
    }

    /// The lower-layer view this datagram is being built over.
    pub fn ipv4(&self) -> (r: &ipv4::DatagramMut)
        requires
            self.wf(),
        ensures
            r@ == self@,
            r.wf(),
    {
        &self.0
    }

    /// The bytes after this layer's header.
    pub fn payload(&self) -> (r: &[u8])
        requires
            self.wf(),
        ensures
            r@ == icmpv4_payload(self@),
    {
        let pl = self.0.payload();
        let r = slice_subrange(pl, ICMPV4_HEADER_SIZE, pl.len());
        proof {
            assert(r@ =~= icmpv4_payload(self@));
        }
        r
    }

    /// Converts to an immutable view, revalidating both layers.
    pub fn unmut(self) -> (r: Result<Icmpv4Datagram, Fail>)
        requires
            designates_icmpv4_if_known(self@),
        ensures
            icmpv4_valid(self@) <==> r is Ok,
            r matches Ok(d) ==> d@ == self@ && d.wf(),
            r matches Err(f) ==> f == icmpv4_parse_error(self@),
    {
        let inner = match self.0.unmut() {
            Ok(d) => d,
            Err(f) => {
                return Err(f);
            },
        };
        Icmpv4Datagram::try_from(inner)
    }

    /// Seals inside-out: writes this layer's protocol identifier into the
    /// base-layer header, derives and stores this layer's checksum over its
    /// canonical spans (checksum field excluded), then lets the base layer
    /// seal its own header, and revalidates the frozen bytes.
    pub fn seal(self) -> (r: Result<Icmpv4Datagram, Fail>)
        requires
            self.wf(),
        ensures
            r is Ok,
            r matches Ok(d) ==> d@ == icmpv4_seal_spec(self@) && d.wf(),
    {
        let ghost b0: Seq<u8> = self@;
        let mut this = self;
        this.0.set_protocol(Protocol::Icmpv4);
        let ghost b1: Seq<u8> = this@;
        let pl = this.0.payload();
        let pl_len = pl.len();
        let mut h = Hasher::new();
        h.write(slice_subrange(pl, 0, 2));
        h.write(slice_subrange(pl, ICMPV4_HEADER_SIZE, pl_len));
        proof {
            assert(pl@.subrange(0, 2) =~= pl@.take(2));
            assert(pl@.subrange(ICMPV4_HEADER_SIZE as int, pl_len as int) =~= pl@.skip(
                ICMPV4_HEADER_SIZE as int,
            ));
        }
        let c = h.finish();
        this.set_checksum(c);
        let ghost b2: Seq<u8> = this@;
        let Icmpv4DatagramMut(inner) = this;
        let sealed = inner.seal();
        proof {
            lemma_seal_round_trip(b0);
            assert(b1 == b0.update(0, PROTO_ICMPV4));
            assert(c == icmpv4_computed_checksum(ipv4_payload(b1)));
            assert(sealed@ == icmpv4_seal_spec(b0));
            assert(icmpv4_valid(sealed@));
        }
        Icmpv4Datagram::try_from(sealed)
    }
}

} // verus!
