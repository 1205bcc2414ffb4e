use catnip::checksum::Hasher;
use catnip::fail::Fail;
use catnip::icmpv4::Icmpv4Datagram;
use catnip::icmpv4::Icmpv4DatagramMut;
use catnip::ipv4;
use catnip::ipv4::Protocol;

const HEADERS: usize = 8;

fn details(f: &Fail) -> &'static str {
    f.details()
}

fn sealed(type_byte: u8, code: u8, payload: &[u8]) -> Vec<u8> {
    let buf = vec![0u8; HEADERS + payload.len()];
    let mut m = Icmpv4DatagramMut::from_bytes(buf).unwrap();
    m.set_type(type_byte);
    m.set_code(code);
    m.write_payload(payload);
    let d = m.seal().unwrap();
    d.into_bytes()
}

#[test]
fn round_trip_recovers_fields_and_payload() {
    let bytes = sealed(8, 0, b"hello world");
    let d = Icmpv4Datagram::from_bytes(bytes).unwrap();
    let h = d.header();
    assert_eq!(h.type_byte, 8);
    assert_eq!(h.code, 0);
    assert_eq!(d.payload(), b"hello world");
    assert_eq!(d.ipv4().header().protocol().unwrap(), Protocol::Icmpv4);
}

#[test]
fn round_trip_empty_payload() {
    let bytes = sealed(0, 7, b"");
    let d = Icmpv4Datagram::from_bytes(bytes).unwrap();
    assert_eq!(d.header().type_byte, 0);
    assert_eq!(d.header().code, 7);
    assert_eq!(d.payload(), b"");
}

#[test]
fn example_scenario_ping() {
    // header [type=8, code=0, checksum=0] and payload "ping": the checksum
    // must be the ones' complement of 0x0800 + 0x0000 + 0x7069 + 0x6e67.
    let bytes = sealed(8, 0, b"ping");
    let d = Icmpv4Datagram::from_bytes(bytes).unwrap();
    let expected_sum = 0x0800u32 + 0x0000 + 0x7069 + 0x6e67;
    assert!(expected_sum <= 0xFFFF);
    let expected = 0xFFFFu16 - (expected_sum as u16);
    assert_eq!(expected, 0x192F);
    assert_eq!(d.header().checksum, expected);
    let mut h = Hasher::new();
    h.write(&[8, 0, 0, 0]);
    h.write(b"ping");
    assert_eq!(h.finish(), expected);
    assert_eq!(d.header().type_byte, 8);
    assert_eq!(d.header().code, 0);
    assert_eq!(d.payload(), b"ping");
}

#[test]
fn flipping_any_single_bit_breaks_validation() {
    let bytes = sealed(8, 0, b"ping");
    for i in 0..bytes.len() {
        for k in 0..8 {
            let mut tampered = bytes.clone();
            tampered[i] ^= 1u8 << k;
            assert!(
                Icmpv4Datagram::from_bytes(tampered).is_err(),
                "bit {} of byte {} went unnoticed",
                k,
                i
            );
        }
    }
}

#[test]
fn corrupt_payload_reports_checksum_mismatch() {
    let mut bytes = sealed(8, 0, b"ping");
    let last = bytes.len() - 1;
    bytes[last] ^= 0x10;
    let err = Icmpv4Datagram::from_bytes(bytes).unwrap_err();
    assert_eq!(details(&err), "ICMPv4 checksum mismatch");
}

#[test]
fn one_byte_short_of_header_is_size_error() {
    let mut bytes = sealed(8, 0, b"");
    assert_eq!(bytes.len(), HEADERS);
    bytes.pop();
    let err = Icmpv4Datagram::from_bytes(bytes).unwrap_err();
    assert_eq!(
        details(&err),
        "ICMPv4 datagram isn't large enough to contain a complete header"
    );
}

#[test]
fn exactly_both_headers_parses() {
    let bytes = sealed(8, 0, b"");
    let d = Icmpv4Datagram::from_bytes(bytes).unwrap();
    assert_eq!(d.payload(), b"");
}

#[test]
fn too_short_for_base_header() {
    let err = Icmpv4Datagram::from_bytes(vec![1, 2, 3]).unwrap_err();
    assert_eq!(
        details(&err),
        "ipv4 datagram too small to contain a complete header"
    );
}

#[test]
fn base_checksum_mismatch_detected() {
    let mut bytes = sealed(8, 0, b"ok");
    bytes[1] ^= 0x01; // reserved byte sits in the base layer's checksummed span
    let err = Icmpv4Datagram::from_bytes(bytes).unwrap_err();
    assert_eq!(details(&err), "ipv4 checksum mismatch");
}

#[test]
fn unknown_protocol_number_is_reported() {
    // base header [9, 0, checksum] with a correct base checksum over [9, 0]
    let sum = 0x0900u16;
    let cks = 0xFFFFu16 - sum;
    let bytes = vec![
        9,
        0,
        (cks >> 8) as u8,
        (cks & 0xFF) as u8,
        0,
        0,
        0,
        0,
    ];
    let err = Icmpv4Datagram::from_bytes(bytes).unwrap_err();
    assert_eq!(details(&err), "unsupported protocol number");
}

#[test]
fn protocol_field_parses_known_numbers() {
    assert_eq!(Protocol::from_u8(1).unwrap(), Protocol::Icmpv4);
    assert_eq!(Protocol::from_u8(6).unwrap(), Protocol::Tcp);
    assert!(Protocol::from_u8(17).is_err());
    assert_eq!(Protocol::Icmpv4.to_u8(), 1);
    assert_eq!(Protocol::Tcp.to_u8(), 6);
}

#[test]
fn hasher_pads_odd_span_with_zero_low_byte() {
    let mut h = Hasher::new();
    h.write(&[0xFF]);
    assert_eq!(h.finish(), 0xFFFF - 0xFF00);
}

#[test]
fn hasher_pads_each_span_independently() {
    let mut h = Hasher::new();
    h.write(&[0x01]);
    h.write(&[0x02]);
    assert_eq!(h.finish(), 0xFFFF - 0x0300);
}

#[test]
fn hasher_folds_end_around_carry() {
    let mut h = Hasher::new();
    h.write(&[0xFF, 0xFF, 0x00, 0x02]);
    // 0xFFFF + 0x0002 = 0x10001; folding the carry leaves 0x0002
    assert_eq!(h.finish(), 0xFFFF - 0x0002);
}

#[test]
fn hasher_finish_is_idempotent() {
    let mut h = Hasher::new();
    h.write(&[0x12, 0x34]);
    let a = h.finish();
    let b = h.finish();
    assert_eq!(a, b);
    assert_eq!(a, 0xFFFF - 0x1234);
}

#[test]
fn new_bytes_allocates_zeroed_headers() {
    let b = Icmpv4DatagramMut::new_bytes();
    assert_eq!(b.len(), HEADERS);
    assert!(b.iter().all(|&x| x == 0));
    let b2 = ipv4::DatagramMut::new_bytes(3);
    assert_eq!(b2.len(), 7);
    assert!(b2.iter().all(|&x| x == 0));
}

#[test]
fn mutable_view_too_small_is_rejected() {
    let err = Icmpv4DatagramMut::from_bytes(vec![0; HEADERS - 1]).unwrap_err();
    assert_eq!(
        details(&err),
        "ICMPv4 datagram isn't large enough to contain a complete header"
    );
    let err = Icmpv4DatagramMut::from_bytes(vec![0; 2]).unwrap_err();
    assert_eq!(
        details(&err),
        "ipv4 datagram too small to contain a complete header"
    );
}

#[test]
fn mutable_header_reads_back_writes() {
    let mut m = Icmpv4DatagramMut::from_bytes(vec![0u8; HEADERS + 2]).unwrap();
    m.set_type(3);
    m.set_code(1);
    m.set_checksum(0xBEEF);
    let h = m.header();
    assert_eq!(h.type_byte, 3);
    assert_eq!(h.code, 1);
    assert_eq!(h.checksum, 0xBEEF);
    m.write_payload(&[0xAA, 0xBB]);
    assert_eq!(m.payload(), &[0xAA, 0xBB]);
    assert_eq!(m.ipv4().payload()[0], 3);
}

#[test]
fn unmut_validates_what_seal_produced() {
    let bytes = sealed(8, 0, b"xy");
    let m = Icmpv4DatagramMut::from_bytes(bytes).unwrap();
    let d = m.unmut().unwrap();
    assert_eq!(d.header().type_byte, 8);
    assert_eq!(d.payload(), b"xy");
}

#[test]
fn unmut_rejects_unsealed_bytes() {
    // an all-zero buffer has protocol 0 (unknown) and a zero base checksum,
    // while the correct base checksum over [0, 0] is 0xFFFF
    let m = Icmpv4DatagramMut::from_bytes(vec![0u8; HEADERS]).unwrap();
    let err = m.unmut().unwrap_err();
    assert_eq!(details(&err), "ipv4 checksum mismatch");
}

#[test]
fn seal_overwrites_stale_checksum_fields() {
    // leave garbage in both checksum fields first: seal must derive both
    let mut m = Icmpv4DatagramMut::from_bytes(vec![0u8; HEADERS + 4]).unwrap();
    m.set_type(8);
    m.set_code(0);
    m.set_checksum(0xDEAD);
    m.write_payload(b"ping");
    let d = m.seal().unwrap();
    assert_eq!(d.header().checksum, 0x192F);
    let bytes = d.into_bytes();
    let d2 = Icmpv4Datagram::from_bytes(bytes).unwrap();
    assert_eq!(d2.header().type_byte, 8);
}

#[test]
fn base_layer_round_trip() {
    let buf = ipv4::DatagramMut::new_bytes(5);
    let mut m = ipv4::DatagramMut::from_bytes(buf).unwrap();
    m.set_protocol(Protocol::Tcp);
    let d = m.seal();
    assert_eq!(d.header().protocol().unwrap(), Protocol::Tcp);
    assert_eq!(d.payload().len(), 5);
    let bytes = d.into_bytes();
    let d2 = ipv4::Datagram::from_bytes(bytes).unwrap();
    assert_eq!(d2.header().protocol().unwrap(), Protocol::Tcp);
}
