//! Wire-codec behaviour: round trips, default omission, unknown fields,
//! and agreement with the quick-protobuf reference implementation.

use eload::coms::{QControl, QRequest, QResponse, QState};

fn roundtrip_control(c: &QControl) -> QControl {
    let mut bytes: Vec<u8> = Vec::new();
    c.write_message(&mut bytes);
    QControl::from_reader(&bytes).expect("control body should decode")
}

fn roundtrip_state(s: &QState) -> QState {
    let mut bytes: Vec<u8> = Vec::new();
    s.write_message(&mut bytes);
    QState::from_reader(&bytes).expect("state body should decode")
}

#[test]
fn control_round_trip_plain() {
    let c = QControl { sdn: 1, pwm: 50, dac0: 1000, dac1: 2000, dac2: 3000, dac3: 4000 };
    assert_eq!(roundtrip_control(&c), c);
}

#[test]
fn control_round_trip_negative_and_zero() {
    let c = QControl { sdn: 0, pwm: 100, dac0: -1, dac1: 0, dac2: -32768, dac3: 32767 };
    assert_eq!(roundtrip_control(&c), c);
}

#[test]
fn control_round_trip_extremes() {
    let c = QControl {
        sdn: i32::MIN,
        pwm: i32::MAX,
        dac0: -1000000,
        dac1: 1,
        dac2: 0,
        dac3: -1,
    };
    assert_eq!(roundtrip_control(&c), c);
}

#[test]
fn state_round_trip() {
    let s = QState {
        ch0: 100,
        ch1: 101,
        ch2: 102,
        ch3: 103,
        cal: 1650,
        v: 3300,
        temp: -40,
        sdn: 1,
    };
    assert_eq!(roundtrip_state(&s), s);
}

#[test]
fn default_fields_encode_to_nothing() {
    let c = QControl::default();
    assert_eq!(c.get_size(), 0);
    let mut bytes: Vec<u8> = Vec::new();
    c.write_message(&mut bytes);
    assert!(bytes.is_empty());
    let s = QState::default();
    assert_eq!(s.get_size(), 0);
}

#[test]
fn empty_body_decodes_to_defaults() {
    let empty: Vec<u8> = Vec::new();
    assert_eq!(QControl::from_reader(&empty), Some(QControl::default()));
    assert_eq!(QState::from_reader(&empty), Some(QState::default()));
}

#[test]
fn varint_field_sizes() {
    assert_eq!(QControl { dac0: 127, ..QControl::default() }.get_size(), 2);
    assert_eq!(QControl { dac0: 128, ..QControl::default() }.get_size(), 3);
    // a negative int32 is sign-extended to 64 bits: ten varint bytes
    assert_eq!(QControl { dac0: -1, ..QControl::default() }.get_size(), 11);
    assert_eq!(QState { temp: -40, ..QState::default() }.get_size(), 11);
}

#[test]
fn unknown_varint_field_is_skipped() {
    // field 15, wire type 0, value 7 — then sdn = 3
    let bytes: Vec<u8> = vec![120, 7, 8, 3];
    let c = QControl::from_reader(&bytes).unwrap();
    assert_eq!(c.sdn, 3);
}

#[test]
fn unknown_fixed32_field_is_skipped() {
    // field 5, wire type 5 (four bytes) — then sdn = 9
    let bytes: Vec<u8> = vec![45, 1, 2, 3, 4, 8, 9];
    let c = QControl::from_reader(&bytes).unwrap();
    assert_eq!(c.sdn, 9);
}

#[test]
fn unknown_length_delimited_field_is_skipped() {
    // field 7, wire type 2, two bytes — then pwm = 5
    let bytes: Vec<u8> = vec![58, 2, 0xAA, 0xBB, 16, 5];
    let c = QControl::from_reader(&bytes).unwrap();
    assert_eq!(c.pwm, 5);
}

#[test]
fn last_occurrence_of_a_field_wins() {
    let bytes: Vec<u8> = vec![8, 1, 8, 2];
    let c = QControl::from_reader(&bytes).unwrap();
    assert_eq!(c.sdn, 2);
}

#[test]
fn truncated_field_is_rejected() {
    let bytes: Vec<u8> = vec![8];
    assert_eq!(QControl::from_reader(&bytes), None);
}

#[test]
fn frame_length_overrun_is_rejected() {
    // prefix claims five body bytes, none follow
    let bytes: Vec<u8> = vec![5];
    assert_eq!(eload::coms::deserialize_control(&bytes), None);
}

#[test]
fn framed_control_round_trip() {
    let c = QControl { sdn: 1, pwm: 50, dac0: 1000, dac1: 0, dac2: 0, dac3: 0 };
    let framed = c.to_framed();
    assert_eq!(framed[0] as usize, framed.len() - 1);
    assert_eq!(eload::coms::deserialize_control(&framed), Some(c));
}

#[test]
fn framed_request_round_trip() {
    let c = QControl { sdn: 1, pwm: 25, dac0: -5, dac1: 6, dac2: 7, dac3: 8 };
    let req = QRequest { id: 42, op: 1, data: c.to_framed() };
    let packet = req.to_framed();
    let back = eload::coms::deserialize_request(&packet).expect("request should decode");
    assert_eq!(back.id, 42);
    assert_eq!(back.op, 1);
    assert_eq!(back.data, req.data);
}

#[test]
fn response_envelope_round_trip() {
    let resp = QResponse { id: 9, error: 0, data: vec![1, 2, 3] };
    let mut body: Vec<u8> = Vec::new();
    resp.write_message(&mut body);
    let back = QResponse::from_reader(&body).expect("response should decode");
    assert_eq!(back.id, 9);
    assert_eq!(back.error, 0);
    assert_eq!(back.data, vec![1, 2, 3]);
}

#[test]
fn reference_reader_accepts_our_encoding() {
    let c = QControl { sdn: 1, pwm: 50, dac0: 1000, dac1: -7, dac2: 0, dac3: 123456 };
    let mut bytes: Vec<u8> = Vec::new();
    c.write_message(&mut bytes);
    let mut r = quick_protobuf::BytesReader::from_bytes(&bytes);
    assert_eq!(r.next_tag(&bytes).unwrap(), 8);
    assert_eq!(r.read_int32(&bytes).unwrap(), 1);
    assert_eq!(r.next_tag(&bytes).unwrap(), 16);
    assert_eq!(r.read_int32(&bytes).unwrap(), 50);
    assert_eq!(r.next_tag(&bytes).unwrap(), 24);
    assert_eq!(r.read_int32(&bytes).unwrap(), 1000);
    assert_eq!(r.next_tag(&bytes).unwrap(), 32);
    assert_eq!(r.read_int32(&bytes).unwrap(), -7);
    assert_eq!(r.next_tag(&bytes).unwrap(), 48);
    assert_eq!(r.read_int32(&bytes).unwrap(), 123456);
    assert!(r.is_eof());
}

#[test]
fn our_decoder_accepts_reference_encoding() {
    let mut bytes: Vec<u8> = Vec::new();
    {
        let mut w = quick_protobuf::Writer::new(&mut bytes);
        w.write_with_tag(8, |w| w.write_int32(1)).unwrap();
        w.write_with_tag(16, |w| w.write_int32(75)).unwrap();
        w.write_with_tag(24, |w| w.write_int32(-1000)).unwrap();
        w.write_with_tag(40, |w| w.write_int32(2048)).unwrap();
    }
    let c = QControl::from_reader(&bytes).unwrap();
    assert_eq!(c.sdn, 1);
    assert_eq!(c.pwm, 75);
    assert_eq!(c.dac0, -1000);
    assert_eq!(c.dac1, 0);
    assert_eq!(c.dac2, 2048);
    assert_eq!(c.dac3, 0);
}

#[test]
fn reference_reader_accepts_our_state_encoding() {
    let s = QState {
        ch0: 100,
        ch1: 0,
        ch2: 0,
        ch3: 0,
        cal: 0,
        v: 0,
        temp: -40,
        sdn: 1,
    };
    let mut bytes: Vec<u8> = Vec::new();
    s.write_message(&mut bytes);
    let mut r = quick_protobuf::BytesReader::from_bytes(&bytes);
    assert_eq!(r.next_tag(&bytes).unwrap(), 8);
    assert_eq!(r.read_int32(&bytes).unwrap(), 100);
    assert_eq!(r.next_tag(&bytes).unwrap(), 56);
    assert_eq!(r.read_int32(&bytes).unwrap(), -40);
    assert_eq!(r.next_tag(&bytes).unwrap(), 64);
    assert_eq!(r.read_int32(&bytes).unwrap(), 1);
    assert!(r.is_eof());
}

#[test]
fn our_envelope_decoder_accepts_reference_encoding() {
    let mut bytes: Vec<u8> = Vec::new();
    {
        let mut w = quick_protobuf::Writer::new(&mut bytes);
        w.write_with_tag(8, |w| w.write_int32(17)).unwrap();
        w.write_with_tag(16, |w| w.write_int32(2)).unwrap();
        w.write_with_tag(26, |w| w.write_bytes(&[0xDE, 0xAD])).unwrap();
    }
    let q = QRequest::from_reader(&bytes).unwrap();
    assert_eq!(q.id, 17);
    assert_eq!(q.op, 2);
    assert_eq!(q.data, vec![0xDE, 0xAD]);
}

#[test]
fn get_size_matches_reference_sizeof() {
    let values: Vec<i32> = vec![0, 1, 127, 128, 16383, 16384, -1, -40, i32::MAX, i32::MIN];
    for v in values {
        let ours = QControl { dac0: v, ..QControl::default() }.get_size();
        let reference = if v == 0 {
            0
        } else {
            1 + quick_protobuf::sizeofs::sizeof_varint(v as u64)
        };
        assert_eq!(ours, reference, "size disagrees for {}", v);
    }
}
