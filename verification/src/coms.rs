//! The RPC message schemas and their tag-length-value codec.
//!
//! Four messages travel over the wire: the request and response envelopes,
//! the control payload and the status payload. Every field is a varint
//! `int32` except the envelopes' opaque payload, which is length-delimited
//! bytes. A field equal to its zero default is omitted from the encoding;
//! a decoder starts from the defaults, takes the last occurrence of a
//! repeated field, and skips unknown tags by their wire type.

use vstd::prelude::*;

use crate::wire::{
    as_u64, i32_from_raw, int32_of_raw, read_varint, sizeof_varint, take_varint, u64_from_i32,
    varint, write_varint,
};

verus! {

/// One encoded `int32` field: tag byte then sign-extended varint, or
/// nothing when the value is the zero default.
pub open spec fn int_field(tag: u8, v: i32) -> Seq<u8> {
    if v == 0 {
        Seq::empty()
    } else {
        seq![tag] + varint(as_u64(v))
    }
}

/// One encoded bytes field: tag byte, varint length, then the bytes, or
/// nothing when the payload is empty.
pub open spec fn bytes_field(tag: u8, data: Seq<u8>) -> Seq<u8> {
    if data.len() == 0 {
        Seq::empty()
    } else {
        seq![tag] + varint(data.len() as u64) + data
    }
}

/// Bytes an unknown field occupies after its tag, by wire type: a varint,
/// a fixed eight or four bytes, or a length-delimited chunk. `None` when
/// the field is malformed or the wire type is not one this codec carries.
pub open spec fn skip_unknown(bytes: Seq<u8>, wire: int) -> Option<int> {
    if wire == 0 {
        match take_varint(bytes) {
            None => None,
            Some((v, n)) => Some(n),
        }
    } else if wire == 1 {
        if bytes.len() >= 8 {
            Some(8)
        } else {
            None
        }
    } else if wire == 5 {
        if bytes.len() >= 4 {
            Some(4)
        } else {
            None
        }
    } else if wire == 2 {
        match take_varint(bytes) {
            None => None,
            Some((l, n)) => {
                let len = l % 0x1_0000_0000_0000_0000;
                if bytes.len() - n < len {
                    None
                } else {
                    Some(n + len)
                }
            },
        }
    } else {
        None
    }
}

pub proof fn lemma_skip_unknown_bounds(bytes: Seq<u8>, wire: int)
    ensures
        match skip_unknown(bytes, wire) {
            None => true,
            Some(k) => 0 <= k <= bytes.len(),
        },
{
    crate::wire::lemma_take_varint_bounds(bytes);
}

/// Skip one unknown field starting at `pos`, returning how many bytes it
/// occupied.
fn skip_unknown_field(bytes: &[u8], pos: usize, wire: u32) -> (r: Option<usize>)
    requires
        pos <= bytes.len(),
    ensures
        (match r {
            Some(k) => skip_unknown(bytes@.skip(pos as int), wire as int) == Some(k as int) && pos
                + k <= bytes.len(),
            None => skip_unknown(bytes@.skip(pos as int), wire as int) is None,
        }),
{
    if wire == 0 {
        match read_varint(bytes, pos) {
            None => None,
            Some((_, n)) => Some(n),
        }
    } else if wire == 1 {
        if bytes.len() - pos >= 8 {
            Some(8)
        } else {
            None
        }
    } else if wire == 5 {
        if bytes.len() - pos >= 4 {
            Some(4)
        } else {
            None
        }
    } else if wire == 2 {
        match read_varint(bytes, pos) {
            None => None,
            Some((l, n)) => {
                let len: u128 = l % 0x1_0000_0000_0000_0000;
                let remaining: usize = bytes.len() - pos - n;
                if (remaining as u128) < len {
                    None
                } else {
                    Some(n + (len as usize))
                }
            },
        }
    } else {
        None
    }
}

/// The control payload: shutdown flag, PWM duty percentage, and the four
/// DAC set-points, in field-number order.
#[derive(Clone, Copy, PartialEq, Eq, Structural, Debug)]
pub struct QControl {
    pub sdn: i32,
    pub pwm: i32,
    pub dac0: i32,
    pub dac1: i32,
    pub dac2: i32,
    pub dac3: i32,
}

/// The status payload: the four load-channel samples, the calibration
/// reference, the bus voltage, the temperature, and the shutdown mirror.
#[derive(Clone, Copy, PartialEq, Eq, Structural, Debug)]
pub struct QState {
    pub ch0: i32,
    pub ch1: i32,
    pub ch2: i32,
    pub ch3: i32,
    pub cal: i32,
    pub v: i32,
    pub temp: i32,
    pub sdn: i32,
}

/// The request envelope: an identifier echoed back, an operation code,
/// and the operation's opaque payload bytes.
#[derive(Clone, PartialEq, Eq, Debug)]
pub struct QRequest {
    pub id: i32,
    pub op: i32,
    pub data: Vec<u8>,
}

/// The response envelope: the request's identifier, an error code, and
/// the opaque payload bytes, empty on error or when the operation has no
/// payload.
#[derive(Clone, PartialEq, Eq, Debug)]
pub struct QResponse {
    pub id: i32,
    pub error: i32,
    pub data: Vec<u8>,
}

impl QControl {
    pub open spec fn spec_default() -> QControl {
        QControl { sdn: 0, pwm: 0, dac0: 0, dac1: 0, dac2: 0, dac3: 0 }
    }

    pub fn default() -> (r: QControl)
        ensures
            r == QControl::spec_default(),
    {
        QControl { sdn: 0, pwm: 0, dac0: 0, dac1: 0, dac2: 0, dac3: 0 }
    }
}

impl QState {
    pub open spec fn spec_default() -> QState {
        QState { ch0: 0, ch1: 0, ch2: 0, ch3: 0, cal: 0, v: 0, temp: 0, sdn: 0 }
    }

    pub fn default() -> (r: QState)
        ensures
            r == QState::spec_default(),
    {
        QState { ch0: 0, ch1: 0, ch2: 0, ch3: 0, cal: 0, v: 0, temp: 0, sdn: 0 }
    }
}

/// Encoding of a control payload: each non-zero field in field-number
/// order.
pub open spec fn encode_control(c: QControl) -> Seq<u8> {
    int_field(8, c.sdn) + (int_field(16, c.pwm) + (int_field(24, c.dac0) + (int_field(32, c.dac1)
        + (int_field(40, c.dac2) + int_field(48, c.dac3)))))
}

/// Encoding of a status payload: each non-zero field in field-number
/// order.
pub open spec fn encode_state(s: QState) -> Seq<u8> {
    int_field(8, s.ch0) + (int_field(16, s.ch1) + (int_field(24, s.ch2) + (int_field(32, s.ch3)
        + (int_field(40, s.cal) + (int_field(48, s.v) + (int_field(56, s.temp) + int_field(
        64,
        s.sdn,
    )))))))
}

/// What decoding `bytes` does to an accumulated control payload: fields
/// overwrite in input order, unknown tags are skipped.
pub open spec fn parse_control_at(bytes: Seq<u8>, msg: QControl) -> Option<QControl>
    decreases bytes.len(),
    via parse_control_at_dec
{
    if bytes.len() == 0 {
        Some(msg)
    } else {
        match take_varint(bytes) {
            None => None,
            Some((traw, tn)) => {
                let tag = traw % 0x1_0000_0000;
                let rest = bytes.skip(tn);
                if tag == 8 || tag == 16 || tag == 24 || tag == 32 || tag == 40 || tag == 48 {
                    match take_varint(rest) {
                        None => None,
                        Some((v, n)) => {
                            let x = int32_of_raw(v);
                            let updated = if tag == 8 {
                                QControl { sdn: x, ..msg }
                            } else if tag == 16 {
                                QControl { pwm: x, ..msg }
                            } else if tag == 24 {
                                QControl { dac0: x, ..msg }
                            } else if tag == 32 {
                                QControl { dac1: x, ..msg }
                            } else if tag == 40 {
                                QControl { dac2: x, ..msg }
                            } else {
                                QControl { dac3: x, ..msg }
                            };
                            parse_control_at(rest.skip(n), updated)
                        },
                    }
                } else {
                    match skip_unknown(rest, tag % 8) {
                        None => None,
                        Some(k) => parse_control_at(rest.skip(k), msg),
                    }
                }
            },
        }
    }
}

#[via_fn]
proof fn parse_control_at_dec(bytes: Seq<u8>, msg: QControl) {
    lemma_parse_step_bounds(bytes);
}

/// What decoding `bytes` does to an accumulated status payload.
pub open spec fn parse_state_at(bytes: Seq<u8>, msg: QState) -> Option<QState>
    decreases bytes.len(),
    via parse_state_at_dec
{
    if bytes.len() == 0 {
        Some(msg)
    } else {
        match take_varint(bytes) {
            None => None,
            Some((traw, tn)) => {
                let tag = traw % 0x1_0000_0000;
                let rest = bytes.skip(tn);
                if tag == 8 || tag == 16 || tag == 24 || tag == 32 || tag == 40 || tag == 48 || tag
                    == 56 || tag == 64 {
                    match take_varint(rest) {
                        None => None,
                        Some((v, n)) => {
                            let x = int32_of_raw(v);
                            let updated = if tag == 8 {
                                QState { ch0: x, ..msg }
                            } else if tag == 16 {
                                QState { ch1: x, ..msg }
                            } else if tag == 24 {
                                QState { ch2: x, ..msg }
                            } else if tag == 32 {
                                QState { ch3: x, ..msg }
                            } else if tag == 40 {
                                QState { cal: x, ..msg }
                            } else if tag == 48 {
                                QState { v: x, ..msg }
                            } else if tag == 56 {
                                QState { temp: x, ..msg }
                            } else {
                                QState { sdn: x, ..msg }
                            };
                            parse_state_at(rest.skip(n), updated)
                        },
                    }
                } else {
                    match skip_unknown(rest, tag % 8) {
                        None => None,
                        Some(k) => parse_state_at(rest.skip(k), msg),
                    }
                }
            },
        }
    }
}

#[via_fn]
proof fn parse_state_at_dec(bytes: Seq<u8>, msg: QState) {
    lemma_parse_step_bounds(bytes);
}

/// A decoding step always consumes at least the tag byte and stays inside
/// the input, whatever the tag dispatches to.
proof fn lemma_parse_step_bounds(bytes: Seq<u8>)
    ensures
        match take_varint(bytes) {
            None => true,
            Some((traw, tn)) => {
                let rest = bytes.skip(tn);
                1 <= tn <= bytes.len() && (match take_varint(rest) {
                    None => true,
                    Some((v, n)) => 1 <= n <= rest.len(),
                }) && (forall|w: int|
                    match #[trigger] skip_unknown(rest, w) {
                        None => true,
                        Some(k) => 0 <= k <= rest.len(),
                    })
            },
        },
{
    crate::wire::lemma_take_varint_bounds(bytes);
    if let Some((traw, tn)) = take_varint(bytes) {
        let rest = bytes.skip(tn);
        crate::wire::lemma_take_varint_bounds(rest);
        assert forall|w: int|
            match #[trigger] skip_unknown(rest, w) {
                None => true,
                Some(k) => 0 <= k <= rest.len(),
            } by {
            lemma_skip_unknown_bounds(rest, w);
        }
    }
}

/// Decoding of a full control payload, from the defaults.
pub open spec fn parse_control(bytes: Seq<u8>) -> Option<QControl> {
    parse_control_at(bytes, QControl::spec_default())
}

/// Decoding of a full status payload, from the defaults.
pub open spec fn parse_state(bytes: Seq<u8>) -> Option<QState> {
    parse_state_at(bytes, QState::spec_default())
}

fn parse_control_rec(bytes: &[u8], pos: usize, msg: QControl) -> (r: Option<QControl>)
    requires
        pos <= bytes.len(),
    ensures
        r == parse_control_at(bytes@.skip(pos as int), msg),
    decreases bytes.len() - pos,
{
    if pos == bytes.len() {
        Some(msg)
    } else {
        match read_varint(bytes, pos) {
            None => None,
            Some((traw, tn)) => {
                let tag: u32 = (traw % 0x1_0000_0000) as u32;
                let p2: usize = pos + tn;
                proof {
                    assert(bytes@.skip(pos as int).skip(tn as int) =~= bytes@.skip(p2 as int));
                }
                if tag == 8 || tag == 16 || tag == 24 || tag == 32 || tag == 40 || tag == 48 {
                    match read_varint(bytes, p2) {
                        None => None,
                        Some((v, n)) => {
                            let x = i32_from_raw(v);
                            let updated = if tag == 8 {
                                QControl { sdn: x, ..msg }
                            } else if tag == 16 {
                                QControl { pwm: x, ..msg }
                            } else if tag == 24 {
                                QControl { dac0: x, ..msg }
                            } else if tag == 32 {
                                QControl { dac1: x, ..msg }
                            } else if tag == 40 {
                                QControl { dac2: x, ..msg }
                            } else {
                                QControl { dac3: x, ..msg }
                            };
                            proof {
                                assert(bytes@.skip(p2 as int).skip(n as int) =~= bytes@.skip(
                                    p2 as int + n as int,
                                ));
                            }
                            parse_control_rec(bytes, p2 + n, updated)
                        },
                    }
                } else {
                    match skip_unknown_field(bytes, p2, tag % 8) {
                        None => None,
                        Some(k) => {
                            proof {
                                assert(bytes@.skip(p2 as int).skip(k as int) =~= bytes@.skip(
                                    p2 as int + k as int,
                                ));
                            }
                            parse_control_rec(bytes, p2 + k, msg)
                        },
                    }
                }
            },
        }
    }
}

fn parse_state_rec(bytes: &[u8], pos: usize, msg: QState) -> (r: Option<QState>)
    requires
        pos <= bytes.len(),
    ensures
        r == parse_state_at(bytes@.skip(pos as int), msg),
    decreases bytes.len() - pos,
{
    if pos == bytes.len() {
        Some(msg)
    } else {
        match read_varint(bytes, pos) {
            None => None,
            Some((traw, tn)) => {
                let tag: u32 = (traw % 0x1_0000_0000) as u32;
                let p2: usize = pos + tn;
                proof {
                    assert(bytes@.skip(pos as int).skip(tn as int) =~= bytes@.skip(p2 as int));
                }
                if tag == 8 || tag == 16 || tag == 24 || tag == 32 || tag == 40 || tag == 48 || tag
                    == 56 || tag == 64 {
                    match read_varint(bytes, p2) {
                        None => None,
                        Some((v, n)) => {
                            let x = i32_from_raw(v);
                            let updated = if tag == 8 {
                                QState { ch0: x, ..msg }
                            } else if tag == 16 {
                                QState { ch1: x, ..msg }
                            } else if tag == 24 {
                                QState { ch2: x, ..msg }
                            } else if tag == 32 {
                                QState { ch3: x, ..msg }
                            } else if tag == 40 {
                                QState { cal: x, ..msg }
                            } else if tag == 48 {
                                QState { v: x, ..msg }
                            } else if tag == 56 {
                                QState { temp: x, ..msg }
                            } else {
                                QState { sdn: x, ..msg }
                            };
                            proof {
                                assert(bytes@.skip(p2 as int).skip(n as int) =~= bytes@.skip(
                                    p2 as int + n as int,
                                ));
                            }
                            parse_state_rec(bytes, p2 + n, updated)
                        },
                    }
                } else {
                    match skip_unknown_field(bytes, p2, tag % 8) {
                        None => None,
                        Some(k) => {
                            proof {
                                assert(bytes@.skip(p2 as int).skip(k as int) =~= bytes@.skip(
                                    p2 as int + k as int,
                                ));
                            }
                            parse_state_rec(bytes, p2 + k, msg)
                        },
                    }
                }
            },
        }
    }
}

/// Append one `int32` field, omitting the zero default.
fn write_int_field(out: &mut Vec<u8>, tag: u8, v: i32)
    ensures
        final(out)@ == old(out)@ + int_field(tag, v),
{
    if v != 0 {
        out.push(tag);
        write_varint(out, u64_from_i32(v));
        assert(out@ =~= old(out)@ + int_field(tag, v));
    } else {
        assert(out@ =~= old(out)@ + int_field(tag, v));
    }
}

impl QControl {
    /// Decode a control payload from a message body.
    pub fn from_reader(bytes: &[u8]) -> (r: Option<QControl>)
        ensures
            r == parse_control(bytes@),
    {
        proof {
            assert(bytes@.skip(0) =~= bytes@);
        }
        parse_control_rec(bytes, 0, QControl::default())
    }

    /// Append the encoding of this payload.
    pub fn write_message(&self, out: &mut Vec<u8>)
        ensures
            final(out)@ == old(out)@ + encode_control(*self),
    {
        write_int_field(out, 8, self.sdn);
        write_int_field(out, 16, self.pwm);
        write_int_field(out, 24, self.dac0);
        write_int_field(out, 32, self.dac1);
        write_int_field(out, 40, self.dac2);
        write_int_field(out, 48, self.dac3);
        proof {
            let g = old(out)@;
            let f1 = int_field(8, self.sdn);
            let f2 = int_field(16, self.pwm);
            let f3 = int_field(24, self.dac0);
            let f4 = int_field(32, self.dac1);
            let f5 = int_field(40, self.dac2);
            let f6 = int_field(48, self.dac3);
            let s5 = f5 + f6;
            let s4 = f4 + s5;
            let s3 = f3 + s4;
            let s2 = f2 + s3;
            let s1 = f1 + s2;
            vstd::seq_lib::lemma_concat_associative(g, f1, s2);
            vstd::seq_lib::lemma_concat_associative(g + f1, f2, s3);
            vstd::seq_lib::lemma_concat_associative(g + f1 + f2, f3, s4);
            vstd::seq_lib::lemma_concat_associative(g + f1 + f2 + f3, f4, s5);
            vstd::seq_lib::lemma_concat_associative(g + f1 + f2 + f3 + f4, f5, f6);
            assert(out@ == g + s1);
        }
    }

    /// Exact length of the encoding of this payload.
    pub fn get_size(&self) -> (r: usize)
        ensures
            r as int == encode_control(*self).len(),
    {
        let mut size: usize = 0;
        size += int_field_size(8, self.sdn);
        size += int_field_size(16, self.pwm);
        size += int_field_size(24, self.dac0);
        size += int_field_size(32, self.dac1);
        size += int_field_size(40, self.dac2);
        size += int_field_size(48, self.dac3);
        size
    }

    /// The length-prefixed encoding of this payload.
    pub fn to_framed(&self) -> (out: Vec<u8>)
        ensures
            out@ == framed(encode_control(*self)),
    {
        let mut out: Vec<u8> = Vec::new();
        let size = self.get_size();
        write_varint(&mut out, size as u64);
        self.write_message(&mut out);
        assert(out@ =~= framed(encode_control(*self)));
        out
    }
}

impl QState {
    /// Decode a status payload from a message body.
    pub fn from_reader(bytes: &[u8]) -> (r: Option<QState>)
        ensures
            r == parse_state(bytes@),
    {
        proof {
            assert(bytes@.skip(0) =~= bytes@);
        }
        parse_state_rec(bytes, 0, QState::default())
    }

    /// Append the encoding of this payload.
    pub fn write_message(&self, out: &mut Vec<u8>)
        ensures
            final(out)@ == old(out)@ + encode_state(*self),
    {
        write_int_field(out, 8, self.ch0);
        write_int_field(out, 16, self.ch1);
        write_int_field(out, 24, self.ch2);
        write_int_field(out, 32, self.ch3);
        write_int_field(out, 40, self.cal);
        write_int_field(out, 48, self.v);
        write_int_field(out, 56, self.temp);
        write_int_field(out, 64, self.sdn);
        proof {
            let g = old(out)@;
            let f1 = int_field(8, self.ch0);
            let f2 = int_field(16, self.ch1);
            let f3 = int_field(24, self.ch2);
            let f4 = int_field(32, self.ch3);
            let f5 = int_field(40, self.cal);
            let f6 = int_field(48, self.v);
            let f7 = int_field(56, self.temp);
            let f8 = int_field(64, self.sdn);
            let s7 = f7 + f8;
            let s6 = f6 + s7;
            let s5 = f5 + s6;
            let s4 = f4 + s5;
            let s3 = f3 + s4;
            let s2 = f2 + s3;
            let s1 = f1 + s2;
            vstd::seq_lib::lemma_concat_associative(g, f1, s2);
            vstd::seq_lib::lemma_concat_associative(g + f1, f2, s3);
            vstd::seq_lib::lemma_concat_associative(g + f1 + f2, f3, s4);
            vstd::seq_lib::lemma_concat_associative(g + f1 + f2 + f3, f4, s5);
            vstd::seq_lib::lemma_concat_associative(g + f1 + f2 + f3 + f4, f5, s6);
            vstd::seq_lib::lemma_concat_associative(g + f1 + f2 + f3 + f4 + f5, f6, s7);
            vstd::seq_lib::lemma_concat_associative(g + f1 + f2 + f3 + f4 + f5 + f6, f7, f8);
            assert(out@ == g + s1);
        }
    }

    /// Exact length of the encoding of this payload.
    pub fn get_size(&self) -> (r: usize)
        ensures
            r as int == encode_state(*self).len(),
    {
        let mut size: usize = 0;
        size += int_field_size(8, self.ch0);
        size += int_field_size(16, self.ch1);
        size += int_field_size(24, self.ch2);
        size += int_field_size(32, self.ch3);
        size += int_field_size(40, self.cal);
        size += int_field_size(48, self.v);
        size += int_field_size(56, self.temp);
        size += int_field_size(64, self.sdn);
        size
    }

    /// The length-prefixed encoding of this payload.
    pub fn to_framed(&self) -> (out: Vec<u8>)
        ensures
            out@ == framed(encode_state(*self)),
    {
        let mut out: Vec<u8> = Vec::new();
        let size = self.get_size();
        write_varint(&mut out, size as u64);
        self.write_message(&mut out);
        assert(out@ =~= framed(encode_state(*self)));
        out
    }
}

/// Exact length of one encoded `int32` field.
fn int_field_size(tag: u8, v: i32) -> (r: usize)
    ensures
        r as int == int_field(tag, v).len(),
        r <= 11,
{
    if v != 0 {
        1 + sizeof_varint(u64_from_i32(v))
    } else {
        0
    }
}

/// Encoding of a request envelope with the given field values.
pub open spec fn encode_request(id: i32, op: i32, data: Seq<u8>) -> Seq<u8> {
    int_field(8, id) + (int_field(16, op) + bytes_field(26, data))
}

/// Encoding of a response envelope with the given field values.
pub open spec fn encode_response(id: i32, error: i32, data: Seq<u8>) -> Seq<u8> {
    int_field(8, id) + (int_field(16, error) + bytes_field(26, data))
}

/// What decoding `bytes` does to accumulated envelope fields. Both
/// envelopes share this shape: two `int32` fields then a bytes field.
pub open spec fn parse_envelope_at(bytes: Seq<u8>, a: i32, b: i32, data: Seq<u8>) -> Option<
    (i32, i32, Seq<u8>),
>
    decreases bytes.len(),
    via parse_envelope_at_dec
{
    if bytes.len() == 0 {
        Some((a, b, data))
    } else {
        match take_varint(bytes) {
            None => None,
            Some((traw, tn)) => {
                let tag = traw % 0x1_0000_0000;
                let rest = bytes.skip(tn);
                if tag == 8 || tag == 16 {
                    match take_varint(rest) {
                        None => None,
                        Some((v, n)) => {
                            let x = int32_of_raw(v);
                            if tag == 8 {
                                parse_envelope_at(rest.skip(n), x, b, data)
                            } else {
                                parse_envelope_at(rest.skip(n), a, x, data)
                            }
                        },
                    }
                } else if tag == 26 {
                    match take_varint(rest) {
                        None => None,
                        Some((l, n)) => {
                            let len = l % 0x1_0000_0000;
                            if rest.len() - n < len {
                                None
                            } else {
                                parse_envelope_at(
                                    rest.skip(n + len),
                                    a,
                                    b,
                                    rest.subrange(n, n + len),
                                )
                            }
                        },
                    }
                } else {
                    match skip_unknown(rest, tag % 8) {
                        None => None,
                        Some(k) => parse_envelope_at(rest.skip(k), a, b, data),
                    }
                }
            },
        }
    }
}

#[via_fn]
proof fn parse_envelope_at_dec(bytes: Seq<u8>, a: i32, b: i32, data: Seq<u8>) {
    lemma_parse_step_bounds(bytes);
}

/// Decoding of a full envelope, from the defaults.
pub open spec fn parse_envelope(bytes: Seq<u8>) -> Option<(i32, i32, Seq<u8>)> {
    parse_envelope_at(bytes, 0, 0, Seq::empty())
}

fn parse_envelope_rec(bytes: &[u8], pos: usize, a: i32, b: i32, data: Vec<u8>) -> (r: Option<
    (i32, i32, Vec<u8>),
>)
    requires
        pos <= bytes.len(),
    ensures
        (match parse_envelope_at(bytes@.skip(pos as int), a, b, data@) {
            None => r is None,
            Some((ra, rb, rd)) => match r {
                None => false,
                Some((xa, xb, xd)) => xa == ra && xb == rb && xd@ == rd,
            },
        }),
    decreases bytes.len() - pos,
{
    if pos == bytes.len() {
        Some((a, b, data))
    } else {
        match read_varint(bytes, pos) {
            None => None,
            Some((traw, tn)) => {
                let tag: u32 = (traw % 0x1_0000_0000) as u32;
                let p2: usize = pos + tn;
                proof {
                    assert(bytes@.skip(pos as int).skip(tn as int) =~= bytes@.skip(p2 as int));
                }
                if tag == 8 || tag == 16 {
                    match read_varint(bytes, p2) {
                        None => None,
                        Some((v, n)) => {
                            let x = i32_from_raw(v);
                            proof {
                                assert(bytes@.skip(p2 as int).skip(n as int) =~= bytes@.skip(
                                    p2 as int + n as int,
                                ));
                            }
                            if tag == 8 {
                                parse_envelope_rec(bytes, p2 + n, x, b, data)
                            } else {
                                parse_envelope_rec(bytes, p2 + n, a, x, data)
                            }
                        },
                    }
                } else if tag == 26 {
                    match read_varint(bytes, p2) {
                        None => None,
                        Some((l, n)) => {
                            let len128: u128 = l % 0x1_0000_0000;
                            let remaining: usize = bytes.len() - p2 - n;
                            if (remaining as u128) < len128 {
                                None
                            } else {
                                let len: usize = len128 as usize;
                                let field = vstd::slice::slice_subrange(
                                    bytes,
                                    p2 + n,
                                    p2 + n + len,
                                );
                                let d = vstd::slice::slice_to_vec(field);
                                proof {
                                    assert(bytes@.skip(p2 as int).skip(n as int + len as int)
                                        =~= bytes@.skip(p2 as int + n as int + len as int));
                                    assert(bytes@.skip(p2 as int).subrange(
                                        n as int,
                                        n as int + len as int,
                                    ) =~= bytes@.subrange(
                                        p2 as int + n as int,
                                        p2 as int + n as int + len as int,
                                    ));
                                }
                                parse_envelope_rec(bytes, p2 + n + len, a, b, d)
                            }
                        },
                    }
                } else {
                    match skip_unknown_field(bytes, p2, tag % 8) {
                        None => None,
                        Some(k) => {
                            proof {
                                assert(bytes@.skip(p2 as int).skip(k as int) =~= bytes@.skip(
                                    p2 as int + k as int,
                                ));
                            }
                            parse_envelope_rec(bytes, p2 + k, a, b, data)
                        },
                    }
                }
            },
        }
    }
}

/// Append one bytes field, omitting the empty default.
fn write_bytes_field(out: &mut Vec<u8>, tag: u8, data: &Vec<u8>)
    ensures
        final(out)@ == old(out)@ + bytes_field(tag, data@),
{
    if data.len() > 0 {
        out.push(tag);
        write_varint(out, data.len() as u64);
        let ghost mid = out@;
        let mut i: usize = 0;
        while i < data.len()
            invariant
                i <= data@.len(),
                out@ == mid + data@.subrange(0, i as int),
            decreases data@.len() - i,
        {
            out.push(data[i]);
            assert(out@ =~= mid + data@.subrange(0, i as int + 1));
            i += 1;
        }
        assert(data@.subrange(0, data@.len() as int) =~= data@);
        assert(out@ =~= old(out)@ + bytes_field(tag, data@));
    } else {
        assert(out@ =~= old(out)@ + bytes_field(tag, data@));
    }
}

/// Exact length of one encoded bytes field.
fn bytes_field_size(tag: u8, data: &Vec<u8>) -> (r: usize)
    requires
        data@.len() <= usize::MAX - 11,
    ensures
        r as int == bytes_field(tag, data@).len(),
        r as int <= data@.len() + 11,
{
    if data.len() > 0 {
        1 + sizeof_varint(data.len() as u64) + data.len()
    } else {
        0
    }
}

impl QRequest {
    /// Decode a request envelope from a message body.
    pub fn from_reader(bytes: &[u8]) -> (r: Option<QRequest>)
        ensures
            (match parse_envelope(bytes@) {
                None => r is None,
                Some((id, op, data)) => match r {
                    None => false,
                    Some(q) => q.id == id && q.op == op && q.data@ == data,
                },
            }),
    {
        proof {
            assert(bytes@.skip(0) =~= bytes@);
        }
        match parse_envelope_rec(bytes, 0, 0, 0, Vec::new()) {
            None => None,
            Some((id, op, data)) => Some(QRequest { id, op, data }),
        }
    }

    /// Append the encoding of this envelope.
    pub fn write_message(&self, out: &mut Vec<u8>)
        ensures
            final(out)@ == old(out)@ + encode_request(self.id, self.op, self.data@),
    {
        write_int_field(out, 8, self.id);
        write_int_field(out, 16, self.op);
        write_bytes_field(out, 26, &self.data);
        assert(out@ =~= old(out)@ + encode_request(self.id, self.op, self.data@));
    }

    /// Exact length of the encoding of this envelope.
    pub fn get_size(&self) -> (r: usize)
        requires
            self.data@.len() <= usize::MAX - 33,
        ensures
            r as int == encode_request(self.id, self.op, self.data@).len(),
    {
        let mut size: usize = 0;
        size += int_field_size(8, self.id);
        size += int_field_size(16, self.op);
        size += bytes_field_size(26, &self.data);
        size
    }

    /// The length-prefixed encoding of this envelope.
    pub fn to_framed(&self) -> (out: Vec<u8>)
        requires
            self.data@.len() <= usize::MAX - 33,
        ensures
            out@ == framed(encode_request(self.id, self.op, self.data@)),
    {
        let mut out: Vec<u8> = Vec::new();
        let size = self.get_size();
        write_varint(&mut out, size as u64);
        self.write_message(&mut out);
        assert(out@ =~= framed(encode_request(self.id, self.op, self.data@)));
        out
    }
}

impl QResponse {
    /// A response with all fields at their defaults: identifier zero,
    /// no error, empty payload.
    pub fn default() -> (r: QResponse)
        ensures
            r.id == 0 && r.error == 0 && r.data@ == Seq::<u8>::empty(),
    {
        QResponse { id: 0, error: 0, data: Vec::new() }
    }

    /// Decode a response envelope from a message body.
    pub fn from_reader(bytes: &[u8]) -> (r: Option<QResponse>)
        ensures
            (match parse_envelope(bytes@) {
                None => r is None,
                Some((id, error, data)) => match r {
                    None => false,
                    Some(q) => q.id == id && q.error == error && q.data@ == data,
                },
            }),
    {
        proof {
            assert(bytes@.skip(0) =~= bytes@);
        }
        match parse_envelope_rec(bytes, 0, 0, 0, Vec::new()) {
            None => None,
            Some((id, error, data)) => Some(QResponse { id, error, data }),
        }
    }

    /// Append the encoding of this envelope.
    pub fn write_message(&self, out: &mut Vec<u8>)
        ensures
            final(out)@ == old(out)@ + encode_response(self.id, self.error, self.data@),
    {
        write_int_field(out, 8, self.id);
        write_int_field(out, 16, self.error);
        write_bytes_field(out, 26, &self.data);
        assert(out@ =~= old(out)@ + encode_response(self.id, self.error, self.data@));
    }

    /// Exact length of the encoding of this envelope.
    pub fn get_size(&self) -> (r: usize)
        requires
            self.data@.len() <= usize::MAX - 33,
        ensures
            r as int == encode_response(self.id, self.error, self.data@).len(),
    {
        let mut size: usize = 0;
        size += int_field_size(8, self.id);
        size += int_field_size(16, self.error);
        size += bytes_field_size(26, &self.data);
        size
    }

    /// The length-prefixed encoding of this envelope.
    pub fn to_framed(&self) -> (out: Vec<u8>)
        requires
            self.data@.len() <= usize::MAX - 33,
        ensures
            out@ == framed(encode_response(self.id, self.error, self.data@)),
    {
        let mut out: Vec<u8> = Vec::new();
        let size = self.get_size();
        write_varint(&mut out, size as u64);
        self.write_message(&mut out);
        assert(out@ =~= framed(encode_response(self.id, self.error, self.data@)));
        out
    }
}

/// A message body behind its varint length prefix.
pub open spec fn framed(body: Seq<u8>) -> Seq<u8> {
    varint(body.len() as u64) + body
}

/// The message body a length-prefixed input carries: the prefix names the
/// body's length; input past the body is ignored. `None` when the prefix
/// is malformed or names more bytes than follow.
pub open spec fn take_frame(bytes: Seq<u8>) -> Option<Seq<u8>> {
    match take_varint(bytes) {
        None => None,
        Some((l, n)) => {
            let len = l % 0x1_0000_0000;
            if bytes.len() - n < len {
                None
            } else {
                Some(bytes.subrange(n, n + len))
            }
        },
    }
}

/// Locate the length-prefixed message body: its start and length.
fn read_frame(bytes: &[u8]) -> (r: Option<(usize, usize)>)
    ensures
        (match r {
            Some((s, l)) => {
                &&& take_frame(bytes@) == Some(bytes@.subrange(s as int, s as int + l as int))
                &&& s + l <= bytes.len()
            },
            None => take_frame(bytes@) is None,
        }),
{
    proof {
        assert(bytes@.skip(0) =~= bytes@);
    }
    match read_varint(bytes, 0) {
        None => None,
        Some((lraw, n)) => {
            let len128: u128 = lraw % 0x1_0000_0000;
            let remaining: usize = bytes.len() - n;
            if (remaining as u128) < len128 {
                None
            } else {
                Some((n, len128 as usize))
            }
        },
    }
}

/// Decoding of a length-prefixed control payload.
pub open spec fn parse_framed_control(bytes: Seq<u8>) -> Option<QControl> {
    match take_frame(bytes) {
        None => None,
        Some(body) => parse_control(body),
    }
}

/// Decoding of a length-prefixed envelope.
pub open spec fn parse_framed_envelope(bytes: Seq<u8>) -> Option<(i32, i32, Seq<u8>)> {
    match take_frame(bytes) {
        None => None,
        Some(body) => parse_envelope(body),
    }
}

/// Decode a control payload from its length-prefixed form.
pub fn deserialize_control(bytes: &[u8]) -> (r: Option<QControl>)
    ensures
        r == parse_framed_control(bytes@),
{
    match read_frame(bytes) {
        None => None,
        Some((s, l)) => QControl::from_reader(vstd::slice::slice_subrange(bytes, s, s + l)),
    }
}

/// Decoding one encoded `int32` field updates exactly the field the tag
/// names and goes on with the rest of the input.
proof fn lemma_control_field_step(tag: u8, v: i32, rest: Seq<u8>, msg: QControl)
    requires
        tag == 8 || tag == 16 || tag == 24 || tag == 32 || tag == 40 || tag == 48,
        v != 0,
    ensures
        parse_control_at(int_field(tag, v) + rest, msg) == parse_control_at(
            rest,
            if tag == 8 {
                QControl { sdn: v, ..msg }
            } else if tag == 16 {
                QControl { pwm: v, ..msg }
            } else if tag == 24 {
                QControl { dac0: v, ..msg }
            } else if tag == 32 {
                QControl { dac1: v, ..msg }
            } else if tag == 40 {
                QControl { dac2: v, ..msg }
            } else {
                QControl { dac3: v, ..msg }
            },
        ),
{
    let bytes = int_field(tag, v) + rest;
    assert(bytes[0] == tag);
    assert(take_varint(bytes) == Some((tag as int, 1int)));
    let rest1 = bytes.skip(1);
    assert(rest1 =~= varint(as_u64(v)) + rest);
    crate::wire::lemma_take_varint_of_encoding(as_u64(v), rest);
    crate::wire::lemma_int32_round(v);
    let vlen = varint(as_u64(v)).len() as int;
    assert(rest1.skip(vlen) =~= rest);
}

/// The status-payload field the given tag names, overwritten.
pub open spec fn state_with(tag: u8, v: i32, msg: QState) -> QState {
    if tag == 8 {
        QState { ch0: v, ..msg }
    } else if tag == 16 {
        QState { ch1: v, ..msg }
    } else if tag == 24 {
        QState { ch2: v, ..msg }
    } else if tag == 32 {
        QState { ch3: v, ..msg }
    } else if tag == 40 {
        QState { cal: v, ..msg }
    } else if tag == 48 {
        QState { v: v, ..msg }
    } else if tag == 56 {
        QState { temp: v, ..msg }
    } else if tag == 64 {
        QState { sdn: v, ..msg }
    } else {
        msg
    }
}

proof fn lemma_state_field_step(tag: u8, v: i32, rest: Seq<u8>, msg: QState)
    requires
        tag == 8 || tag == 16 || tag == 24 || tag == 32 || tag == 40 || tag == 48 || tag == 56
            || tag == 64,
        v == 0 ==> state_with(tag, v, msg) == msg,
    ensures
        parse_state_at(int_field(tag, v) + rest, msg) == parse_state_at(
            rest,
            state_with(tag, v, msg),
        ),
{
    if v == 0 {
        assert(int_field(tag, v) + rest =~= rest);
    } else {
        let bytes = int_field(tag, v) + rest;
        assert(bytes[0] == tag);
        assert(take_varint(bytes) == Some((tag as int, 1int)));
        let rest1 = bytes.skip(1);
        assert(rest1 =~= varint(as_u64(v)) + rest);
        crate::wire::lemma_take_varint_of_encoding(as_u64(v), rest);
        crate::wire::lemma_int32_round(v);
        let vlen = varint(as_u64(v)).len() as int;
        assert(rest1.skip(vlen) =~= rest);
    }
}

proof fn lemma_envelope_int_step(tag: u8, v: i32, rest: Seq<u8>, a: i32, b: i32, data: Seq<u8>)
    requires
        tag == 8 || tag == 16,
        v != 0,
    ensures
        parse_envelope_at(int_field(tag, v) + rest, a, b, data) == (if tag == 8 {
            parse_envelope_at(rest, v, b, data)
        } else {
            parse_envelope_at(rest, a, v, data)
        }),
{
    let bytes = int_field(tag, v) + rest;
    assert(bytes[0] == tag);
    assert(take_varint(bytes) == Some((tag as int, 1int)));
    let rest1 = bytes.skip(1);
    assert(rest1 =~= varint(as_u64(v)) + rest);
    crate::wire::lemma_take_varint_of_encoding(as_u64(v), rest);
    crate::wire::lemma_int32_round(v);
    let vlen = varint(as_u64(v)).len() as int;
    assert(rest1.skip(vlen) =~= rest);
}

proof fn lemma_envelope_bytes_step(d: Seq<u8>, rest: Seq<u8>, a: i32, b: i32, data: Seq<u8>)
    requires
        0 < d.len() < 0x1_0000_0000,
    ensures
        parse_envelope_at(bytes_field(26, d) + rest, a, b, data) == parse_envelope_at(
            rest,
            a,
            b,
            d,
        ),
{
    let bytes = bytes_field(26, d) + rest;
    assert(bytes[0] == 26);
    assert(take_varint(bytes) == Some((26int, 1int)));
    let rest1 = bytes.skip(1);
    assert(rest1 =~= varint(d.len() as u64) + (d + rest));
    crate::wire::lemma_take_varint_of_encoding(d.len() as u64, d + rest);
    let l = d.len() as int;
    let n = varint(d.len() as u64).len() as int;
    assert(take_varint(rest1) == Some((l, n)));
    assert(l % 0x1_0000_0000 == l) by (nonlinear_arith)
        requires
            0 <= l < 0x1_0000_0000,
    ;
    assert(rest1.subrange(n, n + l) =~= d);
    assert(rest1.skip(n + l) =~= rest);
}

/// Decoding an encoded control payload from the defaults reproduces the
/// payload exactly; a field at its zero default crosses the wire as no
/// bytes at all.
#[verifier::rlimit(60)]
pub proof fn lemma_control_round_trip(c: QControl)
    ensures
        parse_control(encode_control(c)) == Some(c),
{
    let t6: Seq<u8> = Seq::empty();
    let t5 = int_field(48, c.dac3) + t6;
    let t4 = int_field(40, c.dac2) + t5;
    let t3 = int_field(32, c.dac1) + t4;
    let t2 = int_field(24, c.dac0) + t3;
    let t1 = int_field(16, c.pwm) + t2;
    let t0 = int_field(8, c.sdn) + t1;
    assert(encode_control(c) =~= t0);
    assert(int_field(48, c.dac3) + t6 =~= int_field(48, c.dac3));
    let m0 = QControl::spec_default();
    let m1 = QControl { sdn: c.sdn, ..m0 };
    let m2 = QControl { pwm: c.pwm, ..m1 };
    let m3 = QControl { dac0: c.dac0, ..m2 };
    let m4 = QControl { dac1: c.dac1, ..m3 };
    let m5 = QControl { dac2: c.dac2, ..m4 };
    let m6 = QControl { dac3: c.dac3, ..m5 };
    if c.sdn == 0 {
        assert(t0 =~= t1);
    } else {
        lemma_control_field_step(8, c.sdn, t1, m0);
    }
    assert(parse_control_at(t0, m0) == parse_control_at(t1, m1));
    if c.pwm == 0 {
        assert(t1 =~= t2);
    } else {
        lemma_control_field_step(16, c.pwm, t2, m1);
    }
    assert(parse_control_at(t1, m1) == parse_control_at(t2, m2));
    if c.dac0 == 0 {
        assert(t2 =~= t3);
    } else {
        lemma_control_field_step(24, c.dac0, t3, m2);
    }
    assert(parse_control_at(t2, m2) == parse_control_at(t3, m3));
    if c.dac1 == 0 {
        assert(t3 =~= t4);
    } else {
        lemma_control_field_step(32, c.dac1, t4, m3);
    }
    assert(parse_control_at(t3, m3) == parse_control_at(t4, m4));
    if c.dac2 == 0 {
        assert(t4 =~= t5);
    } else {
        lemma_control_field_step(40, c.dac2, t5, m4);
    }
    assert(parse_control_at(t4, m4) == parse_control_at(t5, m5));
    if c.dac3 == 0 {
        assert(t5 =~= t6);
    } else {
        lemma_control_field_step(48, c.dac3, t6, m5);
    }
    assert(parse_control_at(t5, m5) == parse_control_at(t6, m6));
    assert(m6 == c);
}

/// Decoding an encoded status payload from the defaults reproduces the
/// payload exactly.
#[verifier::rlimit(100)]
pub proof fn lemma_state_round_trip(s: QState)
    ensures
        parse_state(encode_state(s)) == Some(s),
{
    let t8 = int_field(64, s.sdn);
    let t7 = int_field(56, s.temp) + t8;
    let t6 = int_field(48, s.v) + t7;
    let t5 = int_field(40, s.cal) + t6;
    let t4 = int_field(32, s.ch3) + t5;
    let t3 = int_field(24, s.ch2) + t4;
    let t2 = int_field(16, s.ch1) + t3;
    let t1 = int_field(8, s.ch0) + t2;
    assert(encode_state(s) == t1);
    let m0 = QState { ch0: 0, ch1: 0, ch2: 0, ch3: 0, cal: 0, v: 0, temp: 0, sdn: 0 };
    let m1 = QState { ch0: s.ch0, ch1: 0, ch2: 0, ch3: 0, cal: 0, v: 0, temp: 0, sdn: 0 };
    let m2 = QState { ch0: s.ch0, ch1: s.ch1, ch2: 0, ch3: 0, cal: 0, v: 0, temp: 0, sdn: 0 };
    let m3 = QState { ch0: s.ch0, ch1: s.ch1, ch2: s.ch2, ch3: 0, cal: 0, v: 0, temp: 0, sdn: 0 };
    let m4 = QState {
        ch0: s.ch0,
        ch1: s.ch1,
        ch2: s.ch2,
        ch3: s.ch3,
        cal: 0,
        v: 0,
        temp: 0,
        sdn: 0,
    };
    let m5 = QState {
        ch0: s.ch0,
        ch1: s.ch1,
        ch2: s.ch2,
        ch3: s.ch3,
        cal: s.cal,
        v: 0,
        temp: 0,
        sdn: 0,
    };
    let m6 = QState {
        ch0: s.ch0,
        ch1: s.ch1,
        ch2: s.ch2,
        ch3: s.ch3,
        cal: s.cal,
        v: s.v,
        temp: 0,
        sdn: 0,
    };
    let m7 = QState {
        ch0: s.ch0,
        ch1: s.ch1,
        ch2: s.ch2,
        ch3: s.ch3,
        cal: s.cal,
        v: s.v,
        temp: s.temp,
        sdn: 0,
    };
    let m8 = QState {
        ch0: s.ch0,
        ch1: s.ch1,
        ch2: s.ch2,
        ch3: s.ch3,
        cal: s.cal,
        v: s.v,
        temp: s.temp,
        sdn: s.sdn,
    };
    assert(m0 == QState::spec_default());
    let t9 = Seq::<u8>::empty();
    assert(t8 =~= int_field(64, s.sdn) + t9);
    assert(parse_state_at(t1, m0) == parse_state_at(t2, m1)) by {
        lemma_state_field_step(8, s.ch0, t2, m0);
    }
    assert(parse_state_at(t2, m1) == parse_state_at(t3, m2)) by {
        lemma_state_field_step(16, s.ch1, t3, m1);
    }
    assert(parse_state_at(t3, m2) == parse_state_at(t4, m3)) by {
        lemma_state_field_step(24, s.ch2, t4, m2);
    }
    assert(parse_state_at(t4, m3) == parse_state_at(t5, m4)) by {
        lemma_state_field_step(32, s.ch3, t5, m3);
    }
    assert(parse_state_at(t5, m4) == parse_state_at(t6, m5)) by {
        lemma_state_field_step(40, s.cal, t6, m4);
    }
    assert(parse_state_at(t6, m5) == parse_state_at(t7, m6)) by {
        lemma_state_field_step(48, s.v, t7, m5);
    }
    assert(parse_state_at(t7, m6) == parse_state_at(t8, m7)) by {
        lemma_state_field_step(56, s.temp, t8, m6);
    }
    assert(parse_state_at(t8, m7) == parse_state_at(t9, m8)) by {
        lemma_state_field_step(64, s.sdn, t9, m7);
    }
    assert(parse_state_at(t9, m8) == Some(m8));
    assert(m8 == s);
}

/// Decoding an encoded envelope from the defaults reproduces its fields
/// exactly. Both envelopes share this encoding shape.
pub proof fn lemma_envelope_round_trip(id: i32, op: i32, data: Seq<u8>)
    requires
        data.len() < 0x1_0000_0000,
    ensures
        parse_envelope(encode_request(id, op, data)) == Some((id, op, data)),
        parse_envelope(encode_response(id, op, data)) == Some((id, op, data)),
{
    let t3: Seq<u8> = Seq::empty();
    let t2 = bytes_field(26, data) + t3;
    let t1 = int_field(16, op) + t2;
    let t0 = int_field(8, id) + t1;
    assert(encode_request(id, op, data) =~= t0);
    assert(encode_response(id, op, data) =~= t0);
    assert(bytes_field(26, data) + t3 =~= bytes_field(26, data));
    let e: Seq<u8> = Seq::empty();
    if id == 0 {
        assert(t0 =~= t1);
    } else {
        lemma_envelope_int_step(8, id, t1, 0, 0, e);
    }
    assert(parse_envelope_at(t0, 0, 0, e) == parse_envelope_at(t1, id, 0, e));
    if op == 0 {
        assert(t1 =~= t2);
    } else {
        lemma_envelope_int_step(16, op, t2, id, 0, e);
    }
    assert(parse_envelope_at(t1, id, 0, e) == parse_envelope_at(t2, id, op, e));
    if data.len() == 0 {
        assert(t2 =~= t3);
        assert(data =~= e);
    } else {
        lemma_envelope_bytes_step(data, t3, id, op, e);
    }
    assert(parse_envelope_at(t2, id, op, e) == parse_envelope_at(t3, id, op, data));
}

/// Reading back a length-prefixed body yields exactly the body.
pub proof fn lemma_take_frame_of_framed(body: Seq<u8>)
    requires
        body.len() < 0x1_0000_0000,
    ensures
        take_frame(framed(body)) == Some(body),
{
    crate::wire::lemma_take_varint_of_encoding(body.len() as u64, body);
    let bytes = framed(body);
    let l = body.len() as int;
    let n = varint(body.len() as u64).len() as int;
    assert(take_varint(bytes) == Some((l, n)));
    assert(l % 0x1_0000_0000 == l) by (nonlinear_arith)
        requires
            0 <= l < 0x1_0000_0000,
    ;
    assert(bytes.subrange(n, n + l) =~= body);
}

/// The encoding of a control payload is at most 66 bytes.
pub proof fn lemma_encode_control_len(c: QControl)
    ensures
        encode_control(c).len() <= 66,
{
    lemma_int_field_len(8, c.sdn);
    lemma_int_field_len(16, c.pwm);
    lemma_int_field_len(24, c.dac0);
    lemma_int_field_len(32, c.dac1);
    lemma_int_field_len(40, c.dac2);
    lemma_int_field_len(48, c.dac3);
}

/// The encoding of a status payload is at most 88 bytes.
pub proof fn lemma_encode_state_len(s: QState)
    ensures
        encode_state(s).len() <= 88,
{
    lemma_int_field_len(8, s.ch0);
    lemma_int_field_len(16, s.ch1);
    lemma_int_field_len(24, s.ch2);
    lemma_int_field_len(32, s.ch3);
    lemma_int_field_len(40, s.cal);
    lemma_int_field_len(48, s.v);
    lemma_int_field_len(56, s.temp);
    lemma_int_field_len(64, s.sdn);
}

proof fn lemma_int_field_len(tag: u8, v: i32)
    ensures
        int_field(tag, v).len() <= 11,
{
    if v != 0 {
        crate::wire::lemma_varint_size(as_u64(v));
    }
}

/// The encoding of an envelope is at most 33 bytes beyond its payload.
pub proof fn lemma_encode_envelope_len(id: i32, e: i32, data: Seq<u8>)
    requires
        data.len() <= 0xffff_ffff,
    ensures
        encode_request(id, e, data).len() <= 33 + data.len(),
        encode_response(id, e, data).len() <= 33 + data.len(),
{
    lemma_int_field_len(8, id);
    lemma_int_field_len(16, e);
    if data.len() != 0 {
        crate::wire::lemma_varint_size(data.len() as u64);
    }
}

/// A payload with every field at its default encodes to no bytes at all,
/// and no bytes decode to the defaults: the default-omission law.
pub proof fn lemma_default_omission()
    ensures
        encode_control(QControl::spec_default()) == Seq::<u8>::empty(),
        encode_state(QState::spec_default()) == Seq::<u8>::empty(),
        parse_control(Seq::<u8>::empty()) == Some(QControl::spec_default()),
        parse_state(Seq::<u8>::empty()) == Some(QState::spec_default()),
{
    assert(encode_control(QControl::spec_default()) =~= Seq::<u8>::empty());
    assert(encode_state(QState::spec_default()) =~= Seq::<u8>::empty());
}

/// Decode a request envelope from its length-prefixed form.
pub fn deserialize_request(bytes: &[u8]) -> (r: Option<QRequest>)
    ensures
        (match parse_framed_envelope(bytes@) {
            None => r is None,
            Some((id, op, data)) => match r {
                None => false,
                Some(q) => q.id == id && q.op == op && q.data@ == data,
            },
        }),
{
    match read_frame(bytes) {
        None => None,
        Some((s, l)) => QRequest::from_reader(vstd::slice::slice_subrange(bytes, s, s + l)),
    }
}

} // verus!

