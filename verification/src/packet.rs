//! The reports that travel between host and device.
//!
//! A report from the host is a report number, a mark, and a body, filled up with zeros. A
//! report from the device has no number in front. The device answers many things that
//! were not asked for, so a read keeps listening until the answer to its own question comes.

use crate::feature::law_bands_count_up;
use crate::feature::FeatureId;
use crate::text::hex_byte;
use crate::text::hex_text;
use crate::value::clamped;
use crate::value::law_bytes_identify_value;
use crate::value::le_bytes;
use crate::value::unit;
use crate::value::Value;
use vstd::prelude::*;

verus! {

/// The USB vendor number of the device.
pub const VENDOR_ID: u16 = 0x041e;

/// The USB product number of the device.
pub const PRODUCT_ID: u16 = 0x3256;

/// The USB interface that speaks this protocol.
pub const INTERFACE: i32 = 4;

/// How many reports a read looks at before it gives up.
pub const MAX_READ_ATTEMPTS: u32 = 30;

/// How long a read waits for one report, in milliseconds.
pub const READ_TIMEOUT_MS: i32 = 500;

/// How long a probe waits for a report, in milliseconds.
pub const PROBE_TIMEOUT_MS: i32 = 300;

/// The mark that every report bears.
pub const MARK: u8 = 0x5a;

/// The numbers by which a USB interface is known.
#[derive(Clone, Copy, Debug, PartialEq, Eq, Structural)]
pub struct InterfaceInfo {
    pub vendor: u16,
    pub product: u16,
    pub interface: i32,
}

impl InterfaceInfo {
    /// Whether this is the control interface of the device.
    pub open spec fn is_control(self) -> bool {
        self.vendor == VENDOR_ID && self.product == PRODUCT_ID && self.interface == INTERFACE
    }

    /// Whether this is the control interface of the device.
    pub fn controls(self) -> (yes: bool)
        ensures
            yes == self.is_control(),
    {
        self.vendor == VENDOR_ID && self.product == PRODUCT_ID && self.interface == INTERFACE
    }
}

/// The first control interface in a list.
pub fn find_interface(list: &Vec<InterfaceInfo>) -> (at: Option<usize>)
    ensures
        match at {
            Some(i) => i < list.len() && list@[i as int].is_control() && forall|k: int|
                0 <= k < i ==> !(#[trigger] list@[k]).is_control(),
            None => forall|k: int| 0 <= k < list.len() ==> !(#[trigger] list@[k]).is_control(),
        },
{
    let mut i: usize = 0;
    while i < list.len()
        invariant
            i <= list.len(),
            forall|k: int| 0 <= k < i ==> !(#[trigger] list@[k]).is_control(),
        decreases list.len() - i,
    {
        if list[i].controls() {
            return Some(i);
        }
        i += 1;
    }
    None
}

/// A report from the host: the report number zero, the mark, `body`, and zeros up to
/// sixty-five bytes.
pub open spec fn framed(body: Seq<u8>) -> Seq<u8> {
    seq![0u8, MARK] + body + Seq::new((63 - body.len()) as nat, |i: int| 0u8)
}

/// One byte for a switch: on if `value` is above zero.
pub open spec fn switch_byte(value: Value, on: u8, off: u8) -> u8 {
    if !value.is_nan() && value.scaled() > 0 {
        on
    } else {
        off
    }
}

/// The number by which the device knows the filter with index `value`, counted from one.
pub open spec fn filter_number(value: Value) -> u8 {
    clamped(clamped(value.whole_part(), 0, 255) + 1, 1, 5) as u8
}

/// The body of the report that sets `id` to `value`.
pub open spec fn write_body(id: FeatureId, value: Value) -> Seq<u8> {
    match id.address() {
        Some((family, number)) => seq![0x12u8, 0x07, 0x01, family, number] + le_bytes(value.bits),
        None => match id {
            FeatureId::SbxMaster => seq![0x26u8, 0x05, 0x07, 0x01, 0x00, switch_byte(value, 1, 0)],
            FeatureId::ScoutMode => seq![0x26u8, 0x05, 0x07, 0x02, 0x00, switch_byte(value, 1, 0)],
            FeatureId::Output => seq![0x2cu8, 0x05, 0x00, switch_byte(value, 4, 2)],
            _ => seq![0x6cu8, 0x03, 0x00, filter_number(value)],
        },
    }
}

/// The body of the report that asks for the value of `id`.
pub open spec fn read_body(id: FeatureId) -> Seq<u8> {
    match id.address() {
        Some((family, number)) => seq![0x11u8, 0x03, 0x01, family, number],
        None => match id {
            FeatureId::SbxMaster | FeatureId::ScoutMode => seq![0x26u8, 0x03, 0x08, 0xff, 0xff],
            FeatureId::Output => seq![0x2cu8, 0x01, 0x01],
            _ => seq![0x6cu8, 0x01, 0x01],
        },
    }
}

/// The report that sets `id` to `value`.
pub fn write_report(id: FeatureId, value: Value) -> (report: [u8; 65])
    ensures
        report@ == framed(write_body(id, value)),
{
    let mut p: [u8; 65] = [0u8; 65];
    p[1] = MARK;
    match id.dsp_address() {
        Some((family, number)) => {
            let bytes = value.to_le();
            p[2] = 0x12;
            p[3] = 0x07;
            p[4] = 0x01;
            p[5] = family;
            p[6] = number;
            p[7] = bytes[0];
            p[8] = bytes[1];
            p[9] = bytes[2];
            p[10] = bytes[3];
        },
        None => match id {
            FeatureId::SbxMaster | FeatureId::ScoutMode => {
                p[2] = 0x26;
                p[3] = 0x05;
                p[4] = 0x07;
                p[5] = if id == FeatureId::SbxMaster {
                    0x01
                } else {
                    0x02
                };
                p[7] = if value.is_positive() {
                    0x01
                } else {
                    0x00
                };
            },
            FeatureId::Output => {
                p[2] = 0x2c;
                p[3] = 0x05;
                p[5] = if value.is_positive() {
                    0x04
                } else {
                    0x02
                };
            },
            _ => {
                p[2] = 0x6c;
                p[3] = 0x03;
                let number: u8 = value.to_byte().saturating_add(1);
                p[5] = if number > 5 {
                    5
                } else {
                    number
                };
            },
        },
    }
    assert(p@ =~= framed(write_body(id, value)));
    p
}

/// The report that asks for the value of `id`.
pub fn read_request(id: FeatureId) -> (report: [u8; 65])
    ensures
        report@ == framed(read_body(id)),
{
    let mut p: [u8; 65] = [0u8; 65];
    p[1] = MARK;
    match id.dsp_address() {
        Some((family, number)) => {
            p[2] = 0x11;
            p[3] = 0x03;
            p[4] = 0x01;
            p[5] = family;
            p[6] = number;
        },
        None => match id {
            FeatureId::SbxMaster | FeatureId::ScoutMode => {
                p[2] = 0x26;
                p[3] = 0x03;
                p[4] = 0x08;
                p[5] = 0xff;
                p[6] = 0xff;
            },
            FeatureId::Output => {
                p[2] = 0x2c;
                p[3] = 0x01;
                p[4] = 0x01;
            },
            _ => {
                p[2] = 0x6c;
                p[3] = 0x01;
                p[4] = 0x01;
            },
        },
    }
    assert(p@ =~= framed(read_body(id)));
    p
}

/// The report that a probe sends: the question for the output, which is cheap to answer.
pub fn probe_request() -> (report: [u8; 65])
    ensures
        report@ == framed(read_body(FeatureId::Output)),
{
    read_request(FeatureId::Output)
}

/// Whether a probe found the device awake: its question could be sent, and any report came.
pub fn probe_answered(sent: bool, received: Option<usize>) -> (awake: bool)
    ensures
        awake == (sent && received is Some && received->0 > 0),
{
    match received {
        Some(count) => sent && count > 0,
        None => false,
    }
}

/// The command byte that the answer about `id` repeats.
pub open spec fn command_of(id: FeatureId) -> u8 {
    match id.address() {
        Some(_) => 0x11,
        None => match id {
            FeatureId::SbxMaster | FeatureId::ScoutMode => 0x26,
            FeatureId::Output => 0x2c,
            _ => 0x6c,
        },
    }
}

/// Whether a report from the device answers the question for `id`.
pub open spec fn answers(id: FeatureId, reply: Seq<u8>) -> bool {
    &&& reply[0] == MARK
    &&& reply[1] == command_of(id)
    &&& match id.address() {
        Some((family, number)) => reply[5] == family && reply[6] == number,
        None => true,
    }
}

/// What a report from the device says of `id`: a value, or an output mode that is unknown.
#[derive(Clone, Copy, Debug, PartialEq, Eq, Structural)]
pub enum Reading {
    Known(Value),
    UnknownMode(u8),
}

/// Whether `reading` is what the answer `reply` says of `id`.
pub open spec fn is_reading(id: FeatureId, reply: Seq<u8>, reading: Reading) -> bool {
    match id.address() {
        Some(_) => reading matches Reading::Known(v) && le_bytes(v.bits) == reply.subrange(7, 11),
        None => match id {
            FeatureId::SbxMaster => reading == Reading::Known(flag_value(reply[6] % 2 == 1)),
            FeatureId::ScoutMode => reading == Reading::Known(flag_value((reply[6] / 2) % 2 == 1)),
            FeatureId::Output => if reply[4] == 2 {
                reading == Reading::Known(flag_value(false))
            } else if reply[4] == 4 {
                reading == Reading::Known(flag_value(true))
            } else {
                reading == Reading::UnknownMode(reply[4])
            },
            _ => reading matches Reading::Known(v) && !v.negative() && v.is_whole(
                if reply[4] == 0 {
                    0
                } else {
                    reply[4] - 1
                },
            ),
        },
    }
}

/// The value of a switch.
pub open spec fn flag_value(on: bool) -> Value {
    if on {
        Value { bits: 0x3f80_0000 }
    } else {
        Value { bits: 0 }
    }
}

/// The value of a switch.
pub fn switch_value(on: bool) -> (v: Value)
    ensures
        v == flag_value(on),
{
    if on {
        Value { bits: 0x3f80_0000 }
    } else {
        Value { bits: 0 }
    }
}

/// What the answer `reply` says of `id`.
pub fn read_reply(id: FeatureId, reply: &[u8; 64]) -> (reading: Reading)
    ensures
        is_reading(id, reply@, reading),
{
    match id.dsp_address() {
        Some(_) => {
            let v = Value::from_le(reply[7], reply[8], reply[9], reply[10]);
            assert(reply@.subrange(7, 11) =~= seq![reply@[7], reply@[8], reply@[9], reply@[10]]);
            Reading::Known(v)
        },
        None => match id {
            FeatureId::SbxMaster => {
                let flags: u8 = reply[6];
                assert((flags & 0x01 != 0) == (flags % 2 == 1)) by (bit_vector);
                Reading::Known(switch_value(flags & 0x01 != 0))
            },
            FeatureId::ScoutMode => {
                let flags: u8 = reply[6];
                assert((flags & 0x02 != 0) == ((flags / 2) % 2 == 1)) by (bit_vector);
                Reading::Known(switch_value(flags & 0x02 != 0))
            },
            FeatureId::Output => match reply[4] {
                0x02 => Reading::Known(switch_value(false)),
                0x04 => Reading::Known(switch_value(true)),
                other => Reading::UnknownMode(other),
            },
            _ => Reading::Known(Value::of_whole(reply[4].saturating_sub(1) as i32)),
        },
    }
}

/// Whether a report from the device answers the question for `id`.
pub fn is_answer(id: FeatureId, reply: &[u8; 64]) -> (yes: bool)
    ensures
        yes == answers(id, reply@),
{
    if reply[0] != MARK {
        return false;
    }
    match id.dsp_address() {
        Some((family, number)) => reply[1] == 0x11 && reply[5] == family && reply[6] == number,
        None => match id {
            FeatureId::SbxMaster | FeatureId::ScoutMode => reply[1] == 0x26,
            FeatureId::Output => reply[1] == 0x2c,
            _ => reply[1] == 0x6c,
        },
    }
}

/// A question that was sent to the device, and how many more reports may be looked at.
#[derive(Clone, Copy, Debug, PartialEq, Eq, Structural)]
pub struct Question {
    pub id: FeatureId,
    pub attempts_left: u32,
}

/// What became of one attempt to receive an answer.
#[derive(Clone, Copy, Debug, PartialEq, Eq, Structural)]
pub enum Attempt {
    /// Nothing yet: try to receive once more.
    Again,
    /// The answer came.
    Answer(Reading),
    /// The answer did not come in the attempts that a read makes.
    NoResponse,
}

impl Question {
    /// A question about `id` that has just been sent.
    pub fn ask(id: FeatureId) -> (q: Question)
        ensures
            q == (Question { id, attempts_left: MAX_READ_ATTEMPTS }),
    {
        Question { id, attempts_left: MAX_READ_ATTEMPTS }
    }

    /// Takes in one receive: `count` bytes came, at the front of `reply`. An attempt that brought
    /// nothing, or the answer to something else, is used up.
    pub fn receive(&mut self, count: usize, reply: &[u8; 64]) -> (attempt: Attempt)
        ensures
            final(self).id == old(self).id,
            final(self).attempts_left == (if old(self).attempts_left > 0 {
                old(self).attempts_left - 1
            } else {
                0
            }),
            match attempt {
                Attempt::Answer(reading) => old(self).attempts_left > 0 && count > 0 && answers(
                    old(self).id,
                    reply@,
                ) && is_reading(old(self).id, reply@, reading),
                Attempt::Again => old(self).attempts_left > 1 && !(count > 0 && answers(
                    old(self).id,
                    reply@,
                )),
                Attempt::NoResponse => old(self).attempts_left == 0 || old(self).attempts_left == 1
                    && !(count > 0 && answers(old(self).id, reply@)),
            },
    {
        if self.attempts_left == 0 {
            return Attempt::NoResponse;
        }
        self.attempts_left = self.attempts_left - 1;
        if count > 0 && is_answer(self.id, reply) {
            Attempt::Answer(read_reply(self.id, reply))
        } else if self.attempts_left == 0 {
            Attempt::NoResponse
        } else {
            Attempt::Again
        }
    }
}

/// The message of a read that found no answer.
pub open spec fn silence(id: FeatureId) -> Seq<char> {
    match id.address() {
        Some((family, number)) => "no DSP response for "@ + hex_byte(family) + ":"@ + hex_byte(
            number,
        ),
        None => "no response with cmd "@ + hex_byte(command_of(id)),
    }
}

/// The message of a read of `id` that found no answer.
pub fn no_response_text(id: FeatureId) -> (text: String)
    ensures
        text@ == silence(id),
{
    match id.dsp_address() {
        Some((family, number)) => {
            let mut text = "no DSP response for ".to_owned();
            text.append(hex_text(family).as_str());
            text.append(":");
            text.append(hex_text(number).as_str());
            text
        },
        None => {
            let mut text = "no response with cmd ".to_owned();
            let command: u8 = match id {
                FeatureId::SbxMaster | FeatureId::ScoutMode => 0x26,
                FeatureId::Output => 0x2c,
                _ => 0x6c,
            };
            text.append(hex_text(command).as_str());
            text
        },
    }
}

/// The message of a read that found an output mode that is unknown.
pub fn unknown_mode_text(mode: u8) -> (text: String)
    ensures
        text@ == "unknown output mode "@ + hex_byte(mode),
{
    let mut text = "unknown output mode ".to_owned();
    text.append(hex_text(mode).as_str());
    text
}

/// Whether a report from the device shows the state that the report setting `id` to `value`
/// asks for: the same number in the same bytes, the same switch position, the same mode.
pub open spec fn shows_write(id: FeatureId, value: Value, reply: Seq<u8>) -> bool {
    let body = write_body(id, value);
    match id.address() {
        Some(_) => reply.subrange(7, 11) == body.subrange(5, 9),
        None => match id {
            FeatureId::SbxMaster => (reply[6] % 2 == 1) == (body[5] == 1),
            FeatureId::ScoutMode => ((reply[6] / 2) % 2 == 1) == (body[5] == 1),
            _ => reply[4] == body[3],
        },
    }
}

/// A read gives back the number that a write sent, whenever the device shows the state that
/// it was asked for.
pub proof fn law_read_gives_back_write(
    id: FeatureId,
    value: Value,
    reply: Seq<u8>,
    reading: Reading,
)
    requires
        id.accepts(value),
        reply.len() == 64,
        answers(id, reply),
        shows_write(id, value, reply),
        is_reading(id, reply, reading),
    ensures
        reading matches Reading::Known(v) && v.equals(value),
{
    match id.address() {
        Some(_) => {
            let v = reading->Known_0;
            assert(write_body(id, value).subrange(5, 9) =~= le_bytes(value.bits));
            law_bytes_identify_value(v, value);
        },
        None => {
            lemma_switch_values();
            if id == FeatureId::DacFilter {
                let k = choose|k: int| 0 <= k <= 4 && #[trigger] value.is_whole(k);
                lemma_whole_part(value, k);
                assert(filter_number(value) == k + 1);
            } else {
                vstd::arithmetic::power2::lemma_pow2_pos(149);
                assert(value.is_whole(0) || value.is_whole(1));
                assert(0 * unit() == 0);
                assert(1 * unit() == unit());
            }
        },
    }
}

proof fn lemma_switch_values()
    ensures
        flag_value(false).is_whole(0),
        flag_value(true).is_whole(1),
{
    let one = flag_value(true);
    assert(one.magnitude() / (crate::value::HIDDEN as int) == 127);
    assert(one.magnitude() % (crate::value::HIDDEN as int) == 0);
    vstd::arithmetic::power2::lemma2_to64();
    vstd::arithmetic::power2::lemma_pow2_adds(23, 126);
    assert(0 * unit() == 0);
}

proof fn lemma_whole_part(v: Value, k: int)
    requires
        v.is_whole(k),
        k >= 0,
    ensures
        v.whole_part() == k,
{
    vstd::arithmetic::power2::lemma_pow2_pos(149);
    let u = unit();
    let m = crate::value::magnitude_units(v.magnitude());
    crate::value::lemma_units_nonnegative(v.magnitude());
    assert(k * u >= 0) by (nonlinear_arith)
        requires
            k >= 0,
            u > 0,
    ;
    if v.negative() {
        assert(m == 0);
        assert(k == 0) by (nonlinear_arith)
            requires
                k * u == 0,
                u > 0,
        ;
        assert(0int / u == 0) by (nonlinear_arith)
            requires
                u > 0,
        ;
    } else {
        vstd::arithmetic::div_mod::lemma_div_by_multiple(k, u);
    }
}

/// The reports that set two different features differ, whatever the values.
pub proof fn law_writes_are_distinct(a: FeatureId, b: FeatureId, v: Value, w: Value)
    requires
        framed(write_body(a, v)) == framed(write_body(b, w)),
    ensures
        a == b,
{
    let left = framed(write_body(a, v));
    let right = framed(write_body(b, w));
    assert(left[2] == write_body(a, v)[0] && right[2] == write_body(b, w)[0]);
    assert(left[5] == write_body(a, v)[3] && right[5] == write_body(b, w)[3]);
    if a.address() is Some {
        assert(left[6] == write_body(a, v)[4]);
    }
    if b.address() is Some {
        assert(right[6] == write_body(b, w)[4]);
    }
}

/// Every report from the host is sixty-five bytes long, begins with the report number zero
/// and the mark, and ends in zeros.
pub proof fn law_reports_are_framed(id: FeatureId, value: Value)
    ensures
        framed(write_body(id, value)).len() == 65,
        framed(read_body(id)).len() == 65,
        framed(write_body(id, value)).subrange(0, 2) == seq![0u8, MARK],
        framed(read_body(id)).subrange(0, 2) == seq![0u8, MARK],
        forall|i: int| 11 <= i < 65 ==> #[trigger] framed(write_body(id, value))[i] == 0,
        forall|i: int| 7 <= i < 65 ==> #[trigger] framed(read_body(id))[i] == 0,
{
    assert(framed(write_body(id, value)).subrange(0, 2) =~= seq![0u8, MARK]);
    assert(framed(read_body(id)).subrange(0, 2) =~= seq![0u8, MARK]);
}

/// An answer about one feature of the signal processor answers no question about another.
pub proof fn law_answers_are_not_confused(a: FeatureId, b: FeatureId, reply: Seq<u8>)
    requires
        a.address() is Some,
        answers(a, reply),
        answers(b, reply),
    ensures
        a == b,
{
}

/// Which reports answer a question. One about the four features outside the signal processor is
/// answered by every report that bears the mark and the command of the question, whatever
/// else it holds; one about a feature of the signal processor by a report that also repeats
/// its family and number.
pub proof fn law_which_reports_answer(id: FeatureId, reply: Seq<u8>)
    requires
        reply.len() == 64,
    ensures
        id == FeatureId::SbxMaster || id == FeatureId::ScoutMode ==> (answers(id, reply) <==> reply[0]
            == 0x5a && reply[1] == 0x26),
        id == FeatureId::Output ==> (answers(id, reply) <==> reply[0] == 0x5a && reply[1] == 0x2c),
        id == FeatureId::DacFilter ==> (answers(id, reply) <==> reply[0] == 0x5a && reply[1]
            == 0x6c),
        id.address() matches Some((family, number)) ==> (answers(id, reply) <==> reply[0] == 0x5a
            && reply[1] == 0x11 && reply[5] == family && reply[6] == number),
{
}

/// An answer repeats the command of the question that was sent, and, of a feature of the signal
/// processor, its family and number.
pub proof fn law_answers_repeat_the_question(id: FeatureId, reply: Seq<u8>)
    requires
        reply.len() == 64,
        answers(id, reply),
    ensures
        reply[0] == framed(read_body(id))[1],
        reply[1] == framed(read_body(id))[2],
        id.address() is Some ==> reply[5] == framed(read_body(id))[5] && reply[6] == framed(
            read_body(id),
        )[6],
{
}

/// The bytes of a question: the command, the length of what follows, and what is asked for.
pub proof fn law_bytes_of_a_question(id: FeatureId)
    ensures
        ({
            let report = framed(read_body(id));
            &&& report.len() == 65
            &&& report[0] == 0x00 && report[1] == 0x5a
            &&& id.address() matches Some((family, number)) ==> report.subrange(2, 8) == seq![
                0x11u8,
                0x03,
                0x01,
                family,
                number,
                0x00,
            ]
            &&& id == FeatureId::SbxMaster || id == FeatureId::ScoutMode ==> report.subrange(2, 8)
                == seq![0x26u8, 0x03, 0x08, 0xff, 0xff, 0x00]
            &&& id == FeatureId::Output ==> report.subrange(2, 8) == seq![
                0x2cu8,
                0x01,
                0x01,
                0x00,
                0x00,
                0x00,
            ]
            &&& id == FeatureId::DacFilter ==> report.subrange(2, 8) == seq![
                0x6cu8,
                0x01,
                0x01,
                0x00,
                0x00,
                0x00,
            ]
            &&& forall|i: int| 7 <= i < 65 ==> #[trigger] report[i] == 0
        }),
{
    let report = framed(read_body(id));
    match id.address() {
        Some((family, number)) => {
            assert(report.subrange(2, 8) =~= seq![0x11u8, 0x03, 0x01, family, number, 0x00]);
        },
        None => {
            if id == FeatureId::Output {
                assert(report.subrange(2, 8) =~= seq![0x2cu8, 0x01, 0x01, 0x00, 0x00, 0x00]);
            } else if id == FeatureId::DacFilter {
                assert(report.subrange(2, 8) =~= seq![0x6cu8, 0x01, 0x01, 0x00, 0x00, 0x00]);
            } else {
                assert(report.subrange(2, 8) =~= seq![0x26u8, 0x03, 0x08, 0xff, 0xff, 0x00]);
            }
        },
    }
}

/// The bytes of a report that sets a feature of the signal processor: the number that is set
/// stands behind the family and the number of the feature, least significant byte first.
pub proof fn law_bytes_of_a_processor_write(id: FeatureId, value: Value)
    requires
        id.address() is Some,
    ensures
        ({
            let report = framed(write_body(id, value));
            &&& report.len() == 65
            &&& report[0] == 0x00 && report[1] == 0x5a
            &&& report[2] == 0x12 && report[3] == 0x07 && report[4] == 0x01
            &&& report[5] == 0x96
            &&& Some((report[5], report[6])) == id.address()
            &&& report[7] + 0x100 * report[8] + 0x1_0000 * report[9] + 0x100_0000 * report[10]
                == value.bits
            &&& forall|i: int| 11 <= i < 65 ==> #[trigger] report[i] == 0
        }),
{
    let report = framed(write_body(id, value));
    let bytes = le_bytes(value.bits);
    assert(report[7] == bytes[0] && report[8] == bytes[1] && report[9] == bytes[2] && report[10]
        == bytes[3]);
}

/// The report that sets the band `k` of the equalizer carries the number 0x0b + k.
pub proof fn law_bytes_of_a_band_write(k: int, value: Value)
    requires
        0 <= k < 10,
    ensures
        framed(
            write_body(
                seq![
                    FeatureId::Eq31Hz,
                    FeatureId::Eq62Hz,
                    FeatureId::Eq125Hz,
                    FeatureId::Eq250Hz,
                    FeatureId::Eq500Hz,
                    FeatureId::Eq1kHz,
                    FeatureId::Eq2kHz,
                    FeatureId::Eq4kHz,
                    FeatureId::Eq8kHz,
                    FeatureId::Eq16kHz,
                ][k],
                value,
            ),
        ).subrange(0, 7) == seq![0x00u8, 0x5a, 0x12, 0x07, 0x01, 0x96, (0x0b + k) as u8],
{
    let band = seq![
        FeatureId::Eq31Hz,
        FeatureId::Eq62Hz,
        FeatureId::Eq125Hz,
        FeatureId::Eq250Hz,
        FeatureId::Eq500Hz,
        FeatureId::Eq1kHz,
        FeatureId::Eq2kHz,
        FeatureId::Eq4kHz,
        FeatureId::Eq8kHz,
        FeatureId::Eq16kHz,
    ][k];
    law_bands_count_up(k, value);
    assert(framed(write_body(band, value)).subrange(0, 7) =~= seq![
        0x00u8,
        0x5a,
        0x12,
        0x07,
        0x01,
        0x96,
        (0x0b + k) as u8,
    ]);
}

/// The bytes of a report that sets one of the other features: a switch is on exactly if the
/// number is above zero, and a filter is counted from one, up to five.
pub proof fn law_bytes_of_another_write(id: FeatureId, value: Value, k: int)
    requires
        id.address() is None,
        1 <= k <= 3,
    ensures
        ({
            let report = framed(write_body(id, value));
            let on = !value.is_nan() && value.scaled() > 0;
            &&& report.len() == 65
            &&& report[0] == 0x00 && report[1] == 0x5a
            &&& id == FeatureId::SbxMaster ==> report.subrange(2, 8) == seq![
                0x26u8,
                0x05,
                0x07,
                0x01,
                0x00,
                if on {
                    0x01
                } else {
                    0x00
                },
            ]
            &&& id == FeatureId::ScoutMode ==> report.subrange(2, 8) == seq![
                0x26u8,
                0x05,
                0x07,
                0x02,
                0x00,
                if on {
                    0x01
                } else {
                    0x00
                },
            ]
            &&& id == FeatureId::Output ==> report.subrange(2, 6) == seq![
                0x2cu8,
                0x05,
                0x00,
                if on {
                    0x04
                } else {
                    0x02
                },
            ]
            &&& id == FeatureId::DacFilter ==> report.subrange(2, 5) == seq![0x6cu8, 0x03, 0x00] && (
            value.is_nan() || value.scaled() < unit() ==> report[5] == 1) && (!value.is_nan() && k
                * unit() <= value.scaled() < (k + 1) * unit() ==> report[5] == k + 1) && (
            !value.is_nan() && value.scaled() >= 4 * unit() ==> report[5] == 5)
            &&& forall|i: int| 8 <= i < 65 ==> #[trigger] report[i] == 0
        }),
{
    let report = framed(write_body(id, value));
    let body = write_body(id, value);
    if id == FeatureId::SbxMaster || id == FeatureId::ScoutMode {
        assert(report.subrange(2, 8) =~= body);
    } else if id == FeatureId::Output {
        assert(report.subrange(2, 6) =~= body);
    } else {
        assert(report.subrange(2, 5) =~= seq![0x6cu8, 0x03, 0x00]);
        assert(report[5] == filter_number(value));
        let u = unit();
        let m = crate::value::magnitude_units(value.magnitude());
        vstd::arithmetic::power2::lemma_pow2_pos(149);
        crate::value::lemma_units_nonnegative(value.magnitude());
        vstd::arithmetic::div_mod::lemma_fundamental_div_mod(m, u);
        let w = m / u;
        let r = m % u;
        assert(w >= 0 && (m < u ==> w == 0) && (k * u <= m < (k + 1) * u ==> w == k) && (m >= 4 * u
            ==> w >= 4)) by (nonlinear_arith)
            requires
                m == u * w + r,
                0 <= r < u,
                m >= 0,
        ;
    }
}

/// What an answer says. A feature of the signal processor has the number whose bytes the answer
/// holds, least significant first; the two switches are the lowest bits of one byte; the
/// output is off for 2 and on for 4, and any other mode is unknown; a filter is counted
/// from one.
pub proof fn law_what_an_answer_says(id: FeatureId, reply: Seq<u8>, reading: Reading)
    requires
        reply.len() == 64,
        is_reading(id, reply, reading),
    ensures
        id.address() is Some ==> (reading matches Reading::Known(v) && v.bits == reply[7] + 0x100
            * reply[8] + 0x1_0000 * reply[9] + 0x100_0000 * reply[10]),
        id == FeatureId::SbxMaster ==> (reading matches Reading::Known(v) && v.is_whole(
            (reply[6] % 2) as int,
        )),
        id == FeatureId::ScoutMode ==> (reading matches Reading::Known(v) && v.is_whole(
            ((reply[6] / 2) % 2) as int,
        )),
        id == FeatureId::Output ==> match reading {
            Reading::Known(v) => reply[4] == 2 && v.is_whole(0) || reply[4] == 4 && v.is_whole(1),
            Reading::UnknownMode(mode) => mode == reply[4] && mode != 2 && mode != 4,
        },
        id == FeatureId::DacFilter ==> (reading matches Reading::Known(v) && (reply[4] >= 1
            ==> v.is_whole(reply[4] - 1)) && (reply[4] == 0 ==> v.is_whole(0))),
{
    lemma_switch_values();
    if id.address() is Some {
        let v = reading->Known_0;
        let bytes = le_bytes(v.bits);
        assert(reply.subrange(7, 11)[0] == bytes[0] && reply.subrange(7, 11)[1] == bytes[1]
            && reply.subrange(7, 11)[2] == bytes[2] && reply.subrange(7, 11)[3] == bytes[3]);
    }
}

/// A read looks at no more than thirty reports, and waits half a second for each.
pub proof fn law_reads_are_bounded()
    ensures
        MAX_READ_ATTEMPTS == 30,
        READ_TIMEOUT_MS == 500,
        PROBE_TIMEOUT_MS == 300,
        forall|info: InterfaceInfo| #[trigger]
            info.is_control() <==> info.vendor == 0x041e && info.product == 0x3256 && info.interface
                == 4,
{
}

} // verus!
