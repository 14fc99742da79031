use vstd::prelude::*;

use super::{Error, Result};
use crate::asn1::decoder::{element_at, tag_at};
use crate::asn1::primitives::{bool_octets, uint_length_ok, uint_octets};
use crate::asn1::{
    append_tlv, append_uint, application_constructed, context_constructed, context_primitive,
    decode_bool, decode_uint, tlv, Decoder, Tag,
};
use crate::mms::codec::{data_octets_all, encodable, items_at, lossy_text};
use crate::mms::value::{all_views, lemma_views, lemma_views_of};
use crate::mms::{data_element, decode_data, Data, TimeQuality, Timestamp, Value};
use crate::octets::{be_bytes, be_value, push_be, read_be};
use crate::text::{decimal, from_utf8_lossy, push_decimal, push_str};
use vstd::slice::slice_subrange;
use vstd::utf8::encode_utf8;

verus! {

/// The fixed APDU header: APPID, Length, Reserved1, Reserved2.
pub const HEADER_LEN: usize = 8;

/// Frames the goosePdu after the APDU header.
#[verifier::allow_in_spec]
pub fn pdu_tag() -> Tag
    returns
        application_constructed(1),
{
    application_constructed(1)  // 0x61

}

/// Protocol irregularities a subscriber detects from the per-control-block
/// sequence state.
///
/// They are diagnostics, not part of the wire format, and are what turns a
/// silent failure (a publisher that restarted, a switch dropping frames) into
/// something an operator can see.
#[derive(Debug, Clone, Copy, PartialEq, Eq, Structural)]
pub struct Anomalies {
    /// The state number went backwards, which means the publisher restarted.
    pub st_num_regressed: bool,
    /// The sequence number skipped, or did not restart at zero on a new state.
    pub sq_num_gap: bool,
    /// The inter-arrival time exceeded the previous `timeAllowedToLive`.
    pub stale: bool,
    /// `numDatSetEntries` disagrees with the number of values in `allData`;
    /// the message's data cannot be trusted.
    pub entries_mismatch: bool,
}

impl Anomalies {
    /// Nothing is irregular.
    pub open spec fn clear() -> Anomalies {
        Anomalies {
            st_num_regressed: false,
            sq_num_gap: false,
            stale: false,
            entries_mismatch: false,
        }
    }

    /// Reports whether anything at all was flagged.
    pub fn any(self) -> (b: bool)
        ensures
            b == (self != Anomalies::clear()),
    {
        self.st_num_regressed || self.sq_num_gap || self.stale || self.entries_mismatch
    }
}

impl Default for Anomalies {
    fn default() -> (a: Anomalies)
        ensures
            a == Anomalies::clear(),
    {
        Anomalies {
            st_num_regressed: false,
            sq_num_gap: false,
            stale: false,
            entries_mismatch: false,
        }
    }
}

/// One GOOSE APDU.
///
/// On publish the publisher owns `t`, `st_num`, `sq_num` and
/// `time_allowed_to_live`; on receive, `anomalies` carries the subscriber's
/// per-control-block sequence checks and is not part of the wire format.
#[derive(Debug, PartialEq, Eq)]
pub struct Message {
    pub go_cb_ref: String,
    pub dat_set: String,
    pub go_id: String,
    /// Milliseconds until the subscriber should consider the value stale.
    pub time_allowed_to_live: u32,
    pub t: Option<Timestamp>,
    /// Increments on every state change.
    pub st_num: u32,
    /// Increments on every retransmission of one state, and restarts at zero
    /// when the state changes.
    pub sq_num: u32,
    pub conf_rev: u32,
    pub test: bool,
    pub nds_com: bool,
    pub num_dat_set_entries: u32,
    pub values: Vec<Value>,
    pub app_id: u16,
    pub anomalies: Anomalies,
}

/// What a message holds.
pub struct MessageView {
    pub go_cb_ref: Seq<char>,
    pub dat_set: Seq<char>,
    pub go_id: Seq<char>,
    pub time_allowed_to_live: u32,
    pub t: Option<Timestamp>,
    pub st_num: u32,
    pub sq_num: u32,
    pub conf_rev: u32,
    pub test: bool,
    pub nds_com: bool,
    pub num_dat_set_entries: u32,
    pub values: Seq<Data>,
    pub app_id: u16,
    pub anomalies: Anomalies,
}

impl View for Message {
    type V = MessageView;

    open spec fn view(&self) -> MessageView {
        MessageView {
            go_cb_ref: self.go_cb_ref@,
            dat_set: self.dat_set@,
            go_id: self.go_id@,
            time_allowed_to_live: self.time_allowed_to_live,
            t: self.t,
            st_num: self.st_num,
            sq_num: self.sq_num,
            conf_rev: self.conf_rev,
            test: self.test,
            nds_com: self.nds_com,
            num_dat_set_entries: self.num_dat_set_entries,
            values: all_views(self.values@),
            app_id: self.app_id,
            anomalies: self.anomalies,
        }
    }
}

impl Default for Message {
    fn default() -> (m: Message)
        ensures
            m@ == (MessageView {
                go_cb_ref: Seq::empty(),
                dat_set: Seq::empty(),
                go_id: Seq::empty(),
                time_allowed_to_live: 0,
                t: None,
                st_num: 0,
                sq_num: 0,
                conf_rev: 0,
                test: false,
                nds_com: false,
                num_dat_set_entries: 0,
                values: Seq::empty(),
                app_id: 0,
                anomalies: Anomalies::clear(),
            }),
    {
        Message {
            go_cb_ref: String::new(),
            dat_set: String::new(),
            go_id: String::new(),
            time_allowed_to_live: 0,
            t: None,
            st_num: 0,
            sq_num: 0,
            conf_rev: 0,
            test: false,
            nds_com: false,
            num_dat_set_entries: 0,
            values: Vec::new(),
            app_id: 0,
            anomalies: Anomalies::default(),
        }
    }
}

/// The octets of the state-change time: that of no time at all is zero.
pub open spec fn time_octets(t: Option<Timestamp>) -> Seq<u8> {
    match t {
        Some(t) => t.octets(TimeQuality(10)),
        None => Seq::new(8, |i: int| 0u8),
    }
}

impl MessageView {
    /// The fields of the goosePdu in order, each with its tag.
    #[verifier::opaque]
    pub open spec fn fields(self) -> Seq<(Tag, Seq<u8>)> {
        seq![
            (context_primitive(0), encode_utf8(self.go_cb_ref)),
            (context_primitive(1), uint_octets(self.time_allowed_to_live as nat)),
            (context_primitive(2), encode_utf8(self.dat_set)),
            (context_primitive(3), encode_utf8(self.go_id)),
            (context_primitive(4), time_octets(self.t)),
            (context_primitive(5), uint_octets(self.st_num as nat)),
            (context_primitive(6), uint_octets(self.sq_num as nat)),
            (context_primitive(7), bool_octets(self.test)),
            (context_primitive(8), uint_octets(self.conf_rev as nat)),
            (context_primitive(9), bool_octets(self.nds_com)),
            (context_primitive(10), uint_octets(self.num_dat_set_entries as nat)),
            (context_constructed(11), data_octets_all(self.values, self.values.len())),
        ]
    }

    /// The content of the goosePdu.
    pub open spec fn content(self) -> Seq<u8> {
        fields_octets(self.fields(), 12)
    }

    /// The full APDU: APPID, Length, two reserved words, then the
    /// `[APPLICATION 1]` goosePdu. A length beyond 16 bits is cut.
    pub open spec fn apdu(self) -> Seq<u8> {
        let pdu = tlv(pdu_tag(), self.content());
        be_bytes(self.app_id as nat, 2) + be_bytes(HEADER_LEN as nat + pdu.len(), 2) + seq![
            0u8,
            0,
            0,
            0,
        ] + pdu
    }
}

/// The first `n` of `fields` as elements, one after another.
#[verifier::opaque]
pub open spec fn fields_octets(fields: Seq<(Tag, Seq<u8>)>, n: nat) -> Seq<u8>
    decreases n,
{
    if n == 0 || n > fields.len() {
        Seq::empty()
    } else {
        fields_octets(fields, (n - 1) as nat) + tlv(fields[n - 1].0, fields[n - 1].1)
    }
}

/// One field more.
proof fn lemma_fields_step(fields: Seq<(Tag, Seq<u8>)>, n: nat)
    requires
        n < fields.len(),
    ensures
        fields_octets(fields, n + 1) == fields_octets(fields, n) + tlv(
            fields[n as int].0,
            fields[n as int].1,
        ),
{
    reveal(fields_octets);
}

/// The fields one by one.
proof fn lemma_fields(m: MessageView)
    ensures
        m.fields().len() == 12,
        m.fields()[0] == (context_primitive(0), encode_utf8(m.go_cb_ref)),
        m.fields()[1] == (context_primitive(1), uint_octets(m.time_allowed_to_live as nat)),
        m.fields()[2] == (context_primitive(2), encode_utf8(m.dat_set)),
        m.fields()[3] == (context_primitive(3), encode_utf8(m.go_id)),
        m.fields()[4] == (context_primitive(4), time_octets(m.t)),
        m.fields()[5] == (context_primitive(5), uint_octets(m.st_num as nat)),
        m.fields()[6] == (context_primitive(6), uint_octets(m.sq_num as nat)),
        m.fields()[7] == (context_primitive(7), bool_octets(m.test)),
        m.fields()[8] == (context_primitive(8), uint_octets(m.conf_rev as nat)),
        m.fields()[9] == (context_primitive(9), bool_octets(m.nds_com)),
        m.fields()[10] == (context_primitive(10), uint_octets(m.num_dat_set_entries as nat)),
        m.fields()[11] == (
            context_constructed(11),
            data_octets_all(m.values, m.values.len()),
        ),
        fields_octets(m.fields(), 0).len() == 0,
{
    reveal(MessageView::fields);
    reveal(fields_octets);
}

fn append_uint_field(dst: &mut Vec<u8>, t: Tag, v: u32)
    ensures
        final(dst)@ == old(dst)@ + tlv(t, uint_octets(v as nat)),
{
    let mut b: Vec<u8> = Vec::new();
    append_uint(&mut b, v as u64);
    assert(b@ =~= uint_octets(v as nat));
    append_tlv(dst, t, b.as_slice());
}

fn append_bool_field(dst: &mut Vec<u8>, t: Tag, v: bool)
    ensures
        final(dst)@ == old(dst)@ + tlv(t, bool_octets(v)),
{
    let b: [u8; 1] = [if v { 0xff } else { 0 }];
    assert(b@ =~= bool_octets(v));
    append_tlv(dst, t, b.as_slice());
}

impl Message {
    /// Encodes the full APDU: APPID, Length, two reserved words, then the
    /// `[APPLICATION 1]` goosePdu.
    pub fn marshal(&self) -> (buf: Vec<u8>)
        requires
            data_octets_all(self@.values, self@.values.len()).len() <= usize::MAX,
        ensures
            buf@ == self@.apdu(),
    {
        let mut c: Vec<u8> = Vec::new();
        self.append_head(&mut c);
        self.append_state(&mut c);
        let all = self.all_data();
        proof {
            lemma_fields(self@);
            lemma_fields_step(self@.fields(), 11);
        }
        append_tlv(&mut c, context_constructed(11), all.as_slice());

        let mut pdu: Vec<u8> = Vec::new();
        append_tlv(&mut pdu, pdu_tag(), c.as_slice());
        assert(pdu@ =~= tlv(pdu_tag(), self@.content()));
        let mut buf: Vec<u8> = Vec::new();
        push_be(&mut buf, self.app_id as u64, 2);
        let length: usize = pdu.len() % 65536 + HEADER_LEN;
        push_be(&mut buf, length as u64, 2);
        proof {
            lemma_be_bytes_2(length as nat, HEADER_LEN as nat + pdu@.len());
        }
        push_be(&mut buf, 0, 4);
        proof {
            assert(be_bytes(0, 4) =~= seq![0u8, 0, 0, 0]) by {
                reveal_with_fuel(be_bytes, 5);
            }
        }
        buf.extend_from_slice(pdu.as_slice());
        assert(buf@ =~= self@.apdu());
        buf
    }

    /// Appends what identifies the stream.
    fn append_head(&self, c: &mut Vec<u8>)
        requires
            old(c)@.len() == 0,
        ensures
            final(c)@ == fields_octets(self@.fields(), 4),
    {
        let ghost fs = self@.fields();
        proof {
            lemma_fields(self@);
            assert(c@ =~= fields_octets(fs, 0));
            lemma_fields_step(fs, 0);
            lemma_fields_step(fs, 1);
            lemma_fields_step(fs, 2);
            lemma_fields_step(fs, 3);
        }
        append_tlv(c, context_primitive(0), self.go_cb_ref.as_str().as_bytes());
        append_uint_field(c, context_primitive(1), self.time_allowed_to_live);
        append_tlv(c, context_primitive(2), self.dat_set.as_str().as_bytes());
        append_tlv(c, context_primitive(3), self.go_id.as_str().as_bytes());
    }

    /// Appends the state and its counters.
    fn append_state(&self, c: &mut Vec<u8>)
        requires
            old(c)@ == fields_octets(self@.fields(), 4),
        ensures
            final(c)@ == fields_octets(self@.fields(), 11),
    {
        let ghost fs = self@.fields();
        proof {
            lemma_fields(self@);
        }
        self.append_time(c);
        proof {
            lemma_fields_step(fs, 4);
        }
        append_uint_field(c, context_primitive(5), self.st_num);
        proof {
            lemma_fields_step(fs, 5);
        }
        append_uint_field(c, context_primitive(6), self.sq_num);
        proof {
            lemma_fields_step(fs, 6);
        }
        append_bool_field(c, context_primitive(7), self.test);
        proof {
            lemma_fields_step(fs, 7);
        }
        append_uint_field(c, context_primitive(8), self.conf_rev);
        proof {
            lemma_fields_step(fs, 8);
        }
        append_bool_field(c, context_primitive(9), self.nds_com);
        proof {
            lemma_fields_step(fs, 9);
        }
        append_uint_field(c, context_primitive(10), self.num_dat_set_entries);
        proof {
            lemma_fields_step(fs, 10);
        }
    }

    /// Appends the state-change time.
    fn append_time(&self, c: &mut Vec<u8>)
        ensures
            final(c)@ == old(c)@ + tlv(context_primitive(4), time_octets(self.t)),
    {
        let t = match self.t {
            Some(t) => Value::utc_time(t, TimeQuality(10)).bytes(),
            None => {
                let z = Value::UtcTime([0, 0, 0, 0, 0, 0, 0, 0]).bytes();
                assert(z@ =~= time_octets(None));
                z
            },
        };
        append_tlv(c, context_primitive(4), t.as_slice());
    }

    /// The encodings of the dataset values, one after another.
    fn all_data(&self) -> (b: Vec<u8>)
        requires
            data_octets_all(self@.values, self@.values.len()).len() <= usize::MAX,
        ensures
            b@ == data_octets_all(self@.values, self@.values.len()),
    {
        let mut b: Vec<u8> = Vec::new();
        let mut i: usize = 0;
        let ghost vs = self@.values;
        proof {
            lemma_views(self.values@, self.values@.len());
        }
        while i < self.values.len()
            invariant
                i <= self.values@.len(),
                vs == self@.values,
                vs.len() == self.values@.len(),
                forall|j: int| 0 <= j < vs.len() ==> #[trigger] vs[j] == self.values@[j]@,
                b@ == data_octets_all(vs, i as nat),
                data_octets_all(vs, vs.len()).len() <= usize::MAX,
            decreases self.values@.len() - i,
        {
            proof {
                crate::mms::codec::lemma_octets_all_part(vs, i as nat + 1, vs.len());
                assert(data_octets_all(vs, i as nat + 1) == data_octets_all(vs, i as nat)
                    + crate::mms::codec::data_octets(vs[i as int]));
            }
            if let Some(e) = data_element(&self.values[i]) {
                e.append(&mut b);
            }
            assert(b@ =~= data_octets_all(vs, i as nat + 1));
            i = i + 1;
        }
        b
    }
}

/// Two octets hold a number modulo 65536.
proof fn lemma_be_bytes_2(a: nat, b: nat)
    requires
        a % 65536 == b % 65536,
    ensures
        be_bytes(a, 2) == be_bytes(b, 2),
{
    reveal_with_fuel(be_bytes, 3);
    assert(a % 256 == b % 256);
    assert(a / 256 % 256 == b / 256 % 256);
}

/// A name in front of a message.
pub open spec fn named(name: Seq<char>, text: Seq<char>) -> Seq<char> {
    name + ": "@ + text
}

/// The content of the element at `off`, which must have tag `t`, and where it
/// ends; or the message of the error.
pub open spec fn content_at(c: Seq<u8>, off: int, t: Tag) -> std::result::Result<
    (Seq<u8>, int),
    Seq<char>,
> {
    let s = element_at(c, off, 0);
    match s.result {
        Err(e) => Err(e.text()),
        Ok((got, a, b)) => if got == t {
            Ok((c.subrange(a, b), s.off))
        } else {
            Err(
                (crate::asn1::Error::Unexpected { expected: t, got, offset: off as usize }).text(),
            )
        },
    }
}

/// The content of the element at `off` where it has tag `t`, and where it
/// ends; nothing is consumed where it is absent.
pub open spec fn optional_at(c: Seq<u8>, off: int, t: Tag) -> std::result::Result<
    (Option<Seq<u8>>, int),
    Seq<char>,
> {
    if off >= c.len() {
        Ok((None, off))
    } else {
        match tag_at(c, off).result {
            Err(e) => Err(e.text()),
            Ok(got) => if got != t {
                Ok((None, off))
            } else {
                match element_at(c, off, 0).result {
                    Err(e) => Err(e.text()),
                    Ok((_, a, b)) => Ok((Some(c.subrange(a, b)), element_at(c, off, 0).off)),
                }
            },
        }
    }
}

/// A string field.
pub open spec fn text_at(c: Seq<u8>, off: int, n: u32, name: Seq<char>) -> std::result::Result<
    (Seq<char>, int),
    Seq<char>,
> {
    match content_at(c, off, context_primitive(n)) {
        Err(e) => Err(named(name, e)),
        Ok((b, next)) => Ok((lossy_text(b), next)),
    }
}

/// An unsigned 32-bit field.
pub open spec fn uint_at(c: Seq<u8>, off: int, n: u32, name: Seq<char>) -> std::result::Result<
    (u32, int),
    Seq<char>,
> {
    match content_at(c, off, context_primitive(n)) {
        Err(e) => Err(named(name, e)),
        Ok((b, next)) => if !uint_length_ok(b) {
            Err(
                named(
                    name,
                    "asn1: malformed value ("@ + (if b.len() == 0 {
                        "empty unsigned"@
                    } else {
                        "unsigned of "@ + decimal(b.len()) + " octets"@
                    }) + ")"@,
                ),
            )
        } else if be_value(b) > u32::MAX {
            Err(name + " out of range"@)
        } else {
            Ok((be_value(b) as u32, next))
        },
    }
}

/// An optional boolean field, false where it is absent.
pub open spec fn flag_at(c: Seq<u8>, off: int, n: u32, name: Seq<char>) -> std::result::Result<
    (bool, int),
    Seq<char>,
> {
    match optional_at(c, off, context_primitive(n)) {
        Err(e) => Err(e),
        Ok((None, next)) => Ok((false, next)),
        Ok((Some(b), next)) => if b.len() == 1 {
            Ok((b[0] != 0, next))
        } else {
            Err(
                named(
                    name,
                    "asn1: malformed value ("@ + ("boolean of "@ + decimal(b.len()) + " octets"@)
                        + ")"@,
                ),
            )
        },
    }
}

/// The state-change time.
pub open spec fn moment_at(c: Seq<u8>, off: int) -> std::result::Result<
    (Timestamp, int),
    Seq<char>,
> {
    match content_at(c, off, context_primitive(4)) {
        Err(e) => Err(named("t"@, e)),
        Ok((b, next)) => if b.len() == 8 {
            Ok((Timestamp::of_octets(b), next))
        } else {
            Err(
                named(
                    "t"@,
                    "asn1: malformed value ("@ + ("UTC time of "@ + decimal(b.len()) + " octets"@)
                        + ")"@,
                ),
            )
        },
    }
}

/// The dataset values in `c` from `off` on, of which `k` lie before it.
pub open spec fn members_at(c: Seq<u8>, off: int, k: nat) -> std::result::Result<
    Seq<Data>,
    Seq<char>,
>
    decreases c.len() - off,
{
    if off >= c.len() {
        Ok(Seq::empty())
    } else {
        match crate::mms::codec::data_at(c, off) {
            Err(e) => Err(named("allData member "@ + decimal(k), e)),
            Ok(d) => {
                let next = element_at(c, off, 0).off;
                if !(off < next <= c.len()) {
                    arbitrary()
                } else {
                    match members_at(c, next, k + 1) {
                        Err(e) => Err(e),
                        Ok(rest) => Ok(seq![d] + rest),
                    }
                }
            },
        }
    }
}

/// The first part of the goosePdu: what identifies the stream.
pub struct Head {
    pub go_cb_ref: Seq<char>,
    pub time_allowed_to_live: u32,
    pub dat_set: Seq<char>,
    pub go_id: Seq<char>,
}

/// Reads the first part of the goosePdu. The goID is optional.
pub open spec fn head_at(c: Seq<u8>) -> std::result::Result<(Head, int), Seq<char>> {
    match text_at(c, 0, 0, "gocbRef"@) {
        Err(e) => Err(e),
        Ok((go_cb_ref, o1)) => match uint_at(c, o1, 1, "timeAllowedToLive"@) {
            Err(e) => Err(e),
            Ok((time_allowed_to_live, o2)) => match text_at(c, o2, 2, "datSet"@) {
                Err(e) => Err(e),
                Ok((dat_set, o3)) => match optional_at(c, o3, context_primitive(3)) {
                    Err(e) => Err(e),
                    Ok((id, o4)) => Ok(
                        (
                            Head {
                                go_cb_ref,
                                time_allowed_to_live,
                                dat_set,
                                go_id: match id {
                                    Some(b) => lossy_text(b),
                                    None => Seq::empty(),
                                },
                            },
                            o4,
                        ),
                    ),
                },
            },
        },
    }
}

/// The second part of the goosePdu: the state and its counters.
pub struct State {
    pub t: Timestamp,
    pub st_num: u32,
    pub sq_num: u32,
    pub test: bool,
    pub conf_rev: u32,
    pub nds_com: bool,
    pub num_dat_set_entries: u32,
}

/// Reads the second part of the goosePdu. The two flags are optional.
pub open spec fn state_at(c: Seq<u8>, off: int) -> std::result::Result<(State, int), Seq<char>> {
    match moment_at(c, off) {
        Err(e) => Err(e),
        Ok((t, o1)) => match uint_at(c, o1, 5, "stNum"@) {
            Err(e) => Err(e),
            Ok((st_num, o2)) => match uint_at(c, o2, 6, "sqNum"@) {
                Err(e) => Err(e),
                Ok((sq_num, o3)) => match flag_at(c, o3, 7, "test"@) {
                    Err(e) => Err(e),
                    Ok((test, o4)) => match uint_at(c, o4, 8, "confRev"@) {
                        Err(e) => Err(e),
                        Ok((conf_rev, o5)) => match flag_at(c, o5, 9, "ndsCom"@) {
                            Err(e) => Err(e),
                            Ok((nds_com, o6)) => match uint_at(c, o6, 10, "numDatSetEntries"@) {
                                Err(e) => Err(e),
                                Ok((num_dat_set_entries, o7)) => Ok(
                                    (
                                        State {
                                            t,
                                            st_num,
                                            sq_num,
                                            test,
                                            conf_rev,
                                            nds_com,
                                            num_dat_set_entries,
                                        },
                                        o7,
                                    ),
                                ),
                            },
                        },
                    },
                },
            },
        },
    }
}

/// What the content of a goosePdu stands for. Fields behind the values are
/// ignored.
pub open spec fn pdu_of(c: Seq<u8>, app_id: u16) -> std::result::Result<MessageView, Seq<char>> {
    match head_at(c) {
        Err(e) => Err(e),
        Ok((h, o1)) => match state_at(c, o1) {
            Err(e) => Err(e),
            Ok((s, o2)) => match content_at(c, o2, context_constructed(11)) {
                Err(e) => Err(named("allData"@, e)),
                Ok((all, _)) => match members_at(all, 0, 0) {
                    Err(e) => Err(e),
                    Ok(values) => Ok(
                        MessageView {
                            go_cb_ref: h.go_cb_ref,
                            dat_set: h.dat_set,
                            go_id: h.go_id,
                            time_allowed_to_live: h.time_allowed_to_live,
                            t: Some(s.t),
                            st_num: s.st_num,
                            sq_num: s.sq_num,
                            conf_rev: s.conf_rev,
                            test: s.test,
                            nds_com: s.nds_com,
                            num_dat_set_entries: s.num_dat_set_entries,
                            values,
                            app_id,
                            anomalies: Anomalies::clear(),
                        },
                    ),
                },
            },
        },
    }
}

/// What a GOOSE APDU stands for, or the message of the error that refuses it.
///
/// The length field covers the header and the PDU, and a publisher may pad the
/// frame beyond it, so it bounds the decode rather than the buffer doing so.
#[verifier::opaque]
pub open spec fn message_of(apdu: Seq<u8>) -> std::result::Result<MessageView, Seq<char>> {
    if apdu.len() < HEADER_LEN {
        Err("apdu of "@ + decimal(apdu.len()) + " octets is truncated"@)
    } else {
        let app_id = be_value(apdu.subrange(0, 2)) as u16;
        let length = be_value(apdu.subrange(2, 4));
        if length < HEADER_LEN || length > apdu.len() {
            Err(
                "length field "@ + decimal(length) + " in an apdu of "@ + decimal(apdu.len())
                    + " octets"@,
            )
        } else {
            match content_at(apdu.subrange(HEADER_LEN as int, length as int), 0, pdu_tag()) {
                Err(e) => Err(e),
                Ok((c, _)) => pdu_of(c, app_id),
            }
        }
    }
}

/// The error `"<name>: <message of e>"`.
fn named_error(name: &str, e: &crate::asn1::Error) -> (r: Error)
    ensures
        r matches Error::Codec(s) && s@ == named(name@, e.text()),
{
    let mut s = name.to_owned();
    push_str(&mut s, ": ");
    push_str(&mut s, e.to_text().as_str());
    Error::Codec(s)
}

/// Whether a step that read a field of `before` came to `r` and left the
/// cursor at `after`, as `want` says.
pub open spec fn field_read<T>(
    before: Decoder,
    after: Decoder,
    r: Result<T>,
    want: std::result::Result<(T, int), Seq<char>>,
) -> bool {
    &&& after.wf()
    &&& after.bytes() == before.bytes()
    &&& match (r, want) {
        (Ok(v), Ok((w, next))) => v == w && after.pos() == next,
        (Err(Error::Codec(m)), Err(t)) => m@ == t,
        _ => false,
    }
}

/// Consumes a context-primitive string field.
fn string_field(d: &mut Decoder<'_>, tag: u32, name: &str) -> (r: Result<String>)
    requires
        old(d).wf(),
    ensures
        final(d).wf(),
        final(d).bytes() == old(d).bytes(),
        match (r, text_at(old(d).bytes(), old(d).pos(), tag, name@)) {
            (Ok(v), Ok((w, next))) => v@ == w && final(d).pos() == next,
            (Err(Error::Codec(m)), Err(t)) => m@ == t,
            _ => false,
        },
{
    match d.expect(context_primitive(tag)) {
        Ok(b) => Ok(from_utf8_lossy(b)),
        Err(e) => Err(named_error(name, &e)),
    }
}

/// Consumes a context-primitive unsigned INTEGER field.
fn uint32_field(d: &mut Decoder<'_>, tag: u32, name: &str) -> (r: Result<u32>)
    requires
        old(d).wf(),
    ensures
        field_read(*old(d), *final(d), r, uint_at(old(d).bytes(), old(d).pos(), tag, name@)),
{
    let b = match d.expect(context_primitive(tag)) {
        Ok(b) => b,
        Err(e) => return Err(named_error(name, &e)),
    };
    let v: u64 = match decode_uint(b) {
        Ok(v) => v,
        Err(e) => return Err(named_error(name, &e)),
    };
    if v > u32::MAX as u64 {
        let mut s = name.to_owned();
        push_str(&mut s, " out of range");
        return Err(Error::Codec(s));
    }
    Ok(v as u32)
}

/// Consumes an optional context-primitive BOOLEAN field, false where absent.
fn flag_field(d: &mut Decoder<'_>, tag: u32, name: &str) -> (r: Result<bool>)
    requires
        old(d).wf(),
    ensures
        field_read(*old(d), *final(d), r, flag_at(old(d).bytes(), old(d).pos(), tag, name@)),
{
    match d.optional(context_primitive(tag)) {
        Ok(None) => Ok(false),
        Ok(Some(b)) => match decode_bool(b) {
            Ok(v) => Ok(v),
            Err(e) => Err(named_error(name, &e)),
        },
        Err(e) => Err(Error::Codec(e.to_text())),
    }
}

/// Consumes the state-change time.
fn time_field(d: &mut Decoder<'_>) -> (r: Result<Timestamp>)
    requires
        old(d).wf(),
    ensures
        field_read(*old(d), *final(d), r, moment_at(old(d).bytes(), old(d).pos())),
{
    let b = match d.expect(context_primitive(4)) {
        Ok(b) => b,
        Err(e) => return Err(named_error("t", &e)),
    };
    match Value::utc_time_raw(b) {
        Ok(v) => match v.time() {
            Some(t) => Ok(t),
            None => {
                assert(false);
                Ok(Timestamp { seconds: 0, fraction: 0 })
            },
        },
        Err(e) => Err(named_error("t", &e)),
    }
}

/// Decodes the dataset values.
fn members(content: &[u8]) -> (r: Result<Vec<Value>>)
    requires
        content@.len() * 8 <= usize::MAX,
    ensures
        match (r, members_at(content@, 0, 0)) {
            (Ok(v), Ok(w)) => all_views(v@) == w,
            (Err(Error::Codec(m)), Err(t)) => m@ == t,
            _ => false,
        },
{
    let mut d = Decoder::new(content);
    let mut values: Vec<Value> = Vec::new();
    let ghost mut done: Seq<Data> = Seq::empty();
    while d.more()
        invariant
            d.wf(),
            d.bytes() == content@,
            content@.len() * 8 <= usize::MAX,
            done.len() == values@.len(),
            forall|i: int| 0 <= i < values@.len() ==> (#[trigger] values@[i])@ == done[i],
            match (members_at(content@, 0, 0), members_at(content@, d.pos(), done.len())) {
                (Ok(all), Ok(rest)) => all == done + rest,
                (Err(e), Err(e2)) => e == e2,
                _ => false,
            },
        decreases content@.len() - d.pos(),
    {
        proof {
            crate::asn1::decoder::lemma_element_at_off(content@, d.pos(), 0);
        }
        match decode_data(&mut d) {
            Ok(v) => {
                proof {
                    let before = done;
                    done = done.push(v@);
                    if let Ok(rest) = members_at(content@, d.pos(), done.len()) {
                        assert(before + (seq![v@] + rest) =~= done + rest);
                    }
                }
                values.push(v);
            },
            Err(e) => {
                let mut s = "allData member ".to_owned();
                push_decimal(&mut s, values.len() as u64);
                return Err(named_error(s.as_str(), &e));
            },
        }
    }
    proof {
        assert(done + Seq::<Data>::empty() =~= done);
        lemma_views_of(values@, done);
    }
    Ok(values)
}

/// Decodes what identifies the stream: the control block reference, the time
/// allowed to live, the dataset and the goID.
fn parse_head(d: &mut Decoder<'_>) -> (r: Result<(String, u32, String, String)>)
    requires
        old(d).wf(),
        old(d).pos() == 0,
    ensures
        final(d).wf(),
        final(d).bytes() == old(d).bytes(),
        match (r, head_at(old(d).bytes())) {
            (Ok((cb, tatl, ds, id)), Ok((h, next))) => {
                &&& cb@ == h.go_cb_ref
                &&& tatl == h.time_allowed_to_live
                &&& ds@ == h.dat_set
                &&& id@ == h.go_id
                &&& final(d).pos() == next
            },
            (Err(Error::Codec(m)), Err(t)) => m@ == t,
            _ => false,
        },
{
    let go_cb_ref = match string_field(d, 0, "gocbRef") {
        Ok(v) => v,
        Err(e) => return Err(e),
    };
    let time_allowed_to_live: u32 = match uint32_field(d, 1, "timeAllowedToLive") {
        Ok(v) => v,
        Err(e) => return Err(e),
    };
    let dat_set = match string_field(d, 2, "datSet") {
        Ok(v) => v,
        Err(e) => return Err(e),
    };
    // goID is optional: some publishers omit it and the control block
    // reference identifies the stream on its own.
    let go_id = match d.optional(context_primitive(3)) {
        Ok(Some(b)) => from_utf8_lossy(b),
        Ok(None) => String::new(),
        Err(e) => return Err(Error::Codec(e.to_text())),
    };
    Ok((go_cb_ref, time_allowed_to_live, dat_set, go_id))
}

/// Decodes the state and its counters.
fn parse_state(d: &mut Decoder<'_>) -> (r: Result<State>)
    requires
        old(d).wf(),
    ensures
        field_read(*old(d), *final(d), r, state_at(old(d).bytes(), old(d).pos())),
{
    let t = match time_field(d) {
        Ok(v) => v,
        Err(e) => return Err(e),
    };
    let st_num: u32 = match uint32_field(d, 5, "stNum") {
        Ok(v) => v,
        Err(e) => return Err(e),
    };
    let sq_num: u32 = match uint32_field(d, 6, "sqNum") {
        Ok(v) => v,
        Err(e) => return Err(e),
    };
    let test = match flag_field(d, 7, "test") {
        Ok(v) => v,
        Err(e) => return Err(e),
    };
    let conf_rev: u32 = match uint32_field(d, 8, "confRev") {
        Ok(v) => v,
        Err(e) => return Err(e),
    };
    let nds_com = match flag_field(d, 9, "ndsCom") {
        Ok(v) => v,
        Err(e) => return Err(e),
    };
    let num_dat_set_entries: u32 = match uint32_field(d, 10, "numDatSetEntries") {
        Ok(v) => v,
        Err(e) => return Err(e),
    };
    Ok(State { t, st_num, sq_num, test, conf_rev, nds_com, num_dat_set_entries })
}

/// Decodes the content of a goosePdu.
fn parse_pdu(content: &[u8], app_id: u16) -> (r: Result<Message>)
    requires
        content@.len() * 8 <= usize::MAX,
    ensures
        match (r, pdu_of(content@, app_id)) {
            (Ok(m), Ok(v)) => m@ == v,
            (Err(Error::Codec(m)), Err(t)) => m@ == t,
            _ => false,
        },
{
    let mut d = Decoder::new(content);
    let (go_cb_ref, time_allowed_to_live, dat_set, go_id) = match parse_head(&mut d) {
        Ok(v) => v,
        Err(e) => return Err(e),
    };
    let s = match parse_state(&mut d) {
        Ok(v) => v,
        Err(e) => return Err(e),
    };
    proof {
        crate::asn1::decoder::lemma_element_at_off(content@, d.pos(), 0);
    }
    let all = match d.expect(context_constructed(11)) {
        Ok(b) => b,
        Err(e) => return Err(named_error("allData", &e)),
    };
    // Trailing fields, for example [12] security, are ignored.
    match members(all) {
        Ok(values) => Ok(
            Message {
                go_cb_ref,
                dat_set,
                go_id,
                time_allowed_to_live,
                t: Some(s.t),
                st_num: s.st_num,
                sq_num: s.sq_num,
                conf_rev: s.conf_rev,
                test: s.test,
                nds_com: s.nds_com,
                num_dat_set_entries: s.num_dat_set_entries,
                values,
                app_id,
                anomalies: Anomalies::default(),
            },
        ),
        Err(e) => Err(e),
    }
}

fn read_u16(b: &[u8], i: usize) -> (v: u16)
    requires
        i + 2 <= b@.len() <= usize::MAX,
    ensures
        v == be_value(b@.subrange(i as int, i + 2)),
{
    let s = slice_subrange(b, i, i + 2);
    proof {
        crate::octets::lemma_be_value_round_trip(s@);
        crate::octets::lemma_pow256_small();
    }
    read_be(s) as u16
}

/// Decodes a GOOSE APDU, the Ethernet payload after the EtherType.
pub fn parse(apdu: &[u8]) -> (r: Result<Message>)
    ensures
        match (r, message_of(apdu@)) {
            (Ok(m), Ok(v)) => m@ == v,
            (Err(Error::Codec(m)), Err(t)) => m@ == t,
            _ => false,
        },
{
    reveal(message_of);
    if apdu.len() < HEADER_LEN {
        let mut s = "apdu of ".to_owned();
        push_decimal(&mut s, apdu.len() as u64);
        push_str(&mut s, " octets is truncated");
        return Err(Error::Codec(s));
    }
    let app_id: u16 = read_u16(apdu, 0);
    let length: usize = read_u16(apdu, 2) as usize;
    if length < HEADER_LEN || length > apdu.len() {
        let mut s = "length field ".to_owned();
        push_decimal(&mut s, length as u64);
        push_str(&mut s, " in an apdu of ");
        push_decimal(&mut s, apdu.len() as u64);
        push_str(&mut s, " octets");
        return Err(Error::Codec(s));
    }
    let mut outer = Decoder::new(slice_subrange(apdu, HEADER_LEN, length));
    proof {
        crate::asn1::decoder::lemma_element_at_off(outer.bytes(), 0, 0);
    }
    match outer.expect(pdu_tag()) {
        Ok(content) => parse_pdu(content, app_id),
        Err(e) => Err(Error::Codec(e.to_text())),
    }
}

/// The first fields begin all of them.
proof fn lemma_fields_prefix(fs: Seq<(Tag, Seq<u8>)>, i: nat, n: nat)
    requires
        i <= n <= fs.len(),
    ensures
        fields_octets(fs, i).len() <= fields_octets(fs, n).len(),
        fields_octets(fs, n).take(fields_octets(fs, i).len() as int) == fields_octets(fs, i),
    decreases n,
{
    reveal(fields_octets);
    if i < n {
        lemma_fields_prefix(fs, i, (n - 1) as nat);
        assert(fields_octets(fs, n).take(fields_octets(fs, i).len() as int) =~= fields_octets(
            fs,
            (n - 1) as nat,
        ).take(fields_octets(fs, i).len() as int));
    } else {
        assert(fields_octets(fs, n).take(fields_octets(fs, n).len() as int) =~= fields_octets(
            fs,
            n,
        ));
    }
}

/// A field that was written reads back in its place.
proof fn lemma_field_reads(fs: Seq<(Tag, Seq<u8>)>, i: nat, n: nat)
    requires
        i < n <= fs.len(),
        fields_octets(fs, n).len() <= u32::MAX,
    ensures
        content_at(fields_octets(fs, n), fields_octets(fs, i).len() as int, fs[i as int].0) == Ok::<
            (Seq<u8>, int),
            Seq<char>,
        >((fs[i as int].1, fields_octets(fs, i + 1).len() as int)),
        optional_at(fields_octets(fs, n), fields_octets(fs, i).len() as int, fs[i as int].0)
            == Ok::<(Option<Seq<u8>>, int), Seq<char>>(
            (Some(fs[i as int].1), fields_octets(fs, i + 1).len() as int),
        ),
{
    let c = fields_octets(fs, n);
    let p = fields_octets(fs, i);
    let q = fields_octets(fs, i + 1);
    let t = fs[i as int].0;
    let b = fs[i as int].1;
    let r = c.skip(q.len() as int);
    lemma_fields_step(fs, i);
    assert(c == p + tlv(t, b) + r) by {
        lemma_fields_prefix(fs, i + 1, n);
        assert(c =~= c.take(q.len() as int) + r);
    }
    lemma_one_reads(p, t, b, r);
}

/// An element that was written reads back as a field in its place.
proof fn lemma_one_reads(p: Seq<u8>, t: Tag, b: Seq<u8>, r: Seq<u8>)
    requires
        (p + tlv(t, b) + r).len() <= u32::MAX,
    ensures
        content_at(p + tlv(t, b) + r, p.len() as int, t) == Ok::<(Seq<u8>, int), Seq<char>>(
            (b, (p + tlv(t, b)).len() as int),
        ),
        optional_at(p + tlv(t, b) + r, p.len() as int, t) == Ok::<
            (Option<Seq<u8>>, int),
            Seq<char>,
        >((Some(b), (p + tlv(t, b)).len() as int)),
{
    let c = p + tlv(t, b) + r;
    let l = crate::asn1::length_octets(b.len());
    assert(t.octets().len() >= 1);
    assert(c == p + t.octets() + (l + b + r)) by {
        assert(c =~= p + t.octets() + (l + b + r));
    }
    assert(tag_at(c, p.len() as int).result == Ok::<Tag, crate::asn1::Error>(t)) by {
        crate::asn1::decoder::tag_round_trip(p, t, l + b + r);
    }
    crate::asn1::decoder::element_round_trip(p, t, b, r);
}

/// Dataset values that read as a list read as the members of a message.
proof fn lemma_members(c: Seq<u8>, off: int, k: nat, items: Seq<Data>)
    requires
        0 <= off <= c.len() <= usize::MAX,
        items_at(c, off) == Ok::<Seq<Data>, Seq<char>>(items),
    ensures
        members_at(c, off, k) == Ok::<Seq<Data>, Seq<char>>(items),
    decreases c.len() - off,
{
    if off < c.len() {
        crate::asn1::decoder::lemma_element_at_off(c, off, 0);
        let s = element_at(c, off, 0);
        let rest = items_at(c, s.off)->Ok_0;
        lemma_members(c, s.off, k + 1, rest);
    }
}

/// An unsigned field that was written reads back.
proof fn lemma_uint_reads(fs: Seq<(Tag, Seq<u8>)>, i: nat, n: u32, v: u32, name: Seq<char>)
    requires
        i < 12 == fs.len(),
        fields_octets(fs, 12).len() <= u32::MAX,
        fs[i as int] == (context_primitive(n), uint_octets(v as nat)),
    ensures
        uint_at(fields_octets(fs, 12), fields_octets(fs, i).len() as int, n, name) == Ok::<
            (u32, int),
            Seq<char>,
        >((v, fields_octets(fs, i + 1).len() as int)),
{
    lemma_field_reads(fs, i, 12);
    crate::asn1::primitives::uint_round_trip(v as u64);
}

/// A flag that was written reads back.
proof fn lemma_flag_reads(fs: Seq<(Tag, Seq<u8>)>, i: nat, n: u32, v: bool, name: Seq<char>)
    requires
        i < 12 == fs.len(),
        fields_octets(fs, 12).len() <= u32::MAX,
        fs[i as int] == (context_primitive(n), bool_octets(v)),
    ensures
        flag_at(fields_octets(fs, 12), fields_octets(fs, i).len() as int, n, name) == Ok::<
            (bool, int),
            Seq<char>,
        >((v, fields_octets(fs, i + 1).len() as int)),
{
    lemma_field_reads(fs, i, 12);
}

/// A string that was written reads back.
proof fn lemma_text_reads(fs: Seq<(Tag, Seq<u8>)>, i: nat, n: u32, v: Seq<char>, name: Seq<char>)
    requires
        i < 12 == fs.len(),
        fields_octets(fs, 12).len() <= u32::MAX,
        fs[i as int] == (context_primitive(n), encode_utf8(v)),
    ensures
        text_at(fields_octets(fs, 12), fields_octets(fs, i).len() as int, n, name) == Ok::<
            (Seq<char>, int),
            Seq<char>,
        >((v, fields_octets(fs, i + 1).len() as int)),
{
    lemma_field_reads(fs, i, 12);
    lemma_text(v);
}

/// Reading the head of a PDU gives what was written.
proof fn lemma_head(m: MessageView)
    requires
        m.content().len() <= u32::MAX,
    ensures
        head_at(m.content()) == Ok::<(Head, int), Seq<char>>(
            (
                Head {
                    go_cb_ref: m.go_cb_ref,
                    time_allowed_to_live: m.time_allowed_to_live,
                    dat_set: m.dat_set,
                    go_id: m.go_id,
                },
                fields_octets(m.fields(), 4).len() as int,
            ),
        ),
{
    let fs = m.fields();
    lemma_fields(m);
    lemma_text_reads(fs, 0, 0, m.go_cb_ref, "gocbRef"@);
    lemma_uint_reads(fs, 1, 1, m.time_allowed_to_live, "timeAllowedToLive"@);
    lemma_text_reads(fs, 2, 2, m.dat_set, "datSet"@);
    lemma_field_reads(fs, 3, 12);
    lemma_text(m.go_id);
}

/// Text that was encoded decodes to itself.
proof fn lemma_text(s: Seq<char>)
    ensures
        lossy_text(encode_utf8(s)) == s,
{
    vstd::utf8::encode_utf8_valid_utf8(s);
    vstd::utf8::encode_utf8_decode_utf8(s);
}

/// The moment that a message without a time carries.
pub open spec fn epoch() -> Timestamp {
    Timestamp { seconds: 0, fraction: 0 }
}

/// The time that a message carries on the wire.
pub open spec fn sent_time(t: Option<Timestamp>) -> Timestamp {
    match t {
        Some(t) => t,
        None => epoch(),
    }
}

proof fn lemma_time(t: Option<Timestamp>)
    requires
        t matches Some(ts) ==> ts.wf(),
    ensures
        time_octets(t).len() == 8,
        Timestamp::of_octets(time_octets(t)) == sent_time(t),
{
    match t {
        Some(ts) => {
            crate::mms::value::timestamp_round_trip(ts, TimeQuality(10));
        },
        None => {
            let z = time_octets(None);
            assert(z.subrange(0, 4) =~= be_bytes(0, 4)) by {
                reveal_with_fuel(be_bytes, 5);
            }
            assert(z.subrange(4, 7) =~= be_bytes(0, 3)) by {
                reveal_with_fuel(be_bytes, 4);
            }
            crate::octets::lemma_pow256_small();
            crate::octets::lemma_be_round_trip(0, 4);
            crate::octets::lemma_be_round_trip(0, 3);
        },
    }
}

/// Reading the state of a PDU gives what was written.
proof fn lemma_state(m: MessageView)
    requires
        m.content().len() <= u32::MAX,
        m.t matches Some(ts) ==> ts.wf(),
    ensures
        state_at(m.content(), fields_octets(m.fields(), 4).len() as int) == Ok::<
            (State, int),
            Seq<char>,
        >(
            (
                State {
                    t: sent_time(m.t),
                    st_num: m.st_num,
                    sq_num: m.sq_num,
                    test: m.test,
                    conf_rev: m.conf_rev,
                    nds_com: m.nds_com,
                    num_dat_set_entries: m.num_dat_set_entries,
                },
                fields_octets(m.fields(), 11).len() as int,
            ),
        ),
{
    let fs = m.fields();
    let c = m.content();
    lemma_fields(m);
    assert(moment_at(c, fields_octets(fs, 4).len() as int) == Ok::<(Timestamp, int), Seq<char>>(
        (sent_time(m.t), fields_octets(fs, 5).len() as int),
    )) by {
        lemma_field_reads(fs, 4, 12);
        lemma_time(m.t);
    }
    lemma_uint_reads(fs, 5, 5, m.st_num, "stNum"@);
    lemma_uint_reads(fs, 6, 6, m.sq_num, "sqNum"@);
    lemma_flag_reads(fs, 7, 7, m.test, "test"@);
    lemma_uint_reads(fs, 8, 8, m.conf_rev, "confRev"@);
    lemma_flag_reads(fs, 9, 9, m.nds_com, "ndsCom"@);
    lemma_uint_reads(fs, 10, 10, m.num_dat_set_entries, "numDatSetEntries"@);
}

/// Reading a PDU gives what was written.
#[verifier::spinoff_prover]
#[verifier::rlimit(80)]
proof fn lemma_pdu(m: MessageView)
    requires
        m.content().len() <= u32::MAX,
        m.t matches Some(ts) ==> ts.wf(),
        forall|i: int| 0 <= i < m.values.len() ==> encodable(#[trigger] m.values[i]),
    ensures
        pdu_of(m.content(), m.app_id) == Ok::<MessageView, Seq<char>>(
            MessageView { t: Some(sent_time(m.t)), anomalies: Anomalies::clear(), ..m },
        ),
{
    let fs = m.fields();
    let all = data_octets_all(m.values, m.values.len());
    lemma_fields(m);
    lemma_head(m);
    lemma_state(m);
    lemma_field_reads(fs, 11, 12);
    assert(all.len() <= m.content().len()) by {
        lemma_fields_step(fs, 11);
    }
    crate::mms::codec::data_list_round_trip(m.values);
    lemma_members(all, 0, 0, m.values);
}

/// Where the parts of an APDU stand.
proof fn lemma_apdu_parts(m: MessageView, padding: Seq<u8>)
    requires
        m.apdu().len() <= 0xffff,
    ensures
        m.apdu().len() == HEADER_LEN as nat + tlv(pdu_tag(), m.content()).len(),
        be_value((m.apdu() + padding).subrange(0, 2)) == m.app_id as nat,
        be_value((m.apdu() + padding).subrange(2, 4)) == m.apdu().len(),
        (m.apdu() + padding).subrange(HEADER_LEN as int, m.apdu().len() as int) == tlv(
            pdu_tag(),
            m.content(),
        ),
{
    let pdu = tlv(pdu_tag(), m.content());
    let b = m.apdu() + padding;
    let n = HEADER_LEN as nat + pdu.len();
    crate::octets::lemma_be_bytes_len(m.app_id as nat, 2);
    crate::octets::lemma_be_bytes_len(n, 2);
    assert(b.subrange(0, 2) =~= be_bytes(m.app_id as nat, 2));
    assert(b.subrange(2, 4) =~= be_bytes(n, 2));
    assert(b.subrange(8, n as int) =~= pdu);
    crate::octets::lemma_pow256_small();
    crate::octets::lemma_be_round_trip(m.app_id as nat, 2);
    crate::octets::lemma_be_round_trip(n, 2);
}

/// An element on its own reads back.
proof fn lemma_sole_reads(t: Tag, c: Seq<u8>)
    requires
        tlv(t, c).len() <= u32::MAX,
    ensures
        content_at(tlv(t, c), 0, t) == Ok::<(Seq<u8>, int), Seq<char>>(
            (c, tlv(t, c).len() as int),
        ),
{
    let pdu = tlv(t, c);
    lemma_one_reads(Seq::empty(), t, c, Seq::empty());
    assert(Seq::<u8>::empty() + pdu + Seq::<u8>::empty() =~= pdu);
    assert(Seq::<u8>::empty() + pdu =~= pdu);
}

/// A message that was encoded decodes to itself, and octets beyond the length
/// field are ignored. A message without a time comes back with the epoch; the
/// anomalies are no part of the wire format. The APDU must fit its 16-bit
/// length field, and the values must have encodings.
pub proof fn message_round_trip(m: MessageView, padding: Seq<u8>)
    requires
        m.apdu().len() <= 0xffff,
        m.apdu().len() + padding.len() <= usize::MAX,
        m.t matches Some(ts) ==> ts.wf(),
        forall|i: int| 0 <= i < m.values.len() ==> encodable(#[trigger] m.values[i]),
    ensures
        message_of(m.apdu() + padding) == Ok::<MessageView, Seq<char>>(
            MessageView { t: Some(sent_time(m.t)), anomalies: Anomalies::clear(), ..m },
        ),
{
    reveal(message_of);
    lemma_apdu_parts(m, padding);
    lemma_sole_reads(pdu_tag(), m.content());
    assert(m.content().len() <= tlv(pdu_tag(), m.content()).len());
    lemma_pdu(m);
}

/// A message that is cut short is refused, wherever the cut is made within the
/// length that it declares.
pub proof fn a_truncated_message_is_refused(apdu: Seq<u8>, n: int)
    requires
        message_of(apdu) is Ok,
        0 <= n < be_value(apdu.subrange(2, 4)),
    ensures
        message_of(apdu.take(n)) is Err,
{
    reveal(message_of);
    if n >= HEADER_LEN {
        assert(apdu.take(n).subrange(2, 4) =~= apdu.subrange(2, 4));
    }
}

/// An APDU starts with its application identifier and its own length, then four
/// octets of zero, then the goosePdu with the octet 0x61.
pub proof fn an_apdu_is_laid_out(m: MessageView)
    requires
        m.apdu().len() <= 0xffff,
    ensures
        m.apdu()[0] * 256 + m.apdu()[1] == m.app_id,
        m.apdu()[2] * 256 + m.apdu()[3] == m.apdu().len(),
        m.apdu().subrange(4, 8) == seq![0u8, 0, 0, 0],
        m.apdu()[8] == 0x61,
{
    let pdu = tlv(pdu_tag(), m.content());
    lemma_apdu_parts(m, Seq::empty());
    assert(m.apdu() + Seq::<u8>::empty() =~= m.apdu());
    let n = HEADER_LEN as nat + pdu.len();
    reveal_with_fuel(be_bytes, 3);
    assert(m.apdu().subrange(4, 8) =~= seq![0u8, 0, 0, 0]);
    assert(m.apdu()[8] == pdu[0]);
    assert(pdu[0] == pdu_tag().octets()[0]);
}

/// The fields of the goosePdu stand in the order of their numbers.
pub proof fn the_fields_stand_in_order(m: MessageView)
    ensures
        m.content() == tlv(context_primitive(0), encode_utf8(m.go_cb_ref)) + tlv(
            context_primitive(1),
            uint_octets(m.time_allowed_to_live as nat),
        ) + tlv(context_primitive(2), encode_utf8(m.dat_set)) + tlv(
            context_primitive(3),
            encode_utf8(m.go_id),
        ) + tlv(
            context_primitive(4),
            match m.t {
                Some(t) => t.octets(TimeQuality(10)),
                None => seq![0u8, 0, 0, 0, 0, 0, 0, 0],
            },
        ) + tlv(context_primitive(5), uint_octets(m.st_num as nat)) + tlv(
            context_primitive(6),
            uint_octets(m.sq_num as nat),
        ) + tlv(context_primitive(7), bool_octets(m.test)) + tlv(
            context_primitive(8),
            uint_octets(m.conf_rev as nat),
        ) + tlv(context_primitive(9), bool_octets(m.nds_com)) + tlv(
            context_primitive(10),
            uint_octets(m.num_dat_set_entries as nat),
        ) + tlv(context_constructed(11), data_octets_all(m.values, m.values.len())),
{
    let fs = m.fields();
    lemma_fields(m);
    lemma_fields_step(fs, 0);
    lemma_fields_step(fs, 1);
    lemma_fields_step(fs, 2);
    lemma_fields_step(fs, 3);
    lemma_fields_step(fs, 4);
    lemma_fields_step(fs, 5);
    lemma_fields_step(fs, 6);
    lemma_fields_step(fs, 7);
    lemma_fields_step(fs, 8);
    lemma_fields_step(fs, 9);
    lemma_fields_step(fs, 10);
    lemma_fields_step(fs, 11);
    assert(Seq::new(8, |i: int| 0u8) =~= seq![0u8, 0, 0, 0, 0, 0, 0, 0]);
    assert(fields_octets(fs, 1) =~= tlv(context_primitive(0), encode_utf8(m.go_cb_ref)));
}

/// An APDU whose header is not whole, or whose length is less than the header
/// or more than what came, is refused.
pub proof fn a_broken_header_is_refused(apdu: Seq<u8>)
    requires
        apdu.len() < 8 || apdu[2] * 256 + apdu[3] < 8 || apdu[2] * 256 + apdu[3] > apdu.len(),
    ensures
        message_of(apdu) is Err,
{
    reveal(message_of);
    if apdu.len() >= 8 {
        assert(apdu.subrange(2, 4) =~= seq![apdu[2], apdu[3]]);
        crate::octets::the_first_octet_weighs_most(apdu[2], apdu[3]);
    }
}

/// A message that was read bears the application identifier of its header, and
/// has a time and no irregularity: those are for the subscriber to find.
pub proof fn a_message_bears_its_header(apdu: Seq<u8>)
    requires
        message_of(apdu) is Ok,
    ensures
        message_of(apdu)->Ok_0.app_id == apdu[0] * 256 + apdu[1],
        message_of(apdu)->Ok_0.t is Some,
        !message_of(apdu)->Ok_0.anomalies.st_num_regressed,
        !message_of(apdu)->Ok_0.anomalies.sq_num_gap,
        !message_of(apdu)->Ok_0.anomalies.stale,
        !message_of(apdu)->Ok_0.anomalies.entries_mismatch,
{
    lemma_read_pdu(apdu);
    assert(apdu.subrange(0, 2) =~= seq![apdu[0], apdu[1]]);
    crate::octets::the_first_octet_weighs_most(apdu[0], apdu[1]);
}

#[verifier::spinoff_prover]
#[verifier::rlimit(60)]
proof fn lemma_read_pdu(apdu: Seq<u8>)
    requires
        message_of(apdu) is Ok,
    ensures
        apdu.len() >= 8,
        message_of(apdu)->Ok_0.app_id == be_value(apdu.subrange(0, 2)) as u16,
        message_of(apdu)->Ok_0.t is Some,
        message_of(apdu)->Ok_0.anomalies == Anomalies::clear(),
{
    reveal(message_of);
    let pdu = apdu.subrange(HEADER_LEN as int, be_value(apdu.subrange(2, 4)) as int);
    let read = content_at(pdu, 0, pdu_tag())->Ok_0;
    lemma_pdu_rest(read.0, be_value(apdu.subrange(0, 2)) as u16);
}

#[verifier::spinoff_prover]
#[verifier::rlimit(60)]
proof fn lemma_pdu_rest(c: Seq<u8>, app_id: u16)
    requires
        pdu_of(c, app_id) is Ok,
    ensures
        pdu_of(c, app_id)->Ok_0.app_id == app_id,
        pdu_of(c, app_id)->Ok_0.t is Some,
        pdu_of(c, app_id)->Ok_0.anomalies == Anomalies::clear(),
{
}

/// A flag that is left out is not set, and takes no octets; one that is there
/// is set by any octet but zero.
pub proof fn a_flag_left_out_is_not_set(c: Seq<u8>, off: int, n: u32, name: Seq<char>)
    requires
        0 <= off <= c.len(),
    ensures
        off == c.len() ==> flag_at(c, off, n, name) == Ok::<(bool, int), Seq<char>>((false, off)),
        off < c.len() && (tag_at(c, off).result matches Ok(t) && t != context_primitive(n))
            ==> flag_at(c, off, n, name) == Ok::<(bool, int), Seq<char>>((false, off)),
        flag_at(c, off, n, name) matches Ok((true, next)) ==> off < c.len() && tag_at(
            c,
            off,
        ).result == Ok::<Tag, crate::asn1::Error>(context_primitive(n)),
{
}

/// A value that cannot be read is named by its place, the first being 0.
pub proof fn a_bad_value_is_named_by_its_place(
    c: Seq<u8>,
    app_id: u16,
    h: Head,
    s: State,
    o1: int,
    o2: int,
    all: Seq<u8>,
    o3: int,
    e: Seq<char>,
)
    requires
        head_at(c) == Ok::<(Head, int), Seq<char>>((h, o1)),
        state_at(c, o1) == Ok::<(State, int), Seq<char>>((s, o2)),
        content_at(c, o2, context_constructed(11)) == Ok::<(Seq<u8>, int), Seq<char>>((all, o3)),
        all.len() > 0,
        crate::mms::codec::data_at(all, 0) == Err::<Data, Seq<char>>(e),
    ensures
        pdu_of(c, app_id) == Err::<MessageView, Seq<char>>(
            "allData member "@ + decimal(0) + ": "@ + e,
        ),
{
}

} // verus!
