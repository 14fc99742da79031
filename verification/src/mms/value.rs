use vstd::prelude::*;

use crate::asn1::primitives::{bit_at, lemma_zero_bits};
use crate::asn1::BitString;
use crate::octets::{be_bytes, be_value, push_be, read_be};
use vstd::slice::{slice_subrange, slice_to_vec};

verus! {

/// The kinds of MMS data.
#[derive(Debug, Clone, Copy, PartialEq, Eq, Structural, Hash)]
pub enum Type {
    /// No data at all.
    Empty,
    Array,
    Structure,
    Boolean,
    BitString,
    Integer,
    Unsigned,
    Float32,
    Float64,
    OctetString,
    VisibleString,
    MmsString,
    UtcTime,
    /// An access failure in place of data.
    AccessError,
}

impl Type {
    /// The name of the kind.
    pub open spec fn text(self) -> Seq<char> {
        match self {
            Type::Empty => "none"@,
            Type::Array => "array"@,
            Type::Structure => "structure"@,
            Type::Boolean => "boolean"@,
            Type::BitString => "bit-string"@,
            Type::Integer => "integer"@,
            Type::Unsigned => "unsigned"@,
            Type::Float32 => "float32"@,
            Type::Float64 => "float64"@,
            Type::OctetString => "octet-string"@,
            Type::VisibleString => "visible-string"@,
            Type::MmsString => "mms-string"@,
            Type::UtcTime => "utc-time"@,
            Type::AccessError => "access-error"@,
        }
    }

    /// Returns the name of the kind.
    pub fn to_text(self) -> (s: &'static str)
        ensures
            s@ == self.text(),
    {
        match self {
            Type::Empty => "none",
            Type::Array => "array",
            Type::Structure => "structure",
            Type::Boolean => "boolean",
            Type::BitString => "bit-string",
            Type::Integer => "integer",
            Type::Unsigned => "unsigned",
            Type::Float32 => "float32",
            Type::Float64 => "float64",
            Type::OctetString => "octet-string",
            Type::VisibleString => "visible-string",
            Type::MmsString => "mms-string",
            Type::UtcTime => "utc-time",
            Type::AccessError => "access-error",
        }
    }
}

/// Why a variable could not be read or written.
#[derive(Debug, Clone, Copy, PartialEq, Eq, Structural, Hash)]
pub enum DataAccessError {
    ObjectInvalidated,
    HardwareFault,
    TemporarilyUnavailable,
    ObjectAccessDenied,
    ObjectUndefined,
    InvalidAddress,
    TypeUnsupported,
    TypeInconsistent,
    ObjectAttributeInconsistent,
    ObjectAccessUnsupported,
    ObjectNonExistent,
    ObjectValueInvalid,
}

impl DataAccessError {
    /// The name of the failure.
    pub open spec fn text(self) -> Seq<char> {
        match self {
            DataAccessError::ObjectInvalidated => "object-invalidated"@,
            DataAccessError::HardwareFault => "hardware-fault"@,
            DataAccessError::TemporarilyUnavailable => "temporarily-unavailable"@,
            DataAccessError::ObjectAccessDenied => "object-access-denied"@,
            DataAccessError::ObjectUndefined => "object-undefined"@,
            DataAccessError::InvalidAddress => "invalid-address"@,
            DataAccessError::TypeUnsupported => "type-unsupported"@,
            DataAccessError::TypeInconsistent => "type-inconsistent"@,
            DataAccessError::ObjectAttributeInconsistent => "object-attribute-inconsistent"@,
            DataAccessError::ObjectAccessUnsupported => "object-access-unsupported"@,
            DataAccessError::ObjectNonExistent => "object-non-existent"@,
            DataAccessError::ObjectValueInvalid => "object-value-invalid"@,
        }
    }

    /// Returns the name of the failure.
    pub fn to_text(self) -> (s: &'static str)
        ensures
            s@ == self.text(),
    {
        match self {
            DataAccessError::ObjectInvalidated => "object-invalidated",
            DataAccessError::HardwareFault => "hardware-fault",
            DataAccessError::TemporarilyUnavailable => "temporarily-unavailable",
            DataAccessError::ObjectAccessDenied => "object-access-denied",
            DataAccessError::ObjectUndefined => "object-undefined",
            DataAccessError::InvalidAddress => "invalid-address",
            DataAccessError::TypeUnsupported => "type-unsupported",
            DataAccessError::TypeInconsistent => "type-inconsistent",
            DataAccessError::ObjectAttributeInconsistent => "object-attribute-inconsistent",
            DataAccessError::ObjectAccessUnsupported => "object-access-unsupported",
            DataAccessError::ObjectNonExistent => "object-non-existent",
            DataAccessError::ObjectValueInvalid => "object-value-invalid",
        }
    }
}

/// The quality octet of a UTC time: how many bits of its fraction are
/// significant, and three flags.
#[derive(Debug, Clone, Copy, PartialEq, Eq, Structural)]
pub struct TimeQuality(pub u8);

impl TimeQuality {
    /// A time with `bits` significant bits and no flag set.
    pub fn accuracy(bits: u8) -> (q: TimeQuality)
        ensures
            q.0 == bits % 32,
    {
        TimeQuality(bits % 32)
    }
}

/// A moment: whole seconds since the epoch, and 2^-24 fractions of a second.
#[derive(Debug, Clone, Copy, PartialEq, Eq, Structural)]
pub struct Timestamp {
    pub seconds: u32,
    pub fraction: u32,
}

impl Timestamp {
    /// The fraction is less than a second.
    pub open spec fn wf(self) -> bool {
        self.fraction < 0x100_0000
    }

    /// The eight octets of a UTC time.
    pub open spec fn octets(self, quality: TimeQuality) -> Seq<u8> {
        be_bytes(self.seconds as nat, 4) + be_bytes(self.fraction as nat, 3) + seq![quality.0]
    }

    /// The moment that the octets of a UTC time stand for.
    pub open spec fn of_octets(b: Seq<u8>) -> Timestamp {
        Timestamp {
            seconds: be_value(b.subrange(0, 4)) as u32,
            fraction: be_value(b.subrange(4, 7)) as u32,
        }
    }

    /// The moment `nanos` nanoseconds after `seconds`, rounded down to a
    /// representable one.
    pub fn new(seconds: u32, nanos: u32) -> (t: Timestamp)
        requires
            nanos < 1_000_000_000,
        ensures
            t.wf(),
            t.seconds == seconds,
            t.fraction == nanos as int * 0x100_0000 / 1_000_000_000,
    {
        Timestamp { seconds, fraction: (nanos as u64 * 0x100_0000 / 1_000_000_000) as u32 }
    }

    /// The nanoseconds within the second, rounded down.
    pub fn nanos(self) -> (n: u32)
        requires
            self.wf(),
        ensures
            n == self.fraction as int * 1_000_000_000 / 0x100_0000,
            n < 1_000_000_000,
    {
        (self.fraction as u64 * 1_000_000_000 / 0x100_0000) as u32
    }
}

/// A moment that was written as a UTC time reads back.
pub proof fn timestamp_round_trip(t: Timestamp, q: TimeQuality)
    requires
        t.wf(),
    ensures
        t.octets(q).len() == 8,
        Timestamp::of_octets(t.octets(q)) == t,
{
    crate::octets::lemma_pow256_small();
    crate::octets::lemma_be_round_trip(t.seconds as nat, 4);
    crate::octets::lemma_be_round_trip(t.fraction as nat, 3);
    assert(t.octets(q).subrange(0, 4) =~= be_bytes(t.seconds as nat, 4));
    assert(t.octets(q).subrange(4, 7) =~= be_bytes(t.fraction as nat, 3));
}

/// One MMS data value. Floating-point values are held as their IEEE 754 bit
/// patterns.
#[derive(Debug, PartialEq, Eq)]
pub enum Value {
    Empty,
    Boolean(bool),
    Integer(i64),
    Unsigned(u64),
    Float32(u32),
    Float64(u64),
    BitString(BitString),
    OctetString(Vec<u8>),
    VisibleString(String),
    MmsString(String),
    UtcTime([u8; 8]),
    Structure(Vec<Value>),
    Array(Vec<Value>),
    AccessError(DataAccessError),
}

/// What a value is.
#[verifier::ext_equal]
pub enum Data {
    Empty,
    Boolean(bool),
    Integer(i64),
    Unsigned(u64),
    Float32(u32),
    Float64(u64),
    BitString { bits: Seq<u8>, length: nat },
    OctetString(Seq<u8>),
    VisibleString(Seq<char>),
    MmsString(Seq<char>),
    UtcTime(Seq<u8>),
    Structure(Seq<Data>),
    Array(Seq<Data>),
    AccessError(DataAccessError),
}

impl View for Value {
    type V = Data;

    open spec fn view(&self) -> Data {
        self.data()
    }
}

impl Value {
    /// What the value is.
    pub open spec fn data(&self) -> Data
        decreases self, 0nat,
    {
        match self {
            Value::Empty => Data::Empty,
            Value::Boolean(b) => Data::Boolean(*b),
            Value::Integer(v) => Data::Integer(*v),
            Value::Unsigned(v) => Data::Unsigned(*v),
            Value::Float32(v) => Data::Float32(*v),
            Value::Float64(v) => Data::Float64(*v),
            Value::BitString(b) => Data::BitString { bits: b.bits@, length: b.length as nat },
            Value::OctetString(b) => Data::OctetString(b@),
            Value::VisibleString(s) => Data::VisibleString(s@),
            Value::MmsString(s) => Data::MmsString(s@),
            Value::UtcTime(b) => Data::UtcTime(b@),
            Value::Structure(items) => Data::Structure(views(items@, items@.len())),
            Value::Array(items) => Data::Array(views(items@, items@.len())),
            Value::AccessError(e) => Data::AccessError(*e),
        }
    }
}

/// What the first `n` of `items` are.
pub open spec fn views(items: Seq<Value>, n: nat) -> Seq<Data>
    decreases items, n,
{
    if n == 0 || n > items.len() {
        Seq::empty()
    } else {
        views(items, (n - 1) as nat).push(items[n - 1].data())
    }
}

/// What each of `items` is.
pub open spec fn all_views(items: Seq<Value>) -> Seq<Data> {
    views(items, items.len())
}

/// The views are those of the items, one for one.
pub proof fn lemma_views(items: Seq<Value>, n: nat)
    requires
        n <= items.len(),
    ensures
        views(items, n).len() == n,
        forall|i: int| 0 <= i < n ==> #[trigger] views(items, n)[i] == items[i]@,
    decreases n,
{
    if n > 0 {
        lemma_views(items, (n - 1) as nat);
    }
}

/// Lists of values with the same views are the same to their readers.
pub proof fn lemma_views_of(items: Seq<Value>, datas: Seq<Data>)
    requires
        items.len() == datas.len(),
        forall|i: int| 0 <= i < items.len() ==> (#[trigger] items[i])@ == datas[i],
    ensures
        views(items, items.len()) == datas,
{
    lemma_views(items, items.len());
    assert(views(items, items.len()) =~= datas);
}

impl Data {
    /// The kind of data.
    pub open spec fn kind(self) -> Type {
        match self {
            Data::Empty => Type::Empty,
            Data::Boolean(_) => Type::Boolean,
            Data::Integer(_) => Type::Integer,
            Data::Unsigned(_) => Type::Unsigned,
            Data::Float32(_) => Type::Float32,
            Data::Float64(_) => Type::Float64,
            Data::BitString { .. } => Type::BitString,
            Data::OctetString(_) => Type::OctetString,
            Data::VisibleString(_) => Type::VisibleString,
            Data::MmsString(_) => Type::MmsString,
            Data::UtcTime(_) => Type::UtcTime,
            Data::Structure(_) => Type::Structure,
            Data::Array(_) => Type::Array,
            Data::AccessError(_) => Type::AccessError,
        }
    }

    /// The members of a structure or an array.
    pub open spec fn items(self) -> Seq<Data> {
        match self {
            Data::Structure(items) => items,
            Data::Array(items) => items,
            _ => Seq::empty(),
        }
    }

    /// The boolean, false for other data.
    pub open spec fn truth(self) -> bool {
        self matches Data::Boolean(b) && b
    }

    /// The number as a signed one; beyond the range the greatest, and 0 for
    /// data that is no number.
    pub open spec fn signed(self) -> i64 {
        match self {
            Data::Integer(v) => v,
            Data::Unsigned(v) => if v <= i64::MAX {
                v as i64
            } else {
                i64::MAX
            },
            _ => 0,
        }
    }

    /// The number as an unsigned one; 0 for a negative one and for data that
    /// is no number.
    pub open spec fn unsigned(self) -> u64 {
        match self {
            Data::Unsigned(v) => v,
            Data::Integer(v) => if v >= 0 {
                v as u64
            } else {
                0
            },
            _ => 0,
        }
    }

    /// The number as an unsigned 32-bit one, the greatest beyond the range.
    pub open spec fn unsigned32(self) -> u32 {
        if self.unsigned() <= u32::MAX {
            self.unsigned() as u32
        } else {
            u32::MAX
        }
    }

    /// The characters of a string, none for other data.
    pub open spec fn text(self) -> Seq<char> {
        match self {
            Data::VisibleString(s) => s,
            Data::MmsString(s) => s,
            _ => Seq::empty(),
        }
    }

    /// The octets of an octet string or a time, none for other data.
    pub open spec fn octets(self) -> Seq<u8> {
        match self {
            Data::OctetString(b) => b,
            Data::UtcTime(b) => b,
            _ => Seq::empty(),
        }
    }

    /// The moment of a time.
    pub open spec fn time(self) -> Option<Timestamp> {
        match self {
            Data::UtcTime(b) => Some(Timestamp::of_octets(b)),
            _ => None,
        }
    }

    /// The number of bits of a bit string.
    pub open spec fn bit_len(self) -> nat {
        match self {
            Data::BitString { bits, length } => length,
            _ => 0,
        }
    }

    /// Bit `i` of a bit string; false for other data and out of range.
    pub open spec fn bit(self, i: int) -> bool {
        match self {
            Data::BitString { bits, length } => 0 <= i < length && i < bits.len() * 8
                && bit_at(bits, i),
            _ => false,
        }
    }

    /// A bit string is held in as many octets as it needs.
    pub open spec fn bits_ok(self) -> bool {
        match self {
            Data::BitString { bits, length } => length <= bits.len() * 8,
            _ => true,
        }
    }

    /// A bit string is held in no more octets than it needs, and its padding is
    /// clear.
    pub open spec fn bits_tight(self) -> bool {
        match self {
            Data::BitString { bits, length } => {
                &&& bits.len() == (length + 7) / 8
                &&& forall|i: int|
                    length <= i < bits.len() * 8 ==> !#[trigger] bit_at(bits, i)
            },
            _ => true,
        }
    }
}

impl Default for Value {
    fn default() -> (v: Value)
        ensures
            v@ == Data::Empty,
    {
        Value::Empty
    }
}

impl Clone for Value {
    fn clone(&self) -> (v: Value)
        ensures
            v@ == self@,
        decreases self,
    {
        match self {
            Value::Empty => Value::Empty,
            Value::Boolean(b) => Value::Boolean(*b),
            Value::Integer(v) => Value::Integer(*v),
            Value::Unsigned(v) => Value::Unsigned(*v),
            Value::Float32(v) => Value::Float32(*v),
            Value::Float64(v) => Value::Float64(*v),
            Value::BitString(b) => Value::BitString(
                BitString { bits: slice_to_vec(b.bits.as_slice()), length: b.length },
            ),
            Value::OctetString(b) => Value::OctetString(slice_to_vec(b.as_slice())),
            Value::VisibleString(s) => Value::VisibleString(s.clone()),
            Value::MmsString(s) => Value::MmsString(s.clone()),
            Value::UtcTime(b) => Value::UtcTime(*b),
            Value::Structure(items) => {
                let mut copy: Vec<Value> = Vec::new();
                let mut i: usize = 0;
                while i < items.len()
                    invariant
                        i <= items@.len(),
                        copy@.len() == i,
                        forall|j: int| 0 <= j < i ==> (#[trigger] copy@[j])@ == items@[j]@,
                        self matches Value::Structure(own) && own == items,
                    decreases items@.len() - i,
                {
                    proof {
                        assert(decreases_to!(self => items@));
                    }
                    copy.push(items[i].clone());
                    i = i + 1;
                }
                proof {
                    lemma_views(items@, items@.len());
                    lemma_views_of(copy@, views(items@, items@.len()));
                }
                Value::Structure(copy)
            },
            Value::Array(items) => {
                let mut copy: Vec<Value> = Vec::new();
                let mut i: usize = 0;
                while i < items.len()
                    invariant
                        i <= items@.len(),
                        copy@.len() == i,
                        forall|j: int| 0 <= j < i ==> (#[trigger] copy@[j])@ == items@[j]@,
                        self matches Value::Array(own) && own == items,
                    decreases items@.len() - i,
                {
                    proof {
                        assert(decreases_to!(self => items@));
                    }
                    copy.push(items[i].clone());
                    i = i + 1;
                }
                proof {
                    lemma_views(items@, items@.len());
                    lemma_views_of(copy@, views(items@, items@.len()));
                }
                Value::Array(copy)
            },
            Value::AccessError(e) => Value::AccessError(*e),
        }
    }
}

impl Value {
    pub fn boolean(b: bool) -> (v: Value)
        ensures
            v@ == Data::Boolean(b),
    {
        Value::Boolean(b)
    }

    pub fn int8(v: i8) -> (r: Value)
        ensures
            r@ == Data::Integer(v as i64),
    {
        Value::Integer(v as i64)
    }

    pub fn int32(v: i32) -> (r: Value)
        ensures
            r@ == Data::Integer(v as i64),
    {
        Value::Integer(v as i64)
    }

    pub fn int64(v: i64) -> (r: Value)
        ensures
            r@ == Data::Integer(v),
    {
        Value::Integer(v)
    }

    pub fn uint8(v: u8) -> (r: Value)
        ensures
            r@ == Data::Unsigned(v as u64),
    {
        Value::Unsigned(v as u64)
    }

    pub fn uint32(v: u32) -> (r: Value)
        ensures
            r@ == Data::Unsigned(v as u64),
    {
        Value::Unsigned(v as u64)
    }

    /// A 32-bit floating-point value, given by its bit pattern.
    pub fn float32(bits: u32) -> (r: Value)
        ensures
            r@ == Data::Float32(bits),
    {
        Value::Float32(bits)
    }

    /// A 64-bit floating-point value, given by its bit pattern.
    pub fn float64(bits: u64) -> (r: Value)
        ensures
            r@ == Data::Float64(bits),
    {
        Value::Float64(bits)
    }

    pub fn visible_string(s: &str) -> (r: Value)
        ensures
            r@ == Data::VisibleString(s@),
    {
        Value::VisibleString(s.to_owned())
    }

    pub fn mms_string(s: &str) -> (r: Value)
        ensures
            r@ == Data::MmsString(s@),
    {
        Value::MmsString(s.to_owned())
    }

    pub fn octet_string(b: Vec<u8>) -> (r: Value)
        ensures
            r@ == Data::OctetString(b@),
    {
        Value::OctetString(b)
    }

    /// An all-zero bit string of `n` bits.
    pub fn bit_string(n: usize) -> (r: Value)
        ensures
            r@ matches Data::BitString { bits, length } && length == n && bits == Seq::new(
                ((n + 7) / 8) as nat,
                |i: int| 0u8,
            ),
            r@.bits_ok(),
            r@.bits_tight(),
            forall|i: int| !r@.bit(i),
    {
        let b = BitString::new(n);
        assert(forall|i: int| !b.spec_bit(i));
        assert forall|i: int| n <= i < b.bits@.len() * 8 implies !#[trigger] bit_at(b.bits@, i) by {
            lemma_zero_bits((i % 8) as u8);
        }
        let r = Value::BitString(b);
        assert forall|i: int| !r@.bit(i) by {
            assert(!b.spec_bit(i));
        }
        r
    }

    /// A bit string of `n` bits held in `bits`.
    pub fn bit_string_bits(bits: &[u8], n: usize) -> (r: Value)
        ensures
            r@ == (Data::BitString { bits: bits@, length: n as nat }),
    {
        Value::BitString(BitString { bits: slice_to_vec(bits), length: n })
    }

    /// A UTC time.
    pub fn utc_time(t: Timestamp, q: TimeQuality) -> (r: Value)
        ensures
            r@ == Data::UtcTime(t.octets(q)),
    {
        let mut b: Vec<u8> = Vec::new();
        push_be(&mut b, t.seconds as u64, 4);
        push_be(&mut b, t.fraction as u64, 3);
        b.push(q.0);
        proof {
            crate::octets::lemma_be_bytes_len(t.seconds as nat, 4);
            crate::octets::lemma_be_bytes_len(t.fraction as nat, 3);
            assert(b@ =~= t.octets(q));
        }
        let a: [u8; 8] = [b[0], b[1], b[2], b[3], b[4], b[5], b[6], b[7]];
        assert(a@ =~= b@);
        Value::UtcTime(a)
    }

    /// A UTC time from its seconds, its 2^-24 fractions and its quality.
    pub fn utc_time_parts(seconds: u32, fraction: u32, q: TimeQuality) -> (r: Value)
        ensures
            r@ == Data::UtcTime((Timestamp { seconds, fraction }).octets(q)),
    {
        Value::utc_time(Timestamp { seconds, fraction }, q)
    }

    /// A UTC time from its eight octets.
    pub fn utc_time_raw(b: &[u8]) -> (r: crate::asn1::Result<Value>)
        ensures
            match r {
                Ok(v) => b@.len() == 8 && v@ == Data::UtcTime(b@),
                Err(e) => b@.len() != 8 && crate::asn1::is_bad_value(
                    e,
                    "UTC time of "@ + crate::text::decimal(b@.len()) + " octets"@,
                ),
            },
    {
        if b.len() != 8 {
            return Err(crate::asn1::Error::bad_count("UTC time of ", b.len(), " octets"));
        }
        let a: [u8; 8] = [b[0], b[1], b[2], b[3], b[4], b[5], b[6], b[7]];
        assert(a@ =~= b@);
        Ok(Value::UtcTime(a))
    }

    pub fn structure(items: Vec<Value>) -> (r: Value)
        ensures
            r@ == Data::Structure(all_views(items@)),
    {
        Value::Structure(items)
    }

    pub fn array(items: Vec<Value>) -> (r: Value)
        ensures
            r@ == Data::Array(all_views(items@)),
    {
        Value::Array(items)
    }

    /// Returns the kind of data.
    pub fn type_of(&self) -> (t: Type)
        ensures
            t == self@.kind(),
    {
        match self {
            Value::Empty => Type::Empty,
            Value::Boolean(_) => Type::Boolean,
            Value::Integer(_) => Type::Integer,
            Value::Unsigned(_) => Type::Unsigned,
            Value::Float32(_) => Type::Float32,
            Value::Float64(_) => Type::Float64,
            Value::BitString(_) => Type::BitString,
            Value::OctetString(_) => Type::OctetString,
            Value::VisibleString(_) => Type::VisibleString,
            Value::MmsString(_) => Type::MmsString,
            Value::UtcTime(_) => Type::UtcTime,
            Value::Structure(_) => Type::Structure,
            Value::Array(_) => Type::Array,
            Value::AccessError(_) => Type::AccessError,
        }
    }

    /// Returns the number of members of a structure or an array, 0 for other
    /// data.
    pub fn len(&self) -> (n: usize)
        ensures
            n == self@.items().len(),
    {
        match self {
            Value::Structure(items) => {
                proof {
                    lemma_views(items@, items@.len());
                }
                items.len()
            },
            Value::Array(items) => {
                proof {
                    lemma_views(items@, items@.len());
                }
                items.len()
            },
            _ => 0,
        }
    }

    /// Returns member `i` of a structure or an array.
    pub fn index(&self, i: usize) -> (r: Option<&Value>)
        ensures
            match r {
                Some(v) => i < self@.items().len() && v@ == self@.items()[i as int],
                None => i >= self@.items().len(),
            },
    {
        match self {
            Value::Structure(items) => {
                proof {
                    lemma_views(items@, items@.len());
                }
                if i < items.len() {
                    Some(&items[i])
                } else {
                    None
                }
            },
            Value::Array(items) => {
                proof {
                    lemma_views(items@, items@.len());
                }
                if i < items.len() {
                    Some(&items[i])
                } else {
                    None
                }
            },
            _ => None,
        }
    }

    pub fn as_bool(&self) -> (b: bool)
        ensures
            b == self@.truth(),
    {
        match self {
            Value::Boolean(b) => *b,
            _ => false,
        }
    }

    pub fn as_i64(&self) -> (v: i64)
        ensures
            v == self@.signed(),
    {
        match self {
            Value::Integer(v) => *v,
            Value::Unsigned(v) => if *v <= i64::MAX as u64 {
                *v as i64
            } else {
                i64::MAX
            },
            _ => 0,
        }
    }

    pub fn as_u64(&self) -> (v: u64)
        ensures
            v == self@.unsigned(),
    {
        match self {
            Value::Unsigned(v) => *v,
            Value::Integer(v) => if *v >= 0 {
                *v as u64
            } else {
                0
            },
            _ => 0,
        }
    }

    pub fn as_u32(&self) -> (v: u32)
        ensures
            v == self@.unsigned32(),
    {
        let v: u64 = self.as_u64();
        if v <= u32::MAX as u64 {
            v as u32
        } else {
            u32::MAX
        }
    }

    /// Returns the bit pattern of a 32-bit floating-point value, that of zero
    /// for other data.
    pub fn as_f32(&self) -> (bits: u32)
        ensures
            bits == (match self@ {
                Data::Float32(v) => v,
                _ => 0,
            }),
    {
        match self {
            Value::Float32(v) => *v,
            _ => 0,
        }
    }

    /// Returns the text of a string, empty for other data.
    pub fn text(&self) -> (s: String)
        ensures
            s@ == self@.text(),
    {
        match self {
            Value::VisibleString(s) => s.clone(),
            Value::MmsString(s) => s.clone(),
            _ => String::new(),
        }
    }

    /// Returns the octets of an octet string or a time, none for other data.
    pub fn bytes(&self) -> (b: Vec<u8>)
        ensures
            b@ == self@.octets(),
    {
        match self {
            Value::OctetString(b) => slice_to_vec(b.as_slice()),
            Value::UtcTime(b) => slice_to_vec(b.as_slice()),
            _ => Vec::new(),
        }
    }

    /// Returns the moment of a time.
    pub fn time(&self) -> (t: Option<Timestamp>)
        ensures
            t == self@.time(),
            t matches Some(ts) ==> ts.wf(),
    {
        match self {
            Value::UtcTime(b) => {
                let s = b.as_slice();
                let secs = slice_subrange(s, 0, 4);
                let frac = slice_subrange(s, 4, 7);
                proof {
                    crate::octets::lemma_be_value_round_trip(secs@);
                    crate::octets::lemma_be_value_round_trip(frac@);
                    crate::octets::lemma_pow256_small();
                }
                Some(Timestamp { seconds: read_be(secs) as u32, fraction: read_be(frac) as u32 })
            },
            _ => None,
        }
    }

    /// Returns the number of bits of a bit string, 0 for other data.
    pub fn bit_len(&self) -> (n: usize)
        ensures
            n == self@.bit_len(),
    {
        match self {
            Value::BitString(b) => b.length,
            _ => 0,
        }
    }

    /// Returns bit `i` of a bit string, false for other data and out of range.
    pub fn bit(&self, i: usize) -> (b: bool)
        ensures
            b == self@.bit(i as int),
    {
        match self {
            Value::BitString(b) => i / 8 < b.bits.len() && b.bit(i),
            _ => false,
        }
    }

    /// Sets bit `i` of a bit string; other data and bits out of range stay as
    /// they are.
    pub fn set_bit(&mut self, i: usize, v: bool)
        requires
            old(self)@.bits_ok(),
        ensures
            final(self)@.bits_ok(),
            final(self)@.kind() == old(self)@.kind(),
            final(self)@.bit_len() == old(self)@.bit_len(),
            !(old(self)@ is BitString) ==> final(self)@ == old(self)@,
            old(self)@.bits_tight() ==> final(self)@.bits_tight(),
            forall|j: int|
                0 <= j < old(self)@.bit_len() ==> #[trigger] final(self)@.bit(j) == (if j == i {
                    v
                } else {
                    old(self)@.bit(j)
                }),
    {
        let ghost before = *self;
        if let Value::BitString(b) = self {
            b.set_bit(i, v);
        }
        let ghost after = *self;
        proof {
            if before is BitString {
                assert forall|j: int| 0 <= j < before@.bit_len() implies #[trigger] after@.bit(j)
                    == (if j == i {
                    v
                } else {
                    before@.bit(j)
                }) by {
                    assert(after@.bit(j) == after->BitString_0.spec_bit(j));
                    assert(before@.bit(j) == before->BitString_0.spec_bit(j));
                }
            }
        }
    }

    /// Returns the access failure that stands in place of data.
    pub fn as_access_error(&self) -> (r: Option<DataAccessError>)
        ensures
            r == (match self@ {
                Data::AccessError(e) => Some(e),
                _ => None,
            }),
    {
        match self {
            Value::AccessError(e) => Some(*e),
            _ => None,
        }
    }
}

/// A UTC time is sent as its seconds, its fraction and its quality, the octet
/// of the most weight first.
pub proof fn a_time_is_sent_by_weight(t: Timestamp, q: TimeQuality)
    requires
        t.wf(),
    ensures
        ({
            let o = t.octets(q);
            &&& o.len() == 8
            &&& t.seconds == o[0] * 0x100_0000 + o[1] * 0x1_0000 + o[2] * 0x100 + o[3]
            &&& t.fraction == o[4] * 0x1_0000 + o[5] * 0x100 + o[6]
            &&& o[7] == q.0
        }),
{
    reveal_with_fuel(be_bytes, 5);
}

/// A number is read as it is wherever it is in range; beyond it the nearest one
/// is read, and what is no number reads as zero.
pub proof fn a_number_is_read_as_near_as_can_be(d: Data, v: int)
    requires
        d matches Data::Integer(n) ==> v == n,
        d matches Data::Unsigned(n) ==> v == n,
        !(d is Integer) && !(d is Unsigned) ==> v == 0,
    ensures
        v <= i64::MAX ==> d.signed() == v,
        v > i64::MAX ==> d.signed() == 0x7fff_ffff_ffff_ffff,
        v >= 0 ==> d.unsigned() == v,
        v < 0 ==> d.unsigned() == 0,
        0 <= v <= 0xffff_ffff ==> d.unsigned32() == v,
        v > 0xffff_ffff ==> d.unsigned32() == 0xffff_ffffu32,
        v < 0 ==> d.unsigned32() == 0,
{
}

/// What a value is of one kind it is not of another: text is read from the two
/// kinds of strings alone, octets from octet strings and times, members from
/// structures and arrays, and bits from bit strings, within their length.
pub proof fn a_value_is_read_as_its_kind(d: Data, i: int)
    ensures
        d.truth() <==> d == Data::Boolean(true),
        d.text().len() > 0 ==> d == Data::VisibleString(d.text()) || d == Data::MmsString(d.text()),
        d.octets().len() > 0 ==> d == Data::OctetString(d.octets()) || d == Data::UtcTime(
            d.octets(),
        ),
        d.items().len() > 0 ==> d == Data::Structure(d.items()) || d == Data::Array(d.items()),
        d.time() is Some <==> d is UtcTime,
        d.bit(i) ==> d is BitString && 0 <= i < d.bit_len(),
        d matches Data::BitString { bits, length } ==> d.bit_len() == length && (0 <= i < length
            && length <= bits.len() * 8 ==> (d.bit(i) <==> bits[i / 8] / seq![
            128u8,
            64,
            32,
            16,
            8,
            4,
            2,
            1,
        ][i % 8] % 2 == 1)),
{
    if let Data::BitString { bits, length } = d {
        if 0 <= i < length && length <= bits.len() * 8 {
            crate::asn1::primitives::the_first_bit_is_the_most_significant(bits, i);
        }
    }
}

/// Each kind of data is called by its own name.
pub proof fn a_kind_has_its_name(x: Type)
    ensures
        x == Type::Empty ==> x.text() == "none"@,
        x == Type::Array ==> x.text() == "array"@,
        x == Type::Structure ==> x.text() == "structure"@,
        x == Type::Boolean ==> x.text() == "boolean"@,
        x == Type::BitString ==> x.text() == "bit-string"@,
        x == Type::Integer ==> x.text() == "integer"@,
        x == Type::Unsigned ==> x.text() == "unsigned"@,
        x == Type::Float32 ==> x.text() == "float32"@,
        x == Type::Float64 ==> x.text() == "float64"@,
        x == Type::OctetString ==> x.text() == "octet-string"@,
        x == Type::VisibleString ==> x.text() == "visible-string"@,
        x == Type::MmsString ==> x.text() == "mms-string"@,
        x == Type::UtcTime ==> x.text() == "utc-time"@,
        x == Type::AccessError ==> x.text() == "access-error"@,
{
}

/// Each failure is called by its own name.
pub proof fn a_failure_has_its_name(x: DataAccessError)
    ensures
        x == DataAccessError::ObjectInvalidated ==> x.text() == "object-invalidated"@,
        x == DataAccessError::HardwareFault ==> x.text() == "hardware-fault"@,
        x == DataAccessError::TemporarilyUnavailable ==> x.text() == "temporarily-unavailable"@,
        x == DataAccessError::ObjectAccessDenied ==> x.text() == "object-access-denied"@,
        x == DataAccessError::ObjectUndefined ==> x.text() == "object-undefined"@,
        x == DataAccessError::InvalidAddress ==> x.text() == "invalid-address"@,
        x == DataAccessError::TypeUnsupported ==> x.text() == "type-unsupported"@,
        x == DataAccessError::TypeInconsistent ==> x.text() == "type-inconsistent"@,
        x == DataAccessError::ObjectAttributeInconsistent ==> x.text() == "object-attribute-inconsistent"@,
        x == DataAccessError::ObjectAccessUnsupported ==> x.text() == "object-access-unsupported"@,
        x == DataAccessError::ObjectNonExistent ==> x.text() == "object-non-existent"@,
        x == DataAccessError::ObjectValueInvalid ==> x.text() == "object-value-invalid"@,
{
}

} // verus!
