use vstd::prelude::*;

use super::value::lemma_views_of;
use super::{Data, Type, Value};
use crate::asn1::primitives::{bit_at, lemma_zero_bits};

verus! {

/// A named member of a structure type.
#[derive(Debug, PartialEq, Eq)]
pub struct Component {
    pub name: String,
    pub spec: TypeSpec,
}

/// The type of an MMS variable.
#[derive(Debug, PartialEq, Eq)]
pub struct TypeSpec {
    pub kind: Option<Type>,
    /// The width of a number, or the length of a string; negative where it is
    /// a maximum rather than a fixed length.
    pub size: i32,
    /// The members of a structure.
    pub components: Vec<Component>,
    /// The number of elements of an array.
    pub elements: usize,
    /// The type of the elements of an array.
    pub element: Option<Box<TypeSpec>>,
}

/// The magnitude of a size.
pub open spec fn magnitude(size: i32) -> nat {
    if size < 0 {
        (-size) as nat
    } else {
        size as nat
    }
}

impl TypeSpec {
    /// A type with no size.
    pub fn scalar(kind: Type) -> (t: TypeSpec)
        ensures
            t.kind == Some(kind),
            t.size == 0,
            t.components@.len() == 0,
            t.elements == 0,
            t.element is None,
    {
        TypeSpec::sized(kind, 0)
    }

    /// A type with a size.
    pub fn sized(kind: Type, size: i32) -> (t: TypeSpec)
        ensures
            t.kind == Some(kind),
            t.size == size,
            t.components@.len() == 0,
            t.elements == 0,
            t.element is None,
    {
        TypeSpec { kind: Some(kind), size, components: Vec::new(), elements: 0, element: None }
    }

    /// A structure type.
    pub fn structure(components: Vec<Component>) -> (t: TypeSpec)
        ensures
            t.kind == Some(Type::Structure),
            t.size == 0,
            t.components == components,
            t.elements == 0,
            t.element is None,
    {
        TypeSpec { kind: Some(Type::Structure), size: 0, components, elements: 0, element: None }
    }

    /// An array type.
    pub fn array(elements: usize, element: TypeSpec) -> (t: TypeSpec)
        ensures
            t.kind == Some(Type::Array),
            t.size == 0,
            t.components@.len() == 0,
            t.elements == elements,
            t.element == Some(Box::new(element)),
    {
        TypeSpec {
            kind: Some(Type::Array),
            size: 0,
            components: Vec::new(),
            elements,
            element: Some(Box::new(element)),
        }
    }

    /// The value that a variable of the type starts with: zero, false, empty,
    /// and the same of each member.
    pub open spec fn initial(self) -> Data
        decreases self, 0nat,
    {
        match self.kind {
            Some(Type::Boolean) => Data::Boolean(false),
            Some(Type::Integer) => Data::Integer(0),
            Some(Type::Unsigned) => Data::Unsigned(0),
            Some(Type::Float32) => Data::Float32(0),
            Some(Type::Float64) => Data::Float64(0),
            Some(Type::BitString) => Data::BitString {
                bits: Seq::new(((magnitude(self.size) + 7) / 8) as nat, |i: int| 0u8),
                length: magnitude(self.size),
            },
            Some(Type::OctetString) => Data::OctetString(Seq::empty()),
            Some(Type::VisibleString) => Data::VisibleString(Seq::empty()),
            Some(Type::MmsString) => Data::MmsString(Seq::empty()),
            Some(Type::UtcTime) => Data::UtcTime(Seq::new(8, |i: int| 0u8)),
            Some(Type::Structure) => Data::Structure(
                initials(self.components@, self.components@.len()),
            ),
            Some(Type::Array) => Data::Array(
                match self.element {
                    Some(e) => Seq::new(self.elements as nat, |i: int| e.initial()),
                    None => Seq::new(self.elements as nat, |i: int| Data::Empty),
                },
            ),
            _ => Data::Empty,
        }
    }

    /// What the elements of an array start with.
    pub open spec fn element_initial(self) -> Data {
        match self.element {
            Some(e) => e.initial(),
            None => Data::Empty,
        }
    }

    /// Returns the value that a variable of the type starts with.
    pub fn default_value(&self) -> (v: Value)
        ensures
            v@ == self.initial(),
        decreases self,
    {
        match self.kind {
            Some(Type::Boolean) => Value::Boolean(false),
            Some(Type::Integer) => Value::Integer(0),
            Some(Type::Unsigned) => Value::Unsigned(0),
            Some(Type::Float32) => Value::Float32(0),
            Some(Type::Float64) => Value::Float64(0),
            Some(Type::BitString) => {
                let n: u32 = if self.size < 0 {
                    (-(self.size as i64)) as u32
                } else {
                    self.size as u32
                };
                Value::bit_string(n as usize)
            },
            Some(Type::OctetString) => Value::OctetString(Vec::new()),
            Some(Type::VisibleString) => Value::VisibleString(String::new()),
            Some(Type::MmsString) => Value::MmsString(String::new()),
            Some(Type::UtcTime) => {
                let v = Value::UtcTime([0, 0, 0, 0, 0, 0, 0, 0]);
                assert(v->UtcTime_0@ =~= Seq::new(8, |i: int| 0u8));
                v
            },
            Some(Type::Structure) => {
                let mut items: Vec<Value> = Vec::new();
                let mut i: usize = 0;
                while i < self.components.len()
                    invariant
                        i <= self.components@.len(),
                        items@.len() == i,
                        forall|j: int|
                            0 <= j < i ==> (#[trigger] items@[j])@
                                == self.components@[j].spec.initial(),
                    decreases self.components@.len() - i,
                {
                    proof {
                        assert(decreases_to!(self => self.components@));
                        assert(decreases_to!(self.components@ => self.components@[i as int]));
                        assert(decreases_to!(self.components@[i as int] => self.components@[i as int].spec));
                    }
                    items.push(self.components[i].spec.default_value());
                    i = i + 1;
                }
                proof {
                    lemma_initials(self.components@, self.components@.len());
                    lemma_views_of(items@, initials(self.components@, self.components@.len()));
                }
                Value::Structure(items)
            },
            Some(Type::Array) => {
                let mut items: Vec<Value> = Vec::new();
                let ghost one = self.element_initial();
                while items.len() < self.elements
                    invariant
                        items@.len() <= self.elements,
                        one == self.element_initial(),
                        forall|j: int| 0 <= j < items@.len() ==> (#[trigger] items@[j])@ == one,
                    decreases self.elements - items@.len(),
                {
                    match &self.element {
                        Some(e) => {
                            items.push(e.default_value());
                        },
                        None => {
                            items.push(Value::Empty);
                        },
                    }
                }
                proof {
                    lemma_views_of(items@, Seq::new(self.elements as nat, |i: int| one));
                    assert(self.initial()->Array_0 =~= Seq::new(
                        self.elements as nat,
                        |i: int| one,
                    ));
                }
                Value::Array(items)
            },
            _ => Value::Empty,
        }
    }
}

/// What the first `n` of `components` start with.
pub open spec fn initials(components: Seq<Component>, n: nat) -> Seq<Data>
    decreases components, n,
{
    if n == 0 || n > components.len() {
        Seq::empty()
    } else {
        initials(components, (n - 1) as nat).push(components[n - 1].spec.initial())
    }
}

/// The initial values are those of the components, one for one.
pub proof fn lemma_initials(components: Seq<Component>, n: nat)
    requires
        n <= components.len(),
    ensures
        initials(components, n).len() == n,
        forall|i: int|
            0 <= i < n ==> #[trigger] initials(components, n)[i] == components[i].spec.initial(),
    decreases n,
{
    if n > 0 {
        lemma_initials(components, (n - 1) as nat);
    }
}

impl Clone for TypeSpec {
    fn clone(&self) -> (t: TypeSpec)
        ensures
            t.kind == self.kind,
            t.size == self.size,
            t.elements == self.elements,
            t.components@.len() == self.components@.len(),
            t.element is Some == self.element is Some,
            same_type(t, *self),
        decreases self,
    {
        let mut components: Vec<Component> = Vec::new();
        let mut i: usize = 0;
        while i < self.components.len()
            invariant
                i <= self.components@.len(),
                components@.len() == i,
                forall|j: int|
                    0 <= j < i ==> (#[trigger] components@[j]).name@ == self.components@[j].name@
                        && same_type(components@[j].spec, self.components@[j].spec),
            decreases self.components@.len() - i,
        {
            proof {
                assert(decreases_to!(self => self.components@));
                assert(decreases_to!(self.components@ => self.components@[i as int]));
                assert(decreases_to!(self.components@[i as int] => self.components@[i as int].spec));
            }
            let c = &self.components[i];
            components.push(Component { name: c.name.clone(), spec: c.spec.clone() });
            i = i + 1;
        }
        let element = match &self.element {
            Some(e) => Some(Box::new((&**e).clone())),
            None => None,
        };
        TypeSpec { kind: self.kind, size: self.size, components, elements: self.elements, element }
    }
}

/// Whether two types say the same.
pub open spec fn same_type(a: TypeSpec, b: TypeSpec) -> bool
    decreases a,
{
    &&& a.kind == b.kind
    &&& a.size == b.size
    &&& a.elements == b.elements
    &&& a.components@.len() == b.components@.len()
    &&& forall|i: int|
        0 <= i < a.components@.len() ==> (#[trigger] a.components@[i]).name@
            == b.components@[i].name@ && same_type(a.components@[i].spec, b.components@[i].spec)
    &&& match (a.element, b.element) {
        (Some(x), Some(y)) => same_type(*x, *y),
        (None, None) => true,
        _ => false,
    }
}

/// A variable starts as a value of its type, with every number zero, every
/// flag, bit and octet clear, and every text empty; a bit string has as many
/// bits as the type says, whether that is a fixed length or a maximum.
pub proof fn a_variable_starts_at_zero(t: TypeSpec, i: int)
    ensures
        t.kind matches Some(k) ==> t.initial().kind() == if k == Type::AccessError {
            Type::Empty
        } else {
            k
        },
        t.kind is None ==> t.initial() == Data::Empty,
        t.initial().signed() == 0,
        t.initial().unsigned() == 0,
        !t.initial().truth(),
        t.initial().text().len() == 0,
        !t.initial().bit(i),
        t.kind == Some(Type::BitString) ==> t.initial().bit_len() == if t.size < 0 {
            -(t.size as int)
        } else {
            t.size as int
        },
        t.kind == Some(Type::BitString) ==> t.initial().bits_tight(),
        t.kind == Some(Type::UtcTime) ==> t.initial().octets() == seq![
            0u8,
            0,
            0,
            0,
            0,
            0,
            0,
            0,
        ],
        t.kind == Some(Type::Float32) ==> t.initial() == Data::Float32(0),
        t.kind == Some(Type::Float64) ==> t.initial() == Data::Float64(0),
{
    match t.kind {
        Some(Type::BitString) => {
            let bits = Seq::new(((magnitude(t.size) + 7) / 8) as nat, |i: int| 0u8);
            assert forall|j: int| 0 <= j < bits.len() * 8 implies !#[trigger] bit_at(bits, j) by {
                lemma_zero_bits((j % 8) as u8);
            }
        },
        Some(Type::UtcTime) => {
            assert(t.initial().octets() =~= seq![0u8, 0, 0, 0, 0, 0, 0, 0]);
        },
        _ => {},
    }
}

/// A structure starts with each of its components at its own start, in order,
/// and an array with as many elements as it has.
pub proof fn a_composite_starts_with_its_parts(t: TypeSpec, i: int)
    ensures
        t.kind == Some(Type::Structure) ==> t.initial().items().len() == t.components@.len(),
        t.kind == Some(Type::Structure) && 0 <= i < t.components@.len() ==> t.initial().items()[i]
            == t.components@[i].spec.initial(),
        t.kind == Some(Type::Array) ==> t.initial().items().len() == t.elements,
        t.kind == Some(Type::Array) && 0 <= i < t.elements ==> t.initial().items()[i] == (
        match t.element {
            Some(e) => e.initial(),
            None => Data::Empty,
        }),
{
    lemma_initials(t.components@, t.components@.len());
}

/// Types that say the same start with the same value.
pub proof fn same_types_start_alike(a: TypeSpec, b: TypeSpec)
    requires
        same_type(a, b),
    ensures
        a.initial() == b.initial(),
    decreases a,
{
    match a.kind {
        Some(Type::Structure) => {
            lemma_initials(a.components@, a.components@.len());
            lemma_initials(b.components@, b.components@.len());
            assert forall|i: int| 0 <= i < a.components@.len() implies (
            #[trigger] a.components@[i]).spec.initial() == b.components@[i].spec.initial() by {
                assert(decreases_to!(a => a.components@));
                assert(decreases_to!(a.components@ => a.components@[i]));
                assert(decreases_to!(a.components@[i] => a.components@[i].spec));
                same_types_start_alike(a.components@[i].spec, b.components@[i].spec);
            }
            assert(initials(a.components@, a.components@.len()) =~= initials(
                b.components@,
                b.components@.len(),
            ));
        },
        Some(Type::Array) => {
            match (a.element, b.element) {
                (Some(x), Some(y)) => {
                    same_types_start_alike(*x, *y);
                },
                _ => {},
            }
            assert(a.initial().items() =~= b.initial().items());
        },
        _ => {},
    }
}

} // verus!
