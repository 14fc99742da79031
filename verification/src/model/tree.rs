use vstd::prelude::*;

use super::Fc;
use crate::mms::{Type, Value};
use crate::text::same;

verus! {

/// A data attribute: a value of its own, or attributes below it.
#[derive(Debug, PartialEq, Eq)]
pub struct DataAttribute {
    pub name: String,
    pub fc: Fc,
    pub kind: Option<Type>,
    pub value: Option<Value>,
    /// The number of elements of an array.
    pub count: usize,
    pub children: Vec<DataAttribute>,
}

/// A data object: attributes, and objects below it.
#[derive(Debug, PartialEq, Eq)]
pub struct DataObject {
    pub name: String,
    /// The common data class, where it is known.
    pub cdc: String,
    pub attributes: Vec<DataAttribute>,
    pub objects: Vec<DataObject>,
}

/// A logical node.
#[derive(Debug, PartialEq, Eq)]
pub struct LogicalNode {
    pub name: String,
    pub class: String,
    pub objects: Vec<DataObject>,
}

/// A logical device.
#[derive(Debug, PartialEq, Eq)]
pub struct LogicalDevice {
    pub name: String,
    pub nodes: Vec<LogicalNode>,
}

/// The model of an IED.
#[derive(Debug, PartialEq, Eq)]
pub struct Model {
    pub name: String,
    pub devices: Vec<LogicalDevice>,
}

impl Default for DataAttribute {
    fn default() -> (a: DataAttribute)
        ensures
            a.name@.len() == 0,
            a.fc == Fc::Unset,
            a.kind is None,
            a.value is None,
            a.count == 0,
            a.children@.len() == 0,
    {
        DataAttribute {
            name: String::new(),
            fc: Fc::Unset,
            kind: None,
            value: None,
            count: 0,
            children: Vec::new(),
        }
    }
}

impl Default for DataObject {
    fn default() -> (o: DataObject)
        ensures
            o.name@.len() == 0,
            o.cdc@.len() == 0,
            o.attributes@.len() == 0,
            o.objects@.len() == 0,
    {
        DataObject {
            name: String::new(),
            cdc: String::new(),
            attributes: Vec::new(),
            objects: Vec::new(),
        }
    }
}

impl Default for LogicalDevice {
    fn default() -> (d: LogicalDevice)
        ensures
            d.name@.len() == 0,
            d.nodes@.len() == 0,
    {
        LogicalDevice { name: String::new(), nodes: Vec::new() }
    }
}

impl Default for Model {
    fn default() -> (m: Model)
        ensures
            m.name@.len() == 0,
            m.devices@.len() == 0,
    {
        Model { name: String::new(), devices: Vec::new() }
    }
}

/// The distinct constraints of the first `n` of `attributes`, in the order in
/// which they first occur.
pub open spec fn fcs_of(attributes: Seq<DataAttribute>, n: nat) -> Seq<Fc>
    decreases n,
{
    if n == 0 || n > attributes.len() {
        Seq::empty()
    } else {
        let before = fcs_of(attributes, (n - 1) as nat);
        if before.contains(attributes[n - 1].fc) {
            before
        } else {
            before.push(attributes[n - 1].fc)
        }
    }
}

impl DataObject {
    /// Returns the attribute of a name.
    pub fn attribute(&self, name: &str) -> (r: Option<&DataAttribute>)
        ensures
            match r {
                Some(a) => exists|i: int|
                    0 <= i < self.attributes@.len() && #[trigger] self.attributes@[i] == *a
                        && a.name@ == name@ && forall|j: int|
                        0 <= j < i ==> (#[trigger] self.attributes@[j]).name@ != name@,
                None => forall|i: int|
                    0 <= i < self.attributes@.len() ==> (#[trigger] self.attributes@[i]).name@
                        != name@,
            },
    {
        let mut i: usize = 0;
        while i < self.attributes.len()
            invariant
                i <= self.attributes@.len(),
                forall|j: int| 0 <= j < i ==> (#[trigger] self.attributes@[j]).name@ != name@,
            decreases self.attributes@.len() - i,
        {
            if same(self.attributes[i].name.as_str(), name) {
                return Some(&self.attributes[i]);
            }
            i = i + 1;
        }
        None
    }

    /// Returns the distinct constraints of the attributes, in the order in
    /// which they first occur.
    pub fn fcs(&self) -> (v: Vec<Fc>)
        ensures
            v@ == fcs_of(self.attributes@, self.attributes@.len()),
    {
        let mut v: Vec<Fc> = Vec::new();
        let mut i: usize = 0;
        while i < self.attributes.len()
            invariant
                i <= self.attributes@.len(),
                v@ == fcs_of(self.attributes@, i as nat),
            decreases self.attributes@.len() - i,
        {
            let fc = self.attributes[i].fc;
            if !has_fc(&v, fc) {
                v.push(fc);
            }
            i = i + 1;
        }
        v
    }
}

/// Reports whether `v` holds `fc`.
pub fn has_fc(v: &Vec<Fc>, fc: Fc) -> (b: bool)
    ensures
        b == v@.contains(fc),
{
    let mut i: usize = 0;
    while i < v.len()
        invariant
            i <= v@.len(),
            forall|j: int| 0 <= j < i ==> v@[j] != fc,
        decreases v@.len() - i,
    {
        if v[i] == fc {
            return true;
        }
        i = i + 1;
    }
    false
}

/// The constraints of an object are those of its attributes, each once, in the
/// order in which they first occur.
pub proof fn the_constraints_are_those_of_the_attributes(
    attributes: Seq<DataAttribute>,
    n: nat,
    fc: Fc,
)
    requires
        n <= attributes.len(),
    ensures
        fcs_of(attributes, n).contains(fc) <==> exists|i: int|
            0 <= i < n && (#[trigger] attributes[i]).fc == fc,
        fcs_of(attributes, n).no_duplicates(),
        n > 0 ==> fcs_of(attributes, n)[0] == attributes[0].fc,
    decreases n,
{
    if n > 0 {
        let m = (n - 1) as nat;
        let last = attributes[n - 1].fc;
        let before = fcs_of(attributes, m);
        the_constraints_are_those_of_the_attributes(attributes, m, fc);
        let all = fcs_of(attributes, n);
        if before.contains(last) {
            assert(all == before);
        } else {
            assert(all == before.push(last));
            if before.contains(fc) {
                let k = choose|k: int| 0 <= k < before.len() && before[k] == fc;
                assert(all[k] == fc);
            }
            assert(all[before.len() as int] == last);
            if all.contains(fc) && fc != last {
                let k = choose|k: int| 0 <= k < all.len() && all[k] == fc;
                assert(before[k] == fc);
            }
        }
        if fc == last {
            assert(attributes[n - 1].fc == fc);
        }
        if m == 0 {
            assert(before.len() == 0);
        } else {
            assert(before.len() > 0) by {
                the_constraints_are_those_of_the_attributes(attributes, m, attributes[0].fc);
                assert(attributes[0].fc == attributes[0].fc);
                assert(before.contains(attributes[0].fc));
            }
        }
    }
}

} // verus!
