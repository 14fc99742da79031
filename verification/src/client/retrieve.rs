//! Reconstructs a server's data model online, when no SCL file is available.

use vstd::prelude::*;

use super::directory::distinct;
use crate::mms::{Type, TypeSpec};
use crate::model::{DataAttribute, DataObject, Fc, LogicalDevice, LogicalNode, Model};
use crate::text::{
    chars, joined, lemma_joined_front, parts_hold_no_separator, same, split, split_on,
    splitting_undoes_joining, string_between, texts,
};
use vstd::utf8::{encode_utf8, is_char_boundary};

verus! {

/// A name without the decimal digits at its end.
pub open spec fn without_digits(s: Seq<char>) -> Seq<char>
    decreases s.len(),
{
    if s.len() > 0 && '0' <= s.last() <= '9' {
        without_digits(s.drop_last())
    } else {
        s
    }
}

/// Whether `class` is the class of a logical node: what is left of its name
/// without the instance number, or the last four octets of that.
pub open spec fn is_ln_class(name: Seq<char>, class: Seq<char>) -> bool {
    if name == "LLN0"@ {
        class == "LLN0"@
    } else {
        let core = encode_utf8(without_digits(name));
        if core.len() >= 4 {
            encode_utf8(class) == core.skip(core.len() - 4)
        } else {
            class == without_digits(name)
        }
    }
}

/// Whether the class of a logical node can be cut out of its name: the last
/// four octets without the instance number begin with a whole character.
pub open spec fn has_ln_class(name: Seq<char>) -> bool {
    let core = encode_utf8(without_digits(name));
    name == "LLN0"@ || core.len() < 4 || is_char_boundary(core, core.len() - 4)
}

/// Cuts the decimal digits at the end of a name.
fn core_of(name: &str) -> (core: String)
    ensures
        core@ == without_digits(name@),
{
    let cs = chars(name);
    let mut n: usize = cs.len();
    assert(name@.take(n as int) =~= name@);
    while n > 0 && '0' <= cs[n - 1] && cs[n - 1] <= '9'
        invariant
            n <= cs@.len(),
            cs@ == name@,
            without_digits(name@) == without_digits(name@.take(n as int)),
        decreases n,
    {
        assert(name@.take(n as int).drop_last() =~= name@.take(n - 1));
        n = n - 1;
    }
    let core = string_between(cs.as_slice(), 0, n);
    assert(core@ =~= name@.take(n as int));
    if n > 0 {
        assert(name@.take(n as int).last() == name@[n - 1]);
    }
    core
}

/// Extracts the logical-node class from an instance name, best effort.
///
/// Without SCL the server reports only the instance name, so the class is
/// recovered by stripping the trailing instance number and taking the
/// four-letter core: `Q0XCBR1` yields `XCBR`, and `LLN0` is itself.
pub fn ln_class(name: &str) -> (class: String)
    requires
        has_ln_class(name@),
    ensures
        is_ln_class(name@, class@),
{
    if same(name, "LLN0") {
        return "LLN0".to_owned();
    }
    let core = core_of(name);
    let len: usize = core.as_str().as_bytes().len();
    if len >= 4 {
        let (_, tail) = core.as_str().split_at(len - 4);
        proof {
            let b = encode_utf8(core@);
            assert(b.subrange(len - 4, b.len() as int) =~= b.skip(b.len() - 4));
        }
        tail.to_owned()
    } else {
        core
    }
}

/// Whether an attribute is what a type specification describes: structures
/// have one attribute per component, and everything else starts with the
/// type's initial value.
pub open spec fn describes(a: DataAttribute, name: Seq<char>, ts: TypeSpec, fc: Fc) -> bool
    decreases a,
{
    &&& a.name@ == name
    &&& a.fc == fc
    &&& a.kind == ts.kind
    &&& if ts.kind == Some(Type::Structure) {
        &&& a.value is None
        &&& a.count == 0
        &&& a.children@.len() == ts.components@.len()
        &&& forall|i: int|
            0 <= i < a.children@.len() ==> describes(
                #[trigger] a.children@[i],
                ts.components@[i].name@,
                ts.components@[i].spec,
                fc,
            )
    } else {
        &&& a.value matches Some(v) && v@ == ts.initial()
        &&& a.count == (if ts.kind == Some(Type::Array) {
            ts.elements
        } else {
            0
        })
        &&& a.children@.len() == 0
    }
}

/// The attribute that a type specification describes.
pub fn attr_from_spec(name: &str, ts: &TypeSpec, fc: Fc) -> (da: DataAttribute)
    ensures
        describes(da, name@, *ts, fc),
    decreases ts,
{
    let mut da = DataAttribute::default();
    da.name = name.to_owned();
    da.fc = fc;
    da.kind = ts.kind;
    match ts.kind {
        Some(Type::Structure) => {
            let mut children: Vec<DataAttribute> = Vec::new();
            let mut i: usize = 0;
            while i < ts.components.len()
                invariant
                    i <= ts.components@.len(),
                    children@.len() == i,
                    forall|j: int|
                        0 <= j < i ==> describes(
                            #[trigger] children@[j],
                            ts.components@[j].name@,
                            ts.components@[j].spec,
                            fc,
                        ),
                decreases ts.components@.len() - i,
            {
                proof {
                    assert(decreases_to!(ts => ts.components@));
                    assert(decreases_to!(ts.components@ => ts.components@[i as int]));
                    assert(decreases_to!(ts.components@[i as int] => ts.components@[i as int].spec));
                }
                let c = &ts.components[i];
                children.push(attr_from_spec(c.name.as_str(), &c.spec, fc));
                i = i + 1;
            }
            da.children = children;
        },
        Some(Type::Array) => {
            da.count = ts.elements;
            da.value = Some(ts.default_value());
        },
        _ => {
            da.value = Some(ts.default_value());
        },
    }
    da
}

/// Whether attributes are what a type specification adds to an object: one
/// attribute per component of a structure, and otherwise one attribute named
/// after the object.
pub open spec fn expands(
    added: Seq<DataAttribute>,
    object: Seq<char>,
    ts: TypeSpec,
    fc: Fc,
) -> bool {
    if ts.kind == Some(Type::Structure) {
        &&& added.len() == ts.components@.len()
        &&& forall|i: int|
            0 <= i < added.len() ==> describes(
                #[trigger] added[i],
                ts.components@[i].name@,
                ts.components@[i].spec,
                fc,
            )
    } else {
        &&& added.len() == 1
        &&& added[0].name@ == object
        &&& added[0].fc == fc
        &&& added[0].kind == ts.kind
        &&& added[0].value matches Some(v) && v@ == ts.initial()
        &&& added[0].count == 0
        &&& added[0].children@.len() == 0
    }
}

/// Grafts an MMS structure type spec onto a data object as data attributes
/// under the given functional constraint.
pub fn expand_type_spec(object: &mut DataObject, ts: &TypeSpec, fc: Fc)
    ensures
        final(object).name == old(object).name,
        final(object).cdc == old(object).cdc,
        final(object).objects == old(object).objects,
        final(object).attributes@.len() >= old(object).attributes@.len(),
        final(object).attributes@.take(old(object).attributes@.len() as int)
            == old(object).attributes@,
        expands(
            final(object).attributes@.skip(old(object).attributes@.len() as int),
            old(object).name@,
            *ts,
            fc,
        ),
{
    let ghost was = object.attributes@;
    let is_structure = match ts.kind {
        Some(Type::Structure) => true,
        _ => false,
    };
    if !is_structure {
        // A data object whose view under this constraint is a single value:
        // represent it as one attribute named after the object.
        let mut a = DataAttribute::default();
        a.name = object.name.clone();
        a.fc = fc;
        a.kind = ts.kind;
        a.value = Some(ts.default_value());
        object.attributes.push(a);
        proof {
            assert(object.attributes@.take(was.len() as int) =~= was);
            assert(object.attributes@.skip(was.len() as int) =~= seq![a]);
        }
        return;
    }
    let mut i: usize = 0;
    assert(object.attributes@.take(was.len() as int) =~= was);
    while i < ts.components.len()
        invariant
            i <= ts.components@.len(),
            ts.kind == Some(Type::Structure),
            object.name == old(object).name,
            object.cdc == old(object).cdc,
            object.objects == old(object).objects,
            was == old(object).attributes@,
            object.attributes@.len() == was.len() + i,
            object.attributes@.take(was.len() as int) == was,
            forall|j: int|
                0 <= j < i ==> describes(
                    #[trigger] object.attributes@[was.len() + j],
                    ts.components@[j].name@,
                    ts.components@[j].spec,
                    fc,
                ),
        decreases ts.components@.len() - i,
    {
        let c = &ts.components[i];
        let ghost before = object.attributes@;
        object.attributes.push(attr_from_spec(c.name.as_str(), &c.spec, fc));
        proof {
            assert(object.attributes@.take(was.len() as int) =~= before.take(was.len() as int));
            assert forall|j: int| 0 <= j <= i implies describes(
                #[trigger] object.attributes@[was.len() + j],
                ts.components@[j].name@,
                ts.components@[j].spec,
                fc,
            ) by {
                if j < i {
                    assert(object.attributes@[was.len() + j] == before[was.len() + j]);
                }
            }
        }
        i = i + 1;
    }
    proof {
        let added = object.attributes@.skip(was.len() as int);
        assert forall|j: int| 0 <= j < added.len() implies describes(
            #[trigger] added[j],
            ts.components@[j].name@,
            ts.components@[j].spec,
            fc,
        ) by {
            assert(added[j] == object.attributes@[was.len() + j]);
        }
    }
}

/// Whether node `i` is the first one of a name.
pub open spec fn node_at(nodes: Seq<LogicalNode>, name: Seq<char>, i: int) -> bool {
    &&& 0 <= i < nodes.len()
    &&& nodes[i].name@ == name
    &&& forall|j: int| 0 <= j < i ==> (#[trigger] nodes[j]).name@ != name
}

/// Whether a device has a node of a name.
pub open spec fn has_node(nodes: Seq<LogicalNode>, name: Seq<char>) -> bool {
    exists|i: int| 0 <= i < nodes.len() && (#[trigger] nodes[i]).name@ == name
}

/// Makes sure that a device has a logical node of a name, and returns where it
/// is. A new one comes last and is empty.
pub fn ensure_ln(ld: &mut LogicalDevice, name: &str) -> (i: usize)
    requires
        has_ln_class(name@),
    ensures
        final(ld).name == old(ld).name,
        node_at(final(ld).nodes@, name@, i as int),
        if has_node(old(ld).nodes@, name@) {
            final(ld).nodes@ == old(ld).nodes@
        } else {
            &&& i == old(ld).nodes@.len()
            &&& final(ld).nodes@ == old(ld).nodes@.push(final(ld).nodes@[i as int])
            &&& is_ln_class(name@, final(ld).nodes@[i as int].class@)
            &&& final(ld).nodes@[i as int].objects@.len() == 0
        },
{
    let mut i: usize = 0;
    while i < ld.nodes.len()
        invariant
            i <= ld.nodes@.len(),
            *ld == *old(ld),
            forall|j: int| 0 <= j < i ==> (#[trigger] ld.nodes@[j]).name@ != name@,
        decreases ld.nodes@.len() - i,
    {
        if same(ld.nodes[i].name.as_str(), name) {
            return i;
        }
        i = i + 1;
    }
    ld.nodes.push(
        LogicalNode { name: name.to_owned(), class: ln_class(name), objects: Vec::new() },
    );
    i
}

/// Whether object `i` is the first one of a name.
pub open spec fn object_at(objects: Seq<DataObject>, name: Seq<char>, i: int) -> bool {
    &&& 0 <= i < objects.len()
    &&& objects[i].name@ == name
    &&& forall|j: int| 0 <= j < i ==> (#[trigger] objects[j]).name@ != name
}

/// Whether a node has an object of a name.
pub open spec fn has_object(objects: Seq<DataObject>, name: Seq<char>) -> bool {
    exists|i: int| 0 <= i < objects.len() && (#[trigger] objects[i]).name@ == name
}

/// Makes sure that a logical node has a data object of a name, and returns
/// where it is. A new one comes last and is empty.
pub fn ensure_do(ln: &mut LogicalNode, name: &str) -> (i: usize)
    ensures
        final(ln).name == old(ln).name,
        final(ln).class == old(ln).class,
        object_at(final(ln).objects@, name@, i as int),
        if has_object(old(ln).objects@, name@) {
            final(ln).objects@ == old(ln).objects@
        } else {
            &&& i == old(ln).objects@.len()
            &&& final(ln).objects@ == old(ln).objects@.push(final(ln).objects@[i as int])
            &&& final(ln).objects@[i as int].cdc@.len() == 0
            &&& final(ln).objects@[i as int].attributes@.len() == 0
            &&& final(ln).objects@[i as int].objects@.len() == 0
        },
{
    let mut i: usize = 0;
    while i < ln.objects.len()
        invariant
            i <= ln.objects@.len(),
            *ln == *old(ln),
            forall|j: int| 0 <= j < i ==> (#[trigger] ln.objects@[j]).name@ != name@,
        decreases ln.objects@.len() - i,
    {
        if same(ln.objects[i].name.as_str(), name) {
            return i;
        }
        i = i + 1;
    }
    ln.objects.push(
        DataObject {
            name: name.to_owned(),
            cdc: String::new(),
            attributes: Vec::new(),
            objects: Vec::new(),
        },
    );
    i
}

/// The logical node that a variable name tells of: that of a bare entry, and
/// that of an object under a known constraint.
pub open spec fn told_node(name: Seq<char>) -> Option<Seq<char>> {
    let parts = split_on(name, '$');
    if parts.len() == 1 || (parts.len() >= 3 && Fc::is_named(parts[1])) {
        Some(parts[0])
    } else {
        None
    }
}

/// The object `LN$FC$DO` that a variable name belongs to.
pub open spec fn told_object(name: Seq<char>) -> Option<Seq<char>> {
    let parts = split_on(name, '$');
    if parts.len() >= 3 && Fc::is_named(parts[1]) {
        Some(parts[0] + "$"@ + parts[1] + "$"@ + parts[2])
    } else {
        None
    }
}

/// What a device's variable names tell: the objects whose types are to be
/// fetched, and the logical nodes.
#[derive(Debug)]
pub struct RetrievePlan {
    /// The items `LN$FC$DO`, each once, in the server's order.
    pub items: Vec<String>,
    /// The logical nodes, each once, in the server's order.
    pub nodes: Vec<String>,
}

/// Groups variable names by logical node, constraint and top-level object. The
/// type spec of each `LN$FC$DO` is fetched once and expanded into the model
/// tree.
pub fn retrieve_plan(names: &Vec<String>) -> (p: RetrievePlan)
    ensures
        texts(p.items@) == distinct(texts(names@), names@.len(), |n: Seq<char>| told_object(n)),
        texts(p.nodes@) == distinct(texts(names@), names@.len(), |n: Seq<char>| told_node(n)),
{
    let ghost pick_item = |n: Seq<char>| told_object(n);
    let ghost pick_node = |n: Seq<char>| told_node(n);
    let ghost all = texts(names@);
    let mut items: Vec<String> = Vec::new();
    let mut nodes: Vec<String> = Vec::new();
    let mut i: usize = 0;
    assert(texts(items@) =~= distinct(all, 0, pick_item));
    assert(texts(nodes@) =~= distinct(all, 0, pick_node));
    while i < names.len()
        invariant
            i <= names@.len(),
            all == texts(names@),
            pick_item == (|n: Seq<char>| told_object(n)),
            pick_node == (|n: Seq<char>| told_node(n)),
            texts(items@) == distinct(all, i as nat, pick_item),
            texts(nodes@) == distinct(all, i as nat, pick_node),
        decreases names@.len() - i,
    {
        let parts = split(names[i].as_str(), '$');
        let ghost ps = texts(parts@);
        assert(ps.len() == parts@.len());
        assert(all[i as int] == names@[i as int]@);
        assert(ps[0] == parts@[0]@);
        let mut known = parts.len() == 1;
        if parts.len() >= 3 {
            assert(ps[1] == parts@[1]@ && ps[2] == parts@[2]@);
            if let Some(fc) = Fc::parse(parts[1].as_str()) {
                assert(fc.text() == ps[1]);
                known = true;
                let mut item = super::concat3(parts[0].as_str(), "$", parts[1].as_str());
                crate::text::push_str(&mut item, "$");
                crate::text::push_str(&mut item, parts[2].as_str());
                super::directory::add_once(&mut items, item);
            }
        }
        if known {
            super::directory::add_once(&mut nodes, parts[0].clone());
        }
        i = i + 1;
    }
    RetrievePlan { items, nodes }
}

/// Takes an item `LN$FC$DO` apart: the logical node, the constraint and the
/// object that the type of the item is grafted onto.
pub fn item_parts(item: &str) -> (r: Option<(String, Fc, String)>)
    ensures
        ({
            let parts = split_on(item@, '$');
            match r {
                Some((ln, fc, object)) => {
                    &&& parts.len() == 3
                    &&& ln@ == parts[0]
                    &&& fc.is_code() && fc.text() == parts[1]
                    &&& object@ == parts[2]
                },
                None => parts.len() != 3 || !Fc::is_named(parts[1]),
            }
        }),
{
    let parts = split(item, '$');
    let ghost ps = texts(parts@);
    assert(ps.len() == parts@.len());
    if parts.len() != 3 {
        return None;
    }
    assert(ps[0] == parts@[0]@ && ps[1] == parts@[1]@ && ps[2] == parts@[2]@);
    match Fc::parse(parts[1].as_str()) {
        Some(fc) => Some((parts[0].clone(), fc, parts[2].clone())),
        None => None,
    }
}

/// What a plan fetches can be grafted: an item that a variable name tells of
/// has the parts of that name.
pub proof fn a_planned_item_has_its_parts(name: Seq<char>)
    requires
        told_object(name) is Some,
    ensures
        split_on(told_object(name)->0, '$') == split_on(name, '$').take(3),
        told_node(name) == Some(split_on(told_object(name)->0, '$')[0]),
{
    let all = split_on(name, '$');
    let parts = all.take(3);
    reveal_strlit("$");
    assert("$"@ =~= seq!['$']);
    parts_hold_no_separator(name, '$', '$');
    assert forall|i: int| 0 <= i < parts.len() implies !(#[trigger] parts[i]).contains('$') by {
        assert(parts[i] == all[i]);
    }
    splitting_undoes_joining(parts, '$');
    assert(joined(parts, seq!['$']) == told_object(name)->0) by {
        assert(parts =~= seq![all[0]] + (seq![all[1]] + seq![all[2]]));
        lemma_joined_front(all[0], seq![all[1]] + seq![all[2]], seq!['$']);
        lemma_joined_front(all[1], seq![all[2]], seq!['$']);
        assert(joined(seq![all[2]], seq!['$']) == all[2]);
        assert(joined(parts, seq!['$']) =~= all[0] + seq!['$'] + all[1] + seq!['$'] + all[2]);
    }
}

/// Whether `after` is `before` with a type grafted onto one object: the node
/// and the object are added where they are missing, the object gains the
/// attributes that the type describes, and nothing else changes.
pub open spec fn grafted(
    before: LogicalDevice,
    after: LogicalDevice,
    ln: Seq<char>,
    object: Seq<char>,
    ts: TypeSpec,
    fc: Fc,
) -> bool {
    exists|i: int, j: int|
        #![trigger after.nodes@[i].objects@[j]]
        grafted_at(before, after, ln, object, ts, fc, i, j)
}

/// `grafted`, at object `j` of node `i`.
pub open spec fn grafted_at(
    before: LogicalDevice,
    after: LogicalDevice,
    ln: Seq<char>,
    object: Seq<char>,
    ts: TypeSpec,
    fc: Fc,
    i: int,
    j: int,
) -> bool {
    let old_objects = if i < before.nodes@.len() {
        before.nodes@[i].objects@
    } else {
        Seq::empty()
    };
    let old_attributes = if j < old_objects.len() {
        old_objects[j].attributes@
    } else {
        Seq::empty()
    };
    let node = after.nodes@[i];
    let target = node.objects@[j];
    &&& after.name == before.name
    &&& node_at(after.nodes@, ln, i)
    &&& object_at(node.objects@, object, j)
    &&& i <= before.nodes@.len()
    &&& after.nodes@.len() == (if i < before.nodes@.len() {
        before.nodes@.len()
    } else {
        before.nodes@.len() + 1
    })
    &&& forall|k: int|
        0 <= k < before.nodes@.len() && k != i ==> #[trigger] after.nodes@[k] == before.nodes@[k]
    &&& i < before.nodes@.len() ==> before.nodes@[i].name@ == ln && node.class
        == before.nodes@[i].class
    &&& i == before.nodes@.len() ==> is_ln_class(ln, node.class@)
    &&& j <= old_objects.len()
    &&& node.objects@.len() == (if j < old_objects.len() {
        old_objects.len()
    } else {
        old_objects.len() + 1
    })
    &&& forall|k: int|
        0 <= k < old_objects.len() && k != j ==> #[trigger] node.objects@[k] == old_objects[k]
    &&& j < old_objects.len() ==> old_objects[j].name@ == object && target.cdc
        == old_objects[j].cdc && target.objects == old_objects[j].objects
    &&& j == old_objects.len() ==> target.cdc@.len() == 0 && target.objects@.len() == 0
    &&& target.attributes@.len() >= old_attributes.len()
    &&& target.attributes@.take(old_attributes.len() as int) == old_attributes
    &&& expands(target.attributes@.skip(old_attributes.len() as int), object, ts, fc)
}

/// Grafts the type of an object onto the device's tree.
pub fn graft(ld: &mut LogicalDevice, ln: &str, object: &str, ts: &TypeSpec, fc: Fc)
    requires
        has_ln_class(ln@),
    ensures
        grafted(*old(ld), *final(ld), ln@, object@, *ts, fc),
{
    let i: usize = ensure_ln(ld, ln);
    let ghost mid = *ld;
    let node = &mut ld.nodes[i];
    let j: usize = ensure_do(node, object);
    let ghost with_do = *node;
    let target = &mut node.objects[j];
    expand_type_spec(target, ts, fc);
    proof {
        assert(ld.nodes@ =~= mid.nodes@.update(i as int, ld.nodes@[i as int]));
        assert(ld.nodes@[i as int].objects@ =~= with_do.objects@.update(
            j as int,
            ld.nodes@[i as int].objects@[j as int],
        ));
        let n = ld.nodes@[i as int];
        let t = n.objects@[j as int];
        let old_objects = if i < old(ld).nodes@.len() {
            old(ld).nodes@[i as int].objects@
        } else {
            Seq::empty()
        };
        let old_attributes = if j < old_objects.len() {
            old_objects[j as int].attributes@
        } else {
            Seq::empty()
        };
        assert(mid.nodes@[i as int].objects@ =~= old_objects);
        assert(with_do.objects@[j as int].attributes@ =~= old_attributes);
        assert(node_at(ld.nodes@, ln@, i as int));
        assert(object_at(n.objects@, object@, j as int));
        assert(j <= old_objects.len());
        assert(expands(t.attributes@.skip(old_attributes.len() as int), object@, *ts, fc));
        assert(forall|k: int|
            0 <= k < old_objects.len() && k != j ==> #[trigger] n.objects@[k] == old_objects[k]);
        assert(forall|k: int|
            0 <= k < old(ld).nodes@.len() && k != i ==> #[trigger] ld.nodes@[k] == old(ld).nodes@[k]);
        assert(grafted_at(*old(ld), *ld, ln@, object@, *ts, fc, i as int, j as int));
    }
}

/// Whether `a` comes no later than `b` in the order of their characters.
pub open spec fn not_after(a: Seq<char>, b: Seq<char>) -> bool
    decreases a.len(),
{
    if a.len() == 0 {
        true
    } else if b.len() == 0 {
        false
    } else if a[0] != b[0] {
        a[0] < b[0]
    } else {
        not_after(a.skip(1), b.skip(1))
    }
}

proof fn lemma_not_after_total(a: Seq<char>, b: Seq<char>)
    ensures
        not_after(a, b) || not_after(b, a),
    decreases a.len(),
{
    if a.len() > 0 && b.len() > 0 && a[0] == b[0] {
        lemma_not_after_total(a.skip(1), b.skip(1));
    }
}

proof fn lemma_not_after_transitive(a: Seq<char>, b: Seq<char>, c: Seq<char>)
    requires
        not_after(a, b),
        not_after(b, c),
    ensures
        not_after(a, c),
    decreases a.len(),
{
    if a.len() > 0 && b.len() > 0 && c.len() > 0 && a[0] == b[0] && b[0] == c[0] {
        lemma_not_after_transitive(a.skip(1), b.skip(1), c.skip(1));
    }
}

fn comes_no_later(a: &str, b: &str) -> (r: bool)
    ensures
        r == not_after(a@, b@),
{
    let x = chars(a);
    let y = chars(b);
    let mut i: usize = 0;
    assert(a@.skip(0) =~= a@);
    assert(b@.skip(0) =~= b@);
    while i < x.len() && i < y.len()
        invariant
            i <= x@.len(),
            i <= y@.len(),
            x@ == a@,
            y@ == b@,
            not_after(a@, b@) == not_after(a@.skip(i as int), b@.skip(i as int)),
        decreases x@.len() - i,
    {
        if x[i] != y[i] {
            return x[i] < y[i];
        }
        assert(a@.skip(i as int).skip(1) =~= a@.skip(i + 1));
        assert(b@.skip(i as int).skip(1) =~= b@.skip(i + 1));
        i = i + 1;
    }
    i >= x.len()
}

/// The first `n` nodes stand in the order of their names.
pub open spec fn ordered(nodes: Seq<LogicalNode>, n: int) -> bool {
    forall|a: int, b: int|
        0 <= a <= b < n ==> not_after((#[trigger] nodes[a]).name@, (#[trigger] nodes[b]).name@)
}

/// Sorts nodes by name.
fn sort_nodes(nodes: &mut Vec<LogicalNode>)
    ensures
        ordered(final(nodes)@, final(nodes)@.len() as int),
        final(nodes)@.to_multiset() == old(nodes)@.to_multiset(),
{
    let mut i: usize = 0;
    while i < nodes.len()
        invariant
            i <= nodes@.len(),
            nodes@.len() == old(nodes)@.len(),
            ordered(nodes@, i as int),
            nodes@.to_multiset() == old(nodes)@.to_multiset(),
        decreases nodes@.len() - i,
    {
        let ghost before = nodes@;
        let mut j: usize = i;
        while j > 0 && !comes_no_later(nodes[j - 1].name.as_str(), nodes[i].name.as_str())
            invariant
                j <= i < nodes@.len(),
                nodes@ == before,
                ordered(before, i as int),
                forall|k: int| j <= k < i ==> !not_after((#[trigger] before[k]).name@, before[i as int].name@),
            decreases j,
        {
            j = j - 1;
        }
        let x = nodes.remove(i);
        nodes.insert(j, x);
        proof {
            let removed = before.remove(i as int);
            assert(nodes@ =~= removed.insert(j as int, x));
            assert(before =~= removed.insert(i as int, x));
            vstd::seq_lib::to_multiset_insert(removed, i as int, x);
            vstd::seq_lib::to_multiset_insert(removed, j as int, x);
            assert forall|a: int, b: int| 0 <= a <= b < i + 1 implies not_after(
                (#[trigger] nodes@[a]).name@,
                (#[trigger] nodes@[b]).name@,
            ) by {
                lemma_not_after_total(nodes@[a].name@, nodes@[b].name@);
                if a < j && b > j {
                    assert(nodes@[a] == before[a] && nodes@[b] == before[b - 1]);
                } else if b == j && a < j {
                    assert(nodes@[a] == before[a]);
                    assert(not_after(before[a].name@, before[j - 1].name@));
                    lemma_not_after_transitive(
                        before[a].name@,
                        before[j - 1].name@,
                        x.name@,
                    );
                } else if a == j && b > j {
                    assert(nodes@[b] == before[b - 1]);
                    lemma_not_after_total(before[b - 1].name@, x.name@);
                } else if a > j {
                    assert(nodes@[a] == before[a - 1] && nodes@[b] == before[b - 1]);
                } else if b < j {
                    assert(nodes@[a] == before[a] && nodes@[b] == before[b]);
                }
            }
        }
        i = i + 1;
    }
}

/// Adds the logical nodes with no readable objects, which still appear, and
/// sorts the nodes by name.
pub fn finish_device(ld: &mut LogicalDevice, nodes: &Vec<String>)
    requires
        forall|i: int| 0 <= i < nodes@.len() ==> has_ln_class((#[trigger] nodes@[i])@),
    ensures
        final(ld).name == old(ld).name,
        ordered(final(ld).nodes@, final(ld).nodes@.len() as int),
        exists|all: Seq<LogicalNode>|
            #[trigger] filled(old(ld).nodes@, texts(nodes@), nodes@.len(), all)
                && final(ld).nodes@.to_multiset() == all.to_multiset(),
{
    let ghost start = ld.nodes@;
    let ghost names = texts(nodes@);
    let mut i: usize = 0;
    while i < nodes.len()
        invariant
            i <= nodes@.len(),
            ld.name == old(ld).name,
            names == texts(nodes@),
            forall|i: int| 0 <= i < nodes@.len() ==> has_ln_class((#[trigger] nodes@[i])@),
            filled(start, names, i as nat, ld.nodes@),
        decreases nodes@.len() - i,
    {
        let ghost before = ld.nodes@;
        let k: usize = ensure_ln(ld, nodes[i].as_str());
        proof {
            assert(names[i as int] == nodes@[i as int]@);
            if !has_node(before, names[i as int]) {
                let n = ld.nodes@[k as int];
                assert(ld.nodes@ =~= before.push(n));
                assert(ld.nodes@.drop_last() =~= before);
            }
        }
        i = i + 1;
    }
    let ghost all = ld.nodes@;
    sort_nodes(&mut ld.nodes);
    assert(filled(start, names, nodes@.len(), all));
}

/// Whether `all` is `start` with an empty node behind it for each of the first
/// `n` of `names` that it lacks.
pub open spec fn filled(
    start: Seq<LogicalNode>,
    names: Seq<Seq<char>>,
    n: nat,
    all: Seq<LogicalNode>,
) -> bool
    decreases n,
{
    if n == 0 || n > names.len() {
        all == start
    } else {
        ||| has_node(all, names[n - 1]) && filled(start, names, (n - 1) as nat, all)
        ||| {
            &&& all.len() > 0
            &&& !has_node(all.drop_last(), names[n - 1])
            &&& all.last().name@ == names[n - 1]
            &&& is_ln_class(names[n - 1], all.last().class@)
            &&& all.last().objects@.len() == 0
            &&& filled(start, names, (n - 1) as nat, all.drop_last())
        }
    }
}

/// Whether the class of every logical node that variable names tell of can be
/// cut out of its name.
pub open spec fn all_classed(names: Seq<Seq<char>>) -> bool {
    forall|i: int|
        0 <= i < names.len() ==> (told_node(#[trigger] names[i]) matches Some(ln) ==> has_ln_class(
            ln,
        ))
}

/// Reports whether the class of a logical node can be cut out of its name.
pub fn class_known(name: &str) -> (b: bool)
    ensures
        b == has_ln_class(name@),
{
    if same(name, "LLN0") {
        return true;
    }
    let core = core_of(name);
    let len: usize = core.as_str().as_bytes().len();
    len < 4 || core.as_str().is_char_boundary(len - 4)
}

/// Reports whether the class of every logical node that variable names tell of
/// can be cut out of its name.
pub fn classes_known(names: &Vec<String>) -> (b: bool)
    ensures
        b == all_classed(texts(names@)),
{
    let plan = retrieve_plan(names);
    let ghost all = texts(names@);
    let ghost pick = |n: Seq<char>| told_node(n);
    let mut i: usize = 0;
    while i < plan.nodes.len()
        invariant
            i <= plan.nodes@.len(),
            all == texts(names@),
            pick == (|n: Seq<char>| told_node(n)),
            texts(plan.nodes@) == distinct(all, all.len(), pick),
            forall|j: int| 0 <= j < i ==> has_ln_class((#[trigger] plan.nodes@[j])@),
        decreases plan.nodes@.len() - i,
    {
        if !class_known(plan.nodes[i].as_str()) {
            proof {
                let ln = plan.nodes@[i as int]@;
                assert(texts(plan.nodes@)[i as int] == ln);
                super::directory::listings_are_complete(all, all.len(), pick, ln);
                assert(distinct(all, all.len(), pick).contains(ln));
                let k = choose|k: int| 0 <= k < all.len() && pick(#[trigger] all[k]) == Some(ln);
                assert(told_node(all[k]) == Some(ln));
            }
            return false;
        }
        i = i + 1;
    }
    proof {
        assert forall|k: int| 0 <= k < all.len() implies (told_node(#[trigger] all[k]) matches Some(
            ln,
        ) ==> has_ln_class(ln)) by {
            if let Some(ln) = told_node(all[k]) {
                super::directory::listings_are_complete(all, all.len(), pick, ln);
                assert(pick(all[k]) == Some(ln));
                let j = choose|j: int|
                    0 <= j < texts(plan.nodes@).len() && texts(plan.nodes@)[j] == ln;
                assert(plan.nodes@[j]@ == ln);
            }
        }
    }
    true
}

/// Whether the type of an item can be grafted: it has three parts, a known
/// constraint and a logical node with a class.
pub open spec fn graftable(item: Seq<char>) -> bool {
    let parts = split_on(item, '$');
    parts.len() == 3 && Fc::is_named(parts[1]) && has_ln_class(parts[0])
}

/// The retrieval of one logical device: the type of each object is fetched in
/// turn and expanded into the model tree.
#[derive(Debug)]
pub struct Retrieval {
    pub device: LogicalDevice,
    pub plan: RetrievePlan,
    /// How many types have been fetched.
    pub at: usize,
}

impl Retrieval {
    /// Whether everything that is planned can be carried out.
    pub open spec fn valid(self) -> bool {
        &&& self.at <= self.plan.items@.len()
        &&& forall|i: int|
            0 <= i < self.plan.items@.len() ==> graftable((#[trigger] self.plan.items@[i])@)
        &&& forall|i: int|
            0 <= i < self.plan.nodes@.len() ==> has_ln_class((#[trigger] self.plan.nodes@[i])@)
    }

    /// Whether `after` is this once the type of the item asked for was fetched.
    /// An object that the server will not introspect is skipped.
    pub open spec fn leads(self, ts: Option<TypeSpec>, after: Retrieval) -> bool {
        let parts = split_on(self.plan.items@[self.at as int]@, '$');
        &&& after.plan == self.plan
        &&& after.at == self.at + 1
        &&& match ts {
            None => after.device == self.device,
            Some(ts) => exists|fc: Fc|
                fc.is_code() && #[trigger] fc.text() == parts[1] && grafted(
                    self.device,
                    after.device,
                    parts[0],
                    parts[2],
                    ts,
                    fc,
                ),
        }
    }

    /// Begins with the variable names of a device.
    pub fn new(domain: &str, names: &Vec<String>) -> (r: Retrieval)
        requires
            all_classed(texts(names@)),
        ensures
            r.valid(),
            r.at == 0,
            r.device.name@ == domain@,
            r.device.nodes@.len() == 0,
            texts(r.plan.items@) == distinct(
                texts(names@),
                names@.len(),
                |n: Seq<char>| told_object(n),
            ),
            texts(r.plan.nodes@) == distinct(
                texts(names@),
                names@.len(),
                |n: Seq<char>| told_node(n),
            ),
    {
        let plan = retrieve_plan(names);
        proof {
            let all = texts(names@);
            let pick_item = |n: Seq<char>| told_object(n);
            let pick_node = |n: Seq<char>| told_node(n);
            assert forall|i: int| 0 <= i < plan.items@.len() implies graftable(
                (#[trigger] plan.items@[i])@,
            ) by {
                let item = plan.items@[i]@;
                assert(texts(plan.items@)[i] == item);
                super::directory::listings_are_complete(all, all.len(), pick_item, item);
                assert(distinct(all, all.len(), pick_item).contains(item));
                let k = choose|k: int|
                    0 <= k < all.len() && pick_item(#[trigger] all[k]) == Some(item);
                assert(told_object(all[k]) == Some(item));
                a_planned_item_has_its_parts(all[k]);
                assert(split_on(item, '$')[1] == split_on(all[k], '$')[1]);
            }
            assert forall|i: int| 0 <= i < plan.nodes@.len() implies has_ln_class(
                (#[trigger] plan.nodes@[i])@,
            ) by {
                let ln = plan.nodes@[i]@;
                assert(texts(plan.nodes@)[i] == ln);
                super::directory::listings_are_complete(all, all.len(), pick_node, ln);
                assert(distinct(all, all.len(), pick_node).contains(ln));
                let k = choose|k: int|
                    0 <= k < all.len() && pick_node(#[trigger] all[k]) == Some(ln);
                assert(told_node(all[k]) == Some(ln));
            }
        }
        let device = LogicalDevice { name: domain.to_owned(), nodes: Vec::new() };
        Retrieval { device, plan, at: 0 }
    }

    /// The item whose type is to be fetched next, none once all are.
    pub fn wanted(&self) -> (r: Option<String>)
        ensures
            match r {
                Some(item) => self.at < self.plan.items@.len() && item@
                    == self.plan.items@[self.at as int]@,
                None => self.at >= self.plan.items@.len(),
            },
    {
        if self.at < self.plan.items.len() {
            Some(self.plan.items[self.at].clone())
        } else {
            None
        }
    }

    /// Takes the type that was asked for, if the server gave it.
    pub fn on_type(self, ts: Option<TypeSpec>) -> (r: Retrieval)
        requires
            self.valid(),
            self.at < self.plan.items@.len(),
        ensures
            r.valid(),
            self.leads(ts, r),
    {
        let Retrieval { device, plan, at } = self;
        let mut device = device;
        let next: usize = if at < plan.items.len() {
            at + 1
        } else {
            at
        };
        if let Some(ts) = &ts {
            assert(graftable(plan.items@[at as int]@));
            if let Some((ln, fc, object)) = item_parts(plan.items[at].as_str()) {
                graft(&mut device, ln.as_str(), object.as_str(), ts, fc);
            }
        }
        Retrieval { device, plan, at: next }
    }

    /// The device once everything was fetched. Logical nodes with no readable
    /// objects still appear, and the nodes stand in the order of their names.
    pub fn finish(self) -> (ld: LogicalDevice)
        requires
            self.valid(),
        ensures
            ld.name == self.device.name,
            ordered(ld.nodes@, ld.nodes@.len() as int),
            exists|all: Seq<LogicalNode>|
                #[trigger] filled(
                    self.device.nodes@,
                    texts(self.plan.nodes@),
                    self.plan.nodes@.len(),
                    all,
                ) && ld.nodes@.to_multiset() == all.to_multiset(),
    {
        let Retrieval { device, plan, at: _ } = self;
        let mut device = device;
        finish_device(&mut device, &plan.nodes);
        device
    }
}

/// Puts the devices of a server into a model, named after the first.
///
/// Best effort: the IED name is the common prefix up to the LD instance, which
/// the server does not report separately.
pub fn retrieve_model(devices: Vec<LogicalDevice>) -> (m: Model)
    ensures
        m.devices == devices,
        m.name@ == (if devices@.len() > 0 {
            devices@[0].name@
        } else {
            Seq::empty()
        }),
{
    let name = if devices.len() > 0 {
        devices[0].name.clone()
    } else {
        String::new()
    };
    Model { name, devices }
}

/// The class of a node is cut out of its name: the instance number at its end
/// does not count, however long it is, and of what stands before it the last
/// four octets do, or all of it where it is shorter.
pub proof fn a_class_is_cut_out_of_its_name(
    core: Seq<char>,
    digits: Seq<char>,
    class: Seq<char>,
)
    requires
        core.len() == 0 || !('0' <= core.last() <= '9'),
        forall|i: int| 0 <= i < digits.len() ==> '0' <= #[trigger] digits[i] <= '9',
        core + digits != "LLN0"@,
    ensures
        without_digits(core + digits) == core,
        is_ln_class(core + digits, class) && encode_utf8(core).len() < 4 ==> class == core,
        is_ln_class(core + digits, class) && encode_utf8(core).len() >= 4 ==> encode_utf8(
            class,
        ).len() == 4 && encode_utf8(class).is_suffix_of(encode_utf8(core)),
        is_ln_class("LLN0"@, class) <==> class == "LLN0"@,
{
    lemma_without_digits(core, digits);
}

proof fn lemma_without_digits(core: Seq<char>, digits: Seq<char>)
    requires
        core.len() == 0 || !('0' <= core.last() <= '9'),
        forall|i: int| 0 <= i < digits.len() ==> '0' <= #[trigger] digits[i] <= '9',
    ensures
        without_digits(core + digits) == core,
    decreases digits.len(),
{
    let s = core + digits;
    if digits.len() == 0 {
        assert(s =~= core);
    } else {
        let d = digits.drop_last();
        assert(s.last() == digits[digits.len() - 1]);
        assert(s.drop_last() =~= core + d);
        assert forall|i: int| 0 <= i < d.len() implies '0' <= #[trigger] d[i] <= '9' by {
            assert(d[i] == digits[i]);
        }
        lemma_without_digits(core, d);
    }
}

/// A variable tells of the object that its first three parts name, whatever
/// stands below it, and of the node of that object; a bare name tells of a node
/// alone, and a node with a constraint of nothing.
pub proof fn a_variable_tells_of_its_object(
    ln: Seq<char>,
    fc: Fc,
    object: Seq<char>,
    below: Seq<Seq<char>>,
)
    requires
        fc.is_code(),
        !ln.contains('$'),
        !object.contains('$'),
        forall|i: int| 0 <= i < below.len() ==> !(#[trigger] below[i]).contains('$'),
    ensures
        told_object(joined(seq![ln, fc.text(), object] + below, "$"@)) == Some(
            ln + "$"@ + fc.text() + "$"@ + object,
        ),
        told_node(joined(seq![ln, fc.text(), object] + below, "$"@)) == Some(ln),
        told_node(ln) == Some(ln),
        told_object(ln) is None,
        told_node(ln + "$"@ + fc.text()) is None,
        told_object(ln + "$"@ + fc.text()) is None,
{
    reveal_strlit("$");
    assert("$"@ =~= seq!['$']);
    crate::model::reference::lemma_no_dollar_in_code(fc);
    let parts = seq![ln, fc.text(), object] + below;
    assert forall|i: int| 0 <= i < parts.len() implies !(#[trigger] parts[i]).contains('$') by {
        if i >= 3 {
            assert(parts[i] == below[i - 3]);
        }
    }
    splitting_undoes_joining(parts, '$');
    assert(parts[1] == fc.text() && Fc::is_named(parts[1]));
    let bare = seq![ln];
    splitting_undoes_joining(bare, '$');
    assert(joined(bare, "$"@) == ln);
    let pair = seq![ln, fc.text()];
    assert(pair =~= seq![ln] + seq![fc.text()]);
    lemma_joined_front(ln, seq![fc.text()], "$"@);
    splitting_undoes_joining(pair, '$');
}

/// The type that stands below another one along a path of components.
pub open spec fn component_along(ts: TypeSpec, path: Seq<int>) -> Option<TypeSpec>
    decreases path.len(),
{
    if path.len() == 0 {
        Some(ts)
    } else if ts.kind == Some(Type::Structure) && 0 <= path[0] < ts.components@.len() {
        component_along(ts.components@[path[0]].spec, path.skip(1))
    } else {
        None
    }
}

/// The attribute that stands below another one along a path of children.
pub open spec fn attribute_along(a: DataAttribute, path: Seq<int>) -> Option<DataAttribute>
    decreases path.len(),
{
    if path.len() == 0 {
        Some(a)
    } else if 0 <= path[0] < a.children@.len() {
        attribute_along(a.children@[path[0]], path.skip(1))
    } else {
        None
    }
}

/// A type becomes a tree of attributes of the same shape, however deep it goes:
/// along every path there is an attribute exactly where there is a component,
/// of its kind and under the constraint of the whole; where no components are
/// below, it holds the initial value of its type, and an array says how many
/// elements it has.
pub proof fn every_component_becomes_an_attribute(
    a: DataAttribute,
    name: Seq<char>,
    ts: TypeSpec,
    fc: Fc,
    path: Seq<int>,
)
    requires
        describes(a, name, ts, fc),
    ensures
        a.name@ == name,
        attribute_along(a, path) is Some <==> component_along(ts, path) is Some,
        attribute_along(a, path) matches Some(x) ==> {
            let t = component_along(ts, path)->0;
            &&& x.kind == t.kind
            &&& x.fc == fc
            &&& t.kind == Some(Type::Structure) ==> x.value is None && x.children@.len()
                == t.components@.len() && forall|i: int|
                0 <= i < t.components@.len() ==> (#[trigger] x.children@[i]).name@
                    == t.components@[i].name@
            &&& t.kind != Some(Type::Structure) ==> x.children@.len() == 0 && x.value is Some
                && x.value->0@ == t.initial()
            &&& t.kind == Some(Type::Array) ==> x.count == t.elements
        },
    decreases path.len(),
{
    if path.len() == 0 {
        assert forall|i: int|
            ts.kind == Some(Type::Structure) && 0 <= i < ts.components@.len() implies (
        #[trigger] a.children@[i]).name@ == ts.components@[i].name@ by {
            assert(describes(a.children@[i], ts.components@[i].name@, ts.components@[i].spec, fc));
        }
    } else if ts.kind == Some(Type::Structure) && 0 <= path[0] < ts.components@.len() {
        let i = path[0];
        assert(describes(a.children@[i], ts.components@[i].name@, ts.components@[i].spec, fc));
        every_component_becomes_an_attribute(
            a.children@[i],
            ts.components@[i].name@,
            ts.components@[i].spec,
            fc,
            path.skip(1),
        );
    }
}

/// Grafting a type onto an object changes that object alone: it is there
/// afterwards, with its attributes of before in front of the new ones, and every
/// other object and every other node is as it was.
pub proof fn grafting_touches_one_object(
    before: LogicalDevice,
    after: LogicalDevice,
    ln: Seq<char>,
    object: Seq<char>,
    ts: TypeSpec,
    fc: Fc,
    k: int,
    m: int,
)
    requires
        grafted(before, after, ln, object, ts, fc),
        0 <= k < before.nodes@.len(),
    ensures
        after.name@ == before.name@,
        k < after.nodes@.len(),
        before.nodes@[k].name@ != ln ==> after.nodes@[k] == before.nodes@[k],
        0 <= m < before.nodes@[k].objects@.len() && before.nodes@[k].objects@[m].name@ != object
            ==> after.nodes@[k].objects@.len() > m && after.nodes@[k].objects@[m]
            == before.nodes@[k].objects@[m],
        exists|i: int, j: int|
            0 <= i < after.nodes@.len() && 0 <= j < after.nodes@[i].objects@.len()
                && after.nodes@[i].name@ == ln && (
            #[trigger] after.nodes@[i].objects@[j]).name@ == object
                && after.nodes@[i].objects@[j].attributes@.len() >= (if ts.kind == Some(
                Type::Structure,
            ) {
                ts.components@.len()
            } else {
                1
            }),
{
    let (i, j) = choose|i: int, j: int|
        #![trigger after.nodes@[i].objects@[j]]
        grafted_at(before, after, ln, object, ts, fc, i, j);
    assert(after.nodes@[i].objects@[j].name@ == object);
    if k == i {
        if 0 <= m < before.nodes@[k].objects@.len() && before.nodes@[k].objects@[m].name@ != object {
            if m == j {
                assert(after.nodes@[i].objects@[j].name@ == object);
            }
        }
    }
}

/// A finished device has every node that its names tell of: those that were
/// there as they were, and the others empty.
pub proof fn every_node_appears(
    start: Seq<LogicalNode>,
    names: Seq<Seq<char>>,
    n: nat,
    all: Seq<LogicalNode>,
    i: int,
)
    requires
        filled(start, names, n, all),
        n <= names.len(),
    ensures
        start.len() <= all.len(),
        all.take(start.len() as int) == start,
        0 <= i < n ==> has_node(all, names[i]),
        start.len() <= i < all.len() ==> all[i].objects@.len() == 0 && names.contains(all[i].name@),
    decreases n,
{
    if n == 0 {
        assert(all.take(start.len() as int) =~= start);
    } else {
        let m = (n - 1) as nat;
        if has_node(all, names[n - 1]) && filled(start, names, m, all) {
            every_node_appears(start, names, m, all, i);
        } else {
            let rest = all.drop_last();
            every_node_appears(start, names, m, rest, i);
            assert(all.take(start.len() as int) =~= rest.take(start.len() as int));
            if 0 <= i < m {
                let k = choose|k: int| 0 <= k < rest.len() && (#[trigger] rest[k]).name@ == names[i];
                assert(all[k].name@ == names[i]);
            }
            assert(all[all.len() - 1].name@ == names[n - 1]);
            if start.len() <= i < all.len() {
                if i < rest.len() {
                    assert(all[i] == rest[i]);
                } else {
                    assert(names.contains(names[n - 1]));
                }
            }
        }
    }
}

/// Names stand in the order of their characters, from the first that differs
/// on; a name stands before every longer one that begins with it. This is an
/// order: any two names have one, and one only.
pub proof fn names_have_one_order(p: Seq<char>, a: Seq<char>, b: Seq<char>)
    ensures
        not_after(Seq::empty(), a),
        a.len() > 0 ==> !not_after(a, Seq::empty()),
        a.len() > 0 && b.len() > 0 && a[0] != b[0] ==> (not_after(a, b) <==> (a[0] as int)
            < (b[0] as int)),
        not_after(p + a, p + b) == not_after(a, b),
        not_after(a, b) || not_after(b, a),
        not_after(a, b) && not_after(b, a) ==> a == b,
    decreases p.len(), a.len(),
{
    lemma_not_after_total(a, b);
    if p.len() > 0 {
        let q = p.skip(1);
        assert((p + a).skip(1) =~= q + a);
        assert((p + b).skip(1) =~= q + b);
        names_have_one_order(q, a, b);
    } else {
        assert(p + a =~= a);
        assert(p + b =~= b);
    }
    lemma_not_after_both(a, b);
}

proof fn lemma_not_after_both(a: Seq<char>, b: Seq<char>)
    ensures
        not_after(a, b) && not_after(b, a) ==> a == b,
    decreases a.len(),
{
    if not_after(a, b) && not_after(b, a) {
        if a.len() > 0 && b.len() > 0 {
            lemma_not_after_both(a.skip(1), b.skip(1));
            assert(a =~= seq![a[0]] + a.skip(1));
            assert(b =~= seq![b[0]] + b.skip(1));
        } else {
            assert(a =~= b);
        }
    }
}

/// The type of an item is grafted into the node, under the object and with the
/// constraint that its name gives, and a type that could not be had is passed
/// over; either way the next item follows.
pub proof fn a_type_is_grafted_where_its_item_says(
    r: Retrieval,
    ts: TypeSpec,
    after: Retrieval,
    ln: Seq<char>,
    fc: Fc,
    object: Seq<char>,
)
    requires
        r.at < r.plan.items@.len(),
        fc.is_code(),
        !ln.contains('$'),
        !fc.text().contains('$'),
        !object.contains('$'),
        r.plan.items@[r.at as int]@ == joined(seq![ln, fc.text(), object], seq!['$']),
    ensures
        r.leads(Some(ts), after) ==> after.at == r.at + 1 && grafted(
            r.device,
            after.device,
            ln,
            object,
            ts,
            fc,
        ),
        r.leads(None, after) ==> after.at == r.at + 1 && after.device == r.device,
{
    let parts = seq![ln, fc.text(), object];
    splitting_undoes_joining(parts, '$');
    if r.leads(Some(ts), after) {
        let other = choose|other: Fc|
            other.is_code() && #[trigger] other.text() == parts[1] && grafted(
                r.device,
                after.device,
                parts[0],
                parts[2],
                ts,
                other,
            );
        crate::model::codes_are_distinct(other, fc);
    }
}

/// What is found under a name is the first of that name, and there is one
/// wherever anything has the name.
pub proof fn the_first_of_a_name_is_found(
    nodes: Seq<LogicalNode>,
    objects: Seq<DataObject>,
    name: Seq<char>,
    i: int,
    j: int,
)
    ensures
        node_at(nodes, name, i) && node_at(nodes, name, j) ==> i == j,
        object_at(objects, name, i) && object_at(objects, name, j) ==> i == j,
        0 <= i < nodes.len() && nodes[i].name@ == name && node_at(nodes, name, j) ==> j <= i,
        0 <= i < objects.len() && objects[i].name@ == name && object_at(objects, name, j) ==> j
            <= i,
        nodes.len() > 0 && nodes[0].name@ == name ==> node_at(nodes, name, 0),
        objects.len() > 0 && objects[0].name@ == name ==> object_at(objects, name, 0),
{
}

/// A type is planned to be fetched for a node, a constraint and an object, and
/// only where the node's class can be told.
pub proof fn an_item_has_a_node_a_constraint_and_an_object(
    ln: Seq<char>,
    fc: Fc,
    object: Seq<char>,
)
    requires
        fc.is_code(),
        !ln.contains('$'),
        !fc.text().contains('$'),
        !object.contains('$'),
    ensures
        graftable(joined(seq![ln, fc.text(), object], seq!['$'])) <==> has_ln_class(ln),
        !graftable(joined(seq![ln, fc.text()], seq!['$'])),
        !graftable(joined(seq![ln, fc.text(), object, object], seq!['$'])),
{
    splitting_undoes_joining(seq![ln, fc.text(), object], '$');
    splitting_undoes_joining(seq![ln, fc.text()], '$');
    splitting_undoes_joining(seq![ln, fc.text(), object, object], '$');
    assert(Fc::is_named(fc.text()));
}

} // verus!
