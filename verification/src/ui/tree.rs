//! The model as rows of a tree.
//!
//! The tree is an arena: children are indices rather than pointers, so a value
//! read on a background task can name the node it belongs to and post the
//! result back without sharing any reference.

use vstd::prelude::*;

use crate::mms::Type;
use crate::model::tree::{fcs_of, has_fc};
use crate::model::{DataAttribute, DataObject, Fc, LogicalDevice, LogicalNode, Model, ObjectReference};
use crate::text::push_str;

verus! {

/// One row of the tree.
#[derive(Debug)]
pub struct Node {
    pub label: String,
    pub depth: usize,
    pub reference: ObjectReference,
    pub fc: Fc,
    pub kind: Option<Type>,
    pub readable: bool,
    pub writable: bool,
    pub controllable: bool,
    pub expanded: bool,
    pub children: Vec<usize>,
    pub value: Option<String>,
    pub value_is_err: bool,
}

/// What a row of the tree holds.
pub struct NodeView {
    pub label: Seq<char>,
    pub depth: int,
    pub reference: Seq<char>,
    pub fc: Fc,
    pub kind: Option<Type>,
    pub readable: bool,
    pub writable: bool,
    pub controllable: bool,
    pub expanded: bool,
    pub children: Seq<usize>,
    pub value: Option<Seq<char>>,
    pub value_is_err: bool,
}

impl View for Node {
    type V = NodeView;

    open spec fn view(&self) -> NodeView {
        NodeView {
            label: self.label@,
            depth: self.depth as int,
            reference: self.reference@,
            fc: self.fc,
            kind: self.kind,
            readable: self.readable,
            writable: self.writable,
            controllable: self.controllable,
            expanded: self.expanded,
            children: self.children@,
            value: match self.value {
                Some(v) => Some(v@),
                None => None,
            },
            value_is_err: self.value_is_err,
        }
    }
}

/// What rows of the tree hold.
pub open spec fn node_views(nodes: Seq<Node>) -> Seq<NodeView> {
    nodes.map_values(|n: Node| n@)
}

/// A row with a label and nothing else.
pub open spec fn bare(label: Seq<char>, depth: int) -> NodeView {
    NodeView {
        label,
        depth,
        reference: Seq::empty(),
        fc: Fc::Unset,
        kind: None,
        readable: false,
        writable: false,
        controllable: false,
        expanded: false,
        children: Seq::empty(),
        value: None,
        value_is_err: false,
    }
}

impl Node {
    fn new(label: String, depth: usize) -> (n: Node)
        ensures
            n@ == bare(label@, depth as int),
    {
        let reference = ObjectReference::default();
        assert(reference@ =~= Seq::<char>::empty());
        Node {
            label,
            depth,
            reference,
            fc: Fc::Unset,
            kind: None,
            readable: false,
            writable: false,
            controllable: false,
            expanded: false,
            children: Vec::new(),
            value: None,
            value_is_err: false,
        }
    }
}

/// Which constraints a client may write.
pub open spec fn may_write(fc: Fc) -> bool {
    fc == Fc::Cf || fc == Fc::Sp || fc == Fc::Se || fc == Fc::Sv || fc == Fc::Dc
}

/// Which constraints a client may write.
///
/// Status and measurand attributes are the device's own view of the process
/// and are not writable; offering a write for them would only produce an
/// access error from the device.
pub fn is_writable(fc: Fc) -> (b: bool)
    ensures
        b == may_write(fc),
{
    match fc {
        Fc::Cf | Fc::Sp | Fc::Se | Fc::Sv | Fc::Dc => true,
        _ => false,
    }
}

/// The reference of something below another reference.
pub open spec fn below(reference: Seq<char>, name: Seq<char>) -> Seq<char> {
    reference + "."@ + name
}

/// The label of an attribute.
pub open spec fn attribute_label(da: DataAttribute) -> Seq<char> {
    da.name@ + " ["@ + da.fc.text() + "] "@ + (match da.kind {
        Some(k) => k.text(),
        None => ""@,
    })
}

/// The row of an attribute, without what is below it.
pub open spec fn attribute_row(da: DataAttribute, reference: Seq<char>, depth: int) -> NodeView {
    let leaf = da.children@.len() == 0;
    NodeView {
        reference,
        fc: da.fc,
        kind: da.kind,
        readable: leaf,
        writable: leaf && may_write(da.fc),
        ..bare(attribute_label(da), depth)
    }
}

/// The rows of an attribute and of what is below it, where the first one gets
/// the index `at`.
pub open spec fn attribute_nodes(
    da: DataAttribute,
    reference: Seq<char>,
    depth: int,
    at: int,
) -> Seq<NodeView>
    decreases da, 0nat,
{
    let all = attributes_nodes(
        da.children@,
        da.children@.len(),
        reference,
        depth + 1,
        at + 1,
    );
    let ids = attributes_ids(da.children@, da.children@.len(), reference, depth + 1, at + 1);
    seq![NodeView { children: ids, ..attribute_row(da, reference, depth) }] + all
}

/// The rows of the first `n` of some attributes and of what is below them.
pub open spec fn attributes_nodes(
    das: Seq<DataAttribute>,
    n: nat,
    reference: Seq<char>,
    depth: int,
    at: int,
) -> Seq<NodeView>
    decreases das, n,
{
    if n == 0 || n > das.len() {
        Seq::empty()
    } else {
        let before = attributes_nodes(das, (n - 1) as nat, reference, depth, at);
        let da = das[n - 1];
        before + attribute_nodes(da, below(reference, da.name@), depth, at + before.len())
    }
}

/// The indices of the first `n` of some attributes.
pub open spec fn attributes_ids(
    das: Seq<DataAttribute>,
    n: nat,
    reference: Seq<char>,
    depth: int,
    at: int,
) -> Seq<usize>
    decreases das, n,
{
    if n == 0 || n > das.len() {
        Seq::empty()
    } else {
        let before = attributes_nodes(das, (n - 1) as nat, reference, depth, at);
        attributes_ids(das, (n - 1) as nat, reference, depth, at).push(
            (at + before.len()) as usize,
        )
    }
}

/// Flattens an attribute into the arena.
fn build_da(
    nodes: &mut Vec<Node>,
    reference: &ObjectReference,
    da: &DataAttribute,
    depth: usize,
) -> (id: usize)
    requires
        depth <= old(nodes)@.len(),
    ensures
        id == old(nodes)@.len(),
        node_views(final(nodes)@) == node_views(old(nodes)@) + attribute_nodes(
            *da,
            reference@,
            depth as int,
            id as int,
        ),
    decreases da,
{
    let mut label = da.name.clone();
    push_str(&mut label, " [");
    push_str(&mut label, da.fc.as_str());
    push_str(&mut label, "] ");
    match da.kind {
        Some(k) => push_str(&mut label, k.to_text()),
        None => push_str(&mut label, ""),
    }
    assert(label@ =~= attribute_label(*da));
    let id: usize = nodes.len();
    let mut n = Node::new(label, depth);
    n.reference = reference.clone();
    n.fc = da.fc;
    n.kind = da.kind;
    if da.children.len() == 0 {
        n.readable = true;
        n.writable = is_writable(da.fc);
    }
    let ghost base = node_views(nodes@);
    let ghost head = attribute_row(*da, reference@, depth as int);
    assert(n@ == head);
    nodes.push(n);
    assert(node_views(nodes@) =~= base + seq![head]);
    let next: usize = nodes.len();
    assert(depth + 1 <= next);
    let mut children: Vec<usize> = Vec::new();
    let mut i: usize = 0;
    let ghost das = da.children@;
    assert(node_views(nodes@) =~= base + seq![head] + attributes_nodes(
        das,
        0,
        reference@,
        depth + 1,
        id + 1,
    ));
    assert(children@ =~= attributes_ids(das, 0, reference@, depth + 1, id + 1));
    while i < da.children.len()
        invariant
            i <= da.children@.len(),
            das == da.children@,
            base.len() == id,
            depth + 1 <= next == id + 1,
            nodes@.len() >= next,
            node_views(nodes@) == base + seq![head] + attributes_nodes(
                das,
                i as nat,
                reference@,
                depth + 1,
                id + 1,
            ),
            children@ == attributes_ids(das, i as nat, reference@, depth + 1, id + 1),
        decreases da.children@.len() - i,
    {
        let c = &da.children[i];
        proof {
            assert(decreases_to!(da => da.children@));
            assert(decreases_to!(da.children@ => da.children@[i as int]));
        }
        let ghost before = attributes_nodes(das, i as nat, reference@, depth + 1, id + 1);
        let below_ref = reference.child(c.name.as_str());
        assert(node_views(nodes@).len() == nodes@.len());
        let child: usize = build_da(nodes, &below_ref, c, depth + 1);
        assert(child == id + 1 + before.len());
        children.push(child);
        assert(node_views(nodes@) =~= base + seq![head] + attributes_nodes(
            das,
            (i + 1) as nat,
            reference@,
            depth + 1,
            id + 1,
        ));
        i = i + 1;
    }
    let ghost done = node_views(nodes@);
    let ghost all = attributes_nodes(das, das.len(), reference@, depth + 1, id + 1);
    assert(nodes@[id as int]@ == head) by {
        assert(done[id as int] == (base + seq![head] + all)[id as int]);
    }
    let ghost flat = nodes@;
    nodes[id].children = children;
    proof {
        let top = NodeView { children: children@, ..head };
        assert(nodes@[id as int]@ == top);
        assert(nodes@ =~= flat.update(id as int, nodes@[id as int]));
        assert(node_views(nodes@) =~= done.update(id as int, top));
        assert(node_views(nodes@) =~= base + (seq![top] + all));
    }
    id
}

/// Whether an object can be operated: it has an attribute under the control
/// constraint.
pub open spec fn is_controllable(object: DataObject) -> bool {
    fcs_of(object.attributes@, object.attributes@.len()).contains(Fc::Co)
}

/// The label of an object.
pub open spec fn object_label(object: DataObject) -> Seq<char> {
    let named = "DO "@ + object.name@;
    let classed = if object.cdc@.len() == 0 {
        named
    } else {
        named + " ("@ + object.cdc@ + ")"@
    };
    if is_controllable(object) {
        classed + " ⚡"@
    } else {
        classed
    }
}

/// The row of an object, without what is below it.
pub open spec fn object_row(object: DataObject, reference: Seq<char>, depth: int) -> NodeView {
    NodeView {
        reference,
        controllable: is_controllable(object),
        ..bare(object_label(object), depth)
    }
}

/// The rows of an object and of what is below it, where the first one gets the
/// index `at`: its attributes, and then the objects below it.
pub open spec fn object_nodes(
    object: DataObject,
    reference: Seq<char>,
    depth: int,
    at: int,
) -> Seq<NodeView>
    decreases object, 0nat,
{
    let das = object.attributes@;
    let subs = object.objects@;
    let own = attributes_nodes(das, das.len(), reference, depth + 1, at + 1);
    let from = at + 1 + own.len();
    let all = objects_nodes(subs, subs.len(), reference, depth + 1, from);
    let ids = attributes_ids(das, das.len(), reference, depth + 1, at + 1) + objects_ids(
        subs,
        subs.len(),
        reference,
        depth + 1,
        from,
    );
    seq![NodeView { children: ids, ..object_row(object, reference, depth) }] + own + all
}

/// The rows of the first `n` of some objects and of what is below them.
pub open spec fn objects_nodes(
    objects: Seq<DataObject>,
    n: nat,
    reference: Seq<char>,
    depth: int,
    at: int,
) -> Seq<NodeView>
    decreases objects, n,
{
    if n == 0 || n > objects.len() {
        Seq::empty()
    } else {
        let before = objects_nodes(objects, (n - 1) as nat, reference, depth, at);
        let object = objects[n - 1];
        before + object_nodes(object, below(reference, object.name@), depth, at + before.len())
    }
}

/// The indices of the first `n` of some objects.
pub open spec fn objects_ids(
    objects: Seq<DataObject>,
    n: nat,
    reference: Seq<char>,
    depth: int,
    at: int,
) -> Seq<usize>
    decreases objects, n,
{
    if n == 0 || n > objects.len() {
        Seq::empty()
    } else {
        let before = objects_nodes(objects, (n - 1) as nat, reference, depth, at);
        objects_ids(objects, (n - 1) as nat, reference, depth, at).push(
            (at + before.len()) as usize,
        )
    }
}

/// Writes the label of an object.
fn write_object_label(object: &DataObject, controllable: bool) -> (s: String)
    requires
        controllable == is_controllable(*object),
    ensures
        s@ == object_label(*object),
{
    let mut label = "DO ".to_owned();
    push_str(&mut label, object.name.as_str());
    if !object.cdc.as_str().is_empty() {
        push_str(&mut label, " (");
        push_str(&mut label, object.cdc.as_str());
        push_str(&mut label, ")");
    }
    if controllable {
        push_str(&mut label, " ⚡");
    }
    label
}

/// Flattens the attributes of an object into the arena, and returns their
/// indices.
fn build_attributes(
    nodes: &mut Vec<Node>,
    reference: &ObjectReference,
    das: &Vec<DataAttribute>,
    depth: usize,
) -> (ids: Vec<usize>)
    requires
        depth <= old(nodes)@.len(),
    ensures
        ids@ == attributes_ids(
            das@,
            das@.len(),
            reference@,
            depth as int,
            old(nodes)@.len() as int,
        ),
        node_views(final(nodes)@) == node_views(old(nodes)@) + attributes_nodes(
            das@,
            das@.len(),
            reference@,
            depth as int,
            old(nodes)@.len() as int,
        ),
{
    let ghost at = nodes@.len() as int;
    let ghost base = node_views(nodes@);
    let mut ids: Vec<usize> = Vec::new();
    let mut i: usize = 0;
    assert(base + attributes_nodes(das@, 0, reference@, depth as int, at) =~= base);
    assert(ids@ =~= attributes_ids(das@, 0, reference@, depth as int, at));
    while i < das.len()
        invariant
            i <= das@.len(),
            base.len() == at,
            depth <= at,
            node_views(nodes@) == base + attributes_nodes(
                das@,
                i as nat,
                reference@,
                depth as int,
                at,
            ),
            ids@ == attributes_ids(das@, i as nat, reference@, depth as int, at),
        decreases das@.len() - i,
    {
        let ghost before = attributes_nodes(das@, i as nat, reference@, depth as int, at);
        let a = &das[i];
        let below_ref = reference.child(a.name.as_str());
        assert(node_views(nodes@).len() == nodes@.len());
        let id: usize = build_da(nodes, &below_ref, a, depth);
        assert(id == at + before.len());
        ids.push(id);
        assert(node_views(nodes@) =~= base + attributes_nodes(
            das@,
            (i + 1) as nat,
            reference@,
            depth as int,
            at,
        ));
        i = i + 1;
    }
    ids
}

/// Flattens an object into the arena.
fn build_do(
    nodes: &mut Vec<Node>,
    reference: &ObjectReference,
    object: &DataObject,
    depth: usize,
) -> (id: usize)
    requires
        depth <= old(nodes)@.len(),
    ensures
        id == old(nodes)@.len(),
        node_views(final(nodes)@) == node_views(old(nodes)@) + object_nodes(
            *object,
            reference@,
            depth as int,
            id as int,
        ),
    decreases object,
{
    let controllable = has_fc(&object.fcs(), Fc::Co);
    let label = write_object_label(object, controllable);
    let id: usize = nodes.len();
    let mut n = Node::new(label, depth);
    n.reference = reference.clone();
    n.controllable = controllable;
    let ghost base = node_views(nodes@);
    let ghost head = object_row(*object, reference@, depth as int);
    assert(n@ == head);
    nodes.push(n);
    assert(node_views(nodes@) =~= base + seq![head]);
    let next: usize = nodes.len();
    let mut children = build_attributes(nodes, reference, &object.attributes, depth + 1);
    let ghost das = object.attributes@;
    let ghost own = attributes_nodes(das, das.len(), reference@, depth + 1, id + 1);
    let ghost own_ids = attributes_ids(das, das.len(), reference@, depth + 1, id + 1);
    let ghost subs = object.objects@;
    let ghost from = id + 1 + own.len();
    let ghost front = base + seq![head] + own;
    let mut i: usize = 0;
    assert(node_views(nodes@) =~= front + objects_nodes(subs, 0, reference@, depth + 1, from));
    assert(children@ =~= own_ids + objects_ids(subs, 0, reference@, depth + 1, from));
    while i < object.objects.len()
        invariant
            i <= object.objects@.len(),
            subs == object.objects@,
            front.len() == from,
            depth + 1 <= next == id + 1 <= from,
            node_views(nodes@) == front + objects_nodes(
                subs,
                i as nat,
                reference@,
                depth + 1,
                from,
            ),
            children@ == own_ids + objects_ids(subs, i as nat, reference@, depth + 1, from),
        decreases object.objects@.len() - i,
    {
        let sub = &object.objects[i];
        proof {
            assert(decreases_to!(object => object.objects@));
            assert(decreases_to!(object.objects@ => object.objects@[i as int]));
        }
        let ghost before = objects_nodes(subs, i as nat, reference@, depth + 1, from);
        let below_ref = reference.child(sub.name.as_str());
        assert(node_views(nodes@).len() == nodes@.len());
        let child: usize = build_do(nodes, &below_ref, sub, depth + 1);
        assert(child == from + before.len());
        children.push(child);
        assert(node_views(nodes@) =~= front + objects_nodes(
            subs,
            (i + 1) as nat,
            reference@,
            depth + 1,
            from,
        ));
        assert(children@ =~= own_ids + objects_ids(
            subs,
            (i + 1) as nat,
            reference@,
            depth + 1,
            from,
        ));
        i = i + 1;
    }
    let ghost done = node_views(nodes@);
    let ghost all = objects_nodes(subs, subs.len(), reference@, depth + 1, from);
    assert(nodes@[id as int]@ == head) by {
        assert(done[id as int] == (front + all)[id as int]);
    }
    let ghost flat = nodes@;
    nodes[id].children = children;
    proof {
        let top = NodeView { children: children@, ..head };
        assert(nodes@[id as int]@ == top);
        assert(nodes@ =~= flat.update(id as int, nodes@[id as int]));
        assert(node_views(nodes@) =~= done.update(id as int, top));
        assert(node_views(nodes@) =~= base + (seq![top] + own + all));
    }
    id
}

/// The rows of a logical node and of what is below it.
pub open spec fn ln_nodes(ld: Seq<char>, ln: LogicalNode, at: int) -> Seq<NodeView> {
    let reference = ld + "/"@ + ln.name@;
    let objects = ln.objects@;
    seq![
        NodeView {
            children: objects_ids(objects, objects.len(), reference, 2, at + 1),
            ..bare("LN "@ + ln.name@, 1)
        },
    ] + objects_nodes(objects, objects.len(), reference, 2, at + 1)
}

/// The rows of the first `n` logical nodes of a device and of what is below
/// them.
pub open spec fn lns_nodes(ld: Seq<char>, lns: Seq<LogicalNode>, n: nat, at: int) -> Seq<NodeView>
    decreases n,
{
    if n == 0 || n > lns.len() {
        Seq::empty()
    } else {
        let before = lns_nodes(ld, lns, (n - 1) as nat, at);
        before + ln_nodes(ld, lns[n - 1], at + before.len())
    }
}

/// The indices of the first `n` logical nodes of a device.
pub open spec fn lns_ids(ld: Seq<char>, lns: Seq<LogicalNode>, n: nat, at: int) -> Seq<usize>
    decreases n,
{
    if n == 0 || n > lns.len() {
        Seq::empty()
    } else {
        let before = lns_nodes(ld, lns, (n - 1) as nat, at);
        lns_ids(ld, lns, (n - 1) as nat, at).push((at + before.len()) as usize)
    }
}

/// The rows of a logical device and of what is below it. A device starts
/// expanded.
pub open spec fn ld_nodes(ld: LogicalDevice, at: int) -> Seq<NodeView> {
    let lns = ld.nodes@;
    seq![
        NodeView {
            expanded: true,
            children: lns_ids(ld.name@, lns, lns.len(), at + 1),
            ..bare("LD "@ + ld.name@, 0)
        },
    ] + lns_nodes(ld.name@, lns, lns.len(), at + 1)
}

/// The rows of the first `n` devices and of what is below them.
pub open spec fn model_nodes(devices: Seq<LogicalDevice>, n: nat) -> Seq<NodeView>
    decreases n,
{
    if n == 0 || n > devices.len() {
        Seq::empty()
    } else {
        let before = model_nodes(devices, (n - 1) as nat);
        before + ld_nodes(devices[n - 1], before.len() as int)
    }
}

/// Flattens objects into the arena, and returns their indices.
fn build_objects(
    nodes: &mut Vec<Node>,
    reference: &ObjectReference,
    objects: &Vec<DataObject>,
    depth: usize,
) -> (ids: Vec<usize>)
    requires
        depth <= old(nodes)@.len(),
    ensures
        ids@ == objects_ids(
            objects@,
            objects@.len(),
            reference@,
            depth as int,
            old(nodes)@.len() as int,
        ),
        node_views(final(nodes)@) == node_views(old(nodes)@) + objects_nodes(
            objects@,
            objects@.len(),
            reference@,
            depth as int,
            old(nodes)@.len() as int,
        ),
{
    let ghost at = nodes@.len() as int;
    let ghost base = node_views(nodes@);
    let mut ids: Vec<usize> = Vec::new();
    let mut i: usize = 0;
    assert(base + objects_nodes(objects@, 0, reference@, depth as int, at) =~= base);
    assert(ids@ =~= objects_ids(objects@, 0, reference@, depth as int, at));
    while i < objects.len()
        invariant
            i <= objects@.len(),
            base.len() == at,
            depth <= at,
            node_views(nodes@) == base + objects_nodes(
                objects@,
                i as nat,
                reference@,
                depth as int,
                at,
            ),
            ids@ == objects_ids(objects@, i as nat, reference@, depth as int, at),
        decreases objects@.len() - i,
    {
        let ghost before = objects_nodes(objects@, i as nat, reference@, depth as int, at);
        let object = &objects[i];
        let below_ref = reference.child(object.name.as_str());
        assert(node_views(nodes@).len() == nodes@.len());
        let id: usize = build_do(nodes, &below_ref, object, depth);
        assert(id == at + before.len());
        ids.push(id);
        assert(node_views(nodes@) =~= base + objects_nodes(
            objects@,
            (i + 1) as nat,
            reference@,
            depth as int,
            at,
        ));
        i = i + 1;
    }
    ids
}

/// Flattens a logical node into the arena.
fn build_ln(nodes: &mut Vec<Node>, ld: &str, ln: &LogicalNode) -> (id: usize)
    requires
        1 <= old(nodes)@.len(),
    ensures
        id == old(nodes)@.len(),
        node_views(final(nodes)@) == node_views(old(nodes)@) + ln_nodes(ld@, *ln, id as int),
{
    let id: usize = nodes.len();
    let ghost base = node_views(nodes@);
    let mut label = "LN ".to_owned();
    push_str(&mut label, ln.name.as_str());
    let ghost head = bare(label@, 1);
    nodes.push(Node::new(label, 1));
    assert(node_views(nodes@) =~= base + seq![head]);
    let mut base_ref = ld.to_owned();
    push_str(&mut base_ref, "/");
    push_str(&mut base_ref, ln.name.as_str());
    let reference = ObjectReference::new(base_ref);
    let ids = build_objects(nodes, &reference, &ln.objects, 2);
    let ghost done = node_views(nodes@);
    let ghost all = objects_nodes(ln.objects@, ln.objects@.len(), reference@, 2, id + 1);
    assert(done == base + seq![head] + all);
    assert(done.len() == nodes@.len());
    assert(nodes@[id as int]@ == head) by {
        assert(done[id as int] == (base + seq![head] + all)[id as int]);
    }
    let ghost flat = nodes@;
    nodes[id].children = ids;
    proof {
        let top = NodeView { children: ids@, ..head };
        assert(nodes@[id as int]@ == top);
        assert(nodes@ =~= flat.update(id as int, nodes@[id as int]));
        assert(node_views(nodes@) =~= done.update(id as int, top));
        assert(node_views(nodes@) =~= base + (seq![top] + all));
    }
    id
}

/// Flattens a logical device into the arena.
fn build_ld(nodes: &mut Vec<Node>, ld: &LogicalDevice)
    ensures
        node_views(final(nodes)@) == node_views(old(nodes)@) + ld_nodes(
            *ld,
            old(nodes)@.len() as int,
        ),
{
    let id: usize = nodes.len();
    let ghost base = node_views(nodes@);
    let mut label = "LD ".to_owned();
    push_str(&mut label, ld.name.as_str());
    let ghost head = NodeView { expanded: true, ..bare(label@, 0) };
    let mut ld_node = Node::new(label, 0);
    ld_node.expanded = true;
    nodes.push(ld_node);
    assert(node_views(nodes@) =~= base + seq![head]);
    let ghost lns = ld.nodes@;
    let mut ids: Vec<usize> = Vec::new();
    let mut i: usize = 0;
    assert(node_views(nodes@) =~= base + seq![head] + lns_nodes(ld.name@, lns, 0, id + 1));
    assert(ids@ =~= lns_ids(ld.name@, lns, 0, id + 1));
    while i < ld.nodes.len()
        invariant
            i <= ld.nodes@.len(),
            lns == ld.nodes@,
            base.len() == id,
            node_views(nodes@) == base + seq![head] + lns_nodes(
                ld.name@,
                lns,
                i as nat,
                id + 1,
            ),
            ids@ == lns_ids(ld.name@, lns, i as nat, id + 1),
        decreases ld.nodes@.len() - i,
    {
        let ghost before = lns_nodes(ld.name@, lns, i as nat, id + 1);
        assert(node_views(nodes@).len() == nodes@.len());
        let child: usize = build_ln(nodes, ld.name.as_str(), &ld.nodes[i]);
        assert(child == id + 1 + before.len());
        ids.push(child);
        assert(node_views(nodes@) =~= base + seq![head] + lns_nodes(
            ld.name@,
            lns,
            (i + 1) as nat,
            id + 1,
        ));
        i = i + 1;
    }
    let ghost done = node_views(nodes@);
    let ghost all = lns_nodes(ld.name@, lns, lns.len(), id + 1);
    assert(done == base + seq![head] + all);
    assert(done.len() == nodes@.len());
    assert(nodes@[id as int]@ == head) by {
        assert(done[id as int] == (base + seq![head] + all)[id as int]);
    }
    let ghost flat = nodes@;
    nodes[id].children = ids;
    proof {
        let top = NodeView { children: ids@, ..head };
        assert(nodes@[id as int]@ == top);
        assert(nodes@ =~= flat.update(id as int, nodes@[id as int]));
        assert(node_views(nodes@) =~= done.update(id as int, top));
        assert(node_views(nodes@) =~= base + (seq![top] + all));
    }
}

/// Flattens a retrieved model into the arena.
pub fn build_tree(m: &Model) -> (nodes: Vec<Node>)
    ensures
        node_views(nodes@) == model_nodes(m.devices@, m.devices@.len()),
        is_arena(node_views(nodes@)),
{
    let mut nodes: Vec<Node> = Vec::new();
    let mut i: usize = 0;
    assert(node_views(nodes@) =~= model_nodes(m.devices@, 0));
    while i < m.devices.len()
        invariant
            i <= m.devices@.len(),
            node_views(nodes@) == model_nodes(m.devices@, i as nat),
        decreases m.devices@.len() - i,
    {
        assert(node_views(nodes@).len() == nodes@.len());
        build_ld(&mut nodes, &m.devices[i]);
        i = i + 1;
    }
    let count: usize = nodes.len();
    proof {
        assert(node_views(nodes@).len() == count);
        a_model_is_an_arena(m.devices@, m.devices@.len());
    }
    nodes
}

/// Whether the children of every row come behind it in the arena.
pub open spec fn is_arena(nodes: Seq<NodeView>) -> bool {
    points_ahead(nodes, 0)
}

/// Whether the children of rows that begin at the index `at` come behind them
/// and are among them.
pub open spec fn points_ahead(nodes: Seq<NodeView>, at: int) -> bool {
    forall|i: int, k: int|
        #![trigger nodes[i].children[k]]
        0 <= i < nodes.len() && 0 <= k < nodes[i].children.len() ==> at + i
            < nodes[i].children[k] < at + nodes.len()
}

/// Whether indices are within a range.
pub open spec fn ids_within(ids: Seq<usize>, from: int, to: int) -> bool {
    forall|k: int| 0 <= k < ids.len() ==> from <= #[trigger] ids[k] < to
}

proof fn lemma_points_ahead_concat(a: Seq<NodeView>, b: Seq<NodeView>, at: int)
    requires
        points_ahead(a, at),
        points_ahead(b, at + a.len()),
    ensures
        points_ahead(a + b, at),
{
    let all = a + b;
    assert forall|i: int, k: int|
        #![trigger all[i].children[k]]
        0 <= i < all.len() && 0 <= k < all[i].children.len() implies at + i
        < all[i].children[k] < at + all.len() by {
        if i < a.len() {
            assert(all[i] == a[i]);
            assert(a[i].children[k] == all[i].children[k]);
        } else {
            assert(all[i] == b[i - a.len()]);
            assert(b[i - a.len()].children[k] == all[i].children[k]);
        }
    }
}

proof fn lemma_points_ahead_head(head: NodeView, rest: Seq<NodeView>, at: int)
    requires
        points_ahead(rest, at + 1),
        ids_within(head.children, at + 1, at + 1 + rest.len()),
    ensures
        points_ahead(seq![head] + rest, at),
{
    let all = seq![head] + rest;
    assert forall|i: int, k: int|
        #![trigger all[i].children[k]]
        0 <= i < all.len() && 0 <= k < all[i].children.len() implies at + i
        < all[i].children[k] < at + all.len() by {
        if i == 0 {
            assert(all[0].children[k] == head.children[k]);
        } else {
            assert(all[i] == rest[i - 1]);
            assert(rest[i - 1].children[k] == all[i].children[k]);
        }
    }
}

proof fn lemma_attribute_points_ahead(
    da: DataAttribute,
    reference: Seq<char>,
    depth: int,
    at: int,
)
    requires
        0 <= at,
        at + attribute_nodes(da, reference, depth, at).len() <= usize::MAX,
    ensures
        points_ahead(attribute_nodes(da, reference, depth, at), at),
        attribute_nodes(da, reference, depth, at).len() > 0,
    decreases da, 0nat,
{
    let das = da.children@;
    let all = attributes_nodes(das, das.len(), reference, depth + 1, at + 1);
    let ids = attributes_ids(das, das.len(), reference, depth + 1, at + 1);
    let head = NodeView { children: ids, ..attribute_row(da, reference, depth) };
    assert(attribute_nodes(da, reference, depth, at) == seq![head] + all);
    assert(decreases_to!(da => da.children@));
    lemma_attributes_point_ahead(das, das.len(), reference, depth + 1, at + 1);
    lemma_points_ahead_head(head, all, at);
}

proof fn lemma_attributes_point_ahead(
    das: Seq<DataAttribute>,
    n: nat,
    reference: Seq<char>,
    depth: int,
    at: int,
)
    requires
        0 <= at,
        n <= das.len(),
        at + attributes_nodes(das, n, reference, depth, at).len() <= usize::MAX,
    ensures
        points_ahead(attributes_nodes(das, n, reference, depth, at), at),
        ids_within(
            attributes_ids(das, n, reference, depth, at),
            at,
            at + attributes_nodes(das, n, reference, depth, at).len(),
        ),
    decreases das, n,
{
    if n > 0 {
        let m = (n - 1) as nat;
        let before = attributes_nodes(das, m, reference, depth, at);
        let da = das[n - 1];
        let here = attribute_nodes(da, below(reference, da.name@), depth, at + before.len());
        assert(attributes_nodes(das, n, reference, depth, at) == before + here);
        lemma_attributes_point_ahead(das, m, reference, depth, at);
        assert(decreases_to!(das => das[n - 1]));
        lemma_attribute_points_ahead(da, below(reference, da.name@), depth, at + before.len());
        lemma_points_ahead_concat(before, here, at);
        let ids = attributes_ids(das, n, reference, depth, at);
        assert forall|k: int| 0 <= k < ids.len() implies at <= #[trigger] ids[k] < at + (before
            + here).len() by {
            let earlier = attributes_ids(das, m, reference, depth, at);
            if k < earlier.len() {
                assert(ids[k] == earlier[k]);
            }
        }
    }
}

proof fn lemma_object_points_ahead(object: DataObject, reference: Seq<char>, depth: int, at: int)
    requires
        0 <= at,
        at + object_nodes(object, reference, depth, at).len() <= usize::MAX,
    ensures
        points_ahead(object_nodes(object, reference, depth, at), at),
        object_nodes(object, reference, depth, at).len() > 0,
    decreases object, 0nat,
{
    let das = object.attributes@;
    let subs = object.objects@;
    let own = attributes_nodes(das, das.len(), reference, depth + 1, at + 1);
    let own_ids = attributes_ids(das, das.len(), reference, depth + 1, at + 1);
    let from = at + 1 + own.len();
    let all = objects_nodes(subs, subs.len(), reference, depth + 1, from);
    let sub_ids = objects_ids(subs, subs.len(), reference, depth + 1, from);
    let head = NodeView { children: own_ids + sub_ids, ..object_row(object, reference, depth) };
    let whole = object_nodes(object, reference, depth, at);
    assert(whole == seq![head] + own + all);
    assert(whole =~= seq![head] + (own + all));
    lemma_attributes_point_ahead(das, das.len(), reference, depth + 1, at + 1);
    assert(decreases_to!(object => object.objects@));
    lemma_objects_point_ahead(subs, subs.len(), reference, depth + 1, from);
    lemma_points_ahead_concat(own, all, at + 1);
    assert forall|k: int| 0 <= k < head.children.len() implies at + 1
        <= #[trigger] head.children[k] < at + 1 + (own + all).len() by {
        if k < own_ids.len() {
            assert(head.children[k] == own_ids[k]);
        } else {
            assert(head.children[k] == sub_ids[k - own_ids.len()]);
        }
    }
    lemma_points_ahead_head(head, own + all, at);
}

proof fn lemma_objects_point_ahead(
    objects: Seq<DataObject>,
    n: nat,
    reference: Seq<char>,
    depth: int,
    at: int,
)
    requires
        0 <= at,
        n <= objects.len(),
        at + objects_nodes(objects, n, reference, depth, at).len() <= usize::MAX,
    ensures
        points_ahead(objects_nodes(objects, n, reference, depth, at), at),
        ids_within(
            objects_ids(objects, n, reference, depth, at),
            at,
            at + objects_nodes(objects, n, reference, depth, at).len(),
        ),
    decreases objects, n,
{
    if n > 0 {
        let m = (n - 1) as nat;
        let before = objects_nodes(objects, m, reference, depth, at);
        let object = objects[n - 1];
        let under = below(reference, object.name@);
        let here = object_nodes(object, under, depth, at + before.len());
        assert(objects_nodes(objects, n, reference, depth, at) == before + here);
        lemma_objects_point_ahead(objects, m, reference, depth, at);
        assert(decreases_to!(objects => objects[n - 1]));
        lemma_object_points_ahead(object, under, depth, at + before.len());
        lemma_points_ahead_concat(before, here, at);
        let ids = objects_ids(objects, n, reference, depth, at);
        assert forall|k: int| 0 <= k < ids.len() implies at <= #[trigger] ids[k] < at + (before
            + here).len() by {
            let earlier = objects_ids(objects, m, reference, depth, at);
            if k < earlier.len() {
                assert(ids[k] == earlier[k]);
            }
        }
    }
}

proof fn lemma_lns_point_ahead(ld: Seq<char>, lns: Seq<LogicalNode>, n: nat, at: int)
    requires
        0 <= at,
        n <= lns.len(),
        at + lns_nodes(ld, lns, n, at).len() <= usize::MAX,
    ensures
        points_ahead(lns_nodes(ld, lns, n, at), at),
        ids_within(lns_ids(ld, lns, n, at), at, at + lns_nodes(ld, lns, n, at).len()),
    decreases n,
{
    if n > 0 {
        let m = (n - 1) as nat;
        let before = lns_nodes(ld, lns, m, at);
        let ln = lns[n - 1];
        let here = ln_nodes(ld, ln, at + before.len());
        lemma_lns_point_ahead(ld, lns, m, at);
        let reference = ld + "/"@ + ln.name@;
        let objects = ln.objects@;
        let from = at + before.len() + 1;
        let all = objects_nodes(objects, objects.len(), reference, 2, from);
        let head = here[0];
        assert(here == seq![head] + all);
        lemma_objects_point_ahead(objects, objects.len(), reference, 2, from);
        lemma_points_ahead_head(head, all, at + before.len());
        lemma_points_ahead_concat(before, here, at);
        let ids = lns_ids(ld, lns, n, at);
        assert forall|k: int| 0 <= k < ids.len() implies at <= #[trigger] ids[k] < at + (before
            + here).len() by {
            let earlier = lns_ids(ld, lns, m, at);
            if k < earlier.len() {
                assert(ids[k] == earlier[k]);
            }
        }
    }
}

/// The rows of a model are an arena: what is below a row comes behind it, so a
/// walk from any row ends.
pub proof fn a_model_is_an_arena(devices: Seq<LogicalDevice>, n: nat)
    requires
        n <= devices.len(),
        model_nodes(devices, n).len() <= usize::MAX,
    ensures
        is_arena(model_nodes(devices, n)),
    decreases n,
{
    if n > 0 {
        let m = (n - 1) as nat;
        let before = model_nodes(devices, m);
        let ld = devices[n - 1];
        let here = ld_nodes(ld, before.len() as int);
        a_model_is_an_arena(devices, m);
        let lns = ld.nodes@;
        let from = before.len() as int + 1;
        let all = lns_nodes(ld.name@, lns, lns.len(), from);
        let head = here[0];
        assert(here == seq![head] + all);
        lemma_lns_point_ahead(ld.name@, lns, lns.len(), from);
        lemma_points_ahead_head(head, all, before.len() as int);
        lemma_points_ahead_concat(before, here, 0);
    }
}

/// Whether a row is sound: an attribute is readable exactly where nothing is
/// below it, and writable only where it is readable and its constraint may be
/// written; an object that can be operated is marked.
pub open spec fn is_sound(n: NodeView) -> bool {
    &&& n.fc != Fc::Unset ==> n.readable == (n.children.len() == 0)
    &&& n.writable ==> n.readable && may_write(n.fc)
    &&& n.controllable ==> " ⚡"@.is_suffix_of(n.label)
}

/// Whether all rows are sound.
pub open spec fn all_sound(nodes: Seq<NodeView>) -> bool {
    forall|i: int| 0 <= i < nodes.len() ==> is_sound(#[trigger] nodes[i])
}

proof fn lemma_attribute_sound(da: DataAttribute, reference: Seq<char>, depth: int, at: int)
    ensures
        all_sound(attribute_nodes(da, reference, depth, at)),
    decreases da, 0nat,
{
    let das = da.children@;
    assert(decreases_to!(da => da.children@));
    lemma_attributes_sound(das, das.len(), reference, depth + 1, at + 1);
}

proof fn lemma_attributes_sound(
    das: Seq<DataAttribute>,
    n: nat,
    reference: Seq<char>,
    depth: int,
    at: int,
)
    requires
        n <= das.len(),
    ensures
        all_sound(attributes_nodes(das, n, reference, depth, at)),
        attributes_ids(das, n, reference, depth, at).len() == n,
    decreases das, n,
{
    if n > 0 {
        let m = (n - 1) as nat;
        let before = attributes_nodes(das, m, reference, depth, at);
        let da = das[n - 1];
        lemma_attributes_sound(das, m, reference, depth, at);
        assert(decreases_to!(das => das[n - 1]));
        lemma_attribute_sound(da, below(reference, da.name@), depth, at + before.len());
    }
}

proof fn lemma_object_sound(object: DataObject, reference: Seq<char>, depth: int, at: int)
    ensures
        all_sound(object_nodes(object, reference, depth, at)),
    decreases object, 0nat,
{
    let das = object.attributes@;
    let subs = object.objects@;
    let own = attributes_nodes(das, das.len(), reference, depth + 1, at + 1);
    lemma_attributes_sound(das, das.len(), reference, depth + 1, at + 1);
    assert(decreases_to!(object => object.objects@));
    lemma_objects_sound(subs, subs.len(), reference, depth + 1, at + 1 + own.len());
    let whole = object_nodes(object, reference, depth, at);
    assert(is_sound(whole[0]));
}

proof fn lemma_objects_sound(
    objects: Seq<DataObject>,
    n: nat,
    reference: Seq<char>,
    depth: int,
    at: int,
)
    requires
        n <= objects.len(),
    ensures
        all_sound(objects_nodes(objects, n, reference, depth, at)),
    decreases objects, n,
{
    if n > 0 {
        let m = (n - 1) as nat;
        let before = objects_nodes(objects, m, reference, depth, at);
        let object = objects[n - 1];
        lemma_objects_sound(objects, m, reference, depth, at);
        assert(decreases_to!(objects => objects[n - 1]));
        lemma_object_sound(object, below(reference, object.name@), depth, at + before.len());
    }
}

proof fn lemma_lns_sound(ld: Seq<char>, lns: Seq<LogicalNode>, n: nat, at: int)
    requires
        n <= lns.len(),
    ensures
        all_sound(lns_nodes(ld, lns, n, at)),
    decreases n,
{
    if n > 0 {
        let m = (n - 1) as nat;
        let before = lns_nodes(ld, lns, m, at);
        let ln = lns[n - 1];
        lemma_lns_sound(ld, lns, m, at);
        let reference = ld + "/"@ + ln.name@;
        lemma_objects_sound(
            ln.objects@,
            ln.objects@.len(),
            reference,
            2,
            at + before.len() + 1,
        );
    }
}

/// The rows of a model are sound: its leaves are readable and its structures
/// are not, only configuration and setting attributes are offered for writing,
/// and every object that can be operated is marked.
pub proof fn the_rows_of_a_model_are_sound(devices: Seq<LogicalDevice>, n: nat)
    requires
        n <= devices.len(),
    ensures
        all_sound(model_nodes(devices, n)),
    decreases n,
{
    if n > 0 {
        let m = (n - 1) as nat;
        let before = model_nodes(devices, m);
        let ld = devices[n - 1];
        the_rows_of_a_model_are_sound(devices, m);
        lemma_lns_sound(ld.name@, ld.nodes@, ld.nodes@.len(), before.len() as int + 1);
    }
}

/// What a client may write is configuration, descriptions, set points,
/// substitution values and the settings being edited, and nothing that the
/// device says of the process.
pub proof fn the_process_is_not_written(fc: Fc)
    ensures
        may_write(fc) ==> fc.is_code(),
        !may_write(Fc::St) && !may_write(Fc::Mx) && !may_write(Fc::Or) && !may_write(Fc::Bl)
            && !may_write(Fc::Ex) && !may_write(Fc::Co) && !may_write(Fc::Sg) && !may_write(Fc::Sr)
            && !may_write(Fc::Us) && !may_write(Fc::Ms) && !may_write(Fc::Rp) && !may_write(Fc::Br)
            && !may_write(Fc::Lg) && !may_write(Fc::Go) && !may_write(Fc::Gs),
        may_write(Fc::Cf) && may_write(Fc::Dc) && may_write(Fc::Sp) && may_write(Fc::Sv)
            && may_write(Fc::Se),
{
}

proof fn lemma_attribute_in_place(
    das: Seq<DataAttribute>,
    n: nat,
    reference: Seq<char>,
    depth: int,
    at: int,
    j: int,
)
    requires
        0 <= j < n <= das.len(),
        0 <= at,
        at + attributes_nodes(das, n, reference, depth, at).len() <= usize::MAX,
    ensures
        ({
            let ids = attributes_ids(das, n, reference, depth, at);
            let rows = attributes_nodes(das, n, reference, depth, at);
            &&& ids.len() == n
            &&& at <= ids[j] < at + rows.len()
            &&& rows[ids[j] - at] == attribute_nodes(
                das[j],
                reference + "."@ + das[j].name@,
                depth,
                ids[j] as int,
            )[0]
        }),
    decreases n,
{
    let m = (n - 1) as nat;
    let before = attributes_nodes(das, m, reference, depth, at);
    let da = das[n - 1];
    let own = attribute_nodes(da, below(reference, da.name@), depth, at + before.len());
    lemma_attributes_sound(das, m, reference, depth, at);
    assert(own.len() > 0);
    if j < m {
        lemma_attribute_in_place(das, m, reference, depth, at, j);
        assert((before + own)[attributes_ids(das, m, reference, depth, at)[j] - at]
            == before[attributes_ids(das, m, reference, depth, at)[j] - at]);
    } else {
        assert((before + own)[before.len() as int] == own[0]);
    }
}

/// The row of an attribute says what it is, and leads to the rows of its
/// components, one step further in and each under its own name; a leaf can be
/// read, and written where its constraint lets it.
pub proof fn an_attribute_leads_to_its_components(
    da: DataAttribute,
    reference: Seq<char>,
    depth: int,
    at: int,
    j: int,
)
    requires
        0 <= at,
        at + attribute_nodes(da, reference, depth, at).len() <= usize::MAX,
    ensures
        ({
            let rows = attribute_nodes(da, reference, depth, at);
            let own = rows[0];
            &&& own.reference == reference
            &&& own.depth == depth
            &&& own.fc == da.fc
            &&& own.kind == da.kind
            &&& da.name@.is_prefix_of(own.label)
            &&& own.children.len() == da.children@.len()
            &&& own.readable <==> da.children@.len() == 0
            &&& own.writable <==> da.children@.len() == 0 && (da.fc == Fc::Cf || da.fc == Fc::Sp
                || da.fc == Fc::Se || da.fc == Fc::Sv || da.fc == Fc::Dc)
            &&& !own.controllable
            &&& !own.expanded
            &&& own.value is None
            &&& 0 <= j < da.children@.len() ==> {
                let child = rows[own.children[j] - at];
                &&& at < own.children[j] < at + rows.len()
                &&& child.reference == reference + "."@ + da.children@[j].name@
                &&& child.depth == depth + 1
                &&& child.fc == da.children@[j].fc
                &&& child.children.len() == da.children@[j].children@.len()
            }
        }),
{
    let das = da.children@;
    let rows = attribute_nodes(da, reference, depth, at);
    let all = attributes_nodes(das, das.len(), reference, depth + 1, at + 1);
    lemma_attributes_sound(das, das.len(), reference, depth + 1, at + 1);
    assert(da.name@ =~= attribute_label(da).take(da.name@.len() as int));
    if 0 <= j < das.len() {
        lemma_attribute_in_place(das, das.len(), reference, depth + 1, at + 1, j);
        let id = attributes_ids(das, das.len(), reference, depth + 1, at + 1)[j];
        assert(rows[id - at] == all[id - (at + 1)]);
        let kid = das[j];
        lemma_attributes_sound(
            kid.children@,
            kid.children@.len(),
            reference + "."@ + kid.name@,
            depth + 2,
            id + 1,
        );
    }
}

/// An object that has an attribute under the control constraint can be operated
/// and is marked; its label names it and its class.
pub proof fn a_controllable_object_is_marked(object: DataObject, reference: Seq<char>, depth: int)
    ensures
        object_row(object, reference, depth).controllable <==> exists|i: int|
            0 <= i < object.attributes@.len() && (#[trigger] object.attributes@[i]).fc == Fc::Co,
        object_row(object, reference, depth).reference == reference,
        object_row(object, reference, depth).depth == depth,
        !object_row(object, reference, depth).readable,
        !object_row(object, reference, depth).writable,
        object_row(object, reference, depth).label == "DO "@ + object.name@ + (
        if object.cdc@.len() == 0 {
            Seq::empty()
        } else {
            " ("@ + object.cdc@ + ")"@
        }) + (if exists|i: int|
            0 <= i < object.attributes@.len() && (#[trigger] object.attributes@[i]).fc == Fc::Co {
            " ⚡"@
        } else {
            Seq::empty()
        }),
{
    crate::model::tree::the_constraints_are_those_of_the_attributes(
        object.attributes@,
        object.attributes@.len(),
        Fc::Co,
    );
    assert(object_row(object, reference, depth).label =~= "DO "@ + object.name@ + (
    if object.cdc@.len() == 0 {
        Seq::empty()
    } else {
        " ("@ + object.cdc@ + ")"@
    }) + (if is_controllable(object) {
        " ⚡"@
    } else {
        Seq::empty()
    }));
}

proof fn lemma_object_in_place(
    objects: Seq<DataObject>,
    n: nat,
    reference: Seq<char>,
    depth: int,
    at: int,
    j: int,
)
    requires
        0 <= j < n <= objects.len(),
        0 <= at,
        at + objects_nodes(objects, n, reference, depth, at).len() <= usize::MAX,
    ensures
        ({
            let ids = objects_ids(objects, n, reference, depth, at);
            let rows = objects_nodes(objects, n, reference, depth, at);
            &&& ids.len() == n
            &&& at <= ids[j] < at + rows.len()
            &&& rows[ids[j] - at] == object_nodes(
                objects[j],
                reference + "."@ + objects[j].name@,
                depth,
                ids[j] as int,
            )[0]
        }),
    decreases n,
{
    let m = (n - 1) as nat;
    let before = objects_nodes(objects, m, reference, depth, at);
    let object = objects[n - 1];
    let own = object_nodes(object, below(reference, object.name@), depth, at + before.len());
    lemma_object_count(objects, m, reference, depth, at);
    assert(own.len() > 0);
    if j < m {
        lemma_object_in_place(objects, m, reference, depth, at, j);
        assert((before + own)[objects_ids(objects, m, reference, depth, at)[j] - at]
            == before[objects_ids(objects, m, reference, depth, at)[j] - at]);
    } else {
        assert((before + own)[before.len() as int] == own[0]);
    }
}

proof fn lemma_object_count(
    objects: Seq<DataObject>,
    n: nat,
    reference: Seq<char>,
    depth: int,
    at: int,
)
    requires
        n <= objects.len(),
    ensures
        objects_ids(objects, n, reference, depth, at).len() == n,
    decreases n,
{
    if n > 0 {
        lemma_object_count(objects, (n - 1) as nat, reference, depth, at);
    }
}

/// The row of an object leads to the rows of its attributes and then to those
/// of the objects below it, each under its own name.
pub proof fn an_object_leads_to_its_parts(
    object: DataObject,
    reference: Seq<char>,
    depth: int,
    at: int,
    j: int,
)
    requires
        0 <= at,
        at + object_nodes(object, reference, depth, at).len() <= usize::MAX,
    ensures
        ({
            let rows = object_nodes(object, reference, depth, at);
            let own = rows[0];
            let das = object.attributes@;
            let subs = object.objects@;
            &&& own.reference == reference
            &&& own.depth == depth
            &&& own.children.len() == das.len() + subs.len()
            &&& 0 <= j < das.len() ==> {
                let child = rows[own.children[j] - at];
                &&& at < own.children[j] < at + rows.len()
                &&& child.reference == reference + "."@ + das[j].name@
                &&& child.depth == depth + 1
                &&& child.fc == das[j].fc
            }
            &&& 0 <= j < subs.len() ==> {
                let child = rows[own.children[das.len() + j] - at];
                &&& at < own.children[das.len() + j] < at + rows.len()
                &&& child.reference == reference + "."@ + subs[j].name@
                &&& child.depth == depth + 1
            }
        }),
{
    let das = object.attributes@;
    let subs = object.objects@;
    let rows = object_nodes(object, reference, depth, at);
    let first = attributes_nodes(das, das.len(), reference, depth + 1, at + 1);
    let from = at + 1 + first.len();
    let second = objects_nodes(subs, subs.len(), reference, depth + 1, from);
    lemma_attributes_sound(das, das.len(), reference, depth + 1, at + 1);
    lemma_object_count(subs, subs.len(), reference, depth + 1, from);
    if 0 <= j < das.len() {
        lemma_attribute_in_place(das, das.len(), reference, depth + 1, at + 1, j);
        let id = attributes_ids(das, das.len(), reference, depth + 1, at + 1)[j];
        assert(rows[0].children[j] == id);
        assert(rows[id - at] == first[id - (at + 1)]);
    }
    if 0 <= j < subs.len() {
        lemma_object_in_place(subs, subs.len(), reference, depth + 1, from, j);
        let id = objects_ids(subs, subs.len(), reference, depth + 1, from)[j];
        assert(rows[0].children[das.len() + j] == id);
        assert(rows[id - at] == second[id - from]);
    }
}

/// The row of a logical node leads to the rows of its objects, which are
/// addressed through the device and the node.
pub proof fn a_node_leads_to_its_objects(ld: Seq<char>, ln: LogicalNode, at: int, j: int)
    requires
        0 <= at,
        at + ln_nodes(ld, ln, at).len() <= usize::MAX,
        0 <= j < ln.objects@.len(),
    ensures
        ({
            let rows = ln_nodes(ld, ln, at);
            let child = rows[rows[0].children[j] - at];
            &&& rows[0].label == "LN "@ + ln.name@
            &&& rows[0].depth == 1
            &&& rows[0].children.len() == ln.objects@.len()
            &&& at < rows[0].children[j] < at + rows.len()
            &&& child.reference == ld + "/"@ + ln.name@ + "."@ + ln.objects@[j].name@
            &&& child.depth == 2
        }),
{
    let reference = ld + "/"@ + ln.name@;
    let objects = ln.objects@;
    let all = objects_nodes(objects, objects.len(), reference, 2, at + 1);
    let rows = ln_nodes(ld, ln, at);
    lemma_object_in_place(objects, objects.len(), reference, 2, at + 1, j);
    let id = objects_ids(objects, objects.len(), reference, 2, at + 1)[j];
    assert(rows[id - at] == all[id - (at + 1)]);
}

} // verus!
