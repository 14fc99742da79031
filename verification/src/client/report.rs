use vstd::prelude::*;

use super::{attribute_write_outcome, concat3, is_client_error, sub_item, Error, Result};
use crate::mms::value::{all_views, lemma_views};
use crate::mms::{Data, DataAccessError, InformationReport, Timestamp, Value, VarRef};
use crate::model::reference::{constraint_of, item_of, ld_of, path_of, reference_of};
use crate::model::{from_mms, Fc, ObjectReference, OptFlds, ReasonCode, TrgOps};
use crate::text::{contains, join, joined, occurs, push_str, quote, quoted, same, split_first,
    split_on, split_once, texts};
use vstd::slice::slice_to_vec;

verus! {

/// The configuration of a report control block.
///
/// Fields read from the server are populated by [`Rcb::set_attribute`]; fields
/// set before enabling are written to the server.
#[derive(Debug)]
pub struct Rcb {
    /// `LD/LN.RP.name` for an unbuffered block, `LD/LN.BR.name` for a buffered
    /// one.
    pub reference: ObjectReference,
    pub buffered: bool,
    pub rpt_id: String,
    /// The dataset in MMS notation, for example `LD/LN$DataSet`.
    pub data_set: String,
    pub conf_rev: u32,
    pub opt_flds: OptFlds,
    pub trg_ops: TrgOps,
    /// The buffer time in milliseconds.
    pub buf_tm: u32,
    /// The integrity period in milliseconds.
    pub intg_pd: u64,
    /// When set on a buffered block before enabling, requests delivery of the
    /// buffered reports after this entry, so a subscriber resumes gap-free
    /// after a disconnect.
    pub resync_entry_id: Option<Vec<u8>>,
    pub domain: String,
    /// `LN$RP$name`.
    pub item: String,
}

impl Clone for Rcb {
    fn clone(&self) -> (r: Rcb)
        ensures
            r.same_block(*self),
    {
        Rcb {
            reference: self.reference.clone(),
            buffered: self.buffered,
            rpt_id: self.rpt_id.clone(),
            data_set: self.data_set.clone(),
            conf_rev: self.conf_rev,
            opt_flds: self.opt_flds,
            trg_ops: self.trg_ops,
            buf_tm: self.buf_tm,
            intg_pd: self.intg_pd,
            resync_entry_id: match &self.resync_entry_id {
                Some(id) => Some(slice_to_vec(id.as_slice())),
                None => None,
            },
            domain: self.domain.clone(),
            item: self.item.clone(),
        }
    }
}

/// Converts `LD/LN.RP.name` to the domain `LD` and item `LN$RP$name`.
pub fn rcb_ref_to_mms(reference: &ObjectReference) -> (r: (String, String))
    ensures
        r.0@ == ld_of(reference@),
        r.1@ == joined(path_of(reference@), "$"@),
{
    let path = reference.path();
    let item = join(&path, 0, "$");
    assert(texts(path@).skip(0) =~= texts(path@));
    (reference.ld(), item)
}

/// The attributes of a block that a client reads, in order.
#[derive(Debug, Clone, Copy, PartialEq, Eq, Structural)]
pub enum RcbAttr {
    RptId,
    DatSet,
    ConfRev,
    OptFlds,
    TrgOps,
    BufTm,
    IntgPd,
}

impl RcbAttr {
    /// The MMS name of the attribute.
    pub open spec fn text(self) -> Seq<char> {
        match self {
            RcbAttr::RptId => "RptID"@,
            RcbAttr::DatSet => "DatSet"@,
            RcbAttr::ConfRev => "ConfRev"@,
            RcbAttr::OptFlds => "OptFlds"@,
            RcbAttr::TrgOps => "TrgOps"@,
            RcbAttr::BufTm => "BufTm"@,
            RcbAttr::IntgPd => "IntgPd"@,
        }
    }

    /// Returns the MMS name of the attribute.
    pub fn name(self) -> (s: &'static str)
        ensures
            s@ == self.text(),
    {
        match self {
            RcbAttr::RptId => "RptID",
            RcbAttr::DatSet => "DatSet",
            RcbAttr::ConfRev => "ConfRev",
            RcbAttr::OptFlds => "OptFlds",
            RcbAttr::TrgOps => "TrgOps",
            RcbAttr::BufTm => "BufTm",
            RcbAttr::IntgPd => "IntgPd",
        }
    }

    /// The attributes that a client reads, in order.
    pub open spec fn every() -> Seq<RcbAttr> {
        seq![
            RcbAttr::RptId,
            RcbAttr::DatSet,
            RcbAttr::ConfRev,
            RcbAttr::OptFlds,
            RcbAttr::TrgOps,
            RcbAttr::BufTm,
            RcbAttr::IntgPd,
        ]
    }

    /// Returns the attributes that a client reads, in order.
    pub fn all() -> (v: Vec<RcbAttr>)
        ensures
            v@ == RcbAttr::every(),
    {
        let mut v: Vec<RcbAttr> = Vec::new();
        v.push(RcbAttr::RptId);
        v.push(RcbAttr::DatSet);
        v.push(RcbAttr::ConfRev);
        v.push(RcbAttr::OptFlds);
        v.push(RcbAttr::TrgOps);
        v.push(RcbAttr::BufTm);
        v.push(RcbAttr::IntgPd);
        assert(v@ =~= RcbAttr::every());
        v
    }
}

/// One attribute to write: its name and its value.
#[derive(Debug)]
pub struct RcbWrite {
    pub attr: &'static str,
    pub value: Value,
}

/// The model of a list of writes.
pub open spec fn writes_view(w: Seq<RcbWrite>) -> Seq<(Seq<char>, Data)> {
    Seq::new(w.len(), |i: int| (w[i].attr@, w[i].value@))
}

impl Rcb {
    /// Whether two blocks have the same configuration.
    pub open spec fn same_block(self, other: Rcb) -> bool {
        &&& self.reference@ == other.reference@
        &&& self.buffered == other.buffered
        &&& self.rpt_id@ == other.rpt_id@
        &&& self.data_set@ == other.data_set@
        &&& self.conf_rev == other.conf_rev
        &&& self.opt_flds == other.opt_flds
        &&& self.trg_ops == other.trg_ops
        &&& self.buf_tm == other.buf_tm
        &&& self.intg_pd == other.intg_pd
        &&& match (self.resync_entry_id, other.resync_entry_id) {
            (Some(a), Some(b)) => a@ == b@,
            (None, None) => true,
            _ => false,
        }
        &&& self.domain@ == other.domain@
        &&& self.item@ == other.item@
    }

    /// Whether this is a block of which nothing was read.
    pub open spec fn is_unread(self, reference: ObjectReference) -> bool {
        &&& self.reference == reference
        &&& self.domain@ == ld_of(reference@)
        &&& self.item@ == joined(path_of(reference@), "$"@)
        &&& self.buffered == occurs("$BR$"@, self.item@)
        &&& self.rpt_id@.len() == 0
        &&& self.data_set@.len() == 0
        &&& self.conf_rev == 0
        &&& self.opt_flds == OptFlds::nothing()
        &&& self.trg_ops == TrgOps::nothing()
        &&& self.buf_tm == 0
        &&& self.intg_pd == 0
        &&& self.resync_entry_id is None
    }

    /// A block as it is before anything was read of it. Attributes the server
    /// does not expose are left at their default, since which optional
    /// attributes a block carries varies by device.
    pub fn new(reference: ObjectReference) -> (r: Rcb)
        ensures
            r.is_unread(reference),
    {
        let (domain, item) = rcb_ref_to_mms(&reference);
        let buffered = contains(item.as_str(), "$BR$");
        Rcb {
            reference,
            buffered,
            rpt_id: String::new(),
            data_set: String::new(),
            conf_rev: 0,
            opt_flds: OptFlds::default(),
            trg_ops: TrgOps::default(),
            buf_tm: 0,
            intg_pd: 0,
            resync_entry_id: None,
            domain,
            item,
        }
    }

    /// Returns the MMS item of an attribute of the block.
    pub fn attr_item(&self, attr: &str) -> (s: String)
        ensures
            s@ == sub_item(self.item@, attr@),
    {
        concat3(self.item.as_str(), "$", attr)
    }

    /// Whether `after` is this block with an attribute taken over from the
    /// server.
    pub open spec fn then_read(self, attr: RcbAttr, v: Data, after: Rcb) -> bool {
        &&& after.reference == self.reference
        &&& after.buffered == self.buffered
        &&& after.resync_entry_id == self.resync_entry_id
        &&& after.domain == self.domain
        &&& after.item == self.item
        &&& after.rpt_id@ == (if attr == RcbAttr::RptId {
            v.text()
        } else {
            self.rpt_id@
        })
        &&& after.data_set@ == (if attr == RcbAttr::DatSet {
            v.text()
        } else {
            self.data_set@
        })
        &&& after.conf_rev == (if attr == RcbAttr::ConfRev {
            v.unsigned32()
        } else {
            self.conf_rev
        })
        &&& after.opt_flds == (if attr == RcbAttr::OptFlds {
            OptFlds::of_data(v)
        } else {
            self.opt_flds
        })
        &&& after.trg_ops == (if attr == RcbAttr::TrgOps {
            TrgOps::of_data(v)
        } else {
            self.trg_ops
        })
        &&& after.buf_tm == (if attr == RcbAttr::BufTm {
            v.unsigned32()
        } else {
            self.buf_tm
        })
        &&& after.intg_pd == (if attr == RcbAttr::IntgPd {
            v.unsigned()
        } else {
            self.intg_pd
        })
    }

    /// Takes over an attribute that was read.
    pub fn set_attribute(&mut self, attr: RcbAttr, v: &Value)
        ensures
            old(self).then_read(attr, v@, *final(self)),
    {
        match attr {
            RcbAttr::RptId => self.rpt_id = v.text(),
            RcbAttr::DatSet => self.data_set = v.text(),
            RcbAttr::ConfRev => self.conf_rev = v.as_u32(),
            RcbAttr::OptFlds => self.opt_flds = OptFlds::from_value(v),
            RcbAttr::TrgOps => self.trg_ops = TrgOps::from_value(v),
            RcbAttr::BufTm => self.buf_tm = v.as_u32(),
            RcbAttr::IntgPd => self.intg_pd = v.as_u64(),
        }
    }

    /// Whether a resync entry is to be written: on a buffered block, where it
    /// is set and not empty.
    pub open spec fn resyncs(&self) -> bool {
        self.buffered && self.resync_entry_id is Some && self.resync_entry_id->0@.len() > 0
    }

    /// The integrity period as the server takes it.
    pub open spec fn period(&self) -> u64 {
        if self.intg_pd > u32::MAX {
            u32::MAX as u64
        } else {
            self.intg_pd
        }
    }

    /// Whether writes are those before the block is enabled: the optional
    /// fields and the trigger options where they are set, the integrity period,
    /// and the resync entry where there is one.
    pub open spec fn is_enabled_by(&self, v: Seq<(Seq<char>, Data)>) -> bool {
        let n0 = if self.opt_flds != OptFlds::nothing() {
            1int
        } else {
            0
        };
        let n1 = n0 + if self.trg_ops != TrgOps::nothing() {
            1int
        } else {
            0
        };
        &&& v.len() == n1 + 1 + if self.resyncs() {
            1int
        } else {
            0
        }
        &&& self.opt_flds != OptFlds::nothing() ==> v[0].0 == "OptFlds"@
            && self.opt_flds.spelled_by(v[0].1)
        &&& self.trg_ops != TrgOps::nothing() ==> v[n0].0 == "TrgOps"@
            && self.trg_ops.spelled_by(v[n0].1)
        &&& v[n1] == ("IntgPd"@, Data::Unsigned(self.period()))
        &&& self.resyncs() ==> v[n1 + 1] == (
            "EntryID"@,
            Data::OctetString(self.resync_entry_id->0@),
        )
    }

    /// Returns what to write before the block is enabled, in order.
    ///
    /// The block's `opt_flds` and `trg_ops` are written when non-zero, and its
    /// `intg_pd` always: zero is a meaningful integrity period (none at all),
    /// so it cannot also mean "leave it alone". On a buffered block a resync
    /// entry id requests redelivery of the buffered reports after that point,
    /// and must be written before enabling.
    pub fn enable_writes(&self) -> (w: Vec<RcbWrite>)
        ensures
            self.is_enabled_by(writes_view(w@)),
    {
        let mut w: Vec<RcbWrite> = Vec::new();
        if self.opt_flds != OptFlds::default() {
            w.push(RcbWrite { attr: "OptFlds", value: self.opt_flds.value() });
        }
        if self.trg_ops != TrgOps::default() {
            w.push(RcbWrite { attr: "TrgOps", value: self.trg_ops.value() });
        }
        let ms: u32 = if self.intg_pd > u32::MAX as u64 {
            u32::MAX
        } else {
            self.intg_pd as u32
        };
        w.push(RcbWrite { attr: "IntgPd", value: Value::uint32(ms) });
        if self.buffered {
            if let Some(id) = &self.resync_entry_id {
                if id.len() > 0 {
                    w.push(
                        RcbWrite {
                            attr: "EntryID",
                            value: Value::octet_string(slice_to_vec(id.as_slice())),
                        },
                    );
                }
            }
        }
        w
    }

    /// The write that turns the block on or off. It is the last write of
    /// enabling, once the receiver of the reports is in place.
    pub fn enable_write(on: bool) -> (w: RcbWrite)
        ensures
            w.attr@ == "RptEna"@,
            w.value@ == Data::Boolean(on),
    {
        RcbWrite { attr: "RptEna", value: Value::boolean(on) }
    }

    /// The write that requests a general interrogation: the server sends a
    /// report containing every dataset member.
    pub fn gi_write() -> (w: RcbWrite)
        ensures
            w.attr@ == "GI"@,
            w.value@ == Data::Boolean(true),
    {
        RcbWrite { attr: "GI", value: Value::boolean(true) }
    }

    /// Returns the variable list of the block's dataset, `LD/LN$Name` without
    /// the device: the domain is the block's own.
    pub fn dataset_list(data_set: &str) -> (r: Result<String>)
        ensures
            match (r, split_first(data_set@, '/')) {
                (Ok(list), Some((_, rest))) => list@ == rest,
                (Err(e), None) => is_client_error(
                    e,
                    "RCB dataset reference "@ + quoted(data_set@),
                ),
                _ => false,
            },
    {
        match split_once(data_set, '/') {
            Some((_, list)) => Ok(list),
            None => {
                let mut s = "RCB dataset reference ".to_owned();
                push_str(&mut s, quote(data_set).as_str());
                Err(Error::Client(s))
            },
        }
    }
}

/// One decoded report delivered to a subscriber.
#[derive(Debug)]
pub struct Report {
    pub rpt_id: String,
    pub seq_num: u32,
    pub data_set: String,
    pub conf_rev: u32,
    pub entry_id: Vec<u8>,
    pub buf_ovfl: bool,
    pub sub_seq_num: u32,
    pub more_follows: bool,
    pub time_of_entry: Option<Timestamp>,
    pub entries: Vec<ReportEntry>,
}

/// One included dataset member in a report.
#[derive(Debug)]
pub struct ReportEntry {
    /// The member's position in the dataset.
    pub index: usize,
    /// Resolved from the dataset definition, when known.
    pub reference: ObjectReference,
    pub fc: Fc,
    pub reason: ReasonCode,
    pub value: Value,
}

/// What an entry of a report says.
pub struct EntryView {
    pub index: nat,
    pub reference: Seq<char>,
    pub fc: Fc,
    pub reason: ReasonCode,
    pub value: Data,
}

/// What a report says.
pub struct ReportView {
    pub rpt_id: Seq<char>,
    pub seq_num: u32,
    pub data_set: Seq<char>,
    pub conf_rev: u32,
    pub entry_id: Seq<u8>,
    pub buf_ovfl: bool,
    pub sub_seq_num: u32,
    pub more_follows: bool,
    pub time_of_entry: Option<Timestamp>,
    pub entries: Seq<EntryView>,
}

impl View for ReportEntry {
    type V = EntryView;

    open spec fn view(&self) -> EntryView {
        EntryView {
            index: self.index as nat,
            reference: self.reference@,
            fc: self.fc,
            reason: self.reason,
            value: self.value@,
        }
    }
}

impl View for Report {
    type V = ReportView;

    open spec fn view(&self) -> ReportView {
        ReportView {
            rpt_id: self.rpt_id@,
            seq_num: self.seq_num,
            data_set: self.data_set@,
            conf_rev: self.conf_rev,
            entry_id: self.entry_id@,
            buf_ovfl: self.buf_ovfl,
            sub_seq_num: self.sub_seq_num,
            more_follows: self.more_follows,
            time_of_entry: self.time_of_entry,
            entries: Seq::new(self.entries@.len(), |i: int| self.entries@[i]@),
        }
    }
}

/// 1 for a field that is there, 0 for one that is not.
pub open spec fn count(present: bool) -> nat {
    if present {
        1
    } else {
        0
    }
}

/// Where the fields of a report stand. Each optional field shifts the ones
/// after it.
pub struct Layout {
    pub seq_num: nat,
    pub time_of_entry: nat,
    pub data_set: nat,
    pub buf_ovfl: nat,
    pub entry_id: nat,
    pub conf_rev: nat,
    pub segmentation: nat,
    pub inclusion: nat,
}

/// The layout that the optional fields give: RptID, OptFlds, then exactly the
/// fields those flags name, then the inclusion bit string.
pub open spec fn layout(opt: OptFlds) -> Layout {
    let time_of_entry = 2 + count(opt.seq_num);
    let data_set = time_of_entry + count(opt.time_of_entry);
    let buf_ovfl = data_set + count(opt.data_set_name);
    let entry_id = buf_ovfl + count(opt.buf_ovfl);
    let conf_rev = entry_id + count(opt.entry_id);
    let segmentation = conf_rev + count(opt.conf_rev);
    Layout {
        seq_num: 2,
        time_of_entry,
        data_set,
        buf_ovfl,
        entry_id,
        conf_rev,
        segmentation,
        inclusion: segmentation + 2 * count(opt.segmentation),
    }
}

/// The positions of the set bits among the first `n`, in order.
pub open spec fn set_bits(d: Data, n: nat) -> Seq<nat>
    decreases n,
{
    if n == 0 {
        Seq::empty()
    } else if d.bit(n - 1) {
        set_bits(d, (n - 1) as nat).push((n - 1) as nat)
    } else {
        set_bits(d, (n - 1) as nat)
    }
}

/// The members that a report includes.
pub open spec fn included(v: Seq<Data>, opt: OptFlds) -> Seq<nat> {
    let d = v[layout(opt).inclusion as int];
    set_bits(d, d.bit_len())
}

/// Where the first value stands: behind the inclusion bit string and, where
/// they are sent, one data reference per included member.
pub open spec fn values_start(v: Seq<Data>, opt: OptFlds) -> nat {
    layout(opt).inclusion + 1 + if opt.data_ref {
        included(v, opt).len()
    } else {
        0
    }
}

/// Entry `k` of a report.
pub open spec fn entry_of(
    v: Seq<Data>,
    opt: OptFlds,
    members: Seq<(Seq<char>, Seq<char>)>,
    k: int,
) -> EntryView {
    let index = included(v, opt)[k];
    let at = values_start(v, opt) + k;
    let why = at + included(v, opt).len();
    EntryView {
        index,
        reference: if index < members.len() {
            reference_of(members[index as int].0, split_on(members[index as int].1, '$'))
        } else {
            Seq::empty()
        },
        fc: if index < members.len() {
            constraint_of(split_on(members[index as int].1, '$'))
        } else {
            Fc::Unset
        },
        reason: if opt.reason_code && why < v.len() {
            ReasonCode::of_data(v[why])
        } else {
            ReasonCode::nothing()
        },
        value: if at < v.len() {
            v[at]
        } else {
            Data::Empty
        },
    }
}

/// What the flat value list of a report says, given the names of the dataset
/// members; nothing where it ends before the inclusion bit string.
pub open spec fn report_of(
    v: Seq<Data>,
    members: Seq<(Seq<char>, Seq<char>)>,
) -> Option<ReportView> {
    let opt = OptFlds::of_data(v[1]);
    let at = layout(opt);
    if v.len() < 3 || v.len() <= at.inclusion {
        None
    } else {
        Some(
            ReportView {
                rpt_id: v[0].text(),
                seq_num: if opt.seq_num {
                    v[at.seq_num as int].unsigned32()
                } else {
                    0
                },
                time_of_entry: if opt.time_of_entry {
                    v[at.time_of_entry as int].time()
                } else {
                    None
                },
                data_set: if opt.data_set_name {
                    v[at.data_set as int].text()
                } else {
                    Seq::empty()
                },
                buf_ovfl: opt.buf_ovfl && v[at.buf_ovfl as int].truth(),
                entry_id: if opt.entry_id {
                    v[at.entry_id as int].octets()
                } else {
                    Seq::empty()
                },
                conf_rev: if opt.conf_rev {
                    v[at.conf_rev as int].unsigned32()
                } else {
                    0
                },
                sub_seq_num: if opt.segmentation {
                    v[at.segmentation as int].unsigned32()
                } else {
                    0
                },
                more_follows: opt.segmentation && v[at.segmentation as int + 1].truth(),
                entries: Seq::new(
                    included(v, opt).len(),
                    |k: int| entry_of(v, opt, members, k),
                ),
            },
        )
    }
}

/// The names of dataset members.
pub open spec fn member_names(m: Seq<VarRef>) -> Seq<(Seq<char>, Seq<char>)> {
    Seq::new(m.len(), |i: int| (m[i].domain@, m[i].item@))
}

/// The set bits of a bit string, in order.
fn included_members(inclusion: &Value) -> (r: Vec<usize>)
    ensures
        r@.len() == set_bits(inclusion@, inclusion@.bit_len()).len(),
        forall|k: int|
            0 <= k < r@.len() ==> (#[trigger] r@[k]) as nat == set_bits(
                inclusion@,
                inclusion@.bit_len(),
            )[k],
{
    let n: usize = inclusion.bit_len();
    let mut r: Vec<usize> = Vec::new();
    let mut i: usize = 0;
    while i < n
        invariant
            i <= n,
            n == inclusion@.bit_len(),
            r@.len() == set_bits(inclusion@, i as nat).len(),
            forall|k: int|
                0 <= k < r@.len() ==> (#[trigger] r@[k]) as nat == set_bits(
                    inclusion@,
                    i as nat,
                )[k],
        decreases n - i,
    {
        if inclusion.bit(i) {
            r.push(i);
        }
        i = i + 1;
    }
    r
}

/// The value at a position, if there is one.
fn nth(v: &Vec<Value>, i: u128) -> (r: Option<&Value>)
    ensures
        match r {
            Some(x) => i < all_views(v@).len() && x@ == all_views(v@)[i as int],
            None => i >= all_views(v@).len(),
        },
{
    proof {
        lemma_views(v@, v@.len());
    }
    if i < v.len() as u128 {
        Some(&v[i as usize])
    } else {
        None
    }
}

/// Interprets a flat InformationReport value list per the IEC 61850-8-1 report
/// format, driven by the `OptFlds` present in the report itself.
///
/// The layout is: RptID, OptFlds, then exactly the optional fields those flags
/// name, then the inclusion bit string, then one value per included member,
/// then one reason per included member. Reading a field the flags did not
/// select shifts everything after it, so the order here is the whole
/// correctness of report decoding.
pub fn decode_report(ir: &InformationReport, members: &Vec<VarRef>) -> (r: Option<Report>)
    ensures
        match (r, report_of(all_views(ir.values@), member_names(members@))) {
            (Some(rep), Some(want)) => rep@ == want,
            (None, None) => true,
            _ => false,
        },
{
    let v = &ir.values;
    let ghost d = all_views(v@);
    proof {
        lemma_views(v@, v@.len());
    }
    if v.len() < 3 {
        return None;
    }
    let opt = OptFlds::from_value(&v[1]);
    let ghost at = layout(opt);

    let mut i: usize = 2;
    let mut seq_num: u32 = 0;
    if opt.seq_num {
        seq_num = v[i].as_u32();
        i = i + 1;
    }
    let mut time_of_entry: Option<Timestamp> = None;
    if opt.time_of_entry {
        if i >= v.len() {
            return None;
        }
        time_of_entry = v[i].time();
        i = i + 1;
    }
    let mut data_set = String::new();
    if opt.data_set_name {
        if i >= v.len() {
            return None;
        }
        data_set = v[i].text();
        i = i + 1;
    }
    let mut buf_ovfl = false;
    if opt.buf_ovfl {
        if i >= v.len() {
            return None;
        }
        buf_ovfl = v[i].as_bool();
        i = i + 1;
    }
    let mut entry_id: Vec<u8> = Vec::new();
    if opt.entry_id {
        if i >= v.len() {
            return None;
        }
        entry_id = v[i].bytes();
        i = i + 1;
    }
    let mut conf_rev: u32 = 0;
    if opt.conf_rev {
        if i >= v.len() {
            return None;
        }
        conf_rev = v[i].as_u32();
        i = i + 1;
    }
    let mut sub_seq_num: u32 = 0;
    let mut more_follows = false;
    if opt.segmentation {
        if i >= v.len() || v.len() - i < 2 {
            return None;
        }
        sub_seq_num = v[i].as_u32();
        more_follows = v[i + 1].as_bool();
        i = i + 2;
    }
    if i >= v.len() {
        return None;
    }
    assert(i == at.inclusion);
    let incl = included_members(&v[i]);
    let entries = decode_entries(v, opt, i, &incl, members);
    let rep = Report {
        rpt_id: v[0].text(),
        seq_num,
        data_set,
        conf_rev,
        entry_id,
        buf_ovfl,
        sub_seq_num,
        more_follows,
        time_of_entry,
        entries,
    };
    assert(rep@.entries =~= report_of(d, member_names(members@))->0.entries);
    Some(rep)
}

/// Decodes the entries of a report whose inclusion bit string stands at
/// `inclusion`.
fn decode_entries(
    v: &Vec<Value>,
    opt: OptFlds,
    inclusion: usize,
    incl: &Vec<usize>,
    members: &Vec<VarRef>,
) -> (entries: Vec<ReportEntry>)
    requires
        inclusion < v@.len(),
        inclusion == layout(opt).inclusion,
        incl@.len() == included(all_views(v@), opt).len(),
        forall|k: int|
            0 <= k < incl@.len() ==> (#[trigger] incl@[k]) as nat == included(
                all_views(v@),
                opt,
            )[k],
    ensures
        entries@.len() == incl@.len(),
        forall|k: int|
            0 <= k < entries@.len() ==> (#[trigger] entries@[k])@ == entry_of(
                all_views(v@),
                opt,
                member_names(members@),
                k,
            ),
{
    let ghost d = all_views(v@);
    let ghost names = member_names(members@);
    // Optional data-reference strings precede the values, one per included
    // member. The positions are already known from the dataset, so they are
    // skipped rather than parsed.
    let n: u128 = incl.len() as u128;
    let first: u128 = inclusion as u128 + 1 + (if opt.data_ref {
        n
    } else {
        0
    });
    let mut entries: Vec<ReportEntry> = Vec::new();
    let mut k: usize = 0;
    while k < incl.len()
        invariant
            k <= incl@.len(),
            d == all_views(v@),
            names == member_names(members@),
            n == incl@.len(),
            n <= usize::MAX,
            first == values_start(d, opt),
            first <= 3 * usize::MAX,
            incl@.len() == included(d, opt).len(),
            forall|j: int|
                0 <= j < incl@.len() ==> (#[trigger] incl@[j]) as nat == included(d, opt)[j],
            entries@.len() == k,
            forall|j: int|
                0 <= j < k ==> (#[trigger] entries@[j])@ == entry_of(d, opt, names, j),
        decreases incl@.len() - k,
    {
        let index: usize = incl[k];
        let value = match nth(v, first + k as u128) {
            Some(x) => x.clone(),
            None => Value::Empty,
        };
        let (reference, fc) = if index < members.len() {
            assert(names[index as int] == (members@[index as int].domain@, members@[index as int].item@));
            from_mms(members[index].domain.as_str(), members[index].item.as_str())
        } else {
            (ObjectReference::default(), Fc::Unset)
        };
        let reason = if opt.reason_code {
            match nth(v, first + n + k as u128) {
                Some(x) => ReasonCode::from_value(x),
                None => ReasonCode::default(),
            }
        } else {
            ReasonCode::default()
        };
        let e = ReportEntry { index, reference, fc, reason, value };
        proof {
            let want = entry_of(d, opt, names, k as int);
            assert(e@.reference =~= want.reference);
            assert(e@ == want);
        }
        entries.push(e);
        k = k + 1;
    }
    entries
}

/// A report as a server sends it: what each field holds where it is sent, and
/// the data of the included members.
pub struct Sent {
    pub rpt_id: Data,
    pub opt_flds: Data,
    pub seq_num: Data,
    pub time_of_entry: Data,
    pub data_set: Data,
    pub buf_ovfl: Data,
    pub entry_id: Data,
    pub conf_rev: Data,
    pub sub_seq_num: Data,
    pub more_follows: Data,
    pub inclusion: Data,
    pub references: Seq<Data>,
    pub values: Seq<Data>,
    pub reasons: Seq<Data>,
}

/// A field that is sent only where its flag is set.
pub open spec fn where_set(flag: bool, d: Data) -> Seq<Data> {
    if flag {
        seq![d]
    } else {
        Seq::empty()
    }
}

/// Data of the included members that are sent only where their flag is set.
pub open spec fn all_where_set(flag: bool, d: Seq<Data>) -> Seq<Data> {
    if flag {
        d
    } else {
        Seq::empty()
    }
}

impl Sent {
    /// The optional fields that are sent.
    pub open spec fn flags(self) -> OptFlds {
        OptFlds::of_data(self.opt_flds)
    }

    /// The members that are included.
    pub open spec fn members(self) -> Seq<nat> {
        set_bits(self.inclusion, self.inclusion.bit_len())
    }

    /// There is one value per included member, and so are the references and
    /// the reasons where they are sent.
    pub open spec fn wf(self) -> bool {
        let n = self.members().len();
        &&& self.values.len() == n
        &&& self.flags().data_ref ==> self.references.len() == n
        &&& self.flags().reason_code ==> self.reasons.len() == n
    }

    /// The fields in front of the inclusion bit string, in order.
    pub open spec fn front(self) -> Seq<Data> {
        let opt = self.flags();
        seq![self.rpt_id, self.opt_flds] + where_set(opt.seq_num, self.seq_num) + where_set(
            opt.time_of_entry,
            self.time_of_entry,
        ) + where_set(opt.data_set_name, self.data_set) + where_set(opt.buf_ovfl, self.buf_ovfl)
            + where_set(opt.entry_id, self.entry_id) + where_set(opt.conf_rev, self.conf_rev)
            + where_set(opt.segmentation, self.sub_seq_num) + where_set(
            opt.segmentation,
            self.more_follows,
        )
    }

    /// The flat list of values that is sent.
    pub open spec fn flat(self) -> Seq<Data> {
        let opt = self.flags();
        self.front() + seq![self.inclusion] + all_where_set(opt.data_ref, self.references)
            + self.values + all_where_set(opt.reason_code, self.reasons)
    }

    /// What a client is to make of the report.
    pub open spec fn meaning(self, names: Seq<(Seq<char>, Seq<char>)>) -> ReportView {
        let opt = self.flags();
        ReportView {
            rpt_id: self.rpt_id.text(),
            seq_num: if opt.seq_num {
                self.seq_num.unsigned32()
            } else {
                0
            },
            time_of_entry: if opt.time_of_entry {
                self.time_of_entry.time()
            } else {
                None
            },
            data_set: if opt.data_set_name {
                self.data_set.text()
            } else {
                Seq::empty()
            },
            buf_ovfl: opt.buf_ovfl && self.buf_ovfl.truth(),
            entry_id: if opt.entry_id {
                self.entry_id.octets()
            } else {
                Seq::empty()
            },
            conf_rev: if opt.conf_rev {
                self.conf_rev.unsigned32()
            } else {
                0
            },
            sub_seq_num: if opt.segmentation {
                self.sub_seq_num.unsigned32()
            } else {
                0
            },
            more_follows: opt.segmentation && self.more_follows.truth(),
            entries: Seq::new(
                self.members().len(),
                |k: int|
                    EntryView {
                        index: self.members()[k],
                        reference: if self.members()[k] < names.len() {
                            reference_of(
                                names[self.members()[k] as int].0,
                                split_on(names[self.members()[k] as int].1, '$'),
                            )
                        } else {
                            Seq::empty()
                        },
                        fc: if self.members()[k] < names.len() {
                            constraint_of(split_on(names[self.members()[k] as int].1, '$'))
                        } else {
                            Fc::Unset
                        },
                        reason: if opt.reason_code {
                            ReasonCode::of_data(self.reasons[k])
                        } else {
                            ReasonCode::nothing()
                        },
                        value: self.values[k],
                    },
            ),
        }
    }
}

/// The fields in front of the inclusion bit string stand where the layout says.
proof fn lemma_front(s: Sent)
    ensures
        ({
            let opt = s.flags();
            let at = layout(opt);
            let f = s.front();
            &&& f.len() == at.inclusion
            &&& f[0] == s.rpt_id
            &&& f[1] == s.opt_flds
            &&& opt.seq_num ==> f[at.seq_num as int] == s.seq_num
            &&& opt.time_of_entry ==> f[at.time_of_entry as int] == s.time_of_entry
            &&& opt.data_set_name ==> f[at.data_set as int] == s.data_set
            &&& opt.buf_ovfl ==> f[at.buf_ovfl as int] == s.buf_ovfl
            &&& opt.entry_id ==> f[at.entry_id as int] == s.entry_id
            &&& opt.conf_rev ==> f[at.conf_rev as int] == s.conf_rev
            &&& opt.segmentation ==> f[at.segmentation as int] == s.sub_seq_num
            &&& opt.segmentation ==> f[at.segmentation as int + 1] == s.more_follows
        }),
{
    let opt = s.flags();
    let at = layout(opt);
    let p0 = seq![s.rpt_id, s.opt_flds];
    let p1 = p0 + where_set(opt.seq_num, s.seq_num);
    let p2 = p1 + where_set(opt.time_of_entry, s.time_of_entry);
    let p3 = p2 + where_set(opt.data_set_name, s.data_set);
    let p4 = p3 + where_set(opt.buf_ovfl, s.buf_ovfl);
    let p5 = p4 + where_set(opt.entry_id, s.entry_id);
    let p6 = p5 + where_set(opt.conf_rev, s.conf_rev);
    let p7 = p6 + where_set(opt.segmentation, s.sub_seq_num);
    assert(p1.len() == at.time_of_entry);
    assert(p2.len() == at.data_set);
    assert(p3.len() == at.buf_ovfl);
    assert(p4.len() == at.entry_id);
    assert(p5.len() == at.conf_rev);
    assert(p6.len() == at.segmentation);
    assert(p7.len() == at.segmentation + count(opt.segmentation));
    assert(s.front() == p7 + where_set(opt.segmentation, s.more_follows));
}

/// Where the parts of a list stand that was put together of five.
proof fn lemma_parts(
    front: Seq<Data>,
    inclusion: Data,
    references: Seq<Data>,
    values: Seq<Data>,
    reasons: Seq<Data>,
)
    ensures
        ({
            let v = front + seq![inclusion] + references + values + reasons;
            let start = front.len() + 1 + references.len();
            &&& v.len() == start + values.len() + reasons.len()
            &&& forall|i: int| 0 <= i < front.len() ==> #[trigger] v[i] == front[i]
            &&& v[front.len() as int] == inclusion
            &&& forall|k: int| 0 <= k < values.len() ==> v[start + k] == #[trigger] values[k]
            &&& forall|k: int|
                0 <= k < reasons.len() ==> v[start + values.len() + k] == #[trigger] reasons[k]
        }),
{
}

/// Where the values of a sent report stand.
proof fn lemma_flat(s: Sent)
    requires
        s.wf(),
    ensures
        ({
            let opt = s.flags();
            let v = s.flat();
            let at = layout(opt);
            let n = s.members().len();
            let start = values_start(v, opt) as int;
            &&& OptFlds::of_data(v[1]) == opt
            &&& v.len() >= 3
            &&& v.len() > at.inclusion
            &&& forall|i: int| 0 <= i < at.inclusion ==> #[trigger] v[i] == s.front()[i]
            &&& included(v, opt) == s.members()
            &&& v.len() >= start + n
            &&& opt.reason_code ==> v.len() == start + n + n
            &&& forall|k: int| 0 <= k < n ==> v[start + k] == #[trigger] s.values[k]
            &&& opt.reason_code ==> forall|k: int|
                0 <= k < n ==> v[start + n + k] == #[trigger] s.reasons[k]
        }),
{
    let opt = s.flags();
    lemma_front(s);
    lemma_parts(
        s.front(),
        s.inclusion,
        all_where_set(opt.data_ref, s.references),
        s.values,
        all_where_set(opt.reason_code, s.reasons),
    );
    assert(s.flat()[1] == s.front()[1]);
}

/// A report reads as it was sent, whatever optional fields it has: each field
/// shifts the ones after it, and every one still lands where it belongs, the
/// values and the reasons on their members.
pub proof fn a_report_reads_as_it_was_sent(s: Sent, names: Seq<(Seq<char>, Seq<char>)>)
    requires
        s.wf(),
    ensures
        report_of(s.flat(), names) == Some(s.meaning(names)),
{
    let opt = s.flags();
    let v = s.flat();
    let at = layout(opt);
    let n = s.members().len();
    lemma_front(s);
    lemma_flat(s);
    let start = values_start(v, opt) as int;
    let want = s.meaning(names);
    let got = report_of(v, names)->0;
    assert forall|k: int| 0 <= k < n implies #[trigger] got.entries[k] == want.entries[k] by {
        assert(v[start + k] == s.values[k]);
        assert(opt.reason_code ==> v[start + n + k] == s.reasons[k]);
        assert(start + k + n == start + n + k);
    }
    assert(got.entries =~= want.entries);
    assert(v[0] == s.rpt_id);
    assert(opt.seq_num ==> v[at.seq_num as int] == s.seq_num);
    assert(opt.time_of_entry ==> v[at.time_of_entry as int] == s.time_of_entry);
    assert(opt.data_set_name ==> v[at.data_set as int] == s.data_set);
    assert(opt.buf_ovfl ==> v[at.buf_ovfl as int] == s.buf_ovfl);
    assert(opt.entry_id ==> v[at.entry_id as int] == s.entry_id);
    assert(opt.conf_rev ==> v[at.conf_rev as int] == s.conf_rev);
    assert(opt.segmentation ==> v[at.segmentation as int] == s.sub_seq_num);
    assert(opt.segmentation ==> v[at.segmentation as int + 1] == s.more_follows);
}

/// An active report subscription: it takes what the connection delivers, and
/// keeps the reports of its block.
///
/// Several may be live on one connection at a time; each holds its own,
/// released by [`disable`](ReportSubscription::disable).
#[derive(Debug)]
pub struct ReportSubscription {
    rpt_id: String,
    members: Vec<VarRef>,
    domain: String,
    item: String,
    closed: bool,
}

/// The model of a subscription.
pub struct SubscriptionView {
    pub rpt_id: Seq<char>,
    pub members: Seq<(Seq<char>, Seq<char>)>,
    pub domain: Seq<char>,
    pub item: Seq<char>,
    pub closed: bool,
}

impl View for ReportSubscription {
    type V = SubscriptionView;

    closed spec fn view(&self) -> SubscriptionView {
        SubscriptionView {
            rpt_id: self.rpt_id@,
            members: member_names(self.members@),
            domain: self.domain@,
            item: self.item@,
            closed: self.closed,
        }
    }
}

impl SubscriptionView {
    /// What a subscription passes on of an information report: a report of its
    /// own block, as long as it is not disabled.
    pub open spec fn passes(self, values: Seq<Data>) -> Option<ReportView> {
        match report_of(values, self.members) {
            Some(rep) if !self.closed && rep.rpt_id == self.rpt_id => Some(rep),
            _ => None,
        }
    }
}

/// A write that turns a block off: where it goes, and what is written.
#[derive(Debug)]
pub struct DisableWrite {
    pub domain: String,
    pub item: String,
    pub value: Value,
}

impl ReportSubscription {
    /// A subscription to the reports of a block, given the members of its
    /// dataset. It is to be in place before the block is enabled, or the first
    /// report races it.
    pub fn new(rcb: &Rcb, members: Vec<VarRef>) -> (s: ReportSubscription)
        ensures
            s@ == (SubscriptionView {
                rpt_id: rcb.rpt_id@,
                members: member_names(members@),
                domain: rcb.domain@,
                item: rcb.item@,
                closed: false,
            }),
    {
        ReportSubscription {
            rpt_id: rcb.rpt_id.clone(),
            members,
            domain: rcb.domain.clone(),
            item: rcb.item.clone(),
            closed: false,
        }
    }

    /// The report to hand on, if an information report is one of this
    /// subscription. A report carries no other identification than its `RptID`,
    /// so blocks configured with the same one cannot be told apart.
    pub fn deliver(&self, ir: &InformationReport) -> (r: Option<Report>)
        ensures
            match (r, self@.passes(all_views(ir.values@))) {
                (Some(rep), Some(want)) => rep@ == want,
                (None, None) => true,
                _ => false,
            },
    {
        if self.closed {
            return None;
        }
        match decode_report(ir, &self.members) {
            Some(rep) => if same(rep.rpt_id.as_str(), self.rpt_id.as_str()) {
                Some(rep)
            } else {
                None
            },
            None => None,
        }
    }

    /// Ends the subscription and returns the write that turns the block off.
    /// Nothing is delivered any more, whatever becomes of the write.
    ///
    /// Calling it twice is harmless: there is nothing left to write.
    pub fn disable(&mut self) -> (w: Option<DisableWrite>)
        ensures
            final(self)@ == (SubscriptionView { closed: true, ..old(self)@ }),
            match w {
                None => old(self)@.closed,
                Some(w) => {
                    &&& !old(self)@.closed
                    &&& w.domain@ == old(self)@.domain
                    &&& w.item@ == sub_item(old(self)@.item, "RptEna"@)
                    &&& w.value@ == Data::Boolean(false)
                },
            },
    {
        if self.closed {
            return None;
        }
        self.closed = true;
        Some(
            DisableWrite {
                domain: self.domain.clone(),
                item: concat3(self.item.as_str(), "$", "RptEna"),
                value: Value::boolean(false),
            },
        )
    }
}

/// A disabled subscription delivers nothing, and disabling it once more changes
/// nothing.
pub proof fn a_disabled_subscription_is_silent(s: SubscriptionView, values: Seq<Data>)
    ensures
        (SubscriptionView { closed: true, ..s }).passes(values) is None,
        (SubscriptionView { closed: true, ..(SubscriptionView { closed: true, ..s }) }) == (
        SubscriptionView { closed: true, ..s }),
{
}

/// Subscriptions on one connection do not disturb each other: a report goes to
/// those of its own `RptID` and to no other.
pub proof fn a_report_goes_to_its_own_subscription(
    s: SubscriptionView,
    other: SubscriptionView,
    values: Seq<Data>,
)
    requires
        s.rpt_id != other.rpt_id,
        s.passes(values) is Some,
    ensures
        other.passes(values) is None,
{
}

/// Reading a report control block: its attributes are read one after the other.
#[derive(Debug)]
pub struct RcbReading {
    pub rcb: Rcb,
    pub attrs: Vec<RcbAttr>,
    /// How many attributes have been read.
    pub at: usize,
}

impl RcbReading {
    pub fn new(reference: ObjectReference) -> (r: RcbReading)
        ensures
            r.rcb.is_unread(reference),
            r.attrs@ == RcbAttr::every(),
            r.at == 0,
    {
        RcbReading { rcb: Rcb::new(reference), attrs: RcbAttr::all(), at: 0 }
    }

    /// The attribute that is to be read next, with its item; none once all were.
    pub fn wanted(&self) -> (r: Option<(RcbAttr, String)>)
        ensures
            match r {
                Some((attr, item)) => self.at < self.attrs@.len() && attr
                    == self.attrs@[self.at as int] && item@ == sub_item(
                    self.rcb.item@,
                    attr.text(),
                ),
                None => self.at >= self.attrs@.len(),
            },
    {
        if self.at < self.attrs.len() {
            let attr = self.attrs[self.at];
            Some((attr, self.rcb.attr_item(attr.name())))
        } else {
            None
        }
    }

    /// Takes the attribute that was asked for, if it was readable.
    pub fn on_value(self, v: Option<Value>) -> (r: RcbReading)
        requires
            self.at < self.attrs@.len(),
        ensures
            r.attrs == self.attrs,
            r.at == self.at + 1,
            match v {
                Some(v) => self.rcb.then_read(self.attrs@[self.at as int], v@, r.rcb),
                None => r.rcb == self.rcb,
            },
    {
        let RcbReading { rcb, attrs, at } = self;
        let mut rcb = rcb;
        let next: usize = if at < attrs.len() {
            at + 1
        } else {
            at
        };
        if let Some(v) = &v {
            rcb.set_attribute(attrs[at], v);
        }
        RcbReading { rcb, attrs, at: next }
    }
}

/// Where enabling a report control block stands.
#[derive(Debug)]
pub enum Enabling {
    /// The block's dataset is to be read: it is not known.
    AskDataSet,
    /// The members of the dataset are to be listed.
    ListMembers(String),
    /// The block is to be configured: the writes from `at` on.
    Configure { members: Vec<VarRef>, writes: Vec<RcbWrite>, at: usize },
    /// The receiver of the reports is to be put in place.
    Register(ReportSubscription),
    /// The block is to be turned on.
    TurnOn,
    Enabled,
    Failed(Error),
}

/// What is to be done for a block to be enabled.
#[derive(Debug)]
pub enum EnableCall {
    /// Read an item.
    Read(String),
    /// List the members of a variable list.
    Members(String),
    /// Put the receiver of the reports in place.
    Register,
    /// Write a value to an item.
    Write(String, Value),
    /// Nothing is left to do.
    Finish,
}

/// What a call came to.
#[derive(Debug)]
pub enum EnableReply {
    /// The value that was read, if it was readable.
    Value(Option<Value>),
    /// The members, if the server told them.
    Members(Option<Vec<VarRef>>),
    Written(Result<Vec<Option<DataAccessError>>>),
}

impl EnableReply {
    /// The members in the answer; without an answer there are none.
    pub open spec fn members(self) -> Seq<(Seq<char>, Seq<char>)> {
        match self {
            EnableReply::Members(Some(v)) => member_names(v@),
            _ => Seq::empty(),
        }
    }

    /// The text that was read; without an answer it is empty.
    pub open spec fn text(self) -> Seq<char> {
        match self {
            EnableReply::Value(Some(v)) => v@.text(),
            _ => Seq::empty(),
        }
    }

    /// What the server refused a write with, if it did.
    pub open spec fn refusal(self) -> Option<DataAccessError> {
        match self {
            EnableReply::Written(Ok(results)) => if results@.len() > 0 {
                results@[0]
            } else {
                None
            },
            _ => None,
        }
    }
}

impl Enabling {
    /// Whether there is something at the place where enabling stands.
    pub open spec fn valid(self) -> bool {
        self matches Enabling::Configure { members, writes, at } ==> at < writes@.len()
    }

    /// Whether the next thing is to list the members of a dataset, or, where
    /// that cannot be done, to configure the block without knowing them. A
    /// server that will not describe its own dataset still reports; the entries
    /// just carry no reference.
    pub open spec fn lists(self, rcb: Rcb, data_set: Seq<char>) -> bool {
        match split_first(data_set, '/') {
            Some((_, rest)) => self matches Enabling::ListMembers(list) && list@ == rest,
            None => self.configures(rcb, Seq::empty()),
        }
    }

    /// Whether the next thing is to configure the block from the beginning.
    pub open spec fn configures(self, rcb: Rcb, names: Seq<(Seq<char>, Seq<char>)>) -> bool {
        self matches Enabling::Configure { members, writes, at } && member_names(members@) == names
            && rcb.is_enabled_by(writes_view(writes@)) && at == 0
    }

    /// Whether the next thing is to turn the block on once a subscription is in
    /// place.
    pub open spec fn registers(self, rcb: Rcb, names: Seq<(Seq<char>, Seq<char>)>) -> bool {
        self matches Enabling::Register(s) && s@ == (SubscriptionView {
            rpt_id: rcb.rpt_id@,
            members: names,
            domain: rcb.domain@,
            item: rcb.item@,
            closed: false,
        })
    }

    /// Whether enabling failed with a write: with what the transport said, or
    /// with what the server refused it with.
    pub open spec fn fails(self, attr: Seq<char>, reply: EnableReply) -> bool {
        match (reply, reply.refusal()) {
            (EnableReply::Written(Err(e)), _) => self == Enabling::Failed(e),
            (_, Some(code)) => self matches Enabling::Failed(e) && is_client_error(
                e,
                "RCB"@ + " write "@ + attr + ": "@ + code.text(),
            ),
            _ => false,
        }
    }

    /// Whether a write was accepted.
    pub open spec fn is_accepted(reply: EnableReply) -> bool {
        reply matches EnableReply::Written(Ok(_)) && reply.refusal() is None
    }

    /// Whether `after` is where enabling stands once a call is answered. An
    /// answer that is none to a write leaves a write to be done.
    pub open spec fn leads(self, rcb: Rcb, reply: EnableReply, after: Enabling) -> bool {
        match self {
            Enabling::AskDataSet => after.lists(rcb, reply.text()),
            Enabling::ListMembers(_) => after.configures(rcb, reply.members()),
            Enabling::Configure { members, writes, at } => if !(reply is Written) {
                after == self
            } else if !Self::is_accepted(reply) {
                after.fails(writes@[at as int].attr@, reply)
            } else if at + 1 < writes@.len() {
                after == (Enabling::Configure { members, writes, at: (at + 1) as usize })
            } else {
                after.registers(rcb, member_names(members@))
            },
            Enabling::Register(_) => after == self,
            Enabling::TurnOn => if !(reply is Written) {
                after == self
            } else if Self::is_accepted(reply) {
                after is Enabled
            } else {
                after.fails("RptEna"@, reply)
            },
            _ => after == self,
        }
    }

    /// Whether a call is the one to make.
    pub open spec fn asks(self, rcb: Rcb, c: EnableCall) -> bool {
        match self {
            Enabling::AskDataSet => c matches EnableCall::Read(item) && item@ == sub_item(
                rcb.item@,
                "DatSet"@,
            ),
            Enabling::ListMembers(list) => c matches EnableCall::Members(l) && l@ == list@,
            Enabling::Configure { members, writes, at } => c matches EnableCall::Write(item, v)
                && item@ == sub_item(rcb.item@, writes@[at as int].attr@) && v@
                == writes@[at as int].value@,
            Enabling::Register(_) => c is Register,
            Enabling::TurnOn => c matches EnableCall::Write(item, v) && item@ == sub_item(
                rcb.item@,
                "RptEna"@,
            ) && v@ == Data::Boolean(true),
            _ => c is Finish,
        }
    }

    fn listing(rcb: &Rcb, data_set: &str) -> (s: Enabling)
        ensures
            s.valid(),
            s.lists(*rcb, data_set@),
    {
        match Rcb::dataset_list(data_set) {
            Ok(list) => Enabling::ListMembers(list),
            Err(_) => {
                let none: Vec<VarRef> = Vec::new();
                assert(member_names(none@) =~= Seq::<(Seq<char>, Seq<char>)>::empty());
                Enabling::configure(rcb, none)
            },
        }
    }

    fn configure(rcb: &Rcb, members: Vec<VarRef>) -> (s: Enabling)
        ensures
            s.valid(),
            s.configures(*rcb, member_names(members@)),
    {
        let writes = rcb.enable_writes();
        assert(writes_view(writes@).len() == writes@.len());
        Enabling::Configure { members, writes, at: 0 }
    }

    /// Begins to enable a block: the members of its dataset are learned first,
    /// so that report entries can be labelled.
    pub fn new(rcb: &Rcb) -> (s: Enabling)
        ensures
            s.valid(),
            if rcb.data_set@.len() == 0 {
                s is AskDataSet
            } else {
                s.lists(*rcb, rcb.data_set@)
            },
    {
        if rcb.data_set.as_str().is_empty() {
            Enabling::AskDataSet
        } else {
            Enabling::listing(rcb, rcb.data_set.as_str())
        }
    }

    /// What is to be done next.
    pub fn call(&self, rcb: &Rcb) -> (c: EnableCall)
        requires
            self.valid(),
        ensures
            self.asks(*rcb, c),
    {
        match self {
            Enabling::AskDataSet => EnableCall::Read(rcb.attr_item("DatSet")),
            Enabling::ListMembers(list) => EnableCall::Members(list.clone()),
            Enabling::Configure { members: _, writes, at } => {
                let w = &writes[*at];
                EnableCall::Write(rcb.attr_item(w.attr), w.value.clone())
            },
            Enabling::Register(_) => EnableCall::Register,
            Enabling::TurnOn => {
                let on = Rcb::enable_write(true);
                EnableCall::Write(rcb.attr_item(on.attr), on.value)
            },
            Enabling::Enabled | Enabling::Failed(_) => EnableCall::Finish,
        }
    }

    /// Takes the answer to the call.
    pub fn step(self, rcb: &Rcb, reply: EnableReply) -> (s: Enabling)
        requires
            self.valid(),
        ensures
            s.valid(),
            self.leads(*rcb, reply, s),
    {
        match self {
            Enabling::AskDataSet => {
                let text = match reply {
                    EnableReply::Value(Some(v)) => v.text(),
                    _ => String::new(),
                };
                Enabling::listing(rcb, text.as_str())
            },
            Enabling::ListMembers(_) => {
                let members = match reply {
                    EnableReply::Members(Some(v)) => v,
                    _ => {
                        let none: Vec<VarRef> = Vec::new();
                        assert(member_names(none@) =~= Seq::<(Seq<char>, Seq<char>)>::empty());
                        none
                    },
                };
                Enabling::configure(rcb, members)
            },
            Enabling::Configure { members, writes, at } => {
                let results = match reply {
                    EnableReply::Written(results) => results,
                    _ => return Enabling::Configure { members, writes, at },
                };
                if let Some(e) = write_failure(writes[at].attr, results) {
                    return Enabling::Failed(e);
                }
                if at < writes.len() - 1 {
                    Enabling::Configure { members, writes, at: at + 1 }
                } else {
                    Enabling::Register(ReportSubscription::new(rcb, members))
                }
            },
            Enabling::TurnOn => {
                let results = match reply {
                    EnableReply::Written(results) => results,
                    _ => return Enabling::TurnOn,
                };
                match write_failure("RptEna", results) {
                    Some(e) => Enabling::Failed(e),
                    None => Enabling::Enabled,
                }
            },
            other => other,
        }
    }

    /// Hands out the subscription to put in place, once it is time to.
    pub fn register(self) -> (r: (Enabling, Option<ReportSubscription>))
        requires
            self.valid(),
        ensures
            r.0.valid(),
            match self {
                Enabling::Register(s) => r == (Enabling::TurnOn, Some(s)),
                _ => r == (self, None::<ReportSubscription>),
            },
    {
        match self {
            Enabling::Register(s) => (Enabling::TurnOn, Some(s)),
            other => (other, None),
        }
    }
}

/// Why a write failed, if it did.
fn write_failure(attr: &str, results: Result<Vec<Option<DataAccessError>>>) -> (r: Option<Error>)
    ensures
        ({
            let reply = EnableReply::Written(results);
            match r {
                Some(e) => !Enabling::is_accepted(reply) && Enabling::Failed(e).fails(attr@, reply),
                None => Enabling::is_accepted(reply),
            }
        }),
{
    match results {
        Ok(results) => match attribute_write_outcome("RCB", attr, &results) {
            Ok(()) => None,
            Err(e) => Some(e),
        },
        Err(e) => Some(e),
    }
}

/// The receiver is in place before the block is turned on, or the first report
/// would race it: nothing but handing out the subscription leads to where
/// `RptEna` is written, and the configuration lies behind then.
pub proof fn the_receiver_comes_before_the_reports(
    s: Enabling,
    rcb: Rcb,
    reply: EnableReply,
    after: Enabling,
)
    requires
        s.leads(rcb, reply, after),
        !(s is TurnOn),
    ensures
        !(after is TurnOn),
        after is Enabled ==> s is Enabled,
{
}

/// A period that nobody touched is written back unchanged: enabling a block
/// writes the integrity period that was read of it. The period must fit in 32
/// bits, which is how it is written.
pub proof fn an_untouched_period_is_written_back(
    b: Rcb,
    v: Data,
    a: Rcb,
    writes: Seq<(Seq<char>, Data)>,
)
    requires
        b.then_read(RcbAttr::IntgPd, v, a),
        v.unsigned() <= u32::MAX,
        a.is_enabled_by(writes),
    ensures
        writes.contains(("IntgPd"@, Data::Unsigned(v.unsigned()))),
{
    let n0 = if a.opt_flds != OptFlds::nothing() {
        1int
    } else {
        0
    };
    let n1 = n0 + if a.trg_ops != TrgOps::nothing() {
        1int
    } else {
        0
    };
    assert(writes[n1] == ("IntgPd"@, Data::Unsigned(v.unsigned())));
}

/// The members that a report includes are those whose bits are set, each once
/// and in order, however long the bit string is; where every bit is set, they
/// are all members.
pub proof fn the_included_members_are_the_set_bits(d: Data)
    ensures
        forall|i: nat| #[trigger]
            set_bits(d, d.bit_len()).contains(i) <==> i < d.bit_len() && d.bit(i as int),
        forall|a: int, b: int|
            0 <= a < b < set_bits(d, d.bit_len()).len() ==> (#[trigger] set_bits(d, d.bit_len())[a])
                < (#[trigger] set_bits(d, d.bit_len())[b]),
        (forall|i: int| 0 <= i < d.bit_len() ==> #[trigger] d.bit(i)) ==> {
            &&& set_bits(d, d.bit_len()).len() == d.bit_len()
            &&& forall|k: int|
                0 <= k < d.bit_len() ==> (#[trigger] set_bits(d, d.bit_len())[k]) == k
        },
{
    lemma_set_bits(d, d.bit_len());
}

proof fn lemma_set_bits(d: Data, n: nat)
    ensures
        forall|i: nat| #[trigger] set_bits(d, n).contains(i) <==> i < n && d.bit(i as int),
        forall|a: int, b: int|
            0 <= a < b < set_bits(d, n).len() ==> (#[trigger] set_bits(d, n)[a]) < (
            #[trigger] set_bits(d, n)[b]),
        (forall|i: int| 0 <= i < n ==> #[trigger] d.bit(i)) ==> {
            &&& set_bits(d, n).len() == n
            &&& forall|k: int| 0 <= k < n ==> (#[trigger] set_bits(d, n)[k]) == k
        },
    decreases n,
{
    if n > 0 {
        let m = (n - 1) as nat;
        lemma_set_bits(d, m);
        let before = set_bits(d, m);
        let now = set_bits(d, n);
        assert forall|a: int| 0 <= a < before.len() implies #[trigger] before[a] < m by {
            assert(before.contains(before[a]));
        }
        assert forall|i: nat| #[trigger] now.contains(i) <==> i < n && d.bit(i as int) by {
            if now.contains(i) {
                let a = choose|a: int| 0 <= a < now.len() && now[a] == i;
                if a < before.len() {
                    assert(before.contains(i));
                }
            }
            if i < n && d.bit(i as int) {
                if i < m {
                    assert(before.contains(i));
                    let a = choose|a: int| 0 <= a < before.len() && before[a] == i;
                    assert(now[a] == i);
                } else {
                    assert(now[before.len() as int] == i);
                }
            }
        }
    }
}

/// Two rising lists with the same members are the same.
proof fn lemma_rising_lists(a: Seq<nat>, b: Seq<nat>)
    requires
        forall|i: int, j: int| 0 <= i < j < a.len() ==> #[trigger] a[i] < #[trigger] a[j],
        forall|i: int, j: int| 0 <= i < j < b.len() ==> #[trigger] b[i] < #[trigger] b[j],
        forall|x: nat| #[trigger] a.contains(x) <==> b.contains(x),
    ensures
        a == b,
    decreases a.len(),
{
    if a.len() == 0 {
        if b.len() > 0 {
            assert(b.contains(b[0]));
            assert(a.contains(b[0]));
        }
        assert(a =~= b);
    } else {
        assert(a.contains(a[0]));
        assert(b.contains(a[0]));
        let (p, q) = (a.len() - 1, b.len() - 1);
        assert(a.contains(a[p]) && b.contains(b[q]));
        assert(b.contains(a[p]) && a.contains(b[q]));
        let i = choose|i: int| 0 <= i < b.len() && b[i] == a[p];
        let j = choose|j: int| 0 <= j < a.len() && a[j] == b[q];
        assert(a[p] == b[q]);
        let (x, y) = (a.drop_last(), b.drop_last());
        assert forall|v: nat| #[trigger] x.contains(v) <==> y.contains(v) by {
            if x.contains(v) {
                let k = choose|k: int| 0 <= k < x.len() && x[k] == v;
                assert(a[k] == v && v < a[p]);
                assert(a.contains(v));
                assert(b.contains(v));
                let l = choose|l: int| 0 <= l < b.len() && b[l] == v;
                assert(y[l] == v);
            }
            if y.contains(v) {
                let k = choose|k: int| 0 <= k < y.len() && y[k] == v;
                assert(b[k] == v && v < b[q]);
                assert(b.contains(v));
                assert(a.contains(v));
                let l = choose|l: int| 0 <= l < a.len() && a[l] == v;
                assert(x[l] == v);
            }
        }
        lemma_rising_lists(x, y);
        assert(a =~= x.push(a[p]) && b =~= y.push(b[q]));
    }
}

/// A report of the members `chosen` puts each value and each reason on its own
/// member, and each field where it belongs. The list of values is written out
/// here as the report format has it: the identifier, the flags, a field for each
/// flag that is set, the inclusion bits, then references, values and reasons of
/// the chosen members, of which the first and the last are sent only where
/// their flags are set.
#[verifier::spinoff_prover]
#[verifier::rlimit(60)]
pub proof fn a_report_puts_each_value_on_its_member(
    s: Sent,
    chosen: Seq<nat>,
    v: Seq<Data>,
    names: Seq<(Seq<char>, Seq<char>)>,
)
    requires
        forall|a: int, b: int| 0 <= a < b < chosen.len() ==> #[trigger] chosen[a] < #[trigger] chosen[b],
        forall|i: nat| #[trigger]
            chosen.contains(i) <==> i < s.inclusion.bit_len() && s.inclusion.bit(i as int),
        s.values.len() == chosen.len(),
        s.opt_flds.bit(5) ==> s.references.len() == chosen.len(),
        s.opt_flds.bit(3) ==> s.reasons.len() == chosen.len(),
        v == seq![s.rpt_id, s.opt_flds] + (if s.opt_flds.bit(1) {
            seq![s.seq_num]
        } else {
            Seq::empty()
        }) + (if s.opt_flds.bit(2) {
            seq![s.time_of_entry]
        } else {
            Seq::empty()
        }) + (if s.opt_flds.bit(4) {
            seq![s.data_set]
        } else {
            Seq::empty()
        }) + (if s.opt_flds.bit(6) {
            seq![s.buf_ovfl]
        } else {
            Seq::empty()
        }) + (if s.opt_flds.bit(7) {
            seq![s.entry_id]
        } else {
            Seq::empty()
        }) + (if s.opt_flds.bit(8) {
            seq![s.conf_rev]
        } else {
            Seq::empty()
        }) + (if s.opt_flds.bit(9) {
            seq![s.sub_seq_num]
        } else {
            Seq::empty()
        }) + (if s.opt_flds.bit(9) {
            seq![s.more_follows]
        } else {
            Seq::empty()
        }) + seq![s.inclusion] + (if s.opt_flds.bit(5) {
            s.references
        } else {
            Seq::empty()
        }) + s.values + (if s.opt_flds.bit(3) {
            s.reasons
        } else {
            Seq::empty()
        }),
    ensures
        report_of(v, names) is Some,
        ({
            let r = report_of(v, names)->0;
            &&& r.rpt_id == s.rpt_id.text()
            &&& r.seq_num == (if s.opt_flds.bit(1) {
                s.seq_num.unsigned32()
            } else {
                0
            })
            &&& r.time_of_entry == (if s.opt_flds.bit(2) {
                s.time_of_entry.time()
            } else {
                None
            })
            &&& r.data_set == (if s.opt_flds.bit(4) {
                s.data_set.text()
            } else {
                Seq::empty()
            })
            &&& r.buf_ovfl == (s.opt_flds.bit(6) && s.buf_ovfl == Data::Boolean(true))
            &&& r.entry_id == (if s.opt_flds.bit(7) {
                s.entry_id.octets()
            } else {
                Seq::empty()
            })
            &&& r.conf_rev == (if s.opt_flds.bit(8) {
                s.conf_rev.unsigned32()
            } else {
                0
            })
            &&& r.sub_seq_num == (if s.opt_flds.bit(9) {
                s.sub_seq_num.unsigned32()
            } else {
                0
            })
            &&& r.more_follows == (s.opt_flds.bit(9) && s.more_follows == Data::Boolean(true))
            &&& r.entries.len() == chosen.len()
            &&& forall|k: int|
                0 <= k < chosen.len() ==> {
                    let e = #[trigger] r.entries[k];
                    &&& e.index == chosen[k]
                    &&& e.value == s.values[k]
                    &&& e.reason.data_change == (s.opt_flds.bit(3) && s.reasons[k].bit(1))
                    &&& e.reason.quality_change == (s.opt_flds.bit(3) && s.reasons[k].bit(2))
                    &&& e.reason.data_update == (s.opt_flds.bit(3) && s.reasons[k].bit(3))
                    &&& e.reason.integrity == (s.opt_flds.bit(3) && s.reasons[k].bit(4))
                    &&& e.reason.gi == (s.opt_flds.bit(3) && s.reasons[k].bit(5))
                    &&& e.reason.application_trigger == (s.opt_flds.bit(3) && s.reasons[k].bit(6))
                    &&& chosen[k] >= names.len() ==> e.reference.len() == 0 && e.fc == Fc::Unset
                }
        }),
{
    lemma_chosen(s, chosen);
    assert(v == s.flat());
    a_report_reads_as_it_was_sent(s, names);
}

/// The chosen members are the included ones.
proof fn lemma_chosen(s: Sent, chosen: Seq<nat>)
    requires
        forall|a: int, b: int| 0 <= a < b < chosen.len() ==> #[trigger] chosen[a] < #[trigger] chosen[b],
        forall|i: nat| #[trigger]
            chosen.contains(i) <==> i < s.inclusion.bit_len() && s.inclusion.bit(i as int),
    ensures
        s.members() == chosen,
{
    the_included_members_are_the_set_bits(s.inclusion);
    lemma_rising_lists(chosen, s.members());
}

/// An entry of a report carries the reference and the constraint of its member:
/// those under which the member stands in the dataset.
pub proof fn an_entry_is_labelled_as_its_member(
    s: Sent,
    names: Seq<(Seq<char>, Seq<char>)>,
    k: int,
    reference: Seq<char>,
    fc: Fc,
)
    requires
        s.wf(),
        0 <= k < s.members().len(),
        s.members()[k] < names.len(),
        fc.is_code(),
        path_of(reference).len() > 0,
        !reference.contains('$'),
        names[s.members()[k] as int] == (ld_of(reference), item_of(path_of(reference), fc)),
    ensures
        report_of(s.flat(), names) matches Some(r) && k < r.entries.len() && r.entries[k].reference
            == reference && r.entries[k].fc == fc,
{
    a_report_reads_as_it_was_sent(s, names);
    crate::model::reference::reference_round_trip(reference, fc);
}

/// A report that ends before its inclusion bits comes to nothing, and one that
/// does not comes to something: a field is read exactly where its flag is set.
pub proof fn a_report_needs_its_inclusion_bits(v: Seq<Data>, names: Seq<(Seq<char>, Seq<char>)>)
    ensures
        report_of(v, names) is Some <==> {
            &&& v.len() >= 3
            &&& v.len() > 2 + (if v[1].bit(1) {
                1int
            } else {
                0
            }) + (if v[1].bit(2) {
                1int
            } else {
                0
            }) + (if v[1].bit(4) {
                1int
            } else {
                0
            }) + (if v[1].bit(6) {
                1int
            } else {
                0
            }) + (if v[1].bit(7) {
                1int
            } else {
                0
            }) + (if v[1].bit(8) {
                1int
            } else {
                0
            }) + (if v[1].bit(9) {
                2int
            } else {
                0
            })
        },
{
}

/// What is read of a block lands in the field of its attribute, and changes no
/// other: flags are taken bit by bit.
pub proof fn an_attribute_lands_in_its_field(b: Rcb, attr: RcbAttr, v: Data, a: Rcb)
    requires
        b.then_read(attr, v, a),
    ensures
        a.rpt_id@ == (if attr is RptId {
            v.text()
        } else {
            b.rpt_id@
        }),
        a.data_set@ == (if attr is DatSet {
            v.text()
        } else {
            b.data_set@
        }),
        a.conf_rev == (if attr is ConfRev {
            v.unsigned32()
        } else {
            b.conf_rev
        }),
        a.buf_tm == (if attr is BufTm {
            v.unsigned32()
        } else {
            b.buf_tm
        }),
        a.intg_pd == (if attr is IntgPd {
            v.unsigned()
        } else {
            b.intg_pd
        }),
        !(attr is OptFlds) ==> a.opt_flds == b.opt_flds,
        attr is OptFlds ==> {
            &&& a.opt_flds.seq_num == v.bit(1)
            &&& a.opt_flds.time_of_entry == v.bit(2)
            &&& a.opt_flds.reason_code == v.bit(3)
            &&& a.opt_flds.data_set_name == v.bit(4)
            &&& a.opt_flds.data_ref == v.bit(5)
            &&& a.opt_flds.buf_ovfl == v.bit(6)
            &&& a.opt_flds.entry_id == v.bit(7)
            &&& a.opt_flds.conf_rev == v.bit(8)
            &&& a.opt_flds.segmentation == v.bit(9)
        },
        !(attr is TrgOps) ==> a.trg_ops == b.trg_ops,
        attr is TrgOps ==> {
            &&& a.trg_ops.data_change == v.bit(1)
            &&& a.trg_ops.quality_change == v.bit(2)
            &&& a.trg_ops.data_update == v.bit(3)
            &&& a.trg_ops.integrity == v.bit(4)
            &&& a.trg_ops.gi == v.bit(5)
        },
        a.reference == b.reference,
        a.buffered == b.buffered,
        a.domain == b.domain,
        a.item == b.item,
        a.resync_entry_id == b.resync_entry_id,
{
}

/// A block is written as it is configured: the fields and the triggers where
/// any is chosen, each as a bit of its own; the period always, cut to 32 bits;
/// and the entry to resume behind on a buffered block that is given one, last of
/// all. Nothing else is written.
pub proof fn a_block_is_written_as_configured(b: Rcb, w: Seq<(Seq<char>, Data)>, i: int)
    requires
        b.is_enabled_by(w),
    ensures
        b.opt_flds.seq_num || b.opt_flds.time_of_entry || b.opt_flds.reason_code
            || b.opt_flds.data_set_name || b.opt_flds.data_ref || b.opt_flds.buf_ovfl
            || b.opt_flds.entry_id || b.opt_flds.conf_rev || b.opt_flds.segmentation ==> {
            &&& w.len() > 0
            &&& w[0].0 == "OptFlds"@
            &&& w[0].1.bit_len() == 10
            &&& !w[0].1.bit(0)
            &&& w[0].1.bit(1) == b.opt_flds.seq_num
            &&& w[0].1.bit(2) == b.opt_flds.time_of_entry
            &&& w[0].1.bit(3) == b.opt_flds.reason_code
            &&& w[0].1.bit(4) == b.opt_flds.data_set_name
            &&& w[0].1.bit(5) == b.opt_flds.data_ref
            &&& w[0].1.bit(6) == b.opt_flds.buf_ovfl
            &&& w[0].1.bit(7) == b.opt_flds.entry_id
            &&& w[0].1.bit(8) == b.opt_flds.conf_rev
            &&& w[0].1.bit(9) == b.opt_flds.segmentation
        },
        b.trg_ops.data_change || b.trg_ops.quality_change || b.trg_ops.data_update
            || b.trg_ops.integrity || b.trg_ops.gi ==> exists|k: int|
            0 <= k < w.len() && (#[trigger] w[k]).0 == "TrgOps"@ && w[k].1.bit_len() == 6
                && !w[k].1.bit(0) && w[k].1.bit(1) == b.trg_ops.data_change && w[k].1.bit(2)
                == b.trg_ops.quality_change && w[k].1.bit(3) == b.trg_ops.data_update && w[k].1.bit(
                4,
            ) == b.trg_ops.integrity && w[k].1.bit(5) == b.trg_ops.gi,
        exists|k: int|
            0 <= k < w.len() && (#[trigger] w[k]).0 == "IntgPd"@ && w[k].1 == Data::Unsigned(
                if b.intg_pd > 0xffff_ffff {
                    0xffff_ffff
                } else {
                    b.intg_pd
                },
            ),
        b.buffered && b.resync_entry_id is Some && b.resync_entry_id->0@.len() > 0 ==> w.last() == (
            "EntryID"@,
            Data::OctetString(b.resync_entry_id->0@),
        ),
        w.len() == (if b.opt_flds != OptFlds::nothing() {
            1int
        } else {
            0
        }) + (if b.trg_ops != TrgOps::nothing() {
            1int
        } else {
            0
        }) + 1 + (if b.buffered && b.resync_entry_id is Some && b.resync_entry_id->0@.len() > 0 {
            1int
        } else {
            0
        }),
{
    let n0 = if b.opt_flds != OptFlds::nothing() {
        1int
    } else {
        0
    };
    let n1 = n0 + if b.trg_ops != TrgOps::nothing() {
        1int
    } else {
        0
    };
    if b.trg_ops != TrgOps::nothing() {
        assert(w[n0].0 == "TrgOps"@);
    }
    assert(w[n1].0 == "IntgPd"@);
}

/// Configuring a block makes each of its writes in turn, and goes on only where
/// it was accepted; the receiver of the reports takes those of the block's own
/// identifier, with the members of its dataset, and comes behind the last write.
pub proof fn each_write_of_a_block_is_made_in_turn(
    members: Vec<VarRef>,
    writes: Vec<RcbWrite>,
    at: usize,
    rcb: Rcb,
    reply: EnableReply,
    after: Enabling,
    c: EnableCall,
)
    requires
        (Enabling::Configure { members, writes, at }).valid(),
        (Enabling::Configure { members, writes, at }).asks(rcb, c),
        (Enabling::Configure { members, writes, at }).leads(rcb, reply, after),
    ensures
        c matches EnableCall::Write(item, v) && item@ == rcb.item@ + "$"@ + writes@[at as int].attr@
            && v@ == writes@[at as int].value@,
        (reply matches EnableReply::Written(Ok(results)) && (results@.len() == 0 || results@[0]
            is None)) ==> {
            &&& at + 1 < writes@.len() ==> (after matches Enabling::Configure {
                members: m,
                writes: w,
                at: n,
            } && m == members && w == writes && n == at + 1)
            &&& at + 1 == writes@.len() ==> (after matches Enabling::Register(s) && s@.rpt_id
                == rcb.rpt_id@ && s@.members.len() == members@.len() && !s@.closed && s@.domain
                == rcb.domain@ && s@.item == rcb.item@)
        },
        (reply matches EnableReply::Written(Ok(results)) && results@.len() > 0 && results@[0]
            is Some) ==> after is Failed,
        (reply matches EnableReply::Written(Err(_))) ==> after is Failed,
{
    assert(member_names(members@).len() == members@.len());
    assert(writes.len() == writes@.len());
}

/// A block is turned on by writing true to its `RptEna`, and is enabled exactly
/// where that was accepted.
pub proof fn a_block_is_turned_on_last(rcb: Rcb, reply: EnableReply, after: Enabling, c: EnableCall)
    requires
        Enabling::TurnOn.asks(rcb, c),
        Enabling::TurnOn.leads(rcb, reply, after),
    ensures
        c matches EnableCall::Write(item, v) && item@ == rcb.item@ + "$"@ + "RptEna"@ && v@
            == Data::Boolean(true),
        (reply matches EnableReply::Written(Ok(results)) && (results@.len() == 0 || results@[0]
            is None)) <==> after is Enabled,
{
}

/// The members of a block's dataset are asked for under the name that stands
/// behind the device in the block's dataset, which is read first where it is
/// not known; a server that does not tell them leaves none.
pub proof fn the_members_of_a_block_are_those_of_its_dataset(
    rcb: Rcb,
    device: Seq<char>,
    list: Seq<char>,
    s: Enabling,
    c: EnableCall,
    reply: EnableReply,
    after: Enabling,
)
    requires
        !device.contains('/'),
        s.lists(rcb, device + "/"@ + list),
        s.asks(rcb, c),
        s.leads(rcb, reply, after),
    ensures
        c matches EnableCall::Members(l) && l@ == list,
        after matches Enabling::Configure { members, writes, at } && at == 0 && (
        reply matches EnableReply::Members(Some(v)) ==> members@.len() == v@.len() && forall|i: int|
            0 <= i < v@.len() ==> (#[trigger] members@[i]).domain@ == v@[i].domain@
                && members@[i].item@ == v@[i].item@) && (!(reply matches EnableReply::Members(
            Some(_),
        )) ==> members@.len() == 0),
{
    reveal_strlit("/");
    assert("/"@ =~= seq!['/']);
    let d = device + "/"@ + list;
    assert forall|i: int| 0 <= i < device.len() implies d[i] != '/' by {
        assert(d[i] == device[i]);
    }
    crate::text::lemma_first_of_is(d, '/', device.len() as int);
    assert(d.skip(device.len() as int + 1) =~= list);
    if let Enabling::Configure { members, writes, at } = after {
        if let EnableReply::Members(Some(v)) = reply {
            assert(member_names(members@) == member_names(v@));
            assert forall|i: int| 0 <= i < v@.len() implies (#[trigger] members@[i]).domain@
                == v@[i].domain@ && members@[i].item@ == v@[i].item@ by {
                assert(member_names(members@)[i] == member_names(v@)[i]);
            }
            assert(member_names(members@).len() == members@.len());
        } else {
            assert(member_names(members@).len() == members@.len());
        }
    }
}

/// A subscription hands on a report exactly where it is open and the report
/// carries its identifier, and hands it on as it was decoded.
pub proof fn a_subscription_hands_on_its_reports(s: SubscriptionView, values: Seq<Data>)
    ensures
        s.passes(values) is Some <==> !s.closed && report_of(values, s.members) is Some && report_of(
            values,
            s.members,
        )->0.rpt_id == s.rpt_id,
        s.passes(values) is Some ==> s.passes(values) == report_of(values, s.members),
{
}

/// Every attribute of a block is asked for once, under a name of its own.
pub proof fn every_attribute_is_asked_for_once(a: RcbAttr, b: RcbAttr)
    ensures
        RcbAttr::every().contains(a),
        RcbAttr::every().no_duplicates(),
        a.text() == b.text() ==> a == b,
{
    let all = RcbAttr::every();
    assert(all[0] is RptId && all[1] is DatSet && all[2] is ConfRev && all[3] is OptFlds && all[4]
        is TrgOps && all[5] is BufTm && all[6] is IntgPd);
    reveal_strlit("RptID");
    reveal_strlit("DatSet");
    reveal_strlit("ConfRev");
    reveal_strlit("OptFlds");
    reveal_strlit("TrgOps");
    reveal_strlit("BufTm");
    reveal_strlit("IntgPd");
    assert("RptID"@[0] == 'R' && "DatSet"@[0] == 'D' && "ConfRev"@[0] == 'C' && "OptFlds"@[0]
        == 'O' && "TrgOps"@[0] == 'T' && "BufTm"@[0] == 'B' && "IntgPd"@[0] == 'I');
}

/// A reason is read only of a report that carries reasons, and a member whose
/// value was cut off has none.
pub proof fn a_reason_is_read_where_it_is_sent(
    v: Seq<Data>,
    opt: OptFlds,
    members: Seq<(Seq<char>, Seq<char>)>,
    k: int,
)
    requires
        0 <= k < included(v, opt).len(),
    ensures
        !opt.reason_code ==> entry_of(v, opt, members, k).reason == ReasonCode::nothing(),
        values_start(v, opt) + k >= v.len() ==> entry_of(v, opt, members, k).value is Empty,
        values_start(v, opt) + k < v.len() ==> entry_of(v, opt, members, k).value
            == v[values_start(v, opt) + k],
        ({
            let why = values_start(v, opt) + included(v, opt).len() + k;
            &&& why >= v.len() ==> entry_of(v, opt, members, k).reason == ReasonCode::nothing()
            &&& opt.reason_code && why < v.len() ==> entry_of(v, opt, members, k).reason
                == ReasonCode::of_data(v[why])
        }),
{
}

/// A block that was not read yet is buffered where its item stands under the
/// constraint of buffered blocks, and otherwise not.
pub proof fn a_block_is_buffered_by_its_constraint(
    rcb: Rcb,
    reference: ObjectReference,
    front: Seq<char>,
    behind: Seq<char>,
)
    requires
        rcb.is_unread(reference),
    ensures
        rcb.item@ == front + "$BR$"@ + behind ==> rcb.buffered,
        rcb.buffered ==> exists|x: Seq<char>, y: Seq<char>|
            rcb.item@ == #[trigger] (x + "$BR$"@ + y),
        rcb.rpt_id@.len() == 0 && rcb.data_set@.len() == 0 && rcb.conf_rev == 0,
        rcb.buf_tm == 0 && rcb.intg_pd == 0,
{
    crate::text::what_occurs_stands_between("$BR$"@, front, behind);
}

/// Blocks that are the same agree in everything that is configured and in where
/// they are written.
pub proof fn the_same_block_agrees_in_everything(a: Rcb, b: Rcb)
    requires
        a.same_block(b),
    ensures
        a.reference@ == b.reference@ && a.buffered == b.buffered && a.rpt_id@ == b.rpt_id@
            && a.data_set@ == b.data_set@ && a.conf_rev == b.conf_rev && a.opt_flds == b.opt_flds
            && a.trg_ops == b.trg_ops && a.buf_tm == b.buf_tm && a.intg_pd == b.intg_pd
            && a.domain@ == b.domain@ && a.item@ == b.item@,
        a.resync_entry_id is Some == b.resync_entry_id is Some,
        a.resync_entry_id is Some ==> a.resync_entry_id->0@ == b.resync_entry_id->0@,
{
}

} // verus!
