use vstd::prelude::*;

use super::message::{message_of, message_round_trip, Anomalies, Message, MessageView};
use super::{Error, Result};
use crate::ethernet::frame::FrameView;
use crate::ethernet::{Frame, VlanTag, ETHER_TYPE_GOOSE};
use crate::mms::codec::{data_octets_all, encodable};
use crate::mms::value::{all_views, lemma_views};
use crate::mms::{Data, Timestamp, Value};

verus! {

/// Nanoseconds in a millisecond.
pub const NANOS_PER_MS: u64 = 1_000_000;

/// The default retransmission schedule in nanoseconds: exponential back-off
/// from 4 ms, stable at 1 s.
///
/// A state change is repeated quickly so a lost frame is covered within a
/// protection cycle, then settles into a heartbeat that tells subscribers the
/// publisher is still alive.
#[allow(non_snake_case)]
pub fn DEFAULT_RETRANS() -> (r: Vec<u64>)
    ensures
        r@ == default_schedule(),
{
    let mut r: Vec<u64> = Vec::new();
    r.push(4_000_000);
    r.push(8_000_000);
    r.push(16_000_000);
    r.push(32_000_000);
    r.push(64_000_000);
    r.push(128_000_000);
    r.push(256_000_000);
    r.push(512_000_000);
    r.push(1_000_000_000);
    assert(r@ =~= default_schedule());
    r
}

/// The default schedule: 4 ms doubled up to 512 ms, then 1 s.
pub open spec fn default_schedule() -> Seq<u64> {
    seq![
        4_000_000,
        8_000_000,
        16_000_000,
        32_000_000,
        64_000_000,
        128_000_000,
        256_000_000,
        512_000_000,
        1_000_000_000,
    ]
}

/// Identifies one GOOSE control block on the wire.
#[derive(Debug)]
pub struct PublisherConfig {
    pub dst_mac: [u8; 6],
    pub src_mac: [u8; 6],
    pub app_id: u16,
    pub vlan: Option<VlanTag>,
    pub go_cb_ref: String,
    pub dat_set: String,
    pub go_id: String,
    pub conf_rev: u32,
    /// The interval schedule after a state change, in nanoseconds; the last
    /// entry repeats indefinitely. Empty means [`DEFAULT_RETRANS`].
    pub retrans: Vec<u64>,
}

impl Default for PublisherConfig {
    fn default() -> (c: PublisherConfig)
        ensures
            c.dst_mac@ == seq![0x01u8, 0x0c, 0xcd, 0x01, 0x00, 0x00],
            c.src_mac@ == seq![0u8, 0, 0, 0, 0, 0],
            c.app_id == 0,
            c.vlan is None,
            c.go_cb_ref@.len() == 0,
            c.dat_set@.len() == 0,
            c.go_id@.len() == 0,
            c.conf_rev == 0,
            c.retrans@.len() == 0,
    {
        let c = PublisherConfig {
            // The standard GOOSE multicast range starts here.
            dst_mac: [0x01, 0x0c, 0xcd, 0x01, 0x00, 0x00],
            src_mac: [0, 0, 0, 0, 0, 0],
            app_id: 0,
            vlan: None,
            go_cb_ref: String::new(),
            dat_set: String::new(),
            go_id: String::new(),
            conf_rev: 0,
            retrans: Vec::new(),
        };
        assert(c.dst_mac@ =~= seq![0x01u8, 0x0c, 0xcd, 0x01, 0x00, 0x00]);
        assert(c.src_mac@ =~= seq![0u8, 0, 0, 0, 0, 0]);
        c
    }
}

/// The schedule in effect for a configured one.
pub open spec fn schedule_of(retrans: Seq<u64>) -> Seq<u64> {
    if retrans.len() == 0 {
        default_schedule()
    } else {
        retrans
    }
}

/// The interval after transmission `n` of a state; the last one repeats.
pub open spec fn interval(schedule: Seq<u64>, n: nat) -> u64 {
    if n < schedule.len() {
        schedule[n as int]
    } else {
        schedule.last()
    }
}

/// `timeAllowedToLive` in milliseconds of transmission `n` of a state: twice
/// the interval until the next one, at least 1 and at most what fits.
pub open spec fn lifetime(schedule: Seq<u64>, n: nat) -> u32 {
    let ms = 2 * (interval(schedule, n) / NANOS_PER_MS);
    if ms < 1 {
        1
    } else if ms > u32::MAX {
        u32::MAX
    } else {
        ms as u32
    }
}

/// The sending side of one GOOSE control block.
///
/// Each [`publish`](Publisher::publish) increments `stNum` and restarts the
/// schedule; [`retransmit`](Publisher::retransmit) repeats the state with
/// increasing `sqNum` until the next publish or close.
#[derive(Debug)]
pub struct Publisher {
    cfg: PublisherConfig,
    retrans: Vec<u64>,
    st_num: u32,
    /// Bumped on every publish, so a retransmission can tell it has been
    /// superseded.
    generation: u64,
    closed: bool,
}

/// The model of a publisher.
pub struct PublisherView {
    pub cfg: PublisherConfig,
    pub schedule: Seq<u64>,
    pub st_num: u32,
    pub generation: u64,
    pub closed: bool,
}

impl View for Publisher {
    type V = PublisherView;

    closed spec fn view(&self) -> PublisherView {
        PublisherView {
            cfg: self.cfg,
            schedule: self.retrans@,
            st_num: self.st_num,
            generation: self.generation,
            closed: self.closed,
        }
    }
}

/// One published state on its retransmission schedule.
#[derive(Debug)]
pub struct Retransmission {
    msg: Message,
    generation: u64,
    /// How many times the state was sent again.
    sent: usize,
}

/// The model of a state on its schedule.
pub struct RetransmissionView {
    pub msg: MessageView,
    pub generation: u64,
    pub sent: nat,
}

impl View for Retransmission {
    type V = RetransmissionView;

    closed spec fn view(&self) -> RetransmissionView {
        RetransmissionView {
            msg: self.msg@,
            generation: self.generation,
            sent: self.sent as nat,
        }
    }
}

impl PublisherView {
    /// The schedule has an interval, and all are positive.
    pub open spec fn wf(self) -> bool {
        self.schedule.len() > 0 && forall|i: int|
            0 <= i < self.schedule.len() ==> #[trigger] self.schedule[i] > 0
    }

    /// The frame that carries `m`.
    pub open spec fn frame(self, m: MessageView) -> FrameView {
        FrameView {
            dst: self.cfg.dst_mac@,
            src: self.cfg.src_mac@,
            ether_type: ETHER_TYPE_GOOSE,
            vlan: self.cfg.vlan,
            payload: m.apdu(),
        }
    }

    /// The message that announces `values` at `t`.
    pub open spec fn announcement(self, values: Seq<Data>, t: Timestamp) -> MessageView {
        MessageView {
            go_cb_ref: self.cfg.go_cb_ref@,
            dat_set: self.cfg.dat_set@,
            go_id: self.cfg.go_id@,
            time_allowed_to_live: lifetime(self.schedule, 0),
            t: Some(t),
            st_num: next_st_num(self.st_num),
            sq_num: 0,
            conf_rev: self.cfg.conf_rev,
            test: false,
            nds_com: false,
            num_dat_set_entries: (values.len() % 0x1_0000_0000) as u32,
            values,
            app_id: self.cfg.app_id,
            anomalies: Anomalies::clear(),
        }
    }

    /// The publisher after one more state was announced.
    pub open spec fn moved_on(self) -> PublisherView {
        PublisherView {
            st_num: next_st_num(self.st_num),
            generation: (self.generation + 1) as u64,
            ..self
        }
    }

    /// Whether `r` is still the state to repeat.
    pub open spec fn repeats(self, r: RetransmissionView) -> bool {
        !self.closed && self.generation == r.generation
    }
}

/// The state number of the next state change; it wraps.
pub open spec fn next_st_num(n: u32) -> u32 {
    if n == u32::MAX {
        0
    } else {
        (n + 1) as u32
    }
}

impl RetransmissionView {
    /// The next copy: the sequence number counts on and the lifetime follows
    /// the schedule. The time stays: it says when the value changed, not when
    /// this copy of it was sent.
    pub open spec fn repeated(self, schedule: Seq<u64>) -> RetransmissionView {
        RetransmissionView {
            msg: MessageView {
                sq_num: next_st_num(self.msg.sq_num),
                time_allowed_to_live: lifetime(schedule, self.sent + 1),
                ..self.msg
            },
            generation: self.generation,
            sent: self.sent + 1,
        }
    }
}

impl Publisher {
    /// Returns a publisher for a control block.
    pub fn new(cfg: PublisherConfig) -> (r: Result<Publisher>)
        ensures
            match r {
                Ok(p) => {
                    &&& cfg.go_cb_ref@.len() > 0
                    &&& p@.wf()
                    &&& p@ == (PublisherView {
                        cfg,
                        schedule: schedule_of(cfg.retrans@),
                        st_num: 0,
                        generation: 0,
                        closed: false,
                    })
                },
                Err(e) => e matches Error::Config(s) && if cfg.go_cb_ref@.len() == 0 {
                    s@ == "go_cb_ref is required"@
                } else {
                    &&& cfg.retrans@.contains(0)
                    &&& s@ == "retransmission interval 0ns is not positive"@
                },
            },
    {
        if cfg.go_cb_ref.as_str().is_empty() {
            return Err(Error::Config("go_cb_ref is required".to_owned()));
        }
        let retrans: Vec<u64> = if cfg.retrans.is_empty() {
            DEFAULT_RETRANS()
        } else {
            vstd::slice::slice_to_vec(cfg.retrans.as_slice())
        };
        let mut i: usize = 0;
        while i < retrans.len()
            invariant
                i <= retrans@.len(),
                retrans@ == schedule_of(cfg.retrans@),
                cfg.go_cb_ref@.len() > 0,
                forall|j: int| 0 <= j < i ==> #[trigger] retrans@[j] > 0,
            decreases retrans@.len() - i,
        {
            if retrans[i] == 0 {
                assert(cfg.retrans@[i as int] == 0);
                return Err(
                    Error::Config("retransmission interval 0ns is not positive".to_owned()),
                );
            }
            i = i + 1;
        }
        Ok(Publisher { cfg, retrans, st_num: 0, generation: 0, closed: false })
    }

    /// Announces a state change: `stNum` increments, `sqNum` resets to zero,
    /// and retransmission restarts. The frame is to be sent immediately, and
    /// the state repeated with [`retransmit`](Publisher::retransmit).
    pub fn publish(&mut self, values: Vec<Value>, t: Timestamp) -> (r: Result<
        (Frame, Retransmission),
    >)
        requires
            old(self)@.wf(),
            old(self)@.generation < u64::MAX,
            data_octets_all(all_views(values@), values@.len()).len() <= usize::MAX,
        ensures
            final(self)@.wf(),
            match r {
                Err(e) => e == Error::Closed && old(self)@.closed && final(self)@ == old(self)@,
                Ok((f, re)) => {
                    &&& !old(self)@.closed
                    &&& final(self)@ == old(self)@.moved_on()
                    &&& re@ == (RetransmissionView {
                        msg: old(self)@.announcement(all_views(values@), t),
                        generation: final(self)@.generation,
                        sent: 0,
                    })
                    &&& f@ == final(self)@.frame(re@.msg)
                },
            },
    {
        if self.closed {
            return Err(Error::Closed);
        }
        self.st_num = self.st_num.wrapping_add(1);
        self.generation = self.generation + 1;
        proof {
            lemma_views(values@, values@.len());
        }
        let num_dat_set_entries: u32 = (values.len() as u64 % 0x1_0000_0000) as u32;
        let msg = Message {
            go_cb_ref: self.cfg.go_cb_ref.clone(),
            dat_set: self.cfg.dat_set.clone(),
            go_id: self.cfg.go_id.clone(),
            time_allowed_to_live: self.tatl(0),
            t: Some(t),
            st_num: self.st_num,
            sq_num: 0,
            conf_rev: self.cfg.conf_rev,
            test: false,
            nds_com: false,
            num_dat_set_entries,
            values,
            app_id: self.cfg.app_id,
            anomalies: Anomalies::default(),
        };
        let f = self.frame(&msg);
        Ok((f, Retransmission { msg, generation: self.generation, sent: 0 }))
    }

    /// The time to wait, in nanoseconds, before `r` is sent again.
    pub fn delay(&self, r: &Retransmission) -> (d: u64)
        requires
            self@.wf(),
        ensures
            d == interval(self@.schedule, r@.sent),
            d > 0,
    {
        if r.sent < self.retrans.len() {
            self.retrans[r.sent]
        } else {
            self.retrans[self.retrans.len() - 1]
        }
    }

    /// The frame that repeats `r`, or `None` where the publisher is closed or
    /// a newer publish has taken over: repeating stops rather than
    /// interleaves.
    pub fn retransmit(&self, r: &mut Retransmission) -> (f: Option<Frame>)
        requires
            self@.wf(),
            old(r)@.sent < usize::MAX,
            data_octets_all(old(r)@.msg.values, old(r)@.msg.values.len()).len() <= usize::MAX,
        ensures
            match f {
                None => !self@.repeats(old(r)@) && final(r)@ == old(r)@,
                Some(f) => {
                    &&& self@.repeats(old(r)@)
                    &&& final(r)@ == old(r)@.repeated(self@.schedule)
                    &&& f@ == self@.frame(final(r)@.msg)
                },
            },
    {
        if self.closed {
            return None;
        }
        if self.generation != r.generation {
            return None;
        }
        r.msg.sq_num = r.msg.sq_num.wrapping_add(1);
        r.sent = r.sent + 1;
        r.msg.time_allowed_to_live = self.tatl(r.sent);
        Some(self.frame(&r.msg))
    }

    /// Returns the current state number, which counts state changes.
    pub fn st_num(&self) -> (n: u32)
        ensures
            n == self@.st_num,
    {
        self.st_num
    }

    /// Stops publishing and retransmission.
    pub fn close(&mut self)
        ensures
            final(self)@ == (PublisherView { closed: true, ..old(self)@ }),
    {
        self.closed = true;
    }

    /// Returns `timeAllowedToLive` in milliseconds for transmission `n` of the
    /// current state: twice the interval until the next retransmission, so a
    /// subscriber that misses one frame does not yet call the value stale.
    pub fn tatl(&self, n: usize) -> (ms: u32)
        requires
            self@.wf(),
        ensures
            ms == lifetime(self@.schedule, n as nat),
    {
        let d: u64 = if n < self.retrans.len() {
            self.retrans[n]
        } else {
            self.retrans[self.retrans.len() - 1]
        };
        let ms: u64 = 2 * (d / NANOS_PER_MS);
        if ms < 1 {
            1
        } else if ms > u32::MAX as u64 {
            u32::MAX
        } else {
            ms as u32
        }
    }

    fn frame(&self, msg: &Message) -> (f: Frame)
        requires
            data_octets_all(msg@.values, msg@.values.len()).len() <= usize::MAX,
        ensures
            f@ == self@.frame(msg@),
    {
        Frame {
            dst: self.cfg.dst_mac,
            src: self.cfg.src_mac,
            ether_type: ETHER_TYPE_GOOSE,
            vlan: self.cfg.vlan,
            payload: msg.marshal(),
        }
    }
}

/// The time allowed to live covers the interval until the next frame, or every
/// subscriber would mark the value stale between heartbeats; it is never zero,
/// which would mean "already stale"; and past the end of the schedule that of
/// the last interval repeats.
pub proof fn lifetime_covers_the_next_interval(schedule: Seq<u64>, n: nat)
    requires
        schedule.len() > 0,
    ensures
        lifetime(schedule, n) >= 1,
        interval(schedule, n) / NANOS_PER_MS <= u32::MAX ==> lifetime(schedule, n) >= interval(
            schedule,
            n,
        ) / NANOS_PER_MS,
        n >= schedule.len() ==> lifetime(schedule, n) == lifetime(
            schedule,
            (schedule.len() - 1) as nat,
        ),
{
}

/// The publisher after `k` more states were announced.
pub open spec fn moved_on_times(p: PublisherView, k: nat) -> PublisherView
    decreases k,
{
    if k == 0 {
        p
    } else {
        moved_on_times(p, (k - 1) as nat).moved_on()
    }
}

/// The state number counts the state changes, from 1 on for a new publisher,
/// and nothing of the configuration changes with them.
pub proof fn state_number_counts_states(p: PublisherView, k: nat)
    requires
        p.st_num == 0,
    ensures
        moved_on_times(p, k).st_num == k % 0x1_0000_0000,
        moved_on_times(p, k).cfg == p.cfg,
        moved_on_times(p, k).schedule == p.schedule,
        moved_on_times(p, k).closed == p.closed,
    decreases k,
{
    if k > 0 {
        state_number_counts_states(p, (k - 1) as nat);
    }
}

/// A state that is published goes out at once in a frame with the configured
/// addresses and tag, whose payload reads as that state: the next state number,
/// sequence number zero, the configured identity, and each value. The message
/// must fit its 16-bit length field, and the values must have encodings.
pub proof fn a_published_state_reads_back(p: PublisherView, values: Seq<Data>, t: Timestamp)
    requires
        t.wf(),
        p.announcement(values, t).apdu().len() <= 0xffff,
        forall|i: int| 0 <= i < values.len() ==> encodable(#[trigger] values[i]),
    ensures
        ({
            let f = p.moved_on().frame(p.announcement(values, t));
            &&& f.dst == p.cfg.dst_mac@
            &&& f.src == p.cfg.src_mac@
            &&& f.vlan == p.cfg.vlan
            &&& f.ether_type == 0x88b8
            &&& message_of(f.payload) matches Ok(m) && {
                &&& m == p.announcement(values, t)
                &&& m.st_num == p.moved_on().st_num
                &&& m.sq_num == 0
                &&& values.len() <= u32::MAX ==> m.num_dat_set_entries == values.len()
                &&& m.values == values
                &&& m.app_id == p.cfg.app_id
                &&& m.go_cb_ref == p.cfg.go_cb_ref@
                &&& m.dat_set == p.cfg.dat_set@
                &&& m.go_id == p.cfg.go_id@
                &&& m.conf_rev == p.cfg.conf_rev
            }
        }),
{
    let m = p.announcement(values, t);
    message_round_trip(m, Seq::empty());
    assert(m.apdu() + Seq::<u8>::empty() =~= m.apdu());
}

/// A state after it was sent again `k` times.
pub open spec fn repeated_times(r: RetransmissionView, schedule: Seq<u64>, k: nat) -> RetransmissionView
    decreases k,
{
    if k == 0 {
        r
    } else {
        repeated_times(r, schedule, (k - 1) as nat).repeated(schedule)
    }
}

/// The sequence number of a state counts its retransmissions, and nothing of
/// the state itself changes: the values, the state number and the time of the
/// change stay.
pub proof fn sequence_number_counts_retransmissions(
    r: RetransmissionView,
    schedule: Seq<u64>,
    k: nat,
)
    requires
        r.msg.sq_num == 0,
        r.sent == 0,
    ensures
        repeated_times(r, schedule, k).sent == k,
        repeated_times(r, schedule, k).msg.sq_num == k % 0x1_0000_0000,
        repeated_times(r, schedule, k).msg.values == r.msg.values,
        repeated_times(r, schedule, k).msg.st_num == r.msg.st_num,
        repeated_times(r, schedule, k).msg.t == r.msg.t,
        k > 0 ==> repeated_times(r, schedule, k).msg.time_allowed_to_live == lifetime(schedule, k),
    decreases k,
{
    if k > 0 {
        sequence_number_counts_retransmissions(r, schedule, (k - 1) as nat);
    }
}

/// A new publish supersedes every earlier state for good: once the publisher
/// has moved past its generation, it is not repeated, so a stale frame cannot
/// follow the new state onto the wire. The same holds of a closed publisher.
pub proof fn a_superseded_state_is_not_repeated(p: PublisherView, r: RetransmissionView)
    ensures
        p.generation > r.generation ==> !p.repeats(r),
        p.closed ==> !p.repeats(r),
{
}

/// Each entry of a schedule is used in its turn: the wait before the next copy
/// of a state that was sent again `n` times is entry `n`, and the last entry
/// from then on. The lifetime of a copy is twice the wait behind it, in whole
/// milliseconds, at least one and at most what fits.
pub proof fn each_interval_is_used_in_its_turn(schedule: Seq<u64>, n: nat)
    requires
        schedule.len() > 0,
    ensures
        n < schedule.len() ==> interval(schedule, n) == schedule[n as int],
        n >= schedule.len() ==> interval(schedule, n) == schedule[schedule.len() - 1],
        ({
            let wait = if n < schedule.len() {
                schedule[n as int]
            } else {
                schedule[schedule.len() - 1]
            };
            let ms = 2 * (wait as int / 1_000_000);
            &&& 1 <= ms <= u32::MAX ==> lifetime(schedule, n) == ms
            &&& ms < 1 ==> lifetime(schedule, n) == 1
            &&& ms > u32::MAX ==> lifetime(schedule, n) == u32::MAX
        }),
{
}

/// The usual schedule backs off: the wait doubles from four milliseconds on,
/// until it settles at a second. A schedule that was configured is taken as it
/// is.
pub proof fn the_usual_schedule_backs_off(retrans: Seq<u64>, i: int)
    ensures
        default_schedule().len() > 0,
        default_schedule()[0] == 4_000_000,
        0 <= i < default_schedule().len() - 2 ==> default_schedule()[i + 1] == 2
            * default_schedule()[i],
        default_schedule().last() == 1_000_000_000,
        default_schedule()[default_schedule().len() - 2] < default_schedule().last() <= 2
            * default_schedule()[default_schedule().len() - 2],
        retrans.len() > 0 ==> schedule_of(retrans) == retrans,
        retrans.len() == 0 ==> schedule_of(retrans) == default_schedule(),
{
}

/// The copies of a state tell how many came before them and how long they last:
/// copy `k` carries the sequence number `k`, modulo 2^32, and the lifetime of
/// the wait behind it; nothing else of the message changes.
pub proof fn a_copy_differs_in_number_and_lifetime_alone(
    r: RetransmissionView,
    schedule: Seq<u64>,
    k: nat,
)
    requires
        r.msg.sq_num == 0,
        r.sent == 0,
        schedule.len() > 0,
        r.msg.time_allowed_to_live == lifetime(schedule, 0),
    ensures
        repeated_times(r, schedule, k).msg == (MessageView {
            sq_num: (k % 0x1_0000_0000) as u32,
            time_allowed_to_live: lifetime(schedule, k),
            ..r.msg
        }),
        repeated_times(r, schedule, k).generation == r.generation,
    decreases k,
{
    if k > 0 {
        a_copy_differs_in_number_and_lifetime_alone(r, schedule, (k - 1) as nat);
        let before = repeated_times(r, schedule, (k - 1) as nat);
        sequence_number_counts_retransmissions(r, schedule, (k - 1) as nat);
        assert(repeated_times(r, schedule, k) == before.repeated(schedule));
    }
}

/// A state is repeated while it is the one that was published last and the
/// publisher is open, and not otherwise.
pub proof fn the_last_state_is_repeated(p: PublisherView, r: RetransmissionView)
    ensures
        p.repeats(r) <==> !p.closed && p.generation == r.generation,
        p.generation < u64::MAX && r.generation == p.generation ==> !p.moved_on().repeats(r),
        !(PublisherView { closed: true, ..p }).repeats(r),
{
}

/// A message goes out in a frame of the publisher: to the configured address,
/// from the configured one, under the configured tag, as GOOSE.
pub proof fn a_frame_is_addressed_as_configured(p: PublisherView, m: MessageView)
    ensures
        p.frame(m).dst == p.cfg.dst_mac@,
        p.frame(m).src == p.cfg.src_mac@,
        p.frame(m).vlan == p.cfg.vlan,
        p.frame(m).ether_type == 0x88b8,
        p.frame(m).payload == m.apdu(),
{
}

} // verus!
