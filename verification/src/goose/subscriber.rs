use vstd::prelude::*;

use super::message::{message_of, parse, Anomalies, Message, MessageView};
use super::publisher::{PublisherView, NANOS_PER_MS};
use crate::ethernet::{Frame, ETHER_TYPE_GOOSE};
use crate::mms::codec::encodable;
use crate::mms::{Data, Timestamp};
use vstd::hash_map::StringHashMap;

verus! {

/// Selects GOOSE messages for a subscription.
///
/// Zero fields match everything: an APPID of zero accepts any, and an empty
/// control block reference accepts any.
#[derive(Debug)]
pub struct Filter {
    pub app_id: u16,
    pub go_cb_ref: String,
}

impl Default for Filter {
    fn default() -> (f: Filter)
        ensures
            f.app_id == 0,
            f.go_cb_ref@.len() == 0,
    {
        Filter { app_id: 0, go_cb_ref: String::new() }
    }
}

impl Filter {
    /// Whether the filter lets a message through.
    pub open spec fn accepts(&self, m: MessageView) -> bool {
        &&& self.app_id == 0 || m.app_id == self.app_id
        &&& self.go_cb_ref@.len() == 0 || m.go_cb_ref == self.go_cb_ref@
    }

    /// Matches every GOOSE message on the segment.
    pub fn any() -> (f: Filter)
        ensures
            forall|m: MessageView| f.accepts(m),
    {
        Filter::default()
    }

    /// Matches one APPID.
    pub fn app_id(app_id: u16) -> (f: Filter)
        ensures
            f.app_id == app_id,
            f.go_cb_ref@.len() == 0,
    {
        Filter { app_id, go_cb_ref: String::new() }
    }

    /// Reports whether the filter lets a message through.
    pub fn matches(&self, m: &Message) -> (b: bool)
        ensures
            b == self.accepts(m@),
    {
        if self.app_id != 0 && m.app_id != self.app_id {
            return false;
        }
        if !self.go_cb_ref.as_str().is_empty() && m.go_cb_ref != self.go_cb_ref {
            return false;
        }
        true
    }
}

/// The last observed sequence state for one control block.
#[derive(Debug, Clone, Copy, PartialEq, Eq, Structural)]
pub struct SeqState {
    pub st_num: u32,
    pub sq_num: u32,
    /// The lifetime of the message in nanoseconds.
    pub tatl: u64,
    /// When the message arrived, in nanoseconds of a steady clock.
    pub arrival: u64,
}

/// The state that a message leaves behind.
pub open spec fn seq_state(m: MessageView, now: u64) -> SeqState {
    SeqState {
        st_num: m.st_num,
        sq_num: m.sq_num,
        tatl: (m.time_allowed_to_live * NANOS_PER_MS) as u64,
        arrival: now,
    }
}

/// What is irregular about a message that arrives at `now` after one that left
/// `last` behind.
pub open spec fn irregularities(last: SeqState, m: MessageView, now: u64) -> Anomalies {
    Anomalies {
        st_num_regressed: m.st_num < last.st_num,
        sq_num_gap: if m.st_num == last.st_num {
            m.sq_num != super::publisher::next_st_num(last.sq_num)
        } else {
            m.sq_num != 0
        },
        stale: last.tatl != 0 && now - last.arrival > last.tatl,
        entries_mismatch: false,
    }
}

/// What is irregular about a message that arrives at `now`, going by what was
/// heard before it. The first one of a control block has nothing to be compared
/// against.
pub open spec fn noticed(states: Map<Seq<char>, SeqState>, m: MessageView, now: u64) -> Anomalies {
    if states.contains_key(m.go_cb_ref) {
        irregularities(states[m.go_cb_ref], m, now)
    } else {
        Anomalies::clear()
    }
}

/// What has been heard once a message has arrived at `now`.
pub open spec fn heard_after(states: Map<Seq<char>, SeqState>, m: MessageView, now: u64) -> Map<
    Seq<char>,
    SeqState,
> {
    states.insert(m.go_cb_ref, seq_state(m, now))
}

/// Tracks sequence continuity across messages.
///
/// It is separated from the receive loop so the anomaly rules are testable
/// without a socket or a clock.
pub struct SequenceTracker {
    states: StringHashMap<SeqState>,
}

impl View for SequenceTracker {
    type V = Map<Seq<char>, SeqState>;

    closed spec fn view(&self) -> Map<Seq<char>, SeqState> {
        self.states@
    }
}

impl Default for SequenceTracker {
    fn default() -> (t: SequenceTracker)
        ensures
            t@ == Map::<Seq<char>, SeqState>::empty(),
    {
        SequenceTracker { states: StringHashMap::new() }
    }
}

impl SequenceTracker {
    pub fn new() -> (t: SequenceTracker)
        ensures
            t@ == Map::<Seq<char>, SeqState>::empty(),
    {
        SequenceTracker::default()
    }

    /// Records a message and returns what was irregular about it. `now` is in
    /// nanoseconds of a steady clock.
    ///
    /// The first message from a control block establishes the baseline and is
    /// never anomalous: there is nothing yet to compare it against.
    pub fn observe(&mut self, m: &Message, now: u64) -> (a: Anomalies)
        ensures
            final(self)@ == heard_after(old(self)@, m@, now),
            a == noticed(old(self)@, m@, now),
    {
        let tatl: u64 = m.time_allowed_to_live as u64 * NANOS_PER_MS;
        let mut out = Anomalies::default();
        if let Some(st) = self.states.get(m.go_cb_ref.as_str()) {
            out.st_num_regressed = m.st_num < st.st_num;
            out.sq_num_gap = if m.st_num == st.st_num {
                // Within one state, the sequence must advance by one.
                m.sq_num != st.sq_num.wrapping_add(1)
            } else {
                // A new state restarts the sequence at zero.
                m.sq_num != 0
            };
            out.stale = st.tatl != 0 && now.saturating_sub(st.arrival) > st.tatl;
        }
        self.states.insert(
            m.go_cb_ref.clone(),
            SeqState { st_num: m.st_num, sq_num: m.sq_num, tatl, arrival: now },
        );
        out
    }

    /// Returns how many control blocks have been heard.
    pub fn tracked_count(&self) -> (n: usize)
        ensures
            n == self@.len(),
    {
        self.states.len()
    }
}

/// The deadline of one supervised control block.
#[derive(Debug)]
struct Block {
    go_cb_ref: String,
    /// When its data goes stale, in nanoseconds of a steady clock.
    at: u64,
    /// Whether that has been reported for the current silence.
    fired: bool,
}

/// The model of a deadline.
pub struct BlockView {
    pub go_cb_ref: Seq<char>,
    pub at: u64,
    pub fired: bool,
}

impl BlockView {
    /// The deadline has passed and was not reported yet.
    pub open spec fn due(self, now: u64) -> bool {
        !self.fired && self.at <= now
    }

    /// The deadline after those due at `now` were reported.
    pub open spec fn reported(self, now: u64) -> BlockView {
        BlockView { fired: self.fired || self.at <= now, ..self }
    }
}

/// The time-allowed-to-live deadlines of one supervised subscription
/// (IEC 61850-8-1): a subscriber has to treat a control block's data as
/// invalid once `timeAllowedToLive` passes without a message, which is how a
/// failed publisher or a broken path is noticed.
#[derive(Debug)]
pub struct Supervision {
    blocks: Vec<Block>,
    stopped: bool,
}

/// What a supervisor is to do next.
#[derive(Debug, PartialEq, Eq)]
pub enum Watch {
    /// Stop supervising.
    Stop,
    /// Report these control blocks as expired.
    Expired(Vec<String>),
    /// Wait until this time, or until a message arrives.
    WaitUntil(u64),
    /// Wait until a message arrives.
    Wait,
}

/// The model of the deadlines, in the order in which the control blocks were
/// first heard.
pub struct SupervisionView {
    pub blocks: Seq<BlockView>,
    pub stopped: bool,
}

impl Block {
    spec fn view(&self) -> BlockView {
        BlockView { go_cb_ref: self.go_cb_ref@, at: self.at, fired: self.fired }
    }
}

impl View for Supervision {
    type V = SupervisionView;

    closed spec fn view(&self) -> SupervisionView {
        SupervisionView {
            blocks: self.blocks@.map_values(|b: Block| b.view()),
            stopped: self.stopped,
        }
    }
}

/// Where a control block's deadline stands.
pub open spec fn block_index(blocks: Seq<BlockView>, go_cb_ref: Seq<char>) -> Option<int>
    decreases blocks.len(),
{
    if blocks.len() == 0 {
        None
    } else {
        match block_index(blocks.drop_last(), go_cb_ref) {
            Some(i) => Some(i),
            None => if blocks.last().go_cb_ref == go_cb_ref {
                Some(blocks.len() - 1)
            } else {
                None
            },
        }
    }
}

proof fn lemma_block_index(blocks: Seq<BlockView>, go_cb_ref: Seq<char>, i: int)
    requires
        0 <= i < blocks.len(),
        blocks[i].go_cb_ref == go_cb_ref,
        forall|j: int| 0 <= j < i ==> (#[trigger] blocks[j]).go_cb_ref != go_cb_ref,
    ensures
        block_index(blocks, go_cb_ref) == Some(i),
    decreases blocks.len(),
{
    if i < blocks.len() - 1 {
        lemma_block_index(blocks.drop_last(), go_cb_ref, i);
    } else {
        lemma_block_absent(blocks.drop_last(), go_cb_ref);
    }
}

proof fn lemma_block_absent(blocks: Seq<BlockView>, go_cb_ref: Seq<char>)
    requires
        forall|j: int| 0 <= j < blocks.len() ==> (#[trigger] blocks[j]).go_cb_ref != go_cb_ref,
    ensures
        block_index(blocks, go_cb_ref) is None,
    decreases blocks.len(),
{
    if blocks.len() > 0 {
        lemma_block_absent(blocks.drop_last(), go_cb_ref);
        assert(blocks.last() == blocks[blocks.len() - 1]);
    }
}

impl SupervisionView {
    /// The deadlines after a message.
    pub open spec fn heard(self, go_cb_ref: Seq<char>, at: u64) -> SupervisionView {
        let b = BlockView { go_cb_ref, at, fired: false };
        SupervisionView {
            blocks: match block_index(self.blocks, go_cb_ref) {
                Some(i) => self.blocks.update(i, b),
                None => self.blocks.push(b),
            },
            ..self
        }
    }

    /// The names of the first `n` control blocks, as far as they are due.
    pub open spec fn due_names(self, now: u64, n: nat) -> Seq<Seq<char>>
        decreases n,
    {
        if n == 0 || n > self.blocks.len() {
            Seq::empty()
        } else {
            let before = self.due_names(now, (n - 1) as nat);
            if self.blocks[n - 1].due(now) {
                before.push(self.blocks[n - 1].go_cb_ref)
            } else {
                before
            }
        }
    }

    /// The deadlines after those due at `now` were reported.
    pub open spec fn reported(self, now: u64) -> SupervisionView {
        SupervisionView {
            blocks: Seq::new(self.blocks.len(), |i: int| self.blocks[i].reported(now)),
            ..self
        }
    }

    /// Whether `at` is the next deadline that was not reported yet.
    pub open spec fn next_deadline(self, at: u64) -> bool {
        &&& exists|i: int|
            0 <= i < self.blocks.len() && !(#[trigger] self.blocks[i]).fired && self.blocks[i].at
                == at
        &&& forall|i: int|
            0 <= i < self.blocks.len() && !(#[trigger] self.blocks[i]).fired ==> at
                <= self.blocks[i].at
    }

    /// Every deadline was reported.
    pub open spec fn all_fired(self) -> bool {
        forall|i: int| 0 <= i < self.blocks.len() ==> (#[trigger] self.blocks[i]).fired
    }
}

impl Supervision {
    /// No control block has been heard yet.
    pub fn new() -> (s: Supervision)
        ensures
            s@ == (SupervisionView { blocks: Seq::empty(), stopped: false }),
    {
        let s = Supervision { blocks: Vec::new(), stopped: false };
        assert(s@.blocks =~= Seq::empty());
        s
    }

    /// Restarts a control block's deadline on a message with a lifetime of
    /// `tatl_ms`; a lifetime of zero sets none.
    pub fn arrived(&mut self, go_cb_ref: &str, tatl_ms: u32, now: u64)
        requires
            now + tatl_ms * NANOS_PER_MS <= u64::MAX,
        ensures
            final(self)@ == (if tatl_ms == 0 {
                old(self)@
            } else {
                old(self)@.heard(go_cb_ref@, (now + tatl_ms * NANOS_PER_MS) as u64)
            }),
    {
        if tatl_ms == 0 {
            return;
        }
        let at: u64 = now + tatl_ms as u64 * NANOS_PER_MS;
        let ghost before = self@;
        let mut i: usize = 0;
        while i < self.blocks.len()
            invariant
                i <= self.blocks@.len(),
                self@ == before,
                *self == *old(self),
                tatl_ms != 0,
                at == now + tatl_ms * NANOS_PER_MS,
                forall|j: int|
                    0 <= j < i ==> (#[trigger] self@.blocks[j]).go_cb_ref != go_cb_ref@,
            decreases self.blocks@.len() - i,
        {
            if crate::text::same(self.blocks[i].go_cb_ref.as_str(), go_cb_ref) {
                proof {
                    assert(self@.blocks[i as int] == self.blocks@[i as int].view());
                    lemma_block_index(self@.blocks, go_cb_ref@, i as int);
                }
                let b = Block { go_cb_ref: go_cb_ref.to_owned(), at, fired: false };
                self.blocks.set(i, b);
                assert(self@.blocks =~= before.heard(go_cb_ref@, at).blocks);
                return;
            }
            assert(self@.blocks[i as int] == self.blocks@[i as int].view());
            i = i + 1;
        }
        proof {
            lemma_block_absent(self@.blocks, go_cb_ref@);
        }
        self.blocks.push(Block { go_cb_ref: go_cb_ref.to_owned(), at, fired: false });
        assert(self@.blocks =~= before.heard(go_cb_ref@, at).blocks);
    }

    /// Ends supervision.
    pub fn stop(&mut self)
        ensures
            final(self)@ == (SupervisionView { stopped: true, ..old(self)@ }),
    {
        self.stopped = true;
    }

    /// One look at the deadlines: those that have passed are reported once for
    /// each silence; otherwise the next one is waited for.
    pub fn poll(&mut self, now: u64) -> (w: Watch)
        ensures
            ({
                let before = old(self)@;
                let due = before.due_names(now, before.blocks.len());
                if before.stopped {
                    w is Stop && final(self)@ == before
                } else if due.len() > 0 {
                    &&& final(self)@ == before.reported(now)
                    &&& w matches Watch::Expired(names) && names@.len() == due.len() && forall|
                        i: int,
                    |
                        0 <= i < due.len() ==> (#[trigger] names@[i])@ == due[i]
                } else {
                    &&& final(self)@ == before
                    &&& if before.all_fired() {
                        w is Wait
                    } else {
                        w matches Watch::WaitUntil(at) && before.next_deadline(at)
                    }
                }
            }),
    {
        if self.stopped {
            return Watch::Stop;
        }
        let ghost before = self@;
        let mut names: Vec<String> = Vec::new();
        let mut next: Option<u64> = None;
        let mut i: usize = 0;
        while i < self.blocks.len()
            invariant
                i <= self.blocks@.len(),
                self@.blocks.len() == before.blocks.len(),
                self.blocks@.len() == before.blocks.len(),
                self@.stopped == before.stopped,
                forall|j: int| i <= j < before.blocks.len() ==> self@.blocks[j] == #[trigger] before.blocks[j],
                forall|j: int|
                    0 <= j < i ==> self@.blocks[j] == (#[trigger] before.blocks[j]).reported(now),
                names@.len() == before.due_names(now, i as nat).len(),
                forall|j: int|
                    0 <= j < names@.len() ==> (#[trigger] names@[j])@ == before.due_names(
                        now,
                        i as nat,
                    )[j],
                names@.len() == 0 ==> forall|j: int|
                    0 <= j < i ==> !(#[trigger] before.blocks[j]).due(now),
                match next {
                    None => names@.len() == 0 ==> forall|j: int|
                        0 <= j < i ==> (#[trigger] before.blocks[j]).fired,
                    Some(at) => names@.len() == 0 ==> {
                        &&& exists|j: int|
                            0 <= j < i && !(#[trigger] before.blocks[j]).fired
                                && before.blocks[j].at == at
                        &&& forall|j: int|
                            0 <= j < i && !(#[trigger] before.blocks[j]).fired ==> at
                                <= before.blocks[j].at
                    },
                },
            decreases self.blocks@.len() - i,
        {
            assert(self@.blocks[i as int] == self.blocks@[i as int].view());
            assert(self@.blocks[i as int] == before.blocks[i as int]);
            let fired = self.blocks[i].fired;
            let at: u64 = self.blocks[i].at;
            let ghost was = self@;
            if !fired && at <= now {
                let name = self.blocks[i].go_cb_ref.clone();
                names.push(name.clone());
                self.blocks.set(i, Block { go_cb_ref: name, at, fired: true });
                assert(self@.blocks =~= was.blocks.update(
                    i as int,
                    before.blocks[i as int].reported(now),
                ));
            } else if !fired {
                next = match next {
                    None => Some(at),
                    Some(t) => Some(
                        if at < t {
                            at
                        } else {
                            t
                        },
                    ),
                };
            }
            i = i + 1;
        }
        if names.len() > 0 {
            assert(self@.blocks =~= before.reported(now).blocks);
            return Watch::Expired(names);
        }
        proof {
            assert forall|j: int| 0 <= j < before.blocks.len() implies self@.blocks[j]
                == before.blocks[j] by {
                assert(!before.blocks[j].due(now));
            }
            assert(self@.blocks =~= before.blocks);
        }
        match next {
            Some(at) => Watch::WaitUntil(at),
            None => Watch::Wait,
        }
    }
}

/// What a message comes to for a subscriber: the message with its anomalies
/// filled in.
pub open spec fn delivered(
    states: Map<Seq<char>, SeqState>,
    m: MessageView,
    now: u64,
) -> MessageView {
    MessageView {
        anomalies: Anomalies {
            entries_mismatch: m.num_dat_set_entries as nat != m.values.len(),
            ..noticed(states, m, now)
        },
        ..m
    }
}

/// The state of one subscription: what it selects, and what it has heard.
pub struct Subscription {
    filter: Filter,
    tracker: SequenceTracker,
    stopped: bool,
}

impl Subscription {
    /// The filter of the subscription.
    pub closed spec fn filter(&self) -> Filter {
        self.filter
    }

    /// The sequence states of the control blocks heard.
    pub closed spec fn heard(&self) -> Map<Seq<char>, SeqState> {
        self.tracker@
    }

    /// Whether delivery has ended.
    pub closed spec fn is_stopped(&self) -> bool {
        self.stopped
    }

    pub fn new(filter: Filter) -> (s: Subscription)
        ensures
            s.filter() == filter,
            s.heard() == Map::<Seq<char>, SeqState>::empty(),
            !s.is_stopped(),
    {
        Subscription { filter, tracker: SequenceTracker::new(), stopped: false }
    }

    /// Whether a frame holds a message for this subscription, and which.
    pub open spec fn selects(&self, f: crate::ethernet::frame::FrameView) -> Option<MessageView> {
        if self.is_stopped() || f.ether_type != ETHER_TYPE_GOOSE {
            None
        } else {
            match message_of(f.payload) {
                Ok(m) => if self.filter().accepts(m) {
                    Some(m)
                } else {
                    None
                },
                Err(_) => None,
            }
        }
    }

    /// Receives a frame at `now`: the message to deliver, with anomalies
    /// filled in from per-control-block sequence tracking. A frame of another
    /// protocol, a malformed one and one that the filter refuses come to
    /// nothing and leave no trace.
    pub fn receive(&mut self, frame: &Frame, now: u64) -> (r: Option<Message>)
        ensures
            final(self).filter() == old(self).filter(),
            final(self).is_stopped() == old(self).is_stopped(),
            match (r, old(self).selects(frame@)) {
                (Some(d), Some(m)) => {
                    &&& d@ == delivered(old(self).heard(), m, now)
                    &&& final(self).heard() == heard_after(old(self).heard(), m, now)
                },
                (None, None) => final(self).heard() == old(self).heard(),
                _ => false,
            },
    {
        if self.stopped {
            return None;
        }
        if frame.ether_type != ETHER_TYPE_GOOSE {
            return None;
        }
        let mut m = match parse(frame.payload.as_slice()) {
            Ok(m) => m,
            Err(_) => return None,
        };
        if !self.filter.matches(&m) {
            return None;
        }
        let mut anomalies = self.tracker.observe(&m, now);
        proof {
            crate::mms::value::lemma_views(m.values@, m.values@.len());
        }
        anomalies.entries_mismatch = m.num_dat_set_entries as u64 != m.values.len() as u64;
        m.anomalies = anomalies;
        Some(m)
    }

    /// Ends delivery.
    pub fn stop(&mut self)
        ensures
            final(self).is_stopped(),
            final(self).filter() == old(self).filter(),
            final(self).heard() == old(self).heard(),
    {
        self.stopped = true;
    }
}

/// One publisher's sequence never disturbs another's: whatever message arrives,
/// what is noticed about a message of another control block stays the same.
pub proof fn control_blocks_are_tracked_separately(
    states: Map<Seq<char>, SeqState>,
    m: MessageView,
    now: u64,
    other: MessageView,
    later: u64,
)
    requires
        other.go_cb_ref != m.go_cb_ref,
    ensures
        noticed(heard_after(states, m, now), other, later) == noticed(states, other, later),
{
}

/// The first message of a control block is never anomalous.
pub proof fn the_first_message_is_not_flagged(
    states: Map<Seq<char>, SeqState>,
    m: MessageView,
    now: u64,
)
    requires
        !states.contains_key(m.go_cb_ref),
    ensures
        noticed(states, m, now) == Anomalies::clear(),
{
}

/// An orderly sequence flags nothing: the next sequence number of the same
/// state, or a later state that starts at zero, within the lifetime.
pub proof fn an_orderly_message_is_not_flagged(
    states: Map<Seq<char>, SeqState>,
    first: MessageView,
    at: u64,
    m: MessageView,
    now: u64,
)
    requires
        m.go_cb_ref == first.go_cb_ref,
        m.st_num == first.st_num ==> m.sq_num == super::publisher::next_st_num(first.sq_num),
        m.st_num != first.st_num ==> m.st_num > first.st_num && m.sq_num == 0,
        first.time_allowed_to_live == 0 || now - at <= first.time_allowed_to_live * NANOS_PER_MS,
    ensures
        noticed(heard_after(states, first, at), m, now) == Anomalies::clear(),
{
}

/// A stopped subscription delivers nothing.
pub proof fn a_stopped_subscription_is_silent(s: Subscription, f: crate::ethernet::frame::FrameView)
    requires
        s.is_stopped(),
    ensures
        s.selects(f) is None,
{
}

/// A silence is reported once: a control block that was due is not due again,
/// however late the next look, until a message restarts its deadline.
pub proof fn a_silence_is_reported_once(s: SupervisionView, now: u64, later: u64, i: int)
    requires
        0 <= i < s.blocks.len(),
        s.blocks[i].due(now),
    ensures
        !s.reported(now).blocks[i].due(later),
{
}

/// A subscriber receives what a publisher sends: a state that was published
/// reaches every subscription that is interested in it, value for value, and
/// the first one that it hears has no anomalies. The message must fit its
/// 16-bit length field, and the values must have encodings.
pub proof fn a_subscriber_receives_what_a_publisher_sends(
    p: PublisherView,
    values: Seq<Data>,
    t: Timestamp,
    s: Subscription,
    now: u64,
)
    requires
        t.wf(),
        p.announcement(values, t).apdu().len() <= 0xffff,
        forall|i: int| 0 <= i < values.len() ==> encodable(#[trigger] values[i]),
        !s.is_stopped(),
        s.filter().accepts(p.announcement(values, t)),
    ensures
        s.selects(p.frame(p.announcement(values, t))) == Some(p.announcement(values, t)),
        !s.heard().contains_key(p.cfg.go_cb_ref@) && values.len() <= u32::MAX ==> delivered(
            s.heard(),
            p.announcement(values, t),
            now,
        ).anomalies == Anomalies::clear(),
{
    super::publisher::a_published_state_reads_back(p, values, t);
}

/// What is out of order is flagged, and nothing else. After a message of a
/// control block, the next one is flagged as a gap exactly where it does not
/// carry the sequence number right behind in the same state, or zero in another
/// one; as a restart exactly where its state number is lower; and as stale
/// exactly where it came after the lifetime that the one before it was given.
pub proof fn an_irregular_message_is_flagged(
    states: Map<Seq<char>, SeqState>,
    first: MessageView,
    at: u64,
    m: MessageView,
    now: u64,
)
    requires
        m.go_cb_ref == first.go_cb_ref,
    ensures
        m.st_num == first.st_num ==> (noticed(heard_after(states, first, at), m, now).sq_num_gap
            <==> m.sq_num as int != (first.sq_num + 1) % 0x1_0000_0000),
        m.st_num != first.st_num ==> (noticed(heard_after(states, first, at), m, now).sq_num_gap
            <==> m.sq_num != 0),
        noticed(heard_after(states, first, at), m, now).st_num_regressed <==> m.st_num
            < first.st_num,
        noticed(heard_after(states, first, at), m, now).stale <==> first.time_allowed_to_live > 0
            && now - at > first.time_allowed_to_live * 1_000_000,
        !noticed(heard_after(states, first, at), m, now).entries_mismatch,
{
}

/// The loss of frames is visible: where some copies of a state did not arrive,
/// the next one that does is flagged as a gap, however many were lost.
pub proof fn a_lost_frame_is_noticed(
    states: Map<Seq<char>, SeqState>,
    first: MessageView,
    at: u64,
    m: MessageView,
    now: u64,
    lost: int,
)
    requires
        m.go_cb_ref == first.go_cb_ref,
        m.st_num == first.st_num,
        0 < lost < 0xffff_ffff,
        m.sq_num as int == (first.sq_num + 1 + lost) % 0x1_0000_0000,
    ensures
        noticed(heard_after(states, first, at), m, now).sq_num_gap,
{
}

/// A message leaves its own numbers behind, and nothing else changes of what
/// was heard.
pub proof fn a_message_is_remembered(
    states: Map<Seq<char>, SeqState>,
    m: MessageView,
    now: u64,
    other: Seq<char>,
)
    ensures
        heard_after(states, m, now).contains_key(m.go_cb_ref),
        heard_after(states, m, now)[m.go_cb_ref].st_num == m.st_num,
        heard_after(states, m, now)[m.go_cb_ref].sq_num == m.sq_num,
        heard_after(states, m, now)[m.go_cb_ref].arrival == now,
        heard_after(states, m, now)[m.go_cb_ref].tatl == m.time_allowed_to_live * 1_000_000,
        other != m.go_cb_ref ==> heard_after(states, m, now).contains_key(other)
            == states.contains_key(other) && (states.contains_key(other) ==> heard_after(
            states,
            m,
            now,
        )[other] == states[other]),
{
}

/// A message is delivered as it came, with the flags of its sequence, and with
/// that of its entries exactly where it does not hold as many values as it
/// declares.
pub proof fn a_message_is_delivered_as_it_came(
    states: Map<Seq<char>, SeqState>,
    m: MessageView,
    now: u64,
)
    ensures
        delivered(states, m, now) == (MessageView {
            anomalies: delivered(states, m, now).anomalies,
            ..m
        }),
        delivered(states, m, now).anomalies.entries_mismatch <==> m.num_dat_set_entries as int
            != m.values.len(),
        delivered(states, m, now).anomalies.sq_num_gap == noticed(states, m, now).sq_num_gap,
        delivered(states, m, now).anomalies.st_num_regressed == noticed(
            states,
            m,
            now,
        ).st_num_regressed,
        delivered(states, m, now).anomalies.stale == noticed(states, m, now).stale,
{
}

/// A filter lets through what it names: a field that is left empty lets
/// everything through, and one that is set only what has the same.
pub proof fn a_filter_lets_through_what_it_names(f: Filter, m: MessageView)
    ensures
        f.accepts(m) <==> (f.app_id == 0 || f.app_id == m.app_id) && (f.go_cb_ref@ == ""@
            || f.go_cb_ref@ == m.go_cb_ref),
{
    reveal_strlit("");
    if f.go_cb_ref@.len() == 0 {
        assert(f.go_cb_ref@ =~= ""@);
    }
}

/// A subscription delivers the GOOSE messages that its filter lets through, and
/// nothing of another protocol, nothing malformed and nothing else.
pub proof fn a_subscription_selects_its_messages(
    s: Subscription,
    f: crate::ethernet::frame::FrameView,
)
    ensures
        s.selects(f) is Some <==> {
            &&& !s.is_stopped()
            &&& f.ether_type == 0x88b8
            &&& message_of(f.payload) is Ok
            &&& s.filter().accepts(message_of(f.payload)->Ok_0)
        },
        s.selects(f) matches Some(m) ==> message_of(f.payload) == Ok::<MessageView, Seq<char>>(m),
{
}

/// A message restarts the deadline of its control block and no other: the block
/// is watched once, until the moment that the message gives, and its silence is
/// yet to be reported.
pub proof fn a_message_restarts_its_deadline(
    s: SupervisionView,
    go_cb_ref: Seq<char>,
    at: u64,
    i: int,
)
    requires
        forall|a: int, b: int|
            0 <= a < b < s.blocks.len() ==> (#[trigger] s.blocks[a]).go_cb_ref != (
            #[trigger] s.blocks[b]).go_cb_ref,
    ensures
        exists|k: int|
            0 <= k < s.heard(go_cb_ref, at).blocks.len() && (#[trigger] s.heard(
                go_cb_ref,
                at,
            ).blocks[k]) == (BlockView { go_cb_ref, at, fired: false }),
        forall|a: int, b: int|
            0 <= a < b < s.heard(go_cb_ref, at).blocks.len() ==> (#[trigger] s.heard(
                go_cb_ref,
                at,
            ).blocks[a]).go_cb_ref != (#[trigger] s.heard(go_cb_ref, at).blocks[b]).go_cb_ref,
        0 <= i < s.blocks.len() && s.blocks[i].go_cb_ref != go_cb_ref ==> s.heard(
            go_cb_ref,
            at,
        ).blocks[i] == s.blocks[i],
        s.heard(go_cb_ref, at).stopped == s.stopped,
{
    let after = s.heard(go_cb_ref, at);
    if exists|k: int| 0 <= k < s.blocks.len() && (#[trigger] s.blocks[k]).go_cb_ref == go_cb_ref {
        let k = choose|k: int|
            0 <= k < s.blocks.len() && (#[trigger] s.blocks[k]).go_cb_ref == go_cb_ref;
        assert forall|j: int| 0 <= j < k implies (#[trigger] s.blocks[j]).go_cb_ref != go_cb_ref by {
            assert(s.blocks[j].go_cb_ref != s.blocks[k].go_cb_ref);
        }
        lemma_block_index(s.blocks, go_cb_ref, k);
        assert(after.blocks[k] == (BlockView { go_cb_ref, at, fired: false }));
        assert forall|a: int, b: int| 0 <= a < b < after.blocks.len() implies (
        #[trigger] after.blocks[a]).go_cb_ref != (#[trigger] after.blocks[b]).go_cb_ref by {
            assert(s.blocks[a].go_cb_ref != s.blocks[b].go_cb_ref);
            assert(after.blocks[a].go_cb_ref == s.blocks[a].go_cb_ref);
            assert(after.blocks[b].go_cb_ref == s.blocks[b].go_cb_ref);
        }
    } else {
        lemma_block_absent(s.blocks, go_cb_ref);
        assert(after.blocks == s.blocks.push(BlockView { go_cb_ref, at, fired: false }));
        assert(after.blocks[s.blocks.len() as int] == (BlockView { go_cb_ref, at, fired: false }));
        assert forall|a: int, b: int| 0 <= a < b < after.blocks.len() implies (
        #[trigger] after.blocks[a]).go_cb_ref != (#[trigger] after.blocks[b]).go_cb_ref by {
            assert(after.blocks[a] == s.blocks[a]);
            if b < s.blocks.len() {
                assert(after.blocks[b] == s.blocks[b]);
            }
        }
    }
}

/// What is reported at a moment is every control block whose deadline has come
/// and whose silence was not reported, and no other; from then on they are
/// reported, and the others are as they were.
pub proof fn what_has_expired_is_reported(s: SupervisionView, now: u64, name: Seq<char>, i: int)
    ensures
        s.due_names(now, s.blocks.len()).contains(name) <==> exists|k: int|
            0 <= k < s.blocks.len() && (#[trigger] s.blocks[k]).go_cb_ref == name
                && !s.blocks[k].fired && s.blocks[k].at <= now,
        s.reported(now).blocks.len() == s.blocks.len(),
        0 <= i < s.blocks.len() ==> {
            &&& s.reported(now).blocks[i].go_cb_ref == s.blocks[i].go_cb_ref
            &&& s.reported(now).blocks[i].at == s.blocks[i].at
            &&& s.reported(now).blocks[i].fired <==> s.blocks[i].fired || s.blocks[i].at <= now
        },
        s.reported(now).stopped == s.stopped,
{
    lemma_due_names(s, now, s.blocks.len(), name);
}

proof fn lemma_due_names(s: SupervisionView, now: u64, n: nat, name: Seq<char>)
    requires
        n <= s.blocks.len(),
    ensures
        s.due_names(now, n).contains(name) <==> exists|k: int|
            0 <= k < n && (#[trigger] s.blocks[k]).go_cb_ref == name && !s.blocks[k].fired
                && s.blocks[k].at <= now,
    decreases n,
{
    if n > 0 {
        let m = (n - 1) as nat;
        lemma_due_names(s, now, m, name);
        let before = s.due_names(now, m);
        let after = s.due_names(now, n);
        if after.contains(name) {
            let a = choose|a: int| 0 <= a < after.len() && after[a] == name;
            if a < before.len() {
                assert(before[a] == name);
                assert(before.contains(name));
            } else {
                assert(s.blocks[m as int].go_cb_ref == name);
            }
        }
        if exists|k: int|
            0 <= k < n && (#[trigger] s.blocks[k]).go_cb_ref == name && !s.blocks[k].fired
                && s.blocks[k].at <= now {
            let k = choose|k: int|
                0 <= k < n && (#[trigger] s.blocks[k]).go_cb_ref == name && !s.blocks[k].fired
                    && s.blocks[k].at <= now;
            if k < m {
                assert(before.contains(name));
                let a = choose|a: int| 0 <= a < before.len() && before[a] == name;
                assert(after[a] == name);
            } else {
                assert(after[before.len() as int] == name);
            }
        }
    }
}

/// There is one next deadline, unless every deadline was reported; none that
/// was not reported yet comes before it.
pub proof fn there_is_one_next_deadline(s: SupervisionView, a: u64, b: u64, i: int)
    ensures
        s.next_deadline(a) && s.next_deadline(b) ==> a == b,
        s.all_fired() ==> !s.next_deadline(a),
        s.next_deadline(a) && 0 <= i < s.blocks.len() && s.blocks[i].at < a ==> s.blocks[i].fired,
{
}

} // verus!
