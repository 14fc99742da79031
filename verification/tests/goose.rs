//! GOOSE messages, the publisher's schedule and what a subscriber notices.

use iec61850::asn1::Decoder;
use iec61850::ethernet::{pipe, Frame, VlanTag, ETHER_TYPE_GOOSE, ETHER_TYPE_SV};
use iec61850::goose::publisher::NANOS_PER_MS;
use iec61850::goose::{
    default_mac, parse, Anomalies, Error, Filter, Message, Publisher, PublisherConfig,
    SequenceTracker, Subscription, Supervision, Watch, DEFAULT_RETRANS,
};
use iec61850::mms::{decode_data, TimeQuality, Timestamp, Value};

const MS: u64 = NANOS_PER_MS;

fn sample() -> Message {
    Message {
        go_cb_ref: "IED1LD0/LLN0$GO$gcb01".into(),
        dat_set: "IED1LD0/LLN0$Events".into(),
        go_id: "events".into(),
        time_allowed_to_live: 2000,
        t: Some(Timestamp::new(1_786_838_400, 0)),
        st_num: 7,
        sq_num: 3,
        conf_rev: 1,
        test: false,
        nds_com: false,
        num_dat_set_entries: 2,
        // A quality with no flag set is thirteen clear bits.
        values: vec![Value::boolean(true), Value::bit_string(13)],
        app_id: 0x1000,
        anomalies: Anomalies::default(),
    }
}

#[test]
fn a_message_round_trips_through_the_wire_format() {
    let m = sample();
    let back = parse(&m.marshal()).expect("decodes");
    assert_eq!(back.go_cb_ref, m.go_cb_ref);
    assert_eq!(back.dat_set, m.dat_set);
    assert_eq!(back.go_id, m.go_id);
    assert_eq!(back.time_allowed_to_live, 2000);
    assert_eq!(back.st_num, 7);
    assert_eq!(back.sq_num, 3);
    assert_eq!(back.conf_rev, 1);
    assert_eq!(back.num_dat_set_entries, 2);
    assert_eq!(back.app_id, 0x1000);
    assert_eq!(back.values.len(), 2);
    assert!(back.values[0].as_bool());
    assert_eq!(back.values[1].bit_len(), 13);
    assert_eq!(back, m);
}

/// The APPID and length live in the fixed header before the ASN.1, which
/// is what lets a switch filter and a receiver frame the PDU.
#[test]
fn the_apdu_header_carries_the_appid_and_length() {
    let b = sample().marshal();
    assert_eq!(&b[0..2], &[0x10, 0x00], "APPID first");
    let length = usize::from(u16::from_be_bytes([b[2], b[3]]));
    assert_eq!(length, b.len(), "the length covers header and PDU");
    assert_eq!(&b[4..8], &[0, 0, 0, 0], "two reserved words");
    assert_eq!(b[8], 0x61, "then the [APPLICATION 1] goosePdu");
}

/// A publisher may pad the frame past the length field, and a subscriber
/// that decoded to the end of the buffer would fail on the padding.
#[test]
fn trailing_padding_beyond_the_length_field_is_ignored() {
    let mut b = sample().marshal();
    b.extend_from_slice(&[0u8; 32]);
    let back = parse(&b).expect("padding must not break the decode");
    assert_eq!(back.st_num, 7);
}

#[test]
fn a_length_field_past_the_buffer_is_rejected() {
    let mut b = sample().marshal();
    b[2] = 0xff;
    b[3] = 0xff;
    assert!(parse(&b).is_err());

    // And one that does not even cover the header.
    let mut b = sample().marshal();
    b[2] = 0;
    b[3] = 4;
    assert!(parse(&b).is_err());
}

#[test]
fn a_truncated_apdu_is_rejected_rather_than_panicking() {
    let b = sample().marshal();
    for n in 0..b.len() {
        let _ = parse(&b[..n]);
    }
    assert!(parse(&[]).is_err());
    assert!(parse(&[0; 7]).is_err());
}

/// Some publishers omit goID; the control block reference identifies the
/// stream on its own, so the message must still decode.
#[test]
fn an_absent_optional_field_still_decodes() {
    let mut m = sample();
    m.go_id = String::new();
    let back = parse(&m.marshal()).expect("decodes without a goID");
    assert_eq!(back.go_id, "");
    assert_eq!(back.st_num, 7);
}

#[test]
fn the_test_and_nds_com_flags_survive() {
    let mut m = sample();
    m.test = true;
    m.nds_com = true;
    let back = parse(&m.marshal()).unwrap();
    assert!(back.test);
    assert!(back.nds_com);
}

#[test]
fn every_value_type_in_a_dataset_round_trips() {
    let mut m = sample();
    m.values = vec![
        Value::boolean(true),
        Value::int32(-5),
        Value::uint32(230),
        Value::float32(230.4f32.to_bits()),
        Value::visible_string("text"),
        Value::bit_string_bits(&[0x80, 0x08], 13),
        Value::utc_time_parts(1_786_838_400, 0, TimeQuality::accuracy(10)),
        Value::structure(vec![Value::float32(1.0f32.to_bits()), Value::boolean(false)]),
    ];
    m.num_dat_set_entries = m.values.len() as u32;
    let back = parse(&m.marshal()).unwrap();
    assert_eq!(back.values, m.values);
}

/// However deep the structures of a dataset nest, they come back.
#[test]
fn nested_structures_round_trip_whatever_their_depth() {
    for depth in [1, 63, 64, 65, 66, 300] {
        let mut v = Value::int32(-7);
        for _ in 0..depth {
            v = Value::Structure(vec![Value::boolean(true), v]);
        }
        let m = Message { num_dat_set_entries: 1, values: vec![v], ..sample() };
        let mut b = m.marshal();
        assert!(b.len() <= 0xffff);
        b.push(0);
        assert_eq!(parse(&b).expect("decodes"), m);
    }
}

/// Nesting that fills the length field is refused like any other fault, and
/// takes no stack.
#[test]
fn a_fault_under_deep_nesting_is_refused() {
    // An empty integer inside structures, one in another.
    let mut inner: Vec<u8> = vec![0x85, 0x00];
    while inner.len() < 0xff00 {
        let n = inner.len();
        let mut outer = vec![0xa2];
        if n < 0x80 {
            outer.push(n as u8);
        } else if n < 0x100 {
            outer.extend([0x81, n as u8]);
        } else {
            outer.extend([0x82, (n >> 8) as u8, n as u8]);
        }
        outer.append(&mut inner);
        inner = outer;
    }
    let mut b = inner.clone();
    let mut d = Decoder::new(&b);
    assert!(decode_data(&mut d).is_err());
    b.truncate(100);
    let mut d = Decoder::new(&b);
    assert!(decode_data(&mut d).is_err());
}

#[test]
fn an_empty_dataset_is_legal() {
    let mut m = sample();
    m.values.clear();
    m.num_dat_set_entries = 0;
    let back = parse(&m.marshal()).unwrap();
    assert!(back.values.is_empty());
    assert_eq!(back.num_dat_set_entries, 0);
}

/// A subscriber sees hostile input; every truncation of a valid message
/// has to fail cleanly rather than panic.
#[test]
fn corrupted_payloads_never_panic() {
    let good = sample().marshal();
    for i in 0..good.len() {
        let mut bad = good.clone();
        bad[i] ^= 0xff;
        let _ = parse(&bad);
    }
}

/// A message without a time is sent with eight zero octets, which read as the
/// epoch.
#[test]
fn a_message_without_a_time_comes_back_with_the_epoch() {
    let mut m = sample();
    m.t = None;
    let back = parse(&m.marshal()).unwrap();
    assert_eq!(back.t, Some(Timestamp::new(0, 0)));
}

/// Octets that are no UTF-8 are shown with a replacement character rather than
/// refused.
#[test]
fn a_name_that_is_no_text_is_read_lossily() {
    let mut b = sample().marshal();
    let at = b.windows(6).position(|w| w == b"events").expect("the goID is there");
    b[at] = 0xff;
    assert_eq!(parse(&b).unwrap().go_id, "\u{fffd}vents");
}

#[test]
fn multicast_addresses_stay_inside_the_reserved_goose_range() {
    assert_eq!(default_mac(0), [0x01, 0x0c, 0xcd, 0x01, 0x00, 0x00]);
    assert_eq!(default_mac(1), [0x01, 0x0c, 0xcd, 0x01, 0x00, 0x01]);
    assert_eq!(default_mac(0x1ff), [0x01, 0x0c, 0xcd, 0x01, 0x01, 0xff]);
    // The range is 512 addresses wide, so an offset past it wraps rather
    // than colliding with the sampled-value range that follows.
    assert_eq!(default_mac(0x200), [0x01, 0x0c, 0xcd, 0x01, 0x00, 0x00]);
    for offset in [0u16, 1, 255, 256, 511] {
        let mac = default_mac(offset);
        assert_eq!(&mac[..4], &[0x01, 0x0c, 0xcd, 0x01]);
    }
}

fn config() -> PublisherConfig {
    PublisherConfig {
        dst_mac: [0x01, 0x0c, 0xcd, 0x01, 0x00, 0x01],
        app_id: 0x1000,
        go_cb_ref: "IED1LD0/LLN0$GO$gcb01".into(),
        dat_set: "IED1LD0/LLN0$Events".into(),
        go_id: "events".into(),
        conf_rev: 1,
        retrans: vec![10 * MS],
        ..Default::default()
    }
}

fn now() -> Timestamp {
    Timestamp::new(1_786_838_400, 500_000_000)
}

#[test]
fn a_publisher_needs_a_control_block_reference() {
    let cfg = PublisherConfig {
        go_cb_ref: String::new(),
        ..config()
    };
    let err = Publisher::new(cfg).unwrap_err();
    assert_eq!(err, Error::Config("go_cb_ref is required".into()));
}

#[test]
fn a_zero_retransmission_interval_is_refused() {
    let cfg = PublisherConfig {
        retrans: vec![0],
        ..config()
    };
    let err = Publisher::new(cfg).unwrap_err();
    assert_eq!(err, Error::Config("retransmission interval 0ns is not positive".into()));
}

#[test]
fn publishing_sends_immediately_with_a_fresh_state_number() {
    let (a, b) = pipe();
    let mut pub_ = Publisher::new(config()).unwrap();

    let (frame, _) = pub_.publish(vec![Value::boolean(true)], now()).unwrap();
    a.write_frame(&frame).unwrap();
    let frame = b.try_read_frame().unwrap();
    assert_eq!(frame.ether_type, ETHER_TYPE_GOOSE);
    assert_eq!(frame.dst, [0x01, 0x0c, 0xcd, 0x01, 0x00, 0x01]);

    let m = parse(&frame.payload).unwrap();
    assert_eq!(m.st_num, 1, "the first state change is stNum 1");
    assert_eq!(m.sq_num, 0, "a state change restarts sqNum");
    assert_eq!(m.go_cb_ref, "IED1LD0/LLN0$GO$gcb01");
    assert_eq!(m.app_id, 0x1000);
    assert!(m.values[0].as_bool());
    assert_eq!(m.t, Some(now()));
    assert_eq!(pub_.st_num(), 1);
    pub_.close();
}

/// The retransmission heartbeat is what tells a subscriber the publisher
/// is alive; without it a silent publisher is indistinguishable from a
/// failed link.
#[test]
fn a_published_state_is_retransmitted_with_increasing_sequence_numbers() {
    let mut pub_ = Publisher::new(config()).unwrap();
    let (frame, mut re) = pub_.publish(vec![Value::boolean(true)], now()).unwrap();

    let mut sq_nums = vec![parse(&frame.payload).unwrap().sq_num];
    let mut elapsed = pub_.delay(&re);
    while elapsed <= 55 * MS {
        let f = pub_.retransmit(&mut re).expect("the state is repeated");
        sq_nums.push(parse(&f.payload).unwrap().sq_num);
        elapsed += pub_.delay(&re);
    }
    assert!(
        sq_nums.len() >= 4,
        "expected several retransmissions, got {sq_nums:?}"
    );
    assert_eq!(
        &sq_nums[..4],
        &[0, 1, 2, 3],
        "sqNum counts the retransmissions"
    );
    pub_.close();
    assert!(pub_.retransmit(&mut re).is_none());
}

/// A stale retransmission arriving after a new state change would make a
/// subscriber act on a superseded value.
#[test]
fn a_new_publish_supersedes_the_previous_retransmissions() {
    let mut pub_ = Publisher::new(config()).unwrap();
    let mut frames = Vec::new();

    let (f, mut first) = pub_.publish(vec![Value::boolean(false)], now()).unwrap();
    frames.push(f);
    for _ in 0..3 {
        frames.extend(pub_.retransmit(&mut first));
    }
    let (f, mut second) = pub_.publish(vec![Value::boolean(true)], now()).unwrap();
    frames.push(f);
    for _ in 0..3 {
        // Both schedules still run; the superseded one has nothing to send.
        frames.extend(pub_.retransmit(&mut first));
        frames.extend(pub_.retransmit(&mut second));
    }
    pub_.close();

    let seen: Vec<(u32, u32)> = frames
        .iter()
        .map(|f| parse(&f.payload).unwrap())
        .map(|m| (m.st_num, m.sq_num))
        .collect();
    let first_second_state = seen
        .iter()
        .position(|(st, _)| *st == 2)
        .expect("the second state was published");
    assert!(
        seen[first_second_state..].iter().all(|(st, _)| *st == 2),
        "a stale retransmission followed the new state: {seen:?}"
    );
    // And the new state started its own sequence.
    assert_eq!(seen[first_second_state], (2, 0));
    assert_eq!(seen, [(1, 0), (1, 1), (1, 2), (1, 3), (2, 0), (2, 1), (2, 2), (2, 3)]);
}

#[test]
fn publishing_after_close_is_refused() {
    let mut pub_ = Publisher::new(config()).unwrap();
    pub_.publish(vec![Value::boolean(true)], now()).unwrap();
    pub_.close();
    assert!(matches!(
        pub_.publish(vec![Value::boolean(false)], now()),
        Err(Error::Closed)
    ));
}

/// The time allowed to live has to outlast the interval until the next
/// frame, or every subscriber marks the value stale between heartbeats.
#[test]
fn the_time_allowed_to_live_covers_the_next_retransmission() {
    let cfg = PublisherConfig {
        retrans: DEFAULT_RETRANS(),
        ..config()
    };
    let pub_ = Publisher::new(cfg).unwrap();

    for (i, d) in DEFAULT_RETRANS().iter().enumerate() {
        let tatl = u64::from(pub_.tatl(i));
        assert!(
            tatl >= d / MS,
            "transmission {i}: tatl {tatl}ms does not cover a {d:?}ns interval"
        );
    }
    // Past the end of the schedule the last interval repeats.
    assert_eq!(pub_.tatl(99), pub_.tatl(DEFAULT_RETRANS().len() - 1));
    // And it is never zero, which would mean "already stale".
    assert!(pub_.tatl(0) >= 1);
    assert_eq!(pub_.tatl(0), 8);
    assert_eq!(pub_.tatl(99), 2000);
}

#[test]
fn an_empty_schedule_means_the_usual_one() {
    let pub_ = Publisher::new(PublisherConfig { retrans: Vec::new(), ..config() }).unwrap();
    assert_eq!(pub_.tatl(0), 8);
    let short = Publisher::new(PublisherConfig { retrans: vec![1], ..config() }).unwrap();
    assert_eq!(short.tatl(0), 1, "below a millisecond");
    let long = Publisher::new(PublisherConfig { retrans: vec![u64::MAX], ..config() }).unwrap();
    assert_eq!(long.tatl(0), u32::MAX, "beyond what fits");
}

#[test]
fn a_vlan_tag_is_applied_to_every_frame() {
    let cfg = PublisherConfig {
        vlan: Some(VlanTag {
            priority: 4,
            dei: false,
            vid: 10,
        }),
        ..config()
    };
    let mut pub_ = Publisher::new(cfg).unwrap();
    let (f, mut re) = pub_.publish(vec![Value::boolean(true)], now()).unwrap();
    for f in [f, pub_.retransmit(&mut re).unwrap()] {
        let tag = f.vlan.expect("the frame carries its tag");
        assert_eq!(tag.priority, 4);
        assert_eq!(tag.vid, 10);
    }
    pub_.close();
}

fn message(go_cb_ref: &str, st_num: u32, sq_num: u32, tatl: u32) -> Message {
    Message {
        go_cb_ref: go_cb_ref.into(),
        st_num,
        sq_num,
        time_allowed_to_live: tatl,
        ..Default::default()
    }
}

#[test]
fn the_first_message_from_a_publisher_is_never_anomalous() {
    let mut t = SequenceTracker::new();
    // Even an odd-looking first message: there is nothing to compare it to.
    let a = t.observe(&message("gcb01", 42, 7, 2000), 0);
    assert_eq!(a, Anomalies::default());
    assert!(!a.any());
    assert_eq!(t.tracked_count(), 1);
}

#[test]
fn an_orderly_sequence_flags_nothing() {
    let mut t = SequenceTracker::new();
    let now = 5_000 * MS;
    t.observe(&message("gcb01", 1, 0, 2000), now);
    for sq in 1..=5 {
        let a = t.observe(&message("gcb01", 1, sq, 2000), now);
        assert!(!a.any(), "sqNum {sq} was flagged: {a:?}");
    }
    // A state change restarts the sequence at zero.
    let a = t.observe(&message("gcb01", 2, 0, 2000), now);
    assert!(!a.any(), "a clean state change was flagged: {a:?}");
}

/// A publisher that restarts begins counting again, which a subscriber has
/// to notice: its cached values are no longer trustworthy.
#[test]
fn a_state_number_going_backwards_is_flagged() {
    let mut t = SequenceTracker::new();
    let now = 5_000 * MS;
    t.observe(&message("gcb01", 9, 0, 2000), now);
    let a = t.observe(&message("gcb01", 1, 0, 2000), now);
    assert!(a.st_num_regressed);
}

#[test]
fn a_skipped_sequence_number_is_flagged() {
    let mut t = SequenceTracker::new();
    let now = 5_000 * MS;
    t.observe(&message("gcb01", 1, 0, 2000), now);
    let a = t.observe(&message("gcb01", 1, 3, 2000), now);
    assert!(a.sq_num_gap, "a lost frame must be visible");
    assert!(!a.st_num_regressed);
}

/// A new state that does not restart at zero means the state-change frame
/// itself was lost, which is the one frame that matters most.
#[test]
fn a_state_change_that_does_not_restart_the_sequence_is_flagged() {
    let mut t = SequenceTracker::new();
    let now = 5_000 * MS;
    t.observe(&message("gcb01", 1, 4, 2000), now);
    let a = t.observe(&message("gcb01", 2, 2, 2000), now);
    assert!(a.sq_num_gap);
}

/// Silence beyond the advertised lifetime is how a subscriber learns the
/// link or the publisher has failed.
#[test]
fn a_message_arriving_after_its_predecessors_lifetime_is_stale() {
    let mut t = SequenceTracker::new();
    let now = 5_000 * MS;
    t.observe(&message("gcb01", 1, 0, 100), now);

    let late = now + 250 * MS;
    let a = t.observe(&message("gcb01", 1, 1, 100), late);
    assert!(a.stale, "250ms of silence exceeded a 100ms lifetime");

    // And an on-time one is not.
    let on_time = late + 50 * MS;
    let a = t.observe(&message("gcb01", 1, 2, 100), on_time);
    assert!(!a.stale);
}

#[test]
fn each_control_block_is_tracked_separately() {
    let mut t = SequenceTracker::new();
    let now = 5_000 * MS;
    t.observe(&message("gcb01", 1, 0, 2000), now);
    t.observe(&message("gcb02", 5, 9, 2000), now);
    assert_eq!(t.tracked_count(), 2);

    // One publisher's sequence must not disturb the other's.
    let a = t.observe(&message("gcb01", 1, 1, 2000), now);
    assert!(!a.any(), "{a:?}");
    let a = t.observe(&message("gcb02", 5, 10, 2000), now);
    assert!(!a.any(), "{a:?}");
}

#[test]
fn a_sequence_number_that_wraps_is_no_gap() {
    let mut t = SequenceTracker::new();
    t.observe(&message("gcb01", 1, u32::MAX, 0), 0);
    let a = t.observe(&message("gcb01", 1, 0, 0), u64::MAX);
    assert!(!a.any(), "a lifetime of zero never ends, and 0 follows the last number: {a:?}");
}

#[test]
fn a_filter_selects_by_appid_and_control_block() {
    let mut m = message("gcb01", 1, 0, 2000);
    m.app_id = 0x1000;

    assert!(Filter::any().matches(&m), "an empty filter matches all");
    assert!(Filter::app_id(0x1000).matches(&m));
    assert!(!Filter::app_id(0x2000).matches(&m));

    let f = Filter {
        app_id: 0,
        go_cb_ref: "gcb01".into(),
    };
    assert!(f.matches(&m));
    let f = Filter {
        app_id: 0,
        go_cb_ref: "gcb99".into(),
    };
    assert!(!f.matches(&m));

    // Both fields have to match when both are set.
    let f = Filter {
        app_id: 0x2000,
        go_cb_ref: "gcb01".into(),
    };
    assert!(!f.matches(&m));
}

#[test]
fn a_subscriber_receives_what_a_publisher_sends() {
    let (a, b) = pipe();
    let mut pub_ = Publisher::new(PublisherConfig {
        app_id: 0x1000,
        go_cb_ref: "IED1LD0/LLN0$GO$gcb01".into(),
        go_id: "events".into(),
        retrans: vec![3_600_000 * MS],
        ..Default::default()
    })
    .unwrap();
    let mut sub = Subscription::new(Filter::app_id(0x1000));

    let mut got = Vec::new();
    for (at, on) in [(0, true), (100 * MS, false)] {
        let (f, _) = pub_.publish(vec![Value::boolean(on)], now()).unwrap();
        a.write_frame(&f).unwrap();
        while let Some(f) = b.try_read_frame() {
            let m = sub.receive(&f, at).expect("the message is delivered");
            got.push((m.st_num, m.values.first().is_some_and(Value::as_bool)));
        }
    }
    assert_eq!(got, [(1, true), (2, false)], "got {got:?}");

    sub.stop();
    let (f, _) = pub_.publish(vec![Value::boolean(true)], now()).unwrap();
    assert!(sub.receive(&f, 200 * MS).is_none(), "delivery has ended");
    pub_.close();
}

/// A publisher that falls silent is noticed once its timeAllowedToLive
/// passes (IEC 61850-8-1): once, and not while it is retransmitting.
#[test]
fn a_silent_publisher_expires_once_after_its_time_allowed_to_live() {
    let mut pub_ = Publisher::new(PublisherConfig {
        app_id: 0x1000,
        go_cb_ref: "IED1LD0/LLN0$GO$gcb01".into(),
        dat_set: "ds".into(),
        go_id: "g".into(),
        retrans: vec![20 * MS], // TAL 40 ms
        ..Default::default()
    })
    .unwrap();
    let mut sub = Subscription::new(Filter::app_id(0x1000));
    let mut watch = Supervision::new();
    assert_eq!(watch.poll(0), Watch::Wait);

    let mut expired = Vec::new();
    let mut time = 0;
    let (frame, mut re) = pub_.publish(vec![Value::boolean(true)], now()).unwrap();
    let mut frame = Some(frame);
    while time < 200 * MS {
        if let Some(f) = frame {
            let m = sub.receive(&f, time).expect("the message is delivered");
            assert_eq!(m.time_allowed_to_live, 40);
            watch.arrived(&m.go_cb_ref, m.time_allowed_to_live, time);
        }
        if let Watch::Expired(names) = watch.poll(time) {
            expired.extend(names);
        }
        time += pub_.delay(&re);
        frame = pub_.retransmit(&mut re);
    }
    assert!(expired.is_empty(), "expired while the publisher was retransmitting");
    pub_.close();
    let silent = time;
    while time < silent + 200 * MS {
        match watch.poll(time) {
            Watch::Expired(names) => expired.extend(names),
            Watch::WaitUntil(at) => time = at,
            Watch::Wait => time += 10 * MS,
            Watch::Stop => panic!("nobody stopped the supervision"),
        }
    }
    assert_eq!(expired, ["IED1LD0/LLN0$GO$gcb01"], "once per silence");

    // A message starts it anew.
    watch.arrived("IED1LD0/LLN0$GO$gcb01", 40, time);
    assert_eq!(watch.poll(time), Watch::WaitUntil(time + 40 * MS));
    assert_eq!(
        watch.poll(time + 40 * MS),
        Watch::Expired(vec!["IED1LD0/LLN0$GO$gcb01".into()])
    );
    watch.stop();
    assert_eq!(watch.poll(time), Watch::Stop);
}

/// numDatSetEntries that disagrees with allData is flagged.
#[test]
fn a_declared_entry_count_that_disagrees_is_flagged() {
    let mut sub = Subscription::new(Filter::any());
    let m = Message {
        go_cb_ref: "gcb01".into(),
        num_dat_set_entries: 3,
        values: vec![Value::boolean(true), Value::boolean(false)],
        ..Default::default()
    };
    let f = Frame {
        ether_type: ETHER_TYPE_GOOSE,
        payload: m.marshal(),
        ..Default::default()
    };
    let got = sub.receive(&f, 0).expect("the message arrives");
    assert!(got.anomalies.entries_mismatch, "3 entries declared, 2 sent: not flagged");
}

#[test]
fn a_filter_rejects_another_publishers_stream() {
    let mut pub_ = Publisher::new(PublisherConfig {
        app_id: 0x1000,
        go_cb_ref: "gcb01".into(),
        retrans: vec![3_600_000 * MS],
        ..Default::default()
    })
    .unwrap();
    let mut sub = Subscription::new(Filter::app_id(0x4000));
    let (f, _) = pub_.publish(vec![Value::boolean(true)], now()).unwrap();
    assert!(sub.receive(&f, 0).is_none(), "the filter let one through");
    pub_.close();
}

#[test]
fn other_protocols_and_malformed_messages_leave_no_trace() {
    let mut sub = Subscription::new(Filter::any());
    let good = sample().marshal();
    let frame = |ether_type: u16, payload: Vec<u8>| Frame {
        ether_type,
        payload,
        ..Default::default()
    };
    assert!(sub.receive(&frame(ETHER_TYPE_SV, good.clone()), 0).is_none());
    assert!(sub.receive(&frame(ETHER_TYPE_GOOSE, good[..20].to_vec()), 0).is_none());
    // The first one that counts is the first that was heard.
    let m = sub.receive(&frame(ETHER_TYPE_GOOSE, good), 0).unwrap();
    assert!(!m.anomalies.any());
}

#[test]
fn each_goose_error_has_an_input() {
    let err = parse(&[0; 7]).unwrap_err();
    assert_eq!(err, Error::Codec("apdu of 7 octets is truncated".into()));
    let mut b = sample().marshal();
    b[2] = 0xff;
    b[3] = 0xff;
    let text = parse(&b).unwrap_err().to_text();
    assert!(text.contains("length field 65535 in an apdu of"), "{text}");
    let closed = Error::Ethernet(iec61850::ethernet::Error::Closed);
    assert!(closed.to_text().contains("the interface is closed"));
    assert!(!Error::Closed.to_text().is_empty());
}

#[test]
fn a_message_cut_within_its_length_is_refused() {
    let b = sample().marshal();
    for n in 0..b.len() {
        assert!(parse(&b[..n]).is_err(), "cut at {n}");
    }
    let mut padded = b.clone();
    padded.extend_from_slice(&[0; 20]);
    for n in b.len()..padded.len() {
        assert!(parse(&padded[..n]).is_ok(), "only padding is cut at {n}");
    }
}

#[test]
fn the_state_number_counts_the_states() {
    let mut p = Publisher::new(config()).unwrap();
    for k in 1..=5 {
        let (f, _) = p.publish(vec![Value::boolean(k % 2 == 0)], now()).unwrap();
        assert_eq!(p.st_num(), k);
        assert_eq!(f.ether_type, 0x88b8);
        let m = parse(&f.payload).unwrap();
        assert_eq!((m.st_num, m.sq_num, m.num_dat_set_entries), (k, 0, 1));
        assert_eq!(m.values, [Value::boolean(k % 2 == 0)]);
    }
}
