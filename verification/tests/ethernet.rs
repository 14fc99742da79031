//! Layer-2 frames, the in-memory segment, and the decisions of the raw socket.

use iec61850::ethernet::afpacket::{
    bind_protocol, deliver, htons, on_read_failure, wants, ReadFailure, ETH_P_ALL,
};
use iec61850::ethernet::pipe::{End, Poll, Segment, PIPE_DEPTH};
use iec61850::ethernet::{
    parse_frame, pipe, Error, Frame, PipeEnd, VlanTag, ETHER_TYPE_GOOSE, ETHER_TYPE_SV,
    ETHER_TYPE_VLAN,
};

fn sample(vlan: Option<VlanTag>) -> Frame {
    Frame {
        dst: [0x01, 0x0c, 0xcd, 0x01, 0x00, 0x01],
        src: [0x00, 0x11, 0x22, 0x33, 0x44, 0x55],
        ether_type: ETHER_TYPE_GOOSE,
        vlan,
        payload: vec![0x61, 0x03, 0x80, 0x01, 0x00],
    }
}

#[test]
fn an_untagged_frame_round_trips() {
    let f = sample(None);
    let b = f.marshal();
    assert_eq!(b.len(), f.encoded_len());
    assert_eq!(b.len(), 14 + 5);
    assert_eq!(parse_frame(&b).unwrap(), f);
}

/// The tag sits between the source address and the EtherType, so a parser
/// that ignores it reads the tag as the protocol and the payload from four
/// octets too early.
#[test]
fn a_tagged_frame_round_trips_with_its_tag() {
    let f = sample(Some(VlanTag {
        priority: 4,
        dei: false,
        vid: 0x00a,
    }));
    let b = f.marshal();
    assert_eq!(b.len(), 14 + 4 + 5);
    // The tag protocol identifier is where the EtherType would be.
    assert_eq!(&b[12..14], &[0x81, 0x00]);
    // And the real EtherType follows the tag.
    assert_eq!(&b[16..18], &ETHER_TYPE_GOOSE.to_be_bytes());

    let back = parse_frame(&b).unwrap();
    assert_eq!(back, f);
    assert_eq!(back.ether_type, ETHER_TYPE_GOOSE, "the inner protocol wins");
    assert_eq!(back.payload, f.payload);
}

#[test]
fn the_tag_control_field_packs_its_three_parts() {
    for (priority, dei, vid) in [(0u8, false, 0u16), (7, true, 4095), (4, false, 10)] {
        let tag = VlanTag { priority, dei, vid };
        let f = sample(Some(tag));
        let back = parse_frame(&f.marshal()).unwrap().vlan.unwrap();
        assert_eq!(back, tag, "tag round trip failed for {tag:?}");
    }
}

#[test]
fn a_priority_only_tag_stays_on_the_native_vlan() {
    let tag = VlanTag::priority(4);
    assert_eq!(tag.priority, 4);
    assert_eq!(tag.vid, 0);
    assert!(!tag.dei);
    // A priority above 7 cannot be encoded and is masked rather than
    // corrupting the VLAN identifier beside it.
    assert_eq!(VlanTag::priority(9).priority, 1);
}

#[test]
fn addresses_and_protocol_land_in_the_right_places() {
    let b = sample(None).marshal();
    assert_eq!(&b[0..6], &[0x01, 0x0c, 0xcd, 0x01, 0x00, 0x01], "dst first");
    assert_eq!(&b[6..12], &[0x00, 0x11, 0x22, 0x33, 0x44, 0x55], "then src");
    assert_eq!(&b[12..14], &[0x88, 0xb8], "then the EtherType");
}

#[test]
fn both_iec_61850_protocols_survive_the_round_trip() {
    for et in [ETHER_TYPE_GOOSE, ETHER_TYPE_SV] {
        let mut f = sample(None);
        f.ether_type = et;
        assert_eq!(parse_frame(&f.marshal()).unwrap().ether_type, et);
    }
}

#[test]
fn runt_frames_are_rejected_rather_than_panicking() {
    assert!(parse_frame(&[]).is_err());
    assert!(parse_frame(&[0; 13]).is_err());
    // Exactly a header and nothing else is a valid, empty frame.
    assert!(parse_frame(&[0; 14]).is_ok());
    assert!(parse_frame(&parse_frame(&[0; 14]).unwrap().marshal()).is_ok());

    // A frame that announces a tag but is cut off inside it.
    let mut b = vec![0u8; 16];
    b[12] = 0x81;
    b[13] = 0x00;
    assert!(parse_frame(&b).is_err());
}

#[test]
fn an_empty_payload_is_preserved() {
    let f = Frame {
        payload: Vec::new(),
        ether_type: ETHER_TYPE_GOOSE,
        ..Default::default()
    };
    let back = parse_frame(&f.marshal()).unwrap();
    assert!(back.payload.is_empty());
    assert_eq!(back, f);
}

/// An untagged frame whose EtherType is the tag identifier reads as a tagged
/// one: the one protocol number that an untagged frame cannot carry.
#[test]
fn the_tag_identifier_is_no_protocol_of_its_own() {
    let mut f = sample(None);
    f.ether_type = ETHER_TYPE_VLAN;
    let back = parse_frame(&f.marshal()).unwrap();
    assert_ne!(back, f);
    assert!(back.vlan.is_some());
}

#[test]
fn a_tag_control_field_is_read_back() {
    assert_eq!(VlanTag { priority: 5, dei: true, vid: 0x123 }.tci(), 0xb123);
    assert_eq!(VlanTag::from_tci(0xb123), VlanTag { priority: 5, dei: true, vid: 0x123 });
}

fn frame(payload: &[u8]) -> Frame {
    Frame {
        dst: [0x01, 0x0c, 0xcd, 0x01, 0x00, 0x01],
        ether_type: ETHER_TYPE_GOOSE,
        payload: payload.to_vec(),
        ..Default::default()
    }
}

/// A read that is only made where something is there, or nothing will come.
fn read(end: &PipeEnd) -> Result<Frame, Error> {
    match end.poll_frame() {
        Poll::Frame(f) => Ok(f),
        Poll::Closed => Err(Error::Closed),
        Poll::Wait => panic!("the read would block"),
    }
}

#[test]
fn a_frame_written_at_one_end_arrives_at_the_other() {
    let (a, b) = pipe();
    a.write_frame(&frame(b"hello")).unwrap();
    let got = read(&b).unwrap();
    assert_eq!(got.payload, b"hello");
    assert_eq!(got.ether_type, ETHER_TYPE_GOOSE);

    // And the reverse direction is independent.
    b.write_frame(&frame(b"world")).unwrap();
    assert_eq!(read(&a).unwrap().payload, b"world");
}

#[test]
fn frames_arrive_in_the_order_they_were_written() {
    let (a, b) = pipe();
    for i in 0u8..8 {
        a.write_frame(&frame(&[i])).unwrap();
    }
    for i in 0u8..8 {
        assert_eq!(read(&b).unwrap().payload, [i]);
    }
}

/// A publisher must be able to reuse its buffer, so the pipe copies.
#[test]
fn a_written_frame_is_copied() {
    let (a, b) = pipe();
    let mut f = frame(b"first");
    a.write_frame(&f).unwrap();
    f.payload = b"second".to_vec();
    a.write_frame(&f).unwrap();

    assert_eq!(read(&b).unwrap().payload, b"first");
    assert_eq!(read(&b).unwrap().payload, b"second");
}

/// A subscriber that waits has to notice the close, or its task outlives the
/// interface.
#[test]
fn closing_unblocks_a_waiting_reader() {
    let (a, b) = pipe();
    assert_eq!(b.poll_frame(), Poll::Wait);
    b.close().unwrap();
    assert_eq!(b.poll_frame(), Poll::Closed);
    assert!(matches!(read(&a), Err(Error::Closed)));
}

#[test]
fn closing_is_idempotent_and_both_ends_see_it() {
    let (a, b) = pipe();
    a.close().unwrap();
    a.close().unwrap();
    assert!(matches!(a.write_frame(&frame(b"x")), Err(Error::Closed)));
    assert!(matches!(b.write_frame(&frame(b"x")), Err(Error::Closed)));
}

#[test]
fn a_non_blocking_read_returns_what_is_waiting_and_then_nothing() {
    let (a, b) = pipe();
    assert!(b.try_read_frame().is_none(), "nothing has been sent yet");

    a.write_frame(&frame(b"one")).unwrap();
    a.write_frame(&frame(b"two")).unwrap();
    assert_eq!(b.try_read_frame().unwrap().payload, b"one");
    assert_eq!(b.try_read_frame().unwrap().payload, b"two");
    assert!(
        b.try_read_frame().is_none(),
        "a drained pipe must not block or repeat"
    );
}

/// A saturated segment drops frames rather than stalling the publisher,
/// which is what a real one does and what keeps a retransmission clock
/// honest.
#[test]
fn a_full_pipe_drops_rather_than_blocking() {
    let (a, _b) = pipe();
    for i in 0..PIPE_DEPTH * 2 {
        a.write_frame(&frame(&[i as u8]))
            .expect("writing never blocks or fails on a full pipe");
    }
}

#[test]
fn what_a_full_pipe_holds_is_what_came_first() {
    let (a, b) = pipe();
    for i in 0..PIPE_DEPTH * 2 {
        a.write_frame(&frame(&[i as u8])).unwrap();
    }
    for i in 0..PIPE_DEPTH {
        assert_eq!(b.try_read_frame().unwrap().payload, [i as u8]);
    }
    assert!(b.try_read_frame().is_none());
}

#[test]
fn a_reader_gets_what_was_under_way_when_the_other_end_was_dropped() {
    let (a, b) = pipe();
    a.write_frame(&frame(b"last")).unwrap();
    assert!(b.write_frame(&frame(b"x")).is_ok());
    drop(a);
    assert!(matches!(b.write_frame(&frame(b"x")), Err(Error::Closed)));
    assert_eq!(read(&b).unwrap().payload, b"last");
    assert!(matches!(read(&b), Err(Error::Closed)));
    assert!(b.try_read_frame().is_none());
}

#[test]
fn the_second_end_can_be_dropped_too() {
    let (a, b) = pipe();
    assert_eq!(a.poll_frame(), Poll::Wait);
    drop(b);
    assert_eq!(a.poll_frame(), Poll::Closed);
    assert!(matches!(a.write_frame(&frame(b"x")), Err(Error::Closed)));
}

#[test]
fn a_segment_whose_ends_are_both_held_goes_on() {
    let mut s = Segment::new();
    s.count_ends(End::A, 2);
    assert_eq!(s.poll_frame(End::A), Poll::Wait);
    s.count_ends(End::A, 1);
    assert_eq!(s.poll_frame(End::A), Poll::Closed);
    assert!(matches!(s.write_frame(End::A, &frame(b"x")), Err(Error::Closed)));
}

#[test]
fn a_segment_keeps_its_directions_apart() {
    let mut s = Segment::new();
    s.write_frame(End::A, &frame(b"east")).unwrap();
    assert!(s.try_read_frame(End::A).is_none());
    assert_eq!(s.poll_frame(End::B), Poll::Frame(frame(b"east")));
    assert_eq!(s.poll_frame(End::B), Poll::Wait);
}

#[test]
fn htons_puts_the_protocol_in_network_order() {
    // The value the kernel expects is big-endian whatever the host is.
    assert_eq!(htons(0x88b8), 0x88b8u16.to_be_bytes());
}

#[test]
fn one_protocol_is_filtered_in_the_kernel() {
    assert_eq!(bind_protocol(&[ETHER_TYPE_GOOSE]), ETHER_TYPE_GOOSE);
    assert_eq!(bind_protocol(&[]), ETH_P_ALL);
    assert_eq!(bind_protocol(&[ETHER_TYPE_GOOSE, ETHER_TYPE_SV]), ETH_P_ALL);
    assert!(wants(&[], ETHER_TYPE_SV));
    assert!(wants(&[ETHER_TYPE_GOOSE, ETHER_TYPE_SV], ETHER_TYPE_SV));
    assert!(!wants(&[ETHER_TYPE_GOOSE], ETHER_TYPE_SV));
}

#[test]
fn the_protocol_behind_a_tag_is_the_one_compared() {
    let tagged = sample(Some(VlanTag::priority(4)));
    assert_eq!(deliver(&[ETHER_TYPE_GOOSE], &tagged.marshal()), Some(sample(Some(VlanTag::priority(4)))));
    assert_eq!(deliver(&[ETHER_TYPE_SV], &tagged.marshal()), None);
    assert_eq!(deliver(&[], &[0; 13]), None);
}

#[test]
fn a_timeout_is_how_the_closed_flag_gets_polled() {
    assert_eq!(on_read_failure(true, true), ReadFailure::Retry);
    assert_eq!(on_read_failure(false, true), ReadFailure::Closed);
    assert_eq!(on_read_failure(false, false), ReadFailure::Report);
}

#[test]
fn each_transport_error_reads_as_itself() {
    assert_eq!(Error::Closed.to_text(), "ethernet: the interface is closed");
    assert_eq!(Error::Io("no such device".to_string()).to_text(), "ethernet: no such device");
    assert_eq!(
        Error::Unsupported.to_text(),
        "ethernet: raw layer-2 access is not supported on this platform; use pipe() for tests"
    );
    let short = parse_frame(&[0; 13]).unwrap_err();
    assert!(matches!(short, Error::Frame(_)));
    assert!(short.to_text().starts_with("ethernet: "));
}
