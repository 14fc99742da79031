//! The decisions of the Linux AF_PACKET `SOCK_RAW` backend: which protocol the
//! socket is bound to, what a received buffer comes to, and how a failed read
//! is answered. The system calls themselves are made by the program.

use vstd::prelude::*;

use super::{parse_frame, Frame};
use super::frame::frame_of;

verus! {

/// The largest frame the socket will read, sized for jumbo frames since a
/// sampled-value stream may use them.
pub const READ_BUFFER: usize = 9216;

/// How long a read blocks before checking the closed flag.
///
/// Without a timeout, `close` could not unblock a reader, and a subscriber
/// task would outlive its interface.
pub const READ_TIMEOUT_MS: i64 = 200;

/// The protocol number that stands for every protocol.
pub const ETH_P_ALL: u16 = 3;

/// The two octets of a 16-bit value in network byte order, as the AF_PACKET
/// protocol fields require.
pub fn htons(v: u16) -> (octets: [u8; 2])
    ensures
        octets@ == crate::octets::be_bytes(v as nat, 2),
{
    let octets: [u8; 2] = [(v / 256) as u8, (v % 256) as u8];
    proof {
        reveal_with_fuel(crate::octets::be_bytes, 3);
    }
    assert(octets@ =~= crate::octets::be_bytes(v as nat, 2));
    octets
}

/// The protocol to bind the socket to: one requested EtherType is also
/// filtered in the kernel; otherwise everything is received and filtered here.
pub fn bind_protocol(ether_types: &[u16]) -> (p: u16)
    ensures
        p == (if ether_types@.len() == 1 {
            ether_types@[0]
        } else {
            ETH_P_ALL
        }),
{
    if ether_types.len() == 1 {
        ether_types[0]
    } else {
        ETH_P_ALL
    }
}

/// Whether a filter of EtherTypes lets `et` through; an empty one lets
/// everything through.
pub open spec fn wanted(filter: Seq<u16>, et: u16) -> bool {
    filter.len() == 0 || filter.contains(et)
}

/// Reports whether frames of EtherType `et` are to be delivered.
pub fn wants(filter: &[u16], et: u16) -> (b: bool)
    ensures
        b == wanted(filter@, et),
{
    if filter.is_empty() {
        return true;
    }
    let mut i: usize = 0;
    while i < filter.len()
        invariant
            i <= filter@.len(),
            forall|j: int| 0 <= j < i ==> filter@[j] != et,
        decreases filter@.len() - i,
    {
        if filter[i] == et {
            return true;
        }
        i = i + 1;
    }
    false
}

/// The frame to deliver for a received buffer, compared after VLAN
/// decapsulation; `None` for a runt frame and for one that is not wanted.
pub fn deliver(filter: &[u16], received: &[u8]) -> (r: Option<Frame>)
    ensures
        match (r, frame_of(received@)) {
            (Some(f), Ok(v)) => f@ == v && wanted(filter@, v.ether_type),
            (None, Ok(v)) => !wanted(filter@, v.ether_type),
            (None, Err(_)) => true,
            (Some(_), Err(_)) => false,
        },
{
    match parse_frame(received) {
        Ok(f) => if wants(filter, f.ether_type) {
            Some(f)
        } else {
            None
        },
        Err(_) => None,
    }
}

/// What a reader does after a failed read.
#[derive(Debug, Clone, Copy, PartialEq, Eq, Structural)]
pub enum ReadFailure {
    /// Read again.
    Retry,
    /// Report that the interface is closed.
    Closed,
    /// Report the failure.
    Report,
}

/// The answer to a failed read. A receive timeout and a signal are not
/// failures: the timeout is how the closed flag gets polled.
pub fn on_read_failure(timeout_or_signal: bool, closed: bool) -> (a: ReadFailure)
    ensures
        a == (if timeout_or_signal {
            ReadFailure::Retry
        } else if closed {
            ReadFailure::Closed
        } else {
            ReadFailure::Report
        }),
{
    if timeout_or_signal {
        ReadFailure::Retry
    } else if closed {
        ReadFailure::Closed
    } else {
        ReadFailure::Report
    }
}

/// A frame is delivered where nothing is asked for or its EtherType is among
/// what is, and asking for one type more lets that one through besides.
pub proof fn a_type_more_lets_its_frames_through(filter: Seq<u16>, more: u16, et: u16)
    ensures
        wanted(Seq::empty(), et),
        wanted(seq![more], et) <==> et == more,
        filter.len() > 0 ==> (wanted(filter.push(more), et) <==> wanted(filter, et) || et == more),
{
    assert(seq![more][0] == more);
    if filter.len() > 0 {
        assert(filter.push(more)[filter.len() as int] == more);
        if filter.contains(et) {
            let i = choose|i: int| 0 <= i < filter.len() && filter[i] == et;
            assert(filter.push(more)[i] == et);
        }
        if filter.push(more).contains(et) && et != more {
            let i = choose|i: int|
                0 <= i < filter.push(more).len() && filter.push(more)[i] == et;
            assert(filter[i] == et);
        }
    }
}

} // verus!
