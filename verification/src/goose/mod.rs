//! The IEC 61850-8-1 GOOSE mapping over raw Ethernet.
//!
//! GOOSE carries protection-critical status between IEDs on a switched
//! segment, with no acknowledgement: reliability comes from repeating each
//! state change on a fast, decaying schedule and from a subscriber that
//! notices gaps. This module has the `goosePdu` codec, the retransmission
//! state machine of a publisher, and the receive step of a subscriber with
//! anomaly detection.

use vstd::prelude::*;

use crate::text::push_str;

pub mod message;
pub mod publisher;
pub mod subscriber;

pub use message::{parse, Anomalies, Message};
pub use publisher::{Publisher, PublisherConfig, Retransmission, DEFAULT_RETRANS};
pub use subscriber::{Filter, SequenceTracker, Subscription, Supervision, Watch};

verus! {

/// Errors raised by the GOOSE layer.
#[derive(Debug, Clone, PartialEq, Eq)]
pub enum Error {
    Codec(String),
    Config(String),
    Ethernet(crate::ethernet::Error),
    Closed,
}

impl Error {
    /// The message of the error.
    pub open spec fn text(self) -> Seq<char> {
        match self {
            Error::Codec(what) => "goose: "@ + what@,
            Error::Config(what) => "goose: "@ + what@,
            Error::Ethernet(e) => e.text(),
            Error::Closed => "goose: the publisher is closed"@,
        }
    }

    /// Writes the message of the error.
    pub fn to_text(&self) -> (s: String)
        ensures
            s@ == self.text(),
    {
        let mut s = String::new();
        match self {
            Error::Codec(what) => {
                push_str(&mut s, "goose: ");
                push_str(&mut s, what.as_str());
            },
            Error::Config(what) => {
                push_str(&mut s, "goose: ");
                push_str(&mut s, what.as_str());
            },
            Error::Ethernet(e) => {
                return e.to_text();
            },
            Error::Closed => push_str(&mut s, "goose: the publisher is closed"),
        }
        assert(s@ =~= self.text());
        s
    }
}

/// Result alias for the GOOSE layer.
pub type Result<T> = std::result::Result<T, Error>;

/// Returns the standard GOOSE multicast destination address for an offset
/// within the reserved range `01-0C-CD-01-00-00`..`01-0C-CD-01-01-FF`.
pub fn default_mac(offset: u16) -> (mac: [u8; 6])
    ensures
        mac@ == seq![
            0x01u8,
            0x0c,
            0xcd,
            0x01,
            (offset / 256 % 2) as u8,
            (offset % 256) as u8,
        ],
{
    let mac: [u8; 6] = [
        0x01,
        0x0c,
        0xcd,
        0x01,
        (offset / 256 % 2) as u8,
        (offset % 256) as u8,
    ];
    assert(mac@ =~= seq![
        0x01u8,
        0x0c,
        0xcd,
        0x01,
        (offset / 256 % 2) as u8,
        (offset % 256) as u8,
    ]);
    mac
}

} // verus!
